//! Activation requests from a second launch: it rewrites a signal file,
//! and the running instance polls that file's modification time.
//!
//! Instants are nanoseconds on the caller's monotonic clock; modification
//! times are nanoseconds from the Unix epoch (negative before it).

use vstd::prelude::*;

use crate::path::{FsPath, PartView};

verus! {

/// Minimum time between two looks at the signal file: 250 ms.
pub const POLL_INTERVAL_NANOS: u64 = 250_000_000;

/// Watches the activation signal file.
#[derive(Debug)]
pub struct ActivationWatcher {
    path: FsPath,
    last_modified: Option<i128>,
    last_poll: u64,
}

pub struct WatcherView {
    pub path: Seq<PartView>,
    pub last_modified: Option<i128>,
    pub last_poll: u64,
}

impl View for ActivationWatcher {
    type V = WatcherView;

    closed spec fn view(&self) -> WatcherView {
        WatcherView { path: self.path@, last_modified: self.last_modified, last_poll: self.last_poll }
    }
}

/// The file's modification time `modified` is news when nothing was seen
/// before or it is later than what was seen.
pub open spec fn is_newer(seen: Option<i128>, modified: i128) -> bool {
    match seen {
        Some(previous) => modified > previous,
        None => true,
    }
}

/// The outcome of a poll at `now`, given the file's modification time then
/// (`None` when it cannot be read): whether an activation is reported, and
/// the watcher afterwards. Within the interval since the last poll nothing
/// is looked at or changed.
pub open spec fn poll_outcome(w: WatcherView, now: u64, modified: Option<i128>) -> (bool, WatcherView) {
    if now < w.last_poll + POLL_INTERVAL_NANOS {
        (false, w)
    } else {
        let polled = WatcherView { last_poll: now, ..w };
        match modified {
            None => (false, polled),
            Some(m) => if is_newer(w.last_modified, m) {
                (true, WatcherView { last_modified: Some(m), ..polled })
            } else {
                (false, polled)
            },
        }
    }
}

impl ActivationWatcher {
    /// A watcher of `path`, whose modification time is `modified` (`None`
    /// when it cannot be read), created at `now`.
    pub fn new(path: FsPath, modified: Option<i128>, now: u64) -> (r: ActivationWatcher)
        ensures
            r@ == (WatcherView { path: path@, last_modified: modified, last_poll: now }),
    {
        ActivationWatcher { path, last_modified: modified, last_poll: now }
    }

    /// The signal file.
    pub fn path(&self) -> (r: &FsPath)
        ensures
            r@ == self@.path,
    {
        &self.path
    }

    /// Polls at `now`, `modified` being the file's modification time then;
    /// true when another instance asked for activation since the last
    /// report (see `poll_outcome`).
    pub fn poll(&mut self, now: u64, modified: Option<i128>) -> (r: bool)
        ensures
            (r, final(self)@) == poll_outcome(old(self)@, now, modified),
    {
        let elapsed = if now >= self.last_poll {
            now - self.last_poll
        } else {
            0
        };
        if elapsed < POLL_INTERVAL_NANOS {
            return false;
        }
        self.last_poll = now;
        match modified {
            None => false,
            Some(m) => {
                let changed = match self.last_modified {
                    Some(previous) => m > previous,
                    None => true,
                };
                if changed {
                    self.last_modified = Some(m);
                }
                changed
            },
        }
    }
}

/// One change of the signal file is reported once: a later poll that sees
/// the same modification time reports nothing.
pub proof fn law_change_reported_once(w: WatcherView, now: u64, later: u64, m: i128)
    requires
        poll_outcome(w, now, Some(m)).0,
    ensures
        !poll_outcome(poll_outcome(w, now, Some(m)).1, later, Some(m)).0,
{
}

/// Polls closer together than the interval report nothing and change
/// nothing.
pub proof fn law_polls_are_spaced(w: WatcherView, now: u64, modified: Option<i128>)
    requires
        now < w.last_poll + POLL_INTERVAL_NANOS,
    ensures
        poll_outcome(w, now, modified) == (false, w),
{
}

/// A later modification time seen after the interval is reported.
pub proof fn law_newer_change_reported(w: WatcherView, now: u64, m: i128)
    requires
        now >= w.last_poll + POLL_INTERVAL_NANOS,
        is_newer(w.last_modified, m),
    ensures
        poll_outcome(w, now, Some(m)).0,
        poll_outcome(w, now, Some(m)).1.last_modified == Some(m),
{
}

} // verus!
