//! Autosave bookkeeping of one open note.
//!
//! Instants are nanoseconds on the caller's monotonic clock, durations are
//! nanoseconds.

use vstd::prelude::*;

verus! {

/// Whether the note has unsaved edits, since when the save is pending, and
/// the last save error.
#[derive(Debug)]
pub struct AutosaveState {
    dirty: bool,
    pending_since: Option<u64>,
    last_error: Option<String>,
}

pub struct AutosaveView {
    pub dirty: bool,
    pub pending_since: Option<u64>,
    pub last_error: Option<Seq<char>>,
}

impl View for AutosaveState {
    type V = AutosaveView;

    closed spec fn view(&self) -> AutosaveView {
        AutosaveView {
            dirty: self.dirty,
            pending_since: self.pending_since,
            last_error: match self.last_error {
                Some(e) => Some(e@),
                None => None,
            },
        }
    }
}

/// Nothing to save, no error.
pub open spec fn clean_state() -> AutosaveView {
    AutosaveView { dirty: false, pending_since: None, last_error: None }
}

/// The state after an edit at `now`: dirty, pending since `now` (a new edit
/// restarts the wait), error cleared.
pub open spec fn after_change(now: u64) -> AutosaveView {
    AutosaveView { dirty: true, pending_since: Some(now), last_error: None }
}

/// The state after a failed save: unchanged but for the error message.
pub open spec fn after_failure(s: AutosaveView, message: Seq<char>) -> AutosaveView {
    AutosaveView { last_error: Some(message), ..s }
}

/// Time from `earlier` to `now`, zero when `now` is earlier
/// (`Instant::saturating_duration_since`).
pub open spec fn elapsed_since(now: u64, earlier: u64) -> int {
    if now >= earlier {
        now - earlier
    } else {
        0
    }
}

/// A save is due at `now`: the note is dirty and the edit has been pending
/// for at least `delay`.
pub open spec fn save_due(s: AutosaveView, now: u64, delay: u64) -> bool {
    s.dirty && match s.pending_since {
        Some(started) => elapsed_since(now, started) >= delay,
        None => false,
    }
}

impl Default for AutosaveState {
    fn default() -> (r: AutosaveState)
        ensures
            r@ == clean_state(),
    {
        AutosaveState { dirty: false, pending_since: None, last_error: None }
    }
}

impl Clone for AutosaveState {
    fn clone(&self) -> (r: Self)
        ensures
            r@ == self@,
    {
        let last_error = match &self.last_error {
            Some(e) => Some(e.clone()),
            None => None,
        };
        AutosaveState { dirty: self.dirty, pending_since: self.pending_since, last_error }
    }
}

impl AutosaveState {
    /// Records an edit made at `now`.
    pub fn mark_changed(&mut self, now: u64)
        ensures
            final(self)@ == after_change(now),
    {
        self.dirty = true;
        self.pending_since = Some(now);
        self.last_error = None;
    }

    /// Whether the note should be saved at `now`, with the idle `delay`.
    pub fn due(&self, now: u64, delay: u64) -> (r: bool)
        ensures
            r == save_due(self@, now, delay),
    {
        self.dirty && match self.pending_since {
            Some(started) => {
                let elapsed = if now >= started {
                    now - started
                } else {
                    0
                };
                elapsed >= delay
            },
            None => false,
        }
    }

    pub fn dirty(&self) -> (r: bool)
        ensures
            r == self@.dirty,
    {
        self.dirty
    }

    pub fn pending_since(&self) -> (r: Option<u64>)
        ensures
            r == self@.pending_since,
    {
        self.pending_since
    }

    pub fn last_error(&self) -> (r: Option<&str>)
        ensures
            match r {
                Some(e) => self@.last_error == Some(e@),
                None => self@.last_error is None,
            },
    {
        match &self.last_error {
            Some(e) => Some(e.as_str()),
            None => None,
        }
    }

    /// Records a successful save.
    pub fn mark_saved(&mut self)
        ensures
            final(self)@ == clean_state(),
    {
        self.dirty = false;
        self.pending_since = None;
        self.last_error = None;
    }

    /// Records a failed save; the edit stays pending.
    pub fn mark_failed(&mut self, message: &str)
        ensures
            final(self)@ == after_failure(old(self)@, message@),
    {
        self.last_error = Some(message.to_owned());
    }
}

/// After an edit at `t`, a save becomes due exactly when `delay` has passed.
pub proof fn law_due_after_idle_delay(t: u64, now: u64, delay: u64)
    requires
        now >= t,
    ensures
        save_due(after_change(t), now, delay) <==> now - t >= delay,
{
}

/// Once due, a save stays due as time goes on.
pub proof fn law_due_is_monotonic(s: AutosaveView, now: u64, later: u64, delay: u64)
    requires
        save_due(s, now, delay),
        later >= now,
    ensures
        save_due(s, later, delay),
{
}

/// A new edit restarts the wait: only the latest edit time counts.
pub proof fn law_edit_restarts_wait(t1: u64, t2: u64, now: u64, delay: u64)
    requires
        now >= t2,
        t2 >= t1,
    ensures
        save_due(after_change(t2), now, delay) ==> save_due(after_change(t1), now, delay),
        save_due(after_change(t2), now, delay) <==> now - t2 >= delay,
{
}

/// A failed save keeps the note dirty and the save due as before.
pub proof fn law_failure_keeps_pending(s: AutosaveView, message: Seq<char>, now: u64, delay: u64)
    ensures
        after_failure(s, message).dirty == s.dirty,
        after_failure(s, message).pending_since == s.pending_since,
        save_due(after_failure(s, message), now, delay) == save_due(s, now, delay),
{
}

/// After a successful save nothing is due, whatever the time.
pub proof fn law_saved_is_never_due(now: u64, delay: u64)
    ensures
        !save_due(clean_state(), now, delay),
        !clean_state().dirty,
        clean_state().pending_since is None,
{
}

/// One step of the autosave bookkeeping of a note.
pub enum AutosaveStep {
    /// `mark_changed` at the given instant.
    Changed(u64),
    /// `mark_saved`.
    Saved,
    /// `mark_failed` with the given message.
    Failed(Seq<char>),
}

/// The state reached from the clean state by `steps`, in order.
pub open spec fn after_steps(steps: Seq<AutosaveStep>) -> AutosaveView
    decreases steps.len(),
{
    if steps.len() == 0 {
        clean_state()
    } else {
        let s = after_steps(steps.drop_last());
        match steps.last() {
            AutosaveStep::Changed(now) => after_change(now),
            AutosaveStep::Saved => clean_state(),
            AutosaveStep::Failed(message) => after_failure(s, message),
        }
    }
}

/// In every state reached from the default one by edits, saves and failed
/// saves, the note is dirty exactly when a save is pending since some
/// instant.
pub proof fn law_dirty_exactly_when_pending(steps: Seq<AutosaveStep>)
    ensures
        after_steps(steps).dirty <==> after_steps(steps).pending_since is Some,
    decreases steps.len(),
{
    if steps.len() > 0 {
        law_dirty_exactly_when_pending(steps.drop_last());
    }
}

} // verus!
