//! State of the desktop application: the loaded notes, which of them are
//! open in note windows and where, autosave and session bookkeeping, and
//! the status banner. Every decision of the desktop front end is made
//! here; the front end performs the file writes and the drawing.
//!
//! Instants are nanoseconds on the caller's monotonic clock, durations are
//! nanoseconds.

use vstd::prelude::*;

use crate::autosave::{elapsed_since, after_change, after_failure, clean_state, save_due, AutosaveState, AutosaveView};
use crate::messages::{message_text, MessageCatalog, MessageView};
use crate::model::{note_window_placement, HistoryConfig, StoredNote, SessionView, StoredNoteView, WindowView, Config, ConfigView, LocatorView, Note, NoteLocator, NoteView, ResolvedLocale, WindowPlacement, WindowPosition, WindowSize};
use crate::order::{sort_ranked, Ranked};
use crate::path::{FsPath, compare_paths, lemma_path_before_asymmetric, lemma_path_before_irreflexive, lemma_path_before_total, lemma_path_before_transitive, path_before, same_path};
use crate::text::{concat_strs, trim_to_string, trimmed, chars_before, compare_strs, lemma_chars_before_asymmetric, lemma_chars_before_irreflexive, lemma_chars_before_total, lemma_chars_before_transitive, Order};
use crate::storage::{initial_windows, law_initial_windows_open_when_notes_exist, law_initial_windows_show_loaded_notes_once, note_locators, resolve_initial_windows, window_views};

verus! {

broadcast use {vstd::seq_lib::group_to_multiset_ensures, vstd::multiset::group_multiset_axioms};

/// An open note window: where it stands and its autosave state.
#[derive(Debug)]
pub struct NoteEditor {
    pub placement: WindowPlacement,
    pub autosave: AutosaveState,
}

/// A loaded note and, when it is open, its window.
#[derive(Debug)]
pub struct NoteDocument {
    pub locator: NoteLocator,
    pub note: Note,
    pub editor: Option<NoteEditor>,
}

pub struct EditorView {
    pub placement: WindowPlacement,
    pub autosave: AutosaveView,
}

pub struct DocView {
    pub locator: LocatorView,
    pub note: NoteView,
    pub editor: Option<EditorView>,
}

impl View for NoteEditor {
    type V = EditorView;

    open spec fn view(&self) -> EditorView {
        EditorView { placement: self.placement, autosave: self.autosave@ }
    }
}

impl View for NoteDocument {
    type V = DocView;

    open spec fn view(&self) -> DocView {
        DocView {
            locator: self.locator@,
            note: self.note@,
            editor: match self.editor {
                Some(e) => Some(e@),
                None => None,
            },
        }
    }
}

/// The state of the desktop application.
#[derive(Debug)]
pub struct DeskState {
    config: Config,
    messages: MessageCatalog,
    locale: ResolvedLocale,
    management_window: WindowPlacement,
    documents: Vec<NoteDocument>,
    open_order: Vec<NoteLocator>,
    next_window_index: usize,
    session_dirty: bool,
    last_session_save: u64,
    banner: Option<String>,
}

pub struct DeskView {
    pub config: ConfigView,
    pub messages: Seq<(Seq<char>, MessageView)>,
    pub locale: ResolvedLocale,
    pub management_window: WindowPlacement,
    pub documents: Seq<DocView>,
    pub open_order: Seq<LocatorView>,
    pub next_window_index: usize,
    pub session_dirty: bool,
    pub last_session_save: u64,
    pub banner: Option<Seq<char>>,
}

pub open spec fn doc_views(docs: Seq<NoteDocument>) -> Seq<DocView> {
    docs.map_values(|d: NoteDocument| d@)
}

pub open spec fn locator_views(ls: Seq<NoteLocator>) -> Seq<LocatorView> {
    ls.map_values(|l: NoteLocator| l@)
}

impl View for DeskState {
    type V = DeskView;

    closed spec fn view(&self) -> DeskView {
        DeskView {
            config: self.config@,
            messages: self.messages@,
            locale: self.locale,
            management_window: self.management_window,
            documents: doc_views(self.documents@),
            open_order: locator_views(self.open_order@),
            next_window_index: self.next_window_index,
            session_dirty: self.session_dirty,
            last_session_save: self.last_session_save,
            banner: match self.banner {
                Some(b) => Some(b@),
                None => None,
            },
        }
    }
}

/// Index of the document for `l`, or -1.
pub open spec fn doc_index(docs: Seq<DocView>, l: LocatorView) -> int
    decreases docs.len(),
{
    if docs.len() == 0 {
        -1
    } else if docs[0].locator == l {
        0
    } else {
        let k = doc_index(docs.drop_first(), l);
        if k < 0 {
            -1
        } else {
            k + 1
        }
    }
}

proof fn lemma_doc_index(docs: Seq<DocView>, l: LocatorView, i: int)
    requires
        0 <= i <= docs.len(),
        forall|j: int| 0 <= j < i ==> #[trigger] docs[j].locator != l,
    ensures
        i < docs.len() && docs[i].locator == l ==> doc_index(docs, l) == i,
        i == docs.len() ==> doc_index(docs, l) == -1,
    decreases i,
{
    if i > 0 {
        let rest = docs.drop_first();
        assert forall|j: int| 0 <= j < i - 1 implies #[trigger] rest[j].locator != l by {
            assert(rest[j] == docs[j + 1]);
        }
        lemma_doc_index(rest, l, i - 1);
    }
}

proof fn lemma_doc_index_range(docs: Seq<DocView>, l: LocatorView)
    ensures
        -1 <= doc_index(docs, l) < docs.len(),
        doc_index(docs, l) >= 0 ==> docs[doc_index(docs, l)].locator == l,
        doc_index(docs, l) >= 0 ==> forall|j: int|
            0 <= j < doc_index(docs, l) ==> #[trigger] docs[j].locator != l,
        doc_index(docs, l) == -1 ==> forall|j: int| 0 <= j < docs.len() ==> #[trigger] docs[j].locator != l,
    decreases docs.len(),
{
    if docs.len() > 0 && docs[0].locator != l {
        let rest = docs.drop_first();
        lemma_doc_index_range(rest, l);
        let k = doc_index(rest, l);
        if k >= 0 {
            assert(docs[k + 1] == rest[k]);
            assert forall|j: int| 0 <= j < doc_index(docs, l) implies #[trigger] docs[j].locator != l by {
                if j > 0 {
                    assert(docs[j] == rest[j - 1]);
                }
            }
        } else {
            assert forall|j: int| 0 <= j < docs.len() implies #[trigger] docs[j].locator != l by {
                if j > 0 {
                    assert(docs[j] == rest[j - 1]);
                }
            }
        }
    }
}

/// `order` without `l`.
pub open spec fn without_locator(order: Seq<LocatorView>, l: LocatorView) -> Seq<LocatorView>
    decreases order.len(),
{
    if order.len() == 0 {
        order
    } else {
        let rest = without_locator(order.drop_last(), l);
        if order.last() == l {
            rest
        } else {
            rest.push(order.last())
        }
    }
}

proof fn lemma_without_locator_keeps(order: Seq<LocatorView>, l: LocatorView, x: LocatorView)
    ensures
        without_locator(order, l).contains(x) <==> (order.contains(x) && x != l),
    decreases order.len(),
{
    if order.len() > 0 {
        let prefix = order.drop_last();
        lemma_without_locator_keeps(prefix, l, x);
        let rest = without_locator(prefix, l);
        let w = without_locator(order, l);
        if order.contains(x) && x != l {
            let k = choose|k: int| 0 <= k < order.len() && order[k] == x;
            if k < order.len() - 1 {
                assert(prefix[k] == x);
                let m = choose|m: int| 0 <= m < rest.len() && rest[m] == x;
                assert(w[m] == x);
            } else {
                assert(w[rest.len() as int] == x);
            }
        }
        if w.contains(x) {
            let k = choose|k: int| 0 <= k < w.len() && w[k] == x;
            if k < rest.len() {
                assert(w[k] == rest[k]);
                assert(rest.contains(x));
                let m = choose|m: int| 0 <= m < prefix.len() && prefix[m] == x;
                assert(order[m] == x);
            } else {
                assert(order[order.len() - 1] == x);
            }
        }
    }
}

proof fn lemma_without_locator_distinct(order: Seq<LocatorView>, l: LocatorView)
    requires
        forall|i: int, j: int| 0 <= i < j < order.len() ==> #[trigger] order[i] != #[trigger] order[j],
    ensures
        forall|i: int, j: int|
            0 <= i < j < without_locator(order, l).len() ==> #[trigger] without_locator(order, l)[i]
                != #[trigger] without_locator(order, l)[j],
    decreases order.len(),
{
    if order.len() > 0 {
        let prefix = order.drop_last();
        assert forall|i: int, j: int| 0 <= i < j < prefix.len() implies #[trigger] prefix[i] != #[trigger] prefix[j] by {
            assert(prefix[i] == order[i]);
            assert(prefix[j] == order[j]);
        }
        lemma_without_locator_distinct(prefix, l);
        let rest = without_locator(prefix, l);
        let w = without_locator(order, l);
        if order.last() != l {
            lemma_without_locator_keeps(prefix, l, order.last());
            assert(!prefix.contains(order.last())) by {
                if prefix.contains(order.last()) {
                    let m = choose|m: int| 0 <= m < prefix.len() && prefix[m] == order.last();
                    assert(order[m] == order[order.len() - 1]);
                }
            }
            assert forall|i: int, j: int| 0 <= i < j < w.len() implies #[trigger] w[i] != #[trigger] w[j] by {
                assert(w[i] == rest[i]);
                if j == w.len() - 1 {
                    assert(rest.contains(w[i]));
                } else {
                    assert(w[j] == rest[j]);
                }
            }
        }
    }
}

/// The state is well formed: one document per note, each open note once in
/// the window order, and the window order holding exactly the notes with
/// an open window.
pub open spec fn desk_wf(s: DeskView) -> bool {
    &&& forall|i: int, j: int|
        0 <= i < j < s.documents.len() ==> #[trigger] s.documents[i].locator
            != #[trigger] s.documents[j].locator
    &&& forall|i: int, j: int|
        0 <= i < j < s.open_order.len() ==> #[trigger] s.open_order[i] != #[trigger] s.open_order[j]
    &&& forall|k: int|
        0 <= k < s.open_order.len() ==> (#[trigger] doc_index(s.documents, s.open_order[k]) >= 0
            && s.documents[doc_index(s.documents, s.open_order[k])].editor is Some)
    &&& forall|i: int|
        0 <= i < s.documents.len() && (#[trigger] s.documents[i]).editor is Some
            ==> s.open_order.contains(s.documents[i].locator)
}

/// Position of the `k`-th cascaded window: 96 + 24 * (k mod 6) in both
/// coordinates, as `f32` bits.
pub open spec fn cascade_coordinate_bits(k: usize) -> u32 {
    let step = k % 6;
    if step == 0 {
        0x42c0_0000
    } else if step == 1 {
        0x42f0_0000
    } else if step == 2 {
        0x4310_0000
    } else if step == 3 {
        0x4328_0000
    } else if step == 4 {
        0x4340_0000
    } else {
        0x4358_0000
    }
}

/// Placement of the `k`-th cascaded note window: the default placement
/// moved right and down by 24 per step, six steps before starting over.
pub open spec fn cascade_placement_for(k: usize) -> WindowPlacement {
    WindowPlacement {
        position: WindowPosition { x_bits: cascade_coordinate_bits(k), y_bits: cascade_coordinate_bits(k) },
        ..note_window_placement()
    }
}

/// The counter after one more cascaded window (wrapping).
pub open spec fn next_index(k: usize) -> usize {
    if k == usize::MAX {
        0
    } else {
        (k + 1) as usize
    }
}

/// The state after asking to open the note `l` at placement `p`: when the
/// note is loaded and not open, its window opens, the note moves to the
/// end of the window order and the session needs saving; otherwise nothing
/// changes.
pub open spec fn opened(s: DeskView, l: LocatorView, p: WindowPlacement) -> DeskView {
    let i = doc_index(s.documents, l);
    if i < 0 || s.documents[i].editor is Some {
        s
    } else {
        DeskView {
            documents: s.documents.update(
                i,
                DocView { editor: Some(EditorView { placement: p, autosave: clean_state() }), ..s.documents[i] },
            ),
            open_order: without_locator(s.open_order, l).push(l),
            session_dirty: true,
            ..s
        }
    }
}

/// Replacing a document by one for the same note keeps every lookup.
proof fn lemma_doc_index_update(docs: Seq<DocView>, i: int, d: DocView, l: LocatorView)
    requires
        0 <= i < docs.len(),
        d.locator == docs[i].locator,
    ensures
        doc_index(docs.update(i, d), l) == doc_index(docs, l),
{
    let u = docs.update(i, d);
    lemma_doc_index_range(docs, l);
    let k = doc_index(docs, l);
    if k >= 0 {
        assert forall|j: int| 0 <= j < k implies #[trigger] u[j].locator != l by {
            assert(u[j].locator == docs[j].locator);
        }
        assert(u[k].locator == l);
        lemma_doc_index(u, l, k);
    } else {
        assert forall|j: int| 0 <= j < u.len() implies #[trigger] u[j].locator != l by {
            assert(u[j].locator == docs[j].locator);
        }
        lemma_doc_index(u, l, u.len() as int);
    }
}

/// With one document per note, the document found for the note of
/// document `i` is document `i`.
proof fn lemma_doc_index_of(docs: Seq<DocView>, i: int)
    requires
        0 <= i < docs.len(),
        forall|a: int, b: int| 0 <= a < b < docs.len() ==> #[trigger] docs[a].locator != #[trigger] docs[b].locator,
    ensures
        doc_index(docs, docs[i].locator) == i,
{
    assert forall|j: int| 0 <= j < i implies #[trigger] docs[j].locator != docs[i].locator by {}
    lemma_doc_index(docs, docs[i].locator, i);
}

proof fn lemma_opened_wf(s: DeskView, l: LocatorView, p: WindowPlacement)
    requires
        desk_wf(s),
    ensures
        desk_wf(opened(s, l, p)),
{
    let i = doc_index(s.documents, l);
    lemma_doc_index_range(s.documents, l);
    if i >= 0 && s.documents[i].editor is None {
        let t = opened(s, l, p);
        let d = DocView { editor: Some(EditorView { placement: p, autosave: clean_state() }), ..s.documents[i] };
        let w = without_locator(s.open_order, l);
        lemma_without_locator_distinct(s.open_order, l);
        lemma_without_locator_keeps(s.open_order, l, l);
        assert(t.documents == s.documents.update(i, d));
        assert(t.open_order == w.push(l));
        assert forall|a: int, b: int| 0 <= a < b < t.documents.len() implies #[trigger] t.documents[a].locator
            != #[trigger] t.documents[b].locator by {
            assert(t.documents[a].locator == s.documents[a].locator);
            assert(t.documents[b].locator == s.documents[b].locator);
        }
        assert forall|a: int, b: int| 0 <= a < b < t.open_order.len() implies #[trigger] t.open_order[a]
            != #[trigger] t.open_order[b] by {
            if b == t.open_order.len() - 1 {
                assert(t.open_order[a] == w[a]);
                assert(w.contains(w[a]));
            } else {
                assert(t.open_order[a] == w[a]);
                assert(t.open_order[b] == w[b]);
            }
        }
        assert forall|k: int| 0 <= k < t.open_order.len() implies (#[trigger] doc_index(
            t.documents,
            t.open_order[k],
        ) >= 0 && t.documents[doc_index(t.documents, t.open_order[k])].editor is Some) by {
            let x = t.open_order[k];
            lemma_doc_index_update(s.documents, i, d, x);
            if k == t.open_order.len() - 1 {
                assert(x == l);
            } else {
                assert(x == w[k]);
                assert(w.contains(x));
                lemma_without_locator_keeps(s.open_order, l, x);
                let m = choose|m: int| 0 <= m < s.open_order.len() && s.open_order[m] == x;
                assert(doc_index(s.documents, s.open_order[m]) >= 0);
                lemma_doc_index_range(s.documents, x);
                assert(doc_index(s.documents, x) != i);
            }
        }
        assert forall|a: int| 0 <= a < t.documents.len() && (#[trigger] t.documents[a]).editor is Some implies t.open_order.contains(
            t.documents[a].locator,
        ) by {
            if a == i {
                assert(t.open_order[t.open_order.len() - 1] == l);
            } else {
                assert(t.documents[a] == s.documents[a]);
                let x = s.documents[a].locator;
                assert(s.open_order.contains(x));
                assert(x != l);
                lemma_without_locator_keeps(s.open_order, l, x);
                let m = choose|m: int| 0 <= m < w.len() && w[m] == x;
                assert(t.open_order[m] == x);
            }
        }
    }
}

impl NoteDocument {
    fn clone_locator(&self) -> (r: NoteLocator)
        ensures
            r@ == self@.locator,
    {
        self.locator.clone()
    }
}

/// Copy of `order` without `l`.
fn order_without(order: &Vec<NoteLocator>, l: &NoteLocator) -> (r: Vec<NoteLocator>)
    ensures
        locator_views(r@) == without_locator(locator_views(order@), l@),
{
    let ghost all = locator_views(order@);
    let mut r: Vec<NoteLocator> = Vec::new();
    let mut i: usize = 0;
    assert(locator_views(r@) =~= without_locator(all.take(0), l@));
    while i < order.len()
        invariant
            all == locator_views(order@),
            i <= order@.len(),
            locator_views(r@) == without_locator(all.take(i as int), l@),
        decreases order.len() - i,
    {
        let ghost before = r@;
        proof {
            assert(all.take(i + 1).drop_last() =~= all.take(i as int));
            assert(all.take(i + 1).last() == order@[i as int]@);
        }
        if !crate::model::same_locator(&order[i], l) {
            r.push(order[i].clone());
            assert(locator_views(r@) =~= locator_views(before).push(order@[i as int]@));
        }
        i = i + 1;
    }
    assert(all.take(i as int) =~= all);
    r
}

impl DeskState {
    /// Whether the note `l` has an open window.
    pub fn note_is_open(&self, l: &NoteLocator) -> (r: bool)
        ensures
            r == (doc_index(self@.documents, l@) >= 0 && self@.documents[doc_index(self@.documents, l@)].editor is Some),
    {
        match find_doc_index(&self.documents, l) {
            Some(i) => self.documents[i].editor.is_some(),
            None => false,
        }
    }

    /// Opens the note `l` at `placement` (see `opened`).
    pub fn open_note_with_placement(&mut self, l: NoteLocator, placement: WindowPlacement)
        requires
            desk_wf(old(self)@),
        ensures
            final(self)@ == opened(old(self)@, l@, placement),
            desk_wf(final(self)@),
    {
        proof {
            lemma_opened_wf(self@, l@, placement);
        }
        let ghost s = self@;
        let found = find_doc_index(&self.documents, &l);
        let i = match found {
            Some(i) => i,
            None => {
                return;
            },
        };
        if self.documents[i].editor.is_some() {
            return;
        }
        let mut doc = self.documents.remove(i);
        doc.editor = Some(NoteEditor { placement, autosave: AutosaveState::default() });
        self.documents.insert(i, doc);
        let order = order_without(&self.open_order, &l);
        self.open_order = order;
        self.open_order.push(l);
        self.session_dirty = true;
        proof {
            let d = DocView { editor: Some(EditorView { placement, autosave: clean_state() }), ..s.documents[i as int] };
            assert(self@.documents =~= s.documents.update(i as int, d));
            assert(self@.open_order =~= without_locator(s.open_order, l@).push(l@));
            assert(self@ == opened(s, l@, placement));
        }
    }
}

/// The document of a freshly loaded note: not open.
pub open spec fn doc_for_note(n: StoredNoteView) -> DocView {
    DocView { locator: LocatorView { root: n.root, note_id: n.note.id }, note: n.note, editor: None }
}

/// `docs` with the document `d`, replacing the one for the same note.
pub open spec fn with_doc(docs: Seq<DocView>, d: DocView) -> Seq<DocView> {
    let i = doc_index(docs, d.locator);
    if i >= 0 {
        docs.update(i, d)
    } else {
        docs.push(d)
    }
}

/// The documents for the loaded notes; of two notes with the same locator
/// the later one is kept.
pub open spec fn docs_from_notes(notes: Seq<StoredNoteView>) -> Seq<DocView>
    decreases notes.len(),
{
    if notes.len() == 0 {
        Seq::empty()
    } else {
        with_doc(docs_from_notes(notes.drop_last()), doc_for_note(notes.last()))
    }
}

pub open spec fn stored_views(notes: Seq<crate::model::StoredNote>) -> Seq<StoredNoteView> {
    notes.map_values(|n: crate::model::StoredNote| n@)
}

/// The state after opening the windows `ws` in order.
pub open spec fn open_all(s: DeskView, ws: Seq<WindowView>) -> DeskView
    decreases ws.len(),
{
    if ws.len() == 0 {
        s
    } else {
        let t = open_all(s, ws.drop_last());
        opened(t, ws.last().locator, ws.last().placement)
    }
}

/// The state after closing the window of note `l`: the note is no longer
/// open, it leaves the window order, and the session needs saving.
pub open spec fn closed(s: DeskView, l: LocatorView) -> DeskView {
    let i = doc_index(s.documents, l);
    DeskView {
        documents: if i >= 0 {
            s.documents.update(i, DocView { editor: None, ..s.documents[i] })
        } else {
            s.documents
        },
        open_order: without_locator(s.open_order, l),
        session_dirty: true,
        ..s
    }
}

/// The state after a new note `n` was created: it is added (replacing a
/// note with the same locator, whose window closes) and opened at the next
/// cascaded placement.
pub open spec fn created(s: DeskView, n: StoredNoteView) -> DeskView {
    let d = doc_for_note(n);
    let t = closed(s, d.locator);
    let u = DeskView {
        documents: with_doc(t.documents, d),
        next_window_index: next_index(s.next_window_index),
        ..t
    };
    opened(u, d.locator, cascade_placement_for(s.next_window_index))
}

/// The banner shown at startup: set when the session listed note windows
/// and not all of them could be restored.
pub open spec fn startup_banner(
    messages: Seq<(Seq<char>, MessageView)>,
    locale: ResolvedLocale,
    session: SessionView,
    available: Seq<LocatorView>,
) -> Option<Seq<char>> {
    if session.open_windows.len() > 0 && initial_windows(available, session.open_windows).len()
        != session.open_windows.len() {
        Some(message_text(messages, locale, "restore_empty"@))
    } else {
        None
    }
}

/// The state at startup: the loaded notes, the management window of the
/// session, the note windows of `initial_windows` opened in order, and
/// the session marked for saving.
pub open spec fn startup_state(
    config: ConfigView,
    messages: Seq<(Seq<char>, MessageView)>,
    locale: ResolvedLocale,
    notes: Seq<crate::model::StoredNote>,
    session: SessionView,
    now: u64,
) -> DeskView {
    let available = note_locators(notes);
    let base = DeskView {
        config,
        messages,
        locale,
        management_window: session.management_window,
        documents: docs_from_notes(stored_views(notes)),
        open_order: Seq::empty(),
        next_window_index: 0,
        session_dirty: false,
        last_session_save: now,
        banner: startup_banner(messages, locale, session, available),
    };
    DeskView { session_dirty: true, ..open_all(base, initial_windows(available, session.open_windows)) }
}

/// Some document is for note `l`.
pub open spec fn has_doc(docs: Seq<DocView>, l: LocatorView) -> bool {
    exists|j: int| 0 <= j < docs.len() && #[trigger] docs[j].locator == l
}

proof fn lemma_doc_index_found(docs: Seq<DocView>, l: LocatorView)
    ensures
        doc_index(docs, l) >= 0 <==> has_doc(docs, l),
{
    lemma_doc_index_range(docs, l);
    if has_doc(docs, l) {
        let j = choose|j: int| 0 <= j < docs.len() && #[trigger] docs[j].locator == l;
        if doc_index(docs, l) == -1 {
            assert(docs[j].locator != l);
        }
    }
}

/// One document per note, none open.
pub open spec fn closed_distinct_docs(docs: Seq<DocView>) -> bool {
    &&& forall|i: int, j: int|
        0 <= i < j < docs.len() ==> #[trigger] docs[i].locator != #[trigger] docs[j].locator
    &&& forall|i: int| 0 <= i < docs.len() ==> (#[trigger] docs[i]).editor is None
}

proof fn lemma_with_doc(docs: Seq<DocView>, d: DocView, l: LocatorView)
    requires
        closed_distinct_docs(docs),
        d.editor is None,
    ensures
        closed_distinct_docs(with_doc(docs, d)),
        has_doc(with_doc(docs, d), l) <==> (has_doc(docs, l) || l == d.locator),
{
    let i = doc_index(docs, d.locator);
    lemma_doc_index_range(docs, d.locator);
    lemma_doc_index_found(docs, d.locator);
    let w = with_doc(docs, d);
    if i >= 0 {
        assert forall|a: int, b: int| 0 <= a < b < w.len() implies #[trigger] w[a].locator != #[trigger] w[b].locator by {
            assert(w[a].locator == docs[a].locator);
            assert(w[b].locator == docs[b].locator);
        }
        if has_doc(docs, l) {
            let j = choose|j: int| 0 <= j < docs.len() && #[trigger] docs[j].locator == l;
            assert(w[j].locator == l);
        }
        if has_doc(w, l) {
            let j = choose|j: int| 0 <= j < w.len() && #[trigger] w[j].locator == l;
            assert(docs[j].locator == l);
        }
        assert(w[i].locator == d.locator);
    } else {
        assert forall|a: int, b: int| 0 <= a < b < w.len() implies #[trigger] w[a].locator != #[trigger] w[b].locator by {
            if b == docs.len() {
                assert(w[a] == docs[a]);
                assert(!has_doc(docs, d.locator));
                if docs[a].locator == d.locator {
                    assert(has_doc(docs, d.locator));
                }
            } else {
                assert(w[a] == docs[a]);
                assert(w[b] == docs[b]);
            }
        }
        assert forall|a: int| 0 <= a < w.len() implies (#[trigger] w[a]).editor is None by {
            if a < docs.len() {
                assert(w[a] == docs[a]);
            }
        }
        if has_doc(docs, l) {
            let j = choose|j: int| 0 <= j < docs.len() && #[trigger] docs[j].locator == l;
            assert(w[j].locator == l);
        }
        if has_doc(w, l) {
            let j = choose|j: int| 0 <= j < w.len() && #[trigger] w[j].locator == l;
            if j < docs.len() {
                assert(docs[j].locator == l);
            }
        }
        assert(w[docs.len() as int].locator == d.locator);
    }
}

proof fn lemma_docs_from_notes(notes: Seq<StoredNoteView>, l: LocatorView)
    ensures
        closed_distinct_docs(docs_from_notes(notes)),
        has_doc(docs_from_notes(notes), l) <==> exists|i: int|
            0 <= i < notes.len() && #[trigger] doc_for_note(notes[i]).locator == l,
    decreases notes.len(),
{
    if notes.len() > 0 {
        let prefix = notes.drop_last();
        lemma_docs_from_notes(prefix, l);
        lemma_with_doc(docs_from_notes(prefix), doc_for_note(notes.last()), l);
        if exists|i: int| 0 <= i < notes.len() && #[trigger] doc_for_note(notes[i]).locator == l {
            let i = choose|i: int| 0 <= i < notes.len() && #[trigger] doc_for_note(notes[i]).locator == l;
            if i < prefix.len() {
                assert(prefix[i] == notes[i]);
            }
        }
        if exists|i: int| 0 <= i < prefix.len() && #[trigger] doc_for_note(prefix[i]).locator == l {
            let i = choose|i: int| 0 <= i < prefix.len() && #[trigger] doc_for_note(prefix[i]).locator == l;
            assert(prefix[i] == notes[i]);
        }
    } else {
        assert(docs_from_notes(notes) =~= Seq::<DocView>::empty());
    }
}

proof fn lemma_open_all_wf(s: DeskView, ws: Seq<WindowView>)
    requires
        desk_wf(s),
    ensures
        desk_wf(open_all(s, ws)),
        open_all(s, ws).documents.len() == s.documents.len(),
    decreases ws.len(),
{
    if ws.len() > 0 {
        lemma_open_all_wf(s, ws.drop_last());
        lemma_opened_wf(open_all(s, ws.drop_last()), ws.last().locator, ws.last().placement);
        lemma_doc_index_range(open_all(s, ws.drop_last()).documents, ws.last().locator);
    }
}

proof fn lemma_open_all_nonempty(s: DeskView, ws: Seq<WindowView>)
    requires
        desk_wf(s),
        ws.len() > 0,
        doc_index(s.documents, ws[0].locator) >= 0,
    ensures
        open_all(s, ws).open_order.len() > 0,
    decreases ws.len(),
{
    if ws.len() == 1 {
        assert(ws.drop_last().len() == 0);
        assert(open_all(s, ws.drop_last()) == s);
        let l = ws[0].locator;
        let i = doc_index(s.documents, l);
        lemma_doc_index_range(s.documents, l);
        if s.documents[i].editor is Some {
            assert(s.open_order.contains(s.documents[i].locator));
        }
    } else {
        let prefix = ws.drop_last();
        assert(prefix[0] == ws[0]);
        lemma_open_all_nonempty(s, prefix);
        lemma_open_all_wf(s, prefix);
    }
}

/// Strict order of locators (`NoteLocator`'s derived order): by root, then
/// by note id.
pub open spec fn locator_before(a: LocatorView, b: LocatorView) -> bool {
    path_before(a.root, b.root) || (a.root == b.root && chars_before(a.note_id, b.note_id))
}

/// Order of the management window's note list: most recently updated
/// first, then by title, then by locator.
pub open spec fn list_precedes(a: DocView, b: DocView) -> bool {
    ||| chars_before(b.note.updated_at, a.note.updated_at)
    ||| (a.note.updated_at == b.note.updated_at && chars_before(a.note.title, b.note.title))
    ||| (a.note.updated_at == b.note.updated_at && a.note.title == b.note.title && (a.locator
        == b.locator || locator_before(a.locator, b.locator)))
}

/// The document for note `l`.
pub open spec fn doc_at(docs: Seq<DocView>, l: LocatorView) -> DocView {
    docs[doc_index(docs, l)]
}

/// A row of the note list.
pub struct ListEntry {
    pub locator: NoteLocator,
    pub updated_at: String,
    pub title: String,
}

pub open spec fn entry_doc(e: ListEntry) -> DocView {
    DocView {
        locator: e.locator@,
        note: NoteView {
            schema_version: Seq::empty(),
            id: Seq::empty(),
            title: e.title@,
            content: Seq::empty(),
            created_at: Seq::empty(),
            updated_at: e.updated_at@,
        },
        editor: None,
    }
}

proof fn lemma_list_order_facts(a: DocView, b: DocView, c: DocView)
    ensures
        list_precedes(a, b) || list_precedes(b, a),
        list_precedes(a, b) && list_precedes(b, c) ==> list_precedes(a, c),
{
    lemma_chars_before_total(a.note.updated_at, b.note.updated_at);
    lemma_chars_before_total(a.note.title, b.note.title);
    lemma_path_before_total(a.locator.root, b.locator.root);
    lemma_chars_before_total(a.locator.note_id, b.locator.note_id);
    lemma_chars_before_irreflexive(a.note.updated_at);
    lemma_chars_before_irreflexive(b.note.updated_at);
    lemma_chars_before_irreflexive(a.note.title);
    lemma_chars_before_irreflexive(b.note.title);
    lemma_path_before_irreflexive(a.locator.root);
    lemma_path_before_irreflexive(b.locator.root);
    if chars_before(b.note.updated_at, a.note.updated_at) {
        lemma_chars_before_asymmetric(b.note.updated_at, a.note.updated_at);
    }
    if chars_before(c.note.updated_at, b.note.updated_at) {
        lemma_chars_before_asymmetric(c.note.updated_at, b.note.updated_at);
    }
    if chars_before(a.note.title, b.note.title) {
        lemma_chars_before_asymmetric(a.note.title, b.note.title);
    }
    if chars_before(b.note.title, c.note.title) {
        lemma_chars_before_asymmetric(b.note.title, c.note.title);
    }
    if path_before(a.locator.root, b.locator.root) {
        lemma_path_before_asymmetric(a.locator.root, b.locator.root);
    }
    if path_before(b.locator.root, c.locator.root) {
        lemma_path_before_asymmetric(b.locator.root, c.locator.root);
    }
    if chars_before(b.note.updated_at, a.note.updated_at) && chars_before(
        c.note.updated_at,
        b.note.updated_at,
    ) {
        lemma_chars_before_transitive(c.note.updated_at, b.note.updated_at, a.note.updated_at);
    }
    if chars_before(a.note.title, b.note.title) && chars_before(b.note.title, c.note.title) {
        lemma_chars_before_transitive(a.note.title, b.note.title, c.note.title);
    }
    if path_before(a.locator.root, b.locator.root) && path_before(b.locator.root, c.locator.root) {
        lemma_path_before_transitive(a.locator.root, b.locator.root, c.locator.root);
    }
    if chars_before(a.locator.note_id, b.locator.note_id) && chars_before(
        b.locator.note_id,
        c.locator.note_id,
    ) {
        lemma_chars_before_transitive(a.locator.note_id, b.locator.note_id, c.locator.note_id);
    }
    if a.locator.root == b.locator.root && a.locator.note_id == b.locator.note_id {
        assert(a.locator == b.locator);
    }
}

impl Ranked for ListEntry {
    open spec fn precedes(self, other: Self) -> bool {
        list_precedes(entry_doc(self), entry_doc(other))
    }

    proof fn lemma_precedes_transitive(a: Self, b: Self, c: Self) {
        lemma_list_order_facts(entry_doc(a), entry_doc(b), entry_doc(c));
    }

    proof fn lemma_precedes_total(a: Self, b: Self) {
        lemma_list_order_facts(entry_doc(a), entry_doc(b), entry_doc(b));
    }

    fn precedes_exec(&self, other: &Self) -> (r: bool) {
        match compare_strs(other.updated_at.as_str(), self.updated_at.as_str()) {
            Order::Less => true,
            Order::Greater => false,
            Order::Equal => match compare_strs(self.title.as_str(), other.title.as_str()) {
                Order::Less => true,
                Order::Greater => false,
                Order::Equal => match compare_paths(&self.locator.root, &other.locator.root) {
                    Order::Less => true,
                    Order::Greater => false,
                    Order::Equal => match compare_strs(
                        self.locator.note_id.as_str(),
                        other.locator.note_id.as_str(),
                    ) {
                        Order::Greater => false,
                        _ => {
                            proof {
                                if self.locator@.root == other.locator@.root && self.locator@.note_id
                                    == other.locator@.note_id {
                                    assert(self.locator@ == other.locator@);
                                }
                            }
                            true
                        },
                    },
                },
            },
        }
    }
}

/// The `k`-th cascade coordinate.
fn cascade_coordinate(k: usize) -> (r: u32)
    ensures
        r == cascade_coordinate_bits(k),
{
    let step = k % 6;
    if step == 0 {
        0x42c0_0000
    } else if step == 1 {
        0x42f0_0000
    } else if step == 2 {
        0x4310_0000
    } else if step == 3 {
        0x4328_0000
    } else if step == 4 {
        0x4340_0000
    } else {
        0x4358_0000
    }
}

impl DeskState {
    /// The placement for the next cascaded note window; advances the
    /// cascade.
    pub fn cascade_placement(&mut self) -> (r: WindowPlacement)
        ensures
            r == cascade_placement_for(old(self)@.next_window_index),
            final(self)@ == (DeskView { next_window_index: next_index(old(self)@.next_window_index), ..old(self)@ }),
    {
        let k = self.next_window_index;
        let c = cascade_coordinate(k);
        let base = crate::model::default_note_window();
        self.next_window_index = if k == usize::MAX {
            0
        } else {
            k + 1
        };
        WindowPlacement { position: WindowPosition { x_bits: c, y_bits: c }, ..base }
    }

    /// The loaded notes in list order (see `list_precedes`): each note once.
    pub fn sorted_note_locators(&self) -> (r: Vec<NoteLocator>)
        requires
            desk_wf(self@),
        ensures
            r@.len() == self@.documents.len(),
            forall|i: int| 0 <= i < r@.len() ==> has_doc(self@.documents, #[trigger] r@[i]@),
            forall|i: int, j: int| 0 <= i < j < r@.len() ==> #[trigger] r@[i]@ != #[trigger] r@[j]@,
            forall|i: int, j: int|
                0 <= i < j < r@.len() ==> list_precedes(
                    doc_at(self@.documents, #[trigger] r@[i]@),
                    doc_at(self@.documents, #[trigger] r@[j]@),
                ),
    {
        let ghost docs = self@.documents;
        let mut entries: Vec<ListEntry> = Vec::new();
        let mut i: usize = 0;
        while i < self.documents.len()
            invariant
                docs == self@.documents,
                docs == doc_views(self.documents@),
                i <= self.documents@.len(),
                entries@.len() == i,
                forall|k: int| 0 <= k < i ==> (#[trigger] entries@[k]).locator@ == docs[k].locator
                    && entries@[k].updated_at@ == docs[k].note.updated_at && entries@[k].title@
                    == docs[k].note.title,
            decreases self.documents.len() - i,
        {
            let d = &self.documents[i];
            entries.push(
                ListEntry {
                    locator: d.locator.clone(),
                    updated_at: d.note.updated_at.clone(),
                    title: d.note.title.clone(),
                },
            );
            i = i + 1;
        }
        let ghost unsorted = entries@;
        proof {
            assert forall|a: int, b: int| 0 <= a < unsorted.len() && 0 <= b < unsorted.len() && a != b implies unsorted[a] != unsorted[b] by {
                if a < b {
                    assert(docs[a].locator != docs[b].locator);
                } else {
                    assert(docs[b].locator != docs[a].locator);
                }
            }
            assert(unsorted.no_duplicates());
            unsorted.lemma_multiset_has_no_duplicates();
        }
        let sorted = sort_ranked(entries);
        proof {
            assert forall|x: ListEntry| sorted@.to_multiset().contains(x) implies sorted@.to_multiset().count(x) == 1 by {
            }
            sorted@.lemma_multiset_has_no_duplicates_conv();
            assert(sorted@.len() == sorted@.to_multiset().len());
            assert(unsorted.len() == unsorted.to_multiset().len());
            assert(sorted@.len() == docs.len());
        }
        // Each sorted row is one of the rows built above, hence a document's.
        let ghost pick = |e: ListEntry| choose|k: int| 0 <= k < unsorted.len() && unsorted[k] == e;
        proof {
            assert forall|a: int| 0 <= a < sorted@.len() implies 0 <= #[trigger] pick(sorted@[a]) < unsorted.len()
                && unsorted[pick(sorted@[a])] == sorted@[a] by {
                assert(sorted@.contains(sorted@[a]));
                assert(sorted@.to_multiset().count(sorted@[a]) > 0);
                assert(unsorted.to_multiset().count(sorted@[a]) > 0);
                assert(unsorted.contains(sorted@[a]));
            }
        }
        let mut r: Vec<NoteLocator> = Vec::new();
        let mut j: usize = 0;
        while j < sorted.len()
            invariant
                j <= sorted@.len(),
                r@.len() == j,
                forall|a: int| 0 <= a < j ==> (#[trigger] r@[a])@ == sorted@[a].locator@,
            decreases sorted.len() - j,
        {
            r.push(sorted[j].locator.clone());
            j = j + 1;
        }
        proof {
            assert forall|a: int| 0 <= a < r@.len() implies doc_at(docs, #[trigger] r@[a]@) == DocView {
                locator: r@[a]@,
                ..docs[pick(sorted@[a])]
            } && has_doc(docs, r@[a]@) by {
                let k = pick(sorted@[a]);
                assert(docs[k].locator == r@[a]@);
                lemma_doc_index_of(docs, k);
            }
            assert forall|a: int, b: int| 0 <= a < b < r@.len() implies #[trigger] r@[a]@ != #[trigger] r@[b]@ by {
                let ka = pick(sorted@[a]);
                let kb = pick(sorted@[b]);
                assert(sorted@[a] != sorted@[b]);
                assert(ka != kb);
                assert(docs[ka].locator != docs[kb].locator || ka == kb) by {
                    if ka < kb {
                        assert(docs[ka].locator != docs[kb].locator);
                    } else if kb < ka {
                        assert(docs[kb].locator != docs[ka].locator);
                    }
                }
            }
            assert forall|a: int, b: int| 0 <= a < b < r@.len() implies list_precedes(
                doc_at(docs, #[trigger] r@[a]@),
                doc_at(docs, #[trigger] r@[b]@),
            ) by {
                assert(sorted@[a].precedes(sorted@[b]));
                let ka = pick(sorted@[a]);
                let kb = pick(sorted@[b]);
                lemma_doc_index_of(docs, ka);
                lemma_doc_index_of(docs, kb);
            }
        }
        r
    }
}

/// Index of the document for `l` in `docs`.
fn find_doc_index(docs: &Vec<NoteDocument>, l: &NoteLocator) -> (r: Option<usize>)
    ensures
        match r {
            Some(i) => i as int == doc_index(doc_views(docs@), l@) && i < docs@.len(),
            None => doc_index(doc_views(docs@), l@) == -1,
        },
{
    let ghost views = doc_views(docs@);
    let mut i: usize = 0;
    while i < docs.len()
        invariant
            views == doc_views(docs@),
            i <= docs@.len(),
            forall|j: int| 0 <= j < i ==> #[trigger] views[j].locator != l@,
        decreases docs.len() - i,
    {
        let d = &docs[i];
        if same_path(&d.locator.root, &l.root) && d.locator.note_id == l.note_id {
            proof {
                assert(views[i as int].locator == l@);
                lemma_doc_index(views, l@, i as int);
            }
            return Some(i);
        }
        i = i + 1;
    }
    proof {
        lemma_doc_index(views, l@, i as int);
    }
    None
}

/// Adds `d` to `docs`, replacing the document for the same note.
fn put_document(docs: &mut Vec<NoteDocument>, d: NoteDocument)
    ensures
        doc_views(final(docs)@) == with_doc(doc_views(old(docs)@), d@),
{
    let ghost before = doc_views(docs@);
    let ghost dv = d@;
    match find_doc_index(docs, &d.locator) {
        Some(i) => {
            docs.set(i, d);
            assert(doc_views(docs@) =~= before.update(i as int, dv));
        },
        None => {
            docs.push(d);
            assert(doc_views(docs@) =~= before.push(dv));
        },
    }
}

proof fn lemma_closed_wf(s: DeskView, l: LocatorView)
    requires
        desk_wf(s),
    ensures
        desk_wf(closed(s, l)),
        closed(s, l).documents.len() == s.documents.len(),
        forall|k: int| 0 <= k < s.documents.len() ==> #[trigger] closed(s, l).documents[k].locator == s.documents[k].locator,
        doc_index(s.documents, l) >= 0 ==> closed(s, l).documents[doc_index(s.documents, l)].editor is None,
{
    let t = closed(s, l);
    let i = doc_index(s.documents, l);
    lemma_doc_index_range(s.documents, l);
    lemma_without_locator_distinct(s.open_order, l);
    assert forall|a: int, b: int| 0 <= a < b < t.documents.len() implies #[trigger] t.documents[a].locator
        != #[trigger] t.documents[b].locator by {
        assert(t.documents[a].locator == s.documents[a].locator);
        assert(t.documents[b].locator == s.documents[b].locator);
    }
    assert forall|k: int| 0 <= k < t.open_order.len() implies (#[trigger] doc_index(t.documents, t.open_order[k])
        >= 0 && t.documents[doc_index(t.documents, t.open_order[k])].editor is Some) by {
        let x = t.open_order[k];
        assert(t.open_order.contains(x));
        lemma_without_locator_keeps(s.open_order, l, x);
        let m = choose|m: int| 0 <= m < s.open_order.len() && s.open_order[m] == x;
        assert(doc_index(s.documents, s.open_order[m]) >= 0);
        if i >= 0 {
            lemma_doc_index_update(s.documents, i, DocView { editor: None, ..s.documents[i] }, x);
            lemma_doc_index_range(s.documents, x);
        }
    }
    assert forall|a: int| 0 <= a < t.documents.len() && (#[trigger] t.documents[a]).editor is Some implies t.open_order.contains(
        t.documents[a].locator,
    ) by {
        assert(a != i);
        assert(t.documents[a] == s.documents[a]);
        let x = s.documents[a].locator;
        if x == l {
            assert(s.documents[i].locator == l);
            assert(false);
        }
        lemma_without_locator_keeps(s.open_order, l, x);
    }
}

proof fn lemma_put_closed_wf(t: DeskView, d: DocView)
    requires
        desk_wf(t),
        d.editor is None,
        doc_index(t.documents, d.locator) < 0 || t.documents[doc_index(t.documents, d.locator)].editor is None,
        !t.open_order.contains(d.locator),
    ensures
        desk_wf(DeskView { documents: with_doc(t.documents, d), ..t }),
{
    let u = DeskView { documents: with_doc(t.documents, d), ..t };
    let i = doc_index(t.documents, d.locator);
    lemma_doc_index_range(t.documents, d.locator);
    lemma_doc_index_found(t.documents, d.locator);
    assert forall|a: int, b: int| 0 <= a < b < u.documents.len() implies #[trigger] u.documents[a].locator
        != #[trigger] u.documents[b].locator by {
        if i >= 0 {
            assert(u.documents[a].locator == t.documents[a].locator);
            assert(u.documents[b].locator == t.documents[b].locator);
        } else if b == t.documents.len() {
            assert(u.documents[a] == t.documents[a]);
            if t.documents[a].locator == d.locator {
                assert(has_doc(t.documents, d.locator));
            }
        } else {
            assert(u.documents[a] == t.documents[a]);
            assert(u.documents[b] == t.documents[b]);
        }
    }
    assert forall|k: int| 0 <= k < u.open_order.len() implies (#[trigger] doc_index(u.documents, u.open_order[k])
        >= 0 && u.documents[doc_index(u.documents, u.open_order[k])].editor is Some) by {
        let x = u.open_order[k];
        assert(x != d.locator) by {
            assert(t.open_order.contains(x));
        }
        lemma_doc_index_range(t.documents, x);
        if i >= 0 {
            lemma_doc_index_update(t.documents, i, d, x);
            assert(doc_index(t.documents, x) != i);
        } else {
            let j = doc_index(t.documents, x);
            assert forall|m: int| 0 <= m < j implies #[trigger] u.documents[m].locator != x by {
                assert(u.documents[m] == t.documents[m]);
            }
            assert(u.documents[j] == t.documents[j]);
            lemma_doc_index(u.documents, x, j);
        }
    }
    assert forall|a: int| 0 <= a < u.documents.len() && (#[trigger] u.documents[a]).editor is Some implies u.open_order.contains(
        u.documents[a].locator,
    ) by {
        if i >= 0 {
            assert(a != i);
            assert(u.documents[a] == t.documents[a]);
        } else {
            assert(a < t.documents.len());
            assert(u.documents[a] == t.documents[a]);
        }
    }
}

proof fn lemma_created_wf(s: DeskView, n: StoredNoteView)
    requires
        desk_wf(s),
    ensures
        desk_wf(created(s, n)),
{
    let d = doc_for_note(n);
    let t = closed(s, d.locator);
    lemma_closed_wf(s, d.locator);
    lemma_without_locator_keeps(s.open_order, d.locator, d.locator);
    let i = doc_index(s.documents, d.locator);
    lemma_doc_index_range(s.documents, d.locator);
    if i >= 0 {
        lemma_doc_index_update(s.documents, i, DocView { editor: None, ..s.documents[i] }, d.locator);
    } else {
        assert(t.documents == s.documents);
    }
    let u0 = DeskView { documents: with_doc(t.documents, d), ..t };
    lemma_put_closed_wf(t, d);
    let u = DeskView { next_window_index: next_index(s.next_window_index), ..u0 };
    assert(desk_wf(u));
    lemma_opened_wf(u, d.locator, cascade_placement_for(s.next_window_index));
}

impl DeskState {
    /// Adds a newly created note and opens it at the next cascaded
    /// placement (see `created`).
    pub fn add_created_note(&mut self, n: StoredNote)
        requires
            desk_wf(old(self)@),
        ensures
            final(self)@ == created(old(self)@, n@),
            desk_wf(final(self)@),
    {
        proof {
            lemma_created_wf(self@, n@);
        }
        let ghost s = self@;
        let locator = n.locator();
        self.close_editor(&locator);
        let ghost t = self@;
        let d = NoteDocument { locator: locator.clone(), note: n.note, editor: None };
        assert(d@ == doc_for_note(n@));
        put_document(&mut self.documents, d);
        let placement = self.cascade_placement();
        assert(self@ == DeskView {
            documents: with_doc(t.documents, doc_for_note(n@)),
            next_window_index: next_index(s.next_window_index),
            ..t
        });
        proof {
            lemma_closed_wf(s, locator@);
            lemma_put_closed_wf_pre(s, n@);
            lemma_put_closed_wf(t, doc_for_note(n@));
        }
        self.open_note_with_placement(locator, placement);
    }

    /// Closes the window of note `l` (see `closed`).
    pub fn close_editor(&mut self, l: &NoteLocator)
        requires
            desk_wf(old(self)@),
        ensures
            final(self)@ == closed(old(self)@, l@),
            desk_wf(final(self)@),
    {
        proof {
            lemma_closed_wf(self@, l@);
        }
        let ghost s = self@;
        match find_doc_index(&self.documents, l) {
            Some(i) => {
                let mut doc = self.documents.remove(i);
                doc.editor = None;
                self.documents.insert(i, doc);
                assert(self@.documents =~= s.documents.update(i as int, DocView { editor: None, ..s.documents[i as int] }));
            },
            None => {},
        }
        let order = order_without(&self.open_order, l);
        self.open_order = order;
        self.session_dirty = true;
        assert(self@ == closed(s, l@));
    }
}

proof fn lemma_put_closed_wf_pre(s: DeskView, n: StoredNoteView)
    requires
        desk_wf(s),
    ensures
        ({
            let d = doc_for_note(n);
            let t = closed(s, d.locator);
            &&& desk_wf(t)
            &&& (doc_index(t.documents, d.locator) < 0 || t.documents[doc_index(t.documents, d.locator)].editor is None)
            &&& !t.open_order.contains(d.locator)
        }),
{
    let d = doc_for_note(n);
    lemma_closed_wf(s, d.locator);
    lemma_without_locator_keeps(s.open_order, d.locator, d.locator);
    let i = doc_index(s.documents, d.locator);
    lemma_doc_index_range(s.documents, d.locator);
    if i >= 0 {
        lemma_doc_index_update(s.documents, i, DocView { editor: None, ..s.documents[i] }, d.locator);
    }
}

proof fn lemma_available_has_doc(notes: Seq<StoredNote>, l: LocatorView)
    ensures
        note_locators(notes).contains(l) <==> has_doc(docs_from_notes(stored_views(notes)), l),
        closed_distinct_docs(docs_from_notes(stored_views(notes))),
{
    let sv = stored_views(notes);
    lemma_docs_from_notes(sv, l);
    let avail = note_locators(notes);
    if avail.contains(l) {
        let i = choose|i: int| 0 <= i < avail.len() && avail[i] == l;
        assert(doc_for_note(sv[i]).locator == l);
    }
    if exists|i: int| 0 <= i < sv.len() && #[trigger] doc_for_note(sv[i]).locator == l {
        let i = choose|i: int| 0 <= i < sv.len() && #[trigger] doc_for_note(sv[i]).locator == l;
        assert(avail[i] == l);
    }
}

impl DeskState {
    /// The state at startup (see `startup_state`): `notes` are the loaded
    /// notes in list order, `session` the stored session, `now` the time.
    pub fn new(
        config: Config,
        messages: MessageCatalog,
        locale: ResolvedLocale,
        notes: Vec<StoredNote>,
        session: &crate::model::Session,
        now: u64,
    ) -> (r: DeskState)
        ensures
            r@ == startup_state(config@, messages@, locale, notes@, session@, now),
            desk_wf(r@),
    {
        let ghost all_notes = notes@;
        let ghost avail = note_locators(notes@);
        let restored = resolve_initial_windows(notes.as_slice(), session);
        assert(window_views(restored@).len() == restored@.len());
        assert(session@.open_windows.len() == session.open_windows@.len());
        let banner = if session.open_windows.len() > 0 && restored.len() != session.open_windows.len() {
            Some(messages.text(locale, "restore_empty"))
        } else {
            None
        };
        let mut desk = DeskState {
            config,
            messages,
            locale,
            management_window: session.management_window,
            documents: Vec::new(),
            open_order: Vec::new(),
            next_window_index: 0,
            session_dirty: false,
            last_session_save: now,
            banner,
        };
        let ghost pre = desk@;
        let mut remaining = notes;
        let total = remaining.len();
        let mut taken: usize = 0;
        assert(doc_views(desk.documents@) =~= docs_from_notes(stored_views(all_notes.take(0))));
        while remaining.len() > 0
            invariant
                taken + remaining@.len() == all_notes.len(),
                all_notes.len() == total,
                remaining@ == all_notes.skip(taken as int),
                doc_views(desk.documents@) == docs_from_notes(stored_views(all_notes.take(taken as int))),
                desk.open_order@.len() == 0,
                desk@ == (DeskView { documents: doc_views(desk.documents@), ..pre }),
            decreases remaining.len(),
        {
            let n = remaining.remove(0);
            proof {
                assert(n == all_notes[taken as int]);
                assert(stored_views(all_notes.take(taken + 1)).drop_last() =~= stored_views(all_notes.take(taken as int)));
                assert(stored_views(all_notes.take(taken + 1)).last() == n@);
                assert(remaining@ =~= all_notes.skip(taken + 1));
            }
            let locator = n.locator();
            put_document(&mut desk.documents, NoteDocument { locator, note: n.note, editor: None });
            assert(desk@ == (DeskView { documents: doc_views(desk.documents@), ..pre }));
            taken = taken + 1;
        }
        let ghost docs0 = docs_from_notes(stored_views(all_notes));
        proof {
            assert(all_notes.take(taken as int) =~= all_notes);
            lemma_available_has_doc(all_notes, LocatorView { root: Seq::empty(), note_id: Seq::empty() });
            assert(locator_views(desk.open_order@) =~= Seq::<LocatorView>::empty());
        }
        let ghost base = desk@;
        let ghost windows = initial_windows(avail, session@.open_windows);
        assert(base == DeskView {
            config: config@,
            messages: messages@,
            locale,
            management_window: session@.management_window,
            documents: docs0,
            open_order: Seq::empty(),
            next_window_index: 0,
            session_dirty: false,
            last_session_save: now,
            banner: startup_banner(messages@, locale, session@, avail),
        });
        assert(desk_wf(base));
        let mut k: usize = 0;
        assert(window_views(restored@) == windows);
        while k < restored.len()
            invariant
                k <= restored@.len(),
                window_views(restored@) == windows,
                desk@ == open_all(base, windows.take(k as int)),
                desk_wf(desk@),
            decreases restored.len() - k,
        {
            let w = &restored[k];
            proof {
                assert(windows.take(k + 1).drop_last() =~= windows.take(k as int));
                assert(windows.take(k + 1).last() == w@);
            }
            desk.open_note_with_placement(w.locator(), w.placement());
            k = k + 1;
        }
        proof {
            assert(windows.take(k as int) =~= windows);
        }
        if desk.open_order.len() == 0 {
            proof {
                // With a note loaded some window opens, so the list below is empty.
                if docs0.len() > 0 {
                    assert(has_doc(docs0, docs0[0].locator));
                    lemma_available_has_doc(all_notes, docs0[0].locator);
                    law_initial_windows_open_when_notes_exist(avail, session@.open_windows);
                    law_initial_windows_show_loaded_notes_once(avail, session@.open_windows);
                    assert(avail.contains(windows[0].locator));
                    lemma_available_has_doc(all_notes, windows[0].locator);
                    lemma_doc_index_found(docs0, windows[0].locator);
                    lemma_open_all_nonempty(base, windows);
                    assert(false);
                }
                lemma_open_all_wf(base, windows);
            }
            let sorted = desk.sorted_note_locators();
            if sorted.len() > 0 {
                let placement = desk.cascade_placement();
                desk.open_note_with_placement(sorted[0].clone(), placement);
            }
        }
        desk.session_dirty = true;
        desk
    }
}

/// The title shown for a note: its trimmed title, or the "untitled_note"
/// message when that is empty.
pub open spec fn shown_title(
    messages: Seq<(Seq<char>, MessageView)>,
    locale: ResolvedLocale,
    title: Seq<char>,
) -> Seq<char> {
    if trimmed(title).len() == 0 {
        message_text(messages, locale, "untitled_note"@)
    } else {
        trimmed(title)
    }
}

/// The document of note `l` has an open window.
pub open spec fn is_open(s: DeskView, l: LocatorView) -> bool {
    doc_index(s.documents, l) >= 0 && s.documents[doc_index(s.documents, l)].editor is Some
}

/// The open window of note `l` (meaningful when `is_open`).
pub open spec fn editor_of(s: DeskView, l: LocatorView) -> EditorView {
    match s.documents[doc_index(s.documents, l)].editor {
        Some(e) => e,
        None => EditorView { placement: note_window_placement(), autosave: clean_state() },
    }
}

/// `s` with the document of the open note `l` given the note `note` and
/// the window `e`.
pub open spec fn with_open_doc(s: DeskView, l: LocatorView, note: NoteView, e: EditorView) -> DeskView {
    let i = doc_index(s.documents, l);
    DeskView {
        documents: s.documents.update(i, DocView { note, editor: Some(e), ..s.documents[i] }),
        ..s
    }
}

/// After `note` was saved for note `l`: when its window is open, the
/// document takes the saved note, the edit is no longer pending and the
/// session needs saving; otherwise nothing changes.
pub open spec fn saved(s: DeskView, l: LocatorView, note: NoteView) -> DeskView {
    if is_open(s, l) {
        DeskView {
            session_dirty: true,
            ..with_open_doc(s, l, note, EditorView { autosave: clean_state(), ..editor_of(s, l) })
        }
    } else {
        s
    }
}

/// After saving note `l` failed with `message`: when its window is open,
/// the window keeps the error (the edit stays pending) and the banner
/// shows it; otherwise nothing changes.
pub open spec fn save_failed(s: DeskView, l: LocatorView, message: Seq<char>) -> DeskView {
    if is_open(s, l) {
        DeskView {
            banner: Some(message),
            ..with_open_doc(
                s,
                l,
                s.documents[doc_index(s.documents, l)].note,
                EditorView { autosave: after_failure(editor_of(s, l).autosave, message), ..editor_of(s, l) },
            )
        }
    } else {
        s
    }
}

/// After the title and content of the open note `l` were edited at `now`:
/// the note holds them, its save is pending since `now`, and the session
/// needs saving.
pub open spec fn edited(s: DeskView, l: LocatorView, title: Seq<char>, content: Seq<char>, now: u64) -> DeskView {
    if is_open(s, l) {
        let note = s.documents[doc_index(s.documents, l)].note;
        DeskView {
            session_dirty: true,
            ..with_open_doc(
                s,
                l,
                NoteView { title, content, ..note },
                EditorView { autosave: after_change(now), ..editor_of(s, l) },
            )
        }
    } else {
        s
    }
}

/// After the window of the open note `l` moved to `p`.
pub open spec fn placed(s: DeskView, l: LocatorView, p: WindowPlacement) -> DeskView {
    if is_open(s, l) {
        DeskView {
            session_dirty: true,
            ..with_open_doc(
                s,
                l,
                s.documents[doc_index(s.documents, l)].note,
                EditorView { placement: p, ..editor_of(s, l) },
            )
        }
    } else {
        s
    }
}

/// A failure message: the localized prefix for `key`, a space, the error.
pub open spec fn failure_message(s: DeskView, key: Seq<char>, error: Seq<char>) -> Seq<char> {
    message_text(s.messages, s.locale, key) + " "@ + error
}

proof fn lemma_with_open_doc_wf(s: DeskView, l: LocatorView, note: NoteView, e: EditorView)
    requires
        desk_wf(s),
        is_open(s, l),
    ensures
        desk_wf(with_open_doc(s, l, note, e)),
        forall|x: LocatorView| #[trigger] doc_index(with_open_doc(s, l, note, e).documents, x) == doc_index(s.documents, x),
{
    let i = doc_index(s.documents, l);
    lemma_doc_index_range(s.documents, l);
    let d = DocView { note, editor: Some(e), ..s.documents[i] };
    let t = with_open_doc(s, l, note, e);
    assert forall|x: LocatorView| #[trigger] doc_index(t.documents, x) == doc_index(s.documents, x) by {
        lemma_doc_index_update(s.documents, i, d, x);
    }
    assert forall|a: int, b: int| 0 <= a < b < t.documents.len() implies #[trigger] t.documents[a].locator
        != #[trigger] t.documents[b].locator by {
        assert(t.documents[a].locator == s.documents[a].locator);
        assert(t.documents[b].locator == s.documents[b].locator);
    }
    assert forall|k: int| 0 <= k < t.open_order.len() implies (#[trigger] doc_index(t.documents, t.open_order[k])
        >= 0 && t.documents[doc_index(t.documents, t.open_order[k])].editor is Some) by {
        let x = t.open_order[k];
        assert(doc_index(t.documents, x) == doc_index(s.documents, x));
        assert(doc_index(s.documents, s.open_order[k]) >= 0);
        let j = doc_index(s.documents, x);
        lemma_doc_index_range(s.documents, x);
        if j != i {
            assert(t.documents[j] == s.documents[j]);
        }
    }
    assert forall|a: int| 0 <= a < t.documents.len() && (#[trigger] t.documents[a]).editor is Some implies t.open_order.contains(
        t.documents[a].locator,
    ) by {
        if a != i {
            assert(t.documents[a] == s.documents[a]);
        } else {
            assert(s.documents[i].editor is Some);
        }
    }
}

impl DeskState {
    /// The text of message `key` in the current language.
    pub fn text(&self, key: &str) -> (r: String)
        ensures
            r@ == message_text(self@.messages, self@.locale, key@),
    {
        self.messages.text(self.locale, key)
    }

    /// The title to show for `note` (see `shown_title`).
    pub fn note_title(&self, note: &Note) -> (r: String)
        ensures
            r@ == shown_title(self@.messages, self@.locale, note@.title),
    {
        let trimmed_title = trim_to_string(note.title.as_str());
        if trimmed_title.unicode_len() == 0 {
            self.text("untitled_note")
        } else {
            trimmed_title
        }
    }

    /// The banner message, if any.
    pub fn banner(&self) -> (r: Option<&str>)
        ensures
            match r {
                Some(b) => self@.banner == Some(b@),
                None => self@.banner is None,
            },
    {
        match &self.banner {
            Some(b) => Some(b.as_str()),
            None => None,
        }
    }

    /// Shows `message` in the banner.
    pub fn show_banner(&mut self, message: &str)
        requires
            desk_wf(old(self)@),
        ensures
            final(self)@ == (DeskView { banner: Some(message@), ..old(self)@ }),
            desk_wf(final(self)@),
    {
        self.banner = Some(message.to_owned());
    }

    /// Shows a failure in the banner: the message for `key`, a space, and
    /// `error`.
    pub fn report_failure(&mut self, key: &str, error: &str)
        requires
            desk_wf(old(self)@),
        ensures
            final(self)@ == (DeskView { banner: Some(failure_message(old(self)@, key@, error@)), ..old(self)@ }),
            desk_wf(final(self)@),
    {
        let prefix = self.text(key);
        let with_space = concat_strs(prefix.as_str(), " ");
        let message = concat_strs(with_space.as_str(), error);
        self.banner = Some(message);
    }

    /// The note root new notes go to: the first configured one.
    pub fn new_note_root(&self) -> (r: Option<FsPath>)
        ensures
            match r {
                Some(p) => self@.config.note_roots.len() > 0 && p@ == self@.config.note_roots[0],
                None => self@.config.note_roots.len() == 0,
            },
    {
        if self.config.note_roots.len() > 0 {
            Some(self.config.note_roots[0].clone())
        } else {
            None
        }
    }

    /// The history settings.
    pub fn history(&self) -> (r: HistoryConfig)
        ensures
            r == self@.config.history,
    {
        self.config.history
    }

    /// A copy of the loaded note `l`.
    pub fn document_note(&self, l: &NoteLocator) -> (r: Option<Note>)
        ensures
            match r {
                Some(n) => doc_index(self@.documents, l@) >= 0 && n@ == self@.documents[doc_index(self@.documents, l@)].note,
                None => doc_index(self@.documents, l@) == -1,
            },
    {
        match find_doc_index(&self.documents, l) {
            Some(i) => Some(self.documents[i].note.clone()),
            None => None,
        }
    }

    /// The notes with open windows, in window order.
    pub fn open_order(&self) -> (r: Vec<NoteLocator>)
        ensures
            locator_views(r@) == self@.open_order,
    {
        let mut r: Vec<NoteLocator> = Vec::new();
        let mut i: usize = 0;
        while i < self.open_order.len()
            invariant
                i <= self.open_order@.len(),
                r@.len() == i,
                forall|j: int| 0 <= j < i ==> #[trigger] r@[j]@ == self.open_order@[j]@,
            decreases self.open_order.len() - i,
        {
            r.push(self.open_order[i].clone());
            i = i + 1;
        }
        assert(locator_views(r@) =~= self@.open_order);
        r
    }

    /// The placement of the open note `l`'s window.
    pub fn editor_placement(&self, l: &NoteLocator) -> (r: Option<WindowPlacement>)
        ensures
            match r {
                Some(p) => is_open(self@, l@) && p == editor_of(self@, l@).placement,
                None => !is_open(self@, l@),
            },
    {
        match find_doc_index(&self.documents, l) {
            Some(i) => match &self.documents[i].editor {
                Some(e) => Some(e.placement),
                None => None,
            },
            None => None,
        }
    }

    /// The placement of the management window.
    pub fn management_window(&self) -> (r: WindowPlacement)
        ensures
            r == self@.management_window,
    {
        self.management_window
    }

    /// The management window moved to `p`; the session needs saving.
    pub fn set_management_window(&mut self, p: WindowPlacement)
        requires
            desk_wf(old(self)@),
        ensures
            final(self)@ == (DeskView { management_window: p, session_dirty: true, ..old(self)@ }),
            desk_wf(final(self)@),
    {
        self.management_window = p;
        self.session_dirty = true;
    }

    /// Whether the open note `l` has unsaved edits.
    pub fn needs_save(&self, l: &NoteLocator) -> (r: bool)
        ensures
            r == (is_open(self@, l@) && editor_of(self@, l@).autosave.dirty),
    {
        match find_doc_index(&self.documents, l) {
            Some(i) => match &self.documents[i].editor {
                Some(e) => e.autosave.dirty(),
                None => false,
            },
            None => false,
        }
    }

    /// The note `l` as it is to be saved: its current text, updated at
    /// `timestamp`.
    pub fn note_for_save(&self, l: &NoteLocator, timestamp: String) -> (r: Option<Note>)
        ensures
            match r {
                Some(n) => doc_index(self@.documents, l@) >= 0 && n@ == (NoteView {
                    updated_at: timestamp@,
                    ..self@.documents[doc_index(self@.documents, l@)].note
                }),
                None => doc_index(self@.documents, l@) == -1,
            },
    {
        match find_doc_index(&self.documents, l) {
            Some(i) => {
                let mut note = self.documents[i].note.clone();
                note.updated_at = timestamp;
                Some(note)
            },
            None => None,
        }
    }
}

/// The idle delay before autosave, in nanoseconds, for a configured delay
/// in milliseconds (delays beyond the range of `u64` nanoseconds, some 584
/// years, are capped there).
pub open spec fn delay_nanos(ms: u64) -> u64 {
    if ms <= u64::MAX / 1_000_000 {
        (ms * 1_000_000) as u64
    } else {
        u64::MAX
    }
}

/// The placements of the open windows, in window order.
pub open spec fn open_placements(s: DeskView, order: Seq<LocatorView>) -> Seq<WindowPlacement>
    decreases order.len(),
{
    if order.len() == 0 {
        Seq::empty()
    } else {
        let rest = open_placements(s, order.drop_last());
        if is_open(s, order.last()) {
            rest.push(editor_of(s, order.last()).placement)
        } else {
            rest
        }
    }
}

/// The session to store: current schema, the management window, and one
/// window per note in window order, at the placements of the open windows
/// taken in order (the default placement where they run out).
pub open spec fn built_session(s: DeskView) -> SessionView {
    let placements = open_placements(s, s.open_order);
    SessionView {
        schema_version: crate::model::schema_version_text(),
        management_window: s.management_window,
        open_windows: Seq::new(
            s.open_order.len(),
            |i: int|
                WindowView {
                    locator: s.open_order[i],
                    placement: if i < placements.len() {
                        placements[i]
                    } else {
                        note_window_placement()
                    },
                },
        ),
    }
}

/// Time to wait before the next repaint while edits are pending: the
/// shortest remaining idle time of the dirty open notes, at most 250 ms.
pub open spec fn pending_wait(docs: Seq<DocView>, now: u64, delay: u64) -> int
    decreases docs.len(),
{
    if docs.len() == 0 {
        250_000_000
    } else {
        let acc = pending_wait(docs.drop_last(), now, delay);
        match docs.last().editor {
            Some(e) => match e.autosave.pending_since {
                Some(p) => if e.autosave.dirty && elapsed_since(now, p) < delay {
                    if delay - elapsed_since(now, p) < acc {
                        delay - elapsed_since(now, p)
                    } else {
                        acc
                    }
                } else {
                    acc
                },
                None => acc,
            },
            None => acc,
        }
    }
}

/// Some open note's save is due.
pub open spec fn any_save_due(docs: Seq<DocView>, now: u64, delay: u64) -> bool {
    exists|i: int|
        0 <= i < docs.len() && match #[trigger] docs[i].editor {
            Some(e) => save_due(e.autosave, now, delay),
            None => false,
        }
}

/// When to repaint next: after 16 ms when some save is due, else after
/// `pending_wait`.
pub open spec fn repaint_after(s: DeskView, now: u64) -> int {
    let delay = delay_nanos(s.config.autosave_delay_ms);
    if any_save_due(s.documents, now, delay) {
        16_000_000
    } else {
        pending_wait(s.documents, now, delay)
    }
}

/// Minimum time between two session saves: 250 ms.
pub const SESSION_SAVE_INTERVAL_NANOS: u64 = 250_000_000;

impl DeskState {
    /// Records the outcome of saving `note` for note `l`: `Ok` as `saved`,
    /// `Err` with the error text as `save_failed` with the message
    /// "save_failed" followed by the error.
    pub fn finish_save(&mut self, l: &NoteLocator, note: Note, result: Result<(), String>)
        requires
            desk_wf(old(self)@),
        ensures
            final(self)@ == match result {
                Ok(()) => saved(old(self)@, l@, note@),
                Err(e) => save_failed(old(self)@, l@, failure_message(old(self)@, "save_failed"@, e@)),
            },
            desk_wf(final(self)@),
    {
        let ghost s = self@;
        let prefix = self.text("save_failed");
        let i = match find_doc_index(&self.documents, l) {
            Some(i) => i,
            None => {
                return;
            },
        };
        if self.documents[i].editor.is_none() {
            return;
        }
        proof {
            lemma_doc_index_range(s.documents, l@);
        }
        let mut doc = self.documents.remove(i);
        let mut editor = match doc.editor.take() {
            Some(e) => e,
            None => {
                proof {
                    assert(false);
                }
                return;
            },
        };
        let ghost e0 = editor@;
        match result {
            Ok(()) => {
                let ghost nv = note@;
                doc.note = note;
                editor.autosave.mark_saved();
                doc.editor = Some(editor);
                self.documents.insert(i, doc);
                self.session_dirty = true;
                proof {
                    lemma_with_open_doc_wf(s, l@, nv, EditorView { autosave: clean_state(), ..e0 });
                    assert(self@.documents =~= with_open_doc(s, l@, nv, EditorView { autosave: clean_state(), ..e0 }).documents);
                }
            },
            Err(e) => {
                let with_space = concat_strs(prefix.as_str(), " ");
                let message = concat_strs(with_space.as_str(), e.as_str());
                editor.autosave.mark_failed(message.as_str());
                doc.editor = Some(editor);
                let ghost nv = doc.note@;
                self.documents.insert(i, doc);
                self.banner = Some(message);
                proof {
                    let m = failure_message(s, "save_failed"@, e@);
                    lemma_with_open_doc_wf(s, l@, nv, EditorView { autosave: after_failure(e0.autosave, m), ..e0 });
                    assert(self@.documents =~= with_open_doc(s, l@, nv, EditorView { autosave: after_failure(e0.autosave, m), ..e0 }).documents);
                }
            },
        }
    }

    /// The title and content of the open note `l` were edited at `now`
    /// (see `edited`).
    pub fn apply_edit(&mut self, l: &NoteLocator, title: String, content: String, now: u64)
        requires
            desk_wf(old(self)@),
        ensures
            final(self)@ == edited(old(self)@, l@, title@, content@, now),
            desk_wf(final(self)@),
    {
        let ghost s = self@;
        let i = match find_doc_index(&self.documents, l) {
            Some(i) => i,
            None => {
                return;
            },
        };
        if self.documents[i].editor.is_none() {
            return;
        }
        proof {
            lemma_doc_index_range(s.documents, l@);
        }
        let mut doc = self.documents.remove(i);
        let mut editor = match doc.editor.take() {
            Some(e) => e,
            None => {
                proof {
                    assert(false);
                }
                return;
            },
        };
        let ghost e0 = editor@;
        let ghost n0 = doc.note@;
        let ghost tv = title@;
        let ghost cv = content@;
        doc.note.title = title;
        doc.note.content = content;
        editor.autosave.mark_changed(now);
        doc.editor = Some(editor);
        self.documents.insert(i, doc);
        self.session_dirty = true;
        proof {
            let nv = NoteView { title: tv, content: cv, ..n0 };
            lemma_with_open_doc_wf(s, l@, nv, EditorView { autosave: after_change(now), ..e0 });
            assert(self@.documents =~= with_open_doc(s, l@, nv, EditorView { autosave: after_change(now), ..e0 }).documents);
        }
    }

    /// The window of the open note `l` moved to `p` (see `placed`).
    pub fn set_editor_placement(&mut self, l: &NoteLocator, p: WindowPlacement)
        requires
            desk_wf(old(self)@),
        ensures
            final(self)@ == placed(old(self)@, l@, p),
            desk_wf(final(self)@),
    {
        let ghost s = self@;
        let i = match find_doc_index(&self.documents, l) {
            Some(i) => i,
            None => {
                return;
            },
        };
        if self.documents[i].editor.is_none() {
            return;
        }
        proof {
            lemma_doc_index_range(s.documents, l@);
        }
        let mut doc = self.documents.remove(i);
        let mut editor = match doc.editor.take() {
            Some(e) => e,
            None => {
                proof {
                    assert(false);
                }
                return;
            },
        };
        let ghost e0 = editor@;
        editor.placement = p;
        doc.editor = Some(editor);
        let ghost nv = doc.note@;
        self.documents.insert(i, doc);
        self.session_dirty = true;
        proof {
            lemma_with_open_doc_wf(s, l@, nv, EditorView { placement: p, ..e0 });
            assert(self@.documents =~= with_open_doc(s, l@, nv, EditorView { placement: p, ..e0 }).documents);
        }
    }

    /// The autosave delay in nanoseconds.
    fn autosave_delay_nanos(&self) -> (r: u64)
        ensures
            r == delay_nanos(self@.config.autosave_delay_ms),
    {
        let ms = self.config.autosave_delay_ms;
        if ms <= u64::MAX / 1_000_000 {
            ms * 1_000_000
        } else {
            u64::MAX
        }
    }

    /// Whether the open note `l` should be saved at `now`.
    pub fn save_due_for(&self, l: &NoteLocator, now: u64) -> (r: bool)
        ensures
            r == (is_open(self@, l@) && save_due(
                editor_of(self@, l@).autosave,
                now,
                delay_nanos(self@.config.autosave_delay_ms),
            )),
    {
        let delay = self.autosave_delay_nanos();
        match find_doc_index(&self.documents, l) {
            Some(i) => match &self.documents[i].editor {
                Some(e) => e.autosave.due(now, delay),
                None => false,
            },
            None => false,
        }
    }

    /// The message key of the save status of the open note `l`:
    /// "status_error" after a failed save, "status_pending" with unsaved
    /// edits, else "status_saved"; `None` when it is not open.
    pub fn editor_status(&self, l: &NoteLocator) -> (r: Option<&'static str>)
        ensures
            match r {
                Some(k) => is_open(self@, l@) && k@ == if editor_of(self@, l@).autosave.last_error is Some {
                    "status_error"@
                } else if editor_of(self@, l@).autosave.dirty {
                    "status_pending"@
                } else {
                    "status_saved"@
                },
                None => !is_open(self@, l@),
            },
    {
        match find_doc_index(&self.documents, l) {
            Some(i) => match &self.documents[i].editor {
                Some(e) => {
                    if e.autosave.last_error().is_some() {
                        Some("status_error")
                    } else if e.autosave.dirty() {
                        Some("status_pending")
                    } else {
                        Some("status_saved")
                    }
                },
                None => None,
            },
            None => None,
        }
    }

    /// The session to store (see `built_session`).
    pub fn build_session(&self) -> (r: crate::model::Session)
        ensures
            r@ == built_session(self@),
    {
        let ghost s = self@;
        let mut placements: Vec<WindowPlacement> = Vec::new();
        let mut i: usize = 0;
        while i < self.open_order.len()
            invariant
                s == self@,
                i <= self.open_order@.len(),
                placements@ == open_placements(s, s.open_order.take(i as int)),
            decreases self.open_order.len() - i,
        {
            proof {
                assert(s.open_order.take(i + 1).drop_last() =~= s.open_order.take(i as int));
                assert(s.open_order.take(i + 1).last() == self.open_order@[i as int]@);
            }
            match self.editor_placement(&self.open_order[i]) {
                Some(p) => {
                    placements.push(p);
                },
                None => {},
            }
            i = i + 1;
        }
        proof {
            assert(s.open_order.take(i as int) =~= s.open_order);
        }
        let windows = crate::storage::session_open_windows(self.open_order.as_slice(), placements.as_slice());
        let r = crate::model::Session {
            schema_version: crate::model::schema_version_string(),
            management_window: self.management_window,
            open_windows: windows,
        };
        assert(r@.open_windows =~= built_session(s).open_windows);
        r
    }

    /// Whether the session should be written at `now`: it changed and the
    /// last write is at least 250 ms ago.
    pub fn session_save_due(&self, now: u64) -> (r: bool)
        ensures
            r == (self@.session_dirty && elapsed_since(now, self@.last_session_save) >= SESSION_SAVE_INTERVAL_NANOS),
    {
        let elapsed = if now >= self.last_session_save {
            now - self.last_session_save
        } else {
            0
        };
        self.session_dirty && elapsed >= SESSION_SAVE_INTERVAL_NANOS
    }

    /// Records the outcome of writing the session at `now`: on success the
    /// session is clean and `now` is the last write; on failure the banner
    /// shows "session_save_failed" followed by the error.
    pub fn finish_session_save(&mut self, result: Result<(), String>, now: u64)
        requires
            desk_wf(old(self)@),
        ensures
            final(self)@ == match result {
                Ok(()) => DeskView { session_dirty: false, last_session_save: now, ..old(self)@ },
                Err(e) => DeskView {
                    banner: Some(failure_message(old(self)@, "session_save_failed"@, e@)),
                    ..old(self)@
                },
            },
            desk_wf(final(self)@),
    {
        match result {
            Ok(()) => {
                self.session_dirty = false;
                self.last_session_save = now;
            },
            Err(e) => {
                self.report_failure("session_save_failed", e.as_str());
            },
        }
    }

    /// Nanoseconds until the next repaint (see `repaint_after`).
    pub fn next_repaint_after(&self, now: u64) -> (r: u64)
        ensures
            r == repaint_after(self@, now),
    {
        let ghost docs = self@.documents;
        let delay = self.autosave_delay_nanos();
        let mut next: u64 = 250_000_000;
        let mut i: usize = 0;
        while i < self.documents.len()
            invariant
                docs == self@.documents,
                docs == doc_views(self.documents@),
                delay == delay_nanos(self@.config.autosave_delay_ms),
                i <= self.documents@.len(),
                next == pending_wait(docs.take(i as int), now, delay),
                !any_save_due(docs.take(i as int), now, delay),
            decreases self.documents.len() - i,
        {
            proof {
                assert(docs.take(i + 1).drop_last() =~= docs.take(i as int));
                assert(docs.take(i + 1).last() == docs[i as int]);
            }
            match &self.documents[i].editor {
                Some(e) => match e.autosave.pending_since() {
                    Some(p) => {
                        if e.autosave.dirty() {
                            let elapsed = if now >= p {
                                now - p
                            } else {
                                0
                            };
                            if elapsed >= delay {
                                proof {
                                    assert(docs[i as int].editor == Some(e@));
                                }
                                return 16_000_000;
                            }
                            let remaining = delay - elapsed;
                            if remaining < next {
                                next = remaining;
                            }
                        }
                    },
                    None => {},
                },
                None => {},
            }
            proof {
                let t = docs.take(i + 1);
                assert forall|k: int| 0 <= k < t.len() implies !match #[trigger] t[k].editor {
                    Some(e) => save_due(e.autosave, now, delay),
                    None => false,
                } by {
                    if k < i {
                        assert(t[k] == docs.take(i as int)[k]);
                    }
                }
            }
            i = i + 1;
        }
        proof {
            assert(docs.take(i as int) =~= docs);
        }
        next
    }
}

proof fn lemma_open_placements_all_open(s: DeskView, order: Seq<LocatorView>)
    requires
        forall|k: int| 0 <= k < order.len() ==> is_open(s, #[trigger] order[k]),
    ensures
        open_placements(s, order).len() == order.len(),
        forall|k: int|
            0 <= k < order.len() ==> #[trigger] open_placements(s, order)[k] == editor_of(s, order[k]).placement,
    decreases order.len(),
{
    if order.len() > 0 {
        let prefix = order.drop_last();
        assert forall|k: int| 0 <= k < prefix.len() implies is_open(s, #[trigger] prefix[k]) by {
            assert(prefix[k] == order[k]);
        }
        lemma_open_placements_all_open(s, prefix);
        assert(is_open(s, order[order.len() - 1]));
        assert forall|k: int| 0 <= k < order.len() implies #[trigger] open_placements(s, order)[k]
            == editor_of(s, order[k]).placement by {
            if k < prefix.len() {
                assert(prefix[k] == order[k]);
            }
        }
    }
}

/// The stored session lists every open note window, in window order, at
/// its current placement.
pub proof fn law_session_lists_open_windows(s: DeskView)
    requires
        desk_wf(s),
    ensures
        built_session(s).open_windows.len() == s.open_order.len(),
        forall|k: int|
            0 <= k < s.open_order.len() ==> #[trigger] built_session(s).open_windows[k] == (WindowView {
                locator: s.open_order[k],
                placement: editor_of(s, s.open_order[k]).placement,
            }),
{
    assert forall|k: int| 0 <= k < s.open_order.len() implies is_open(s, #[trigger] s.open_order[k]) by {}
    lemma_open_placements_all_open(s, s.open_order);
}

/// At the next start, with the same notes still there, the stored session
/// brings back exactly the open note windows, in order, at their
/// placements.
pub proof fn law_session_restores_open_windows(s: DeskView, available: Seq<LocatorView>)
    requires
        desk_wf(s),
        s.open_order.len() > 0,
        forall|k: int| 0 <= k < s.open_order.len() ==> available.contains(#[trigger] s.open_order[k]),
    ensures
        initial_windows(available, built_session(s).open_windows) == built_session(s).open_windows,
{
    law_session_lists_open_windows(s);
    let ws = built_session(s).open_windows;
    assert forall|k: int| 0 <= k < ws.len() implies available.contains(#[trigger] ws[k].locator) by {
        assert(ws[k].locator == s.open_order[k]);
    }
    assert forall|a: int, b: int| 0 <= a < b < ws.len() implies #[trigger] ws[a].locator != #[trigger] ws[b].locator by {
        assert(ws[a].locator == s.open_order[a]);
        assert(ws[b].locator == s.open_order[b]);
    }
    crate::storage::law_saved_windows_are_restored(available, ws);
}

proof fn lemma_without_absent(order: Seq<LocatorView>, l: LocatorView)
    requires
        !order.contains(l),
    ensures
        without_locator(order, l) == order,
    decreases order.len(),
{
    if order.len() > 0 {
        let prefix = order.drop_last();
        assert(!prefix.contains(l)) by {
            if prefix.contains(l) {
                let k = choose|k: int| 0 <= k < prefix.len() && prefix[k] == l;
                assert(order[k] == l);
            }
        }
        lemma_without_absent(prefix, l);
        assert(order[order.len() - 1] != l);
        assert(prefix.push(order.last()) =~= order);
    }
}

/// Closing a note window just opened gives back the windows and documents
/// as they were (only the session is marked for saving).
pub proof fn law_close_undoes_open(s: DeskView, l: LocatorView, p: WindowPlacement)
    requires
        desk_wf(s),
        !is_open(s, l),
    ensures
        closed(opened(s, l, p), l) == (DeskView { session_dirty: true, ..s }),
{
    let i = doc_index(s.documents, l);
    lemma_doc_index_range(s.documents, l);
    assert(!s.open_order.contains(l)) by {
        if s.open_order.contains(l) {
            let k = choose|k: int| 0 <= k < s.open_order.len() && s.open_order[k] == l;
            assert(doc_index(s.documents, s.open_order[k]) >= 0);
        }
    }
    lemma_without_absent(s.open_order, l);
    let t = opened(s, l, p);
    if i >= 0 {
        let d = DocView { editor: Some(EditorView { placement: p, autosave: clean_state() }), ..s.documents[i] };
        lemma_doc_index_update(s.documents, i, d, l);
        assert(t.open_order == s.open_order.push(l));
        assert(t.open_order.drop_last() =~= s.open_order);
        assert(without_locator(t.open_order, l) == without_locator(s.open_order, l));
        assert(closed(t, l).documents =~= s.documents);
    } else {
        assert(closed(t, l).documents =~= s.documents);
    }
}

/// With notes loaded, startup opens at least one note window.
pub proof fn law_startup_opens_a_window(
    config: ConfigView,
    messages: Seq<(Seq<char>, MessageView)>,
    locale: ResolvedLocale,
    notes: Seq<StoredNote>,
    session: SessionView,
    now: u64,
)
    requires
        notes.len() > 0,
    ensures
        startup_state(config, messages, locale, notes, session, now).open_order.len() > 0,
{
    let avail = note_locators(notes);
    let docs0 = docs_from_notes(stored_views(notes));
    let base = DeskView {
        config,
        messages,
        locale,
        management_window: session.management_window,
        documents: docs0,
        open_order: Seq::empty(),
        next_window_index: 0,
        session_dirty: false,
        last_session_save: now,
        banner: startup_banner(messages, locale, session, avail),
    };
    let windows = initial_windows(avail, session.open_windows);
    lemma_available_has_doc(notes, avail[0]);
    assert(avail.contains(avail[0]));
    law_initial_windows_open_when_notes_exist(avail, session.open_windows);
    law_initial_windows_show_loaded_notes_once(avail, session.open_windows);
    lemma_available_has_doc(notes, windows[0].locator);
    lemma_doc_index_found(docs0, windows[0].locator);
    assert(desk_wf(base));
    lemma_open_all_nonempty(base, windows);
}

/// The document `d` is found in `with_doc(docs, d)`.
proof fn lemma_with_doc_finds(docs: Seq<DocView>, d: DocView)
    ensures
        doc_index(with_doc(docs, d), d.locator) >= 0,
        with_doc(docs, d)[doc_index(with_doc(docs, d), d.locator)] == d,
{
    let l = d.locator;
    let i = doc_index(docs, l);
    lemma_doc_index_range(docs, l);
    if i >= 0 {
        lemma_doc_index_update(docs, i, d, l);
    } else {
        let u = docs.push(d);
        assert forall|j: int| 0 <= j < docs.len() implies #[trigger] u[j].locator != l by {
            assert(u[j] == docs[j]);
        }
        lemma_doc_index(u, l, docs.len() as int);
    }
}

/// A newly created note is loaded, its window is open at the next cascaded
/// placement, and it is the last window in the window order.
pub proof fn law_created_note_opens(s: DeskView, n: StoredNoteView)
    requires
        desk_wf(s),
    ensures
        is_open(created(s, n), doc_for_note(n).locator),
        editor_of(created(s, n), doc_for_note(n).locator).placement == cascade_placement_for(s.next_window_index),
        created(s, n).documents[doc_index(created(s, n).documents, doc_for_note(n).locator)].note == n.note,
        created(s, n).open_order.last() == doc_for_note(n).locator,
{
    let d = doc_for_note(n);
    let l = d.locator;
    let t = closed(s, l);
    let u = DeskView {
        documents: with_doc(t.documents, d),
        next_window_index: next_index(s.next_window_index),
        ..t
    };
    lemma_with_doc_finds(t.documents, d);
    let i = doc_index(u.documents, l);
    let p = cascade_placement_for(s.next_window_index);
    let e = DocView { editor: Some(EditorView { placement: p, autosave: clean_state() }), ..u.documents[i] };
    lemma_doc_index_range(u.documents, l);
    lemma_doc_index_update(u.documents, i, e, l);
}

/// An edit of an open note leaves it pending; saving it then stores the
/// saved note and clears the pending edit, while a failed save keeps the
/// edited text pending and shows the failure.
pub proof fn law_saving_an_edit(
    s: DeskView,
    l: LocatorView,
    title: Seq<char>,
    content: Seq<char>,
    now: u64,
    note: NoteView,
    message: Seq<char>,
)
    requires
        desk_wf(s),
        is_open(s, l),
    ensures
        is_open(edited(s, l, title, content, now), l),
        editor_of(edited(s, l, title, content, now), l).autosave == after_change(now),
        is_open(saved(edited(s, l, title, content, now), l, note), l),
        editor_of(saved(edited(s, l, title, content, now), l, note), l).autosave == clean_state(),
        doc_at(saved(edited(s, l, title, content, now), l, note).documents, l).note == note,
        is_open(save_failed(edited(s, l, title, content, now), l, message), l),
        editor_of(save_failed(edited(s, l, title, content, now), l, message), l).autosave.dirty,
        doc_at(save_failed(edited(s, l, title, content, now), l, message).documents, l).note.title == title,
        doc_at(save_failed(edited(s, l, title, content, now), l, message).documents, l).note.content == content,
        save_failed(edited(s, l, title, content, now), l, message).banner == Some(message),
{
    let i = doc_index(s.documents, l);
    lemma_doc_index_range(s.documents, l);
    let n0 = s.documents[i].note;
    let e0 = editor_of(s, l);
    let nv = NoteView { title, content, ..n0 };
    let ev = EditorView { autosave: after_change(now), ..e0 };
    lemma_with_open_doc_wf(s, l, nv, ev);
    let t = edited(s, l, title, content, now);
    assert(doc_index(t.documents, l) == i);
    assert(desk_wf(t));
    lemma_with_open_doc_wf(t, l, note, EditorView { autosave: clean_state(), ..ev });
    let m = after_failure(ev.autosave, message);
    lemma_with_open_doc_wf(t, l, nv, EditorView { autosave: m, ..ev });
}

/// The autosave delay is the configured number of milliseconds in
/// nanoseconds, for every configured value whose nanoseconds fit in `u64`
/// (larger ones, beyond some 584 years, wait as long as `u64` allows).
pub proof fn law_delay_is_the_configured_milliseconds(ms: u64)
    ensures
        ms <= 18_446_744_073_709 ==> delay_nanos(ms) == ms * 1_000_000,
        ms > 18_446_744_073_709 ==> delay_nanos(ms) == 18_446_744_073_709_551_615u64,
{
}

/// After an edit of an open note at `t`, its save is due at a later `now`
/// exactly when `autosave_delay_ms` milliseconds have passed since `t`.
pub proof fn law_save_due_after_configured_delay(
    s: DeskView,
    l: LocatorView,
    title: Seq<char>,
    content: Seq<char>,
    t: u64,
    now: u64,
)
    requires
        desk_wf(s),
        is_open(s, l),
        now >= t,
        s.config.autosave_delay_ms <= 18_446_744_073_709,
    ensures
        save_due(
            editor_of(edited(s, l, title, content, t), l).autosave,
            now,
            delay_nanos(edited(s, l, title, content, t).config.autosave_delay_ms),
        ) <==> now - t >= s.config.autosave_delay_ms * 1_000_000,
{
    law_saving_an_edit(s, l, title, content, t, s.documents[doc_index(s.documents, l)].note, Seq::empty());
    law_delay_is_the_configured_milliseconds(s.config.autosave_delay_ms);
}

} // verus!
