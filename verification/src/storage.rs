//! Storage rules: where files live, which files are notes, schema checks,
//! the order of notes, history pruning, bootstrap decisions and the restore
//! of note windows.

use vstd::prelude::*;

use crate::model::{default_note_window, management_window_placement, Config, ConfigView, Locale, Note, NoteView, note_window_placement, schema_version_string, schema_version_text, LocatorView, NoteLocator, OpenWindowState, Session, StoredNote, StoredNoteView, WindowPlacement, WindowView};
use crate::order::{sort_ranked, sorted_by_rank, Ranked};
use crate::path::{compare_paths, lemma_path_before_asymmetric, lemma_path_before_irreflexive, lemma_path_before_total, lemma_path_before_transitive, path_before, FsPath, PartView};
use crate::text::{chars_at_most, chars_before, compare_strs, concat_strs, lemma_chars_before_asymmetric, lemma_chars_before_irreflexive, lemma_chars_before_total, lemma_chars_before_transitive, Order};

verus! {

/// Why a storage step was refused.
#[derive(Debug, PartialEq, Eq)]
pub enum StorageError {
    /// A file carries a schema version other than `SCHEMA_VERSION`.
    UnsupportedSchema { version: String, label: String },
    /// The current time could not be written as RFC 3339; `detail` is the
    /// `time` crate's message.
    Timestamp { detail: String },
}

/// The message of an error.
pub open spec fn error_message(e: StorageError) -> Seq<char> {
    match e {
        StorageError::UnsupportedSchema { version, label } => "unsupported schema version "@
            + version@ + " in "@ + label@,
        StorageError::Timestamp { detail } => detail@,
    }
}

impl StorageError {
    /// The text of this error, as the application shows it.
    pub fn message(&self) -> (r: String)
        ensures
            r@ == error_message(*self),
    {
        match self {
            StorageError::UnsupportedSchema { version, label } => {
                let a = concat_strs("unsupported schema version ", version.as_str());
                let b = concat_strs(a.as_str(), " in ");
                concat_strs(b.as_str(), label.as_str())
            },
            StorageError::Timestamp { detail } => detail.clone(),
        }
    }
}

/// Accepts exactly the current schema version; `label` names the file in
/// the error.
pub fn validate_schema(schema_version: &str, label: &str) -> (r: Result<(), StorageError>)
    ensures
        r is Ok <==> schema_version@ == schema_version_text(),
        r matches Err(e) ==> (e matches StorageError::UnsupportedSchema { version, label: l }
            && version@ == schema_version@ && l@ == label@),
{
    let current = schema_version_string();
    if schema_version.to_owned() == current {
        Ok(())
    } else {
        Err(StorageError::UnsupportedSchema { version: schema_version.to_owned(), label: label.to_owned() })
    }
}

/// `p` with the name `name` appended.
pub open spec fn child(p: Seq<PartView>, name: Seq<char>) -> Seq<PartView> {
    p.push(PartView::Normal(name))
}

/// The application's own directories and files.
#[derive(Debug, PartialEq, Eq)]
pub struct AppPaths {
    pub config_dir: FsPath,
    pub data_dir: FsPath,
    pub config_file: FsPath,
    pub session_file: FsPath,
    pub activation_file: FsPath,
    pub default_note_root: FsPath,
}

impl Clone for AppPaths {
    fn clone(&self) -> (r: Self)
        ensures
            r.config_dir@ == self.config_dir@,
            r.data_dir@ == self.data_dir@,
            r.config_file@ == self.config_file@,
            r.session_file@ == self.session_file@,
            r.activation_file@ == self.activation_file@,
            r.default_note_root@ == self.default_note_root@,
    {
        AppPaths {
            config_dir: self.config_dir.clone(),
            data_dir: self.data_dir.clone(),
            config_file: self.config_file.clone(),
            session_file: self.session_file.clone(),
            activation_file: self.activation_file.clone(),
            default_note_root: self.default_note_root.clone(),
        }
    }
}

impl AppPaths {
    /// The layout under a config directory and a data directory:
    /// `config.yml`, `session.yml` and `activation.signal` in the first,
    /// the default note root `default-root` in the second.
    pub fn new(config_dir: FsPath, data_dir: FsPath) -> (r: AppPaths)
        ensures
            r.config_dir@ == config_dir@,
            r.data_dir@ == data_dir@,
            r.config_file@ == child(config_dir@, "config.yml"@),
            r.session_file@ == child(config_dir@, "session.yml"@),
            r.activation_file@ == child(config_dir@, "activation.signal"@),
            r.default_note_root@ == child(data_dir@, "default-root"@),
    {
        let default_note_root = data_dir.join("default-root");
        AppPaths {
            config_file: config_dir.join("config.yml"),
            session_file: config_dir.join("session.yml"),
            activation_file: config_dir.join("activation.signal"),
            config_dir,
            data_dir,
            default_note_root,
        }
    }
}

/// Name of the application's folder under the platform directories:
/// lower case on Linux.
pub fn app_folder_name(linux: bool) -> (r: &'static str)
    ensures
        r@ == if linux {
            "leansticky"@
        } else {
            "LeanSticky"@
        },
{
    if linux {
        "leansticky"
    } else {
        "LeanSticky"
    }
}

/// The default note root.
pub fn default_note_root(paths: &AppPaths) -> (r: FsPath)
    ensures
        r@ == paths.default_note_root@,
{
    paths.default_note_root.clone()
}

/// The file of note `note_id` under `root`: `root/notes/<note_id>.yml`.
pub fn note_file_path(root: &FsPath, note_id: &str) -> (r: FsPath)
    ensures
        r@ == child(child(root@, "notes"@), note_id@ + ".yml"@),
{
    let name = concat_strs(note_id, ".yml");
    root.join("notes").join(name.as_str())
}

/// The history folder of note `note_id` under `root`:
/// `root/history/<note_id>`.
pub fn history_dir(root: &FsPath, note_id: &str) -> (r: FsPath)
    ensures
        r@ == child(child(root@, "history"@), note_id@),
{
    root.join("history").join(note_id)
}

/// The file of the history snapshot of note `note_id` under `root` taken
/// at `stamp`: `root/history/<note_id>/<stamp>.yml`.
pub fn history_snapshot_path(root: &FsPath, note_id: &str, stamp: &str) -> (r: FsPath)
    ensures
        r@ == child(child(child(root@, "history"@), note_id@), stamp@ + ".yml"@),
{
    let name = concat_strs(stamp, ".yml");
    history_dir(root, note_id).join(name.as_str())
}

/// A file name whose extension is `yml` (`Path::extension`: the part after
/// the last `.`, where that `.` is not the name's first character).
pub open spec fn yml_file_name(name: Seq<char>) -> bool {
    &&& name.len() > 4
    &&& name.subrange(name.len() - 4, name.len() as int) == ".yml"@
}

/// Whether a directory entry with this name is read as a note or history
/// snapshot.
pub fn is_yml_file_name(name: &str) -> (r: bool)
    ensures
        r == yml_file_name(name@),
{
    proof {
        reveal_strlit(".yml");
    }
    let n = name.unicode_len();
    if n <= 4 {
        return false;
    }
    let r = name.get_char(n - 4) == '.' && name.get_char(n - 3) == 'y' && name.get_char(n - 2)
        == 'm' && name.get_char(n - 1) == 'l';
    proof {
        let tail = name@.subrange(n - 4, n as int);
        if r {
            assert(tail =~= ".yml"@);
        } else {
            if tail == ".yml"@ {
                assert(tail[0] == name@[n - 4]);
                assert(tail[1] == name@[n - 3]);
                assert(tail[2] == name@[n - 2]);
                assert(tail[3] == name@[n - 1]);
            }
        }
    }
    r
}

/// Order of the note list: most recently updated first, then by note
/// root, then by id.
pub open spec fn note_precedes(a: StoredNoteView, b: StoredNoteView) -> bool {
    ||| chars_before(b.note.updated_at, a.note.updated_at)
    ||| (a.note.updated_at == b.note.updated_at && path_before(a.root, b.root))
    ||| (a.note.updated_at == b.note.updated_at && a.root == b.root && chars_at_most(
        a.note.id,
        b.note.id,
    ))
}

proof fn lemma_order_facts(a: StoredNoteView, b: StoredNoteView, c: StoredNoteView)
    ensures
        note_precedes(a, b) || note_precedes(b, a),
        note_precedes(a, b) && note_precedes(b, c) ==> note_precedes(a, c),
{
    lemma_chars_before_total(a.note.updated_at, b.note.updated_at);
    lemma_path_before_total(a.root, b.root);
    lemma_chars_before_total(a.note.id, b.note.id);
    lemma_chars_before_irreflexive(a.note.updated_at);
    lemma_chars_before_irreflexive(b.note.updated_at);
    lemma_path_before_irreflexive(a.root);
    lemma_path_before_irreflexive(b.root);
    if chars_before(b.note.updated_at, a.note.updated_at) {
        lemma_chars_before_asymmetric(b.note.updated_at, a.note.updated_at);
    }
    if chars_before(c.note.updated_at, b.note.updated_at) {
        lemma_chars_before_asymmetric(c.note.updated_at, b.note.updated_at);
    }
    if path_before(a.root, b.root) {
        lemma_path_before_asymmetric(a.root, b.root);
    }
    if path_before(b.root, c.root) {
        lemma_path_before_asymmetric(b.root, c.root);
    }
    if chars_before(b.note.updated_at, a.note.updated_at) && chars_before(
        c.note.updated_at,
        b.note.updated_at,
    ) {
        lemma_chars_before_transitive(c.note.updated_at, b.note.updated_at, a.note.updated_at);
    }
    if path_before(a.root, b.root) && path_before(b.root, c.root) {
        lemma_path_before_transitive(a.root, b.root, c.root);
    }
    if chars_before(a.note.id, b.note.id) && chars_before(b.note.id, c.note.id) {
        lemma_chars_before_transitive(a.note.id, b.note.id, c.note.id);
    }
}

impl Ranked for StoredNote {
    open spec fn precedes(self, other: Self) -> bool {
        note_precedes(self@, other@)
    }

    proof fn lemma_precedes_transitive(a: Self, b: Self, c: Self) {
        lemma_order_facts(a@, b@, c@);
    }

    proof fn lemma_precedes_total(a: Self, b: Self) {
        lemma_order_facts(a@, b@, b@);
    }

    fn precedes_exec(&self, other: &Self) -> (r: bool) {
        match compare_strs(other.note.updated_at.as_str(), self.note.updated_at.as_str()) {
            Order::Less => true,
            Order::Greater => false,
            Order::Equal => match compare_paths(&self.root, &other.root) {
                Order::Less => true,
                Order::Greater => false,
                Order::Equal => match compare_strs(self.note.id.as_str(), other.note.id.as_str()) {
                    Order::Greater => false,
                    _ => true,
                },
            },
        }
    }
}

/// The loaded notes in list order (see `note_precedes`).
pub fn sort_notes(notes: Vec<StoredNote>) -> (r: Vec<StoredNote>)
    ensures
        r@.to_multiset() == notes@.to_multiset(),
        forall|i: int, j: int|
            0 <= i < j < r@.len() ==> note_precedes(#[trigger] r@[i]@, #[trigger] r@[j]@),
{
    let r = sort_ranked(notes);
    assert forall|i: int, j: int| 0 <= i < j < r@.len() implies note_precedes(
        #[trigger] r@[i]@,
        #[trigger] r@[j]@,
    ) by {
        assert(r@[i].precedes(r@[j]));
    }
    r
}

impl Ranked for String {
    open spec fn precedes(self, other: Self) -> bool {
        chars_at_most(self@, other@)
    }

    proof fn lemma_precedes_transitive(a: Self, b: Self, c: Self) {
        if chars_before(a@, b@) && chars_before(b@, c@) {
            lemma_chars_before_transitive(a@, b@, c@);
        }
    }

    proof fn lemma_precedes_total(a: Self, b: Self) {
        lemma_chars_before_total(a@, b@);
    }

    fn precedes_exec(&self, other: &Self) -> (r: bool) {
        match compare_strs(self.as_str(), other.as_str()) {
            Order::Greater => false,
            _ => true,
        }
    }
}

/// The names among `names` that are `yml` files, in their order.
pub open spec fn yml_names(names: Seq<String>) -> Seq<String>
    decreases names.len(),
{
    if names.len() == 0 {
        names
    } else {
        let rest = yml_names(names.drop_last());
        if yml_file_name(names.last()@) {
            rest.push(names.last())
        } else {
            rest
        }
    }
}

/// How a note's history folder is pruned.
pub struct PrunePlan {
    /// The snapshot file names, oldest first.
    pub ordered: Vec<String>,
    /// How many of them, from the front, are removed.
    pub remove_count: usize,
}

/// The pruning of a history folder holding the files `names` down to
/// `max_snapshots` snapshots: the `yml` files sorted by name (their time
/// stamps), of which all but the last `max_snapshots` are removed.
pub fn prune_plan(names: Vec<String>, max_snapshots: usize) -> (r: PrunePlan)
    ensures
        r.ordered@.to_multiset() == yml_names(names@).to_multiset(),
        forall|i: int, j: int|
            0 <= i < j < r.ordered@.len() ==> chars_at_most(
                #[trigger] r.ordered@[i]@,
                #[trigger] r.ordered@[j]@,
            ),
        r.remove_count == if r.ordered@.len() > max_snapshots {
            r.ordered@.len() - max_snapshots
        } else {
            0
        },
{
    let mut ymls: Vec<String> = Vec::new();
    let mut input = names;
    let ghost all = input@;
    // Walk the names front to back, keeping the yml ones.
    let mut rest: Vec<String> = Vec::new();
    while input.len() > 0
        invariant
            all == rest@ + input@,
            ymls@ == yml_names(rest@),
        decreases input.len(),
    {
        let name = input.remove(0);
        let keep = is_yml_file_name(name.as_str());
        let ghost before = rest@;
        if keep {
            ymls.push(name.clone());
        }
        rest.push(name);
        proof {
            assert(rest@.drop_last() =~= before);
        }
    }
    assert(rest@ =~= all);
    let ordered = sort_ranked(ymls);
    proof {
        assert forall|i: int, j: int| 0 <= i < j < ordered@.len() implies chars_at_most(
            #[trigger] ordered@[i]@,
            #[trigger] ordered@[j]@,
        ) by {
            assert(ordered@[i].precedes(ordered@[j]));
        }
    }
    let n = ordered.len();
    let remove_count = if n > max_snapshots {
        n - max_snapshots
    } else {
        0
    };
    PrunePlan { ordered, remove_count }
}

/// Pruning by a plan of `prune_plan` keeps at most `max_snapshots`
/// snapshots, all of them when there are no more, and every snapshot it
/// removes is no newer than every one it keeps.
pub proof fn law_prune_keeps_the_newest(ordered: Seq<Seq<char>>, remove_count: int, max_snapshots: usize)
    requires
        forall|i: int, j: int| 0 <= i < j < ordered.len() ==> chars_at_most(#[trigger] ordered[i], #[trigger] ordered[j]),
        remove_count == if ordered.len() > max_snapshots {
            ordered.len() - max_snapshots
        } else {
            0
        },
    ensures
        0 <= remove_count <= ordered.len(),
        ordered.len() - remove_count == if ordered.len() > max_snapshots {
            max_snapshots as int
        } else {
            ordered.len() as int
        },
        forall|i: int, j: int|
            0 <= i < remove_count <= j < ordered.len() ==> chars_at_most(#[trigger] ordered[i], #[trigger] ordered[j]),
{
}

/// The views of a sequence of windows.
pub open spec fn window_views(ws: Seq<OpenWindowState>) -> Seq<WindowView> {
    ws.map_values(|w: OpenWindowState| w@)
}

/// The locators of the loaded notes.
pub open spec fn note_locators(notes: Seq<StoredNote>) -> Seq<LocatorView> {
    notes.map_values(|n: StoredNote| LocatorView { root: n@.root, note_id: n@.note.id })
}

/// Some window in `ws` shows `l`.
pub open spec fn shows_locator(ws: Seq<WindowView>, l: LocatorView) -> bool {
    exists|i: int| 0 <= i < ws.len() && #[trigger] ws[i].locator == l
}

/// The session windows kept on restore, in session order: a window is
/// kept when its note is among `available` and no window kept before it
/// shows the same note.
pub open spec fn restorable_windows(available: Seq<LocatorView>, windows: Seq<WindowView>) -> Seq<
    WindowView,
>
    decreases windows.len(),
{
    if windows.len() == 0 {
        windows
    } else {
        let kept = restorable_windows(available, windows.drop_last());
        let w = windows.last();
        if available.contains(w.locator) && !shows_locator(kept, w.locator) {
            kept.push(w)
        } else {
            kept
        }
    }
}

/// The note windows opened at startup: the restorable session windows, or,
/// when there are none, the first note at the default placement (nothing
/// when there are no notes).
pub open spec fn initial_windows(available: Seq<LocatorView>, windows: Seq<WindowView>) -> Seq<
    WindowView,
> {
    let kept = restorable_windows(available, windows);
    if kept.len() == 0 && available.len() > 0 {
        seq![WindowView { locator: available[0], placement: note_window_placement() }]
    } else {
        kept
    }
}

fn notes_contain(notes: &[StoredNote], locator: &NoteLocator) -> (r: bool)
    ensures
        r == note_locators(notes@).contains(locator@),
{
    let ghost avail = note_locators(notes@);
    let mut i: usize = 0;
    while i < notes.len()
        invariant
            avail == note_locators(notes@),
            i <= notes@.len(),
            forall|j: int| 0 <= j < i ==> #[trigger] avail[j] != locator@,
        decreases notes.len() - i,
    {
        let n = &notes[i];
        if crate::path::same_path(&n.root, &locator.root) && n.note.id == locator.note_id {
            assert(avail[i as int] == locator@);
            return true;
        }
        i = i + 1;
    }
    false
}

fn windows_show(windows: &Vec<OpenWindowState>, locator: &NoteLocator) -> (r: bool)
    ensures
        r == shows_locator(window_views(windows@), locator@),
{
    let ghost views = window_views(windows@);
    let mut i: usize = 0;
    while i < windows.len()
        invariant
            views == window_views(windows@),
            i <= windows@.len(),
            forall|j: int| 0 <= j < i ==> #[trigger] views[j].locator != locator@,
        decreases windows.len() - i,
    {
        let w = &windows[i];
        if crate::path::same_path(&w.root, &locator.root) && w.note_id == locator.note_id {
            assert(views[i as int].locator == locator@);
            return true;
        }
        i = i + 1;
    }
    false
}

/// The note windows to open at startup (see `initial_windows`).
pub fn resolve_initial_windows(notes: &[StoredNote], session: &Session) -> (r: Vec<OpenWindowState>)
    ensures
        window_views(r@) == initial_windows(note_locators(notes@), session@.open_windows),
{
    let ghost avail = note_locators(notes@);
    let ghost all = session@.open_windows;
    let mut restored: Vec<OpenWindowState> = Vec::new();
    let mut i: usize = 0;
    assert(window_views(restored@) =~= restorable_windows(avail, all.take(0)));
    while i < session.open_windows.len()
        invariant
            avail == note_locators(notes@),
            all == session@.open_windows,
            i <= session.open_windows@.len(),
            window_views(restored@) == restorable_windows(avail, all.take(i as int)),
        decreases session.open_windows.len() - i,
    {
        let window = &session.open_windows[i];
        let locator = window.locator();
        let ghost before = restored@;
        proof {
            assert(all.take(i + 1).drop_last() =~= all.take(i as int));
            assert(all.take(i + 1).last() == all[i as int]);
            assert(all[i as int] == window@);
        }
        if notes_contain(notes, &locator) && !windows_show(&restored, &locator) {
            restored.push(window.clone());
            assert(window_views(restored@) =~= window_views(before).push(window@));
        }
        i = i + 1;
    }
    assert(all.take(i as int) =~= all);
    if restored.len() == 0 && notes.len() > 0 {
        let first = notes[0].locator();
        let mut fallback: Vec<OpenWindowState> = Vec::new();
        fallback.push(OpenWindowState::with_placement(first, default_note_window()));
        assert(window_views(fallback@) =~= seq![
            WindowView { locator: avail[0], placement: note_window_placement() },
        ]);
        return fallback;
    }
    restored
}

/// The windows a session stores for note windows open on `locators`, the
/// i-th at the i-th placement, or at the default placement when there are
/// fewer placements than locators.
pub fn session_open_windows(locators: &[NoteLocator], placements: &[WindowPlacement]) -> (r: Vec<
    OpenWindowState,
>)
    ensures
        r@.len() == locators@.len(),
        forall|i: int|
            0 <= i < locators@.len() ==> #[trigger] r@[i]@ == (WindowView {
                locator: locators@[i]@,
                placement: if i < placements@.len() {
                    placements@[i]
                } else {
                    note_window_placement()
                },
            }),
{
    let mut r: Vec<OpenWindowState> = Vec::new();
    let mut i: usize = 0;
    while i < locators.len()
        invariant
            i <= locators@.len(),
            r@.len() == i,
            forall|j: int|
                0 <= j < i ==> #[trigger] r@[j]@ == (WindowView {
                    locator: locators@[j]@,
                    placement: if j < placements@.len() {
                        placements@[j]
                    } else {
                        note_window_placement()
                    },
                }),
        decreases locators.len() - i,
    {
        let placement = if i < placements.len() {
            placements[i]
        } else {
            default_note_window()
        };
        r.push(OpenWindowState::with_placement(locators[i].clone(), placement));
        i = i + 1;
    }
    r
}

/// The config after startup: a freshly generated one holding the default
/// note root when none was stored (`loaded` is `None`); a stored one with
/// an unsupported schema is refused; a stored one without note roots gets
/// the default root. The flag says whether it must be written back.
pub open spec fn bootstrapped_config(
    loaded: Option<ConfigView>,
    default_root: Seq<PartView>,
    r: Result<(ConfigView, bool), StorageError>,
) -> bool {
    match loaded {
        None => r matches Ok((c, save)) && save && c.schema_version == schema_version_text()
            && c.locale == Locale::System && c.note_roots == seq![default_root]
            && c.autosave_delay_ms == 1500 && c.history.max_snapshots_per_note == 200,
        Some(l) => if l.schema_version != schema_version_text() {
            r matches Err(e) && e matches StorageError::UnsupportedSchema { version, label }
                && version@ == l.schema_version && label@ == "config.yml"@
        } else if l.note_roots.len() == 0 {
            r matches Ok((c, save)) && save && c == (ConfigView {
                note_roots: seq![default_root],
                ..l
            })
        } else {
            r matches Ok((c, save)) && !save && c == l
        },
    }
}

pub open spec fn config_result_view(r: Result<(Config, bool), StorageError>) -> Result<
    (ConfigView, bool),
    StorageError,
> {
    match r {
        Ok((c, save)) => Ok((c@, save)),
        Err(e) => Err(e),
    }
}

/// Startup decision for the config (see `bootstrapped_config`).
pub fn bootstrap_config(loaded: Option<Config>, default_root: &FsPath) -> (r: Result<
    (Config, bool),
    StorageError,
>)
    ensures
        bootstrapped_config(
            match loaded {
                Some(c) => Some(c@),
                None => None,
            },
            default_root@,
            config_result_view(r),
        ),
        r matches Ok((c, _)) ==> c@.note_roots.len() > 0,
{
    proof {
        reveal_strlit("config.yml");
    }
    match loaded {
        None => {
            let mut generated = Config::default();
            let ghost before = generated@;
            generated.note_roots.push(default_root.clone());
            proof {
                assert(generated@.note_roots =~= before.note_roots.push(default_root@));
                assert(generated@.note_roots =~= seq![default_root@]);
            }
            Ok((generated, true))
        },
        Some(mut config) => {
            match validate_schema(config.schema_version.as_str(), "config.yml") {
                Err(e) => Err(e),
                Ok(()) => {
                    if config.note_roots.len() == 0 {
                        let ghost before = config@;
                        config.note_roots.push(default_root.clone());
                        proof {
                            assert(config@.note_roots =~= seq![default_root@]);
                            assert(config@ == (ConfigView {
                                note_roots: seq![default_root@],
                                ..before
                            }));
                        }
                        Ok((config, true))
                    } else {
                        Ok((config, false))
                    }
                },
            }
        },
    }
}

/// Startup decision for the session: the stored one when its schema is
/// supported (not written back), a default one to be written when none is
/// stored.
pub fn bootstrap_session(loaded: Option<Session>) -> (r: Result<(Session, bool), StorageError>)
    ensures
        match loaded {
            None => r matches Ok((s, save)) && save && s@.schema_version == schema_version_text()
                && s@.management_window == management_window_placement()
                && s@.open_windows.len() == 0,
            Some(l) => if l@.schema_version != schema_version_text() {
                r matches Err(e) && e matches StorageError::UnsupportedSchema { version, label }
                    && version@ == l@.schema_version && label@ == "session.yml"@
            } else {
                r matches Ok((s, save)) && !save && s == l
            },
        },
{
    proof {
        reveal_strlit("session.yml");
    }
    match loaded {
        None => Ok((Session::default(), true)),
        Some(session) => {
            match validate_schema(session.schema_version.as_str(), "session.yml") {
                Err(e) => Err(e),
                Ok(()) => Ok((session, false)),
            }
        },
    }
}

/// The note root in which startup creates an empty first note: the first
/// configured root, when no note was loaded; `None` when notes were loaded
/// (or, which `bootstrap_config` rules out, no root is configured).
pub fn first_note_root(config: &Config, loaded_notes: usize) -> (r: Option<FsPath>)
    ensures
        match r {
            Some(p) => loaded_notes == 0 && config@.note_roots.len() > 0 && p@ == config@.note_roots[0],
            None => loaded_notes > 0 || config@.note_roots.len() == 0,
        },
{
    if loaded_notes == 0 && config.note_roots.len() > 0 {
        Some(config.note_roots[0].clone())
    } else {
        None
    }
}

/// What startup writes into the activation signal file: `0` and a line
/// break when the file is missing, nothing when it exists.
pub fn activation_seed(file_exists: bool) -> (r: Option<&'static str>)
    ensures
        r is None <==> file_exists,
        r matches Some(t) ==> t@ == "0\n"@,
{
    if file_exists {
        None
    } else {
        proof {
            reveal_strlit("0\n");
        }
        Some("0\n")
    }
}

/// A new note: current schema, the given id, title and content, created
/// and updated at `timestamp`.
pub fn note_from_parts(id: String, timestamp: String, title: &str, content: &str) -> (r: Note)
    ensures
        r@ == (NoteView {
            schema_version: schema_version_text(),
            id: id@,
            title: title@,
            content: content@,
            created_at: timestamp@,
            updated_at: timestamp@,
        }),
{
    Note {
        schema_version: schema_version_string(),
        id,
        title: title.to_owned(),
        content: content.to_owned(),
        created_at: timestamp.clone(),
        updated_at: timestamp,
    }
}

/// No two windows in `ws` show the same note.
pub open spec fn distinct_notes(ws: Seq<WindowView>) -> bool {
    forall|i: int, j: int| 0 <= i < j < ws.len() ==> #[trigger] ws[i].locator != #[trigger] ws[j].locator
}

proof fn lemma_restorable_windows(available: Seq<LocatorView>, windows: Seq<WindowView>)
    ensures
        forall|i: int|
            0 <= i < restorable_windows(available, windows).len() ==> available.contains(
                #[trigger] restorable_windows(available, windows)[i].locator,
            ),
        distinct_notes(restorable_windows(available, windows)),
        restorable_windows(available, windows).len() <= windows.len(),
        (exists|i: int| 0 <= i < windows.len() && available.contains(#[trigger] windows[i].locator))
            ==> restorable_windows(available, windows).len() > 0,
    decreases windows.len(),
{
    if windows.len() > 0 {
        let prefix = windows.drop_last();
        lemma_restorable_windows(available, prefix);
        let kept = restorable_windows(available, prefix);
        let w = windows.last();
        if available.contains(w.locator) && !shows_locator(kept, w.locator) {
            let r = kept.push(w);
            assert forall|i: int, j: int| 0 <= i < j < r.len() implies #[trigger] r[i].locator
                != #[trigger] r[j].locator by {
                if j == r.len() - 1 {
                    assert(r[i] == kept[i]);
                }
            }
        }
        if exists|i: int| 0 <= i < windows.len() && available.contains(#[trigger] windows[i].locator) {
            let i = choose|i: int| 0 <= i < windows.len() && available.contains(#[trigger] windows[i].locator);
            if i < windows.len() - 1 {
                assert(prefix[i] == windows[i]);
            } else if !available.contains(w.locator) || shows_locator(kept, w.locator) {
                assert(kept.len() > 0);
            }
        }
    }
}

/// Every window opened at startup shows a loaded note, no note twice.
pub proof fn law_initial_windows_show_loaded_notes_once(
    available: Seq<LocatorView>,
    windows: Seq<WindowView>,
)
    ensures
        forall|i: int|
            0 <= i < initial_windows(available, windows).len() ==> available.contains(
                #[trigger] initial_windows(available, windows)[i].locator,
            ),
        distinct_notes(initial_windows(available, windows)),
{
    lemma_restorable_windows(available, windows);
    if restorable_windows(available, windows).len() == 0 && available.len() > 0 {
        assert(available.contains(available[0]));
    }
}

/// Some note window opens at startup exactly when some note is loaded.
pub proof fn law_initial_windows_open_when_notes_exist(
    available: Seq<LocatorView>,
    windows: Seq<WindowView>,
)
    ensures
        (initial_windows(available, windows).len() > 0) <==> (available.len() > 0),
{
    lemma_restorable_windows(available, windows);
    if available.len() == 0 {
        if restorable_windows(available, windows).len() > 0 {
            assert(available.contains(restorable_windows(available, windows)[0].locator));
        }
    }
}

/// Session windows whose notes all still exist, no note twice, are
/// restored as they were saved, in the same order.
pub proof fn law_saved_windows_are_restored(available: Seq<LocatorView>, windows: Seq<WindowView>)
    requires
        windows.len() > 0,
        forall|i: int| 0 <= i < windows.len() ==> available.contains(#[trigger] windows[i].locator),
        distinct_notes(windows),
    ensures
        initial_windows(available, windows) == windows,
{
    lemma_restorable_all(available, windows);
}

proof fn lemma_restorable_all(available: Seq<LocatorView>, windows: Seq<WindowView>)
    requires
        forall|i: int| 0 <= i < windows.len() ==> available.contains(#[trigger] windows[i].locator),
        distinct_notes(windows),
    ensures
        restorable_windows(available, windows) == windows,
    decreases windows.len(),
{
    if windows.len() > 0 {
        let prefix = windows.drop_last();
        assert forall|i: int| 0 <= i < prefix.len() implies available.contains(
            #[trigger] prefix[i].locator,
        ) by {
            assert(prefix[i] == windows[i]);
        }
        assert forall|i: int, j: int| 0 <= i < j < prefix.len() implies #[trigger] prefix[i].locator
            != #[trigger] prefix[j].locator by {
            assert(prefix[i] == windows[i]);
            assert(prefix[j] == windows[j]);
        }
        lemma_restorable_all(available, prefix);
        let w = windows.last();
        assert(available.contains(windows[windows.len() - 1].locator));
        if shows_locator(prefix, w.locator) {
            let k = choose|k: int| 0 <= k < prefix.len() && #[trigger] prefix[k].locator == w.locator;
            assert(prefix[k] == windows[k]);
            assert(windows[k].locator != windows[windows.len() - 1].locator);
        }
        assert(prefix.push(w) =~= windows);
    }
}

/// The windows a session stores for a set of open notes are restored as
/// stored at the next start, when those notes are all still there.
pub proof fn law_session_round_trip(
    available: Seq<LocatorView>,
    locators: Seq<LocatorView>,
    placements: Seq<WindowPlacement>,
    stored: Seq<WindowView>,
)
    requires
        locators.len() > 0,
        forall|i: int| 0 <= i < locators.len() ==> available.contains(#[trigger] locators[i]),
        forall|i: int, j: int| 0 <= i < j < locators.len() ==> #[trigger] locators[i] != #[trigger] locators[j],
        stored.len() == locators.len(),
        forall|i: int|
            0 <= i < locators.len() ==> #[trigger] stored[i] == (WindowView {
                locator: locators[i],
                placement: if i < placements.len() {
                    placements[i]
                } else {
                    note_window_placement()
                },
            }),
    ensures
        initial_windows(available, stored) == stored,
        forall|i: int| 0 <= i < stored.len() ==> #[trigger] initial_windows(available, stored)[i].locator == locators[i],
{
    assert forall|i: int| 0 <= i < stored.len() implies available.contains(#[trigger] stored[i].locator) by {
        assert(stored[i].locator == locators[i]);
    }
    assert forall|i: int, j: int| 0 <= i < j < stored.len() implies #[trigger] stored[i].locator
        != #[trigger] stored[j].locator by {
        assert(stored[i].locator == locators[i]);
        assert(stored[j].locator == locators[j]);
    }
    law_saved_windows_are_restored(available, stored);
    assert forall|i: int| 0 <= i < stored.len() implies #[trigger] initial_windows(available, stored)[i].locator == locators[i] by {
        assert(stored[i].locator == locators[i]);
    }
}

} // verus!
