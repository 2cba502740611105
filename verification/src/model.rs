//! The data model: locales, config, window placements, session, notes.
//!
//! Window coordinates are `f32` values in the stored files; the library
//! carries them as their IEEE-754 bit patterns (`f32::to_bits`), which it
//! never computes with, only copies.

use vstd::prelude::*;

use crate::path::{FsPath, PartView};

verus! {

/// Schema version written into every config, session and note file.
pub const SCHEMA_VERSION: &'static str = "v001";

/// The characters of `SCHEMA_VERSION`.
pub open spec fn schema_version_text() -> Seq<char> {
    seq!['v', '0', '0', '1']
}

/// `SCHEMA_VERSION` as an owned string.
pub fn schema_version_string() -> (r: String)
    ensures
        r@ == schema_version_text(),
{
    proof {
        reveal_strlit("v001");
    }
    SCHEMA_VERSION.to_owned()
}

/// Idle time before an edited note is saved, in milliseconds.
pub fn default_autosave_delay_ms() -> (r: u64)
    ensures
        r == 1500,
{
    1_500
}

/// Number of history snapshots kept per note unless configured otherwise.
pub fn default_max_snapshots_per_note() -> (r: usize)
    ensures
        r == 200,
{
    200
}

/// The UI language chosen in the config.
#[derive(Clone, Copy, Debug, PartialEq, Eq)]
pub enum Locale {
    System,
    Ja,
    En,
}

/// A concrete UI language.
#[derive(Clone, Copy, Debug, PartialEq, Eq)]
pub enum ResolvedLocale {
    Ja,
    En,
}

impl Default for Locale {
    fn default() -> (r: Locale)
        ensures
            r == Locale::System,
    {
        Locale::System
    }
}

/// A locale value such as `ja_JP.UTF-8` names Japanese when, lowercased,
/// it starts with `ja`.
pub open spec fn names_japanese(s: Seq<char>) -> bool {
    &&& s.len() >= 2
    &&& (s[0] == 'j' || s[0] == 'J')
    &&& (s[1] == 'a' || s[1] == 'A')
}

/// One locale variable (`None` when unset) names Japanese.
pub open spec fn candidate_names_japanese(candidate: Option<String>) -> bool {
    match candidate {
        Some(c) => names_japanese(c@),
        None => false,
    }
}

/// The system language from the values of `LC_ALL`, `LC_MESSAGES` and
/// `LANG` (each `None` when unset): Japanese when any of them names it.
pub open spec fn system_locale(candidates: Seq<Option<String>>) -> ResolvedLocale {
    if exists|i: int| 0 <= i < candidates.len() && candidate_names_japanese(#[trigger] candidates[i]) {
        ResolvedLocale::Ja
    } else {
        ResolvedLocale::En
    }
}

/// What `locale` resolves to, given the system's locale variables.
pub open spec fn resolved_locale(locale: Locale, candidates: Seq<Option<String>>) -> ResolvedLocale {
    match locale {
        Locale::Ja => ResolvedLocale::Ja,
        Locale::En => ResolvedLocale::En,
        Locale::System => system_locale(candidates),
    }
}

/// Whether a locale value names Japanese.
pub fn locale_names_japanese(s: &str) -> (r: bool)
    ensures
        r == names_japanese(s@),
{
    if s.unicode_len() < 2 {
        return false;
    }
    let c0 = s.get_char(0);
    let c1 = s.get_char(1);
    (c0 == 'j' || c0 == 'J') && (c1 == 'a' || c1 == 'A')
}

/// The system language, from the values of the locale variables in the
/// order `LC_ALL`, `LC_MESSAGES`, `LANG`.
pub fn locale_from_candidates(candidates: &[Option<String>]) -> (r: ResolvedLocale)
    ensures
        r == system_locale(candidates@),
{
    let mut i: usize = 0;
    while i < candidates.len()
        invariant
            i <= candidates@.len(),
            forall|j: int|
                0 <= j < i ==> !candidate_names_japanese(#[trigger] candidates@[j]),
        decreases candidates.len() - i,
    {
        match &candidates[i] {
            Some(c) => {
                if locale_names_japanese(c.as_str()) {
                    return ResolvedLocale::Ja;
                }
            },
            None => {},
        }
        i = i + 1;
    }
    ResolvedLocale::En
}

impl Locale {
    /// The language to use: the configured one, or for `System` the one the
    /// locale variables name (`candidates` holds `LC_ALL`, `LC_MESSAGES`,
    /// `LANG` in that order).
    pub fn resolve(self, candidates: &[Option<String>]) -> (r: ResolvedLocale)
        ensures
            r == resolved_locale(self, candidates@),
    {
        match self {
            Locale::Ja => ResolvedLocale::Ja,
            Locale::En => ResolvedLocale::En,
            Locale::System => locale_from_candidates(candidates),
        }
    }
}

/// A locale variable's value that, ASCII-lowercased, starts with `ja`.
pub open spec fn lowercase_starts_with_ja(value: Option<String>) -> bool {
    match value {
        Some(v) => v@.len() >= 2 && (v@[0] == 'j' || v@[0] == 'J') && (v@[1] == 'a' || v@[1] == 'A'),
        None => false,
    }
}

/// The system language is Japanese exactly when one of the locale
/// variables, whichever (`LC_ALL`, `LC_MESSAGES` or `LANG`), is set to a
/// value that, lowercased, starts with `ja`; a configured language is used
/// as it is.
pub proof fn law_japanese_when_any_variable_says_so(candidates: Seq<Option<String>>, i: int)
    ensures
        (0 <= i < candidates.len() && lowercase_starts_with_ja(candidates[i])) ==> resolved_locale(
            Locale::System,
            candidates,
        ) == ResolvedLocale::Ja,
        (forall|k: int| 0 <= k < candidates.len() ==> !lowercase_starts_with_ja(#[trigger] candidates[k]))
            ==> resolved_locale(Locale::System, candidates) == ResolvedLocale::En,
        resolved_locale(Locale::Ja, candidates) == ResolvedLocale::Ja,
        resolved_locale(Locale::En, candidates) == ResolvedLocale::En,
{
    if 0 <= i < candidates.len() && lowercase_starts_with_ja(candidates[i]) {
        assert(candidate_names_japanese(candidates[i]));
    }
    if exists|k: int| 0 <= k < candidates.len() && candidate_names_japanese(#[trigger] candidates[k]) {
        let k = choose|k: int| 0 <= k < candidates.len() && candidate_names_japanese(#[trigger] candidates[k]);
        assert(lowercase_starts_with_ja(candidates[k]));
    }
}

/// History settings.
#[derive(Clone, Copy, Debug, PartialEq, Eq)]
pub struct HistoryConfig {
    pub max_snapshots_per_note: usize,
}

impl Default for HistoryConfig {
    fn default() -> (r: HistoryConfig)
        ensures
            r.max_snapshots_per_note == 200,
    {
        HistoryConfig { max_snapshots_per_note: default_max_snapshots_per_note() }
    }
}

/// The local config.
#[derive(Debug, PartialEq, Eq)]
pub struct Config {
    pub schema_version: String,
    pub locale: Locale,
    pub note_roots: Vec<FsPath>,
    pub autosave_delay_ms: u64,
    pub history: HistoryConfig,
}

pub struct ConfigView {
    pub schema_version: Seq<char>,
    pub locale: Locale,
    pub note_roots: Seq<Seq<PartView>>,
    pub autosave_delay_ms: u64,
    pub history: HistoryConfig,
}

impl View for Config {
    type V = ConfigView;

    open spec fn view(&self) -> ConfigView {
        ConfigView {
            schema_version: self.schema_version@,
            locale: self.locale,
            note_roots: self.note_roots@.map_values(|p: FsPath| p@),
            autosave_delay_ms: self.autosave_delay_ms,
            history: self.history,
        }
    }
}

/// A copy of a list of paths.
pub fn clone_paths(v: &Vec<FsPath>) -> (r: Vec<FsPath>)
    ensures
        r@.map_values(|p: FsPath| p@) == v@.map_values(|p: FsPath| p@),
{
    let mut r: Vec<FsPath> = Vec::new();
    let mut i: usize = 0;
    while i < v.len()
        invariant
            i <= v.len(),
            r@.len() == i,
            forall|j: int| 0 <= j < i ==> #[trigger] r@[j]@ == v@[j]@,
        decreases v.len() - i,
    {
        r.push(v[i].clone());
        i = i + 1;
    }
    assert(r@.map_values(|p: FsPath| p@) =~= v@.map_values(|p: FsPath| p@));
    r
}

impl Clone for Config {
    fn clone(&self) -> (r: Self)
        ensures
            r@ == self@,
    {
        Config {
            schema_version: self.schema_version.clone(),
            locale: self.locale,
            note_roots: clone_paths(&self.note_roots),
            autosave_delay_ms: self.autosave_delay_ms,
            history: self.history,
        }
    }
}

impl Default for Config {
    fn default() -> (r: Config)
        ensures
            r@.schema_version == schema_version_text(),
            r@.locale == Locale::System,
            r@.note_roots.len() == 0,
            r@.autosave_delay_ms == 1500,
            r@.history.max_snapshots_per_note == 200,
    {
        let r = Config {
            schema_version: schema_version_string(),
            locale: Locale::System,
            note_roots: Vec::new(),
            autosave_delay_ms: default_autosave_delay_ms(),
            history: HistoryConfig::default(),
        };
        assert(r@.note_roots =~= Seq::<Seq<PartView>>::empty());
        r
    }
}

/// Window position; the coordinates are `f32` bit patterns.
#[derive(Clone, Copy, Debug, PartialEq, Eq)]
pub struct WindowPosition {
    pub x_bits: u32,
    pub y_bits: u32,
}

/// Window size; the extents are `f32` bit patterns.
#[derive(Clone, Copy, Debug, PartialEq, Eq)]
pub struct WindowSize {
    pub width_bits: u32,
    pub height_bits: u32,
}

impl Default for WindowPosition {
    /// (96.0, 96.0)
    fn default() -> (r: WindowPosition)
        ensures
            r.x_bits == 0x42c0_0000 && r.y_bits == 0x42c0_0000,
    {
        WindowPosition { x_bits: 0x42c0_0000, y_bits: 0x42c0_0000 }
    }
}

impl Default for WindowSize {
    /// 360.0 by 300.0
    fn default() -> (r: WindowSize)
        ensures
            r.width_bits == 0x43b4_0000 && r.height_bits == 0x4396_0000,
    {
        WindowSize { width_bits: 0x43b4_0000, height_bits: 0x4396_0000 }
    }
}

/// Where a window stands and whether it is maximized.
#[derive(Clone, Copy, Debug, PartialEq, Eq)]
pub struct WindowPlacement {
    pub position: WindowPosition,
    pub size: WindowSize,
    pub maximized: bool,
}

impl View for WindowPlacement {
    type V = WindowPlacement;

    open spec fn view(&self) -> WindowPlacement {
        *self
    }
}

/// Placement of a new note window: at (96, 96), 360 by 300.
pub open spec fn note_window_placement() -> WindowPlacement {
    WindowPlacement {
        position: WindowPosition { x_bits: 0x42c0_0000, y_bits: 0x42c0_0000 },
        size: WindowSize { width_bits: 0x43b4_0000, height_bits: 0x4396_0000 },
        maximized: false,
    }
}

/// Placement of the management window when none is stored: at (48, 48),
/// 420 by 560.
pub open spec fn management_window_placement() -> WindowPlacement {
    WindowPlacement {
        position: WindowPosition { x_bits: 0x4240_0000, y_bits: 0x4240_0000 },
        size: WindowSize { width_bits: 0x43d2_0000, height_bits: 0x440c_0000 },
        maximized: false,
    }
}

impl Default for WindowPlacement {
    fn default() -> (r: WindowPlacement)
        ensures
            r == note_window_placement(),
    {
        default_note_window()
    }
}

/// The default management window placement.
pub fn default_management_window() -> (r: WindowPlacement)
    ensures
        r == management_window_placement(),
{
    WindowPlacement {
        position: WindowPosition { x_bits: 0x4240_0000, y_bits: 0x4240_0000 },
        size: WindowSize { width_bits: 0x43d2_0000, height_bits: 0x440c_0000 },
        maximized: false,
    }
}

/// The default note window placement.
pub fn default_note_window() -> (r: WindowPlacement)
    ensures
        r == note_window_placement(),
{
    WindowPlacement {
        position: WindowPosition::default(),
        size: WindowSize::default(),
        maximized: false,
    }
}

/// Which note in which note root.
#[derive(Debug, PartialEq, Eq)]
pub struct NoteLocator {
    pub root: FsPath,
    pub note_id: String,
}

pub struct LocatorView {
    pub root: Seq<PartView>,
    pub note_id: Seq<char>,
}

impl View for NoteLocator {
    type V = LocatorView;

    open spec fn view(&self) -> LocatorView {
        LocatorView { root: self.root@, note_id: self.note_id@ }
    }
}

impl Clone for NoteLocator {
    fn clone(&self) -> (r: Self)
        ensures
            r@ == self@,
    {
        NoteLocator { root: self.root.clone(), note_id: self.note_id.clone() }
    }
}

impl NoteLocator {
    pub fn new(root: FsPath, note_id: &str) -> (r: NoteLocator)
        ensures
            r@.root == root@,
            r@.note_id == note_id@,
    {
        NoteLocator { root, note_id: note_id.to_owned() }
    }
}

/// Whether two locators name the same note.
pub fn same_locator(a: &NoteLocator, b: &NoteLocator) -> (r: bool)
    ensures
        r == (a@ == b@),
{
    let same_root = crate::path::same_path(&a.root, &b.root);
    let same_id = a.note_id == b.note_id;
    same_root && same_id
}

/// A note window as the session stores it.
#[derive(Debug, PartialEq, Eq)]
pub struct OpenWindowState {
    pub root: FsPath,
    pub note_id: String,
    pub position: WindowPosition,
    pub size: WindowSize,
    pub maximized: bool,
}

pub struct WindowView {
    pub locator: LocatorView,
    pub placement: WindowPlacement,
}

impl View for OpenWindowState {
    type V = WindowView;

    open spec fn view(&self) -> WindowView {
        WindowView {
            locator: LocatorView { root: self.root@, note_id: self.note_id@ },
            placement: WindowPlacement {
                position: self.position,
                size: self.size,
                maximized: self.maximized,
            },
        }
    }
}

impl Clone for OpenWindowState {
    fn clone(&self) -> (r: Self)
        ensures
            r@ == self@,
    {
        OpenWindowState {
            root: self.root.clone(),
            note_id: self.note_id.clone(),
            position: self.position,
            size: self.size,
            maximized: self.maximized,
        }
    }
}

impl OpenWindowState {
    /// The note this window shows.
    pub fn locator(&self) -> (r: NoteLocator)
        ensures
            r@ == self@.locator,
    {
        NoteLocator { root: self.root.clone(), note_id: self.note_id.clone() }
    }

    /// Where this window stands.
    pub fn placement(&self) -> (r: WindowPlacement)
        ensures
            r == self@.placement,
    {
        WindowPlacement { position: self.position, size: self.size, maximized: self.maximized }
    }

    /// The window showing `locator` at `placement`.
    pub fn with_placement(locator: NoteLocator, placement: WindowPlacement) -> (r: Self)
        ensures
            r@ == (WindowView { locator: locator@, placement }),
    {
        OpenWindowState {
            root: locator.root,
            note_id: locator.note_id,
            position: placement.position,
            size: placement.size,
            maximized: placement.maximized,
        }
    }
}

/// The local session: the management window and the open note windows.
#[derive(Debug, PartialEq, Eq)]
pub struct Session {
    pub schema_version: String,
    pub management_window: WindowPlacement,
    pub open_windows: Vec<OpenWindowState>,
}

pub struct SessionView {
    pub schema_version: Seq<char>,
    pub management_window: WindowPlacement,
    pub open_windows: Seq<WindowView>,
}

impl View for Session {
    type V = SessionView;

    open spec fn view(&self) -> SessionView {
        SessionView {
            schema_version: self.schema_version@,
            management_window: self.management_window,
            open_windows: self.open_windows@.map_values(|w: OpenWindowState| w@),
        }
    }
}

impl Default for Session {
    fn default() -> (r: Session)
        ensures
            r@.schema_version == schema_version_text(),
            r@.management_window == management_window_placement(),
            r@.open_windows.len() == 0,
    {
        let r = Session {
            schema_version: schema_version_string(),
            management_window: default_management_window(),
            open_windows: Vec::new(),
        };
        assert(r@.open_windows =~= Seq::<WindowView>::empty());
        r
    }
}

impl Clone for Session {
    fn clone(&self) -> (r: Self)
        ensures
            r@ == self@,
    {
        let mut windows: Vec<OpenWindowState> = Vec::new();
        let mut i: usize = 0;
        while i < self.open_windows.len()
            invariant
                i <= self.open_windows.len(),
                windows@.len() == i,
                forall|k: int| 0 <= k < i ==> windows@[k]@ == self.open_windows@[k]@,
            decreases self.open_windows.len() - i,
        {
            windows.push(self.open_windows[i].clone());
            i = i + 1;
        }
        let r = Session {
            schema_version: self.schema_version.clone(),
            management_window: self.management_window,
            open_windows: windows,
        };
        assert(r@.open_windows =~= self@.open_windows);
        r
    }
}

/// A note as its file stores it.
#[derive(Debug, PartialEq, Eq)]
pub struct Note {
    pub schema_version: String,
    pub id: String,
    pub title: String,
    pub content: String,
    pub created_at: String,
    pub updated_at: String,
}

pub struct NoteView {
    pub schema_version: Seq<char>,
    pub id: Seq<char>,
    pub title: Seq<char>,
    pub content: Seq<char>,
    pub created_at: Seq<char>,
    pub updated_at: Seq<char>,
}

impl View for Note {
    type V = NoteView;

    open spec fn view(&self) -> NoteView {
        NoteView {
            schema_version: self.schema_version@,
            id: self.id@,
            title: self.title@,
            content: self.content@,
            created_at: self.created_at@,
            updated_at: self.updated_at@,
        }
    }
}

impl Clone for Note {
    fn clone(&self) -> (r: Self)
        ensures
            r@ == self@,
    {
        Note {
            schema_version: self.schema_version.clone(),
            id: self.id.clone(),
            title: self.title.clone(),
            content: self.content.clone(),
            created_at: self.created_at.clone(),
            updated_at: self.updated_at.clone(),
        }
    }
}

/// A note together with the note root it was loaded from.
#[derive(Debug, PartialEq, Eq)]
pub struct StoredNote {
    pub root: FsPath,
    pub note: Note,
}

pub struct StoredNoteView {
    pub root: Seq<PartView>,
    pub note: NoteView,
}

impl View for StoredNote {
    type V = StoredNoteView;

    open spec fn view(&self) -> StoredNoteView {
        StoredNoteView { root: self.root@, note: self.note@ }
    }
}

impl Clone for StoredNote {
    fn clone(&self) -> (r: Self)
        ensures
            r@ == self@,
    {
        StoredNote { root: self.root.clone(), note: self.note.clone() }
    }
}

impl StoredNote {
    /// Where this note is found.
    pub fn locator(&self) -> (r: NoteLocator)
        ensures
            r@ == (LocatorView { root: self@.root, note_id: self@.note.id }),
    {
        NoteLocator { root: self.root.clone(), note_id: self.note.id.clone() }
    }
}

} // verus!
