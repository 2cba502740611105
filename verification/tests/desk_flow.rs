use leansticky_core::desk::DeskState;
use leansticky_core::messages::{LocalizedMessage, MessageCatalog};
use leansticky_core::model::{
    default_note_window, Config, HistoryConfig, Locale, Note, NoteLocator, OpenWindowState,
    ResolvedLocale, Session, StoredNote, WindowPlacement, WindowPosition, WindowSize,
    SCHEMA_VERSION,
};
use leansticky_core::path::{FsPath, PathPart};

const MS: u64 = 1_000_000;

fn abs(names: &[&str]) -> FsPath {
    let mut parts = vec![PathPart::RootDir];
    for n in names {
        parts.push(PathPart::Normal((*n).to_owned()));
    }
    FsPath::from_parts(parts)
}

fn placement(x: f32, y: f32, width: f32, height: f32) -> WindowPlacement {
    WindowPlacement {
        position: WindowPosition { x_bits: x.to_bits(), y_bits: y.to_bits() },
        size: WindowSize { width_bits: width.to_bits(), height_bits: height.to_bits() },
        maximized: false,
    }
}

fn stored(root: &FsPath, id: &str, title: &str, updated_at: &str) -> StoredNote {
    StoredNote {
        root: root.clone(),
        note: Note {
            schema_version: SCHEMA_VERSION.to_owned(),
            id: id.to_owned(),
            title: title.to_owned(),
            content: String::new(),
            created_at: updated_at.to_owned(),
            updated_at: updated_at.to_owned(),
        },
    }
}

fn catalog() -> MessageCatalog {
    let mut c = MessageCatalog::default();
    let entries = [
        ("restore_empty", "Some windows could not be restored"),
        ("untitled_note", "Untitled"),
        ("save_failed", "Save failed:"),
        ("session_save_failed", "Session save failed:"),
    ];
    for (key, en) in entries {
        c.insert(key.to_owned(), LocalizedMessage { ja: None, en: en.to_owned() });
    }
    c
}

fn config(root: &FsPath) -> Config {
    Config {
        schema_version: SCHEMA_VERSION.to_owned(),
        locale: Locale::En,
        note_roots: vec![root.clone()],
        autosave_delay_ms: 1_500,
        history: HistoryConfig { max_snapshots_per_note: 200 },
    }
}

fn session(windows: Vec<OpenWindowState>) -> Session {
    Session { open_windows: windows, ..Session::default() }
}

/// Two notes: `A` (newer) and `B`; the session had `B` open at (10, 20).
fn desk_with_b_open(now: u64) -> (DeskState, NoteLocator, NoteLocator) {
    let root = abs(&["notes"]);
    let a = stored(&root, "A", "Alpha", "2026-03-15T00:00:02Z");
    let b = stored(&root, "B", "Beta", "2026-03-15T00:00:01Z");
    let la = a.locator();
    let lb = b.locator();
    let s = session(vec![OpenWindowState::with_placement(lb.clone(), placement(10.0, 20.0, 300.0, 200.0))]);
    let desk = DeskState::new(config(&root), catalog(), ResolvedLocale::En, vec![a, b], &s, now);
    (desk, la, lb)
}

#[test]
fn startup_restores_session_windows() {
    let (desk, la, lb) = desk_with_b_open(0);
    assert_eq!(desk.open_order(), vec![lb.clone()]);
    assert!(desk.note_is_open(&lb));
    assert!(!desk.note_is_open(&la));
    assert_eq!(desk.editor_placement(&lb), Some(placement(10.0, 20.0, 300.0, 200.0)));
    assert_eq!(desk.editor_placement(&la), None);
    assert_eq!(desk.banner(), None);
    assert_eq!(desk.document_note(&la).unwrap().title, "Alpha");
}

#[test]
fn startup_reports_windows_that_could_not_be_restored() {
    let root = abs(&["notes"]);
    let a = stored(&root, "A", "Alpha", "2026-03-15T00:00:02Z");
    let missing = NoteLocator::new(root.clone(), "gone");
    let la = a.locator();
    let s = session(vec![
        OpenWindowState::with_placement(missing, placement(1.0, 2.0, 3.0, 4.0)),
        OpenWindowState::with_placement(la.clone(), placement(5.0, 6.0, 7.0, 8.0)),
    ]);
    let desk = DeskState::new(config(&root), catalog(), ResolvedLocale::En, vec![a], &s, 0);
    assert_eq!(desk.banner(), Some("Some windows could not be restored"));
    assert_eq!(desk.open_order(), vec![la.clone()]);
    assert_eq!(desk.editor_placement(&la), Some(placement(5.0, 6.0, 7.0, 8.0)));
}

#[test]
fn startup_falls_back_to_the_first_note_silently() {
    let root = abs(&["notes"]);
    let a = stored(&root, "A", "Alpha", "2026-03-15T00:00:02Z");
    let missing = NoteLocator::new(root.clone(), "gone");
    let s = session(vec![OpenWindowState::with_placement(missing, placement(1.0, 2.0, 3.0, 4.0))]);
    let la = a.locator();
    let desk = DeskState::new(config(&root), catalog(), ResolvedLocale::En, vec![a], &s, 0);
    // Nothing restored: the first note opens at the default placement, and
    // as many windows open as the session listed, so no banner.
    assert_eq!(desk.banner(), None);
    assert_eq!(desk.open_order(), vec![la.clone()]);
    assert_eq!(desk.editor_placement(&la), Some(default_note_window()));
}

#[test]
fn empty_session_opens_the_first_note_without_banner() {
    let root = abs(&["notes"]);
    let a = stored(&root, "A", "Alpha", "2026-03-15T00:00:02Z");
    let la = a.locator();
    let desk = DeskState::new(config(&root), catalog(), ResolvedLocale::En, vec![a], &Session::default(), 0);
    assert_eq!(desk.banner(), None);
    assert_eq!(desk.open_order(), vec![la]);
}

#[test]
fn created_notes_open_cascaded() {
    let (mut desk, _la, lb) = desk_with_b_open(0);
    let root = abs(&["notes"]);
    let c = stored(&root, "C", "Gamma", "2026-03-15T00:00:03Z");
    let d = stored(&root, "D", "Delta", "2026-03-15T00:00:04Z");
    let lc = c.locator();
    let ld = d.locator();
    desk.add_created_note(c);
    desk.add_created_note(d);
    assert_eq!(desk.open_order(), vec![lb, lc.clone(), ld.clone()]);
    let base = default_note_window();
    let first = WindowPlacement {
        position: WindowPosition { x_bits: 96.0f32.to_bits(), y_bits: 96.0f32.to_bits() },
        ..base
    };
    let second = WindowPlacement {
        position: WindowPosition { x_bits: 120.0f32.to_bits(), y_bits: 120.0f32.to_bits() },
        ..base
    };
    assert_eq!(desk.editor_placement(&lc), Some(first));
    assert_eq!(desk.editor_placement(&ld), Some(second));
}

#[test]
fn cascade_starts_over_after_six_windows() {
    let (mut desk, _la, _lb) = desk_with_b_open(0);
    let xs: Vec<f32> = (0..7)
        .map(|_| f32::from_bits(desk.cascade_placement().position.x_bits))
        .collect();
    assert_eq!(xs, vec![96.0, 120.0, 144.0, 168.0, 192.0, 216.0, 96.0]);
}

#[test]
fn closing_a_window_removes_it_from_the_session() {
    let (mut desk, la, lb) = desk_with_b_open(0);
    desk.open_note_with_placement(la.clone(), placement(5.0, 6.0, 300.0, 200.0));
    assert_eq!(desk.open_order(), vec![lb.clone(), la.clone()]);
    let s = desk.build_session();
    assert_eq!(s.open_windows.len(), 2);
    assert_eq!(s.open_windows[1].locator(), la);
    assert_eq!(s.open_windows[1].placement(), placement(5.0, 6.0, 300.0, 200.0));
    desk.close_editor(&lb);
    assert!(!desk.note_is_open(&lb));
    let s = desk.build_session();
    assert_eq!(s.open_windows.len(), 1);
    assert_eq!(s.open_windows[0].locator(), la);
    assert_eq!(s.schema_version, SCHEMA_VERSION);
}

#[test]
fn opening_an_open_note_changes_nothing() {
    let (mut desk, _la, lb) = desk_with_b_open(0);
    desk.open_note_with_placement(lb.clone(), placement(7.0, 7.0, 7.0, 7.0));
    assert_eq!(desk.editor_placement(&lb), Some(placement(10.0, 20.0, 300.0, 200.0)));
    assert_eq!(desk.open_order(), vec![lb]);
}

#[test]
fn edits_are_saved_after_the_idle_delay() {
    let (mut desk, _la, lb) = desk_with_b_open(0);
    assert_eq!(desk.editor_status(&lb), Some("status_saved"));
    assert!(!desk.needs_save(&lb));
    desk.apply_edit(&lb, "New title".to_owned(), "New body".to_owned(), 1_000 * MS);
    assert!(desk.needs_save(&lb));
    assert_eq!(desk.editor_status(&lb), Some("status_pending"));
    assert!(!desk.save_due_for(&lb, 2_000 * MS));
    assert!(desk.save_due_for(&lb, 2_500 * MS));
    let note = desk.note_for_save(&lb, "2026-03-15T00:00:09Z".to_owned()).unwrap();
    assert_eq!(note.title, "New title");
    assert_eq!(note.content, "New body");
    assert_eq!(note.updated_at, "2026-03-15T00:00:09Z");
    assert_eq!(note.id, "B");
    desk.finish_save(&lb, note, Ok(()));
    assert!(!desk.needs_save(&lb));
    assert_eq!(desk.editor_status(&lb), Some("status_saved"));
    assert_eq!(desk.document_note(&lb).unwrap().updated_at, "2026-03-15T00:00:09Z");
}

#[test]
fn failed_saves_stay_pending_and_show_a_banner() {
    let (mut desk, _la, lb) = desk_with_b_open(0);
    desk.apply_edit(&lb, "T".to_owned(), "C".to_owned(), 0);
    let note = desk.note_for_save(&lb, "2026-03-15T00:00:09Z".to_owned()).unwrap();
    desk.finish_save(&lb, note, Err("disk full".to_owned()));
    assert!(desk.needs_save(&lb));
    assert_eq!(desk.editor_status(&lb), Some("status_error"));
    assert_eq!(desk.banner(), Some("Save failed: disk full"));
    // The stored copy keeps its old timestamp.
    assert_eq!(desk.document_note(&lb).unwrap().updated_at, "2026-03-15T00:00:01Z");
}

#[test]
fn edits_of_closed_notes_are_ignored() {
    let (mut desk, la, _lb) = desk_with_b_open(0);
    desk.apply_edit(&la, "X".to_owned(), "Y".to_owned(), 0);
    assert_eq!(desk.document_note(&la).unwrap().title, "Alpha");
    assert!(!desk.needs_save(&la));
    assert_eq!(desk.editor_status(&la), None);
}

#[test]
fn session_is_written_at_most_every_quarter_second() {
    let (mut desk, _la, lb) = desk_with_b_open(1_000 * MS);
    assert!(!desk.session_save_due(1_100 * MS));
    assert!(desk.session_save_due(1_250 * MS));
    desk.finish_session_save(Ok(()), 1_250 * MS);
    assert!(!desk.session_save_due(5_000 * MS));
    desk.set_editor_placement(&lb, placement(1.0, 1.0, 300.0, 200.0));
    assert!(!desk.session_save_due(1_400 * MS));
    assert!(desk.session_save_due(1_500 * MS));
    desk.finish_session_save(Err("read-only".to_owned()), 1_500 * MS);
    assert_eq!(desk.banner(), Some("Session save failed: read-only"));
    assert!(desk.session_save_due(1_500 * MS));
}

#[test]
fn management_window_moves_mark_the_session() {
    let (mut desk, _la, _lb) = desk_with_b_open(0);
    desk.finish_session_save(Ok(()), 0);
    let p = placement(30.0, 40.0, 420.0, 560.0);
    desk.set_management_window(p);
    assert_eq!(desk.management_window(), p);
    assert!(desk.session_save_due(300 * MS));
    assert_eq!(desk.build_session().management_window, p);
}

#[test]
fn repaint_waits_for_the_next_due_save() {
    let (mut desk, _la, lb) = desk_with_b_open(0);
    assert_eq!(desk.next_repaint_after(0), 250 * MS);
    desk.apply_edit(&lb, "T".to_owned(), "C".to_owned(), 1_000 * MS);
    assert_eq!(desk.next_repaint_after(1_100 * MS), 250 * MS);
    assert_eq!(desk.next_repaint_after(2_300 * MS), 200 * MS);
    assert_eq!(desk.next_repaint_after(2_600 * MS), 16 * MS);
}

#[test]
fn titles_are_trimmed_or_untitled() {
    let (desk, _la, _lb) = desk_with_b_open(0);
    let mut note = stored(&abs(&["r"]), "Z", "  Hello  ", "t").note;
    assert_eq!(desk.note_title(&note), "Hello");
    note.title = " \t ".to_owned();
    assert_eq!(desk.note_title(&note), "Untitled");
    assert_eq!(desk.text("missing_key"), "missing_key");
}

#[test]
fn note_list_is_newest_first() {
    let root = abs(&["notes"]);
    let a = stored(&root, "A", "Alpha", "2026-03-15T00:00:01Z");
    let b = stored(&root, "B", "Beta", "2026-03-15T00:00:03Z");
    let c = stored(&root, "C", "Able", "2026-03-15T00:00:01Z");
    let (la, lb, lc) = (a.locator(), b.locator(), c.locator());
    let desk = DeskState::new(config(&root), catalog(), ResolvedLocale::En, vec![a, b, c], &Session::default(), 0);
    assert_eq!(desk.sorted_note_locators(), vec![lb, lc, la]);
}

#[test]
fn configuration_is_exposed() {
    let (mut desk, _la, _lb) = desk_with_b_open(0);
    assert_eq!(desk.new_note_root(), Some(abs(&["notes"])));
    assert_eq!(desk.history(), HistoryConfig { max_snapshots_per_note: 200 });
    desk.show_banner("hello");
    assert_eq!(desk.banner(), Some("hello"));
    desk.report_failure("save_failed", "oops");
    assert_eq!(desk.banner(), Some("Save failed: oops"));
}

#[test]
fn closing_a_just_opened_window_restores_the_windows() {
    let (mut desk, la, lb) = desk_with_b_open(0);
    desk.open_note_with_placement(la.clone(), placement(5.0, 6.0, 300.0, 200.0));
    desk.close_editor(&la);
    assert_eq!(desk.open_order(), vec![lb.clone()]);
    assert!(!desk.note_is_open(&la));
    assert_eq!(desk.editor_placement(&lb), Some(placement(10.0, 20.0, 300.0, 200.0)));
    assert_eq!(desk.document_note(&la).unwrap().title, "Alpha");
}

#[test]
fn a_stored_session_restores_the_open_windows() {
    let (mut desk, la, lb) = desk_with_b_open(0);
    desk.open_note_with_placement(la.clone(), placement(5.0, 6.0, 300.0, 200.0));
    let saved = desk.build_session();
    let root = abs(&["notes"]);
    let notes = vec![
        stored(&root, "A", "Alpha", "2026-03-15T00:00:02Z"),
        stored(&root, "B", "Beta", "2026-03-15T00:00:01Z"),
    ];
    let again = DeskState::new(config(&root), catalog(), ResolvedLocale::En, notes, &saved, 0);
    assert_eq!(again.open_order(), vec![lb.clone(), la.clone()]);
    assert_eq!(again.editor_placement(&lb), Some(placement(10.0, 20.0, 300.0, 200.0)));
    assert_eq!(again.editor_placement(&la), Some(placement(5.0, 6.0, 300.0, 200.0)));
    assert_eq!(again.banner(), None);
}
