use leansticky_core::model::{
    default_management_window, default_note_window, Config, HistoryConfig, Locale, Note,
    NoteLocator, OpenWindowState, Session, StoredNote, WindowPlacement, WindowPosition,
    WindowSize, SCHEMA_VERSION,
};
use leansticky_core::path::{FsPath, PathPart};
use leansticky_core::stamp::{current_timestamp, draft_note, stamp_from_parts, StampParts};
use leansticky_core::storage::{
    activation_seed, app_folder_name, bootstrap_config, first_note_root, bootstrap_session, default_note_root, history_dir,
    is_yml_file_name, note_file_path, note_from_parts, prune_plan, resolve_initial_windows,
    session_open_windows, sort_notes, validate_schema, AppPaths, StorageError,
};

fn abs(names: &[&str]) -> FsPath {
    let mut parts = vec![PathPart::RootDir];
    for n in names {
        parts.push(PathPart::Normal((*n).to_owned()));
    }
    FsPath::from_parts(parts)
}

fn placement(x: f32, y: f32, width: f32, height: f32, maximized: bool) -> WindowPlacement {
    WindowPlacement {
        position: WindowPosition { x_bits: x.to_bits(), y_bits: y.to_bits() },
        size: WindowSize { width_bits: width.to_bits(), height_bits: height.to_bits() },
        maximized,
    }
}

fn stored(root: &FsPath, id: &str, title: &str, updated_at: &str) -> StoredNote {
    StoredNote {
        root: root.clone(),
        note: Note {
            schema_version: SCHEMA_VERSION.to_owned(),
            id: id.to_owned(),
            title: title.to_owned(),
            content: String::new(),
            created_at: updated_at.to_owned(),
            updated_at: updated_at.to_owned(),
        },
    }
}

fn session_with(open_windows: Vec<OpenWindowState>) -> Session {
    Session {
        open_windows,
        ..Session::default()
    }
}

#[test]
fn app_paths_layout() {
    let paths = AppPaths::new(abs(&["tmp", "x", "config"]), abs(&["tmp", "x", "data"]));
    assert_eq!(paths.config_file, abs(&["tmp", "x", "config", "config.yml"]));
    assert_eq!(paths.session_file, abs(&["tmp", "x", "config", "session.yml"]));
    assert_eq!(paths.activation_file, abs(&["tmp", "x", "config", "activation.signal"]));
    assert_eq!(paths.default_note_root, abs(&["tmp", "x", "data", "default-root"]));
    assert_eq!(default_note_root(&paths), abs(&["tmp", "x", "data", "default-root"]));
    assert_eq!(app_folder_name(true), "leansticky");
    assert_eq!(app_folder_name(false), "LeanSticky");
}

#[test]
fn note_and_history_locations() {
    let root = abs(&["notes"]);
    assert_eq!(note_file_path(&root, "01TEST"), abs(&["notes", "notes", "01TEST.yml"]));
    assert_eq!(history_dir(&root, "01TEST"), abs(&["notes", "history", "01TEST"]));
}

#[test]
fn schema_versions_are_checked() {
    assert_eq!(validate_schema("v001", "config.yml"), Ok(()));
    let err = validate_schema("v002", "note").unwrap_err();
    assert_eq!(
        err,
        StorageError::UnsupportedSchema { version: "v002".to_owned(), label: "note".to_owned() }
    );
    assert_eq!(err.message(), "unsupported schema version v002 in note");
    let late = StorageError::Timestamp { detail: "year out of range".to_owned() };
    assert_eq!(late.message(), "year out of range");
}

#[test]
fn yml_file_names() {
    assert!(is_yml_file_name("01TEST.yml"));
    assert!(is_yml_file_name("a.yml"));
    assert!(is_yml_file_name("..yml"));
    assert!(!is_yml_file_name(".yml"));
    assert!(!is_yml_file_name("yml"));
    assert!(!is_yml_file_name("note.yaml"));
    assert!(!is_yml_file_name("note.yml.tmp"));
    assert!(!is_yml_file_name("note.YML"));
}

#[test]
fn notes_sort_newest_first_then_root_then_id() {
    let a = abs(&["a"]);
    let b = abs(&["b"]);
    let notes = vec![
        stored(&b, "2", "", "2026-03-15T00:00:00Z"),
        stored(&a, "9", "", "2026-03-14T00:00:00Z"),
        stored(&a, "3", "", "2026-03-15T00:00:00Z"),
        stored(&a, "1", "", "2026-03-15T00:00:00Z"),
        stored(&a, "5", "", "2026-03-16T00:00:00Z"),
    ];
    let sorted = sort_notes(notes);
    let order: Vec<(FsPath, String)> =
        sorted.iter().map(|n| (n.root.clone(), n.note.id.clone())).collect();
    assert_eq!(
        order,
        vec![
            (a.clone(), "5".to_owned()),
            (a.clone(), "1".to_owned()),
            (a.clone(), "3".to_owned()),
            (b.clone(), "2".to_owned()),
            (a.clone(), "9".to_owned()),
        ]
    );
}

#[test]
fn root_directory_sorts_before_names() {
    let relative = FsPath::from_parts(vec![PathPart::Normal("-x".to_owned())]);
    let absolute = abs(&["a"]);
    let sorted = sort_notes(vec![
        stored(&relative, "1", "", "t"),
        stored(&absolute, "1", "", "t"),
    ]);
    assert_eq!(sorted[0].root, absolute);
    assert_eq!(sorted[1].root, relative);
}

#[test]
fn history_prunes_to_configured_limit() {
    // Three saves of one note leave three snapshots; with a limit of two,
    // the oldest one goes.
    let names = vec![
        "20260315T000002000000000Z.yml".to_owned(),
        "20260315T000000000000000Z.yml".to_owned(),
        "20260315T000001000000000Z.yml".to_owned(),
    ];
    let plan = prune_plan(names, HistoryConfig { max_snapshots_per_note: 2 }.max_snapshots_per_note);
    assert_eq!(plan.remove_count, 1);
    assert_eq!(plan.ordered[0], "20260315T000000000000000Z.yml");
    let count = plan.ordered.len() - plan.remove_count;
    assert_eq!(count, 2);
}

#[test]
fn prune_ignores_other_files_and_keeps_all_under_limit() {
    let names = vec![
        "b.yml".to_owned(),
        "notes.txt".to_owned(),
        "a.yml".to_owned(),
        ".yml".to_owned(),
    ];
    let plan = prune_plan(names, 200);
    assert_eq!(plan.ordered, vec!["a.yml".to_owned(), "b.yml".to_owned()]);
    assert_eq!(plan.remove_count, 0);
    let plan = prune_plan(vec!["c.yml".to_owned(), "a.yml".to_owned(), "b.yml".to_owned()], 0);
    assert_eq!(plan.remove_count, 3);
}

#[test]
fn resolve_windows_filters_missing_notes_and_falls_back() {
    let root = abs(&["data", "default-root"]);
    // The note made at bootstrap and a second one created afterwards.
    let first = stored(&root, "01FIRST", "", "2026-03-15T00:00:00Z");
    let created = stored(&root, "01SECOND", "Second", "2026-03-15T00:00:01Z");
    let notes = sort_notes(vec![first, created.clone()]);

    let session = Session {
        management_window: default_management_window(),
        open_windows: vec![
            OpenWindowState::with_placement(
                created.locator(),
                placement(12.0, 20.0, 200.0, 160.0, false),
            ),
            OpenWindowState::with_placement(
                NoteLocator::new(root.clone(), "missing"),
                default_note_window(),
            ),
        ],
        ..Session::default()
    };

    let restored = resolve_initial_windows(&notes, &session);
    assert_eq!(restored.len(), 1);
    assert_eq!(restored[0].note_id, created.note.id);

    let fallback = resolve_initial_windows(
        &notes,
        &session_with(vec![OpenWindowState::with_placement(
            NoteLocator::new(root, "missing"),
            default_note_window(),
        )]),
    );
    assert_eq!(fallback.len(), 1);
}

#[test]
fn fallback_opens_first_note_at_default_placement() {
    let root = abs(&["r"]);
    let notes = vec![stored(&root, "A", "", "t2"), stored(&root, "B", "", "t1")];
    let restored = resolve_initial_windows(&notes, &Session::default());
    assert_eq!(restored.len(), 1);
    assert_eq!(restored[0].note_id, "A");
    assert_eq!(restored[0].placement(), default_note_window());
    assert!(resolve_initial_windows(&[], &Session::default()).is_empty());
}

#[test]
fn restore_keeps_session_order_and_drops_duplicates() {
    let root = abs(&["r"]);
    let notes = vec![stored(&root, "A", "", "t"), stored(&root, "B", "", "t")];
    let a = NoteLocator::new(root.clone(), "A");
    let b = NoteLocator::new(root.clone(), "B");
    let session = session_with(vec![
        OpenWindowState::with_placement(b.clone(), placement(1.0, 2.0, 3.0, 4.0, true)),
        OpenWindowState::with_placement(a.clone(), default_note_window()),
        OpenWindowState::with_placement(b.clone(), default_note_window()),
    ]);
    let restored = resolve_initial_windows(&notes, &session);
    assert_eq!(restored.len(), 2);
    assert_eq!(restored[0].locator(), b);
    assert_eq!(restored[0].placement(), placement(1.0, 2.0, 3.0, 4.0, true));
    assert_eq!(restored[1].locator(), a);
}

#[test]
fn session_windows_take_placements_in_order() {
    let root = abs(&["r"]);
    let locators = vec![NoteLocator::new(root.clone(), "A"), NoteLocator::new(root.clone(), "B")];
    let p = placement(10.0, 20.0, 320.0, 200.0, false);
    let windows = session_open_windows(&locators, &[p]);
    assert_eq!(windows.len(), 2);
    assert_eq!(windows[0].locator(), locators[0]);
    assert_eq!(windows[0].placement(), p);
    assert_eq!(windows[1].placement(), default_note_window());
}

#[test]
fn window_state_round_trips_locator_and_placement() {
    let locator = NoteLocator::new(abs(&["r"]), "N");
    let p = placement(1.5, -2.0, 300.0, 200.0, true);
    let window = OpenWindowState::with_placement(locator.clone(), p);
    assert_eq!(window.locator(), locator);
    assert_eq!(window.placement(), p);
}

#[test]
fn bootstrap_creates_files_and_first_note() {
    let paths = AppPaths::new(abs(&["t", "config"]), abs(&["t", "data"]));
    let (config, write_config) = bootstrap_config(None, &paths.default_note_root).unwrap();
    assert!(write_config);
    assert_eq!(config.note_roots, vec![paths.default_note_root.clone()]);
    let (session, write_session) = bootstrap_session(None).unwrap();
    assert!(write_session);
    assert!(session.open_windows.is_empty());
    // No notes yet: one empty note is created in the first root.
    assert_eq!(first_note_root(&config, 0), Some(paths.default_note_root.clone()));
    let note = draft_note("", "").unwrap();
    assert_eq!(note.title, "");
    assert_eq!(note.content, "");
}

#[test]
fn bootstrap_and_restore_flow_works_with_temp_dirs() {
    let paths = AppPaths::new(abs(&["t", "config"]), abs(&["t", "data"]));
    let (config, write_config) = bootstrap_config(None, &paths.default_note_root).unwrap();
    let (_session, write_session) = bootstrap_session(None).unwrap();
    let root = config.note_roots[0].clone();
    let first = StoredNote { root: root.clone(), note: draft_note("", "").unwrap() };
    let created = StoredNote { root: root.clone(), note: draft_note("Scratch", "body").unwrap() };
    let notes = sort_notes(vec![first, created.clone()]);

    let restored = resolve_initial_windows(
        &notes,
        &session_with(vec![OpenWindowState::with_placement(
            created.locator(),
            placement(10.0, 20.0, 320.0, 200.0, false),
        )]),
    );

    assert_eq!(restored.len(), 1);
    assert_eq!(restored[0].note_id, created.note.id);
    assert!(write_config);
    assert!(write_session);
}

#[test]
fn stored_config_keeps_roots_or_gets_the_default_root() {
    let default_root = abs(&["d"]);
    let stored_config = Config {
        schema_version: SCHEMA_VERSION.to_owned(),
        locale: Locale::Ja,
        note_roots: vec![abs(&["tmp", "notes"])],
        autosave_delay_ms: 2_000,
        history: HistoryConfig { max_snapshots_per_note: 42 },
    };
    let (config, write) = bootstrap_config(Some(stored_config.clone()), &default_root).unwrap();
    assert!(!write);
    assert_eq!(config, stored_config);

    let empty = Config { note_roots: vec![], ..stored_config.clone() };
    let (config, write) = bootstrap_config(Some(empty), &default_root).unwrap();
    assert!(write);
    assert_eq!(config.note_roots, vec![default_root.clone()]);
    assert_eq!(config.autosave_delay_ms, 2_000);

    let future = Config { schema_version: "v999".to_owned(), ..stored_config };
    assert_eq!(
        bootstrap_config(Some(future), &default_root).unwrap_err(),
        StorageError::UnsupportedSchema { version: "v999".to_owned(), label: "config.yml".to_owned() }
    );
}

#[test]
fn stored_session_is_kept_when_supported() {
    let mut s = Session::default();
    s.management_window = placement(5.0, 6.0, 7.0, 8.0, false);
    let (kept, write) = bootstrap_session(Some(s.clone())).unwrap();
    assert!(!write);
    assert_eq!(kept, s);
    let old = Session { schema_version: "v000".to_owned(), ..Session::default() };
    assert_eq!(
        bootstrap_session(Some(old)).unwrap_err(),
        StorageError::UnsupportedSchema { version: "v000".to_owned(), label: "session.yml".to_owned() }
    );
}

#[test]
fn defaults_match_the_documented_values() {
    let config = Config::default();
    assert_eq!(config.schema_version, "v001");
    assert_eq!(config.locale, Locale::System);
    assert!(config.note_roots.is_empty());
    assert_eq!(config.autosave_delay_ms, 1_500);
    assert_eq!(config.history.max_snapshots_per_note, 200);
    let note_window = default_note_window();
    assert_eq!(f32::from_bits(note_window.position.x_bits), 96.0);
    assert_eq!(f32::from_bits(note_window.position.y_bits), 96.0);
    assert_eq!(f32::from_bits(note_window.size.width_bits), 360.0);
    assert_eq!(f32::from_bits(note_window.size.height_bits), 300.0);
    let management = default_management_window();
    assert_eq!(f32::from_bits(management.position.x_bits), 48.0);
    assert_eq!(f32::from_bits(management.size.width_bits), 420.0);
    assert_eq!(f32::from_bits(management.size.height_bits), 560.0);
    assert!(!management.maximized);
    assert_eq!(Session::default().management_window, management);
}

#[test]
fn new_notes_get_a_ulid_and_one_timestamp() {
    let note = draft_note("Title", "Body").unwrap();
    assert_eq!(note.schema_version, "v001");
    assert_eq!(note.id.len(), 26);
    assert!(note
        .id
        .chars()
        .all(|c| "0123456789ABCDEFGHJKMNPQRSTVWXYZ".contains(c)));
    assert_eq!(note.title, "Title");
    assert_eq!(note.content, "Body");
    assert_eq!(note.created_at, note.updated_at);
    assert!(note.created_at.ends_with('Z'));
    assert_eq!(&note.created_at[4..5], "-");
    assert_eq!(&note.created_at[10..11], "T");
    let other = draft_note("Title", "Body").unwrap();
    assert_ne!(note.id, other.id);
    let now = current_timestamp();
    assert!(now.len() >= 20);
    assert_eq!(&now[13..14], ":");
}

#[test]
fn note_from_parts_uses_one_timestamp() {
    let note = note_from_parts("01TEST".to_owned(), "2026-03-15T00:00:00Z".to_owned(), "Inbox", "Body");
    assert_eq!(
        note,
        Note {
            schema_version: "v001".to_owned(),
            id: "01TEST".to_owned(),
            title: "Inbox".to_owned(),
            content: "Body".to_owned(),
            created_at: "2026-03-15T00:00:00Z".to_owned(),
            updated_at: "2026-03-15T00:00:00Z".to_owned(),
        }
    );
}

#[test]
fn history_stamps_are_utc_with_nanoseconds_and_sort_by_time() {
    let first = leansticky_core::stamp::history_stamp();
    let second = leansticky_core::stamp::history_stamp();
    for s in [&first, &second] {
        assert_eq!(s.len(), 25, "{s}");
        assert_eq!(&s[8..9], "T");
        assert!(s.ends_with('Z'));
        assert!(s[..8].chars().all(|c| c.is_ascii_digit()));
        assert!(s[9..24].chars().all(|c| c.is_ascii_digit()));
    }
    assert!(first <= second);
}

#[test]
fn history_snapshots_live_in_the_note_history_folder() {
    let root = abs(&["r"]);
    assert_eq!(
        leansticky_core::storage::history_snapshot_path(&root, "N1", "20260315T000001000000000Z"),
        abs(&["r", "history", "N1", "20260315T000001000000000Z.yml"])
    );
}

fn parts(year: i32, month: u8, day: u8, hour: u8, minute: u8, second: u8, nanosecond: u32) -> StampParts {
    StampParts { year, month, day, hour, minute, second, nanosecond }
}

#[test]
fn stamps_spell_the_date_and_time_with_padding() {
    assert_eq!(stamp_from_parts(parts(2026, 3, 15, 0, 0, 1, 123_456_789)), "20260315T000001123456789Z");
    assert_eq!(stamp_from_parts(parts(7, 1, 2, 3, 4, 5, 6)), "00070102T030405000000006Z");
    assert_eq!(stamp_from_parts(parts(9999, 12, 31, 23, 59, 59, 999_999_999)), "99991231T235959999999999Z");
    assert_eq!(stamp_from_parts(parts(-1, 1, 1, 0, 0, 0, 0)), "-00010101T000000000000000Z");
}

#[test]
fn stamps_sort_as_the_instants_they_spell() {
    let times = [
        parts(2025, 12, 31, 23, 59, 59, 999_999_999),
        parts(2026, 1, 1, 0, 0, 0, 0),
        parts(2026, 1, 1, 0, 0, 0, 1),
        parts(2026, 1, 1, 0, 0, 1, 0),
        parts(2026, 1, 1, 0, 1, 0, 0),
        parts(2026, 1, 1, 1, 0, 0, 0),
        parts(2026, 1, 2, 0, 0, 0, 0),
        parts(2026, 2, 1, 0, 0, 0, 0),
    ];
    for pair in times.windows(2) {
        let (a, b) = (stamp_from_parts(pair[0]), stamp_from_parts(pair[1]));
        assert!(a < b, "{a} < {b}");
        assert!(format!("{a}.yml") < format!("{b}.yml"));
    }
}

#[test]
fn startup_creates_a_first_note_only_when_none_loaded() {
    let config = Config {
        note_roots: vec![abs(&["first"]), abs(&["second"])],
        ..Config::default()
    };
    assert_eq!(first_note_root(&config, 0), Some(abs(&["first"])));
    assert_eq!(first_note_root(&config, 3), None);
    assert_eq!(first_note_root(&Config::default(), 0), None);
}

#[test]
fn activation_file_is_seeded_when_missing() {
    assert_eq!(activation_seed(false), Some("0\n"));
    assert_eq!(activation_seed(true), None);
}

#[test]
fn clock_readings_become_stamps_field_by_field() {
    assert_eq!(
        leansticky_core::stamp::stamp_from_clock((2026, 3, 15), (1, 2, 3, 4)),
        "20260315T010203000000004Z"
    );
}
