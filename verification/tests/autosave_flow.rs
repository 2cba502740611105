use leansticky_core::autosave::AutosaveState;

const MILLI: u64 = 1_000_000;

#[test]
fn autosave_transitions_from_clean_to_dirty_to_saved() {
    let now: u64 = 7_000 * MILLI;
    let later = now + 1_600 * MILLI;
    let mut state = AutosaveState::default();

    assert!(!state.dirty());
    state.mark_changed(now);
    assert!(state.dirty());
    assert!(!state.due(now + 200 * MILLI, 1_500 * MILLI));
    assert!(state.due(later, 1_500 * MILLI));

    state.mark_saved();
    assert!(!state.dirty());
    assert!(state.pending_since().is_none());
}

#[test]
fn autosave_retains_dirty_state_on_failure() {
    let now: u64 = 7_000 * MILLI;
    let mut state = AutosaveState::default();

    state.mark_changed(now);
    state.mark_failed("save failed");

    assert!(state.dirty());
    assert_eq!(state.last_error(), Some("save failed"));
}

#[test]
fn dirty_exactly_when_a_save_is_pending() {
    let mut state = AutosaveState::default();
    let consistent = |s: &AutosaveState| s.dirty() == s.pending_since().is_some();
    assert!(consistent(&state));
    state.mark_failed("early");
    assert!(consistent(&state));
    state.mark_changed(10);
    assert!(consistent(&state));
    state.mark_failed("disk full");
    assert!(consistent(&state));
    assert!(state.dirty());
    state.mark_changed(20);
    state.mark_saved();
    assert!(consistent(&state));
    assert!(!state.dirty());
}
