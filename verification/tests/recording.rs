use orchestrator::recording::RecordingState;

#[test]
fn test_recording_state_default() {
    let state = RecordingState::default();
    assert_eq!(state, RecordingState::Idle);
}
