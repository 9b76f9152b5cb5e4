use diminuendo::session::{
    LoopState, ReadOutcome, SessionAction, after_read, begin_reading, raw_frame_from_read,
    simulate_session,
};

#[test]
fn loop_state_transitions() {
    let s = begin_reading(LoopState::Idle);
    assert_eq!(s, LoopState::Reading);
    assert_eq!(after_read(s, ReadOutcome::Received { len: 7 }), LoopState::Reading);
    assert_eq!(after_read(s, ReadOutcome::Received { len: 0 }), LoopState::Reading);
    assert_eq!(after_read(s, ReadOutcome::Failed), LoopState::Terminated);
}

#[test]
fn detached_driver_reattached_after_read_error() {
    let log = simulate_session(
        true,
        true,
        &vec![ReadOutcome::Received { len: 3 }, ReadOutcome::Failed],
    );
    assert_eq!(
        log,
        vec![
            SessionAction::DetachDriver,
            SessionAction::Configure,
            SessionAction::Read,
            SessionAction::Read,
            SessionAction::AttachDriver,
        ]
    );
}

#[test]
fn detached_driver_reattached_after_exhaustion() {
    let log = simulate_session(true, true, &vec![ReadOutcome::Received { len: 1 }]);
    assert_eq!(
        log,
        vec![
            SessionAction::DetachDriver,
            SessionAction::Configure,
            SessionAction::Read,
            SessionAction::AttachDriver,
        ]
    );
}

#[test]
fn detached_driver_reattached_when_configuration_fails() {
    let log = simulate_session(true, false, &vec![ReadOutcome::Received { len: 1 }]);
    assert_eq!(
        log,
        vec![
            SessionAction::DetachDriver,
            SessionAction::Configure,
            SessionAction::AttachDriver,
        ]
    );
}

#[test]
fn no_driver_detached_means_no_attach() {
    let log = simulate_session(false, true, &vec![ReadOutcome::Failed]);
    assert_eq!(log, vec![SessionAction::Configure, SessionAction::Read]);
    assert!(!log.contains(&SessionAction::AttachDriver));
    assert!(!log.contains(&SessionAction::DetachDriver));
}

#[test]
fn reads_stop_at_first_failure() {
    let log = simulate_session(
        false,
        true,
        &vec![ReadOutcome::Failed, ReadOutcome::Received { len: 2 }],
    );
    assert_eq!(log, vec![SessionAction::Configure, SessionAction::Read]);
}

#[test]
fn read_truncated_to_reported_length() {
    let buf = vec![1u8, 2, 3, 4, 5];
    let frame = raw_frame_from_read(&buf, 3);
    assert_eq!(frame.bytes, vec![1u8, 2, 3]);
    let empty = raw_frame_from_read(&buf, 0);
    assert!(empty.bytes.is_empty());
}
