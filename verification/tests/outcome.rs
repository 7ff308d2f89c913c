use rsync_backup::outcome::{
    FailureKind, RunResult, EXIT_ABNORMAL, EXIT_CONFIG, EXIT_INVALID_ENTRY, EXIT_SPAWN,
    EXIT_STREAM,
};

#[test]
fn code_of_the_tool_is_handed_on() {
    assert_eq!(RunResult::from_status(Some(0)), RunResult::Exited(0));
    assert_eq!(RunResult::from_status(Some(23)), RunResult::Exited(23));
    assert_eq!(RunResult::from_status(Some(255)), RunResult::Exited(255));
    assert_eq!(RunResult::from_status(Some(0)).exit_code(), 0);
    assert_eq!(RunResult::from_status(Some(23)).exit_code(), 23);
    for code in 0..=255 {
        assert_eq!(RunResult::from_status(Some(code)).exit_code() as i32, code);
    }
}

#[test]
fn status_keeps_its_low_byte() {
    assert_eq!(RunResult::from_status(Some(256)), RunResult::Exited(0));
    assert_eq!(RunResult::from_status(Some(257)), RunResult::Exited(1));
    assert_eq!(RunResult::from_status(Some(-1)), RunResult::Exited(255));
    assert_eq!(RunResult::from_status(Some(-255)), RunResult::Exited(1));
    assert_eq!(RunResult::from_status(Some(-256)), RunResult::Exited(0));
    assert_eq!(RunResult::from_status(Some(-257)), RunResult::Exited(255));
    for code in [-70000, -513, -1, 0, 1, 255, 256, 511, 70000] {
        assert_eq!(RunResult::from_status(Some(code)), RunResult::Exited(code as u8));
    }
    assert_eq!(RunResult::from_status(Some(i32::MIN)), RunResult::Exited(0));
    assert_eq!(RunResult::from_status(Some(i32::MAX)), RunResult::Exited(255));
}

#[test]
fn signal_is_reported_with_a_code_of_its_own() {
    assert_eq!(RunResult::from_status(None), RunResult::Abnormal);
    assert_eq!(RunResult::Abnormal.exit_code(), EXIT_ABNORMAL);
    assert_eq!(EXIT_ABNORMAL, 70);
    assert!(!RunResult::Abnormal.is_success());
}

#[test]
fn only_code_zero_is_success() {
    assert!(RunResult::Exited(0).is_success());
    assert!(!RunResult::Exited(1).is_success());
    assert!(!RunResult::Exited(255).is_success());
}

#[test]
fn each_failure_has_a_code_of_its_own() {
    assert_eq!(FailureKind::Config.exit_code(), EXIT_CONFIG);
    assert_eq!(FailureKind::InvalidSnapshotEntry.exit_code(), EXIT_INVALID_ENTRY);
    assert_eq!(FailureKind::Spawn.exit_code(), EXIT_SPAWN);
    assert_eq!(FailureKind::StreamDecode.exit_code(), EXIT_STREAM);
    assert_eq!((EXIT_CONFIG, EXIT_INVALID_ENTRY, EXIT_SPAWN, EXIT_STREAM), (64, 65, 71, 76));
    let codes = [
        FailureKind::Config.exit_code(),
        FailureKind::InvalidSnapshotEntry.exit_code(),
        FailureKind::Spawn.exit_code(),
        FailureKind::StreamDecode.exit_code(),
        RunResult::Abnormal.exit_code(),
    ];
    for (i, a) in codes.iter().enumerate() {
        assert_ne!(*a, 0);
        for (j, b) in codes.iter().enumerate() {
            assert_eq!(a == b, i == j);
        }
    }
}
