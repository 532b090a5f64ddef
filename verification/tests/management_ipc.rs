use decky_power_host::management_ipc::{
    length_prefix, request_length, retry_delay, version_status, PipeSupervisor, RetryDecision,
    MAX_REQUEST_LENGTH, PIPE_NAME, PIPE_SDDL,
};

#[test]
fn pipe_acl_is_limited_to_system_and_administrators() {
    let sddl = PIPE_SDDL.to_string();
    assert_eq!(sddl, "D:P(A;;GA;;;SY)(A;;GA;;;BA)");
    assert!(!sddl.contains(";;;IU)"));
    assert!(!sddl.contains(";;;AU)"));
    assert!(!sddl.contains(";;;WD)"));
}

#[test]
fn management_retries_use_bounded_backoff() {
    assert_eq!(retry_delay(1), 200);
    assert_eq!(retry_delay(4), 1_600);
    assert_eq!(retry_delay(20), 1_600);
}

#[test]
fn retry_delay_doubles_from_one_hundred_milliseconds() {
    assert_eq!(retry_delay(0), 100);
    assert_eq!(retry_delay(2), 400);
    assert_eq!(retry_delay(3), 800);
    assert_eq!(retry_delay(u32::MAX), 1_600);
}

#[test]
fn pipe_name_is_the_local_control_pipe() {
    assert_eq!(PIPE_NAME, r"\\.\pipe\DeckyPowerHostControl");
}

#[test]
fn supervisor_gives_up_at_the_fifth_consecutive_failure() {
    let mut supervisor = PipeSupervisor::new();
    assert!(supervisor.first_instance());
    assert_eq!(supervisor.on_failure(), RetryDecision::Retry { delay_ms: 200 });
    assert_eq!(supervisor.on_failure(), RetryDecision::Retry { delay_ms: 400 });
    assert_eq!(supervisor.on_failure(), RetryDecision::Retry { delay_ms: 800 });
    assert_eq!(supervisor.on_failure(), RetryDecision::Retry { delay_ms: 1_600 });
    assert_eq!(supervisor.on_failure(), RetryDecision::GiveUp);
}

#[test]
fn accepted_connection_resets_the_failure_count() {
    let mut supervisor = PipeSupervisor::new();
    supervisor.on_created();
    assert!(!supervisor.first_instance());
    for _ in 0..4 {
        assert!(matches!(supervisor.on_failure(), RetryDecision::Retry { .. }));
    }
    supervisor.on_connected();
    assert_eq!(supervisor.on_failure(), RetryDecision::Retry { delay_ms: 200 });
    assert!(!supervisor.first_instance());
}

#[test]
fn request_lengths_are_little_endian_and_bounded() {
    assert_eq!(request_length([1, 0, 0, 0]), Some(1));
    assert_eq!(request_length([0, 16, 0, 0]), Some(MAX_REQUEST_LENGTH));
    assert_eq!(request_length([0x2a, 0x01, 0, 0]), Some(298));
    assert_eq!(request_length([0, 0, 0, 0]), None);
    assert_eq!(request_length([1, 16, 0, 0]), None);
    assert_eq!(request_length([0, 0, 0, 1]), None);
    assert_eq!(request_length([255, 255, 255, 255]), None);
}

#[test]
fn length_prefix_matches_the_standard_encoding() {
    for length in [0_u32, 1, 255, 256, 4096, 70_000, u32::MAX] {
        assert_eq!(length_prefix(length), length.to_le_bytes());
    }
}

#[test]
fn version_status_names_each_relation() {
    assert_eq!(version_status(Some("0.1.0")), "compatible");
    assert_eq!(version_status(Some("0.1.9")), "compatible");
    assert_eq!(version_status(Some("0.2.0")), "update_host");
    assert_eq!(version_status(Some("1.0.0")), "incompatible");
    assert_eq!(version_status(Some("beta")), "unknown");
    assert_eq!(version_status(None), "unknown");
}
