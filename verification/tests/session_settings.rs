use spatial::session::{
    configured_sort_spill_reservation_bytes, env_usize, half_physical_memory, session_settings,
    SessionError, SessionSettings, DEFAULT_SORT_SPILL_RESERVATION_BYTES,
    NO_IN_PLACE_SORT_THRESHOLD_BYTES,
};

#[test]
fn default_memory_uses_half_of_physical_memory() {
    assert_eq!(half_physical_memory(16 * 1024).unwrap(), 8 * 1024);
    assert!(half_physical_memory(1).is_err());
}

#[test]
fn physical_memory_below_two_bytes_is_unknown() {
    assert_eq!(half_physical_memory(0), Err(SessionError::UnknownPhysicalMemory));
    assert_eq!(half_physical_memory(3), Ok(1));
    assert_eq!(
        SessionError::UnknownPhysicalMemory.message(),
        "unable to determine total physical memory"
    );
}

#[test]
fn explicit_zero_limits_are_refused() {
    assert_eq!(
        session_settings(Some(0), None, 1 << 30, 1),
        Err(SessionError::ZeroMemoryLimit)
    );
    assert_eq!(
        session_settings(Some(1024), Some(0), 1 << 30, 1),
        Err(SessionError::ZeroTargetPartitions)
    );
    assert_eq!(
        session_settings(Some(0), Some(0), 0, 1),
        Err(SessionError::ZeroMemoryLimit)
    );
    assert_eq!(
        SessionError::ZeroMemoryLimit.message(),
        "DataFusion memory limit must be >= 1 byte"
    );
    assert_eq!(
        SessionError::ZeroTargetPartitions.message(),
        "DataFusion target partitions must be >= 1"
    );
}

#[test]
fn settings_default_memory_and_keep_requested_partitions() {
    let settings = session_settings(None, Some(3), 16 * 1024, 4096).unwrap();
    assert_eq!(
        settings,
        SessionSettings {
            memory_limit_bytes: 8 * 1024,
            target_partitions: Some(3),
            sort_spill_reservation_bytes: 4096,
            sort_in_place_threshold_bytes: NO_IN_PLACE_SORT_THRESHOLD_BYTES,
            collect_statistics: false,
            repartition_file_scans: false,
            repartition_sorts: true,
            prefer_existing_sort: true,
        }
    );
    let settings = session_settings(Some(1024 * 1024), None, 16 * 1024, 4096).unwrap();
    assert_eq!(settings.memory_limit_bytes, 1024 * 1024);
    assert_eq!(settings.target_partitions, None);
}

#[test]
fn unknown_physical_memory_refuses_even_explicit_limits() {
    assert_eq!(
        session_settings(Some(1024), None, 1, 4096),
        Err(SessionError::UnknownPhysicalMemory)
    );
}

#[test]
fn sort_spill_reservation_reads_positive_overrides() {
    assert_eq!(configured_sort_spill_reservation_bytes(None), DEFAULT_SORT_SPILL_RESERVATION_BYTES);
    assert_eq!(DEFAULT_SORT_SPILL_RESERVATION_BYTES, 256 * 1024 * 1024);
    assert_eq!(configured_sort_spill_reservation_bytes(Some("1048576")), 1_048_576);
    assert_eq!(configured_sort_spill_reservation_bytes(Some("0")), DEFAULT_SORT_SPILL_RESERVATION_BYTES);
    assert_eq!(configured_sort_spill_reservation_bytes(Some("-5")), DEFAULT_SORT_SPILL_RESERVATION_BYTES);
    assert_eq!(configured_sort_spill_reservation_bytes(Some("lots")), DEFAULT_SORT_SPILL_RESERVATION_BYTES);
    assert_eq!(env_usize(Some("+7")), Some(7));
    assert_eq!(env_usize(Some("")), None);
    assert_eq!(env_usize(None), None);
}

#[test]
fn settings_parse_like_the_standard_library() {
    let samples = [
        "", "+", "++1", "+0", "0", "00", "007", "1 ", " 1", "-0", "-5", "12a", "٣", "1_000",
        "18446744073709551615", "18446744073709551616", "99999999999999999999999", "+42",
        "4294967295", "4294967296",
    ];
    for text in samples {
        let expected = text.parse::<usize>().ok().filter(|value| *value > 0);
        assert_eq!(env_usize(Some(text)), expected, "text = {text:?}");
    }
}
