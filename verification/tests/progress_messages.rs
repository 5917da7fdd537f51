use std::time::Duration;

use spatial::progress::{
    format_bytes, format_elapsed, format_metric_progress_message, format_progress_percent,
    write_stage_message, PlanProgressMetrics, WriteStagePhase,
};

#[test]
fn formats_scan_progress_message() {
    assert_eq!(
        format_metric_progress_message(
            "Encoding display payload and writing parquet",
            "sorting buffered rows",
            PlanProgressMetrics {
                rows_read: 128,
                ..Default::default()
            },
            1024,
            true,
        ),
        "Encoding display payload and writing parquet"
    );
}

#[test]
fn formats_post_read_activity_message() {
    assert_eq!(
        format_metric_progress_message(
            "Encoding display payload and writing parquet",
            "sorting buffered rows",
            PlanProgressMetrics {
                rows_read: 1024,
                elapsed_compute_nanos: Duration::from_secs(12).as_nanos() as u64,
                ..Default::default()
            },
            1024,
            true,
        ),
        "Encoding display payload and writing parquet — sorting buffered rows in memory — compute 00:12"
    );
}

#[test]
fn formats_sink_side_progress_message() {
    assert_eq!(
        format_metric_progress_message(
            "Encoding display payload and writing parquet",
            "sorting buffered rows",
            PlanProgressMetrics {
                rows_read: 1024,
                rows_written: 256,
                ..Default::default()
            },
            1024,
            true,
        ),
        "Encoding display payload and writing parquet — writing 256/1024 rows (25%)"
    );
}

#[test]
fn groups_write_stage_labels_by_output_layout() {
    assert_eq!(
        write_stage_message(WriteStagePhase::Reading, false),
        "Preparing output — reading rows into sort buffers"
    );
    assert_eq!(
        write_stage_message(WriteStagePhase::Writing, false),
        "Writing parquet file"
    );
    assert_eq!(
        write_stage_message(WriteStagePhase::Reading, true),
        "Preparing output — reading rows into sort buffers for multiple files"
    );
    assert_eq!(
        write_stage_message(WriteStagePhase::Writing, true),
        "Writing parquet files"
    );
}

#[test]
fn sorting_phase_labels_follow_output_layout() {
    assert_eq!(
        write_stage_message(WriteStagePhase::Sorting, false),
        "Preparing output — sorting buffered rows"
    );
    assert_eq!(
        write_stage_message(WriteStagePhase::Sorting, true),
        "Preparing output — sorting rows for multiple files"
    );
}

#[test]
fn progress_percent_truncates_and_handles_empty_totals() {
    assert_eq!(format_progress_percent(256, 1024), 25);
    assert_eq!(format_progress_percent(1, 3), 33);
    assert_eq!(format_progress_percent(5, 0), 0);
    assert_eq!(format_progress_percent(u64::MAX, u64::MAX), 100);
}

#[test]
fn elapsed_time_uses_minutes_and_hours() {
    assert_eq!(format_elapsed(12), "00:12");
    assert_eq!(format_elapsed(75), "01:15");
    assert_eq!(format_elapsed(3600), "01:00:00");
    assert_eq!(format_elapsed(36_061), "10:01:01");
}

fn float_byte_text(bytes: u64) -> String {
    let kib: u64 = 1024;
    let mib: u64 = 1024 * kib;
    let gib: u64 = 1024 * mib;
    if bytes >= gib {
        format!("{:.1} GiB", bytes as f64 / gib as f64)
    } else if bytes >= mib {
        format!("{:.1} MiB", bytes as f64 / mib as f64)
    } else if bytes >= kib {
        format!("{:.1} KiB", bytes as f64 / kib as f64)
    } else {
        format!("{bytes} B")
    }
}

#[test]
fn byte_sizes_match_one_decimal_float_rendering() {
    let samples: [u64; 14] = [
        0,
        1,
        1023,
        1024,
        1126,
        1177,
        1536,
        1_048_575,
        1_048_576,
        5_000_000,
        1_073_741_824,
        3_000_000_000_000,
        1_125_899_906_842_624,
        123_456_789_012,
    ];
    for bytes in samples {
        assert_eq!(format_bytes(bytes), float_byte_text(bytes), "bytes = {bytes}");
    }
    assert_eq!(format_bytes(1536), "1.5 KiB");
    assert_eq!(format_bytes(512), "512 B");
}

#[test]
fn spills_are_reported_while_reading() {
    let message = format_metric_progress_message(
        "Encoding",
        "sorting buffered rows",
        PlanProgressMetrics {
            rows_read: 10,
            spill_count: 2,
            spilled_bytes: 2048,
            ..Default::default()
        },
        1024,
        true,
    );
    assert!(message.starts_with("Encoding"));
    assert!(message.contains("2.0 KiB"), "{message}");
}
