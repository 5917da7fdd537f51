use std::path::PathBuf;

use spatial::pipeline::{
    output_wkid_supported, pipeline_kind, should_cache_input_dataframe, ExecutionOptions,
    GeoParquetOutputMode, InputOptions, OutputMode, OutputOptions, PipelineError, PipelineKind,
    RowRange, SourceFormat, SpatialPipelineOptions, SpatialPipelineResult, WriteProgress,
    WriteTracker, DEFAULT_OUTPUT_WKID, WEB_MERCATOR_OUTPUT_WKID,
};

#[test]
fn caches_only_explicitly_bounded_selections() {
    assert!(!should_cache_input_dataframe(RowRange::default()));
    assert!(!should_cache_input_dataframe(RowRange {
        start: 10,
        num: None,
    }));
    assert!(should_cache_input_dataframe(RowRange {
        start: 10,
        num: Some(25),
    }));
}

#[test]
fn build_selects_one_concrete_pipeline_kind() {
    assert_eq!(
        pipeline_kind(GeoParquetOutputMode::Plain, 1).unwrap(),
        PipelineKind::Plain
    );
    assert_eq!(
        pipeline_kind(GeoParquetOutputMode::Optimized, 1).unwrap(),
        PipelineKind::OptimizedSingleFile
    );
    assert_eq!(
        pipeline_kind(GeoParquetOutputMode::Optimized, 4).unwrap(),
        PipelineKind::OptimizedPartitioned
    );
    assert!(pipeline_kind(GeoParquetOutputMode::Plain, 4).is_err());
}

#[test]
fn runner_selects_one_concrete_pipeline_kind() {
    assert_eq!(
        PipelineKind::new(OutputMode::Plain, 1).unwrap(),
        PipelineKind::Plain
    );
    assert_eq!(
        PipelineKind::new(OutputMode::Optimized, 1).unwrap(),
        PipelineKind::OptimizedSingleFile
    );
    assert_eq!(
        PipelineKind::new(OutputMode::Optimized, 2).unwrap(),
        PipelineKind::OptimizedPartitioned
    );
}

#[test]
fn plain_output_refuses_multiple_files() {
    let err = PipelineKind::new(OutputMode::Plain, 3).unwrap_err();
    assert_eq!(err, PipelineError::PlainMultiFileOutput);
    assert_eq!(
        err.message(),
        "plain GeoParquet output does not support --output-files"
    );
    assert_eq!(
        PipelineKind::new(OutputMode::Optimized, 0).unwrap(),
        PipelineKind::OptimizedPartitioned
    );
    assert!(PipelineKind::new(OutputMode::Plain, 0).is_err());
}

#[test]
fn optimized_output_is_the_default_product() {
    assert_eq!(GeoParquetOutputMode::default(), GeoParquetOutputMode::Optimized);
}

#[test]
fn only_the_default_output_reference_is_supported() {
    assert!(output_wkid_supported(DEFAULT_OUTPUT_WKID));
    assert!(!output_wkid_supported(WEB_MERCATOR_OUTPUT_WKID));
    assert!(!output_wkid_supported(4269));
}

#[test]
fn row_ranges_expose_their_bounds() {
    let range = RowRange::new(1, Some(2));
    assert_eq!(range.start(), 1);
    assert_eq!(range.num(), Some(2));
    assert_eq!(RowRange::default().num(), None);
    assert_eq!(RowRange::default().start(), 0);
}

#[test]
fn options_keep_every_section() {
    let input = InputOptions::new(
        "points.parquet".to_string(),
        Some(SourceFormat::GeoParquet),
        RowRange::new(1, Some(1)),
        Some("points".to_string()),
        Some("geometry".to_string()),
        Some(3857),
    );
    let output = OutputOptions::new(
        PathBuf::from("out.parquet"),
        OutputMode::Plain,
        Some(2),
        Some("zstd".to_string()),
        4326,
        true,
        false,
    );
    let options = SpatialPipelineOptions::new(input, output, ExecutionOptions::new(true, false));
    assert_eq!(options.input.location, "points.parquet");
    assert_eq!(options.input.row_range, RowRange::new(1, Some(1)));
    assert_eq!(options.input.input_wkid, Some(3857));
    assert_eq!(options.output.path, PathBuf::from("out.parquet"));
    assert_eq!(options.output.mode, GeoParquetOutputMode::Plain);
    assert_eq!(options.output.file_count, Some(2));
    assert!(options.output.covering);
    assert!(!options.output.overwrite);
    assert!(options.execution.progress);
    assert!(!options.execution.explain);
}

#[test]
fn results_and_progress_report_their_counts() {
    assert_eq!(SpatialPipelineResult::new(42).rows_written(), 42);
    let progress = WriteProgress::new(3, 8);
    assert_eq!(progress.rows_written(), 3);
    assert_eq!(progress.total_rows(), 8);
}

#[test]
fn tracker_reports_monotonic_counts_across_concurrent_writes() {
    let mut tracker = WriteTracker::new(8, true);
    let mut reported = Vec::new();
    for _ in 0..8 {
        if let Some(progress) = tracker.record_batch(1) {
            reported.push(progress.rows_written());
        }
    }
    if let Some(progress) = tracker.finish(8) {
        reported.push(progress.rows_written());
    }
    assert_eq!(reported.last(), Some(&8));
    assert!(reported.windows(2).all(|counts| counts[0] <= counts[1]));
}

#[test]
fn tracker_finishes_with_authoritative_count() {
    let mut tracker = WriteTracker::new(3, true);
    let mut reported = Vec::new();
    reported.extend(tracker.record_batch(3));
    reported.extend(tracker.finish(3));
    assert_eq!(reported.last(), Some(&WriteProgress::new(3, 3)));
    assert_eq!(reported.len(), 2);
}

#[test]
fn tracker_skips_stale_and_repeated_counts() {
    let mut tracker = WriteTracker::new(10, true);
    assert_eq!(tracker.deliver(5, false), Some(WriteProgress::new(5, 10)));
    assert_eq!(tracker.deliver(5, false), None);
    assert_eq!(tracker.deliver(4, true), None);
    assert_eq!(tracker.deliver(5, true), Some(WriteProgress::new(5, 10)));
    assert_eq!(tracker.record_batch(0), None);
    assert_eq!(tracker.rows_written(), 0);
    assert_eq!(tracker.record_batch(7), Some(WriteProgress::new(7, 10)));
    assert_eq!(tracker.rows_written(), 7);
}

#[test]
fn tracker_without_reporter_reports_nothing() {
    let mut tracker = WriteTracker::new(2, false);
    assert_eq!(tracker.record_batch(2), None);
    assert_eq!(tracker.finish(2), None);
    assert_eq!(tracker.rows_written(), 2);
}
