//! The request vocabulary of the spatial pipeline and the decisions taken before and during a
//! durable write: which concrete pipeline runs, whether the input is cached, and which row
//! counts reach a write reporter.

use vstd::prelude::*;
use std::path::PathBuf;

verus! {

/// A filesystem path, carried through unchanged; nothing is read from it.
#[verifier::external_type_specification]
#[verifier::external_body]
pub struct ExPathBuf(PathBuf);

/// Selects the default output spatial reference.
pub const DEFAULT_OUTPUT_WKID: u32 = 4326;

/// Selects the projected spatial reference supported by display optimization.
pub const WEB_MERCATOR_OUTPUT_WKID: u32 = 3857;

/// Whether the requested output spatial reference is implemented.
///
/// Only the default output spatial reference is; a request for another one is refused before
/// any job resource is opened.
pub fn output_wkid_supported(output_wkid: u32) -> (supported: bool)
    ensures
        supported == (output_wkid == DEFAULT_OUTPUT_WKID),
{
    output_wkid == DEFAULT_OUTPUT_WKID
}

/// Selects which GeoParquet product a job writes.
#[derive(Clone, Copy, Debug, PartialEq, Eq, Structural)]
pub enum GeoParquetOutputMode {
    /// Writes Spatially Optimized GeoParquet.
    Optimized,
    /// Writes GeoParquet without optimized clustering columns or spatial sorting.
    Plain,
}

/// The name under which the pipeline options refer to the output product.
pub type OutputMode = GeoParquetOutputMode;

impl Default for GeoParquetOutputMode {
    fn default() -> (mode: Self)
        ensures
            mode == GeoParquetOutputMode::Optimized,
    {
        GeoParquetOutputMode::Optimized
    }
}

/// The concrete pipeline that executes one request.
#[derive(Clone, Copy, Debug, PartialEq, Eq, Structural)]
pub enum PipelineKind {
    Plain,
    OptimizedSingleFile,
    OptimizedPartitioned,
}

/// A request that no concrete pipeline can execute.
#[derive(Clone, Copy, Debug, PartialEq, Eq, Structural)]
pub enum PipelineError {
    /// Plain output was requested with more than one output file.
    PlainMultiFileOutput,
}

impl PipelineError {
    /// Describe the refused request.
    pub fn message(&self) -> (message: &'static str)
        ensures
            message@ == "plain GeoParquet output does not support --output-files"@,
    {
        match self {
            PipelineError::PlainMultiFileOutput => "plain GeoParquet output does not support --output-files",
        }
    }
}

/// The pipeline that a product and an output part count select, if any.
pub open spec fn spec_pipeline_kind(output_mode: GeoParquetOutputMode, output_parts: usize) -> Option<
    PipelineKind,
> {
    match output_mode {
        GeoParquetOutputMode::Plain => if output_parts == 1 {
            Some(PipelineKind::Plain)
        } else {
            None
        },
        GeoParquetOutputMode::Optimized => if output_parts == 1 {
            Some(PipelineKind::OptimizedSingleFile)
        } else {
            Some(PipelineKind::OptimizedPartitioned)
        },
    }
}

impl PipelineKind {
    /// Select one concrete pipeline from the requested product and output part count.
    pub fn new(output_mode: OutputMode, output_parts: usize) -> (kind: Result<Self, PipelineError>)
        ensures
            match spec_pipeline_kind(output_mode, output_parts) {
                Some(k) => kind == Ok::<PipelineKind, PipelineError>(k),
                None => kind == Err::<PipelineKind, PipelineError>(PipelineError::PlainMultiFileOutput),
            },
    {
        match output_mode {
            GeoParquetOutputMode::Plain => {
                if output_parts == 1 {
                    Ok(PipelineKind::Plain)
                } else {
                    Err(PipelineError::PlainMultiFileOutput)
                }
            },
            GeoParquetOutputMode::Optimized => {
                if output_parts == 1 {
                    Ok(PipelineKind::OptimizedSingleFile)
                } else {
                    Ok(PipelineKind::OptimizedPartitioned)
                }
            },
        }
    }
}

/// Select one concrete pipeline from the requested product and output part count.
pub fn pipeline_kind(output_mode: GeoParquetOutputMode, output_parts: usize) -> (kind: Result<
    PipelineKind,
    PipelineError,
>)
    ensures
        match spec_pipeline_kind(output_mode, output_parts) {
            Some(k) => kind == Ok::<PipelineKind, PipelineError>(k),
            None => kind == Err::<PipelineKind, PipelineError>(PipelineError::PlainMultiFileOutput),
        },
{
    PipelineKind::new(output_mode, output_parts)
}

/// A contiguous selection of input rows: skip `start` rows, then take `num` rows or all.
#[derive(Clone, Copy, Debug, PartialEq, Eq, Structural)]
pub struct RowRange {
    /// The number of leading rows to skip.
    pub start: u64,
    /// The number of rows to take, or every remaining row.
    pub num: Option<u64>,
}

impl Default for RowRange {
    fn default() -> (range: Self)
        ensures
            range == (RowRange { start: 0, num: None }),
    {
        RowRange { start: 0, num: None }
    }
}

impl RowRange {
    /// Construct a row range.
    pub fn new(start: u64, num: Option<u64>) -> (range: Self)
        ensures
            range == (RowRange { start, num }),
    {
        RowRange { start, num }
    }

    /// Return the number of leading rows to skip.
    pub fn start(&self) -> (start: u64)
        ensures
            start == self.start,
    {
        self.start
    }

    /// Whether the range selects every input row: nothing skipped and no bound.
    pub fn is_full(&self) -> (full: bool)
        ensures
            full == (self.start == 0 && self.num is None),
    {
        self.start == 0 && self.num.is_none()
    }

    /// Return the number of rows to take, if bounded.
    pub fn num(&self) -> (num: Option<u64>)
        ensures
            num == self.num,
    {
        self.num
    }
}

/// Whether the selected input is cached before the pipeline reads it more than once.
///
/// Only an explicitly bounded selection is cached.
pub fn should_cache_input_dataframe(row_range: RowRange) -> (cache: bool)
    ensures
        cache == row_range.num.is_some(),
{
    row_range.num.is_some()
}

/// Names the container format of an input source.
#[derive(Clone, Copy, Debug, PartialEq, Eq, Structural)]
pub enum SourceFormat {
    GeoParquet,
    GeoPackage,
}

/// Configures one input source and selected row range.
#[derive(Clone, Debug)]
pub struct InputOptions {
    pub location: String,
    pub format: Option<SourceFormat>,
    pub row_range: RowRange,
    pub layer: Option<String>,
    pub geometry_column: Option<String>,
    pub input_wkid: Option<u32>,
}

impl InputOptions {
    /// Construct input options from source, selection, and geometry overrides.
    pub fn new(
        location: String,
        format: Option<SourceFormat>,
        row_range: RowRange,
        layer: Option<String>,
        geometry_column: Option<String>,
        input_wkid: Option<u32>,
    ) -> (options: Self)
        ensures
            options == (InputOptions { location, format, row_range, layer, geometry_column, input_wkid }),
    {
        InputOptions { location, format, row_range, layer, geometry_column, input_wkid }
    }
}

/// Configures one durable GeoParquet output.
#[derive(Debug)]
pub struct OutputOptions {
    pub path: PathBuf,
    pub mode: OutputMode,
    pub file_count: Option<usize>,
    pub compression: Option<String>,
    pub output_wkid: u32,
    pub covering: bool,
    pub overwrite: bool,
}

impl OutputOptions {
    /// Construct output options from path, product, storage, and CRS policy.
    pub fn new(
        path: PathBuf,
        mode: OutputMode,
        file_count: Option<usize>,
        compression: Option<String>,
        output_wkid: u32,
        covering: bool,
        overwrite: bool,
    ) -> (options: Self)
        ensures
            options == (OutputOptions {
                path,
                mode,
                file_count,
                compression,
                output_wkid,
                covering,
                overwrite,
            }),
    {
        OutputOptions { path, mode, file_count, compression, output_wkid, covering, overwrite }
    }
}

/// Configures diagnostics and interactive execution reporting.
#[derive(Clone, Copy, Debug, PartialEq, Eq, Structural)]
pub struct ExecutionOptions {
    pub progress: bool,
    pub explain: bool,
}

impl ExecutionOptions {
    /// Construct execution options from progress and diagnostic controls.
    pub fn new(progress: bool, explain: bool) -> (options: Self)
        ensures
            options == (ExecutionOptions { progress, explain }),
    {
        ExecutionOptions { progress, explain }
    }
}

/// Configures one complete spatial pipeline.
#[derive(Debug)]
pub struct SpatialPipelineOptions {
    pub input: InputOptions,
    pub output: OutputOptions,
    pub execution: ExecutionOptions,
}

impl SpatialPipelineOptions {
    /// Construct one spatial request from typed input, output, and execution sections.
    pub fn new(input: InputOptions, output: OutputOptions, execution: ExecutionOptions) -> (options:
        Self)
        ensures
            options == (SpatialPipelineOptions { input, output, execution }),
    {
        SpatialPipelineOptions { input, output, execution }
    }
}

/// Represents the durable result produced by one spatial pipeline.
#[derive(Clone, Copy, Debug, PartialEq, Eq, Structural)]
pub struct SpatialPipelineResult {
    rows_written: u64,
}

impl SpatialPipelineResult {
    pub closed spec fn spec_rows_written(self) -> u64 {
        self.rows_written
    }

    /// Record the number of rows accepted by the output writer.
    pub fn new(rows_written: u64) -> (result: Self)
        ensures
            result.spec_rows_written() == rows_written,
    {
        SpatialPipelineResult { rows_written }
    }

    /// Return the number of rows accepted by the output writer.
    pub fn rows_written(self) -> (rows: u64)
        ensures
            rows == self.spec_rows_written(),
    {
        self.rows_written
    }
}

/// Represents cumulative write progress for one spatial pipeline.
#[derive(Clone, Copy, Debug, PartialEq, Eq, Structural)]
pub struct WriteProgress {
    rows_written: u64,
    total_rows: u64,
}

impl WriteProgress {
    pub closed spec fn spec_rows_written(self) -> u64 {
        self.rows_written
    }

    pub closed spec fn spec_total_rows(self) -> u64 {
        self.total_rows
    }

    /// Record cumulative progress against the expected row count.
    pub fn new(rows_written: u64, total_rows: u64) -> (progress: Self)
        ensures
            progress.spec_rows_written() == rows_written,
            progress.spec_total_rows() == total_rows,
    {
        WriteProgress { rows_written, total_rows }
    }

    /// Return the cumulative number of rows accepted by the writer.
    pub fn rows_written(self) -> (rows: u64)
        ensures
            rows == self.spec_rows_written(),
    {
        self.rows_written
    }

    /// Return the expected number of rows for the complete write.
    pub fn total_rows(self) -> (rows: u64)
        ensures
            rows == self.spec_total_rows(),
    {
        self.total_rows
    }
}

/// Receives cumulative row counts without coupling the library to terminal output.
pub trait WriteReporter {
    /// Report cumulative progress for one durable output write.
    fn report(&self, progress: WriteProgress);
}

/// Counts rows accepted by concurrent writers and decides which cumulative counts reach the
/// reporter: never a count below one already delivered, and a repeated count only when the
/// write finishes.
pub struct WriteTracker {
    total_rows: u64,
    rows_written: u64,
    reporting: bool,
    delivered_rows: u64,
}

impl WriteTracker {
    pub closed spec fn spec_total_rows(&self) -> u64 {
        self.total_rows
    }

    pub closed spec fn spec_rows_written(&self) -> u64 {
        self.rows_written
    }

    pub closed spec fn spec_reporting(&self) -> bool {
        self.reporting
    }

    pub closed spec fn spec_delivered_rows(&self) -> u64 {
        self.delivered_rows
    }

    /// Start tracking a write of `total_rows` rows; `reporting` says whether a reporter
    /// listens.
    pub fn new(total_rows: u64, reporting: bool) -> (tracker: Self)
        ensures
            tracker.spec_total_rows() == total_rows,
            tracker.spec_rows_written() == 0,
            tracker.spec_reporting() == reporting,
            tracker.spec_delivered_rows() == 0,
    {
        WriteTracker { total_rows, rows_written: 0, reporting, delivered_rows: 0 }
    }

    /// Return the cumulative count of recorded rows.
    pub fn rows_written(&self) -> (rows: u64)
        ensures
            rows == self.spec_rows_written(),
    {
        self.rows_written
    }

    /// Add one written batch to the cumulative count; returns the progress to report, if any.
    pub fn record_batch(&mut self, row_count: usize) -> (report: Option<WriteProgress>)
        requires
            old(self).spec_rows_written() + row_count <= u64::MAX,
        ensures
            final(self).spec_total_rows() == old(self).spec_total_rows(),
            final(self).spec_reporting() == old(self).spec_reporting(),
            final(self).spec_rows_written() == old(self).spec_rows_written() + row_count,
            row_count == 0 ==> *final(self) == *old(self) && report is None,
            row_count > 0 ==> delivered(
                *old(self),
                *final(self),
                old(self).spec_rows_written() + row_count,
                false,
                report,
            ),
            tracker_step(*old(self), *final(self), report),
    {
        let ghost before = *self;
        if row_count == 0 {
            return None;
        }
        self.rows_written = self.rows_written + row_count as u64;
        let rows_written = self.rows_written;
        let report = self.deliver(rows_written, false);
        proof {
            assert(delivered(before, *self, rows_written as int, false, report));
        }
        report
    }

    /// Record the authoritative final count; it is reported unless a larger count was.
    pub fn finish(&mut self, rows_written: u64) -> (report: Option<WriteProgress>)
        ensures
            final(self).spec_total_rows() == old(self).spec_total_rows(),
            final(self).spec_reporting() == old(self).spec_reporting(),
            final(self).spec_rows_written() == rows_written,
            delivered(*old(self), *final(self), rows_written as int, true, report),
            tracker_step(*old(self), *final(self), report),
    {
        let ghost before = *self;
        self.rows_written = rows_written;
        let report = self.deliver(rows_written, true);
        proof {
            assert(delivered(before, *self, rows_written as int, true, report));
        }
        report
    }

    /// Decide whether `rows_written` reaches the reporter; `force` lets an equal count through.
    pub fn deliver(&mut self, rows_written: u64, force: bool) -> (report: Option<WriteProgress>)
        ensures
            final(self).spec_total_rows() == old(self).spec_total_rows(),
            final(self).spec_reporting() == old(self).spec_reporting(),
            final(self).spec_rows_written() == old(self).spec_rows_written(),
            delivered(*old(self), *final(self), rows_written as int, force, report),
            tracker_step(*old(self), *final(self), report),
    {
        let ghost before = *self;
        let report = self.decide(rows_written, force);
        proof {
            assert(delivered(before, *self, rows_written as int, force, report));
        }
        report
    }

    fn decide(&mut self, rows_written: u64, force: bool) -> (report: Option<WriteProgress>)
        ensures
            final(self).spec_total_rows() == old(self).spec_total_rows(),
            final(self).spec_reporting() == old(self).spec_reporting(),
            final(self).spec_rows_written() == old(self).spec_rows_written(),
            delivered(*old(self), *final(self), rows_written as int, force, report),
    {
        if !self.reporting {
            return None;
        }
        if rows_written < self.delivered_rows || (!force && rows_written == self.delivered_rows) {
            return None;
        }
        self.delivered_rows = rows_written;
        Some(WriteProgress::new(rows_written, self.total_rows))
    }
}

/// Whether a delivery decision for `rows` took the tracker from `before` to `after` and
/// produced `report`.
pub open spec fn delivered(
    before: WriteTracker,
    after: WriteTracker,
    rows: int,
    force: bool,
    report: Option<WriteProgress>,
) -> bool {
    let passes = before.spec_reporting() && (rows > before.spec_delivered_rows() || (force && rows
        == before.spec_delivered_rows()));
    if passes {
        &&& report matches Some(p) && p.spec_rows_written() == rows && p.spec_total_rows()
            == before.spec_total_rows()
        &&& after.spec_delivered_rows() == rows
    } else {
        &&& report is None
        &&& after.spec_delivered_rows() == before.spec_delivered_rows()
    }
}

/// Every count that reaches the reporter is at least every count delivered before it, and one
/// delivered without `force` is strictly larger.
pub proof fn lemma_delivered_counts_never_decrease(
    before: WriteTracker,
    after: WriteTracker,
    rows: int,
    force: bool,
    report: Option<WriteProgress>,
)
    requires
        delivered(before, after, rows, force, report),
    ensures
        after.spec_delivered_rows() >= before.spec_delivered_rows(),
        report matches Some(p) ==> p.spec_rows_written() >= before.spec_delivered_rows() && (!force
            ==> p.spec_rows_written() > before.spec_delivered_rows()),
        report matches Some(p) ==> after.spec_delivered_rows() == p.spec_rows_written(),
{
}

/// One step of a tracker: a delivery decision for some count, or a call that left the
/// delivered count alone and reported nothing (an empty batch).
pub open spec fn tracker_step(before: WriteTracker, after: WriteTracker, report: Option<WriteProgress>) -> bool {
    ||| exists|rows: int, force: bool| delivered(before, after, rows, force, report)
    ||| (after.spec_delivered_rows() == before.spec_delivered_rows() && report is None)
}

/// `states` are the tracker before and after each of the calls that gave `reports`.
pub open spec fn tracker_run(states: Seq<WriteTracker>, reports: Seq<Option<WriteProgress>>) -> bool {
    &&& states.len() == reports.len() + 1
    &&& forall|i: int| 0 <= i < reports.len() ==> tracker_step(states[i], states[i + 1], #[trigger] reports[i])
}

proof fn lemma_step_facts(before: WriteTracker, after: WriteTracker, report: Option<WriteProgress>)
    requires
        tracker_step(before, after, report),
    ensures
        after.spec_delivered_rows() >= before.spec_delivered_rows(),
        report matches Some(p) ==> p.spec_rows_written() == after.spec_delivered_rows(),
{
    if exists|rows: int, force: bool| delivered(before, after, rows, force, report) {
        let (rows, force) = choose|rows: int, force: bool| delivered(before, after, rows, force, report);
        lemma_delivered_counts_never_decrease(before, after, rows, force, report);
    }
}

proof fn lemma_run_delivered_monotonic(
    states: Seq<WriteTracker>,
    reports: Seq<Option<WriteProgress>>,
    i: int,
    j: int,
)
    requires
        tracker_run(states, reports),
        0 <= i <= j < states.len(),
    ensures
        states[i].spec_delivered_rows() <= states[j].spec_delivered_rows(),
    decreases j - i,
{
    if i < j {
        lemma_run_delivered_monotonic(states, reports, i, j - 1);
        assert(tracker_step(states[j - 1], states[j], reports[j - 1]));
        lemma_step_facts(states[j - 1], states[j], reports[j - 1]);
    }
}

/// Over any run of calls on one tracker, the counts that reach the reporter never decrease:
/// a report is never below one delivered before it.
pub proof fn lemma_reported_counts_never_decrease_over_a_run(
    states: Seq<WriteTracker>,
    reports: Seq<Option<WriteProgress>>,
    i: int,
    j: int,
)
    requires
        tracker_run(states, reports),
        0 <= i < j < reports.len(),
        reports[i] is Some,
        reports[j] is Some,
    ensures
        reports[i]->Some_0.spec_rows_written() <= reports[j]->Some_0.spec_rows_written(),
{
    assert(tracker_step(states[i], states[i + 1], reports[i]));
    assert(tracker_step(states[j], states[j + 1], reports[j]));
    lemma_step_facts(states[i], states[i + 1], reports[i]);
    lemma_step_facts(states[j], states[j + 1], reports[j]);
    lemma_run_delivered_monotonic(states, reports, i + 1, j + 1);
}

} // verus!
