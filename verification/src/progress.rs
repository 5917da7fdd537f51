//! Presents job-wide progress independently from source, GeoParquet, and writer semantics.
//!
//! Physical plans expose metrics rather than workflow phases. This module aggregates those
//! metrics over a plan tree, derives read/sort/write phases, and renders the row, spill, and
//! compute status shown to the user.

use vstd::prelude::*;
use crate::text::{decimal, decimal_pad2, push_decimal, push_decimal_pad2};

verus! {

/// Names the metric that sinks use to report written rows.
pub const SINK_ROWS_METRIC: &'static str = "sink_rows";

/// Aggregates row, spill, and compute metrics across a physical-plan tree.
#[derive(Clone, Copy, Debug, PartialEq, Eq)]
pub struct PlanProgressMetrics {
    pub rows_read: u64,
    pub rows_written: u64,
    pub spill_count: u64,
    pub spilled_bytes: u64,
    pub elapsed_compute_nanos: u64,
}

impl Default for PlanProgressMetrics {
    fn default() -> (m: Self)
        ensures
            m.rows_read == 0,
            m.rows_written == 0,
            m.spill_count == 0,
            m.spilled_bytes == 0,
            m.elapsed_compute_nanos == 0,
    {
        PlanProgressMetrics {
            rows_read: 0,
            rows_written: 0,
            spill_count: 0,
            spilled_bytes: 0,
            elapsed_compute_nanos: 0,
        }
    }
}

/// Identifies the observable phase of a final write plan.
#[derive(Clone, Copy, Debug, PartialEq, Eq, Structural)]
pub enum WriteStagePhase {
    Reading,
    Sorting,
    Writing,
}

pub open spec fn spec_write_stage_message(phase: WriteStagePhase, partitioned_write: bool) -> Seq<
    char,
> {
    match (phase, partitioned_write) {
        (WriteStagePhase::Reading, false) => "Preparing output — reading rows into sort buffers"@,
        (WriteStagePhase::Sorting, false) => "Preparing output — sorting buffered rows"@,
        (WriteStagePhase::Writing, false) => "Writing parquet file"@,
        (WriteStagePhase::Reading, true) =>
            "Preparing output — reading rows into sort buffers for multiple files"@,
        (WriteStagePhase::Sorting, true) => "Preparing output — sorting rows for multiple files"@,
        (WriteStagePhase::Writing, true) => "Writing parquet files"@,
    }
}

/// Return the user-facing label for one output phase and layout.
pub fn write_stage_message(phase: WriteStagePhase, partitioned_write: bool) -> (message:
    &'static str)
    ensures
        message@ == spec_write_stage_message(phase, partitioned_write),
{
    match (phase, partitioned_write) {
        (WriteStagePhase::Reading, false) => "Preparing output — reading rows into sort buffers",
        (WriteStagePhase::Sorting, false) => "Preparing output — sorting buffered rows",
        (WriteStagePhase::Writing, false) => "Writing parquet file",
        (WriteStagePhase::Reading, true) => {
            "Preparing output — reading rows into sort buffers for multiple files"
        },
        (WriteStagePhase::Sorting, true) => "Preparing output — sorting rows for multiple files",
        (WriteStagePhase::Writing, true) => "Writing parquet files",
    }
}

/// The phase of a final write plan: any written row means writing; a complete read of a known
/// input means sorting; otherwise the plan is still reading.
pub open spec fn spec_write_stage_phase(metrics: PlanProgressMetrics, total_input_rows: u64)
    -> WriteStagePhase {
    if metrics.rows_written > 0 {
        WriteStagePhase::Writing
    } else if total_input_rows > 0 && metrics.rows_read >= total_input_rows {
        WriteStagePhase::Sorting
    } else {
        WriteStagePhase::Reading
    }
}

/// Derive the phase of a final write plan from its metrics.
pub fn write_stage_phase(metrics: PlanProgressMetrics, total_input_rows: u64) -> (phase:
    WriteStagePhase)
    ensures
        phase == spec_write_stage_phase(metrics, total_input_rows),
        metrics.rows_written > 0 ==> phase == WriteStagePhase::Writing,
        metrics.rows_written == 0 && total_input_rows > 0 && metrics.rows_read >= total_input_rows
            ==> phase == WriteStagePhase::Sorting,
        metrics.rows_written == 0 && !(total_input_rows > 0 && metrics.rows_read >= total_input_rows)
            ==> phase == WriteStagePhase::Reading,
{
    if metrics.rows_written > 0 {
        WriteStagePhase::Writing
    } else if total_input_rows > 0 && metrics.rows_read >= total_input_rows {
        WriteStagePhase::Sorting
    } else {
        WriteStagePhase::Reading
    }
}

/// Selects how a progress bar is drawn.
#[derive(Clone, Copy, Debug, PartialEq, Eq, Structural)]
pub enum BarStyle {
    /// A bar with a row counter and percentage.
    CountRows,
    /// Only the message.
    MessageOnly,
}

/// The changes a write-stage progress bar needs for one metrics sample.
pub struct WriteStageBarUpdate {
    /// The derived phase, which becomes the bar's current phase.
    pub phase: WriteStagePhase,
    /// A new style, when the phase changed.
    pub style: Option<BarStyle>,
    /// A new bar length, when the phase changed into a counting phase.
    pub length: Option<u64>,
    /// The message to show.
    pub message: &'static str,
    /// A new bar position, when the phase counts rows.
    pub position: Option<u64>,
}

pub open spec fn min_u64(a: u64, b: u64) -> u64 {
    if a < b {
        a
    } else {
        b
    }
}

/// Derive the read, sort, or write presentation of a final write plan.
///
/// `current_phase` is the phase the bar shows now; the style and length change only when the
/// derived phase differs from it.
pub fn plan_write_stage_bar(
    metrics: PlanProgressMetrics,
    total_input_rows: u64,
    partitioned_write: bool,
    current_phase: Option<WriteStagePhase>,
) -> (update: WriteStageBarUpdate)
    ensures
        update.phase == spec_write_stage_phase(metrics, total_input_rows),
        metrics.rows_written > 0 ==> update.phase == WriteStagePhase::Writing && update.position
            == Some(min_u64(metrics.rows_written, total_input_rows)),
        update.message@ == spec_write_stage_message(update.phase, partitioned_write),
        current_phase == Some(update.phase) ==> update.style is None && update.length is None,
        current_phase != Some(update.phase) ==> update.style == Some(
            if update.phase == WriteStagePhase::Sorting {
                BarStyle::MessageOnly
            } else {
                BarStyle::CountRows
            },
        ),
        current_phase != Some(update.phase) ==> update.length == (if update.phase
            == WriteStagePhase::Sorting {
            None
        } else {
            Some(if total_input_rows > 1 {
                total_input_rows
            } else {
                1u64
            })
        }),
        update.position == (match update.phase {
            WriteStagePhase::Reading => Some(min_u64(metrics.rows_read, total_input_rows)),
            WriteStagePhase::Sorting => None,
            WriteStagePhase::Writing => Some(min_u64(metrics.rows_written, total_input_rows)),
        }),
{
    let phase = write_stage_phase(metrics, total_input_rows);
    let changed = match current_phase {
        Some(current) => current != phase,
        None => true,
    };
    let (style, length) = if !changed {
        (None, None)
    } else {
        match phase {
            WriteStagePhase::Sorting => (Some(BarStyle::MessageOnly), None),
            _ => (
                Some(BarStyle::CountRows),
                Some(
                    if total_input_rows > 1 {
                        total_input_rows
                    } else {
                        1
                    },
                ),
            ),
        }
    };
    let position = match phase {
        WriteStagePhase::Reading => Some(
            if metrics.rows_read < total_input_rows {
                metrics.rows_read
            } else {
                total_input_rows
            },
        ),
        WriteStagePhase::Sorting => None,
        WriteStagePhase::Writing => Some(
            if metrics.rows_written < total_input_rows {
                metrics.rows_written
            } else {
                total_input_rows
            },
        ),
    };
    WriteStageBarUpdate {
        phase,
        style,
        length,
        message: write_stage_message(phase, partitioned_write),
        position,
    }
}

/// `total_seconds` rendered as `MM:SS`, or `HH:MM:SS` from one hour on.
pub open spec fn elapsed_text(total_seconds: nat) -> Seq<char> {
    let hours = total_seconds / 3600;
    let minutes = (total_seconds % 3600) / 60;
    let seconds = total_seconds % 60;
    if hours > 0 {
        decimal_pad2(hours) + seq![':'] + decimal_pad2(minutes) + seq![':'] + decimal_pad2(
            seconds,
        )
    } else {
        decimal_pad2(minutes) + seq![':'] + decimal_pad2(seconds)
    }
}

/// Render a whole number of elapsed seconds as `MM:SS` or `HH:MM:SS`.
pub fn format_elapsed(total_seconds: u64) -> (text: String)
    ensures
        text@ == elapsed_text(total_seconds as nat),
{
    let hours = total_seconds / 3600;
    let minutes = (total_seconds % 3600) / 60;
    let seconds = total_seconds % 60;
    let mut text = String::new();
    if hours > 0 {
        push_decimal_pad2(&mut text, hours);
        text.append(":");
        proof {
            reveal_strlit(":");
        }
        push_decimal_pad2(&mut text, minutes);
    } else {
        push_decimal_pad2(&mut text, minutes);
    }
    text.append(":");
    proof {
        reveal_strlit(":");
    }
    push_decimal_pad2(&mut text, seconds);
    assert(text@ =~= elapsed_text(total_seconds as nat));
    text
}

pub open spec fn kib() -> nat {
    1024
}

pub open spec fn mib() -> nat {
    1024 * 1024
}

pub open spec fn gib() -> nat {
    1024 * 1024 * 1024
}

/// `bytes / unit` in tenths, rounded to the nearest tenth with ties to even.
pub open spec fn rounded_tenths(bytes: nat, unit: nat) -> nat {
    let q = (10 * bytes) / unit;
    let r = (10 * bytes) % unit;
    if 2 * r > unit || (2 * r == unit && q % 2 == 1) {
        q + 1
    } else {
        q
    }
}

/// `bytes / unit` with one decimal place.
pub open spec fn one_decimal(bytes: nat, unit: nat) -> Seq<char> {
    let t = rounded_tenths(bytes, unit);
    decimal(t / 10) + seq!['.'] + decimal(t % 10)
}

/// A byte count in the largest binary unit it reaches, with one decimal place.
pub open spec fn bytes_text(bytes: nat) -> Seq<char> {
    if bytes >= gib() {
        one_decimal(bytes, gib()) + " GiB"@
    } else if bytes >= mib() {
        one_decimal(bytes, mib()) + " MiB"@
    } else if bytes >= kib() {
        one_decimal(bytes, kib()) + " KiB"@
    } else {
        decimal(bytes) + " B"@
    }
}

fn push_one_decimal(text: &mut String, bytes: u64, unit: u64)
    requires
        unit == kib() || unit == mib() || unit == gib(),
    ensures
        final(text)@ == old(text)@ + one_decimal(bytes as nat, unit as nat),
{
    let scaled: u128 = (bytes as u128) * 10;
    let q: u128 = scaled / (unit as u128);
    let r: u128 = scaled % (unit as u128);
    let tenths: u128 = if 2 * r > unit as u128 || (2 * r == unit as u128 && q % 2 == 1) {
        q + 1
    } else {
        q
    };
    assert(tenths == rounded_tenths(bytes as nat, unit as nat));
    assert(q <= scaled) by (nonlinear_arith)
        requires
            q == scaled / (unit as u128),
            unit >= 1,
    ;
    let whole = (tenths / 10) as u64;
    let fraction = (tenths % 10) as u64;
    push_decimal(text, whole);
    text.append(".");
    proof {
        reveal_strlit(".");
    }
    push_decimal(text, fraction);
    assert(text@ =~= old(text)@ + one_decimal(bytes as nat, unit as nat));
}

/// Render a byte count with binary units.
pub fn format_bytes(bytes: u64) -> (text: String)
    ensures
        text@ == bytes_text(bytes as nat),
{
    let kib: u64 = 1024;
    let mib: u64 = 1024 * kib;
    let gib: u64 = 1024 * mib;
    let mut text = String::new();
    if bytes >= gib {
        push_one_decimal(&mut text, bytes, gib);
        text.append(" GiB");
    } else if bytes >= mib {
        push_one_decimal(&mut text, bytes, mib);
        text.append(" MiB");
    } else if bytes >= kib {
        push_one_decimal(&mut text, bytes, kib);
        text.append(" KiB");
    } else {
        push_decimal(&mut text, bytes);
        text.append(" B");
    }
    assert(text@ =~= bytes_text(bytes as nat));
    text
}

/// The share of `total_rows` that `rows` represents, in whole percent rounded down.
pub open spec fn spec_progress_percent(rows: nat, total_rows: nat) -> nat {
    if total_rows == 0 {
        0
    } else {
        rows * 100 / total_rows
    }
}

/// Return the whole-percent share of `rows` in `total_rows`, or 0 when the total is unknown.
///
/// The share is truncated to 64 bits, which only matters when `rows` exceeds the total more
/// than a hundred-million-million-fold.
pub fn format_progress_percent(rows: u64, total_rows: u64) -> (percent: u64)
    ensures
        percent == spec_progress_percent(rows as nat, total_rows as nat) % 0x1_0000_0000_0000_0000,
        rows <= total_rows ==> percent == spec_progress_percent(rows as nat, total_rows as nat)
            && percent <= 100,
{
    if total_rows == 0 {
        return 0;
    }
    let product: u128 = (rows as u128) * 100;
    let p: u128 = product / (total_rows as u128);
    assert(p <= product) by (nonlinear_arith)
        requires
            p == product / (total_rows as u128),
            total_rows >= 1,
    ;
    proof {
        if rows <= total_rows {
            assert(p <= 100) by (nonlinear_arith)
                requires
                    p == product / (total_rows as u128),
                    product == rows * 100,
                    rows <= total_rows,
                    total_rows >= 1,
            ;
        }
    }
    (p % 0x1_0000_0000_0000_0000) as u64
}

pub open spec fn spills_text(metrics: PlanProgressMetrics) -> Seq<char> {
    " — spills "@ + decimal(metrics.spill_count as nat) + " ("@ + bytes_text(
        metrics.spilled_bytes as nat,
    ) + ")"@
}

pub open spec fn has_spills(metrics: PlanProgressMetrics) -> bool {
    metrics.spill_count > 0 || metrics.spilled_bytes > 0
}

/// The activity shown once all input rows were read.
pub open spec fn post_read_activity_text(post_read_message: Seq<char>, metrics: PlanProgressMetrics)
    -> Seq<char> {
    (if has_spills(metrics) {
        post_read_message + spills_text(metrics)
    } else {
        post_read_message + " in memory"@
    }) + (if metrics.elapsed_compute_nanos > 0 {
        " — compute "@ + elapsed_text(metrics.elapsed_compute_nanos as nat / 1_000_000_000)
    } else {
        Seq::<char>::empty()
    })
}

fn push_spills(message: &mut String, metrics: PlanProgressMetrics)
    ensures
        final(message)@ == old(message)@ + spills_text(metrics),
{
    message.append(" — spills ");
    push_decimal(message, metrics.spill_count);
    message.append(" (");
    let bytes = format_bytes(metrics.spilled_bytes);
    message.append(bytes.as_str());
    message.append(")");
    assert(message@ =~= old(message)@ + spills_text(metrics));
}

/// Render the post-read activity: spill or in-memory status, then compute time when known.
pub fn format_post_read_activity(post_read_message: &str, metrics: PlanProgressMetrics) -> (text:
    String)
    ensures
        text@ == post_read_activity_text(post_read_message@, metrics),
{
    let mut message = String::new();
    message.append(post_read_message);
    if metrics.spill_count > 0 || metrics.spilled_bytes > 0 {
        push_spills(&mut message, metrics);
    } else {
        message.append(" in memory");
    }
    if metrics.elapsed_compute_nanos > 0 {
        message.append(" — compute ");
        let elapsed = format_elapsed(metrics.elapsed_compute_nanos / 1_000_000_000);
        message.append(elapsed.as_str());
    }
    assert(message@ =~= post_read_activity_text(post_read_message@, metrics));
    message
}

/// The status line of a metric-driven stage.
pub open spec fn metric_progress_text(
    base_message: Seq<char>,
    post_read_message: Seq<char>,
    metrics: PlanProgressMetrics,
    total_input_rows: u64,
    allow_sink_rows: bool,
) -> Seq<char> {
    if allow_sink_rows && metrics.rows_written > 0 {
        let rows_written = if total_input_rows > 0 {
            min_u64(metrics.rows_written, total_input_rows)
        } else {
            metrics.rows_written
        };
        if total_input_rows > 0 {
            base_message + " — writing "@ + decimal(rows_written as nat) + "/"@ + decimal(
                total_input_rows as nat,
            ) + " rows ("@ + decimal(
                spec_progress_percent(rows_written as nat, total_input_rows as nat),
            ) + "%)"@
        } else {
            base_message + " — writing "@ + decimal(rows_written as nat) + " rows"@
        }
    } else {
        let message = if metrics.rows_read == 0 {
            base_message + " — scanning source"@
        } else if total_input_rows > 0 && metrics.rows_read < total_input_rows {
            base_message
        } else if total_input_rows > 0 {
            base_message + " — "@ + post_read_activity_text(post_read_message, metrics)
        } else {
            base_message
        };
        if (total_input_rows == 0 || metrics.rows_read < total_input_rows) && has_spills(
            metrics,
        ) {
            message + spills_text(metrics)
        } else {
            message
        }
    }
}

/// Render the status line of a metric-driven stage from its aggregated plan metrics.
///
/// Written rows take precedence when `allow_sink_rows` is set; otherwise the line reports the
/// scan, the post-read activity, and spills while input is still being read.
pub fn format_metric_progress_message(
    base_message: &str,
    post_read_message: &str,
    metrics: PlanProgressMetrics,
    total_input_rows: u64,
    allow_sink_rows: bool,
) -> (text: String)
    ensures
        text@ == metric_progress_text(
            base_message@,
            post_read_message@,
            metrics,
            total_input_rows,
            allow_sink_rows,
        ),
{
    if allow_sink_rows && metrics.rows_written > 0 {
        let rows_written = if total_input_rows > 0 {
            if metrics.rows_written < total_input_rows {
                metrics.rows_written
            } else {
                total_input_rows
            }
        } else {
            metrics.rows_written
        };
        let mut message = String::new();
        message.append(base_message);
        message.append(" — writing ");
        push_decimal(&mut message, rows_written);
        if total_input_rows > 0 {
            message.append("/");
            push_decimal(&mut message, total_input_rows);
            message.append(" rows (");
            push_decimal(&mut message, format_progress_percent(rows_written, total_input_rows));
            message.append("%)");
        } else {
            message.append(" rows");
        }
        assert(message@ =~= metric_progress_text(
            base_message@,
            post_read_message@,
            metrics,
            total_input_rows,
            allow_sink_rows,
        ));
        return message;
    }
    let mut message = String::new();
    message.append(base_message);
    if metrics.rows_read == 0 {
        message.append(" — scanning source");
    } else if total_input_rows > 0 && metrics.rows_read < total_input_rows {
    } else if total_input_rows > 0 {
        message.append(" — ");
        let activity = format_post_read_activity(post_read_message, metrics);
        message.append(activity.as_str());
    }
    if (total_input_rows == 0 || metrics.rows_read < total_input_rows) && (metrics.spill_count > 0
        || metrics.spilled_bytes > 0) {
        push_spills(&mut message, metrics);
    }
    assert(message@ =~= metric_progress_text(
        base_message@,
        post_read_message@,
        metrics,
        total_input_rows,
        allow_sink_rows,
    ));
    message
}

/// The changes an aggregate-stage progress bar needs for one metrics sample.
pub struct MetricCountBarUpdate {
    /// A new bar position, when the input size is known.
    pub position: Option<u64>,
    /// The message to show.
    pub message: String,
}

/// Derive aggregate-stage progress from physical-plan metrics.
pub fn plan_metric_count_bar(
    base_message: &str,
    post_read_message: &str,
    metrics: PlanProgressMetrics,
    total_input_rows: u64,
) -> (update: MetricCountBarUpdate)
    ensures
        update.position == (if total_input_rows > 0 {
            Some(min_u64(metrics.rows_read, total_input_rows))
        } else {
            None
        }),
        update.message@ == metric_progress_text(
            base_message@,
            post_read_message@,
            metrics,
            total_input_rows,
            false,
        ),
{
    let position = if total_input_rows > 0 {
        Some(
            if metrics.rows_read < total_input_rows {
                metrics.rows_read
            } else {
                total_input_rows
            },
        )
    } else {
        None
    };
    MetricCountBarUpdate {
        position,
        message: format_metric_progress_message(
            base_message,
            post_read_message,
            metrics,
            total_input_rows,
            false,
        ),
    }
}

/// The metrics one physical-plan node reports, each absent when the node does not track it.
#[derive(Clone, Copy, Debug, PartialEq, Eq)]
pub struct PlanNodeMetrics {
    pub spill_count: Option<u64>,
    pub spilled_bytes: Option<u64>,
    pub elapsed_compute_nanos: Option<u64>,
    /// The sum of the node's written-row counters.
    pub sink_rows: Option<u64>,
    pub output_rows: Option<u64>,
}

/// A physical-plan tree reduced to the metrics that progress reporting reads.
pub struct PlanProgressNode {
    /// The node's metrics, absent when the node exposes none.
    pub metrics: Option<PlanNodeMetrics>,
    pub children: Vec<PlanProgressNode>,
}

/// Progress totals of a subtree, in unbounded integers.
pub struct ProgressTotals {
    pub rows_read: nat,
    pub rows_written: nat,
    pub spill_count: nat,
    pub spilled_bytes: nat,
    pub elapsed_compute_nanos: nat,
    /// Whether some node of the subtree reports output rows.
    pub has_row_metric: bool,
}

pub open spec fn opt_nat(v: Option<u64>) -> nat {
    match v {
        Some(x) => x as nat,
        None => 0,
    }
}

pub open spec fn empty_totals() -> ProgressTotals {
    ProgressTotals {
        rows_read: 0,
        rows_written: 0,
        spill_count: 0,
        spilled_bytes: 0,
        elapsed_compute_nanos: 0,
        has_row_metric: false,
    }
}

pub open spec fn add_totals(a: ProgressTotals, b: ProgressTotals) -> ProgressTotals {
    ProgressTotals {
        rows_read: a.rows_read + b.rows_read,
        rows_written: a.rows_written + b.rows_written,
        spill_count: a.spill_count + b.spill_count,
        spilled_bytes: a.spilled_bytes + b.spilled_bytes,
        elapsed_compute_nanos: a.elapsed_compute_nanos + b.elapsed_compute_nanos,
        has_row_metric: a.has_row_metric || b.has_row_metric,
    }
}

/// The totals of a node's own metrics, given whether a descendant already reports output rows.
/// Rows are read where row counting starts: only a node without row-reporting descendants adds
/// its output rows to the rows read.
pub open spec fn own_totals(metrics: Option<PlanNodeMetrics>, child_has_row_metric: bool)
    -> ProgressTotals {
    match metrics {
        Some(m) => ProgressTotals {
            rows_read: if m.output_rows is Some && !child_has_row_metric {
                opt_nat(m.output_rows)
            } else {
                0
            },
            rows_written: opt_nat(m.sink_rows),
            spill_count: opt_nat(m.spill_count),
            spilled_bytes: opt_nat(m.spilled_bytes),
            elapsed_compute_nanos: opt_nat(m.elapsed_compute_nanos),
            has_row_metric: m.output_rows is Some,
        },
        None => empty_totals(),
    }
}

/// The totals of a whole subtree.
pub open spec fn subtree_totals(node: PlanProgressNode) -> ProgressTotals
    decreases node,
{
    let children = children_totals(node.children@);
    add_totals(children, own_totals(node.metrics, children.has_row_metric))
}

/// The totals of a sequence of sibling subtrees.
pub open spec fn children_totals(children: Seq<PlanProgressNode>) -> ProgressTotals
    decreases children,
{
    if children.len() == 0 {
        empty_totals()
    } else {
        add_totals(
            children_totals(children.subrange(0, children.len() - 1)),
            subtree_totals(children[children.len() - 1]),
        )
    }
}

pub open spec fn metrics_plus(m: PlanProgressMetrics, t: ProgressTotals) -> ProgressTotals {
    ProgressTotals {
        rows_read: (m.rows_read + t.rows_read) as nat,
        rows_written: (m.rows_written + t.rows_written) as nat,
        spill_count: (m.spill_count + t.spill_count) as nat,
        spilled_bytes: (m.spilled_bytes + t.spilled_bytes) as nat,
        elapsed_compute_nanos: (m.elapsed_compute_nanos + t.elapsed_compute_nanos) as nat,
        has_row_metric: t.has_row_metric,
    }
}

pub open spec fn fits_u64(t: ProgressTotals) -> bool {
    &&& t.rows_read <= u64::MAX
    &&& t.rows_written <= u64::MAX
    &&& t.spill_count <= u64::MAX
    &&& t.spilled_bytes <= u64::MAX
    &&& t.elapsed_compute_nanos <= u64::MAX
}

pub open spec fn same_counts(m: PlanProgressMetrics, t: ProgressTotals) -> bool {
    &&& m.rows_read == t.rows_read
    &&& m.rows_written == t.rows_written
    &&& m.spill_count == t.spill_count
    &&& m.spilled_bytes == t.spilled_bytes
    &&& m.elapsed_compute_nanos == t.elapsed_compute_nanos
}

proof fn lemma_children_prefix_le(children: Seq<PlanProgressNode>, i: nat)
    requires
        i <= children.len(),
    ensures
        ({
            let p = children_totals(children.subrange(0, i as int));
            let t = children_totals(children);
            &&& p.rows_read <= t.rows_read
            &&& p.rows_written <= t.rows_written
            &&& p.spill_count <= t.spill_count
            &&& p.spilled_bytes <= t.spilled_bytes
            &&& p.elapsed_compute_nanos <= t.elapsed_compute_nanos
        }),
    decreases children.len(),
{
    if i == children.len() {
        assert(children.subrange(0, i as int) =~= children);
    } else {
        let shorter = children.subrange(0, children.len() - 1);
        lemma_children_prefix_le(shorter, i);
        assert(shorter.subrange(0, i as int) =~= children.subrange(0, i as int));
    }
}

/// Add the metrics of a subtree to `metrics`, children first, and return whether the subtree
/// reports output rows.
pub fn accumulate_plan_progress(plan: &PlanProgressNode, metrics: &mut PlanProgressMetrics) -> (has_row_metric: bool)
    requires
        fits_u64(metrics_plus(*old(metrics), subtree_totals(*plan))),
    ensures
        same_counts(*final(metrics), metrics_plus(*old(metrics), subtree_totals(*plan))),
        has_row_metric == subtree_totals(*plan).has_row_metric,
    decreases plan,
{
    let ghost start = *metrics;
    let ghost children = plan.children@;
    let mut child_has_row_metric = false;
    let mut i: usize = 0;
    proof {
        assert(children.subrange(0, 0) =~= Seq::<PlanProgressNode>::empty());
        lemma_children_prefix_le(children, children.len());
        assert(children.subrange(0, children.len() as int) =~= children);
    }
    while i < plan.children.len()
        invariant
            children == plan.children@,
            i <= children.len(),
            fits_u64(metrics_plus(start, subtree_totals(*plan))),
            same_counts(
                *metrics,
                metrics_plus(start, children_totals(children.subrange(0, i as int))),
            ),
            child_has_row_metric == children_totals(children.subrange(0, i as int)).has_row_metric,
        decreases children.len() - i,
    {
        let ghost prefix = children.subrange(0, i as int);
        let ghost next = children.subrange(0, i + 1);
        proof {
            assert(next.subrange(0, i as int) =~= prefix);
            assert(next[i as int] == children[i as int]);
            lemma_children_prefix_le(children, (i + 1) as nat);
        }
        let child_rows = accumulate_plan_progress(&plan.children[i], metrics);
        child_has_row_metric = child_has_row_metric || child_rows;
        i = i + 1;
    }
    proof {
        assert(children.subrange(0, children.len() as int) =~= children);
    }
    let mut plan_has_row_metric = false;
    match &plan.metrics {
        Some(plan_metrics) => {
            metrics.spill_count = metrics.spill_count + match plan_metrics.spill_count {
                Some(v) => v,
                None => 0,
            };
            metrics.spilled_bytes = metrics.spilled_bytes + match plan_metrics.spilled_bytes {
                Some(v) => v,
                None => 0,
            };
            metrics.elapsed_compute_nanos = metrics.elapsed_compute_nanos
                + match plan_metrics.elapsed_compute_nanos {
                Some(v) => v,
                None => 0,
            };
            match plan_metrics.sink_rows {
                Some(rows_written) => {
                    metrics.rows_written = metrics.rows_written + rows_written;
                },
                None => {},
            }
            match plan_metrics.output_rows {
                Some(output_rows) => {
                    plan_has_row_metric = true;
                    if !child_has_row_metric {
                        metrics.rows_read = metrics.rows_read + output_rows;
                    }
                },
                None => {},
            }
        },
        None => {},
    }
    child_has_row_metric || plan_has_row_metric
}

/// Collect progress metrics from a complete physical-plan tree.
pub fn collect_plan_progress(plan: &PlanProgressNode) -> (metrics: PlanProgressMetrics)
    requires
        fits_u64(subtree_totals(*plan)),
    ensures
        same_counts(metrics, subtree_totals(*plan)),
{
    let mut metrics = PlanProgressMetrics::default();
    accumulate_plan_progress(plan, &mut metrics);
    metrics
}

/// Any written row puts a final write plan in its writing phase, whatever has been read; with
/// nothing written, a complete read of a known input is the sorting phase, and anything less is
/// still the reading phase.
pub proof fn lemma_written_rows_mean_writing(metrics: PlanProgressMetrics, total_input_rows: u64)
    ensures
        metrics.rows_written > 0 ==> spec_write_stage_phase(metrics, total_input_rows)
            == WriteStagePhase::Writing,
        metrics.rows_written == 0 && total_input_rows > 0 && metrics.rows_read >= total_input_rows
            ==> spec_write_stage_phase(metrics, total_input_rows) == WriteStagePhase::Sorting,
        metrics.rows_written == 0 && (total_input_rows == 0 || metrics.rows_read < total_input_rows)
            ==> spec_write_stage_phase(metrics, total_input_rows) == WriteStagePhase::Reading,
{
}

/// Whether a plan node itself reports output rows.
pub open spec fn node_reports_rows(node: PlanProgressNode) -> bool {
    node.metrics matches Some(m) && m.output_rows is Some
}

/// Whether some node of a subtree reports output rows.
pub open spec fn subtree_reports_rows(node: PlanProgressNode) -> bool
    decreases node,
{
    node_reports_rows(node) || children_report_rows(node.children@)
}

/// Whether some node below one of `children` (or one of them) reports output rows.
pub open spec fn children_report_rows(children: Seq<PlanProgressNode>) -> bool
    decreases children,
{
    children.len() > 0 && (children_report_rows(children.subrange(0, children.len() - 1))
        || subtree_reports_rows(children[children.len() - 1]))
}

proof fn lemma_subtree_row_reporting(node: PlanProgressNode)
    ensures
        subtree_totals(node).has_row_metric == subtree_reports_rows(node),
        !subtree_reports_rows(node) ==> subtree_totals(node).rows_read == 0,
    decreases node,
{
    lemma_children_row_reporting(node.children@);
}

proof fn lemma_children_row_reporting(children: Seq<PlanProgressNode>)
    ensures
        children_totals(children).has_row_metric == children_report_rows(children),
        !children_report_rows(children) ==> children_totals(children).rows_read == 0,
    decreases children,
{
    if children.len() > 0 {
        lemma_children_row_reporting(children.subrange(0, children.len() - 1));
        lemma_subtree_row_reporting(children[children.len() - 1]);
    }
}

/// Rows are read where row counting starts. A node below which some node reports output rows
/// adds nothing to the rows read: the plan's rows read are its children's. A node below which
/// no node reports rows contributes its own output rows, if it reports any, and nothing else.
pub proof fn lemma_rows_read_count_where_rows_start(plan: PlanProgressNode)
    ensures
        children_report_rows(plan.children@) ==> subtree_totals(plan).rows_read == children_totals(
            plan.children@,
        ).rows_read,
        !children_report_rows(plan.children@) ==> subtree_totals(plan).rows_read == (if node_reports_rows(
            plan,
        ) {
            opt_nat(plan.metrics->Some_0.output_rows)
        } else {
            0
        }),
{
    lemma_children_row_reporting(plan.children@);
}

/// The metrics of every node of a subtree, children's subtrees first.
pub open spec fn plan_node_metrics(node: PlanProgressNode) -> Seq<Option<PlanNodeMetrics>>
    decreases node,
{
    children_node_metrics(node.children@).push(node.metrics)
}

pub open spec fn children_node_metrics(children: Seq<PlanProgressNode>) -> Seq<Option<PlanNodeMetrics>>
    decreases children,
{
    if children.len() == 0 {
        Seq::empty()
    } else {
        children_node_metrics(children.subrange(0, children.len() - 1)) + plan_node_metrics(
            children[children.len() - 1],
        )
    }
}

/// A node's spill count, spilled bytes, compute time, or written rows (fields 0 to 3), zero
/// where the node does not report it.
pub open spec fn node_counter(metrics: Option<PlanNodeMetrics>, field: int) -> nat {
    match metrics {
        Some(m) => opt_nat(
            if field == 0 {
                m.spill_count
            } else if field == 1 {
                m.spilled_bytes
            } else if field == 2 {
                m.elapsed_compute_nanos
            } else {
                m.sink_rows
            },
        ),
        None => 0,
    }
}

/// The sum of one counter over a sequence of node metrics.
pub open spec fn counter_sum(nodes: Seq<Option<PlanNodeMetrics>>, field: int) -> nat
    decreases nodes.len(),
{
    if nodes.len() == 0 {
        0
    } else {
        counter_sum(nodes.drop_last(), field) + node_counter(nodes.last(), field)
    }
}

pub open spec fn totals_counter(t: ProgressTotals, field: int) -> nat {
    if field == 0 {
        t.spill_count
    } else if field == 1 {
        t.spilled_bytes
    } else if field == 2 {
        t.elapsed_compute_nanos
    } else {
        t.rows_written
    }
}

proof fn lemma_counter_sum_append(a: Seq<Option<PlanNodeMetrics>>, b: Seq<Option<PlanNodeMetrics>>, field: int)
    ensures
        counter_sum(a + b, field) == counter_sum(a, field) + counter_sum(b, field),
    decreases b.len(),
{
    if b.len() == 0 {
        assert(a + b =~= a);
    } else {
        lemma_counter_sum_append(a, b.drop_last(), field);
        assert((a + b).drop_last() =~= a + b.drop_last());
    }
}

proof fn lemma_subtree_counters(node: PlanProgressNode, field: int)
    ensures
        totals_counter(subtree_totals(node), field) == counter_sum(plan_node_metrics(node), field),
    decreases node,
{
    lemma_children_counters(node.children@, field);
    let nodes = plan_node_metrics(node);
    assert(nodes.drop_last() =~= children_node_metrics(node.children@));
}

proof fn lemma_children_counters(children: Seq<PlanProgressNode>, field: int)
    ensures
        totals_counter(children_totals(children), field) == counter_sum(children_node_metrics(children), field),
    decreases children,
{
    if children.len() > 0 {
        let prefix = children.subrange(0, children.len() - 1);
        lemma_children_counters(prefix, field);
        lemma_subtree_counters(children[children.len() - 1], field);
        lemma_counter_sum_append(
            children_node_metrics(prefix),
            plan_node_metrics(children[children.len() - 1]),
            field,
        );
    }
}

/// Spills, spilled bytes, compute time, and written rows of a plan are each the sum, over every
/// node of the plan, of what that node reports (zero where it reports nothing).
pub proof fn lemma_plan_counters_sum_over_nodes(plan: PlanProgressNode)
    ensures
        subtree_totals(plan).spill_count == counter_sum(plan_node_metrics(plan), 0),
        subtree_totals(plan).spilled_bytes == counter_sum(plan_node_metrics(plan), 1),
        subtree_totals(plan).elapsed_compute_nanos == counter_sum(plan_node_metrics(plan), 2),
        subtree_totals(plan).rows_written == counter_sum(plan_node_metrics(plan), 3),
{
    lemma_subtree_counters(plan, 0);
    lemma_subtree_counters(plan, 1);
    lemma_subtree_counters(plan, 2);
    lemma_subtree_counters(plan, 3);
}

/// The output rows of the nodes where row counting starts: row-reporting nodes with no
/// row-reporting node below them, in children-first order.
pub open spec fn row_start_counts(node: PlanProgressNode) -> Seq<nat>
    decreases node,
{
    if children_report_rows(node.children@) {
        children_row_start_counts(node.children@)
    } else if node_reports_rows(node) {
        seq![opt_nat(node.metrics->Some_0.output_rows)]
    } else {
        Seq::empty()
    }
}

pub open spec fn children_row_start_counts(children: Seq<PlanProgressNode>) -> Seq<nat>
    decreases children,
{
    if children.len() == 0 {
        Seq::empty()
    } else {
        children_row_start_counts(children.subrange(0, children.len() - 1)) + row_start_counts(
            children[children.len() - 1],
        )
    }
}

pub open spec fn nat_sum(values: Seq<nat>) -> nat
    decreases values.len(),
{
    if values.len() == 0 {
        0
    } else {
        nat_sum(values.drop_last()) + values.last()
    }
}

proof fn lemma_nat_sum_append(a: Seq<nat>, b: Seq<nat>)
    ensures
        nat_sum(a + b) == nat_sum(a) + nat_sum(b),
    decreases b.len(),
{
    if b.len() == 0 {
        assert(a + b =~= a);
    } else {
        lemma_nat_sum_append(a, b.drop_last());
        assert((a + b).drop_last() =~= a + b.drop_last());
    }
}

proof fn lemma_subtree_rows_read(node: PlanProgressNode)
    ensures
        subtree_totals(node).rows_read == nat_sum(row_start_counts(node)),
    decreases node,
{
    lemma_children_rows_read(node.children@);
    lemma_children_row_reporting(node.children@);
    if !children_report_rows(node.children@) && node_reports_rows(node) {
        let one = seq![opt_nat(node.metrics->Some_0.output_rows)];
        assert(one.drop_last() =~= Seq::<nat>::empty());
        assert(nat_sum(Seq::<nat>::empty()) == 0);
        assert(nat_sum(one) == opt_nat(node.metrics->Some_0.output_rows));
    }
    if !children_report_rows(node.children@) {
        assert(children_totals(node.children@).rows_read == 0);
    }
    lemma_rows_read_count_where_rows_start(node);
}

proof fn lemma_children_rows_read(children: Seq<PlanProgressNode>)
    ensures
        children_totals(children).rows_read == nat_sum(children_row_start_counts(children)),
    decreases children,
{
    if children.len() > 0 {
        let prefix = children.subrange(0, children.len() - 1);
        lemma_children_rows_read(prefix);
        lemma_subtree_rows_read(children[children.len() - 1]);
        lemma_nat_sum_append(
            children_row_start_counts(prefix),
            row_start_counts(children[children.len() - 1]),
        );
    }
}

/// The rows read of a plan are the output rows of the nodes where row counting starts, the
/// row-reporting nodes with no row-reporting node below them, each counted once.
pub proof fn lemma_rows_read_sum_over_row_starts(plan: PlanProgressNode)
    ensures
        subtree_totals(plan).rows_read == nat_sum(row_start_counts(plan)),
{
    lemma_subtree_rows_read(plan);
}

} // verus!
