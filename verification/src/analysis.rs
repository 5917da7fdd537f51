//! Decisions of the geometry analysis that precedes optimized output: where the full extent
//! comes from, which extent aggregates a query computes, and which Z/M flags apply.

use vstd::prelude::*;
use crate::expr::{POINT_X_COLUMN, POINT_Y_COLUMN, TEMP_XMAX_COLUMN, TEMP_XMIN_COLUMN, TEMP_YMAX_COLUMN, TEMP_YMIN_COLUMN};
use crate::pbf::GeometryFamily;
use crate::pipeline::RowRange;
use crate::text::text_eq;

verus! {

/// How the analysis of one job obtains its full extent.
#[derive(Clone, Copy, Debug, PartialEq, Eq, Structural)]
pub enum AnalysisRoute {
    /// Complete source metadata in the output coordinate space supplies it.
    Metadata,
    /// An aggregate over the narrow helper projection computes it (multi-file output).
    Helper,
    /// An aggregate that decodes geometry computes it (single-file output).
    Display,
}

/// Choose the analysis route: source metadata when it can be used, else the helper projection
/// for multi-file output, else geometry decoding.
pub fn analysis_route(metadata_available: bool, output_parts: usize) -> (route: AnalysisRoute)
    ensures
        route == (if metadata_available {
            AnalysisRoute::Metadata
        } else if output_parts > 1 {
            AnalysisRoute::Helper
        } else {
            AnalysisRoute::Display
        }),
{
    if metadata_available {
        AnalysisRoute::Metadata
    } else if output_parts > 1 {
        AnalysisRoute::Helper
    } else {
        AnalysisRoute::Display
    }
}

/// Whether source metadata may supply the analysis: only when every input row is selected and
/// the output keeps the source coordinate space, so that the recorded extent is exact.
pub fn metadata_fast_path_allowed(row_range: RowRange, requires_reprojection: bool) -> (allowed: bool)
    ensures
        allowed == (row_range.start == 0 && row_range.num is None && !requires_reprojection),
{
    row_range.is_full() && !requires_reprojection
}

/// Which aggregate an extent bound takes.
#[derive(Clone, Copy, Debug, PartialEq, Eq, Structural)]
pub enum AggregateKind {
    Min,
    Max,
}

/// One extent aggregate: the minimum or maximum of a column, under an output name.
#[derive(Clone, Debug, PartialEq, Eq)]
pub struct ExtentAggregate {
    pub kind: AggregateKind,
    pub column: String,
    pub alias: String,
}

pub open spec fn is_aggregate(a: ExtentAggregate, kind: AggregateKind, column: Seq<char>, alias: Seq<char>) -> bool {
    a.kind == kind && a.column@ == column && a.alias@ == alias
}

/// The four aggregates of a full extent: minimum x and y, maximum x and y, named after the
/// temporary bound columns.
pub fn extent_aggregate_expressions(
    xmin_column: &str,
    ymin_column: &str,
    xmax_column: &str,
    ymax_column: &str,
) -> (aggregates: Vec<ExtentAggregate>)
    ensures
        aggregates@.len() == 4,
        is_aggregate(aggregates@[0], AggregateKind::Min, xmin_column@, TEMP_XMIN_COLUMN@),
        is_aggregate(aggregates@[1], AggregateKind::Min, ymin_column@, TEMP_YMIN_COLUMN@),
        is_aggregate(aggregates@[2], AggregateKind::Max, xmax_column@, TEMP_XMAX_COLUMN@),
        is_aggregate(aggregates@[3], AggregateKind::Max, ymax_column@, TEMP_YMAX_COLUMN@),
{
    vec![
        ExtentAggregate {
            kind: AggregateKind::Min,
            column: xmin_column.to_string(),
            alias: TEMP_XMIN_COLUMN.to_string(),
        },
        ExtentAggregate {
            kind: AggregateKind::Min,
            column: ymin_column.to_string(),
            alias: TEMP_YMIN_COLUMN.to_string(),
        },
        ExtentAggregate {
            kind: AggregateKind::Max,
            column: xmax_column.to_string(),
            alias: TEMP_XMAX_COLUMN.to_string(),
        },
        ExtentAggregate {
            kind: AggregateKind::Max,
            column: ymax_column.to_string(),
            alias: TEMP_YMAX_COLUMN.to_string(),
        },
    ]
}

/// The extent columns a geometry family's helper projection provides: x/y for points, the four
/// temporary bounds otherwise.
pub open spec fn helper_extent_columns(family: GeometryFamily) -> Seq<Seq<char>> {
    match family {
        GeometryFamily::Point => seq![POINT_X_COLUMN@, POINT_Y_COLUMN@, POINT_X_COLUMN@, POINT_Y_COLUMN@],
        GeometryFamily::NonPoint => seq![TEMP_XMIN_COLUMN@, TEMP_YMIN_COLUMN@, TEMP_XMAX_COLUMN@, TEMP_YMAX_COLUMN@],
    }
}

/// The extent aggregates over a helper projection of a geometry family.
pub fn helper_extent_aggregates(family: GeometryFamily) -> (aggregates: Vec<ExtentAggregate>)
    ensures
        aggregates@.len() == 4,
        is_aggregate(aggregates@[0], AggregateKind::Min, helper_extent_columns(family)[0], TEMP_XMIN_COLUMN@),
        is_aggregate(aggregates@[1], AggregateKind::Min, helper_extent_columns(family)[1], TEMP_YMIN_COLUMN@),
        is_aggregate(aggregates@[2], AggregateKind::Max, helper_extent_columns(family)[2], TEMP_XMAX_COLUMN@),
        is_aggregate(aggregates@[3], AggregateKind::Max, helper_extent_columns(family)[3], TEMP_YMAX_COLUMN@),
        family == GeometryFamily::NonPoint ==> {
            &&& is_aggregate(aggregates@[0], AggregateKind::Min, TEMP_XMIN_COLUMN@, TEMP_XMIN_COLUMN@)
            &&& is_aggregate(aggregates@[1], AggregateKind::Min, TEMP_YMIN_COLUMN@, TEMP_YMIN_COLUMN@)
            &&& is_aggregate(aggregates@[2], AggregateKind::Max, TEMP_XMAX_COLUMN@, TEMP_XMAX_COLUMN@)
            &&& is_aggregate(aggregates@[3], AggregateKind::Max, TEMP_YMAX_COLUMN@, TEMP_YMAX_COLUMN@)
        },
        family == GeometryFamily::Point ==> {
            &&& is_aggregate(aggregates@[0], AggregateKind::Min, POINT_X_COLUMN@, TEMP_XMIN_COLUMN@)
            &&& is_aggregate(aggregates@[1], AggregateKind::Min, POINT_Y_COLUMN@, TEMP_YMIN_COLUMN@)
            &&& is_aggregate(aggregates@[2], AggregateKind::Max, POINT_X_COLUMN@, TEMP_XMAX_COLUMN@)
            &&& is_aggregate(aggregates@[3], AggregateKind::Max, POINT_Y_COLUMN@, TEMP_YMAX_COLUMN@)
        },
{
    match family {
        GeometryFamily::Point => extent_aggregate_expressions(
            POINT_X_COLUMN,
            POINT_Y_COLUMN,
            POINT_X_COLUMN,
            POINT_Y_COLUMN,
        ),
        GeometryFamily::NonPoint => extent_aggregate_expressions(
            TEMP_XMIN_COLUMN,
            TEMP_YMIN_COLUMN,
            TEMP_XMAX_COLUMN,
            TEMP_YMAX_COLUMN,
        ),
    }
}

/// What source metadata records about its primary geometry column.
#[derive(Clone, Debug, PartialEq, Eq)]
pub struct SourceGeometryInfo {
    pub column: String,
    pub has_z: bool,
    pub has_m: bool,
}

/// The Z/M flags of the analysed geometry column: those the source metadata records for the
/// same column, else neither.
pub fn geometry_dimensions(source: Option<&SourceGeometryInfo>, geometry_column: &str) -> (flags: (
    bool,
    bool,
))
    ensures
        flags == match source {
            Some(g) => if g.column@ == geometry_column@ {
                (g.has_z, g.has_m)
            } else {
                (false, false)
            },
            None => (false, false),
        },
{
    match source {
        Some(g) => {
            if text_eq(g.column.as_str(), geometry_column) {
                (g.has_z, g.has_m)
            } else {
                (false, false)
            }
        },
        None => (false, false),
    }
}

/// The value a feature with bounds `(xmin, ymin, xmax, ymax)` holds in one of the four
/// temporary bound columns.
pub open spec fn bound_column_value(bounds: (int, int, int, int), column: Seq<char>) -> int {
    if column == TEMP_XMIN_COLUMN@ {
        bounds.0
    } else if column == TEMP_YMIN_COLUMN@ {
        bounds.1
    } else if column == TEMP_XMAX_COLUMN@ {
        bounds.2
    } else {
        bounds.3
    }
}

/// The value an aggregate takes over the bounds of the features `rows` (at least one).
pub open spec fn aggregate_over(a: ExtentAggregate, rows: Seq<(int, int, int, int)>) -> int
    decreases rows.len(),
{
    let v = bound_column_value(rows.last(), a.column@);
    if rows.len() <= 1 {
        v
    } else {
        let rest = aggregate_over(a, rows.drop_last());
        match a.kind {
            AggregateKind::Min => if v < rest {
                v
            } else {
                rest
            },
            AggregateKind::Max => if v > rest {
                v
            } else {
                rest
            },
        }
    }
}

proof fn lemma_aggregate_bounds(a: ExtentAggregate, rows: Seq<(int, int, int, int)>)
    requires
        rows.len() >= 1,
    ensures
        forall|i: int|
            0 <= i < rows.len() ==> (a.kind == AggregateKind::Min ==> aggregate_over(a, rows)
                <= bound_column_value(#[trigger] rows[i], a.column@)) && (a.kind == AggregateKind::Max
                ==> aggregate_over(a, rows) >= bound_column_value(rows[i], a.column@)),
    decreases rows.len(),
{
    if rows.len() > 1 {
        lemma_aggregate_bounds(a, rows.drop_last());
        assert forall|i: int| 0 <= i < rows.len() implies (a.kind == AggregateKind::Min
            ==> aggregate_over(a, rows) <= bound_column_value(#[trigger] rows[i], a.column@)) && (
        a.kind == AggregateKind::Max ==> aggregate_over(a, rows) >= bound_column_value(
            rows[i],
            a.column@,
        )) by {
            if i < rows.len() - 1 {
                assert(rows[i] == rows.drop_last()[i]);
            }
        }
    }
}

/// The full extent that the non-point helper aggregates compute contains every feature's
/// bounds: its minima are at most, and its maxima at least, the matching bound of each feature.
pub proof fn lemma_non_point_extent_contains_every_feature(
    aggregates: Seq<ExtentAggregate>,
    rows: Seq<(int, int, int, int)>,
)
    requires
        rows.len() >= 1,
        aggregates.len() == 4,
        is_aggregate(aggregates[0], AggregateKind::Min, TEMP_XMIN_COLUMN@, TEMP_XMIN_COLUMN@),
        is_aggregate(aggregates[1], AggregateKind::Min, TEMP_YMIN_COLUMN@, TEMP_YMIN_COLUMN@),
        is_aggregate(aggregates[2], AggregateKind::Max, TEMP_XMAX_COLUMN@, TEMP_XMAX_COLUMN@),
        is_aggregate(aggregates[3], AggregateKind::Max, TEMP_YMAX_COLUMN@, TEMP_YMAX_COLUMN@),
    ensures
        forall|i: int|
            0 <= i < rows.len() ==> {
                &&& aggregate_over(aggregates[0], rows) <= (#[trigger] rows[i]).0
                &&& aggregate_over(aggregates[1], rows) <= rows[i].1
                &&& aggregate_over(aggregates[2], rows) >= rows[i].2
                &&& aggregate_over(aggregates[3], rows) >= rows[i].3
            },
{
    reveal_strlit("__display_xmin");
    reveal_strlit("__display_ymin");
    reveal_strlit("__display_xmax");
    reveal_strlit("__display_ymax");
    assert(TEMP_YMIN_COLUMN@[10] != TEMP_XMIN_COLUMN@[10]);
    assert(TEMP_XMAX_COLUMN@[12] != TEMP_XMIN_COLUMN@[12]);
    assert(TEMP_XMAX_COLUMN@[10] != TEMP_YMIN_COLUMN@[10]);
    assert(TEMP_YMAX_COLUMN@[10] != TEMP_XMIN_COLUMN@[10]);
    assert(TEMP_YMAX_COLUMN@[12] != TEMP_YMIN_COLUMN@[12]);
    assert(TEMP_YMAX_COLUMN@[10] != TEMP_XMAX_COLUMN@[10]);
    lemma_aggregate_bounds(aggregates[0], rows);
    lemma_aggregate_bounds(aggregates[1], rows);
    lemma_aggregate_bounds(aggregates[2], rows);
    lemma_aggregate_bounds(aggregates[3], rows);
    assert forall|i: int| 0 <= i < rows.len() implies {
        &&& aggregate_over(aggregates[0], rows) <= (#[trigger] rows[i]).0
        &&& aggregate_over(aggregates[1], rows) <= rows[i].1
        &&& aggregate_over(aggregates[2], rows) >= rows[i].2
        &&& aggregate_over(aggregates[3], rows) >= rows[i].3
    } by {
        assert(bound_column_value(rows[i], aggregates[0].column@) == rows[i].0);
        assert(bound_column_value(rows[i], aggregates[1].column@) == rows[i].1);
        assert(bound_column_value(rows[i], aggregates[2].column@) == rows[i].2);
        assert(bound_column_value(rows[i], aggregates[3].column@) == rows[i].3);
    }
}

} // verus!
