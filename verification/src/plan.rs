//! Ordering and range-partition planning for optimized GeoParquet output.
//!
//! Rows are sorted by their display code. Multi-file output additionally assigns each row a
//! range-partition value: the lower bound of the code range its display code falls in, taken
//! from percentile-derived boundaries.

use vstd::prelude::*;
use crate::pbf::{DisplayGeometryType, GeometryFamily};
use crate::text::text_eq;
use crate::expr::{
    DISPLAY_COLUMN, POINT_X_COLUMN, POINT_Y_COLUMN, POINT_Z_CODE_COLUMN, TEMP_XZ_CODE_COLUMN,
};

verus! {

/// Names the range-partition column of point output.
pub const POINT_RANGE_COLUMN: &'static str = "z_order";

/// Names the range-partition column of non-point output.
pub const NON_POINT_RANGE_COLUMN: &'static str = "xz_order";

pub open spec fn spec_sort_column_name(family: GeometryFamily) -> Seq<char> {
    match family {
        GeometryFamily::Point => POINT_Z_CODE_COLUMN@,
        GeometryFamily::NonPoint => TEMP_XZ_CODE_COLUMN@,
    }
}

pub open spec fn spec_partition_column_name(family: GeometryFamily) -> Seq<char> {
    match family {
        GeometryFamily::Point => POINT_RANGE_COLUMN@,
        GeometryFamily::NonPoint => NON_POINT_RANGE_COLUMN@,
    }
}

/// Names the display-code column that rows of a geometry family are sorted by.
pub fn sort_column_name(family: GeometryFamily) -> (name: &'static str)
    ensures
        name@ == spec_sort_column_name(family),
{
    match family {
        GeometryFamily::Point => POINT_Z_CODE_COLUMN,
        GeometryFamily::NonPoint => TEMP_XZ_CODE_COLUMN,
    }
}

/// Names the range-partition column of a geometry family.
pub fn partition_column_name(family: GeometryFamily) -> (name: &'static str)
    ensures
        name@ == spec_partition_column_name(family),
{
    match family {
        GeometryFamily::Point => POINT_RANGE_COLUMN,
        GeometryFamily::NonPoint => NON_POINT_RANGE_COLUMN,
    }
}

/// Whether `name` is among `names`.
pub open spec fn names_contain(names: Seq<String>, name: Seq<char>) -> bool {
    exists|i: int| 0 <= i < names.len() && #[trigger] names[i]@ == name
}

/// Whether a field called `name` occurs among `field_names`.
pub fn contains_name(field_names: &[String], name: &str) -> (found: bool)
    ensures
        found == names_contain(field_names@, name@),
{
    let mut i: usize = 0;
    while i < field_names.len()
        invariant
            i <= field_names@.len(),
            forall|j: int| 0 <= j < i ==> field_names@[j]@ != name@,
        decreases field_names@.len() - i,
    {
        if text_eq(field_names[i].as_str(), name) {
            return true;
        }
        i = i + 1;
    }
    false
}

/// A generated partition column that would overwrite an input column.
#[derive(Clone, Debug, PartialEq, Eq)]
pub struct PartitionColumnConflict {
    /// The conflicting column name.
    pub column: String,
}

impl PartitionColumnConflict {
    /// Describe the conflict.
    pub fn message(&self) -> (message: String)
        ensures
            message@ == "output partition column '"@ + self.column@
                + "' conflicts with an existing input column"@,
    {
        let mut message = String::new();
        message.append("output partition column '");
        message.append(self.column.as_str());
        message.append("' conflicts with an existing input column");
        message
    }
}

/// Refuse a partition column whose name an input field already has.
pub fn validate_partition_column(source_field_names: &[String], partition_column: Option<&str>) -> (result:
    Result<(), PartitionColumnConflict>)
    ensures
        match partition_column {
            Some(c) => if names_contain(source_field_names@, c@) {
                result matches Err(e) && e.column@ == c@
            } else {
                result is Ok
            },
            None => result is Ok,
        },
{
    match partition_column {
        Some(c) => {
            if contains_name(source_field_names, c) {
                Err(PartitionColumnConflict { column: c.to_string() })
            } else {
                Ok(())
            }
        },
        None => Ok(()),
    }
}

/// One branch of a range-partition expression: rows whose code is below `below` get `value`.
#[derive(Clone, Copy, Debug, PartialEq, Eq, Structural)]
pub struct RangeBranch {
    pub below: u64,
    pub value: u64,
}

/// A range-partition expression over a code column: the first branch whose bound exceeds the
/// row's code gives the partition value, and `otherwise` applies where none does.
#[derive(Clone, Debug, PartialEq, Eq)]
pub struct RangePartitionExpr {
    pub column: String,
    pub branches: Vec<RangeBranch>,
    pub otherwise: u64,
}

/// The value that `branches`, then `otherwise`, give a row with display code `code`.
pub open spec fn eval_branches(branches: Seq<RangeBranch>, otherwise: u64, code: u64) -> u64
    decreases branches.len(),
{
    if branches.len() == 0 {
        otherwise
    } else if code < branches[0].below {
        branches[0].value
    } else {
        eval_branches(branches.drop_first(), otherwise, code)
    }
}

/// The range-partition value of `code` for ranges starting at `min_value` and at each of the
/// `boundaries`: the start of the last range whose boundary `code` has reached.
pub open spec fn range_value(min_value: u64, boundaries: Seq<u64>, code: u64) -> u64
    decreases boundaries.len(),
{
    if boundaries.len() == 0 {
        min_value
    } else if code < boundaries[0] {
        min_value
    } else {
        range_value(boundaries[0], boundaries.drop_first(), code)
    }
}

/// The branches that `boundaries` give, with `min_value` as the first lower bound.
pub open spec fn spec_range_branches(min_value: u64, boundaries: Seq<u64>) -> Seq<RangeBranch> {
    Seq::new(
        boundaries.len(),
        |i: int|
            RangeBranch {
                below: boundaries[i],
                value: if i == 0 {
                    min_value
                } else {
                    boundaries[i - 1]
                },
            },
    )
}

/// The value of rows beyond every boundary.
pub open spec fn spec_range_otherwise(min_value: u64, boundaries: Seq<u64>) -> u64 {
    if boundaries.len() == 0 {
        min_value
    } else {
        boundaries.last()
    }
}

/// Build the range-partition expression over `sort_column`: the lower bounds are
/// `min_value` followed by the boundaries, and a row gets the lower bound of its range.
pub fn build_range_partition_expr(sort_column: &str, min_value: u64, boundaries: &[u64]) -> (expr:
    RangePartitionExpr)
    ensures
        expr.column@ == sort_column@,
        expr.branches@ == spec_range_branches(min_value, boundaries@),
        expr.otherwise == spec_range_otherwise(min_value, boundaries@),
{
    let mut branches: Vec<RangeBranch> = Vec::new();
    let mut lower: u64 = min_value;
    let mut i: usize = 0;
    while i < boundaries.len()
        invariant
            i <= boundaries@.len(),
            branches@ == spec_range_branches(min_value, boundaries@).subrange(0, i as int),
            lower == if i == 0 {
                min_value
            } else {
                boundaries@[i - 1]
            },
        decreases boundaries@.len() - i,
    {
        branches.push(RangeBranch { below: boundaries[i], value: lower });
        lower = boundaries[i];
        i = i + 1;
        proof {
            assert(branches@ =~= spec_range_branches(min_value, boundaries@).subrange(0, i as int));
        }
    }
    proof {
        assert(branches@ =~= spec_range_branches(min_value, boundaries@));
    }
    RangePartitionExpr { column: sort_column.to_string(), branches, otherwise: lower }
}

/// The built expression assigns each code its range value.
pub proof fn lemma_range_partition_expr_evaluates(min_value: u64, boundaries: Seq<u64>, code: u64)
    ensures
        eval_branches(
            spec_range_branches(min_value, boundaries),
            spec_range_otherwise(min_value, boundaries),
            code,
        ) == range_value(min_value, boundaries, code),
    decreases boundaries.len(),
{
    if boundaries.len() > 0 {
        let rest = boundaries.drop_first();
        lemma_range_partition_expr_evaluates(boundaries[0], rest, code);
        assert(spec_range_branches(min_value, boundaries).drop_first() =~= spec_range_branches(
            boundaries[0],
            rest,
        ));
        if rest.len() > 0 {
            assert(rest.last() == boundaries.last());
        }
    }
}

/// Whether lower bounds never decrease: `min_value` is at most the first boundary and each
/// boundary is at most the next.
pub open spec fn bounds_sorted(min_value: u64, boundaries: Seq<u64>) -> bool {
    &&& forall|i: int, j: int| 0 <= i <= j < boundaries.len() ==> boundaries[i] <= boundaries[j]
    &&& forall|i: int| 0 <= i < boundaries.len() ==> min_value <= #[trigger] boundaries[i]
}

/// With sorted lower bounds, a larger code never gets a smaller partition value, and a code
/// at or above `min_value` gets a partition value at most itself and at least `min_value`.
pub proof fn lemma_range_value_monotonic(min_value: u64, boundaries: Seq<u64>, a: u64, b: u64)
    requires
        bounds_sorted(min_value, boundaries),
        a <= b,
    ensures
        range_value(min_value, boundaries, a) <= range_value(min_value, boundaries, b),
        min_value <= a ==> min_value <= range_value(min_value, boundaries, a) <= a,
    decreases boundaries.len(),
{
    if boundaries.len() > 0 {
        let rest = boundaries.drop_first();
        assert(bounds_sorted(boundaries[0], rest)) by {
            assert forall|i: int| 0 <= i < rest.len() implies boundaries[0] <= #[trigger] rest[i] by {
                assert(rest[i] == boundaries[i + 1]);
            }
        }
        lemma_range_value_monotonic(boundaries[0], rest, a, b);
        lemma_range_value_at_least(boundaries[0], rest, b);
    }
}

proof fn lemma_range_value_at_least(min_value: u64, boundaries: Seq<u64>, code: u64)
    requires
        bounds_sorted(min_value, boundaries),
    ensures
        min_value <= range_value(min_value, boundaries, code),
    decreases boundaries.len(),
{
    if boundaries.len() > 0 {
        let rest = boundaries.drop_first();
        assert(bounds_sorted(boundaries[0], rest)) by {
            assert forall|i: int| 0 <= i < rest.len() implies boundaries[0] <= #[trigger] rest[i] by {
                assert(rest[i] == boundaries[i + 1]);
            }
        }
        lemma_range_value_at_least(boundaries[0], rest, code);
    }
}

/// The number of sort partitions used for a multi-file write of `bucket_count` files: twice
/// the file count, saturating, and at least eight.
pub fn multi_file_sort_partition_count(bucket_count: usize) -> (count: usize)
    ensures
        count == if 2 * bucket_count > usize::MAX {
            usize::MAX as int
        } else if 2 * bucket_count < 8 {
            8
        } else {
            2 * bucket_count
        },
{
    let doubled = match bucket_count.checked_mul(2) {
        Some(d) => d,
        None => usize::MAX,
    };
    if doubled < 8 {
        8
    } else {
        doubled
    }
}

/// One output column of the projection that drops the sort column after sorting.
#[derive(Clone, Debug, PartialEq, Eq)]
pub struct ProjectedColumn {
    /// The index of the column in the sorted input.
    pub index: usize,
    /// The column name, which the projection keeps.
    pub name: String,
}

/// The columns kept when the sort column is dropped: every other field, with its index.
pub open spec fn spec_projection_without(field_names: Seq<String>, sort_column: Seq<char>) -> Seq<
    (int, Seq<char>),
>
    decreases field_names.len(),
{
    if field_names.len() == 0 {
        Seq::empty()
    } else {
        let rest = spec_projection_without(field_names.drop_last(), sort_column);
        let i = field_names.len() - 1;
        if field_names[i]@ == sort_column {
            rest
        } else {
            rest.push((i, field_names[i]@))
        }
    }
}

pub open spec fn projected_view(columns: Seq<ProjectedColumn>) -> Seq<(int, Seq<char>)> {
    columns.map_values(|c: ProjectedColumn| (c.index as int, c.name@))
}

/// Project away the sort column after a partition-local sort, keeping every other field in
/// order under its own name.
pub fn projection_without_sort_column(field_names: &[String], sort_column: &str) -> (columns: Vec<
    ProjectedColumn,
>)
    ensures
        projected_view(columns@) == spec_projection_without(field_names@, sort_column@),
{
    let mut columns: Vec<ProjectedColumn> = Vec::new();
    let mut i: usize = 0;
    while i < field_names.len()
        invariant
            i <= field_names@.len(),
            projected_view(columns@) == spec_projection_without(
                field_names@.subrange(0, i as int),
                sort_column@,
            ),
        decreases field_names@.len() - i,
    {
        let keep = !text_eq(field_names[i].as_str(), sort_column);
        let ghost before = columns@;
        if keep {
            columns.push(ProjectedColumn { index: i, name: field_names[i].clone() });
        }
        proof {
            let prefix = field_names@.subrange(0, i + 1);
            assert(prefix.drop_last() =~= field_names@.subrange(0, i as int));
            assert(prefix[i as int] == field_names@[i as int]);
            if keep {
                assert(projected_view(columns@) =~= projected_view(before).push(
                    (i as int, field_names@[i as int]@),
                ));
            } else {
                assert(columns@ == before);
            }
        }
        i = i + 1;
    }
    proof {
        assert(field_names@.subrange(0, field_names@.len() as int) =~= field_names@);
    }
    columns
}

/// Whether `name` is one of the display columns generated for a geometry family, which the
/// output replaces rather than keeps from the input.
pub open spec fn spec_is_generated_display_output_column(name: Seq<char>, family: GeometryFamily) -> bool {
    match family {
        GeometryFamily::Point => name == POINT_Z_CODE_COLUMN@ || name == POINT_X_COLUMN@ || name
            == POINT_Y_COLUMN@,
        GeometryFamily::NonPoint => name == DISPLAY_COLUMN@,
    }
}

/// Whether `name` is one of the display columns generated for a geometry family.
pub fn is_generated_display_output_column(name: &str, family: GeometryFamily) -> (generated: bool)
    ensures
        generated == spec_is_generated_display_output_column(name@, family),
{
    match family {
        GeometryFamily::Point => text_eq(name, POINT_Z_CODE_COLUMN) || text_eq(
            name,
            POINT_X_COLUMN,
        ) || text_eq(name, POINT_Y_COLUMN),
        GeometryFamily::NonPoint => text_eq(name, DISPLAY_COLUMN),
    }
}

/// A geometry category or dimension that display encoding does not implement.
#[derive(Clone, Copy, Debug, PartialEq, Eq, Structural)]
pub enum UnsupportedGeometry {
    /// Geometries with Z or M values.
    ZmDimensions,
    /// Multipoint geometries.
    MultiPoint,
}

impl UnsupportedGeometry {
    /// Describe the refused geometry.
    pub fn message(&self) -> (message: &'static str)
        ensures
            message@ == match *self {
                UnsupportedGeometry::ZmDimensions => "display optimization does not yet support Z/M geometries"@,
                UnsupportedGeometry::MultiPoint => "display optimization does not yet support multipoint geometries"@,
            },
    {
        match self {
            UnsupportedGeometry::ZmDimensions => "display optimization does not yet support Z/M geometries",
            UnsupportedGeometry::MultiPoint => "display optimization does not yet support multipoint geometries",
        }
    }
}

/// Reject geometry categories and dimensions not implemented by display encoding; Z/M values
/// are reported first.
pub fn ensure_supported(has_z: bool, has_m: bool, geometry_type: DisplayGeometryType) -> (result: Result<
    (),
    UnsupportedGeometry,
>)
    ensures
        (has_z || has_m) ==> result == Err::<(), UnsupportedGeometry>(UnsupportedGeometry::ZmDimensions),
        !(has_z || has_m) && geometry_type == DisplayGeometryType::MultiPoint ==> result == Err::<
            (),
            UnsupportedGeometry,
        >(UnsupportedGeometry::MultiPoint),
        !(has_z || has_m) && geometry_type != DisplayGeometryType::MultiPoint ==> result is Ok,
{
    if has_z || has_m {
        return Err(UnsupportedGeometry::ZmDimensions);
    }
    match geometry_type {
        DisplayGeometryType::MultiPoint => Err(UnsupportedGeometry::MultiPoint),
        _ => Ok(()),
    }
}

/// The control columns of optimized output: the range-partition column for multi-file output,
/// and, for non-point multi-file output, the sort column kept alongside it so that each
/// partition can be sorted while it is written.
pub fn output_control_columns(output_parts: usize, family: GeometryFamily) -> (columns: (
    Option<&'static str>,
    Option<&'static str>,
))
    ensures
        output_parts > 1 ==> (columns.0 matches Some(p) && p@ == spec_partition_column_name(family)),
        output_parts <= 1 ==> columns.0 is None,
        (output_parts > 1 && family == GeometryFamily::NonPoint) ==> (columns.1 matches Some(c)
            && c@ == spec_sort_column_name(family)),
        !(output_parts > 1 && family == GeometryFamily::NonPoint) ==> columns.1 is None,
{
    let partition_column = if output_parts > 1 {
        Some(partition_column_name(family))
    } else {
        None
    };
    let retained_sort_column = match (partition_column, family) {
        (Some(_), GeometryFamily::NonPoint) => Some(sort_column_name(family)),
        _ => None,
    };
    (partition_column, retained_sort_column)
}

} // verus!
