//! The final projection of optimized output: the input columns, with regenerated display
//! columns dropped and the geometry column optionally replaced by its reprojected form, then the
//! covering bbox, the display columns, and the partition and sort columns that the write needs.

use vstd::prelude::*;
use crate::expr::{
    bounds_xmax_expr, bounds_xmin_expr, bounds_ymax_expr, bounds_ymin_expr, is_call,
    non_point_xzcode_from_bounds_expr, point_x_expr, point_y_expr, point_zcode_from_xy_expr,
    reproject_geometry_expr, Extent2D, TransformSpec, feature_bbox_expr, non_point_geodisplay_expr, aliased_udf, is_aliased_call, is_column,
    DisplayExpr, DisplayUdf, GeometryEncoding, COVERING_BBOX_COLUMN, DISPLAY_COLUMN,
    POINT_X_COLUMN, POINT_Y_COLUMN, POINT_Z_CODE_COLUMN, TEMP_XMAX_COLUMN, TEMP_XMIN_COLUMN,
    TEMP_XZ_CODE_COLUMN, TEMP_YMAX_COLUMN, TEMP_YMIN_COLUMN,
};
use crate::pbf::{DisplayGeometryType, GeometryFamily};
use crate::plan::{
    is_generated_display_output_column, sort_column_name, partition_column_name,
    spec_is_generated_display_output_column, spec_partition_column_name, spec_sort_column_name,
};

verus! {

/// The input columns that the output keeps: every one but the regenerated display columns.
pub open spec fn kept_fields(fields: Seq<String>, family: GeometryFamily) -> Seq<Seq<char>>
    decreases fields.len(),
{
    if fields.len() == 0 {
        Seq::empty()
    } else {
        let rest = kept_fields(fields.drop_last(), family);
        if spec_is_generated_display_output_column(fields.last()@, family) {
            rest
        } else {
            rest.push(fields.last()@)
        }
    }
}

/// `e` projects the kept input column `name`: the reprojected geometry under the geometry
/// column's name, or the column itself.
pub open spec fn projects_input<T>(
    e: DisplayExpr<T>,
    name: Seq<char>,
    geometry_column: Seq<char>,
    projected_geometry_column: Option<Seq<char>>,
) -> bool {
    match projected_geometry_column {
        Some(p) => if name == geometry_column {
            e matches DisplayExpr::Alias(inner, n) && n@ == name && is_column(*inner, p)
        } else {
            is_column(e, name)
        },
        None => is_column(e, name),
    }
}

/// The geometry column that generated expressions read.
pub open spec fn source_geometry(geometry_column: Seq<char>, projected_geometry_column: Option<Seq<char>>) -> Seq<char> {
    match projected_geometry_column {
        Some(p) => p,
        None => geometry_column,
    }
}

/// The columns that the covering bbox of a geometry family reads after the geometry.
pub open spec fn bbox_columns(family: GeometryFamily) -> Seq<Seq<char>> {
    match family {
        GeometryFamily::Point => seq![POINT_X_COLUMN@, POINT_Y_COLUMN@, POINT_X_COLUMN@, POINT_Y_COLUMN@],
        GeometryFamily::NonPoint => seq![TEMP_XMIN_COLUMN@, TEMP_YMIN_COLUMN@, TEMP_XMAX_COLUMN@, TEMP_YMAX_COLUMN@],
    }
}

pub open spec fn display_count(family: GeometryFamily) -> int {
    match family {
        GeometryFamily::Point => 3,
        GeometryFamily::NonPoint => 1,
    }
}

pub open spec fn option_view(o: Option<&str>) -> Option<Seq<char>> {
    match o {
        Some(s) => Some(s@),
        None => None,
    }
}

/// Build the final projection of optimized output.
///
/// The output lists, in order: each kept input column (the geometry column reads the
/// reprojected geometry where there is one); the covering bbox when requested; the display
/// columns of the geometry family; the partition column; the retained sort column.
pub fn build_final_projection_expressions<T: Copy>(
    source_field_names: &[String],
    family: GeometryFamily,
    geometry_type: DisplayGeometryType,
    geometry_column: &str,
    encodings: &[GeometryEncoding<T>],
    partition_column: Option<&str>,
    retained_sort_column: Option<&str>,
    projected_geometry_column: Option<&str>,
    covering: bool,
) -> (exprs: Vec<DisplayExpr<T>>)
    ensures
        ({
            let kept = kept_fields(source_field_names@, family);
            let k = kept.len() as int;
            let b = if covering { 1int } else { 0int };
            let d = k + b;
            let geometry = source_geometry(geometry_column@, option_view(projected_geometry_column));
            &&& exprs@.len() == d + display_count(family) + (if partition_column is Some { 1int } else { 0int })
                + (if retained_sort_column is Some { 1int } else { 0int })
            &&& forall|j: int| 0 <= j < k ==> projects_input(
                #[trigger] exprs@[j],
                kept[j],
                geometry_column@,
                option_view(projected_geometry_column),
            )
            &&& covering ==> is_aliased_call(
                exprs@[k],
                COVERING_BBOX_COLUMN@,
                DisplayUdf::FeatureBbox,
                seq![geometry] + bbox_columns(family),
                None,
            )
            &&& family == GeometryFamily::Point ==> {
                &&& is_column(exprs@[d], POINT_Z_CODE_COLUMN@)
                &&& is_column(exprs@[d + 1], POINT_X_COLUMN@)
                &&& is_column(exprs@[d + 2], POINT_Y_COLUMN@)
            }
            &&& family == GeometryFamily::NonPoint ==> {
                &&& is_aliased_call(
                    exprs@[d],
                    DISPLAY_COLUMN@,
                    aliased_udf(exprs@[d]),
                    seq![
                        geometry,
                        TEMP_XZ_CODE_COLUMN@,
                        TEMP_XMIN_COLUMN@,
                        TEMP_YMIN_COLUMN@,
                        TEMP_XMAX_COLUMN@,
                        TEMP_YMAX_COLUMN@,
                    ],
                    None,
                )
                &&& aliased_udf(exprs@[d]) matches DisplayUdf::NonPointGeodisplay(t, owned)
                    && t == geometry_type && owned@ == encodings@
            }
            &&& partition_column matches Some(c) ==> is_column(exprs@[d + display_count(family)], c@)
            &&& retained_sort_column matches Some(c) ==> is_column(
                exprs@[d + display_count(family) + (if partition_column is Some { 1int } else { 0int })],
                c@,
            )
        }),
{
    let mut exprs: Vec<DisplayExpr<T>> = Vec::new();
    let mut i: usize = 0;
    while i < source_field_names.len()
        invariant
            i <= source_field_names@.len(),
            exprs@.len() == kept_fields(source_field_names@.subrange(0, i as int), family).len(),
            forall|j: int|
                0 <= j < exprs@.len() ==> projects_input(
                    #[trigger] exprs@[j],
                    kept_fields(source_field_names@.subrange(0, i as int), family)[j],
                    geometry_column@,
                    option_view(projected_geometry_column),
                ),
        decreases source_field_names@.len() - i,
    {
        let name = source_field_names[i].as_str();
        let ghost before = exprs@;
        let ghost prefix = source_field_names@.subrange(0, i as int);
        proof {
            let next = source_field_names@.subrange(0, i + 1);
            assert(next.drop_last() =~= prefix);
            assert(next.last() == source_field_names@[i as int]);
        }
        if !is_generated_display_output_column(name, family) {
            let e = match projected_geometry_column {
                Some(p) => {
                    if crate::text::text_eq(name, geometry_column) {
                        DisplayExpr::Alias(
                            Box::new(DisplayExpr::Column(p.to_string())),
                            name.to_string(),
                        )
                    } else {
                        DisplayExpr::Column(name.to_string())
                    }
                },
                None => DisplayExpr::Column(name.to_string()),
            };
            exprs.push(e);
            proof {
                assert forall|j: int| 0 <= j < exprs@.len() implies projects_input(
                    #[trigger] exprs@[j],
                    kept_fields(source_field_names@.subrange(0, i + 1), family)[j],
                    geometry_column@,
                    option_view(projected_geometry_column),
                ) by {
                    if j < before.len() {
                        assert(exprs@[j] == before[j]);
                    }
                }
            }
        }
        i = i + 1;
    }
    proof {
        assert(source_field_names@.subrange(0, source_field_names@.len() as int) =~= source_field_names@);
    }
    let geometry = match projected_geometry_column {
        Some(p) => p,
        None => geometry_column,
    };
    let ghost k = exprs@.len();
    if covering {
        match family {
            GeometryFamily::Point => {
                exprs.push(
                    feature_bbox_expr(
                        geometry,
                        POINT_X_COLUMN,
                        POINT_Y_COLUMN,
                        POINT_X_COLUMN,
                        POINT_Y_COLUMN,
                    ),
                );
            },
            GeometryFamily::NonPoint => {
                exprs.push(
                    feature_bbox_expr(
                        geometry,
                        TEMP_XMIN_COLUMN,
                        TEMP_YMIN_COLUMN,
                        TEMP_XMAX_COLUMN,
                        TEMP_YMAX_COLUMN,
                    ),
                );
            },
        }
    }
    let ghost d = exprs@.len();
    match family {
        GeometryFamily::Point => {
            exprs.push(DisplayExpr::Column(POINT_Z_CODE_COLUMN.to_string()));
            exprs.push(DisplayExpr::Column(POINT_X_COLUMN.to_string()));
            exprs.push(DisplayExpr::Column(POINT_Y_COLUMN.to_string()));
        },
        GeometryFamily::NonPoint => {
            exprs.push(non_point_geodisplay_expr(geometry, geometry_type, encodings));
        },
    }
    let ghost p = exprs@.len();
    if let Some(c) = partition_column {
        exprs.push(DisplayExpr::Column(c.to_string()));
    }
    if let Some(c) = retained_sort_column {
        exprs.push(DisplayExpr::Column(c.to_string()));
    }
    exprs
}

/// `e` projects input column `name` of plain output: the output geometry under the geometry
/// column's name, or the column itself.
pub open spec fn plain_projects_input<T>(
    e: DisplayExpr<T>,
    name: Seq<char>,
    geometry_column: Seq<char>,
    output_geometry_column: Seq<char>,
) -> bool {
    if name == geometry_column {
        e matches DisplayExpr::Alias(inner, n) && n@ == name && is_column(*inner, output_geometry_column)
    } else {
        is_column(e, name)
    }
}

/// Build the projection of plain output: every input column in order, with the geometry column
/// reading `output_geometry_column` (the reprojected geometry, or the geometry itself), then
/// the covering bbox over the temporary bound columns when requested.
pub fn plain_output_projection<T>(
    source_field_names: &[String],
    geometry_column: &str,
    output_geometry_column: &str,
    covering: bool,
) -> (exprs: Vec<DisplayExpr<T>>)
    ensures
        exprs@.len() == source_field_names@.len() + (if covering { 1int } else { 0int }),
        forall|j: int|
            0 <= j < source_field_names@.len() ==> plain_projects_input(
                #[trigger] exprs@[j],
                source_field_names@[j]@,
                geometry_column@,
                output_geometry_column@,
            ),
        covering ==> is_aliased_call(
            exprs@[source_field_names@.len() as int],
            COVERING_BBOX_COLUMN@,
            DisplayUdf::FeatureBbox,
            seq![
                output_geometry_column@,
                TEMP_XMIN_COLUMN@,
                TEMP_YMIN_COLUMN@,
                TEMP_XMAX_COLUMN@,
                TEMP_YMAX_COLUMN@,
            ],
            None,
        ),
{
    let mut exprs: Vec<DisplayExpr<T>> = Vec::new();
    let mut i: usize = 0;
    while i < source_field_names.len()
        invariant
            i <= source_field_names@.len(),
            exprs@.len() == i,
            forall|j: int|
                0 <= j < i ==> plain_projects_input(
                    #[trigger] exprs@[j],
                    source_field_names@[j]@,
                    geometry_column@,
                    output_geometry_column@,
                ),
        decreases source_field_names@.len() - i,
    {
        let name = source_field_names[i].as_str();
        if crate::text::text_eq(name, geometry_column) {
            exprs.push(
                DisplayExpr::Alias(
                    Box::new(DisplayExpr::Column(output_geometry_column.to_string())),
                    geometry_column.to_string(),
                ),
            );
        } else {
            exprs.push(DisplayExpr::Column(name.to_string()));
        }
        i = i + 1;
    }
    if covering {
        exprs.push(
            feature_bbox_expr(
                output_geometry_column,
                TEMP_XMIN_COLUMN,
                TEMP_YMIN_COLUMN,
                TEMP_XMAX_COLUMN,
                TEMP_YMAX_COLUMN,
            ),
        );
    }
    exprs
}

/// Names the temporary column holding geometry reprojected into the output CRS.
pub const TEMP_REPROJECTED_GEOMETRY_COLUMN: &'static str = "__display_reprojected_geometry";

/// One column added to a DataFrame: its name and the expression that computes it.
#[derive(Debug, PartialEq)]
pub struct HelperColumn<T> {
    pub name: String,
    pub expr: DisplayExpr<T>,
}

pub open spec fn is_helper<T>(
    c: HelperColumn<T>,
    name: Seq<char>,
    alias: Seq<char>,
    udf: DisplayUdf<T>,
    columns: Seq<Seq<char>>,
    extent: Option<Extent2D<T>>,
) -> bool {
    c.name@ == name && is_aliased_call(c.expr, alias, udf, columns, extent)
}

/// The geometry column that helper expressions read.
pub open spec fn helper_geometry(geometry_column: Seq<char>, reprojects: bool) -> Seq<char> {
    if reprojects {
        TEMP_REPROJECTED_GEOMETRY_COLUMN@
    } else {
        geometry_column
    }
}

fn helper<T>(name: &str, expr: DisplayExpr<T>) -> (c: HelperColumn<T>)
    ensures
        c.name@ == name@,
        c.expr == expr,
{
    HelperColumn { name: name.to_string(), expr }
}

/// The helper columns that geometry analysis, clustering, and output read: the reprojected
/// geometry when there is a transform, then x/y for points or the four bounds otherwise, each
/// computed from the (reprojected) geometry.
pub fn geometry_helper_columns<T>(
    geometry_column: &str,
    family: GeometryFamily,
    transform: Option<&TransformSpec>,
) -> (columns: Vec<HelperColumn<T>>)
    ensures
        ({
            let r = if transform is Some { 1int } else { 0int };
            let g = helper_geometry(geometry_column@, transform is Some);
            &&& columns@.len() == r + (match family {
                GeometryFamily::Point => 2int,
                GeometryFamily::NonPoint => 4int,
            })
            &&& transform matches Some(t) ==> columns@[0].name@ == TEMP_REPROJECTED_GEOMETRY_COLUMN@
                && is_call(columns@[0].expr, DisplayUdf::ReprojectGeometry(*t), seq![geometry_column@], None)
            &&& family == GeometryFamily::Point ==> {
                &&& is_helper(columns@[r], POINT_X_COLUMN@, POINT_X_COLUMN@, DisplayUdf::PointX, seq![g], None)
                &&& is_helper(columns@[r + 1], POINT_Y_COLUMN@, POINT_Y_COLUMN@, DisplayUdf::PointY, seq![g], None)
            }
            &&& family == GeometryFamily::NonPoint ==> {
                &&& is_helper(columns@[r], TEMP_XMIN_COLUMN@, TEMP_XMIN_COLUMN@, DisplayUdf::BoundsXmin, seq![g], None)
                &&& is_helper(columns@[r + 1], TEMP_YMIN_COLUMN@, TEMP_YMIN_COLUMN@, DisplayUdf::BoundsYmin, seq![g], None)
                &&& is_helper(columns@[r + 2], TEMP_XMAX_COLUMN@, TEMP_XMAX_COLUMN@, DisplayUdf::BoundsXmax, seq![g], None)
                &&& is_helper(columns@[r + 3], TEMP_YMAX_COLUMN@, TEMP_YMAX_COLUMN@, DisplayUdf::BoundsYmax, seq![g], None)
            }
        }),
{
    let mut columns: Vec<HelperColumn<T>> = Vec::new();
    let geometry = match transform {
        Some(t) => {
            columns.push(helper(TEMP_REPROJECTED_GEOMETRY_COLUMN, reproject_geometry_expr(geometry_column, t)));
            TEMP_REPROJECTED_GEOMETRY_COLUMN
        },
        None => geometry_column,
    };
    match family {
        GeometryFamily::Point => {
            columns.push(helper(POINT_X_COLUMN, point_x_expr(geometry)));
            columns.push(helper(POINT_Y_COLUMN, point_y_expr(geometry)));
        },
        GeometryFamily::NonPoint => {
            columns.push(helper(TEMP_XMIN_COLUMN, bounds_xmin_expr(geometry)));
            columns.push(helper(TEMP_YMIN_COLUMN, bounds_ymin_expr(geometry)));
            columns.push(helper(TEMP_XMAX_COLUMN, bounds_xmax_expr(geometry)));
            columns.push(helper(TEMP_YMAX_COLUMN, bounds_ymax_expr(geometry)));
        },
    }
    columns
}

/// The display-code column that rows are sorted and partitioned by, computed from the helper
/// columns within the full extent.
pub fn sort_code_column<T: Copy>(family: GeometryFamily, full_extent: Extent2D<T>) -> (column: HelperColumn<T>)
    ensures
        family == GeometryFamily::Point ==> is_helper(
            column,
            POINT_Z_CODE_COLUMN@,
            POINT_Z_CODE_COLUMN@,
            DisplayUdf::PointZcodeFromXy,
            seq![POINT_X_COLUMN@, POINT_Y_COLUMN@],
            Some(full_extent),
        ),
        family == GeometryFamily::NonPoint ==> is_helper(
            column,
            TEMP_XZ_CODE_COLUMN@,
            TEMP_XZ_CODE_COLUMN@,
            DisplayUdf::NonPointXzcodeFromBounds,
            seq![TEMP_XMIN_COLUMN@, TEMP_YMIN_COLUMN@, TEMP_XMAX_COLUMN@, TEMP_YMAX_COLUMN@],
            Some(full_extent),
        ),
{
    match family {
        GeometryFamily::Point => helper(
            POINT_Z_CODE_COLUMN,
            point_zcode_from_xy_expr(POINT_X_COLUMN, POINT_Y_COLUMN, full_extent),
        ),
        GeometryFamily::NonPoint => helper(
            TEMP_XZ_CODE_COLUMN,
            non_point_xzcode_from_bounds_expr(
                TEMP_XMIN_COLUMN,
                TEMP_YMIN_COLUMN,
                TEMP_XMAX_COLUMN,
                TEMP_YMAX_COLUMN,
                full_extent,
            ),
        ),
    }
}

/// How the optimized rows are ordered before they are written.
#[derive(Debug, PartialEq, Eq)]
pub enum RowOrdering {
    /// One global ascending sort, nulls last, by the display-code column.
    GlobalSort { sort_column: &'static str },
    /// Range partitions over the display code, each sorted while it is written.
    RangePartitioned { partition_column: &'static str, sort_column: &'static str },
}

/// Order rows by one global sort for single-file output and by code-range partitions for
/// multi-file output.
pub fn row_ordering(output_parts: usize, family: GeometryFamily) -> (ordering: RowOrdering)
    ensures
        output_parts > 1 ==> (ordering matches RowOrdering::RangePartitioned { partition_column, sort_column }
            && partition_column@ == spec_partition_column_name(family) && sort_column@ == spec_sort_column_name(family)),
        output_parts <= 1 ==> (ordering matches RowOrdering::GlobalSort { sort_column } && sort_column@
            == spec_sort_column_name(family)),
{
    if output_parts > 1 {
        RowOrdering::RangePartitioned {
            partition_column: partition_column_name(family),
            sort_column: sort_column_name(family),
        }
    } else {
        RowOrdering::GlobalSort { sort_column: sort_column_name(family) }
    }
}

/// The column that the final projection reads the geometry from, when it is not the input
/// geometry column: the reprojected geometry, where the output CRS differs from the source.
pub fn projected_geometry_column(requires_reprojection: bool) -> (column: Option<&'static str>)
    ensures
        requires_reprojection ==> (column matches Some(c) && c@ == TEMP_REPROJECTED_GEOMETRY_COLUMN@),
        !requires_reprojection ==> column is None,
{
    if requires_reprojection {
        Some(TEMP_REPROJECTED_GEOMETRY_COLUMN)
    } else {
        None
    }
}

} // verus!
