use spatial::pbf::{DisplayGeometryType, GeometryFamily};
use spatial::plan::{
    build_range_partition_expr, ensure_supported, is_generated_display_output_column,
    multi_file_sort_partition_count, partition_column_name, projection_without_sort_column,
    sort_column_name, validate_partition_column, ProjectedColumn, RangeBranch, RangePartitionExpr,
    UnsupportedGeometry, NON_POINT_RANGE_COLUMN, POINT_RANGE_COLUMN,
};

fn names(list: &[&str]) -> Vec<String> {
    list.iter().map(|name| name.to_string()).collect()
}

fn evaluate(expr: &RangePartitionExpr, code: u64) -> u64 {
    for branch in &expr.branches {
        if code < branch.below {
            return branch.value;
        }
    }
    expr.otherwise
}

#[test]
fn families_sort_and_partition_by_their_codes() {
    assert_eq!(sort_column_name(GeometryFamily::Point), "zCode");
    assert_eq!(sort_column_name(GeometryFamily::NonPoint), "__display_xz_code");
    assert_eq!(partition_column_name(GeometryFamily::Point), POINT_RANGE_COLUMN);
    assert_eq!(partition_column_name(GeometryFamily::NonPoint), NON_POINT_RANGE_COLUMN);
    assert_eq!(POINT_RANGE_COLUMN, "z_order");
    assert_eq!(NON_POINT_RANGE_COLUMN, "xz_order");
}

#[test]
fn partition_column_must_not_shadow_an_input_column() {
    let fields = names(&["name", "geometry", "z_order"]);
    let err = validate_partition_column(&fields, Some("z_order")).unwrap_err();
    assert_eq!(
        err.message(),
        "output partition column 'z_order' conflicts with an existing input column"
    );
    assert!(validate_partition_column(&fields, Some("xz_order")).is_ok());
    assert!(validate_partition_column(&fields, None).is_ok());
    assert!(validate_partition_column(&[], Some("z_order")).is_ok());
}

#[test]
fn range_partition_expression_assigns_lower_bounds() {
    let expr = build_range_partition_expr("zCode", 5, &[10, 20, 30]);
    assert_eq!(
        expr,
        RangePartitionExpr {
            column: "zCode".to_string(),
            branches: vec![
                RangeBranch { below: 10, value: 5 },
                RangeBranch { below: 20, value: 10 },
                RangeBranch { below: 30, value: 20 },
            ],
            otherwise: 30,
        }
    );
    assert_eq!(evaluate(&expr, 5), 5);
    assert_eq!(evaluate(&expr, 9), 5);
    assert_eq!(evaluate(&expr, 10), 10);
    assert_eq!(evaluate(&expr, 25), 20);
    assert_eq!(evaluate(&expr, 30), 30);
    assert_eq!(evaluate(&expr, u64::MAX), 30);
}

#[test]
fn range_partition_without_boundaries_is_constant() {
    let expr = build_range_partition_expr("__display_xz_code", 7, &[]);
    assert!(expr.branches.is_empty());
    assert_eq!(expr.otherwise, 7);
    assert_eq!(evaluate(&expr, 0), 7);
}

#[test]
fn range_partition_values_never_decrease_with_the_code() {
    let expr = build_range_partition_expr("zCode", 0, &[3, 3, 8, 100]);
    let mut previous = 0;
    for code in 0..200u64 {
        let value = evaluate(&expr, code);
        assert!(value >= previous);
        assert!(value <= code);
        previous = value;
    }
}

#[test]
fn multi_file_sorts_use_twice_the_files_and_at_least_eight_partitions() {
    assert_eq!(multi_file_sort_partition_count(0), 8);
    assert_eq!(multi_file_sort_partition_count(3), 8);
    assert_eq!(multi_file_sort_partition_count(4), 8);
    assert_eq!(multi_file_sort_partition_count(10), 20);
    assert_eq!(multi_file_sort_partition_count(usize::MAX), usize::MAX);
}

#[test]
fn projection_drops_only_the_sort_column() {
    let fields = names(&["name", "zCode", "geometry", "z_order"]);
    assert_eq!(
        projection_without_sort_column(&fields, "zCode"),
        vec![
            ProjectedColumn { index: 0, name: "name".to_string() },
            ProjectedColumn { index: 2, name: "geometry".to_string() },
            ProjectedColumn { index: 3, name: "z_order".to_string() },
        ]
    );
    assert_eq!(projection_without_sort_column(&fields, "missing").len(), 4);
}

#[test]
fn generated_display_columns_depend_on_family() {
    assert!(is_generated_display_output_column("zCode", GeometryFamily::Point));
    assert!(is_generated_display_output_column("x", GeometryFamily::Point));
    assert!(is_generated_display_output_column("y", GeometryFamily::Point));
    assert!(!is_generated_display_output_column("geodisplay", GeometryFamily::Point));
    assert!(is_generated_display_output_column("geodisplay", GeometryFamily::NonPoint));
    assert!(!is_generated_display_output_column("zCode", GeometryFamily::NonPoint));
    assert!(!is_generated_display_output_column("name", GeometryFamily::NonPoint));
}

#[test]
fn display_encoding_refuses_zm_and_multipoints() {
    assert_eq!(
        ensure_supported(true, false, DisplayGeometryType::Polygon),
        Err(UnsupportedGeometry::ZmDimensions)
    );
    assert_eq!(
        ensure_supported(false, true, DisplayGeometryType::MultiPoint),
        Err(UnsupportedGeometry::ZmDimensions)
    );
    assert_eq!(
        ensure_supported(false, false, DisplayGeometryType::MultiPoint),
        Err(UnsupportedGeometry::MultiPoint)
    );
    assert_eq!(ensure_supported(false, false, DisplayGeometryType::Point), Ok(()));
    assert_eq!(ensure_supported(false, false, DisplayGeometryType::Polyline), Ok(()));
    assert_eq!(
        UnsupportedGeometry::MultiPoint.message(),
        "display optimization does not yet support multipoint geometries"
    );
    assert_eq!(
        UnsupportedGeometry::ZmDimensions.message(),
        "display optimization does not yet support Z/M geometries"
    );
}

use spatial::plan::output_control_columns;
use spatial::projection::projected_geometry_column;

#[test]
fn multi_file_non_point_output_keeps_its_sort_column() {
    assert_eq!(output_control_columns(1, GeometryFamily::NonPoint), (None, None));
    assert_eq!(output_control_columns(4, GeometryFamily::Point), (Some("z_order"), None));
    assert_eq!(
        output_control_columns(4, GeometryFamily::NonPoint),
        (Some("xz_order"), Some("__display_xz_code"))
    );
    assert_eq!(projected_geometry_column(false), None);
    assert_eq!(projected_geometry_column(true), Some("__display_reprojected_geometry"));
}
