use spatial::expr::{DisplayExpr, DisplayUdf, GeometryEncoding, QuantizationTransform};
use spatial::pbf::{DisplayGeometryType, GeometryFamily};
use spatial::projection::{build_final_projection_expressions, plain_output_projection};

fn names(list: &[&str]) -> Vec<String> {
    list.iter().map(|name| name.to_string()).collect()
}

fn col(name: &str) -> DisplayExpr<f64> {
    DisplayExpr::Column(name.to_string())
}

fn renamed(from: &str, to: &str) -> DisplayExpr<f64> {
    DisplayExpr::Alias(Box::new(col(from)), to.to_string())
}

fn bbox(columns: &[&str]) -> DisplayExpr<f64> {
    DisplayExpr::Alias(
        Box::new(DisplayExpr::Call(
            DisplayUdf::FeatureBbox,
            columns.iter().map(|c| col(c)).collect(),
        )),
        "bbox".to_string(),
    )
}

#[test]
fn point_projection_replaces_display_columns_and_appends_controls() {
    let fields = names(&["name", "geometry", "zCode", "x", "keep"]);
    let exprs = build_final_projection_expressions::<f64>(
        &fields,
        GeometryFamily::Point,
        DisplayGeometryType::Point,
        "geometry",
        &[],
        Some("z_order"),
        Some("zCode"),
        None,
        true,
    );
    assert_eq!(
        exprs,
        vec![
            col("name"),
            col("geometry"),
            col("keep"),
            bbox(&["geometry", "x", "y", "x", "y"]),
            col("zCode"),
            col("x"),
            col("y"),
            col("z_order"),
            col("zCode"),
        ]
    );
}

#[test]
fn non_point_projection_reads_reprojected_geometry() {
    let fields = names(&["geometry", "geodisplay", "zCode", "name"]);
    let encoding = GeometryEncoding {
        level: 1,
        column: "level_1".to_string(),
        resolution: 2.0,
        scale: 4.0,
        transform: QuantizationTransform {
            scale: [2.0, 2.0, 1.0, 1.0],
            translate: [0.0, 0.0, 0.0, 0.0],
        },
        min_length: 3,
    };
    let exprs = build_final_projection_expressions(
        &fields,
        GeometryFamily::NonPoint,
        DisplayGeometryType::Polygon,
        "geometry",
        std::slice::from_ref(&encoding),
        None,
        None,
        Some("__reprojected"),
        false,
    );
    assert_eq!(
        exprs,
        vec![
            renamed("__reprojected", "geometry"),
            col("zCode"),
            col("name"),
            DisplayExpr::Alias(
                Box::new(DisplayExpr::Call(
                    DisplayUdf::NonPointGeodisplay(DisplayGeometryType::Polygon, vec![encoding]),
                    vec![
                        col("__reprojected"),
                        col("__display_xz_code"),
                        col("__display_xmin"),
                        col("__display_ymin"),
                        col("__display_xmax"),
                        col("__display_ymax"),
                    ],
                )),
                "geodisplay".to_string(),
            ),
        ]
    );
}

#[test]
fn plain_projection_keeps_every_column() {
    let fields = names(&["name", "geometry", "zCode"]);
    assert_eq!(
        plain_output_projection::<f64>(&fields, "geometry", "geometry", false),
        vec![col("name"), renamed("geometry", "geometry"), col("zCode")]
    );
    assert_eq!(
        plain_output_projection::<f64>(&fields, "geometry", "__reprojected", true),
        vec![
            col("name"),
            renamed("__reprojected", "geometry"),
            col("zCode"),
            bbox(&[
                "__reprojected",
                "__display_xmin",
                "__display_ymin",
                "__display_xmax",
                "__display_ymax"
            ]),
        ]
    );
}


use spatial::expr::{Extent2D, TransformSpec};
use spatial::projection::{
    geometry_helper_columns, row_ordering, sort_code_column, HelperColumn, RowOrdering,
    TEMP_REPROJECTED_GEOMETRY_COLUMN,
};

fn aliased_call(udf: DisplayUdf<f64>, args: Vec<DisplayExpr<f64>>, name: &str) -> DisplayExpr<f64> {
    DisplayExpr::Alias(Box::new(DisplayExpr::Call(udf, args)), name.to_string())
}

fn helper(name: &str, expr: DisplayExpr<f64>) -> HelperColumn<f64> {
    HelperColumn {
        name: name.to_string(),
        expr,
    }
}

#[test]
fn point_helpers_read_reprojected_geometry() {
    let transform = TransformSpec::new("EPSG:3857".to_string(), "EPSG:4326".to_string());
    let columns = geometry_helper_columns::<f64>("geometry", GeometryFamily::Point, Some(&transform));
    let reprojected = TEMP_REPROJECTED_GEOMETRY_COLUMN;
    assert_eq!(
        columns,
        vec![
            helper(
                reprojected,
                DisplayExpr::Call(DisplayUdf::ReprojectGeometry(transform.duplicate()), vec![col("geometry")])
            ),
            helper("x", aliased_call(DisplayUdf::PointX, vec![col(reprojected)], "x")),
            helper("y", aliased_call(DisplayUdf::PointY, vec![col(reprojected)], "y")),
        ]
    );
}

#[test]
fn non_point_helpers_compute_four_bounds() {
    let columns = geometry_helper_columns::<f64>("g", GeometryFamily::NonPoint, None);
    let names: Vec<&str> = columns.iter().map(|c| c.name.as_str()).collect();
    assert_eq!(
        names,
        vec!["__display_xmin", "__display_ymin", "__display_xmax", "__display_ymax"]
    );
    assert_eq!(
        columns[3],
        helper(
            "__display_ymax",
            aliased_call(DisplayUdf::BoundsYmax, vec![col("g")], "__display_ymax")
        )
    );
}

#[test]
fn sort_codes_come_from_helper_columns() {
    let extent = Extent2D {
        xmin: 0.0,
        ymin: 0.0,
        xmax: 1.0,
        ymax: 2.0,
    };
    let point = sort_code_column(GeometryFamily::Point, extent);
    assert_eq!(point.name, "zCode");
    assert_eq!(
        point.expr,
        aliased_call(
            DisplayUdf::PointZcodeFromXy,
            vec![
                col("x"),
                col("y"),
                DisplayExpr::Literal(0.0),
                DisplayExpr::Literal(0.0),
                DisplayExpr::Literal(1.0),
                DisplayExpr::Literal(2.0),
            ],
            "zCode"
        )
    );
    assert_eq!(sort_code_column(GeometryFamily::NonPoint, extent).name, "__display_xz_code");
}

#[test]
fn multi_file_output_orders_rows_by_range_partitions() {
    assert_eq!(
        row_ordering(1, GeometryFamily::Point),
        RowOrdering::GlobalSort { sort_column: "zCode" }
    );
    assert_eq!(
        row_ordering(3, GeometryFamily::NonPoint),
        RowOrdering::RangePartitioned {
            partition_column: "xz_order",
            sort_column: "__display_xz_code"
        }
    );
}
