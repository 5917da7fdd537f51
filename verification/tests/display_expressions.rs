use spatial::expr::{
    bounds_xmax_expr, bounds_xmin_expr, bounds_ymax_expr, bounds_ymin_expr, feature_bbox_expr,
    non_point_geodisplay_expr, non_point_xzcode_expr, non_point_xzcode_from_bounds_expr,
    point_x_expr, point_y_expr, point_zcode_expr, point_zcode_from_xy_expr, register_display_udfs,
    reproject_geometry_expr, transformed_bounds_expr, transformed_point_coords_expr, DisplayExpr,
    DisplayUdf, Extent2D, GeometryEncoding, QuantizationTransform, TransformSpec,
};
use spatial::pbf::DisplayGeometryType;

fn col(name: &str) -> DisplayExpr<f64> {
    DisplayExpr::Column(name.to_string())
}

fn aliased(udf: DisplayUdf<f64>, args: Vec<DisplayExpr<f64>>, name: &str) -> DisplayExpr<f64> {
    DisplayExpr::Alias(Box::new(DisplayExpr::Call(udf, args)), name.to_string())
}

fn world() -> Extent2D<f64> {
    Extent2D {
        xmin: -180.0,
        ymin: -90.0,
        xmax: 180.0,
        ymax: 90.0,
    }
}

fn extent_literals() -> Vec<DisplayExpr<f64>> {
    vec![
        DisplayExpr::Literal(-180.0),
        DisplayExpr::Literal(-90.0),
        DisplayExpr::Literal(180.0),
        DisplayExpr::Literal(90.0),
    ]
}

fn transform() -> TransformSpec {
    TransformSpec::new("EPSG:3857".to_string(), "EPSG:4326".to_string())
}

#[test]
fn point_expressions_read_the_geometry_column() {
    let mut args = vec![col("geometry")];
    args.extend(extent_literals());
    assert_eq!(
        point_zcode_expr("geometry", world()),
        aliased(DisplayUdf::PointZcode, args, "zCode")
    );
    assert_eq!(
        point_x_expr::<f64>("geometry"),
        aliased(DisplayUdf::PointX, vec![col("geometry")], "x")
    );
    assert_eq!(
        point_y_expr::<f64>("geometry"),
        aliased(DisplayUdf::PointY, vec![col("geometry")], "y")
    );
    let mut args = vec![col("x"), col("y")];
    args.extend(extent_literals());
    assert_eq!(
        point_zcode_from_xy_expr("x", "y", world()),
        aliased(DisplayUdf::PointZcodeFromXy, args, "zCode")
    );
}

#[test]
fn bound_expressions_use_temporary_columns() {
    assert_eq!(
        bounds_xmin_expr::<f64>("g"),
        aliased(DisplayUdf::BoundsXmin, vec![col("g")], "__display_xmin")
    );
    assert_eq!(
        bounds_ymin_expr::<f64>("g"),
        aliased(DisplayUdf::BoundsYmin, vec![col("g")], "__display_ymin")
    );
    assert_eq!(
        bounds_xmax_expr::<f64>("g"),
        aliased(DisplayUdf::BoundsXmax, vec![col("g")], "__display_xmax")
    );
    assert_eq!(
        bounds_ymax_expr::<f64>("g"),
        aliased(DisplayUdf::BoundsYmax, vec![col("g")], "__display_ymax")
    );
    let mut args = vec![col("g")];
    args.extend(extent_literals());
    assert_eq!(
        non_point_xzcode_expr("g", world()),
        aliased(DisplayUdf::NonPointXzcode, args, "__display_xz_code")
    );
    let mut args = vec![col("a"), col("b"), col("c"), col("d")];
    args.extend(extent_literals());
    assert_eq!(
        non_point_xzcode_from_bounds_expr("a", "b", "c", "d", world()),
        aliased(DisplayUdf::NonPointXzcodeFromBounds, args, "__display_xz_code")
    );
}

#[test]
fn covering_and_geodisplay_expressions_name_their_outputs() {
    assert_eq!(
        feature_bbox_expr::<f64>("g", "a", "b", "c", "d"),
        aliased(
            DisplayUdf::FeatureBbox,
            vec![col("g"), col("a"), col("b"), col("c"), col("d")],
            "bbox"
        )
    );
    let encoding = GeometryEncoding {
        level: 0,
        column: "level_0".to_string(),
        resolution: 1.0,
        scale: 1.0,
        transform: QuantizationTransform {
            scale: [1.0, 1.0, 1.0, 1.0],
            translate: [0.0, 0.0, 0.0, 0.0],
        },
        min_length: 3,
    };
    let encodings = vec![encoding.duplicate()];
    assert_eq!(
        non_point_geodisplay_expr("g", DisplayGeometryType::Polygon, &encodings),
        aliased(
            DisplayUdf::NonPointGeodisplay(DisplayGeometryType::Polygon, vec![encoding]),
            vec![
                col("g"),
                col("__display_xz_code"),
                col("__display_xmin"),
                col("__display_ymin"),
                col("__display_xmax"),
                col("__display_ymax"),
            ],
            "geodisplay"
        )
    );
}

#[test]
fn reprojection_expressions_carry_their_transform() {
    let spec = transform();
    assert_eq!(spec.source_definition(), "EPSG:3857");
    assert_eq!(spec.target_definition(), "EPSG:4326");
    assert_eq!(
        transformed_point_coords_expr::<f64>("g", &spec),
        DisplayExpr::Call(DisplayUdf::TransformedPointCoords(transform()), vec![col("g")])
    );
    assert_eq!(
        transformed_bounds_expr::<f64>("g", DisplayGeometryType::Polyline, &spec),
        DisplayExpr::Call(
            DisplayUdf::TransformedBounds(transform(), DisplayGeometryType::Polyline),
            vec![col("g")]
        )
    );
    assert_eq!(
        reproject_geometry_expr::<f64>("g", &spec),
        DisplayExpr::Call(DisplayUdf::ReprojectGeometry(transform()), vec![col("g")])
    );
}

#[test]
fn registry_receives_the_stateless_functions_in_order() {
    let mut registry: Vec<DisplayUdf<f64>> = Vec::new();
    register_display_udfs(&mut registry);
    let names: Vec<&str> = registry.iter().map(|udf| udf.name()).collect();
    assert_eq!(
        names,
        vec![
            "display_point_zcode",
            "display_point_x",
            "display_point_y",
            "display_nonpoint_xzcode",
            "display_bounds_xmin",
            "display_bounds_ymin",
            "display_bounds_xmax",
            "display_bounds_ymax",
        ]
    );
}

#[test]
fn registration_replaces_earlier_functions_of_the_same_name() {
    let mut registry: Vec<DisplayUdf<f64>> = vec![
        DisplayUdf::PointX,
        DisplayUdf::PointZcodeFromXy,
        DisplayUdf::BoundsYmax,
        DisplayUdf::FeatureBbox,
    ];
    register_display_udfs(&mut registry);
    let names: Vec<&str> = registry.iter().map(|udf| udf.name()).collect();
    assert_eq!(
        names,
        vec![
            "display_point_zcode_from_xy",
            "display_feature_bbox",
            "display_point_zcode",
            "display_point_x",
            "display_point_y",
            "display_nonpoint_xzcode",
            "display_bounds_xmin",
            "display_bounds_ymin",
            "display_bounds_xmax",
            "display_bounds_ymax",
        ]
    );
    register_display_udfs(&mut registry);
    assert_eq!(registry.len(), 10);
}
