use spatial::analysis::{
    analysis_route, extent_aggregate_expressions, geometry_dimensions, helper_extent_aggregates,
    AggregateKind, AnalysisRoute, ExtentAggregate, SourceGeometryInfo,
};
use spatial::pbf::GeometryFamily;
use spatial::sort_insertion::{sort_insertion_paths, PlanSchemaNode};

fn node(fields: &[&str], children: Vec<PlanSchemaNode>) -> PlanSchemaNode {
    PlanSchemaNode {
        field_names: fields.iter().map(|f| f.to_string()).collect(),
        children,
    }
}

fn aggregate(kind: AggregateKind, column: &str, alias: &str) -> ExtentAggregate {
    ExtentAggregate {
        kind,
        column: column.to_string(),
        alias: alias.to_string(),
    }
}

#[test]
fn analysis_prefers_metadata_then_helper_for_multi_file_output() {
    assert_eq!(analysis_route(true, 4), AnalysisRoute::Metadata);
    assert_eq!(analysis_route(false, 4), AnalysisRoute::Helper);
    assert_eq!(analysis_route(false, 1), AnalysisRoute::Display);
    assert_eq!(analysis_route(false, 0), AnalysisRoute::Display);
}

#[test]
fn extent_aggregates_take_minima_then_maxima() {
    assert_eq!(
        extent_aggregate_expressions("a", "b", "c", "d"),
        vec![
            aggregate(AggregateKind::Min, "a", "__display_xmin"),
            aggregate(AggregateKind::Min, "b", "__display_ymin"),
            aggregate(AggregateKind::Max, "c", "__display_xmax"),
            aggregate(AggregateKind::Max, "d", "__display_ymax"),
        ]
    );
    assert_eq!(
        helper_extent_aggregates(GeometryFamily::Point),
        vec![
            aggregate(AggregateKind::Min, "x", "__display_xmin"),
            aggregate(AggregateKind::Min, "y", "__display_ymin"),
            aggregate(AggregateKind::Max, "x", "__display_xmax"),
            aggregate(AggregateKind::Max, "y", "__display_ymax"),
        ]
    );
    assert_eq!(helper_extent_aggregates(GeometryFamily::NonPoint)[2].column, "__display_xmax");
}

#[test]
fn dimensions_come_from_metadata_of_the_same_column() {
    let info = SourceGeometryInfo {
        column: "geometry".to_string(),
        has_z: true,
        has_m: false,
    };
    assert_eq!(geometry_dimensions(Some(&info), "geometry"), (true, false));
    assert_eq!(geometry_dimensions(Some(&info), "geom"), (false, false));
    assert_eq!(geometry_dimensions(None, "geometry"), (false, false));
}

#[test]
fn sort_is_inserted_at_topmost_nodes_with_both_columns() {
    let plan = node(
        &["name"],
        vec![
            node(&["z_order", "zCode"], vec![node(&["z_order", "zCode"], vec![])]),
            node(&["other"], vec![node(&["zCode", "a", "z_order"], vec![])]),
        ],
    );
    assert_eq!(
        sort_insertion_paths(&plan, "z_order", "zCode").unwrap(),
        vec![vec![0], vec![1, 0]]
    );
    let root = node(&["z_order", "zCode"], vec![node(&["x"], vec![])]);
    assert_eq!(
        sort_insertion_paths(&root, "z_order", "zCode").unwrap(),
        vec![Vec::<usize>::new()]
    );
}

#[test]
fn missing_columns_report_the_leaf_schema() {
    let plan = node(
        &["name"],
        vec![
            node(&["z_order", "zCode"], vec![]),
            node(&["geometry"], vec![node(&["zCode", "only"], vec![])]),
            node(&["late"], vec![]),
        ],
    );
    let err = sort_insertion_paths(&plan, "z_order", "zCode").unwrap_err();
    assert_eq!(err.partition_column, "z_order");
    assert_eq!(err.sort_column, "zCode");
    assert_eq!(err.field_names, vec!["zCode".to_string(), "only".to_string()]);
}

use spatial::analysis::metadata_fast_path_allowed;
use spatial::pipeline::RowRange;

#[test]
fn metadata_fast_path_needs_full_range_and_same_crs() {
    assert!(metadata_fast_path_allowed(RowRange::default(), false));
    assert!(!metadata_fast_path_allowed(RowRange::default(), true));
    assert!(!metadata_fast_path_allowed(RowRange::new(1, None), false));
    assert!(!metadata_fast_path_allowed(RowRange::new(0, Some(5)), false));
    assert!(RowRange::default().is_full());
}
