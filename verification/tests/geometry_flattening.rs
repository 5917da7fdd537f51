use spatial::geometry::{flatten_for_display, PolygonRings, SourceGeometry};
use spatial::pbf::DisplayGeometryType;
use spatial::wire::encode_quantized_geometry;

fn flatten(geometry: &SourceGeometry<i64>, geometry_type: DisplayGeometryType) -> (Vec<i64>, Vec<u32>) {
    let payload = flatten_for_display(geometry, geometry_type).unwrap();
    (payload.coords, payload.lengths)
}

#[test]
fn points_become_one_part() {
    assert_eq!(
        flatten(&SourceGeometry::Point(Some((3, 4))), DisplayGeometryType::Point),
        (vec![3, 4], vec![1])
    );
    assert_eq!(
        flatten(&SourceGeometry::Point(None), DisplayGeometryType::Point),
        (vec![], vec![0])
    );
    assert_eq!(
        flatten(
            &SourceGeometry::MultiPoint(vec![Some((1, 2)), None, Some((5, 6))]),
            DisplayGeometryType::MultiPoint
        ),
        (vec![1, 2, 5, 6], vec![2])
    );
}

#[test]
fn lines_become_one_part_each() {
    assert_eq!(
        flatten(
            &SourceGeometry::LineString(vec![(0, 0), (1, 1), (2, 0)]),
            DisplayGeometryType::Polyline
        ),
        (vec![0, 0, 1, 1, 2, 0], vec![3])
    );
    assert_eq!(
        flatten(
            &SourceGeometry::MultiLineString(vec![vec![(0, 0), (1, 0)], vec![], vec![(5, 5)]]),
            DisplayGeometryType::Polyline
        ),
        (vec![0, 0, 1, 0, 5, 5], vec![2, 0, 1])
    );
}

#[test]
fn polygons_become_one_part_per_ring() {
    let polygon = PolygonRings {
        exterior: Some(vec![(0, 0), (2, 0), (2, 1), (0, 0)]),
        interiors: vec![vec![(1, 1), (1, 2), (1, 1)]],
    };
    assert_eq!(
        flatten(&SourceGeometry::Polygon(polygon), DisplayGeometryType::Polygon),
        (vec![0, 0, 2, 0, 2, 1, 0, 0, 1, 1, 1, 2, 1, 1], vec![4, 3])
    );
    let empty = PolygonRings {
        exterior: None,
        interiors: vec![],
    };
    assert_eq!(
        flatten(&SourceGeometry::Polygon(empty), DisplayGeometryType::Polygon),
        (vec![], vec![0])
    );
    let first = PolygonRings {
        exterior: Some(vec![(0, 0), (1, 0), (1, 1)]),
        interiors: vec![],
    };
    let second = PolygonRings {
        exterior: None,
        interiors: vec![vec![(7, 7)]],
    };
    assert_eq!(
        flatten(
            &SourceGeometry::MultiPolygon(vec![first, second]),
            DisplayGeometryType::Polygon
        ),
        (vec![0, 0, 1, 0, 1, 1, 7, 7], vec![3, 0, 1])
    );
}

#[test]
fn geometries_outside_the_display_category_are_refused() {
    let err = flatten_for_display(&SourceGeometry::Point(Some((1, 1))), DisplayGeometryType::Polygon)
        .err()
        .unwrap();
    assert_eq!(err.geometry_type, DisplayGeometryType::Polygon);
    assert!(flatten_for_display(
        &SourceGeometry::LineString(vec![(0i64, 0)]),
        DisplayGeometryType::Point
    )
    .is_err());
    assert!(flatten_for_display(&SourceGeometry::<i64>::Other, DisplayGeometryType::Polyline).is_err());
    assert!(flatten_for_display(
        &SourceGeometry::MultiPoint(vec![Some((0i64, 0))]),
        DisplayGeometryType::Point
    )
    .is_err());
}

#[test]
fn flattened_polygon_feeds_the_encoder() {
    let polygon = PolygonRings {
        exterior: Some(vec![(0, 0), (1, 0), (1, 1), (0, 0)]),
        interiors: vec![],
    };
    let payload = flatten_for_display(&SourceGeometry::Polygon(polygon), DisplayGeometryType::Polygon)
        .unwrap();
    let bytes = encode_quantized_geometry(&payload.coords, &payload.lengths, 3).unwrap();
    assert_eq!(bytes[0], 0x12);
    assert_eq!(&bytes[..3], &[0x12, 0x01, 0x04]);
}
