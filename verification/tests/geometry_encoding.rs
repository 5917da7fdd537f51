use prost::encoding::decode_varint;

use spatial::pbf::{encode_quantized_parts, min_vertex_count, DisplayGeometryType, GeometryFamily};
use spatial::wire::{
    encode_quantized_geometry, encode_quantized_geometry_owned_with_scratch,
    encode_quantized_geometry_with_scratch, encode_varint, zigzag_encode, GeometryEncodeScratch,
};

fn encode(coords: &[i64], lengths: &[u32], min_length: u32) -> (Vec<u32>, Vec<i64>) {
    let mut out_coords = Vec::new();
    let mut out_lengths = Vec::new();
    assert!(encode_quantized_parts(coords, lengths, min_length, &mut out_coords, &mut out_lengths));
    (out_lengths, out_coords)
}

fn unzigzag(z: u64) -> i64 {
    ((z >> 1) as i64) ^ -((z & 1) as i64)
}

/// Decode the packed `lengths` (field 2) and zigzag `coords` (field 3) of a geometry message.
fn decode_geometry(bytes: &[u8]) -> (Vec<u32>, Vec<i64>) {
    let mut buf = bytes;
    let mut lengths = Vec::new();
    let mut coords = Vec::new();
    while !buf.is_empty() {
        let key = decode_varint(&mut buf).unwrap();
        assert_eq!(key & 7, 2, "packed fields use length-delimited wire type");
        let len = decode_varint(&mut buf).unwrap() as usize;
        let (mut payload, rest) = buf.split_at(len);
        buf = rest;
        while !payload.is_empty() {
            let value = decode_varint(&mut payload).unwrap();
            match key >> 3 {
                2 => lengths.push(value as u32),
                3 => coords.push(unzigzag(value)),
                other => panic!("unexpected field {other}"),
            }
        }
    }
    (lengths, coords)
}

#[test]
fn quantized_encoding_merges_collinear_lines() {
    let (lengths, coords) = encode(&[0, 0, 1, 1, 2, 2], &[3], 2);
    assert_eq!(lengths, vec![2]);
    assert_eq!(coords, vec![0, 0, 2, 2]);
}

#[test]
fn quantized_encoding_drops_duplicate_snapped_vertices() {
    let (lengths, coords) = encode(&[0, 0, 0, 0, 1, 1, 1, 1], &[4], 2);
    assert_eq!(lengths, vec![2]);
    assert_eq!(coords, vec![0, 0, 1, 1]);
}

#[test]
fn quantized_encoding_drops_parts_below_min_length() {
    let (lengths, coords) = encode(&[0, 0, 0, 0], &[2], 2);
    assert!(lengths.is_empty());
    assert!(coords.is_empty());
}

#[test]
fn quantized_encoding_keeps_turns_and_reversals() {
    let (lengths, coords) = encode(&[0, 0, 2, 0, 2, 2, 0, 0], &[4], 3);
    assert_eq!(lengths, vec![4]);
    assert_eq!(coords, vec![0, 0, 2, 0, 0, 2, -2, -2]);
    let (lengths, coords) = encode(&[0, 0, 2, 0, 1, 0], &[3], 2);
    assert_eq!(lengths, vec![3]);
    assert_eq!(coords, vec![0, 0, 2, 0, -1, 0]);
}

#[test]
fn quantized_encoding_handles_several_parts() {
    let (lengths, coords) = encode(&[0, 0, 5, 5, 9, 9, 9, 9, 7, 1, 7, 2], &[2, 2, 2], 2);
    assert_eq!(lengths, vec![2, 2]);
    assert_eq!(coords, vec![0, 0, 5, 5, 7, 1, 0, 1]);
}

#[test]
fn quantized_encoding_reports_overflowing_deltas() {
    let mut out_coords = Vec::new();
    let mut out_lengths = Vec::new();
    assert!(!encode_quantized_parts(
        &[i64::MIN, 0, i64::MAX, 0],
        &[2],
        2,
        &mut out_coords,
        &mut out_lengths
    ));
    assert!(encode_quantized_geometry(&[i64::MIN, 0, i64::MAX, 0], &[2], 2).is_none());
}

#[test]
fn pbf_encodes_polygon_pbf() {
    let bytes = encode_quantized_geometry(&[0, 0, 1, 0, 1, 1, 0, 0], &[4], 3).unwrap();
    let (lengths, coords) = decode_geometry(&bytes);
    assert_eq!(lengths, vec![4]);
    assert_eq!(coords.len(), 8);
    assert_eq!(coords, vec![0, 0, 1, 0, 0, 1, -1, -1]);
}

#[test]
fn wire_encodes_polygon_pbf() {
    let mut scratch = GeometryEncodeScratch::new();
    assert!(encode_quantized_geometry_with_scratch(
        &[0, 0, 1, 0, 1, 1, 0, 0],
        &[4],
        3,
        &mut scratch
    ));
    let (lengths, coords) = decode_geometry(scratch.encoded());
    assert_eq!(lengths, vec![4]);
    assert_eq!(coords.len(), 8);
    let owned =
        encode_quantized_geometry_owned_with_scratch(&[0, 0, 1, 0, 1, 1, 0, 0], &[4], 3, &mut scratch)
            .unwrap();
    assert_eq!(owned.as_slice(), scratch.encoded());
}

#[test]
fn empty_geometry_encodes_to_no_bytes() {
    assert_eq!(encode_quantized_geometry(&[], &[], 2).unwrap(), Vec::<u8>::new());
    assert_eq!(encode_quantized_geometry(&[0, 0], &[1], 2).unwrap(), Vec::<u8>::new());
}

#[test]
fn varints_match_the_protobuf_decoder() {
    for value in [0u64, 1, 127, 128, 300, 16_383, 16_384, u32::MAX as u64, u64::MAX] {
        let mut buf = Vec::new();
        encode_varint(value, &mut buf);
        let mut slice = buf.as_slice();
        assert_eq!(decode_varint(&mut slice).unwrap(), value);
        assert!(slice.is_empty());
    }
    let mut buf = Vec::new();
    encode_varint(300, &mut buf);
    assert_eq!(buf, vec![0xac, 0x02]);
}

#[test]
fn zigzag_maps_signed_values_to_unsigned() {
    assert_eq!(zigzag_encode(0), 0);
    assert_eq!(zigzag_encode(-1), 1);
    assert_eq!(zigzag_encode(1), 2);
    assert_eq!(zigzag_encode(-2), 3);
    assert_eq!(zigzag_encode(i64::MAX), u64::MAX - 1);
    assert_eq!(zigzag_encode(i64::MIN), u64::MAX);
}

#[test]
fn display_categories_have_vertex_minimums_and_families() {
    assert_eq!(min_vertex_count(DisplayGeometryType::Point), 1);
    assert_eq!(min_vertex_count(DisplayGeometryType::MultiPoint), 1);
    assert_eq!(min_vertex_count(DisplayGeometryType::Polyline), 2);
    assert_eq!(min_vertex_count(DisplayGeometryType::Polygon), 3);
    assert_eq!(DisplayGeometryType::Point.family(), GeometryFamily::Point);
    assert_eq!(DisplayGeometryType::MultiPoint.family(), GeometryFamily::NonPoint);
    assert_eq!(DisplayGeometryType::Polygon.family(), GeometryFamily::NonPoint);
}
