use spatial::clustering::{clamp_to_cells, swizzle_bits, DEFAULT_COORDINATE_PRECISION};

#[test]
fn swizzle_bits_interleaves_xy_bits() {
    assert_eq!(swizzle_bits(0, 0, 4), 0);
    assert_eq!(swizzle_bits(1, 0, 4), 1);
    assert_eq!(swizzle_bits(0, 1, 4), 2);
    assert_eq!(swizzle_bits(1, 1, 4), 3);
    assert_eq!(swizzle_bits(3, 3, 2), 15);
}

#[test]
fn swizzle_bits_ignores_bits_beyond_precision() {
    assert_eq!(swizzle_bits(0b100, 0, 2), 0);
    assert_eq!(swizzle_bits(0b101, 0b010, 3), 0b011001);
    assert_eq!(swizzle_bits(u32::MAX, u32::MAX, 40), u64::MAX);
    assert_eq!(swizzle_bits(u32::MAX, 0, 32), 0x5555_5555_5555_5555);
}

#[test]
fn swizzle_bits_deinterleaves_back() {
    let (x, y) = (0x1234_u32, 0xabcd_u32);
    let code = swizzle_bits(x, y, DEFAULT_COORDINATE_PRECISION);
    let mut rx = 0u32;
    let mut ry = 0u32;
    for bit in 0..DEFAULT_COORDINATE_PRECISION {
        rx |= (((code >> (2 * bit)) & 1) as u32) << bit;
        ry |= (((code >> (2 * bit + 1)) & 1) as u32) << bit;
    }
    assert_eq!((rx, ry), (x, y));
}

#[test]
fn clamps_quantized_positions_into_the_grid() {
    assert_eq!(clamp_to_cells(-5, 2), 0);
    assert_eq!(clamp_to_cells(0, 2), 0);
    assert_eq!(clamp_to_cells(2, 2), 2);
    assert_eq!(clamp_to_cells(4, 2), 3);
    assert_eq!(clamp_to_cells(i64::MAX, 40), u32::MAX);
    assert_eq!(clamp_to_cells(7, 0), 0);
}

use spatial::expr::Extent2D;

/// Normalize within the extent with floating-point arithmetic, then clamp and interleave with
/// the library.
fn point_z_code(full_extent: Extent2D<f64>, x: f64, y: f64, coordinate_precision: u32) -> u64 {
    let quantize = |value: f64, min: f64, max: f64| -> u32 {
        if coordinate_precision == 0 || (max - min).abs() < f64::EPSILON {
            return 0;
        }
        let cell_count = 1u64 << coordinate_precision.min(32);
        let normalized = (value - min) / (max - min);
        clamp_to_cells((normalized * cell_count as f64) as i64, coordinate_precision)
    };
    swizzle_bits(
        quantize(x, full_extent.xmin, full_extent.xmax),
        quantize(y, full_extent.ymin, full_extent.ymax),
        coordinate_precision,
    )
}

#[test]
fn point_z_code_normalizes_against_full_extent() {
    let full_extent = Extent2D {
        xmin: -180.0,
        ymin: -90.0,
        xmax: 180.0,
        ymax: 90.0,
    };

    assert_eq!(point_z_code(full_extent, -180.0, -90.0, 4), 0);
    assert_eq!(point_z_code(full_extent, 180.0, 90.0, 2), 15);
    assert_eq!(point_z_code(full_extent, 0.0, 0.0, 1), 3);
}

#[test]
fn point_z_code_uses_cell_quantization() {
    let full_extent = Extent2D {
        xmin: 0.0,
        ymin: 0.0,
        xmax: 1.0,
        ymax: 1.0,
    };

    assert_eq!(point_z_code(full_extent, 0.2, 0.0, 2), 0);
    assert_eq!(point_z_code(full_extent, 0.25, 0.0, 2), 1);
    assert_eq!(point_z_code(full_extent, 1.0, 1.0, 2), 15);
}
