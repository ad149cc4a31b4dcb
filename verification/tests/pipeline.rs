//! Scenario tests that run the floating-point front half of the pipeline —
//! perceptual conversion and grid quantization, as the host application
//! performs them — and feed the keyed stream to the verified palette core.

use kolor::ColorConversion;
use voxel_palette::build_palette;
use voxel_palette::Color;
use voxel_palette::VoxelPoint;

const SCALE: f32 = 100.0;

fn perceptual(r: u8, g: u8, b: u8) -> (f32, f32, f32) {
    let to_oklab = ColorConversion::new(kolor::spaces::ENCODED_SRGB, kolor::spaces::OKLAB);
    let c = to_oklab.convert(kolor::Vec3::new(
        f32::from(r) / 255.0,
        f32::from(g) / 255.0,
        f32::from(b) / 255.0,
    ));
    (c.y * SCALE, c.x * SCALE, c.z * SCALE)
}

fn quantize_axis(value: f32, voxel_size: f32) -> i32 {
    if voxel_size == 0.0 {
        value.to_bits() as i32
    } else {
        (value / voxel_size).round() as i32
    }
}

fn keyed_pixel(rgb: (u8, u8, u8), voxel_size: f32) -> (VoxelPoint, Color) {
    let (x, y, z) = perceptual(rgb.0, rgb.1, rgb.2);
    let key = VoxelPoint(
        quantize_axis(x, voxel_size),
        quantize_axis(y, voxel_size),
        quantize_axis(z, voxel_size),
    );
    (key, Color::new(rgb.0, rgb.1, rgb.2, 255))
}

fn keyed_stream(rgbs: &[(u8, u8, u8)], voxel_size: f32) -> Vec<(VoxelPoint, Color)> {
    rgbs.iter().map(|&rgb| keyed_pixel(rgb, voxel_size)).collect()
}

#[test]
fn conversion_is_deterministic() {
    for &rgb in &[(0u8, 0u8, 0u8), (255, 255, 255), (12, 200, 53), (1, 1, 1)] {
        let (x1, y1, z1) = perceptual(rgb.0, rgb.1, rgb.2);
        let (x2, y2, z2) = perceptual(rgb.0, rgb.1, rgb.2);
        assert_eq!(x1.to_bits(), x2.to_bits());
        assert_eq!(y1.to_bits(), y2.to_bits());
        assert_eq!(z1.to_bits(), z2.to_bits());
    }
}

#[test]
fn black_and_near_black_share_a_coarse_cell() {
    let black = keyed_pixel((0, 0, 0), 30.0);
    let near_black = keyed_pixel((1, 1, 1), 30.0);
    assert_eq!(black.0, near_black.0);
}

#[test]
fn coarse_collision_keeps_first_presented_color() {
    let order_ab = keyed_stream(&[(0, 0, 0), (1, 1, 1)], 30.0);
    let order_ba = keyed_stream(&[(1, 1, 1), (0, 0, 0)], 30.0);
    let kept_ab = build_palette(&order_ab).entries()[0].1;
    let kept_ba = build_palette(&order_ba).entries()[0].1;
    assert_eq!(kept_ab, Color::new(0, 0, 0, 255));
    assert_eq!(kept_ba, Color::new(1, 1, 1, 255));
    assert_ne!(kept_ab, kept_ba);
}

#[test]
fn coarser_grid_never_grows_the_palette() {
    let rgbs = [(0u8, 0u8, 0u8), (255, 255, 255), (255, 0, 0), (0, 0, 255)];
    let fine = build_palette(&keyed_stream(&rgbs, 1.0));
    let coarse = build_palette(&keyed_stream(&rgbs, 10000.0));
    assert_eq!(fine.len(), 4);
    assert_eq!(coarse.len(), 1);
    assert!(coarse.len() <= fine.len());
}

#[test]
fn zero_voxel_size_counts_distinct_points() {
    let rgbs = [(0u8, 0u8, 0u8), (255, 255, 255), (0, 0, 0), (10, 20, 30)];
    let stream = keyed_stream(&rgbs, 0.0);
    let mut distinct_points: Vec<(u32, u32, u32)> = Vec::new();
    for &rgb in &rgbs {
        let (x, y, z) = perceptual(rgb.0, rgb.1, rgb.2);
        let bits = (x.to_bits(), y.to_bits(), z.to_bits());
        if !distinct_points.contains(&bits) {
            distinct_points.push(bits);
        }
    }
    let m = build_palette(&stream);
    assert_eq!(m.len(), distinct_points.len());
    assert_eq!(m.len(), 3);
}
