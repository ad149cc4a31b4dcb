use voxel_palette::build_palette;
use voxel_palette::Color;
use voxel_palette::VoxelMap;
use voxel_palette::VoxelPoint;

fn gray(v: u8) -> Color {
    Color::new(v, v, v, 255)
}

#[test]
fn empty_stream_gives_empty_palette() {
    let items: Vec<(VoxelPoint, Color)> = Vec::new();
    let m = build_palette(&items);
    assert_eq!(m.len(), 0);
    assert!(m.entries().is_empty());
}

#[test]
fn first_wins_order_ab() {
    let k = VoxelPoint(1, -2, 3);
    let items = vec![(k, gray(0)), (k, gray(1))];
    let m = build_palette(&items);
    assert_eq!(m.len(), 1);
    assert_eq!(m.entries()[0], (k, gray(0)));
}

#[test]
fn first_wins_order_ba() {
    let k = VoxelPoint(1, -2, 3);
    let items = vec![(k, gray(1)), (k, gray(0))];
    let m = build_palette(&items);
    assert_eq!(m.len(), 1);
    assert_eq!(m.entries()[0], (k, gray(1)));
}

#[test]
fn repeated_stream_builds_same_palette() {
    let a = (VoxelPoint(0, 0, 0), gray(10));
    let b = (VoxelPoint(5, 5, 5), gray(20));
    let c = (VoxelPoint(0, 0, 0), gray(30));
    let once = vec![a, b, c];
    let mut twice = once.clone();
    twice.extend_from_slice(&once);
    let m1 = build_palette(&once);
    let m2 = build_palette(&twice);
    assert_eq!(m1.entries(), m2.entries());
    assert_eq!(m1.len(), 2);
}

#[test]
fn collision_free_stream_passes_through() {
    let items = vec![
        (VoxelPoint(0, 0, 0), gray(1)),
        (VoxelPoint(1, 0, 0), gray(2)),
        (VoxelPoint(0, 1, 0), gray(3)),
        (VoxelPoint(0, 0, 1), gray(4)),
    ];
    let m = build_palette(&items);
    assert_eq!(m.len(), items.len());
    assert_eq!(m.entries(), &items);
}

#[test]
fn palette_never_larger_than_stream() {
    let items = vec![
        (VoxelPoint(0, 0, 0), gray(1)),
        (VoxelPoint(1, 1, 1), gray(2)),
        (VoxelPoint(0, 0, 0), gray(3)),
        (VoxelPoint(1, 1, 1), gray(4)),
        (VoxelPoint(2, 2, 2), gray(5)),
    ];
    let m = build_palette(&items);
    assert!(m.len() <= items.len());
    assert_eq!(m.len(), 3);
}

#[test]
fn palette_counts_distinct_addresses() {
    let items = vec![
        (VoxelPoint(0, 0, 0), gray(1)),
        (VoxelPoint(7, 0, 0), gray(2)),
        (VoxelPoint(0, 0, 0), gray(3)),
        (VoxelPoint(-7, 0, 0), gray(4)),
        (VoxelPoint(7, 0, 0), gray(5)),
    ];
    let m = build_palette(&items);
    assert_eq!(m.len(), 3);
}

#[test]
fn check_pos_reports_membership() {
    let mut m: VoxelMap<Color> = VoxelMap::new();
    let k = VoxelPoint(4, 5, 6);
    assert!(!m.check_pos(&k));
    m.put(k, gray(9));
    assert!(m.check_pos(&k));
    assert!(!m.check_pos(&VoxelPoint(4, 5, 7)));
}

#[test]
fn put_overwrites_in_place() {
    let mut m: VoxelMap<Color> = VoxelMap::new();
    let k1 = VoxelPoint(1, 0, 0);
    let k2 = VoxelPoint(2, 0, 0);
    m.put(k1, gray(1));
    m.put(k2, gray(2));
    m.put(k1, gray(3));
    assert_eq!(m.len(), 2);
    assert_eq!(m.entries()[0], (k1, gray(3)));
    assert_eq!(m.entries()[1], (k2, gray(2)));
}

#[test]
fn insert_if_absent_keeps_first_color() {
    let mut m: VoxelMap<Color> = VoxelMap::new();
    let k = VoxelPoint(0, 0, 0);
    m.insert_if_absent(k, gray(1));
    m.insert_if_absent(k, gray(2));
    assert_eq!(m.len(), 1);
    assert_eq!(m.entries()[0], (k, gray(1)));
}

#[test]
fn voxel_point_add_is_componentwise() {
    let p = VoxelPoint(1, -2, 3).add(VoxelPoint(10, 20, -30));
    assert_eq!(p, VoxelPoint(11, 18, -27));
}

#[test]
fn color_new_packs_channels() {
    let c = Color::new(1, 2, 3, 4);
    assert_eq!((c.r, c.g, c.b, c.a), (1, 2, 3, 4));
}
