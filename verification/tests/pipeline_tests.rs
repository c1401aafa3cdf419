use lidar_tiles::builder::{build_overview_tree, distribute_file_points};
use lidar_tiles::morton::{assign_mortons, quantize};
use lidar_tiles::pnts::package_points;
use lidar_tiles::quadtree::{Point, QuadTree};
use lidar_tiles::spatial_extent::SpatialExtent;
use lidar_tiles::tiles::{build_global_tileset, create_tile, geometric_error_of, make_child_uri,
    TileSetRootChild, TileSetRootContent};

fn pt(x: i64, y: i64, z: i64) -> Point {
    Point {
        morton: 0,
        x,
        y,
        z,
        r: 0xffff,
        g: 0xffff,
        b: 0x0000,
        classification: 0,
        is_edge_of_flight_line: false,
        is_synthetic: false,
        is_key_point: false,
        is_withheld: false,
        is_overlap: false,
    }
}

fn count_points(t: &QuadTree) -> usize {
    let mut n = t.points.len();
    if let Some(q) = &t.children {
        n += count_points(&q.tl);
        n += count_points(&q.tr);
        n += count_points(&q.bl);
        n += count_points(&q.br);
    }
    n
}

#[test]
fn quantize_grid_values() {
    // round(u32::MAX * 1 / 3) — exact, since (2^32 - 1) is divisible by 3.
    assert_eq!(quantize(1, 0, 3), 1431655765);
    assert_eq!(quantize(0, 0, 3), 0);
    assert_eq!(quantize(3, 0, 3), u32::MAX);
    // The halfway case rounds up.
    assert_eq!(quantize(1, 0, 2), 2147483648);
    // A degenerate axis quantizes to 0.
    assert_eq!(quantize(5, 5, 5), 0);
}

#[test]
fn morton_codes_interleave_x_into_even_bits() {
    let mut e = SpatialExtent::default();
    let pts = vec![pt(0, 0, 0), pt(3, 0, 0), pt(0, 3, 0), pt(3, 3, 0)];
    for p in &pts {
        e.update(p);
    }
    let coded = assign_mortons(&pts, &e);
    assert_eq!(coded[0].morton, 0);
    assert_eq!(coded[1].morton, 0x5555_5555_5555_5555);
    assert_eq!(coded[2].morton, 0xAAAA_AAAA_AAAA_AAAA);
    assert_eq!(coded[3].morton, u64::MAX);
}

#[test]
fn distribution_follows_morton_order() {
    // Inputs arrive in descending Morton order, with two points sharing one
    // code. The sparse-regime root retains points in sorted order, so the
    // lowest code comes first and the equal codes keep their input order.
    let mut tied_first = pt(3, 3, 1);
    tied_first.classification = 1;
    let mut tied_second = pt(3, 3, 2);
    tied_second.classification = 2;
    let pts = vec![tied_first, tied_second, pt(1, 1, 0), pt(0, 0, 0)];
    let (tree, promoted) = distribute_file_points(&pts, 100);
    assert!(promoted.is_empty());
    assert!(tree.children.is_none());
    assert_eq!(tree.points.len(), 4);
    assert_eq!((tree.points[0].x, tree.points[1].x), (0, 1));
    assert_eq!(tree.points[2].classification, 1);
    assert_eq!(tree.points[3].classification, 2);
}

#[test]
fn spatial_extent_update_tracks_min_max() {
    let mut e = SpatialExtent::default();
    assert_eq!(e.x_min, i64::MAX);
    assert_eq!(e.x_max, i64::MIN);
    e.update(&pt(3, -2, 10));
    e.update(&pt(-1, 5, 7));
    assert_eq!((e.x_min, e.x_max), (-1, 3));
    assert_eq!((e.y_min, e.y_max), (-2, 5));
    assert_eq!((e.z_min, e.z_max), (7, 10));
}

#[test]
fn geometric_error_is_half_diagonal() {
    let mut tree = QuadTree::new(
        lidar_tiles::quadtree::Aabb { x_min: 0, x_max: 8, y_min: 0, y_max: 6, z_min: 0, z_max: 0 },
        1,
        1,
    );
    // hw = 4, hl = 3: sqrt(16 + 9) = 5.
    assert_eq!(geometric_error_of(&tree.bounds), 5);
    tree.insert(&pt(1, 1, 0), 0, 1);
    let t = create_tile(&tree);
    // A leaf's geometric error is 0 at both levels.
    assert_eq!(t.geometric_error, 0);
    assert_eq!(t.root.geometric_error, 0);
    assert_eq!(t.root.content.uri, "root.pnts");
    assert_eq!(t.root.refine, "ADD");
    assert_eq!(t.asset.version, "1.0");
}

#[test]
fn split_node_tileset_lists_quadrant_children() {
    let pts = vec![pt(0, 0, 0), pt(1, 1, 1), pt(2, 2, 2), pt(3, 3, 3)];
    let (tree, _) = distribute_file_points(&pts, 1);
    assert!(tree.children.is_some());
    let t = create_tile(&tree);
    // An interior node's tileset-level error equals its root entry's.
    assert_eq!(t.geometric_error, t.root.geometric_error);
    let cs = t.root.children.as_ref().unwrap();
    assert_eq!(cs.len(), 4);
    assert_eq!(cs[0].content.uri, "0/tileset.json");
    assert_eq!(cs[1].content.uri, "1/tileset.json");
    assert_eq!(cs[2].content.uri, "2/tileset.json");
    assert_eq!(cs[3].content.uri, "3/tileset.json");
    for c in cs.iter() {
        assert_eq!(c.refine, "ADD");
    }
}

#[test]
fn empty_node_volume_falls_back_to_stored_box() {
    // A node with no points: both z fields of the bounding volume come from
    // the stored box.
    let tree = QuadTree::new(
        lidar_tiles::quadtree::Aabb { x_min: 0, x_max: 4, y_min: 0, y_max: 4, z_min: 2, z_max: 12 },
        1,
        4,
    );
    let v = lidar_tiles::tiles::TileSetRootBoundingVolume::new(&tree);
    assert_eq!(v.bbox, [2, 2, 7, 2, 0, 0, 0, 2, 0, 0, 0, 5]);
}

#[test]
fn empty_file_tileset() {
    let pts: Vec<Point> = vec![];
    let (tree, promoted) = distribute_file_points(&pts, 100000);
    assert_eq!(count_points(&tree), 0);
    assert!(promoted.is_empty());
    assert!(tree.children.is_none());
    let t = create_tile(&tree);
    // Zero-extent bounding volume at the origin.
    assert_eq!(t.root.bounding_volume.bbox, [0i64; 12]);
    assert_eq!(t.geometric_error, 0);
    assert!(t.root.children.is_none());
}

#[test]
fn single_projected_point() {
    // One LAS record at lat 45, lon 16, h 100, projected to geocentric
    // coordinates (the file's y field is the latitude) and scaled to
    // millimeter units.
    let (lat, lon, h) = (45.0f64, 16.0f64, 100.0f64);
    let t = 1.0 - 1.0 / 298.257223563;
    let lat_r = lat.to_radians();
    let lon_r = lon.to_radians();
    let nn = 6378137.0 / (1.0 - (1.0 - t * t) * lat_r.sin() * lat_r.sin()).sqrt();
    let x = (nn + h) * lat_r.cos() * lon_r.cos();
    let y = (nn + h) * lat_r.cos() * lon_r.sin();
    let z = (t * t * nn + h) * lat_r.sin();
    let p = pt((x * 1000.0).round() as i64, (y * 1000.0).round() as i64, (z * 1000.0).round() as i64);

    let (tree, promoted) = distribute_file_points(&vec![p], 100000);
    assert!(promoted.is_empty());
    assert!(tree.children.is_none());
    assert_eq!(tree.points.len(), 1);
    assert_eq!(tree.points[0].x, p.x);

    // The single point sits at the box minimum, which is also the center of
    // the one-unit-wide half-open box: its relative position is (0,0,0).
    assert_eq!(tree.bounds.x_min, p.x);
    assert_eq!(tree.bounds.x_max, p.x + 1);
    let bits = vec![0u32, 0, 0];
    let rtc: Vec<u8> = b"[0.0,0.0,0.0]".to_vec();
    let out = package_points(&tree.points, &bits, &rtc);
    let ft_json_len =
        u32::from_le_bytes([out[12], out[13], out[14], out[15]]) as usize;
    let body = &out[28 + ft_json_len..];
    assert_eq!(&body[0..12], &[0u8; 12]);
    assert_eq!(&body[12..15], &[0xff, 0xff, 0x00]);
}

#[test]
fn conservation_and_determinism() {
    // Tree points plus promoted points together are exactly the input.
    let mut pts: Vec<Point> = Vec::new();
    for i in 0..40i64 {
        pts.push(pt((i * 7) % 23, (i * 13) % 19, i));
    }
    let (tree, promoted) = distribute_file_points(&pts, 2);
    assert_eq!(count_points(&tree) + promoted.len(), pts.len());
    assert!(!promoted.is_empty());

    // A second run over the same input gives an identical tree payload.
    let (tree2, promoted2) = distribute_file_points(&pts, 2);
    assert_eq!(promoted.len(), promoted2.len());
    let bits = vec![0u32; 3 * tree.points.len()];
    let rtc: Vec<u8> = b"[0.0,0.0,0.0]".to_vec();
    let a = package_points(&tree.points, &bits, &rtc);
    let b = package_points(&tree2.points, &bits, &rtc);
    assert_eq!(a, b);
}

#[test]
fn two_file_global_tileset() {
    // Two inputs with disjoint extents; capacity 1 promotes the first point
    // of each sorted stream.
    let file_a = vec![pt(0, 0, 0), pt(1, 1, 1), pt(2, 2, 2), pt(3, 3, 3)];
    let file_b = vec![pt(1000, 1000, 50), pt(1001, 1002, 60), pt(1003, 1001, 70)];
    let (tree_a, promoted_a) = distribute_file_points(&file_a, 1);
    let (tree_b, promoted_b) = distribute_file_points(&file_b, 1);
    assert!(!promoted_a.is_empty());
    assert!(!promoted_b.is_empty());
    assert_eq!(count_points(&tree_a) + promoted_a.len(), 4);
    assert_eq!(count_points(&tree_b) + promoted_b.len(), 3);

    let mut union: Vec<Point> = Vec::new();
    union.extend_from_slice(&promoted_a);
    union.extend_from_slice(&promoted_b);
    let overview = build_overview_tree(&union);
    // The global payload holds exactly the union of the promoted points.
    assert_eq!(count_points(&overview), union.len());

    let children = vec![
        TileSetRootChild {
            content: TileSetRootContent { uri: make_child_uri("a") },
            bounding_volume: lidar_tiles::tiles::TileSetRootBoundingVolume::new(&tree_a),
            geometric_error: geometric_error_of(&tree_a.bounds),
            refine: "ADD".to_string(),
        },
        TileSetRootChild {
            content: TileSetRootContent { uri: make_child_uri("b") },
            bounding_volume: lidar_tiles::tiles::TileSetRootBoundingVolume::new(&tree_b),
            geometric_error: geometric_error_of(&tree_b.bounds),
            refine: "ADD".to_string(),
        },
    ];
    let global = build_global_tileset(children, &overview);
    let cs = global.root.children.as_ref().unwrap();
    assert_eq!(cs[0].content.uri, "a/tileset.json");
    assert_eq!(cs[1].content.uri, "b/tileset.json");
    assert_eq!(global.root.content.uri, "root.pnts");
    assert_eq!(global.geometric_error, 5 * global.root.geometric_error);

    // The overview's bounding volume spans the whole promoted sample, which
    // has one point from each file's extent.
    let bbox = &global.root.bounding_volume.bbox;
    let (cx, hw) = (bbox[0], bbox[3]);
    let ux_min = union.iter().map(|p| p.x).min().unwrap();
    let ux_max = union.iter().map(|p| p.x).max().unwrap();
    assert!(ux_max >= 1000 && ux_min <= 3);
    assert_eq!(cx - hw, ux_min);
    assert!(ux_max <= cx + hw);
}
