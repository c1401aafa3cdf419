use lidar_tiles::quadtree::{Aabb, Point, QuadTree};

fn pt(x: i64, y: i64, z: i64) -> Point {
    Point {
        morton: 0,
        x,
        y,
        z,
        r: 0xffff,
        g: 0xffff,
        b: 0x0000,
        classification: 0,
        is_edge_of_flight_line: false,
        is_synthetic: false,
        is_key_point: false,
        is_withheld: false,
        is_overlap: false,
    }
}

fn square(x_min: i64, x_max: i64, y_min: i64, y_max: i64) -> Aabb {
    Aabb { x_min, x_max, y_min, y_max, z_min: 0, z_max: 1 }
}

fn count_points(t: &QuadTree) -> usize {
    let mut n = t.points.len();
    if let Some(q) = &t.children {
        n += count_points(&q.tl);
        n += count_points(&q.tr);
        n += count_points(&q.bl);
        n += count_points(&q.br);
    }
    n
}

fn check_containment(t: &QuadTree) {
    for p in &t.points {
        assert!(t.bounds.x_min <= p.x && p.x < t.bounds.x_max);
        assert!(t.bounds.y_min <= p.y && p.y < t.bounds.y_max);
    }
    if let Some(q) = &t.children {
        check_containment(&q.tl);
        check_containment(&q.tr);
        check_containment(&q.bl);
        check_containment(&q.br);
    }
}

#[test]
fn four_collinear_points_capacity_one_splits() {
    let mut tree = QuadTree::new(square(0, 4, 0, 4), 1, 1);
    let pts = [pt(0, 0, 0), pt(1, 0, 0), pt(2, 0, 0), pt(3, 0, 0)];
    for (i, p) in pts.iter().enumerate() {
        tree.insert(p, i, pts.len());
    }
    assert!(tree.children.is_some());
    assert_eq!(tree.points.len(), 1);
    assert_eq!(count_points(&tree), 4);
    check_containment(&tree);
}

#[test]
fn sixteen_point_grid_capacity_four() {
    // A 4x4 grid over [0,3]x[0,3], handed over one quadrant at a time, with
    // capacity 4: the root keeps one point per quadrant, then splits, and
    // each child keeps its quadrant's remaining three.
    let mut tree = QuadTree::new(square(0, 4, 0, 4), 1, 4);
    let rounds = [
        [(0, 0), (2, 0), (0, 2), (2, 2)],
        [(1, 0), (3, 0), (1, 2), (3, 2)],
        [(0, 1), (2, 1), (0, 3), (2, 3)],
        [(1, 1), (3, 1), (1, 3), (3, 3)],
    ];
    let mut index = 0;
    for round in &rounds {
        for &(x, y) in round {
            tree.insert(&pt(x, y, 0), index, 16);
            index += 1;
        }
    }
    assert_eq!(tree.points.len(), 4);
    let q = tree.children.as_ref().expect("the root must have split");
    assert_eq!(q.tl.points.len(), 3);
    assert_eq!(q.tr.points.len(), 3);
    assert_eq!(q.bl.points.len(), 3);
    assert_eq!(q.br.points.len(), 3);
    assert_eq!(count_points(&tree), 16);
    check_containment(&tree);
}

#[test]
fn children_tile_parent_exactly() {
    let mut tree = QuadTree::new(square(0, 5, 0, 5), 1, 1);
    // Force a split.
    tree.insert(&pt(0, 0, 0), 0, 2);
    tree.insert(&pt(4, 4, 0), 1, 2);
    let q = tree.children.as_ref().expect("the root must have split");
    // Every cell of the parent's extent lies in exactly one child.
    for x in 0..5i64 {
        for y in 0..5i64 {
            let p = pt(x, y, 0);
            let inside = [&q.tl, &q.tr, &q.bl, &q.br]
                .iter()
                .filter(|c| {
                    c.bounds.x_min <= p.x
                        && p.x < c.bounds.x_max
                        && c.bounds.y_min <= p.y
                        && p.y < c.bounds.y_max
                })
                .count();
            assert_eq!(inside, 1, "cell ({x},{y}) must lie in exactly one quadrant");
        }
    }
    // Children keep the parent's z extent and quarter its x/y area.
    assert_eq!(q.tl.bounds.z_min, tree.bounds.z_min);
    assert_eq!(q.tl.bounds.z_max, tree.bounds.z_max);
    assert_eq!(q.bl.bounds.x_min, 0);
    assert_eq!(q.bl.bounds.x_max, 2);
    assert_eq!(q.br.bounds.x_min, 2);
    assert_eq!(q.br.bounds.x_max, 5);
}

#[test]
fn point_outside_root_is_ignored() {
    let mut tree = QuadTree::new(square(0, 4, 0, 4), 1, 2);
    tree.insert(&pt(4, 0, 0), 0, 3);
    tree.insert(&pt(-1, 2, 0), 1, 3);
    tree.insert(&pt(2, 4, 0), 2, 3);
    assert_eq!(count_points(&tree), 0);
}

#[test]
fn dense_regime_keeps_stride_points_at_root() {
    // 32 points, capacity 1: the stride at the root is 32, so only the
    // first point (index + 1 - depth == 0) stays there; the second goes to
    // a child.
    let mut tree = QuadTree::new(square(0, 4, 0, 4), 1, 1);
    tree.insert(&pt(0, 0, 0), 0, 32);
    tree.insert(&pt(1, 1, 0), 1, 32);
    assert_eq!(tree.points.len(), 1);
    assert_eq!(tree.points[0].x, 0);
    assert!(tree.children.is_some());
    assert_eq!(count_points(&tree), 2);
    check_containment(&tree);
}
