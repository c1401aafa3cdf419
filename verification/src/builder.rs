use vstd::prelude::*;
use crate::quadtree::{Aabb, Point, QuadTree, TreeModel, coord_bound, in_coord_range};
use crate::spatial_extent::{SpatialExtent, extent_empty, extent_model, lemma_extent_model_covers};
use crate::morton::{assign_mortons, sort_by_morton, with_mortons, stable_morton_perm, is_morton_sort_of};

verus! {

/// The extent of a stream of in-range points stays in range.
pub proof fn lemma_extent_model_in_range(pts: Seq<Point>)
    requires
        forall|i: int| 0 <= i < pts.len() ==> in_coord_range(#[trigger] pts[i]),
        pts.len() > 0,
    ensures
        ({
            let e = extent_model(pts);
            &&& -coord_bound() <= e.x_min <= e.x_max <= coord_bound()
            &&& -coord_bound() <= e.y_min <= e.y_max <= coord_bound()
            &&& -coord_bound() <= e.z_min <= e.z_max <= coord_bound()
        }),
    decreases pts.len(),
{
    if pts.len() == 1 {
        assert(extent_model(pts.drop_last()) == extent_empty());
    } else {
        lemma_extent_model_in_range(pts.drop_last());
    }
}

/// The root box over a point stream: the stream's extent, widened by one
/// coordinate unit above the x and y maxima so that the half-open box holds
/// every point, including those on the maxima. An empty stream gets a
/// zero-extent box at the origin.
pub open spec fn file_root_box(pts: Seq<Point>) -> Aabb {
    if pts.len() == 0 {
        Aabb { x_min: 0, x_max: 0, y_min: 0, y_max: 0, z_min: 0, z_max: 0 }
    } else {
        let e = extent_model(pts);
        Aabb {
            x_min: e.x_min,
            x_max: (e.x_max + 1) as i64,
            y_min: e.y_min,
            y_max: (e.y_max + 1) as i64,
            z_min: e.z_min,
            z_max: e.z_max,
        }
    }
}

/// The empty root node over a point stream.
pub open spec fn file_root_model(pts: Seq<Point>, capacity: int) -> TreeModel {
    TreeModel {
        capacity,
        bounds: file_root_box(pts),
        points: Seq::empty(),
        children: Seq::empty(),
        depth: 1,
    }
}

/// The promotion stride for a stream of `n` points: every
/// `(4 * n / capacity)`-th point of the sorted stream is set aside for the
/// global overview instead of entering the file's tree.
pub open spec fn promote_stride(n: int, capacity: int) -> int {
    4 * n / capacity
}

pub open spec fn is_promoted(i: int, n: int, capacity: int) -> bool {
    &&& promote_stride(n, capacity) > 0
    &&& i % promote_stride(n, capacity) == 0
}

/// The promoted points among the first `upto` of the sorted stream `s`, in
/// stream order.
pub open spec fn promoted_prefix(s: Seq<Point>, capacity: int, upto: int) -> Seq<Point>
    decreases upto,
{
    if upto <= 0 {
        Seq::empty()
    } else {
        let prev = promoted_prefix(s, capacity, upto - 1);
        if is_promoted(upto - 1, s.len() as int, capacity) {
            prev.push(s[upto - 1])
        } else {
            prev
        }
    }
}

/// The tree after the first `upto` points of the sorted stream `s` have
/// been distributed: promoted points skipped, all others inserted.
pub open spec fn distributed_prefix(root: TreeModel, s: Seq<Point>, capacity: int, upto: int) -> TreeModel
    decreases upto,
{
    if upto <= 0 {
        root
    } else {
        let prev = distributed_prefix(root, s, capacity, upto - 1);
        if is_promoted(upto - 1, s.len() as int, capacity) {
            prev
        } else {
            prev.insert_model(s[upto - 1], upto - 1, s.len() as int)
        }
    }
}

/// The tree after the first `upto` points of the stream `s` have been
/// inserted, none promoted — the global overview's build.
pub open spec fn inserted_prefix(root: TreeModel, s: Seq<Point>, upto: int) -> TreeModel
    decreases upto,
{
    if upto <= 0 {
        root
    } else {
        inserted_prefix(root, s, upto - 1).insert_model(s[upto - 1], upto - 1, s.len() as int)
    }
}

/// The per-file pipeline after decoding: sizes the root box from the
/// stream's extent, assigns Morton codes over it, sorts, and distributes
/// the sorted stream into a fresh subsampling quadtree, setting every
/// `(4n/capacity)`-th point aside as the promoted sample for the global
/// overview.
///
/// The returned tree and promoted list are exactly the fold of the
/// insertion policy over the stable Morton sort of the coded stream; in
/// particular, together they hold every input point exactly once. The
/// stream cap keeps `4 * n` within a 32-bit `usize` and every node's
/// payload within the `.pnts` header's 32-bit lengths.
pub fn distribute_file_points(points: &Vec<Point>, capacity: usize) -> (r: (QuadTree, Vec<Point>))
    requires
        capacity >= 1,
        points@.len() <= 0x0FFF_FFFF,
        forall|i: int| 0 <= i < points@.len() ==> in_coord_range(#[trigger] points@[i]),
    ensures
        r.0@.wf(),
        r.0@.bounds == file_root_box(points@),
        r.0@.depth == 1,
        r.0@.capacity == capacity as int,
        exists|s: Seq<Point>| {
            &&& #[trigger] is_morton_sort_of(with_mortons(points@, extent_model(points@)), s)
            &&& r.0@ == distributed_prefix(
                file_root_model(points@, capacity as int), s, capacity as int, s.len() as int)
            &&& r.1@ == promoted_prefix(s, capacity as int, s.len() as int)
        },
        r.0@.all_points().add(r.1@.to_multiset())
            == with_mortons(points@, extent_model(points@)).to_multiset(),
{
    broadcast use vstd::seq_lib::group_to_multiset_ensures;
    broadcast use vstd::multiset::group_multiset_axioms;

    let ghost input = points@;
    let mut bbox = SpatialExtent::default();
    let mut i: usize = 0;
    while i < points.len()
        invariant
            0 <= i <= input.len(),
            points@ == input,
            bbox == extent_model(input.take(i as int)),
        decreases input.len() - i,
    {
        bbox.update(&points[i]);
        i = i + 1;
        proof {
            assert(input.take(i as int).drop_last() =~= input.take(i - 1));
        }
    }
    proof {
        assert(input.take(input.len() as int) =~= input);
    }

    let bounds: Aabb = if points.len() == 0 {
        Aabb { x_min: 0, x_max: 0, y_min: 0, y_max: 0, z_min: 0, z_max: 0 }
    } else {
        proof {
            lemma_extent_model_in_range(input);
            lemma_extent_model_covers(input);
            assert(input[0].x <= bbox.x_max);
        }
        Aabb {
            x_min: bbox.x_min,
            x_max: bbox.x_max + 1,
            y_min: bbox.y_min,
            y_max: bbox.y_max + 1,
            z_min: bbox.z_min,
            z_max: bbox.z_max,
        }
    };
    let mut quadtree = QuadTree::new(bounds, 1, capacity);

    proof {
        lemma_extent_model_covers(input);
    }
    let mut sorted = assign_mortons(points, &bbox);
    sort_by_morton(&mut sorted);
    let ghost s = sorted@;
    let ghost wm = with_mortons(input, extent_model(input));
    proof {
        let perm = choose|perm: Seq<int>| stable_morton_perm(wm, s, perm);
        assert forall|j: int| 0 <= j < s.len() implies bounds.contains_xy(#[trigger] s[j]) by {
            assert(s[j] == wm[perm[j]]);
            assert(wm[perm[j]].x == input[perm[j]].x && wm[perm[j]].y == input[perm[j]].y);
        }
    }

    let n: usize = sorted.len();
    let stride4: usize = 4 * n / capacity;
    let mut points_to_promote: Vec<Point> = Vec::new();
    let ghost root_model = quadtree@;
    let mut index: usize = 0;
    while index < n
        invariant
            0 <= index <= n,
            n == s.len(),
            sorted@ == s,
            capacity >= 1,
            stride4 as int == promote_stride(n as int, capacity as int),
            forall|j: int| 0 <= j < s.len() ==> root_model.bounds.contains_xy(#[trigger] s[j]),
            quadtree@.wf(),
            quadtree@ == distributed_prefix(root_model, s, capacity as int, index as int),
            points_to_promote@ == promoted_prefix(s, capacity as int, index as int),
            quadtree@.all_points().add(points_to_promote@.to_multiset())
                == s.take(index as int).to_multiset(),
            quadtree@.bounds == root_model.bounds,
            quadtree@.depth == root_model.depth,
            quadtree@.capacity == root_model.capacity,
        decreases n - index,
    {
        let p = sorted[index];
        proof {
            broadcast use vstd::seq_lib::group_to_multiset_ensures;
            broadcast use vstd::multiset::group_multiset_axioms;

            assert(s.take(index as int + 1) =~= s.take(index as int).push(s[index as int]));
            assert(s.take(index as int).push(s[index as int]).to_multiset()
                =~= s.take(index as int).to_multiset().insert(s[index as int]));
            assert(s.take(index as int + 1).to_multiset()
                == s.take(index as int).to_multiset().insert(s[index as int]));
        }
        if stride4 > 0 && index % stride4 == 0 {
            points_to_promote.push(p);
            proof {
                assert(quadtree@.all_points().add(points_to_promote@.to_multiset())
                    =~= s.take(index as int + 1).to_multiset());
            }
        } else {
            quadtree.insert(&p, index, n);
            proof {
                assert(quadtree@.all_points().add(points_to_promote@.to_multiset())
                    =~= s.take(index as int + 1).to_multiset());
            }
        }
        index = index + 1;
    }
    proof {
        assert(s.take(s.len() as int) =~= s);
        assert(quadtree@.all_points().add(points_to_promote@.to_multiset()) == wm.to_multiset());
        assert(is_morton_sort_of(wm, s));
    }
    (quadtree, points_to_promote)
}

/// Determinism: the sorted stream of a file is unique, so the tree and the
/// promoted sample that the distribution folds out of it are determined by
/// the input stream and the capacity alone — two runs over the same input
/// serialize to identical bytes.
pub proof fn lemma_distribution_deterministic(
    src: Seq<Point>,
    base: TreeModel,
    capacity: int,
    s1: Seq<Point>,
    s2: Seq<Point>,
)
    requires
        is_morton_sort_of(src, s1),
        is_morton_sort_of(src, s2),
    ensures
        distributed_prefix(base, s1, capacity, s1.len() as int)
            == distributed_prefix(base, s2, capacity, s2.len() as int),
        promoted_prefix(s1, capacity, s1.len() as int)
            == promoted_prefix(s2, capacity, s2.len() as int),
{
    crate::morton::lemma_morton_sort_unique(src, s1, s2);
}

/// The global-overview build: every promoted point, in the order the files
/// handed them over, inserted into one tree whose capacity is the whole
/// sample's size and whose box spans the sample's extent. The resulting
/// tree is exactly the fold of the insertion policy over the stream, and
/// holds every point of the stream. The stream cap keeps `4 * n` within a
/// 32-bit `usize` and the root payload within the `.pnts` header's 32-bit
/// lengths.
pub fn build_overview_tree(points: &Vec<Point>) -> (tree: QuadTree)
    requires
        points@.len() <= 0x0FFF_FFFF,
        forall|i: int| 0 <= i < points@.len() ==> in_coord_range(#[trigger] points@[i]),
    ensures
        tree@.wf(),
        tree@.bounds == file_root_box(points@),
        tree@.depth == 1,
        tree@.capacity == if points@.len() == 0 { 1int } else { points@.len() as int },
        tree@ == inserted_prefix(
            file_root_model(points@, if points@.len() == 0 { 1int } else { points@.len() as int }),
            points@,
            points@.len() as int,
        ),
        tree@.all_points() == points@.to_multiset(),
{
    broadcast use vstd::seq_lib::group_to_multiset_ensures;
    broadcast use vstd::multiset::group_multiset_axioms;

    let ghost input = points@;
    let mut bbox = SpatialExtent::default();
    let mut i: usize = 0;
    while i < points.len()
        invariant
            0 <= i <= input.len(),
            points@ == input,
            bbox == extent_model(input.take(i as int)),
        decreases input.len() - i,
    {
        bbox.update(&points[i]);
        i = i + 1;
        proof {
            assert(input.take(i as int).drop_last() =~= input.take(i - 1));
        }
    }
    proof {
        assert(input.take(input.len() as int) =~= input);
    }

    let capacity: usize = if points.len() == 0 { 1 } else { points.len() };
    let bounds: Aabb = if points.len() == 0 {
        Aabb { x_min: 0, x_max: 0, y_min: 0, y_max: 0, z_min: 0, z_max: 0 }
    } else {
        proof {
            lemma_extent_model_in_range(input);
            lemma_extent_model_covers(input);
            assert(input[0].x <= bbox.x_max);
        }
        Aabb {
            x_min: bbox.x_min,
            x_max: bbox.x_max + 1,
            y_min: bbox.y_min,
            y_max: bbox.y_max + 1,
            z_min: bbox.z_min,
            z_max: bbox.z_max,
        }
    };
    let mut tree = QuadTree::new(bounds, 1, capacity);
    proof {
        lemma_extent_model_covers(input);
        assert forall|j: int| 0 <= j < input.len() implies bounds.contains_xy(#[trigger] input[j]) by {}
    }
    let ghost root_model = tree@;
    let n: usize = points.len();
    let mut index: usize = 0;
    while index < n
        invariant
            0 <= index <= n,
            n == input.len(),
            points@ == input,
            forall|j: int| 0 <= j < input.len() ==> root_model.bounds.contains_xy(#[trigger] input[j]),
            tree@.wf(),
            tree@ == inserted_prefix(root_model, input, index as int),
            tree@.all_points() == input.take(index as int).to_multiset(),
            tree@.bounds == root_model.bounds,
            tree@.depth == root_model.depth,
            tree@.capacity == root_model.capacity,
        decreases n - index,
    {
        let p = points[index];
        proof {
            broadcast use vstd::seq_lib::group_to_multiset_ensures;
            broadcast use vstd::multiset::group_multiset_axioms;

            assert(input.take(index as int + 1) =~= input.take(index as int).push(input[index as int]));
            assert(input.take(index as int).push(input[index as int]).to_multiset()
                =~= input.take(index as int).to_multiset().insert(input[index as int]));
            assert(input.take(index as int + 1).to_multiset()
                == input.take(index as int).to_multiset().insert(input[index as int]));
        }
        tree.insert(&p, index, n);
        proof {
            assert(tree@.all_points() =~= input.take(index as int + 1).to_multiset());
        }
        index = index + 1;
    }
    proof {
        assert(input.take(input.len() as int) =~= input);
    }
    tree
}

} // verus!
