use vstd::prelude::*;
use vstd::string::StringExecFns;
use crate::quadtree::{Aabb, Point, QuadTree, TreeModel, in_coord_range};

verus! {

/// The `asset` object of a tileset: the format version.
pub struct TileSetAsset {
    pub version: String,
}

/// A tile's content reference: the URI of its payload or child tileset.
pub struct TileSetRootContent {
    pub uri: String,
}

/// A 3D Tiles `box` bounding volume: a center followed by three half-axis
/// vectors, twelve values in all, here in fixed-point coordinate units.
pub struct TileSetRootBoundingVolume {
    pub bbox: [i64; 12],
}

/// One child entry of a tileset root.
pub struct TileSetRootChild {
    pub content: TileSetRootContent,
    pub bounding_volume: TileSetRootBoundingVolume,
    pub geometric_error: i64,
    pub refine: String,
}

/// The root tile of a tileset.
pub struct TileSetRoot {
    pub content: TileSetRootContent,
    pub bounding_volume: TileSetRootBoundingVolume,
    pub geometric_error: i64,
    pub refine: String,
    pub children: Option<Vec<TileSetRootChild>>,
}

/// A whole tileset descriptor.
pub struct TileSet {
    pub asset: TileSetAsset,
    pub geometric_error: i64,
    pub root: TileSetRoot,
}

/// The least z coordinate of a non-empty point sequence.
pub open spec fn z_min_of(s: Seq<Point>) -> int
    decreases s.len(),
{
    if s.len() <= 1 {
        s[0].z as int
    } else {
        let prev = z_min_of(s.drop_last());
        if s.last().z < prev {
            s.last().z as int
        } else {
            prev
        }
    }
}

/// The greatest z coordinate of a non-empty point sequence.
pub open spec fn z_max_of(s: Seq<Point>) -> int
    decreases s.len(),
{
    if s.len() <= 1 {
        s[0].z as int
    } else {
        let prev = z_max_of(s.drop_last());
        if s.last().z > prev {
            s.last().z as int
        } else {
            prev
        }
    }
}

pub proof fn lemma_z_minmax_of(s: Seq<Point>)
    requires
        s.len() >= 1,
    ensures
        z_min_of(s) <= z_max_of(s),
        forall|i: int| 0 <= i < s.len() ==> z_min_of(s) <= (#[trigger] s[i]).z <= z_max_of(s),
    decreases s.len(),
{
    if s.len() > 1 {
        lemma_z_minmax_of(s.drop_last());
        assert(forall|i: int| 0 <= i < s.len() - 1 ==> s[i] == s.drop_last()[i]);
    }
}

/// The twelve values of a node's `box` bounding volume: the box center
/// (with the z center and half-height tightened to the node's own points,
/// when it has any — an empty node falls back to the stored box's z
/// fields), then the x, y and z half-axis vectors.
pub open spec fn bounding_volume_spec(m: TreeModel) -> Seq<int> {
    let b = m.bounds;
    let cx = b.x_mid();
    let cy = b.y_mid();
    let hw = (b.x_max - b.x_min) / 2;
    let hl = (b.y_max - b.y_min) / 2;
    if m.points.len() > 0 {
        let zl = z_min_of(m.points);
        let zh = z_max_of(m.points);
        let hh = (zh - zl) / 2;
        seq![cx, cy, zl + hh, hw, 0, 0, 0, hl, 0, 0, 0, hh]
    } else {
        let cz = b.z_min + (b.z_max - b.z_min) / 2;
        let hh = (b.z_max - b.z_min) / 2;
        seq![cx, cy, cz, hw, 0, 0, 0, hl, 0, 0, 0, hh]
    }
}

/// `g` is the geometric error of box `b`: the integer square root of
/// `hw^2 + hl^2`, the half-diagonal of the box's x/y extent.
pub open spec fn is_geometric_error(b: Aabb, g: int) -> bool {
    let hw = (b.x_max - b.x_min) / 2;
    let hl = (b.y_max - b.y_min) / 2;
    g >= 0 && g * g <= hw * hw + hl * hl < (g + 1) * (g + 1)
}

/// The floor of the square root, by bisection.
fn isqrt(n: u128) -> (r: u128)
    ensures
        r * r <= n < (r + 1) * (r + 1),
{
    if n == 0 {
        return 0;
    }
    let mut lo: u128 = 0;
    let mut hi: u128 = 0x1_0000_0000_0000_0000;
    proof {
        assert((0x1_0000_0000_0000_0000u128 as int) * (0x1_0000_0000_0000_0000u128 as int)
            > u128::MAX as int) by (nonlinear_arith);
    }
    while lo + 1 < hi
        invariant
            lo < hi <= 0x1_0000_0000_0000_0000,
            (lo as int) * (lo as int) <= n as int,
            (n as int) < (hi as int) * (hi as int),
        decreases hi - lo,
    {
        let mid: u128 = lo + (hi - lo) / 2;
        proof {
            assert(mid < 0x1_0000_0000_0000_0000);
            assert((mid as int) * (mid as int) <= u128::MAX as int) by (nonlinear_arith)
                requires mid < 0x1_0000_0000_0000_0000;
        }
        if mid * mid <= n {
            lo = mid;
        } else {
            hi = mid;
        }
    }
    lo
}

/// The geometric error of a well-formed box, in coordinate units.
pub fn geometric_error_of(b: &Aabb) -> (g: i64)
    requires
        b.wf(),
    ensures
        is_geometric_error(*b, g as int),
{
    let hw: u128 = ((b.x_max as i128 - b.x_min as i128) / 2) as u128;
    let hl: u128 = ((b.y_max as i128 - b.y_min as i128) / 2) as u128;
    proof {
        assert(hw * hw + hl * hl <= u128::MAX) by (nonlinear_arith)
            requires hw <= 0x4000_0000_0000_0000, hl <= 0x4000_0000_0000_0000;
    }
    let g: u128 = isqrt(hw * hw + hl * hl);
    proof {
        assert(g <= i64::MAX) by (nonlinear_arith)
            requires
                (g as int) * (g as int) <= (hw as int) * (hw as int) + (hl as int) * (hl as int),
                hw <= 0x4000_0000_0000_0000,
                hl <= 0x4000_0000_0000_0000,
        ;
    }
    g as i64
}

impl TileSetRootBoundingVolume {
    /// The node's bounding volume: its box, with the z center and
    /// half-height tightened to the points the node itself stores.
    pub fn new(quadtree: &QuadTree) -> (r: Self)
        requires
            quadtree@.wf(),
            forall|i: int| 0 <= i < quadtree@.points.len()
                ==> in_coord_range(#[trigger] quadtree@.points[i]),
        ensures
            r.bbox@.map_values(|v: i64| v as int) == bounding_volume_spec(quadtree@),
    {
        let b = &quadtree.bounds;
        let cx: i64 = b.x_min + (b.x_max - b.x_min) / 2;
        let cy: i64 = b.y_min + (b.y_max - b.y_min) / 2;
        let hw: i64 = (b.x_max - b.x_min) / 2;
        let hl: i64 = (b.y_max - b.y_min) / 2;
        if quadtree.points.len() > 0 {
            let mut z_min: i64 = quadtree.points[0].z;
            let mut z_max: i64 = quadtree.points[0].z;
            let mut i: usize = 1;
            while i < quadtree.points.len()
                invariant
                    1 <= i <= quadtree@.points.len(),
                    quadtree@.points.len() >= 1,
                    z_min as int == z_min_of(quadtree@.points.take(i as int)),
                    z_max as int == z_max_of(quadtree@.points.take(i as int)),
                decreases quadtree@.points.len() - i,
            {
                let p = &quadtree.points[i];
                if p.z < z_min {
                    z_min = p.z;
                }
                if p.z > z_max {
                    z_max = p.z;
                }
                i = i + 1;
                proof {
                    assert(quadtree@.points.take(i as int).drop_last()
                        =~= quadtree@.points.take(i - 1));
                    assert(quadtree@.points.take(i as int).last() == quadtree@.points[i - 1]);
                }
            }
            proof {
                assert(quadtree@.points.take(quadtree@.points.len() as int) =~= quadtree@.points);
                lemma_z_minmax_of(quadtree@.points);
                assert(in_coord_range(quadtree@.points[0]));
            }
            let half_height: i64 = ((z_max as i128 - z_min as i128) / 2) as i64;
            let r = TileSetRootBoundingVolume {
                bbox: [cx, cy, z_min + half_height, hw, 0, 0, 0, hl, 0, 0, 0, half_height],
            };
            proof {
                assert(r.bbox@.map_values(|v: i64| v as int) =~= bounding_volume_spec(quadtree@));
            }
            r
        } else {
            let cz: i64 = b.z_min + (b.z_max - b.z_min) / 2;
            let hh: i64 = (b.z_max - b.z_min) / 2;
            let r = TileSetRootBoundingVolume {
                bbox: [cx, cy, cz, hw, 0, 0, 0, hl, 0, 0, 0, hh],
            };
            proof {
                assert(r.bbox@.map_values(|v: i64| v as int) =~= bounding_volume_spec(quadtree@));
            }
            r
        }
    }
}

/// Every point of the sequence is within the pipeline's coordinate range.
pub open spec fn points_in_range(s: Seq<Point>) -> bool {
    forall|i: int| 0 <= i < s.len() ==> in_coord_range(#[trigger] s[i])
}

impl TileSetRoot {
    /// The root tile entry for a node: its payload URI, bounding volume,
    /// geometric error (the half-diagonal of its x/y extent for a node
    /// with children, zero for a leaf), additive refinement, and one child
    /// entry per quadrant when the node has split, each pointing at the
    /// child's own tileset.
    pub fn new(quadtree: &QuadTree) -> (r: Self)
        requires
            quadtree@.wf(),
            points_in_range(quadtree@.points),
            forall|k: int| 0 <= k < quadtree@.children.len()
                ==> points_in_range((#[trigger] quadtree@.children[k]).points),
        ensures
            r.content.uri@ == "root.pnts"@,
            r.refine@ == "ADD"@,
            r.bounding_volume.bbox@.map_values(|v: i64| v as int) == bounding_volume_spec(quadtree@),
            quadtree@.children.len() == 4 ==> is_geometric_error(quadtree@.bounds, r.geometric_error as int),
            quadtree@.children.len() == 0 ==> r.geometric_error == 0,
            quadtree@.children.len() == 0 ==> r.children is None,
            quadtree@.children.len() == 4 ==> {
                &&& r.children is Some
                &&& r.children.unwrap()@.len() == 4
                &&& r.children.unwrap()@[0].content.uri@ == "0/tileset.json"@
                &&& r.children.unwrap()@[1].content.uri@ == "1/tileset.json"@
                &&& r.children.unwrap()@[2].content.uri@ == "2/tileset.json"@
                &&& r.children.unwrap()@[3].content.uri@ == "3/tileset.json"@
                &&& forall|k: int| 0 <= k < 4 ==> {
                    let c = #[trigger] r.children.unwrap()@[k];
                    &&& c.bounding_volume.bbox@.map_values(|v: i64| v as int)
                        == bounding_volume_spec(quadtree@.children[k])
                    &&& is_geometric_error(quadtree@.children[k].bounds, c.geometric_error as int)
                    &&& c.refine@ == "ADD"@
                }
            },
    {
        let content = TileSetRootContent { uri: String::from_str("root.pnts") };
        let children: Option<Vec<TileSetRootChild>> = match &quadtree.children {
            Option::Some(q) => {
                proof {
                    assert(quadtree@.children[0] == q.tl@);
                    assert(quadtree@.children[1] == q.tr@);
                    assert(quadtree@.children[2] == q.bl@);
                    assert(quadtree@.children[3] == q.br@);
                }
                let mut cs: Vec<TileSetRootChild> = Vec::new();
                cs.push(TileSetRootChild {
                    content: TileSetRootContent { uri: String::from_str("0/tileset.json") },
                    bounding_volume: TileSetRootBoundingVolume::new(&q.tl),
                    geometric_error: geometric_error_of(&q.tl.bounds),
                    refine: String::from_str("ADD"),
                });
                cs.push(TileSetRootChild {
                    content: TileSetRootContent { uri: String::from_str("1/tileset.json") },
                    bounding_volume: TileSetRootBoundingVolume::new(&q.tr),
                    geometric_error: geometric_error_of(&q.tr.bounds),
                    refine: String::from_str("ADD"),
                });
                cs.push(TileSetRootChild {
                    content: TileSetRootContent { uri: String::from_str("2/tileset.json") },
                    bounding_volume: TileSetRootBoundingVolume::new(&q.bl),
                    geometric_error: geometric_error_of(&q.bl.bounds),
                    refine: String::from_str("ADD"),
                });
                cs.push(TileSetRootChild {
                    content: TileSetRootContent { uri: String::from_str("3/tileset.json") },
                    bounding_volume: TileSetRootBoundingVolume::new(&q.br),
                    geometric_error: geometric_error_of(&q.br.bounds),
                    refine: String::from_str("ADD"),
                });
                Option::Some(cs)
            },
            Option::None => Option::None,
        };
        let geometric_error: i64 = match &quadtree.children {
            Option::Some(_) => geometric_error_of(&quadtree.bounds),
            Option::None => 0,
        };
        TileSetRoot {
            content,
            bounding_volume: TileSetRootBoundingVolume::new(quadtree),
            geometric_error,
            refine: String::from_str("ADD"),
            children,
        }
    }
}

/// The tileset descriptor for one emitted node: version "1.0", the node's
/// root tile, and the geometric error — the box's x/y half-diagonal for an
/// interior node, zero for a leaf — at both levels.
pub fn create_tile(quadtree: &QuadTree) -> (t: TileSet)
    requires
        quadtree@.wf(),
        points_in_range(quadtree@.points),
        forall|k: int| 0 <= k < quadtree@.children.len()
            ==> points_in_range((#[trigger] quadtree@.children[k]).points),
    ensures
        t.asset.version@ == "1.0"@,
        quadtree@.children.len() == 4 ==> is_geometric_error(quadtree@.bounds, t.geometric_error as int),
        quadtree@.children.len() == 0 ==> t.geometric_error == 0,
        t.root.content.uri@ == "root.pnts"@,
        t.root.refine@ == "ADD"@,
        t.root.bounding_volume.bbox@.map_values(|v: i64| v as int) == bounding_volume_spec(quadtree@),
        quadtree@.children.len() == 4 ==> is_geometric_error(quadtree@.bounds, t.root.geometric_error as int),
        quadtree@.children.len() == 0 ==> t.root.geometric_error == 0,
        quadtree@.children.len() == 0 ==> t.root.children is None,
        quadtree@.children.len() == 4 ==> {
            &&& t.root.children is Some
            &&& t.root.children.unwrap()@.len() == 4
            &&& t.root.children.unwrap()@[0].content.uri@ == "0/tileset.json"@
            &&& t.root.children.unwrap()@[1].content.uri@ == "1/tileset.json"@
            &&& t.root.children.unwrap()@[2].content.uri@ == "2/tileset.json"@
            &&& t.root.children.unwrap()@[3].content.uri@ == "3/tileset.json"@
            &&& forall|k: int| 0 <= k < 4 ==> {
                let c = #[trigger] t.root.children.unwrap()@[k];
                &&& c.bounding_volume.bbox@.map_values(|v: i64| v as int)
                    == bounding_volume_spec(quadtree@.children[k])
                &&& is_geometric_error(quadtree@.children[k].bounds, c.geometric_error as int)
                &&& c.refine@ == "ADD"@
            }
        },
{
    let geometric_error: i64 = match &quadtree.children {
        Option::Some(_) => geometric_error_of(&quadtree.bounds),
        Option::None => 0,
    };
    TileSet {
        asset: TileSetAsset { version: String::from_str("1.0") },
        geometric_error,
        root: TileSetRoot::new(quadtree),
    }
}

/// The URI of a per-file child tileset: `<stem>/tileset.json`.
pub fn make_child_uri(stem: &str) -> (u: String)
    ensures
        u@ == stem@ + "/tileset.json"@,
{
    String::from_str(stem).concat("/tileset.json")
}

/// The global tileset: version "1.0", one child entry per input file, and a
/// root whose payload is the overview tree's serialization. The root's
/// geometric error is a twentieth of its box's half-diagonal, the outer
/// geometric error five times that.
pub fn build_global_tileset(children: Vec<TileSetRootChild>, overview: &QuadTree) -> (t: TileSet)
    requires
        overview@.wf(),
        points_in_range(overview@.points),
    ensures
        t.asset.version@ == "1.0"@,
        t.root.content.uri@ == "root.pnts"@,
        t.root.refine@ == "ADD"@,
        t.root.bounding_volume.bbox@.map_values(|v: i64| v as int) == bounding_volume_spec(overview@),
        exists|g: int| {
            &&& #[trigger] is_geometric_error(overview@.bounds, g)
            &&& t.root.geometric_error == g / 20
            &&& t.geometric_error == 5 * (g / 20)
        },
        t.root.children is Some,
        t.root.children.unwrap()@ == children@,
{
    let g: i64 = geometric_error_of(&overview.bounds);
    let root_error: i64 = g / 20;
    TileSet {
        asset: TileSetAsset { version: String::from_str("1.0") },
        geometric_error: root_error * 5,
        root: TileSetRoot {
            content: TileSetRootContent { uri: String::from_str("root.pnts") },
            bounding_volume: TileSetRootBoundingVolume::new(overview),
            geometric_error: root_error,
            refine: String::from_str("ADD"),
            children: Option::Some(children),
        },
    }
}

} // verus!
