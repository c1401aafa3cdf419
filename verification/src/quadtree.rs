use vstd::prelude::*;
use vstd::multiset::Multiset;
use vstd::arithmetic::power2::pow2;

verus! {

/// A LiDAR point. Coordinates are fixed-point integers: the application
/// chooses a scale (units per meter) and every coordinate is a count of
/// those units. Colors are 16-bit channels as LAS delivers them.
#[derive(Clone, Copy, PartialEq, Eq, Structural, Debug)]
pub struct Point {
    pub morton: u64,
    pub x: i64,
    pub y: i64,
    pub z: i64,
    pub r: u16,
    pub g: u16,
    pub b: u16,
    pub classification: u8,
    pub is_edge_of_flight_line: bool,
    pub is_synthetic: bool,
    pub is_key_point: bool,
    pub is_withheld: bool,
    pub is_overlap: bool,
}

/// The largest coordinate magnitude the library accepts, so that extent
/// spans and the root box's half-open widening stay within `i64`.
pub open spec fn coord_bound() -> int {
    0x2000_0000_0000_0000
}

pub open spec fn in_coord_range(p: Point) -> bool {
    &&& -coord_bound() <= p.x <= coord_bound()
    &&& -coord_bound() <= p.y <= coord_bound()
    &&& -coord_bound() <= p.z <= coord_bound()
}

/// An axis-aligned bounding box, kept as per-axis bounds. On the x and y
/// axes the box is the half-open product `[x_min, x_max) x [y_min, y_max)`,
/// so that the four quadrants of a box tile it exactly; the z bounds are
/// carried along unchanged by subdivision.
#[derive(Clone, Copy, PartialEq, Eq, Structural, Debug)]
pub struct Aabb {
    pub x_min: i64,
    pub x_max: i64,
    pub y_min: i64,
    pub y_max: i64,
    pub z_min: i64,
    pub z_max: i64,
}

impl Aabb {
    /// Bounds are ordered and the x/y spans fit in `i64`, so midpoints can
    /// be computed without overflow.
    pub open spec fn wf(self) -> bool {
        &&& self.x_min <= self.x_max
        &&& self.y_min <= self.y_max
        &&& self.z_min <= self.z_max
        &&& self.x_max - self.x_min <= i64::MAX
        &&& self.y_max - self.y_min <= i64::MAX
        &&& self.z_max - self.z_min <= i64::MAX
    }

    /// Membership of a point's (x, y) in the half-open x/y extent.
    pub open spec fn contains_xy(self, p: Point) -> bool {
        &&& self.x_min <= p.x < self.x_max
        &&& self.y_min <= p.y < self.y_max
    }

    pub open spec fn x_mid(self) -> int {
        self.x_min + (self.x_max - self.x_min) / 2
    }

    pub open spec fn y_mid(self) -> int {
        self.y_min + (self.y_max - self.y_min) / 2
    }
}

/// The quadrant boxes of a parent box, in the fixed order
/// top-left, top-right, bottom-left, bottom-right ("top" is +y).
/// Quadrant `k` of a well-formed box: the x extent is split at `x_mid`,
/// the y extent at `y_mid`, and the z extent is inherited whole.
pub open spec fn quadrant_bounds(b: Aabb, k: int) -> Aabb {
    let xm = b.x_mid() as i64;
    let ym = b.y_mid() as i64;
    if k == 0 {
        Aabb { x_min: b.x_min, x_max: xm, y_min: ym, y_max: b.y_max, z_min: b.z_min, z_max: b.z_max }
    } else if k == 1 {
        Aabb { x_min: xm, x_max: b.x_max, y_min: ym, y_max: b.y_max, z_min: b.z_min, z_max: b.z_max }
    } else if k == 2 {
        Aabb { x_min: b.x_min, x_max: xm, y_min: b.y_min, y_max: ym, z_min: b.z_min, z_max: b.z_max }
    } else {
        Aabb { x_min: xm, x_max: b.x_max, y_min: b.y_min, y_max: ym, z_min: b.z_min, z_max: b.z_max }
    }
}

/// The four children of a node, in top-left, top-right, bottom-left,
/// bottom-right order.
pub struct Quadrants {
    pub tl: QuadTree,
    pub tr: QuadTree,
    pub bl: QuadTree,
    pub br: QuadTree,
}

/// A subsampling quadtree node. Each node keeps a spatially uniform
/// subsample of the points routed through it; descendants keep denser
/// subsamples over smaller footprints.
pub struct QuadTree {
    pub capacity: usize,
    pub bounds: Aabb,
    pub points: Vec<Point>,
    pub children: Option<Box<Quadrants>>,
    pub depth: u8,
}

/// The mathematical shape of a quadtree node: the same tree with
/// mathematical sequences for the stored points and children. All
/// contracts about `QuadTree` speak of this model.
#[verifier::ext_equal]
pub struct TreeModel {
    pub capacity: int,
    pub bounds: Aabb,
    pub points: Seq<Point>,
    /// Empty for a leaf; otherwise exactly four, in
    /// top-left, top-right, bottom-left, bottom-right order.
    pub children: Seq<TreeModel>,
    pub depth: int,
}

impl QuadTree {
    pub open spec fn model(self) -> TreeModel
        decreases self,
    {
        TreeModel {
            capacity: self.capacity as int,
            bounds: self.bounds,
            points: self.points@,
            children: match self.children {
                Option::None => Seq::empty(),
                Option::Some(q) => seq![q.tl.model(), q.tr.model(), q.bl.model(), q.br.model()],
            },
            depth: self.depth as int,
        }
    }
}

impl View for QuadTree {
    type V = TreeModel;

    open spec fn view(&self) -> TreeModel {
        self.model()
    }
}

impl TreeModel {
    /// Structural height of the tree: 0 for a leaf.
    pub open spec fn height(self) -> nat
        decreases self,
    {
        if self.children.len() == 4 {
            1 + max4(
                self.children[0].height(),
                self.children[1].height(),
                self.children[2].height(),
                self.children[3].height(),
            )
        } else {
            0
        }
    }

    /// Well-formedness: ordered bounds, positive capacity, depth at least 1
    /// (the root's depth), every stored point inside the node's x/y extent,
    /// and either no children or exactly four whose boxes are the four
    /// quadrants of this node's box, one level deeper, with the z extent
    /// and the capacity inherited.
    pub open spec fn wf(self) -> bool
        decreases self,
    {
        &&& self.bounds.wf()
        &&& self.capacity >= 1
        &&& 1 <= self.depth <= u8::MAX
        &&& forall|i: int| 0 <= i < self.points.len() ==> self.bounds.contains_xy(#[trigger] self.points[i])
        &&& self.children.len() == 0 || self.children.len() == 4
        &&& forall|k: int| 0 <= k < self.children.len() ==> (#[trigger] self.children[k]).wf()
        &&& forall|k: int| 0 <= k < self.children.len() ==> (#[trigger] self.children[k]).bounds == quadrant_bounds(self.bounds, k)
        &&& forall|k: int| 0 <= k < self.children.len() ==> (#[trigger] self.children[k]).depth == self.depth + 1
        &&& forall|k: int| 0 <= k < self.children.len() ==> (#[trigger] self.children[k]).capacity == self.capacity
    }

    /// Every point stored anywhere in the subtree, with multiplicity.
    pub open spec fn all_points(self) -> Multiset<Point>
        decreases self,
    {
        if self.children.len() == 4 {
            self.points.to_multiset()
                .add(self.children[0].all_points())
                .add(self.children[1].all_points())
                .add(self.children[2].all_points())
                .add(self.children[3].all_points())
        } else {
            self.points.to_multiset()
        }
    }
}

pub open spec fn max4(a: nat, b: nat, c: nat, d: nat) -> nat {
    let x = if a >= b { a } else { b };
    let y = if c >= d { c } else { d };
    if x >= y { x } else { y }
}

/// The subsampling stride of a node at depth `depth` for a stream of `n`
/// points: `n / (capacity * 2^(depth-1))`.
pub open spec fn stride_spec(n: int, capacity: int, depth: int) -> int {
    n / (capacity * pow2((depth - 1) as nat) as int)
}

/// A point of the Morton-sorted stream is retained at a node in the dense
/// regime exactly when `index + 1 - depth` is a non-negative multiple of the
/// stride. (The subtraction is done over the integers: a negative difference
/// never selects.)
pub open spec fn stride_selects(index: int, depth: int, step: int) -> bool {
    &&& index + 1 - depth >= 0
    &&& (index + 1 - depth) % step == 0
}

impl TreeModel {
    /// A fresh, empty leaf for quadrant `k` of this node.
    pub open spec fn fresh_child(self, k: int) -> TreeModel {
        TreeModel {
            capacity: self.capacity,
            bounds: quadrant_bounds(self.bounds, k),
            points: Seq::empty(),
            children: Seq::empty(),
            depth: self.depth + 1,
        }
    }

    /// The node after a split: the same node with four fresh quadrant leaves.
    pub open spec fn split_node(self) -> TreeModel {
        TreeModel {
            children: seq![
                self.fresh_child(0),
                self.fresh_child(1),
                self.fresh_child(2),
                self.fresh_child(3),
            ],
            ..self
        }
    }

    /// This node with the point appended to its own subsample.
    pub open spec fn retain(self, p: Point) -> TreeModel {
        TreeModel { points: self.points.push(p), ..self }
    }

    /// Insertion of point `p`, the `index`-th of a Morton-sorted stream of
    /// `n` points, below this node.
    ///
    /// A point outside the node's x/y extent is ignored. Otherwise, in the
    /// dense regime (stride above 4) the point is retained here exactly when
    /// the stride selects it; in the sparse regime it is retained while the
    /// node holds fewer than `capacity` points. A point not retained is
    /// forwarded to the four children (splitting first if the node is a
    /// leaf); exactly one child's extent contains it. A node at the greatest
    /// representable depth absorbs points rather than splitting.
    ///
    /// Degenerate parameters (a non-positive capacity or depth, or an index
    /// outside the stream) leave the tree unchanged.
    pub open spec fn insert_model(self, p: Point, index: int, n: int) -> TreeModel
        decreases self.height(), stride_spec(n, self.capacity, self.depth), self.points.len(),
            via Self::insert_model_decreases
    {
        if self.capacity < 1 || self.depth < 1 || index < 0 || n < index + 1 {
            self
        } else if !self.bounds.contains_xy(p) {
            self
        } else {
            let step = stride_spec(n, self.capacity, self.depth);
            let retained = (step > 4 && stride_selects(index, self.depth, step))
                || (step <= 4 && self.points.len() < self.capacity);
            if retained {
                self.retain(p)
            } else if self.children.len() == 4 {
                TreeModel {
                    children: seq![
                        self.children[0].insert_model(p, index, n),
                        self.children[1].insert_model(p, index, n),
                        self.children[2].insert_model(p, index, n),
                        self.children[3].insert_model(p, index, n),
                    ],
                    ..self
                }
            } else if self.depth == u8::MAX as int {
                self.retain(p)
            } else {
                TreeModel {
                    children: seq![
                        self.fresh_child(0).insert_model(p, index, n),
                        self.fresh_child(1).insert_model(p, index, n),
                        self.fresh_child(2).insert_model(p, index, n),
                        self.fresh_child(3).insert_model(p, index, n),
                    ],
                    ..self
                }
            }
        }
    }

    #[via_fn]
    proof fn insert_model_decreases(self, p: Point, index: int, n: int) {
        if self.capacity >= 1 && self.depth >= 1 && 0 <= index && index + 1 <= n {
            lemma_stride_next(n, self.capacity, self.depth);
        }
    }
}

/// Halving of the stride from one level to the next: the divisor doubles
/// with the depth, so the stride is floor-halved.
pub proof fn lemma_stride_next(n: int, capacity: int, depth: int)
    requires
        n >= 0,
        capacity >= 1,
        depth >= 1,
    ensures
        stride_spec(n, capacity, depth) >= 0,
        stride_spec(n, capacity, depth + 1) == stride_spec(n, capacity, depth) / 2,
{
    let pp = pow2((depth - 1) as nat) as int;
    let cd = capacity * pp;
    vstd::arithmetic::power2::lemma_pow2_pos((depth - 1) as nat);
    vstd::arithmetic::mul::lemma_mul_strictly_positive(capacity, pp);
    vstd::arithmetic::div_mod::lemma_div_pos_is_pos(n, cd);
    vstd::arithmetic::power2::lemma_pow2_adds((depth - 1) as nat, 1);
    vstd::arithmetic::power2::lemma2_to64();
    vstd::arithmetic::mul::lemma_mul_is_associative(capacity, pp, 2);
    vstd::arithmetic::div_mod::lemma_div_denominator(n, cd, 2);
    assert(pow2(depth as nat) as int == pp * 2);
}

/// The index of the one quadrant of `b` whose half-open extent holds `p`,
/// for a `p` that `b` contains.
pub open spec fn quadrant_index(b: Aabb, p: Point) -> int {
    if p.x < b.x_mid() {
        if p.y >= b.y_mid() { 0 } else { 2 }
    } else {
        if p.y >= b.y_mid() { 1 } else { 3 }
    }
}

/// Each quadrant of a well-formed box is itself well-formed.
pub proof fn lemma_quadrant_wf(b: Aabb, k: int)
    requires
        b.wf(),
        0 <= k < 4,
    ensures
        quadrant_bounds(b, k).wf(),
{
}

/// Disjoint tiling: the four quadrants of a well-formed box partition its
/// x/y extent exactly — a point lies in the box exactly when it lies in
/// quadrant `quadrant_index`, and never in two quadrants.
pub proof fn lemma_quadrants_tile_parent(b: Aabb, p: Point)
    requires
        b.wf(),
    ensures
        b.contains_xy(p) <==> (exists|k: int|
            0 <= k < 4 && (#[trigger] quadrant_bounds(b, k)).contains_xy(p)),
        b.contains_xy(p) ==> {
            let k = quadrant_index(b, p);
            &&& 0 <= k < 4
            &&& quadrant_bounds(b, k).contains_xy(p)
        },
        forall|k1: int, k2: int|
            0 <= k1 < 4 && 0 <= k2 < 4 && k1 != k2
                ==> !(#[trigger] quadrant_bounds(b, k1).contains_xy(p)
                    && #[trigger] quadrant_bounds(b, k2).contains_xy(p)),
{
    if b.contains_xy(p) {
        let k = quadrant_index(b, p);
        assert(quadrant_bounds(b, k).contains_xy(p));
    }
}

/// Containment: at a well-formed node, every stored point lies in the
/// node's half-open x/y box — and the children are well-formed in turn, so
/// the same holds at every node of the subtree.
pub proof fn lemma_stored_points_contained(m: TreeModel)
    requires
        m.wf(),
    ensures
        forall|i: int| 0 <= i < m.points.len() ==> m.bounds.contains_xy(#[trigger] m.points[i]),
        forall|k: int| 0 <= k < m.children.len() ==> (#[trigger] m.children[k]).wf(),
{
}

impl TreeModel {
    /// Insertion below a well-formed node keeps the node well-formed, keeps
    /// its box, depth and capacity, and changes the points stored in the
    /// subtree by exactly the inserted point — or not at all when the point
    /// lies outside the node's extent.
    pub proof fn lemma_insert_model_ok(self, p: Point, index: int, n: int)
        requires
            self.wf(),
            0 <= index < n,
        ensures
            self.insert_model(p, index, n).wf(),
            self.insert_model(p, index, n).bounds == self.bounds,
            self.insert_model(p, index, n).depth == self.depth,
            self.insert_model(p, index, n).capacity == self.capacity,
            self.insert_model(p, index, n).all_points() == if self.bounds.contains_xy(p) {
                self.all_points().insert(p)
            } else {
                self.all_points()
            },
        decreases self.height(), stride_spec(n, self.capacity, self.depth), self.points.len(),
    {
        broadcast use vstd::seq_lib::group_to_multiset_ensures;

        let post = self.insert_model(p, index, n);
        lemma_stride_next(n, self.capacity, self.depth);
        if !self.bounds.contains_xy(p) {
            return;
        }
        let step = stride_spec(n, self.capacity, self.depth);
        let retained = (step > 4 && stride_selects(index, self.depth, step))
            || (step <= 4 && self.points.len() < self.capacity);
        lemma_quadrants_tile_parent(self.bounds, p);
        if retained || (self.children.len() != 4 && self.depth == u8::MAX as int) {
            assert(post == self.retain(p));
            assert(post.wf());
            assert(post.all_points() =~= self.all_points().insert(p));
        } else if self.children.len() == 4 {
            assert(self.height() == 1 + max4(
                self.children[0].height(),
                self.children[1].height(),
                self.children[2].height(),
                self.children[3].height(),
            ));
            self.children[0].lemma_insert_model_ok(p, index, n);
            self.children[1].lemma_insert_model_ok(p, index, n);
            self.children[2].lemma_insert_model_ok(p, index, n);
            self.children[3].lemma_insert_model_ok(p, index, n);
            assert(post.wf());
            assert(post.all_points() =~= self.all_points().insert(p));
        } else {
            let sp = self.split_node();
            assert forall|k: int| 0 <= k < 4 implies (#[trigger] sp.children[k]).wf() by {
                lemma_quadrant_wf(self.bounds, k);
            }
            sp.children[0].lemma_insert_model_ok(p, index, n);
            sp.children[1].lemma_insert_model_ok(p, index, n);
            sp.children[2].lemma_insert_model_ok(p, index, n);
            sp.children[3].lemma_insert_model_ok(p, index, n);
            assert(post.children =~= seq![
                sp.children[0].insert_model(p, index, n),
                sp.children[1].insert_model(p, index, n),
                sp.children[2].insert_model(p, index, n),
                sp.children[3].insert_model(p, index, n),
            ]);
            assert(post.wf());
            assert(post.all_points() =~= self.all_points().insert(p));
        }
    }
}

impl QuadTree {
    /// A fresh leaf node over the given box.
    pub fn new(bounds: Aabb, depth: u8, capacity: usize) -> (tree: QuadTree)
        requires
            bounds.wf(),
            depth >= 1,
            capacity >= 1,
        ensures
            tree@ == (TreeModel {
                capacity: capacity as int,
                bounds,
                points: Seq::<Point>::empty(),
                children: Seq::<TreeModel>::empty(),
                depth: depth as int,
            }),
            tree@.wf(),
    {
        let tree = QuadTree { capacity, bounds, points: Vec::new(), children: Option::None, depth };
        proof {
            assert(tree@ =~~= TreeModel {
                capacity: capacity as int,
                bounds,
                points: Seq::<Point>::empty(),
                children: Seq::<TreeModel>::empty(),
                depth: depth as int,
            });
        }
        tree
    }

    /// The node's subsampling stride, `n / (capacity * 2^(depth-1))`,
    /// computed by repeated halving so that no intermediate overflows.
    fn stride(n: usize, capacity: usize, depth: u8) -> (r: usize)
        requires
            capacity >= 1,
            depth >= 1,
        ensures
            r as int == stride_spec(n as int, capacity as int, depth as int),
    {
        proof {
            vstd::arithmetic::power2::lemma2_to64();
            assert(pow2(0) == 1);
            assert(capacity as int * pow2(0) as int == capacity as int);
        }
        let mut e: usize = n / capacity;
        let mut i: u8 = 1;
        while i < depth
            invariant
                1 <= i <= depth,
                capacity >= 1,
                e as int == stride_spec(n as int, capacity as int, i as int),
            decreases depth - i,
        {
            proof {
                lemma_stride_next(n as int, capacity as int, i as int);
            }
            e = e / 2;
            i = i + 1;
        }
        e
    }

    /// Replaces this leaf's absent children with four fresh quadrant leaves.
    fn split(&mut self)
        requires
            old(self)@.wf(),
            old(self).children is None,
            old(self).depth < u8::MAX,
        ensures
            final(self)@ == old(self)@.split_node(),
    {
        let b = self.bounds;
        let xm: i64 = b.x_min + (b.x_max - b.x_min) / 2;
        let ym: i64 = b.y_min + (b.y_max - b.y_min) / 2;
        let depth: u8 = self.depth + 1;
        let tl = QuadTree {
            capacity: self.capacity,
            bounds: Aabb { x_min: b.x_min, x_max: xm, y_min: ym, y_max: b.y_max, z_min: b.z_min, z_max: b.z_max },
            points: Vec::new(),
            children: Option::None,
            depth,
        };
        let tr = QuadTree {
            capacity: self.capacity,
            bounds: Aabb { x_min: xm, x_max: b.x_max, y_min: ym, y_max: b.y_max, z_min: b.z_min, z_max: b.z_max },
            points: Vec::new(),
            children: Option::None,
            depth,
        };
        let bl = QuadTree {
            capacity: self.capacity,
            bounds: Aabb { x_min: b.x_min, x_max: xm, y_min: b.y_min, y_max: ym, z_min: b.z_min, z_max: b.z_max },
            points: Vec::new(),
            children: Option::None,
            depth,
        };
        let br = QuadTree {
            capacity: self.capacity,
            bounds: Aabb { x_min: xm, x_max: b.x_max, y_min: b.y_min, y_max: ym, z_min: b.z_min, z_max: b.z_max },
            points: Vec::new(),
            children: Option::None,
            depth,
        };
        let ghost tlm = tl@;
        let ghost trm = tr@;
        let ghost blm = bl@;
        let ghost brm = br@;
        self.children = Option::Some(Box::new(Quadrants { tl, tr, bl, br }));
        proof {
            let m = old(self)@;
            assert(tlm =~~= m.fresh_child(0));
            assert(trm =~~= m.fresh_child(1));
            assert(blm =~~= m.fresh_child(2));
            assert(brm =~~= m.fresh_child(3));
            assert(self@.children =~~= m.split_node().children);
            assert(self@ =~~= old(self)@.split_node());
        }
    }

    /// Inserts point `p`, the `index`-th of a Morton-sorted stream of
    /// `number_of_points` points, below this node, following the
    /// subsampling policy of `TreeModel::insert_model`.
    pub fn insert(&mut self, point: &Point, index: usize, number_of_points: usize)
        requires
            old(self)@.wf(),
            index < number_of_points,
        ensures
            final(self)@ == old(self)@.insert_model(*point, index as int, number_of_points as int),
            final(self)@.wf(),
            final(self)@.all_points() == if old(self)@.bounds.contains_xy(*point) {
                old(self)@.all_points().insert(*point)
            } else {
                old(self)@.all_points()
            },
        decreases
            old(self)@.height(),
            stride_spec(number_of_points as int, old(self).capacity as int, old(self).depth as int),
            old(self).points@.len(),
    {
        let ghost m = self@;
        let ghost pt = *point;
        let ghost idx = index as int;
        let ghost n = number_of_points as int;
        proof {
            m.lemma_insert_model_ok(pt, idx, n);
            lemma_stride_next(n, m.capacity, m.depth);
        }
        if point.x >= self.bounds.x_min && point.x < self.bounds.x_max
            && point.y >= self.bounds.y_min && point.y < self.bounds.y_max {
            let step: usize = Self::stride(number_of_points, self.capacity, self.depth);
            let retained: bool = if step > 4 {
                let diff: i128 = index as i128 + 1 - self.depth as i128;
                diff >= 0 && diff % (step as i128) == 0
            } else {
                self.points.len() < self.capacity
            };
            proof {
                assert(retained == ((stride_spec(n, m.capacity, m.depth) > 4
                    && stride_selects(idx, m.depth, stride_spec(n, m.capacity, m.depth)))
                    || (stride_spec(n, m.capacity, m.depth) <= 4 && m.points.len() < m.capacity)));
            }
            if retained {
                self.points.push(*point);
                proof {
                    assert(self@ =~~= m.insert_model(pt, idx, n));
                }
            } else if self.children.is_none() && self.depth == u8::MAX {
                self.points.push(*point);
                proof {
                    assert(self@ =~~= m.insert_model(pt, idx, n));
                }
            } else {
                if self.children.is_none() {
                    self.split();
                }
                let ghost sm = self@;
                proof {
                    assert(sm == if m.children.len() == 4 { m } else { m.split_node() });
                    if m.children.len() == 4 {
                        assert(m.height() == 1 + max4(
                            m.children[0].height(),
                            m.children[1].height(),
                            m.children[2].height(),
                            m.children[3].height(),
                        ));
                    }
                }
                let mut q = self.children.take().unwrap();
                q.tl.insert(point, index, number_of_points);
                q.tr.insert(point, index, number_of_points);
                q.bl.insert(point, index, number_of_points);
                q.br.insert(point, index, number_of_points);
                self.children = Option::Some(q);
                proof {
                    assert(self@.children =~= seq![
                        sm.children[0].insert_model(pt, idx, n),
                        sm.children[1].insert_model(pt, idx, n),
                        sm.children[2].insert_model(pt, idx, n),
                        sm.children[3].insert_model(pt, idx, n),
                    ]);
                    assert(self@ =~~= m.insert_model(pt, idx, n));
                }
            }
        }
    }
}

} // verus!
