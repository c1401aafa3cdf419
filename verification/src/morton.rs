use vstd::prelude::*;
use rayon::slice::ParallelSliceMut;
use crate::quadtree::Point;
use vstd::arithmetic::power2::pow2;
use crate::spatial_extent::SpatialExtent;

verus! {

/// The Morton (Z-order) code of two grid coordinates: bit `2k` of the code
/// is bit `k` of `x`, bit `2k+1` is bit `k` of `y`.
pub open spec fn morton_interleave(x: nat, y: nat) -> nat
    decreases x + y,
{
    if x == 0 && y == 0 {
        0
    } else {
        (x % 2) + 2 * (y % 2) + 4 * morton_interleave(x / 2, y / 2)
    }
}

/// Interleaving two `k`-bit values gives a `2k`-bit value; in particular the
/// code of two 32-bit grid coordinates fits in a `u64`.
pub proof fn lemma_morton_interleave_bound(x: nat, y: nat, k: nat)
    requires
        x < pow2(k),
        y < pow2(k),
    ensures
        morton_interleave(x, y) < pow2(2 * k),
    decreases k,
{
    vstd::arithmetic::power2::lemma_pow2_pos(k);
    if k == 0 {
        assert(pow2(0) == 1) by {
            vstd::arithmetic::power2::lemma2_to64();
        }
    } else {
        vstd::arithmetic::power2::lemma_pow2_adds((k - 1) as nat, 1);
        vstd::arithmetic::power2::lemma_pow2_adds((2 * k - 2) as nat, 2);
        vstd::arithmetic::power2::lemma2_to64();
        lemma_morton_interleave_bound(x / 2, y / 2, (k - 1) as nat);
    }
}

/// Relies on morton_encoding::morton_encode. It interleaves the bits of the
/// array's elements into one code, the first element supplying the upper bit
/// of each pair; handing `[y, x]` therefore puts bit `k` of `x` at bit `2k`
/// and bit `k` of `y` at bit `2k+1`. By `lemma_morton_interleave_bound` the
/// interleaving of two 32-bit values fits in the 64-bit result.
#[verifier::external_body]
fn morton_encode_pair(x: u32, y: u32) -> (code: u64)
    ensures
        code as nat == morton_interleave(x as nat, y as nat),
{
    morton_encoding::morton_encode([y, x])
}

/// The grid coordinate of `v` on an axis spanning `[min, max]`: the nearest
/// integer (half rounded up) to `u32::MAX * (v - min) / (max - min)`, and 0
/// on a degenerate axis.
pub open spec fn quantize_spec(v: int, min: int, max: int) -> int {
    if max <= min {
        0
    } else {
        (2 * (v - min) * 0xFFFF_FFFF + (max - min)) / (2 * (max - min))
    }
}

/// Quantizes one coordinate to the 32-bit Morton grid.
pub fn quantize(v: i64, min: i64, max: i64) -> (q: u32)
    requires
        min <= v <= max,
    ensures
        q as int == quantize_spec(v as int, min as int, max as int),
{
    if max <= min {
        0
    } else {
        let d: u128 = (v as i128 - min as i128) as u128;
        let span: u128 = (max as i128 - min as i128) as u128;
        let num: u128 = 2 * d * 0xFFFF_FFFFu128 + span;
        let q128: u128 = num / (2 * span);
        proof {
            let di = v as int - min as int;
            let si = max as int - min as int;
            assert(0 <= di <= si);
            assert(num == 2 * di * 0xFFFF_FFFF + si);
            assert(2 * di * 0xFFFF_FFFF <= 2 * si * 0xFFFF_FFFF) by (nonlinear_arith)
                requires 0 <= di <= si;
            vstd::arithmetic::div_mod::lemma_div_is_ordered(
                2 * di * 0xFFFF_FFFF + si,
                2 * si * 0xFFFF_FFFF + si,
                2 * si,
            );
            vstd::arithmetic::div_mod::lemma_fundamental_div_mod_converse(
                2 * si * 0xFFFF_FFFF + si,
                2 * si,
                0xFFFF_FFFF,
                si,
            );
            assert((2 * si * 0xFFFF_FFFF + si) / (2 * si) == 0xFFFF_FFFF);
            vstd::arithmetic::div_mod::lemma_div_pos_is_pos(2 * di * 0xFFFF_FFFF + si, 2 * si);
        }
        q128 as u32
    }
}

/// `p` with its Morton code set from its quantized (x, y) grid coordinates.
pub open spec fn morton_assigned(p: Point, e: SpatialExtent) -> Point {
    Point {
        morton: morton_interleave(
            quantize_spec(p.x as int, e.x_min as int, e.x_max as int) as nat,
            quantize_spec(p.y as int, e.y_min as int, e.y_max as int) as nat,
        ) as u64,
        ..p
    }
}

/// The whole stream with Morton codes assigned over the extent `e`.
pub open spec fn with_mortons(pts: Seq<Point>, e: SpatialExtent) -> Seq<Point> {
    Seq::new(pts.len(), |i: int| morton_assigned(pts[i], e))
}

/// Computes each point's Morton code on the 32-bit grid spanned by the
/// extent.
pub fn assign_mortons(points: &Vec<Point>, extent: &SpatialExtent) -> (out: Vec<Point>)
    requires
        forall|i: int| 0 <= i < points@.len() ==> {
            let p = #[trigger] points@[i];
            extent.x_min <= p.x <= extent.x_max && extent.y_min <= p.y <= extent.y_max
        },
    ensures
        out@ == with_mortons(points@, *extent),
{
    let mut out: Vec<Point> = Vec::new();
    let mut i: usize = 0;
    while i < points.len()
        invariant
            0 <= i <= points@.len(),
            out@ == with_mortons(points@.take(i as int), *extent),
            forall|j: int| 0 <= j < points@.len() ==> {
                let p = #[trigger] points@[j];
                extent.x_min <= p.x <= extent.x_max && extent.y_min <= p.y <= extent.y_max
            },
        decreases points@.len() - i,
    {
        let p = points[i];
        let xq = quantize(p.x, extent.x_min, extent.x_max);
        let yq = quantize(p.y, extent.y_min, extent.y_max);
        let code = morton_encode_pair(xq, yq);
        let q = Point { morton: code, ..p };
        out.push(q);
        i = i + 1;
        proof {
            assert(q == morton_assigned(points@[i - 1], *extent));
            assert(out@ =~= with_mortons(points@.take(i as int), *extent));
        }
    }
    proof {
        assert(points@.take(points@.len() as int) =~= points@);
    }
    out
}

/// Non-decreasing Morton codes.
pub open spec fn sorted_by_morton(s: Seq<Point>) -> bool {
    forall|i: int, j: int| 0 <= i <= j < s.len() ==> s[i].morton <= s[j].morton
}

/// Index `j` is hit by the index map `perm`.
pub open spec fn perm_covers(perm: Seq<int>, j: int) -> bool {
    exists|i: int| 0 <= i < perm.len() && #[trigger] perm[i] == j
}

/// `b` is `a` rearranged by the bijective index map `perm`, and equal Morton
/// codes keep their original relative order.
pub open spec fn stable_morton_perm(a: Seq<Point>, b: Seq<Point>, perm: Seq<int>) -> bool {
    &&& perm.len() == a.len()
    &&& b.len() == a.len()
    &&& forall|i: int| 0 <= i < perm.len() ==> 0 <= #[trigger] perm[i] < a.len()
    &&& forall|i: int, j: int| 0 <= i < j < perm.len() ==> perm[i] != perm[j]
    &&& forall|j: int| 0 <= j < a.len() ==> #[trigger] perm_covers(perm, j)
    &&& forall|i: int| 0 <= i < b.len() ==> #[trigger] b[i] == a[perm[i]]
    &&& forall|i: int, j: int|
        0 <= i < j < b.len() && b[i].morton == b[j].morton ==> perm[i] < perm[j]
}

/// A stable Morton sort: sorted by code, a rearrangement of the input, ties
/// kept in input order.
pub open spec fn is_morton_sort_of(input: Seq<Point>, s: Seq<Point>) -> bool {
    &&& sorted_by_morton(s)
    &&& exists|perm: Seq<int>| stable_morton_perm(input, s, perm)
}

/// Relies on rayon's par_sort_by: a stable parallel sort by the comparison
/// handed to it — here the points' Morton codes. The result is the unique
/// Morton-sorted rearrangement that keeps equal codes in their input order.
#[verifier::external_body]
pub(crate) fn sort_by_morton(points: &mut Vec<Point>)
    ensures
        sorted_by_morton(final(points)@),
        exists|perm: Seq<int>| stable_morton_perm(old(points)@, final(points)@, perm),
        final(points)@.to_multiset() == old(points)@.to_multiset(),
{
    points.par_sort_by(|p1, p2| p1.morton.cmp(&p2.morton));
}

/// Two stable Morton sorts of the same stream use the same index map on
/// every prefix.
proof fn lemma_stable_perm_prefix_agree(
    a: Seq<Point>,
    b1: Seq<Point>,
    p1: Seq<int>,
    b2: Seq<Point>,
    p2: Seq<int>,
    i: int,
)
    requires
        stable_morton_perm(a, b1, p1),
        sorted_by_morton(b1),
        stable_morton_perm(a, b2, p2),
        sorted_by_morton(b2),
        0 <= i <= a.len(),
    ensures
        forall|k: int| 0 <= k < i ==> p1[k] == p2[k],
    decreases i,
{
    if i > 0 {
        lemma_stable_perm_prefix_agree(a, b1, p1, b2, p2, i - 1);
        let k = i - 1;
        let j1 = p1[k];
        let j2 = p2[k];
        if j1 != j2 {
            assert forall|t: int| 0 <= t < k implies p2[t] != j1 by {
                assert(p2[t] == p1[t]);
            }
            assert(perm_covers(p2, j1));
            let ip = choose|t: int| 0 <= t < p2.len() && #[trigger] p2[t] == j1;
            assert(ip > k);
            assert(b2[ip] == a[j1]);
            assert(b2[k].morton <= b2[ip].morton);

            assert forall|t: int| 0 <= t < k implies p1[t] != j2 by {
                assert(p1[t] == p2[t]);
            }
            assert(perm_covers(p1, j2));
            let iq = choose|t: int| 0 <= t < p1.len() && #[trigger] p1[t] == j2;
            assert(iq > k);
            assert(b1[iq] == a[j2]);
            assert(b1[k].morton <= b1[iq].morton);

            assert(b1[k] == a[j1] && b2[k] == a[j2]);
            assert(b1[k].morton == b2[k].morton);
            assert(b2[k].morton == b2[ip].morton);
            assert(p2[k] < p2[ip]);
            assert(b1[k].morton == b1[iq].morton);
            assert(p1[k] < p1[iq]);
            assert(false);
        }
    }
}

/// Determinism of the sort: a stream has exactly one stable Morton sort.
/// Every later stage of the pipeline is a function of the sorted stream,
/// so a run's output is determined by its input.
pub proof fn lemma_morton_sort_unique(input: Seq<Point>, b1: Seq<Point>, b2: Seq<Point>)
    requires
        is_morton_sort_of(input, b1),
        is_morton_sort_of(input, b2),
    ensures
        b1 == b2,
{
    let p1 = choose|perm: Seq<int>| stable_morton_perm(input, b1, perm);
    let p2 = choose|perm: Seq<int>| stable_morton_perm(input, b2, perm);
    lemma_stable_perm_prefix_agree(input, b1, p1, b2, p2, input.len() as int);
    assert forall|k: int| 0 <= k < b1.len() implies b1[k] == b2[k] by {
        assert(p1[k] == p2[k]);
    }
    assert(b1 =~= b2);
}

} // verus!
