//! Top-down adaptive triangle selection.
//!
//! Starting from the two root triangles — traversal indices 0 then 1, in
//! that fixed order — each triangle is kept whole when it is a finest-level
//! leaf or when its stored worst-case error is within the threshold;
//! otherwise the walk descends into the right child first, then the left.
//! The emitted order is therefore a function of the error vector and the
//! threshold alone, which makes every run reproducible.
//!
//! Thresholds are on the error vector's own scale: twice the interpolation
//! error, in raw sample units.

use vstd::prelude::*;
use vstd::arithmetic::power2::{pow2, lemma_pow2_unfold, lemma_pow2_adds, lemma2_to64,
    lemma_pow2_strictly_increases};
use crate::addressing::{
    BinId, MAX_GRID_SIDE, spec_level, spec_in_subtree, lemma_band_level, lemma_child_level,
    lemma_subtree_step, lemma_subtrees_disjoint, index_to_bin_id,
    get_triangle_children_indices,
};
use crate::errors::{spec_num_triangles, spec_mid_index, triangle_errors_vec_index};
use crate::heightmap::Heightmap;

verus! {

/// The bin ids emitted for the subtree rooted at traversal index `i`: the
/// triangle itself when it is a leaf or accurate enough, else the right
/// child's emission followed by the left child's.
pub open spec fn spec_select(errs: Seq<u32>, side: u32, threshold: u32, i: nat) -> Seq<BinId>
    decreases spec_num_triangles(side) - i,
{
    if 2 * i + 2 >= spec_num_triangles(side)
        || errs[spec_mid_index(i + 2, side) as int] <= threshold {
        seq![(i + 2) as BinId]
    } else {
        spec_select(errs, side, threshold, 2 * i + 2)
            + spec_select(errs, side, threshold, 2 * i + 3)
    }
}

/// The full selection: the walk from root 0, then the walk from root 1.
pub open spec fn spec_select_all(errs: Seq<u32>, side: u32, threshold: u32) -> Seq<BinId> {
    spec_select(errs, side, threshold, 0) + spec_select(errs, side, threshold, 1)
}

/// Recursive selection step for one subtree, appending to `triangles`.
pub fn rtin_select_triangles_for_heightmap_process_triangle(
    heightmap: &Heightmap,
    errors_vec: &Vec<u32>,
    triangles: &mut Vec<BinId>,
    triangle_index: u32,
    error_threshold: u32,
)
    requires
        heightmap.rtin_valid(),
        errors_vec@.len() == (heightmap.side + 1) * (heightmap.side + 1),
        (triangle_index as nat) < spec_num_triangles(heightmap.side),
    ensures
        final(triangles)@ == old(triangles)@ + spec_select(
            errors_vec@,
            heightmap.side,
            error_threshold,
            triangle_index as nat,
        ),
    decreases spec_num_triangles(heightmap.side) - triangle_index,
{
    let side = heightmap.side;
    let grid_size = side + 1;
    proof {
        assert(4 <= side * side <= 0x4000_0000) by (nonlinear_arith)
            requires
                2 <= side <= MAX_GRID_SIDE,
        ;
    }
    let number_of_triangles = 2 * (side * side) - 2;
    let triangle_bin_id = index_to_bin_id(triangle_index);
    let children = get_triangle_children_indices(triangle_bin_id);
    let has_children = children.0 < number_of_triangles;
    let this_slot = triangle_errors_vec_index(triangle_bin_id, grid_size);
    let this_triangle_error = errors_vec[this_slot];
    if !has_children || this_triangle_error <= error_threshold {
        triangles.push(triangle_bin_id);
    } else {
        rtin_select_triangles_for_heightmap_process_triangle(
            heightmap,
            errors_vec,
            triangles,
            children.0,
            error_threshold,
        );
        rtin_select_triangles_for_heightmap_process_triangle(
            heightmap,
            errors_vec,
            triangles,
            children.1,
            error_threshold,
        );
        proof {
            assert(triangles@ =~= old(triangles)@ + spec_select(
                errors_vec@,
                side,
                error_threshold,
                triangle_index as nat,
            ));
        }
    }
}

/// Adaptive selection over a built error vector: emits the bin ids of the
/// minimal triangle partition whose kept triangles all meet the threshold,
/// in the fixed root-0-then-root-1, right-then-left order.
pub fn rtin_select_triangles_for_heightmap(
    heightmap: &Heightmap,
    errors_vec: &Vec<u32>,
    error_threshold: u32,
) -> (r: Vec<BinId>)
    requires
        heightmap.rtin_valid(),
        errors_vec@.len() == (heightmap.side + 1) * (heightmap.side + 1),
    ensures
        r@ == spec_select_all(errors_vec@, heightmap.side, error_threshold),
{
    proof {
        assert(4 <= heightmap.side * heightmap.side) by (nonlinear_arith)
            requires
                2 <= heightmap.side,
        ;
    }
    let mut triangles: Vec<BinId> = Vec::new();
    rtin_select_triangles_for_heightmap_process_triangle(
        heightmap,
        errors_vec,
        &mut triangles,
        0,
        error_threshold,
    );
    rtin_select_triangles_for_heightmap_process_triangle(
        heightmap,
        errors_vec,
        &mut triangles,
        1,
        error_threshold,
    );
    proof {
        assert(triangles@ =~= spec_select_all(errors_vec@, heightmap.side, error_threshold));
    }
    triangles
}

/// Selection is deterministic: two runs over the same error vector, side
/// and threshold emit identical, identically ordered sequences.
pub proof fn lemma_select_deterministic(
    errs: Seq<u32>,
    side: u32,
    threshold: u32,
    r1: Seq<BinId>,
    r2: Seq<BinId>,
)
    requires
        r1 == spec_select_all(errs, side, threshold),
        r2 == spec_select_all(errs, side, threshold),
    ensures
        r1 == r2,
{
}

/// For a usable side the triangle count is the even number
/// `2 side^2 - 2`, and it fits comfortably in a `u32`.
pub proof fn lemma_num_triangles_shape(side: u32)
    requires
        2 <= side <= MAX_GRID_SIDE,
    ensures
        spec_num_triangles(side) == 2 * ((side * side) as int) - 2,
        spec_num_triangles(side) % 2 == 0,
        6 <= spec_num_triangles(side) <= 0x7FFF_FFFE,
{
    assert(4 <= side * side <= 0x4000_0000) by (nonlinear_arith)
        requires
            2 <= side <= MAX_GRID_SIDE,
    ;
}

/// Every subtree emits at least one triangle.
pub proof fn lemma_select_nonempty(errs: Seq<u32>, side: u32, threshold: u32, i: nat)
    requires
        2 <= side <= MAX_GRID_SIDE,
        i < spec_num_triangles(side),
    ensures
        spec_select(errs, side, threshold, i).len() >= 1,
    decreases spec_num_triangles(side) - i,
{
    lemma_num_triangles_shape(side);
    if 2 * i + 2 < spec_num_triangles(side)
        && errs[spec_mid_index(i + 2, side) as int] > threshold {
        lemma_select_nonempty(errs, side, threshold, 2 * i + 2);
        lemma_select_nonempty(errs, side, threshold, 2 * i + 3);
    }
}

/// Raising the threshold never yields more triangles from a subtree.
pub proof fn lemma_select_threshold_monotonic_from(
    errs: Seq<u32>,
    side: u32,
    t1: u32,
    t2: u32,
    i: nat,
)
    requires
        t1 <= t2,
        2 <= side <= MAX_GRID_SIDE,
        i < spec_num_triangles(side),
    ensures
        spec_select(errs, side, t2, i).len() <= spec_select(errs, side, t1, i).len(),
    decreases spec_num_triangles(side) - i,
{
    let num = spec_num_triangles(side);
    lemma_num_triangles_shape(side);
    if 2 * i + 2 >= num {
        // a leaf is emitted whole under either threshold
    } else {
        let e = errs[spec_mid_index(i + 2, side) as int];
        if e <= t1 {
            // kept whole under both thresholds
        } else if e <= t2 {
            // kept whole under t2, split under t1: a split emits at least
            // one triangle per child
            lemma_select_nonempty(errs, side, t1, 2 * i + 2);
            lemma_select_nonempty(errs, side, t1, 2 * i + 3);
        } else {
            lemma_select_threshold_monotonic_from(errs, side, t1, t2, 2 * i + 2);
            lemma_select_threshold_monotonic_from(errs, side, t1, t2, 2 * i + 3);
        }
    }
}

/// Selector monotonicity: raising the threshold never increases the number
/// of emitted triangles.
pub proof fn lemma_select_threshold_monotonic(errs: Seq<u32>, side: u32, t1: u32, t2: u32)
    requires
        t1 <= t2,
        2 <= side <= MAX_GRID_SIDE,
    ensures
        spec_select_all(errs, side, t2).len() <= spec_select_all(errs, side, t1).len(),
{
    assert(4 <= side * side) by (nonlinear_arith)
        requires
            2 <= side,
    ;
    lemma_select_threshold_monotonic_from(errs, side, t1, t2, 0);
    lemma_select_threshold_monotonic_from(errs, side, t1, t2, 1);
}

/// A threshold no error exceeds keeps both roots whole: the selection is
/// exactly the two coarsest triangles, bin ids 2 and 3.
pub proof fn lemma_select_permissive(errs: Seq<u32>, side: u32)
    requires
        2 <= side <= MAX_GRID_SIDE,
    ensures
        spec_select_all(errs, side, u32::MAX) == seq![2u32, 3u32],
{
    assert(4 <= side * side) by (nonlinear_arith)
        requires
            2 <= side,
    ;
    assert(spec_select(errs, side, u32::MAX, 0) == seq![2u32]);
    assert(spec_select(errs, side, u32::MAX, 1) == seq![3u32]);
    assert(spec_select_all(errs, side, u32::MAX) =~= seq![2u32, 3u32]);
}

/// On a power-of-two grid, a triangle in range is a leaf exactly when its
/// bin id sits at the finest level, `2 log2(side) - 1`.
pub(crate) proof fn lemma_leaf_iff_finest_level(side: u32, k: u32, i: nat)
    requires
        2 <= side <= MAX_GRID_SIDE,
        side == pow2(k as nat),
        1 <= k <= 15,
        i < spec_num_triangles(side),
    ensures
        (2 * i + 2 >= spec_num_triangles(side)) <==> spec_level(i + 2) == 2 * (k as nat) - 1,
        spec_level(i + 2) <= 2 * (k as nat) - 1,
{
    let kk = k as nat;
    lemma_num_triangles_shape(side);
    lemma_pow2_adds(kk, kk);
    lemma_pow2_unfold(2 * kk + 1);
    assert(pow2(2 * kk) == side * side);
    assert(pow2(2 * kk + 1) == 2 * (side * side));
    assert(spec_num_triangles(side) + 2 == pow2(2 * kk + 1));
    if 2 * i + 2 >= spec_num_triangles(side) {
        assert(pow2(2 * kk) <= i + 2 < pow2(2 * kk + 1));
        lemma_band_level(i + 2, (2 * kk - 1) as nat);
    }
    if spec_level(i + 2) == 2 * kk - 1 {
        crate::addressing::lemma_level_band(i + 2);
        assert(pow2((((2 * kk - 1) + 1)) as nat) <= i + 2);
        assert(pow2(2 * kk) <= i + 2);
    }
    crate::addressing::lemma_level_band(i + 2);
    let l = spec_level(i + 2);
    if l > 2 * kk - 1 {
        assert(pow2(l + 1) <= i + 2);
        lemma_pow2_strictly_increases(2 * kk + 1, l + 1);
        assert(false);
    }
}

/// With threshold zero and strictly positive interior errors, a subtree's
/// walk reaches every one of its finest-level descendants: it emits exactly
/// `2^(finest level - level)` triangles, all at the finest level.
proof fn lemma_select_zero_descends(errs: Seq<u32>, side: u32, k: u32, i: nat)
    requires
        2 <= side <= MAX_GRID_SIDE,
        side == pow2(k as nat),
        1 <= k <= 15,
        i < spec_num_triangles(side),
        forall|j: nat|
            2 * j + 2 < spec_num_triangles(side)
                ==> errs[#[trigger] spec_mid_index(j + 2, side) as int] > 0,
    ensures
        spec_select(errs, side, 0, i).len() == pow2(
            (2 * (k as nat) - 1 - spec_level(i + 2)) as nat,
        ),
        forall|q: int|
            0 <= q < spec_select(errs, side, 0, i).len()
                ==> spec_level(#[trigger] spec_select(errs, side, 0, i)[q] as nat)
                    == 2 * (k as nat) - 1,
    decreases spec_num_triangles(side) - i,
{
    let kk = k as nat;
    let lmax = 2 * kk - 1;
    lemma_num_triangles_shape(side);
    lemma_leaf_iff_finest_level(side, k, i);
    let s = spec_select(errs, side, 0, i);
    assert(i + 2 <= 0x8000_0000);
    assert(((i + 2) as BinId) as nat == i + 2);
    if 2 * i + 2 >= spec_num_triangles(side) {
        assert(s == seq![(i + 2) as BinId]);
        assert(spec_level(s[0] as nat) == lmax);
        assert(pow2((lmax - spec_level(i + 2)) as nat) == 1) by {
            lemma2_to64();
        }
    } else {
        assert(errs[spec_mid_index(i + 2, side) as int] > 0);
        let rc = 2 * i + 2;
        let lc = 2 * i + 3;
        lemma_select_zero_descends(errs, side, k, rc);
        lemma_select_zero_descends(errs, side, k, lc);
        lemma_child_level(i + 2);
        assert(rc + 2 == 2 * (i + 2) && lc + 2 == 2 * (i + 2) + 1);
        assert(spec_level(rc + 2) == spec_level(i + 2) + 1);
        assert(spec_level(lc + 2) == spec_level(i + 2) + 1);
        let l = spec_level(i + 2);
        assert(l + 1 <= lmax);
        lemma_pow2_unfold((lmax - l) as nat);
        let a = spec_select(errs, side, 0, rc);
        let b = spec_select(errs, side, 0, lc);
        assert(s == a + b);
        assert(a.len() == pow2((lmax - l - 1) as nat));
        assert(b.len() == pow2((lmax - l - 1) as nat));
        assert(s.len() == 2 * pow2((lmax - l - 1) as nat));
        assert(pow2((lmax - l) as nat) == 2 * pow2((lmax - l - 1) as nat));
        assert forall|q: int| 0 <= q < s.len() implies
            spec_level(#[trigger] s[q] as nat) == lmax by {
            if q < a.len() {
                assert(s[q] == a[q]);
            } else {
                assert(s[q] == b[q - a.len()]);
            }
        }
    }
}

/// With threshold zero and no interior triangle of error zero, selection
/// descends everywhere: it emits exactly the `side * side` finest-level
/// triangles — the leaf partition of the whole grid.
pub proof fn lemma_select_zero_finest(errs: Seq<u32>, side: u32, k: u32)
    requires
        2 <= side <= MAX_GRID_SIDE,
        side == pow2(k as nat),
        1 <= k <= 15,
        forall|j: nat|
            2 * j + 2 < spec_num_triangles(side)
                ==> errs[#[trigger] spec_mid_index(j + 2, side) as int] > 0,
    ensures
        spec_select_all(errs, side, 0).len() == side * side,
        forall|q: int|
            0 <= q < spec_select_all(errs, side, 0).len()
                ==> spec_level(#[trigger] spec_select_all(errs, side, 0)[q] as nat)
                    == 2 * (k as nat) - 1,
{
    let kk = k as nat;
    assert(4 <= side * side) by (nonlinear_arith)
        requires
            2 <= side,
    ;
    lemma_select_zero_descends(errs, side, k, 0);
    lemma_select_zero_descends(errs, side, k, 1);
    assert(spec_level(2nat) == 0 && spec_level(3nat) == 0);
    lemma_pow2_unfold(2 * kk);
    lemma_pow2_adds(kk, kk);
    assert(2 * pow2((2 * kk - 1) as nat) == pow2(2 * kk));
    assert(pow2(2 * kk) == side * side);
}

/// A subtree's walk never emits more triangles than the subtree has
/// finest-level descendants: `2^(finest level - level)`.
pub(crate) proof fn lemma_select_len_pow2_bound(
    errs: Seq<u32>,
    side: u32,
    k: u32,
    threshold: u32,
    i: nat,
)
    requires
        2 <= side <= MAX_GRID_SIDE,
        side == pow2(k as nat),
        1 <= k <= 15,
        i < spec_num_triangles(side),
    ensures
        spec_select(errs, side, threshold, i).len() <= pow2(
            (2 * (k as nat) - 1 - spec_level(i + 2)) as nat,
        ),
    decreases spec_num_triangles(side) - i,
{
    let kk = k as nat;
    let lmax = 2 * kk - 1;
    lemma_num_triangles_shape(side);
    lemma_leaf_iff_finest_level(side, k, i);
    let s = spec_select(errs, side, threshold, i);
    if 2 * i + 2 >= spec_num_triangles(side)
        || errs[spec_mid_index(i + 2, side) as int] <= threshold {
        vstd::arithmetic::power2::lemma_pow2_pos((lmax - spec_level(i + 2)) as nat);
        assert(s.len() == 1);
    } else {
        let rc = 2 * i + 2;
        let lc = 2 * i + 3;
        lemma_select_len_pow2_bound(errs, side, k, threshold, rc);
        lemma_select_len_pow2_bound(errs, side, k, threshold, lc);
        lemma_child_level(i + 2);
        assert(rc + 2 == 2 * (i + 2) && lc + 2 == 2 * (i + 2) + 1);
        let l = spec_level(i + 2);
        assert(l + 1 <= lmax);
        lemma_pow2_unfold((lmax - l) as nat);
    }
}

/// A full selection never emits more triangles than the grid has cells.
pub proof fn lemma_select_total_len_bound(errs: Seq<u32>, side: u32, threshold: u32)
    requires
        2 <= side <= MAX_GRID_SIDE,
        vstd::arithmetic::power2::is_pow2(side as int),
    ensures
        spec_select_all(errs, side, threshold).len() <= side * side,
{
    vstd::arithmetic::power2::is_pow2_equiv(side as int);
    let i = choose|i: nat| vstd::arithmetic::power::pow(2, i) == side;
    vstd::arithmetic::power::lemma_pow_positive(2, i);
    assert(pow2(i) == side);
    crate::powers::lemma_pow2_exponent_in_range(side, i);
    lemma2_to64();
    if i > 15 {
        lemma_pow2_strictly_increases(15, i);
        assert(false);
    }
    if i == 0 {
        assert(false);
    }
    let k = i as u32;
    let kk = k as nat;
    lemma_num_triangles_shape(side);
    lemma_select_len_pow2_bound(errs, side, k, threshold, 0);
    lemma_select_len_pow2_bound(errs, side, k, threshold, 1);
    assert(spec_level(2nat) == 0 && spec_level(3nat) == 0);
    lemma_pow2_unfold(2 * kk);
    lemma_pow2_adds(kk, kk);
    assert(2 * pow2((2 * kk - 1) as nat) == pow2(2 * kk));
    assert(pow2(2 * kk) == side * side);
}

/// The selection from a subtree emits pairwise distinct bin ids, all inside
/// that subtree: the walk is a partition and names no triangle twice.
pub proof fn lemma_select_distinct_from(errs: Seq<u32>, side: u32, threshold: u32, i: nat)
    requires
        2 <= side <= MAX_GRID_SIDE,
        i < spec_num_triangles(side),
    ensures
        forall|q: int|
            0 <= q < spec_select(errs, side, threshold, i).len() ==> spec_in_subtree(
                #[trigger] spec_select(errs, side, threshold, i)[q] as nat,
                i + 2,
            ),
        forall|q1: int, q2: int|
            0 <= q1 < q2 < spec_select(errs, side, threshold, i).len()
                ==> #[trigger] spec_select(errs, side, threshold, i)[q1]
                    != #[trigger] spec_select(errs, side, threshold, i)[q2],
    decreases spec_num_triangles(side) - i,
{
    lemma_num_triangles_shape(side);
    let s = spec_select(errs, side, threshold, i);
    assert(i + 2 <= 0x8000_0000);
    if 2 * i + 2 >= spec_num_triangles(side)
        || errs[spec_mid_index(i + 2, side) as int] <= threshold {
        assert(s == seq![(i + 2) as BinId]);
        assert(spec_in_subtree(s[0] as nat, i + 2));
    } else {
        let rc = 2 * i + 2;
        let lc = 2 * i + 3;
        lemma_select_distinct_from(errs, side, threshold, rc);
        lemma_select_distinct_from(errs, side, threshold, lc);
        let a = spec_select(errs, side, threshold, rc);
        let b = spec_select(errs, side, threshold, lc);
        assert(s == a + b);
        assert(rc + 2 == 2 * (i + 2) && lc + 2 == 2 * (i + 2) + 1);
        assert forall|q: int| 0 <= q < s.len() implies spec_in_subtree(
            #[trigger] s[q] as nat,
            i + 2,
        ) by {
            if q < a.len() {
                assert(s[q] == a[q]);
                lemma_subtree_step(a[q] as nat, i + 2);
            } else {
                assert(s[q] == b[q - a.len()]);
                lemma_subtree_step(b[q - a.len()] as nat, i + 2);
            }
        }
        assert forall|q1: int, q2: int|
            0 <= q1 < q2 < s.len() implies #[trigger] s[q1] != #[trigger] s[q2] by {
            if q1 < a.len() && q2 >= a.len() {
                assert(s[q1] == a[q1] && s[q2] == b[q2 - a.len()]);
                if s[q1] == s[q2] {
                    lemma_subtrees_disjoint(s[q1] as nat, i + 2);
                    assert(false);
                }
            } else if q1 < a.len() {
                assert(s[q1] == a[q1] && s[q2] == a[q2]);
            } else {
                assert(s[q1] == b[q1 - a.len()] && s[q2] == b[q2 - a.len()]);
            }
        }
    }
}

/// A full selection never emits the same triangle twice.
pub proof fn lemma_select_all_distinct(errs: Seq<u32>, side: u32, threshold: u32)
    requires
        2 <= side <= MAX_GRID_SIDE,
    ensures
        forall|q1: int, q2: int|
            0 <= q1 < q2 < spec_select_all(errs, side, threshold).len()
                ==> #[trigger] spec_select_all(errs, side, threshold)[q1]
                    != #[trigger] spec_select_all(errs, side, threshold)[q2],
{
    lemma_num_triangles_shape(side);
    lemma_select_distinct_from(errs, side, threshold, 0);
    lemma_select_distinct_from(errs, side, threshold, 1);
    let s = spec_select_all(errs, side, threshold);
    let a = spec_select(errs, side, threshold, 0);
    let b = spec_select(errs, side, threshold, 1);
    assert forall|q1: int, q2: int|
        0 <= q1 < q2 < s.len() implies #[trigger] s[q1] != #[trigger] s[q2] by {
        if q1 < a.len() && q2 >= a.len() {
            assert(s[q1] == a[q1] && s[q2] == b[q2 - a.len()]);
            if s[q1] == s[q2] {
                lemma_subtrees_disjoint(s[q1] as nat, 1);
                assert(false);
            }
        } else if q1 < a.len() {
            assert(s[q1] == a[q1] && s[q2] == a[q2]);
        } else {
            assert(s[q1] == b[q1 - a.len()] && s[q2] == b[q2 - a.len()]);
        }
    }
}

} // verus!
