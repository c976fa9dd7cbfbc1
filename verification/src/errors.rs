//! Bottom-up construction of the error vector.
//!
//! Every triangle is processed in reverse traversal order (finest level
//! first).  For each, twice the linear-interpolation error at its hypotenuse
//! midpoint is computed in raw sample units — `|h(a) + h(b) - 2 h(m)|`, an
//! exact integer — and stored in the slot of the midpoint's corner-lattice
//! position; a non-leaf triangle stores the maximum of its own error and the
//! values its two children left in their midpoint slots, which were written
//! earlier in the pass.  Doubling the error instead of halving the sum keeps
//! the whole pass exact; thresholds are expressed on the same doubled scale.

use vstd::prelude::*;
use vstd::arithmetic::power2::{pow2, lemma_pow2_adds, lemma_pow2_strictly_increases,
    lemma2_to64};
use crate::addressing::{
    BinId, Vec2u32, MAX_GRID_SIDE, spec_coords, spec_midpoint_of, spec_child_triangle,
    spec_level_start, get_triangle_coords, get_triangle_children_bin_ids,
    get_index_level_start, index_to_bin_id, pixel_coords_for_triangle_mid_point,
};
use crate::heightmap::{Heightmap, spec_sample, sample_heightmap_height_corner_mean};
use crate::powers::log_2;

verus! {

/// Total number of triangles in the tree over a grid of side `side`:
/// levels `0 .. 2 log2(side)` hold `2^(l+1)` triangles each.
pub open spec fn spec_num_triangles(side: u32) -> nat {
    (2 * (side * side) - 2) as nat
}

/// Error-vector slot of a corner-lattice point (`grid_size` is `side + 1`).
pub open spec fn spec_grid_index(p: Vec2u32, grid_size: u32) -> nat {
    (p.y * grid_size + p.x) as nat
}

/// Midpoint slot of the triangle with the given bin id.
pub open spec fn spec_mid_index(b: nat, side: u32) -> nat {
    spec_grid_index(spec_midpoint_of(spec_coords(b, side)), (side + 1) as u32)
}

/// Maximum of three values.
pub open spec fn max3(a: u32, b: u32, c: u32) -> u32 {
    if a >= b && a >= c {
        a
    } else if b >= c {
        b
    } else {
        c
    }
}

/// Twice the linear-interpolation error of one triangle at its hypotenuse
/// midpoint, in raw sample units: `|h(a) + h(b) - 2 h(m)|`.
pub open spec fn spec_local_error(h: Heightmap, b: nat) -> u32 {
    let t = spec_coords(b, h.side);
    let m = spec_midpoint_of(t);
    let h0 = spec_sample(h.side, h.data@, t.1) as int;
    let h1 = spec_sample(h.side, h.data@, t.2) as int;
    let hm = spec_sample(h.side, h.data@, m) as int;
    (if h0 + h1 >= 2 * hm {
        h0 + h1 - 2 * hm
    } else {
        2 * hm - h0 - h1
    }) as u32
}

/// One bottom-up step: the value stored for the triangle at traversal index
/// `i` is its own midpoint error, joined for a non-leaf with the values its
/// children's midpoint slots hold.
pub open spec fn spec_error_step(h: Heightmap, errs: Seq<u32>, i: nat) -> Seq<u32> {
    let b = i + 2;
    let local = spec_local_error(h, b);
    let v = if 2 * i + 2 >= spec_num_triangles(h.side) {
        local
    } else {
        max3(
            local,
            errs[spec_mid_index(2 * b, h.side) as int],
            errs[spec_mid_index(2 * b + 1, h.side) as int],
        )
    };
    errs.update(spec_mid_index(b, h.side) as int, v)
}

/// The error vector after the triangles at traversal indices
/// `i .. num_triangles` have been processed, highest index first.
pub open spec fn spec_errors_from(h: Heightmap, i: nat) -> Seq<u32>
    decreases spec_num_triangles(h.side) - i,
{
    if i >= spec_num_triangles(h.side) {
        Seq::new((((h.side + 1) * (h.side + 1)) as nat), |j: int| 0u32)
    } else {
        spec_error_step(h, spec_errors_from(h, i + 1), i)
    }
}

/// The complete bottom-up error vector of a heightmap.
pub open spec fn spec_build_errors(h: Heightmap) -> Seq<u32> {
    spec_errors_from(h, 0)
}

/// Worst-case interpolation error over a triangle and all its descendants:
/// the mathematical value the bottom-up pass propagates, indexed by the
/// triangle's traversal index.
pub open spec fn spec_subtree_error(h: Heightmap, i: nat) -> u32
    decreases spec_num_triangles(h.side) - i,
{
    if 2 * i + 2 >= spec_num_triangles(h.side) {
        spec_local_error(h, i + 2)
    } else {
        max3(
            spec_local_error(h, i + 2),
            spec_subtree_error(h, 2 * i + 2),
            spec_subtree_error(h, 2 * i + 3),
        )
    }
}

/// Error propagation: a non-leaf triangle's worst-case error is exactly the
/// maximum of its own midpoint error and its two children's worst-case
/// errors, and so no smaller than any of the three.
pub proof fn lemma_error_monotonicity(h: Heightmap, i: nat)
    requires
        2 * i + 2 < spec_num_triangles(h.side),
    ensures
        spec_subtree_error(h, i) == max3(
            spec_local_error(h, i + 2),
            spec_subtree_error(h, 2 * i + 2),
            spec_subtree_error(h, 2 * i + 3),
        ),
        spec_subtree_error(h, i) >= spec_subtree_error(h, 2 * i + 2),
        spec_subtree_error(h, i) >= spec_subtree_error(h, 2 * i + 3),
        spec_subtree_error(h, i) >= spec_local_error(h, i + 2),
{
}

/// Error-vector slot of a triangle's midpoint; `grid_size` is the corner
/// lattice side, `side + 1`.
pub fn triangle_errors_vec_index(bin_id: BinId, grid_size: u32) -> (r: usize)
    requires
        2 <= bin_id,
        2 <= grid_size <= MAX_GRID_SIDE + 1,
    ensures
        r == spec_mid_index(bin_id as nat, (grid_size - 1) as u32),
        r < grid_size * grid_size,
{
    let m = pixel_coords_for_triangle_mid_point(bin_id, grid_size);
    proof {
        assert(m.y * grid_size + m.x < grid_size * grid_size
            && grid_size * grid_size <= 0x4001_0001) by (nonlinear_arith)
            requires
                m.x < grid_size,
                m.y < grid_size,
                grid_size <= MAX_GRID_SIDE + 1,
        ;
    }
    (m.y * grid_size + m.x) as usize
}

/// For a power-of-two side, the first traversal index of the finest level is
/// `side * side - 2`.
proof fn lemma_last_level_start(side: u32, k: u32)
    requires
        2 <= side <= MAX_GRID_SIDE,
        side == pow2(k as nat),
    ensures
        1 <= k <= 15,
        spec_level_start((2 * k - 1) as nat) == side * side - 2,
{
    lemma2_to64();
    if k == 0 {
        assert(false);
    }
    if k > 15 {
        lemma_pow2_strictly_increases(15, k as nat);
        assert(false);
    }
    lemma_pow2_adds(k as nat, k as nat);
    assert(pow2((k + k) as nat) == side * side);
    assert((((2 * k - 1) as nat) + 1) == (k + k) as nat);
}

/// Bottom-up error-vector construction, finest level first: the result is
/// exactly the fold of one store per triangle, so it is deterministic and
/// reproducible.
pub fn build_triangle_errors_vec(heightmap: &Heightmap) -> (r: Vec<u32>)
    requires
        heightmap.rtin_valid(),
    ensures
        r@ == spec_build_errors(*heightmap),
        r@.len() == (heightmap.side + 1) * (heightmap.side + 1),
{
    let side = heightmap.side;
    let grid_size = side + 1;
    proof {
        assert(4 <= side * side <= 0x4000_0000 && grid_size * grid_size <= 0x4001_0001)
            by (nonlinear_arith)
            requires
                2 <= side <= MAX_GRID_SIDE,
                grid_size == side + 1,
        ;
    }
    let number_of_triangles = 2 * (side * side) - 2;
    let k = log_2(side);
    proof {
        lemma_last_level_start(side, k);
    }
    let number_of_levels = 2 * k;
    let last_level = number_of_levels - 1;
    let last_level_index_start = get_index_level_start(last_level);
    assert(last_level_index_start == side * side - 2);

    let total_slots = grid_size * grid_size;
    let mut errors_vec: Vec<u32> = Vec::new();
    let mut fill: u32 = 0;
    while fill < total_slots
        invariant
            fill <= total_slots,
            errors_vec@.len() == fill,
            forall|j: int| 0 <= j < fill ==> errors_vec@[j] == 0u32,
        decreases total_slots - fill,
    {
        errors_vec.push(0u32);
        fill = fill + 1;
    }
    proof {
        assert(errors_vec@ =~= spec_errors_from(*heightmap, number_of_triangles as nat));
    }

    let mut idx = number_of_triangles;
    while idx > 0
        invariant
            heightmap.rtin_valid(),
            side == heightmap.side,
            grid_size == side + 1,
            grid_size * grid_size <= 0x4001_0001,
            number_of_triangles == spec_num_triangles(side),
            4 <= side * side <= 0x4000_0000,
            number_of_triangles == 2 * (side * side) - 2,
            last_level_index_start == side * side - 2,
            idx <= number_of_triangles,
            errors_vec@.len() == grid_size * grid_size,
            errors_vec@ == spec_errors_from(*heightmap, idx as nat),
        decreases idx,
    {
        idx = idx - 1;
        let triangle_bin_id = index_to_bin_id(idx);
        let triangle_coords = get_triangle_coords(triangle_bin_id, grid_size);
        let midpoint = pixel_coords_for_triangle_mid_point(triangle_bin_id, grid_size);
        let h0 = sample_heightmap_height_corner_mean(heightmap, triangle_coords.1) as u32;
        let h1 = sample_heightmap_height_corner_mean(heightmap, triangle_coords.2) as u32;
        let hm = sample_heightmap_height_corner_mean(heightmap, midpoint) as u32;
        let interpolated_twice = h0 + h1;
        let midpoint_twice = 2 * hm;
        let this_triangle_error = if interpolated_twice >= midpoint_twice {
            interpolated_twice - midpoint_twice
        } else {
            midpoint_twice - interpolated_twice
        };
        assert(this_triangle_error == spec_local_error(*heightmap, (idx + 2) as nat));
        let this_slot = triangle_errors_vec_index(triangle_bin_id, grid_size);
        if idx >= last_level_index_start {
            errors_vec[this_slot] = this_triangle_error;
        } else {
            let children = get_triangle_children_bin_ids(triangle_bin_id);
            let right_slot = triangle_errors_vec_index(children.0, grid_size);
            let left_slot = triangle_errors_vec_index(children.1, grid_size);
            let right_error = errors_vec[right_slot];
            let left_error = errors_vec[left_slot];
            let mut value = this_triangle_error;
            if right_error > value {
                value = right_error;
            }
            if left_error > value {
                value = left_error;
            }
            assert(value == max3(this_triangle_error, right_error, left_error));
            errors_vec[this_slot] = value;
        }
        proof {
            assert(errors_vec@ =~= spec_errors_from(*heightmap, idx as nat));
        }
    }
    errors_vec
}

/// Propagation read off the finished array, at the root: the last triangle
/// processed is traversal index 0 (bin id 2), so the slot of the roots'
/// shared midpoint holds exactly the maximum of that root's own midpoint
/// error and the values its children's slots hold.  (A slot shared by two
/// same-level triangles keeps the value of the one processed last, which is
/// the smaller traversal index.)
pub proof fn lemma_error_vector_root_propagation(h: Heightmap)
    requires
        h.rtin_valid(),
    ensures
        ({
            let e = spec_build_errors(h);
            let root = e[spec_mid_index(2, h.side) as int];
            let right = e[spec_mid_index(4, h.side) as int];
            let left = e[spec_mid_index(5, h.side) as int];
            root == max3(spec_local_error(h, 2), right, left) && root >= right && root >= left
                && root >= spec_local_error(h, 2)
        }),
{
    let s = h.side;
    let g = s + 1;
    assert(4 <= s * s) by (nonlinear_arith)
        requires
            2 <= s,
    ;
    assert(spec_num_triangles(s) >= 6);
    let hd = s / 2;
    // the three midpoints involved: the centre, the right edge's midpoint,
    // and the bottom edge's midpoint
    assert(spec_midpoint_of(spec_coords(2, s)) == Vec2u32 { x: hd as u32, y: hd as u32 });
    assert(spec_coords(4, s) == spec_child_triangle(spec_coords(2, s), true));
    assert(spec_coords(5, s) == spec_child_triangle(spec_coords(2, s), false));
    assert(spec_midpoint_of(spec_coords(4, s)) == Vec2u32 { x: s, y: hd as u32 });
    assert(spec_midpoint_of(spec_coords(5, s)) == Vec2u32 { x: hd as u32, y: 0 });
    let slot_root = spec_mid_index(2, s);
    let slot_right = spec_mid_index(4, s);
    let slot_left = spec_mid_index(5, s);
    assert(1 <= hd && hd < s);
    assert(0 <= hd * (s + 1) && hd * (s + 1) + hd < (s + 1) * (s + 1) && hd * (s + 1) + s < (s
        + 1) * (s + 1) && hd * (s + 1) + hd != hd * (s + 1) + s && hd * (s + 1) + hd > hd && hd
        * (s + 1) + s > hd) by (nonlinear_arith)
        requires
            1 <= hd,
            hd < s,
            2 <= s,
    ;
    assert(slot_root == hd * (s + 1) + hd);
    assert(slot_right == hd * (s + 1) + s);
    assert(0 * (((s + 1) as u32) as int) == 0) by (nonlinear_arith);
    assert(slot_left == hd);
    assert(slot_root != slot_right && slot_root != slot_left && slot_right != slot_left);
    // the final vector is one update of the state before index 0 was
    // processed, at the root slot; the children's slots are untouched by it
    let prev = spec_errors_from(h, 1);
    lemma_errors_from_len(h, 1);
    assert(spec_build_errors(h) == spec_error_step(h, prev, 0));
    assert(spec_build_errors(h)[slot_right as int] == prev[slot_right as int]);
    assert(spec_build_errors(h)[slot_left as int] == prev[slot_left as int]);
}

/// The slot of any triangle's midpoint lies within the error vector.
proof fn lemma_mid_index_in_range(b: nat, side: u32)
    requires
        1 <= side <= MAX_GRID_SIDE,
    ensures
        spec_mid_index(b, side) < (side + 1) * (side + 1),
{
    crate::addressing::lemma_coords_in_grid(b, side);
    let m = spec_midpoint_of(spec_coords(b, side));
    let g = (side + 1) as u32;
    assert(m.y * g + m.x < (side + 1) * (side + 1)) by (nonlinear_arith)
        requires
            m.x <= side,
            m.y <= side,
            g == side + 1,
    ;
}

/// Every intermediate state of the bottom-up pass keeps one slot per
/// corner-lattice point.
proof fn lemma_errors_from_len(h: Heightmap, i: nat)
    requires
        1 <= h.side <= MAX_GRID_SIDE,
    ensures
        spec_errors_from(h, i).len() == (h.side + 1) * (h.side + 1),
    decreases spec_num_triangles(h.side) - i,
{
    assert((h.side + 1) * (h.side + 1) >= 0) by (nonlinear_arith);
    if i < spec_num_triangles(h.side) {
        lemma_errors_from_len(h, i + 1);
        lemma_mid_index_in_range(i + 2, h.side);
    }
}

} // verus!
