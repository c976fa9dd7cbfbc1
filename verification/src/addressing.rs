//! Triangle addressing for the bintree that covers the grid.
//!
//! A triangle is named by its *bin id*, a `u32` whose bit length encodes the
//! tree level: the two roots are `2` and `3` (`0b10`, `0b11`), and the two
//! children of bin id `b` are `2b` (right) and `2b + 1` (left).  A *traversal
//! index* is the 0-based position of a triangle in the breadth-first order of
//! the whole tree; bin id and traversal index differ by exactly two.
//!
//! Geometry: a triangle is `(c, a, b)` where `c` is the right-angle corner
//! and `a`, `b` the two ends of the hypotenuse, as integer corner-lattice
//! coordinates.  Bisecting the hypotenuse at its midpoint `m` and joining it
//! to `c` yields the right child `(m, b, c)` and the left child `(m, c, a)`.

use vstd::prelude::*;
use vstd::arithmetic::power2::{
    pow2, lemma_pow2_pos, lemma_pow2_strictly_increases, lemma_pow2_unfold, lemma2_to64,
};
use vstd::bits::lemma_u32_shl_is_mul;
use crate::powers::lemma_u32_pow2_fits;

verus! {

/// Integer key naming one triangle's position and level in the bintree.
pub type BinId = u32;

/// A corner-lattice coordinate.
#[derive(Clone, Copy, PartialEq, Eq, Structural, Debug)]
pub struct Vec2u32 {
    pub x: u32,
    pub y: u32,
}

/// Three corners of one triangle: right-angle corner first, then the two
/// ends of the hypotenuse.
pub type TriangleU32 = (Vec2u32, Vec2u32, Vec2u32);

/// The largest grid side the pipeline accepts: `2 * side * side` must stay
/// representable in a `u32`.
pub const MAX_GRID_SIDE: u32 = 32768;

/// Tree level of a bin id: the roots `2` and `3` are level 0, and each
/// halving strips one level.
pub open spec fn spec_level(b: nat) -> nat
    decreases b,
{
    if b < 4 {
        0
    } else {
        1 + spec_level(b / 2)
    }
}

/// First traversal index of a level: levels are contiguous and level `l`
/// holds `2^(l+1)` triangles, so level `l` starts at `2^(l+1) - 2`.
pub open spec fn spec_level_start(l: nat) -> nat {
    (pow2(l + 1) - 2) as nat
}

/// A bin id at level `l` lies in the band `[2^(l+1), 2^(l+2))`.
pub proof fn lemma_level_band(b: nat)
    requires
        b >= 2,
    ensures
        pow2(spec_level(b) + 1) <= b < pow2(spec_level(b) + 2),
    decreases b,
{
    lemma2_to64();
    if b < 4 {
        assert(spec_level(b) == 0);
    } else {
        lemma_level_band(b / 2);
        let l = spec_level(b / 2);
        assert(spec_level(b) == l + 1);
        lemma_pow2_unfold(l + 2);
        lemma_pow2_unfold(l + 3);
        assert(pow2(l + 2) == 2 * pow2(l + 1));
        assert(pow2(l + 3) == 2 * pow2(l + 2));
    }
}

/// Bands of distinct levels are disjoint, so the level of a bin id is the
/// unique `l` with `2^(l+1) <= b < 2^(l+2)`.
pub proof fn lemma_band_level(b: nat, l: nat)
    requires
        b >= 2,
        pow2(l + 1) <= b < pow2(l + 2),
    ensures
        spec_level(b) == l,
{
    lemma_level_band(b);
    let lb = spec_level(b);
    if lb < l {
        lemma_pow2_strictly_increases(lb + 2, l + 1);
        assert(false);
    }
    if lb > l {
        lemma_pow2_strictly_increases(l + 2, lb + 1);
        assert(false);
    }
}

/// Traversal index to bin id: the two differ by exactly two, which makes the
/// map total, deterministic and injective.
pub fn index_to_bin_id(index: u32) -> (b: BinId)
    requires
        index <= u32::MAX - 2,
    ensures
        b == index + 2,
{
    index + 2
}

/// First traversal index of a tree level.
pub fn get_index_level_start(level: u32) -> (r: u32)
    requires
        level <= 30,
    ensures
        r == spec_level_start(level as nat),
{
    proof {
        lemma_u32_pow2_fits((level + 1) as u32);
        lemma_u32_shl_is_mul(1u32, (level + 1) as u32);
        lemma_pow2_pos((level + 1) as nat);
        lemma2_to64();
        if level >= 1 {
            lemma_pow2_strictly_increases(1, (level + 1) as nat);
        }
    }
    (1u32 << (level + 1)) - 2
}

/// The addressing bijection: distinct traversal indices name distinct bin
/// ids, and an index in the band of level `l` decodes to a bin id whose
/// level is exactly `l`.
pub proof fn lemma_addressing_bijection(i: nat, j: nat, l: nat)
    requires
        spec_level_start(l) <= i < spec_level_start(l + 1),
    ensures
        i != j ==> i + 2 != j + 2,
        spec_level(i + 2) == l,
{
    lemma_pow2_pos(l + 1);
    lemma_pow2_unfold(l + 2);
    assert(pow2(l + 1) <= i + 2 < pow2(l + 2));
    lemma_band_level(i + 2, l);
}

/// Right and left children of a bin id.
pub fn get_triangle_children_bin_ids(bin_id: BinId) -> (c: (BinId, BinId))
    requires
        2 <= bin_id <= 0x7FFF_FFFF,
    ensures
        c.0 == 2 * bin_id,
        c.1 == 2 * bin_id + 1,
{
    (2 * bin_id, 2 * bin_id + 1)
}

/// Traversal indices of the two children of a bin id; for a bin id at
/// traversal index `i` these are `2i + 2` (right) and `2i + 3` (left).
pub fn get_triangle_children_indices(bin_id: BinId) -> (c: (u32, u32))
    requires
        2 <= bin_id <= 0x7FFF_FFFF,
    ensures
        c.0 == 2 * bin_id - 2,
        c.1 == 2 * bin_id - 1,
        c.0 == 2 * (bin_id - 2) + 2,
        c.1 == 2 * (bin_id - 2) + 3,
{
    (2 * bin_id - 2, 2 * bin_id - 1)
}

/// The two root triangles split the square along the diagonal from `(0, 0)`
/// to `(s, s)`.
pub open spec fn spec_root_triangle(b: nat, s: u32) -> TriangleU32 {
    if b == 2 {
        (
            Vec2u32 { x: s, y: 0 },
            Vec2u32 { x: 0, y: 0 },
            Vec2u32 { x: s, y: s },
        )
    } else {
        (
            Vec2u32 { x: 0, y: s },
            Vec2u32 { x: s, y: s },
            Vec2u32 { x: 0, y: 0 },
        )
    }
}

/// Hypotenuse midpoint of a triangle.
pub open spec fn spec_midpoint_of(t: TriangleU32) -> Vec2u32 {
    Vec2u32 { x: (((t.1.x + t.2.x) / 2) as u32), y: (((t.1.y + t.2.y) / 2) as u32) }
}

/// One bisection step: the child shares the parent's midpoint as its
/// right-angle corner and keeps two of the parent's corners.
pub open spec fn spec_child_triangle(t: TriangleU32, right: bool) -> TriangleU32 {
    let m = spec_midpoint_of(t);
    if right {
        (m, t.2, t.0)
    } else {
        (m, t.0, t.1)
    }
}

/// Corners of the triangle with the given bin id on the square of side `s`.
pub open spec fn spec_coords(b: nat, s: u32) -> TriangleU32
    decreases b,
{
    if b < 4 {
        spec_root_triangle(b, s)
    } else {
        spec_child_triangle(spec_coords(b / 2, s), b % 2 == 0)
    }
}

/// Every corner of every triangle stays on the corner lattice `[0, s]^2`.
pub proof fn lemma_coords_in_grid(b: nat, s: u32)
    ensures
        ({
            let t = spec_coords(b, s);
            t.0.x <= s && t.0.y <= s && t.1.x <= s && t.1.y <= s && t.2.x <= s && t.2.y <= s
        }),
    decreases b,
{
    if b >= 4 {
        lemma_coords_in_grid(b / 2, s);
    }
}

/// Corners of a triangle, on the corner lattice of side `grid_size`
/// (`grid_size` is the heightmap side plus one).
pub fn get_triangle_coords(bin_id: BinId, grid_size: u32) -> (t: TriangleU32)
    requires
        2 <= bin_id,
        1 <= grid_size <= MAX_GRID_SIDE + 1,
    ensures
        t == spec_coords(bin_id as nat, (grid_size - 1) as u32),
        t.0.x < grid_size && t.0.y < grid_size,
        t.1.x < grid_size && t.1.y < grid_size,
        t.2.x < grid_size && t.2.y < grid_size,
    decreases bin_id,
{
    let s = grid_size - 1;
    proof {
        lemma_coords_in_grid(bin_id as nat, s);
        lemma_coords_in_grid((bin_id / 2) as nat, s);
    }
    if bin_id == 2 {
        (
            Vec2u32 { x: s, y: 0 },
            Vec2u32 { x: 0, y: 0 },
            Vec2u32 { x: s, y: s },
        )
    } else if bin_id == 3 {
        (
            Vec2u32 { x: 0, y: s },
            Vec2u32 { x: s, y: s },
            Vec2u32 { x: 0, y: 0 },
        )
    } else {
        let p = get_triangle_coords(bin_id / 2, grid_size);
        let m = Vec2u32 { x: (p.1.x + p.2.x) / 2, y: (p.1.y + p.2.y) / 2 };
        if bin_id % 2 == 0 {
            (m, p.2, p.0)
        } else {
            (m, p.0, p.1)
        }
    }
}

/// Corner-lattice coordinate of a triangle's hypotenuse midpoint.
pub fn pixel_coords_for_triangle_mid_point(bin_id: BinId, grid_size: u32) -> (m: Vec2u32)
    requires
        2 <= bin_id,
        1 <= grid_size <= MAX_GRID_SIDE + 1,
    ensures
        m == spec_midpoint_of(spec_coords(bin_id as nat, (grid_size - 1) as u32)),
        m.x < grid_size,
        m.y < grid_size,
{
    let t = get_triangle_coords(bin_id, grid_size);
    Vec2u32 { x: (t.1.x + t.2.x) / 2, y: (t.1.y + t.2.y) / 2 }
}

/// Children coverage: the two children of any triangle are built from the
/// parent's own corners and its hypotenuse midpoint alone — the bisection
/// introduces no other point, so the children exactly partition the parent.
pub proof fn lemma_children_coverage(b: nat, s: u32)
    requires
        2 <= b,
    ensures
        ({
            let p = spec_coords(b, s);
            let m = spec_midpoint_of(p);
            let r = spec_coords(2 * b, s);
            let l = spec_coords(2 * b + 1, s);
            r.0 == m && r.1 == p.2 && r.2 == p.0 && l.0 == m && l.1 == p.0 && l.2 == p.1
        }),
{
    assert((2 * b) / 2 == b && (2 * b) % 2 == 0);
    assert((2 * b + 1) / 2 == b && (2 * b + 1) % 2 == 1);
    assert(2 * b >= 4 && 2 * b + 1 >= 4);
}

/// A child's level is one below its parent's.
pub proof fn lemma_child_level(b: nat)
    requires
        2 <= b,
    ensures
        spec_level(2 * b) == spec_level(b) + 1,
        spec_level(2 * b + 1) == spec_level(b) + 1,
{
    assert((2 * b) / 2 == b);
    assert((2 * b + 1) / 2 == b);
    assert(2 * b >= 4 && 2 * b + 1 >= 4);
}

/// Whether bin id `b` lies in the subtree rooted at bin id `a` (every bin id
/// reaches its ancestors by repeated halving).
pub open spec fn spec_in_subtree(b: nat, a: nat) -> bool
    decreases b,
{
    if b == a {
        true
    } else if b < 4 || b <= a {
        false
    } else {
        spec_in_subtree(b / 2, a)
    }
}

/// A member of a child's subtree is a member of the parent's.
pub proof fn lemma_subtree_step(x: nat, a: nat)
    requires
        2 <= a,
        spec_in_subtree(x, 2 * a) || spec_in_subtree(x, 2 * a + 1),
    ensures
        spec_in_subtree(x, a),
    decreases x,
{
    assert((2 * a) / 2 == a && (2 * a + 1) / 2 == a);
    if x == 2 * a || x == 2 * a + 1 {
        assert(spec_in_subtree(x / 2, a));
    } else {
        lemma_subtree_step(x / 2, a);
    }
}

/// The two children's subtrees share no bin id.
pub proof fn lemma_subtrees_disjoint(x: nat, a: nat)
    requires
        1 <= a,
        spec_in_subtree(x, 2 * a),
    ensures
        !spec_in_subtree(x, 2 * a + 1),
    decreases x,
{
    assert((2 * a) / 2 == a && (2 * a + 1) / 2 == a);
    if x == 2 * a {
        assert(!spec_in_subtree(2 * a, 2 * a + 1));
    } else {
        assert(x > 2 * a && x >= 4 && spec_in_subtree(x / 2, 2 * a));
        if spec_in_subtree(x, 2 * a + 1) {
            if x == 2 * a + 1 {
                assert(spec_in_subtree(a, 2 * a));
                assert(false);
            } else {
                lemma_subtrees_disjoint(x / 2, a);
                assert(false);
            }
        }
    }
}

} // verus!
