//! The heightmap: an immutable square grid of raw `u16` elevation samples.
//!
//! Triangle corners live on the `(side + 1) x (side + 1)` corner lattice, one
//! unit larger per axis than the pixel grid, so sampling clamps a corner on
//! the far edges back onto the last pixel row or column.  The sample is the
//! raw value of that single pixel — a nearest/clamped read, not an
//! interpolation; normalization to `[0, 1]` is left to the rendering layer.

use vstd::prelude::*;
use vstd::arithmetic::power2::is_pow2;
use crate::addressing::{Vec2u32, MAX_GRID_SIDE};
use crate::powers::is_power_of_2;

verus! {

/// A square grid of raw elevation samples, row-major.
pub struct Heightmap {
    pub side: u32,
    pub data: Vec<u16>,
}

impl Heightmap {
    /// Representation invariant: one sample per pixel of a square grid.
    pub open spec fn well_formed(self) -> bool {
        self.data@.len() == self.side * self.side
    }

    /// What the triangulation demands of its input: a square grid whose side
    /// is a power of two, at least 2, and small enough that the triangle
    /// count `2 * side^2 - 2` stays representable in a `u32`.
    pub open spec fn rtin_valid(self) -> bool {
        &&& self.well_formed()
        &&& is_pow2(self.side as int)
        &&& 2 <= self.side <= MAX_GRID_SIDE
    }

    /// Fail-fast constructor: a heightmap exists only for a square sample
    /// grid of matching length.
    pub fn new(width: u32, height: u32, data: Vec<u16>) -> (r: Option<Heightmap>)
        ensures
            match r {
                Some(h) => {
                    &&& h.side == width
                    &&& h.data@ == data@
                    &&& width == height
                    &&& h.well_formed()
                },
                None => width != height || data@.len() != width * height,
            },
    {
        proof {
            assert((width as u64) * (height as u64) <= u64::MAX) by (nonlinear_arith)
                requires
                    width <= u32::MAX,
                    height <= u32::MAX,
            ;
        }
        if width == height && data.len() as u64 == (width as u64) * (height as u64) {
            Some(Heightmap { side: width, data })
        } else {
            None
        }
    }
}

/// Whether a heightmap meets every precondition of the triangulation.
pub fn assert_valid_rtin_heightmap(heightmap: &Heightmap) -> (r: bool)
    ensures
        r == heightmap.rtin_valid(),
{
    proof {
        assert((heightmap.side as u64) * (heightmap.side as u64) <= u64::MAX)
            by (nonlinear_arith)
            requires
                heightmap.side <= u32::MAX,
        ;
    }
    let square = heightmap.data.len() as u64
        == (heightmap.side as u64) * (heightmap.side as u64);
    let pow2_side = is_power_of_2(heightmap.side);
    square && pow2_side && 2 <= heightmap.side && heightmap.side <= MAX_GRID_SIDE
}

/// Whether a coordinate addresses a pixel of the heightmap.
pub fn assert_coordinate_is_within_heightmap(heightmap: &Heightmap, coord: Vec2u32) -> (r: bool)
    ensures
        r == (coord.x < heightmap.side && coord.y < heightmap.side),
{
    coord.x < heightmap.side && coord.y < heightmap.side
}

/// Raw sample under a corner-lattice coordinate: each axis is clamped to
/// `side - 1`, then the single pixel there is read.
pub open spec fn spec_sample(side: u32, data: Seq<u16>, c: Vec2u32) -> u16 {
    let x = if c.x >= side { (side - 1) as u32 } else { c.x };
    let y = if c.y >= side { (side - 1) as u32 } else { c.y };
    data[y * side + x]
}

/// Height of a triangle corner: the corner is clamped from the corner
/// lattice onto the pixel grid and the pixel under it is read raw.
pub fn sample_heightmap_height_corner_mean(heightmap: &Heightmap, corner: Vec2u32) -> (h: u16)
    requires
        heightmap.well_formed(),
        1 <= heightmap.side <= MAX_GRID_SIDE,
    ensures
        h == spec_sample(heightmap.side, heightmap.data@, corner),
{
    let side = heightmap.side;
    let x = if corner.x >= side { side - 1 } else { corner.x };
    let y = if corner.y >= side { side - 1 } else { corner.y };
    proof {
        assert(y * side + x < side * side && side * side <= 0x4000_0000) by (nonlinear_arith)
            requires
                x < side,
                y < side,
                side <= MAX_GRID_SIDE,
        ;
    }
    heightmap.data[(y * side + x) as usize]
}

} // verus!
