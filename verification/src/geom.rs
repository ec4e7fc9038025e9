//! Fixed-point plane geometry.
//!
//! A world coordinate is stored as a signed count of fixed-point units,
//! [`SCALE`] units to one world unit.  Positions, distances and colors all
//! use this representation, so every geometric rule of the editor is exact
//! integer arithmetic.

use vstd::prelude::*;

verus! {

/// Fixed-point units in one world unit.
pub const SCALE: i64 = 1_000_000;

/// Largest magnitude a stored coordinate may take, in fixed-point units
/// (one thousand world units; the editor's canvas is about the unit square).
pub const COORD_LIMIT: i64 = 1_000_000_000;

/// Snap capture radius: 0.2 world units, in fixed-point units.
pub const SNAP_RADIUS: i64 = 200_000;

/// A point of the plane in fixed-point units.
#[derive(Clone, Copy, PartialEq, Eq, Structural, Debug)]
pub struct Vec2 {
    pub x: i64,
    pub y: i64,
}

impl Vec2 {
    /// Both coordinates lie within [`COORD_LIMIT`].
    pub open spec fn in_bounds(self) -> bool {
        &&& -COORD_LIMIT <= self.x <= COORD_LIMIT
        &&& -COORD_LIMIT <= self.y <= COORD_LIMIT
    }
}

pub open spec fn min_c(a: int, b: int) -> int {
    if a <= b {
        a
    } else {
        b
    }
}

pub open spec fn max_c(a: int, b: int) -> int {
    if a <= b {
        b
    } else {
        a
    }
}

/// A coordinate pushed back into the representable range.
pub open spec fn clamp_coord(v: int) -> int {
    if v < -COORD_LIMIT {
        -COORD_LIMIT as int
    } else if v > COORD_LIMIT {
        COORD_LIMIT as int
    } else {
        v
    }
}

/// Squared Euclidean distance between two points.
pub open spec fn dist_sq(a: Vec2, b: Vec2) -> int {
    (a.x - b.x) * (a.x - b.x) + (a.y - b.y) * (a.y - b.y)
}

/// `p` lies strictly inside the open axis-aligned box spanned by the two
/// corners `c1` and `c2`; a point exactly on the boundary does not.
pub open spec fn inside_rect(p: Vec2, c1: Vec2, c2: Vec2) -> bool {
    &&& min_c(c1.x as int, c2.x as int) < p.x < max_c(c1.x as int, c2.x as int)
    &&& min_c(c1.y as int, c2.y as int) < p.y < max_c(c1.y as int, c2.y as int)
}

/// Squared distance, computed exactly.
pub fn dist_sq_exec(a: Vec2, b: Vec2) -> (r: i64)
    requires
        a.in_bounds(),
        b.in_bounds(),
    ensures
        r == dist_sq(a, b),
{
    let dx: i64 = a.x - b.x;
    let dy: i64 = a.y - b.y;
    proof {
        assert(0 <= dx * dx <= 4_000_000_000_000_000_000 && 0 <= dy * dy
            <= 4_000_000_000_000_000_000) by (nonlinear_arith)
            requires
                -2_000_000_000 <= dx <= 2_000_000_000,
                -2_000_000_000 <= dy <= 2_000_000_000,
        ;
    }
    dx * dx + dy * dy
}

/// Adds a displacement to a coordinate, clamping the result to the
/// representable range.
pub fn clamped_add(a: i64, d: i64) -> (r: i64)
    requires
        -COORD_LIMIT <= a <= COORD_LIMIT,
        -4 * COORD_LIMIT <= d <= 4 * COORD_LIMIT,
    ensures
        r == clamp_coord(a + d),
{
    let s: i64 = a + d;
    if s < -COORD_LIMIT {
        -COORD_LIMIT
    } else if s > COORD_LIMIT {
        COORD_LIMIT
    } else {
        s
    }
}

} // verus!
