//! Iterator-style Bresenham line walks over an integer grid.
//!
//! A walk produces the discrete set of grid points approximating the straight
//! line between two points, using only integer arithmetic: the direction is
//! first normalized into a canonical octant, the canonical line is stepped
//! with an incremental error accumulator, and every produced point is mapped
//! back to the original orientation.

use vstd::prelude::*;

pub mod octant;
pub mod walk;

pub use octant::Octant;
pub use walk::Bresenham;
pub use walk::BresenhamInclusive;

verus! {

/// A grid point: a pair of machine-width signed coordinates.
pub type Point = (isize, isize);

/// Largest coordinate magnitude for which every intermediate value of a walk
/// fits in a machine-width signed integer on every supported word size.
/// Inputs of larger magnitude could make the delta or error arithmetic
/// overflow and are not supported.
pub const COORD_LIMIT: isize = 0x2000_0000;

/// The mathematical value of a point.
pub open spec fn pt(p: Point) -> (int, int) {
    (p.0 as int, p.1 as int)
}

/// The mathematical values of a sequence of points.
pub open spec fn pts(s: Seq<Point>) -> Seq<(int, int)> {
    s.map_values(|p: Point| pt(p))
}

/// A coordinate small enough that deltas and walk positions cannot overflow.
pub open spec fn coord_ok(c: int) -> bool {
    -(COORD_LIMIT as int) <= c <= COORD_LIMIT as int
}

/// Both coordinates of a point are within the supported range.
pub open spec fn point_ok(p: (int, int)) -> bool {
    coord_ok(p.0) && coord_ok(p.1)
}

/// Both coordinates of a point can be negated without overflow.
pub open spec fn neg_ok(p: (int, int)) -> bool {
    p.0 > isize::MIN as int && p.1 > isize::MIN as int
}

} // verus!
