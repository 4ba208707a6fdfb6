//! Octant normalization: the eight symmetric direction classes of a line and
//! the coordinate transforms between the original orientation and the
//! canonical one, in which the line advances with slope between 0 and 1 along
//! the positive x axis.

use vstd::prelude::*;
use vstd::math::abs;
use vstd::math::max;
use crate::Point;
use crate::neg_ok;
use crate::point_ok;
use crate::pt;

verus! {

/// Which of the eight direction classes a line falls into. Derived once from
/// a (start, end) pair; it selects both the forward transform to canonical
/// space and its exact inverse.
pub struct Octant(u8);

/// The octant tag of the line from `start` to `end`. Directions pointing into
/// the lower half-plane are first reflected up (adds 4), then directions
/// pointing left are rotated right (adds 2), then steep lines are reflected
/// across the diagonal (adds 1). The ties `dy == 0`, `dx == 0` and
/// `dx == dy` all fall to the branch not taken.
pub open spec fn octant_of(start: (int, int), end: (int, int)) -> int {
    let dx = end.0 - start.0;
    let dy = end.1 - start.1;
    let dx2 = if dy < 0 { -dx } else { dx };
    let dy2 = if dy < 0 { -dy } else { dy };
    let dx3 = if dx2 < 0 { dy2 } else { dx2 };
    let dy3 = if dx2 < 0 { -dx2 } else { dy2 };
    (if dy < 0 { 4int } else { 0int }) + (if dx2 < 0 { 2int } else { 0int }) + (if dx3 < dy3 {
        1int
    } else {
        0int
    })
}

/// The forward transform of tag `t`: maps a point of the original orientation
/// into canonical space.
pub open spec fn to_canon(t: int, p: (int, int)) -> (int, int) {
    if t == 0 {
        (p.0, p.1)
    } else if t == 1 {
        (p.1, p.0)
    } else if t == 2 {
        (p.1, -p.0)
    } else if t == 3 {
        (-p.0, p.1)
    } else if t == 4 {
        (-p.0, -p.1)
    } else if t == 5 {
        (-p.1, -p.0)
    } else if t == 6 {
        (-p.1, p.0)
    } else {
        (p.0, -p.1)
    }
}

/// The inverse transform of tag `t`: maps a canonical-space point back to the
/// original orientation.
pub open spec fn from_canon(t: int, p: (int, int)) -> (int, int) {
    if t == 0 {
        (p.0, p.1)
    } else if t == 1 {
        (p.1, p.0)
    } else if t == 2 {
        (-p.1, p.0)
    } else if t == 3 {
        (-p.0, p.1)
    } else if t == 4 {
        (-p.0, -p.1)
    } else if t == 5 {
        (-p.1, -p.0)
    } else if t == 6 {
        (p.1, -p.0)
    } else {
        (p.0, -p.1)
    }
}

impl Octant {
    /// The tag, an integer in 0..=7.
    pub closed spec fn tag(self) -> int {
        self.0 as int
    }

    /// Computes the octant of the line from `start` to `end`.
    pub fn from_points(start: Point, end: Point) -> (r: Octant)
        requires
            point_ok(pt(start)),
            point_ok(pt(end)),
        ensures
            r.tag() == octant_of(pt(start), pt(end)),
            0 <= r.tag() <= 7,
    {
        let mut dx: isize = end.0 - start.0;
        let mut dy: isize = end.1 - start.1;

        let mut octant: u8 = 0;

        if dy < 0 {
            dx = -dx;
            dy = -dy;
            octant += 4;
        }

        if dx < 0 {
            let tmp: isize = dx;
            dx = dy;
            dy = -tmp;
            octant += 2;
        }

        if dx < dy {
            octant += 1;
        }

        Octant(octant)
    }

    /// Applies the forward transform to `p`.
    pub fn to_octant0(&self, p: Point) -> (r: Point)
        requires
            neg_ok(pt(p)),
            0 <= self.tag() <= 7,
        ensures
            pt(r) == to_canon(self.tag(), pt(p)),
            point_ok(pt(p)) ==> point_ok(pt(r)),
    {
        match self.0 {
            0 => (p.0, p.1),
            1 => (p.1, p.0),
            2 => (p.1, -p.0),
            3 => (-p.0, p.1),
            4 => (-p.0, -p.1),
            5 => (-p.1, -p.0),
            6 => (-p.1, p.0),
            _ => (p.0, -p.1),
        }
    }

    /// Applies the inverse transform to `p`.
    pub fn from_octant0(&self, p: Point) -> (r: Point)
        requires
            neg_ok(pt(p)),
            0 <= self.tag() <= 7,
        ensures
            pt(r) == from_canon(self.tag(), pt(p)),
            point_ok(pt(p)) ==> point_ok(pt(r)),
    {
        match self.0 {
            0 => (p.0, p.1),
            1 => (p.1, p.0),
            2 => (-p.1, p.0),
            3 => (-p.0, p.1),
            4 => (-p.0, -p.1),
            5 => (-p.1, -p.0),
            6 => (p.1, -p.0),
            _ => (p.0, -p.1),
        }
    }
}

/// Law: for every tag, the inverse transform is the exact inverse of the
/// forward transform, in both directions.
pub proof fn lemma_octant_round_trip(t: int, p: (int, int))
    requires
        0 <= t <= 7,
    ensures
        from_canon(t, to_canon(t, p)) == p,
        to_canon(t, from_canon(t, p)) == p,
{
}

/// Law: after normalization the canonical deltas have the shape the walk
/// relies on: the canonical dx is the larger coordinate distance, and the
/// canonical dy lies between 0 and dx.
pub proof fn lemma_canonical_deltas(a: (int, int), b: (int, int))
    ensures
        ({
            let t = octant_of(a, b);
            let c0 = to_canon(t, a);
            let c1 = to_canon(t, b);
            &&& 0 <= t <= 7
            &&& c1.0 - c0.0 == max(abs(b.0 - a.0) as int, abs(b.1 - a.1) as int)
            &&& 0 <= c1.1 - c0.1 <= c1.0 - c0.0
        }),
{
}

} // verus!
