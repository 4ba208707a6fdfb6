//! The incremental line walker: steps a canonical line with an integer error
//! accumulator and maps each produced point back through the octant's inverse
//! transform.

use vstd::prelude::*;
use vstd::arithmetic::div_mod::lemma_fundamental_div_mod_converse;
use vstd::math::abs;
use vstd::math::max;
use crate::COORD_LIMIT;
use crate::Point;
use crate::point_ok;
use crate::pt;
use crate::pts;
use crate::octant::Octant;
use crate::octant::from_canon;
use crate::octant::lemma_canonical_deltas;
use crate::octant::lemma_octant_round_trip;
use crate::octant::octant_of;
use crate::octant::to_canon;

verus! {

/// One step of the error-accumulator rule, in canonical space: returns the
/// next (x, y, diff). When the accumulated error is non-negative the minor
/// axis advances and the error is charged dx; the error then gains dy and the
/// sweep axis advances.
pub open spec fn canon_step(x: int, y: int, diff: int, dx: int, dy: int) -> (int, int, int) {
    if diff >= 0 {
        (x + 1, y + 1, diff - dx + dy)
    } else {
        (x + 1, y, diff + dy)
    }
}

/// The `n` points produced by walking the canonical line from state
/// (x, y, diff), each mapped back through the inverse transform of tag `t`.
pub open spec fn walk_points(
    t: int,
    x: int,
    y: int,
    diff: int,
    dx: int,
    dy: int,
    n: nat,
) -> Seq<(int, int)>
    decreases n,
{
    if n == 0 {
        Seq::empty()
    } else {
        let s = canon_step(x, y, diff, dx, dy);
        seq![from_canon(t, (x, y))] + walk_points(t, s.0, s.1, s.2, dx, dy, (n - 1) as nat)
    }
}

/// Every grid point of the line from `a` up to but excluding `b`.
pub open spec fn exclusive_line(a: (int, int), b: (int, int)) -> Seq<(int, int)> {
    let t = octant_of(a, b);
    let c0 = to_canon(t, a);
    let c1 = to_canon(t, b);
    let dx = c1.0 - c0.0;
    let dy = c1.1 - c0.1;
    walk_points(
        t,
        c0.0,
        c0.1,
        dy - dx,
        dx,
        dy,
        if dx >= 0 {
            dx as nat
        } else {
            0
        },
    )
}

/// Every grid point of the line from `a` through `b`: the exclusive walk plus
/// the terminal point.
pub open spec fn inclusive_line(a: (int, int), b: (int, int)) -> Seq<(int, int)> {
    let t = octant_of(a, b);
    let c0 = to_canon(t, a);
    let c1 = to_canon(t, b);
    let dx = c1.0 - c0.0;
    let dy = c1.1 - c0.1;
    walk_points(
        t,
        c0.0,
        c0.1,
        dy - dx,
        dx,
        dy,
        if dx >= 0 {
            (dx + 1) as nat
        } else {
            0
        },
    )
}

/// A canonical walk of `n` steps produces exactly `n` points.
proof fn lemma_walk_points_len(t: int, x: int, y: int, diff: int, dx: int, dy: int, n: nat)
    ensures
        walk_points(t, x, y, diff, dx, dy, n).len() == n,
    decreases n,
{
    if n > 0 {
        let s = canon_step(x, y, diff, dx, dy);
        lemma_walk_points_len(t, s.0, s.1, s.2, dx, dy, (n - 1) as nat);
    }
}

/// A canonical walk that is started `n - 1` steps before the terminal x
/// begins at its current position and ends exactly on the canonical end
/// point (x0 + dx, y0 + dy). The error accumulator's band `dy - dx ..= dy - 1`
/// pins the minor coordinate at the terminal x.
proof fn lemma_walk_points_last(
    t: int,
    x0: int,
    y0: int,
    dx: int,
    dy: int,
    x: int,
    y: int,
    diff: int,
    n: nat,
)
    requires
        0 <= dy <= dx,
        n >= 1,
        x == x0 + dx + 1 - n,
        x0 <= x,
        diff == dy - dx + (x - x0) * dy - (y - y0) * dx,
        dx >= 1 ==> dy - dx <= diff <= dy - 1,
        dx == 0 ==> y == y0,
    ensures
        walk_points(t, x, y, diff, dx, dy, n)[0] == from_canon(t, (x, y)),
        walk_points(t, x, y, diff, dx, dy, n).last() == from_canon(t, (x0 + dx, y0 + dy)),
    decreases n,
{
    lemma_walk_points_len(t, x, y, diff, dx, dy, n);
    let s = canon_step(x, y, diff, dx, dy);
    lemma_walk_points_len(t, s.0, s.1, s.2, dx, dy, (n - 1) as nat);
    if n == 1 {
        if dx == 0 {
            assert(y == y0 + dy);
        } else {
            assert(y == y0 + dy) by (nonlinear_arith)
                requires
                    diff == dy - dx + (x - x0) * dy - (y - y0) * dx,
                    x == x0 + dx,
                    dy - dx <= diff <= dy - 1,
                    1 <= dx,
                    0 <= dy <= dx,
            ;
        }
    } else {
        if diff >= 0 {
            assert(diff - dx + dy == dy - dx + (x + 1 - x0) * dy - (y + 1 - y0) * dx)
                by (nonlinear_arith)
                requires
                    diff == dy - dx + (x - x0) * dy - (y - y0) * dx,
            ;
        } else {
            assert(diff + dy == dy - dx + (x + 1 - x0) * dy - (y - y0) * dx) by (nonlinear_arith)
                requires
                    diff == dy - dx + (x - x0) * dy - (y - y0) * dx,
            ;
        }
        lemma_walk_points_last(t, x0, y0, dx, dy, s.0, s.1, s.2, (n - 1) as nat);
    }
}

/// Two canonical walks from the same state agree on every index they share.
proof fn lemma_walk_points_prefix(
    t: int,
    x: int,
    y: int,
    diff: int,
    dx: int,
    dy: int,
    n1: nat,
    n2: nat,
    i: int,
)
    requires
        0 <= i < n1 <= n2,
    ensures
        walk_points(t, x, y, diff, dx, dy, n1)[i] == walk_points(t, x, y, diff, dx, dy, n2)[i],
    decreases n1,
{
    let s = canon_step(x, y, diff, dx, dy);
    lemma_walk_points_len(t, s.0, s.1, s.2, dx, dy, (n1 - 1) as nat);
    lemma_walk_points_len(t, s.0, s.1, s.2, dx, dy, (n2 - 1) as nat);
    if i > 0 {
        lemma_walk_points_prefix(t, s.0, s.1, s.2, dx, dy, (n1 - 1) as nat, (n2 - 1) as nat, i - 1);
    }
}

/// A canonical walk of one more step produces the same points and then one
/// more.
proof fn lemma_walk_points_drop_last(t: int, x: int, y: int, diff: int, dx: int, dy: int, n: nat)
    ensures
        walk_points(t, x, y, diff, dx, dy, n + 1).drop_last() =~= walk_points(
            t,
            x,
            y,
            diff,
            dx,
            dy,
            n,
        ),
{
    lemma_walk_points_len(t, x, y, diff, dx, dy, n + 1);
    lemma_walk_points_len(t, x, y, diff, dx, dy, n);
    assert forall|i: int| 0 <= i < n implies walk_points(t, x, y, diff, dx, dy, n + 1)[i]
        == walk_points(t, x, y, diff, dx, dy, n)[i] by {
        lemma_walk_points_prefix(t, x, y, diff, dx, dy, n, n + 1, i);
    }
}

/// Law: a walk from a point to itself produces nothing exclusively and
/// exactly the single point itself inclusively.
pub proof fn lemma_degenerate_walks(p: (int, int))
    ensures
        exclusive_line(p, p) == Seq::<(int, int)>::empty(),
        inclusive_line(p, p) == seq![p],
{
    reveal_with_fuel(walk_points, 2);
    assert(octant_of(p, p) == 0);
    assert(exclusive_line(p, p) =~= Seq::<(int, int)>::empty());
    assert(inclusive_line(p, p) =~= seq![p]);
}

/// Law: an inclusive walk is never empty, begins at its start point, and
/// ends at its end point.
pub proof fn lemma_inclusive_endpoints(a: (int, int), b: (int, int))
    ensures
        inclusive_line(a, b).len() >= 1,
        inclusive_line(a, b)[0] == a,
        inclusive_line(a, b).last() == b,
{
    lemma_canonical_deltas(a, b);
    let t = octant_of(a, b);
    let c0 = to_canon(t, a);
    let c1 = to_canon(t, b);
    let dx = c1.0 - c0.0;
    let dy = c1.1 - c0.1;
    lemma_walk_points_len(t, c0.0, c0.1, dy - dx, dx, dy, (dx + 1) as nat);
    assert((c0.0 - c0.0) * dy == 0) by (nonlinear_arith);
    assert((c0.1 - c0.1) * dx == 0) by (nonlinear_arith);
    lemma_walk_points_last(t, c0.0, c0.1, dx, dy, c0.0, c0.1, dy - dx, (dx + 1) as nat);
    lemma_octant_round_trip(t, a);
    lemma_octant_round_trip(t, b);
    assert((c0.0 + dx, c0.1 + dy) == c1);
}

/// Within the error accumulator's band the minor coordinate is the ideal
/// line rounded down: the point `k` steps ahead of the current position is
/// (x + k, y0 + floor((x + k - x0) * dy / dx)).
proof fn lemma_walk_points_index(
    t: int,
    x0: int,
    y0: int,
    dx: int,
    dy: int,
    x: int,
    y: int,
    diff: int,
    n: nat,
    k: int,
)
    requires
        0 <= dy <= dx,
        1 <= dx,
        x0 <= x,
        diff == dy - dx + (x - x0) * dy - (y - y0) * dx,
        dy - dx <= diff <= dy - 1,
        0 <= k < n,
    ensures
        walk_points(t, x, y, diff, dx, dy, n)[k] == from_canon(
            t,
            (x + k, y0 + ((x + k - x0) * dy) / dx),
        ),
    decreases k,
{
    let s = canon_step(x, y, diff, dx, dy);
    lemma_walk_points_len(t, s.0, s.1, s.2, dx, dy, (n - 1) as nat);
    if k == 0 {
        let j = x - x0;
        let m = y - y0;
        assert(0 <= j * dy - m * dx < dx);
        lemma_fundamental_div_mod_converse(j * dy, dx, m, j * dy - m * dx);
        assert(m == (j * dy) / dx);
    } else {
        if diff >= 0 {
            assert(diff - dx + dy == dy - dx + (x + 1 - x0) * dy - (y + 1 - y0) * dx)
                by (nonlinear_arith)
                requires
                    diff == dy - dx + (x - x0) * dy - (y - y0) * dx,
            ;
        } else {
            assert(diff + dy == dy - dx + (x + 1 - x0) * dy - (y - y0) * dx) by (nonlinear_arith)
                requires
                    diff == dy - dx + (x - x0) * dy - (y - y0) * dx,
            ;
        }
        lemma_walk_points_index(t, x0, y0, dx, dy, s.0, s.1, s.2, (n - 1) as nat, k - 1);
    }
}

/// Law: away from the degenerate case, the walk is the ideal line rounded
/// down. In canonical space the k-th point of the inclusive walk is
/// (x0 + k, y0 + floor(k * dy / dx)), and the exclusive walk agrees on every
/// index it has.
pub proof fn lemma_walk_point_formula(a: (int, int), b: (int, int), k: int)
    requires
        a != b,
        0 <= k < inclusive_line(a, b).len(),
    ensures
        ({
            let t = octant_of(a, b);
            let c0 = to_canon(t, a);
            let c1 = to_canon(t, b);
            &&& inclusive_line(a, b)[k] == from_canon(
                t,
                (c0.0 + k, c0.1 + (k * (c1.1 - c0.1)) / (c1.0 - c0.0)),
            )
            &&& k < exclusive_line(a, b).len() ==> exclusive_line(a, b)[k] == inclusive_line(
                a,
                b,
            )[k]
        }),
{
    lemma_canonical_deltas(a, b);
    lemma_inclusive_adds_end(a, b);
    let t = octant_of(a, b);
    let c0 = to_canon(t, a);
    let c1 = to_canon(t, b);
    let dx = c1.0 - c0.0;
    let dy = c1.1 - c0.1;
    assert(dx >= 1);
    lemma_walk_points_len(t, c0.0, c0.1, dy - dx, dx, dy, (dx + 1) as nat);
    assert((c0.0 - c0.0) * dy == 0) by (nonlinear_arith);
    assert((c0.1 - c0.1) * dx == 0) by (nonlinear_arith);
    lemma_walk_points_index(t, c0.0, c0.1, dx, dy, c0.0, c0.1, dy - dx, (dx + 1) as nat, k);
}

/// Law: the inclusive walk is the exclusive walk with the end point appended
/// as one additional final point.
pub proof fn lemma_inclusive_adds_end(a: (int, int), b: (int, int))
    ensures
        inclusive_line(a, b) == exclusive_line(a, b).push(b),
{
    lemma_canonical_deltas(a, b);
    lemma_inclusive_endpoints(a, b);
    let t = octant_of(a, b);
    let c0 = to_canon(t, a);
    let c1 = to_canon(t, b);
    let dx = c1.0 - c0.0;
    let dy = c1.1 - c0.1;
    lemma_walk_points_len(t, c0.0, c0.1, dy - dx, dx, dy, dx as nat);
    lemma_walk_points_len(t, c0.0, c0.1, dy - dx, dx, dy, (dx + 1) as nat);
    lemma_walk_points_drop_last(t, c0.0, c0.1, dy - dx, dx, dy, dx as nat);
    assert(inclusive_line(a, b) =~= exclusive_line(a, b).push(b));
}

/// Law: an exclusive walk that produces anything begins at its start point.
pub proof fn lemma_exclusive_first(a: (int, int), b: (int, int))
    ensures
        exclusive_line(a, b).len() > 0 ==> exclusive_line(a, b)[0] == a,
{
    lemma_canonical_deltas(a, b);
    let t = octant_of(a, b);
    let c0 = to_canon(t, a);
    lemma_octant_round_trip(t, a);
    assert((c0.0, c0.1) == c0);
}

/// Law: the exclusive walk has exactly max(|end.x - start.x|,
/// |end.y - start.y|) points; the inclusive walk has one more.
pub proof fn lemma_walk_lengths(a: (int, int), b: (int, int))
    ensures
        exclusive_line(a, b).len() == max(abs(b.0 - a.0) as int, abs(b.1 - a.1) as int),
        inclusive_line(a, b).len() == exclusive_line(a, b).len() + 1,
{
    lemma_canonical_deltas(a, b);
    let t = octant_of(a, b);
    let c0 = to_canon(t, a);
    let c1 = to_canon(t, b);
    let dx = c1.0 - c0.0;
    let dy = c1.1 - c0.1;
    lemma_walk_points_len(t, c0.0, c0.1, dy - dx, dx, dy, dx as nat);
    lemma_walk_points_len(t, c0.0, c0.1, dy - dx, dx, dy, (dx + 1) as nat);
}

/// Exclusive line walk: produces every point from `start` up to but
/// excluding `end`, one point per request.
pub struct Bresenham {
    x: isize,
    y: isize,
    dx: isize,
    dy: isize,
    x1: isize,
    diff: isize,
    octant: Octant,
    base_y: Ghost<int>,
}

impl Bresenham {
    /// Well-formed walker state: the canonical deltas are shallow and
    /// non-negative, the sweep position lies between the canonical start and
    /// one past the terminal x, the error accumulator is within its one-step
    /// band, and every field is small enough that a step cannot overflow.
    pub closed spec fn wf(self) -> bool {
        let lim = COORD_LIMIT as int;
        let x0 = self.x1 - self.dx;
        let y0 = self.base_y@;
        &&& 0 <= self.octant.tag() <= 7
        &&& 0 <= self.dy <= self.dx
        &&& x0 <= self.x <= self.x1 + 1
        &&& -lim <= x0
        &&& self.x1 <= lim
        &&& -lim <= y0 <= lim
        &&& 0 <= self.y - y0 <= self.x - x0
        &&& self.dy - self.dx <= self.diff <= self.dy
    }

    /// How many points the exclusive walk has yet to produce.
    pub closed spec fn steps_left(self) -> nat {
        if self.x <= self.x1 {
            (self.x1 - self.x) as nat
        } else {
            0
        }
    }

    /// How many points are left when the terminal point is counted too.
    pub closed spec fn steps_left_inclusive(self) -> nat {
        if self.x <= self.x1 {
            (self.x1 + 1 - self.x) as nat
        } else {
            0
        }
    }

    /// The points the exclusive walk has yet to produce.
    pub closed spec fn remaining(self) -> Seq<(int, int)> {
        walk_points(
            self.octant.tag(),
            self.x as int,
            self.y as int,
            self.diff as int,
            self.dx as int,
            self.dy as int,
            self.steps_left(),
        )
    }

    /// The points left when the terminal point is counted too.
    pub closed spec fn remaining_inclusive(self) -> Seq<(int, int)> {
        walk_points(
            self.octant.tag(),
            self.x as int,
            self.y as int,
            self.diff as int,
            self.dx as int,
            self.dy as int,
            self.steps_left_inclusive(),
        )
    }

    /// Creates a new walk. Yields intermediate points between `start` and
    /// `end`: `start` is included, `end` is not.
    pub fn new(start: Point, end: Point) -> (r: Bresenham)
        requires
            point_ok(pt(start)),
            point_ok(pt(end)),
        ensures
            r.wf(),
            r.remaining() == exclusive_line(pt(start), pt(end)),
            r.remaining_inclusive() == inclusive_line(pt(start), pt(end)),
    {
        proof {
            lemma_canonical_deltas(pt(start), pt(end));
        }
        let octant = Octant::from_points(start, end);

        let s: Point = octant.to_octant0(start);
        let e: Point = octant.to_octant0(end);

        let dx: isize = e.0 - s.0;
        let dy: isize = e.1 - s.1;

        Bresenham {
            x: s.0,
            y: s.1,
            dx,
            dy,
            x1: e.0,
            diff: dy - dx,
            octant,
            base_y: Ghost(s.1 as int),
        }
    }

    /// Produces the current point and steps the state without comparing the
    /// sweep position against the terminal x: unlike `next`, the last
    /// permitted call steps onto the terminal point itself. Driving the walk
    /// further than one step past the terminal x is not supported.
    pub fn advance(&mut self) -> (p: Point)
        requires
            old(self).wf(),
            old(self).remaining_inclusive().len() > 0,
        ensures
            final(self).wf(),
            pt(p) == old(self).remaining_inclusive()[0],
            old(self).remaining_inclusive() == seq![pt(p)] + final(self).remaining_inclusive(),
            old(self).remaining().len() > 0 ==> old(self).remaining() == seq![pt(p)]
                + final(self).remaining(),
            old(self).remaining().len() == 0 ==> final(self).remaining().len() == 0,
    {
        proof {
            if old(self).steps_left_inclusive() == 0 {
                assert(old(self).remaining_inclusive() =~= Seq::<(int, int)>::empty());
            }
        }
        let p: Point = (self.x, self.y);

        if self.diff >= 0 {
            self.y += 1;
            self.diff -= self.dx;
        }

        self.diff += self.dy;

        self.x += 1;

        self.octant.from_octant0(p)
    }

    /// Produces the next point of the exclusive walk, or `None` once the
    /// sweep has reached the terminal x.
    pub fn next(&mut self) -> (r: Option<Point>)
        requires
            old(self).wf(),
        ensures
            final(self).wf(),
            old(self).remaining().len() == 0 ==> r is None && final(self).remaining() == old(
                self,
            ).remaining() && final(self).remaining_inclusive() == old(self).remaining_inclusive(),
            old(self).remaining().len() > 0 ==> (r matches Some(p) && pt(p) == old(
                self,
            ).remaining()[0] && old(self).remaining() == seq![pt(p)] + final(self).remaining()),
            old(self).remaining().len() > 0 ==> final(self).remaining().len() == old(
                self,
            ).remaining().len() - 1,
    {
        if self.x >= self.x1 {
            None
        } else {
            Some(self.advance())
        }
    }

    /// Runs the exclusive walk to its end and returns every produced point,
    /// in order.
    pub fn collect_points(self) -> (v: Vec<Point>)
        requires
            self.wf(),
        ensures
            pts(v@) == self.remaining(),
    {
        let ghost orig: Seq<(int, int)> = self.remaining();
        let mut w = self;
        let mut v: Vec<Point> = Vec::new();
        while w.x < w.x1
            invariant
                w.wf(),
                pts(v@) + w.remaining() == orig,
            decreases w.remaining().len(),
        {
            let ghost prev_v: Seq<Point> = v@;
            let ghost prev_rest: Seq<(int, int)> = w.remaining();
            let p: Point = w.advance();
            v.push(p);
            proof {
                assert(pts(v@) =~= pts(prev_v) + seq![pt(p)]);
                assert(pts(v@) + w.remaining() =~= (pts(prev_v) + seq![pt(p)]) + w.remaining());
                assert((pts(prev_v) + seq![pt(p)]) + w.remaining() =~= pts(prev_v) + (seq![pt(p)]
                    + w.remaining()));
                assert(pts(prev_v) + prev_rest == orig);
            }
        }
        proof {
            assert(w.remaining() =~= Seq::<(int, int)>::empty());
            assert(pts(v@) + w.remaining() =~= pts(v@));
        }
        v
    }
}

/// Inclusive line walk over `Bresenham`: produces every point from `start`
/// through `end`, the terminal point included.
pub struct BresenhamInclusive(Bresenham);

impl BresenhamInclusive {
    /// Well-formed walker state.
    pub closed spec fn wf(self) -> bool {
        self.0.wf()
    }

    /// The points the walk has yet to produce, `end` included.
    pub closed spec fn remaining(self) -> Seq<(int, int)> {
        self.0.remaining_inclusive()
    }

    /// Creates a new walk. Yields every point from `start` through `end`.
    pub fn new(start: Point, end: Point) -> (r: Self)
        requires
            point_ok(pt(start)),
            point_ok(pt(end)),
        ensures
            r.wf(),
            r.remaining() == inclusive_line(pt(start), pt(end)),
    {
        BresenhamInclusive(Bresenham::new(start, end))
    }

    /// Produces the current point and steps the state without comparing the
    /// sweep position against the terminal x. Driving the walk past the
    /// terminal point is not supported.
    pub fn advance(&mut self) -> (p: Point)
        requires
            old(self).wf(),
            old(self).remaining().len() > 0,
        ensures
            final(self).wf(),
            pt(p) == old(self).remaining()[0],
            old(self).remaining() == seq![pt(p)] + final(self).remaining(),
            final(self).remaining().len() == old(self).remaining().len() - 1,
    {
        proof {
            if old(self).0.steps_left_inclusive() == 0 {
                assert(old(self).remaining() =~= Seq::<(int, int)>::empty());
            }
        }
        self.0.advance()
    }

    /// Produces the next point, or `None` once the sweep is past the
    /// terminal x.
    pub fn next(&mut self) -> (r: Option<Point>)
        requires
            old(self).wf(),
        ensures
            final(self).wf(),
            old(self).remaining().len() == 0 ==> r is None && final(self).remaining() == old(
                self,
            ).remaining(),
            old(self).remaining().len() > 0 ==> (r matches Some(p) && pt(p) == old(
                self,
            ).remaining()[0] && old(self).remaining() == seq![pt(p)] + final(self).remaining()),
            old(self).remaining().len() > 0 ==> final(self).remaining().len() == old(
                self,
            ).remaining().len() - 1,
    {
        if self.0.x > self.0.x1 {
            None
        } else {
            Some(self.advance())
        }
    }

    /// Runs the inclusive walk to its end and returns every produced point,
    /// in order.
    pub fn collect_points(self) -> (v: Vec<Point>)
        requires
            self.wf(),
        ensures
            pts(v@) == self.remaining(),
    {
        let ghost orig: Seq<(int, int)> = self.remaining();
        let mut w = self;
        let mut v: Vec<Point> = Vec::new();
        while w.0.x <= w.0.x1
            invariant
                w.wf(),
                pts(v@) + w.remaining() == orig,
            decreases w.remaining().len(),
        {
            let ghost prev_v: Seq<Point> = v@;
            let ghost prev_rest: Seq<(int, int)> = w.remaining();
            let p: Point = w.advance();
            v.push(p);
            proof {
                assert(pts(v@) =~= pts(prev_v) + seq![pt(p)]);
                assert(pts(v@) + w.remaining() =~= (pts(prev_v) + seq![pt(p)]) + w.remaining());
                assert((pts(prev_v) + seq![pt(p)]) + w.remaining() =~= pts(prev_v) + (seq![pt(p)]
                    + w.remaining()));
                assert(pts(prev_v) + prev_rest == orig);
            }
        }
        proof {
            assert(w.remaining() =~= Seq::<(int, int)>::empty());
            assert(pts(v@) + w.remaining() =~= pts(v@));
        }
        v
    }
}

} // verus!
