//! Evenly spaced points from one point to another.

use crate::cast::to_u64;
use crate::fixed::{clamped, magnitude, nearest, quotient, ONE};
use crate::vector3::Vector3;
use vstd::prelude::*;

verus! {

/// The state of a walk: the point that comes next, the increment from one
/// point to the following one, and the number of points still to come.
pub struct Walk {
    pub at: Vector3,
    pub step: Vector3,
    pub left: nat,
}

/// The largest distance between `p0` and `p1` along one axis.
pub open spec fn span(p0: Vector3, p1: Vector3) -> int {
    let dx = magnitude(p1.x - p0.x);
    let dy = magnitude(p1.y - p0.y);
    let dz = magnitude(p1.z - p0.z);
    if dx >= dy && dx >= dz {
        dx
    } else if dy >= dz {
        dy
    } else {
        dz
    }
}

/// The part of the way covered by one step along an axis on which the whole
/// way is `d`.
pub open spec fn stride(d: int, span: int) -> int {
    if span == 0 {
        0
    } else {
        quotient(d * ONE, span)
    }
}

/// The increment between two consecutive points from `p0` to `p1`.
pub open spec fn increment(p0: Vector3, p1: Vector3) -> Vector3 {
    let s = span(p0, p1);
    Vector3 {
        x: stride(p1.x - p0.x, s) as i32,
        y: stride(p1.y - p0.y, s) as i32,
        z: stride(p1.z - p0.z, s) as i32,
    }
}

/// The number of points from `p0` to `p1`.
pub open spec fn count(p0: Vector3, p1: Vector3) -> nat {
    (nearest(span(p0, p1)) + 1) as nat
}

/// The walk from `p0` to `p1` before its first point.
pub open spec fn start(p0: Vector3, p1: Vector3) -> Walk {
    Walk { at: p0, step: increment(p0, p1), left: count(p0, p1) }
}

impl Walk {
    /// The walk after its next point was taken.
    pub open spec fn advanced(self) -> Walk
        recommends
            self.left > 0,
    {
        Walk { at: self.at.sum(self.step), step: self.step, left: (self.left - 1) as nat }
    }

    /// The points still to come, in order.
    pub open spec fn points(self) -> Seq<Vector3>
        decreases self.left,
    {
        if self.left == 0 {
            Seq::empty()
        } else {
            seq![self.at] + self.advanced().points()
        }
    }
}

/// The points from `p0` to `p1`, both included where the increment divides
/// the way exactly.
pub open spec fn line_points(p0: Vector3, p1: Vector3) -> Seq<Vector3> {
    start(p0, p1).points()
}

/// A walk yields as many points as it has left.
pub proof fn lemma_points_len(w: Walk)
    ensures
        w.points().len() == w.left,
    decreases w.left,
{
    if w.left > 0 {
        lemma_points_len(w.advanced());
    }
}

/// Where the last point of a walk is in range, so is every point, and the
/// point at index `k` lies `k` increments after the first.
pub proof fn lemma_points_at(w: Walk, k: int)
    requires
        0 <= k < w.left,
        i32::MIN <= w.at.x + (w.left - 1) * w.step.x <= i32::MAX,
        i32::MIN <= w.at.y + (w.left - 1) * w.step.y <= i32::MAX,
        i32::MIN <= w.at.z + (w.left - 1) * w.step.z <= i32::MAX,
    ensures
        w.points()[k].x == w.at.x + k * w.step.x,
        w.points()[k].y == w.at.y + k * w.step.y,
        w.points()[k].z == w.at.z + k * w.step.z,
    decreases k,
{
    if k > 0 {
        let next = w.advanced();
        let last = w.left - 1;
        assert(next.at.x == w.at.x + w.step.x && next.at.x + (last - 1) * w.step.x == w.at.x
            + last * w.step.x) by {
            lemma_between(w.at.x as int, w.step.x as int, last);
        }
        assert(next.at.y == w.at.y + w.step.y && next.at.y + (last - 1) * w.step.y == w.at.y
            + last * w.step.y) by {
            lemma_between(w.at.y as int, w.step.y as int, last);
        }
        assert(next.at.z == w.at.z + w.step.z && next.at.z + (last - 1) * w.step.z == w.at.z
            + last * w.step.z) by {
            lemma_between(w.at.z as int, w.step.z as int, last);
        }
        lemma_points_at(next, k - 1);
        lemma_points_len(next);
        assert(w.points() == seq![w.at] + next.points());
        assert(w.points()[k] == next.points()[k - 1]);
        assert(w.at.x + w.step.x + (k - 1) * w.step.x == w.at.x + k * w.step.x
            && w.at.y + w.step.y + (k - 1) * w.step.y == w.at.y + k * w.step.y
            && w.at.z + w.step.z + (k - 1) * w.step.z == w.at.z + k * w.step.z)
            by (nonlinear_arith);
    } else {
        assert(w.points()[0] == w.at);
    }
}

/// One increment after `a` lies between `a` and `n` increments after `a`.
proof fn lemma_between(a: int, s: int, n: int)
    requires
        n >= 1,
        i32::MIN <= a <= i32::MAX,
        i32::MIN <= a + n * s <= i32::MAX,
    ensures
        clamped(a + s) == a + s,
        a + s + (n - 1) * s == a + n * s,
{
    assert(a + s + (n - 1) * s == a + n * s) by (nonlinear_arith);
    if s >= 0 {
        assert(n * s >= s) by (nonlinear_arith)
            requires
                n >= 1,
                s >= 0,
        ;
    } else {
        assert(n * s <= s) by (nonlinear_arith)
            requires
                n >= 1,
                s < 0,
        ;
    }
}

/// The walk from a point to itself yields that point and nothing else.
pub proof fn lemma_single_point(p: Vector3)
    ensures
        line_points(p, p) == seq![p],
{
    reveal_with_fuel(Walk::points, 2);
    assert(line_points(p, p) =~= seq![p]);
}

/// The number of points from `p0` to `p1` is the largest distance along one
/// axis, rounded to a whole number, and one more.
pub proof fn lemma_line_len(p0: Vector3, p1: Vector3)
    ensures
        line_points(p0, p1).len() == nearest(span(p0, p1)) + 1,
{
    lemma_points_len(start(p0, p1));
}

/// The way along an axis is nothing or the whole span, forward or backward.
pub open spec fn straight(d: int, span: int) -> bool {
    d == 0 || d == span || d == -span
}

/// Along a line parallel to an axis or diagonal, between points a whole number
/// of units apart, the points from `p1` to `p0` are those from `p0` to `p1` in
/// reverse order.
pub proof fn lemma_reversed(p0: Vector3, p1: Vector3)
    requires
        span(p0, p1) % (ONE as int) == 0,
        straight(p1.x - p0.x, span(p0, p1)),
        straight(p1.y - p0.y, span(p0, p1)),
        straight(p1.z - p0.z, span(p0, p1)),
    ensures
        line_points(p1, p0) == line_points(p0, p1).reverse(),
{
    let s = span(p0, p1);
    let forth = start(p0, p1);
    let back = start(p1, p0);
    assert(span(p1, p0) == s);
    if s == 0 {
        assert(p0 == p1);
        lemma_single_point(p0);
        assert(seq![p0].reverse() =~= seq![p0]);
    } else {
        let n = s / (ONE as int);
        assert(s == n * ONE);
        assert(nearest(s) == n);
        assert(forth.left == n + 1 && back.left == n + 1);
        lemma_stride(p1.x - p0.x, s, n);
        lemma_stride(p1.y - p0.y, s, n);
        lemma_stride(p1.z - p0.z, s, n);
        lemma_stride(p0.x - p1.x, s, n);
        lemma_stride(p0.y - p1.y, s, n);
        lemma_stride(p0.z - p1.z, s, n);
        lemma_points_len(forth);
        lemma_points_len(back);
        let a = forth.points();
        let b = back.points();
        assert forall|k: int| 0 <= k < b.len() implies b[k] == a.reverse()[k] by {
            lemma_points_at(forth, n - k);
            lemma_points_at(back, k);
            assert(a.reverse()[k] == a[n - k]);
            assert((n - k) * forth.step.x == n * forth.step.x - k * forth.step.x
                && (n - k) * forth.step.y == n * forth.step.y - k * forth.step.y
                && (n - k) * forth.step.z == n * forth.step.z - k * forth.step.z)
                by (nonlinear_arith);
            assert(k * back.step.x == -(k * forth.step.x) && k * back.step.y == -(k
                * forth.step.y) && k * back.step.z == -(k * forth.step.z)) by (nonlinear_arith)
                requires
                    back.step.x == -forth.step.x,
                    back.step.y == -forth.step.y,
                    back.step.z == -forth.step.z,
            ;
        }
        assert(b =~= a.reverse());
    }
}

/// The stride of a straight way: a unit forward or backward, or nothing, so
/// that `n` strides make up the way.
proof fn lemma_stride(d: int, s: int, n: int)
    requires
        s > 0,
        s == n * ONE,
        straight(d, s),
    ensures
        stride(d, s) == (if d == 0 {
            0
        } else if d == s {
            ONE as int
        } else {
            -(ONE as int)
        }),
        n * stride(d, s) == d,
        stride(-d, s) == -stride(d, s),
{
    assert((s * 65536) / s == 65536) by (nonlinear_arith)
        requires
            s > 0,
    ;
    assert(0int / s == 0) by (nonlinear_arith)
        requires
            s > 0,
    ;
    assert(n * 65536 == s && n * -65536 == -s && n * 0 == 0) by (nonlinear_arith)
        requires
            s == n * 65536,
    ;
}

/// Strides that make up a way: `n` strides along an axis cover the way `d`
/// but for less than `n` units, and do not pass its end.
proof fn lemma_strides(d: int, s: int, n: int)
    requires
        n >= 1,
        s == n * ONE,
        -s <= d <= s,
    ensures
        d >= 0 ==> 0 <= d - n * stride(d, s) < n,
        d <= 0 ==> -n < d - n * stride(d, s) <= 0,
        d >= 0 ==> 0 <= stride(d, s) <= ONE,
        d <= 0 ==> -ONE <= stride(d, s) <= 0,
{
    let m = magnitude(d);
    let q = (m * 65536) / s;
    vstd::arithmetic::div_mod::lemma_fundamental_div_mod(m * 65536, s);
    vstd::arithmetic::div_mod::lemma_div_pos_is_pos(m * 65536, s);
    let r = (m * 65536) % s;
    assert(0 <= r < s);
    assert(m * 65536 == s * q + r);
    assert(q * n <= m && m < q * n + n) by (nonlinear_arith)
        requires
            m * 65536 == s * q + r,
            0 <= r < s,
            s == n * 65536,
            n >= 1,
    ;
    assert(n * q == q * n && n * (-q) == -(q * n)) by (nonlinear_arith);
    assert(q <= 65536) by (nonlinear_arith)
        requires
            q * n <= m,
            m <= n * 65536,
            n >= 1,
    ;
    if d > 0 {
        assert(stride(d, s) == q);
    } else if d < 0 {
        assert(stride(d, s) == -q);
    } else {
        assert(q == 0) by (nonlinear_arith)
            requires
                q * n <= 0,
                q >= 0,
                n >= 1,
        ;
        assert(stride(d, s) == 0);
    }
}

/// The whole number nearest to a scalar less than half a unit away from the
/// whole number `j` is `j`.
proof fn lemma_nearest_whole(v: int, j: int, e: int)
    requires
        v == j * ONE - e,
        -32768 < e < 32768,
    ensures
        nearest(v) == j,
{
    assert(ONE == 65536);
    if v >= 0 {
        assert((j * 65536 - e + 32768) / 65536 == j);
    } else {
        assert(((-j) * 65536 + e + 32768) / 65536 == -j);
    }
}

/// Between whole points less than 32768 units apart, the last point of the
/// walk is nearer than half a unit to the end point: rounded, it is the end
/// point itself.
pub proof fn lemma_reaches_end(p0: Vector3, p1: Vector3)
    requires
        p0.is_whole(),
        p1.is_whole(),
        span(p0, p1) <= 32767 * ONE,
    ensures
        line_points(p0, p1).len() == span(p0, p1) / (ONE as int) + 1,
        line_points(p0, p1).last().rounded() == p1,
{
    let s = span(p0, p1);
    let w = start(p0, p1);
    assert(ONE == 65536);
    lemma_points_len(w);
    lemma_nearest_whole(p1.x as int, p1.x as int / (ONE as int), 0);
    lemma_nearest_whole(p1.y as int, p1.y as int / (ONE as int), 0);
    lemma_nearest_whole(p1.z as int, p1.z as int / (ONE as int), 0);
    if s == 0 {
        assert(p0 == p1);
        lemma_single_point(p0);
    } else {
        let n = s / (ONE as int);
        assert(s % (ONE as int) == 0);
        assert(s == n * ONE);
        assert(nearest(s) == n);
        let dx = p1.x - p0.x;
        let dy = p1.y - p0.y;
        let dz = p1.z - p0.z;
        lemma_strides(dx, s, n);
        lemma_strides(dy, s, n);
        lemma_strides(dz, s, n);
        assert(w.step.x == stride(dx, s) && w.step.y == stride(dy, s) && w.step.z == stride(
            dz,
            s,
        ));
        lemma_points_at(w, n);
        let last = w.points()[n];
        assert(last == line_points(p0, p1).last());
        lemma_nearest_whole(last.x as int, p1.x as int / (ONE as int), dx - n * stride(dx, s));
        lemma_nearest_whole(last.y as int, p1.y as int / (ONE as int), dy - n * stride(dy, s));
        lemma_nearest_whole(last.z as int, p1.z as int / (ONE as int), dz - n * stride(dz, s));
    }
}

/// A walk along the straight line between two points.
#[derive(Debug)]
pub struct Line {
    p0: Vector3,
    step: Vector3,
    steps: u64,
}

/// One step along an axis: `d` of `span` parts of a unit.
fn stride_of(d: i64, span: i64) -> (r: i32)
    requires
        span > 0,
        -span <= d <= span,
        span <= 0xffff_ffff,
    ensures
        r == quotient(d * ONE, span as int),
        -ONE <= r <= ONE,
{
    let n: i64 = d * 65536;
    let q: i64 = n / span;
    assert(magnitude(n as int) / (span as int) <= 65536) by (nonlinear_arith)
        requires
            span > 0,
            magnitude(n as int) <= 65536 * span,
    ;
    assert(magnitude(n as int) / (span as int) >= 0) by (nonlinear_arith)
        requires
            span > 0,
            magnitude(n as int) >= 0,
    ;
    q as i32
}

impl View for Line {
    type V = Walk;

    closed spec fn view(&self) -> Walk {
        Walk { at: self.p0, step: self.step, left: self.steps as nat }
    }
}

impl Line {
    /// The walk from `p0` to `p1`.
    pub fn new(p0: Vector3, p1: Vector3) -> (line: Line)
        ensures
            line@ == start(p0, p1),
    {
        let dx: i64 = p1.x as i64 - p0.x as i64;
        let dy: i64 = p1.y as i64 - p0.y as i64;
        let dz: i64 = p1.z as i64 - p0.z as i64;
        let ax: i64 = if dx < 0 { -dx } else { dx };
        let ay: i64 = if dy < 0 { -dy } else { dy };
        let az: i64 = if dz < 0 { -dz } else { dz };
        let steps: i64 = if ax >= ay && ax >= az {
            ax
        } else if ay >= az {
            ay
        } else {
            az
        };

        // if steps == 0 the line is actually just a point
        if steps == 0 {
            Line { p0, step: Vector3::new(0, 0, 0), steps: 1 }
        } else {
            let whole: i64 = (steps + 32768) / 65536;
            let steps_left = match to_u64(whole + 1) {
                Some(n) => n,
                None => 1,
            };
            Line {
                p0,
                step: Vector3::new(
                    stride_of(dx, steps),
                    stride_of(dy, steps),
                    stride_of(dz, steps),
                ),
                steps: steps_left,
            }
        }
    }

    /// The next point of the walk, if one is left.
    pub fn next(&mut self) -> (r: Option<Vector3>)
        ensures
            old(self)@.left == 0 ==> r.is_none() && final(self)@ == old(self)@,
            old(self)@.left > 0 ==> r == Some(old(self)@.at) && final(self)@ == old(self)@.advanced(),
    {
        if self.steps == 0 {
            return None;
        }
        let p = self.p0;

        self.p0.add_assign(self.step);
        self.steps -= 1;

        Some(p)
    }

    /// All the points still to come, in order.
    pub fn collect(self) -> (v: Vec<Vector3>)
        ensures
            v@ == self@.points(),
    {
        let mut line = self;
        let mut v: Vec<Vector3> = Vec::new();
        while line.steps > 0
            invariant
                v@ + line@.points() == self@.points(),
            decreases line.steps,
        {
            let ghost before = line@;
            let p = line.next();
            match p {
                Some(p) => {
                    proof {
                        assert(before.points() == seq![p] + line@.points());
                        assert(v@.push(p) + line@.points() == v@ + (seq![p] + line@.points()));
                    }
                    v.push(p);
                },
                None => {},
            }
        }
        proof {
            assert(line@.points() == Seq::<Vector3>::empty());
            assert(v@ + Seq::<Vector3>::empty() == v@);
        }
        v
    }
}

} // verus!
