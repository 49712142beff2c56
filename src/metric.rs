//! Distance metrics between configurations.

use vstd::prelude::*;

use crate::nn::{in_region, DistanceAabb, KdKey};
use crate::space::{Angle, Pose2d, Vector, ANGLE_UNITS};

verus! {

/// A distance function between configurations of type `C`.
///
/// Distances are non-negative integers, so they are totally ordered.
pub trait Metric<C> {
    /// The distance from `c1` to `c2`.
    spec fn dist(&self, c1: C, c2: C) -> nat;

    /// The metric does not depend on the order of its arguments.
    proof fn lemma_symmetric(&self, c1: C, c2: C)
        ensures
            self.dist(c1, c2) == self.dist(c2, c1),
    ;

    /// Compute the distance from `c1` to `c2`.
    fn distance(&self, c1: &C, c2: &C) -> (d: u128)
        ensures
            d as nat == self.dist(*c1, *c2),
    ;

    /// Whether `dist` is the zero distance.
    fn is_zero(&self, dist: &u128) -> (r: bool)
        ensures
            r == (*dist == 0),
    ;
}

/// The squared Euclidean distance: the sum over all axes of the squared
/// difference of the coordinates.
#[derive(Clone, Copy, Debug, PartialEq, Eq, Default)]
pub struct SquaredEuclidean;

/// The square of `x`.
pub open spec fn sq(x: int) -> nat {
    (x * x) as nat
}

/// Sum of the squared coordinate differences of `a` and `b` over the first `n` axes.
pub open spec fn sq_dist_prefix(a: Seq<i32>, b: Seq<i32>, n: nat) -> nat
    decreases n,
{
    if n == 0 {
        0
    } else {
        sq_dist_prefix(a, b, (n - 1) as nat) + sq(a[n - 1] - b[n - 1])
    }
}

/// How far `x` lies outside of the interval `[lo, hi]` (zero when inside).
pub open spec fn residual(x: int, lo: int, hi: int) -> nat {
    if x < lo {
        (lo - x) as nat
    } else if x > hi {
        (x - hi) as nat
    } else {
        0
    }
}

/// Sum of the squared residuals of `c` against the box `[lo, hi]` over the first `n` axes.
pub open spec fn sq_aabb_prefix(c: Seq<i32>, lo: Seq<i32>, hi: Seq<i32>, n: nat) -> nat
    decreases n,
{
    if n == 0 {
        0
    } else {
        sq_aabb_prefix(c, lo, hi, (n - 1) as nat) + sq(
            residual(c[n - 1] as int, lo[n - 1] as int, hi[n - 1] as int) as int,
        )
    }
}

proof fn lemma_sq_diff_bound(x: i32, y: i32)
    ensures
        sq(x - y) <= 0x1_0000_0000_0000_0000,
        sq(x - y) == sq(y - x),
{
    let d = x - y;
    assert(-0x1_0000_0000 <= d <= 0x1_0000_0000);
    assert(d * d <= 0x1_0000_0000 * 0x1_0000_0000) by (nonlinear_arith)
        requires
            -0x1_0000_0000 <= d <= 0x1_0000_0000,
    ;
    assert(d * d >= 0) by (nonlinear_arith);
    assert((y - x) * (y - x) == d * d) by (nonlinear_arith)
        requires
            d == x - y,
    ;
}

pub proof fn lemma_sq_dist_prefix_bound(a: Seq<i32>, b: Seq<i32>, n: nat)
    requires
        n <= a.len(),
        n <= b.len(),
    ensures
        sq_dist_prefix(a, b, n) <= n * 0x1_0000_0000_0000_0000,
        sq_dist_prefix(a, b, n) == sq_dist_prefix(b, a, n),
    decreases n,
{
    if n > 0 {
        lemma_sq_dist_prefix_bound(a, b, (n - 1) as nat);
        lemma_sq_diff_bound(a[n - 1], b[n - 1]);
        assert(n * 0x1_0000_0000_0000_0000 == (n - 1) * 0x1_0000_0000_0000_0000
            + 0x1_0000_0000_0000_0000) by (nonlinear_arith);
    }
}

proof fn lemma_sq_aabb_residual_bound(c: Seq<i32>, lo: Seq<i32>, hi: Seq<i32>, n: nat)
    requires
        n <= c.len(),
        n <= lo.len(),
        n <= hi.len(),
    ensures
        sq_aabb_prefix(c, lo, hi, n) <= n * 0x1_0000_0000_0000_0000,
    decreases n,
{
    if n > 0 {
        let j = n - 1;
        lemma_sq_aabb_residual_bound(c, lo, hi, (n - 1) as nat);
        let r = residual(c[j] as int, lo[j] as int, hi[j] as int);
        assert(r <= 0x1_0000_0000);
        lemma_sq_mono(r as int, 0x1_0000_0000);
        assert(sq(0x1_0000_0000) == 0x1_0000_0000_0000_0000);
        assert(n * 0x1_0000_0000_0000_0000 == (n - 1) * 0x1_0000_0000_0000_0000
            + 0x1_0000_0000_0000_0000) by (nonlinear_arith);
    }
}

proof fn lemma_sq_mono(x: int, y: int)
    requires
        0 <= x <= y,
    ensures
        sq(x) <= sq(y),
{
    assert(x * x <= y * y) by (nonlinear_arith)
        requires
            0 <= x <= y,
    ;
    assert(x * x >= 0) by (nonlinear_arith);
}

proof fn lemma_sq_aabb_prefix_bound(c: Seq<i32>, lo: Seq<i32>, hi: Seq<i32>, q: Seq<i32>, n: nat)
    requires
        n <= c.len(),
        n <= lo.len(),
        n <= hi.len(),
        n <= q.len(),
        forall|j: int| 0 <= j < n ==> lo[j] <= #[trigger] q[j] <= hi[j],
    ensures
        sq_aabb_prefix(c, lo, hi, n) <= sq_dist_prefix(c, q, n),
    decreases n,
{
    if n > 0 {
        let j = n - 1;
        lemma_sq_aabb_prefix_bound(c, lo, hi, q, (n - 1) as nat);
        let r = residual(c[j] as int, lo[j] as int, hi[j] as int);
        assert(lo[j] <= q[j] <= hi[j]);
        assert(r <= (if c[j] >= q[j] { c[j] - q[j] } else { q[j] - c[j] }));
        lemma_sq_mono(r as int, (if c[j] >= q[j] { c[j] - q[j] } else { q[j] - c[j] }) as int);
        lemma_sq_diff_bound(c[j], q[j]);
        assert(sq(c[j] - q[j]) == sq(q[j] - c[j]));
    }
}

impl<const N: usize> Metric<Vector<N>> for SquaredEuclidean {
    open spec fn dist(&self, c1: Vector<N>, c2: Vector<N>) -> nat {
        sq_dist_prefix(c1.coords@, c2.coords@, N as nat)
    }

    proof fn lemma_symmetric(&self, c1: Vector<N>, c2: Vector<N>) {
        lemma_sq_dist_prefix_bound(c1.coords@, c2.coords@, N as nat);
    }

    fn distance(&self, c1: &Vector<N>, c2: &Vector<N>) -> (d: u128) {
        let mut total: u128 = 0;
        let mut i: usize = 0;
        while i < N
            invariant
                i <= N,
                c1.coords@.len() == N,
                c2.coords@.len() == N,
                total as nat == sq_dist_prefix(c1.coords@, c2.coords@, i as nat),
            decreases N - i,
        {
            proof {
                lemma_sq_dist_prefix_bound(c1.coords@, c2.coords@, (i + 1) as nat);
                assert((i + 1) * 0x1_0000_0000_0000_0000 <= 0xFFFF_FFFF_FFFF_FFFF
                    * 0x1_0000_0000_0000_0000) by (nonlinear_arith)
                    requires
                        i < 0xFFFF_FFFF_FFFF_FFFF,
                ;
            }
            let diff: i128 = c1.coords[i] as i128 - c2.coords[i] as i128;
            proof {
                lemma_sq_diff_bound(c1.coords[i as int], c2.coords[i as int]);
                assert(0 <= diff * diff <= 0x1_0000_0000_0000_0000) by (nonlinear_arith)
                    requires
                        -0x1_0000_0000 <= diff <= 0x1_0000_0000,
                ;
            }
            let term: u128 = (diff * diff) as u128;
            total = total + term;
            i = i + 1;
        }
        total
    }

    fn is_zero(&self, dist: &u128) -> (r: bool) {
        *dist == 0
    }
}

impl<const N: usize> DistanceAabb<Vector<N>> for SquaredEuclidean {
    open spec fn aabb_dist(&self, c: Vector<N>, lo: Vector<N>, hi: Vector<N>) -> nat {
        sq_aabb_prefix(c.coords@, lo.coords@, hi.coords@, N as nat)
    }

    proof fn lemma_aabb_lower_bound(&self, c: Vector<N>, lo: Vector<N>, hi: Vector<N>, q: Vector<N>) {
        assert forall|j: int| 0 <= j < N implies lo.coords@[j] <= #[trigger] q.coords@[j]
            <= hi.coords@[j] by {
            assert(q.axis(j as nat) == q.coords@[j]);
        }
        lemma_sq_aabb_prefix_bound(c.coords@, lo.coords@, hi.coords@, q.coords@, N as nat);
    }

    fn distance_to_aabb(&self, c: &Vector<N>, aabb_lo: &Vector<N>, aabb_hi: &Vector<N>) -> (d: u128) {
        let mut total: u128 = 0;
        let mut i: usize = 0;
        while i < N
            invariant
                i <= N,
                c.coords@.len() == N,
                aabb_lo.coords@.len() == N,
                aabb_hi.coords@.len() == N,
                total as nat == sq_aabb_prefix(c.coords@, aabb_lo.coords@, aabb_hi.coords@, i as nat),
            decreases N - i,
        {
            let x = c.coords[i] as i128;
            let lo = aabb_lo.coords[i] as i128;
            let hi = aabb_hi.coords[i] as i128;
            let r: i128 = if x < lo {
                lo - x
            } else if x > hi {
                x - hi
            } else {
                0
            };
            proof {
                let j = i as int;
                assert(r == residual(c.coords@[j] as int, aabb_lo.coords@[j] as int, aabb_hi.coords@[j] as int));
                assert(0 <= r <= 0x1_0000_0000);
                assert(r * r <= 0x1_0000_0000 * 0x1_0000_0000) by (nonlinear_arith)
                    requires
                        0 <= r <= 0x1_0000_0000,
                ;
                assert(r * r >= 0) by (nonlinear_arith);
                lemma_sq_aabb_residual_bound(c.coords@, aabb_lo.coords@, aabb_hi.coords@, (i + 1) as nat);
                assert((i + 1) * 0x1_0000_0000_0000_0000 <= 0xFFFF_FFFF_FFFF_FFFF
                    * 0x1_0000_0000_0000_0000) by (nonlinear_arith)
                    requires
                        i < 0xFFFF_FFFF_FFFF_FFFF,
                ;
            }
            total = total + (r * r) as u128;
            i = i + 1;
        }
        total
    }
}

/// The shorter way around the circle between the positions `a` and `b`.
pub open spec fn arc(a: int, b: int) -> int {
    let d = if a >= b {
        a - b
    } else {
        b - a
    };
    if d <= ANGLE_UNITS - d {
        d
    } else {
        ANGLE_UNITS - d
    }
}

/// How far the position `x` lies from the arc `[lo, hi]` of the circle (zero when inside).
pub open spec fn arc_residual(x: int, lo: int, hi: int) -> int {
    if lo <= x <= hi {
        0
    } else if arc(x, lo) <= arc(x, hi) {
        arc(x, lo)
    } else {
        arc(x, hi)
    }
}

proof fn lemma_arc_residual_bound(x: int, lo: int, hi: int, q: int)
    requires
        0 <= x < ANGLE_UNITS,
        0 <= lo <= q <= hi < ANGLE_UNITS,
    ensures
        0 <= arc_residual(x, lo, hi) <= arc(x, q),
{
}

fn arc_between(a: u32, b: u32) -> (r: u32)
    requires
        a < ANGLE_UNITS,
        b < ANGLE_UNITS,
    ensures
        r == arc(a as int, b as int),
        r <= ANGLE_UNITS / 2,
{
    let d = if a >= b {
        a - b
    } else {
        b - a
    };
    if d <= ANGLE_UNITS - d {
        d
    } else {
        ANGLE_UNITS - d
    }
}

impl Metric<Angle> for SquaredEuclidean {
    open spec fn dist(&self, c1: Angle, c2: Angle) -> nat {
        sq(arc(c1.turn(), c2.turn()))
    }

    proof fn lemma_symmetric(&self, c1: Angle, c2: Angle) {
    }

    fn distance(&self, c1: &Angle, c2: &Angle) -> (d: u128) {
        let a = arc_between(c1.get(), c2.get()) as u128;
        assert(a * a <= 0x8000 * 0x8000) by (nonlinear_arith)
            requires
                a <= 0x8000,
        ;
        a * a
    }

    fn is_zero(&self, dist: &u128) -> (r: bool) {
        *dist == 0
    }
}

impl DistanceAabb<Angle> for SquaredEuclidean {
    open spec fn aabb_dist(&self, c: Angle, lo: Angle, hi: Angle) -> nat {
        sq(arc_residual(c.turn(), lo.turn(), hi.turn()))
    }

    proof fn lemma_aabb_lower_bound(&self, c: Angle, lo: Angle, hi: Angle, q: Angle) {
        assert(lo.axis(0) <= q.axis(0) && q.axis(0) <= hi.axis(0));
        lemma_arc_residual_bound(c.turn(), lo.turn(), hi.turn(), q.turn());
        lemma_sq_mono(arc_residual(c.turn(), lo.turn(), hi.turn()), arc(c.turn(), q.turn()));
    }

    fn distance_to_aabb(&self, c: &Angle, aabb_lo: &Angle, aabb_hi: &Angle) -> (d: u128) {
        let x = c.get();
        let lo = aabb_lo.get();
        let hi = aabb_hi.get();
        let r: u32 = if lo <= x && x <= hi {
            0
        } else {
            let to_lo = arc_between(x, lo);
            let to_hi = arc_between(x, hi);
            if to_lo <= to_hi {
                to_lo
            } else {
                to_hi
            }
        };
        let r = r as u128;
        assert(r <= 0x8000);
        assert(r * r <= 0x8000 * 0x8000) by (nonlinear_arith)
            requires
                r <= 0x8000,
        ;
        r * r
    }
}

/// A weighted sum of the squared Euclidean distance between positions and the
/// squared arc between headings.
#[derive(Clone, Copy, Debug, PartialEq, Eq)]
pub struct WeightedPoseDistance<PM, AM> {
    /// The metric on positions.
    pub position_metric: PM,
    /// The weight of the position term.
    pub position_weight: u32,
    /// The metric on headings.
    pub angle_metric: AM,
    /// The weight of the heading term.
    pub angle_weight: u32,
}

proof fn lemma_weighted_le(w: int, a: int, b: int)
    requires
        0 <= w,
        0 <= a <= b,
    ensures
        w * a <= w * b,
{
    assert(w * a <= w * b) by (nonlinear_arith)
        requires
            0 <= w,
            a <= b,
    ;
}

proof fn lemma_weighted_sum_bound(pw: int, p: int, aw: int, a: int)
    requires
        0 <= pw < 0x1_0000_0000,
        0 <= aw < 0x1_0000_0000,
        0 <= p <= 2 * 0x1_0000_0000_0000_0000,
        0 <= a <= 0x8000 * 0x8000,
    ensures
        pw * p + aw * a < 0x1_0000_0000_0000_0000_0000_0000_0000_0000,
        pw * p >= 0,
        aw * a >= 0,
{
    assert(pw * p <= 0x1_0000_0000 * (2 * 0x1_0000_0000_0000_0000)) by (nonlinear_arith)
        requires
            0 <= pw < 0x1_0000_0000,
            0 <= p <= 2 * 0x1_0000_0000_0000_0000,
    ;
    assert(aw * a <= 0x1_0000_0000 * (0x8000 * 0x8000)) by (nonlinear_arith)
        requires
            0 <= aw < 0x1_0000_0000,
            0 <= a <= 0x8000 * 0x8000,
    ;
    assert(pw * p >= 0) by (nonlinear_arith)
        requires
            0 <= pw,
            0 <= p,
    ;
    assert(aw * a >= 0) by (nonlinear_arith)
        requires
            0 <= aw,
            0 <= a,
    ;
}

impl Metric<Pose2d> for WeightedPoseDistance<SquaredEuclidean, SquaredEuclidean> {
    open spec fn dist(&self, c1: Pose2d, c2: Pose2d) -> nat {
        (self.position_weight * SquaredEuclidean.dist(c1.position, c2.position) + self.angle_weight
            * SquaredEuclidean.dist(c1.angle, c2.angle)) as nat
    }

    proof fn lemma_symmetric(&self, c1: Pose2d, c2: Pose2d) {
        lemma_sq_dist_prefix_bound(c1.position.coords@, c2.position.coords@, 2);
    }

    fn distance(&self, c1: &Pose2d, c2: &Pose2d) -> (d: u128) {
        let p = SquaredEuclidean.distance(&c1.position, &c2.position);
        let a = SquaredEuclidean.distance(&c1.angle, &c2.angle);
        proof {
            lemma_sq_dist_prefix_bound(c1.position.coords@, c2.position.coords@, 2);
            assert(a <= 0x8000 * 0x8000) by {
                let t = arc(c1.angle.turn(), c2.angle.turn());
                assert(0 <= t <= 0x8000);
                lemma_sq_mono(t, 0x8000);
            }
            lemma_weighted_sum_bound(self.position_weight as int, p as int, self.angle_weight as int, a as int);
        }
        (self.position_weight as u128) * p + (self.angle_weight as u128) * a
    }

    fn is_zero(&self, dist: &u128) -> (r: bool) {
        *dist == 0
    }
}

impl DistanceAabb<Pose2d> for WeightedPoseDistance<SquaredEuclidean, SquaredEuclidean> {
    open spec fn aabb_dist(&self, c: Pose2d, lo: Pose2d, hi: Pose2d) -> nat {
        (self.position_weight * SquaredEuclidean.aabb_dist(c.position, lo.position, hi.position)
            + self.angle_weight * SquaredEuclidean.aabb_dist(c.angle, lo.angle, hi.angle)) as nat
    }

    proof fn lemma_aabb_lower_bound(&self, c: Pose2d, lo: Pose2d, hi: Pose2d, q: Pose2d) {
        assert forall|j: int| 0 <= j < 2 implies lo.position.coords@[j] <= #[trigger] q.position.coords@[j]
            <= hi.position.coords@[j] by {
            assert(lo.axis(j as nat) <= q.axis(j as nat) && q.axis(j as nat) <= hi.axis(j as nat));
        }
        lemma_sq_aabb_prefix_bound(c.position.coords@, lo.position.coords@, hi.position.coords@, q.position.coords@, 2);
        assert(lo.axis(2) <= q.axis(2) && q.axis(2) <= hi.axis(2));
        assert(in_region(q.angle, lo.angle, hi.angle)) by {
            assert forall|j: nat| j < 1 implies lo.angle.axis(j) <= #[trigger] q.angle.axis(j)
                && q.angle.axis(j) <= hi.angle.axis(j) by {
            }
        }
        SquaredEuclidean.lemma_aabb_lower_bound(c.angle, lo.angle, hi.angle, q.angle);
        lemma_weighted_le(
            self.position_weight as int,
            SquaredEuclidean.aabb_dist(c.position, lo.position, hi.position) as int,
            SquaredEuclidean.dist(c.position, q.position) as int,
        );
        lemma_weighted_le(
            self.angle_weight as int,
            SquaredEuclidean.aabb_dist(c.angle, lo.angle, hi.angle) as int,
            SquaredEuclidean.dist(c.angle, q.angle) as int,
        );
    }

    fn distance_to_aabb(&self, c: &Pose2d, aabb_lo: &Pose2d, aabb_hi: &Pose2d) -> (d: u128) {
        let p = SquaredEuclidean.distance_to_aabb(&c.position, &aabb_lo.position, &aabb_hi.position);
        let a = SquaredEuclidean.distance_to_aabb(&c.angle, &aabb_lo.angle, &aabb_hi.angle);
        proof {
            lemma_sq_aabb_residual_bound(c.position.coords@, aabb_lo.position.coords@, aabb_hi.position.coords@, 2);
            assert(a <= 0x8000 * 0x8000) by {
                let t = arc_residual(c.angle.turn(), aabb_lo.angle.turn(), aabb_hi.angle.turn());
                assert(0 <= t <= 0x8000);
                lemma_sq_mono(t, 0x8000);
            }
            lemma_weighted_sum_bound(self.position_weight as int, p as int, self.angle_weight as int, a as int);
        }
        (self.position_weight as u128) * p + (self.angle_weight as u128) * a
    }
}

} // verus!
