//! Configuration spaces.

use vstd::prelude::*;

use crate::metric::{lemma_sq_dist_prefix_bound, sq, sq_dist_prefix, Metric, SquaredEuclidean};
use crate::nn::KdKey;
use crate::Interpolate;

verus! {

/// A point in `N`-dimensional space with integer (fixed-point) coordinates.
#[derive(Clone, Copy, Debug, PartialEq, Eq)]
pub struct Vector<const N: usize> {
    /// The coordinate along each axis.
    pub coords: [i32; N],
}

impl<const N: usize> Vector<N> {
    /// Construct a vector from its coordinates.
    pub fn new(coords: [i32; N]) -> (r: Self)
        ensures
            r.coords == coords,
    {
        Vector { coords }
    }

    /// The coordinate along axis `i`.
    pub fn get(&self, i: usize) -> (r: i32)
        requires
            i < N,
        ensures
            r == self.coords@[i as int],
    {
        self.coords[i]
    }
}

/// The resolution of steering: a step stops at one of this many fractions of the way.
pub const INTERPOLATION_STEPS: u64 = 65536;

proof fn lemma_sq_dist_self(a: Seq<i32>, n: nat)
    requires
        n <= a.len(),
    ensures
        sq_dist_prefix(a, a, n) == 0,
    decreases n,
{
    if n > 0 {
        lemma_sq_dist_self(a, (n - 1) as nat);
    }
}

/// The point `t / INTERPOLATION_STEPS` of the way from `s` to `e`, rounded toward `s`.
pub open spec fn fraction_toward(s: i32, e: i32, t: int) -> int {
    if e >= s {
        s + ((e - s) * t) / (INTERPOLATION_STEPS as int)
    } else {
        s - ((s - e) * t) / (INTERPOLATION_STEPS as int)
    }
}

fn coordinate_toward(s: i32, e: i32, t: u64) -> (r: i32)
    requires
        t <= INTERPOLATION_STEPS,
    ensures
        r == fraction_toward(s, e, t as int),
{
    if e >= s {
        let d: u64 = (e as i64 - s as i64) as u64;
        proof {
            assert(d * t <= d * INTERPOLATION_STEPS) by (nonlinear_arith)
                requires
                    t <= INTERPOLATION_STEPS,
            ;
            assert((d * t) / (INTERPOLATION_STEPS as int) <= d) by (nonlinear_arith)
                requires
                    d * t <= d * INTERPOLATION_STEPS,
                    INTERPOLATION_STEPS > 0,
            ;
        }
        let q: u64 = d * t / INTERPOLATION_STEPS;
        (s as i64 + q as i64) as i32
    } else {
        let d: u64 = (s as i64 - e as i64) as u64;
        proof {
            assert(d * t <= d * INTERPOLATION_STEPS) by (nonlinear_arith)
                requires
                    t <= INTERPOLATION_STEPS,
            ;
            assert((d * t) / (INTERPOLATION_STEPS as int) <= d) by (nonlinear_arith)
                requires
                    d * t <= d * INTERPOLATION_STEPS,
                    INTERPOLATION_STEPS > 0,
            ;
        }
        let q: u64 = d * t / INTERPOLATION_STEPS;
        (s as i64 - q as i64) as i32
    }
}

impl<const N: usize> Vector<N> {
    /// The point `t / INTERPOLATION_STEPS` of the way from `self` to `end`, per axis
    /// rounded toward `self`.
    pub fn toward(&self, end: &Self, t: u64) -> (r: Self)
        requires
            t <= INTERPOLATION_STEPS,
        ensures
            forall|i: int| 0 <= i < N ==> r.coords@[i] == fraction_toward(self.coords@[i], end.coords@[i], t as int),
    {
        let mut out = self.coords;
        let mut i: usize = 0;
        while i < N
            invariant
                i <= N,
                t <= INTERPOLATION_STEPS,
                out@.len() == N,
                self.coords@.len() == N,
                end.coords@.len() == N,
                forall|j: int| 0 <= j < i ==> out@[j] == fraction_toward(self.coords@[j], end.coords@[j], t as int),
            decreases N - i,
        {
            out[i] = coordinate_toward(self.coords[i], end.coords[i], t);
            i = i + 1;
        }
        Vector { coords: out }
    }
}

/// The coordinates `t / INTERPOLATION_STEPS` of the way from `s` to `e`.
pub open spec fn fraction_point<const N: usize>(s: Vector<N>, e: Vector<N>, t: int) -> Seq<i32> {
    Seq::new(N as nat, |i: int| fraction_toward(s.coords@[i], e.coords@[i], t) as i32)
}

/// Whether the point `t / INTERPOLATION_STEPS` of the way from `s` to `e` lies within
/// `radius` of `s`.
pub open spec fn step_fits<const N: usize>(s: Vector<N>, e: Vector<N>, t: int, radius: nat) -> bool {
    sq_dist_prefix(s.coords@, fraction_point(s, e, t), N as nat) <= radius
}

proof fn lemma_fraction_coordinate(s: i32, e: i32, t: int)
    requires
        0 <= t <= INTERPOLATION_STEPS,
    ensures
        i32::MIN <= fraction_toward(s, e, t) <= i32::MAX,
        sq(fraction_toward(s, e, t) - e) <= sq(s - e),
        fraction_toward(s, e, t) != s ==> sq(fraction_toward(s, e, t) - e) < sq(s - e),
        t == 0 ==> fraction_toward(s, e, t) == s,
        t == INTERPOLATION_STEPS ==> fraction_toward(s, e, t) == e,
{
    let d: int = if e >= s { e - s } else { s - e };
    let big = INTERPOLATION_STEPS as int;
    assert(d * t <= d * big) by (nonlinear_arith)
        requires
            0 <= d,
            t <= big,
    ;
    assert(0 <= d * t) by (nonlinear_arith)
        requires
            0 <= d,
            0 <= t,
    ;
    let q = (d * t) / big;
    assert(0 <= q <= d) by (nonlinear_arith)
        requires
            d * t <= d * big,
            0 <= d * t,
            big > 0,
            q == (d * t) / big,
    ;
    if t == 0 {
        assert(d * t == 0);
    }
    if t == big {
        vstd::arithmetic::div_mod::lemma_div_by_multiple(d, big);
    }
    let rest = d - q;
    assert(rest * rest <= d * d) by (nonlinear_arith)
        requires
            0 <= rest <= d,
    ;
    assert(rest * rest >= 0) by (nonlinear_arith);
    if q > 0 {
        assert(rest * rest < d * d) by (nonlinear_arith)
            requires
                0 <= rest < d,
        ;
    }
    assert((s - e) * (s - e) == d * d) by (nonlinear_arith)
        requires
            d == s - e || d == e - s,
    ;
    assert((fraction_toward(s, e, t) - e) * (fraction_toward(s, e, t) - e) == rest * rest) by (
    nonlinear_arith)
        requires
            fraction_toward(s, e, t) - e == rest || fraction_toward(s, e, t) - e == -rest,
    ;
}

proof fn lemma_prefix_closer(a: Seq<i32>, b: Seq<i32>, e: Seq<i32>, n: nat)
    requires
        n <= a.len(),
        n <= b.len(),
        n <= e.len(),
        forall|i: int| 0 <= i < n ==> sq(a[i] - e[i]) <= sq(b[i] - e[i]),
    ensures
        sq_dist_prefix(a, e, n) <= sq_dist_prefix(b, e, n),
        (exists|j: int| 0 <= j < n && sq(a[j] - e[j]) < sq(b[j] - e[j])) ==> sq_dist_prefix(a, e, n)
            < sq_dist_prefix(b, e, n),
    decreases n,
{
    if n > 0 {
        lemma_prefix_closer(a, b, e, (n - 1) as nat);
        if exists|j: int| 0 <= j < n && sq(a[j] - e[j]) < sq(b[j] - e[j]) {
            let j = choose|j: int| 0 <= j < n && sq(a[j] - e[j]) < sq(b[j] - e[j]);
            if j < n - 1 {
                assert(exists|j: int| 0 <= j < n - 1 && sq(a[j] - e[j]) < sq(b[j] - e[j]));
            }
        }
    }
}

proof fn lemma_step_progress<const N: usize>(s: Vector<N>, e: Vector<N>, t: int, x: Vector<N>)
    requires
        0 <= t <= INTERPOLATION_STEPS,
        x.coords@ == fraction_point(s, e, t),
        x != s,
    ensures
        SquaredEuclidean.dist(x, e) < SquaredEuclidean.dist(s, e),
{
    broadcast use vstd::array::group_array_axioms;

    assert forall|i: int| 0 <= i < N implies sq(x.coords@[i] - e.coords@[i]) <= sq(
        s.coords@[i] - e.coords@[i],
    ) && (x.coords@[i] != s.coords@[i] ==> sq(x.coords@[i] - e.coords@[i]) < sq(
        s.coords@[i] - e.coords@[i],
    )) by {
        lemma_fraction_coordinate(s.coords@[i], e.coords@[i], t);
    }
    if forall|i: int| 0 <= i < N ==> x.coords@[i] == s.coords@[i] {
        assert(x.coords@ =~= s.coords@);
        assert(x.coords == s.coords);
    }
    let j = choose|i: int| 0 <= i < N && x.coords@[i] != s.coords@[i];
    assert(sq(x.coords@[j] - e.coords@[j]) < sq(s.coords@[j] - e.coords@[j]));
    lemma_prefix_closer(x.coords@, s.coords@, e.coords@, N as nat);
}

impl<const N: usize> Interpolate for Vector<N> {
    open spec fn step_dist(self, other: Self) -> nat {
        SquaredEuclidean.dist(self, other)
    }

    /// The point `t / INTERPOLATION_STEPS` of the way for a `t` that fits within the
    /// radius while `t + 1` does not.
    open spec fn is_step_toward(self, end: Self, radius: nat, x: Self) -> bool {
        exists|t: int|
            0 <= t <= INTERPOLATION_STEPS && step_fits(self, end, t, radius) && (t
                == INTERPOLATION_STEPS || !step_fits(self, end, t + 1, radius)) && x.coords@
                == #[trigger] fraction_point(self, end, t)
    }

    fn interpolate(&self, end: &Self, radius: u128) -> (r: Result<Self, Self>) {
        let metric = SquaredEuclidean;
        if metric.distance(self, end) <= radius {
            return Ok(*end);
        }
        proof {
            lemma_sq_dist_self(self.coords@, N as nat);
            assert forall|i: int| 0 <= i < N implies fraction_point(*self, *end, 0)[i] == self.coords@[i]
                && fraction_point(*self, *end, INTERPOLATION_STEPS as int)[i] == end.coords@[i] by {
                lemma_fraction_coordinate(self.coords@[i], end.coords@[i], 0);
                lemma_fraction_coordinate(self.coords@[i], end.coords@[i], INTERPOLATION_STEPS as int);
            }
            assert(fraction_point(*self, *end, 0) =~= self.coords@);
            assert(fraction_point(*self, *end, INTERPOLATION_STEPS as int) =~= end.coords@);
        }
        let mut best = *self;
        let mut lo: u64 = 0;
        let mut hi: u64 = INTERPOLATION_STEPS;
        while hi - lo > 1
            invariant
                lo < hi <= INTERPOLATION_STEPS,
                metric.dist(*self, best) <= radius,
                step_fits(*self, *end, lo as int, radius as nat),
                !step_fits(*self, *end, hi as int, radius as nat),
                best.coords@ == fraction_point(*self, *end, lo as int),
            decreases hi - lo,
        {
            let mid = lo + (hi - lo) / 2;
            let candidate = self.toward(end, mid);
            assert(candidate.coords@ =~= fraction_point(*self, *end, mid as int));
            if metric.distance(self, &candidate) <= radius {
                lo = mid;
                best = candidate;
            } else {
                hi = mid;
            }
        }
        proof {
            assert(best.coords@ == fraction_point(*self, *end, lo as int));
            assert(self.is_step_toward(*end, radius as nat, best));
            if best != *self {
                lemma_step_progress(*self, *end, lo as int, best);
                lemma_sq_dist_prefix_bound(best.coords@, end.coords@, N as nat);
            }
        }
        Err(best)
    }
}

impl<const N: usize> KdKey for Vector<N> {
    open spec fn spec_dimension() -> nat {
        N as nat
    }

    open spec fn axis(self, k: nat) -> int {
        self.coords@[k as int] as int
    }

    fn dimension() -> (d: usize) {
        N
    }

    fn compare(&self, rhs: &Self, k: usize) -> (o: core::cmp::Ordering) {
        let a = self.coords[k];
        let b = rhs.coords[k];
        if a < b {
            core::cmp::Ordering::Less
        } else if a == b {
            core::cmp::Ordering::Equal
        } else {
            core::cmp::Ordering::Greater
        }
    }

    fn assign(&mut self, src: &Self, k: usize) {
        self.coords[k] = src.coords[k];
    }

    fn lower_bound() -> (r: Self) {
        let r = Vector { coords: filled(i32::MIN) };
        assert forall|c: Self, j: nat| j < N implies r.axis(j) <= #[trigger] c.axis(j) by {
            assert(r.coords@[j as int] == i32::MIN);
        }
        r
    }

    fn upper_bound() -> (r: Self) {
        let r = Vector { coords: filled(i32::MAX) };
        assert forall|c: Self, j: nat| j < N implies #[trigger] c.axis(j) <= r.axis(j) by {
            assert(r.coords@[j as int] == i32::MAX);
        }
        r
    }
}

/// An array holding `v` on every axis.
fn filled<const N: usize>(v: i32) -> (r: [i32; N])
    ensures
        forall|i: int| 0 <= i < N ==> r@[i] == v,
{
    let mut out = [v; N];
    let mut i: usize = 0;
    while i < N
        invariant
            i <= N,
            out@.len() == N,
            forall|j: int| 0 <= j < i ==> out@[j] == v,
        decreases N - i,
    {
        out[i] = v;
        i = i + 1;
    }
    out
}

/// The number of angle units in a full turn.
pub const ANGLE_UNITS: u32 = 65536;

/// An angle on the circle, in units of `1 / ANGLE_UNITS` of a full turn.
#[derive(Clone, Copy, Debug, PartialEq, Eq)]
pub struct Angle {
    units: u32,
}

impl Angle {
    /// The angle's position on the circle, in `[0, ANGLE_UNITS)`.
    pub open spec fn turn(self) -> int {
        (self.spec_units() as int) % (ANGLE_UNITS as int)
    }

    /// The stored units.
    pub closed spec fn spec_units(self) -> u32 {
        self.units
    }

    /// The angle of `units` units, wrapped onto the circle.
    pub fn new(units: u32) -> (r: Self)
        ensures
            r.turn() == units % ANGLE_UNITS,
    {
        Angle { units: units % ANGLE_UNITS }
    }

    /// The angle's position on the circle, in `[0, ANGLE_UNITS)`.
    pub fn get(&self) -> (r: u32)
        ensures
            r == self.turn(),
    {
        self.units % ANGLE_UNITS
    }
}

impl KdKey for Angle {
    open spec fn spec_dimension() -> nat {
        1
    }

    open spec fn axis(self, k: nat) -> int {
        self.turn()
    }

    fn dimension() -> (d: usize) {
        1
    }

    fn compare(&self, rhs: &Self, k: usize) -> (o: core::cmp::Ordering) {
        let a = self.get();
        let b = rhs.get();
        if a < b {
            core::cmp::Ordering::Less
        } else if a == b {
            core::cmp::Ordering::Equal
        } else {
            core::cmp::Ordering::Greater
        }
    }

    fn assign(&mut self, src: &Self, k: usize) {
        self.units = src.units;
    }

    fn lower_bound() -> (r: Self) {
        Angle { units: 0 }
    }

    fn upper_bound() -> (r: Self) {
        Angle { units: ANGLE_UNITS - 1 }
    }
}

/// A position in the plane together with a heading.
#[derive(Clone, Copy, Debug, PartialEq, Eq)]
pub struct Pose2d {
    /// Where the pose is.
    pub position: Vector<2>,
    /// Which way the pose faces.
    pub angle: Angle,
}

impl KdKey for Pose2d {
    open spec fn spec_dimension() -> nat {
        3
    }

    open spec fn axis(self, k: nat) -> int {
        if k < 2 {
            self.position.coords@[k as int] as int
        } else {
            self.angle.turn()
        }
    }

    fn dimension() -> (d: usize) {
        3
    }

    fn compare(&self, rhs: &Self, k: usize) -> (o: core::cmp::Ordering) {
        if k < 2 {
            self.position.compare(&rhs.position, k)
        } else {
            self.angle.compare(&rhs.angle, 0)
        }
    }

    fn assign(&mut self, src: &Self, k: usize) {
        let ghost before = *self;
        if k < 2 {
            self.position.assign(&src.position, k);
            assert forall|j: nat| j < 3 && j != k implies #[trigger] self.axis(j) == before.axis(j) by {
                if j < 2 {
                    assert(self.position.axis(j) == before.position.axis(j));
                }
            }
        } else {
            self.angle = src.angle;
        }
    }

    fn lower_bound() -> (r: Self) {
        let r = Pose2d { position: Vector::lower_bound(), angle: Angle::lower_bound() };
        assert forall|c: Self, j: nat| j < 3 implies r.axis(j) <= #[trigger] c.axis(j) by {
            if j < 2 {
                assert(r.position.axis(j) <= c.position.axis(j));
            } else {
                assert(r.angle.axis(0) <= c.angle.axis(0));
            }
        }
        r
    }

    fn upper_bound() -> (r: Self) {
        let r = Pose2d { position: Vector::upper_bound(), angle: Angle::upper_bound() };
        assert forall|c: Self, j: nat| j < 3 implies #[trigger] c.axis(j) <= r.axis(j) by {
            if j < 2 {
                assert(c.position.axis(j) <= r.position.axis(j));
            } else {
                assert(c.angle.axis(0) <= r.angle.axis(0));
            }
        }
        r
    }
}

} // verus!
