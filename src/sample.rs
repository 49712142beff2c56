//! Sampling distributions for states.

use vstd::prelude::*;

use rand::distributions::{Bernoulli, Distribution};
use rand::rngs::StdRng;
use rand::Rng;

use crate::space::{Angle, Pose2d, Vector, ANGLE_UNITS};
pub use crate::Sample;

verus! {

#[verifier::external_type_specification]
#[verifier::external_body]
pub struct ExStdRng(StdRng);

#[verifier::external_type_specification]
#[verifier::external_body]
pub struct ExBernoulli(Bernoulli);

/// Relies on rand's `Rng::gen_range`: a value drawn from the inclusive range
/// `lo..=hi`, which panics only on an empty range.
#[verifier::external_body]
fn draw_between(rng: &mut StdRng, lo: i32, hi: i32) -> (r: i32)
    requires
        lo <= hi,
    ensures
        lo <= r <= hi,
{
    rng.gen_range(lo..=hi)
}

/// Relies on rand's `Distribution<bool>` for `Bernoulli`: one draw.
#[verifier::external_body]
fn draw_bernoulli(b: &Bernoulli, rng: &mut StdRng) -> bool {
    <Bernoulli as Distribution<bool>>::sample(b, rng)
}

/// A rectangular prism of values of `T`.
/// When used as [`Sample`], this rectangle inclusively samples all values.
pub struct Rectangle<T> {
    /// The lowest corner along all axes.
    pub min: T,
    /// The highest corner along all axes.
    pub max: T,
}

/// A sampler for all possible values of a datum.
#[derive(Clone, Copy, Debug, PartialEq, Eq, Default)]
pub struct Everywhere;

impl<A, B, S, RNG> Sample<(A, B), RNG> for S where S: Sample<A, RNG> + Sample<B, RNG> {
    open spec fn sample_ready(&self) -> bool {
        <S as Sample<A, RNG>>::sample_ready(self) && <S as Sample<B, RNG>>::sample_ready(self)
    }

    open spec fn may_sample(&self, c: (A, B)) -> bool {
        <S as Sample<A, RNG>>::may_sample(self, c.0) && <S as Sample<B, RNG>>::may_sample(self, c.1)
    }

    fn sample(&self, rng: &mut RNG) -> (r: (A, B)) {
        let a = <S as Sample<A, RNG>>::sample(self, rng);
        let b = <S as Sample<B, RNG>>::sample(self, rng);
        (a, b)
    }
}

impl Sample<bool, StdRng> for Bernoulli {
    open spec fn sample_ready(&self) -> bool {
        true
    }

    open spec fn may_sample(&self, c: bool) -> bool {
        true
    }

    fn sample(&self, rng: &mut StdRng) -> (r: bool) {
        draw_bernoulli(self, rng)
    }
}

impl<const N: usize> Sample<Vector<N>, StdRng> for Rectangle<Vector<N>> {
    open spec fn sample_ready(&self) -> bool {
        forall|i: int| 0 <= i < N ==> self.min.coords@[i] <= #[trigger] self.max.coords@[i]
    }

    open spec fn may_sample(&self, c: Vector<N>) -> bool {
        forall|i: int|
            0 <= i < N ==> self.min.coords@[i] <= #[trigger] c.coords@[i] <= self.max.coords@[i]
    }

    fn sample(&self, rng: &mut StdRng) -> (r: Vector<N>) {
        let mut out = self.min.coords;
        let mut i: usize = 0;
        while i < N
            invariant
                i <= N,
                out@.len() == N,
                self.min.coords@.len() == N,
                self.max.coords@.len() == N,
                <Self as Sample<Vector<N>, StdRng>>::sample_ready(self),
                forall|j: int|
                    0 <= j < i ==> self.min.coords@[j] <= #[trigger] out@[j] <= self.max.coords@[j],
            decreases N - i,
        {
            assert(self.min.coords@[i as int] <= self.max.coords@[i as int]);
            out[i] = draw_between(rng, self.min.coords[i], self.max.coords[i]);
            i = i + 1;
        }
        Vector::new(out)
    }
}

impl<const N: usize> Sample<Vector<N>, StdRng> for Everywhere {
    open spec fn sample_ready(&self) -> bool {
        true
    }

    open spec fn may_sample(&self, c: Vector<N>) -> bool {
        true
    }

    fn sample(&self, rng: &mut StdRng) -> (r: Vector<N>) {
        let mut out = [0i32; N];
        let mut i: usize = 0;
        while i < N
            invariant
                i <= N,
                out@.len() == N,
            decreases N - i,
        {
            out[i] = draw_between(rng, i32::MIN, i32::MAX);
            i = i + 1;
        }
        Vector::new(out)
    }
}

impl Sample<Angle, StdRng> for Everywhere {
    open spec fn sample_ready(&self) -> bool {
        true
    }

    open spec fn may_sample(&self, c: Angle) -> bool {
        true
    }

    fn sample(&self, rng: &mut StdRng) -> (r: Angle) {
        let units = draw_between(rng, 0, (ANGLE_UNITS - 1) as i32);
        Angle::new(units as u32)
    }
}

impl Sample<Pose2d, StdRng> for Rectangle<Vector<2>> {
    open spec fn sample_ready(&self) -> bool {
        forall|i: int| 0 <= i < 2 ==> self.min.coords@[i] <= #[trigger] self.max.coords@[i]
    }

    open spec fn may_sample(&self, c: Pose2d) -> bool {
        forall|i: int|
            0 <= i < 2 ==> self.min.coords@[i] <= #[trigger] c.position.coords@[i]
                <= self.max.coords@[i]
    }

    fn sample(&self, rng: &mut StdRng) -> (r: Pose2d) {
        let position = <Self as Sample<Vector<2>, StdRng>>::sample(self, rng);
        let angle = <Everywhere as Sample<Angle, StdRng>>::sample(&Everywhere, rng);
        Pose2d { position, angle }
    }
}

} // verus!
