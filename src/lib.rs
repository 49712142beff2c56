//! Sampling-based motion planning: a k-d tree nearest-neighbor map and a
//! rapidly-exploring random tree planner built on top of it.

pub mod env;
pub mod geo;
pub mod metric;
pub mod nn;
pub mod sample;
pub mod space;
pub mod time;

pub use metric::Metric;
pub use nn::NearestNeighborsMap;

use vstd::prelude::*;

verus! {

/// A predicate telling which configurations and transitions are free.
pub trait Validate<C> {
    /// Whether `c` is a valid configuration.
    spec fn valid_configuration(&self, c: C) -> bool;

    /// Whether moving from `start` to `end` is a valid transition.
    spec fn valid_transition(&self, start: C, end: C) -> bool;

    /// Decide whether `c` is a valid configuration.
    fn is_valid_configuration(&self, c: &C) -> (r: bool)
        ensures
            r == self.valid_configuration(*c),
    ;

    /// Decide whether moving from `start` to `end` is a valid transition.
    fn is_valid_transition(&self, start: &C, end: &C) -> (r: bool)
        ensures
            r == self.valid_transition(*start, *end),
    ;
}

/// A validator for unconstrained problems: everything is valid.
#[derive(Clone, Copy, Debug, PartialEq, Eq, Default)]
pub struct AlwaysValid;

impl<C> Validate<C> for AlwaysValid {
    open spec fn valid_configuration(&self, c: C) -> bool {
        true
    }

    open spec fn valid_transition(&self, start: C, end: C) -> bool {
        true
    }

    fn is_valid_configuration(&self, _c: &C) -> (r: bool) {
        true
    }

    fn is_valid_transition(&self, _start: &C, _end: &C) -> (r: bool) {
        true
    }
}

/// Steering from one configuration toward another.
pub trait Interpolate: Sized {
    /// The distance that a single step is measured by.
    spec fn step_dist(self, other: Self) -> nat;

    /// Whether `x` is where a step from `self` toward `end`, bounded by `radius`,
    /// stops: on the way from `self` to `end`, as far along as the radius allows.
    spec fn is_step_toward(self, end: Self, radius: nat, x: Self) -> bool;

    /// Attempt to grow from `self` to `end`.
    ///
    /// Returns `Ok(end)` if `self` and `end` are within `radius` of one another.
    /// Otherwise returns `Err(x)`, where `x` is within `radius` of `self`, along the
    /// direction toward `end`, and closer to `end` than `self` unless no step fits.
    fn interpolate(&self, end: &Self, radius: u128) -> (r: Result<Self, Self>)
        ensures
            r is Ok <==> self.step_dist(*end) <= radius,
            r matches Ok(e) ==> e == *end,
            r matches Err(x) ==> {
                &&& self.step_dist(x) <= radius
                &&& self.is_step_toward(*end, radius as nat, x)
                &&& x != *self ==> x.step_dist(*end) < self.step_dist(*end)
            },
    ;
}

/// Where one step from `from` toward `target`, bounded by `radius`, may end.
pub open spec fn steers_to<C: Interpolate>(from: C, target: C, radius: nat, x: C) -> bool {
    if from.step_dist(target) <= radius {
        x == target
    } else {
        from.is_step_toward(target, radius, x)
    }
}

/// A sampler for a configuration.
///
/// `C` is the type of the configuration, and `RNG` is a source of randomness.
pub trait Sample<C, RNG> {
    /// Whether the sampler describes a non-empty set to draw from.
    spec fn sample_ready(&self) -> bool;

    /// Whether `c` is a possible outcome of sampling.
    spec fn may_sample(&self, c: C) -> bool;

    /// Sample a configuration, using `rng` as a source of randomness.
    fn sample(&self, rng: &mut RNG) -> (r: C)
        requires
            self.sample_ready(),
        ensures
            self.may_sample(r),
    ;
}

/// A policy that decides when a planner should stop, fed by the planner's telemetry.
pub trait Timeout: Sized {
    /// Whether the verdict of `is_over` is a function of the policy's own state
    /// (and not, for instance, of a clock).
    spec fn is_exact(self) -> bool;

    /// The verdict of `is_over`, where it is exact.
    spec fn spec_is_over(self) -> bool;

    /// The policy after `n` more samples were drawn.
    spec fn after_samples(self, n: nat) -> Self;

    /// The policy after `n` more nodes were added.
    spec fn after_nodes(self, n: nat) -> Self;

    /// Whether the planner should stop now.
    fn is_over(&self) -> (r: bool)
        ensures
            self.is_exact() ==> r == self.spec_is_over(),
    ;

    /// Count `n` more attempted samples of the configuration space, valid or not.
    fn update_sample_count(&mut self, n: usize)
        ensures
            *final(self) == old(self).after_samples(n as nat),
    ;

    /// Count `n` more nodes in the configuration-space graph (valid samples only).
    fn update_node_count(&mut self, n: usize)
        ensures
            *final(self) == old(self).after_nodes(n as nat),
    ;
}

} // verus!
