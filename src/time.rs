//! Termination policies for planners.

use vstd::prelude::*;

use core::time::Duration;
use std::time::Instant;

pub use crate::Timeout;

verus! {

#[verifier::external_type_specification]
#[verifier::external_body]
pub struct ExInstant(Instant);

/// Relies on `Instant::now`: the current reading of the monotonic clock.
#[verifier::external_body]
fn instant_now() -> Instant {
    Instant::now()
}

/// Relies on `Instant::checked_add`: the instant `d` after `t`, or `None` when that
/// cannot be represented.
#[verifier::external_body]
fn instant_after(t: &Instant, d: Duration) -> Option<Instant> {
    t.checked_add(d)
}

/// Relies on `Instant`'s `PartialOrd`: whether `now` is at or after `deadline`.
#[verifier::external_body]
fn instant_reached(now: &Instant, deadline: &Instant) -> bool {
    now >= deadline
}

/// Relies on `Duration::from_secs`: a duration of `s` whole seconds.
#[verifier::external_body]
fn duration_from_secs(s: u64) -> Duration {
    Duration::from_secs(s)
}

/// A composite timeout: over as soon as any of its parts is over. Updates are
/// passed on to every part.
pub struct Any<T>(pub T);

/// A timeout that is never over.
#[derive(Clone, Copy, Debug, PartialEq, Eq, Default)]
pub struct Forever;

/// A timeout that is over once a number of samples has been drawn.
#[derive(Clone, Copy, Debug, PartialEq, Eq)]
pub struct LimitSamples {
    current: usize,
    limit: usize,
}

/// A timeout that is over once a number of nodes has been added.
#[derive(Clone, Copy, Debug, PartialEq, Eq)]
pub struct LimitNodes {
    current: usize,
    limit: usize,
}

/// A timeout that is over once a wall-clock deadline has passed.
///
/// A deadline too far in the future to be represented never passes.
pub struct Alarm(Option<Instant>);

/// `a + b`, or `usize::MAX` when that does not fit.
pub open spec fn saturating_sum(a: usize, b: nat) -> usize {
    if a + b > usize::MAX {
        usize::MAX
    } else {
        (a + b) as usize
    }
}

/// A policy after a run of planner iterations: each iteration counts one sample,
/// and then one node when that iteration added a node (`added[i]`).
pub open spec fn replay<T: Timeout>(t: T, added: Seq<bool>) -> T
    decreases added.len(),
{
    if added.len() == 0 {
        t
    } else {
        let sampled = replay(t, added.drop_last()).after_samples(1);
        if added.last() {
            sampled.after_nodes(1)
        } else {
            sampled
        }
    }
}

/// Whether, before each iteration of the run `added`, the policy (where its verdict
/// is exact) was not over: every iteration ran only after a poll said to go on.
pub open spec fn polled_not_over<T: Timeout>(t: T, added: Seq<bool>) -> bool {
    forall|k: int|
        0 <= k < added.len() ==> (#[trigger] replay(t, added.take(k))).is_exact() ==> !replay(
            t,
            added.take(k),
        ).spec_is_over()
}

/// Extending a polled run by an iteration that started from a policy that was not over.
pub proof fn lemma_polled_push<T: Timeout>(t: T, added: Seq<bool>, b: bool)
    requires
        polled_not_over(t, added),
        replay(t, added).is_exact() ==> !replay(t, added).spec_is_over(),
    ensures
        polled_not_over(t, added.push(b)),
{
    assert forall|k: int|
        0 <= k < added.push(b).len() && (#[trigger] replay(t, added.push(b).take(k))).is_exact()
            implies !replay(t, added.push(b).take(k)).spec_is_over() by {
        if k < added.len() {
            assert(added.push(b).take(k) =~= added.take(k));
        } else {
            assert(added.push(b).take(k) =~= added);
        }
    }
}

/// A node limit that was polled before each iteration of a run, starting from no
/// nodes, counts at most its limit: a run adds at most `limit` nodes.
pub proof fn lemma_node_limit_bounds_run(n: LimitNodes, added: Seq<bool>)
    requires
        n.spec_current() == 0,
        polled_not_over(n, added),
    ensures
        count_added(added) <= n.spec_limit(),
{
    if added.len() > 0 {
        let k = added.len() - 1;
        assert(added.take(k) =~= added.drop_last());
        lemma_samples_keep_up_with_nodes(LimitSamples { current: 0, limit: 0 }, n, added.drop_last());
        assert(replay(n, added.take(k)).is_exact());
        assert(!replay(n, added.take(k)).spec_is_over());
        let c = count_added(added.drop_last());
        assert(replay(n, added.drop_last()).spec_current() == saturating_sum(0, c));
        assert(c < n.spec_limit());
        assert(count_added(added) <= c + 1);
    }
}

/// The number of iterations in `added` that added a node.
pub open spec fn count_added(added: Seq<bool>) -> nat
    decreases added.len(),
{
    if added.len() == 0 {
        0
    } else {
        count_added(added.drop_last()) + if added.last() {
            1nat
        } else {
            0nat
        }
    }
}

/// No run adds more nodes than it has iterations.
pub proof fn lemma_count_added_bound(added: Seq<bool>)
    ensures
        count_added(added) <= added.len(),
    decreases added.len(),
{
    if added.len() > 0 {
        lemma_count_added_bound(added.drop_last());
    }
}

/// Fed the same planner run, a sample limit never counts fewer than a node limit
/// that started from the same count: samples always keep up with nodes.
pub proof fn lemma_samples_keep_up_with_nodes(s: LimitSamples, n: LimitNodes, added: Seq<bool>)
    requires
        s.spec_current() >= n.spec_current(),
    ensures
        replay(s, added).spec_current() >= replay(n, added).spec_current(),
        replay(s, added).spec_current() == saturating_sum(s.spec_current(), added.len()),
        replay(n, added).spec_current() == saturating_sum(n.spec_current(), count_added(added)),
        replay(s, added).spec_limit() == s.spec_limit(),
        replay(n, added).spec_limit() == n.spec_limit(),
    decreases added.len(),
{
    if added.len() > 0 {
        lemma_samples_keep_up_with_nodes(s, n, added.drop_last());
        lemma_count_added_bound(added.drop_last());
    }
}

impl LimitNodes {
    /// The number of nodes counted so far.
    pub closed spec fn spec_current(self) -> usize {
        self.current
    }

    /// The number of nodes at which the timeout is over.
    pub closed spec fn spec_limit(self) -> usize {
        self.limit
    }

    /// Counting nodes adds to the count, up to `usize::MAX`, and keeps the limit.
    pub proof fn lemma_after_nodes(self, n: nat)
        ensures
            self.after_nodes(n).spec_current() == saturating_sum(self.spec_current(), n),
            self.after_nodes(n).spec_limit() == self.spec_limit(),
            self.after_samples(n) == self,
    {
    }

    /// A timeout that is over after `n` nodes.
    pub fn new(n: usize) -> (r: Self)
        ensures
            r.spec_current() == 0,
            r.spec_limit() == n,
    {
        LimitNodes { current: 0, limit: n }
    }
}

impl LimitSamples {
    /// The number of samples counted so far.
    pub closed spec fn spec_current(self) -> usize {
        self.current
    }

    /// The number of samples at which the timeout is over.
    pub closed spec fn spec_limit(self) -> usize {
        self.limit
    }

    /// Counting samples adds to the count, up to `usize::MAX`, and keeps the limit.
    pub proof fn lemma_after_samples(self, n: nat)
        ensures
            self.after_samples(n).spec_current() == saturating_sum(self.spec_current(), n),
            self.after_samples(n).spec_limit() == self.spec_limit(),
            self.after_nodes(n) == self,
    {
    }

    /// A timeout that is over after `n` samples.
    pub fn new(n: usize) -> (r: Self)
        ensures
            r.spec_current() == 0,
            r.spec_limit() == n,
    {
        LimitSamples { current: 0, limit: n }
    }
}

impl Alarm {
    /// The deadline, if it can be represented.
    pub closed spec fn deadline(self) -> Option<Instant> {
        self.0
    }

    /// An alarm that goes off at `t`.
    pub fn ending_at(t: Instant) -> (r: Self)
        ensures
            r.deadline() == Some(t),
    {
        Alarm(Some(t))
    }

    /// An alarm that goes off `d` from now.
    pub fn from_now(d: Duration) -> Self {
        let now = instant_now();
        Alarm(instant_after(&now, d))
    }

    /// An alarm that goes off `s` seconds from now.
    pub fn secs_from_now(s: u64) -> Self {
        Alarm::from_now(duration_from_secs(s))
    }
}

impl<R: Timeout> core::ops::BitOr<R> for Forever {
    type Output = Any<(Forever, R)>;

    fn bitor(self, rhs: R) -> Self::Output {
        Any((self, rhs))
    }
}

impl<R: Timeout> vstd::std_specs::ops::BitOrSpecImpl<R> for Forever {
    open spec fn obeys_bitor_spec() -> bool {
        true
    }

    open spec fn bitor_req(self, rhs: R) -> bool {
        true
    }

    open spec fn bitor_spec(self, rhs: R) -> Any<(Forever, R)> {
        Any((self, rhs))
    }
}

impl<R: Timeout> core::ops::BitOr<R> for LimitSamples {
    type Output = Any<(LimitSamples, R)>;

    fn bitor(self, rhs: R) -> Self::Output {
        Any((self, rhs))
    }
}

impl<R: Timeout> vstd::std_specs::ops::BitOrSpecImpl<R> for LimitSamples {
    open spec fn obeys_bitor_spec() -> bool {
        true
    }

    open spec fn bitor_req(self, rhs: R) -> bool {
        true
    }

    open spec fn bitor_spec(self, rhs: R) -> Any<(LimitSamples, R)> {
        Any((self, rhs))
    }
}

impl<R: Timeout> core::ops::BitOr<R> for LimitNodes {
    type Output = Any<(LimitNodes, R)>;

    fn bitor(self, rhs: R) -> Self::Output {
        Any((self, rhs))
    }
}

impl<R: Timeout> vstd::std_specs::ops::BitOrSpecImpl<R> for LimitNodes {
    open spec fn obeys_bitor_spec() -> bool {
        true
    }

    open spec fn bitor_req(self, rhs: R) -> bool {
        true
    }

    open spec fn bitor_spec(self, rhs: R) -> Any<(LimitNodes, R)> {
        Any((self, rhs))
    }
}

impl<R: Timeout> core::ops::BitOr<R> for Alarm {
    type Output = Any<(Alarm, R)>;

    fn bitor(self, rhs: R) -> Self::Output {
        Any((self, rhs))
    }
}

impl<R: Timeout> vstd::std_specs::ops::BitOrSpecImpl<R> for Alarm {
    open spec fn obeys_bitor_spec() -> bool {
        true
    }

    open spec fn bitor_req(self, rhs: R) -> bool {
        true
    }

    open spec fn bitor_spec(self, rhs: R) -> Any<(Alarm, R)> {
        Any((self, rhs))
    }
}

impl Timeout for Forever {
    open spec fn is_exact(self) -> bool {
        true
    }

    open spec fn spec_is_over(self) -> bool {
        false
    }

    open spec fn after_samples(self, n: nat) -> Self {
        self
    }

    open spec fn after_nodes(self, n: nat) -> Self {
        self
    }

    fn is_over(&self) -> (r: bool) {
        false
    }

    fn update_sample_count(&mut self, _n: usize) {
    }

    fn update_node_count(&mut self, _n: usize) {
    }
}

impl Timeout for LimitNodes {
    open spec fn is_exact(self) -> bool {
        true
    }

    open spec fn spec_is_over(self) -> bool {
        self.spec_current() >= self.spec_limit()
    }

    open spec fn after_samples(self, n: nat) -> Self {
        self
    }

    closed spec fn after_nodes(self, n: nat) -> Self {
        LimitNodes { current: saturating_sum(self.current, n), limit: self.limit }
    }

    fn is_over(&self) -> (r: bool) {
        self.current >= self.limit
    }

    fn update_sample_count(&mut self, _n: usize) {
    }

    fn update_node_count(&mut self, n: usize) {
        self.current = self.current.saturating_add(n);
    }
}

impl Timeout for LimitSamples {
    open spec fn is_exact(self) -> bool {
        true
    }

    open spec fn spec_is_over(self) -> bool {
        self.spec_current() >= self.spec_limit()
    }

    closed spec fn after_samples(self, n: nat) -> Self {
        LimitSamples { current: saturating_sum(self.current, n), limit: self.limit }
    }

    open spec fn after_nodes(self, n: nat) -> Self {
        self
    }

    fn is_over(&self) -> (r: bool) {
        self.current >= self.limit
    }

    fn update_sample_count(&mut self, n: usize) {
        self.current = self.current.saturating_add(n);
    }

    fn update_node_count(&mut self, _n: usize) {
    }
}

impl Timeout for Alarm {
    open spec fn is_exact(self) -> bool {
        false
    }

    open spec fn spec_is_over(self) -> bool {
        false
    }

    open spec fn after_samples(self, n: nat) -> Self {
        self
    }

    open spec fn after_nodes(self, n: nat) -> Self {
        self
    }

    fn is_over(&self) -> (r: bool) {
        match &self.0 {
            Some(deadline) => {
                let now = instant_now();
                instant_reached(&now, deadline)
            },
            None => false,
        }
    }

    fn update_sample_count(&mut self, _n: usize) {
    }

    fn update_node_count(&mut self, _n: usize) {
    }
}

impl Timeout for Any<()> {
    open spec fn is_exact(self) -> bool {
        true
    }

    open spec fn spec_is_over(self) -> bool {
        false
    }

    open spec fn after_samples(self, n: nat) -> Self {
        self
    }

    open spec fn after_nodes(self, n: nat) -> Self {
        self
    }

    fn is_over(&self) -> (r: bool) {
        false
    }

    fn update_sample_count(&mut self, _n: usize) {
    }

    fn update_node_count(&mut self, _n: usize) {
    }
}

impl<A: Timeout, B: Timeout, C: Timeout, D: Timeout> Timeout for Any<(A, B, C, D)> {
    open spec fn is_exact(self) -> bool {
        self.0.0.is_exact() && self.0.1.is_exact() && self.0.2.is_exact() && self.0.3.is_exact()
    }

    open spec fn spec_is_over(self) -> bool {
        self.0.0.spec_is_over() || self.0.1.spec_is_over() || self.0.2.spec_is_over() || self.0.3.spec_is_over()
    }

    open spec fn after_samples(self, n: nat) -> Self {
        Any((self.0.0.after_samples(n), self.0.1.after_samples(n), self.0.2.after_samples(n), self.0.3.after_samples(n)))
    }

    open spec fn after_nodes(self, n: nat) -> Self {
        Any((self.0.0.after_nodes(n), self.0.1.after_nodes(n), self.0.2.after_nodes(n), self.0.3.after_nodes(n)))
    }

    fn is_over(&self) -> (r: bool) {
        self.0.0.is_over() || self.0.1.is_over() || self.0.2.is_over() || self.0.3.is_over()
    }

    fn update_sample_count(&mut self, n: usize) {
        self.0.0.update_sample_count(n);
        self.0.1.update_sample_count(n);
        self.0.2.update_sample_count(n);
        self.0.3.update_sample_count(n);
    }

    fn update_node_count(&mut self, n: usize) {
        self.0.0.update_node_count(n);
        self.0.1.update_node_count(n);
        self.0.2.update_node_count(n);
        self.0.3.update_node_count(n);
    }
}

impl<A: Timeout, B: Timeout, C: Timeout, D: Timeout, E: Timeout> Timeout for Any<(A, B, C, D, E)> {
    open spec fn is_exact(self) -> bool {
        self.0.0.is_exact() && self.0.1.is_exact() && self.0.2.is_exact() && self.0.3.is_exact() && self.0.4.is_exact()
    }

    open spec fn spec_is_over(self) -> bool {
        self.0.0.spec_is_over() || self.0.1.spec_is_over() || self.0.2.spec_is_over() || self.0.3.spec_is_over() || self.0.4.spec_is_over()
    }

    open spec fn after_samples(self, n: nat) -> Self {
        Any((self.0.0.after_samples(n), self.0.1.after_samples(n), self.0.2.after_samples(n), self.0.3.after_samples(n), self.0.4.after_samples(n)))
    }

    open spec fn after_nodes(self, n: nat) -> Self {
        Any((self.0.0.after_nodes(n), self.0.1.after_nodes(n), self.0.2.after_nodes(n), self.0.3.after_nodes(n), self.0.4.after_nodes(n)))
    }

    fn is_over(&self) -> (r: bool) {
        self.0.0.is_over() || self.0.1.is_over() || self.0.2.is_over() || self.0.3.is_over() || self.0.4.is_over()
    }

    fn update_sample_count(&mut self, n: usize) {
        self.0.0.update_sample_count(n);
        self.0.1.update_sample_count(n);
        self.0.2.update_sample_count(n);
        self.0.3.update_sample_count(n);
        self.0.4.update_sample_count(n);
    }

    fn update_node_count(&mut self, n: usize) {
        self.0.0.update_node_count(n);
        self.0.1.update_node_count(n);
        self.0.2.update_node_count(n);
        self.0.3.update_node_count(n);
        self.0.4.update_node_count(n);
    }
}

impl<A: Timeout, B: Timeout, C: Timeout, D: Timeout, E: Timeout, F: Timeout> Timeout for Any<(A, B, C, D, E, F)> {
    open spec fn is_exact(self) -> bool {
        self.0.0.is_exact() && self.0.1.is_exact() && self.0.2.is_exact() && self.0.3.is_exact() && self.0.4.is_exact() && self.0.5.is_exact()
    }

    open spec fn spec_is_over(self) -> bool {
        self.0.0.spec_is_over() || self.0.1.spec_is_over() || self.0.2.spec_is_over() || self.0.3.spec_is_over() || self.0.4.spec_is_over() || self.0.5.spec_is_over()
    }

    open spec fn after_samples(self, n: nat) -> Self {
        Any((self.0.0.after_samples(n), self.0.1.after_samples(n), self.0.2.after_samples(n), self.0.3.after_samples(n), self.0.4.after_samples(n), self.0.5.after_samples(n)))
    }

    open spec fn after_nodes(self, n: nat) -> Self {
        Any((self.0.0.after_nodes(n), self.0.1.after_nodes(n), self.0.2.after_nodes(n), self.0.3.after_nodes(n), self.0.4.after_nodes(n), self.0.5.after_nodes(n)))
    }

    fn is_over(&self) -> (r: bool) {
        self.0.0.is_over() || self.0.1.is_over() || self.0.2.is_over() || self.0.3.is_over() || self.0.4.is_over() || self.0.5.is_over()
    }

    fn update_sample_count(&mut self, n: usize) {
        self.0.0.update_sample_count(n);
        self.0.1.update_sample_count(n);
        self.0.2.update_sample_count(n);
        self.0.3.update_sample_count(n);
        self.0.4.update_sample_count(n);
        self.0.5.update_sample_count(n);
    }

    fn update_node_count(&mut self, n: usize) {
        self.0.0.update_node_count(n);
        self.0.1.update_node_count(n);
        self.0.2.update_node_count(n);
        self.0.3.update_node_count(n);
        self.0.4.update_node_count(n);
        self.0.5.update_node_count(n);
    }
}

impl<A: Timeout, B: Timeout, C: Timeout, D: Timeout, E: Timeout, F: Timeout, G: Timeout> Timeout for Any<(A, B, C, D, E, F, G)> {
    open spec fn is_exact(self) -> bool {
        self.0.0.is_exact() && self.0.1.is_exact() && self.0.2.is_exact() && self.0.3.is_exact() && self.0.4.is_exact() && self.0.5.is_exact() && self.0.6.is_exact()
    }

    open spec fn spec_is_over(self) -> bool {
        self.0.0.spec_is_over() || self.0.1.spec_is_over() || self.0.2.spec_is_over() || self.0.3.spec_is_over() || self.0.4.spec_is_over() || self.0.5.spec_is_over() || self.0.6.spec_is_over()
    }

    open spec fn after_samples(self, n: nat) -> Self {
        Any((self.0.0.after_samples(n), self.0.1.after_samples(n), self.0.2.after_samples(n), self.0.3.after_samples(n), self.0.4.after_samples(n), self.0.5.after_samples(n), self.0.6.after_samples(n)))
    }

    open spec fn after_nodes(self, n: nat) -> Self {
        Any((self.0.0.after_nodes(n), self.0.1.after_nodes(n), self.0.2.after_nodes(n), self.0.3.after_nodes(n), self.0.4.after_nodes(n), self.0.5.after_nodes(n), self.0.6.after_nodes(n)))
    }

    fn is_over(&self) -> (r: bool) {
        self.0.0.is_over() || self.0.1.is_over() || self.0.2.is_over() || self.0.3.is_over() || self.0.4.is_over() || self.0.5.is_over() || self.0.6.is_over()
    }

    fn update_sample_count(&mut self, n: usize) {
        self.0.0.update_sample_count(n);
        self.0.1.update_sample_count(n);
        self.0.2.update_sample_count(n);
        self.0.3.update_sample_count(n);
        self.0.4.update_sample_count(n);
        self.0.5.update_sample_count(n);
        self.0.6.update_sample_count(n);
    }

    fn update_node_count(&mut self, n: usize) {
        self.0.0.update_node_count(n);
        self.0.1.update_node_count(n);
        self.0.2.update_node_count(n);
        self.0.3.update_node_count(n);
        self.0.4.update_node_count(n);
        self.0.5.update_node_count(n);
        self.0.6.update_node_count(n);
    }
}

impl<A: Timeout, B: Timeout, C: Timeout, D: Timeout, E: Timeout, F: Timeout, G: Timeout, H: Timeout> Timeout for Any<(A, B, C, D, E, F, G, H)> {
    open spec fn is_exact(self) -> bool {
        self.0.0.is_exact() && self.0.1.is_exact() && self.0.2.is_exact() && self.0.3.is_exact() && self.0.4.is_exact() && self.0.5.is_exact() && self.0.6.is_exact() && self.0.7.is_exact()
    }

    open spec fn spec_is_over(self) -> bool {
        self.0.0.spec_is_over() || self.0.1.spec_is_over() || self.0.2.spec_is_over() || self.0.3.spec_is_over() || self.0.4.spec_is_over() || self.0.5.spec_is_over() || self.0.6.spec_is_over() || self.0.7.spec_is_over()
    }

    open spec fn after_samples(self, n: nat) -> Self {
        Any((self.0.0.after_samples(n), self.0.1.after_samples(n), self.0.2.after_samples(n), self.0.3.after_samples(n), self.0.4.after_samples(n), self.0.5.after_samples(n), self.0.6.after_samples(n), self.0.7.after_samples(n)))
    }

    open spec fn after_nodes(self, n: nat) -> Self {
        Any((self.0.0.after_nodes(n), self.0.1.after_nodes(n), self.0.2.after_nodes(n), self.0.3.after_nodes(n), self.0.4.after_nodes(n), self.0.5.after_nodes(n), self.0.6.after_nodes(n), self.0.7.after_nodes(n)))
    }

    fn is_over(&self) -> (r: bool) {
        self.0.0.is_over() || self.0.1.is_over() || self.0.2.is_over() || self.0.3.is_over() || self.0.4.is_over() || self.0.5.is_over() || self.0.6.is_over() || self.0.7.is_over()
    }

    fn update_sample_count(&mut self, n: usize) {
        self.0.0.update_sample_count(n);
        self.0.1.update_sample_count(n);
        self.0.2.update_sample_count(n);
        self.0.3.update_sample_count(n);
        self.0.4.update_sample_count(n);
        self.0.5.update_sample_count(n);
        self.0.6.update_sample_count(n);
        self.0.7.update_sample_count(n);
    }

    fn update_node_count(&mut self, n: usize) {
        self.0.0.update_node_count(n);
        self.0.1.update_node_count(n);
        self.0.2.update_node_count(n);
        self.0.3.update_node_count(n);
        self.0.4.update_node_count(n);
        self.0.5.update_node_count(n);
        self.0.6.update_node_count(n);
        self.0.7.update_node_count(n);
    }
}

impl<A: Timeout, B: Timeout, C: Timeout, D: Timeout, E: Timeout, F: Timeout, G: Timeout, H: Timeout, I: Timeout> Timeout for Any<(A, B, C, D, E, F, G, H, I)> {
    open spec fn is_exact(self) -> bool {
        self.0.0.is_exact() && self.0.1.is_exact() && self.0.2.is_exact() && self.0.3.is_exact() && self.0.4.is_exact() && self.0.5.is_exact() && self.0.6.is_exact() && self.0.7.is_exact() && self.0.8.is_exact()
    }

    open spec fn spec_is_over(self) -> bool {
        self.0.0.spec_is_over() || self.0.1.spec_is_over() || self.0.2.spec_is_over() || self.0.3.spec_is_over() || self.0.4.spec_is_over() || self.0.5.spec_is_over() || self.0.6.spec_is_over() || self.0.7.spec_is_over() || self.0.8.spec_is_over()
    }

    open spec fn after_samples(self, n: nat) -> Self {
        Any((self.0.0.after_samples(n), self.0.1.after_samples(n), self.0.2.after_samples(n), self.0.3.after_samples(n), self.0.4.after_samples(n), self.0.5.after_samples(n), self.0.6.after_samples(n), self.0.7.after_samples(n), self.0.8.after_samples(n)))
    }

    open spec fn after_nodes(self, n: nat) -> Self {
        Any((self.0.0.after_nodes(n), self.0.1.after_nodes(n), self.0.2.after_nodes(n), self.0.3.after_nodes(n), self.0.4.after_nodes(n), self.0.5.after_nodes(n), self.0.6.after_nodes(n), self.0.7.after_nodes(n), self.0.8.after_nodes(n)))
    }

    fn is_over(&self) -> (r: bool) {
        self.0.0.is_over() || self.0.1.is_over() || self.0.2.is_over() || self.0.3.is_over() || self.0.4.is_over() || self.0.5.is_over() || self.0.6.is_over() || self.0.7.is_over() || self.0.8.is_over()
    }

    fn update_sample_count(&mut self, n: usize) {
        self.0.0.update_sample_count(n);
        self.0.1.update_sample_count(n);
        self.0.2.update_sample_count(n);
        self.0.3.update_sample_count(n);
        self.0.4.update_sample_count(n);
        self.0.5.update_sample_count(n);
        self.0.6.update_sample_count(n);
        self.0.7.update_sample_count(n);
        self.0.8.update_sample_count(n);
    }

    fn update_node_count(&mut self, n: usize) {
        self.0.0.update_node_count(n);
        self.0.1.update_node_count(n);
        self.0.2.update_node_count(n);
        self.0.3.update_node_count(n);
        self.0.4.update_node_count(n);
        self.0.5.update_node_count(n);
        self.0.6.update_node_count(n);
        self.0.7.update_node_count(n);
        self.0.8.update_node_count(n);
    }
}

impl<A: Timeout, B: Timeout, C: Timeout, D: Timeout, E: Timeout, F: Timeout, G: Timeout, H: Timeout, I: Timeout, J: Timeout> Timeout for Any<(A, B, C, D, E, F, G, H, I, J)> {
    open spec fn is_exact(self) -> bool {
        self.0.0.is_exact() && self.0.1.is_exact() && self.0.2.is_exact() && self.0.3.is_exact() && self.0.4.is_exact() && self.0.5.is_exact() && self.0.6.is_exact() && self.0.7.is_exact() && self.0.8.is_exact() && self.0.9.is_exact()
    }

    open spec fn spec_is_over(self) -> bool {
        self.0.0.spec_is_over() || self.0.1.spec_is_over() || self.0.2.spec_is_over() || self.0.3.spec_is_over() || self.0.4.spec_is_over() || self.0.5.spec_is_over() || self.0.6.spec_is_over() || self.0.7.spec_is_over() || self.0.8.spec_is_over() || self.0.9.spec_is_over()
    }

    open spec fn after_samples(self, n: nat) -> Self {
        Any((self.0.0.after_samples(n), self.0.1.after_samples(n), self.0.2.after_samples(n), self.0.3.after_samples(n), self.0.4.after_samples(n), self.0.5.after_samples(n), self.0.6.after_samples(n), self.0.7.after_samples(n), self.0.8.after_samples(n), self.0.9.after_samples(n)))
    }

    open spec fn after_nodes(self, n: nat) -> Self {
        Any((self.0.0.after_nodes(n), self.0.1.after_nodes(n), self.0.2.after_nodes(n), self.0.3.after_nodes(n), self.0.4.after_nodes(n), self.0.5.after_nodes(n), self.0.6.after_nodes(n), self.0.7.after_nodes(n), self.0.8.after_nodes(n), self.0.9.after_nodes(n)))
    }

    fn is_over(&self) -> (r: bool) {
        self.0.0.is_over() || self.0.1.is_over() || self.0.2.is_over() || self.0.3.is_over() || self.0.4.is_over() || self.0.5.is_over() || self.0.6.is_over() || self.0.7.is_over() || self.0.8.is_over() || self.0.9.is_over()
    }

    fn update_sample_count(&mut self, n: usize) {
        self.0.0.update_sample_count(n);
        self.0.1.update_sample_count(n);
        self.0.2.update_sample_count(n);
        self.0.3.update_sample_count(n);
        self.0.4.update_sample_count(n);
        self.0.5.update_sample_count(n);
        self.0.6.update_sample_count(n);
        self.0.7.update_sample_count(n);
        self.0.8.update_sample_count(n);
        self.0.9.update_sample_count(n);
    }

    fn update_node_count(&mut self, n: usize) {
        self.0.0.update_node_count(n);
        self.0.1.update_node_count(n);
        self.0.2.update_node_count(n);
        self.0.3.update_node_count(n);
        self.0.4.update_node_count(n);
        self.0.5.update_node_count(n);
        self.0.6.update_node_count(n);
        self.0.7.update_node_count(n);
        self.0.8.update_node_count(n);
        self.0.9.update_node_count(n);
    }
}

impl<A: Timeout> Timeout for Any<(A,)> {
    open spec fn is_exact(self) -> bool {
        self.0.0.is_exact()
    }

    open spec fn spec_is_over(self) -> bool {
        self.0.0.spec_is_over()
    }

    open spec fn after_samples(self, n: nat) -> Self {
        Any((self.0.0.after_samples(n),))
    }

    open spec fn after_nodes(self, n: nat) -> Self {
        Any((self.0.0.after_nodes(n),))
    }

    fn is_over(&self) -> (r: bool) {
        self.0.0.is_over()
    }

    fn update_sample_count(&mut self, n: usize) {
        self.0.0.update_sample_count(n);
    }

    fn update_node_count(&mut self, n: usize) {
        self.0.0.update_node_count(n);
    }
}

impl<A: Timeout, B: Timeout> Timeout for Any<(A, B)> {
    open spec fn is_exact(self) -> bool {
        self.0.0.is_exact() && self.0.1.is_exact()
    }

    open spec fn spec_is_over(self) -> bool {
        self.0.0.spec_is_over() || self.0.1.spec_is_over()
    }

    open spec fn after_samples(self, n: nat) -> Self {
        Any((self.0.0.after_samples(n), self.0.1.after_samples(n)))
    }

    open spec fn after_nodes(self, n: nat) -> Self {
        Any((self.0.0.after_nodes(n), self.0.1.after_nodes(n)))
    }

    fn is_over(&self) -> (r: bool) {
        self.0.0.is_over() || self.0.1.is_over()
    }

    fn update_sample_count(&mut self, n: usize) {
        self.0.0.update_sample_count(n);
        self.0.1.update_sample_count(n);
    }

    fn update_node_count(&mut self, n: usize) {
        self.0.0.update_node_count(n);
        self.0.1.update_node_count(n);
    }
}

impl<A: Timeout, B: Timeout, C: Timeout> Timeout for Any<(A, B, C)> {
    open spec fn is_exact(self) -> bool {
        self.0.0.is_exact() && self.0.1.is_exact() && self.0.2.is_exact()
    }

    open spec fn spec_is_over(self) -> bool {
        self.0.0.spec_is_over() || self.0.1.spec_is_over() || self.0.2.spec_is_over()
    }

    open spec fn after_samples(self, n: nat) -> Self {
        Any((self.0.0.after_samples(n), self.0.1.after_samples(n), self.0.2.after_samples(n)))
    }

    open spec fn after_nodes(self, n: nat) -> Self {
        Any((self.0.0.after_nodes(n), self.0.1.after_nodes(n), self.0.2.after_nodes(n)))
    }

    fn is_over(&self) -> (r: bool) {
        self.0.0.is_over() || self.0.1.is_over() || self.0.2.is_over()
    }

    fn update_sample_count(&mut self, n: usize) {
        self.0.0.update_sample_count(n);
        self.0.1.update_sample_count(n);
        self.0.2.update_sample_count(n);
    }

    fn update_node_count(&mut self, n: usize) {
        self.0.0.update_node_count(n);
        self.0.1.update_node_count(n);
        self.0.2.update_node_count(n);
    }
}

} // verus!
