//! Geometric planners.

use vstd::prelude::*;

use crate::nn::NearestNeighborsMap;
use crate::time::{count_added, lemma_count_added_bound, lemma_polled_push, polled_not_over, replay};
use crate::{steers_to, Interpolate, Sample, Timeout, Validate};

verus! {

struct RrtNode<C> {
    config: C,
    parent: Option<usize>,
}

/// A rapidly-exploring random tree.
///
/// Nodes are stored in an append-only sequence; each non-root node refers to its
/// parent by index.
pub struct Rrt<'a, C, NN, VAL> {
    root: C,
    nodes: Vec<RrtNode<C>>,
    nn: NN,
    valid: &'a VAL,
    samples: usize,
}

impl<'a, C: Interpolate + Copy, NN: NearestNeighborsMap<C, usize>, VAL: Validate<C>> Rrt<'a, C, NN, VAL> {
    /// The configuration the tree grows from.
    pub closed spec fn spec_root(self) -> C {
        self.root
    }

    /// The number of nodes in the tree, the root included.
    pub closed spec fn spec_num_nodes(self) -> nat {
        self.nodes@.len()
    }

    /// The configuration of node `i`.
    pub closed spec fn spec_config(self, i: int) -> C {
        self.nodes@[i].config
    }

    /// The parent of node `i` (`None` for the root).
    pub closed spec fn spec_parent(self, i: int) -> Option<usize> {
        self.nodes@[i].parent
    }

    /// The number of samples drawn so far.
    pub closed spec fn spec_num_samples(self) -> nat {
        self.samples as nat
    }

    /// The validator that every node was checked against.
    pub closed spec fn validator(self) -> VAL {
        *self.valid
    }

    /// The nearest-neighbor map indexing the nodes.
    pub closed spec fn spec_map(self) -> NN {
        self.nn
    }

    /// The tree's invariant: the root is node 0; every other node has an earlier
    /// parent, is valid, and is reached from its parent by a valid transition; the
    /// map holds exactly each node's configuration keyed to its index; and no more
    /// nodes were added than samples were drawn.
    pub closed spec fn wf(self) -> bool {
        &&& self.nodes@.len() >= 1
        &&& self.nodes@[0].config == self.root
        &&& self.nodes@[0].parent is None
        &&& forall|i: int|
            1 <= i < self.nodes@.len() ==> {
                let p = (#[trigger] self.nodes@[i]).parent;
                &&& p matches Some(pi) && pi < i
                &&& self.valid.valid_configuration(self.nodes@[i].config)
                &&& self.valid.valid_transition(
                    self.nodes@[p.unwrap() as int].config,
                    self.nodes@[i].config,
                )
            }
        &&& self.nn.map_wf()
        &&& self.nn.contents() == Self::index_set(self.nodes@)
        &&& self.nodes@.len() <= self.samples + 1
    }

    spec fn step_within(nodes: Seq<RrtNode<C>>, i: int, radius: nat) -> bool {
        nodes[nodes[i].parent.unwrap() as int].config.step_dist(nodes[i].config) <= radius
    }

    spec fn index_set(nodes: Seq<RrtNode<C>>) -> Set<(C, usize)> {
        Set::new(|e: (C, usize)| e.1 < nodes.len() && e.0 == nodes[e.1 as int].config)
    }

    /// The indices of the nodes from the root down to node `i`.
    pub closed spec fn chain(self, i: int) -> Seq<int>
        decreases i,
    {
        if 0 < i < self.nodes@.len() && self.nodes@[i].parent is Some
            && self.nodes@[i].parent.unwrap() < i {
            self.chain(self.nodes@[i].parent.unwrap() as int).push(i)
        } else {
            seq![i]
        }
    }

    /// The configurations from the root down to node `i`.
    pub open spec fn spec_path(self, i: int) -> Seq<C> {
        self.chain(i).map_values(|j: int| self.spec_config(j))
    }

    /// Construct a planner growing from `root`, indexing its nodes with `nn`.
    ///
    /// The root is inserted into the map right away.
    pub fn new(root: C, nn: NN, valid: &'a VAL) -> (r: Self)
        requires
            nn.map_wf(),
            nn.contents() == Set::<(C, usize)>::empty(),
        ensures
            r.wf(),
            r.spec_root() == root,
            r.spec_num_nodes() == 1,
            r.spec_num_samples() == 0,
            r.validator() == *valid,
    {
        let mut nn = nn;
        nn.insert(root, 0);
        let mut nodes: Vec<RrtNode<C>> = Vec::new();
        nodes.push(RrtNode { config: root, parent: None });
        let r = Rrt { root, nodes, nn, valid, samples: 0 };
        assert(r.nn.contents() =~= Self::index_set(r.nodes@));
        r
    }

    /// Whether node `i` is a node nearest to `target`, by the map's distance.
    pub open spec fn is_nearest_node(self, i: int, target: C) -> bool {
        &&& 0 <= i < self.spec_num_nodes()
        &&& forall|j: int|
            0 <= j < self.spec_num_nodes() ==> self.spec_map().key_dist(self.spec_config(i), target)
                <= self.spec_map().key_dist(#[trigger] self.spec_config(j), target)
    }

    /// One growth step toward `target`, which was drawn beforehand.
    ///
    /// Steers from a node nearest to `target` by at most `radius`, and adds the
    /// resulting configuration as that node's child when it and the transition to it
    /// are valid. Returns the path to the new node when the step was `aimed_at_goal`
    /// and arrived at `target`.
    pub fn step(&mut self, target: C, aimed_at_goal: bool, radius: u128) -> (r: Option<Vec<C>>)
        requires
            old(self).wf(),
            old(self).spec_num_nodes() <= old(self).spec_num_samples(),
        ensures
            final(self).wf(),
            final(self).spec_root() == old(self).spec_root(),
            final(self).validator() == old(self).validator(),
            final(self).spec_num_samples() == old(self).spec_num_samples(),
            forall|a: C, b: C|
                #[trigger] final(self).spec_map().key_dist(a, b) == old(self).spec_map().key_dist(a, b),
            forall|i: int|
                0 <= i < old(self).spec_num_nodes() ==> final(self).spec_config(i) == old(
                    self,
                ).spec_config(i) && final(self).spec_parent(i) == old(self).spec_parent(i),
            final(self).spec_num_nodes() == old(self).spec_num_nodes() || final(self).spec_num_nodes()
                == old(self).spec_num_nodes() + 1,
            final(self).spec_num_nodes() == old(self).spec_num_nodes() + 1 ==> {
                let n = old(self).spec_num_nodes() as int;
                let p = final(self).spec_parent(n).unwrap() as int;
                &&& old(self).is_nearest_node(p, target)
                &&& steers_to(old(self).spec_config(p), target, radius as nat, final(self).spec_config(n))
                &&& old(self).spec_config(p).step_dist(final(self).spec_config(n)) <= radius
            },
            final(self).spec_num_nodes() == old(self).spec_num_nodes() ==> exists|p: int, x: C|
                {
                    &&& old(self).is_nearest_node(p, target)
                    &&& steers_to(old(self).spec_config(p), target, radius as nat, x)
                    &&& !(old(self).validator().valid_configuration(x) && old(
                        self,
                    ).validator().valid_transition(old(self).spec_config(p), x))
                },
            r is Some <==> (final(self).spec_num_nodes() == old(self).spec_num_nodes() + 1
                && aimed_at_goal && old(self).spec_config(
                final(self).spec_parent(old(self).spec_num_nodes() as int).unwrap() as int,
            ).step_dist(target) <= radius),
            r matches Some(path) ==> path@ == final(self).spec_path(
                old(self).spec_num_nodes() as int,
            ),
    {
        proof {
            assert(self.nn.contents().contains((self.root, 0usize)));
        }
        let idx: usize = match self.nn.nearest(&target) {
            Some((_, v)) => *v,
            None => {
                proof {
                    assert(Set::<(C, usize)>::empty().contains((self.root, 0usize)));
                }
                0
            },
        };
        proof {
            assert forall|j: int| 0 <= j < self.spec_num_nodes() implies self.spec_map().key_dist(
                self.spec_config(idx as int),
                target,
            ) <= self.spec_map().key_dist(#[trigger] self.spec_config(j), target) by {
                assert(self.nn.contents().contains((self.nodes@[j].config, j as usize)));
            }
        }
        let from = self.nodes[idx].config;
        let (new_config, arrived) = match from.interpolate(&target, radius) {
            Ok(c) => (c, true),
            Err(c) => (c, false),
        };
        if !(self.valid.is_valid_configuration(&new_config) && self.valid.is_valid_transition(
            &from,
            &new_config,
        )) {
            assert(self.is_nearest_node(idx as int, target));
            assert(steers_to(self.spec_config(idx as int), target, radius as nat, new_config));
            return None;
        }
        let n = self.nodes.len();
        let ghost before = self.nodes@;
        let ghost head = *self;
        self.nodes.push(RrtNode { config: new_config, parent: Some(idx) });
        self.nn.insert(new_config, n);
        proof {
            assert(self.nodes@ == before.push(RrtNode { config: new_config, parent: Some(idx) }));
            assert(self.nn.contents() =~= Self::index_set(self.nodes@));
            assert forall|i: int| 1 <= i < self.nodes@.len() implies {
                let p = (#[trigger] self.nodes@[i]).parent;
                &&& p matches Some(pi) && pi < i
                &&& self.valid.valid_configuration(self.nodes@[i].config)
                &&& self.valid.valid_transition(
                    self.nodes@[p.unwrap() as int].config,
                    self.nodes@[i].config,
                )
            } by {
                if i < n {
                    assert(self.nodes@[i] == before[i]);
                }
            }
            assert(self.wf());
            assert(head.is_nearest_node(idx as int, target));
        }
        if arrived && aimed_at_goal {
            let path = self.path_to(n);
            Some(path)
        } else {
            None
        }
    }

    /// Grow the tree toward `goal`.
    ///
    /// Each iteration first consults `timeout` and stops when it is over; then draws
    /// from `goal_bias` whether to aim for `goal` itself, and otherwise draws a target
    /// from `sample_goal`; counts the sample; and takes one [`Rrt::step`] toward the
    /// target, counting the node if one was added. Growth succeeds when a step aimed
    /// at `goal` arrives there, and returns the path from the root to it. The planner
    /// also stops, as if timed out, once its sample counter is full.
    pub fn grow_toward<S, T, B, RNG>(
        &mut self,
        sample_goal: &S,
        goal: &C,
        radius: u128,
        timeout: &mut T,
        goal_bias: &B,
        rng: &mut RNG,
    ) -> (res: Option<Vec<C>>)
        where
            S: Sample<C, RNG>,
            T: Timeout,
            B: Sample<bool, RNG>,
        requires
            old(self).wf(),
            sample_goal.sample_ready(),
            goal_bias.sample_ready(),
        ensures
            final(self).wf(),
            final(self).spec_root() == old(self).spec_root(),
            final(self).validator() == old(self).validator(),
            final(self).spec_num_nodes() >= old(self).spec_num_nodes(),
            forall|i: int|
                0 <= i < old(self).spec_num_nodes() ==> final(self).spec_config(i) == old(
                    self,
                ).spec_config(i) && final(self).spec_parent(i) == old(self).spec_parent(i),
            forall|i: int|
                old(self).spec_num_nodes() <= i < final(self).spec_num_nodes() ==> (
                #[trigger] final(self).spec_config(final(self).spec_parent(i).unwrap() as int)).step_dist(
                    final(self).spec_config(i),
                ) <= radius,
            final(self).spec_num_nodes() - old(self).spec_num_nodes() <= final(self).spec_num_samples()
                - old(self).spec_num_samples(),
            exists|added: Seq<bool>|
                {
                    &&& *final(timeout) == replay(*old(timeout), added)
                    &&& added.len() == final(self).spec_num_samples() - old(self).spec_num_samples()
                    &&& count_added(added) == final(self).spec_num_nodes() - old(
                        self,
                    ).spec_num_nodes()
                    &&& polled_not_over(*old(timeout), added)
                },
            res is None ==> final(self).spec_num_samples() == usize::MAX || (
            final(timeout).is_exact() ==> final(timeout).spec_is_over()),
            res matches Some(path) ==> {
                &&& final(self).spec_num_nodes() > old(self).spec_num_nodes()
                &&& path@ == final(self).spec_path(final(self).spec_num_nodes() - 1)
                &&& final(self).spec_config(final(self).spec_num_nodes() - 1) == *goal
                &&& path@.len() >= 1
                &&& path@[0] == final(self).spec_root()
                &&& path@.last() == *goal
            },
            res matches Some(path) ==> old(self).spec_num_nodes() == 1 ==> forall|j: int|
                0 <= j < path@.len() - 1 ==> (#[trigger] path@[j]).step_dist(path@[j + 1])
                    <= radius,
            (forall|a: C, b: C| !#[trigger] old(self).validator().valid_transition(a, b))
                ==> res is None,
    {
        let ghost old_len = self.nodes@.len();
        let ghost old_samples = self.samples as nat;
        let ghost old_nodes = self.nodes@;
        let ghost added: Seq<bool> = Seq::empty();
        loop
            invariant_except_break
                sample_goal.sample_ready(),
                goal_bias.sample_ready(),
                old_len == old(self).nodes@.len(),
                old_len >= 1,
                old_samples == old(self).samples,
                old_nodes == old(self).nodes@,
                self.wf(),
                self.root == old(self).root,
                self.valid == old(self).valid,
                self.nodes@.len() >= old_len,
                forall|i: int| 0 <= i < old_len ==> #[trigger] self.nodes@[i] == old_nodes[i],
                forall|i: int|
                    old_len <= i < self.nodes@.len() ==> #[trigger] Self::step_within(
                        self.nodes@,
                        i,
                        radius as nat,
                    ),
                self.nodes@.len() - old_len <= self.samples - old_samples,
                *timeout == replay(*old(timeout), added),
                added.len() == self.samples - old_samples,
                count_added(added) == self.nodes@.len() - old_len,
                polled_not_over(*old(timeout), added),
            ensures
                old_len == old(self).nodes@.len(),
                old_len >= 1,
                old_samples == old(self).samples,
                old_nodes == old(self).nodes@,
                self.wf(),
                self.root == old(self).root,
                self.valid == old(self).valid,
                self.nodes@.len() >= old_len,
                forall|i: int| 0 <= i < old_len ==> #[trigger] self.nodes@[i] == old_nodes[i],
                forall|i: int|
                    old_len <= i < self.nodes@.len() ==> #[trigger] Self::step_within(
                        self.nodes@,
                        i,
                        radius as nat,
                    ),
                self.nodes@.len() - old_len <= self.samples - old_samples,
                *timeout == replay(*old(timeout), added),
                added.len() == self.samples - old_samples,
                count_added(added) == self.nodes@.len() - old_len,
                polled_not_over(*old(timeout), added),
                self.samples == usize::MAX || (timeout.is_exact() ==> timeout.spec_is_over()),
            decreases usize::MAX - self.samples,
        {
            if timeout.is_over() || self.samples == usize::MAX {
                break;
            }
            let ghost polled = *timeout;
            let fired = goal_bias.sample(rng);
            let target = if fired {
                *goal
            } else {
                sample_goal.sample(rng)
            };
            timeout.update_sample_count(1);
            self.samples = self.samples + 1;
            let n = self.nodes.len();
            let ghost before = self.nodes@;
            let res = self.step(target, fired, radius);
            proof {
                lemma_polled_push(*old(timeout), added, true);
                lemma_polled_push(*old(timeout), added, false);
                assert(added.push(false).drop_last() =~= added);
                assert(added.push(true).drop_last() =~= added);
                assert forall|i: int| 0 <= i < n implies #[trigger] self.nodes@[i] == before[i] by {
                    assert(self.spec_config(i) == before[i].config);
                    assert(self.spec_parent(i) == before[i].parent);
                }
            }
            if self.nodes.len() > n {
                timeout.update_node_count(1);
                proof {
                    added = added.push(true);
                }
            } else {
                proof {
                    added = added.push(false);
                }
            }
            proof {
                assert forall|i: int| 0 <= i < old_len implies #[trigger] self.nodes@[i] == old_nodes[i] by {
                    assert(self.nodes@[i] == before[i]);
                }
                assert forall|i: int|
                    old_len <= i < self.nodes@.len() implies #[trigger] Self::step_within(
                        self.nodes@,
                        i,
                        radius as nat,
                    ) by {
                    if i < n {
                        assert(self.nodes@[i] == before[i]);
                        assert(Self::step_within(before, i, radius as nat));
                        let pi = before[i].parent.unwrap() as int;
                        assert(self.nodes@[pi] == before[pi]);
                    } else {
                        assert(i == n);
                        let pi = self.nodes@[i].parent.unwrap() as int;
                        assert(self.spec_config(pi) == before[pi].config);
                    }
                }
            }
            if res.is_some() {
                proof {
                    lemma_count_added_bound(added);
                    self.lemma_path_parent_chain(n as int);
                    assert(self.spec_config(n as int) == *goal);
                    if old_len == 1 {
                        assert forall|k: int|
                            1 <= k < self.spec_num_nodes() implies (#[trigger] self.spec_config(
                                self.spec_parent(k).unwrap() as int,
                            )).step_dist(self.spec_config(k)) <= radius by {
                            assert(Self::step_within(self.nodes@, k, radius as nat));
                        }
                        self.lemma_path_steps_within(n as int, radius as nat);
                    }
                    let p = self.nodes@[n as int].parent.unwrap() as int;
                    assert(old(self).validator().valid_transition(self.nodes@[p].config, self.nodes@[n as int].config));
                    assert forall|i: int|
                        old_len <= i < self.spec_num_nodes() implies (#[trigger] self.spec_config(
                            self.spec_parent(i).unwrap() as int,
                        )).step_dist(self.spec_config(i)) <= radius by {
                        assert(Self::step_within(self.nodes@, i, radius as nat));
                    }
                }
                return res;
            }
        }
        proof {
            lemma_count_added_bound(added);
            assert forall|i: int|
                old_len <= i < self.spec_num_nodes() implies (#[trigger] self.spec_config(
                    self.spec_parent(i).unwrap() as int,
                )).step_dist(self.spec_config(i)) <= radius by {
                assert(Self::step_within(self.nodes@, i, radius as nat));
            }
            if forall|a: C, b: C| !#[trigger] old(self).validator().valid_transition(a, b) {
                if self.nodes@.len() > 1 {
                    let p = self.nodes@[1].parent.unwrap() as int;
                    assert(self.validator().valid_transition(self.nodes@[p].config, self.nodes@[1].config));
                }
            }
        }
        None
    }

    /// A path starts at the root, ends at its node, and each of its nodes is the
    /// parent of the next.
    pub proof fn lemma_path_parent_chain(self, i: int)
        requires
            self.wf(),
            0 <= i < self.spec_num_nodes(),
        ensures
            self.chain(i).len() >= 1,
            self.chain(i)[0] == 0,
            self.chain(i).last() == i,
            self.spec_path(i)[0] == self.spec_root(),
            self.spec_path(i).last() == self.spec_config(i),
            forall|j: int| 0 <= j < self.chain(i).len() ==> 0 <= #[trigger] self.chain(i)[j] < self.spec_num_nodes(),
            forall|j: int|
                0 <= j < self.chain(i).len() - 1 ==> self.spec_parent(#[trigger] self.chain(i)[j + 1])
                    == Some(self.chain(i)[j] as usize),
        decreases i,
    {
        if i > 0 {
            assert(self.nodes@[i].parent is Some);
            let p = self.nodes@[i].parent.unwrap() as int;
            self.lemma_path_parent_chain(p);
            assert(self.chain(i) == self.chain(p).push(i));
            assert forall|j: int| 0 <= j < self.chain(i).len() - 1 implies self.spec_parent(
                #[trigger] self.chain(i)[j + 1],
            ) == Some(self.chain(i)[j] as usize) by {
                if j + 1 < self.chain(p).len() {
                    assert(self.chain(i)[j + 1] == self.chain(p)[j + 1]);
                }
            }
            assert forall|j: int| 0 <= j < self.chain(i).len() implies 0 <= #[trigger] self.chain(i)[j] < self.spec_num_nodes() by {
                if j < self.chain(p).len() {
                    assert(self.chain(i)[j] == self.chain(p)[j]);
                }
            }
        } else {
            assert(self.chain(0) == seq![0int]);
        }
    }

    /// When every edge of the tree is within `radius`, so is every step of every path.
    pub proof fn lemma_path_steps_within(self, i: int, radius: nat)
        requires
            self.wf(),
            0 <= i < self.spec_num_nodes(),
            forall|k: int|
                1 <= k < self.spec_num_nodes() ==> (#[trigger] self.spec_config(
                    self.spec_parent(k).unwrap() as int,
                )).step_dist(self.spec_config(k)) <= radius,
        ensures
            forall|j: int|
                0 <= j < self.spec_path(i).len() - 1 ==> (#[trigger] self.spec_path(i)[j]).step_dist(
                    self.spec_path(i)[j + 1],
                ) <= radius,
    {
        self.lemma_path_parent_chain(i);
        let c = self.chain(i);
        assert forall|j: int| 0 <= j < self.spec_path(i).len() - 1 implies (
        #[trigger] self.spec_path(i)[j]).step_dist(self.spec_path(i)[j + 1]) <= radius by {
            let k = c[j + 1];
            assert(self.spec_parent(k) == Some(c[j] as usize));
            assert(0 <= c[j]);
            assert(1 <= k) by {
                if k == 0 {
                    assert(self.nodes@[0].parent is None);
                }
            }
            assert(self.spec_path(i)[j] == self.spec_config(c[j]));
            assert(self.spec_path(i)[j + 1] == self.spec_config(k));
        }
    }

    /// A validator that rejects every transition leaves the root alone in the tree.
    pub proof fn lemma_rejecting_validator_keeps_root(self)
        requires
            self.wf(),
            forall|a: C, b: C| !#[trigger] self.validator().valid_transition(a, b),
        ensures
            self.spec_num_nodes() == 1,
    {
        if self.nodes@.len() > 1 {
            let p = self.nodes@[1].parent.unwrap() as int;
            assert(self.validator().valid_transition(self.nodes@[p].config, self.nodes@[1].config));
        }
    }

    /// Nodes are only ever added for drawn samples: apart from the root, there are
    /// never more nodes than samples.
    pub proof fn lemma_samples_bound_nodes(self)
        requires
            self.wf(),
        ensures
            self.spec_num_nodes() <= self.spec_num_samples() + 1,
    {
    }

    /// The number of nodes in the tree, the root included.
    pub fn num_nodes(&self) -> (r: usize)
        ensures
            r == self.spec_num_nodes(),
    {
        self.nodes.len()
    }

    /// The nearest-neighbor map indexing the nodes: each node's configuration keyed
    /// to its index.
    pub fn map(&self) -> (r: &NN)
        ensures
            *r == self.spec_map(),
    {
        &self.nn
    }

    /// The number of samples drawn so far.
    pub fn num_samples(&self) -> (r: usize)
        ensures
            r == self.spec_num_samples(),
    {
        self.samples
    }

    /// The configurations from the root down to node `i`.
    pub fn path_to(&self, i: usize) -> (r: Vec<C>)
        requires
            self.wf(),
            i < self.spec_num_nodes(),
        ensures
            r@ == self.spec_path(i as int),
    {
        let mut cur: usize = i;
        let mut rev: Vec<C> = Vec::new();
        let ghost tail: Seq<int> = Seq::empty();
        while self.nodes[cur].parent.is_some()
            invariant
                self.wf(),
                cur < self.nodes@.len(),
                i < self.nodes@.len(),
                self.chain(i as int) == self.chain(cur as int) + tail,
                rev@ == tail.reverse().map_values(|j: int| self.spec_config(j)),
            decreases cur,
        {
            let p = self.nodes[cur].parent.unwrap();
            proof {
                let ii = cur as int;
                assert(self.nodes@[ii].parent == Some(p));
                assert(self.chain(ii) == self.chain(p as int).push(ii));
                assert(self.chain(ii) + tail =~= self.chain(p as int) + seq![ii].add(tail));
                assert(seq![ii].add(tail).reverse() =~= tail.reverse().push(ii));
                assert(tail.reverse().push(ii).map_values(|j: int| self.spec_config(j))
                    =~= tail.reverse().map_values(|j: int| self.spec_config(j)).push(self.spec_config(ii)));
                tail = seq![ii].add(tail);
            }
            rev.push(self.nodes[cur].config);
            cur = p;
        }
        proof {
            assert(cur == 0) by {
                if cur != 0 {
                    let ii = cur as int;
                    assert(1 <= ii < self.nodes@.len());
                    assert(self.nodes@[ii].parent is Some);
                }
            }
            assert(self.chain(0) == seq![0int]);
        }
        let mut out: Vec<C> = Vec::new();
        out.push(self.root);
        let mut k: usize = rev.len();
        while k > 0
            invariant
                k <= rev@.len(),
                rev@ == tail.reverse().map_values(|j: int| self.spec_config(j)),
                self.wf(),
                out@ == seq![self.spec_config(0)] + tail.subrange(0, tail.len() - k).map_values(|j: int| self.spec_config(j)),
                tail.len() == rev@.len(),
            decreases k,
        {
            k = k - 1;
            out.push(rev[k]);
            proof {
                let n = tail.len();
                assert(rev@[k as int] == self.spec_config(tail[n - 1 - k]));
                assert(tail.subrange(0, n - k).map_values(|j: int| self.spec_config(j))
                    =~= tail.subrange(0, n - (k + 1)).map_values(|j: int| self.spec_config(j)).push(self.spec_config(tail[n - 1 - k])));
            }
        }
        proof {
            assert(tail.subrange(0, tail.len() as int) =~= tail);
            assert(self.chain(i as int) =~= seq![0int] + tail);
            assert(out@ =~= self.spec_path(i as int));
        }
        out
    }
}

} // verus!
