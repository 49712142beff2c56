//! Nearest-neighbor search.

use vstd::multiset::Multiset;
use vstd::prelude::*;

use crate::metric::Metric;

verus! {

/// A key-value map which is capable of nearest-neighbor search.
pub trait NearestNeighborsMap<K, V> {
    /// The entries stored in the map.
    spec fn contents(&self) -> Set<(K, V)>;

    /// The map's internal invariant.
    spec fn map_wf(&self) -> bool;

    /// The distance between keys that `nearest` minimises.
    spec fn key_dist(&self, a: K, b: K) -> nat;

    /// Insert a key into the map.
    fn insert(&mut self, key: K, value: V)
        requires
            old(self).map_wf(),
        ensures
            final(self).map_wf(),
            final(self).contents() == old(self).contents().insert((key, value)),
            forall|a: K, b: K| #[trigger] final(self).key_dist(a, b) == old(self).key_dist(a, b),
    ;

    /// Get the nearest element of the space to this key.
    fn nearest<'q>(&'q self, key: &K) -> (r: Option<(&'q K, &'q V)>)
        requires
            self.map_wf(),
        ensures
            r is None <==> self.contents() == Set::<(K, V)>::empty(),
            r matches Some((k, v)) ==> self.contents().contains((*k, *v)),
            r matches Some((k, v)) ==> forall|e: (K, V)|
                #[trigger] self.contents().contains(e) ==> self.key_dist(*k, *key) <= self.key_dist(
                    e.0,
                    *key,
                ),
    ;
}

/// A key-value map which is capable of range nearest-neighbor search.
pub trait RangeNearestNeighborsMap<K, V>: NearestNeighborsMap<K, V> {
    /// The values of the entries whose key lies within distance `r` of `q`, one for
    /// each such entry.
    spec fn within(&self, q: K, r: nat) -> Multiset<V>;

    /// Get all items in `self` within range `r` of `key`.
    fn nearest_within_r<'q>(&'q self, key: &'q K, r: u128) -> (res: RangeNearest<'q, V>)
        requires
            self.map_wf(),
        ensures
            res.remaining() == self.within(*key, r as nat),
    ;
}

/// The ordering of two integers.
pub open spec fn int_cmp(a: int, b: int) -> core::cmp::Ordering {
    if a < b {
        core::cmp::Ordering::Less
    } else if a == b {
        core::cmp::Ordering::Equal
    } else {
        core::cmp::Ordering::Greater
    }
}

/// The trait required to use a key in a [`KdTreeMap`].
///
/// A key is modelled as a point with one integer coordinate per axis.
pub trait KdKey: Copy + Sized {
    /// The dimension of the space.
    spec fn spec_dimension() -> nat;

    /// The value of `self` along axis `k`.
    spec fn axis(self, k: nat) -> int;

    /// The dimension of the space.
    fn dimension() -> (d: usize)
        ensures
            d as nat == Self::spec_dimension(),
    ;

    /// Compare `self` to `rhs` by their value along axis `k`.
    fn compare(&self, rhs: &Self, k: usize) -> (o: core::cmp::Ordering)
        requires
            k < Self::spec_dimension(),
        ensures
            o == int_cmp(self.axis(k as nat), rhs.axis(k as nat)),
    ;

    /// Assign `self[k] = src[k]`.
    fn assign(&mut self, src: &Self, k: usize)
        requires
            k < Self::spec_dimension(),
        ensures
            final(self).axis(k as nat) == src.axis(k as nat),
            forall|j: nat|
                j < Self::spec_dimension() && j != k ==> #[trigger] final(self).axis(j) == old(
                    self,
                ).axis(j),
    ;

    /// Get a configuration containing the lowest representable configuration by all axes.
    fn lower_bound() -> (r: Self)
        ensures
            forall|c: Self, j: nat| j < Self::spec_dimension() ==> r.axis(j) <= #[trigger] c.axis(j),
    ;

    /// Get a configuration containing the highest representable configuration by all axes.
    fn upper_bound() -> (r: Self)
        ensures
            forall|c: Self, j: nat| j < Self::spec_dimension() ==> #[trigger] c.axis(j) <= r.axis(j),
    ;
}

/// Whether `q` lies inside the closed box spanned by `lo` and `hi`.
pub open spec fn in_region<K: KdKey>(q: K, lo: K, hi: K) -> bool {
    forall|j: nat|
        j < K::spec_dimension() ==> lo.axis(j) <= #[trigger] q.axis(j) && q.axis(j) <= hi.axis(j)
}

/// A distance metric that can also return a point's distance to an AABB.
///
/// Required for [`KdTreeMap`].
pub trait DistanceAabb<C: KdKey>: Metric<C> {
    /// The distance between `c` and the AABB spanned by `lo` and `hi`.
    spec fn aabb_dist(&self, c: C, lo: C, hi: C) -> nat;

    /// The distance to an AABB is a lower bound on the distance to anything inside it.
    proof fn lemma_aabb_lower_bound(&self, c: C, lo: C, hi: C, q: C)
        requires
            in_region(q, lo, hi),
        ensures
            self.aabb_dist(c, lo, hi) <= self.dist(c, q),
    ;

    /// Compute the distance between `c` and an AABB whose lowest corner is `aabb_lo` and whose
    /// highest corner is `aabb_hi`.
    fn distance_to_aabb(&self, c: &C, aabb_lo: &C, aabb_hi: &C) -> (d: u128)
        ensures
            d as nat == self.aabb_dist(*c, *aabb_lo, *aabb_hi),
    ;
}

/// A prismatic region in a `K`-dimensional space.
#[derive(Clone, Copy, Debug, PartialEq, Eq)]
pub struct Region<C> {
    /// The "bottom-left" point in the region, containing the minimum value along each axis.
    pub lo: C,
    /// The "top-right" point in the region, containing the maximum value along each axis.
    pub hi: C,
}

struct Node<K, V> {
    key: K,
    value: V,
    left: Option<Box<Node<K, V>>>,
    right: Option<Box<Node<K, V>>>,
}

/// The axis that follows axis `k` in round-robin order.
pub open spec fn next_axis<K: KdKey>(k: nat) -> nat {
    if k + 1 >= K::spec_dimension() {
        0
    } else {
        k + 1
    }
}

impl<K: KdKey, V> Node<K, V> {
    spec fn entries(self) -> Set<(K, V)>
        decreases self,
    {
        set![(self.key, self.value)].union(Self::optional_entries(self.left)).union(
            Self::optional_entries(self.right),
        )
    }

    spec fn optional_entries(node: Option<Box<Node<K, V>>>) -> Set<(K, V)>
        decreases node,
    {
        match node {
            None => Set::empty(),
            Some(n) => n.entries(),
        }
    }

    /// The entries of the subtree, counted with multiplicity.
    spec fn items(self) -> Multiset<(K, V)>
        decreases self,
    {
        Multiset::singleton((self.key, self.value)).add(Self::optional_items(self.left)).add(
            Self::optional_items(self.right),
        )
    }

    spec fn optional_items(node: Option<Box<Node<K, V>>>) -> Multiset<(K, V)>
        decreases node,
    {
        match node {
            None => Multiset::empty(),
            Some(n) => n.items(),
        }
    }

    /// The subtree after inserting `(key, value)` by the k-d descent from split axis
    /// `k`: right when `self.key` is at most `key` on the axis, left otherwise, until
    /// an empty slot takes a new leaf.
    spec fn spec_insert(self, key: K, value: V, k: nat) -> Node<K, V>
        decreases self,
    {
        if self.key.axis(k) <= key.axis(k) {
            Node {
                key: self.key,
                value: self.value,
                left: self.left,
                right: Self::optional_insert(self.right, key, value, next_axis::<K>(k)),
            }
        } else {
            Node {
                key: self.key,
                value: self.value,
                left: Self::optional_insert(self.left, key, value, next_axis::<K>(k)),
                right: self.right,
            }
        }
    }

    spec fn optional_insert(node: Option<Box<Node<K, V>>>, key: K, value: V, k: nat) -> Option<
        Box<Node<K, V>>,
    >
        decreases node,
    {
        match node {
            None => Some(Box::new(Node { key, value, left: None, right: None })),
            Some(n) => Some(Box::new(n.spec_insert(key, value, k))),
        }
    }

    /// The values of the subtree's entries within distance `r` of `q`, one for each
    /// such entry.
    spec fn within_items<M: Metric<K>>(self, metric: M, q: K, r: nat) -> Multiset<V>
        decreases self,
    {
        (if metric.dist(q, self.key) <= r {
            Multiset::singleton(self.value)
        } else {
            Multiset::empty()
        }).add(Self::optional_within(self.left, metric, q, r)).add(
            Self::optional_within(self.right, metric, q, r),
        )
    }

    spec fn optional_within<M: Metric<K>>(
        node: Option<Box<Node<K, V>>>,
        metric: M,
        q: K,
        r: nat,
    ) -> Multiset<V>
        decreases node,
    {
        match node {
            None => Multiset::empty(),
            Some(n) => n.within_items(metric, q, r),
        }
    }

    proof fn lemma_within_empty<M: Metric<K>>(self, metric: M, q: K, r: nat)
        requires
            forall|e: (K, V)| #[trigger] self.entries().contains(e) ==> metric.dist(q, e.0) > r,
        ensures
            self.within_items(metric, q, r) =~= Multiset::<V>::empty(),
        decreases self,
    {
        assert(self.entries().contains((self.key, self.value)));
        match self.left {
            Some(n) => {
                assert forall|e: (K, V)| #[trigger] n.entries().contains(e) implies metric.dist(q, e.0) > r by {
                    assert(self.entries().contains(e));
                }
                n.lemma_within_empty(metric, q, r);
            },
            None => {},
        }
        match self.right {
            Some(n) => {
                assert forall|e: (K, V)| #[trigger] n.entries().contains(e) implies metric.dist(q, e.0) > r by {
                    assert(self.entries().contains(e));
                }
                n.lemma_within_empty(metric, q, r);
            },
            None => {},
        }
    }

    /// Entries strictly below `self`.
    spec fn below(self) -> Set<(K, V)> {
        Self::optional_entries(self.left).union(Self::optional_entries(self.right))
    }

    /// The k-d ordering: a node at split axis `k` has smaller keys on its left
    /// and greater-or-equal keys on its right, recursively.
    spec fn wf(self, k: nat) -> bool
        decreases self,
    {
        &&& k < K::spec_dimension()
        &&& forall|e: (K, V)|
            #[trigger] Self::optional_entries(self.left).contains(e) ==> e.0.axis(k) < self.key.axis(
                k,
            )
        &&& forall|e: (K, V)|
            #[trigger] Self::optional_entries(self.right).contains(e) ==> e.0.axis(k)
                >= self.key.axis(k)
        &&& Self::optional_wf(self.left, next_axis::<K>(k))
        &&& Self::optional_wf(self.right, next_axis::<K>(k))
    }

    spec fn optional_wf(node: Option<Box<Node<K, V>>>, k: nat) -> bool
        decreases node,
    {
        match node {
            None => true,
            Some(n) => n.wf(k),
        }
    }

    fn leaf(key: K, value: V) -> (r: Self)
        ensures
            r.key == key,
            r.value == value,
            r.left is None,
            r.right is None,
    {
        Node { key, value, left: None, right: None }
    }

    fn insert_into_optional(node: &mut Option<Box<Node<K, V>>>, key: K, value: V, k: usize)
        requires
            Self::optional_wf(*old(node), k as nat),
            k < K::spec_dimension(),
        ensures
            Self::optional_wf(*final(node), k as nat),
            Self::optional_entries(*final(node)) == Self::optional_entries(*old(node)).insert(
                (key, value),
            ),
            Self::optional_items(*final(node)) == Self::optional_items(*old(node)).insert(
                (key, value),
            ),
            *final(node) == Self::optional_insert(*old(node), key, value, k as nat),
        decreases *old(node),
    {
        match node.take() {
            None => {
                let leaf = Node::leaf(key, value);
                assert(Self::optional_entries(leaf.left) == Set::<(K, V)>::empty());
                assert(Self::optional_entries(leaf.right) == Set::<(K, V)>::empty());
                assert(leaf.entries() =~= set![(key, value)]);
                assert(Self::optional_wf(leaf.left, next_axis::<K>(k as nat)));
                assert(Self::optional_wf(leaf.right, next_axis::<K>(k as nat)));
                assert(leaf.wf(k as nat));
                *node = Some(Box::new(leaf));
                assert(Set::<(K, V)>::empty().insert((key, value)) =~= set![(key, value)]);
                assert(Self::optional_items(leaf.left) == Multiset::<(K, V)>::empty());
                assert(Self::optional_items(leaf.right) == Multiset::<(K, V)>::empty());
                assert(leaf.items() =~= Multiset::<(K, V)>::empty().insert((key, value)));
            },
            Some(mut boxed) => {
                (&mut *boxed).insert_at(key, value, k);
                *node = Some(boxed);
            },
        }
    }

    fn insert_at(&mut self, key: K, value: V, k: usize)
        requires
            old(self).wf(k as nat),
        ensures
            final(self).wf(k as nat),
            final(self).key == old(self).key,
            final(self).entries() == old(self).entries().insert((key, value)),
            final(self).items() == old(self).items().insert((key, value)),
            *final(self) == old(self).spec_insert(key, value, k as nat),
        decreases *old(self),
    {
        let d = K::dimension();
        let nk: usize = if k + 1 >= d {
            0
        } else {
            k + 1
        };
        let goes_right = match self.key.compare(&key, k) {
            core::cmp::Ordering::Greater => false,
            _ => true,
        };
        if goes_right {
            Self::insert_into_optional(&mut self.right, key, value, nk);
        } else {
            Self::insert_into_optional(&mut self.left, key, value, nk);
        }
        assert(self.entries() =~= old(self).entries().insert((key, value)));
        assert(self.items() =~= old(self).items().insert((key, value)));
    }
}

/// A nearest-neighbor map backed by a _k_-d tree.
///
/// This implementation supports spaces of unusual topologies, since all geometric
/// reasoning is delegated to the metric's distance to an AABB.
pub struct KdTreeMap<K, V, M> {
    root: Option<Box<Node<K, V>>>,
    metric: M,
}

impl<K: KdKey, V, M> KdTreeMap<K, V, M> {
    /// The entries stored in the map.
    pub closed spec fn entries(self) -> Set<(K, V)> {
        Node::<K, V>::optional_entries(self.root)
    }

    /// The entries stored in the map, counted with multiplicity.
    pub closed spec fn items(self) -> Multiset<(K, V)> {
        Node::<K, V>::optional_items(self.root)
    }

    /// The map after inserting `(key, value)`: the tree gains one leaf at the first
    /// empty slot of the descent from the root that, at depth `d`, goes right when the
    /// node's key is at most `key` on axis `d mod D` (so equal keys go right) and left
    /// otherwise. Every existing node keeps its place, key and value.
    pub closed spec fn after_insert(self, key: K, value: V) -> Self {
        KdTreeMap { root: Node::<K, V>::optional_insert(self.root, key, value, 0), metric: self.metric }
    }

    /// The values of the entries whose key lies within distance `r` of `q`, one for
    /// each such entry.
    pub closed spec fn items_within(self, q: K, r: nat) -> Multiset<V>
        where M: Metric<K>
    {
        Node::<K, V>::optional_within(self.root, self.metric, q, r)
    }

    /// Inserting equal entries into equal maps gives equal maps: where an entry goes
    /// depends on the map and the entry alone, so equal insertion sequences build
    /// identical trees.
    pub proof fn lemma_insert_deterministic(m1: Self, m2: Self, key: K, value: V)
        requires
            m1 == m2,
        ensures
            m1.after_insert(key, value) == m2.after_insert(key, value),
    {
    }

    /// The metric the map searches with.
    pub closed spec fn spec_metric(self) -> M {
        self.metric
    }

    /// The map's internal k-d ordering holds.
    pub closed spec fn wf(self) -> bool {
        &&& K::spec_dimension() >= 1
        &&& Node::<K, V>::optional_wf(self.root, 0)
    }

    /// Construct a new `KdTreeMap` using the provided metric.
    pub fn new(metric: M) -> (r: Self)
        requires
            K::spec_dimension() >= 1,
        ensures
            r.wf(),
            r.entries() == Set::<(K, V)>::empty(),
            r.items() == Multiset::<(K, V)>::empty(),
            r.spec_metric() == metric,
    {
        KdTreeMap { root: None, metric }
    }

    /// Insert an entry; duplicate keys are kept.
    pub fn insert(&mut self, key: K, value: V)
        requires
            old(self).wf(),
        ensures
            final(self).wf(),
            final(self).entries() == old(self).entries().insert((key, value)),
            final(self).items() == old(self).items().insert((key, value)),
            *final(self) == old(self).after_insert(key, value),
            final(self).spec_metric() == old(self).spec_metric(),
    {
        Node::insert_into_optional(&mut self.root, key, value, 0);
    }
}

/// The values of the entries whose key lies within distance `r` of `q`.
pub open spec fn values_within<K, V, M: Metric<K>>(
    entries: Set<(K, V)>,
    metric: M,
    q: K,
    r: nat,
) -> Set<V> {
    Set::new(|v: V| exists|k: K| #[trigger] entries.contains((k, v)) && metric.dist(q, k) <= r)
}

/// The values of a sequence of references.
pub open spec fn deref_all<'a, V>(s: Seq<&'a V>) -> Set<V> {
    Set::new(|v: V| exists|i: int| 0 <= i < s.len() && *s[i] == v)
}

/// The values that a sequence of references points to, with multiplicity.
pub open spec fn values_of<'a, V>(s: Seq<&'a V>) -> Multiset<V> {
    s.map_values(|x: &'a V| *x).to_multiset()
}

proof fn lemma_values_of_push<'a, V>(s: Seq<&'a V>, v: &'a V)
    ensures
        values_of(s.push(v)) == values_of(s).insert(*v),
{
    broadcast use vstd::seq_lib::group_to_multiset_ensures;

    assert(s.push(v).map_values(|x: &'a V| *x) =~= s.map_values(|x: &'a V| *x).push(*v));
}

proof fn lemma_values_of_dom<'a, V>(s: Seq<&'a V>)
    ensures
        values_of(s).dom() == deref_all(s),
        values_of(s).len() == s.len(),
{
    broadcast use vstd::seq_lib::group_to_multiset_ensures;

    let m = s.map_values(|x: &'a V| *x);
    assert forall|x: V| values_of(s).dom().contains(x) <==> deref_all(s).contains(x) by {
        if m.contains(x) {
            let i = choose|i: int| 0 <= i < m.len() && m[i] == x;
            assert(*s[i] == x);
        }
        if deref_all(s).contains(x) {
            let i = choose|i: int| 0 <= i < s.len() && *s[i] == x;
            assert(m[i] == x);
        }
    }
    assert(values_of(s).dom() =~= deref_all(s));
}

/// All values within a fixed radius of a query point in a [`KdTreeMap`].
pub struct RangeNearest<'a, V> {
    items: Vec<&'a V>,
}

impl<'a, V> RangeNearest<'a, V> {
    /// The values not yet taken out, with multiplicity.
    pub closed spec fn remaining(self) -> Multiset<V> {
        values_of(self.items@)
    }

    /// The number of values not yet taken out.
    pub closed spec fn spec_len(self) -> nat {
        self.items@.len()
    }

    /// The count is the size of what remains.
    pub proof fn lemma_len(self)
        ensures
            self.spec_len() == self.remaining().len(),
    {
        lemma_values_of_dom(self.items@);
    }

    /// The number of values not yet taken out.
    pub fn len(&self) -> (r: usize)
        ensures
            r == self.spec_len(),
            r == self.remaining().len(),
    {
        proof {
            lemma_values_of_dom(self.items@);
        }
        self.items.len()
    }

    /// Take out the next value, if any is left.
    pub fn next(&mut self) -> (r: Option<&'a V>)
        ensures
            r is None <==> old(self).remaining().len() == 0,
            r is None ==> final(self).remaining() == old(self).remaining(),
            r matches Some(v) ==> old(self).remaining() == final(self).remaining().insert(*v),
            final(self).spec_len() == final(self).remaining().len(),
    {
        let ghost before = self.items@;
        let r = self.items.pop();
        proof {
            lemma_values_of_dom(before);
            lemma_values_of_dom(self.items@);
            match r {
                Some(v) => {
                    assert(before == self.items@.push(v));
                    lemma_values_of_push(self.items@, v);
                },
                None => {},
            }
        }
        r
    }
}

impl<K: KdKey, V, M: DistanceAabb<K>> KdTreeMap<K, V, M> {
    /// Get the entry whose key is nearest to `key`.
    ///
    /// Returns `None` exactly when the map is empty; otherwise an entry of the map
    /// whose distance to `key` is minimal among all entries.
    pub fn nearest<'q>(&'q self, key: &K) -> (r: Option<(&'q K, &'q V)>)
        requires
            self.wf(),
        ensures
            r is None <==> self.entries() == Set::<(K, V)>::empty(),
            r matches Some((k, v)) ==> {
                &&& self.entries().contains((*k, *v))
                &&& forall|e: (K, V)|
                    #[trigger] self.entries().contains(e) ==> self.spec_metric().dist(*k, *key)
                        <= self.spec_metric().dist(e.0, *key)
            },
    {
        match &self.root {
            None => None,
            Some(root) => {
                let root: &'q Node<K, V> = root;
                proof {
                    assert(root.entries().contains((root.key, root.value)));
                }
                let mut radius = self.metric.distance(&root.key, key);
                if self.metric.is_zero(&radius) {
                    return Some((&root.key, &root.value));
                }
                let lo = K::lower_bound();
                let hi = K::upper_bound();
                proof {
                    assert forall|e: (K, V)| root.entries().contains(e) implies in_region(e.0, lo, hi) by {
                        assert forall|j: nat| j < K::spec_dimension() implies lo.axis(j) <= #[trigger] e.0.axis(j)
                            && e.0.axis(j) <= hi.axis(j) by {
                        }
                    }
                }
                let found = self.nearest_help(root, key, lo, hi, &mut radius, 0);
                let best: &'q Node<K, V> = match found {
                    Some(n) => n,
                    None => root,
                };
                proof {
                    assert(root.entries().contains((best.key, best.value)));
                    assert forall|e: (K, V)| #[trigger] self.entries().contains(e) implies
                        self.metric.dist(best.key, *key) <= self.metric.dist(e.0, *key) by {
                        if e != (root.key, root.value) {
                            assert(root.below().contains(e));
                        }
                    }
                }
                Some((&best.key, &best.value))
            },
        }
    }

    /// All values whose key lies within distance `r` of `key`.
    pub fn nearest_within_r<'q>(&'q self, key: &'q K, r: u128) -> (res: RangeNearest<'q, V>)
        requires
            self.wf(),
        ensures
            res.remaining() == self.items_within(*key, r as nat),
            res.remaining().dom() == values_within(self.entries(), self.spec_metric(), *key, r as nat),
            res.spec_len() == res.remaining().len(),
    {
        let mut result: Vec<&'q V> = Vec::new();
        proof {
            broadcast use vstd::seq_lib::group_to_multiset_ensures;

            assert(values_of(result@) =~= Multiset::<V>::empty());
        }
        match &self.root {
            None => {
                assert(deref_all(result@) =~= values_within(self.entries(), self.metric, *key, r as nat));
            },
            Some(root) => {
                let root: &'q Node<K, V> = root;
                let lo = K::lower_bound();
                let hi = K::upper_bound();
                proof {
                    assert forall|e: (K, V)| root.entries().contains(e) implies in_region(e.0, lo, hi) by {
                        assert forall|j: nat| j < K::spec_dimension() implies lo.axis(j) <= #[trigger] e.0.axis(j)
                            && e.0.axis(j) <= hi.axis(j) by {
                        }
                    }
                    assert(deref_all(result@) =~= Set::<V>::empty());
                }
                self.nearest_r_help(key, &mut result, &r, root, lo, hi, 0);
                assert(deref_all(result@) =~= values_within(self.entries(), self.metric, *key, r as nat));
                assert(values_of(result@) =~= self.items_within(*key, r as nat));
            },
        }
        proof {
            lemma_values_of_dom(result@);
        }
        RangeNearest { items: result }
    }

    proof fn lemma_push_deref<'q>(s: Seq<&'q V>, v: &'q V)
        ensures
            deref_all(s.push(v)) == deref_all(s).insert(*v),
    {
        assert forall|x: V| deref_all(s.push(v)).contains(x) implies deref_all(s).insert(*v).contains(x) by {
            let i = choose|i: int| 0 <= i < s.push(v).len() && *s.push(v)[i] == x;
            if i < s.len() {
                assert(*s[i] == x);
            }
        }
        assert forall|x: V| deref_all(s).insert(*v).contains(x) implies deref_all(s.push(v)).contains(x) by {
            if x == *v {
                assert(*s.push(v)[s.len() as int] == x);
            } else {
                let i = choose|i: int| 0 <= i < s.len() && *s[i] == x;
                assert(*s.push(v)[i] == x);
            }
        }
        assert(deref_all(s.push(v)) =~= deref_all(s).insert(*v));
    }

    fn nearest_r_help<'q>(
        &'q self,
        point: &K,
        buf: &mut Vec<&'q V>,
        radius: &u128,
        node: &'q Node<K, V>,
        reg_lo: K,
        reg_hi: K,
        k: usize,
    )
        requires
            node.wf(k as nat),
            forall|e: (K, V)| #[trigger] node.entries().contains(e) ==> in_region(e.0, reg_lo, reg_hi),
        ensures
            deref_all(final(buf)@) == deref_all(old(buf)@).union(
                values_within(node.entries(), self.metric, *point, *radius as nat),
            ),
            final(buf)@.len() >= old(buf)@.len(),
            final(buf)@.subrange(0, old(buf)@.len() as int) == old(buf)@,
            values_of(final(buf)@) == values_of(old(buf)@).add(
                node.within_items(self.metric, *point, *radius as nat),
            ),
        decreases node,
    {
        let ghost b0 = buf@;
        let ghost own_ms = if self.metric.dist(*point, node.key) <= *radius {
            Multiset::singleton(node.value)
        } else {
            Multiset::<V>::empty()
        };
        let mut reg_lo = reg_lo;
        let mut reg_hi = reg_hi;
        let ghost own = Set::<(K, V)>::empty().insert((node.key, node.value));
        if self.metric.distance(point, &node.key) <= *radius {
            proof {
                Self::lemma_push_deref(buf@, &node.value);
            }
            buf.push(&node.value);
            proof {
                lemma_values_of_push(b0, &node.value);
            }
        }
        let ghost b1 = buf@;
        proof {
            assert(values_of(b1) =~= values_of(b0).add(own_ms));
            assert(b1.subrange(0, b0.len() as int) =~= b0);
            assert(deref_all(b1) =~= deref_all(b0).union(values_within(own, self.metric, *point, *radius as nat))) by {
                assert forall|v: V| values_within(own, self.metric, *point, *radius as nat).contains(v)
                    implies v == node.value && self.metric.dist(*point, node.key) <= *radius by {
                    let kk = choose|kk: K| #[trigger] own.contains((kk, v)) && self.metric.dist(*point, kk) <= *radius;
                    assert(own.contains((kk, v)));
                }
                if self.metric.dist(*point, node.key) <= *radius {
                    assert(own.contains((node.key, node.value)));
                }
            }
        }
        let is_left = match point.compare(&node.key, k) {
            core::cmp::Ordering::Less => true,
            _ => false,
        };
        let d = K::dimension();
        let nk: usize = if k + 1 >= d {
            0
        } else {
            k + 1
        };
        let near = if is_left {
            &node.left
        } else {
            &node.right
        };
        let far = if is_left {
            &node.right
        } else {
            &node.left
        };
        let ghost near_set = Node::<K, V>::optional_entries(*near);
        let ghost far_set = Node::<K, V>::optional_entries(*far);
        let ghost near_ms = Node::<K, V>::optional_within(*near, self.metric, *point, *radius as nat);
        let ghost far_ms = Node::<K, V>::optional_within(*far, self.metric, *point, *radius as nat);
        proof {
            assert(node.entries() =~= own.union(near_set).union(far_set));
        }
        if let Some(c) = near {
            let c: &'q Node<K, V> = c;
            proof {
                assert(c.entries() == near_set);
                assert forall|e: (K, V)| #[trigger] c.entries().contains(e) implies in_region(e.0, reg_lo, reg_hi) by {
                    assert(node.entries().contains(e));
                }
            }
            self.nearest_r_help(point, buf, radius, c, reg_lo, reg_hi, nk);
        } else {
            assert(near_set =~= Set::<(K, V)>::empty());
            assert(values_within(near_set, self.metric, *point, *radius as nat) =~= Set::<V>::empty());
        }
        let ghost b2 = buf@;
        proof {
            assert(values_of(b2) =~= values_of(b1).add(near_ms));
            assert(b2.subrange(0, b0.len() as int) =~= b0) by {
                assert(b2.subrange(0, b1.len() as int) == b1);
                assert forall|i: int| 0 <= i < b0.len() implies b2[i] == b0[i] by {
                    assert(b2.subrange(0, b1.len() as int)[i] == b1[i]);
                    assert(b1.subrange(0, b0.len() as int)[i] == b0[i]);
                }
            }
        }
        if let Some(c) = far {
            let c: &'q Node<K, V> = c;
            proof {
                assert(c.entries() == far_set);
            }
            let ghost old_lo = reg_lo;
            let ghost old_hi = reg_hi;
            if is_left {
                reg_lo.assign(&node.key, k);
            } else {
                reg_hi.assign(&node.key, k);
            }
            proof {
                assert forall|e: (K, V)| #[trigger] c.entries().contains(e) implies in_region(e.0, reg_lo, reg_hi) by {
                    assert(node.entries().contains(e));
                    assert(in_region(e.0, old_lo, old_hi));
                    assert forall|j: nat| j < K::spec_dimension() implies reg_lo.axis(j) <= #[trigger] e.0.axis(j)
                        && e.0.axis(j) <= reg_hi.axis(j) by {
                        assert(old_lo.axis(j) <= e.0.axis(j) && e.0.axis(j) <= old_hi.axis(j));
                    }
                }
            }
            if self.metric.distance_to_aabb(point, &reg_lo, &reg_hi) <= *radius {
                self.nearest_r_help(point, buf, radius, c, reg_lo, reg_hi, nk);
            } else {
                proof {
                    assert forall|v: V| !values_within(far_set, self.metric, *point, *radius as nat).contains(v) by {
                        if values_within(far_set, self.metric, *point, *radius as nat).contains(v) {
                            let kk = choose|kk: K| #[trigger] far_set.contains((kk, v)) && self.metric.dist(*point, kk) <= *radius;
                            self.metric.lemma_aabb_lower_bound(*point, reg_lo, reg_hi, kk);
                        }
                    }
                    assert(values_within(far_set, self.metric, *point, *radius as nat) =~= Set::<V>::empty());
                    assert forall|e: (K, V)| #[trigger] c.entries().contains(e) implies self.metric.dist(*point, e.0) > *radius by {
                        self.metric.lemma_aabb_lower_bound(*point, reg_lo, reg_hi, e.0);
                    }
                    c.lemma_within_empty(self.metric, *point, *radius as nat);
                    assert(buf@.subrange(0, b2.len() as int) =~= b2);
                }
            }
        } else {
            assert(far_set =~= Set::<(K, V)>::empty());
            assert(values_within(far_set, self.metric, *point, *radius as nat) =~= Set::<V>::empty());
        }
        proof {
            let wn = values_within(node.entries(), self.metric, *point, *radius as nat);
            let wo = values_within(own, self.metric, *point, *radius as nat);
            let wl = values_within(near_set, self.metric, *point, *radius as nat);
            let wr = values_within(far_set, self.metric, *point, *radius as nat);
            assert(wn =~= wo.union(wl).union(wr)) by {
                assert forall|v: V| wn.contains(v) implies wo.union(wl).union(wr).contains(v) by {
                    let kk = choose|kk: K| #[trigger] node.entries().contains((kk, v)) && self.metric.dist(*point, kk) <= *radius;
                    if own.contains((kk, v)) {
                        assert(wo.contains(v));
                    } else if near_set.contains((kk, v)) {
                        assert(wl.contains(v));
                    } else {
                        assert(wr.contains(v));
                    }
                }
                assert forall|v: V| wo.union(wl).union(wr).contains(v) implies wn.contains(v) by {
                    if wo.contains(v) {
                        let kk = choose|kk: K| #[trigger] own.contains((kk, v)) && self.metric.dist(*point, kk) <= *radius;
                        assert(node.entries().contains((kk, v)));
                    } else if wl.contains(v) {
                        let kk = choose|kk: K| #[trigger] near_set.contains((kk, v)) && self.metric.dist(*point, kk) <= *radius;
                        assert(node.entries().contains((kk, v)));
                    } else {
                        let kk = choose|kk: K| #[trigger] far_set.contains((kk, v)) && self.metric.dist(*point, kk) <= *radius;
                        assert(node.entries().contains((kk, v)));
                    }
                }
            }
            assert(deref_all(buf@) =~= deref_all(b0).union(wn));
            assert(values_of(buf@) =~= values_of(b2).add(far_ms));
            assert(node.within_items(self.metric, *point, *radius as nat) =~= own_ms.add(near_ms).add(
                far_ms,
            ));
            assert(values_of(buf@) =~= values_of(b0).add(
                node.within_items(self.metric, *point, *radius as nat),
            ));
            assert(buf@.subrange(0, b2.len() as int) == b2);
            assert forall|i: int| 0 <= i < b0.len() implies buf@[i] == b0[i] by {
                assert(buf@.subrange(0, b2.len() as int)[i] == b2[i]);
                assert(b2.subrange(0, b0.len() as int)[i] == b0[i]);
            }
            assert(buf@.subrange(0, b0.len() as int) =~= b0);
        }
    }

    fn nearest_help<'q>(
        &self,
        node: &'q Node<K, V>,
        key: &K,
        reg_lo: K,
        reg_hi: K,
        radius: &mut u128,
        k: usize,
    ) -> (r: Option<&'q Node<K, V>>)
        requires
            node.wf(k as nat),
            forall|e: (K, V)| #[trigger] node.entries().contains(e) ==> in_region(e.0, reg_lo, reg_hi),
        ensures
            *final(radius) <= *old(radius),
            forall|e: (K, V)|
                #[trigger] node.below().contains(e) ==> *final(radius) <= self.metric.dist(
                    e.0,
                    *key,
                ),
            match r {
                Some(n) => node.below().contains((n.key, n.value)) && self.metric.dist(n.key, *key)
                    == *final(radius),
                None => *final(radius) == *old(radius),
            },
        decreases node,
    {
        let mut reg_lo = reg_lo;
        let mut reg_hi = reg_hi;
        let mut best_result: Option<&'q Node<K, V>> = None;
        let is_right = match node.key.compare(key, k) {
            core::cmp::Ordering::Greater => false,
            _ => true,
        };
        let d = K::dimension();
        let nk: usize = if k + 1 >= d {
            0
        } else {
            k + 1
        };
        let near = if is_right {
            &node.right
        } else {
            &node.left
        };
        let far = if is_right {
            &node.left
        } else {
            &node.right
        };
        let ghost near_set = Node::<K, V>::optional_entries(*near);
        let ghost far_set = Node::<K, V>::optional_entries(*far);
        proof {
            assert(node.below() == near_set.union(far_set));
        }
        if let Some(child) = near {
            let child: &'q Node<K, V> = child;
            proof {
                assert(child.entries().contains((child.key, child.value)));
                assert(child.entries() == near_set);
            }
            let cdist = self.metric.distance(&child.key, key);
            if cdist <= *radius {
                *radius = cdist;
                best_result = Some(child);
                if self.metric.is_zero(radius) {
                    return best_result;
                }
            }
            proof {
                assert forall|e: (K, V)| #[trigger] child.entries().contains(e) implies in_region(e.0, reg_lo, reg_hi) by {
                    assert(node.entries().contains(e));
                }
            }
            let sub = self.nearest_help(child, key, reg_lo, reg_hi, radius, nk);
            best_result = match sub {
                Some(n) => Some(n),
                None => best_result,
            };
            proof {
                assert forall|e: (K, V)| near_set.contains(e) implies *radius <= self.metric.dist(e.0, *key) by {
                    if e != (child.key, child.value) {
                        assert(child.below().contains(e));
                    }
                }
            }
        }
        if let Some(child) = far {
            let child: &'q Node<K, V> = child;
            proof {
                assert(child.entries().contains((child.key, child.value)));
                assert(child.entries() == far_set);
            }
            let cdist = self.metric.distance(&child.key, key);
            if cdist <= *radius {
                *radius = cdist;
                best_result = Some(child);
                if self.metric.is_zero(radius) {
                    return best_result;
                }
            }
            let ghost old_lo = reg_lo;
            let ghost old_hi = reg_hi;
            if is_right {
                reg_hi.assign(&node.key, k);
            } else {
                reg_lo.assign(&node.key, k);
            }
            proof {
                assert forall|e: (K, V)| #[trigger] child.entries().contains(e) implies in_region(e.0, reg_lo, reg_hi) by {
                    assert(node.entries().contains(e));
                    assert(in_region(e.0, old_lo, old_hi));
                    assert forall|j: nat| j < K::spec_dimension() implies reg_lo.axis(j) <= #[trigger] e.0.axis(j)
                        && e.0.axis(j) <= reg_hi.axis(j) by {
                        assert(old_lo.axis(j) <= e.0.axis(j) && e.0.axis(j) <= old_hi.axis(j));
                    }
                }
            }
            let bound = self.metric.distance_to_aabb(key, &reg_lo, &reg_hi);
            if bound < *radius {
                let sub = self.nearest_help(child, key, reg_lo, reg_hi, radius, nk);
                best_result = match sub {
                    Some(n) => Some(n),
                    None => best_result,
                };
            } else {
                proof {
                    assert forall|e: (K, V)| child.below().contains(e) implies *radius <= self.metric.dist(e.0, *key) by {
                        assert(child.entries().contains(e));
                        self.metric.lemma_aabb_lower_bound(*key, reg_lo, reg_hi, e.0);
                        self.metric.lemma_symmetric(*key, e.0);
                    }
                }
            }
            proof {
                assert forall|e: (K, V)| far_set.contains(e) implies *radius <= self.metric.dist(e.0, *key) by {
                    if e != (child.key, child.value) {
                        assert(child.below().contains(e));
                    }
                }
            }
        }
        best_result
    }
}

impl<K: KdKey, V, M: DistanceAabb<K>> NearestNeighborsMap<K, V> for KdTreeMap<K, V, M> {
    open spec fn contents(&self) -> Set<(K, V)> {
        self.entries()
    }

    open spec fn map_wf(&self) -> bool {
        self.wf()
    }

    open spec fn key_dist(&self, a: K, b: K) -> nat {
        self.spec_metric().dist(a, b)
    }

    fn insert(&mut self, key: K, value: V) {
        KdTreeMap::insert(self, key, value);
    }

    fn nearest<'q>(&'q self, key: &K) -> (r: Option<(&'q K, &'q V)>) {
        KdTreeMap::nearest(self, key)
    }
}

impl<K: KdKey, V, M: DistanceAabb<K>> RangeNearestNeighborsMap<K, V> for KdTreeMap<K, V, M> {
    open spec fn within(&self, q: K, r: nat) -> Multiset<V> {
        self.items_within(q, r)
    }

    fn nearest_within_r<'q>(&'q self, key: &'q K, r: u128) -> (res: RangeNearest<'q, V>) {
        KdTreeMap::nearest_within_r(self, key, r)
    }
}

} // verus!
