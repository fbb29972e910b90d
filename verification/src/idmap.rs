//! Maps and sets keyed by node, kept in the order of the ids.

use vstd::prelude::*;

use crate::ids::NodeId;

verus! {

/// The order of nodes.
pub open spec fn id_less(a: NodeId, b: NodeId) -> bool {
    a.0 < b.0
}

/// Every id of `s` is below the ones after it, so none occurs twice.
pub open spec fn ascending(s: Seq<NodeId>) -> bool {
    forall|i: int, j: int| 0 <= i < j < s.len() ==> id_less(#[trigger] s[i], #[trigger] s[j])
}

/// `s` lists exactly the members of `keys`, in order.
pub open spec fn lists(s: Seq<NodeId>, keys: Set<NodeId>) -> bool {
    &&& ascending(s)
    &&& forall|k: NodeId| #[trigger] s.contains(k) <==> keys.contains(k)
}

/// The members of a finite set of nodes, in order.
pub open spec fn in_order(keys: Set<NodeId>) -> Seq<NodeId> {
    choose|s: Seq<NodeId>| lists(s, keys)
}

/// There is only one way to list a set in order.
pub proof fn lemma_listing_is_unique(s: Seq<NodeId>, keys: Set<NodeId>)
    requires
        lists(s, keys),
    ensures
        in_order(keys) == s,
{
    let t = in_order(keys);
    assert(lists(t, keys));
    assert forall|k: NodeId| s.contains(k) <==> t.contains(k) by {}
    lemma_same_members(s, t);
}

proof fn lemma_same_members(s: Seq<NodeId>, t: Seq<NodeId>)
    requires
        ascending(s),
        ascending(t),
        forall|k: NodeId| s.contains(k) <==> t.contains(k),
    ensures
        s == t,
    decreases s.len(),
{
    if s.len() == 0 {
        if t.len() > 0 {
            assert(t.contains(t[0]));
        }
        assert(s == t);
    } else {
        assert(s.contains(s[0]));
        assert(t.len() > 0);
        let a = s[s.len() - 1];
        let b = t[t.len() - 1];
        assert(s.contains(a) && t.contains(b));
        let i = choose|i: int| 0 <= i < t.len() && t[i] == a;
        let j = choose|j: int| 0 <= j < s.len() && s[j] == b;
        if a != b {
            assert(id_less(t[i], t[t.len() - 1]));
            assert(id_less(s[j], s[s.len() - 1]));
        }
        let s1 = s.drop_last();
        let t1 = t.drop_last();
        assert forall|k: NodeId| s1.contains(k) <==> t1.contains(k) by {
            if s1.contains(k) {
                let n = choose|n: int| 0 <= n < s1.len() && s1[n] == k;
                assert(s[n] == k && id_less(s[n], s[s.len() - 1]));
                assert(s.contains(k));
                let m = choose|m: int| 0 <= m < t.len() && t[m] == k;
                assert(t1[m] == k);
            }
            if t1.contains(k) {
                let n = choose|n: int| 0 <= n < t1.len() && t1[n] == k;
                assert(t[n] == k && id_less(t[n], t[t.len() - 1]));
                assert(t.contains(k));
                let m = choose|m: int| 0 <= m < s.len() && s[m] == k;
                assert(s1[m] == k);
            }
        }
        lemma_same_members(s1, t1);
        assert(s == s1.push(a));
        assert(t == t1.push(b));
    }
}

/// A map from text to values, in the order of its keys.
#[derive(Debug, PartialEq)]
pub struct IdMap<V> {
    keys: Vec<NodeId>,
    values: Vec<V>,
}

impl<V> IdMap<V> {
    #[verifier::type_invariant]
    spec fn wf(self) -> bool {
        &&& self.keys@.len() == self.values@.len()
        &&& ascending(self.keys@)
    }

    spec fn index_of(self, key: NodeId) -> int {
        choose|i: int| 0 <= i < self.keys@.len() && #[trigger] self.keys@[i] == key
    }
}

impl<V: View> View for IdMap<V> {
    type V = Map<NodeId, V::V>;

    closed spec fn view(&self) -> Map<NodeId, V::V> {
        Map::new(
            |k: NodeId| self.keys@.contains(k),
            |k: NodeId| self.values@[self.index_of(k)]@,
        )
    }
}

impl<V: View> IdMap<V> {
    proof fn lemma_at(self, i: int)
        requires
            self.wf(),
            0 <= i < self.keys@.len(),
        ensures
            self@.contains_key(self.keys@[i]),
            self@[self.keys@[i]] == self.values@[i]@,
            self.index_of(self.keys@[i]) == i,
    {
        let t = self.keys@;
        assert(t[i] == self.keys@[i]);
        assert(t.contains(t[i]));
        let j = self.index_of(t[i]);
        assert(t[j] == t[i]);
        if i < j {
            assert(id_less(t[i], t[j]));
        } else if j < i {
            assert(id_less(t[j], t[i]));
        }
    }

    proof fn lemma_order(self)
        requires
            self.wf(),
        ensures
            self.keys@ == in_order(self@.dom()),
    {
        lemma_listing_is_unique(self.keys@, self@.dom());
    }

    /// An empty map.
    pub fn new() -> (r: Self)
        ensures
            r@ == Map::<NodeId, V::V>::empty(),
    {
        let r = IdMap { keys: Vec::new(), values: Vec::new() };
        assert(r@ =~= Map::<NodeId, V::V>::empty());
        r
    }

    /// The number of entries.
    pub fn len(&self) -> (r: usize)
        ensures
            r == in_order(self@.dom()).len(),
            lists(in_order(self@.dom()), self@.dom()),
    {
        proof {
            use_type_invariant(self);
            self.lemma_order();
        }
        self.keys.len()
    }

    /// Whether there are no entries.
    pub fn is_empty(&self) -> (r: bool)
        ensures
            r == (self@ == Map::<NodeId, V::V>::empty()),
    {
        proof {
            use_type_invariant(self);
            if self.keys@.len() == 0 {
                assert(self@ =~= Map::<NodeId, V::V>::empty());
            } else {
                self.lemma_at(0);
            }
        }
        self.keys.len() == 0
    }

    /// The key at a position of the order.
    pub fn key_at(&self, i: usize) -> (r: NodeId)
        requires
            i < in_order(self@.dom()).len(),
        ensures
            r@ == in_order(self@.dom())[i as int],
            self@.contains_key(r@),
    {
        proof {
            use_type_invariant(self);
            self.lemma_order();
            self.lemma_at(i as int);
        }
        self.keys[i]
    }

    /// The value at a position of the order.
    pub fn value_at(&self, i: usize) -> (r: &V)
        requires
            i < in_order(self@.dom()).len(),
        ensures
            r@ == self@[in_order(self@.dom())[i as int]],
    {
        proof {
            use_type_invariant(self);
            self.lemma_order();
            self.lemma_at(i as int);
        }
        &self.values[i]
    }

    /// The first position whose key does not sort before `key`.
    fn position(&self, key: NodeId) -> (r: usize)
        ensures
            r <= self.keys@.len() == self.values@.len(),
            forall|i: int| 0 <= i < r ==> id_less(#[trigger] self.keys@[i], key),
            forall|i: int|
                r <= i < self.keys@.len() ==> !id_less(#[trigger] self.keys@[i], key),
        no_unwind
    {
        proof {
            use_type_invariant(self);
        }
        let mut i: usize = 0;
        while i < self.keys.len() && self.keys[i].0 < key.0
            invariant
                i <= self.keys@.len(),
                forall|j: int| 0 <= j < i ==> id_less(#[trigger] self.keys@[j], key),
            decreases self.keys@.len() - i,
        {
            i += 1;
        }
        proof {
            let t = self.keys@;
            assert forall|j: int| i <= j < self.keys@.len() implies !id_less(
                #[trigger] self.keys@[j],
                key,
            ) by {
                if i < j && id_less(self.keys@[j], key) {
                    assert(id_less(t[i as int], t[j]));
                }
            }
        }
        i
    }

    /// Whether the entry at the position of `key` is the one of `key`.
    fn found(&self, i: usize, key: NodeId) -> (r: bool)
        requires
            i <= self.keys@.len(),
            forall|j: int| 0 <= j < i ==> id_less(#[trigger] self.keys@[j], key),
            forall|j: int|
                i <= j < self.keys@.len() ==> !id_less(#[trigger] self.keys@[j], key),
        ensures
            r == (i < self.keys@.len() && self.keys@[i as int] == key),
            r == self@.contains_key(key),
        no_unwind
    {
        proof {
            use_type_invariant(self);
            let t = self.keys@;
            if i < self.keys@.len() && self.keys@[i as int] == key {
                self.lemma_at(i as int);
            } else if t.contains(key) {
                let j = choose|j: int| 0 <= j < t.len() && t[j] == key;
                assert(self.keys@[j] == key);
                assert(j > i);
                assert(id_less(t[i as int], t[j]));
                assert(id_less(self.keys@[i as int], key));
            }
        }
        i < self.keys.len() && self.keys[i].0 == key.0
    }

    /// The value of a key.
    pub fn get(&self, key: NodeId) -> (r: Option<&V>)
        ensures
            match r {
                Some(v) => self@.contains_key(key) && v@ == self@[key],
                None => !self@.contains_key(key),
            },
    {
        let i: usize = self.position(key);
        if self.found(i, key) {
            proof {
                use_type_invariant(self);
                self.lemma_at(i as int);
            }
            Some(&self.values[i])
        } else {
            None
        }
    }

    /// The value of a key, to be changed in place.
    pub fn get_mut(&mut self, key: NodeId) -> (r: Option<&mut V>)
        ensures
            match r {
                Some(v) => old(self)@.contains_key(key) && v@ == old(self)@[key] && final(self)@
                    == old(self)@.insert(key, final(v)@),
                None => !old(self)@.contains_key(key) && final(self)@ == old(self)@,
            },
        no_unwind
    {
        let i: usize = self.position(key);
        if self.found(i, key) {
            proof {
                use_type_invariant(&*self);
                self.lemma_at(i as int);
            }
            Some(&mut self.values[i])
        } else {
            None
        }
    }

    /// Whether there is an entry for a key.
    pub fn contains_key(&self, key: NodeId) -> (r: bool)
        ensures
            r == self@.contains_key(key),
    {
        let i: usize = self.position(key);
        self.found(i, key)
    }

    /// Set the value of a key, giving back the one it had.
    pub fn insert(&mut self, key: NodeId, value: V) -> (r: Option<V>)
        ensures
            final(self)@ == old(self)@.insert(key, value@),
            match r {
                Some(v) => old(self)@.contains_key(key) && v@ == old(self)@[key],
                None => !old(self)@.contains_key(key),
            },
    {
        proof {
            use_type_invariant(&*self);
        }
        let i: usize = self.position(key);
        let found = self.found(i, key);
        let ghost before = *self;
        let ghost k = key;
        let mut held = IdMap { keys: Vec::new(), values: Vec::new() };
        std::mem::swap(&mut held, self);
        let mut keys = held.keys;
        let mut values = held.values;
        let r = if found {
            let old_value = values.remove(i);
            values.insert(i, value);
            Some(old_value)
        } else {
            keys.insert(i, key);
            values.insert(i, value);
            None
        };
        proof {
            let t0 = before.keys@;
            let t = keys@;
            before.lemma_at_all();
            if found {
                assert(t == t0);
            } else {
                assert forall|a: int, b: int| 0 <= a < b < t.len() implies id_less(
                    #[trigger] t[a],
                    #[trigger] t[b],
                ) by {
                    let a0 = if a < i { a } else { a - 1 };
                    let b0 = if b < i { b } else { b - 1 };
                    if a == i {
                        assert(t[b] == before.keys@[b0]);
                        assert(!id_less(before.keys@[b0], k));
                        if t[b] == k {
                            assert(t0[b0] == k);
                            assert(t0.contains(k));
                        }
                    } else if b == i {
                        assert(t[a] == before.keys@[a0]);
                    } else {
                        assert(t[a] == t0[a0] && t[b] == t0[b0]);
                    }
                }
            }
        }
        *self = IdMap { keys, values };
        proof {
            let t0 = before.keys@;
            let t = self.keys@;
            let wanted = before@.insert(k, value@);
            assert(self.wf());
            assert forall|x: NodeId| self@.contains_key(x) <==> wanted.contains_key(x) by {
                if t.contains(x) && x != k {
                    let n = choose|n: int| 0 <= n < t.len() && t[n] == x;
                    let m = if found || n < i { n } else { n - 1 };
                    assert(t0[m] == x);
                    assert(t0.contains(x));
                }
                if t0.contains(x) {
                    let n = choose|n: int| 0 <= n < t0.len() && t0[n] == x;
                    let m = if found || n < i { n } else { n + 1 };
                    assert(t[m] == x);
                    assert(t.contains(x));
                }
                assert(t[i as int] == k);
                assert(t.contains(k));
            }
            assert forall|x: NodeId| self@.contains_key(x) implies self@[x] == wanted[x] by {
                let n = choose|n: int| 0 <= n < t.len() && t[n] == x;
                assert(self.keys@[n] == x);
                self.lemma_at(n);
                self.lemma_at(i as int);
                if x != k {
                    let m = if found || n < i { n } else { n - 1 };
                    assert(before.keys@[m] == x);
                    before.lemma_at(m);
                } else {
                    assert(self.keys@[i as int] == k);
                    assert(n == i);
                }
            }
            assert(self@ =~= wanted);
        }
        r
    }

    proof fn lemma_at_all(self)
        requires
            self.wf(),
        ensures
            forall|i: int|
                0 <= i < self.keys@.len() ==> self@.contains_key(#[trigger] self.keys@[i])
                    && self@[self.keys@[i]] == self.values@[i]@,
    {
        assert forall|i: int| 0 <= i < self.keys@.len() implies self@.contains_key(
            #[trigger] self.keys@[i],
        ) && self@[self.keys@[i]] == self.values@[i]@ by {
            self.lemma_at(i);
        }
    }

    /// Drop a key, giving back the value it had.
    pub fn remove(&mut self, key: NodeId) -> (r: Option<V>)
        ensures
            final(self)@ == old(self)@.remove(key),
            match r {
                Some(v) => old(self)@.contains_key(key) && v@ == old(self)@[key],
                None => !old(self)@.contains_key(key),
            },
    {
        proof {
            use_type_invariant(&*self);
        }
        let i: usize = self.position(key);
        if !self.found(i, key) {
            assert(self@ =~= old(self)@.remove(key));
            return None;
        }
        let ghost before = *self;
        let mut held = IdMap { keys: Vec::new(), values: Vec::new() };
        std::mem::swap(&mut held, self);
        let mut keys = held.keys;
        let mut values = held.values;
        keys.remove(i);
        let value = values.remove(i);
        proof {
            before.lemma_at_all();
            let t0 = before.keys@;
            let t = keys@;
            assert forall|a: int, b: int| 0 <= a < b < t.len() implies id_less(
                #[trigger] t[a],
                #[trigger] t[b],
            ) by {
                let a0 = if a < i { a } else { a + 1 };
                let b0 = if b < i { b } else { b + 1 };
                assert(t[a] == t0[a0] && t[b] == t0[b0]);
            }
        }
        *self = IdMap { keys, values };
        proof {
            let t0 = before.keys@;
            let t = self.keys@;
            let wanted = before@.remove(key);
            assert(self.wf());
            assert forall|x: NodeId| self@.contains_key(x) <==> wanted.contains_key(x) by {
                if t.contains(x) {
                    let n = choose|n: int| 0 <= n < t.len() && t[n] == x;
                    let m = if n < i { n } else { n + 1 };
                    assert(before.keys@[m] == x);
                    assert(t0[m] == x);
                    assert(t0.contains(x));
                    before.lemma_at(m);
                    before.lemma_at(i as int);
                }
                if t0.contains(x) && x != key {
                    let n = choose|n: int| 0 <= n < t0.len() && t0[n] == x;
                    let m = if n < i { n } else { n - 1 };
                    assert(t[m] == x);
                    assert(t.contains(x));
                }
            }
            assert forall|x: NodeId| self@.contains_key(x) implies self@[x] == wanted[x] by {
                let n = choose|n: int| 0 <= n < t.len() && t[n] == x;
                assert(self.keys@[n] == x);
                self.lemma_at(n);
                let m = if n < i { n } else { n + 1 };
                assert(before.keys@[m] == x);
                before.lemma_at(m);
                before.lemma_at(i as int);
                assert(x != key);
            }
            assert(self@ =~= wanted);
        }
        Some(value)
    }
}

impl<V: View + Clone> IdMap<V> {
    /// A copy of the map, given that copying a value keeps what it stands for.
    pub fn copy(&self) -> (r: Self)
        requires
            forall|a: &V, b: V| #[trigger] call_ensures(V::clone, (a,), b) ==> a@ == b@,
            forall|a: &V| #[trigger] call_requires(V::clone, (a,)),
        ensures
            r@ == self@,
    {
        proof {
            use_type_invariant(self);
        }
        let mut keys: Vec<NodeId> = Vec::new();
        let mut values: Vec<V> = Vec::new();
        let mut i: usize = 0;
        while i < self.keys.len()
            invariant
                i <= self.keys@.len(),
                self.wf(),
                keys@.len() == i,
                values@.len() == i,
                forall|a: &V, b: V| #[trigger] call_ensures(V::clone, (a,), b) ==> a@ == b@,
                forall|a: &V| #[trigger] call_requires(V::clone, (a,)),
                forall|j: int| 0 <= j < i ==> #[trigger] keys@[j] == self.keys@[j],
                forall|j: int| 0 <= j < i ==> #[trigger] values@[j]@ == self.values@[j]@,
            decreases self.keys@.len() - i,
        {
            keys.push(self.keys[i]);
            values.push(self.values[i].clone());
            i += 1;
        }
        assert(keys@ == self.keys@);
        let r = IdMap { keys, values };
        proof {
            let t = self.keys@;
            assert forall|x: NodeId| self@.contains_key(x) implies self@[x] == r@[x] by {
                let n = choose|n: int| 0 <= n < t.len() && t[n] == x;
                assert(self.keys@[n] == x);
                assert(r.keys@[n] == x);
                self.lemma_at(n);
                r.lemma_at(n);
            }
            assert(r@ =~= self@);
        }
        r
    }
}


/// The nodes of a set with ids below `n`, in order.
spec fn list_below(keys: Set<NodeId>, n: int) -> Seq<NodeId>
    decreases n,
{
    if n <= 0 {
        Seq::empty()
    } else if keys.contains(NodeId((n - 1) as u32)) {
        list_below(keys, n - 1).push(NodeId((n - 1) as u32))
    } else {
        list_below(keys, n - 1)
    }
}

proof fn lemma_list_below(keys: Set<NodeId>, n: int)
    requires
        0 <= n <= 0x1_0000_0000,
    ensures
        ascending(list_below(keys, n)),
        forall|x: NodeId| #[trigger]
            list_below(keys, n).contains(x) <==> keys.contains(x) && x.0 < n,
    decreases n,
{
    let s = list_below(keys, n);
    if n > 0 {
        lemma_list_below(keys, n - 1);
        let before = list_below(keys, n - 1);
        let last = NodeId((n - 1) as u32);
        assert forall|i: int| 0 <= i < before.len() implies id_less(
            #[trigger] before[i],
            last,
        ) by {
            assert(before.contains(before[i]));
        }
        assert forall|x: NodeId| #[trigger] s.contains(x) <==> keys.contains(x) && x.0 < n by {
            if s.contains(x) {
                let i = choose|i: int| 0 <= i < s.len() && s[i] == x;
                if i < before.len() {
                    assert(before[i] == x);
                    assert(before.contains(x));
                }
            }
            if keys.contains(x) && x.0 < n {
                if x.0 < n - 1 {
                    assert(before.contains(x));
                    let i = choose|i: int| 0 <= i < before.len() && before[i] == x;
                    assert(s[i] == x);
                } else {
                    assert(x == last);
                    assert(s[before.len() as int] == x);
                }
            }
        }
        assert forall|i: int, j: int| 0 <= i < j < s.len() implies id_less(
            #[trigger] s[i],
            #[trigger] s[j],
        ) by {
            assert(s[i] == before[i]);
            if j < before.len() {
                assert(s[j] == before[j]);
            }
        }
    } else {
        assert forall|x: NodeId| #[trigger] s.contains(x) <==> keys.contains(x) && x.0 < n by {}
    }
}

/// Every set of nodes has an order.
pub proof fn lemma_in_order(keys: Set<NodeId>)
    ensures
        lists(in_order(keys), keys),
{
    lemma_list_below(keys, 0x1_0000_0000);
    assert(lists(list_below(keys, 0x1_0000_0000), keys));
}

/// A set of nodes, in the order of their ids.
#[derive(Debug, PartialEq)]
pub struct NodeSet {
    members: IdMap<NodeId>,
}

impl View for NodeSet {
    type V = Set<NodeId>;

    closed spec fn view(&self) -> Set<NodeId> {
        self.members@.dom()
    }
}

impl NodeSet {
    /// No nodes.
    pub fn new() -> (r: Self)
        ensures
            r@ == Set::<NodeId>::empty(),
    {
        let r = NodeSet { members: IdMap::new() };
        assert(r@ =~= Set::<NodeId>::empty());
        r
    }

    /// The number of nodes.
    pub fn len(&self) -> (r: usize)
        ensures
            r == in_order(self@).len(),
            lists(in_order(self@), self@),
    {
        self.members.len()
    }

    /// Whether there are no nodes.
    pub fn is_empty(&self) -> (r: bool)
        ensures
            r == (self@ == Set::<NodeId>::empty()),
    {
        let r = self.members.is_empty();
        proof {
            if r {
                assert(self@ =~= Set::<NodeId>::empty());
            } else if self@ == Set::<NodeId>::empty() {
                assert(self.members@ =~= Map::<NodeId, NodeId>::empty());
            }
        }
        r
    }

    /// The node at a position of the order.
    pub fn at(&self, i: usize) -> (r: NodeId)
        requires
            i < in_order(self@).len(),
        ensures
            r == in_order(self@)[i as int],
            self@.contains(r),
    {
        self.members.key_at(i)
    }

    /// Whether a node is in the set.
    pub fn contains(&self, id: NodeId) -> (r: bool)
        ensures
            r == self@.contains(id),
    {
        self.members.contains_key(id)
    }

    /// Add a node, answering whether it was not in the set.
    pub fn insert(&mut self, id: NodeId) -> (r: bool)
        ensures
            final(self)@ == old(self)@.insert(id),
            r == !old(self)@.contains(id),
    {
        let r = self.members.insert(id, id).is_none();
        assert(self@ =~= old(self)@.insert(id));
        r
    }

    /// Add every node of another set.
    pub fn extend(&mut self, other: &NodeSet)
        ensures
            final(self)@ == old(self)@.union(other@),
    {
        let n: usize = other.len();
        let ghost ids = in_order(other@);
        let ghost start = self@;
        let mut i: usize = 0;
        while i < n
            invariant
                i <= n == ids.len(),
                ids == in_order(other@),
                lists(ids, other@),
                forall|k: NodeId|
                    #[trigger] self@.contains(k) <==> start.contains(k) || ids.take(
                        i as int,
                    ).contains(k),
            decreases n - i,
        {
            let ghost t0 = ids.take(i as int);
            let ghost t1 = ids.take(i + 1);
            let ghost before = self@;
            self.insert(other.at(i));
            proof {
                assert(t1 =~= t0.push(ids[i as int]));
                assert forall|k: NodeId|
                    #[trigger] self@.contains(k) <==> start.contains(k) || t1.contains(k) by {
                    assert(before.contains(k) <==> start.contains(k) || t0.contains(k));
                    if t0.contains(k) {
                        let j = choose|j: int| 0 <= j < t0.len() && t0[j] == k;
                        assert(t1[j] == k);
                    }
                    assert(t1[i as int] == ids[i as int]);
                }
            }
            i += 1;
        }
        assert(ids.take(n as int) =~= ids);
        assert(self@ =~= start.union(other@));
    }
}

} // verus!
