//! Maps and sets keyed by text, kept in the order of their keys.

use vstd::prelude::*;

use crate::text;
use crate::text::{is_text_less, same_text};

verus! {

/// Every text of `s` sorts before the ones after it, so none occurs twice.
pub open spec fn ascending(s: Seq<Seq<char>>) -> bool {
    forall|i: int, j: int| 0 <= i < j < s.len() ==> text::text_less(#[trigger] s[i], #[trigger] s[j])
}

/// `s` lists exactly the members of `keys`, in order.
pub open spec fn lists(s: Seq<Seq<char>>, keys: Set<Seq<char>>) -> bool {
    &&& ascending(s)
    &&& forall|k: Seq<char>| #[trigger] s.contains(k) <==> keys.contains(k)
}

/// The members of a finite set of texts, in order.
pub open spec fn in_order(keys: Set<Seq<char>>) -> Seq<Seq<char>> {
    choose|s: Seq<Seq<char>>| lists(s, keys)
}

/// There is only one way to list a set in order.
pub proof fn lemma_listing_is_unique(s: Seq<Seq<char>>, keys: Set<Seq<char>>)
    requires
        lists(s, keys),
    ensures
        in_order(keys) == s,
{
    let t = in_order(keys);
    assert(lists(t, keys));
    assert forall|k: Seq<char>| s.contains(k) <==> t.contains(k) by {}
    lemma_same_members(s, t);
}

proof fn lemma_same_members(s: Seq<Seq<char>>, t: Seq<Seq<char>>)
    requires
        ascending(s),
        ascending(t),
        forall|k: Seq<char>| s.contains(k) <==> t.contains(k),
    ensures
        s == t,
    decreases s.len(),
{
    if s.len() == 0 {
        if t.len() > 0 {
            assert(t.contains(t[0]));
        }
        assert(s == t);
    } else {
        assert(s.contains(s[0]));
        assert(t.len() > 0);
        let a = s[s.len() - 1];
        let b = t[t.len() - 1];
        assert(s.contains(a) && t.contains(b));
        let i = choose|i: int| 0 <= i < t.len() && t[i] == a;
        let j = choose|j: int| 0 <= j < s.len() && s[j] == b;
        if a != b {
            assert(text::text_less(t[i], t[t.len() - 1]));
            assert(text::text_less(s[j], s[s.len() - 1]));
            text::text_less_total(a, b);
        }
        let s1 = s.drop_last();
        let t1 = t.drop_last();
        assert forall|k: Seq<char>| s1.contains(k) <==> t1.contains(k) by {
            if s1.contains(k) {
                let n = choose|n: int| 0 <= n < s1.len() && s1[n] == k;
                assert(s[n] == k && text::text_less(s[n], s[s.len() - 1]));
                text::text_less_irreflexive(a);
                assert(s.contains(k));
                let m = choose|m: int| 0 <= m < t.len() && t[m] == k;
                assert(t1[m] == k);
            }
            if t1.contains(k) {
                let n = choose|n: int| 0 <= n < t1.len() && t1[n] == k;
                assert(t[n] == k && text::text_less(t[n], t[t.len() - 1]));
                text::text_less_irreflexive(b);
                assert(t.contains(k));
                let m = choose|m: int| 0 <= m < s.len() && s[m] == k;
                assert(s1[m] == k);
            }
        }
        lemma_same_members(s1, t1);
        assert(s == s1.push(a));
        assert(t == t1.push(b));
    }
}

proof fn lemma_place(s: Seq<Seq<char>>, key: Seq<char>) -> (k: int)
    requires
        ascending(s),
        !s.contains(key),
    ensures
        0 <= k <= s.len(),
        forall|j: int| 0 <= j < k ==> text::text_less(#[trigger] s[j], key),
        forall|j: int| k <= j < s.len() ==> text::text_less(key, #[trigger] s[j]),
    decreases s.len(),
{
    if s.len() == 0 {
        0
    } else {
        let last = s[s.len() - 1];
        assert(s.contains(last));
        text::text_less_total(last, key);
        if text::text_less(last, key) {
            assert forall|j: int| 0 <= j < s.len() implies text::text_less(#[trigger] s[j], key) by {
                if j < s.len() - 1 {
                    assert(text::text_less(s[j], s[s.len() - 1]));
                    text::text_less_transitive(s[j], last, key);
                }
            }
            s.len() as int
        } else {
            let t = s.drop_last();
            if t.contains(key) {
                let j = choose|j: int| 0 <= j < t.len() && t[j] == key;
                assert(s[j] == key);
            }
            let k = lemma_place(t, key);
            assert forall|j: int| k <= j < s.len() implies text::text_less(key, #[trigger] s[j]) by {
                if j < t.len() {
                    assert(t[j] == s[j]);
                }
            }
            assert forall|j: int| 0 <= j < k implies text::text_less(#[trigger] s[j], key) by {
                assert(t[j] == s[j]);
            }
            k
        }
    }
}

/// A finite set of texts can be listed in order.
pub proof fn lemma_in_order(keys: Set<Seq<char>>)
    requires
        keys.finite(),
    ensures
        lists(in_order(keys), keys),
    decreases keys.len(),
{
    if keys.len() == 0 {
        assert(lists(Seq::empty(), keys));
    } else {
        let key = keys.choose();
        let rest = keys.remove(key);
        lemma_in_order(rest);
        let t = in_order(rest);
        assert(!t.contains(key));
        let k = lemma_place(t, key);
        let s = t.insert(k, key);
        assert forall|i: int, j: int| 0 <= i < j < s.len() implies text::text_less(
            #[trigger] s[i],
            #[trigger] s[j],
        ) by {
            let i0 = if i < k { i } else { i - 1 };
            let j0 = if j < k { j } else { j - 1 };
            if i != k {
                assert(s[i] == t[i0]);
            }
            if j != k {
                assert(s[j] == t[j0]);
            }
        }
        assert forall|x: Seq<char>| #[trigger] s.contains(x) <==> keys.contains(x) by {
            if s.contains(x) && x != key {
                let n = choose|n: int| 0 <= n < s.len() && s[n] == x;
                let m = if n < k { n } else { n - 1 };
                assert(t[m] == x);
                assert(t.contains(x));
            }
            if t.contains(x) {
                let m = choose|m: int| 0 <= m < t.len() && t[m] == x;
                let n = if m < k { m } else { m + 1 };
                assert(s[n] == x);
            }
            assert(s[k] == key);
        }
        assert(lists(s, keys));
    }
}

/// A map from text to values, in the order of its keys.
#[derive(Debug, PartialEq)]
pub struct TextMap<V> {
    keys: Vec<String>,
    values: Vec<V>,
}

spec fn texts(s: Seq<String>) -> Seq<Seq<char>> {
    Seq::new(s.len(), |i: int| s[i]@)
}

impl<V> TextMap<V> {
    #[verifier::type_invariant]
    spec fn wf(self) -> bool {
        &&& self.keys@.len() == self.values@.len()
        &&& ascending(texts(self.keys@))
    }

    spec fn index_of(self, key: Seq<char>) -> int {
        choose|i: int| 0 <= i < self.keys@.len() && #[trigger] self.keys@[i]@ == key
    }
}

impl<V: View> View for TextMap<V> {
    type V = Map<Seq<char>, V::V>;

    closed spec fn view(&self) -> Map<Seq<char>, V::V> {
        Map::new(
            |k: Seq<char>| texts(self.keys@).contains(k),
            |k: Seq<char>| self.values@[self.index_of(k)]@,
        )
    }
}

impl<V: View> TextMap<V> {
    proof fn lemma_at(self, i: int)
        requires
            self.wf(),
            0 <= i < self.keys@.len(),
        ensures
            self@.contains_key(self.keys@[i]@),
            self@[self.keys@[i]@] == self.values@[i]@,
            self.index_of(self.keys@[i]@) == i,
    {
        let t = texts(self.keys@);
        assert(t[i] == self.keys@[i]@);
        assert(t.contains(t[i]));
        let j = self.index_of(t[i]);
        assert(t[j] == t[i]);
        if i < j {
            assert(text::text_less(t[i], t[j]));
        } else if j < i {
            assert(text::text_less(t[j], t[i]));
        }
        text::text_less_irreflexive(t[i]);
    }

    proof fn lemma_order(self)
        requires
            self.wf(),
        ensures
            texts(self.keys@) == in_order(self@.dom()),
    {
        lemma_listing_is_unique(texts(self.keys@), self@.dom());
    }

    /// An empty map.
    pub fn new() -> (r: Self)
        ensures
            r@ == Map::<Seq<char>, V::V>::empty(),
    {
        let r = TextMap { keys: Vec::new(), values: Vec::new() };
        assert(r@ =~= Map::<Seq<char>, V::V>::empty());
        r
    }

    /// The number of entries.
    pub fn len(&self) -> (r: usize)
        ensures
            r == in_order(self@.dom()).len(),
            lists(in_order(self@.dom()), self@.dom()),
    {
        proof {
            use_type_invariant(self);
            self.lemma_order();
        }
        self.keys.len()
    }

    /// Whether there are no entries.
    pub fn is_empty(&self) -> (r: bool)
        ensures
            r == (self@ == Map::<Seq<char>, V::V>::empty()),
    {
        proof {
            use_type_invariant(self);
            if self.keys@.len() == 0 {
                assert(self@ =~= Map::<Seq<char>, V::V>::empty());
            } else {
                self.lemma_at(0);
            }
        }
        self.keys.len() == 0
    }

    /// The key at a position of the order.
    pub fn key_at(&self, i: usize) -> (r: &str)
        requires
            i < in_order(self@.dom()).len(),
        ensures
            r@ == in_order(self@.dom())[i as int],
            self@.contains_key(r@),
    {
        proof {
            use_type_invariant(self);
            self.lemma_order();
            self.lemma_at(i as int);
        }
        self.keys[i].as_str()
    }

    /// The value at a position of the order.
    pub fn value_at(&self, i: usize) -> (r: &V)
        requires
            i < in_order(self@.dom()).len(),
        ensures
            r@ == self@[in_order(self@.dom())[i as int]],
    {
        proof {
            use_type_invariant(self);
            self.lemma_order();
            self.lemma_at(i as int);
        }
        &self.values[i]
    }

    /// The first position whose key does not sort before `key`.
    fn position(&self, key: &str) -> (r: usize)
        ensures
            r <= self.keys@.len() == self.values@.len(),
            forall|i: int| 0 <= i < r ==> text::text_less(#[trigger] self.keys@[i]@, key@),
            forall|i: int|
                r <= i < self.keys@.len() ==> !text::text_less(#[trigger] self.keys@[i]@, key@),
    {
        proof {
            use_type_invariant(self);
        }
        let mut i: usize = 0;
        while i < self.keys.len() && is_text_less(self.keys[i].as_str(), key)
            invariant
                i <= self.keys@.len(),
                forall|j: int| 0 <= j < i ==> text::text_less(#[trigger] self.keys@[j]@, key@),
            decreases self.keys@.len() - i,
        {
            i += 1;
        }
        proof {
            let t = texts(self.keys@);
            assert forall|j: int| i <= j < self.keys@.len() implies !text::text_less(
                #[trigger] self.keys@[j]@,
                key@,
            ) by {
                if i < j && text::text_less(self.keys@[j]@, key@) {
                    assert(text::text_less(t[i as int], t[j]));
                    text::text_less_transitive(t[i as int], t[j], key@);
                }
            }
        }
        i
    }

    /// Whether the entry at the position of `key` is the one of `key`.
    fn found(&self, i: usize, key: &str) -> (r: bool)
        requires
            i <= self.keys@.len(),
            forall|j: int| 0 <= j < i ==> text::text_less(#[trigger] self.keys@[j]@, key@),
            forall|j: int|
                i <= j < self.keys@.len() ==> !text::text_less(#[trigger] self.keys@[j]@, key@),
        ensures
            r == (i < self.keys@.len() && self.keys@[i as int]@ == key@),
            r == self@.contains_key(key@),
    {
        proof {
            use_type_invariant(self);
            let t = texts(self.keys@);
            if i < self.keys@.len() && self.keys@[i as int]@ == key@ {
                self.lemma_at(i as int);
            } else if t.contains(key@) {
                let j = choose|j: int| 0 <= j < t.len() && t[j] == key@;
                assert(self.keys@[j]@ == key@);
                text::text_less_irreflexive(key@);
                assert(j > i);
                assert(text::text_less(t[i as int], t[j]));
                assert(text::text_less(self.keys@[i as int]@, key@));
            }
        }
        i < self.keys.len() && same_text(self.keys[i].as_str(), key)
    }

    /// The value of a key.
    pub fn get(&self, key: &str) -> (r: Option<&V>)
        ensures
            match r {
                Some(v) => self@.contains_key(key@) && v@ == self@[key@],
                None => !self@.contains_key(key@),
            },
    {
        let i: usize = self.position(key);
        if self.found(i, key) {
            proof {
                use_type_invariant(self);
                self.lemma_at(i as int);
            }
            Some(&self.values[i])
        } else {
            None
        }
    }

    /// Whether there is an entry for a key.
    pub fn contains_key(&self, key: &str) -> (r: bool)
        ensures
            r == self@.contains_key(key@),
    {
        let i: usize = self.position(key);
        self.found(i, key)
    }

    /// Set the value of a key, giving back the one it had.
    pub fn insert(&mut self, key: String, value: V) -> (r: Option<V>)
        ensures
            final(self)@ == old(self)@.insert(key@, value@),
            match r {
                Some(v) => old(self)@.contains_key(key@) && v@ == old(self)@[key@],
                None => !old(self)@.contains_key(key@),
            },
    {
        proof {
            use_type_invariant(&*self);
        }
        let i: usize = self.position(key.as_str());
        let found = self.found(i, key.as_str());
        let ghost before = *self;
        let ghost k = key@;
        let mut held = TextMap { keys: Vec::new(), values: Vec::new() };
        std::mem::swap(&mut held, self);
        let mut keys = held.keys;
        let mut values = held.values;
        let r = if found {
            let old_value = values.remove(i);
            values.insert(i, value);
            Some(old_value)
        } else {
            keys.insert(i, key);
            values.insert(i, value);
            None
        };
        proof {
            let t0 = texts(before.keys@);
            let t = texts(keys@);
            before.lemma_at_all();
            if found {
                assert(t == t0);
            } else {
                assert forall|a: int, b: int| 0 <= a < b < t.len() implies text::text_less(
                    #[trigger] t[a],
                    #[trigger] t[b],
                ) by {
                    let a0 = if a < i { a } else { a - 1 };
                    let b0 = if b < i { b } else { b - 1 };
                    if a == i {
                        assert(t[b] == before.keys@[b0]@);
                        assert(!text::text_less(before.keys@[b0]@, k));
                        text::text_less_total(k, t[b]);
                        if t[b] == k {
                            assert(t0[b0] == k);
                            assert(t0.contains(k));
                        }
                    } else if b == i {
                        assert(t[a] == before.keys@[a0]@);
                    } else {
                        assert(t[a] == t0[a0] && t[b] == t0[b0]);
                    }
                }
            }
        }
        *self = TextMap { keys, values };
        proof {
            let t0 = texts(before.keys@);
            let t = texts(self.keys@);
            let wanted = before@.insert(k, value@);
            assert(self.wf());
            assert forall|x: Seq<char>| self@.contains_key(x) <==> wanted.contains_key(x) by {
                if t.contains(x) && x != k {
                    let n = choose|n: int| 0 <= n < t.len() && t[n] == x;
                    let m = if found || n < i { n } else { n - 1 };
                    assert(t0[m] == x);
                    assert(t0.contains(x));
                }
                if t0.contains(x) {
                    let n = choose|n: int| 0 <= n < t0.len() && t0[n] == x;
                    let m = if found || n < i { n } else { n + 1 };
                    assert(t[m] == x);
                    assert(t.contains(x));
                }
                assert(t[i as int] == k);
                assert(t.contains(k));
            }
            assert forall|x: Seq<char>| self@.contains_key(x) implies self@[x] == wanted[x] by {
                let n = choose|n: int| 0 <= n < t.len() && t[n] == x;
                assert(self.keys@[n]@ == x);
                self.lemma_at(n);
                self.lemma_at(i as int);
                if x != k {
                    let m = if found || n < i { n } else { n - 1 };
                    assert(before.keys@[m]@ == x);
                    before.lemma_at(m);
                } else {
                    assert(self.keys@[i as int]@ == k);
                    assert(n == i);
                }
            }
            assert(self@ =~= wanted);
        }
        r
    }

    proof fn lemma_at_all(self)
        requires
            self.wf(),
        ensures
            forall|i: int|
                0 <= i < self.keys@.len() ==> self@.contains_key(#[trigger] self.keys@[i]@)
                    && self@[self.keys@[i]@] == self.values@[i]@,
    {
        assert forall|i: int| 0 <= i < self.keys@.len() implies self@.contains_key(
            #[trigger] self.keys@[i]@,
        ) && self@[self.keys@[i]@] == self.values@[i]@ by {
            self.lemma_at(i);
        }
    }

    /// Drop a key, giving back the value it had.
    pub fn remove(&mut self, key: &str) -> (r: Option<V>)
        ensures
            final(self)@ == old(self)@.remove(key@),
            match r {
                Some(v) => old(self)@.contains_key(key@) && v@ == old(self)@[key@],
                None => !old(self)@.contains_key(key@),
            },
    {
        proof {
            use_type_invariant(&*self);
        }
        let i: usize = self.position(key);
        if !self.found(i, key) {
            assert(self@ =~= old(self)@.remove(key@));
            return None;
        }
        let ghost before = *self;
        let mut held = TextMap { keys: Vec::new(), values: Vec::new() };
        std::mem::swap(&mut held, self);
        let mut keys = held.keys;
        let mut values = held.values;
        keys.remove(i);
        let value = values.remove(i);
        proof {
            before.lemma_at_all();
            let t0 = texts(before.keys@);
            let t = texts(keys@);
            assert forall|a: int, b: int| 0 <= a < b < t.len() implies text::text_less(
                #[trigger] t[a],
                #[trigger] t[b],
            ) by {
                let a0 = if a < i { a } else { a + 1 };
                let b0 = if b < i { b } else { b + 1 };
                assert(t[a] == t0[a0] && t[b] == t0[b0]);
            }
        }
        *self = TextMap { keys, values };
        proof {
            let t0 = texts(before.keys@);
            let t = texts(self.keys@);
            let wanted = before@.remove(key@);
            assert(self.wf());
            assert forall|x: Seq<char>| self@.contains_key(x) <==> wanted.contains_key(x) by {
                if t.contains(x) {
                    let n = choose|n: int| 0 <= n < t.len() && t[n] == x;
                    let m = if n < i { n } else { n + 1 };
                    assert(before.keys@[m]@ == x);
                    assert(t0[m] == x);
                    assert(t0.contains(x));
                    before.lemma_at(m);
                    before.lemma_at(i as int);
                }
                if t0.contains(x) && x != key@ {
                    let n = choose|n: int| 0 <= n < t0.len() && t0[n] == x;
                    let m = if n < i { n } else { n - 1 };
                    assert(t[m] == x);
                    assert(t.contains(x));
                }
            }
            assert forall|x: Seq<char>| self@.contains_key(x) implies self@[x] == wanted[x] by {
                let n = choose|n: int| 0 <= n < t.len() && t[n] == x;
                assert(self.keys@[n]@ == x);
                self.lemma_at(n);
                let m = if n < i { n } else { n + 1 };
                assert(before.keys@[m]@ == x);
                before.lemma_at(m);
                before.lemma_at(i as int);
                assert(x != key@);
            }
            assert(self@ =~= wanted);
        }
        Some(value)
    }
}

impl<V: View + Clone> TextMap<V> {
    /// A copy of the map, given that copying a value keeps what it stands for.
    pub fn copy(&self) -> (r: Self)
        requires
            forall|a: &V, b: V| #[trigger] call_ensures(V::clone, (a,), b) ==> a@ == b@,
            forall|a: &V| #[trigger] call_requires(V::clone, (a,)),
        ensures
            r@ == self@,
    {
        proof {
            use_type_invariant(self);
        }
        let mut keys: Vec<String> = Vec::new();
        let mut values: Vec<V> = Vec::new();
        let mut i: usize = 0;
        while i < self.keys.len()
            invariant
                i <= self.keys@.len(),
                self.wf(),
                keys@.len() == i,
                values@.len() == i,
                forall|a: &V, b: V| #[trigger] call_ensures(V::clone, (a,), b) ==> a@ == b@,
                forall|a: &V| #[trigger] call_requires(V::clone, (a,)),
                forall|j: int| 0 <= j < i ==> #[trigger] keys@[j]@ == self.keys@[j]@,
                forall|j: int| 0 <= j < i ==> #[trigger] values@[j]@ == self.values@[j]@,
            decreases self.keys@.len() - i,
        {
            keys.push(self.keys[i].clone());
            values.push(self.values[i].clone());
            i += 1;
        }
        assert(texts(keys@) == texts(self.keys@));
        let r = TextMap { keys, values };
        proof {
            let t = texts(self.keys@);
            assert forall|x: Seq<char>| self@.contains_key(x) implies self@[x] == r@[x] by {
                let n = choose|n: int| 0 <= n < t.len() && t[n] == x;
                assert(self.keys@[n]@ == x);
                assert(r.keys@[n]@ == x);
                self.lemma_at(n);
                r.lemma_at(n);
            }
            assert(r@ =~= self@);
        }
        r
    }
}

} // verus!
