//! Stable sorting.

use vstd::prelude::*;

use crate::text;

verus! {

/// `x` put into `s` behind everything it does not come before.
pub open spec fn put_in<A>(s: Seq<A>, x: A, less: spec_fn(A, A) -> bool) -> Seq<A>
    decreases s.len(),
{
    if s.len() == 0 || !less(x, s.last()) {
        s.push(x)
    } else {
        put_in(s.drop_last(), x, less).push(s.last())
    }
}

/// `s` in the order of `less`, with equal elements in the order they had.
pub open spec fn sorted<A>(s: Seq<A>, less: spec_fn(A, A) -> bool) -> Seq<A>
    decreases s.len(),
{
    if s.len() == 0 {
        s
    } else {
        put_in(sorted(s.drop_last(), less), s.last(), less)
    }
}

/// No element comes before one that stands in front of it.
pub open spec fn ordered<A>(s: Seq<A>, less: spec_fn(A, A) -> bool) -> bool {
    forall|i: int, j: int| 0 <= i < j < s.len() ==> !less(#[trigger] s[j], #[trigger] s[i])
}

/// `less` is a strict order whose ties are transitive.
pub open spec fn strict_order<A>(less: spec_fn(A, A) -> bool) -> bool {
    &&& forall|a: A, b: A| #[trigger] less(a, b) ==> !less(b, a)
    &&& forall|a: A, b: A, c: A|
        !(#[trigger] less(b, a)) && !(#[trigger] less(c, b)) ==> !less(c, a)
}

proof fn lemma_put_in_at<A>(s: Seq<A>, x: A, less: spec_fn(A, A) -> bool, k: int)
    requires
        0 <= k <= s.len(),
        forall|j: int| k <= j < s.len() ==> less(x, #[trigger] s[j]),
        k > 0 ==> !less(x, s[k - 1]),
    ensures
        put_in(s, x, less) == s.insert(k, x),
    decreases s.len(),
{
    if k == s.len() {
        assert(s.insert(k, x) =~= s.push(x));
    } else {
        let t = s.drop_last();
        assert(less(x, s[s.len() - 1]));
        assert forall|j: int| k <= j < t.len() implies less(x, #[trigger] t[j]) by {
            assert(t[j] == s[j]);
        }
        lemma_put_in_at(t, x, less, k);
        assert(s.insert(k, x) =~= t.insert(k, x).push(s.last()));
    }
}

/// Putting an element in keeps the order and adds just that element.
pub proof fn lemma_put_in<A>(s: Seq<A>, x: A, less: spec_fn(A, A) -> bool)
    requires
        strict_order(less),
        ordered(s, less),
    ensures
        ordered(put_in(s, x, less), less),
        put_in(s, x, less).to_multiset() == s.to_multiset().insert(x),
        put_in(s, x, less).len() == s.len() + 1,
        forall|y: A|
            #[trigger] put_in(s, x, less).contains(y) <==> s.contains(y) || y == x,
    decreases s.len(),
{
    broadcast use vstd::seq_lib::group_to_multiset_ensures;

    let r = put_in(s, x, less);
    if s.len() == 0 || !less(x, s.last()) {
        assert forall|i: int, j: int| 0 <= i < j < r.len() implies !less(
            #[trigger] r[j],
            #[trigger] r[i],
        ) by {
            if j == s.len() && i < s.len() - 1 {
                assert(!less(s[s.len() - 1], s[i]));
                assert(!less(x, s[s.len() - 1]));
            }
        }
        assert forall|y: A| #[trigger] r.contains(y) <==> s.contains(y) || y == x by {
            if s.contains(y) {
                let i = choose|i: int| 0 <= i < s.len() && s[i] == y;
                assert(r[i] == y);
            }
            assert(r[s.len() as int] == x);
        }
    } else {
        let t = s.drop_last();
        let last = s.last();
        lemma_put_in(t, x, less);
        let u = put_in(t, x, less);
        assert(s =~= t.push(last));
        assert(r.to_multiset() =~= s.to_multiset().insert(x));
        assert forall|i: int, j: int| 0 <= i < j < r.len() implies !less(
            #[trigger] r[j],
            #[trigger] r[i],
        ) by {
            if j == u.len() {
                assert(u.contains(u[i]));
                if t.contains(u[i]) {
                    let k = choose|k: int| 0 <= k < t.len() && t[k] == u[i];
                    assert(!less(s[s.len() - 1], s[k]));
                }
            } else {
                assert(r[i] == u[i] && r[j] == u[j]);
            }
        }
        assert forall|y: A| #[trigger] r.contains(y) <==> s.contains(y) || y == x by {
            if r.contains(y) {
                let i = choose|i: int| 0 <= i < r.len() && r[i] == y;
                if i < u.len() {
                    assert(u[i] == y);
                    assert(u.contains(y));
                    if t.contains(y) {
                        let k = choose|k: int| 0 <= k < t.len() && t[k] == y;
                        assert(s[k] == y);
                    }
                } else {
                    assert(s[s.len() - 1] == y);
                }
            }
            if s.contains(y) || y == x {
                if y != last {
                    if s.contains(y) {
                        let k = choose|k: int| 0 <= k < s.len() && s[k] == y;
                        assert(t[k] == y);
                    }
                    assert(u.contains(y));
                    let i = choose|i: int| 0 <= i < u.len() && u[i] == y;
                    assert(r[i] == y);
                } else {
                    assert(r[u.len() as int] == y);
                }
            }
        }
    }
}

/// Sorting puts the elements in order, and loses and adds none.
pub proof fn lemma_sorted<A>(s: Seq<A>, less: spec_fn(A, A) -> bool)
    requires
        strict_order(less),
    ensures
        ordered(sorted(s, less), less),
        sorted(s, less).to_multiset() == s.to_multiset(),
        sorted(s, less).len() == s.len(),
        forall|y: A| #[trigger] sorted(s, less).contains(y) <==> s.contains(y),
    decreases s.len(),
{
    broadcast use vstd::seq_lib::group_to_multiset_ensures;

    if s.len() > 0 {
        let t = s.drop_last();
        lemma_sorted(t, less);
        lemma_put_in(sorted(t, less), s.last(), less);
        assert(s =~= t.push(s.last()));
        assert forall|y: A| #[trigger] sorted(s, less).contains(y) <==> s.contains(y) by {
            assert(put_in(sorted(t, less), s.last(), less).contains(y) <==> sorted(
                t,
                less,
            ).contains(y) || y == s.last());
            assert(sorted(t, less).contains(y) <==> t.contains(y));
            if s.contains(y) {
                let k = choose|k: int| 0 <= k < s.len() && s[k] == y;
                if k < t.len() {
                    assert(t[k] == y);
                }
            }
            if t.contains(y) {
                let k = choose|k: int| 0 <= k < t.len() && t[k] == y;
                assert(s[k] == y);
            }
            assert(s[s.len() - 1] == s.last());
        }
    }
}

/// Two sequences of the same elements have the same order, where no two
/// different elements tie and none occurs twice.
pub proof fn lemma_order_is_unique<A>(s: Seq<A>, t: Seq<A>, less: spec_fn(A, A) -> bool)
    requires
        ordered(s, less),
        ordered(t, less),
        s.no_duplicates(),
        t.no_duplicates(),
        forall|y: A| s.contains(y) <==> t.contains(y),
        forall|i: int, j: int|
            0 <= i < s.len() && 0 <= j < s.len() && i != j ==> less(#[trigger] s[i], #[trigger] s[j])
                || less(s[j], s[i]),
    ensures
        s == t,
    decreases s.len(),
{
    if s.len() == 0 {
        if t.len() > 0 {
            assert(t.contains(t[0]));
        }
        assert(s =~= t);
    } else {
        assert(s.contains(s[0]));
        assert(t.len() > 0);
        let a = s[s.len() - 1];
        let b = t[t.len() - 1];
        assert(s.contains(a) && t.contains(b));
        assert(t.contains(a) && s.contains(b));
        let i = choose|i: int| 0 <= i < t.len() && t[i] == a;
        let j = choose|j: int| 0 <= j < s.len() && s[j] == b;
        if a != b {
            assert(!less(t[t.len() - 1], t[i]));
            assert(!less(s[s.len() - 1], s[j]));
            assert(less(s[j], s[s.len() - 1]) || less(s[s.len() - 1], s[j]));
        }
        let s1 = s.drop_last();
        let t1 = t.drop_last();
        assert forall|y: A| s1.contains(y) <==> t1.contains(y) by {
            if s1.contains(y) {
                let n = choose|n: int| 0 <= n < s1.len() && s1[n] == y;
                assert(s[n] == y && y != a);
                assert(s.contains(y));
                let m = choose|m: int| 0 <= m < t.len() && t[m] == y;
                assert(t1[m] == y);
            }
            if t1.contains(y) {
                let n = choose|n: int| 0 <= n < t1.len() && t1[n] == y;
                assert(t[n] == y && y != b);
                assert(t.contains(y));
                let m = choose|m: int| 0 <= m < s.len() && s[m] == y;
                assert(s1[m] == y);
            }
        }
        assert forall|i: int, j: int|
            0 <= i < s1.len() && 0 <= j < s1.len() && i != j implies less(
            #[trigger] s1[i],
            #[trigger] s1[j],
        ) || less(s1[j], s1[i]) by {
            assert(less(s[i], s[j]) || less(s[j], s[i]));
        }
        lemma_order_is_unique(s1, t1, less);
        assert(s =~= s1.push(a));
        assert(t =~= t1.push(b));
    }
}

/// `v` in the order of `less`, with equal elements in the order they had.
pub fn sort_stable<T: View, F: Fn(&T, &T) -> bool>(
    v: Vec<T>,
    less: F,
    Ghost(order): Ghost<spec_fn(T::V, T::V) -> bool>,
) -> (r: Vec<T>)
    requires
        forall|a: &T, b: &T| #[trigger] call_requires(less, (a, b)),
        forall|a: &T, b: &T, c: bool|
            #[trigger] call_ensures(less, (a, b), c) ==> c == order(a@, b@),
    ensures
        text::seq_of(r@) == sorted(text::seq_of(v@), order),
{
    let ghost s = text::seq_of(v@);
    let mut rest = v;
    let mut r: Vec<T> = Vec::new();
    let ghost mut done: int = 0;
    assert(text::seq_of(r@) =~= sorted(s.take(0), order));
    assert(s.skip(0) =~= s);
    while rest.len() > 0
        invariant
            0 <= done <= s.len(),
            text::seq_of(rest@) == s.skip(done),
            text::seq_of(r@) == sorted(s.take(done), order),
            forall|a: &T, b: &T| #[trigger] call_requires(less, (a, b)),
            forall|a: &T, b: &T, c: bool|
                #[trigger] call_ensures(less, (a, b), c) ==> c == order(a@, b@),
        decreases rest@.len(),
    {
        let ghost before = rest@;
        let x = rest.remove(0);
        proof {
            assert(x@ == text::seq_of(before)[0]);
            assert(text::seq_of(before).len() == before.len());
            assert(s.skip(done)[0] == s[done]);
            assert forall|i: int| 0 <= i < rest@.len() implies #[trigger] rest@[i]@ == s.skip(
                done + 1,
            )[i] by {
                assert(text::seq_of(before)[i + 1] == s.skip(done)[i + 1]);
            }
            assert(text::seq_of(rest@) =~= s.skip(done + 1));
            assert(s.take(done + 1).drop_last() =~= s.take(done));
        }
        let mut k: usize = r.len();
        while k > 0 && less(&x, &r[k - 1])
            invariant
                k <= r@.len(),
                forall|j: int| k <= j < r@.len() ==> order(x@, #[trigger] text::seq_of(r@)[j]),
                forall|a: &T, b: &T| #[trigger] call_requires(less, (a, b)),
                forall|a: &T, b: &T, c: bool|
                    #[trigger] call_ensures(less, (a, b), c) ==> c == order(a@, b@),
            decreases k,
        {
            k -= 1;
        }
        proof {
            lemma_put_in_at(text::seq_of(r@), x@, order, k as int);
        }
        let ghost old_r = r@;
        let ghost xv = x@;
        r.insert(k, x);
        proof {
            assert(text::seq_of(r@) =~= text::seq_of(old_r).insert(k as int, xv));
            done = done + 1;
        }
    }
    assert(s.take(done) =~= s);
    r
}


/// What is in order stays as it is.
pub proof fn lemma_sorted_already<A>(s: Seq<A>, less: spec_fn(A, A) -> bool)
    requires
        ordered(s, less),
    ensures
        sorted(s, less) == s,
    decreases s.len(),
{
    if s.len() > 0 {
        let t = s.drop_last();
        assert forall|i: int, j: int| 0 <= i < j < t.len() implies !less(
            #[trigger] t[j],
            #[trigger] t[i],
        ) by {
            assert(t[i] == s[i] && t[j] == s[j]);
        }
        lemma_sorted_already(t, less);
        if t.len() > 0 {
            assert(t.last() == s[s.len() - 2]);
            assert(!less(s[s.len() - 1], s[s.len() - 2]));
        }
        assert(t.push(s.last()) =~= s);
    }
}

} // verus!
