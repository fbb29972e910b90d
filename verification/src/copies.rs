//! Copies of collections that keep what they stand for.

use vstd::prelude::*;

use crate::text;

verus! {

/// Whether copying a `T` keeps what it stands for.
pub open spec fn faithful<T: View + Clone>() -> bool {
    &&& forall|a: &T, b: T| #[trigger] call_ensures(T::clone, (a,), b) ==> a@ == b@
    &&& forall|a: &T| #[trigger] call_requires(T::clone, (a,))
}

/// A copy of a vector of plain values.
pub fn copy_vec<T: Copy>(v: &Vec<T>) -> (r: Vec<T>)
    ensures
        r@ == v@,
{
    let mut r: Vec<T> = Vec::new();
    let mut i: usize = 0;
    while i < v.len()
        invariant
            i <= v@.len(),
            r@ == v@.take(i as int),
        decreases v@.len() - i,
    {
        r.push(v[i]);
        i += 1;
    }
    r
}

/// A copy of a vector.
pub fn clone_vec<T: View + Clone>(v: &Vec<T>) -> (r: Vec<T>)
    requires
        faithful::<T>(),
    ensures
        text::seq_of(r@) == text::seq_of(v@),
{
    let mut r: Vec<T> = Vec::new();
    let mut i: usize = 0;
    while i < v.len()
        invariant
            i <= v@.len(),
            faithful::<T>(),
            r@.len() == i,
            forall|j: int| 0 <= j < i ==> #[trigger] r@[j]@ == v@[j]@,
        decreases v@.len() - i,
    {
        r.push(v[i].clone());
        i += 1;
    }
    assert(text::seq_of(r@) =~= text::seq_of(v@));
    r
}

/// A copy of an optional value.
pub fn copy_opt<T: View + Clone>(o: &Option<T>) -> (r: Option<T>)
    requires
        faithful::<T>(),
    ensures
        text::opt_of(r) == text::opt_of(*o),
{
    match o {
        Some(x) => Some(x.clone()),
        None => None,
    }
}

} // verus!
