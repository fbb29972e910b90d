//! Tags, and the expressions by which a pass selects what it draws.
//!
//! A thing carries the tags it was made with; a pass draws what matches an
//! expression over tags. Neither has to know of the other.

use vstd::prelude::*;

use crate::text;
use crate::textmap;
use crate::textmap::TextMap;

verus! {

/// The tag that a material has unless it says otherwise.
pub const TAG_OPAQUE: &'static str = "opaque";

/// The usual tag of a material that blends.
pub const TAG_TRANSPARENT: &'static str = "transparent";

#[derive(Clone, Copy, Debug, PartialEq)]
struct Held;

impl View for Held {
    type V = ();

    open spec fn view(&self) -> () {
        ()
    }
}

/// A set of tags, in order.
#[derive(Debug, PartialEq)]
pub struct Tags {
    held: TextMap<Held>,
}

impl View for Tags {
    type V = Set<Seq<char>>;

    closed spec fn view(&self) -> Set<Seq<char>> {
        self.held@.dom()
    }
}

impl Clone for Tags {
    fn clone(&self) -> (r: Self)
        ensures
            r@ == self@,
    {
        Tags { held: self.held.copy() }
    }
}

impl Default for Tags {
    fn default() -> (r: Self)
        ensures
            r@ == Set::<Seq<char>>::empty(),
    {
        Tags::new()
    }
}

/// The first `n` of these texts as a set.
pub open spec fn tag_set(s: Seq<Seq<char>>, n: int) -> Set<Seq<char>>
    decreases n,
{
    if n <= 0 {
        Set::empty()
    } else {
        tag_set(s, n - 1).insert(s[n - 1])
    }
}

/// The first `n` of these texts, parted by spaces.
pub open spec fn spaced(s: Seq<Seq<char>>, n: int) -> Seq<char>
    decreases n,
{
    if n <= 0 {
        ""@
    } else {
        spaced(s, n - 1) + (if n == 1 {
            ""@
        } else {
            " "@
        }) + s[n - 1]
    }
}

impl Tags {
    /// No tags.
    pub fn new() -> (r: Self)
        ensures
            r@ == Set::<Seq<char>>::empty(),
    {
        let r = Tags { held: TextMap::new() };
        assert(r@ =~= Set::<Seq<char>>::empty());
        r
    }

    /// These tags.
    pub fn from_iter(tags: &[&str]) -> (r: Self)
        ensures
            r@ == tag_set(text::seq_of(tags@), tags@.len() as int),
    {
        let ghost s = text::seq_of(tags@);
        let mut r = Tags::new();
        let mut i: usize = 0;
        while i < tags.len()
            invariant
                i <= s.len() == tags@.len(),
                s == text::seq_of(tags@),
                r@ == tag_set(s, i as int),
            decreases s.len() - i,
        {
            assert(s[i as int] == tags@[i as int]@);
            r.insert(tags[i]);
            i += 1;
        }
        r
    }

    /// Whether a tag is in the set.
    pub fn contains(&self, tag: &str) -> (r: bool)
        ensures
            r == self@.contains(tag@),
    {
        self.held.contains_key(tag)
    }

    /// Add a tag.
    pub fn insert(&mut self, tag: &str)
        ensures
            final(self)@ == old(self)@.insert(tag@),
    {
        self.held.insert(tag.to_owned(), Held);
        assert(self@ =~= old(self)@.insert(tag@));
    }

    /// Remove a tag, answering whether it was there.
    pub fn remove(&mut self, tag: &str) -> (r: bool)
        ensures
            r == old(self)@.contains(tag@),
            final(self)@ == old(self)@.remove(tag@),
    {
        let r = self.held.remove(tag).is_some();
        assert(self@ =~= old(self)@.remove(tag@));
        r
    }

    /// The tags, in order, each once.
    pub fn iter(&self) -> (r: Vec<&str>)
        ensures
            text::seq_of(r@) == textmap::in_order(self@),
            textmap::lists(text::seq_of(r@), self@),
    {
        let ghost names = textmap::in_order(self@);
        let n: usize = self.held.len();
        let mut r: Vec<&str> = Vec::new();
        let mut i: usize = 0;
        while i < n
            invariant
                i <= n == names.len(),
                names == textmap::in_order(self@),
                text::seq_of(r@) == names.take(i as int),
            decreases n - i,
        {
            let ghost before = text::seq_of(r@);
            r.push(self.held.key_at(i));
            assert(text::seq_of(r@) =~= before.push(names[i as int]));
            assert(text::seq_of(r@) =~= names.take(i + 1));
            i += 1;
        }
        assert(names.take(n as int) =~= names);
        r
    }

    /// The number of tags.
    pub fn len(&self) -> (r: usize)
        ensures
            r == textmap::in_order(self@).len(),
            textmap::lists(textmap::in_order(self@), self@),
    {
        self.held.len()
    }

    /// Whether there are no tags.
    pub fn is_empty(&self) -> (r: bool)
        ensures
            r == (self@ == Set::<Seq<char>>::empty()),
    {
        let r = self.held.is_empty();
        proof {
            if r {
                assert(self@ =~= Set::<Seq<char>>::empty());
            } else if self@ == Set::<Seq<char>>::empty() {
                assert(self.held@ =~= Map::<Seq<char>, ()>::empty());
            }
        }
        r
    }

    /// The tags in order, parted by spaces.
    pub fn text(&self) -> (r: String)
        ensures
            r@ == spaced(textmap::in_order(self@), textmap::in_order(self@).len() as int),
    {
        let tags = self.iter();
        let ghost s = text::seq_of(tags@);
        let mut out = "".to_owned();
        let mut i: usize = 0;
        while i < tags.len()
            invariant
                i <= s.len() == tags@.len(),
                s == text::seq_of(tags@),
                out@ == spaced(s, i as int),
            decreases s.len() - i,
        {
            assert(s[i as int] == tags@[i as int]@);
            out.append(if i == 0 { "" } else { " " });
            out.append(tags[i]);
            i += 1;
        }
        out
    }
}

} // verus!
