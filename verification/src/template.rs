//! Text with holes `${NAME}`, filled from a table.
//!
//! Filling is strict: a table that names no hole of the text, or one twice,
//! and a hole that the table does not fill are problems, not half-filled text.

use vstd::prelude::*;

use crate::lists;
use crate::text;
use crate::text::{chars_of, find_char, same_text, text_of};

verus! {

/// What fills which hole.
pub type Holes = Seq<(Seq<char>, Seq<char>)>;

/// How a hole is written.
pub open spec fn hole_text(name: Seq<char>) -> Seq<char> {
    "${"@ + name + "}"@
}

/// Whether a text stands at a position of another.
pub open spec fn text_at(s: Seq<char>, i: int, t: Seq<char>) -> bool {
    0 <= i && i + t.len() <= s.len() && s.subrange(i, i + t.len()) == t
}

/// Whether a text stands anywhere in another.
pub open spec fn occurs(s: Seq<char>, t: Seq<char>) -> bool {
    exists|i: int| #[trigger] text_at(s, i, t)
}

/// Being the entry whose hole stands at a position.
pub open spec fn fills_at(s: Seq<char>, i: int) -> spec_fn((Seq<char>, Seq<char>)) -> bool {
    |h: (Seq<char>, Seq<char>)| text_at(s, i, hole_text(h.0))
}

/// The text from a position on with every hole of the table filled, in one
/// pass: what is filled in is not looked at again.
pub open spec fn filled(out: Seq<char>, s: Seq<char>, holes: Holes, i: int) -> Seq<char>
    decreases s.len() - i,
{
    if !(0 <= i < s.len()) {
        out
    } else {
        match lists::first_where(holes, fills_at(s, i)) {
            Some(h) => if 0 < hole_text(h.0).len() <= s.len() - i {
                filled(out + h.1, s, holes, i + hole_text(h.0).len())
            } else {
                out
            },
            None => filled(out.push(s[i]), s, holes, i + 1),
        }
    }
}

/// What is wrong with a table of holes.
#[derive(Debug, PartialEq)]
pub enum FillError {
    /// The table names one hole twice.
    Twice {
        /// The hole.
        name: String,
    },
    /// The table names a hole that the text has not.
    NoHole {
        /// The hole.
        name: String,
    },
    /// A hole is left.
    Left {
        /// The hole, as it stands.
        hole: String,
    },
}

/// What a [`FillError`] stands for.
#[verifier::ext_equal]
pub enum FillErrorView {
    /// The table names one hole twice.
    Twice {
        /// The hole.
        name: Seq<char>,
    },
    /// The table names a hole that the text has not.
    NoHole {
        /// The hole.
        name: Seq<char>,
    },
    /// A hole is left.
    Left {
        /// The hole, as it stands.
        hole: Seq<char>,
    },
}

impl View for FillError {
    type V = FillErrorView;

    open spec fn view(&self) -> FillErrorView {
        match self {
            FillError::Twice { name } => FillErrorView::Twice { name: name@ },
            FillError::NoHole { name } => FillErrorView::NoHole { name: name@ },
            FillError::Left { hole } => FillErrorView::Left { hole: hole@ },
        }
    }
}

/// The message of an error.
pub open spec fn fill_error_text(e: FillErrorView) -> Seq<char> {
    match e {
        FillErrorView::Twice { name } => "hole `"@ + name
            + "` appears twice in the generator's table"@,
        FillErrorView::NoHole { name } => "template names no hole `"@ + name
            + "`: check the generator's hole table against the file"@,
        FillErrorView::Left { hole } => "template still names hole `"@ + hole
            + "` after filling: the generator's table is missing an entry"@,
    }
}

impl FillError {
    /// The message of the error.
    pub fn text(&self) -> (r: String)
        ensures
            r@ == fill_error_text(self@),
    {
        match self {
            FillError::Twice { name } => {
                let mut out = "hole `".to_owned();
                out.append(name.as_str());
                out.append("` appears twice in the generator's table");
                out
            },
            FillError::NoHole { name } => {
                let mut out = "template names no hole `".to_owned();
                out.append(name.as_str());
                out.append("`: check the generator's hole table against the file");
                out
            },
            FillError::Left { hole } => {
                let mut out = "template still names hole `".to_owned();
                out.append(hole.as_str());
                out.append("` after filling: the generator's table is missing an entry");
                out
            },
        }
    }
}

/// Whether one of the first `n` entries names a hole.
pub open spec fn named_before(holes: Holes, name: Seq<char>, n: int) -> bool {
    exists|i: int| 0 <= i < n && (#[trigger] holes[i]).0 == name
}

/// The first entry from the `i`th on that names a hole for the second time.
pub open spec fn twice_named(holes: Holes, i: int) -> Option<Seq<char>>
    decreases holes.len() - i,
{
    if i >= holes.len() {
        None
    } else if named_before(holes, holes[i].0, i) {
        Some(holes[i].0)
    } else {
        twice_named(holes, i + 1)
    }
}

/// The first entry from the `i`th on that names a hole which the text has not.
pub open spec fn unused_name(s: Seq<char>, holes: Holes, i: int) -> Option<Seq<char>>
    decreases holes.len() - i,
{
    if i >= holes.len() {
        None
    } else if !occurs(s, hole_text(holes[i].0)) {
        Some(holes[i].0)
    } else {
        unused_name(s, holes, i + 1)
    }
}

/// The first position from `i` on at which a hole starts, or the end.
pub open spec fn hole_start(s: Seq<char>, i: int) -> int
    decreases s.len() - i,
{
    if i + 1 >= s.len() {
        s.len() as int
    } else if s[i] == '$' && s[i + 1] == '{' {
        i
    } else {
        hole_start(s, i + 1)
    }
}

/// The first hole in a text, up to the brace that closes it or the end.
pub open spec fn left_hole(s: Seq<char>) -> Option<Seq<char>> {
    let at = hole_start(s, 0);
    let close = text::next_char(s, '}', at);
    if at >= s.len() {
        None
    } else {
        Some(
            s.subrange(
                at,
                if close < s.len() {
                    close + 1
                } else {
                    s.len() as int
                },
            ),
        )
    }
}

/// What is wrong with filling a text from a table, if anything.
pub open spec fn fill_problem(s: Seq<char>, holes: Holes) -> Option<FillErrorView> {
    match twice_named(holes, 0) {
        Some(name) => Some(FillErrorView::Twice { name }),
        None => match unused_name(s, holes, 0) {
            Some(name) => Some(FillErrorView::NoHole { name }),
            None => match left_hole(filled(""@, s, holes, 0)) {
                Some(hole) => Some(FillErrorView::Left { hole }),
                None => None,
            },
        },
    }
}

/// How a hole is written.
fn write_hole(name: &str) -> (r: Vec<char>)
    ensures
        r@ == hole_text(name@),
        r@.len() > 0,
{
    let mut text = "${".to_owned();
    text.append(name);
    text.append("}");
    proof {
        reveal_strlit("${");
        reveal_strlit("}");
    }
    chars_of(text.as_str())
}

/// Whether a text stands at a position of another.
fn stands_at(chars: &Vec<char>, i: usize, t: &Vec<char>) -> (r: bool)
    requires
        i <= chars@.len(),
    ensures
        r == text_at(chars@, i as int, t@),
{
    let n: usize = chars.len();
    if t.len() > n - i {
        return false;
    }
    let mut j: usize = 0;
    while j < t.len()
        invariant
            j <= t@.len() <= n - i,
            n == chars@.len(),
            forall|k: int| 0 <= k < j ==> chars@[i + k] == #[trigger] t@[k],
        decreases t@.len() - j,
    {
        if chars[i + j] != t[j] {
            assert(chars@.subrange(i as int, i + t@.len())[j as int] != t@[j as int]);
            return false;
        }
        j += 1;
    }
    assert(chars@.subrange(i as int, i + t@.len()) =~= t@);
    true
}

/// The entry whose hole stands at a position, and the length of the hole.
fn find_hole<'a>(chars: &Vec<char>, i: usize, holes: &[(&'a str, &'a str)]) -> (r: Option<
    (&'a str, usize),
>)
    requires
        i <= chars@.len(),
    ensures
        match (r, lists::first_where(text::seq_of(holes@), fills_at(chars@, i as int))) {
            (Some((value, len)), Some(h)) => value@ == h.1 && len == hole_text(h.0).len() && len > 0
                && i + len <= chars@.len(),
            (None, None) => true,
            _ => false,
        },
{
    let ghost s = text::seq_of(holes@);
    let ghost p = fills_at(chars@, i as int);
    let mut k: usize = 0;
    assert(s.skip(0) =~= s);
    while k < holes.len()
        invariant
            k <= s.len() == holes@.len(),
            s == text::seq_of(holes@),
            i <= chars@.len(),
            p == fills_at(chars@, i as int),
            lists::first_where(s, p) == lists::first_where(s.skip(k as int), p),
        decreases s.len() - k,
    {
        proof {
            lists::lemma_first_where_skip(s, p, k as int);
        }
        assert(s[k as int] == holes@[k as int]@);
        let hole = write_hole(holes[k].0);
        if stands_at(chars, i, &hole) {
            return Some((holes[k].1, hole.len()));
        }
        k += 1;
    }
    None
}

fn fill_all(template: &str, holes: &[(&str, &str)]) -> (r: String)
    ensures
        r@ == filled(""@, template@, text::seq_of(holes@), 0),
{
    let chars = chars_of(template);
    let ghost s = template@;
    let ghost h = text::seq_of(holes@);
    let mut out = "".to_owned();
    let mut i: usize = 0;
    while i < chars.len()
        invariant
            s == chars@,
            s == template@,
            i <= s.len(),
            h == text::seq_of(holes@),
            filled(out@, s, h, i as int) == filled(""@, s, h, 0),
        decreases s.len() - i,
    {
        match find_hole(&chars, i, holes) {
            Some((value, len)) => {
                out.append(value);
                i += len;
            },
            None => {
                out.push(chars[i]);
                i += 1;
            },
        }
    }
    out
}

fn find_twice<'a>(holes: &[(&'a str, &'a str)]) -> (r: Option<&'a str>)
    ensures
        text::opt_of(r) == twice_named(text::seq_of(holes@), 0),
{
    let ghost s = text::seq_of(holes@);
    let mut i: usize = 0;
    while i < holes.len()
        invariant
            i <= s.len() == holes@.len(),
            s == text::seq_of(holes@),
            twice_named(s, i as int) == twice_named(s, 0),
        decreases s.len() - i,
    {
        assert(s[i as int] == holes@[i as int]@);
        let mut j: usize = 0;
        while j < i
            invariant
                j <= i < s.len() == holes@.len(),
                s == text::seq_of(holes@),
                s[i as int] == holes@[i as int]@,
                twice_named(s, i as int) == twice_named(s, 0),
                forall|k: int| 0 <= k < j ==> (#[trigger] s[k]).0 != s[i as int].0,
            decreases i - j,
        {
            assert(s[j as int] == holes@[j as int]@);
            if same_text(holes[j].0, holes[i].0) {
                assert(named_before(s, s[i as int].0, i as int));
                return Some(holes[i].0);
            }
            j += 1;
        }
        i += 1;
    }
    None
}

fn has_hole(chars: &Vec<char>, name: &str) -> (r: bool)
    ensures
        r == occurs(chars@, hole_text(name@)),
{
    let hole = write_hole(name);
    let mut i: usize = 0;
    while i < chars.len()
        invariant
            i <= chars@.len(),
            hole@ == hole_text(name@),
            forall|k: int| 0 <= k < i ==> !#[trigger] text_at(chars@, k, hole@),
        decreases chars@.len() - i,
    {
        if stands_at(chars, i, &hole) {
            return true;
        }
        i += 1;
    }
    assert forall|k: int| !#[trigger] text_at(chars@, k, hole@) by {
        if k >= chars@.len() {
            assert(hole@.len() > 0);
        }
    }
    false
}

fn find_unused<'a>(template: &str, holes: &[(&'a str, &'a str)]) -> (r: Option<&'a str>)
    ensures
        text::opt_of(r) == unused_name(template@, text::seq_of(holes@), 0),
{
    let chars = chars_of(template);
    let ghost s = text::seq_of(holes@);
    let mut i: usize = 0;
    while i < holes.len()
        invariant
            i <= s.len() == holes@.len(),
            s == text::seq_of(holes@),
            chars@ == template@,
            unused_name(template@, s, i as int) == unused_name(template@, s, 0),
        decreases s.len() - i,
    {
        assert(s[i as int] == holes@[i as int]@);
        if !has_hole(&chars, holes[i].0) {
            return Some(holes[i].0);
        }
        i += 1;
    }
    None
}

fn find_left(text: &str) -> (r: Option<String>)
    ensures
        text::opt_of(r) == left_hole(text@),
{
    let chars = chars_of(text);
    let ghost s = text@;
    let n: usize = chars.len();
    let mut i: usize = 0;
    while i < n && !(n - i > 1 && chars[i] == '$' && chars[i + 1] == '{')
        invariant
            s == chars@,
            n == s.len(),
            i <= n,
            hole_start(s, i as int) == hole_start(s, 0),
        decreases n - i,
    {
        i += 1;
    }
    if i >= n {
        return None;
    }
    let close: usize = find_char(&chars, '}', i);
    let end: usize = if close < n {
        close + 1
    } else {
        n
    };
    Some(text_of(&chars, i, end))
}

/// What is wrong with filling a text from a table, if anything.
pub fn check(template: &str, holes: &[(&str, &str)]) -> (r: Option<FillError>)
    ensures
        text::opt_of(r) == fill_problem(template@, text::seq_of(holes@)),
{
    match find_twice(holes) {
        Some(name) => {
            return Some(FillError::Twice { name: name.to_owned() });
        },
        None => {},
    }
    match find_unused(template, holes) {
        Some(name) => {
            return Some(FillError::NoHole { name: name.to_owned() });
        },
        None => {},
    }
    match find_left(fill_all(template, holes).as_str()) {
        Some(hole) => Some(FillError::Left { hole }),
        None => None,
    }
}

/// Fill every hole of a text from a table. There has to be nothing wrong with
/// that: see [`check`].
pub fn fill(template: &str, holes: &[(&str, &str)]) -> (r: String)
    requires
        fill_problem(template@, text::seq_of(holes@)) is None,
    ensures
        r@ == filled(""@, template@, text::seq_of(holes@), 0),
{
    fill_all(template, holes)
}

} // verus!
