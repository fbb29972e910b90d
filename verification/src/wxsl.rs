//! What generated source text is made of: identifiers, module paths, float
//! literals, and the hash that names a variant.

use vstd::prelude::*;

use crate::float::Float;
use crate::literal;
use crate::text;
use crate::text::{chars_of, is_digit_char, is_letter_char};

verus! {

/// A character that may stand inside an identifier.
pub open spec fn name_char(c: char) -> bool {
    text::letter_char(c) || text::digit_char(c) || c == '_'
}

/// The identifier grammar of WGSL restricted to ASCII: a letter or `_`, then
/// letters, digits and `_`; neither a lone `_` nor a name that starts with two.
pub open spec fn is_ident(s: Seq<char>) -> bool {
    &&& s.len() > 0
    &&& !text::digit_char(s[0])
    &&& forall|i: int| 0 <= i < s.len() ==> #[trigger] name_char(s[i])
    &&& s[0] == '_' ==> s.len() > 1 && s[1] != '_'
}

fn is_ident_slice(chars: &Vec<char>, from: usize, to: usize) -> (r: bool)
    requires
        from <= to <= chars@.len(),
    ensures
        r == is_ident(chars@.subrange(from as int, to as int)),
{
    let ghost s = chars@.subrange(from as int, to as int);
    if from == to {
        return false;
    }
    if is_digit_char(chars[from]) {
        return false;
    }
    let mut i: usize = from;
    while i < to
        invariant
            from <= i <= to <= chars@.len(),
            s == chars@.subrange(from as int, to as int),
            forall|j: int| 0 <= j < i - from ==> #[trigger] name_char(s[j]),
        decreases to - i,
    {
        let c = chars[i];
        if !(is_letter_char(c) || is_digit_char(c) || c == '_') {
            assert(!name_char(s[i - from]));
            return false;
        }
        i += 1;
    }
    if chars[from] == '_' {
        to - from > 1 && chars[from + 1] != '_'
    } else {
        true
    }
}

/// A validated identifier. Names end up verbatim in generated source, so a
/// malformed one is refused where it is made.
#[derive(Debug, PartialEq)]
pub struct WxslIdent {
    text: String,
}

impl View for WxslIdent {
    type V = Seq<char>;

    closed spec fn view(&self) -> Seq<char> {
        self.text@
    }
}

impl Clone for WxslIdent {
    fn clone(&self) -> (r: Self)
        ensures
            r@ == self@,
    {
        proof {
            use_type_invariant(self);
        }
        WxslIdent { text: self.text.clone() }
    }
}

impl WxslIdent {
    #[verifier::type_invariant]
    spec fn wf(self) -> bool {
        is_ident(self.text@)
    }

    /// Validate `name` as an identifier.
    pub fn new(name: &str) -> (r: Option<Self>)
        ensures
            r is Some <==> is_ident(name@),
            r is Some ==> r->0@ == name@,
    {
        let chars = chars_of(name);
        assert(chars@.subrange(0, chars@.len() as int) == chars@);
        if is_ident_slice(&chars, 0, chars.len()) {
            Some(WxslIdent { text: name.to_owned() })
        } else {
            None
        }
    }

    /// The identifier as a string slice.
    pub fn as_str(&self) -> (r: &str)
        ensures
            r@ == self@,
            is_ident(self@),
    {
        proof {
            use_type_invariant(self);
        }
        self.text.as_str()
    }
}

/// Whether `::` stands at position `i`.
pub open spec fn separator_at(s: Seq<char>, i: int) -> bool {
    0 <= i && i + 1 < s.len() && s[i] == ':' && s[i + 1] == ':'
}

/// The first position from `i` on at which `::` stands, or the end.
pub open spec fn next_separator(s: Seq<char>, i: int) -> int
    decreases s.len() - i,
{
    if i >= s.len() || separator_at(s, i) {
        i
    } else {
        next_separator(s, i + 1)
    }
}

/// Every part of `s` from position `i` on, parted at `::`, is an identifier.
pub open spec fn path_from(s: Seq<char>, i: int) -> bool
    decreases s.len() - i,
{
    let k = next_separator(s, i);
    if k < i || k > s.len() {
        false
    } else {
        &&& is_ident(s.subrange(i, k))
        &&& separator_at(s, k) ==> path_from(s, k + 2)
    }
}

/// A `::`-separated path of identifiers.
pub open spec fn is_module_path(s: Seq<char>) -> bool {
    path_from(s, 0)
}

/// A module path such as `package::lighting::pbr`.
#[derive(Debug, PartialEq)]
pub struct ModulePath {
    text: String,
}

impl View for ModulePath {
    type V = Seq<char>;

    closed spec fn view(&self) -> Seq<char> {
        self.text@
    }
}

impl Clone for ModulePath {
    fn clone(&self) -> (r: Self)
        ensures
            r@ == self@,
    {
        proof {
            use_type_invariant(self);
        }
        ModulePath { text: self.text.clone() }
    }
}

impl ModulePath {
    #[verifier::type_invariant]
    spec fn wf(self) -> bool {
        is_module_path(self.text@)
    }

    /// Validate `path` as a `::`-separated module path.
    pub fn new(path: &str) -> (r: Option<Self>)
        ensures
            r is Some <==> is_module_path(path@),
            r is Some ==> r->0@ == path@,
    {
        let chars = chars_of(path);
        let n: usize = chars.len();
        let mut start: usize = 0;
        let mut i: usize = 0;
        loop
            invariant
                start <= i <= n == chars@.len(),
                chars@ == path@,
                is_module_path(path@) == path_from(path@, start as int),
                next_separator(path@, start as int) == next_separator(path@, i as int),
            decreases n - i,
        {
            if i >= n {
                if is_ident_slice(&chars, start, n) {
                    return Some(ModulePath { text: path.to_owned() });
                }
                return None;
            }
            if n - i >= 2 && chars[i] == ':' && chars[i + 1] == ':' {
                if !is_ident_slice(&chars, start, i) {
                    return None;
                }
                start = i + 2;
                i = start;
            } else {
                i += 1;
            }
        }
    }

    /// The path as a string slice.
    pub fn as_str(&self) -> (r: &str)
        ensures
            r@ == self@,
            is_module_path(self@),
    {
        proof {
            use_type_invariant(self);
        }
        self.text.as_str()
    }
}

/// Append `value` as a float literal, or leave `out` as it is and answer
/// `None` where the value has no literal form.
pub fn write_f32(out: &mut String, value: Float) -> (r: Option<()>)
    ensures
        match literal::float_literal(value) {
            Some(text) => r is Some && final(out)@ == old(out)@ + text,
            None => r is None && final(out)@ == old(out)@,
        },
{
    match value.literal() {
        Some(text) => {
            out.append(text.as_str());
            Some(())
        },
        None => None,
    }
}

/// FNV-1a over `bytes`.
pub open spec fn fnv(bytes: Seq<u8>) -> u64
    decreases bytes.len(),
{
    if bytes.len() == 0 {
        0xcbf2_9ce4_8422_2325u64
    } else {
        (fnv(bytes.drop_last()) ^ (bytes.last() as u64)).wrapping_mul(0x0000_0100_0000_01b3u64)
    }
}

/// FNV-1a over the UTF-8 form of `text`.
pub open spec fn text_hash(text: Seq<char>) -> u64 {
    fnv(vstd::utf8::encode_utf8(text))
}

/// A stable 64-bit hash of `bytes` (FNV-1a), the same in every process.
pub fn stable_hash(bytes: &[u8]) -> (r: u64)
    ensures
        r == fnv(bytes@),
{
    let mut hash: u64 = 0xcbf2_9ce4_8422_2325;
    let mut i: usize = 0;
    while i < bytes.len()
        invariant
            i <= bytes@.len(),
            hash == fnv(bytes@.take(i as int)),
        decreases bytes@.len() - i,
    {
        assert(bytes@.take(i + 1).drop_last() == bytes@.take(i as int));
        hash = (hash ^ (bytes[i] as u64)).wrapping_mul(0x0000_0100_0000_01b3);
        i += 1;
    }
    assert(bytes@.take(i as int) == bytes@);
    hash
}

/// The hash of a text.
pub fn hash_text(text: &str) -> (r: u64)
    ensures
        r == text_hash(text@),
{
    stable_hash(text.as_bytes())
}


/// Whether the codes of an odd number of characters are odd.
pub open spec fn oddly_coded(text: Seq<char>) -> bool
    decreases text.len(),
{
    if text.len() == 0 {
        false
    } else {
        oddly_coded(text.drop_last()) != (text.last() as u32 % 2 == 1)
    }
}

pub(crate) proof fn lemma_oddly_coded(a: Seq<char>, b: Seq<char>)
    ensures
        oddly_coded(a + b) == (oddly_coded(a) != oddly_coded(b)),
    decreases b.len(),
{
    if b.len() == 0 {
        assert(a + b =~= a);
    } else {
        lemma_oddly_coded(a, b.drop_last());
        assert((a + b).drop_last() =~= a + b.drop_last());
        assert((a + b).last() == b.last());
    }
}

proof fn lemma_fnv_step(hash: u64, byte: u8)
    ensures
        (hash ^ (byte as u64)).wrapping_mul(0x0000_0100_0000_01b3u64) % 2 == (hash % 2 + byte % 2)
            % 2,
{
    let mixed = hash ^ (byte as u64);
    assert((hash ^ (byte as u64)) % 2 == (hash % 2 + (byte as u64) % 2) % 2) by (bit_vector);
    let kept = mixed.wrapping_mul(0x0000_0100_0000_01b3u64);
    lemma_odd_factor(mixed as int, kept as int);
}

/// A product with this factor, cut to 64 bits, is odd where the number is.
proof fn lemma_odd_factor(x: int, kept: int)
    requires
        kept == (x * 0x0000_0100_0000_01b3) % 0x1_0000_0000_0000_0000,
    ensures
        kept % 2 == x % 2,
{
    let product = x * 0x0000_0100_0000_01b3;
    let q = product / 0x1_0000_0000_0000_0000;
    let m = x * 0x0000_0080_0000_00d9 - q * 0x8000_0000_0000_0000;
    assert(product == q * 0x1_0000_0000_0000_0000 + kept);
    assert(kept == x + 2 * m);
}

proof fn lemma_fnv_parity(bytes: Seq<u8>, text: Seq<char>)
    requires
        bytes.len() == text.len(),
        vstd::utf8::is_ascii_chars(text),
        forall|i: int| 0 <= i < text.len() ==> #[trigger] bytes[i] == text[i] as u8,
    ensures
        fnv(bytes) % 2 == 1 <==> !oddly_coded(text),
    decreases bytes.len(),
{
    if bytes.len() > 0 {
        let b = bytes.drop_last();
        let t = text.drop_last();
        assert forall|i: int| 0 <= i < t.len() implies #[trigger] b[i] == t[i] as u8 by {
            assert(b[i] == bytes[i] && t[i] == text[i]);
        }
        assert(vstd::utf8::is_ascii_chars(t));
        lemma_fnv_parity(b, t);
        lemma_fnv_step(fnv(b), bytes.last());
        assert(bytes[bytes.len() - 1] == text[text.len() - 1] as u8);
        assert('\0' <= text[text.len() - 1] <= '\u{7f}');
    }
}

/// The hash of an ASCII text is odd exactly where an even number of its
/// characters have odd codes.
pub proof fn hashes_keep_parity(text: Seq<char>)
    requires
        vstd::utf8::is_ascii_chars(text),
    ensures
        text_hash(text) % 2 == 1 <==> !oddly_coded(text),
{
    vstd::utf8::is_ascii_chars_encode_utf8(text);
    let bytes = vstd::utf8::encode_utf8(text);
    assert forall|i: int| 0 <= i < text.len() implies #[trigger] bytes[i] == text[i] as u8 by {}
    lemma_fnv_parity(bytes, text);
}

} // verus!
