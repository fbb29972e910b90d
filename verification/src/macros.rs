//! Macro variables: the named values that specialise a generated module.

use vstd::prelude::*;

use crate::float;
use crate::float::Float;
use crate::literal;
use crate::text;
use crate::text::signed_decimal_text;
use crate::textmap;
use crate::textmap::TextMap;
use crate::wxsl;
use crate::wxsl::WxslIdent;

verus! {

/// The kind of value a macro holds.
#[derive(Clone, Copy, Debug, PartialEq, Eq, Structural)]
pub enum MacroKind {
    /// A feature switch.
    Flag,
    /// A signed integer.
    Int,
    /// A float.
    Float,
}

impl MacroKind {
    /// The kind as messages name it.
    #[verifier::allow_in_spec]
    pub fn name(self) -> &'static str
        returns
            (match self {
                MacroKind::Flag => "flag",
                MacroKind::Int => "int",
                MacroKind::Float => "float",
            }),
    {
        match self {
            MacroKind::Flag => "flag",
            MacroKind::Int => "int",
            MacroKind::Float => "float",
        }
    }
}

/// The value of a macro variable.
#[derive(Clone, Copy, Debug, PartialEq)]
pub enum MacroValue {
    /// A feature switch.
    Flag(bool),
    /// A signed integer.
    Int(i32),
    /// A float.
    Float(Float),
}

impl View for MacroValue {
    type V = MacroValue;

    open spec fn view(&self) -> MacroValue {
        *self
    }
}

/// Whether two macro values compare equal.
pub open spec fn macro_eq(a: MacroValue, b: MacroValue) -> bool {
    match (a, b) {
        (MacroValue::Flag(x), MacroValue::Flag(y)) => x == y,
        (MacroValue::Int(x), MacroValue::Int(y)) => x == y,
        (MacroValue::Float(x), MacroValue::Float(y)) => float::float_eq(x, y),
        _ => false,
    }
}

/// `true` or `false`.
pub open spec fn bool_text(b: bool) -> Seq<char> {
    if b {
        "true"@
    } else {
        "false"@
    }
}

/// A float as text: its literal where it has one.
pub open spec fn float_text(x: Float) -> Seq<char> {
    match literal::float_literal(x) {
        Some(text) => text,
        None => if float::is_nan(x) {
            "NaN"@
        } else if float::negative(x) {
            "-inf"@
        } else {
            "inf"@
        },
    }
}

/// A macro value as text.
pub open spec fn macro_text(v: MacroValue) -> Seq<char> {
    match v {
        MacroValue::Flag(b) => bool_text(b),
        MacroValue::Int(n) => text::signed_decimal(n as int),
        MacroValue::Float(x) => float_text(x),
    }
}

/// `true` or `false`.
pub fn bool_string(b: bool) -> (r: String)
    ensures
        r@ == bool_text(b),
{
    if b {
        "true".to_owned()
    } else {
        "false".to_owned()
    }
}

impl MacroValue {
    /// The kind of this value.
    #[verifier::allow_in_spec]
    pub fn kind(&self) -> MacroKind
        returns
            (match *self {
                MacroValue::Flag(_) => MacroKind::Flag,
                MacroValue::Int(_) => MacroKind::Int,
                MacroValue::Float(_) => MacroKind::Float,
            }),
    {
        match self {
            MacroValue::Flag(_) => MacroKind::Flag,
            MacroValue::Int(_) => MacroKind::Int,
            MacroValue::Float(_) => MacroKind::Float,
        }
    }

    /// Whether two values compare equal.
    pub fn same(self, other: MacroValue) -> (r: bool)
        ensures
            r == macro_eq(self, other),
    {
        match (self, other) {
            (MacroValue::Flag(x), MacroValue::Flag(y)) => x == y,
            (MacroValue::Int(x), MacroValue::Int(y)) => x == y,
            (MacroValue::Float(x), MacroValue::Float(y)) => x.same(y),
            _ => false,
        }
    }

    /// The value as text.
    pub fn text(&self) -> (r: String)
        ensures
            r@ == macro_text(*self),
    {
        match self {
            MacroValue::Flag(b) => bool_string(*b),
            MacroValue::Int(n) => signed_decimal_text(*n as i64),
            MacroValue::Float(x) => match x.literal() {
                Some(text) => text,
                None => if (x.bits / 0x80_0000) % 256 == 255 && x.bits % 0x80_0000 != 0 {
                    "NaN".to_owned()
                } else if x.bits >= 0x8000_0000 {
                    "-inf".to_owned()
                } else {
                    "inf".to_owned()
                },
            },
        }
    }
}

/// A macro variable a node reads, with the value it takes where nothing pins it.
#[derive(Debug, PartialEq)]
pub struct MacroDef {
    /// The name it has in generated source.
    pub name: WxslIdent,
    /// The value where nothing pins one.
    pub default: MacroValue,
    /// What it switches.
    pub doc: String,
}

/// What a [`MacroDef`] stands for.
#[verifier::ext_equal]
pub struct MacroDefView {
    /// The name it has in generated source.
    pub name: Seq<char>,
    /// The value where nothing pins one.
    pub default: MacroValue,
    /// What it switches.
    pub doc: Seq<char>,
}

impl View for MacroDef {
    type V = MacroDefView;

    open spec fn view(&self) -> MacroDefView {
        MacroDefView {
            name: self.name@,
            default: self.default,
            doc: self.doc@,
        }
    }
}

impl Clone for MacroDef {
    fn clone(&self) -> (r: Self)
        ensures
            r@ == self@,
    {
        MacroDef {
            name: self.name.clone(),
            default: self.default,
            doc: self.doc.clone(),
        }
    }
}

impl MacroDef {
    /// Declare a macro.
    pub fn new(name: &str, default: MacroValue, doc: &str) -> (r: Self)
        requires
            wxsl::is_ident(name@),
        ensures
            r@ == (MacroDefView { name: name@, default, doc: doc@ }),
    {
        MacroDef {
            name: WxslIdent::new(name).unwrap(),
            default,
            doc: doc.to_owned(),
        }
    }
}

/// Macro values by name.
#[derive(Debug, PartialEq)]
pub struct MacroSet {
    values: TextMap<MacroValue>,
}

impl View for MacroSet {
    type V = Map<Seq<char>, MacroValue>;

    closed spec fn view(&self) -> Map<Seq<char>, MacroValue> {
        self.values@
    }
}

impl Clone for MacroSet {
    fn clone(&self) -> (r: Self)
        ensures
            r@ == self@,
    {
        MacroSet { values: self.values.copy() }
    }
}

impl Default for MacroSet {
    fn default() -> (r: Self)
        ensures
            r@ == Map::<Seq<char>, MacroValue>::empty(),
    {
        MacroSet::new()
    }
}

/// The names of `m`, each with its value: `name=value`, parted by `;`.
pub open spec fn macro_list(m: Map<Seq<char>, MacroValue>, names: Seq<Seq<char>>) -> Seq<char>
    decreases names.len(),
{
    if names.len() == 0 {
        ""@
    } else {
        let before = macro_list(m, names.drop_last());
        let part = if names.len() == 1 {
            before
        } else {
            before + ";"@
        };
        part + names.last() + "="@ + macro_text(m[names.last()])
    }
}

/// One line that lists a set of macro values.
pub open spec fn macro_signature(m: Map<Seq<char>, MacroValue>) -> Seq<char> {
    macro_list(m, textmap::in_order(m.dom()))
}

impl MacroSet {
    /// No values.
    pub fn new() -> (r: Self)
        ensures
            r@ == Map::<Seq<char>, MacroValue>::empty(),
    {
        MacroSet { values: TextMap::new() }
    }

    /// Give a macro a value, answering the one it had.
    pub fn set(&mut self, name: &str, value: MacroValue) -> (r: Option<MacroValue>)
        ensures
            final(self)@ == old(self)@.insert(name@, value),
            r == (if old(self)@.contains_key(name@) {
                Some(old(self)@[name@])
            } else {
                None
            }),
    {
        self.values.insert(name.to_owned(), value)
    }

    /// Drop a macro's value, answering it.
    pub fn unset(&mut self, name: &str) -> (r: Option<MacroValue>)
        ensures
            final(self)@ == old(self)@.remove(name@),
            r == (if old(self)@.contains_key(name@) {
                Some(old(self)@[name@])
            } else {
                None
            }),
    {
        self.values.remove(name)
    }

    /// The value of a macro.
    pub fn get(&self, name: &str) -> (r: Option<MacroValue>)
        ensures
            r == (if self@.contains_key(name@) {
                Some(self@[name@])
            } else {
                None
            }),
    {
        match self.values.get(name) {
            Some(v) => Some(*v),
            None => None,
        }
    }

    /// Whether a macro has a value.
    pub fn contains(&self, name: &str) -> (r: bool)
        ensures
            r == self@.contains_key(name@),
    {
        self.values.contains_key(name)
    }

    /// The number of values.
    pub fn len(&self) -> (r: usize)
        ensures
            r == textmap::in_order(self@.dom()).len(),
            textmap::lists(textmap::in_order(self@.dom()), self@.dom()),
    {
        self.values.len()
    }

    /// Whether no macro has a value.
    pub fn is_empty(&self) -> (r: bool)
        ensures
            r == (self@ == Map::<Seq<char>, MacroValue>::empty()),
    {
        self.values.is_empty()
    }

    /// The name at a position, in name order.
    pub fn name_at(&self, i: usize) -> (r: &str)
        requires
            i < textmap::in_order(self@.dom()).len(),
        ensures
            r@ == textmap::in_order(self@.dom())[i as int],
            self@.contains_key(r@),
    {
        self.values.key_at(i)
    }

    /// The value at a position, in name order.
    pub fn value_at(&self, i: usize) -> (r: MacroValue)
        requires
            i < textmap::in_order(self@.dom()).len(),
        ensures
            r == self@[textmap::in_order(self@.dom())[i as int]],
    {
        *self.values.value_at(i)
    }

    /// Take over every value of `other`, which wins where both have one.
    pub fn overlay(&mut self, other: &MacroSet)
        ensures
            final(self)@ == old(self)@.union_prefer_right(other@),
    {
        let n: usize = other.len();
        let ghost names = textmap::in_order(other@.dom());
        let ghost start = self@;
        let mut i: usize = 0;
        while i < n
            invariant
                i <= n == names.len(),
                names == textmap::in_order(other@.dom()),
                textmap::lists(names, other@.dom()),
                forall|k: Seq<char>|
                    #![trigger self@.contains_key(k)]
                    #![trigger self@[k]]
                    {
                        &&& self@.contains_key(k) <==> start.contains_key(k) || names.take(
                            i as int,
                        ).contains(k)
                        &&& self@.contains_key(k) ==> self@[k] == (if names.take(
                            i as int,
                        ).contains(k) {
                            other@[k]
                        } else {
                            start[k]
                        })
                    },
            decreases n - i,
        {
            let ghost before = self@;
            let ghost t0 = names.take(i as int);
            let ghost t1 = names.take(i + 1);
            self.set(other.name_at(i), other.value_at(i));
            proof {
                assert(t1 == t0.push(names[i as int]));
                assert forall|k: Seq<char>| t1.contains(k) <==> t0.contains(k) || k
                    == names[i as int] by {
                    if t0.contains(k) {
                        let j = choose|j: int| 0 <= j < t0.len() && t0[j] == k;
                        assert(t1[j] == k);
                    }
                    assert(t1[i as int] == names[i as int]);
                }
                assert forall|k: Seq<char>|
                    #![trigger self@.contains_key(k)]
                    #![trigger self@[k]]
                    {
                        &&& self@.contains_key(k) <==> start.contains_key(k) || t1.contains(k)
                        &&& self@.contains_key(k) ==> self@[k] == (if t1.contains(k) {
                            other@[k]
                        } else {
                            start[k]
                        })
                    } by {
                    assert(before.contains_key(k) <==> start.contains_key(k) || t0.contains(k));
                }
            }
            i += 1;
        }
        proof {
            assert(names.take(n as int) == names);
            assert(self@ =~= start.union_prefer_right(other@));
        }
    }

    /// One line that lists the values; empty for an empty set.
    pub fn signature(&self) -> (r: String)
        ensures
            r@ == macro_signature(self@),
    {
        let mut out = String::new();
        proof {
            reveal_strlit("");
            assert(out@ == ""@);
        }
        let n: usize = self.len();
        let ghost names = textmap::in_order(self@.dom());
        let mut i: usize = 0;
        while i < n
            invariant
                i <= n == names.len(),
                names == textmap::in_order(self@.dom()),
                out@ == macro_list(self@, names.take(i as int)),
            decreases n - i,
        {
            assert(names.take(i + 1).drop_last() == names.take(i as int));
            if i > 0 {
                out.append(";");
            }
            out.append(self.name_at(i));
            out.append("=");
            out.append(self.value_at(i).text().as_str());
            i += 1;
        }
        assert(names.take(n as int) == names);
        out
    }
}

} // verus!
