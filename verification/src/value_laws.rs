//! What holds of values: their components, conversions and literals.

use vstd::prelude::*;

use crate::float::Float;
use crate::literal;
use crate::text;
use crate::value;
use crate::value::{Value, ValueType};

verus! {

/// The number of floats that a type is made of.
pub open spec fn width(ty: ValueType) -> int {
    match ty {
        ValueType::F32 => 1,
        ValueType::Vec2 => 2,
        ValueType::Vec3 => 3,
        ValueType::Vec4 => 4,
        ValueType::Mat3 => 9,
        ValueType::Mat4 => 16,
        _ => 0,
    }
}

/// The number of components in a column of a matrix.
pub open spec fn rows(ty: ValueType) -> int {
    match ty {
        ValueType::Mat3 => 3,
        ValueType::Mat4 => 4,
        _ => width(ty),
    }
}

/// A value of a type made of floats has as many components as the type.
pub proof fn values_are_as_wide_as_their_type(v: Value)
    ensures
        match value::components_of(v) {
            Some(xs) => xs.len() == width(v.ty()) && xs.len() > 0,
            None => width(v.ty()) == 0,
        },
{
}

/// The zero of a type is of that type and nothing but zeros, and every type
/// that is no handle has one.
pub proof fn zeros_are_zero(ty: ValueType)
    ensures
        value::zero_of(ty) is None <==> ty.is_resource(),
        value::zero_of(ty) matches Some(z) ==> {
            &&& z.ty() == ty
            &&& z matches Value::Bool(b) ==> !b
            &&& z matches Value::I32(n) ==> n == 0
            &&& z matches Value::U32(n) ==> n == 0
            &&& value::components_of(z) matches Some(xs) ==> forall|i: int|
                0 <= i < xs.len() ==> (#[trigger] xs[i]).bits == 0
        },
{
}

/// A number spread over a type fills every component of a vector, and the
/// diagonal of a matrix, whose other components are zero.
pub proof fn numbers_spread_over_types(ty: ValueType, v: Float)
    requires
        width(ty) > 0,
    ensures
        value::splat_of(ty, v) is Some,
        ({
            let w = value::splat_of(ty, v)->0;
            let xs = value::components_of(w)->0;
            &&& w.ty() == ty
            &&& value::components_of(w) is Some
            &&& xs.len() == width(ty)
            &&& forall|i: int|
                0 <= i < xs.len() ==> #[trigger] xs[i] == (if width(ty) < 9 || i % (rows(ty) + 1)
                    == 0 {
                    v
                } else {
                    Float { bits: 0 }
                })
        }),
{
    let w = value::splat_of(ty, v)->0;
    let xs = value::components_of(w)->0;
    let n = rows(ty) + 1;
    assert(xs.len() == width(ty));
    if ty is Mat3 {
        assert forall|i: int| 0 <= i < 9 implies #[trigger] xs[i] == (if i % 4 == 0 {
            v
        } else {
            Float { bits: 0 }
        }) by {}
    } else if ty is Mat4 {
        assert forall|i: int| 0 <= i < 16 implies #[trigger] xs[i] == (if i % 5 == 0 {
            v
        } else {
            Float { bits: 0 }
        }) by {}
    }
}

/// A value carried over to a float or a float vector keeps its components in
/// order; where the type is wider, the last one fills the rest.
pub proof fn conversions_keep_components(v: Value, ty: ValueType)
    requires
        value::components_of(v) is Some,
        0 < width(ty) <= 4,
    ensures
        ({
            let xs = value::components_of(v)->0;
            let w = value::converted(v, ty)->0;
            let ys = value::components_of(w)->0;
            &&& value::converted(v, ty) is Some
            &&& value::components_of(w) is Some
            &&& ys.len() == width(ty)
            &&& forall|i: int|
                0 <= i < ys.len() ==> #[trigger] ys[i] == (if i < xs.len() {
                    xs[i]
                } else {
                    xs[xs.len() - 1]
                })
        }),
{
}

/// A value carried over to its own type stays as it is.
pub proof fn conversions_keep_what_fits(v: Value)
    ensures
        value::converted(v, v.ty()) == Some(v),
{
}

/// Whether these are the literals of these floats, one for each.
pub open spec fn are_literals(xs: Seq<Float>, parts: Seq<Seq<char>>) -> bool {
    &&& parts.len() == xs.len()
    &&& forall|i: int|
        0 <= i < xs.len() ==> literal::float_literal(xs[i]) == Some(#[trigger] parts[i])
}

proof fn lemma_list(out: Seq<char>, xs: Seq<Float>)
    ensures
        match value::literal_list(out, xs) {
            Some(list) => exists|parts: Seq<Seq<char>>| #[trigger]
                are_literals(xs, parts) && list == out + text::joined(parts),
            None => exists|i: int|
                0 <= i < xs.len() && literal::float_literal(#[trigger] xs[i]) is None,
        },
    decreases xs.len(),
{
    if xs.len() == 0 {
        let parts = Seq::<Seq<char>>::empty();
        assert(are_literals(xs, parts));
        assert(out + text::joined(parts) =~= out);
    } else {
        let t = xs.drop_last();
        lemma_list(out, t);
        match value::literal_list(out, t) {
            None => {
                let i = choose|i: int|
                    0 <= i < t.len() && literal::float_literal(#[trigger] t[i]) is None;
                assert(xs[i] == t[i]);
            },
            Some(before) => {
                let parts = choose|parts: Seq<Seq<char>>| #[trigger]
                    are_literals(t, parts) && before == out + text::joined(parts);
                match literal::float_literal(xs.last()) {
                    None => {
                        assert(xs[xs.len() - 1] == xs.last());
                    },
                    Some(last) => {
                        let all = parts.push(last);
                        assert forall|i: int| 0 <= i < xs.len() implies literal::float_literal(
                            xs[i],
                        ) == Some(#[trigger] all[i]) by {
                            if i < t.len() {
                                assert(xs[i] == t[i]);
                                assert(all[i] == parts[i]);
                            }
                        }
                        assert(are_literals(xs, all));
                        let list = value::literal_list(out, xs)->0;
                        if xs.len() > 1 {
                            text::lemma_joined_push(parts, last);
                        } else {
                            assert(text::joined(parts) =~= Seq::<char>::empty());
                            assert(text::joined(all) == all[0]);
                        }
                        assert(list =~= out + text::joined(all));
                    },
                }
            },
        }
    }
}

/// A value of several floats is written as its type, with the literal of each
/// component in its place; it has a literal exactly where all of them have.
pub proof fn literals_list_every_component(v: Value)
    requires
        width(v.ty()) > 1,
    ensures
        ({
            let xs = value::components_of(v)->0;
            match value::value_literal(v) {
                Some(t) => exists|parts: Seq<Seq<char>>| #[trigger]
                    are_literals(xs, parts) && t == v.ty().wxsl_type()@ + "("@ + text::joined(parts)
                        + ")"@,
                None => exists|i: int|
                    0 <= i < xs.len() && literal::float_literal(#[trigger] xs[i]) is None,
            }
        }),
{
    lemma_list(v.ty().wxsl_type()@ + "("@, value::components_of(v)->0);
}

/// A value of one part is written as that part: a truth value by its name, a
/// whole number with the mark of its type, a float as its literal.
pub proof fn literals_of_one_part(b: bool, i: i32, u: u32, x: Float)
    ensures
        value::value_literal(Value::Bool(b)) == Some(
            if b {
                "true"@
            } else {
                "false"@
            },
        ),
        value::value_literal(Value::I32(i)) == Some(text::signed_decimal(i as int) + "i"@),
        value::value_literal(Value::U32(u)) == Some(text::decimal(u as nat) + "u"@),
        value::value_literal(Value::F32(x)) == literal::float_literal(x),
{
}

} // verus!
