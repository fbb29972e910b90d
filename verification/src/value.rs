//! The types of the values a graph moves between nodes, the values
//! themselves, and the rules by which two types combine.

use vstd::prelude::*;

use crate::float;
use crate::float::Float;
use crate::literal;
use crate::macros;
use crate::macros::bool_string;
use crate::text;
use crate::text::{decimal_text, signed_decimal_text};
use crate::wxsl::write_f32;

verus! {

/// The type of a value flowing along an edge.
///
/// Sockets are matched by exact type. The texture and sampler types are handles
/// an edge can carry; the last five are the handles a pipeline document wires,
/// which no material graph touches.
#[derive(Clone, Copy, Debug, PartialEq, Eq, PartialOrd, Ord, Hash, Structural)]
pub enum ValueType {
    /// `bool`
    Bool,
    /// `i32`
    I32,
    /// `u32`
    U32,
    /// `f32`
    F32,
    /// `vec2f`
    Vec2,
    /// `vec3f`
    Vec3,
    /// `vec4f`
    Vec4,
    /// `mat3x3f`
    Mat3,
    /// `mat4x4f`
    Mat4,
    /// `texture_2d<f32>`
    Texture2d,
    /// `texture_cube<f32>`
    TextureCube,
    /// `sampler`
    Sampler,
    /// A pipeline's list of draws.
    DrawQueue,
    /// A pipeline's array of shadow maps.
    ShadowMaps,
    /// A pipeline's G-buffer.
    GBuffer,
    /// A pipeline's colour target.
    ColorTarget,
    /// A pipeline's depth target.
    DepthTarget,
}

impl View for ValueType {
    type V = ValueType;

    open spec fn view(&self) -> ValueType {
        *self
    }
}

impl ValueType {
    /// Every type a value in a buffer can have.
    pub const ALL: [ValueType; 9] = [
        ValueType::Bool,
        ValueType::I32,
        ValueType::U32,
        ValueType::F32,
        ValueType::Vec2,
        ValueType::Vec3,
        ValueType::Vec4,
        ValueType::Mat3,
        ValueType::Mat4,
    ];

    /// The handles a material binds.
    pub const RESOURCES: [ValueType; 3] = [
        ValueType::Texture2d,
        ValueType::TextureCube,
        ValueType::Sampler,
    ];

    /// The handles a pipeline document wires.
    pub const PIPELINE_RESOURCES: [ValueType; 5] = [
        ValueType::DrawQueue,
        ValueType::ShadowMaps,
        ValueType::GBuffer,
        ValueType::ColorTarget,
        ValueType::DepthTarget,
    ];

    /// The float and the float vectors.
    pub const FLOATS: [ValueType; 4] = [
        ValueType::F32,
        ValueType::Vec2,
        ValueType::Vec3,
        ValueType::Vec4,
    ];

    /// The float vectors.
    pub const VECTORS: [ValueType; 3] = [ValueType::Vec2, ValueType::Vec3, ValueType::Vec4];

    /// The matrices.
    pub const MATRICES: [ValueType; 2] = [ValueType::Mat3, ValueType::Mat4];

    /// What arithmetic nodes take: the floats, then the matrices.
    pub fn operands() -> (r: Vec<ValueType>)
        ensures
            r@ == Self::FLOATS@ + Self::MATRICES@,
    {
        let mut types: Vec<ValueType> = Vec::new();
        types.push(ValueType::F32);
        types.push(ValueType::Vec2);
        types.push(ValueType::Vec3);
        types.push(ValueType::Vec4);
        types.push(ValueType::Mat3);
        types.push(ValueType::Mat4);
        types
    }

    /// The type as generated source spells it.
    #[verifier::allow_in_spec]
    pub fn wxsl_type(&self) -> &'static str
        returns
            (match *self {
                ValueType::Bool => "bool",
                ValueType::I32 => "i32",
                ValueType::U32 => "u32",
                ValueType::F32 => "f32",
                ValueType::Vec2 => "vec2f",
                ValueType::Vec3 => "vec3f",
                ValueType::Vec4 => "vec4f",
                ValueType::Mat3 => "mat3x3f",
                ValueType::Mat4 => "mat4x4f",
                ValueType::Texture2d => "texture_2d<f32>",
                ValueType::TextureCube => "texture_cube<f32>",
                ValueType::Sampler => "sampler",
                ValueType::DrawQueue => "draw_queue",
                ValueType::ShadowMaps => "shadow_maps",
                ValueType::GBuffer => "gbuffer",
                ValueType::ColorTarget => "color_target",
                ValueType::DepthTarget => "depth_target",
            }),
    {
        match self {
            ValueType::Bool => "bool",
            ValueType::I32 => "i32",
            ValueType::U32 => "u32",
            ValueType::F32 => "f32",
            ValueType::Vec2 => "vec2f",
            ValueType::Vec3 => "vec3f",
            ValueType::Vec4 => "vec4f",
            ValueType::Mat3 => "mat3x3f",
            ValueType::Mat4 => "mat4x4f",
            ValueType::Texture2d => "texture_2d<f32>",
            ValueType::TextureCube => "texture_cube<f32>",
            ValueType::Sampler => "sampler",
            ValueType::DrawQueue => "draw_queue",
            ValueType::ShadowMaps => "shadow_maps",
            ValueType::GBuffer => "gbuffer",
            ValueType::ColorTarget => "color_target",
            ValueType::DepthTarget => "depth_target",
        }
    }

    /// Whether this is a handle rather than a value a buffer can hold.
    #[verifier::allow_in_spec]
    pub fn is_resource(&self) -> bool
        returns
            (match *self {
                ValueType::Bool
                | ValueType::I32
                | ValueType::U32
                | ValueType::F32
                | ValueType::Vec2
                | ValueType::Vec3
                | ValueType::Vec4
                | ValueType::Mat3
                | ValueType::Mat4 => false,
                _ => true,
            }),
    {
        match self {
            ValueType::Bool
            | ValueType::I32
            | ValueType::U32
            | ValueType::F32
            | ValueType::Vec2
            | ValueType::Vec3
            | ValueType::Vec4
            | ValueType::Mat3
            | ValueType::Mat4 => false,
            _ => true,
        }
    }

    /// The type as a part of a node id.
    #[verifier::allow_in_spec]
    pub fn suffix(&self) -> &'static str
        returns
            (match *self {
                ValueType::Texture2d => "texture_2d",
                ValueType::TextureCube => "texture_cube",
                other => other.wxsl_type(),
            }),
    {
        match self {
            ValueType::Texture2d => "texture_2d",
            ValueType::TextureCube => "texture_cube",
            other => other.wxsl_type(),
        }
    }

    /// The number of float components, for the float and the float vectors.
    #[verifier::allow_in_spec]
    pub fn component_count(&self) -> Option<u32>
        returns
            (match *self {
                ValueType::F32 => Some(1u32),
                ValueType::Vec2 => Some(2u32),
                ValueType::Vec3 => Some(3u32),
                ValueType::Vec4 => Some(4u32),
                _ => None,
            }),
    {
        match self {
            ValueType::F32 => Some(1),
            ValueType::Vec2 => Some(2),
            ValueType::Vec3 => Some(3),
            ValueType::Vec4 => Some(4),
            _ => None,
        }
    }

    /// Whether this is the float or a float vector.
    #[verifier::allow_in_spec]
    pub fn is_float(&self) -> bool
        returns
            self.component_count() is Some,
    {
        self.component_count().is_some()
    }

    /// Whether this is a float vector.
    #[verifier::allow_in_spec]
    pub fn is_vector(&self) -> bool
        returns
            (*self is Vec2 || *self is Vec3 || *self is Vec4),
    {
        match self.component_count() {
            Some(n) => 2 <= n && n <= 4,
            None => false,
        }
    }

    /// Whether this is a matrix.
    #[verifier::allow_in_spec]
    pub fn is_matrix(&self) -> bool
        returns
            (*self is Mat3 || *self is Mat4),
    {
        match self {
            ValueType::Mat3 | ValueType::Mat4 => true,
            _ => false,
        }
    }

    /// The type of a componentwise operation: the common type, or the vector
    /// that a float is spread over. Handles do not combine.
    #[verifier::allow_in_spec]
    pub fn componentwise(self, other: ValueType) -> Option<ValueType>
        returns
            (if self.is_resource() || other.is_resource() {
                None
            } else if self == other {
                Some(self)
            } else if self == ValueType::F32 && other.is_vector() {
                Some(other)
            } else if other == ValueType::F32 && self.is_vector() {
                Some(self)
            } else {
                None
            }),
    {
        if self.is_resource() || other.is_resource() {
            return None;
        }
        if self == other {
            return Some(self);
        }
        match (self, other) {
            (ValueType::F32, wide) if wide.is_vector() => Some(wide),
            (wide, ValueType::F32) if wide.is_vector() => Some(wide),
            _ => None,
        }
    }

    /// The type of a product: what is componentwise, a float with a matrix, or
    /// a matrix with a vector of its own size.
    #[verifier::allow_in_spec]
    pub fn product(self, other: ValueType) -> Option<ValueType>
        returns
            (if self.componentwise(other) is Some {
                self.componentwise(other)
            } else if self == ValueType::F32 && other.is_matrix() {
                Some(other)
            } else if other == ValueType::F32 && self.is_matrix() {
                Some(self)
            } else {
                match (self, other) {
                    (ValueType::Mat3, ValueType::Vec3) | (ValueType::Vec3, ValueType::Mat3) => Some(
                        ValueType::Vec3,
                    ),
                    (ValueType::Mat4, ValueType::Vec4) | (ValueType::Vec4, ValueType::Mat4) => Some(
                        ValueType::Vec4,
                    ),
                    _ => None,
                }
            }),
    {
        if let Some(ty) = self.componentwise(other) {
            return Some(ty);
        }
        match (self, other) {
            (ValueType::F32, m) if m.is_matrix() => Some(m),
            (m, ValueType::F32) if m.is_matrix() => Some(m),
            (ValueType::Mat3, ValueType::Vec3) | (ValueType::Vec3, ValueType::Mat3) => Some(
                ValueType::Vec3,
            ),
            (ValueType::Mat4, ValueType::Vec4) | (ValueType::Vec4, ValueType::Mat4) => Some(
                ValueType::Vec4,
            ),
            _ => None,
        }
    }

    /// The zero of this type; a handle has none.
    pub fn zero(&self) -> (r: Option<Value>)
        ensures
            r == zero_of(*self),
    {
        let z = Float::zero();
        let r = match self {
            ValueType::Bool => Some(Value::Bool(false)),
            ValueType::I32 => Some(Value::I32(0)),
            ValueType::U32 => Some(Value::U32(0)),
            ValueType::F32 => Some(Value::F32(z)),
            ValueType::Vec2 => Some(Value::Vec2([z, z])),
            ValueType::Vec3 => Some(Value::Vec3([z, z, z])),
            ValueType::Vec4 => Some(Value::Vec4([z, z, z, z])),
            ValueType::Mat3 => Some(Value::Mat3([z, z, z, z, z, z, z, z, z])),
            ValueType::Mat4 => Some(
                Value::Mat4([z, z, z, z, z, z, z, z, z, z, z, z, z, z, z, z]),
            ),
            _ => None,
        };
        r
    }

    /// This type filled with `value`: every component of a vector, the
    /// diagonal of a matrix, a number or a flag converted from it. A handle
    /// cannot be filled.
    pub fn splat(&self, value: Float) -> (r: Option<Value>)
        ensures
            r == splat_of(*self, value),
    {
        let v = value;
        let z = Float::zero();
        match self {
            ValueType::F32 => Some(Value::F32(v)),
            ValueType::Vec2 => Some(Value::Vec2([v, v])),
            ValueType::Vec3 => Some(Value::Vec3([v, v, v])),
            ValueType::Vec4 => Some(Value::Vec4([v, v, v, v])),
            ValueType::Mat3 => Some(Value::Mat3([v, z, z, z, v, z, z, z, v])),
            ValueType::Mat4 => Some(
                Value::Mat4([v, z, z, z, z, v, z, z, z, z, v, z, z, z, z, v]),
            ),
            ValueType::Bool => Some(Value::Bool(!v.is_zero())),
            ValueType::I32 => Some(Value::I32(v.to_i32())),
            ValueType::U32 => Some(Value::U32(v.to_u32())),
            _ => None,
        }
    }
}

/// The zero of a type.
pub open spec fn zero_of(ty: ValueType) -> Option<Value> {
    let z = Float { bits: 0 };
    match ty {
        ValueType::Bool => Some(Value::Bool(false)),
        ValueType::I32 => Some(Value::I32(0)),
        ValueType::U32 => Some(Value::U32(0)),
        ValueType::F32 => Some(Value::F32(z)),
        ValueType::Vec2 => Some(Value::Vec2([z, z])),
        ValueType::Vec3 => Some(Value::Vec3([z, z, z])),
        ValueType::Vec4 => Some(Value::Vec4([z, z, z, z])),
        ValueType::Mat3 => Some(Value::Mat3([z, z, z, z, z, z, z, z, z])),
        ValueType::Mat4 => Some(Value::Mat4([z, z, z, z, z, z, z, z, z, z, z, z, z, z, z, z])),
        _ => None,
    }
}

/// A type filled with `v`.
pub open spec fn splat_of(ty: ValueType, v: Float) -> Option<Value> {
    let z = Float { bits: 0 };
    match ty {
        ValueType::F32 => Some(Value::F32(v)),
        ValueType::Vec2 => Some(Value::Vec2([v, v])),
        ValueType::Vec3 => Some(Value::Vec3([v, v, v])),
        ValueType::Vec4 => Some(Value::Vec4([v, v, v, v])),
        ValueType::Mat3 => Some(Value::Mat3([v, z, z, z, v, z, z, z, v])),
        ValueType::Mat4 => Some(Value::Mat4([v, z, z, z, z, v, z, z, z, z, v, z, z, z, z, v])),
        ValueType::Bool => Some(Value::Bool(!float::is_zero(v))),
        ValueType::I32 => Some(Value::I32(float::as_i32(v))),
        ValueType::U32 => Some(Value::U32(float::as_u32(v))),
        _ => None,
    }
}

/// The order of the operands does not matter to a componentwise operation.
pub proof fn componentwise_commutes(a: ValueType, b: ValueType)
    ensures
        a.componentwise(b) == b.componentwise(a),
{
}

/// The order of the operands does not matter to the type of a product.
pub proof fn product_commutes(a: ValueType, b: ValueType)
    ensures
        a.product(b) == b.product(a),
{
}

/// Whatever combines componentwise multiplies, with the same type.
pub proof fn product_extends_componentwise(a: ValueType, b: ValueType)
    ensures
        a.componentwise(b) is Some ==> a.product(b) == a.componentwise(b),
{
}

/// Every type is a value, a material handle or a pipeline handle, and only one
/// of them; exactly the values have a zero, a buffer's place and a filled form.
pub proof fn types_part_into_values_and_handles(ty: ValueType, v: Float)
    ensures
        ValueType::ALL@.contains(ty) <==> !ty.is_resource(),
        (ValueType::RESOURCES@.contains(ty) || ValueType::PIPELINE_RESOURCES@.contains(ty))
            <==> ty.is_resource(),
        !(ValueType::RESOURCES@.contains(ty) && ValueType::PIPELINE_RESOURCES@.contains(ty)),
        zero_of(ty) is Some <==> !ty.is_resource(),
        splat_of(ty, v) is Some <==> !ty.is_resource(),
{
    let all = ValueType::ALL@;
    let res = ValueType::RESOURCES@;
    let pipe = ValueType::PIPELINE_RESOURCES@;
    assert(all[0] is Bool && all[1] is I32 && all[2] is U32 && all[3] is F32 && all[4] is Vec2
        && all[5] is Vec3 && all[6] is Vec4 && all[7] is Mat3 && all[8] is Mat4);
    assert(res[0] is Texture2d && res[1] is TextureCube && res[2] is Sampler);
    assert(pipe[0] is DrawQueue && pipe[1] is ShadowMaps && pipe[2] is GBuffer
        && pipe[3] is ColorTarget && pipe[4] is DepthTarget);
}

/// How the type of a socket follows from two type parameters.
#[derive(Clone, Copy, Debug, PartialEq, Eq, Structural)]
pub enum TypeRule {
    /// See [`ValueType::componentwise`].
    Componentwise,
    /// See [`ValueType::product`].
    Product,
}

impl TypeRule {
    /// The type that two types combine to.
    #[verifier::allow_in_spec]
    pub fn apply(self, a: ValueType, b: ValueType) -> Option<ValueType>
        returns
            (match self {
                TypeRule::Componentwise => a.componentwise(b),
                TypeRule::Product => a.product(b),
            }),
    {
        match self {
            TypeRule::Componentwise => a.componentwise(b),
            TypeRule::Product => a.product(b),
        }
    }

    /// What the rule asks of two types, for a message.
    #[verifier::allow_in_spec]
    pub fn requirement(self) -> &'static str
        returns
            (match self {
                TypeRule::Componentwise => "the two must be the same type, or one of them f32 against a float vector",
                TypeRule::Product => "the two must be the same type, one of them f32, or a matrix against a vector of its own size",
            }),
    {
        match self {
            TypeRule::Componentwise => "the two must be the same type, or one of them f32 against a float vector",
            TypeRule::Product => "the two must be the same type, one of them f32, or a matrix against a vector of its own size",
        }
    }

    /// The rule's name, for a message.
    #[verifier::allow_in_spec]
    pub fn name(self) -> &'static str
        returns
            (match self {
                TypeRule::Componentwise => "componentwise",
                TypeRule::Product => "product",
            }),
    {
        match self {
            TypeRule::Componentwise => "componentwise",
            TypeRule::Product => "product",
        }
    }
}

/// A constant of one of the buffer types.
#[derive(Clone, Copy, Debug, PartialEq)]
pub enum Value {
    /// A flag.
    Bool(bool),
    /// A signed integer.
    I32(i32),
    /// An unsigned integer.
    U32(u32),
    /// A float.
    F32(Float),
    /// Two floats.
    Vec2([Float; 2]),
    /// Three floats.
    Vec3([Float; 3]),
    /// Four floats.
    Vec4([Float; 4]),
    /// A 3×3 matrix, column by column.
    Mat3([Float; 9]),
    /// A 4×4 matrix, column by column.
    Mat4([Float; 16]),
}

impl View for Value {
    type V = Value;

    open spec fn view(&self) -> Value {
        *self
    }
}

/// The float components of a value.
pub open spec fn components_of(v: Value) -> Option<Seq<Float>> {
    match v {
        Value::F32(x) => Some(seq![x]),
        Value::Vec2(xs) => Some(xs@),
        Value::Vec3(xs) => Some(xs@),
        Value::Vec4(xs) => Some(xs@),
        Value::Mat3(xs) => Some(xs@),
        Value::Mat4(xs) => Some(xs@),
        _ => None,
    }
}

/// The component at `i`, the last one again past the end.
pub open spec fn component_or_last(xs: Seq<Float>, i: int) -> Float {
    if i < xs.len() {
        xs[i]
    } else {
        xs[xs.len() - 1]
    }
}

/// A value carried over to another type: kept where the type is the same, the
/// components kept and the last one repeated where both are floats or vectors,
/// the first component down the diagonal of a matrix, and zero where there is
/// nothing to carry. A handle takes no value.
pub open spec fn converted(v: Value, ty: ValueType) -> Option<Value> {
    if v.ty() == ty {
        Some(v)
    } else {
        match components_of(v) {
            None => zero_of(ty),
            Some(xs) => match ty {
                ValueType::F32 => Some(Value::F32(xs[0])),
                ValueType::Vec2 => Some(
                    Value::Vec2([component_or_last(xs, 0), component_or_last(xs, 1)]),
                ),
                ValueType::Vec3 => Some(
                    Value::Vec3(
                        [
                            component_or_last(xs, 0),
                            component_or_last(xs, 1),
                            component_or_last(xs, 2),
                        ],
                    ),
                ),
                ValueType::Vec4 => Some(
                    Value::Vec4(
                        [
                            component_or_last(xs, 0),
                            component_or_last(xs, 1),
                            component_or_last(xs, 2),
                            component_or_last(xs, 3),
                        ],
                    ),
                ),
                ValueType::Mat3 | ValueType::Mat4 => splat_of(ty, xs[0]),
                _ => zero_of(ty),
            },
        }
    }
}

/// The literals of `xs`, parted by `, ` and appended to `out`; nothing where
/// one of them has no literal.
pub open spec fn literal_list(out: Seq<char>, xs: Seq<Float>) -> Option<Seq<char>>
    decreases xs.len(),
{
    if xs.len() == 0 {
        Some(out)
    } else {
        match (literal_list(out, xs.drop_last()), literal::float_literal(xs.last())) {
            (Some(before), Some(text)) => Some(
                (if xs.len() > 1 {
                    before + ", "@
                } else {
                    before
                }) + text,
            ),
            _ => None,
        }
    }
}

/// A value as a literal of generated source; a float that is no number has none.
pub open spec fn value_literal(v: Value) -> Option<Seq<char>> {
    match v {
        Value::Bool(b) => Some(macros::bool_text(b)),
        Value::I32(n) => Some(text::signed_decimal(n as int) + "i"@),
        Value::U32(n) => Some(text::decimal(n as nat) + "u"@),
        Value::F32(x) => literal::float_literal(x),
        _ => match literal_list(v.ty().wxsl_type()@ + "("@, components_of(v)->0) {
            Some(list) => Some(list + ")"@),
            None => None,
        },
    }
}

/// A value as messages show it.
pub open spec fn value_text(v: Value) -> Seq<char> {
    match value_literal(v) {
        Some(text) => text,
        None => "<unrepresentable "@ + v.ty().wxsl_type()@ + ">"@,
    }
}

fn slice_literal(ty: &str, xs: &Vec<Float>) -> (r: Option<String>)
    ensures
        text::opt_of(r) == (match literal_list(ty@ + "("@, xs@) {
            Some(list) => Some(list + ")"@),
            None => None,
        }),
{
    let mut out = ty.to_owned();
    out.append("(");
    let mut i: usize = 0;
    while i < xs.len()
        invariant
            i <= xs@.len(),
            literal_list(ty@ + "("@, xs@.take(i as int)) == Some(out@),
        decreases xs@.len() - i,
    {
        let ghost before = out@;
        proof {
            assert(xs@.take(i + 1).drop_last() == xs@.take(i as int));
            assert(xs@.take(i + 1).last() == xs@[i as int]);
        }
        if i > 0 {
            out.append(", ");
        }
        if write_f32(&mut out, xs[i]).is_none() {
            proof {
                lemma_literal_list_stops(ty@ + "("@, xs@, i + 1);
            }
            return None;
        }
        i += 1;
    }
    assert(xs@.take(i as int) == xs@);
    out.append(")");
    Some(out)
}

proof fn lemma_literal_list_stops(out: Seq<char>, xs: Seq<Float>, n: int)
    requires
        0 <= n <= xs.len(),
        literal_list(out, xs.take(n)) is None,
    ensures
        literal_list(out, xs) is None,
    decreases xs.len() - n,
{
    if n < xs.len() {
        assert(xs.take(n + 1).drop_last() == xs.take(n));
        lemma_literal_list_stops(out, xs, n + 1);
    } else {
        assert(xs.take(n) == xs);
    }
}

impl Value {
    /// The type of this value.
    #[verifier::allow_in_spec]
    pub fn ty(&self) -> ValueType
        returns
            (match *self {
                Value::Bool(_) => ValueType::Bool,
                Value::I32(_) => ValueType::I32,
                Value::U32(_) => ValueType::U32,
                Value::F32(_) => ValueType::F32,
                Value::Vec2(_) => ValueType::Vec2,
                Value::Vec3(_) => ValueType::Vec3,
                Value::Vec4(_) => ValueType::Vec4,
                Value::Mat3(_) => ValueType::Mat3,
                Value::Mat4(_) => ValueType::Mat4,
            }),
    {
        match self {
            Value::Bool(_) => ValueType::Bool,
            Value::I32(_) => ValueType::I32,
            Value::U32(_) => ValueType::U32,
            Value::F32(_) => ValueType::F32,
            Value::Vec2(_) => ValueType::Vec2,
            Value::Vec3(_) => ValueType::Vec3,
            Value::Vec4(_) => ValueType::Vec4,
            Value::Mat3(_) => ValueType::Mat3,
            Value::Mat4(_) => ValueType::Mat4,
        }
    }

    /// The float components of this value; a flag or a number has none.
    pub fn components(&self) -> (r: Option<Vec<Float>>)
        ensures
            match r {
                Some(xs) => components_of(*self) == Some(xs@),
                None => components_of(*self) is None,
            },
    {
        match self {
            Value::F32(x) => {
                let mut v: Vec<Float> = Vec::new();
                v.push(*x);
                assert(v@ == seq![*x]);
                Some(v)
            },
            Value::Vec2(xs) => Some(array_to_vec(xs)),
            Value::Vec3(xs) => Some(array_to_vec(xs)),
            Value::Vec4(xs) => Some(array_to_vec(xs)),
            Value::Mat3(xs) => Some(array_to_vec(xs)),
            Value::Mat4(xs) => Some(array_to_vec(xs)),
            _ => None,
        }
    }

    /// This value carried over to another type.
    pub fn converted_to(self, ty: ValueType) -> (r: Option<Value>)
        ensures
            r == converted(self, ty),
    {
        if self.ty() == ty {
            return Some(self);
        }
        let xs = match self.components() {
            None => {
                return ty.zero();
            },
            Some(xs) => xs,
        };
        let n: usize = xs.len();
        assert(n > 0);
        let first = xs[0];
        let x1 = if n > 1 {
            xs[1]
        } else {
            xs[n - 1]
        };
        let x2 = if n > 2 {
            xs[2]
        } else {
            xs[n - 1]
        };
        let x3 = if n > 3 {
            xs[3]
        } else {
            xs[n - 1]
        };
        match ty {
            ValueType::F32 => Some(Value::F32(first)),
            ValueType::Vec2 => Some(Value::Vec2([first, x1])),
            ValueType::Vec3 => Some(Value::Vec3([first, x1, x2])),
            ValueType::Vec4 => Some(Value::Vec4([first, x1, x2, x3])),
            ValueType::Mat3 | ValueType::Mat4 => ty.splat(first),
            _ => ty.zero(),
        }
    }

    /// This value as a literal of generated source.
    pub fn wxsl_literal(&self) -> (r: Option<String>)
        ensures
            text::opt_of(r) == value_literal(*self),
    {
        match self {
            Value::Bool(b) => Some(bool_string(*b)),
            Value::I32(n) => {
                let mut out = signed_decimal_text(*n as i64);
                out.append("i");
                Some(out)
            },
            Value::U32(n) => {
                let mut out = decimal_text(*n as u64);
                out.append("u");
                Some(out)
            },
            Value::F32(x) => x.literal(),
            Value::Vec2(xs) => slice_literal(self.ty().wxsl_type(), &array_to_vec(xs)),
            Value::Vec3(xs) => slice_literal(self.ty().wxsl_type(), &array_to_vec(xs)),
            Value::Vec4(xs) => slice_literal(self.ty().wxsl_type(), &array_to_vec(xs)),
            Value::Mat3(xs) => slice_literal(self.ty().wxsl_type(), &array_to_vec(xs)),
            Value::Mat4(xs) => slice_literal(self.ty().wxsl_type(), &array_to_vec(xs)),
        }
    }

    /// This value as messages show it.
    pub fn text(&self) -> (r: String)
        ensures
            r@ == value_text(*self),
    {
        match self.wxsl_literal() {
            Some(text) => text,
            None => {
                let mut out = "<unrepresentable ".to_owned();
                out.append(self.ty().wxsl_type());
                out.append(">");
                out
            },
        }
    }
}

fn array_to_vec<const N: usize>(xs: &[Float; N]) -> (r: Vec<Float>)
    ensures
        r@ == xs@,
{
    let mut r: Vec<Float> = Vec::new();
    let mut i: usize = 0;
    while i < N
        invariant
            i <= N == xs@.len(),
            r@ == xs@.take(i as int),
        decreases N - i,
    {
        r.push(xs[i]);
        i += 1;
    }
    assert(xs@.take(i as int) == xs@);
    r
}

/// A value carried over to a type has that type.
pub proof fn converted_value_has_the_type(v: Value, ty: ValueType)
    ensures
        match converted(v, ty) {
            Some(w) => w.ty() == ty,
            None => ty.is_resource(),
        },
{
}

} // verus!
