//! Node and socket definitions: the typed interface a kind of node has, and
//! the source it emits.

use std::sync::Arc;

use vstd::prelude::*;

use crate::copies::{clone_vec, copy_opt, copy_vec};
use crate::float::Float;
use crate::lists;
use crate::macros::{MacroDef, MacroDefView};
use crate::text;
use crate::text::{chars_of, find_char, same_text, text_of};
use crate::textmap;
use crate::textmap::TextMap;
use crate::value;
use crate::wxsl;
use crate::wxsl::{hash_text, ModulePath, WxslIdent};

pub use crate::value::{TypeRule, Value, ValueType};

verus! {

/// A type derived from two type parameters.
#[derive(Debug, PartialEq)]
pub struct Combined {
    /// How the two combine.
    pub rule: TypeRule,
    /// The first parameter.
    pub a: WxslIdent,
    /// The second parameter.
    pub b: WxslIdent,
}

/// What a [`Combined`] stands for.
#[verifier::ext_equal]
pub struct CombinedView {
    /// How the two combine.
    pub rule: TypeRule,
    /// The first parameter.
    pub a: Seq<char>,
    /// The second parameter.
    pub b: Seq<char>,
}

impl View for Combined {
    type V = CombinedView;

    open spec fn view(&self) -> CombinedView {
        CombinedView {
            rule: self.rule,
            a: self.a@,
            b: self.b@,
        }
    }
}

impl Clone for Combined {
    fn clone(&self) -> (r: Self)
        ensures
            r@ == self@,
    {
        Combined {
            rule: self.rule,
            a: self.a.clone(),
            b: self.b.clone(),
        }
    }
}

/// One input or output of a kind of node.
#[derive(Debug, PartialEq)]
pub struct Socket {
    /// The name, as generated source and edges spell it.
    pub name: WxslIdent,
    /// The type, where neither `generic` nor `combine` says otherwise.
    pub ty: ValueType,
    /// What an input that nothing feeds takes.
    pub default: Option<Value>,
    /// Whether an input may stay unfed without a default.
    pub optional: bool,
    /// What the socket is for.
    pub doc: String,
    /// The type parameter that is this socket's type.
    pub generic: Option<WxslIdent>,
    /// The default filled into whatever type the socket resolves to.
    pub splat_default: Option<Float>,
    /// The two type parameters this socket's type follows from.
    pub combine: Option<Combined>,
    /// Whether an input takes a pinned value only, never an edge.
    pub constant: bool,
}

/// What a [`Socket`] stands for.
#[verifier::ext_equal]
pub struct SocketView {
    /// The name, as generated source and edges spell it.
    pub name: Seq<char>,
    /// The type, where neither `generic` nor `combine` says otherwise.
    pub ty: ValueType,
    /// What an input that nothing feeds takes.
    pub default: Option<Value>,
    /// Whether an input may stay unfed without a default.
    pub optional: bool,
    /// What the socket is for.
    pub doc: Seq<char>,
    /// The type parameter that is this socket's type.
    pub generic: Option<Seq<char>>,
    /// The default filled into whatever type the socket resolves to.
    pub splat_default: Option<Float>,
    /// The two type parameters this socket's type follows from.
    pub combine: Option<CombinedView>,
    /// Whether an input takes a pinned value only, never an edge.
    pub constant: bool,
}

impl View for Socket {
    type V = SocketView;

    open spec fn view(&self) -> SocketView {
        SocketView {
            name: self.name@,
            ty: self.ty,
            default: self.default,
            optional: self.optional,
            doc: self.doc@,
            generic: text::opt_of(self.generic),
            splat_default: self.splat_default,
            combine: text::opt_of(self.combine),
            constant: self.constant,
        }
    }
}

impl Clone for Socket {
    fn clone(&self) -> (r: Self)
        ensures
            r@ == self@,
    {
        Socket {
            name: self.name.clone(),
            ty: self.ty,
            default: self.default,
            optional: self.optional,
            doc: self.doc.clone(),
            generic: copy_opt(&self.generic),
            splat_default: self.splat_default,
            combine: copy_opt(&self.combine),
            constant: self.constant,
        }
    }
}

/// Whether `p` is one of the type parameters a socket names.
pub open spec fn references(s: SocketView, p: Seq<char>) -> bool {
    ||| s.generic == Some(p)
    ||| s.combine is Some && (s.combine->0.a == p || s.combine->0.b == p)
}

/// The type parameters a socket names.
pub open spec fn socket_params(s: SocketView) -> Seq<Seq<char>> {
    (match s.generic {
        Some(p) => seq![p],
        None => Seq::empty(),
    }) + (match s.combine {
        Some(c) => seq![c.a, c.b],
        None => Seq::empty(),
    })
}

/// What a socket that nothing feeds takes once its type is `ty`.
pub open spec fn default_of(s: SocketView, ty: ValueType) -> Option<Value> {
    if s.default is Some {
        s.default
    } else {
        match s.splat_default {
            Some(v) => value::splat_of(ty, v),
            None => None,
        }
    }
}

impl Socket {
    /// A socket of a fixed type, required and without a default.
    pub fn new(name: &str, ty: ValueType) -> (r: Self)
        requires
            wxsl::is_ident(name@),
        ensures
            r@ == plain_socket(name@, ty),
    {
        Socket {
            name: WxslIdent::new(name).unwrap(),
            ty,
            default: None,
            optional: false,
            doc: String::new(),
            generic: None,
            splat_default: None,
            combine: None,
            constant: false,
        }
    }

    /// An input that takes a pinned value and never an edge.
    pub fn constant(self) -> (r: Self)
        ensures
            r@ == (SocketView { constant: true, ..self@ }),
    {
        let mut s = self;
        s.constant = true;
        s
    }

    /// An input that may stay unfed.
    pub fn optional(self) -> (r: Self)
        ensures
            r@ == (SocketView { optional: true, ..self@ }),
    {
        let mut s = self;
        s.optional = true;
        s
    }

    /// A socket whose type is a type parameter.
    pub fn generic(self, param: &str) -> (r: Self)
        requires
            self@.combine is None,
            wxsl::is_ident(param@),
        ensures
            r@ == (SocketView { generic: Some(param@), ..self@ }),
    {
        let mut s = self;
        s.generic = Some(WxslIdent::new(param).unwrap());
        s
    }

    /// A socket whose type follows from two type parameters.
    pub fn combine(self, rule: TypeRule, a: &str, b: &str) -> (r: Self)
        requires
            self@.generic is None,
            wxsl::is_ident(a@),
            wxsl::is_ident(b@),
        ensures
            r@ == (SocketView { combine: Some(CombinedView { rule, a: a@, b: b@ }), ..self@ }),
    {
        let mut s = self;
        s.combine = Some(
            Combined { rule, a: WxslIdent::new(a).unwrap(), b: WxslIdent::new(b).unwrap() },
        );
        s
    }

    /// The type parameters this socket names.
    pub fn referenced_params(&self) -> (r: Vec<WxslIdent>)
        ensures
            text::seq_of(r@) == socket_params(self@),
    {
        let mut params: Vec<WxslIdent> = Vec::new();
        match &self.generic {
            Some(p) => params.push(p.clone()),
            None => {},
        }
        match &self.combine {
            Some(c) => {
                params.push(c.a.clone());
                params.push(c.b.clone());
            },
            None => {},
        }
        assert(text::seq_of(params@) =~= socket_params(self@));
        params
    }

    /// Whether a type parameter is one this socket names.
    pub fn references_param(&self, param: &str) -> (r: bool)
        ensures
            r == references(self@, param@),
    {
        (match &self.generic {
            Some(p) => same_text(p.as_str(), param),
            None => false,
        }) || (match &self.combine {
            Some(c) => same_text(c.a.as_str(), param) || same_text(c.b.as_str(), param),
            None => false,
        })
    }

    /// Whether an input has to be fed.
    pub fn is_required(&self) -> (r: bool)
        ensures
            r == (!self@.optional && self@.default is None && self@.splat_default is None),
    {
        !self.optional && self.default.is_none() && self.splat_default.is_none()
    }

    /// What this input takes where nothing feeds it and its type is `ty`.
    pub fn default_for(&self, ty: ValueType) -> (r: Option<Value>)
        ensures
            r == default_of(self@, ty),
    {
        match self.default {
            Some(v) => Some(v),
            None => match self.splat_default {
                Some(v) => ty.splat(v),
                None => None,
            },
        }
    }

    /// Give an input of a fixed type a default of that type.
    pub fn with_default(self, value: Value) -> (r: Self)
        requires
            self@.generic is None,
            self@.combine is None,
            value.ty() == self@.ty,
        ensures
            r@ == (SocketView { default: Some(value), ..self@ }),
    {
        let mut s = self;
        s.default = Some(value);
        s
    }

    /// Give an input a default that fills whatever type it resolves to.
    pub fn with_splat_default(self, value: Float) -> (r: Self)
        requires
            self@.generic is None && self@.combine is None ==> !self@.ty.is_resource(),
        ensures
            r@ == (if self@.generic is Some || self@.combine is Some {
                SocketView { splat_default: Some(value), ..self@ }
            } else {
                SocketView { default: value::splat_of(self@.ty, value), ..self@ }
            }),
    {
        let mut s = self;
        if s.generic.is_some() || s.combine.is_some() {
            s.splat_default = Some(value);
            return s;
        }
        s.default = s.ty.splat(value);
        s
    }

    /// Say what the socket is for.
    pub fn with_doc(self, doc: &str) -> (r: Self)
        ensures
            r@ == (SocketView { doc: doc@, ..self@ }),
    {
        let mut s = self;
        s.doc = doc.to_owned();
        s
    }
}

/// A socket of a fixed type, required and without a default.
pub open spec fn plain_socket(name: Seq<char>, ty: ValueType) -> SocketView {
    SocketView {
        name,
        ty,
        default: None,
        optional: false,
        doc: Seq::empty(),
        generic: None,
        splat_default: None,
        combine: None,
        constant: false,
    }
}

/// What a function returns.
#[derive(Debug, PartialEq)]
pub enum FunctionReturn {
    /// One value, as an output.
    Value(Socket),
    /// A struct whose fields are the outputs.
    Struct {
        /// The struct's name.
        name: WxslIdent,
        /// The fields that become outputs.
        fields: Vec<Socket>,
    },
}

/// What a [`FunctionReturn`] stands for.
#[verifier::ext_equal]
pub enum FunctionReturnView {
    /// One value, as an output.
    Value(SocketView),
    /// A struct whose fields are the outputs.
    Struct {
        /// The struct's name.
        name: Seq<char>,
        /// The fields that become outputs.
        fields: Seq<SocketView>,
    },
}

impl View for FunctionReturn {
    type V = FunctionReturnView;

    open spec fn view(&self) -> FunctionReturnView {
        match *self {
            FunctionReturn::Value(s) => FunctionReturnView::Value(s@),
            FunctionReturn::Struct { name, fields } => FunctionReturnView::Struct {
                name: name@,
                fields: text::seq_of(fields@),
            },
        }
    }
}

impl Clone for FunctionReturn {
    fn clone(&self) -> (r: Self)
        ensures
            r@ == self@,
    {
        match self {
            FunctionReturn::Value(s) => FunctionReturn::Value(s.clone()),
            FunctionReturn::Struct { name, fields } => FunctionReturn::Struct {
                name: name.clone(),
                fields: clone_vec(fields),
            },
        }
    }
}

/// A function of the shading language usable as a node, described by data.
#[derive(Debug, PartialEq)]
pub struct WxslFunction {
    /// The module it lives in.
    pub module: ModulePath,
    /// Its name.
    pub name: WxslIdent,
    /// Its parameters in call order, each an input.
    pub params: Vec<Socket>,
    /// What it returns.
    pub ret: FunctionReturn,
}

/// What a [`WxslFunction`] stands for.
#[verifier::ext_equal]
pub struct WxslFunctionView {
    /// The module it lives in.
    pub module: Seq<char>,
    /// Its name.
    pub name: Seq<char>,
    /// Its parameters in call order, each an input.
    pub params: Seq<SocketView>,
    /// What it returns.
    pub ret: FunctionReturnView,
}

impl View for WxslFunction {
    type V = WxslFunctionView;

    open spec fn view(&self) -> WxslFunctionView {
        WxslFunctionView {
            module: self.module@,
            name: self.name@,
            params: text::seq_of(self.params@),
            ret: self.ret@,
        }
    }
}

impl Clone for WxslFunction {
    fn clone(&self) -> (r: Self)
        ensures
            r@ == self@,
    {
        WxslFunction {
            module: self.module.clone(),
            name: self.name.clone(),
            params: clone_vec(&self.params),
            ret: self.ret.clone(),
        }
    }
}

/// The parameters of a signature: `name: type`, parted by `, `.
pub open spec fn param_list(out: Seq<char>, params: Seq<SocketView>) -> Seq<char>
    decreases params.len(),
{
    if params.len() == 0 {
        out
    } else {
        let before = param_list(out, params.drop_last());
        (if params.len() > 1 {
            before + ", "@
        } else {
            before
        }) + params.last().name + ": "@ + params.last().ty.wxsl_type()@
    }
}

/// A function's signature: `fn name(params) -> type`.
pub open spec fn function_signature(f: WxslFunctionView) -> Seq<char> {
    param_list("fn "@ + f.name + "("@, f.params) + ") -> "@ + (match f.ret {
        FunctionReturnView::Value(s) => s.ty.wxsl_type()@,
        FunctionReturnView::Struct { name, fields } => name,
    })
}

/// What a call of the function imports: the function, and the struct it returns.
pub open spec fn function_imports(f: WxslFunctionView) -> Seq<(Seq<char>, Seq<char>)> {
    match f.ret {
        FunctionReturnView::Value(_) => seq![(f.module, f.name)],
        FunctionReturnView::Struct { name, fields } => seq![(f.module, f.name), (f.module, name)],
    }
}

/// The outputs of a call.
pub open spec fn function_outputs(f: WxslFunctionView) -> Seq<SocketView> {
    match f.ret {
        FunctionReturnView::Value(s) => seq![s],
        FunctionReturnView::Struct { name, fields } => fields,
    }
}

/// What a list of imports stands for: the module and the item of each.
pub open spec fn import_views(s: Seq<(ModulePath, WxslIdent)>) -> Seq<(Seq<char>, Seq<char>)> {
    Seq::new(s.len(), |i: int| (s[i].0@, s[i].1@))
}

impl WxslFunction {
    /// Describe a function returning one value.
    pub fn new(module: &str, name: &str, params: Vec<Socket>, ret: Socket) -> (r: Self)
        requires
            wxsl::is_module_path(module@),
            wxsl::is_ident(name@),
        ensures
            r@ == (WxslFunctionView {
                module: module@,
                name: name@,
                params: text::seq_of(params@),
                ret: FunctionReturnView::Value(ret@),
            }),
    {
        WxslFunction {
            module: ModulePath::new(module).unwrap(),
            name: WxslIdent::new(name).unwrap(),
            params,
            ret: FunctionReturn::Value(ret),
        }
    }

    /// Describe a function returning a struct, with `fields` as the outputs.
    pub fn new_struct(
        module: &str,
        name: &str,
        params: Vec<Socket>,
        struct_name: &str,
        fields: Vec<Socket>,
    ) -> (r: Self)
        requires
            wxsl::is_module_path(module@),
            wxsl::is_ident(name@),
            wxsl::is_ident(struct_name@),
        ensures
            r@ == (WxslFunctionView {
                module: module@,
                name: name@,
                params: text::seq_of(params@),
                ret: FunctionReturnView::Struct {
                    name: struct_name@,
                    fields: text::seq_of(fields@),
                },
            }),
    {
        WxslFunction {
            module: ModulePath::new(module).unwrap(),
            name: WxslIdent::new(name).unwrap(),
            params,
            ret: FunctionReturn::Struct { name: WxslIdent::new(struct_name).unwrap(), fields },
        }
    }

    /// What a call imports.
    pub fn imports(&self) -> (r: Vec<(ModulePath, WxslIdent)>)
        ensures
            import_views(r@) == function_imports(self@),
    {
        let mut imports: Vec<(ModulePath, WxslIdent)> = Vec::new();
        imports.push((self.module.clone(), self.name.clone()));
        if let FunctionReturn::Struct { name, .. } = &self.ret {
            imports.push((self.module.clone(), name.clone()));
        }
        assert(import_views(imports@) =~= function_imports(self@));
        imports
    }

    /// The outputs of a call.
    pub fn outputs(&self) -> (r: Vec<Socket>)
        ensures
            text::seq_of(r@) == function_outputs(self@),
    {
        match &self.ret {
            FunctionReturn::Value(socket) => {
                let mut v: Vec<Socket> = Vec::new();
                v.push(socket.clone());
                assert(text::seq_of(v@) =~= seq![socket@]);
                v
            },
            FunctionReturn::Struct { name: _, fields } => clone_vec(fields),
        }
    }

    /// The signature as text.
    pub fn signature(&self) -> (r: String)
        ensures
            r@ == function_signature(self@),
    {
        let mut out = "fn ".to_owned();
        out.append(self.name.as_str());
        out.append("(");
        let ghost head = out@;
        let ghost params = self@.params;
        let mut i: usize = 0;
        while i < self.params.len()
            invariant
                i <= params.len() == self.params@.len(),
                params == text::seq_of(self.params@),
                out@ == param_list(head, params.take(i as int)),
            decreases params.len() - i,
        {
            assert(params.take(i + 1).drop_last() == params.take(i as int));
            if i > 0 {
                out.append(", ");
            }
            out.append(self.params[i].name.as_str());
            out.append(": ");
            out.append(self.params[i].ty.wxsl_type());
            i += 1;
        }
        assert(params.take(i as int) == params);
        out.append(") -> ");
        match &self.ret {
            FunctionReturn::Value(socket) => out.append(socket.ty.wxsl_type()),
            FunctionReturn::Struct { name, fields: _ } => out.append(name.as_str()),
        }
        out
    }
}

/// How a node turns its inputs into source.
#[derive(Debug, PartialEq)]
pub enum NodeBody {
    /// One expression per output, with `{input}` for an input's expression and
    /// `{$T}` for the type a parameter resolved to.
    Expr(Vec<String>),
    /// A call of a function.
    Call(Box<WxslFunction>),
    /// A read of a field of the fragment's context.
    ContextRead(WxslIdent),
    /// A read of a field that only the vertex stage has.
    VertexContextRead(WxslIdent),
    /// The surface a material writes.
    SurfaceOutput,
    /// What a material does to a vertex.
    VertexOutput,
    /// Whether a fragment is dropped.
    DiscardOutput,
    /// An interpolant the vertex stage computes.
    VaryingOutput,
    /// A node of a document that is not compiled to source.
    Document,
    /// A uniform parameter of the material.
    Param,
    /// A texture or sampler the material binds.
    Resource,
    /// A read of the block the application supplies.
    UserRead,
    /// A read of a geometry attribute.
    AttributeRead,
}

/// What a [`NodeBody`] stands for.
#[verifier::ext_equal]
pub enum NodeBodyView {
    /// One expression per output.
    Expr(Seq<Seq<char>>),
    /// A call of a function.
    Call(WxslFunctionView),
    /// A read of a field of the fragment's context.
    ContextRead(Seq<char>),
    /// A read of a field that only the vertex stage has.
    VertexContextRead(Seq<char>),
    /// The surface a material writes.
    SurfaceOutput,
    /// What a material does to a vertex.
    VertexOutput,
    /// Whether a fragment is dropped.
    DiscardOutput,
    /// An interpolant the vertex stage computes.
    VaryingOutput,
    /// A node of a document that is not compiled to source.
    Document,
    /// A uniform parameter of the material.
    Param,
    /// A texture or sampler the material binds.
    Resource,
    /// A read of the block the application supplies.
    UserRead,
    /// A read of a geometry attribute.
    AttributeRead,
}

impl View for NodeBody {
    type V = NodeBodyView;

    open spec fn view(&self) -> NodeBodyView {
        match *self {
            NodeBody::Expr(exprs) => NodeBodyView::Expr(text::seq_of(exprs@)),
            NodeBody::Call(f) => NodeBodyView::Call(f@),
            NodeBody::ContextRead(field) => NodeBodyView::ContextRead(field@),
            NodeBody::VertexContextRead(field) => NodeBodyView::VertexContextRead(field@),
            NodeBody::SurfaceOutput => NodeBodyView::SurfaceOutput,
            NodeBody::VertexOutput => NodeBodyView::VertexOutput,
            NodeBody::DiscardOutput => NodeBodyView::DiscardOutput,
            NodeBody::VaryingOutput => NodeBodyView::VaryingOutput,
            NodeBody::Document => NodeBodyView::Document,
            NodeBody::Param => NodeBodyView::Param,
            NodeBody::Resource => NodeBodyView::Resource,
            NodeBody::UserRead => NodeBodyView::UserRead,
            NodeBody::AttributeRead => NodeBodyView::AttributeRead,
        }
    }
}

impl Clone for NodeBody {
    fn clone(&self) -> (r: Self)
        ensures
            r@ == self@,
    {
        match self {
            NodeBody::Expr(exprs) => NodeBody::Expr(clone_vec(exprs)),
            NodeBody::Call(f) => NodeBody::Call(Box::new((&**f).clone())),
            NodeBody::ContextRead(field) => NodeBody::ContextRead(field.clone()),
            NodeBody::VertexContextRead(field) => NodeBody::VertexContextRead(field.clone()),
            NodeBody::SurfaceOutput => NodeBody::SurfaceOutput,
            NodeBody::VertexOutput => NodeBody::VertexOutput,
            NodeBody::DiscardOutput => NodeBody::DiscardOutput,
            NodeBody::VaryingOutput => NodeBody::VaryingOutput,
            NodeBody::Document => NodeBody::Document,
            NodeBody::Param => NodeBody::Param,
            NodeBody::Resource => NodeBody::Resource,
            NodeBody::UserRead => NodeBody::UserRead,
            NodeBody::AttributeRead => NodeBody::AttributeRead,
        }
    }
}

/// The setting that names what a declaration node declares or reads.
pub const SETTING_NAME: &'static str = "name";

/// The setting that names the field of the application's block a node reads.
pub const SETTING_FIELD: &'static str = "field";

/// The input a parameter node takes its default from.
pub const SOCKET_VALUE: &'static str = "value";

/// A text a node of this kind carries besides its sockets.
#[derive(Debug, PartialEq)]
pub struct SettingDef {
    /// The setting's name.
    pub name: WxslIdent,
    /// What an editor calls it.
    pub label: String,
    /// What it decides.
    pub doc: String,
    /// The text where a node sets none.
    pub default: String,
}

/// What a [`SettingDef`] stands for.
#[verifier::ext_equal]
pub struct SettingDefView {
    /// The setting's name.
    pub name: Seq<char>,
    /// What an editor calls it.
    pub label: Seq<char>,
    /// What it decides.
    pub doc: Seq<char>,
    /// The text where a node sets none.
    pub default: Seq<char>,
}

impl View for SettingDef {
    type V = SettingDefView;

    open spec fn view(&self) -> SettingDefView {
        SettingDefView {
            name: self.name@,
            label: self.label@,
            doc: self.doc@,
            default: self.default@,
        }
    }
}

impl Clone for SettingDef {
    fn clone(&self) -> (r: Self)
        ensures
            r@ == self@,
    {
        SettingDef {
            name: self.name.clone(),
            label: self.label.clone(),
            doc: self.doc.clone(),
            default: self.default.clone(),
        }
    }
}

impl SettingDef {
    /// Declare a setting, empty by default.
    pub fn new(name: &str, label: &str, doc: &str) -> (r: Self)
        requires
            wxsl::is_ident(name@),
        ensures
            r@ == (SettingDefView { name: name@, label: label@, doc: doc@, default: Seq::empty() }),
    {
        SettingDef {
            name: WxslIdent::new(name).unwrap(),
            label: label.to_owned(),
            doc: doc.to_owned(),
            default: String::new(),
        }
    }

    /// Give the setting a default.
    pub fn with_default(self, default: &str) -> (r: Self)
        ensures
            r@ == (SettingDefView { default: default@, ..self@ }),
    {
        let mut s = self;
        s.default = default.to_owned();
        s
    }
}

/// A type parameter of a kind of node.
#[derive(Debug, PartialEq)]
pub struct GenericParam {
    /// The parameter's name.
    pub name: WxslIdent,
    /// The types it can resolve to, the default first.
    pub allowed: Vec<ValueType>,
}

/// What a [`GenericParam`] stands for.
#[verifier::ext_equal]
pub struct GenericParamView {
    /// The parameter's name.
    pub name: Seq<char>,
    /// The types it can resolve to, the default first.
    pub allowed: Seq<ValueType>,
}

impl View for GenericParam {
    type V = GenericParamView;

    open spec fn view(&self) -> GenericParamView {
        GenericParamView {
            name: self.name@,
            allowed: self.allowed@,
        }
    }
}

impl Clone for GenericParam {
    fn clone(&self) -> (r: Self)
        ensures
            r@ == self@,
    {
        GenericParam {
            name: self.name.clone(),
            allowed: copy_vec(&self.allowed),
        }
    }
}

impl GenericParam {
    /// Declare a type parameter.
    pub fn new(name: &str, allowed: Vec<ValueType>) -> (r: Self)
        requires
            allowed@.len() > 0,
            wxsl::is_ident(name@),
        ensures
            r@ == (GenericParamView { name: name@, allowed: allowed@ }),
    {
        GenericParam { name: WxslIdent::new(name).unwrap(), allowed }
    }

    /// Whether the parameter can resolve to a type.
    pub fn allows(&self, ty: ValueType) -> (r: bool)
        ensures
            r == self@.allowed.contains(ty),
    {
        contains_type(&self.allowed, ty)
    }
}

/// Whether a list holds a type.
pub fn contains_type(types: &Vec<ValueType>, ty: ValueType) -> (r: bool)
    ensures
        r == types@.contains(ty),
{
    let mut i: usize = 0;
    while i < types.len()
        invariant
            i <= types@.len(),
            forall|j: int| 0 <= j < i ==> types@[j] != ty,
        decreases types@.len() - i,
    {
        if types[i] == ty {
            return true;
        }
        i += 1;
    }
    false
}

/// A kind of node.
#[derive(Debug, PartialEq)]
pub struct NodeDefinition {
    /// The id nodes name it by.
    pub id: String,
    /// What an editor calls it.
    pub label: String,
    /// The group an editor lists it in.
    pub category: String,
    /// What it does.
    pub doc: String,
    /// The inputs, in order.
    pub inputs: Vec<Socket>,
    /// The outputs, in order.
    pub outputs: Vec<Socket>,
    /// The macro variables it reads.
    pub macros: Vec<MacroDef>,
    /// Its type parameters.
    pub generics: Vec<GenericParam>,
    /// What its expressions import, as module and item.
    pub imports: Vec<(ModulePath, WxslIdent)>,
    /// The texts a node of this kind carries.
    pub settings: Vec<SettingDef>,
    /// How it turns inputs into source.
    pub body: NodeBody,
}

/// What a [`NodeDefinition`] stands for.
#[verifier::ext_equal]
pub struct NodeDefinitionView {
    /// The id nodes name it by.
    pub id: Seq<char>,
    /// What an editor calls it.
    pub label: Seq<char>,
    /// The group an editor lists it in.
    pub category: Seq<char>,
    /// What it does.
    pub doc: Seq<char>,
    /// The inputs, in order.
    pub inputs: Seq<SocketView>,
    /// The outputs, in order.
    pub outputs: Seq<SocketView>,
    /// The macro variables it reads.
    pub macros: Seq<MacroDefView>,
    /// Its type parameters.
    pub generics: Seq<GenericParamView>,
    /// What its expressions import, as module and item.
    pub imports: Seq<(Seq<char>, Seq<char>)>,
    /// The texts a node of this kind carries.
    pub settings: Seq<SettingDefView>,
    /// How it turns inputs into source.
    pub body: NodeBodyView,
}

impl View for NodeDefinition {
    type V = NodeDefinitionView;

    open spec fn view(&self) -> NodeDefinitionView {
        NodeDefinitionView {
            id: self.id@,
            label: self.label@,
            category: self.category@,
            doc: self.doc@,
            inputs: text::seq_of(self.inputs@),
            outputs: text::seq_of(self.outputs@),
            macros: text::seq_of(self.macros@),
            generics: text::seq_of(self.generics@),
            imports: import_views(self.imports@),
            settings: text::seq_of(self.settings@),
            body: self.body@,
        }
    }
}



fn clone_imports(v: &Vec<(ModulePath, WxslIdent)>) -> (r: Vec<(ModulePath, WxslIdent)>)
    ensures
        import_views(r@) == import_views(v@),
{
    let mut r: Vec<(ModulePath, WxslIdent)> = Vec::new();
    let mut i: usize = 0;
    while i < v.len()
        invariant
            i <= v@.len(),
            r@.len() == i,
            forall|j: int| 0 <= j < i ==> (#[trigger] r@[j]).0@ == v@[j].0@ && r@[j].1@ == v@[j].1@,
        decreases v@.len() - i,
    {
        r.push((v[i].0.clone(), v[i].1.clone()));
        i += 1;
    }
    assert(import_views(r@) =~= import_views(v@));
    r
}

impl Clone for NodeDefinition {
    fn clone(&self) -> (r: Self)
        ensures
            r@ == self@,
    {
        NodeDefinition {
            id: self.id.clone(),
            label: self.label.clone(),
            category: self.category.clone(),
            doc: self.doc.clone(),
            inputs: clone_vec(&self.inputs),
            outputs: clone_vec(&self.outputs),
            macros: clone_vec(&self.macros),
            generics: clone_vec(&self.generics),
            imports: clone_imports(&self.imports),
            settings: clone_vec(&self.settings),
            body: self.body.clone(),
        }
    }
}

/// Being a socket of this name.
pub open spec fn socket_named(name: Seq<char>) -> spec_fn(SocketView) -> bool {
    |s: SocketView| s.name == name
}

/// Being a setting of this name.
pub open spec fn setting_named(name: Seq<char>) -> spec_fn(SettingDefView) -> bool {
    |s: SettingDefView| s.name == name
}

/// Being a type parameter of this name.
pub open spec fn param_named(name: Seq<char>) -> spec_fn(GenericParamView) -> bool {
    |p: GenericParamView| p.name == name
}

impl NodeDefinitionView {
    /// The input of a name.
    pub open spec fn input(self, name: Seq<char>) -> Option<SocketView> {
        lists::first_where(self.inputs, socket_named(name))
    }

    /// The output of a name.
    pub open spec fn output(self, name: Seq<char>) -> Option<SocketView> {
        lists::first_where(self.outputs, socket_named(name))
    }

    /// The setting of a name.
    pub open spec fn setting(self, name: Seq<char>) -> Option<SettingDefView> {
        lists::first_where(self.settings, setting_named(name))
    }

    /// The type parameter of a name.
    pub open spec fn generic(self, name: Seq<char>) -> Option<GenericParamView> {
        lists::first_where(self.generics, param_named(name))
    }

    /// Whether a type parameter of this name is declared and allows `ty`.
    pub open spec fn param_allows(self, name: Seq<char>, ty: ValueType) -> bool {
        self.generic(name) is Some && self.generic(name)->0.allowed.contains(ty)
    }

    /// The type each parameter starts from: the first it allows.
    pub open spec fn default_generics(self) -> Map<Seq<char>, ValueType> {
        first_allowed(self.generics)
    }

    /// What a node of this kind imports.
    pub open spec fn all_imports(self) -> Seq<(Seq<char>, Seq<char>)> {
        self.imports + (match self.body {
            NodeBodyView::Call(f) => function_imports(f),
            _ => Seq::empty(),
        })
    }
}

/// The first type each parameter allows, by the parameter's name.
pub open spec fn first_allowed(params: Seq<GenericParamView>) -> Map<Seq<char>, ValueType>
    decreases params.len(),
{
    if params.len() == 0 {
        Map::empty()
    } else {
        first_allowed(params.drop_last()).insert(params.last().name, params.last().allowed[0])
    }
}

/// The text before the first `.`.
pub open spec fn category_of(id: Seq<char>) -> Seq<char> {
    id.subrange(0, text::next_char(id, '.', 0))
}

/// The definition a builder starts from.
pub open spec fn bare_definition(id: Seq<char>, label: Seq<char>) -> NodeDefinitionView {
    NodeDefinitionView {
        id,
        label,
        category: category_of(id),
        doc: Seq::empty(),
        inputs: Seq::empty(),
        outputs: Seq::empty(),
        macros: Seq::empty(),
        generics: Seq::empty(),
        imports: Seq::empty(),
        settings: Seq::empty(),
        body: NodeBodyView::Expr(Seq::empty()),
    }
}

/// The socket of a name in a list.
pub fn find_socket<'a>(sockets: &'a Vec<Socket>, name: &str) -> (r: Option<&'a Socket>)
    ensures
        text::opt_of(r) == lists::first_where(text::seq_of(sockets@), socket_named(name@)),
{
    let ghost s = text::seq_of(sockets@);
    let ghost p = socket_named(name@);
    let mut i: usize = 0;
    assert(s.skip(0) == s);
    while i < sockets.len()
        invariant
            i <= s.len() == sockets@.len(),
            s == text::seq_of(sockets@),
            p == socket_named(name@),
            lists::first_where(s, p) == lists::first_where(s.skip(i as int), p),
        decreases s.len() - i,
    {
        proof {
            lists::lemma_first_where_skip(s, p, i as int);
        }
        if same_text(sockets[i].name.as_str(), name) {
            return Some(&sockets[i]);
        }
        i += 1;
    }
    None
}

impl NodeDefinition {
    /// Start a definition. The category is what stands before the first `.` of
    /// the id.
    pub fn builder(id: &str, label: &str) -> (r: NodeDefinitionBuilder)
        ensures
            r@ == bare_definition(id@, label@),
    {
        let chars = chars_of(id);
        let end: usize = find_char(&chars, '.', 0);
        let def = NodeDefinition {
            id: id.to_owned(),
            label: label.to_owned(),
            category: text_of(&chars, 0, end),
            doc: String::new(),
            inputs: Vec::new(),
            outputs: Vec::new(),
            macros: Vec::new(),
            generics: Vec::new(),
            imports: Vec::new(),
            settings: Vec::new(),
            body: NodeBody::Expr(Vec::new()),
        };
        assert(def@ =~~= bare_definition(id@, label@));
        NodeDefinitionBuilder { def }
    }

    /// A node that calls `func`, with the function's parameters as inputs and
    /// what it returns as outputs.
    pub fn from_function(id: &str, label: &str, doc: &str, func: WxslFunction) -> (r: Self)
        ensures
            r@ == (NodeDefinitionView {
                doc: doc@,
                inputs: func@.params,
                outputs: function_outputs(func@),
                body: NodeBodyView::Call(func@),
                ..bare_definition(id@, label@)
            }),
    {
        let mut def = NodeDefinition::builder(id, label).doc(doc).def;
        def.inputs = clone_vec(&func.params);
        def.outputs = func.outputs();
        def.body = NodeBody::Call(Box::new(func));
        def
    }

    /// This definition with other macro variables.
    pub fn with_macros(self, macros: Vec<MacroDef>) -> (r: Self)
        ensures
            r@ == (NodeDefinitionView { macros: text::seq_of(macros@), ..self@ }),
    {
        let mut d = self;
        d.macros = macros;
        d
    }

    /// The input of a name.
    pub fn input(&self, name: &str) -> (r: Option<&Socket>)
        ensures
            text::opt_of(r) == self@.input(name@),
    {
        find_socket(&self.inputs, name)
    }

    /// The output of a name.
    pub fn output(&self, name: &str) -> (r: Option<&Socket>)
        ensures
            text::opt_of(r) == self@.output(name@),
    {
        find_socket(&self.outputs, name)
    }

    /// The setting of a name.
    pub fn setting(&self, name: &str) -> (r: Option<&SettingDef>)
        ensures
            text::opt_of(r) == self@.setting(name@),
    {
        let ghost s = text::seq_of(self.settings@);
        let ghost p = setting_named(name@);
        let mut i: usize = 0;
        assert(s.skip(0) == s);
        while i < self.settings.len()
            invariant
                i <= s.len() == self.settings@.len(),
                s == text::seq_of(self.settings@),
                p == setting_named(name@),
                lists::first_where(s, p) == lists::first_where(s.skip(i as int), p),
            decreases s.len() - i,
        {
            proof {
                lists::lemma_first_where_skip(s, p, i as int);
            }
            if same_text(self.settings[i].name.as_str(), name) {
                return Some(&self.settings[i]);
            }
            i += 1;
        }
        None
    }

    /// The type parameter of a name.
    pub fn generic(&self, name: &str) -> (r: Option<&GenericParam>)
        ensures
            text::opt_of(r) == self@.generic(name@),
    {
        let ghost s = text::seq_of(self.generics@);
        let ghost p = param_named(name@);
        let mut i: usize = 0;
        assert(s.skip(0) == s);
        while i < self.generics.len()
            invariant
                i <= s.len() == self.generics@.len(),
                s == text::seq_of(self.generics@),
                p == param_named(name@),
                lists::first_where(s, p) == lists::first_where(s.skip(i as int), p),
            decreases s.len() - i,
        {
            proof {
                lists::lemma_first_where_skip(s, p, i as int);
            }
            if same_text(self.generics[i].name.as_str(), name) {
                return Some(&self.generics[i]);
            }
            i += 1;
        }
        None
    }

    /// Whether a type parameter of this name is declared and allows `ty`.
    pub fn param_allows(&self, name: &str, ty: ValueType) -> (r: bool)
        ensures
            r == self@.param_allows(name@, ty),
    {
        match self.generic(name) {
            Some(p) => p.allows(ty),
            None => false,
        }
    }

    /// The type each parameter starts from: the first it allows.
    pub fn default_generics(&self) -> (r: TextMap<ValueType>)
        requires
            forall|i: int|
                0 <= i < self@.generics.len() ==> (#[trigger] self@.generics[i]).allowed.len() > 0,
        ensures
            r@ == self@.default_generics(),
    {
        let mut map: TextMap<ValueType> = TextMap::new();
        let ghost s = self@.generics;
        let mut i: usize = 0;
        while i < self.generics.len()
            invariant
                i <= s.len() == self.generics@.len(),
                s == text::seq_of(self.generics@),
                map@ == first_allowed(s.take(i as int)),
                forall|i: int| 0 <= i < s.len() ==> (#[trigger] s[i]).allowed.len() > 0,
            decreases s.len() - i,
        {
            proof {
                assert(s.take(i + 1).drop_last() == s.take(i as int));
                assert(s[i as int].allowed.len() > 0);
            }
            map.insert(self.generics[i].name.as_str().to_owned(), self.generics[i].allowed[0]);
            i += 1;
        }
        assert(s.take(i as int) == s);
        map
    }

    /// Whether this is a material's surface output.
    pub fn is_surface_output(&self) -> (r: bool)
        ensures
            r == (self@.body is SurfaceOutput),
    {
        match &self.body {
            NodeBody::SurfaceOutput => true,
            _ => false,
        }
    }

    /// Whether this is a material's vertex output.
    pub fn is_vertex_output(&self) -> (r: bool)
        ensures
            r == (self@.body is VertexOutput),
    {
        match &self.body {
            NodeBody::VertexOutput => true,
            _ => false,
        }
    }

    /// Whether this is a material's discard output.
    pub fn is_discard_output(&self) -> (r: bool)
        ensures
            r == (self@.body is DiscardOutput),
    {
        match &self.body {
            NodeBody::DiscardOutput => true,
            _ => false,
        }
    }

    /// Whether this writes an interpolant.
    pub fn is_varying_output(&self) -> (r: bool)
        ensures
            r == (self@.body is VaryingOutput),
    {
        match &self.body {
            NodeBody::VaryingOutput => true,
            _ => false,
        }
    }

    /// Whether this is a node of a document that is not compiled to source.
    pub fn is_document(&self) -> (r: bool)
        ensures
            r == (self@.body is Document),
    {
        match &self.body {
            NodeBody::Document => true,
            _ => false,
        }
    }

    /// Whether only the vertex stage can run a node of this kind.
    pub fn is_vertex_only(&self) -> (r: bool)
        ensures
            r == (self@.body is VertexContextRead),
    {
        match &self.body {
            NodeBody::VertexContextRead(_) => true,
            _ => false,
        }
    }

    /// What a node of this kind imports.
    pub fn all_imports(&self) -> (r: Vec<(ModulePath, WxslIdent)>)
        ensures
            import_views(r@) == self@.all_imports(),
    {
        let mut imports = clone_imports(&self.imports);
        let ghost before = imports@;
        match &self.body {
            NodeBody::Call(func) => {
                let mut more = func.imports();
                let ghost added = more@;
                imports.append(&mut more);
                assert(import_views(imports@) =~= import_views(before) + import_views(added));
            },
            _ => {
                assert(import_views(imports@) =~= self@.all_imports());
            },
        }
        imports
    }
}

/// A definition in the making.
#[derive(Debug)]
pub struct NodeDefinitionBuilder {
    def: NodeDefinition,
}

impl View for NodeDefinitionBuilder {
    type V = NodeDefinitionView;

    closed spec fn view(&self) -> NodeDefinitionView {
        self.def@
    }
}

/// Whether inputs of such a node may stay unfed.
pub open spec fn allows_optional(body: NodeBodyView) -> bool {
    ||| body is SurfaceOutput
    ||| body is VertexOutput
    ||| body is DiscardOutput
    ||| body is VaryingOutput
    ||| body is Document
}

/// Whether every type parameter a socket names is declared.
pub open spec fn params_declared(d: NodeDefinitionView, s: SocketView) -> bool {
    &&& s.generic is Some ==> d.generic(s.generic->0) is Some
    &&& s.combine is Some ==> d.generic(s.combine->0.a) is Some && d.generic(s.combine->0.b) is Some
}

/// Whether every `{$T}` of a template names a declared type parameter.
pub open spec fn placeholders_declared(d: NodeDefinitionView, template: Seq<char>) -> bool {
    forall|j: int|
        0 <= j < placeholders(template, 0).len() ==> d.generic(
            #[trigger] placeholders(template, 0)[j],
        ) is Some
}

/// Whether a definition holds together: no unfed inputs where they are not
/// allowed, one expression per output, and every type parameter that is named
/// also declared.
pub open spec fn buildable(d: NodeDefinitionView) -> bool {
    &&& allows_optional(d.body) || forall|i: int|
        0 <= i < d.inputs.len() ==> !(#[trigger] d.inputs[i]).optional
    &&& d.body is Expr ==> {
        &&& d.body->Expr_0.len() == d.outputs.len()
        &&& forall|i: int|
            0 <= i < d.body->Expr_0.len() ==> placeholders_declared(d, #[trigger] d.body->Expr_0[i])
    }
    &&& forall|i: int| 0 <= i < d.inputs.len() ==> params_declared(d, #[trigger] d.inputs[i])
    &&& forall|i: int| 0 <= i < d.outputs.len() ==> params_declared(d, #[trigger] d.outputs[i])
}

/// The names `T` of the type placeholders `{$T}` of a template from position
/// `i` on. `{{` stands for a brace and opens nothing.
pub open spec fn placeholders(s: Seq<char>, i: int) -> Seq<Seq<char>>
    decreases s.len() - i,
{
    if !(0 <= i <= s.len()) {
        Seq::empty()
    } else {
        let open = text::next_char(s, '{', i);
        proof {
            text::lemma_next_char(s, '{', i);
        }
        if open >= s.len() {
            Seq::empty()
        } else if open + 1 < s.len() && s[open + 1] == '{' {
            placeholders(s, open + 2)
        } else {
            let close = text::next_char(s, '}', open + 1);
            proof {
                text::lemma_next_char(s, '}', open + 1);
            }
            if close >= s.len() {
                Seq::empty()
            } else {
                (if open + 1 < close && s[open + 1] == '$' {
                    seq![s.subrange(open + 2, close)]
                } else {
                    Seq::empty()
                }) + placeholders(s, close + 1)
            }
        }
    }
}

/// The names `T` of the type placeholders `{$T}` of a template.
pub fn type_placeholders(template: &str) -> (r: Vec<String>)
    ensures
        text::seq_of(r@) == placeholders(template@, 0),
{
    let chars = chars_of(template);
    let ghost s = chars@;
    let mut found: Vec<String> = Vec::new();
    let mut i: usize = 0;
    assert(text::seq_of(found@) + placeholders(s, 0) =~= placeholders(s, 0));
    loop
        invariant
            s == chars@,
            s == template@,
            i <= s.len(),
            text::seq_of(found@) + placeholders(s, i as int) == placeholders(s, 0),
        decreases s.len() - i,
    {
        let open: usize = find_char(&chars, '{', i);
        proof {
            text::lemma_next_char(s, '{', i as int);
        }
        if open >= chars.len() {
            assert(text::seq_of(found@) =~= placeholders(s, 0));
            return found;
        }
        if open + 1 < chars.len() && chars[open + 1] == '{' {
            i = open + 2;
            continue;
        }
        let close: usize = find_char(&chars, '}', open + 1);
        proof {
            text::lemma_next_char(s, '}', open + 1);
        }
        if close >= chars.len() {
            assert(text::seq_of(found@) =~= placeholders(s, 0));
            return found;
        }
        let ghost before = found@;
        if open + 1 < close && chars[open + 1] == '$' {
            found.push(text_of(&chars, open + 2, close));
            assert(text::seq_of(found@) =~= text::seq_of(before).push(s.subrange(open + 2, close as int)));
        }
        i = close + 1;
        proof {
            assert(text::seq_of(found@) + placeholders(s, i as int) =~= placeholders(s, 0));
        }
    }
}

impl NodeDefinitionBuilder {
    /// Say what the node does.
    pub fn doc(self, doc: &str) -> (r: Self)
        ensures
            r@ == (NodeDefinitionView { doc: doc@, ..self@ }),
    {
        let mut b = self;
        b.def.doc = doc.to_owned();
        b
    }

    /// Put the node in another group.
    pub fn category(self, category: &str) -> (r: Self)
        ensures
            r@ == (NodeDefinitionView { category: category@, ..self@ }),
    {
        let mut b = self;
        b.def.category = category.to_owned();
        b
    }

    /// Add an input.
    pub fn input(self, socket: Socket) -> (r: Self)
        requires
            self@.input(socket@.name) is None,
        ensures
            r@ == (NodeDefinitionView { inputs: self@.inputs.push(socket@), ..self@ }),
    {
        let mut b = self;
        b.def.inputs.push(socket);
        assert(text::seq_of(b.def.inputs@) =~= self@.inputs.push(socket@));
        b
    }

    /// Add an output.
    pub fn output(self, socket: Socket) -> (r: Self)
        requires
            self@.output(socket@.name) is None,
        ensures
            r@ == (NodeDefinitionView { outputs: self@.outputs.push(socket@), ..self@ }),
    {
        let mut b = self;
        b.def.outputs.push(socket);
        assert(text::seq_of(b.def.outputs@) =~= self@.outputs.push(socket@));
        b
    }

    /// Add a macro variable.
    pub fn macro_var(self, decl: MacroDef) -> (r: Self)
        ensures
            r@ == (NodeDefinitionView { macros: self@.macros.push(decl@), ..self@ }),
    {
        let mut b = self;
        b.def.macros.push(decl);
        assert(text::seq_of(b.def.macros@) =~= self@.macros.push(decl@));
        b
    }

    /// Add a type parameter.
    pub fn generic_param(self, param: GenericParam) -> (r: Self)
        requires
            self@.generic(param@.name) is None,
        ensures
            r@ == (NodeDefinitionView { generics: self@.generics.push(param@), ..self@ }),
    {
        let mut b = self;
        b.def.generics.push(param);
        assert(text::seq_of(b.def.generics@) =~= self@.generics.push(param@));
        b
    }

    /// Add a setting.
    pub fn setting(self, setting: SettingDef) -> (r: Self)
        requires
            self@.setting(setting@.name) is None,
        ensures
            r@ == (NodeDefinitionView { settings: self@.settings.push(setting@), ..self@ }),
    {
        let mut b = self;
        b.def.settings.push(setting);
        assert(text::seq_of(b.def.settings@) =~= self@.settings.push(setting@));
        b
    }

    /// Add an import that the expressions need.
    pub fn import(self, module: &str, item: &str) -> (r: Self)
        requires
            wxsl::is_module_path(module@),
            wxsl::is_ident(item@),
        ensures
            r@ == (NodeDefinitionView {
                imports: self@.imports.push((module@, item@)),
                ..self@
            }),
    {
        let mut b = self;
        b.def.imports.push((ModulePath::new(module).unwrap(), WxslIdent::new(item).unwrap()));
        assert(import_views(b.def.imports@) =~= self@.imports.push((module@, item@)));
        b
    }

    /// Finish with one expression per output.
    pub fn exprs(self, exprs: Vec<String>) -> (r: NodeDefinition)
        requires
            buildable(
                (NodeDefinitionView { body: NodeBodyView::Expr(text::seq_of(exprs@)), ..self@ }),
            ),
        ensures
            r@ == (NodeDefinitionView { body: NodeBodyView::Expr(text::seq_of(exprs@)), ..self@ }),
    {
        let mut b = self;
        b.def.body = NodeBody::Expr(exprs);
        b.build()
    }

    /// Finish with the expression of the one output.
    pub fn expr(self, expr: &str) -> (r: NodeDefinition)
        requires
            buildable((NodeDefinitionView { body: NodeBodyView::Expr(seq![expr@]), ..self@ })),
        ensures
            r@ == (NodeDefinitionView { body: NodeBodyView::Expr(seq![expr@]), ..self@ }),
    {
        let mut exprs: Vec<String> = Vec::new();
        exprs.push(expr.to_owned());
        assert(text::seq_of(exprs@) =~= seq![expr@]);
        self.exprs(exprs)
    }

    /// Finish with a call: the function's parameters are the inputs and what it
    /// returns the outputs.
    pub fn call(self, func: WxslFunction) -> (r: NodeDefinition)
        requires
            buildable(
                (NodeDefinitionView {
                    inputs: func@.params,
                    outputs: function_outputs(func@),
                    body: NodeBodyView::Call(func@),
                    ..self@
                }),
            ),
        ensures
            r@ == (NodeDefinitionView {
                inputs: func@.params,
                outputs: function_outputs(func@),
                body: NodeBodyView::Call(func@),
                ..self@
            }),
    {
        let mut b = self;
        b.def.inputs = clone_vec(&func.params);
        b.def.outputs = func.outputs();
        b.def.body = NodeBody::Call(Box::new(func));
        b.build()
    }

    /// Finish with a read of a field of the fragment's context.
    pub fn context_read(self, field: &str) -> (r: NodeDefinition)
        requires
            wxsl::is_ident(field@),
            buildable((NodeDefinitionView { body: NodeBodyView::ContextRead(field@), ..self@ })),
        ensures
            r@ == (NodeDefinitionView { body: NodeBodyView::ContextRead(field@), ..self@ }),
    {
        let mut b = self;
        b.def.body = NodeBody::ContextRead(WxslIdent::new(field).unwrap());
        b.build()
    }

    /// Finish with a read of a field that only the vertex stage has.
    pub fn vertex_context_read(self, field: &str) -> (r: NodeDefinition)
        requires
            wxsl::is_ident(field@),
            buildable(
                (NodeDefinitionView { body: NodeBodyView::VertexContextRead(field@), ..self@ }),
            ),
        ensures
            r@ == (NodeDefinitionView { body: NodeBodyView::VertexContextRead(field@), ..self@ }),
    {
        let mut b = self;
        b.def.body = NodeBody::VertexContextRead(WxslIdent::new(field).unwrap());
        b.build()
    }

    /// Finish as a declaration, or a read of one: a node with one output and
    /// the setting that names what it declares.
    pub fn declaration(self, body: NodeBody) -> (r: NodeDefinition)
        requires
            body@ is Param || body@ is Resource || body@ is AttributeRead || body@ is UserRead,
            self@.outputs.len() == 1,
            self@.setting(declaration_setting(body@)) is Some,
            buildable((NodeDefinitionView { body: body@, ..self@ })),
        ensures
            r@ == (NodeDefinitionView { body: body@, ..self@ }),
    {
        let mut b = self;
        b.def.body = body;
        b.build()
    }

    /// Finish as a material's surface output.
    pub fn surface_output(self) -> (r: NodeDefinition)
        requires
            buildable((NodeDefinitionView { body: NodeBodyView::SurfaceOutput, ..self@ })),
        ensures
            r@ == (NodeDefinitionView { body: NodeBodyView::SurfaceOutput, ..self@ }),
    {
        let mut b = self;
        b.def.body = NodeBody::SurfaceOutput;
        b.build()
    }

    /// Finish as a material's vertex output.
    pub fn vertex_output(self) -> (r: NodeDefinition)
        requires
            buildable((NodeDefinitionView { body: NodeBodyView::VertexOutput, ..self@ })),
        ensures
            r@ == (NodeDefinitionView { body: NodeBodyView::VertexOutput, ..self@ }),
    {
        let mut b = self;
        b.def.body = NodeBody::VertexOutput;
        b.build()
    }

    /// Finish as a material's discard output.
    pub fn discard_output(self) -> (r: NodeDefinition)
        requires
            buildable((NodeDefinitionView { body: NodeBodyView::DiscardOutput, ..self@ })),
        ensures
            r@ == (NodeDefinitionView { body: NodeBodyView::DiscardOutput, ..self@ }),
    {
        let mut b = self;
        b.def.body = NodeBody::DiscardOutput;
        b.build()
    }

    /// Finish as an output that writes an interpolant.
    pub fn varying_output(self) -> (r: NodeDefinition)
        requires
            buildable((NodeDefinitionView { body: NodeBodyView::VaryingOutput, ..self@ })),
        ensures
            r@ == (NodeDefinitionView { body: NodeBodyView::VaryingOutput, ..self@ }),
    {
        let mut b = self;
        b.def.body = NodeBody::VaryingOutput;
        b.build()
    }

    /// Finish as a node of a document that is not compiled to source.
    pub fn document(self) -> (r: NodeDefinition)
        requires
            buildable((NodeDefinitionView { body: NodeBodyView::Document, ..self@ })),
        ensures
            r@ == (NodeDefinitionView { body: NodeBodyView::Document, ..self@ }),
    {
        let mut b = self;
        b.def.body = NodeBody::Document;
        b.build()
    }

    /// The finished definition. It has to hold together: see
    /// [`NodeDefinitionBuilder::is_buildable`].
    pub fn build(self) -> (r: NodeDefinition)
        requires
            buildable(self@),
        ensures
            r@ == self@,
    {
        self.def
    }

    /// Whether the definition holds together, so that it can be built.
    pub fn is_buildable(&self) -> (r: bool)
        ensures
            r == buildable(self@),
    {
        let allows = match &self.def.body {
            NodeBody::SurfaceOutput
            | NodeBody::VertexOutput
            | NodeBody::DiscardOutput
            | NodeBody::VaryingOutput
            | NodeBody::Document => true,
            _ => false,
        };
        if !allows && self.some_optional() {
            return false;
        }
        match &self.def.body {
            NodeBody::Expr(exprs) => {
                if exprs.len() != self.def.outputs.len() {
                    return false;
                }
                let mut i: usize = 0;
                while i < exprs.len()
                    invariant
                        i <= exprs@.len(),
                        self@.body == NodeBodyView::Expr(text::seq_of(exprs@)),
                        forall|j: int|
                            0 <= j < i ==> placeholders_declared(
                                self@,
                                #[trigger] text::seq_of(exprs@)[j],
                            ),
                    decreases exprs@.len() - i,
                {
                    if !self.placeholders_hold(exprs[i].as_str()) {
                        assert(!placeholders_declared(self@, self@.body->Expr_0[i as int]));
                        return false;
                    }
                    i += 1;
                }
            },
            _ => {},
        }
        let inputs_hold = self.sockets_hold(&self.def.inputs);
        let outputs_hold = self.sockets_hold(&self.def.outputs);
        proof {
            assert(self@.inputs == text::seq_of(self.def.inputs@));
            assert(self@.outputs == text::seq_of(self.def.outputs@));
            assert(allows == allows_optional(self@.body));
            if self@.body is Expr {
                assert(forall|i: int|
                    0 <= i < self@.body->Expr_0.len() ==> placeholders_declared(
                        self@,
                        #[trigger] self@.body->Expr_0[i],
                    ));
            }
        }
        inputs_hold && outputs_hold
    }

    fn some_optional(&self) -> (r: bool)
        ensures
            r == exists|i: int| 0 <= i < self@.inputs.len() && (#[trigger] self@.inputs[i]).optional,
    {
        let mut i: usize = 0;
        while i < self.def.inputs.len()
            invariant
                i <= self.def.inputs@.len(),
                forall|j: int| 0 <= j < i ==> !(#[trigger] self@.inputs[j]).optional,
            decreases self.def.inputs@.len() - i,
        {
            if self.def.inputs[i].optional {
                assert(self@.inputs[i as int].optional);
                return true;
            }
            i += 1;
        }
        false
    }

    fn placeholders_hold(&self, template: &str) -> (r: bool)
        ensures
            r == placeholders_declared(self@, template@),
    {
        let names = type_placeholders(template);
        let ghost found = placeholders(template@, 0);
        let mut i: usize = 0;
        while i < names.len()
            invariant
                i <= names@.len() == found.len(),
                found == text::seq_of(names@),
                found == placeholders(template@, 0),
                forall|j: int| 0 <= j < i ==> self@.generic(#[trigger] found[j]) is Some,
            decreases names@.len() - i,
        {
            if self.def.generic(names[i].as_str()).is_none() {
                assert(self@.generic(found[i as int]) is None);
                return false;
            }
            i += 1;
        }
        true
    }

    fn sockets_hold(&self, sockets: &Vec<Socket>) -> (r: bool)
        ensures
            r == forall|i: int|
                0 <= i < sockets@.len() ==> params_declared(self@, #[trigger] text::seq_of(sockets@)[i]),
    {
        let ghost s = text::seq_of(sockets@);
        let mut i: usize = 0;
        while i < sockets.len()
            invariant
                i <= sockets@.len(),
                s == text::seq_of(sockets@),
                forall|j: int| 0 <= j < i ==> params_declared(self@, #[trigger] s[j]),
            decreases sockets@.len() - i,
        {
            let generic_declared = match &sockets[i].generic {
                Some(p) => self.def.generic(p.as_str()).is_some(),
                None => true,
            };
            let combine_declared = match &sockets[i].combine {
                Some(c) => self.def.generic(c.a.as_str()).is_some() && self.def.generic(
                    c.b.as_str(),
                ).is_some(),
                None => true,
            };
            if !(generic_declared && combine_declared) {
                assert(!params_declared(self@, s[i as int]));
                return false;
            }
            i += 1;
        }
        true
    }
}

/// The setting that names what a declaration node declares or reads.
pub open spec fn declaration_setting(body: NodeBodyView) -> Seq<char> {
    if body is UserRead {
        SETTING_FIELD@
    } else {
        SETTING_NAME@
    }
}

/// The kinds of node a graph can be made of, by id.
#[derive(Debug)]
pub struct NodeRegistry {
    defs: TextMap<Arc<NodeDefinition>>,
}

impl View for NodeRegistry {
    type V = Map<Seq<char>, NodeDefinitionView>;

    closed spec fn view(&self) -> Map<Seq<char>, NodeDefinitionView> {
        self.defs@
    }
}

/// `defs` added to a registry by their ids, in order.
pub open spec fn registered(
    start: Map<Seq<char>, NodeDefinitionView>,
    defs: Seq<NodeDefinitionView>,
) -> Map<Seq<char>, NodeDefinitionView>
    decreases defs.len(),
{
    if defs.len() == 0 {
        start
    } else {
        registered(start, defs.drop_last()).insert(defs.last().id, defs.last())
    }
}

/// No id of `defs` occurs twice or is taken already.
pub open spec fn fresh_ids(
    start: Map<Seq<char>, NodeDefinitionView>,
    defs: Seq<NodeDefinitionView>,
) -> bool {
    &&& forall|i: int| 0 <= i < defs.len() ==> !start.contains_key((#[trigger] defs[i]).id)
    &&& forall|i: int, j: int|
        0 <= i < j < defs.len() ==> (#[trigger] defs[i]).id != (#[trigger] defs[j]).id
}

/// The definitions of a registry, in the order of their ids.
pub open spec fn listed(
    m: Map<Seq<char>, NodeDefinitionView>,
) -> Seq<NodeDefinitionView> {
    let ids = textmap::in_order(m.dom());
    Seq::new(ids.len(), |i: int| m[ids[i]])
}

/// Every id followed by a zero character.
pub open spec fn id_text(defs: Seq<NodeDefinitionView>) -> Seq<char>
    decreases defs.len(),
{
    if defs.len() == 0 {
        Seq::empty()
    } else {
        (id_text(defs.drop_last()) + defs.last().id).push('\0')
    }
}

impl NodeRegistry {
    /// No kinds of node.
    pub fn new() -> (r: Self)
        ensures
            r@ == Map::<Seq<char>, NodeDefinitionView>::empty(),
    {
        NodeRegistry { defs: TextMap::new() }
    }

    /// Add a kind of node, answering the one that had its id.
    pub fn register(&mut self, def: NodeDefinition) -> (r: Option<Arc<NodeDefinition>>)
        ensures
            final(self)@ == old(self)@.insert(def@.id, def@),
            match r {
                Some(d) => old(self)@.contains_key(def@.id) && d@ == old(self)@[def@.id],
                None => !old(self)@.contains_key(def@.id),
            },
    {
        let id = def.id.clone();
        self.defs.insert(id, Arc::new(def))
    }

    /// Add kinds of node whose ids are not taken.
    pub fn register_all(&mut self, defs: Vec<NodeDefinition>)
        requires
            fresh_ids(old(self)@, text::seq_of(defs@)),
        ensures
            final(self)@ == registered(old(self)@, text::seq_of(defs@)),
    {
        let ghost s = text::seq_of(defs@);
        let ghost n = defs@.len();
        let mut rest = defs;
        let mut back: Vec<NodeDefinition> = Vec::new();
        let ghost start = self@;
        while rest.len() > 0
            invariant
                rest@.len() + back@.len() == n == s.len(),
                forall|j: int| 0 <= j < rest@.len() ==> (#[trigger] rest@[j])@ == s[j],
                forall|j: int| 0 <= j < back@.len() ==> (#[trigger] back@[j])@ == s[n - 1 - j],
                self@ == start,
            decreases rest@.len(),
        {
            let last = rest.pop().unwrap();
            back.push(last);
        }
        let ghost mut done: int = 0;
        while back.len() > 0
            invariant
                done + back@.len() == n == s.len(),
                forall|j: int| 0 <= j < back@.len() ==> (#[trigger] back@[j])@ == s[n - 1 - j],
                0 <= done,
                self@ == registered(start, s.take(done)),
            decreases back@.len(),
        {
            let def = back.pop().unwrap();
            proof {
                assert(s.take(done + 1).drop_last() == s.take(done));
                assert(s.take(done + 1).last() == def@);
                done = done + 1;
            }
            self.register(def);
        }
        assert(s.take(done) == s);
    }

    /// The kind of node with an id.
    pub fn get(&self, id: &str) -> (r: Option<&Arc<NodeDefinition>>)
        ensures
            match r {
                Some(d) => self@.contains_key(id@) && d@ == self@[id@],
                None => !self@.contains_key(id@),
            },
    {
        self.defs.get(id)
    }

    /// Whether there is a kind of node with an id.
    pub fn contains(&self, id: &str) -> (r: bool)
        ensures
            r == self@.contains_key(id@),
    {
        self.defs.contains_key(id)
    }

    /// The number of kinds.
    pub fn len(&self) -> (r: usize)
        ensures
            r == listed(self@).len(),
    {
        self.defs.len()
    }

    /// Whether there are no kinds.
    pub fn is_empty(&self) -> (r: bool)
        ensures
            r == (self@ == Map::<Seq<char>, NodeDefinitionView>::empty()),
    {
        self.defs.is_empty()
    }

    /// Every kind, in the order of the ids.
    pub fn iter(&self) -> (r: Vec<&Arc<NodeDefinition>>)
        ensures
            text::seq_of(r@) == listed(self@),
    {
        let mut r: Vec<&Arc<NodeDefinition>> = Vec::new();
        let n: usize = self.defs.len();
        let mut i: usize = 0;
        while i < n
            invariant
                i <= n == textmap::in_order(self@.dom()).len(),
                r@.len() == i,
                self@ == self.defs@,
                forall|j: int| 0 <= j < i ==> (#[trigger] r@[j])@ == listed(self@)[j],
            decreases n - i,
        {
            r.push(self.defs.value_at(i));
            i += 1;
        }
        assert(text::seq_of(r@) =~= listed(self@));
        r
    }

    /// The categories, in the order in which the kinds first name them.
    pub fn categories(&self) -> (r: Vec<String>)
        ensures
            text::seq_of(r@) == lists::distinct(category_list(listed(self@))),
    {
        let defs = self.iter();
        let ghost cs = category_list(listed(self@));
        let mut seen: Vec<String> = Vec::new();
        let mut i: usize = 0;
        assert(text::seq_of(seen@) =~= lists::distinct(cs.take(0)));
        while i < defs.len()
            invariant
                i <= defs@.len() == cs.len(),
                text::seq_of(defs@) == listed(self@),
                cs == category_list(listed(self@)),
                text::seq_of(seen@) == lists::distinct(cs.take(i as int)),
            decreases defs@.len() - i,
        {
            proof {
                assert(cs.take(i + 1).drop_last() == cs.take(i as int));
                assert(cs[i as int] == listed(self@)[i as int].category);
                assert(text::seq_of(defs@)[i as int] == defs@[i as int]@);
            }
            let category = defs[i].category.as_str();
            if !contains_text(&seen, category) {
                let ghost before = seen@;
                seen.push(category.to_owned());
                assert(text::seq_of(seen@) =~= text::seq_of(before).push(cs[i as int]));
            }
            i += 1;
        }
        assert(cs.take(i as int) == cs);
        seen
    }

    /// A hash of the ids of the kinds, in order.
    pub fn signature(&self) -> (r: u64)
        ensures
            r == wxsl::text_hash(id_text(listed(self@))),
    {
        let defs = self.iter();
        let ghost ds = listed(self@);
        let mut text = String::new();
        let mut i: usize = 0;
        assert(text@ =~= id_text(ds.take(0)));
        while i < defs.len()
            invariant
                i <= defs@.len() == ds.len(),
                text::seq_of(defs@) == ds,
                text@ == id_text(ds.take(i as int)),
            decreases defs@.len() - i,
        {
            proof {
                assert(ds.take(i + 1).drop_last() == ds.take(i as int));
                assert(text::seq_of(defs@)[i as int] == defs@[i as int]@);
            }
            text.append(defs[i].id.as_str());
            text.push('\0');
            i += 1;
        }
        assert(ds.take(i as int) == ds);
        hash_text(text.as_str())
    }
}

impl Default for NodeRegistry {
    fn default() -> (r: Self)
        ensures
            r@ == Map::<Seq<char>, NodeDefinitionView>::empty(),
    {
        NodeRegistry::new()
    }
}

/// The category of each definition.
pub open spec fn category_list(defs: Seq<NodeDefinitionView>) -> Seq<Seq<char>> {
    Seq::new(defs.len(), |i: int| defs[i].category)
}

/// Whether a list holds a text.
pub fn contains_text(texts: &Vec<String>, text: &str) -> (r: bool)
    ensures
        r == text::seq_of(texts@).contains(text@),
{
    let ghost s = text::seq_of(texts@);
    let mut i: usize = 0;
    while i < texts.len()
        invariant
            i <= texts@.len() == s.len(),
            s == text::seq_of(texts@),
            forall|j: int| 0 <= j < i ==> #[trigger] s[j] != text@,
        decreases texts@.len() - i,
    {
        if same_text(texts[i].as_str(), text) {
            assert(s[i as int] == text@);
            return true;
        }
        i += 1;
    }
    false
}

} // verus!
