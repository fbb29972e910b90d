//! The statements a graph compiles to: one for each output that is read, in
//! an order of dependency.

use vstd::prelude::*;

use crate::abi;
use crate::error;
use crate::error::{push_names, CodegenError, CodegenErrorView, GraphError, GraphErrorView};
use crate::expr;
use crate::expr::{
    expand_template, input_expr, invalid_graph, request_import, Bindings, Context, ContextView,
    ImportItems, Imports,
};
use crate::graph;
use crate::graph::{Graph, GraphView, Kinds, ShaderStage};
use crate::ids::{NodeId, SocketRef, SocketRefView};
use crate::lists;
use crate::node;
use crate::node::{
    FunctionReturn, FunctionReturnView, GenericParam, GenericParamView, NodeBody, NodeBodyView,
    NodeDefinition, NodeDefinitionView, Socket, SocketView, WxslFunction, WxslFunctionView,
    SETTING_FIELD, SETTING_NAME,
};
use crate::resources;
use crate::resources::{GeometryInterface, GeometryInterfaceView};
use crate::text;
use crate::text::{push_number, trim};
use crate::textmap::TextMap;
use crate::validate;
use crate::wxsl;
use crate::wxsl::WxslIdent;

verus! {

/// What has been emitted so far.
#[verifier::ext_equal]
pub struct EmittedView {
    /// The expression that each output reads as.
    pub bindings: Map<SocketRefView, Seq<char>>,
    /// What is imported.
    pub imports: Imports,
    /// The statements.
    pub body: Seq<char>,
}

/// What has been emitted so far.
pub struct Emitted {
    /// The expression that each output reads as.
    pub bindings: Bindings,
    /// What is imported.
    pub imports: TextMap<ImportItems>,
    /// The statements.
    pub body: String,
}

impl View for Emitted {
    type V = EmittedView;

    open spec fn view(&self) -> EmittedView {
        EmittedView {
            bindings: self.bindings@,
            imports: self.imports@,
            body: self.body@,
        }
    }
}

/// The outcome of emitting something.
pub type Emission = Result<EmittedView, CodegenErrorView>;

/// The name that an output of a node is bound to.
pub open spec fn binding_of(id: NodeId, socket: Seq<char>) -> Seq<char> {
    "n"@ + text::decimal(id.0 as nat) + "_"@ + socket
}

/// One statement that binds a name.
pub open spec fn let_line(
    body: Seq<char>,
    name: Seq<char>,
    ty: Seq<char>,
    expr: Seq<char>,
) -> Seq<char> {
    body + "    let "@ + name + ": "@ + ty + " = "@ + expr + ";\n"@
}

/// The type that a socket of a node has in source.
pub open spec fn source_type(g: GraphView, id: NodeId, socket: SocketView) -> Seq<char> {
    match g.effective_type(id, socket) {
        Some(ty) => ty.wxsl_type()@,
        None => socket.ty.wxsl_type()@,
    }
}

/// With an output bound to an expression.
pub open spec fn with_binding(
    st: EmittedView,
    id: NodeId,
    socket: Seq<char>,
    expr: Seq<char>,
) -> EmittedView {
    EmittedView {
        bindings: st.bindings.insert(SocketRefView { node: id, socket }, expr),
        ..st
    }
}

/// One output that a template computes. One that nothing reads is left out.
pub open spec fn with_output(
    c: ContextView,
    st: EmittedView,
    id: NodeId,
    def: Seq<char>,
    socket: SocketView,
    template: Seq<char>,
) -> Emission {
    if c.g.edge_from(SocketRefView { node: id, socket: socket.name }) is None {
        Ok(st)
    } else {
        match expr::expanded(c, st.bindings, id, def, template, 0, ""@) {
            Err(e) => Err(e),
            Ok(expr) => {
                let name = binding_of(id, socket.name);
                Ok(
                    with_binding(
                        EmittedView {
                            body: let_line(
                                st.body,
                                name,
                                source_type(c.g, id, socket),
                                expr,
                            ),
                            ..st
                        },
                        id,
                        socket.name,
                        name,
                    ),
                )
            },
        }
    }
}

/// The first `n` outputs that templates compute.
pub open spec fn with_outputs(
    c: ContextView,
    st: EmittedView,
    id: NodeId,
    def: NodeDefinitionView,
    exprs: Seq<Seq<char>>,
    n: int,
) -> Emission
    decreases n,
{
    if n <= 0 {
        Ok(st)
    } else {
        match with_outputs(c, st, id, def, exprs, n - 1) {
            Err(e) => Err(e),
            Ok(before) => with_output(c, before, id, def.id, def.outputs[n - 1], exprs[n - 1]),
        }
    }
}

/// What the first `n` parameters of a call read.
pub open spec fn arguments(
    c: ContextView,
    bindings: Map<SocketRefView, Seq<char>>,
    id: NodeId,
    params: Seq<SocketView>,
    n: int,
) -> Result<Seq<Seq<char>>, CodegenErrorView>
    decreases n,
{
    if n <= 0 {
        Ok(Seq::empty())
    } else {
        match arguments(c, bindings, id, params, n - 1) {
            Err(e) => Err(e),
            Ok(before) => match expr::input_text(c, bindings, id, params[n - 1].name) {
                Err(e) => Err(e),
                Ok(Some(expr)) => Ok(before.push(expr)),
                Ok(None) => Err(
                    expr::invalid(
                        GraphErrorView::MissingInput {
                            socket: SocketRefView { node: id, socket: params[n - 1].name },
                        },
                    ),
                ),
            },
        }
    }
}

/// The types that the first `n` type parameters resolved to.
pub open spec fn resolved_types(
    g: GraphView,
    id: NodeId,
    generics: Seq<GenericParamView>,
    n: int,
) -> Result<Seq<Seq<char>>, CodegenErrorView>
    decreases n,
{
    if n <= 0 {
        Ok(Seq::empty())
    } else {
        match resolved_types(g, id, generics, n - 1) {
            Err(e) => Err(e),
            Ok(before) => match graph::generic_of(g, id, generics[n - 1].name) {
                Some(ty) => Ok(before.push(ty.wxsl_type()@)),
                None => Err(
                    expr::invalid(
                        GraphErrorView::UnresolvedGeneric {
                            node: id,
                            param: generics[n - 1].name,
                        },
                    ),
                ),
            },
        }
    }
}

/// The type arguments of a call, in angle brackets; nothing where the kind of
/// node has no type parameters.
pub open spec fn type_arguments_text(
    g: GraphView,
    id: NodeId,
    generics: Seq<GenericParamView>,
) -> Result<Seq<char>, CodegenErrorView> {
    if generics.len() == 0 {
        Ok(""@)
    } else {
        match resolved_types(g, id, generics, generics.len() as int) {
            Err(e) => Err(e),
            Ok(types) => Ok(error::names_text("<"@, types) + ">"@),
        }
    }
}

/// A call: the function, its type arguments and its arguments.
pub open spec fn call_text(name: Seq<char>, type_args: Seq<char>, args: Seq<Seq<char>>) -> Seq<
    char,
> {
    error::names_text(name + type_args + "("@, args) + ")"@
}

/// The first `n` fields of a returned struct, read off the name it is bound to.
pub open spec fn with_fields(
    st: EmittedView,
    id: NodeId,
    name: Seq<char>,
    fields: Seq<SocketView>,
    n: int,
) -> EmittedView
    decreases n,
{
    if n <= 0 {
        st
    } else {
        with_binding(
            with_fields(st, id, name, fields, n - 1),
            id,
            fields[n - 1].name,
            name + "."@ + fields[n - 1].name,
        )
    }
}

/// A call, bound once however many outputs it has.
pub open spec fn with_call(
    c: ContextView,
    st: EmittedView,
    id: NodeId,
    def: NodeDefinitionView,
    f: WxslFunctionView,
) -> Emission {
    match arguments(c, st.bindings, id, f.params, f.params.len() as int) {
        Err(e) => Err(e),
        Ok(args) => match type_arguments_text(c.g, id, def.generics) {
            Err(e) => Err(e),
            Ok(type_args) => {
                let call = call_text(f.name, type_args, args);
                let name = binding_of(id, "call"@);
                match f.ret {
                    FunctionReturnView::Value(socket) => Ok(
                        with_binding(
                            EmittedView {
                                body: let_line(
                                    st.body,
                                    name,
                                    source_type(c.g, id, socket),
                                    call,
                                ),
                                ..st
                            },
                            id,
                            socket.name,
                            name,
                        ),
                    ),
                    FunctionReturnView::Struct { name: struct_name, fields } => Ok(
                        with_fields(
                            EmittedView {
                                body: let_line(st.body, name, struct_name, call),
                                ..st
                            },
                            id,
                            name,
                            fields,
                            fields.len() as int,
                        ),
                    ),
                }
            },
        },
    }
}

/// The variable that a stage reads its context through.
pub open spec fn context_of(stage: ShaderStage) -> Seq<char> {
    match stage {
        ShaderStage::Vertex => abi::VERTEX_CONTEXT_VAR@,
        ShaderStage::Fragment => abi::CONTEXT_VAR@,
    }
}

/// The identifier that a declaring node's setting holds.
pub open spec fn name_of(g: GraphView, kinds: Kinds, id: NodeId, setting: Seq<char>) -> Result<
    Seq<char>,
    CodegenErrorView,
> {
    let name = validate::raw_name(g, kinds, id, setting);
    if wxsl::is_ident(name) {
        Ok(name)
    } else {
        Err(
            expr::invalid(
                GraphErrorView::InvalidSetting {
                    node: id,
                    setting,
                    value: name,
                    reason: "must be a valid WXSL identifier"@,
                },
            ),
        )
    }
}

/// How an attribute is read: what the stages interpolate off the attributes,
/// what an instance carries off the row its index points at.
pub open spec fn attribute_text(geometry: GeometryInterfaceView, name: Seq<char>) -> Option<
    Seq<char>,
> {
    if lists::first_where(geometry.vertex, resources::attribute_named(name)) is Some || lists::first_where(
        geometry.computed,
        resources::varying_named(name),
    ) is Some {
        Some(abi::MATERIAL_ATTRIBUTES_VAR@ + "."@ + name)
    } else {
        resources::read_text(
            geometry.instance,
            abi::MATERIAL_INSTANCE_VAR@ + "["@ + abi::MATERIAL_ATTRIBUTES_VAR@ + "."@
                + abi::INSTANCE_INDEX_FIELD@ + "]"@,
            name,
        )
    }
}

/// What a node that only reads something reads.
pub open spec fn read_of_body(c: ContextView, id: NodeId, body: NodeBodyView) -> Result<
    Seq<char>,
    CodegenErrorView,
> {
    match body {
        NodeBodyView::ContextRead(field) => Ok(context_of(c.stage) + "."@ + field),
        NodeBodyView::VertexContextRead(field) => Ok(context_of(c.stage) + "."@ + field),
        NodeBodyView::Param => match name_of(c.g, c.kinds, id, SETTING_NAME@) {
            Err(e) => Err(e),
            Ok(name) => match resources::read_text(c.interface.params, abi::MATERIAL_PARAMS_VAR@, name) {
                Some(expr) => Ok(expr),
                None => Err(CodegenErrorView::UndeclaredParam { node: id, name }),
            },
        },
        NodeBodyView::Resource => name_of(c.g, c.kinds, id, SETTING_NAME@),
        NodeBodyView::UserRead => match name_of(c.g, c.kinds, id, SETTING_FIELD@) {
            Err(e) => Err(e),
            Ok(name) => match c.interface.user {
                None => Err(CodegenErrorView::NoUserBlock { node: id }),
                Some(user) => match resources::read_text(user.layout, user.name, name) {
                    Some(expr) => Ok(expr),
                    None => Err(CodegenErrorView::UndeclaredParam { node: id, name }),
                },
            },
        },
        _ => match name_of(c.g, c.kinds, id, SETTING_NAME@) {
            Err(e) => Err(e),
            Ok(name) => match attribute_text(c.interface.geometry, name) {
                Some(expr) => Ok(expr),
                None => Err(CodegenErrorView::UndeclaredAttribute { node: id, name }),
            },
        },
    }
}

/// A node that only reads something: its output reads as that, with no
/// statement of its own.
pub open spec fn with_read(
    c: ContextView,
    st: EmittedView,
    id: NodeId,
    def: NodeDefinitionView,
) -> Emission {
    if def.outputs.len() == 0 {
        Err(CodegenErrorView::OutputArityMismatch { def: def.id, outputs: 0, exprs: 1 })
    } else {
        match read_of_body(c, id, def.body) {
            Err(e) => Err(e),
            Ok(expr) => Ok(with_binding(st, id, def.outputs[0].name, expr)),
        }
    }
}

/// Everything that a node emits. The ends of a graph and the nodes of a
/// document bind nothing.
pub open spec fn with_emitted(c: ContextView, st: EmittedView, id: NodeId) -> Emission {
    match c.g.definition(c.kinds, id) {
        Err(e) => Err(expr::invalid(e)),
        Ok(def) => {
            let asked = EmittedView {
                imports: expr::with_imports(
                    st.imports,
                    def.all_imports(),
                    def.all_imports().len() as int,
                ),
                ..st
            };
            match def.body {
                NodeBodyView::Expr(exprs) => if exprs.len() != def.outputs.len() {
                    Err(
                        CodegenErrorView::OutputArityMismatch {
                            def: def.id,
                            outputs: def.outputs.len() as usize,
                            exprs: exprs.len() as usize,
                        },
                    )
                } else {
                    with_outputs(c, asked, id, def, exprs, exprs.len() as int)
                },
                NodeBodyView::Call(f) => with_call(c, asked, id, def, f),
                NodeBodyView::SurfaceOutput => Ok(asked),
                NodeBodyView::VertexOutput => Ok(asked),
                NodeBodyView::DiscardOutput => Ok(asked),
                NodeBodyView::VaryingOutput => Ok(asked),
                NodeBodyView::Document => Ok(asked),
                _ => with_read(c, asked, id, def),
            }
        },
    }
}

/// Whether what a function answered is this outcome.
pub open spec fn emits(r: Result<(), CodegenError>, st: EmittedView, outcome: Emission) -> bool {
    match (r, outcome) {
        (Ok(_), Ok(after)) => st == after,
        (Err(e), Err(v)) => e@ == v,
        _ => false,
    }
}

/// The name that an output of a node is bound to.
fn binding_name(id: NodeId, socket: &str) -> (r: String)
    ensures
        r@ == binding_of(id, socket@),
{
    let mut r = "n".to_owned();
    push_number(&mut r, id.0 as u64);
    r.append("_");
    r.append(socket);
    r
}

/// The type that a socket of a node has in source.
fn type_in_source(graph: &Graph, id: NodeId, socket: &Socket) -> (r: &'static str)
    ensures
        r@ == source_type(graph@, id, socket@),
{
    match graph.effective_type(id, socket) {
        Some(ty) => ty.wxsl_type(),
        None => socket.ty.wxsl_type(),
    }
}

/// The identifier that a declaring node's setting holds.
fn declared_name(c: &Context, id: NodeId, setting: &str) -> (r: Result<String, CodegenError>)
    ensures
        match (r, name_of(c@.g, c@.kinds, id, setting@)) {
            (Ok(a), Ok(b)) => a@ == b,
            (Err(e), Err(v)) => e@ == v,
            _ => false,
        },
{
    let value = match c.graph.setting(c.registry, id, setting) {
        Some(text) => trim(text).to_owned(),
        None => String::new(),
    };
    assert(value@ =~= validate::raw_name(c@.g, c@.kinds, id, setting@));
    match WxslIdent::new(value.as_str()) {
        Some(_) => Ok(value),
        None => Err(
            invalid_graph(
                GraphError::InvalidSetting {
                    node: id,
                    setting: setting.to_owned(),
                    value,
                    reason: "must be a valid WXSL identifier".to_owned(),
                },
            ),
        ),
    }
}

impl Emitted {
    /// Nothing yet, beside what is imported.
    pub fn start(imports: TextMap<ImportItems>) -> (r: Self)
        ensures
            r@ == (EmittedView { bindings: Map::empty(), imports: imports@, body: ""@ }),
    {
        Emitted { bindings: Bindings::new(), imports, body: "".to_owned() }
    }

    /// Add a statement that binds a name.
    fn push_let(&mut self, name: &str, ty: &str, expr: &str)
        ensures
            final(self)@ == (EmittedView {
                body: let_line(old(self)@.body, name@, ty@, expr@),
                ..old(self)@
            }),
    {
        self.body.append("    let ");
        self.body.append(name);
        self.body.append(": ");
        self.body.append(ty);
        self.body.append(" = ");
        self.body.append(expr);
        self.body.append(";\n");
    }

    /// Let an output read as an expression.
    fn bind(&mut self, id: NodeId, socket: &str, expr: String)
        ensures
            final(self)@ == with_binding(old(self)@, id, socket@, expr@),
    {
        self.bindings.bind(SocketRef::new(id, socket), expr);
    }

    /// Emit one output that a template computes.
    fn emit_output(
        &mut self,
        c: &Context,
        id: NodeId,
        def: &NodeDefinition,
        socket: &Socket,
        template: &str,
    ) -> (r: Result<(), CodegenError>)
        ensures
            emits(r, final(self)@, with_output(c@, old(self)@, id, def@.id, socket@, template@)),
    {
        let target = SocketRef::new(id, socket.name.as_str());
        match c.graph.edge_from(&target) {
            None => {
                return Ok(());
            },
            Some(_) => {},
        }
        let expr = match expand_template(c, &self.bindings, id, def, template) {
            Ok(x) => x,
            Err(e) => {
                return Err(e);
            },
        };
        let name = binding_name(id, socket.name.as_str());
        self.push_let(name.as_str(), type_in_source(c.graph, id, socket), expr.as_str());
        self.bind(id, socket.name.as_str(), name);
        Ok(())
    }

    /// Emit the outputs that templates compute.
    fn emit_outputs(
        &mut self,
        c: &Context,
        id: NodeId,
        def: &NodeDefinition,
        exprs: &Vec<String>,
    ) -> (r: Result<(), CodegenError>)
        requires
            exprs@.len() == def@.outputs.len(),
        ensures
            emits(
                r,
                final(self)@,
                with_outputs(
                    c@,
                    old(self)@,
                    id,
                    def@,
                    text::seq_of(exprs@),
                    exprs@.len() as int,
                ),
            ),
    {
        let ghost start = self@;
        let ghost templates = text::seq_of(exprs@);
        let mut i: usize = 0;
        while i < exprs.len()
            invariant
                i <= exprs@.len() == def.outputs@.len(),
                start == old(self)@,
                templates == text::seq_of(exprs@),
                with_outputs(c@, start, id, def@, templates, i as int) == Emission::Ok(self@),
            decreases exprs@.len() - i,
        {
            assert(def@.outputs[i as int] == def.outputs@[i as int]@);
            assert(templates[i as int] == exprs@[i as int]@);
            match self.emit_output(c, id, def, &def.outputs[i], exprs[i].as_str()) {
                Ok(_) => {},
                Err(e) => {
                    proof {
                        lemma_outputs_stop(
                            c@,
                            start,
                            id,
                            def@,
                            templates,
                            i + 1,
                            exprs@.len() as int,
                        );
                    }
                    return Err(e);
                },
            }
            i += 1;
        }
        Ok(())
    }
}

proof fn lemma_outputs_stop(
    c: ContextView,
    st: EmittedView,
    id: NodeId,
    def: NodeDefinitionView,
    exprs: Seq<Seq<char>>,
    m: int,
    n: int,
)
    requires
        m <= n,
        with_outputs(c, st, id, def, exprs, m) is Err,
    ensures
        with_outputs(c, st, id, def, exprs, n) == with_outputs(c, st, id, def, exprs, m),
    decreases n - m,
{
    if m < n {
        lemma_outputs_stop(c, st, id, def, exprs, m, n - 1);
    }
}

proof fn lemma_arguments_stop(
    c: ContextView,
    bindings: Map<SocketRefView, Seq<char>>,
    id: NodeId,
    params: Seq<SocketView>,
    m: int,
    n: int,
)
    requires
        m <= n,
        arguments(c, bindings, id, params, m) is Err,
    ensures
        arguments(c, bindings, id, params, n) == arguments(c, bindings, id, params, m),
    decreases n - m,
{
    if m < n {
        lemma_arguments_stop(c, bindings, id, params, m, n - 1);
    }
}

proof fn lemma_types_stop(
    g: GraphView,
    id: NodeId,
    generics: Seq<GenericParamView>,
    m: int,
    n: int,
)
    requires
        m <= n,
        resolved_types(g, id, generics, m) is Err,
    ensures
        resolved_types(g, id, generics, n) == resolved_types(g, id, generics, m),
    decreases n - m,
{
    if m < n {
        lemma_types_stop(g, id, generics, m, n - 1);
    }
}

/// What the parameters of a call read.
fn call_arguments(c: &Context, bindings: &Bindings, id: NodeId, params: &Vec<Socket>) -> (r: Result<
    Vec<String>,
    CodegenError,
>)
    ensures
        match (r, arguments(c@, bindings@, id, text::seq_of(params@), params@.len() as int)) {
            (Ok(a), Ok(b)) => text::seq_of(a@) == b,
            (Err(e), Err(v)) => e@ == v,
            _ => false,
        },
{
    let ghost s = text::seq_of(params@);
    let mut args: Vec<String> = Vec::new();
    assert(text::seq_of(args@) =~= Seq::<Seq<char>>::empty());
    let mut i: usize = 0;
    while i < params.len()
        invariant
            i <= s.len() == params@.len(),
            s == text::seq_of(params@),
            arguments(c@, bindings@, id, s, i as int) == Result::<
                Seq<Seq<char>>,
                CodegenErrorView,
            >::Ok(text::seq_of(args@)),
        decreases s.len() - i,
    {
        assert(s[i as int] == params@[i as int]@);
        let ghost before = text::seq_of(args@);
        let expr = match input_expr(c, bindings, id, params[i].name.as_str()) {
            Ok(Some(x)) => x,
            Ok(None) => {
                proof {
                    lemma_arguments_stop(c@, bindings@, id, s, i + 1, s.len() as int);
                }
                return Err(
                    invalid_graph(
                        GraphError::MissingInput {
                            socket: SocketRef::new(id, params[i].name.as_str()),
                        },
                    ),
                );
            },
            Err(e) => {
                proof {
                    lemma_arguments_stop(c@, bindings@, id, s, i + 1, s.len() as int);
                }
                return Err(e);
            },
        };
        args.push(expr);
        assert(text::seq_of(args@) =~= before.push(expr@));
        i += 1;
    }
    Ok(args)
}

/// The type arguments of a call.
fn type_arguments(graph: &Graph, id: NodeId, generics: &Vec<GenericParam>) -> (r: Result<
    String,
    CodegenError,
>)
    ensures
        match (r, type_arguments_text(graph@, id, text::seq_of(generics@))) {
            (Ok(a), Ok(b)) => a@ == b,
            (Err(e), Err(v)) => e@ == v,
            _ => false,
        },
{
    let ghost s = text::seq_of(generics@);
    if generics.len() == 0 {
        return Ok("".to_owned());
    }
    let mut types: Vec<String> = Vec::new();
    assert(text::seq_of(types@) =~= Seq::<Seq<char>>::empty());
    let mut i: usize = 0;
    while i < generics.len()
        invariant
            i <= s.len() == generics@.len(),
            s.len() > 0,
            s == text::seq_of(generics@),
            resolved_types(graph@, id, s, i as int) == Result::<
                Seq<Seq<char>>,
                CodegenErrorView,
            >::Ok(text::seq_of(types@)),
        decreases s.len() - i,
    {
        assert(s[i as int] == generics@[i as int]@);
        let ghost before = text::seq_of(types@);
        match graph.generic_type(id, generics[i].name.as_str()) {
            Some(ty) => {
                types.push(ty.wxsl_type().to_owned());
                assert(text::seq_of(types@) =~= before.push(ty.wxsl_type()@));
            },
            None => {
                proof {
                    lemma_types_stop(graph@, id, s, i + 1, s.len() as int);
                }
                return Err(
                    invalid_graph(
                        GraphError::UnresolvedGeneric {
                            node: id,
                            param: generics[i].name.as_str().to_owned(),
                        },
                    ),
                );
            },
        }
        i += 1;
    }
    let mut out = "<".to_owned();
    push_names(&mut out, &types);
    out.append(">");
    Ok(out)
}

/// How an attribute is read.
fn attribute_expr(geometry: &GeometryInterface, name: &str) -> (r: Option<String>)
    ensures
        text::opt_of(r) == attribute_text(geometry@, name@),
{
    if geometry.vertex_attribute(name).is_some() || geometry.computed_varying(name).is_some() {
        let mut out = abi::MATERIAL_ATTRIBUTES_VAR.to_owned();
        out.append(".");
        out.append(name);
        Some(out)
    } else {
        let mut row = abi::MATERIAL_INSTANCE_VAR.to_owned();
        row.append("[");
        row.append(abi::MATERIAL_ATTRIBUTES_VAR);
        row.append(".");
        row.append(abi::INSTANCE_INDEX_FIELD);
        row.append("]");
        geometry.instance().read_expr(row.as_str(), name)
    }
}

/// A read of a field of the context of a stage.
fn context_read(stage: ShaderStage, field: &WxslIdent) -> (r: String)
    ensures
        r@ == context_of(stage) + "."@ + field@,
{
    let mut out = match stage {
        ShaderStage::Vertex => abi::VERTEX_CONTEXT_VAR.to_owned(),
        ShaderStage::Fragment => abi::CONTEXT_VAR.to_owned(),
    };
    out.append(".");
    out.append(field.as_str());
    out
}

/// What a node that only reads something reads.
fn read_of_node(c: &Context, id: NodeId, body: &NodeBody) -> (r: Result<String, CodegenError>)
    ensures
        match (r, read_of_body(c@, id, body@)) {
            (Ok(a), Ok(b)) => a@ == b,
            (Err(e), Err(v)) => e@ == v,
            _ => false,
        },
{
    match body {
        NodeBody::ContextRead(field) => Ok(context_read(c.stage, field)),
        NodeBody::VertexContextRead(field) => Ok(context_read(c.stage, field)),
        NodeBody::Param => match declared_name(c, id, SETTING_NAME) {
            Err(e) => Err(e),
            Ok(name) => match c.interface.params.read_expr(
                abi::MATERIAL_PARAMS_VAR,
                name.as_str(),
            ) {
                Some(expr) => Ok(expr),
                None => Err(CodegenError::UndeclaredParam { node: id, name }),
            },
        },
        NodeBody::Resource => declared_name(c, id, SETTING_NAME),
        NodeBody::UserRead => match declared_name(c, id, SETTING_FIELD) {
            Err(e) => Err(e),
            Ok(name) => match &c.interface.user {
                None => Err(CodegenError::NoUserBlock { node: id }),
                Some(user) => match user.layout.read_expr(user.name.as_str(), name.as_str()) {
                    Some(expr) => Ok(expr),
                    None => Err(CodegenError::UndeclaredParam { node: id, name }),
                },
            },
        },
        _ => match declared_name(c, id, SETTING_NAME) {
            Err(e) => Err(e),
            Ok(name) => match attribute_expr(&c.interface.geometry, name.as_str()) {
                Some(expr) => Ok(expr),
                None => Err(CodegenError::UndeclaredAttribute { node: id, name }),
            },
        },
    }
}

impl Emitted {
    /// Bind the fields of a returned struct.
    fn bind_fields(&mut self, id: NodeId, name: &str, fields: &Vec<Socket>)
        ensures
            final(self)@ == with_fields(
                old(self)@,
                id,
                name@,
                text::seq_of(fields@),
                fields@.len() as int,
            ),
    {
        let ghost start = self@;
        let ghost s = text::seq_of(fields@);
        let mut i: usize = 0;
        while i < fields.len()
            invariant
                i <= s.len() == fields@.len(),
                s == text::seq_of(fields@),
                self@ == with_fields(start, id, name@, s, i as int),
            decreases s.len() - i,
        {
            assert(s[i as int] == fields@[i as int]@);
            let mut expr = name.to_owned();
            expr.append(".");
            expr.append(fields[i].name.as_str());
            self.bind(id, fields[i].name.as_str(), expr);
            i += 1;
        }
    }

    /// Emit a call.
    fn emit_call(&mut self, c: &Context, id: NodeId, def: &NodeDefinition, f: &WxslFunction) -> (r:
        Result<(), CodegenError>)
        ensures
            emits(r, final(self)@, with_call(c@, old(self)@, id, def@, f@)),
    {
        let args = match call_arguments(c, &self.bindings, id, &f.params) {
            Ok(a) => a,
            Err(e) => {
                return Err(e);
            },
        };
        let type_args = match type_arguments(c.graph, id, &def.generics) {
            Ok(a) => a,
            Err(e) => {
                return Err(e);
            },
        };
        let mut call = f.name.as_str().to_owned();
        call.append(type_args.as_str());
        call.append("(");
        push_names(&mut call, &args);
        call.append(")");
        let name = binding_name(id, "call");
        match &f.ret {
            FunctionReturn::Value(socket) => {
                self.push_let(
                    name.as_str(),
                    type_in_source(c.graph, id, socket),
                    call.as_str(),
                );
                self.bind(id, socket.name.as_str(), name);
            },
            FunctionReturn::Struct { name: struct_name, fields } => {
                self.push_let(name.as_str(), struct_name.as_str(), call.as_str());
                self.bind_fields(id, name.as_str(), fields);
            },
        }
        Ok(())
    }

    /// Emit a node that only reads something.
    fn emit_read(&mut self, c: &Context, id: NodeId, def: &NodeDefinition) -> (r: Result<
        (),
        CodegenError,
    >)
        ensures
            emits(r, final(self)@, with_read(c@, old(self)@, id, def@)),
    {
        if def.outputs.len() == 0 {
            return Err(
                CodegenError::OutputArityMismatch { def: def.id.clone(), outputs: 0, exprs: 1 },
            );
        }
        assert(def@.outputs[0] == def.outputs@[0]@);
        match read_of_node(c, id, &def.body) {
            Ok(expr) => {
                self.bind(id, def.outputs[0].name.as_str(), expr);
                Ok(())
            },
            Err(e) => Err(e),
        }
    }

    /// Ask for what a kind of node imports.
    fn import_all(&mut self, def: &NodeDefinition)
        ensures
            final(self)@ == (EmittedView {
                imports: expr::with_imports(
                    old(self)@.imports,
                    def@.all_imports(),
                    def@.all_imports().len() as int,
                ),
                ..old(self)@
            }),
    {
        let ghost start = self@;
        let asked = def.all_imports();
        let ghost s = def@.all_imports();
        let mut i: usize = 0;
        while i < asked.len()
            invariant
                i <= s.len() == asked@.len(),
                s == node::import_views(asked@),
                self@ == (EmittedView {
                    imports: expr::with_imports(start.imports, s, i as int),
                    ..start
                }),
            decreases s.len() - i,
        {
            request_import(&mut self.imports, asked[i].0.as_str(), asked[i].1.as_str());
            i += 1;
        }
    }

    /// Emit a node: an output that nothing reads is left out, and a node that
    /// only reads something gets no statement.
    pub fn emit_node(&mut self, c: &Context, id: NodeId) -> (r: Result<(), CodegenError>)
        ensures
            emits(r, final(self)@, with_emitted(c@, old(self)@, id)),
    {
        let def = match c.graph.definition(c.registry, id) {
            Ok(d) => d,
            Err(e) => {
                return Err(invalid_graph(e));
            },
        };
        self.import_all(def);
        match &def.body {
            NodeBody::Expr(exprs) => {
                assert(text::seq_of(exprs@).len() == exprs@.len());
                assert(def@.outputs.len() == def.outputs@.len());
                if exprs.len() != def.outputs.len() {
                    return Err(
                        CodegenError::OutputArityMismatch {
                            def: def.id.clone(),
                            outputs: def.outputs.len(),
                            exprs: exprs.len(),
                        },
                    );
                }
                self.emit_outputs(c, id, def, exprs)
            },
            NodeBody::Call(f) => self.emit_call(c, id, def, &**f),
            NodeBody::SurfaceOutput => Ok(()),
            NodeBody::VertexOutput => Ok(()),
            NodeBody::DiscardOutput => Ok(()),
            NodeBody::VaryingOutput => Ok(()),
            NodeBody::Document => Ok(()),
            _ => self.emit_read(c, id, def),
        }
    }
}

} // verus!
