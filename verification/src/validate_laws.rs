//! What the problems of a graph mean: each of them is the fault of something
//! in the graph, so that a graph that keeps every rule has none.

use vstd::prelude::*;

use crate::abi;
use crate::codegen_laws;
use crate::error::{Direction, GraphErrorView};
use crate::graph;
use crate::graph::{
    AttributeDeclView, AttributeFrequency, GraphView, Kinds, NodeId, ShaderStage, SocketRefView,
    StageConstraint, UserBlockDeclView, UserFieldView,
};
use crate::graph_macros;
use crate::idmap;
use crate::interface;
use crate::lists;
use crate::macros;
use crate::macros::{MacroDefView, MacroValue};
use crate::node;
use crate::node::{NodeDefinitionView, SocketView, TypeRule, ValueType, SETTING_NAME};
use crate::outputs;
use crate::outputs::{GraphOutputsView, Terminal};
use crate::resources;
use crate::stages;
use crate::stages::CutView;
use crate::text;
use crate::textmap;
use crate::topology;
use crate::traversal;
use crate::typing;
use crate::validate;
use crate::validate::Found;
use crate::wiring;
use crate::wxsl;

verus! {

// ---------------------------------------------------------------------------
// What each problem says

/// Whether a node of a graph is a parameter or a resource of this name and
/// this type.
pub open spec fn declares(
    g: GraphView,
    kinds: Kinds,
    id: NodeId,
    name: Seq<char>,
    ty: ValueType,
) -> bool {
    &&& g.known(kinds, id)
    &&& g.kind(kinds, id).body is Param || g.kind(kinds, id).body is Resource
    &&& g.kind(kinds, id).outputs.len() > 0
    &&& g.effective_type(id, g.kind(kinds, id).outputs[0]) == Some(ty)
    &&& called_by(g, kinds, id, "name"@, name)
}

/// Whether a setting of a node holds this name, but for white space around it.
pub open spec fn called_by(
    g: GraphView,
    kinds: Kinds,
    id: NodeId,
    setting: Seq<char>,
    name: Seq<char>,
) -> bool {
    match g.setting(kinds, id, setting) {
        Some(held) => name == text::trimmed(held),
        None => name.len() == 0,
    }
}

/// Whether a graph gives this name this type.
pub open spec fn gives(g: GraphView, kinds: Kinds, name: Seq<char>, ty: ValueType) -> bool {
    exists|id: NodeId| #[trigger] declares(g, kinds, id, name, ty)
}

/// Whether a node of a graph declares a macro with this default.
pub open spec fn has_macro(
    g: GraphView,
    kinds: Kinds,
    id: NodeId,
    k: int,
    name: Seq<char>,
    default: MacroValue,
) -> bool {
    &&& g.known(kinds, id)
    &&& 0 <= k < g.kind(kinds, id).macros.len()
    &&& g.kind(kinds, id).macros[k].name == name
    &&& g.kind(kinds, id).macros[k].default == default
}

/// Whether something in a graph declares a macro with this default.
pub open spec fn gives_macro(
    g: GraphView,
    kinds: Kinds,
    name: Seq<char>,
    default: MacroValue,
) -> bool {
    exists|id: NodeId, k: int| #[trigger] has_macro(g, kinds, id, k, name, default)
}

/// Whether a kind of node has no socket of this name.
pub open spec fn lacks(d: NodeDefinitionView, name: Seq<char>, direction: Direction) -> bool {
    match direction {
        Direction::Input => forall|k: int|
            0 <= k < d.inputs.len() ==> (#[trigger] d.inputs[k]).name != name,
        Direction::Output => forall|k: int|
            0 <= k < d.outputs.len() ==> (#[trigger] d.outputs[k]).name != name,
    }
}

/// Whether an edge of a graph starts here, at an output, or ends here, at an
/// input.
pub open spec fn is_wired(g: GraphView, place: SocketRefView, direction: Direction) -> bool {
    match direction {
        Direction::Output => exists|i: int|
            0 <= i < g.edges.len() && (#[trigger] g.edges[i]).from == place,
        Direction::Input => exists|i: int|
            0 <= i < g.edges.len() && (#[trigger] g.edges[i]).to == place,
    }
}

/// Whether the input of this name of a kind of node has to be a constant.
pub open spec fn wants_constant(d: NodeDefinitionView, name: Seq<char>) -> bool {
    d.input(name) matches Some(s) && s.constant
}

/// Whether two edges of a graph lead into an input.
pub open spec fn is_fed_twice(g: GraphView, socket: SocketRefView) -> bool {
    exists|i: int, j: int|
        0 <= i < j < g.edges.len() && (#[trigger] g.edges[i]).to == socket && (
        #[trigger] g.edges[j]).to == socket
}

/// Whether nothing gives an input a value that needs one. One of a type that is
/// still open does not need one yet.
pub open spec fn starves(g: GraphView, id: NodeId, s: SocketView) -> bool {
    &&& forall|i: int| 0 <= i < g.edges.len() ==> (#[trigger] g.edges[i]).to != typing::at(id, s)
    &&& !g.nodes[id].params.contains_key(s.name)
    &&& g.effective_type(id, s) matches Some(ty) ==> node::default_of(s, ty) is None
    &&& !s.optional
    &&& s.generic matches Some(param) ==> g.nodes[id].generics.contains_key(param)
}

/// Whether an input of a node of this name starves.
pub open spec fn has_starving(g: GraphView, kinds: Kinds, place: SocketRefView) -> bool {
    exists|k: int|
        0 <= k < g.kind(kinds, place.node).inputs.len() && (#[trigger] g.kind(
            kinds,
            place.node,
        ).inputs[k]).name == place.socket && starves(
            g,
            place.node,
            g.kind(kinds, place.node).inputs[k],
        )
}

/// Whether the input of this name takes this type.
pub open spec fn takes(
    g: GraphView,
    kinds: Kinds,
    id: NodeId,
    name: Seq<char>,
    ty: ValueType,
) -> bool {
    g.kind(kinds, id).input(name) matches Some(s) && g.effective_type(id, s) == Some(ty)
}

/// Whether a kind of node has a type parameter of this name.
pub open spec fn is_generic(d: NodeDefinitionView, name: Seq<char>) -> bool {
    exists|k: int| 0 <= k < d.generics.len() && (#[trigger] d.generics[k]).name == name
}

/// Whether a socket combines two type parameters, which are these, by a rule
/// that has no answer for them.
pub open spec fn clashes(
    types: Map<Seq<char>, ValueType>,
    s: SocketView,
    rule: TypeRule,
    a: (Seq<char>, ValueType),
    b: (Seq<char>, ValueType),
) -> bool {
    &&& s.combine matches Some(c) && c.rule == rule && c.a == a.0 && c.b == b.0
    &&& types.contains_key(a.0) && types[a.0] == a.1
    &&& types.contains_key(b.0) && types[b.0] == b.1
    &&& rule.apply(a.1, b.1) is None
}

/// Whether a socket among these of this name clashes.
pub open spec fn has_clash(
    types: Map<Seq<char>, ValueType>,
    sockets: Seq<SocketView>,
    name: Seq<char>,
    rule: TypeRule,
    a: (Seq<char>, ValueType),
    b: (Seq<char>, ValueType),
) -> bool {
    exists|k: int|
        0 <= k < sockets.len() && (#[trigger] sockets[k]).name == name && clashes(
            types,
            sockets[k],
            rule,
            a,
            b,
        )
}

/// Whether a name may be given to something.
pub open spec fn is_usable(name: Seq<char>) -> bool {
    wxsl::is_ident(name) && !graph::is_reserved(name) && !graph::like_a_binding(name)
}

/// Whether a node reads something of this name, and its value is of this type.
pub open spec fn reads(
    g: GraphView,
    kinds: Kinds,
    id: NodeId,
    setting: Seq<char>,
    name: Seq<char>,
    ty: ValueType,
) -> bool {
    &&& called_by(g, kinds, id, setting, name)
    &&& g.kind(kinds, id).outputs.len() > 0
    &&& g.effective_type(id, g.kind(kinds, id).outputs[0]) == Some(ty)
}

/// Whether a block has a field of this name and this type.
pub open spec fn has_field(block: UserBlockDeclView, name: Seq<char>, ty: ValueType) -> bool {
    exists|k: int|
        0 <= k < block.fields.len() && text::trimmed((#[trigger] block.fields[k]).name) == name
            && block.fields[k].ty == ty
}

/// Whether a graph declares an attribute of this name and this type.
pub open spec fn has_attribute(g: GraphView, name: Seq<char>, ty: ValueType) -> bool {
    exists|k: int|
        0 <= k < g.attributes.len() && text::trimmed((#[trigger] g.attributes[k]).name) == name
            && g.attributes[k].ty == ty
}

/// Whether a graph declares no attribute of this name.
pub open spec fn lacks_attribute(g: GraphView, name: Seq<char>) -> bool {
    forall|k: int|
        0 <= k < g.attributes.len() ==> text::trimmed((#[trigger] g.attributes[k]).name) != name
}

/// Whether a field of a block breaks a rule: its name is none, another one has
/// it, or it holds no value.
pub open spec fn field_breaks(fields: Seq<UserFieldView>, k: int) -> bool {
    let name = text::trimmed(fields[k].name);
    ||| !wxsl::is_ident(name)
    ||| exists|j: int| 0 <= j < k && text::trimmed((#[trigger] fields[j]).name) == name
    ||| fields[k].ty.is_resource()
}

/// Whether a block breaks a rule.
pub open spec fn block_breaks(block: UserBlockDeclView) -> bool {
    ||| !wxsl::is_ident(text::trimmed(block.name))
    ||| exists|k: int| 0 <= k < block.fields.len() && #[trigger] field_breaks(block.fields, k)
}

/// Whether a declared attribute breaks a rule: its name cannot be used, another
/// one or every row has it, or its type cannot travel so.
pub open spec fn attribute_breaks(s: Seq<AttributeDeclView>, k: int) -> bool {
    let name = text::trimmed(s[k].name);
    ||| !is_usable(name)
    ||| exists|j: int| 0 <= j < k && text::trimmed((#[trigger] s[j]).name) == name
    ||| validate::is_base_field(name)
    ||| match s[k].frequency {
        AttributeFrequency::Vertex => !s[k].ty.is_float(),
        AttributeFrequency::Instance => s[k].ty.is_resource(),
        AttributeFrequency::Computed => !abi::INTERPOLANT_TYPES@.contains(s[k].ty),
    }
}

/// Whether a node writes the interpolant of this name.
pub open spec fn writes_to(g: GraphView, kinds: Kinds, id: NodeId, name: Seq<char>) -> bool {
    &&& g.known(kinds, id)
    &&& g.kind(kinds, id).body is VaryingOutput
    &&& g.declared_name(kinds, id, "name"@) == Some(name)
}

/// Whether a node that writes an interpolant names none, or an attribute that
/// the geometry supplies.
pub open spec fn writer_breaks(g: GraphView, kinds: Kinds, id: NodeId) -> bool {
    &&& g.known(kinds, id)
    &&& g.kind(kinds, id).body is VaryingOutput
    &&& match g.declared_name(kinds, id, "name"@) {
        None => true,
        Some(name) => exists|k: int|
            0 <= k < g.attributes.len() && text::trimmed((#[trigger] g.attributes[k]).name) == name
                && g.attributes[k].frequency != AttributeFrequency::Computed,
    }
}

/// Whether a declared interpolant is one that nothing writes.
pub open spec fn is_unwritten(g: GraphView, kinds: Kinds, k: int) -> bool {
    &&& g.attributes[k].frequency == AttributeFrequency::Computed
    &&& forall|id: NodeId| !#[trigger]
        writes_to(g, kinds, id, text::trimmed(g.attributes[k].name))
}

/// Whether the attributes of a graph break a rule, together or one of them.
pub open spec fn attributes_break(g: GraphView, kinds: Kinds) -> bool {
    let n = g.attributes.len() as int;
    ||| exists|k: int| 0 <= k < n && #[trigger] attribute_breaks(g.attributes, k)
    ||| graph::attributes_of(g.attributes, AttributeFrequency::Vertex, n).len()
        > abi::MAX_VERTEX_ATTRIBUTES
    ||| resources::varyings_spent(interface::geometry_asked(g)) > abi::MAX_VARYING_LOCATIONS
    ||| exists|id: NodeId| #[trigger] writer_breaks(g, kinds, id)
    ||| exists|k: int| 0 <= k < n && #[trigger] is_unwritten(g, kinds, k)
}

/// Whether these are different nodes that end a graph in one way.
pub open spec fn end_alike(g: GraphView, kinds: Kinds, nodes: Seq<NodeId>, kind: Terminal) -> bool {
    &&& nodes.len() > 1
    &&& nodes.no_duplicates()
    &&& forall|i: int|
        0 <= i < nodes.len() ==> g.known(kinds, #[trigger] nodes[i]) && outputs::ends_as(
            g.kind(kinds, nodes[i]).body,
            kind,
        )
}

/// Whether these nodes all write the interpolant of this name.
pub open spec fn all_write(g: GraphView, kinds: Kinds, nodes: Seq<NodeId>, name: Seq<char>) -> bool {
    forall|i: int| 0 <= i < nodes.len() ==> #[trigger] writes_to(g, kinds, nodes[i], name)
}

/// Whether these nodes all write one interpolant.
pub open spec fn write_one(g: GraphView, kinds: Kinds, nodes: Seq<NodeId>) -> bool {
    exists|name: Seq<char>| #[trigger] all_write(g, kinds, nodes, name)
}

/// Whether each of these nodes waits for another of them, or for one that is
/// missing.
pub open spec fn wait_for_each_other(g: GraphView, nodes: Seq<NodeId>) -> bool {
    &&& nodes.len() > 0
    &&& forall|x: NodeId| #[trigger]
        nodes.contains(x) ==> exists|i: int|
            0 <= i < g.edges.len() && topology::hinders(None, #[trigger] g.edges[i], x) && (
            nodes.contains(g.edges[i].from.node) || !g.nodes.contains_key(g.edges[i].from.node))
}

/// Whether a node cannot run wherever it is asked for: one stage cannot run it,
/// or its author wants it computed per vertex.
pub open spec fn is_bound_to_a_stage(g: GraphView, kinds: Kinds, id: NodeId) -> bool {
    ||| !stages::runs_per_vertex(g, kinds, id)
    ||| !stages::runs_per_fragment(g, kinds, id)
    ||| graph::stage_of_node(g, id) == StageConstraint::Vertex
}

/// Whether a graph has what a problem speaks of.
pub open spec fn deserved(g: GraphView, kinds: Kinds, e: GraphErrorView) -> bool {
    match e {
        GraphErrorView::UnknownDefinition { node, def } => g.nodes.contains_key(node)
            && g.nodes[node].def == def && !kinds.contains_key(def),
        GraphErrorView::UnknownNode(id) => !g.nodes.contains_key(id) && exists|i: int|
            0 <= i < g.edges.len() && ((#[trigger] g.edges[i]).from.node == id
                || g.edges[i].to.node == id),
        GraphErrorView::UnknownSocket { socket, direction } => g.known(kinds, socket.node)
            && is_wired(g, socket, direction) && lacks(g.kind(kinds, socket.node), socket.socket, direction),
        GraphErrorView::TypeMismatch { from, to, produced, expected } => produced != expected
            && wiring::settled_at(g, kinds, from, Direction::Output) == Some(produced)
            && wiring::settled_at(g, kinds, to, Direction::Input) == Some(expected)
            && exists|i: int|
            0 <= i < g.edges.len() && (#[trigger] g.edges[i]).from == from && g.edges[i].to == to,
        GraphErrorView::InputAlreadyConnected { socket } => is_fed_twice(g, socket),
        GraphErrorView::ConstantInput { socket } => g.known(kinds, socket.node) && is_wired(
            g,
            socket,
            Direction::Input,
        ) && wants_constant(g.kind(kinds, socket.node), socket.socket),
        GraphErrorView::Cycle { nodes } => wait_for_each_other(g, nodes),
        GraphErrorView::ParamTypeMismatch { socket, supplied, expected } => supplied != expected
            && g.known(kinds, socket.node) && g.nodes[socket.node].params.contains_key(
            socket.socket,
        ) && g.nodes[socket.node].params[socket.socket].ty() == supplied && takes(
            g,
            kinds,
            socket.node,
            socket.socket,
            expected,
        ),
        GraphErrorView::UnknownParam { node, param } => g.known(kinds, node)
            && g.nodes[node].params.contains_key(param) && lacks(
            g.kind(kinds, node),
            param,
            Direction::Input,
        ),
        GraphErrorView::MissingInput { socket } => g.known(kinds, socket.node) && has_starving(
            g,
            kinds,
            socket,
        ),
        GraphErrorView::ConflictingMacroDefault { name, first, second } => !macros::macro_eq(
            first,
            second,
        ) && !g.macros.contains_key(name) && gives_macro(g, kinds, name, first) && gives_macro(
            g,
            kinds,
            name,
            second,
        ),
        GraphErrorView::InvalidMacroName { name } => g.macros.contains_key(name)
            && !wxsl::is_ident(name),
        GraphErrorView::MacroKindMismatch { name, supplied, declared } => g.macros.contains_key(
            name,
        ) && g.macros[name] == supplied && supplied.kind() != declared.kind() && gives_macro(
            g,
            kinds,
            name,
            declared,
        ),
        GraphErrorView::UnresolvedGeneric { node, param } => g.known(kinds, node) && is_generic(
            g.kind(kinds, node),
            param,
        ) && !g.nodes[node].generics.contains_key(param),
        GraphErrorView::IncompatibleGenerics { node, socket, rule, a, b } => g.known(kinds, node)
            && (has_clash(
            g.nodes[node].generics,
            g.kind(kinds, node).inputs,
            socket,
            rule,
            a,
            b,
        ) || has_clash(
            g.nodes[node].generics,
            g.kind(kinds, node).outputs,
            socket,
            rule,
            a,
            b,
        )),
        GraphErrorView::UnknownSetting { node, setting } => g.known(kinds, node)
            && g.nodes[node].settings.contains_key(setting) && forall|k: int|
            0 <= k < g.kind(kinds, node).settings.len() ==> (#[trigger] g.kind(
                kinds,
                node,
            ).settings[k]).name != setting,
        GraphErrorView::InvalidSetting { node, setting, value, .. } => g.known(kinds, node)
            && called_by(g, kinds, node, setting, value) && !is_usable(value) && (if g.kind(
            kinds,
            node,
        ).body is UserRead {
            setting == "field"@
        } else {
            setting == "name"@ && (g.kind(kinds, node).body is Param || g.kind(
                kinds,
                node,
            ).body is Resource || g.kind(kinds, node).body is AttributeRead)
        }),
        GraphErrorView::ConflictingDeclaration { name, first, second } => first != second && gives(
            g,
            kinds,
            name,
            first,
        ) && gives(g, kinds, name, second),
        GraphErrorView::NoUserBlock { node } => g.known(kinds, node) && g.kind(
            kinds,
            node,
        ).body is UserRead && g.kind(kinds, node).outputs.len() > 0 && g.user_block is None,
        GraphErrorView::UnknownUserField { node, field, .. } => g.known(kinds, node) && g.kind(
            kinds,
            node,
        ).body is UserRead && g.kind(kinds, node).outputs.len() > 0 && called_by(
            g,
            kinds,
            node,
            "field"@,
            field,
        ) && g.user_block is Some
            && forall|k: int|
            0 <= k < g.user_block->0.fields.len() ==> text::trimmed(
                (#[trigger] g.user_block->0.fields[k]).name,
            ) != field,
        GraphErrorView::UserFieldTypeMismatch { node, field, resolved, declared } => g.known(
            kinds,
            node,
        ) && g.kind(kinds, node).body is UserRead && resolved != declared && reads(
            g,
            kinds,
            node,
            "field"@,
            field,
            resolved,
        ) && g.user_block is Some && has_field(g.user_block->0, field, declared),
        GraphErrorView::UnknownAttribute { node, attribute, .. } => g.known(kinds, node) && (
        g.kind(kinds, node).body is AttributeRead && g.kind(kinds, node).outputs.len() > 0
            || g.kind(kinds, node).body is VaryingOutput)
            && called_by(g, kinds, node, "name"@, attribute) && lacks_attribute(g, attribute),
        GraphErrorView::AttributeTypeMismatch { node, attribute, resolved, declared } => g.known(
            kinds,
            node,
        ) && g.kind(kinds, node).body is AttributeRead && resolved != declared && reads(
            g,
            kinds,
            node,
            "name"@,
            attribute,
            resolved,
        ) && has_attribute(g, attribute, declared),
        GraphErrorView::InvalidAttribute { .. } => attributes_break(g, kinds),
        GraphErrorView::InvalidUserBlock { .. } => g.user_block is Some && block_breaks(
            g.user_block->0,
        ),
        GraphErrorView::DuplicateOutput { nodes, .. } => {
            ||| end_alike(g, kinds, nodes, Terminal::Surface)
            ||| end_alike(g, kinds, nodes, Terminal::Vertex)
            ||| end_alike(g, kinds, nodes, Terminal::Discard)
            ||| end_alike(g, kinds, nodes, Terminal::Varying) && write_one(g, kinds, nodes)
        },
        GraphErrorView::WrongStage { node, .. } => is_bound_to_a_stage(g, kinds, node),
        _ => false,
    }
}

/// Whether a graph has what each of these problems speaks of.
pub open spec fn all_deserved(g: GraphView, kinds: Kinds, s: Seq<GraphErrorView>) -> bool {
    forall|i: int| 0 <= i < s.len() ==> #[trigger] deserved(g, kinds, s[i])
}

proof fn lemma_one_more(g: GraphView, kinds: Kinds, s: Seq<GraphErrorView>, e: GraphErrorView)
    requires
        all_deserved(g, kinds, s),
        deserved(g, kinds, e),
    ensures
        all_deserved(g, kinds, s.push(e)),
{
    assert forall|i: int| 0 <= i < s.push(e).len() implies #[trigger] deserved(
        g,
        kinds,
        s.push(e)[i],
    ) by {
        if i < s.len() {
            assert(s.push(e)[i] == s[i]);
        }
    }
}

proof fn lemma_more(g: GraphView, kinds: Kinds, s: Seq<GraphErrorView>, t: Seq<GraphErrorView>)
    requires
        all_deserved(g, kinds, s),
        all_deserved(g, kinds, t),
    ensures
        all_deserved(g, kinds, s + t),
{
    assert forall|i: int| 0 <= i < (s + t).len() implies #[trigger] deserved(
        g,
        kinds,
        (s + t)[i],
    ) by {
        if i < s.len() {
            assert((s + t)[i] == s[i]);
        } else {
            assert((s + t)[i] == t[i - s.len()]);
        }
    }
}


// ---------------------------------------------------------------------------
// Nodes

proof fn lemma_params(
    errors: Seq<GraphErrorView>,
    g: GraphView,
    kinds: Kinds,
    id: NodeId,
    names: Seq<Seq<char>>,
    n: int,
)
    requires
        all_deserved(g, kinds, errors),
        g.known(kinds, id),
        n <= names.len(),
        textmap::lists(names, g.nodes[id].params.dom()),
    ensures
        all_deserved(
            g,
            kinds,
            validate::param_errors(errors, g, g.kind(kinds, id), id, names, n),
        ),
    decreases n,
{
    if n > 0 {
        lemma_params(errors, g, kinds, id, names, n - 1);
        let d = g.kind(kinds, id);
        let before = validate::param_errors(errors, g, d, id, names, n - 1);
        let name = names[n - 1];
        assert(names.contains(name));
        let p = node::socket_named(name);
        lists::lemma_first_where(d.inputs, p);
        match d.input(name) {
            None => {
                assert forall|k: int| 0 <= k < d.inputs.len() implies (
                #[trigger] d.inputs[k]).name != name by {
                    assert(!p(d.inputs[k]));
                }
                lemma_one_more(
                    g,
                    kinds,
                    before,
                    GraphErrorView::UnknownParam { node: id, param: name },
                );
            },
            Some(socket) => {
                let k = choose|k: int| 0 <= k < d.inputs.len() && d.inputs[k] == socket;
                assert(p(socket));
                assert(d.inputs[k].name == name);
                let supplied = g.nodes[id].params[name].ty();
                if g.effective_type(id, socket) is Some && g.effective_type(id, socket)->0
                    != supplied {
                    let expected = g.effective_type(id, socket)->0;
                    assert(takes(g, kinds, id, name, expected));
                    lemma_one_more(
                        g,
                        kinds,
                        before,
                        GraphErrorView::ParamTypeMismatch {
                            socket: SocketRefView { node: id, socket: name },
                            supplied,
                            expected,
                        },
                    );
                }
            },
        }
    }
}

proof fn lemma_unresolved(
    errors: Seq<GraphErrorView>,
    g: GraphView,
    kinds: Kinds,
    id: NodeId,
    n: int,
)
    requires
        all_deserved(g, kinds, errors),
        g.known(kinds, id),
        n <= g.kind(kinds, id).generics.len(),
    ensures
        all_deserved(
            g,
            kinds,
            validate::unresolved_errors(errors, g, id, g.kind(kinds, id).generics, n),
        ),
    decreases n,
{
    if n > 0 {
        lemma_unresolved(errors, g, kinds, id, n - 1);
        let params = g.kind(kinds, id).generics;
        let before = validate::unresolved_errors(errors, g, id, params, n - 1);
        if !g.nodes[id].generics.contains_key(params[n - 1].name) {
            assert(is_generic(g.kind(kinds, id), params[n - 1].name));
            lemma_one_more(
                g,
                kinds,
                before,
                GraphErrorView::UnresolvedGeneric { node: id, param: params[n - 1].name },
            );
        }
    }
}

proof fn lemma_combined(
    errors: Seq<GraphErrorView>,
    g: GraphView,
    kinds: Kinds,
    id: NodeId,
    sockets: Seq<SocketView>,
    n: int,
)
    requires
        all_deserved(g, kinds, errors),
        g.known(kinds, id),
        sockets == g.kind(kinds, id).inputs || sockets == g.kind(kinds, id).outputs,
        n <= sockets.len(),
    ensures
        all_deserved(g, kinds, validate::combine_errors(errors, g, id, sockets, n)),
    decreases n,
{
    if n > 0 {
        lemma_combined(errors, g, kinds, id, sockets, n - 1);
        let before = validate::combine_errors(errors, g, id, sockets, n - 1);
        let types = g.nodes[id].generics;
        match sockets[n - 1].combine {
            Some(c) => {
                if types.contains_key(c.a) && types.contains_key(c.b) && c.rule.apply(
                    types[c.a],
                    types[c.b],
                ) is None {
                    let a = (c.a, types[c.a]);
                    let b = (c.b, types[c.b]);
                    assert(has_clash(types, sockets, sockets[n - 1].name, c.rule, a, b));
                    lemma_one_more(
                        g,
                        kinds,
                        before,
                        GraphErrorView::IncompatibleGenerics {
                            node: id,
                            socket: sockets[n - 1].name,
                            rule: c.rule,
                            a,
                            b,
                        },
                    );
                }
            },
            None => {},
        }
    }
}

/// Whether the maps of a graph hold finitely many values, as those of a built
/// graph do.
pub open spec fn is_finite(g: GraphView) -> bool {
    &&& g.macros.dom().finite()
    &&& forall|id: NodeId| #[trigger]
        g.nodes.contains_key(id) ==> g.nodes[id].params.dom().finite()
            && g.nodes[id].settings.dom().finite()
}

proof fn lemma_nodes(g: GraphView, kinds: Kinds, n: int)
    requires
        is_finite(g),
        n <= g.ids().len(),
    ensures
        all_deserved(g, kinds, validate::all_node_errors(Seq::empty(), g, kinds, g.ids(), n)),
    decreases n,
{
    if n > 0 {
        lemma_nodes(g, kinds, n - 1);
        idmap::lemma_in_order(g.nodes.dom());
        let id = g.ids()[n - 1];
        assert(g.ids().contains(id));
        let errors = validate::all_node_errors(Seq::empty(), g, kinds, g.ids(), n - 1);
        if g.known(kinds, id) {
            let d = g.kind(kinds, id);
            let names = textmap::in_order(g.nodes[id].params.dom());
            textmap::lemma_in_order(g.nodes[id].params.dom());
            lemma_params(errors, g, kinds, id, names, names.len() as int);
            let pinned = validate::param_errors(errors, g, d, id, names, names.len() as int);
            lemma_unresolved(pinned, g, kinds, id, d.generics.len() as int);
            let open = validate::unresolved_errors(
                pinned,
                g,
                id,
                d.generics,
                d.generics.len() as int,
            );
            lemma_combined(open, g, kinds, id, d.inputs, d.inputs.len() as int);
            let ins = validate::combine_errors(open, g, id, d.inputs, d.inputs.len() as int);
            lemma_combined(ins, g, kinds, id, d.outputs, d.outputs.len() as int);
        } else {
            lemma_one_more(
                g,
                kinds,
                errors,
                GraphErrorView::UnknownDefinition { node: id, def: g.nodes[id].def },
            );
        }
    }
}

// ---------------------------------------------------------------------------
// Declarations of the graph

proof fn lemma_fields(errors: Seq<GraphErrorView>, g: GraphView, kinds: Kinds, n: int)
    requires
        all_deserved(g, kinds, errors),
        g.user_block is Some,
        n <= g.user_block->0.fields.len(),
    ensures
        all_deserved(
            g,
            kinds,
            validate::all_field_errors(errors, g.user_block->0.fields, n),
        ),
    decreases n,
{
    if n > 0 {
        lemma_fields(errors, g, kinds, n - 1);
        let fields = g.user_block->0.fields;
        let before = validate::all_field_errors(errors, fields, n - 1);
        if field_breaks(fields, n - 1) {
            assert(block_breaks(g.user_block->0));
            assert forall|reason: Seq<char>, s: Seq<GraphErrorView>|
                all_deserved(g, kinds, s) implies #[trigger] all_deserved(
                g,
                kinds,
                s.push(GraphErrorView::InvalidUserBlock { reason }),
            ) by {
                lemma_one_more(g, kinds, s, GraphErrorView::InvalidUserBlock { reason });
            }
        }
    }
}

proof fn lemma_block(errors: Seq<GraphErrorView>, g: GraphView, kinds: Kinds)
    requires
        all_deserved(g, kinds, errors),
    ensures
        all_deserved(g, kinds, validate::user_block_errors(errors, g)),
{
    match g.user_block {
        Some(block) => {
            if !wxsl::is_ident(text::trimmed(block.name)) {
                lemma_one_more(
                    g,
                    kinds,
                    errors,
                    GraphErrorView::InvalidUserBlock {
                        reason: validate::quoted(
                            block.name,
                            "` is not a valid WXSL identifier for the block itself"@,
                        ),
                    },
                );
            }
            lemma_fields(
                validate::block_name_errors(errors, block),
                g,
                kinds,
                block.fields.len() as int,
            );
        },
        None => {},
    }
}

/// One more problem with the attributes is deserved where there is one.
proof fn lemma_bad_attributes(g: GraphView, kinds: Kinds)
    requires
        attributes_break(g, kinds),
    ensures
        forall|reason: Seq<char>, s: Seq<GraphErrorView>|
            all_deserved(g, kinds, s) ==> #[trigger] all_deserved(
                g,
                kinds,
                s.push(validate::bad_attribute(reason)),
            ),
{
    assert forall|reason: Seq<char>, s: Seq<GraphErrorView>|
        all_deserved(g, kinds, s) implies #[trigger] all_deserved(
        g,
        kinds,
        s.push(validate::bad_attribute(reason)),
    ) by {
        lemma_one_more(g, kinds, s, validate::bad_attribute(reason));
    }
}

proof fn lemma_attributes(errors: Seq<GraphErrorView>, g: GraphView, kinds: Kinds, n: int)
    requires
        all_deserved(g, kinds, errors),
        n <= g.attributes.len(),
    ensures
        all_deserved(g, kinds, validate::all_attribute_errors(errors, g.attributes, n)),
    decreases n,
{
    if n > 0 {
        lemma_attributes(errors, g, kinds, n - 1);
        if attribute_breaks(g.attributes, n - 1) {
            lemma_bad_attributes(g, kinds);
        }
    }
}

proof fn lemma_geometry(errors: Seq<GraphErrorView>, g: GraphView, kinds: Kinds)
    requires
        all_deserved(g, kinds, errors),
    ensures
        all_deserved(g, kinds, validate::geometry_errors(errors, g)),
{
    let n = g.attributes.len() as int;
    lemma_attributes(errors, g, kinds, n);
    let one = validate::all_attribute_errors(errors, g.attributes, n);
    if attributes_break(g, kinds) {
        lemma_bad_attributes(g, kinds);
        assert(all_deserved(g, kinds, validate::slot_errors(one, g)));
    }
}

// ---------------------------------------------------------------------------
// Ends

/// Whether nodes are listed in order, each of them among the first `n` of a
/// graph and an end of this kind, and every such one is.
spec fn are_terminals(g: GraphView, kinds: Kinds, kind: Terminal, s: Seq<NodeId>, n: int) -> bool {
    &&& idmap::ascending(s)
    &&& forall|i: int|
        0 <= i < s.len() ==> g.known(kinds, #[trigger] s[i]) && outputs::ends_as(
            g.kind(kinds, s[i]).body,
            kind,
        ) && stands_before(g, s[i], n)
    &&& forall|k: int|
        0 <= k < n && g.known(kinds, #[trigger] g.ids()[k]) && outputs::ends_as(
            g.kind(kinds, g.ids()[k]).body,
            kind,
        ) ==> s.contains(g.ids()[k])
}

spec fn stands_before(g: GraphView, id: NodeId, n: int) -> bool {
    exists|k: int| 0 <= k < n && #[trigger] g.ids()[k] == id
}

proof fn lemma_terminals(g: GraphView, kinds: Kinds, kind: Terminal, n: int)
    requires
        0 <= n <= g.ids().len(),
    ensures
        are_terminals(
            g,
            kinds,
            kind,
            outputs::terminals_among(g, kinds, kind, g.ids(), n),
            n,
        ),
    decreases n,
{
    let ids = g.ids();
    idmap::lemma_in_order(g.nodes.dom());
    if n > 0 {
        lemma_terminals(g, kinds, kind, n - 1);
        let before = outputs::terminals_among(g, kinds, kind, ids, n - 1);
        let s = outputs::terminals_among(g, kinds, kind, ids, n);
        let id = ids[n - 1];
        assert forall|i: int| 0 <= i < before.len() implies idmap::id_less(
            #[trigger] before[i],
            id,
        ) && stands_before(g, before[i], n) by {
            let k = choose|k: int| 0 <= k < n - 1 && #[trigger] ids[k] == before[i];
            assert(idmap::id_less(ids[k], ids[n - 1]));
        }
        assert(stands_before(g, id, n));
        assert forall|k: int|
            0 <= k < n && g.known(kinds, #[trigger] ids[k]) && outputs::ends_as(
                g.kind(kinds, ids[k]).body,
                kind,
            ) implies s.contains(ids[k]) by {
            if k < n - 1 {
                let j = choose|j: int| 0 <= j < before.len() && before[j] == ids[k];
                assert(s[j] == ids[k]);
            } else {
                assert(s[s.len() - 1] == id);
            }
        }
    }
}

/// The ends of a kind are different nodes that end a graph so, and no other
/// node does.
pub(crate) proof fn lemma_ends(g: GraphView, kinds: Kinds, kind: Terminal)
    ensures
        ({
            let s = outputs::terminals(g, kinds, kind);
            &&& s.no_duplicates()
            &&& forall|i: int|
                0 <= i < s.len() ==> g.known(kinds, #[trigger] s[i]) && outputs::ends_as(
                    g.kind(kinds, s[i]).body,
                    kind,
                )
            &&& forall|id: NodeId| #[trigger]
                g.known(kinds, id) && outputs::ends_as(g.kind(kinds, id).body, kind)
                    ==> s.contains(id)
        }),
{
    let n = g.ids().len() as int;
    lemma_terminals(g, kinds, kind, n);
    idmap::lemma_in_order(g.nodes.dom());
    let s = outputs::terminals(g, kinds, kind);
    assert(s.no_duplicates()) by {
        assert forall|i: int, j: int| 0 <= i < s.len() && 0 <= j < s.len() && i != j implies s[i]
            != s[j] by {
            if i < j {
                assert(idmap::id_less(s[i], s[j]));
            } else {
                assert(idmap::id_less(s[j], s[i]));
            }
        }
    }
    assert forall|id: NodeId| #[trigger]
        g.known(kinds, id) && outputs::ends_as(g.kind(kinds, id).body, kind) implies s.contains(
        id,
    ) by {
        assert(g.ids().contains(id));
        let k = choose|k: int| 0 <= k < n && g.ids()[k] == id;
        assert(g.ids()[k] == id);
    }
}

proof fn lemma_several(
    errors: Seq<GraphErrorView>,
    g: GraphView,
    kinds: Kinds,
    kind: Terminal,
    name: Seq<char>,
)
    requires
        all_deserved(g, kinds, errors),
        kind != Terminal::Varying,
    ensures
        all_deserved(
            g,
            kinds,
            validate::several_errors(errors, name, outputs::terminals(g, kinds, kind)),
        ),
{
    let nodes = outputs::terminals(g, kinds, kind);
    lemma_ends(g, kinds, kind);
    if nodes.len() > 1 {
        assert(end_alike(g, kinds, nodes, kind));
        lemma_one_more(
            g,
            kinds,
            errors,
            GraphErrorView::DuplicateOutput { kind: name, nodes },
        );
    }
}

/// An attribute that a usable name finds, or that none has it.
pub(crate) proof fn lemma_attribute(g: GraphView, name: Seq<char>)
    requires
        wxsl::is_ident(name),
    ensures
        match g.attribute(name) {
            Some(decl) => exists|k: int|
                0 <= k < g.attributes.len() && (#[trigger] g.attributes[k]) == decl && text::trimmed(
                    g.attributes[k].name,
                ) == name,
            None => lacks_attribute(g, name),
        },
{
    codegen_laws::lemma_trimmed_ident(name);
    let p = graph::attribute_called(name);
    lists::lemma_first_where(g.attributes, p);
    match g.attribute(name) {
        Some(decl) => {
            let k = choose|k: int| 0 <= k < g.attributes.len() && g.attributes[k] == decl;
            assert(p(decl));
            assert(g.attributes[k] == decl);
        },
        None => {
            assert forall|k: int| 0 <= k < g.attributes.len() implies text::trimmed(
                (#[trigger] g.attributes[k]).name,
            ) != name by {
                assert(!p(g.attributes[k]));
            }
        },
    }
}

proof fn lemma_writers(errors: Seq<GraphErrorView>, g: GraphView, kinds: Kinds, n: int)
    requires
        all_deserved(g, kinds, errors),
        n <= outputs::terminals(g, kinds, Terminal::Varying).len(),
    ensures
        all_deserved(
            g,
            kinds,
            validate::all_writer_errors(
                errors,
                g,
                kinds,
                outputs::terminals(g, kinds, Terminal::Varying),
                n,
            ),
        ),
    decreases n,
{
    if n > 0 {
        lemma_writers(errors, g, kinds, n - 1);
        lemma_ends(g, kinds, Terminal::Varying);
        let ids = outputs::terminals(g, kinds, Terminal::Varying);
        let id = ids[n - 1];
        let before = validate::all_writer_errors(errors, g, kinds, ids, n - 1);
        match g.declared_name(kinds, id, SETTING_NAME@) {
            None => {
                assert(writer_breaks(g, kinds, id));
                lemma_bad_attributes(g, kinds);
            },
            Some(name) => {
                lemma_attribute(g, name);
                match g.attribute(name) {
                    Some(decl) => {
                        if decl.frequency != AttributeFrequency::Computed {
                            assert(writer_breaks(g, kinds, id));
                            lemma_bad_attributes(g, kinds);
                        }
                    },
                    None => {
                        lemma_one_more(
                            g,
                            kinds,
                            before,
                            GraphErrorView::UnknownAttribute {
                                node: id,
                                attribute: name,
                                declared: validate::attribute_names(g),
                            },
                        );
                    },
                }
            },
        }
    }
}

/// Whether nodes stand under the name that they write, and all of the first
/// `n` do.
pub open spec fn listed_right(
    g: GraphView,
    kinds: Kinds,
    m: Map<Seq<char>, Seq<NodeId>>,
    ids: Seq<NodeId>,
    n: int,
) -> bool {
    &&& forall|name: Seq<char>| #[trigger]
        m.contains_key(name) ==> are_writers(g, kinds, m[name], name, ids, n)
    &&& forall|k: int|
        0 <= k < n && g.declared_name(kinds, #[trigger] ids[k], "name"@) is Some
            ==> m.contains_key(g.declared_name(kinds, ids[k], "name"@)->0)
            && m[g.declared_name(kinds, ids[k], "name"@)->0].contains(ids[k])
}

/// Whether these are different nodes among the first `n` that write a name.
pub open spec fn are_writers(
    g: GraphView,
    kinds: Kinds,
    s: Seq<NodeId>,
    name: Seq<char>,
    ids: Seq<NodeId>,
    n: int,
) -> bool {
    &&& s.no_duplicates()
    &&& forall|i: int| 0 <= i < s.len() ==> #[trigger] is_writer(g, kinds, s[i], name, ids, n)
}

/// Whether a node is one of the first `n` and writes a name.
pub open spec fn is_writer(
    g: GraphView,
    kinds: Kinds,
    id: NodeId,
    name: Seq<char>,
    ids: Seq<NodeId>,
    n: int,
) -> bool {
    &&& g.declared_name(kinds, id, "name"@) == Some(name)
    &&& exists|k: int| 0 <= k < n && #[trigger] ids[k] == id
}

pub(crate) proof fn lemma_writers_listed(g: GraphView, kinds: Kinds, ids: Seq<NodeId>, n: int)
    requires
        0 <= n <= ids.len(),
        ids.no_duplicates(),
    ensures
        listed_right(g, kinds, validate::writers_of(g, kinds, ids, n), ids, n),
        validate::writers_of(g, kinds, ids, n).dom().finite(),
    decreases n,
{
    if n > 0 {
        lemma_writers_listed(g, kinds, ids, n - 1);
        let before = validate::writers_of(g, kinds, ids, n - 1);
        let m = validate::writers_of(g, kinds, ids, n);
        let id = ids[n - 1];
        assert forall|x: NodeId, name: Seq<char>|
            is_writer(g, kinds, x, name, ids, n - 1) implies #[trigger] is_writer(
            g,
            kinds,
            x,
            name,
            ids,
            n,
        ) && x != id by {
            let k = choose|k: int| 0 <= k < n - 1 && #[trigger] ids[k] == x;
            assert(ids[k] == x);
        }
        assert forall|name: Seq<char>| #[trigger] m.contains_key(name) implies are_writers(
            g,
            kinds,
            m[name],
            name,
            ids,
            n,
        ) by {
            if g.declared_name(kinds, id, SETTING_NAME@) == Some(name) {
                assert(is_writer(g, kinds, id, name, ids, n));
                if before.contains_key(name) {
                    let s = before[name];
                    assert forall|i: int| 0 <= i < s.push(id).len() implies #[trigger] is_writer(
                        g,
                        kinds,
                        s.push(id)[i],
                        name,
                        ids,
                        n,
                    ) by {
                        if i < s.len() {
                            assert(is_writer(g, kinds, s[i], name, ids, n - 1));
                        }
                    }
                    assert forall|i: int| 0 <= i < s.len() implies s[i] != id by {
                        assert(is_writer(g, kinds, s[i], name, ids, n - 1));
                        assert(is_writer(g, kinds, s[i], name, ids, n));
                    }
                } else {
                    assert(m[name] == seq![id]);
                }
            } else {
                assert(before.contains_key(name) && m[name] == before[name]);
                let s = before[name];
                assert forall|i: int| 0 <= i < s.len() implies #[trigger] is_writer(
                    g,
                    kinds,
                    s[i],
                    name,
                    ids,
                    n,
                ) by {
                    assert(is_writer(g, kinds, s[i], name, ids, n - 1));
                }
            }
        }
        assert forall|k: int|
            0 <= k < n && g.declared_name(kinds, #[trigger] ids[k], "name"@) is Some implies
            m.contains_key(g.declared_name(kinds, ids[k], "name"@)->0) && m[g.declared_name(
            kinds,
            ids[k],
            "name"@,
        )->0].contains(ids[k]) by {
            let name = g.declared_name(kinds, ids[k], "name"@)->0;
            if k < n - 1 {
                let s = before[name];
                let j = choose|j: int| 0 <= j < s.len() && s[j] == ids[k];
                assert(m[name][j] == ids[k]);
            } else {
                assert(m[name][m[name].len() - 1] == id);
            }
        }
    }
}

proof fn lemma_rewritten(
    errors: Seq<GraphErrorView>,
    g: GraphView,
    kinds: Kinds,
    names: Seq<Seq<char>>,
    n: int,
)
    requires
        all_deserved(g, kinds, errors),
        n <= names.len(),
        ({
            let ids = outputs::terminals(g, kinds, Terminal::Varying);
            textmap::lists(
                names,
                validate::writers_of(g, kinds, ids, ids.len() as int).dom(),
            )
        }),
    ensures
        ({
            let ids = outputs::terminals(g, kinds, Terminal::Varying);
            all_deserved(
                g,
                kinds,
                validate::rewritten_errors(
                    errors,
                    validate::writers_of(g, kinds, ids, ids.len() as int),
                    names,
                    n,
                ),
            )
        }),
    decreases n,
{
    if n > 0 {
        lemma_rewritten(errors, g, kinds, names, n - 1);
        lemma_ends(g, kinds, Terminal::Varying);
        let ids = outputs::terminals(g, kinds, Terminal::Varying);
        let len = ids.len() as int;
        lemma_writers_listed(g, kinds, ids, len);
        let m = validate::writers_of(g, kinds, ids, len);
        let before = validate::rewritten_errors(errors, m, names, n - 1);
        let name = names[n - 1];
        assert(names.contains(name));
        assert(m.contains_key(name));
        let nodes = m[name];
        assert forall|i: int| 0 <= i < nodes.len() implies #[trigger] writes_to(
            g,
            kinds,
            nodes[i],
            name,
        ) by {
            assert(is_writer(g, kinds, nodes[i], name, ids, len));
        }
        if nodes.len() > 1 {
            assert forall|i: int| 0 <= i < nodes.len() implies g.known(kinds, #[trigger] nodes[i])
                && outputs::ends_as(g.kind(kinds, nodes[i]).body, Terminal::Varying) by {
                assert(writes_to(g, kinds, nodes[i], name));
            }
            assert(end_alike(g, kinds, nodes, Terminal::Varying));
            assert(all_write(g, kinds, nodes, name));
            lemma_one_more(
                g,
                kinds,
                before,
                GraphErrorView::DuplicateOutput {
                    kind: abi::VARYING_OUTPUT_ID@ + " `"@ + name + "`"@,
                    nodes,
                },
            );
        }
    }
}

proof fn lemma_unwritten(errors: Seq<GraphErrorView>, g: GraphView, kinds: Kinds, n: int)
    requires
        all_deserved(g, kinds, errors),
        n <= g.attributes.len(),
    ensures
        ({
            let ids = outputs::terminals(g, kinds, Terminal::Varying);
            all_deserved(
                g,
                kinds,
                validate::unwritten_errors(
                    errors,
                    validate::writers_of(g, kinds, ids, ids.len() as int),
                    g.attributes,
                    n,
                ),
            )
        }),
    decreases n,
{
    if n > 0 {
        lemma_unwritten(errors, g, kinds, n - 1);
        lemma_ends(g, kinds, Terminal::Varying);
        let ids = outputs::terminals(g, kinds, Terminal::Varying);
        let len = ids.len() as int;
        lemma_writers_listed(g, kinds, ids, len);
        let m = validate::writers_of(g, kinds, ids, len);
        let name = text::trimmed(g.attributes[n - 1].name);
        if g.attributes[n - 1].frequency == AttributeFrequency::Computed && !m.contains_key(name) {
            assert forall|id: NodeId| !#[trigger] writes_to(g, kinds, id, name) by {
                if writes_to(g, kinds, id, name) {
                    assert(g.known(kinds, id));
                    assert(ids.contains(id));
                    let k = choose|k: int| 0 <= k < ids.len() && ids[k] == id;
                    assert(ids[k] == id);
                }
            }
            assert(is_unwritten(g, kinds, n - 1));
            lemma_bad_attributes(g, kinds);
        }
    }
}

proof fn lemma_varyings(errors: Seq<GraphErrorView>, g: GraphView, kinds: Kinds)
    requires
        all_deserved(g, kinds, errors),
    ensures
        all_deserved(g, kinds, validate::varying_errors(errors, g, kinds)),
{
    let ids = outputs::terminals(g, kinds, Terminal::Varying);
    let n = ids.len() as int;
    lemma_ends(g, kinds, Terminal::Varying);
    lemma_writers(errors, g, kinds, n);
    lemma_writers_listed(g, kinds, ids, n);
    let m = validate::writers_of(g, kinds, ids, n);
    textmap::lemma_in_order(m.dom());
    let names = textmap::in_order(m.dom());
    let one = validate::all_writer_errors(errors, g, kinds, ids, n);
    lemma_rewritten(one, g, kinds, names, names.len() as int);
    let two = validate::rewritten_errors(one, m, names, names.len() as int);
    lemma_unwritten(two, g, kinds, g.attributes.len() as int);
}


// ---------------------------------------------------------------------------
// Stages

proof fn lemma_crossing(
    g: GraphView,
    kinds: Kinds,
    o: GraphOutputsView,
    sockets: Seq<SocketRefView>,
    n: int,
)
    ensures
        all_deserved(g, kinds, stages::crossed(g, kinds, o, sockets, n).errors),
    decreases n,
{
    if n > 0 {
        lemma_crossing(g, kinds, o, sockets, n - 1);
        let before = stages::crossed(g, kinds, o, sockets, n - 1);
        let socket = sockets[n - 1];
        if graph::stage_of_node(g, socket.node) == StageConstraint::Vertex {
            lemma_one_more(
                g,
                kinds,
                before.errors,
                stages::stage_error(
                    g,
                    socket.node,
                    Some(o.surface),
                    stages::uncrossed_reason(g, kinds, socket),
                ),
            );
        }
    }
}

proof fn lemma_stages(
    errors: Seq<GraphErrorView>,
    g: GraphView,
    kinds: Kinds,
    o: GraphOutputsView,
    placed: Map<NodeId, ShaderStage>,
    cuts: Seq<CutView>,
    ids: Seq<NodeId>,
    n: int,
)
    requires
        all_deserved(g, kinds, errors),
    ensures
        all_deserved(
            g,
            kinds,
            stages::all_stage_errors(errors, g, kinds, o, placed, cuts, ids, n),
        ),
    decreases n,
{
    if n > 0 {
        lemma_stages(errors, g, kinds, o, placed, cuts, ids, n - 1);
        let id = ids[n - 1];
        if is_bound_to_a_stage(g, kinds, id) {
            assert forall|s: Seq<GraphErrorView>, end: Option<NodeId>, reason: Seq<char>|
                all_deserved(g, kinds, s) implies #[trigger] all_deserved(
                g,
                kinds,
                s.push(stages::stage_error(g, id, end, reason)),
            ) by {
                lemma_one_more(g, kinds, s, stages::stage_error(g, id, end, reason));
            }
        }
    }
}

proof fn lemma_order(g: GraphView, kinds: Kinds)
    requires
        topology::topological(g, None) is Err,
    ensures
        deserved(g, kinds, topology::topological(g, None)->Err_0),
{
    topology::nodes_without_order_wait_for_each_other(g, None);
}

proof fn lemma_plan(g: GraphView, kinds: Kinds)
    ensures
        all_deserved(g, kinds, validate::plan_errors(g, kinds)),
{
    if outputs::outputs_of(g, kinds) is Some && topology::topological(g, None) is Ok {
        let o = outputs::outputs_of(g, kinds)->0;
        let placed = stages::stages_in(g, kinds, o, topology::topological(g, None)->Ok_0);
        let sockets = stages::crossing_sockets(g.edges, placed);
        lemma_crossing(g, kinds, o, sockets, sockets.len() as int);
        let c = stages::crossed(g, kinds, o, sockets, sockets.len() as int);
        let ids = idmap::in_order(placed.dom());
        lemma_stages(c.errors, g, kinds, o, placed, c.cuts, ids, ids.len() as int);
    }
}

proof fn lemma_misread(
    errors: Seq<GraphErrorView>,
    g: GraphView,
    kinds: Kinds,
    told: Seq<GraphErrorView>,
    root: NodeId,
    ids: Seq<NodeId>,
    n: int,
)
    requires
        all_deserved(g, kinds, errors),
    ensures
        all_deserved(
            g,
            kinds,
            validate::misread_errors(errors, g, kinds, told, root, ids, n),
        ),
    decreases n,
{
    if n > 0 {
        lemma_misread(errors, g, kinds, told, root, ids, n - 1);
        let id = ids[n - 1];
        if !stages::runs_per_vertex(g, kinds, id) {
            lemma_one_more(
                g,
                kinds,
                validate::misread_errors(errors, g, kinds, told, root, ids, n - 1),
                stages::stage_error(g, id, Some(root), stages::vertex_reason(g, kinds, id)),
            );
        }
    }
}

proof fn lemma_all_misread(
    errors: Seq<GraphErrorView>,
    g: GraphView,
    kinds: Kinds,
    told: Seq<GraphErrorView>,
    roots: Seq<NodeId>,
    n: int,
)
    requires
        all_deserved(g, kinds, errors),
    ensures
        all_deserved(g, kinds, validate::all_misreads(errors, g, kinds, told, roots, n)),
    decreases n,
{
    if n > 0 {
        lemma_all_misread(errors, g, kinds, told, roots, n - 1);
        let ids = idmap::in_order(
            traversal::dependencies(g.edges, Set::empty(), roots[n - 1]),
        );
        lemma_misread(
            validate::all_misreads(errors, g, kinds, told, roots, n - 1),
            g,
            kinds,
            told,
            roots[n - 1],
            ids,
            ids.len() as int,
        );
    }
}

proof fn lemma_outputs(errors: Seq<GraphErrorView>, g: GraphView, kinds: Kinds)
    requires
        all_deserved(g, kinds, errors),
    ensures
        all_deserved(g, kinds, validate::output_errors(errors, g, kinds)),
{
    let surface = outputs::terminals(g, kinds, Terminal::Surface);
    let vertices = outputs::terminals(g, kinds, Terminal::Vertex);
    let discard = outputs::terminals(g, kinds, Terminal::Discard);
    let varyings = outputs::terminals(g, kinds, Terminal::Varying);
    lemma_several(errors, g, kinds, Terminal::Surface, abi::SURFACE_OUTPUT_ID@);
    let one = validate::several_errors(errors, abi::SURFACE_OUTPUT_ID@, surface);
    lemma_several(one, g, kinds, Terminal::Vertex, abi::VERTEX_OUTPUT_ID@);
    let two = validate::several_errors(one, abi::VERTEX_OUTPUT_ID@, vertices);
    lemma_several(two, g, kinds, Terminal::Discard, abi::DISCARD_OUTPUT_ID@);
    let three = validate::several_errors(two, abi::DISCARD_OUTPUT_ID@, discard);
    lemma_varyings(three, g, kinds);
    let four = validate::varying_errors(three, g, kinds);
    let told = validate::plan_errors(g, kinds);
    lemma_plan(g, kinds);
    lemma_more(g, kinds, four, told);
    lemma_all_misread(four + told, g, kinds, told, vertices, vertices.len() as int);
    let five = validate::all_misreads(
        four + told,
        g,
        kinds,
        told,
        vertices,
        vertices.len() as int,
    );
    lemma_all_misread(five, g, kinds, told, varyings, varyings.len() as int);
}

// ---------------------------------------------------------------------------
// What nodes declare

proof fn lemma_settings(
    errors: Seq<GraphErrorView>,
    g: GraphView,
    kinds: Kinds,
    id: NodeId,
    names: Seq<Seq<char>>,
    n: int,
)
    requires
        all_deserved(g, kinds, errors),
        g.known(kinds, id),
        n <= names.len(),
        textmap::lists(names, g.nodes[id].settings.dom()),
    ensures
        all_deserved(
            g,
            kinds,
            validate::setting_errors(errors, g.kind(kinds, id), id, names, n),
        ),
    decreases n,
{
    if n > 0 {
        lemma_settings(errors, g, kinds, id, names, n - 1);
        let d = g.kind(kinds, id);
        let name = names[n - 1];
        assert(names.contains(name));
        if d.setting(name) is None {
            let p = node::setting_named(name);
            lists::lemma_first_where(d.settings, p);
            assert forall|k: int| 0 <= k < d.settings.len() implies (
            #[trigger] d.settings[k]).name != name by {
                assert(!p(d.settings[k]));
            }
            lemma_one_more(
                g,
                kinds,
                validate::setting_errors(errors, d, id, names, n - 1),
                GraphErrorView::UnknownSetting { node: id, setting: name },
            );
        }
    }
}

/// Whether each name was given the type that is held for it.
spec fn all_given(g: GraphView, kinds: Kinds, types: Map<Seq<char>, ValueType>) -> bool {
    forall|name: Seq<char>| #[trigger]
        types.contains_key(name) ==> gives(g, kinds, name, types[name])
}

proof fn lemma_named(
    found: Found,
    g: GraphView,
    kinds: Kinds,
    id: NodeId,
    name: Seq<char>,
    setting: Seq<char>,
)
    requires
        all_deserved(g, kinds, found.0),
        all_given(g, kinds, found.1),
        g.known(kinds, id),
        g.kind(kinds, id).outputs.len() > 0,
        wxsl::is_ident(name),
        validate::naming_setting(g.kind(kinds, id).body) == Some(setting),
        called_by(g, kinds, id, setting, name),
    ensures
        ({
            let ty = g.effective_type(id, g.kind(kinds, id).outputs[0]);
            let after = validate::with_named(found, g, g.kind(kinds, id).body, id, name, ty);
            all_deserved(g, kinds, after.0) && all_given(g, kinds, after.1)
        }),
{
    let (errors, types) = found;
    let body = g.kind(kinds, id).body;
    let ty = g.effective_type(id, g.kind(kinds, id).outputs[0]);
    let after = validate::with_named(found, g, body, id, name, ty);
    if body is Param || body is Resource {
        if ty is Some {
            assert(declares(g, kinds, id, name, ty->0));
            assert(gives(g, kinds, name, ty->0));
            if types.contains_key(name) && types[name] != ty->0 {
                lemma_one_more(
                    g,
                    kinds,
                    errors,
                    GraphErrorView::ConflictingDeclaration {
                        name,
                        first: types[name],
                        second: ty->0,
                    },
                );
            } else {
                assert forall|other: Seq<char>| #[trigger]
                    after.1.contains_key(other) implies gives(g, kinds, other, after.1[other]) by {
                    if other != name {
                        assert(types.contains_key(other));
                    }
                }
            }
        }
    } else if body is UserRead {
        if g.user_block is None {
            lemma_one_more(g, kinds, errors, GraphErrorView::NoUserBlock { node: id });
        } else {
            let block = g.user_block->0;
            let p = validate::field_called(name);
            lists::lemma_first_where(block.fields, p);
            match lists::first_where(block.fields, p) {
                None => {
                    assert forall|k: int| 0 <= k < block.fields.len() implies text::trimmed(
                        (#[trigger] block.fields[k]).name,
                    ) != name by {
                        assert(!p(block.fields[k]));
                    }
                    lemma_one_more(
                        g,
                        kinds,
                        errors,
                        GraphErrorView::UnknownUserField {
                            node: id,
                            field: name,
                            declared: validate::field_names(block.fields),
                        },
                    );
                },
                Some(field) => {
                    let k = choose|k: int| 0 <= k < block.fields.len() && block.fields[k] == field;
                    assert(p(field));
                    assert(block.fields[k].ty == field.ty);
                    assert(has_field(block, name, field.ty));
                    if ty is Some && ty->0 != field.ty {
                        lemma_one_more(
                            g,
                            kinds,
                            errors,
                            GraphErrorView::UserFieldTypeMismatch {
                                node: id,
                                field: name,
                                resolved: ty->0,
                                declared: field.ty,
                            },
                        );
                    }
                },
            }
        }
    } else if body is AttributeRead {
        lemma_attribute(g, name);
        match g.attribute(name) {
            None => {
                lemma_one_more(
                    g,
                    kinds,
                    errors,
                    GraphErrorView::UnknownAttribute {
                        node: id,
                        attribute: name,
                        declared: validate::attribute_names(g),
                    },
                );
            },
            Some(decl) => {
                assert(has_attribute(g, name, decl.ty));
                if ty is Some && ty->0 != decl.ty {
                    lemma_one_more(
                        g,
                        kinds,
                        errors,
                        GraphErrorView::AttributeTypeMismatch {
                            node: id,
                            attribute: name,
                            resolved: ty->0,
                            declared: decl.ty,
                        },
                    );
                }
            },
        }
    }
}

proof fn lemma_declaring(errors: Seq<GraphErrorView>, g: GraphView, kinds: Kinds, n: int)
    requires
        all_deserved(g, kinds, errors),
        is_finite(g),
        n <= g.ids().len(),
    ensures
        ({
            let found = validate::all_declaring((errors, Map::empty()), g, kinds, g.ids(), n);
            all_deserved(g, kinds, found.0) && all_given(g, kinds, found.1)
        }),
    decreases n,
{
    if n > 0 {
        lemma_declaring(errors, g, kinds, n - 1);
        let found = validate::all_declaring((errors, Map::empty()), g, kinds, g.ids(), n - 1);
        let id = g.ids()[n - 1];
        if g.known(kinds, id) {
            let d = g.kind(kinds, id);
            let names = textmap::in_order(g.nodes[id].settings.dom());
            textmap::lemma_in_order(g.nodes[id].settings.dom());
            lemma_settings(found.0, g, kinds, id, names, names.len() as int);
            let set = validate::setting_errors(found.0, d, id, names, names.len() as int);
            match validate::naming_setting(d.body) {
                None => {},
                Some(setting) => {
                    let name = validate::raw_name(g, kinds, id, setting);
                    assert(called_by(g, kinds, id, setting, name));
                    match validate::name_problem(name) {
                        Some(reason) => {
                            assert(!is_usable(name));
                            lemma_one_more(
                                g,
                                kinds,
                                set,
                                GraphErrorView::InvalidSetting {
                                    node: id,
                                    setting,
                                    value: name,
                                    reason,
                                },
                            );
                        },
                        None => {
                            if d.outputs.len() > 0 {
                                lemma_named((set, found.1), g, kinds, id, name, setting);
                            }
                        },
                    }
                },
            }
        }
    }
}

// ---------------------------------------------------------------------------
// Edges and inputs

proof fn lemma_end(
    errors: Seq<GraphErrorView>,
    g: GraphView,
    kinds: Kinds,
    i: int,
    direction: Direction,
)
    requires
        all_deserved(g, kinds, errors),
        0 <= i < g.edges.len(),
    ensures
        all_deserved(
            g,
            kinds,
            validate::end_errors(
                errors,
                g,
                kinds,
                if direction is Output {
                    g.edges[i].from
                } else {
                    g.edges[i].to
                },
                direction,
            ),
        ),
{
    let place = if direction is Output {
        g.edges[i].from
    } else {
        g.edges[i].to
    };
    match typing::type_at(g, kinds, place, direction) {
        Ok(_) => {},
        Err(e) => {
            if g.known(kinds, place.node) {
                let d = g.kind(kinds, place.node);
                let p = node::socket_named(place.socket);
                lists::lemma_first_where(d.inputs, p);
                lists::lemma_first_where(d.outputs, p);
                match direction {
                    Direction::Input => {
                        assert forall|k: int| 0 <= k < d.inputs.len() implies (
                        #[trigger] d.inputs[k]).name != place.socket by {
                            assert(!p(d.inputs[k]));
                        }
                    },
                    Direction::Output => {
                        assert forall|k: int| 0 <= k < d.outputs.len() implies (
                        #[trigger] d.outputs[k]).name != place.socket by {
                            assert(!p(d.outputs[k]));
                        }
                    },
                }
                assert(lacks(d, place.socket, direction));
            }
            assert(is_wired(g, place, direction));
            assert(deserved(g, kinds, e));
            lemma_one_more(g, kinds, errors, e);
        },
    }
}

proof fn lemma_edges(errors: Seq<GraphErrorView>, g: GraphView, kinds: Kinds, n: int)
    requires
        all_deserved(g, kinds, errors),
        n <= g.edges.len(),
    ensures
        all_deserved(g, kinds, validate::all_edge_errors(errors, g, kinds, n)),
    decreases n,
{
    if n > 0 {
        lemma_edges(errors, g, kinds, n - 1);
        let i = n - 1;
        let e = g.edges[i];
        let before = validate::all_edge_errors(errors, g, kinds, i);
        lemma_end(before, g, kinds, i, Direction::Output);
        let one = validate::end_errors(before, g, kinds, e.from, Direction::Output);
        lemma_end(one, g, kinds, i, Direction::Input);
        let ends = validate::end_errors(one, g, kinds, e.to, Direction::Input);
        let a = wiring::settled_at(g, kinds, e.from, Direction::Output);
        let b = wiring::settled_at(g, kinds, e.to, Direction::Input);
        let mismatch = a is Some && b is Some && a->0 != b->0;
        let error = GraphErrorView::TypeMismatch {
            from: e.from,
            to: e.to,
            produced: a->0,
            expected: b->0,
        };
        if mismatch {
            assert(g.edges[i].from == e.from);
            lemma_one_more(g, kinds, ends, error);
        }
        let typed = if mismatch {
            ends.push(error)
        } else {
            ends
        };
        let again = exists|j: int| 0 <= j < i && (#[trigger] g.edges[j]).to == e.to;
        let twice = GraphErrorView::InputAlreadyConnected { socket: e.to };
        if again {
            let j = choose|j: int| 0 <= j < i && (#[trigger] g.edges[j]).to == e.to;
            assert(g.edges[j].to == e.to && g.edges[i].to == e.to);
            assert(is_fed_twice(g, e.to));
            lemma_one_more(g, kinds, typed, twice);
        }
        let once = if again {
            typed.push(twice)
        } else {
            typed
        };
        if validate::feeds_constant(g, kinds, e.to) {
            assert(is_wired(g, e.to, Direction::Input));
            lemma_one_more(g, kinds, once, GraphErrorView::ConstantInput { socket: e.to });
        }
        assert(validate::all_edge_errors(errors, g, kinds, n) == validate::edge_errors(
            before,
            g,
            kinds,
            i,
        ));
    }
}

proof fn lemma_missing(errors: Seq<GraphErrorView>, g: GraphView, kinds: Kinds, id: NodeId, n: int)
    requires
        all_deserved(g, kinds, errors),
        g.known(kinds, id),
        n <= g.kind(kinds, id).inputs.len(),
    ensures
        all_deserved(
            g,
            kinds,
            validate::missing_errors(errors, g, id, g.kind(kinds, id).inputs, n),
        ),
    decreases n,
{
    if n > 0 {
        lemma_missing(errors, g, kinds, id, n - 1);
        let inputs = g.kind(kinds, id).inputs;
        let s = inputs[n - 1];
        if !validate::is_fed(g, id, s) && !(s.generic is Some
            && !g.nodes[id].generics.contains_key(s.generic->0)) {
            let place = typing::at(id, s);
            assert(starves(g, id, s));
            assert(g.kind(kinds, place.node).inputs[n - 1] == s);
            assert(has_starving(g, kinds, place));
            lemma_one_more(
                g,
                kinds,
                validate::missing_errors(errors, g, id, inputs, n - 1),
                GraphErrorView::MissingInput { socket: place },
            );
        }
    }
}

proof fn lemma_all_missing(errors: Seq<GraphErrorView>, g: GraphView, kinds: Kinds, n: int)
    requires
        all_deserved(g, kinds, errors),
        n <= g.ids().len(),
    ensures
        all_deserved(g, kinds, validate::all_missing_errors(errors, g, kinds, g.ids(), n)),
    decreases n,
{
    if n > 0 {
        lemma_all_missing(errors, g, kinds, n - 1);
        let id = g.ids()[n - 1];
        if g.known(kinds, id) {
            lemma_missing(
                validate::all_missing_errors(errors, g, kinds, g.ids(), n - 1),
                g,
                kinds,
                id,
                g.kind(kinds, id).inputs.len() as int,
            );
        }
    }
}

// ---------------------------------------------------------------------------
// Macros

/// Whether each macro that is held is one that a node declares.
spec fn macros_given(g: GraphView, kinds: Kinds, known: Map<Seq<char>, MacroDefView>) -> bool {
    forall|name: Seq<char>| #[trigger]
        known.contains_key(name) ==> gives_macro(g, kinds, name, known[name].default)
}

proof fn lemma_node_macros(
    held: (Map<Seq<char>, MacroDefView>, Seq<GraphErrorView>),
    g: GraphView,
    kinds: Kinds,
    id: NodeId,
    n: int,
)
    requires
        macros_given(g, kinds, held.0),
        all_deserved(g, kinds, held.1),
        g.known(kinds, id),
        n <= g.kind(kinds, id).macros.len(),
    ensures
        ({
            let after = graph_macros::with_declarations(
                held,
                g.macros,
                g.kind(kinds, id).macros,
                n,
            );
            macros_given(g, kinds, after.0) && all_deserved(g, kinds, after.1)
        }),
    decreases n,
{
    if n > 0 {
        lemma_node_macros(held, g, kinds, id, n - 1);
        let decls = g.kind(kinds, id).macros;
        let (known, errors) = graph_macros::with_declarations(held, g.macros, decls, n - 1);
        let decl = decls[n - 1];
        assert(has_macro(g, kinds, id, n - 1, decl.name, decl.default));
        let after = graph_macros::with_declarations(held, g.macros, decls, n);
        if !known.contains_key(decl.name) {
            assert forall|name: Seq<char>| #[trigger] after.0.contains_key(name) implies gives_macro(
                g,
                kinds,
                name,
                after.0[name].default,
            ) by {
                if name != decl.name {
                    assert(known.contains_key(name));
                }
            }
        } else if !macros::macro_eq(known[decl.name].default, decl.default)
            && !g.macros.contains_key(decl.name) {
            lemma_one_more(
                g,
                kinds,
                errors,
                GraphErrorView::ConflictingMacroDefault {
                    name: decl.name,
                    first: known[decl.name].default,
                    second: decl.default,
                },
            );
        }
    }
}

proof fn lemma_declared_macros(g: GraphView, kinds: Kinds, n: int)
    requires
        n <= g.ids().len(),
    ensures
        ({
            let held = graph_macros::declared_among(g, kinds, g.ids(), n);
            macros_given(g, kinds, held.0) && all_deserved(g, kinds, held.1)
        }),
    decreases n,
{
    if n > 0 {
        lemma_declared_macros(g, kinds, n - 1);
        let id = g.ids()[n - 1];
        if g.known(kinds, id) {
            lemma_node_macros(
                graph_macros::declared_among(g, kinds, g.ids(), n - 1),
                g,
                kinds,
                id,
                g.kind(kinds, id).macros.len() as int,
            );
        }
    }
}

proof fn lemma_pins(
    start: (Map<Seq<char>, MacroValue>, Seq<GraphErrorView>),
    g: GraphView,
    kinds: Kinds,
    known: Map<Seq<char>, MacroDefView>,
    names: Seq<Seq<char>>,
    n: int,
)
    requires
        all_deserved(g, kinds, start.1),
        macros_given(g, kinds, known),
        textmap::lists(names, g.macros.dom()),
        n <= names.len(),
    ensures
        all_deserved(g, kinds, graph_macros::with_pins(start, known, g.macros, names, n).1),
    decreases n,
{
    if n > 0 {
        lemma_pins(start, g, kinds, known, names, n - 1);
        let name = names[n - 1];
        assert(names.contains(name));
        match graph_macros::pin_problem(known, name, g.macros[name]) {
            Some(e) => {
                assert(deserved(g, kinds, e));
                lemma_one_more(
                    g,
                    kinds,
                    graph_macros::with_pins(start, known, g.macros, names, n - 1).1,
                    e,
                );
            },
            None => {},
        }
    }
}

// ---------------------------------------------------------------------------
// The whole

/// Nothing is reported that is not so: a graph has what each of its problems
/// speaks of. In particular two nodes give one name two different types where
/// a declaration is said to conflict.
pub proof fn problems_are_deserved(g: GraphView, kinds: Kinds, i: int)
    requires
        is_finite(g),
        0 <= i < validate::problems(g, kinds).len(),
    ensures
        deserved(g, kinds, validate::problems(g, kinds)[i]),
{
    let ids = g.ids();
    let n = ids.len() as int;
    lemma_nodes(g, kinds, n);
    let nodes = validate::all_node_errors(Seq::empty(), g, kinds, ids, n);
    lemma_block(nodes, g, kinds);
    let block = validate::user_block_errors(nodes, g);
    lemma_geometry(block, g, kinds);
    let geometry = validate::geometry_errors(block, g);
    lemma_outputs(geometry, g, kinds);
    let own = validate::output_errors(geometry, g, kinds);
    lemma_declaring(own, g, kinds, n);
    let declared = validate::declaration_errors(nodes, g, kinds);
    lemma_edges(declared, g, kinds, g.edges.len() as int);
    let edges = validate::all_edge_errors(declared, g, kinds, g.edges.len() as int);
    lemma_all_missing(edges, g, kinds, n);
    let missing = validate::all_missing_errors(edges, g, kinds, ids, n);
    let order = topology::topological(g, None);
    if order is Err {
        lemma_order(g, kinds);
        lemma_one_more(g, kinds, missing, order->Err_0);
    }
    let ordered = if order is Err {
        missing.push(order->Err_0)
    } else {
        missing
    };
    lemma_declared_macros(g, kinds, n);
    let (known, errors) = graph_macros::declared_of(g, kinds);
    let names = textmap::in_order(g.macros.dom());
    textmap::lemma_in_order(g.macros.dom());
    let start = (graph_macros::defaults_of(known), errors);
    lemma_pins(start, g, kinds, known, names, names.len() as int);
    let found = graph_macros::with_pins(start, known, g.macros, names, names.len() as int).1;
    lemma_more(g, kinds, ordered, found);
    if found.len() == 0 {
        assert(ordered + found =~= ordered);
    }
    assert(validate::problems(g, kinds) == ordered + found);
    assert(all_deserved(g, kinds, validate::problems(g, kinds)));
}

/// A graph that gives no name two types has no conflict among its problems,
/// however often it declares one.
pub proof fn one_type_for_each_name_is_no_conflict(g: GraphView, kinds: Kinds, i: int)
    requires
        is_finite(g),
        0 <= i < validate::problems(g, kinds).len(),
        forall|a: NodeId, b: NodeId, name: Seq<char>, s: ValueType, t: ValueType| #[trigger]
            declares(g, kinds, a, name, s) && #[trigger] declares(g, kinds, b, name, t) ==> s == t,
    ensures
        !(validate::problems(g, kinds)[i] is ConflictingDeclaration),
{
    problems_are_deserved(g, kinds, i);
}

/// Nothing is wrong with a graph that has nothing that a problem could speak
/// of.
pub proof fn graphs_that_keep_every_rule_are_valid(g: GraphView, kinds: Kinds)
    requires
        is_finite(g),
        forall|e: GraphErrorView| !#[trigger] deserved(g, kinds, e),
    ensures
        validate::problems(g, kinds).len() == 0,
{
    if validate::problems(g, kinds).len() > 0 {
        problems_are_deserved(g, kinds, 0);
    }
}

} // verus!
