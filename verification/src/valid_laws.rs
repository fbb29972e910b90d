//! What it means that a graph has no problems: every rule is kept.

use vstd::prelude::*;

use crate::abi;
use crate::error::{Direction, GraphErrorView};
use crate::graph;
use crate::graph::{AttributeFrequency, GraphView, Kinds, NodeId, UserFieldView};
use crate::graph_macros;
use crate::idmap;
use crate::interface;
use crate::lists;
use crate::macros::{MacroDefView, MacroValue};
use crate::node;
use crate::node::{NodeDefinitionView, SocketView, ValueType, SETTING_NAME};
use crate::outputs;
use crate::outputs::Terminal;
use crate::resources;
use crate::text;
use crate::textmap;
use crate::typing;
use crate::validate;
use crate::validate_laws;
use crate::wiring;
use crate::wxsl;

verus! {

// ---------------------------------------------------------------------------
// Nodes

proof fn lemma_quiet_params(
    errors: Seq<GraphErrorView>,
    g: GraphView,
    d: NodeDefinitionView,
    id: NodeId,
    names: Seq<Seq<char>>,
    n: int,
)
    requires
        validate::param_errors(errors, g, d, id, names, n).len() == 0,
    ensures
        errors.len() == 0,
        forall|k: int|
            0 <= k < n ==> (d.input(#[trigger] names[k]) matches Some(s) && (g.effective_type(
                id,
                s,
            ) matches Some(ty) ==> ty == g.nodes[id].params[names[k]].ty())),
    decreases n,
{
    if n > 0 {
        lemma_quiet_params(errors, g, d, id, names, n - 1);
    }
}

proof fn lemma_quiet_generics(
    errors: Seq<GraphErrorView>,
    g: GraphView,
    id: NodeId,
    d: NodeDefinitionView,
    n: int,
)
    requires
        validate::unresolved_errors(errors, g, id, d.generics, n).len() == 0,
    ensures
        errors.len() == 0,
        forall|k: int|
            0 <= k < n ==> g.nodes[id].generics.contains_key((#[trigger] d.generics[k]).name),
    decreases n,
{
    if n > 0 {
        lemma_quiet_generics(errors, g, id, d, n - 1);
    }
}

proof fn lemma_quiet_sockets(
    errors: Seq<GraphErrorView>,
    g: GraphView,
    id: NodeId,
    sockets: Seq<SocketView>,
    n: int,
)
    requires
        validate::combine_errors(errors, g, id, sockets, n).len() == 0,
    ensures
        errors.len() == 0,
        forall|k: int|
            0 <= k < n ==> ((#[trigger] sockets[k]).combine matches Some(c) ==> !(
            g.nodes[id].generics.contains_key(c.a) && g.nodes[id].generics.contains_key(c.b)
                && c.rule.apply(g.nodes[id].generics[c.a], g.nodes[id].generics[c.b]) is None)),
    decreases n,
{
    if n > 0 {
        lemma_quiet_sockets(errors, g, id, sockets, n - 1);
    }
}

/// Whether a node keeps the rules on what it pins and resolves.
spec fn node_is_quiet(g: GraphView, kinds: Kinds, id: NodeId) -> bool {
    let d = g.kind(kinds, id);
    let types = g.nodes[id].generics;
    &&& g.known(kinds, id)
    &&& forall|name: Seq<char>| #[trigger]
        g.nodes[id].params.contains_key(name) ==> (d.input(name) matches Some(s) && (
        g.effective_type(id, s) matches Some(ty) ==> ty == g.nodes[id].params[name].ty()))
    &&& forall|k: int|
        0 <= k < d.generics.len() ==> types.contains_key((#[trigger] d.generics[k]).name)
    &&& forall|k: int|
        0 <= k < d.inputs.len() ==> ((#[trigger] d.inputs[k]).combine matches Some(c) ==> !(
        types.contains_key(c.a) && types.contains_key(c.b) && c.rule.apply(
            types[c.a],
            types[c.b],
        ) is None))
    &&& forall|k: int|
        0 <= k < d.outputs.len() ==> ((#[trigger] d.outputs[k]).combine matches Some(c) ==> !(
        types.contains_key(c.a) && types.contains_key(c.b) && c.rule.apply(
            types[c.a],
            types[c.b],
        ) is None))
}

proof fn lemma_quiet_node(errors: Seq<GraphErrorView>, g: GraphView, kinds: Kinds, id: NodeId)
    requires
        validate_laws::is_finite(g),
        g.nodes.contains_key(id),
        validate::node_errors(errors, g, kinds, id).len() == 0,
    ensures
        errors.len() == 0,
        node_is_quiet(g, kinds, id),
{
    let d = g.kind(kinds, id);
    let names = textmap::in_order(g.nodes[id].params.dom());
    textmap::lemma_in_order(g.nodes[id].params.dom());
    let len = names.len() as int;
    assert(g.known(kinds, id));
    let pinned = validate::param_errors(errors, g, d, id, names, len);
    let open = validate::unresolved_errors(pinned, g, id, d.generics, d.generics.len() as int);
    let ins = validate::combine_errors(open, g, id, d.inputs, d.inputs.len() as int);
    lemma_quiet_sockets(ins, g, id, d.outputs, d.outputs.len() as int);
    lemma_quiet_sockets(open, g, id, d.inputs, d.inputs.len() as int);
    lemma_quiet_generics(pinned, g, id, d, d.generics.len() as int);
    lemma_quiet_params(errors, g, d, id, names, len);
    assert forall|name: Seq<char>| #[trigger] g.nodes[id].params.contains_key(name) implies (
    d.input(name) matches Some(s) && (g.effective_type(id, s) matches Some(ty) ==> ty
        == g.nodes[id].params[name].ty())) by {
        assert(names.contains(name));
        let k = choose|k: int| 0 <= k < names.len() && names[k] == name;
        assert(names[k] == name);
    }
}

proof fn lemma_quiet_nodes(g: GraphView, kinds: Kinds, n: int)
    requires
        validate_laws::is_finite(g),
        n <= g.ids().len(),
        validate::all_node_errors(Seq::empty(), g, kinds, g.ids(), n).len() == 0,
    ensures
        forall|k: int| 0 <= k < n ==> node_is_quiet(g, kinds, #[trigger] g.ids()[k]),
    decreases n,
{
    if n > 0 {
        idmap::lemma_in_order(g.nodes.dom());
        assert(g.ids().contains(g.ids()[n - 1]));
        lemma_quiet_node(
            validate::all_node_errors(Seq::empty(), g, kinds, g.ids(), n - 1),
            g,
            kinds,
            g.ids()[n - 1],
        );
        lemma_quiet_nodes(g, kinds, n - 1);
    }
}

// ---------------------------------------------------------------------------
// Declarations of the graph

proof fn lemma_quiet_fields(
    errors: Seq<GraphErrorView>,
    fields: Seq<UserFieldView>,
    n: int,
)
    requires
        n <= fields.len(),
        validate::all_field_errors(errors, fields, n).len() == 0,
    ensures
        errors.len() == 0,
        forall|k: int| 0 <= k < n ==> !#[trigger] validate_laws::field_breaks(fields, k),
    decreases n,
{
    if n > 0 {
        lemma_quiet_fields(errors, fields, n - 1);
    }
}

proof fn lemma_quiet_block(errors: Seq<GraphErrorView>, g: GraphView)
    requires
        validate::user_block_errors(errors, g).len() == 0,
    ensures
        errors.len() == 0,
        g.user_block matches Some(block) ==> !validate_laws::block_breaks(block),
{
    match g.user_block {
        Some(block) => {
            lemma_quiet_fields(
                validate::block_name_errors(errors, block),
                block.fields,
                block.fields.len() as int,
            );
        },
        None => {},
    }
}

proof fn lemma_quiet_attributes(errors: Seq<GraphErrorView>, g: GraphView, n: int)
    requires
        n <= g.attributes.len(),
        validate::all_attribute_errors(errors, g.attributes, n).len() == 0,
    ensures
        errors.len() == 0,
        forall|k: int| 0 <= k < n ==> !#[trigger] validate_laws::attribute_breaks(g.attributes, k),
    decreases n,
{
    if n > 0 {
        lemma_quiet_attributes(errors, g, n - 1);
    }
}

proof fn lemma_quiet_geometry(errors: Seq<GraphErrorView>, g: GraphView)
    requires
        validate::geometry_errors(errors, g).len() == 0,
    ensures
        errors.len() == 0,
        forall|k: int|
            0 <= k < g.attributes.len() ==> !#[trigger] validate_laws::attribute_breaks(
                g.attributes,
                k,
            ),
        graph::attributes_of(
            g.attributes,
            AttributeFrequency::Vertex,
            g.attributes.len() as int,
        ).len() <= abi::MAX_VERTEX_ATTRIBUTES,
        resources::varyings_spent(interface::geometry_asked(g)) <= abi::MAX_VARYING_LOCATIONS,
{
    lemma_quiet_attributes(errors, g, g.attributes.len() as int);
}

// ---------------------------------------------------------------------------
// Ends

proof fn lemma_quiet_writers(
    errors: Seq<GraphErrorView>,
    g: GraphView,
    kinds: Kinds,
    ids: Seq<NodeId>,
    n: int,
)
    requires
        validate::all_writer_errors(errors, g, kinds, ids, n).len() == 0,
    ensures
        errors.len() == 0,
        forall|k: int|
            0 <= k < n ==> (g.declared_name(kinds, #[trigger] ids[k], "name"@) matches Some(name)
                && g.attribute(name) matches Some(decl) && decl.frequency
                == AttributeFrequency::Computed),
    decreases n,
{
    if n > 0 {
        lemma_quiet_writers(errors, g, kinds, ids, n - 1);
        let before = validate::all_writer_errors(errors, g, kinds, ids, n - 1);
        assert(validate::writer_errors(before, g, kinds, ids[n - 1]).len() == 0);
        assert(g.declared_name(kinds, ids[n - 1], SETTING_NAME@) is Some);
    }
}

proof fn lemma_quiet_rewritten(
    errors: Seq<GraphErrorView>,
    m: Map<Seq<char>, Seq<NodeId>>,
    names: Seq<Seq<char>>,
    n: int,
)
    requires
        validate::rewritten_errors(errors, m, names, n).len() == 0,
    ensures
        errors.len() == 0,
        forall|k: int| 0 <= k < n ==> m[#[trigger] names[k]].len() <= 1,
    decreases n,
{
    if n > 0 {
        lemma_quiet_rewritten(errors, m, names, n - 1);
    }
}

proof fn lemma_quiet_unwritten(
    errors: Seq<GraphErrorView>,
    m: Map<Seq<char>, Seq<NodeId>>,
    g: GraphView,
    n: int,
)
    requires
        validate::unwritten_errors(errors, m, g.attributes, n).len() == 0,
    ensures
        errors.len() == 0,
        forall|k: int|
            0 <= k < n && (#[trigger] g.attributes[k]).frequency == AttributeFrequency::Computed
                ==> m.contains_key(text::trimmed(g.attributes[k].name)),
    decreases n,
{
    if n > 0 {
        lemma_quiet_unwritten(errors, m, g, n - 1);
    }
}

/// Whether the ends of a graph keep the rules.
spec fn ends_are_quiet(g: GraphView, kinds: Kinds) -> bool {
    let ids = outputs::terminals(g, kinds, Terminal::Varying);
    let m = validate::writers_of(g, kinds, ids, ids.len() as int);
    &&& outputs::terminals(g, kinds, Terminal::Surface).len() <= 1
    &&& outputs::terminals(g, kinds, Terminal::Vertex).len() <= 1
    &&& outputs::terminals(g, kinds, Terminal::Discard).len() <= 1
    &&& forall|k: int|
        0 <= k < ids.len() ==> (g.declared_name(kinds, #[trigger] ids[k], "name"@) matches Some(name)
            && g.attribute(name) matches Some(decl) && decl.frequency
            == AttributeFrequency::Computed)
    &&& forall|name: Seq<char>| #[trigger] m.contains_key(name) ==> m[name].len() <= 1
    &&& forall|k: int|
        0 <= k < g.attributes.len() && (#[trigger] g.attributes[k]).frequency
            == AttributeFrequency::Computed ==> m.contains_key(text::trimmed(g.attributes[k].name))
}

proof fn lemma_quiet_ends(errors: Seq<GraphErrorView>, g: GraphView, kinds: Kinds)
    requires
        validate::output_errors(errors, g, kinds).len() == 0,
    ensures
        errors.len() == 0,
        ends_are_quiet(g, kinds),
{
    let surfaces = validate::several_errors(
        errors,
        abi::SURFACE_OUTPUT_ID@,
        outputs::terminals(g, kinds, Terminal::Surface),
    );
    let vertices = outputs::terminals(g, kinds, Terminal::Vertex);
    let varyings = outputs::terminals(g, kinds, Terminal::Varying);
    let vertex = validate::several_errors(surfaces, abi::VERTEX_OUTPUT_ID@, vertices);
    let discards = validate::several_errors(
        vertex,
        abi::DISCARD_OUTPUT_ID@,
        outputs::terminals(g, kinds, Terminal::Discard),
    );
    let written = validate::varying_errors(discards, g, kinds);
    let told = validate::plan_errors(g, kinds);
    let misread = validate::all_misreads(
        written + told,
        g,
        kinds,
        told,
        vertices,
        vertices.len() as int,
    );
    validate::lemma_all_misreads_add(
        misread,
        g,
        kinds,
        told,
        varyings,
        0,
        varyings.len() as int,
    );
    validate::lemma_all_misreads_add(
        written + told,
        g,
        kinds,
        told,
        vertices,
        0,
        vertices.len() as int,
    );
    assert((written + told).len() == 0);
    assert(written.len() == 0);
    let n = varyings.len() as int;
    validate_laws::lemma_ends(g, kinds, Terminal::Varying);
    validate_laws::lemma_writers_listed(g, kinds, varyings, n);
    let m = validate::writers_of(g, kinds, varyings, n);
    textmap::lemma_in_order(m.dom());
    let names = textmap::in_order(m.dom());
    let named = validate::all_writer_errors(discards, g, kinds, varyings, n);
    let once = validate::rewritten_errors(named, m, names, names.len() as int);
    lemma_quiet_unwritten(once, m, g, g.attributes.len() as int);
    lemma_quiet_rewritten(named, m, names, names.len() as int);
    lemma_quiet_writers(discards, g, kinds, varyings, n);
    assert forall|name: Seq<char>| #[trigger] m.contains_key(name) implies m[name].len() <= 1 by {
        assert(names.contains(name));
        let k = choose|k: int| 0 <= k < names.len() && names[k] == name;
        assert(names[k] == name);
    }
}

// ---------------------------------------------------------------------------
// What nodes declare

proof fn lemma_quiet_settings(
    errors: Seq<GraphErrorView>,
    d: NodeDefinitionView,
    id: NodeId,
    names: Seq<Seq<char>>,
    n: int,
)
    requires
        validate::setting_errors(errors, d, id, names, n).len() == 0,
    ensures
        errors.len() == 0,
        forall|k: int| 0 <= k < n ==> d.setting(#[trigger] names[k]) is Some,
    decreases n,
{
    if n > 0 {
        lemma_quiet_settings(errors, d, id, names, n - 1);
    }
}

/// Whether a node keeps the rules on what it declares and reads, given the type
/// of each name.
spec fn declaring_is_quiet(
    g: GraphView,
    kinds: Kinds,
    id: NodeId,
    types: Map<Seq<char>, ValueType>,
) -> bool {
    let d = g.kind(kinds, id);
    &&& forall|name: Seq<char>| #[trigger]
        g.nodes[id].settings.contains_key(name) ==> d.setting(name) is Some
    &&& validate::naming_setting(d.body) matches Some(setting) ==> {
        let name = validate::raw_name(g, kinds, id, setting);
        let ty = g.effective_type(id, d.outputs[0]);
        &&& validate_laws::is_usable(name)
        &&& d.outputs.len() > 0 ==> {
            &&& (d.body is Param || d.body is Resource) && ty is Some ==> types.contains_key(name)
                && types[name] == ty->0
            &&& d.body is UserRead ==> (g.user_block matches Some(block) && lists::first_where(
                block.fields,
                validate::field_called(name),
            ) matches Some(field) && (ty is Some ==> ty->0 == field.ty))
            &&& d.body is AttributeRead ==> (g.attribute(name) matches Some(decl) && (ty is Some
                ==> ty->0 == decl.ty))
        }
    }
}

proof fn lemma_quiet_declaring(errors: Seq<GraphErrorView>, g: GraphView, kinds: Kinds, n: int)
    requires
        validate_laws::is_finite(g),
        n <= g.ids().len(),
        validate::all_declaring((errors, Map::empty()), g, kinds, g.ids(), n).0.len() == 0,
    ensures
        errors.len() == 0,
        forall|k: int|
            0 <= k < n && g.known(kinds, #[trigger] g.ids()[k]) ==> declaring_is_quiet(
                g,
                kinds,
                g.ids()[k],
                validate::all_declaring((errors, Map::empty()), g, kinds, g.ids(), n).1,
            ),
    decreases n,
{
    if n > 0 {
        let before = validate::all_declaring((errors, Map::empty()), g, kinds, g.ids(), n - 1);
        let after = validate::all_declaring((errors, Map::empty()), g, kinds, g.ids(), n);
        let id = g.ids()[n - 1];
        let d = g.kind(kinds, id);
        if g.known(kinds, id) {
            let names = textmap::in_order(g.nodes[id].settings.dom());
            textmap::lemma_in_order(g.nodes[id].settings.dom());
            let set = validate::setting_errors(before.0, d, id, names, names.len() as int);
            assert(set.len() == 0);
            lemma_quiet_settings(before.0, d, id, names, names.len() as int);
            assert forall|name: Seq<char>| #[trigger]
                g.nodes[id].settings.contains_key(name) implies d.setting(name) is Some by {
                assert(names.contains(name));
                let k = choose|k: int| 0 <= k < names.len() && names[k] == name;
                assert(names[k] == name);
            }
            assert(declaring_is_quiet(g, kinds, id, after.1));
        }
        assert(before.0.len() == 0);
        lemma_quiet_declaring(errors, g, kinds, n - 1);
        assert forall|k: int|
            0 <= k < n && g.known(kinds, #[trigger] g.ids()[k]) implies declaring_is_quiet(
            g,
            kinds,
            g.ids()[k],
            after.1,
        ) by {
            if k < n - 1 {
                assert(declaring_is_quiet(g, kinds, g.ids()[k], before.1));
            }
        }
    }
}

// ---------------------------------------------------------------------------
// Macros

proof fn lemma_quiet_pins(
    start: (Map<Seq<char>, MacroValue>, Seq<GraphErrorView>),
    g: GraphView,
    known: Map<Seq<char>, MacroDefView>,
    names: Seq<Seq<char>>,
    n: int,
)
    requires
        graph_macros::with_pins(start, known, g.macros, names, n).1.len() == 0,
    ensures
        forall|k: int| 0 <= k < n ==> wxsl::is_ident(#[trigger] names[k]),
    decreases n,
{
    if n > 0 {
        lemma_quiet_pins(start, g, known, names, n - 1);
    }
}


// ---------------------------------------------------------------------------
// The whole

/// Whether every rule but those on stages, order and the defaults of macros is
/// kept.
spec fn is_quiet(g: GraphView, kinds: Kinds, types: Map<Seq<char>, ValueType>) -> bool {
    &&& forall|id: NodeId| #[trigger]
        g.nodes.contains_key(id) ==> node_is_quiet(g, kinds, id) && declaring_is_quiet(
            g,
            kinds,
            id,
            types,
        )
    &&& g.user_block matches Some(block) ==> !validate_laws::block_breaks(block)
    &&& forall|k: int|
        0 <= k < g.attributes.len() ==> !#[trigger] validate_laws::attribute_breaks(g.attributes, k)
    &&& graph::attributes_of(
        g.attributes,
        AttributeFrequency::Vertex,
        g.attributes.len() as int,
    ).len() <= abi::MAX_VERTEX_ATTRIBUTES
    &&& resources::varyings_spent(interface::geometry_asked(g)) <= abi::MAX_VARYING_LOCATIONS
    &&& ends_are_quiet(g, kinds)
    &&& forall|name: Seq<char>| #[trigger] g.macros.contains_key(name) ==> wxsl::is_ident(name)
}

proof fn lemma_quiet(g: GraphView, kinds: Kinds) -> (types: Map<Seq<char>, ValueType>)
    requires
        validate_laws::is_finite(g),
        validate::problems(g, kinds).len() == 0,
    ensures
        is_quiet(g, kinds, types),
{
    let ids = g.ids();
    let n = ids.len() as int;
    idmap::lemma_in_order(g.nodes.dom());
    let nodes = validate::all_node_errors(Seq::empty(), g, kinds, ids, n);
    let block = validate::user_block_errors(nodes, g);
    let geometry = validate::geometry_errors(block, g);
    let own = validate::output_errors(geometry, g, kinds);
    let found = validate::all_declaring((own, Map::empty()), g, kinds, ids, n);
    let declared = validate::declaration_errors(nodes, g, kinds);
    assert(declared == found.0);
    let count = g.edges.len() as int;
    let edges = validate::all_edge_errors(declared, g, kinds, count);
    validate::lemma_all_missing_add(edges, g, kinds, ids, 0, n);
    validate::lemma_edges_add(declared, g, kinds, 0, count);
    assert(found.0.len() == 0);
    lemma_quiet_declaring(own, g, kinds, n);
    lemma_quiet_ends(geometry, g, kinds);
    lemma_quiet_geometry(block, g);
    lemma_quiet_block(nodes, g);
    lemma_quiet_nodes(g, kinds, n);
    let types = found.1;
    assert forall|id: NodeId| #[trigger] g.nodes.contains_key(id) implies node_is_quiet(
        g,
        kinds,
        id,
    ) && declaring_is_quiet(g, kinds, id, types) by {
        assert(ids.contains(id));
        let k = choose|k: int| 0 <= k < n && ids[k] == id;
        assert(node_is_quiet(g, kinds, ids[k]));
        assert(g.known(kinds, ids[k]));
    }
    let (known, errors) = graph_macros::declared_of(g, kinds);
    let names = textmap::in_order(g.macros.dom());
    textmap::lemma_in_order(g.macros.dom());
    let start = (graph_macros::defaults_of(known), errors);
    assert(graph_macros::effective_of_macros(g, kinds) is Ok);
    lemma_quiet_pins(start, g, known, names, names.len() as int);
    assert forall|name: Seq<char>| #[trigger] g.macros.contains_key(name) implies wxsl::is_ident(
        name,
    ) by {
        assert(names.contains(name));
        let k = choose|k: int| 0 <= k < names.len() && names[k] == name;
        assert(wxsl::is_ident(names[k]));
    }
    types
}

proof fn lemma_keeps_edges(g: GraphView, kinds: Kinds, e: GraphErrorView)
    requires
        validate::problems(g, kinds).len() == 0,
        e is UnknownNode || e is UnknownSocket || e is TypeMismatch || e is InputAlreadyConnected
            || e is ConstantInput || e is MissingInput,
    ensures
        !validate_laws::deserved(g, kinds, e),
{
    assert forall|i: int| 0 <= i < g.edges.len() implies typing::type_at(
        g,
        kinds,
        (#[trigger] g.edges[i]).from,
        Direction::Output,
    ) is Ok && typing::type_at(g, kinds, g.edges[i].to, Direction::Input) is Ok && (match (
        wiring::settled_at(g, kinds, g.edges[i].from, Direction::Output),
        wiring::settled_at(g, kinds, g.edges[i].to, Direction::Input),
    ) {
        (Some(a), Some(b)) => a == b,
        _ => true,
    }) && !validate::feeds_constant(g, kinds, g.edges[i].to) by {
        validate::valid_edges_join_one_type(g, kinds, i);
    }
    if validate_laws::deserved(g, kinds, e) {
        match e {
            GraphErrorView::UnknownSocket { socket, direction } => {
                let d = g.kind(kinds, socket.node);
                let p = node::socket_named(socket.socket);
                lists::lemma_first_where(d.inputs, p);
                lists::lemma_first_where(d.outputs, p);
                match direction {
                    Direction::Input => {
                        let s = d.input(socket.socket)->0;
                        let k = choose|k: int| 0 <= k < d.inputs.len() && d.inputs[k] == s;
                        assert(p(s));
                        assert(d.inputs[k].name == socket.socket);
                    },
                    Direction::Output => {
                        let s = d.output(socket.socket)->0;
                        let k = choose|k: int| 0 <= k < d.outputs.len() && d.outputs[k] == s;
                        assert(p(s));
                        assert(d.outputs[k].name == socket.socket);
                    },
                }
            },
            GraphErrorView::InputAlreadyConnected { socket } => {
                let (i, j) = choose|i: int, j: int|
                    0 <= i < j < g.edges.len() && (#[trigger] g.edges[i]).to == socket && (
                    #[trigger] g.edges[j]).to == socket;
                validate::valid_edges_join_one_type(g, kinds, j);
            },
            GraphErrorView::MissingInput { socket } => {
                let inputs = g.kind(kinds, socket.node).inputs;
                let k = choose|k: int|
                    0 <= k < inputs.len() && (#[trigger] g.kind(kinds, socket.node).inputs[k]).name
                        == socket.socket && validate_laws::starves(
                        g,
                        socket.node,
                        g.kind(kinds, socket.node).inputs[k],
                    );
                validate::valid_graphs_can_be_computed(g, kinds, socket.node, k);
            },
            _ => {},
        }
    }
}

proof fn lemma_keeps_nodes(
    g: GraphView,
    kinds: Kinds,
    types: Map<Seq<char>, ValueType>,
    e: GraphErrorView,
)
    requires
        is_quiet(g, kinds, types),
        e is UnknownDefinition || e is ParamTypeMismatch || e is UnknownParam
            || e is UnresolvedGeneric || e is IncompatibleGenerics || e is InvalidMacroName
            || e is InvalidUserBlock || e is UnknownSetting || e is InvalidSetting
            || e is ConflictingDeclaration || e is NoUserBlock,
    ensures
        !validate_laws::deserved(g, kinds, e),
{
    if validate_laws::deserved(g, kinds, e) {
        match e {
            GraphErrorView::UnknownParam { node, param } => {
                let d = g.kind(kinds, node);
                assert(node_is_quiet(g, kinds, node));
                let p = node::socket_named(param);
                lists::lemma_first_where(d.inputs, p);
                let s = d.input(param)->0;
                let k = choose|k: int| 0 <= k < d.inputs.len() && d.inputs[k] == s;
                assert(p(s));
                assert(d.inputs[k].name == param);
            },
            GraphErrorView::UnknownSetting { node, setting } => {
                let d = g.kind(kinds, node);
                assert(declaring_is_quiet(g, kinds, node, types));
                let p = node::setting_named(setting);
                lists::lemma_first_where(d.settings, p);
                let s = d.setting(setting)->0;
                let k = choose|k: int| 0 <= k < d.settings.len() && d.settings[k] == s;
                assert(p(s));
                assert(d.settings[k].name == setting);
            },
            GraphErrorView::InvalidSetting { node, setting, value, .. } => {
                assert(declaring_is_quiet(g, kinds, node, types));
                let name = validate::raw_name(g, kinds, node, setting);
                assert(name =~= value);
            },
            GraphErrorView::ConflictingDeclaration { name, first, second } => {
                let a = choose|id: NodeId| #[trigger]
                    validate_laws::declares(g, kinds, id, name, first);
                let b = choose|id: NodeId| #[trigger]
                    validate_laws::declares(g, kinds, id, name, second);
                assert(declaring_is_quiet(g, kinds, a, types));
                assert(declaring_is_quiet(g, kinds, b, types));
                assert(validate::raw_name(g, kinds, a, SETTING_NAME@) =~= name);
                assert(validate::raw_name(g, kinds, b, SETTING_NAME@) =~= name);
            },
            GraphErrorView::NoUserBlock { node } => {
                assert(declaring_is_quiet(g, kinds, node, types));
            },
            GraphErrorView::IncompatibleGenerics { node, .. } => {
                assert(node_is_quiet(g, kinds, node));
            },
            GraphErrorView::UnresolvedGeneric { node, .. } => {
                assert(node_is_quiet(g, kinds, node));
            },
            GraphErrorView::ParamTypeMismatch { socket, .. } => {
                assert(node_is_quiet(g, kinds, socket.node));
            },
            GraphErrorView::UnknownDefinition { node, .. } => {
                assert(node_is_quiet(g, kinds, node));
            },
            _ => {},
        }
    }
}

/// Of one name there is one attribute, where no attribute breaks a rule.
proof fn lemma_one_attribute(g: GraphView, a: int, b: int)
    requires
        forall|k: int|
            0 <= k < g.attributes.len() ==> !#[trigger] validate_laws::attribute_breaks(
                g.attributes,
                k,
            ),
        0 <= a < g.attributes.len(),
        0 <= b < g.attributes.len(),
        text::trimmed(g.attributes[a].name) == text::trimmed(g.attributes[b].name),
    ensures
        a == b,
{
    assert(!validate_laws::attribute_breaks(g.attributes, a));
    assert(!validate_laws::attribute_breaks(g.attributes, b));
}

/// Different nodes of a list make it longer than one.
proof fn lemma_two(s: Seq<NodeId>, a: NodeId, b: NodeId)
    requires
        s.contains(a),
        s.contains(b),
        a != b,
    ensures
        s.len() > 1,
{
}

proof fn lemma_keeps_names(
    g: GraphView,
    kinds: Kinds,
    types: Map<Seq<char>, ValueType>,
    e: GraphErrorView,
)
    requires
        is_quiet(g, kinds, types),
        e is UnknownUserField || e is UserFieldTypeMismatch || e is UnknownAttribute
            || e is AttributeTypeMismatch,
    ensures
        !validate_laws::deserved(g, kinds, e),
{
    if validate_laws::deserved(g, kinds, e) {
        match e {
            GraphErrorView::UnknownUserField { node, field, .. } => {
                assert(declaring_is_quiet(g, kinds, node, types));
                let fields = g.user_block->0.fields;
                assert(validate::raw_name(g, kinds, node, node::SETTING_FIELD@) =~= field);
                let p = validate::field_called(field);
                lists::lemma_first_where(fields, p);
                let f = lists::first_where(fields, p)->0;
                let k = choose|k: int| 0 <= k < fields.len() && fields[k] == f;
                assert(p(f));
                assert(text::trimmed(fields[k].name) == field);
            },
            GraphErrorView::UserFieldTypeMismatch { node, field, resolved, declared } => {
                assert(declaring_is_quiet(g, kinds, node, types));
                let fields = g.user_block->0.fields;
                assert(validate::raw_name(g, kinds, node, node::SETTING_FIELD@) =~= field);
                let p = validate::field_called(field);
                lists::lemma_first_where(fields, p);
                let f = lists::first_where(fields, p)->0;
                let j = choose|j: int| 0 <= j < fields.len() && fields[j] == f;
                assert(p(f));
                let k = choose|k: int|
                    0 <= k < fields.len() && text::trimmed((#[trigger] fields[k]).name) == field
                        && fields[k].ty == declared;
                assert(text::trimmed(fields[j].name) == field);
                assert(!validate_laws::field_breaks(fields, j));
                assert(!validate_laws::field_breaks(fields, k));
            },
            GraphErrorView::UnknownAttribute { node, attribute, .. } => {
                assert(declaring_is_quiet(g, kinds, node, types));
                if g.kind(kinds, node).body is VaryingOutput {
                    validate_laws::lemma_ends(g, kinds, Terminal::Varying);
                    let ids = outputs::terminals(g, kinds, Terminal::Varying);
                    assert(ids.contains(node));
                    let k = choose|k: int| 0 <= k < ids.len() && ids[k] == node;
                    assert(g.declared_name(kinds, ids[k], "name"@) is Some);
                } else {
                    assert(validate::raw_name(g, kinds, node, SETTING_NAME@) =~= attribute);
                }
                validate_laws::lemma_attribute(g, attribute);
            },
            GraphErrorView::AttributeTypeMismatch { node, attribute, resolved, declared } => {
                assert(declaring_is_quiet(g, kinds, node, types));
                assert(validate::raw_name(g, kinds, node, SETTING_NAME@) =~= attribute);
                validate_laws::lemma_attribute(g, attribute);
                let decl = g.attribute(attribute)->0;
                let j = choose|j: int|
                    0 <= j < g.attributes.len() && (#[trigger] g.attributes[j]) == decl
                        && text::trimmed(g.attributes[j].name) == attribute;
                let k = choose|k: int|
                    0 <= k < g.attributes.len() && text::trimmed(
                        (#[trigger] g.attributes[k]).name,
                    ) == attribute && g.attributes[k].ty == declared;
                lemma_one_attribute(g, j, k);
            },
            _ => {},
        }
    }
}

proof fn lemma_keeps_ends(
    g: GraphView,
    kinds: Kinds,
    types: Map<Seq<char>, ValueType>,
    e: GraphErrorView,
)
    requires
        is_quiet(g, kinds, types),
        e is InvalidAttribute || e is DuplicateOutput,
    ensures
        !validate_laws::deserved(g, kinds, e),
{
    validate_laws::lemma_ends(g, kinds, Terminal::Surface);
    validate_laws::lemma_ends(g, kinds, Terminal::Vertex);
    validate_laws::lemma_ends(g, kinds, Terminal::Discard);
    validate_laws::lemma_ends(g, kinds, Terminal::Varying);
    let ids = outputs::terminals(g, kinds, Terminal::Varying);
    let n = ids.len() as int;
    validate_laws::lemma_writers_listed(g, kinds, ids, n);
    let m = validate::writers_of(g, kinds, ids, n);
    if validate_laws::deserved(g, kinds, e) {
        if e is InvalidAttribute {
            if exists|id: NodeId| #[trigger] validate_laws::writer_breaks(g, kinds, id) {
                let id = choose|id: NodeId| #[trigger] validate_laws::writer_breaks(g, kinds, id);
                assert(g.known(kinds, id));
                assert(ids.contains(id));
                let at = choose|at: int| 0 <= at < ids.len() && ids[at] == id;
                assert(g.declared_name(kinds, ids[at], "name"@) is Some);
                let name = g.declared_name(kinds, id, "name"@)->0;
                validate_laws::lemma_attribute(g, name);
                let decl = g.attribute(name)->0;
                let j = choose|j: int|
                    0 <= j < g.attributes.len() && (#[trigger] g.attributes[j]) == decl
                        && text::trimmed(g.attributes[j].name) == name;
                let k = choose|k: int|
                    0 <= k < g.attributes.len() && text::trimmed(
                        (#[trigger] g.attributes[k]).name,
                    ) == name && g.attributes[k].frequency != AttributeFrequency::Computed;
                lemma_one_attribute(g, j, k);
            } else {
                let k = choose|k: int|
                    0 <= k < g.attributes.len() && #[trigger] validate_laws::is_unwritten(
                        g,
                        kinds,
                        k,
                    );
                let name = text::trimmed(g.attributes[k].name);
                assert(g.attributes[k].frequency == AttributeFrequency::Computed);
                assert(m.contains_key(name));
                let s = m[name];
                lemma_never_empty(g, kinds, ids, n, name);
                assert(validate_laws::is_writer(g, kinds, s[0], name, ids, n));
                assert(validate_laws::writes_to(g, kinds, s[0], name));
            }
        } else {
            let nodes = e->DuplicateOutput_nodes;
            assert(g.known(kinds, nodes[0]) && g.known(kinds, nodes[1]));
            assert(nodes[0] != nodes[1]);
            if validate_laws::end_alike(g, kinds, nodes, Terminal::Surface) {
                lemma_two(outputs::terminals(g, kinds, Terminal::Surface), nodes[0], nodes[1]);
            } else if validate_laws::end_alike(g, kinds, nodes, Terminal::Vertex) {
                lemma_two(outputs::terminals(g, kinds, Terminal::Vertex), nodes[0], nodes[1]);
            } else if validate_laws::end_alike(g, kinds, nodes, Terminal::Discard) {
                lemma_two(outputs::terminals(g, kinds, Terminal::Discard), nodes[0], nodes[1]);
            } else {
                let name = choose|name: Seq<char>| #[trigger]
                    validate_laws::all_write(g, kinds, nodes, name);
                assert(validate_laws::writes_to(g, kinds, nodes[0], name));
                assert(validate_laws::writes_to(g, kinds, nodes[1], name));
                assert(ids.contains(nodes[0]) && ids.contains(nodes[1]));
                let a = choose|a: int| 0 <= a < ids.len() && ids[a] == nodes[0];
                let b = choose|b: int| 0 <= b < ids.len() && ids[b] == nodes[1];
                assert(m[name].contains(ids[a]) && m[name].contains(ids[b]));
                lemma_two(m[name], nodes[0], nodes[1]);
            }
        }
    }
}

proof fn lemma_never_empty(
    g: GraphView,
    kinds: Kinds,
    ids: Seq<NodeId>,
    n: int,
    name: Seq<char>,
)
    requires
        validate::writers_of(g, kinds, ids, n).contains_key(name),
    ensures
        validate::writers_of(g, kinds, ids, n)[name].len() > 0,
    decreases n,
{
    if n > 0 {
        if validate::writers_of(g, kinds, ids, n - 1).contains_key(name) {
            lemma_never_empty(g, kinds, ids, n - 1, name);
        }
    }
}

/// Nothing is passed over: a graph without problems has nothing that a problem
/// could speak of. Stages, order and the defaults of macros have laws of their
/// own.
pub proof fn valid_graphs_break_no_rule(g: GraphView, kinds: Kinds, e: GraphErrorView)
    requires
        validate_laws::is_finite(g),
        validate::problems(g, kinds).len() == 0,
        !(e is WrongStage || e is Cycle || e is ConflictingMacroDefault || e is MacroKindMismatch),
    ensures
        !validate_laws::deserved(g, kinds, e),
{
    let types = lemma_quiet(g, kinds);
    if e is UnknownNode || e is UnknownSocket || e is TypeMismatch || e is InputAlreadyConnected
        || e is ConstantInput || e is MissingInput {
        lemma_keeps_edges(g, kinds, e);
    } else if e is UnknownUserField || e is UserFieldTypeMismatch || e is UnknownAttribute
        || e is AttributeTypeMismatch {
        lemma_keeps_names(g, kinds, types, e);
    } else if e is InvalidAttribute || e is DuplicateOutput {
        lemma_keeps_ends(g, kinds, types, e);
    } else if !(e is WouldCycle || e is InvalidGenericType) {
        lemma_keeps_nodes(g, kinds, types, e);
    }
}

} // verus!
