//! What a graph compiles to depends on nothing that no end depends on, and not
//! on the values that its parameters start from.

use vstd::prelude::*;

use crate::abi::MaterialStage;
use crate::codegen;
use crate::codegen::{CodegenOptionsView, GeneratedShaderView};
use crate::emit;
use crate::emit::EmittedView;
use crate::error::GraphErrorView;
use crate::expr;
use crate::expr::{ContextView, Imports};
use crate::graph;
use crate::graph::{GraphView, Kinds, NodeView, ShaderStage};
use crate::graph_macros;
use crate::ids::{EdgeView, NodeId, SocketRefView};
use crate::interface;
use crate::interface::Asked;
use crate::macros::MacroValue;
use crate::node::{
    GenericParamView, NodeBodyView, NodeDefinitionView, SocketView, SETTING_FIELD, SETTING_NAME,
};
use crate::outputs;
use crate::outputs::GraphOutputsView;
use crate::partition;
use crate::partition::PartitionView;
use crate::pinned;
use crate::resources::MaterialInterfaceView;
use crate::stages;
use crate::stages::CutView;
use crate::text;
use crate::topology;
use crate::traversal;
use crate::validate;

verus! {

/// Whether two graphs hold the same node under an id, or both none.
pub open spec fn same_node(g: GraphView, h: GraphView, id: NodeId) -> bool {
    &&& g.nodes.contains_key(id) <==> h.nodes.contains_key(id)
    &&& g.nodes.contains_key(id) ==> g.nodes[id] == h.nodes[id]
}

/// Whether two graphs hold the same node under an id, or both none, or one
/// that declares a parameter, with other values pinned on it.
pub open spec fn same_but_value(g: GraphView, h: GraphView, kinds: Kinds, id: NodeId) -> bool {
    ||| same_node(g, h, id)
    ||| {
        &&& g.nodes.contains_key(id)
        &&& h.nodes.contains_key(id)
        &&& g.known(kinds, id)
        &&& g.kind(kinds, id).body is Param
        &&& h.nodes[id] == (NodeView { params: h.nodes[id].params, ..g.nodes[id] })
    }
}

/// Whether two graphs are the same but for nodes outside of a set, which have
/// the same ids, for the values of parameters, and for the macro values they
/// pin.
pub open spec fn same_but_values(
    g: GraphView,
    h: GraphView,
    kinds: Kinds,
    set: Set<NodeId>,
) -> bool {
    &&& g.name == h.name
    &&& g.edges == h.edges
    &&& g.attributes == h.attributes
    &&& g.user_block == h.user_block
    &&& g.nodes.dom() == h.nodes.dom()
    &&& forall|id: NodeId| set.contains(id) ==> #[trigger] same_but_value(g, h, kinds, id)
}

/// Whether two graphs end in the same nodes.
pub open spec fn same_ends(g: GraphView, h: GraphView, outs: GraphOutputsView) -> bool {
    forall|id: NodeId| outputs::is_end(outs, id) ==> #[trigger] same_node(g, h, id)
}

/// Whether two interfaces bind the same, whatever values the parameters start
/// from.
pub open spec fn same_bound(m: MaterialInterfaceView, n: MaterialInterfaceView) -> bool {
    n == (MaterialInterfaceView { defaults: n.defaults, ..m })
}

/// Whether two graphs are the same but for nodes outside of a set, which have
/// the same ids, and for the macro values they pin.
pub open spec fn same_within(g: GraphView, h: GraphView, set: Set<NodeId>) -> bool {
    &&& g.name == h.name
    &&& g.edges == h.edges
    &&& g.attributes == h.attributes
    &&& g.user_block == h.user_block
    &&& g.nodes.dom() == h.nodes.dom()
    &&& forall|id: NodeId| set.contains(id) ==> #[trigger] same_node(g, h, id)
}

spec fn same_there(c: ContextView, e: ContextView, id: NodeId) -> bool {
    &&& c.kinds == e.kinds
    &&& same_bound(c.interface, e.interface)
    &&& c.stage == e.stage
    &&& c.g.edges == e.g.edges
    &&& same_but_value(c.g, e.g, c.kinds, id)
}

proof fn lemma_same_input(
    c: ContextView,
    e: ContextView,
    bindings: Map<SocketRefView, Seq<char>>,
    id: NodeId,
    name: Seq<char>,
)
    requires
        same_there(c, e, id),
        same_node(c.g, e.g, id),
    ensures
        expr::input_text(c, bindings, id, name) == expr::input_text(e, bindings, id, name),
{
    assert(c.g.definition(c.kinds, id) == e.g.definition(e.kinds, id));
}

proof fn lemma_same_expanded(
    c: ContextView,
    e: ContextView,
    bindings: Map<SocketRefView, Seq<char>>,
    id: NodeId,
    def: Seq<char>,
    s: Seq<char>,
    i: int,
    out: Seq<char>,
)
    requires
        same_there(c, e, id),
        same_node(c.g, e.g, id),
    ensures
        expr::expanded(c, bindings, id, def, s, i, out) == expr::expanded(e, bindings, id, def, s, i, out),
    decreases s.len() - i,
{
    if 0 <= i <= s.len() {
        let open = text::next_char(s, '{', i);
        text::lemma_next_char(s, '{', i);
        if open < s.len() {
            let close = text::next_char(s, '}', open + 1);
            text::lemma_next_char(s, '}', open + 1);
            let name = s.subrange(open + 1, close);
            let before = expr::unescaped(out, s, i, open);
            if open + 1 < s.len() && s[open + 1] == '{' {
                lemma_same_expanded(c, e, bindings, id, def, s, open + 2, before.push('{'));
            } else if close < s.len() {
                lemma_same_input(c, e, bindings, id, name);
                assert(graph::generic_of(c.g, id, name.skip(1)) == graph::generic_of(e.g, id, name.skip(1)));
                match graph::generic_of(c.g, id, name.skip(1)) {
                    Some(ty) => {
                        lemma_same_expanded(
                            c,
                            e,
                            bindings,
                            id,
                            def,
                            s,
                            close + 1,
                            before + ty.wxsl_type()@,
                        );
                    },
                    None => {},
                }
                match expr::input_text(c, bindings, id, name) {
                    Ok(Some(expr)) => {
                        lemma_same_expanded(
                            c,
                            e,
                            bindings,
                            id,
                            def,
                            s,
                            close + 1,
                            before + expr::atom(expr),
                        );
                    },
                    _ => {},
                }
            }
        }
    }
}

proof fn lemma_same_outputs(
    c: ContextView,
    e: ContextView,
    st: EmittedView,
    id: NodeId,
    def: NodeDefinitionView,
    exprs: Seq<Seq<char>>,
    n: int,
)
    requires
        same_there(c, e, id),
        same_node(c.g, e.g, id),
    ensures
        emit::with_outputs(c, st, id, def, exprs, n) == emit::with_outputs(e, st, id, def, exprs, n),
    decreases n,
{
    if n > 0 {
        lemma_same_outputs(c, e, st, id, def, exprs, n - 1);
        match emit::with_outputs(c, st, id, def, exprs, n - 1) {
            Ok(before) => {
                lemma_same_expanded(
                    c,
                    e,
                    before.bindings,
                    id,
                    def.id,
                    exprs[n - 1],
                    0,
                    ""@,
                );
            },
            Err(_) => {},
        }
    }
}

proof fn lemma_same_arguments(
    c: ContextView,
    e: ContextView,
    bindings: Map<SocketRefView, Seq<char>>,
    id: NodeId,
    params: Seq<SocketView>,
    n: int,
)
    requires
        same_there(c, e, id),
        same_node(c.g, e.g, id),
    ensures
        emit::arguments(c, bindings, id, params, n) == emit::arguments(e, bindings, id, params, n),
    decreases n,
{
    if n > 0 {
        lemma_same_arguments(c, e, bindings, id, params, n - 1);
        lemma_same_input(c, e, bindings, id, params[n - 1].name);
    }
}

proof fn lemma_same_types(
    g: GraphView,
    h: GraphView,
    id: NodeId,
    generics: Seq<GenericParamView>,
    n: int,
)
    requires
        same_node(g, h, id),
    ensures
        emit::resolved_types(g, id, generics, n) == emit::resolved_types(h, id, generics, n),
    decreases n,
{
    if n > 0 {
        lemma_same_types(g, h, id, generics, n - 1);
    }
}

proof fn lemma_same_emitted(c: ContextView, e: ContextView, st: EmittedView, id: NodeId)
    requires
        same_there(c, e, id),
    ensures
        emit::with_emitted(c, st, id) == emit::with_emitted(e, st, id),
{
    assert(c.g.definition(c.kinds, id) == e.g.definition(e.kinds, id));
    match c.g.definition(c.kinds, id) {
        Ok(def) => {
            let asked = EmittedView {
                imports: expr::with_imports(
                    st.imports,
                    def.all_imports(),
                    def.all_imports().len() as int,
                ),
                ..st
            };
            match def.body {
                NodeBodyView::Expr(exprs) => {
                    lemma_same_outputs(c, e, asked, id, def, exprs, exprs.len() as int);
                },
                NodeBodyView::Call(f) => {
                    lemma_same_arguments(
                        c,
                        e,
                        asked.bindings,
                        id,
                        f.params,
                        f.params.len() as int,
                    );
                    lemma_same_types(c.g, e.g, id, def.generics, def.generics.len() as int);
                    assert(emit::with_call(c, asked, id, def, f) == emit::with_call(e, asked, id, def, f));
                },
                _ => {
                    assert(emit::read_of_body(c, id, def.body) == emit::read_of_body(e, id, def.body)) by {
                        assert(emit::name_of(c.g, c.kinds, id, SETTING_NAME@) == emit::name_of(
                            e.g,
                            e.kinds,
                            id,
                            SETTING_NAME@,
                        ));
                        assert(emit::name_of(c.g, c.kinds, id, SETTING_FIELD@) == emit::name_of(
                            e.g,
                            e.kinds,
                            id,
                            SETTING_FIELD@,
                        ));
                    }
                },
            }
        },
        Err(_) => {},
    }
}

proof fn lemma_same_nodes(
    c: ContextView,
    e: ContextView,
    st: EmittedView,
    order: Seq<NodeId>,
    skip: Set<NodeId>,
    n: int,
)
    requires
        0 <= n <= order.len(),
        forall|i: int| 0 <= i < order.len() ==> same_there(c, e, #[trigger] order[i]),
    ensures
        partition::with_nodes(c, st, order, skip, n) == partition::with_nodes(e, st, order, skip, n),
    decreases n,
{
    if n > 0 {
        lemma_same_nodes(c, e, st, order, skip, n - 1);
        match partition::with_nodes(c, st, order, skip, n - 1) {
            Ok(before) => {
                lemma_same_emitted(c, e, before, order[n - 1]);
            },
            Err(_) => {},
        }
    }
}

proof fn lemma_same_inputs(
    c: ContextView,
    e: ContextView,
    bindings: Map<SocketRefView, Seq<char>>,
    id: NodeId,
    inputs: Seq<SocketView>,
    n: int,
)
    requires
        same_there(c, e, id),
        same_node(c.g, e.g, id),
    ensures
        partition::inputs_read(c, bindings, id, inputs, n) == partition::inputs_read(e, bindings, id, inputs, n),
    decreases n,
{
    if n > 0 {
        lemma_same_inputs(c, e, bindings, id, inputs, n - 1);
        lemma_same_input(c, e, bindings, id, inputs[n - 1].name);
    }
}

pub(crate) open spec fn same_shape(g: GraphView, h: GraphView) -> bool {
    g.edges == h.edges && g.nodes.dom() == h.nodes.dom()
}

proof fn lemma_same_ready(
    g: GraphView,
    h: GraphView,
    subset: Option<Set<NodeId>>,
    ids: Seq<NodeId>,
    n: int,
)
    requires
        same_shape(g, h),
    ensures
        topology::ready(g, subset, ids, n) == topology::ready(h, subset, ids, n),
    decreases n,
{
    if n > 0 {
        lemma_same_ready(g, h, subset, ids, n - 1);
    }
}

proof fn lemma_same_freed(
    g: GraphView,
    h: GraphView,
    subset: Option<Set<NodeId>>,
    done: Seq<NodeId>,
    node: NodeId,
    queue: Seq<NodeId>,
    k: int,
)
    requires
        same_shape(g, h),
        k <= g.edges.len(),
    ensures
        topology::freed(g, subset, done, node, queue, k) == topology::freed(h, subset, done, node, queue, k),
    decreases k,
{
    if k > 0 {
        lemma_same_freed(g, h, subset, done, node, queue, k - 1);
        let to = g.edges[k - 1].to.node;
        assert(g.nodes.dom().contains(to) == h.nodes.dom().contains(to));
    }
}

proof fn lemma_same_placing(g: GraphView, h: GraphView, subset: Option<Set<NodeId>>, n: nat)
    requires
        same_shape(g, h),
    ensures
        topology::placing(g, subset, n) == topology::placing(h, subset, n),
    decreases n,
{
    if n == 0 {
        lemma_same_ready(
            g,
            h,
            subset,
            topology::members(g, subset),
            topology::members(g, subset).len() as int,
        );
    } else {
        lemma_same_placing(g, h, subset, (n - 1) as nat);
        let (done, queue) = topology::placing(g, subset, (n - 1) as nat);
        if queue.len() > 0 {
            lemma_same_freed(
                g,
                h,
                subset,
                done,
                queue[0],
                queue.skip(1),
                g.edges.len() as int,
            );
        }
    }
}

pub(crate) proof fn lemma_same_order(g: GraphView, h: GraphView, subset: Option<Set<NodeId>>)
    requires
        same_shape(g, h),
    ensures
        topology::topological(g, subset) == topology::topological(h, subset),
{
    lemma_same_placing(g, h, subset, topology::members(g, subset).len());
}

/// Whether two graphs are the same but for what an end does not depend on.
spec fn same_for(c: ContextView, e: ContextView, set: Set<NodeId>) -> bool {
    &&& c.kinds == e.kinds
    &&& same_bound(c.interface, e.interface)
    &&& c.stage == e.stage
    &&& same_but_values(c.g, e.g, c.kinds, set)
}

proof fn lemma_same_there(
    c: ContextView,
    e: ContextView,
    set: Set<NodeId>,
    needed: Set<NodeId>,
    order: Seq<NodeId>,
)
    requires
        same_for(c, e, set),
        needed.subset_of(set),
        topology::topological(c.g, Some(needed)) == Result::<Seq<NodeId>, GraphErrorView>::Ok(order),
    ensures
        forall|i: int| 0 <= i < order.len() ==> same_there(c, e, #[trigger] order[i]),
{
    topology::order_respects_edges(c.g, Some(needed));
    assert forall|i: int| 0 <= i < order.len() implies same_there(c, e, #[trigger] order[i]) by {
        assert(order.contains(order[i]));
        assert(topology::in_play(c.g, Some(needed), order[i]));
        assert(set.contains(order[i]));
        assert(same_but_value(c.g, e.g, c.kinds, order[i]));
    }
}

proof fn lemma_same_between(
    c: ContextView,
    e: ContextView,
    set: Set<NodeId>,
    bindings: Map<SocketRefView, Seq<char>>,
    imports: Imports,
    terminal: NodeId,
    stops: Set<NodeId>,
)
    requires
        same_for(c, e, set),
        traversal::dependencies(c.g.edges, stops, terminal).subset_of(set),
        set.contains(terminal),
        same_node(c.g, e.g, terminal),
    ensures
        partition::compiled_between(c, bindings, imports, terminal, stops) == partition::compiled_between(
            e,
            bindings,
            imports,
            terminal,
            stops,
        ),
{
    let needed = traversal::dependencies(c.g.edges, stops, terminal);
    lemma_same_order(c.g, e.g, Some(needed));
    match topology::topological(c.g, Some(needed)) {
        Ok(order) => {
            lemma_same_there(c, e, set, needed, order);
            let st = EmittedView { bindings, imports, body: ""@ };
            let skip = stops.insert(terminal);
            lemma_same_nodes(c, e, st, order, skip, order.len() as int);
            match partition::with_nodes(c, st, order, skip, order.len() as int) {
                Ok(after) => {
                    assert(c.g.definition(c.kinds, terminal) == e.g.definition(
                        e.kinds,
                        terminal,
                    ));
                    match c.g.definition(c.kinds, terminal) {
                        Ok(def) => {
                            lemma_same_inputs(
                                c,
                                e,
                                after.bindings,
                                terminal,
                                def.inputs,
                                def.inputs.len() as int,
                            );
                        },
                        Err(_) => {},
                    }
                },
                Err(_) => {},
            }
        },
        Err(_) => {},
    }
}

proof fn lemma_same_cut(
    c: ContextView,
    e: ContextView,
    set: Set<NodeId>,
    imports: Imports,
    socket: SocketRefView,
)
    requires
        same_for(c, e, set),
        traversal::dependencies(c.g.edges, Set::empty(), socket.node).subset_of(set),
        set.contains(socket.node),
    ensures
        partition::compiled_cut(c, imports, socket) == partition::compiled_cut(e, imports, socket),
{
    let needed = traversal::dependencies(c.g.edges, Set::empty(), socket.node);
    lemma_same_order(c.g, e.g, Some(needed));
    assert(same_but_value(c.g, e.g, c.kinds, socket.node));
    match topology::topological(c.g, Some(needed)) {
        Ok(order) => {
            lemma_same_there(c, e, set, needed, order);
            let st = EmittedView { bindings: Map::empty(), imports, body: ""@ };
            let skip = Set::empty().insert(socket.node);
            lemma_same_nodes(c, e, st, order, skip, order.len() as int);
            match partition::with_nodes(c, st, order, skip, order.len() as int) {
                Ok(before) => {
                    lemma_same_emitted(c, e, before, socket.node);
                },
                Err(_) => {},
            }
        },
        Err(_) => {},
    }
}

/// A set that holds every node that an end or a value that crosses depends on.
pub open spec fn holds_all_needed(
    g: GraphView,
    outs: GraphOutputsView,
    cuts: Seq<CutView>,
    set: Set<NodeId>,
) -> bool {
    &&& forall|end: NodeId, id: NodeId|
        outputs::is_end(outs, end) && #[trigger] traversal::reaches(g.edges, id, end) ==> set.contains(id)
    &&& forall|i: int, id: NodeId|
        0 <= i < cuts.len() && #[trigger] traversal::reaches(g.edges, id, cuts[i].socket.node)
            ==> set.contains(id)
}

proof fn lemma_needed_end(
    g: GraphView,
    outs: GraphOutputsView,
    cuts: Seq<CutView>,
    set: Set<NodeId>,
    stops: Set<NodeId>,
    end: NodeId,
)
    requires
        holds_all_needed(g, outs, cuts, set),
        outputs::is_end(outs, end),
    ensures
        traversal::dependencies(g.edges, stops, end).subset_of(set),
        set.contains(end),
{
    lemma_stopping_needs_less(g.edges, stops, end);
    assert forall|id: NodeId| traversal::dependencies(g.edges, stops, end).contains(id) implies set.contains(
        id,
    ) by {
        assert(traversal::reaches(g.edges, id, end));
    }
    lemma_reaches_itself(g.edges, end);
}

proof fn lemma_reaches_itself(edges: Seq<EdgeView>, id: NodeId)
    ensures
        traversal::reaches(edges, id, id),
{
    assert(traversal::leads(edges, Set::empty(), id, id, 0));
}

proof fn lemma_stopping_needs_less(edges: Seq<EdgeView>, stops: Set<NodeId>, root: NodeId)
    ensures
        forall|id: NodeId| #[trigger]
            traversal::dependencies(edges, stops, root).contains(id) ==> traversal::reaches(edges, id, root),
{
    assert forall|id: NodeId| #[trigger] traversal::dependencies(edges, stops, root).contains(id) implies traversal::reaches(
        edges,
        id,
        root,
    ) by {
        let n = choose|n: nat| traversal::leads(edges, stops, id, root, n);
        lemma_leads_without_stops(edges, stops, id, root, n);
    }
}

proof fn lemma_leads_without_stops(
    edges: Seq<EdgeView>,
    stops: Set<NodeId>,
    from: NodeId,
    to: NodeId,
    n: nat,
)
    requires
        traversal::leads(edges, stops, from, to, n),
    ensures
        traversal::leads(edges, Set::empty(), from, to, n),
    decreases n,
{
    if n > 0 {
        let i = choose|i: int|
            0 <= i < edges.len() && (#[trigger] edges[i]).from.node == from && !stops.contains(
                edges[i].to.node,
            ) && traversal::leads(edges, stops, edges[i].to.node, to, (n - 1) as nat);
        lemma_leads_without_stops(edges, stops, edges[i].to.node, to, (n - 1) as nat);
        assert(edges[i].from.node == from);
    }
}

proof fn lemma_needed_cut(
    g: GraphView,
    outs: GraphOutputsView,
    cuts: Seq<CutView>,
    set: Set<NodeId>,
    i: int,
)
    requires
        holds_all_needed(g, outs, cuts, set),
        0 <= i < cuts.len(),
    ensures
        traversal::dependencies(g.edges, Set::empty(), cuts[i].socket.node).subset_of(set),
        set.contains(cuts[i].socket.node),
{
    let end = cuts[i].socket.node;
    lemma_stopping_needs_less(g.edges, Set::empty(), end);
    assert forall|id: NodeId| traversal::dependencies(
        g.edges,
        Set::empty(),
        end,
    ).contains(id) implies set.contains(id) by {
        assert(traversal::reaches(g.edges, id, cuts[i].socket.node));
    }
    lemma_reaches_itself(g.edges, end);
    assert(traversal::reaches(g.edges, end, cuts[i].socket.node));
}

proof fn lemma_same_crossing_nodes(
    g: GraphView,
    h: GraphView,
    outs: GraphOutputsView,
    cuts: Seq<CutView>,
    set: Set<NodeId>,
    n: int,
)
    requires
        g.edges == h.edges,
        holds_all_needed(g, outs, cuts, set),
        0 <= n <= cuts.len(),
    ensures
        codegen::with_crossing_nodes(g, outputs::reachable(g, outs), cuts, n) == codegen::with_crossing_nodes(
            h,
            outputs::reachable(h, outs),
            cuts,
            n,
        ),
        codegen::with_crossing_nodes(g, outputs::reachable(g, outs), cuts, n).subset_of(set),
    decreases n,
{
    assert(outputs::reachable(g, outs) =~= outputs::reachable(h, outs));
    if n > 0 {
        lemma_same_crossing_nodes(g, h, outs, cuts, set, n - 1);
        lemma_needed_cut(g, outs, cuts, set, n - 1);
    }
}

proof fn lemma_same_asked(
    g: GraphView,
    h: GraphView,
    kinds: Kinds,
    set: Set<NodeId>,
    ids: Seq<NodeId>,
    n: int,
)
    requires
        forall|id: NodeId| set.contains(id) ==> #[trigger] same_node(g, h, id),
    ensures
        interface::asked_by(g, kinds, set, ids, n) == interface::asked_by(h, kinds, set, ids, n),
    decreases n,
{
    if n > 0 {
        lemma_same_asked(g, h, kinds, set, ids, n - 1);
        let id = ids[n - 1];
        if set.contains(id) {
            assert(same_node(g, h, id));
            assert(g.declared_name(kinds, id, SETTING_NAME@) == h.declared_name(
                kinds,
                id,
                SETTING_NAME@,
            ));
        }
    }
}

proof fn lemma_same_interface(
    g: GraphView,
    h: GraphView,
    kinds: Kinds,
    outs: GraphOutputsView,
    cuts: Seq<CutView>,
    set: Set<NodeId>,
)
    requires
        same_within(g, h, set),
        holds_all_needed(g, outs, cuts, set),
    ensures
        codegen::interface_with(g, kinds, outs, cuts) == codegen::interface_with(h, kinds, outs, cuts),
{
    let n = cuts.len() as int;
    lemma_same_crossing_nodes(g, h, outs, cuts, set, n);
    let nodes = codegen::with_crossing_nodes(g, outputs::reachable(g, outs), cuts, n);
    assert(g.ids() == h.ids());
    lemma_same_asked(g, h, kinds, nodes, g.ids(), g.ids().len() as int);
}

proof fn lemma_same_written(
    c: ContextView,
    e: ContextView,
    set: Set<NodeId>,
    imports: Imports,
    outs: GraphOutputsView,
    cuts: Seq<CutView>,
    n: int,
)
    requires
        same_for(c, e, set),
        holds_all_needed(c.g, outs, cuts, set),
        same_ends(c.g, e.g, outs),
        0 <= n <= outs.varyings.len(),
    ensures
        codegen::written_varyings(c, imports, outs.varyings, n) == codegen::written_varyings(
            e,
            imports,
            outs.varyings,
            n,
        ),
    decreases n,
{
    if n > 0 {
        lemma_same_written(c, e, set, imports, outs, cuts, n - 1);
        let end = outs.varyings[n - 1].1;
        assert(outputs::is_end(outs, end));
        assert(same_node(c.g, e.g, end));
        lemma_needed_end(c.g, outs, cuts, set, Set::empty(), end);
        match codegen::written_varyings(c, imports, outs.varyings, n - 1) {
            Ok((_, by_now)) => {
                lemma_same_between(c, e, set, Map::empty(), by_now, end, Set::empty());
            },
            Err(_) => {},
        }
    }
}

proof fn lemma_same_crossing(
    c: ContextView,
    e: ContextView,
    set: Set<NodeId>,
    start: (Seq<(Seq<char>, PartitionView)>, Imports),
    outs: GraphOutputsView,
    cuts: Seq<CutView>,
    n: int,
)
    requires
        same_for(c, e, set),
        holds_all_needed(c.g, outs, cuts, set),
        0 <= n <= cuts.len(),
    ensures
        codegen::crossing_varyings(c, start, cuts, n) == codegen::crossing_varyings(e, start, cuts, n),
    decreases n,
{
    if n > 0 {
        lemma_same_crossing(c, e, set, start, outs, cuts, n - 1);
        lemma_needed_cut(c.g, outs, cuts, set, n - 1);
        match codegen::crossing_varyings(c, start, cuts, n - 1) {
            Ok((_, by_now)) => {
                lemma_same_cut(c, e, set, by_now, cuts[n - 1].socket);
            },
            Err(_) => {},
        }
    }
}

proof fn lemma_same_fragment(
    c: ContextView,
    e: ContextView,
    set: Set<NodeId>,
    imports: Imports,
    outs: GraphOutputsView,
    cuts: Seq<CutView>,
    end: Option<NodeId>,
)
    requires
        same_for(c, e, set),
        holds_all_needed(c.g, outs, cuts, set),
        same_ends(c.g, e.g, outs),
        end is Some ==> outputs::is_end(outs, end->0),
    ensures
        codegen::fragment_part(c, imports, end, cuts) == codegen::fragment_part(e, imports, end, cuts),
{
    match end {
        Some(id) => {
            assert(same_node(c.g, e.g, id));
            lemma_needed_end(c.g, outs, cuts, set, partition::cut_nodes(cuts), id);
            lemma_same_between(
                c,
                e,
                set,
                partition::crossed_bindings(cuts, cuts.len() as int),
                imports,
                id,
                partition::cut_nodes(cuts),
            );
        },
        None => {},
    }
}

proof fn lemma_same_partitions(
    g: GraphView,
    h: GraphView,
    kinds: Kinds,
    interface: MaterialInterfaceView,
    other: MaterialInterfaceView,
    stage: MaterialStage,
    outs: GraphOutputsView,
    cuts: Seq<CutView>,
    set: Set<NodeId>,
)
    requires
        same_but_values(g, h, kinds, set),
        same_ends(g, h, outs),
        same_bound(interface, other),
        holds_all_needed(g, outs, cuts, set),
    ensures
        codegen::partitions_of(g, kinds, interface, stage, outs, cuts) == codegen::partitions_of(
            h,
            kinds,
            other,
            stage,
            outs,
            cuts,
        ),
{
    let cv = ContextView { g, kinds, interface, stage: ShaderStage::Vertex };
    let ev = ContextView { g: h, kinds, interface: other, stage: ShaderStage::Vertex };
    let cf = ContextView { g, kinds, interface, stage: ShaderStage::Fragment };
    let ef = ContextView { g: h, kinds, interface: other, stage: ShaderStage::Fragment };
    match outs.vertex {
        Some(end) => {
            assert(outputs::is_end(outs, end));
            assert(same_node(g, h, end));
            lemma_needed_end(g, outs, cuts, set, Set::empty(), end);
            lemma_same_between(cv, ev, set, Map::empty(), Map::empty(), end, Set::empty());
        },
        None => {},
    }
    assert(codegen::vertex_part(cv, Map::empty(), outs.vertex) == codegen::vertex_part(
        ev,
        Map::empty(),
        outs.vertex,
    ));
    match codegen::vertex_part(cv, Map::empty(), outs.vertex) {
        Ok((_, after_vertex)) => {
            lemma_same_fragment(cf, ef, set, after_vertex, outs, cuts, outs.discard);
            match codegen::fragment_part(cf, after_vertex, outs.discard, cuts) {
                Ok((_, after_discard)) => {
                    lemma_same_written(
                        cv,
                        ev,
                        set,
                        after_discard,
                        outs,
                        cuts,
                        outs.varyings.len() as int,
                    );
                    match codegen::written_varyings(
                        cv,
                        after_discard,
                        outs.varyings,
                        outs.varyings.len() as int,
                    ) {
                        Ok(start) => {
                            lemma_same_crossing(
                                cv,
                                ev,
                                set,
                                start,
                                outs,
                                cuts,
                                cuts.len() as int,
                            );
                        },
                        Err(_) => {},
                    }
                    let computes = codegen::has_fragment(stage, outs);
                    assert(codegen::all_varyings(cv, after_discard, computes, outs, cuts)
                        == codegen::all_varyings(ev, after_discard, computes, outs, cuts));
                    match codegen::all_varyings(cv, after_discard, computes, outs, cuts) {
                        Ok((_, after_varyings)) => {
                            lemma_same_fragment(
                                cf,
                                ef,
                                set,
                                after_varyings,
                                outs,
                                cuts,
                                Some(outs.surface),
                            );
                        },
                        Err(_) => {},
                    }
                },
                Err(_) => {},
            }
        },
        Err(_) => {},
    }
}

/// A node that no end depends on costs nothing: whatever it is, the module
/// that a graph compiles to is the same, and so is what has to be bound for
/// it.
pub proof fn parked_nodes_cost_nothing(
    g: GraphView,
    h: GraphView,
    kinds: Kinds,
    o: CodegenOptionsView,
    outs: GraphOutputsView,
    macros: Map<Seq<char>, MacroValue>,
    cuts: Seq<CutView>,
    set: Set<NodeId>,
)
    requires
        same_within(g, h, set),
        holds_all_needed(g, outs, cuts, set),
    ensures
        codegen::compiled_module(g, kinds, o, outs, macros, cuts) == codegen::compiled_module(
            h,
            kinds,
            o,
            outs,
            macros,
            cuts,
        ),
{
    lemma_same_interface(g, h, kinds, outs, cuts, set);
    let interface = codegen::interface_with(g, kinds, outs, cuts);
    assert forall|id: NodeId| set.contains(id) implies #[trigger] same_but_value(
        g,
        h,
        kinds,
        id,
    ) by {
        assert(same_node(g, h, id));
    }
    assert forall|end: NodeId| outputs::is_end(outs, end) implies #[trigger] same_node(
        g,
        h,
        end,
    ) by {
        lemma_needed_end(g, outs, cuts, set, Set::empty(), end);
    }
    lemma_same_partitions(g, h, kinds, interface, interface, o.stage, outs, cuts, set);
}

proof fn lemma_values_asked(
    g: GraphView,
    h: GraphView,
    kinds: Kinds,
    set: Set<NodeId>,
    ids: Seq<NodeId>,
    n: int,
)
    requires
        forall|id: NodeId| set.contains(id) ==> #[trigger] same_but_value(g, h, kinds, id),
    ensures
        ({
            let a = interface::asked_by(g, kinds, set, ids, n);
            let b = interface::asked_by(h, kinds, set, ids, n);
            b == (Asked { defaults: b.defaults, ..a })
        }),
    decreases n,
{
    if n > 0 {
        lemma_values_asked(g, h, kinds, set, ids, n - 1);
        let id = ids[n - 1];
        if set.contains(id) {
            assert(same_but_value(g, h, kinds, id));
            assert(g.declared_name(kinds, id, SETTING_NAME@) == h.declared_name(
                kinds,
                id,
                SETTING_NAME@,
            ));
        }
    }
}

proof fn lemma_values_compile_alike(
    g: GraphView,
    h: GraphView,
    kinds: Kinds,
    o: CodegenOptionsView,
    outs: GraphOutputsView,
    macros: Map<Seq<char>, MacroValue>,
    cuts: Seq<CutView>,
)
    requires
        same_but_values(g, h, kinds, Set::full()),
        same_ends(g, h, outs),
    ensures
        match (
            codegen::compiled_module(g, kinds, o, outs, macros, cuts),
            codegen::compiled_module(h, kinds, o, outs, macros, cuts),
        ) {
            (Ok(a), Ok(b)) => same_bound(a.interface, b.interface) && b == (GeneratedShaderView {
                interface: b.interface,
                ..a
            }),
            (Err(a), Err(b)) => a == b,
            _ => false,
        },
{
    let all = Set::<NodeId>::full();
    let n = cuts.len() as int;
    lemma_same_crossing_nodes(g, h, outs, cuts, all, n);
    let nodes = codegen::with_crossing_nodes(g, outputs::reachable(g, outs), cuts, n);
    assert(g.ids() == h.ids());
    lemma_values_asked(g, h, kinds, nodes, g.ids(), g.ids().len() as int);
    let interface = codegen::interface_with(g, kinds, outs, cuts);
    let other = codegen::interface_with(h, kinds, outs, cuts);
    assert(same_bound(interface, other));
    lemma_same_partitions(g, h, kinds, interface, other, o.stage, outs, cuts, all);
}

/// The value that a parameter starts from is not compiled: whatever values are
/// pinned on the nodes that declare parameters, a valid graph compiles to the
/// same source, and what has to be bound for it differs in those values only.
pub proof fn parameters_change_without_compiling(
    g: GraphView,
    h: GraphView,
    kinds: Kinds,
    o: CodegenOptionsView,
)
    requires
        same_but_values(g, h, kinds, Set::full()),
        g.macros == h.macros,
        validate::problems(g, kinds).len() == 0,
        validate::problems(h, kinds).len() == 0,
    ensures
        match (codegen::generated(g, kinds, o), codegen::generated(h, kinds, o)) {
            (Ok(a), Ok(b)) => same_bound(a.interface, b.interface) && b == (GeneratedShaderView {
                interface: b.interface,
                ..a
            }),
            (Err(a), Err(b)) => a == b,
            _ => false,
        },
{
    assert(pinned::same_apart(g, h)) by {
        assert forall|id: NodeId| #[trigger] pinned::same_node_apart(g, h, id) by {
            assert(same_but_value(g, h, kinds, id));
        }
    }
    pinned::ends_ignore_values(g, h, kinds);
    pinned::macros_ignore_values(g, h, kinds);
    if outputs::outputs_of(g, kinds) is Some {
        let outs = outputs::outputs_of(g, kinds)->0;
        pinned::plans_ignore_values(g, h, kinds, outs);
        assert forall|id: NodeId| outputs::is_end(outs, id) implies #[trigger] same_node(g, h, id) by {
            outputs::ends_end(g, kinds, id);
            assert(same_but_value(g, h, kinds, id));
        }
        match (graph_macros::effective_of_macros(g, kinds), stages::plan_of(g, kinds, outs)) {
            (Ok(own), Ok(plan)) => {
                lemma_values_compile_alike(
                    g,
                    h,
                    kinds,
                    o,
                    outs,
                    codegen::macros_in_effect(o, own),
                    plan.cuts,
                );
            },
            _ => {},
        }
    }
}

} // verus!
