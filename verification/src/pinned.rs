//! What does not depend on the values pinned on nodes: how a graph ends, where
//! its nodes run, and the macro values it is compiled with.

use vstd::prelude::*;

use crate::error::GraphErrorView;
use crate::graph;
use crate::graph::{GraphView, Kinds, NodeView, ShaderStage};
use crate::graph_macros;
use crate::idmap;
use crate::ids::{NodeId, SocketRefView};
use crate::outputs;
use crate::outputs::{GraphOutputsView, Terminal};
use crate::parked;
use crate::stages;
use crate::stages::CutView;
use crate::topology;

verus! {

/// Whether two graphs are the same but for the values pinned on their nodes.
pub open spec fn same_apart(g: GraphView, h: GraphView) -> bool {
    &&& g.name == h.name
    &&& g.edges == h.edges
    &&& g.macros == h.macros
    &&& g.attributes == h.attributes
    &&& g.user_block == h.user_block
    &&& g.nodes.dom() == h.nodes.dom()
    &&& forall|id: NodeId| #[trigger] same_node_apart(g, h, id)
}

/// Whether two graphs hold the same node under an id, but for the values pinned
/// on it.
pub open spec fn same_node_apart(g: GraphView, h: GraphView, id: NodeId) -> bool {
    &&& g.nodes.contains_key(id) <==> h.nodes.contains_key(id)
    &&& g.nodes.contains_key(id) ==> h.nodes[id] == (NodeView {
        params: h.nodes[id].params,
        ..g.nodes[id]
    })
}

proof fn lemma_kind(g: GraphView, h: GraphView, kinds: Kinds, id: NodeId)
    requires
        same_apart(g, h),
    ensures
        g.known(kinds, id) == h.known(kinds, id),
        g.known(kinds, id) ==> g.kind(kinds, id) == h.kind(kinds, id),
        g.definition(kinds, id) == h.definition(kinds, id),
        graph::stage_of_node(g, id) == graph::stage_of_node(h, id),
        forall|name: Seq<char>| #[trigger]
            g.setting(kinds, id, name) == h.setting(kinds, id, name),
        forall|name: Seq<char>| #[trigger]
            g.declared_name(kinds, id, name) == h.declared_name(kinds, id, name),
        forall|name: Seq<char>| #[trigger] g.attribute(name) == h.attribute(name),
{
    assert(same_node_apart(g, h, id));
    assert forall|name: Seq<char>| #[trigger] g.setting(kinds, id, name) == h.setting(
        kinds,
        id,
        name,
    ) by {}
    assert forall|name: Seq<char>| #[trigger]
        g.declared_name(kinds, id, name) == h.declared_name(kinds, id, name) by {
        assert(g.setting(kinds, id, name) == h.setting(kinds, id, name));
    }
}

proof fn lemma_terminals(
    g: GraphView,
    h: GraphView,
    kinds: Kinds,
    kind: Terminal,
    ids: Seq<NodeId>,
    n: int,
)
    requires
        same_apart(g, h),
    ensures
        outputs::terminals_among(g, kinds, kind, ids, n) == outputs::terminals_among(h, kinds, kind, ids, n),
    decreases n,
{
    if n > 0 {
        lemma_terminals(g, h, kinds, kind, ids, n - 1);
        lemma_kind(g, h, kinds, ids[n - 1]);
    }
}

proof fn lemma_writers(g: GraphView, h: GraphView, kinds: Kinds, ids: Seq<NodeId>, n: int)
    requires
        same_apart(g, h),
    ensures
        outputs::first_writers(g, kinds, ids, n) == outputs::first_writers(h, kinds, ids, n),
    decreases n,
{
    if n > 0 {
        lemma_writers(g, h, kinds, ids, n - 1);
        lemma_kind(g, h, kinds, ids[n - 1]);
        assert(outputs::written_name(g, kinds, ids[n - 1]) == outputs::written_name(h, kinds, ids[n - 1]));
    }
}

/// How a graph ends does not depend on the values pinned on its nodes.
pub proof fn ends_ignore_values(g: GraphView, h: GraphView, kinds: Kinds)
    requires
        same_apart(g, h),
    ensures
        outputs::outputs_of(g, kinds) == outputs::outputs_of(h, kinds),
        outputs::terminals(g, kinds, Terminal::Surface) == outputs::terminals(h, kinds, Terminal::Surface),
{
    let n = g.ids().len() as int;
    assert(g.ids() == h.ids());
    lemma_terminals(g, h, kinds, Terminal::Surface, g.ids(), n);
    lemma_terminals(g, h, kinds, Terminal::Vertex, g.ids(), n);
    lemma_terminals(g, h, kinds, Terminal::Discard, g.ids(), n);
    lemma_terminals(g, h, kinds, Terminal::Varying, g.ids(), n);
    let writers = outputs::terminals(g, kinds, Terminal::Varying);
    lemma_writers(g, h, kinds, writers, writers.len() as int);
}

proof fn lemma_declared(g: GraphView, h: GraphView, kinds: Kinds, ids: Seq<NodeId>, n: int)
    requires
        same_apart(g, h),
    ensures
        graph_macros::declared_among(g, kinds, ids, n) == graph_macros::declared_among(h, kinds, ids, n),
    decreases n,
{
    if n > 0 {
        lemma_declared(g, h, kinds, ids, n - 1);
        lemma_kind(g, h, kinds, ids[n - 1]);
    }
}

/// The macro values of a graph do not depend on the values pinned on its
/// nodes.
pub proof fn macros_ignore_values(g: GraphView, h: GraphView, kinds: Kinds)
    requires
        same_apart(g, h),
    ensures
        graph_macros::effective_of_macros(g, kinds) == graph_macros::effective_of_macros(h, kinds),
{
    assert(g.ids() == h.ids());
    lemma_declared(g, h, kinds, g.ids(), g.ids().len() as int);
}

proof fn lemma_runs(g: GraphView, h: GraphView, kinds: Kinds, id: NodeId)
    requires
        same_apart(g, h),
    ensures
        stages::runs_per_vertex(g, kinds, id) == stages::runs_per_vertex(h, kinds, id),
        stages::runs_per_fragment(g, kinds, id) == stages::runs_per_fragment(h, kinds, id),
        stages::vertex_reason(g, kinds, id) == stages::vertex_reason(h, kinds, id),
{
    lemma_kind(g, h, kinds, id);
    assert(outputs::read_name(g, kinds, id) == outputs::read_name(h, kinds, id));
    match outputs::read_name(g, kinds, id) {
        Some(name) => {
            assert(g.attribute(name) == h.attribute(name));
        },
        None => {},
    }
}

proof fn lemma_stages(
    g: GraphView,
    h: GraphView,
    kinds: Kinds,
    o: GraphOutputsView,
    order: Seq<NodeId>,
    n: int,
)
    requires
        same_apart(g, h),
    ensures
        stages::stages_back(g, kinds, o, order, n) == stages::stages_back(h, kinds, o, order, n),
    decreases n,
{
    if n > 0 {
        lemma_stages(g, h, kinds, o, order, n - 1);
        lemma_kind(g, h, kinds, order[order.len() - n]);
        lemma_runs(g, h, kinds, order[order.len() - n]);
    }
}

proof fn lemma_free(g: GraphView, h: GraphView, k: nat)
    requires
        same_apart(g, h),
    ensures
        stages::first_free(g, k) == stages::first_free(h, k),
{
    assert forall|n: nat| #[trigger] stages::is_free(g, n) == stages::is_free(h, n) by {
        assert(g.attribute(stages::auto_name(n)) == h.attribute(stages::auto_name(n)));
    }
    stages::lemma_free_exists(g, k);
    stages::lemma_free_exists(h, k);
    let a = stages::first_free(g, k);
    let b = stages::first_free(h, k);
    if a < b {
        assert(stages::is_free(h, a) == stages::is_free(g, a));
    } else if b < a {
        assert(stages::is_free(g, b) == stages::is_free(h, b));
    }
}

proof fn lemma_crossed_apart(
    g: GraphView,
    h: GraphView,
    kinds: Kinds,
    o: GraphOutputsView,
    sockets: Seq<SocketRefView>,
    n: int,
)
    requires
        same_apart(g, h),
    ensures
        stages::crossed(g, kinds, o, sockets, n) == stages::crossed(h, kinds, o, sockets, n),
    decreases n,
{
    if n > 0 {
        lemma_crossed_apart(g, h, kinds, o, sockets, n - 1);
        let socket = sockets[n - 1];
        assert(same_node_apart(g, h, socket.node));
        lemma_kind(g, h, kinds, socket.node);
        assert(stages::interpolated_type(g, kinds, socket) == stages::interpolated_type(h, kinds, socket));
        lemma_free(g, h, stages::crossed(g, kinds, o, sockets, n - 1).next);
    }
}

proof fn lemma_stage_errors_apart(
    errors: Seq<GraphErrorView>,
    g: GraphView,
    h: GraphView,
    kinds: Kinds,
    o: GraphOutputsView,
    stages: Map<NodeId, ShaderStage>,
    cuts: Seq<CutView>,
    ids: Seq<NodeId>,
    n: int,
)
    requires
        same_apart(g, h),
    ensures
        stages::all_stage_errors(errors, g, kinds, o, stages, cuts, ids, n) == stages::all_stage_errors(
            errors,
            h,
            kinds,
            o,
            stages,
            cuts,
            ids,
            n,
        ),
    decreases n,
{
    if n > 0 {
        lemma_stage_errors_apart(errors, g, h, kinds, o, stages, cuts, ids, n - 1);
        let id = ids[n - 1];
        assert(same_node_apart(g, h, id));
        lemma_kind(g, h, kinds, id);
        lemma_runs(g, h, kinds, id);
    }
}

/// Where nodes run and what crosses does not depend on the values pinned on
/// nodes.
pub proof fn plans_ignore_values(g: GraphView, h: GraphView, kinds: Kinds, o: GraphOutputsView)
    requires
        same_apart(g, h),
    ensures
        stages::plan_of(g, kinds, o) == stages::plan_of(h, kinds, o),
{
    parked::lemma_same_order(g, h, None);
    match topology::topological(g, None) {
        Ok(order) => {
            lemma_stages(g, h, kinds, o, order, order.len() as int);
            let stages = stages::stages_in(g, kinds, o, order);
            let sockets = stages::crossing_sockets(g.edges, stages);
            lemma_crossed_apart(g, h, kinds, o, sockets, sockets.len() as int);
            let c = stages::crossed(g, kinds, o, sockets, sockets.len() as int);
            let ids = idmap::in_order(stages.dom());
            lemma_stage_errors_apart(
                c.errors,
                g,
                h,
                kinds,
                o,
                stages,
                c.cuts,
                ids,
                ids.len() as int,
            );
            if let (Ok(a), Ok(b)) = (stages::plan_of(g, kinds, o), stages::plan_of(h, kinds, o)) {
                assert(a.duplicated =~= b.duplicated);
            }
        },
        Err(_) => {},
    }
}

} // verus!
