//! What every change of a graph keeps.

use vstd::prelude::*;

use crate::graph;
use crate::graph::{EdgeView, GraphView, Kinds, NodeId, NodeView, SocketRefView};
use crate::lists;
use crate::node::SocketView;
use crate::topology;
use crate::traversal;
use crate::typing;
use crate::typing::Spot;
use crate::value::{TypeRule, ValueType};
use crate::wiring;

verus! {

/// No two edges lead into one input.
pub open spec fn fed_once(edges: Seq<EdgeView>) -> bool {
    forall|i: int, j: int|
        0 <= i < j < edges.len() ==> (#[trigger] edges[i]).to != (#[trigger] edges[j]).to
}

/// Every edge lies between two nodes of the graph.
pub open spec fn ends_exist(g: GraphView) -> bool {
    forall|i: int|
        0 <= i < g.edges.len() ==> g.nodes.contains_key((#[trigger] g.edges[i]).from.node)
            && g.nodes.contains_key(g.edges[i].to.node)
}

/// What a graph always is: every edge between two nodes of it, no input with
/// two edges, and no node fed by itself.
pub open spec fn well_wired(g: GraphView) -> bool {
    &&& ends_exist(g)
    &&& fed_once(g.edges)
    &&& traversal::acyclic(g.edges)
}

/// A graph starts well wired.
pub proof fn graphs_start_well_wired(name: Seq<char>)
    ensures
        well_wired(graph::empty_graph(name)),
{
}

proof fn lemma_one_edge_more(edges: Seq<EdgeView>, e: EdgeView, a: NodeId, b: NodeId, n: nat)
    requires
        traversal::leads(edges.push(e), Set::empty(), a, b, n),
    ensures
        traversal::reaches(edges, a, b) || (traversal::reaches(edges, a, e.from.node) && traversal::reaches(edges, e.to.node, b)),
    decreases n,
{
    let none = Set::<NodeId>::empty();
    let more = edges.push(e);
    if n == 0 {
        assert(traversal::leads(edges, none, a, b, 0));
    } else {
        let j = choose|j: int|
            0 <= j < more.len() && (#[trigger] more[j]).from.node == a && !none.contains(
                more[j].to.node,
            ) && traversal::leads(more, none, more[j].to.node, b, (n - 1) as nat);
        let c = more[j].to.node;
        lemma_one_edge_more(edges, e, c, b, (n - 1) as nat);
        if j < edges.len() {
            assert(edges[j] == more[j]);
            assert(traversal::leads(edges, none, c, c, 0));
            assert(traversal::leads(edges, none, a, c, 1));
            assert(traversal::reaches(edges, a, c));
            if traversal::reaches(edges, c, b) {
                traversal::reaching_is_transitive(edges, a, c, b);
            } else {
                traversal::reaching_is_transitive(edges, a, c, e.from.node);
            }
        } else {
            assert(more[j] == e);
            assert(traversal::leads(edges, none, a, a, 0));
            assert(traversal::reaches(edges, a, e.from.node));
        }
    }
}

proof fn lemma_resolve_all(g: GraphView, kinds: Kinds, plan: Seq<(Spot, ValueType)>, n: int)
    ensures
        typing::same_but_types(g, wiring::resolve_all(g, kinds, plan, n)),
    decreases n,
{
    if n > 0 {
        lemma_resolve_all(g, kinds, plan, n - 1);
        let h = wiring::resolve_all(g, kinds, plan, n - 1);
        typing::resolving_changes_types_only(h, kinds, plan[n - 1].0, plan[n - 1].1);
        typing::lemma_same_but_types_across(g, h, wiring::resolve_all(g, kinds, plan, n));
    }
}

/// Connecting two sockets adds their edge, into an input that had none, and
/// changes no other; no node goes and no id is given.
pub proof fn connecting_adds_one_edge(
    g: GraphView,
    kinds: Kinds,
    from: SocketRefView,
    to: SocketRefView,
)
    requires
        wiring::connected(g, kinds, from, to) is Ok,
    ensures
        forall|i: int| 0 <= i < g.edges.len() ==> (#[trigger] g.edges[i]).to != to,
        wiring::connected(g, kinds, from, to)->Ok_0.edges == g.edges.push(EdgeView { from, to }),
        typing::same_but_types(wiring::with_edge(g, from, to), wiring::connected(g, kinds, from, to)->Ok_0),
{
    lists::lemma_first_where(g.edges, graph::edge_to(to));
    assert forall|i: int| 0 <= i < g.edges.len() implies (#[trigger] g.edges[i]).to != to by {
        assert(!graph::edge_to(to)(g.edges[i]));
    }
    let plan = wiring::edge_plan(g, kinds, from, to)->Ok_0;
    lemma_resolve_all(wiring::with_edge(g, from, to), kinds, plan, plan.len() as int);
}

/// Whether types can take the place of those that two types combine to.
proof fn lemma_combination_stays(rule: TypeRule, a: ValueType, b: ValueType, ty: ValueType)
    requires
        rule.apply(a, b) == Some(ty),
    ensures
        rule.apply(ty, b) is Some ==> rule.apply(ty, b) == Some(ty),
        rule.apply(a, ty) is Some ==> rule.apply(a, ty) == Some(ty),
        rule.apply(ty, ty) is Some ==> rule.apply(ty, ty) == Some(ty),
{
}

/// Every step of a plan is to one type.
spec fn all_to(plan: Seq<(Spot, ValueType)>, ty: ValueType) -> bool {
    forall|i: int| 0 <= i < plan.len() ==> (#[trigger] plan[i]).1 == ty
}

proof fn lemma_plan_takes_one_type(
    g: GraphView,
    kinds: Kinds,
    plan: Seq<(Spot, ValueType)>,
    n: int,
    ty: ValueType,
    other: Spot,
)
    requires
        n <= plan.len(),
        all_to(plan, ty),
    ensures
        ({
            let h = wiring::resolve_all(g, kinds, plan, n);
            ||| graph::generic_of(h, other.0, other.1) == graph::generic_of(g, other.0, other.1)
            ||| graph::generic_of(h, other.0, other.1) == Some(ty)
        }),
        forall|i: int| 0 <= i < n && #[trigger] plan[i].0 == other && g.known(kinds, other.0) ==> graph::generic_of(
            wiring::resolve_all(g, kinds, plan, n),
            other.0,
            other.1,
        ) == Some(ty),
    decreases n,
{
    if n > 0 {
        lemma_plan_takes_one_type(g, kinds, plan, n - 1, ty, other);
        let h = wiring::resolve_all(g, kinds, plan, n - 1);
        assert(plan[n - 1].1 == ty);
        typing::resolving_takes_one_type(h, kinds, plan[n - 1].0, ty, other);
        lemma_resolve_all(g, kinds, plan, n - 1);
        typing::lemma_known(g, h, kinds);
        if plan[n - 1].0 == other && g.known(kinds, other.0) {
            assert(h.known(kinds, other.0));
            typing::a_resolved_parameter_has_its_type(h, kinds, other, ty);
        }
    }
}

/// A socket that is of a type stays of it while others are resolved to it.
proof fn lemma_socket_stays(
    g: GraphView,
    kinds: Kinds,
    plan: Seq<(Spot, ValueType)>,
    ty: ValueType,
    node: NodeId,
    s: SocketView,
)
    requires
        all_to(plan, ty),
        g.effective_type(node, s) == Some(ty),
    ensures
        ({
            let after = wiring::resolve_all(g, kinds, plan, plan.len() as int).effective_type(node, s);
            after is Some ==> after == Some(ty)
        }),
{
    let n = plan.len() as int;
    lemma_resolve_all(g, kinds, plan, n);
    let h = wiring::resolve_all(g, kinds, plan, n);
    assert(g.nodes.dom().contains(node) == h.nodes.dom().contains(node));
    match s.generic {
        Some(p) => {
            lemma_plan_takes_one_type(g, kinds, plan, n, ty, (node, p));
        },
        None => match s.combine {
            Some(c) => {
                lemma_plan_takes_one_type(g, kinds, plan, n, ty, (node, c.a));
                lemma_plan_takes_one_type(g, kinds, plan, n, ty, (node, c.b));
                lemma_combination_stays(
                    c.rule,
                    g.nodes[node].generics[c.a],
                    g.nodes[node].generics[c.b],
                    ty,
                );
            },
            None => {},
        },
    }
}

/// A socket for which its parameters are resolved to a type becomes of it.
proof fn lemma_socket_follows(
    g: GraphView,
    k: GraphView,
    kinds: Kinds,
    ty: ValueType,
    node: NodeId,
    s: SocketView,
)
    requires
        wiring::retyping(g, kinds, node, g.kind(kinds, node), s, ty) is Some,
        g.known(kinds, node),
        k == (GraphView { edges: k.edges, ..g }),
    ensures
        ({
            let plan = wiring::each_to(node, wiring::retyping(g, kinds, node, g.kind(kinds, node), s, ty), ty);
            let after = wiring::resolve_all(k, kinds, plan, plan.len() as int).effective_type(node, s);
            all_to(plan, ty) && (after is Some ==> after == Some(ty))
        }),
{
    let names = wiring::retyping(g, kinds, node, g.kind(kinds, node), s, ty)->0;
    let plan = wiring::each_to(node, Some(names), ty);
    let n = plan.len() as int;
    let types = wiring::supposed(g, node, names, ty, names.len() as int);
    reveal_with_fuel(wiring::supposed, 3);
    assert(k.known(kinds, node));
    lemma_resolve_all(k, kinds, plan, n);
    let h = wiring::resolve_all(k, kinds, plan, n);
    assert(k.nodes.dom().contains(node) == h.nodes.dom().contains(node));
    assert(graph::effective_of(s, types) == Some(ty));
    assert forall|i: int| 0 <= i < names.len() implies #[trigger] plan[i].0 == (node, names[i]) by {}
    match s.generic {
        Some(p) => {
            assert(plan[0].0 == (node, p));
            lemma_plan_takes_one_type(k, kinds, plan, n, ty, (node, p));
        },
        None => match s.combine {
            Some(c) => {
                lemma_plan_takes_one_type(k, kinds, plan, n, ty, (node, c.a));
                lemma_plan_takes_one_type(k, kinds, plan, n, ty, (node, c.b));
                lemma_combination_stays(c.rule, types[c.a], types[c.b], ty);
                assert(plan[0].0 == (node, names[0]));
                if names.len() > 1 {
                    assert(plan[1].0 == (node, names[1]));
                }
            },
            None => {},
        },
    }
}

/// Connecting joins sockets of one type: once two sockets are connected, they
/// are of the same type, as far as both are of one.
pub proof fn connecting_joins_one_type(
    g: GraphView,
    kinds: Kinds,
    from: SocketRefView,
    to: SocketRefView,
)
    requires
        wiring::connected(g, kinds, from, to) is Ok,
    ensures
        ({
            let h = wiring::connected(g, kinds, from, to)->Ok_0;
            let out = g.kind(kinds, from.node).output(from.socket)->0;
            let inp = g.kind(kinds, to.node).input(to.socket)->0;
            match (h.effective_type(from.node, out), h.effective_type(to.node, inp)) {
                (Some(a), Some(b)) => a == b,
                _ => true,
            }
        }),
{
    let out = g.kind(kinds, from.node).output(from.socket)->0;
    let inp = g.kind(kinds, to.node).input(to.socket)->0;
    let k = wiring::with_edge(g, from, to);
    let fd = g.kind(kinds, from.node);
    let td = g.kind(kinds, to.node);
    let plan = wiring::edge_plan(g, kinds, from, to)->Ok_0;
    assert(k.effective_type(from.node, out) == g.effective_type(from.node, out));
    assert(k.effective_type(to.node, inp) == g.effective_type(to.node, inp));
    match (g.effective_type(from.node, out), g.effective_type(to.node, inp)) {
        (Some(p), Some(e)) => if p != e {
            if wiring::retyping(g, kinds, to.node, td, inp, p) is Some {
                lemma_socket_follows(g, k, kinds, p, to.node, inp);
                lemma_socket_stays(k, kinds, plan, p, from.node, out);
            } else {
                lemma_socket_follows(g, k, kinds, e, from.node, out);
                lemma_socket_stays(k, kinds, plan, e, to.node, inp);
            }
        },
        (Some(p), None) => if wiring::retyping(g, kinds, to.node, td, inp, p) is Some {
            lemma_socket_follows(g, k, kinds, p, to.node, inp);
            lemma_socket_stays(k, kinds, plan, p, from.node, out);
        },
        (None, Some(e)) => if wiring::retyping(g, kinds, from.node, fd, out, e) is Some {
            lemma_socket_follows(g, k, kinds, e, from.node, out);
            lemma_socket_stays(k, kinds, plan, e, to.node, inp);
        },
        (None, None) => {},
    }
}

/// Connecting keeps a graph without circles so.
pub proof fn connecting_keeps_acyclic(
    g: GraphView,
    kinds: Kinds,
    from: SocketRefView,
    to: SocketRefView,
)
    requires
        traversal::acyclic(g.edges),
        wiring::connected(g, kinds, from, to) is Ok,
    ensures
        traversal::acyclic(wiring::connected(g, kinds, from, to)->Ok_0.edges),
{
    let h = wiring::connected(g, kinds, from, to)->Ok_0;
    let e = EdgeView { from, to };
    connecting_adds_one_edge(g, kinds, from, to);
    assert forall|i: int| 0 <= i < h.edges.len() implies !traversal::reaches(
        h.edges,
        (#[trigger] h.edges[i]).to.node,
        h.edges[i].from.node,
    ) by {
        let a = h.edges[i].to.node;
        let b = h.edges[i].from.node;
        if traversal::reaches(h.edges, a, b) {
            let n = choose|n: nat| traversal::leads(h.edges, Set::empty(), a, b, n);
            lemma_one_edge_more(g.edges, e, a, b, n);
            if i < g.edges.len() {
                assert(h.edges[i] == g.edges[i]);
                assert(!traversal::reaches(g.edges, g.edges[i].to.node, g.edges[i].from.node));
                assert(traversal::leads(g.edges, Set::empty(), a, a, 0));
                assert(traversal::leads(g.edges, Set::empty(), b, a, 1));
                assert(traversal::reaches(g.edges, b, a));
                traversal::reaching_is_transitive(g.edges, to.node, b, a);
                traversal::reaching_is_transitive(g.edges, to.node, a, from.node);
            } else {
                assert(h.edges[i] == e);
            }
        }
    }
}

/// Connecting keeps a graph well wired.
pub proof fn connecting_keeps_well_wired(
    g: GraphView,
    kinds: Kinds,
    from: SocketRefView,
    to: SocketRefView,
)
    requires
        well_wired(g),
        wiring::connected(g, kinds, from, to) is Ok,
    ensures
        well_wired(wiring::connected(g, kinds, from, to)->Ok_0),
{
    let h = wiring::connected(g, kinds, from, to)->Ok_0;
    let e = EdgeView { from, to };
    connecting_adds_one_edge(g, kinds, from, to);
    assert forall|i: int| 0 <= i < h.edges.len() implies h.nodes.contains_key(
        (#[trigger] h.edges[i]).from.node,
    ) && h.nodes.contains_key(h.edges[i].to.node) by {
        if i < g.edges.len() {
            assert(h.edges[i] == g.edges[i]);
            assert(g.nodes.dom().contains(g.edges[i].from.node));
            assert(g.nodes.dom().contains(g.edges[i].to.node));
        } else {
            assert(h.edges[i] == e);
            assert(g.nodes.dom().contains(from.node));
            assert(g.nodes.dom().contains(to.node));
        }
    }
    lists::lemma_first_where(g.edges, graph::edge_to(to));
    assert forall|i: int, j: int| 0 <= i < j < h.edges.len() implies (#[trigger] h.edges[i]).to
        != (#[trigger] h.edges[j]).to by {
        assert(h.edges[i] == g.edges[i]);
        if j < g.edges.len() {
            assert(h.edges[j] == g.edges[j]);
        } else {
            assert(h.edges[j] == e);
            assert(!graph::edge_to(to)(g.edges[i]));
        }
    }
    connecting_keeps_acyclic(g, kinds, from, to);
}

/// Whether every edge of `b` is one of `a`.
spec fn among(b: Seq<EdgeView>, a: Seq<EdgeView>) -> bool {
    forall|i: int| 0 <= i < b.len() ==> a.contains(#[trigger] b[i])
}

proof fn lemma_leads_among(b: Seq<EdgeView>, a: Seq<EdgeView>, x: NodeId, y: NodeId, n: nat)
    requires
        among(b, a),
        traversal::leads(b, Set::empty(), x, y, n),
    ensures
        traversal::leads(a, Set::empty(), x, y, n),
    decreases n,
{
    let none = Set::<NodeId>::empty();
    if n > 0 {
        let j = choose|j: int|
            0 <= j < b.len() && (#[trigger] b[j]).from.node == x && !none.contains(b[j].to.node)
                && traversal::leads(b, none, b[j].to.node, y, (n - 1) as nat);
        lemma_leads_among(b, a, b[j].to.node, y, (n - 1) as nat);
        let k = choose|k: int| 0 <= k < a.len() && a[k] == b[j];
        assert(a[k].from.node == x);
    }
}

proof fn lemma_acyclic_among(b: Seq<EdgeView>, a: Seq<EdgeView>)
    requires
        among(b, a),
        traversal::acyclic(a),
    ensures
        traversal::acyclic(b),
{
    assert forall|i: int| 0 <= i < b.len() implies !traversal::reaches(
        b,
        (#[trigger] b[i]).to.node,
        b[i].from.node,
    ) by {
        if traversal::reaches(b, b[i].to.node, b[i].from.node) {
            let n = choose|n: nat| traversal::leads(b, Set::empty(), b[i].to.node, b[i].from.node, n);
            lemma_leads_among(b, a, b[i].to.node, b[i].from.node, n);
            let k = choose|k: int| 0 <= k < a.len() && a[k] == b[i];
            assert(traversal::reaches(a, a[k].to.node, a[k].from.node));
        }
    }
}

proof fn lemma_edge_index(edges: Seq<EdgeView>, input: SocketRefView, i: int)
    requires
        0 <= i,
    ensures
        match wiring::edge_index(edges, input, i) {
            Some(k) => i <= k < edges.len() && edges[k].to == input,
            None => forall|j: int| i <= j < edges.len() ==> (#[trigger] edges[j]).to != input,
        },
    decreases edges.len() - i,
{
    if i < edges.len() && edges[i].to != input {
        lemma_edge_index(edges, input, i + 1);
    }
}

/// Disconnecting takes the edge into the input and no other, and no node goes.
pub proof fn disconnecting_drops_one_edge(g: GraphView, kinds: Kinds, input: SocketRefView)
    ensures
        match wiring::edge_index(g.edges, input, 0) {
            Some(i) => wiring::disconnected(g, kinds, input).1 == Some(g.edges[i]) && g.edges[i].to == input
                && wiring::disconnected(g, kinds, input).0.edges == g.edges.remove(i),
            None => wiring::disconnected(g, kinds, input) == (g, None::<EdgeView>) && forall|j: int|
                0 <= j < g.edges.len() ==> (#[trigger] g.edges[j]).to != input,
        },
        wiring::same_nodes(g, wiring::disconnected(g, kinds, input).0),
{
    lemma_edge_index(g.edges, input, 0);
    match wiring::edge_index(g.edges, input, 0) {
        Some(i) => {
            let e = g.edges[i];
            let cut = GraphView { edges: g.edges.remove(i), ..g };
            wiring::lemma_refreshed(cut, kinds, e.to.node);
            let h = wiring::refreshed(cut, kinds, e.to.node);
            wiring::lemma_refreshed(h, kinds, e.from.node);
            typing::lemma_same_but_types_across(cut, h, wiring::refreshed(h, kinds, e.from.node));
        },
        None => {},
    }
}

/// Disconnecting keeps a graph well wired.
pub proof fn disconnecting_keeps_well_wired(g: GraphView, kinds: Kinds, input: SocketRefView)
    requires
        well_wired(g),
    ensures
        well_wired(wiring::disconnected(g, kinds, input).0),
{
    disconnecting_drops_one_edge(g, kinds, input);
    let h = wiring::disconnected(g, kinds, input).0;
    match wiring::edge_index(g.edges, input, 0) {
        Some(k) => {
            lemma_edge_index(g.edges, input, 0);
            let b = g.edges.remove(k);
            assert forall|i: int| 0 <= i < b.len() implies b[i] == g.edges[if i < k {
                i
            } else {
                i + 1
            }] by {}
            assert(among(b, g.edges)) by {
                assert forall|i: int| 0 <= i < b.len() implies g.edges.contains(
                    #[trigger] b[i],
                ) by {
                    assert(b[i] == g.edges[if i < k {
                        i
                    } else {
                        i + 1
                    }]);
                }
            }
            lemma_acyclic_among(b, g.edges);
            assert forall|i: int| 0 <= i < h.edges.len() implies h.nodes.contains_key(
                (#[trigger] h.edges[i]).from.node,
            ) && h.nodes.contains_key(h.edges[i].to.node) by {
                let j = if i < k {
                    i
                } else {
                    i + 1
                };
                assert(h.edges[i] == g.edges[j]);
                assert(g.nodes.dom().contains(g.edges[j].from.node));
                assert(g.nodes.dom().contains(g.edges[j].to.node));
            }
            assert forall|i: int, j: int| 0 <= i < j < b.len() implies (#[trigger] b[i]).to != (
            #[trigger] b[j]).to by {
                let x = if i < k {
                    i
                } else {
                    i + 1
                };
                let y = if j < k {
                    j
                } else {
                    j + 1
                };
                assert(b[i] == g.edges[x] && b[j] == g.edges[y]);
            }
        },
        None => {},
    }
}

/// Disconnecting what was just connected gives the edges back as they were.
pub proof fn disconnecting_undoes_connecting(
    g: GraphView,
    kinds: Kinds,
    from: SocketRefView,
    to: SocketRefView,
)
    requires
        wiring::connected(g, kinds, from, to) is Ok,
    ensures
        wiring::disconnected(wiring::connected(g, kinds, from, to)->Ok_0, kinds, to).0.edges == g.edges,
        wiring::disconnected(wiring::connected(g, kinds, from, to)->Ok_0, kinds, to).1 == Some(
            EdgeView { from, to },
        ),
{
    let h = wiring::connected(g, kinds, from, to)->Ok_0;
    connecting_adds_one_edge(g, kinds, from, to);
    disconnecting_drops_one_edge(h, kinds, to);
    lists::lemma_first_where(g.edges, graph::edge_to(to));
    lemma_edge_index(h.edges, to, 0);
    let e = EdgeView { from, to };
    match wiring::edge_index(h.edges, to, 0) {
        Some(i) => {
            if i < g.edges.len() {
                assert(h.edges[i] == g.edges[i]);
                assert(!graph::edge_to(to)(g.edges[i]));
            }
            assert(h.edges[i] == e);
            assert(h.edges.remove(i) =~= g.edges);
        },
        None => {
            assert(h.edges[g.edges.len() as int] == e);
        },
    }
}

proof fn lemma_disconnect_all(g: GraphView, kinds: Kinds, inputs: Seq<SocketRefView>, n: int)
    ensures
        wiring::same_nodes(g, wiring::disconnect_all(g, kinds, inputs, n).0),
        well_wired(g) ==> well_wired(wiring::disconnect_all(g, kinds, inputs, n).0),
        wiring::disconnect_all(g, kinds, inputs, n).1.len() + wiring::disconnect_all(
            g,
            kinds,
            inputs,
            n,
        ).0.edges.len() == g.edges.len(),
    decreases n,
{
    if n > 0 {
        lemma_disconnect_all(g, kinds, inputs, n - 1);
        let h = wiring::disconnect_all(g, kinds, inputs, n - 1).0;
        disconnecting_drops_one_edge(h, kinds, inputs[n - 1]);
        lemma_edge_index(h.edges, inputs[n - 1], 0);
        wiring::lemma_same_nodes_across(g, h, wiring::disconnect_all(g, kinds, inputs, n).0);
        if well_wired(g) {
            disconnecting_keeps_well_wired(h, kinds, inputs[n - 1]);
        }
    }
}

proof fn lemma_wiring_of(g: GraphView, h: GraphView)
    requires
        typing::same_but_types(g, h),
        well_wired(g),
    ensures
        well_wired(h),
{
    assert forall|i: int| 0 <= i < h.edges.len() implies h.nodes.contains_key(
        (#[trigger] h.edges[i]).from.node,
    ) && h.nodes.contains_key(h.edges[i].to.node) by {
        assert(g.nodes.dom().contains(g.edges[i].from.node));
        assert(g.nodes.dom().contains(g.edges[i].to.node));
    }
}

/// A type stays what it is while others are resolved to the same.
proof fn lemma_names_stay(
    g: GraphView,
    kinds: Kinds,
    node: NodeId,
    names: Seq<Seq<char>>,
    ty: ValueType,
    n: int,
    other: Spot,
)
    requires
        graph::generic_of(g, other.0, other.1) == Some(ty),
    ensures
        graph::generic_of(wiring::resolve_names(g, kinds, node, names, ty, n), other.0, other.1) == Some(ty),
    decreases n,
{
    if n > 0 {
        lemma_names_stay(g, kinds, node, names, ty, n - 1, other);
        let h = wiring::resolve_names(g, kinds, node, names, ty, n - 1);
        let spot = (node, names[n - 1]);
        typing::resolving_takes_one_type(h, kinds, spot, ty, other);
    }
}

/// A type that was picked is the type the parameter is of, and the edges that
/// are gone are exactly those handed back; picking keeps a graph well wired.
pub proof fn picking_a_type_sticks(
    g: GraphView,
    kinds: Kinds,
    node: NodeId,
    param: Seq<char>,
    ty: ValueType,
)
    requires
        wiring::repinned(g, kinds, node, param, ty) is Ok,
    ensures
        graph::generic_of(wiring::repinned(g, kinds, node, param, ty)->Ok_0.0, node, param) == Some(ty),
        wiring::repinned(g, kinds, node, param, ty)->Ok_0.0.edges.len() + wiring::repinned(
            g,
            kinds,
            node,
            param,
            ty,
        )->Ok_0.1.len() == g.edges.len(),
        well_wired(g) ==> well_wired(wiring::repinned(g, kinds, node, param, ty)->Ok_0.0),
{
    let d = g.kind(kinds, node);
    let list = wiring::misfits(g, kinds, node, param, ty);
    let (cut, edges) = wiring::disconnect_all(g, kinds, list, list.len() as int);
    lemma_disconnect_all(g, kinds, list, list.len() as int);
    assert(cut.nodes.dom().contains(node));
    let picked = typing::with_generic(cut, (node, param), ty);
    typing::lemma_with_node(
        cut,
        node,
        NodeView { generics: cut.nodes[node].generics.insert(param, ty), ..cut.nodes[node] },
    );
    let names = typing::all_companions(picked, d, node, param, ty);
    wiring::lemma_resolve_names(picked, kinds, node, names, ty, names.len() as int);
    lemma_names_stay(picked, kinds, node, names, ty, names.len() as int, (node, param));
    let spread = wiring::seeded(picked, kinds, d, node, param, ty);
    typing::lemma_retyped(spread, kinds, node);
    let h = typing::retyped(spread, kinds, node);
    let spot: Spot = (node, param);
    assert(graph::generic_of(h, spot.0, spot.1) == graph::generic_of(spread, spot.0, spot.1));
    typing::lemma_same_but_types_across(cut, picked, spread);
    typing::lemma_same_but_types_across(cut, spread, h);
    if well_wired(g) {
        lemma_wiring_of(cut, h);
    }
}

proof fn lemma_edges_apart(edges: Seq<EdgeView>, id: NodeId, n: int)
    requires
        n <= edges.len(),
    ensures
        forall|i: int|
            0 <= i < wiring::edges_apart(edges, id, n).len() ==> {
                let e = #[trigger] wiring::edges_apart(edges, id, n)[i];
                &&& e.from.node != id
                &&& e.to.node != id
                &&& exists|j: int| 0 <= j < n && #[trigger] edges[j] == e
            },
        fed_once(edges) ==> fed_once(wiring::edges_apart(edges, id, n)),
    decreases n,
{
    if n > 0 {
        lemma_edges_apart(edges, id, n - 1);
        let before = wiring::edges_apart(edges, id, n - 1);
        let now = wiring::edges_apart(edges, id, n);
        let e = edges[n - 1];
        assert forall|i: int| 0 <= i < now.len() implies {
            let x = #[trigger] now[i];
            &&& x.from.node != id
            &&& x.to.node != id
            &&& exists|j: int| 0 <= j < n && #[trigger] edges[j] == x
        } by {
            if i < before.len() {
                assert(now[i] == before[i]);
                let j = choose|j: int| 0 <= j < n - 1 && #[trigger] edges[j] == before[i];
                assert(edges[j] == now[i]);
            } else {
                assert(edges[n - 1] == now[i]);
            }
        }
        if fed_once(edges) {
            assert forall|i: int, j: int| 0 <= i < j < now.len() implies (#[trigger] now[i]).to != (
            #[trigger] now[j]).to by {
                assert(now[i] == before[i]);
                if j < before.len() {
                    assert(now[j] == before[j]);
                } else {
                    let k = choose|k: int| 0 <= k < n - 1 && #[trigger] edges[k] == before[i];
                    assert(edges[k].to != edges[n - 1].to);
                }
            }
        }
    }
}

proof fn lemma_refresh_all(g: GraphView, kinds: Kinds, ids: Seq<NodeId>, n: int)
    ensures
        typing::same_but_types(g, wiring::refresh_all(g, kinds, ids, n)),
    decreases n,
{
    if n > 0 {
        lemma_refresh_all(g, kinds, ids, n - 1);
        let h = wiring::refresh_all(g, kinds, ids, n - 1);
        wiring::lemma_refreshed(h, kinds, ids[n - 1]);
        typing::lemma_same_but_types_across(g, h, wiring::refresh_all(g, kinds, ids, n));
    }
}

/// Taking a node out takes its edges and nothing else, leaves every other node
/// under its id, and keeps a graph well wired.
pub proof fn removing_takes_the_node_and_its_edges(g: GraphView, kinds: Kinds, id: NodeId)
    ensures
        wiring::without_node(g, kinds, id).nodes.dom() == g.nodes.dom().remove(id),
        wiring::without_node(g, kinds, id).next_id == g.next_id,
        wiring::without_node(g, kinds, id).edges == wiring::edges_apart(g.edges, id, g.edges.len() as int),
        well_wired(g) ==> well_wired(wiring::without_node(g, kinds, id)),
{
    let n = g.edges.len() as int;
    let ids = wiring::neighbors(g.edges, id, n);
    let kept = wiring::edges_apart(g.edges, id, n);
    let cut = GraphView { nodes: g.nodes.remove(id), edges: kept, ..g };
    lemma_refresh_all(cut, kinds, ids, ids.len() as int);
    assert(cut.nodes.dom() =~= g.nodes.dom().remove(id));
    if well_wired(g) {
        lemma_edges_apart(g.edges, id, n);
        assert(among(kept, g.edges)) by {
            assert forall|i: int| 0 <= i < kept.len() implies g.edges.contains(
                #[trigger] kept[i],
            ) by {
                let j = choose|j: int| 0 <= j < n && #[trigger] g.edges[j] == kept[i];
                assert(g.edges[j] == kept[i]);
            }
        }
        lemma_acyclic_among(kept, g.edges);
        assert forall|i: int| 0 <= i < kept.len() implies cut.nodes.contains_key(
            (#[trigger] kept[i]).from.node,
        ) && cut.nodes.contains_key(kept[i].to.node) by {
            let j = choose|j: int| 0 <= j < n && #[trigger] g.edges[j] == kept[i];
            assert(g.nodes.contains_key(g.edges[j].from.node));
        }
        lemma_wiring_of(cut, wiring::without_node(g, kinds, id));
    }
}
/// The first edge asked for that leads into a node from one of these.
spec fn way_back(g: GraphView, subset: Option<Set<NodeId>>, nodes: Seq<NodeId>, x: NodeId) -> int {
    choose|i: int|
        0 <= i < g.edges.len() && topology::hinders(subset, #[trigger] g.edges[i], x) && nodes.contains(
            g.edges[i].from.node,
        )
}

/// The node that `k` steps back along the edges lead to.
spec fn steps_back(
    g: GraphView,
    subset: Option<Set<NodeId>>,
    nodes: Seq<NodeId>,
    x: NodeId,
    k: nat,
) -> NodeId
    decreases k,
{
    if k == 0 {
        x
    } else {
        let y = steps_back(g, subset, nodes, x, (k - 1) as nat);
        g.edges[way_back(g, subset, nodes, y)].from.node
    }
}

/// Every node of a list is fed by another of it.
#[verifier::opaque]
spec fn each_fed_within(g: GraphView, subset: Option<Set<NodeId>>, nodes: Seq<NodeId>) -> bool {
    forall|x: NodeId| #[trigger]
        nodes.contains(x) ==> exists|i: int|
            0 <= i < g.edges.len() && topology::hinders(subset, #[trigger] g.edges[i], x) && nodes.contains(
                g.edges[i].from.node,
            )
}

proof fn lemma_steps_back(
    g: GraphView,
    subset: Option<Set<NodeId>>,
    nodes: Seq<NodeId>,
    x: NodeId,
    k: nat,
)
    requires
        each_fed_within(g, subset, nodes),
        nodes.contains(x),
    ensures
        nodes.contains(steps_back(g, subset, nodes, x, k)),
        k > 0 ==> {
            let y = steps_back(g, subset, nodes, x, (k - 1) as nat);
            let i = way_back(g, subset, nodes, y);
            &&& 0 <= i < g.edges.len()
            &&& g.edges[i].to.node == y
            &&& g.edges[i].from.node == steps_back(g, subset, nodes, x, k)
        },
    decreases k,
{
    if k > 0 {
        lemma_steps_back(g, subset, nodes, x, (k - 1) as nat);
        let y = steps_back(g, subset, nodes, x, (k - 1) as nat);
        assert(exists|i: int|
            0 <= i < g.edges.len() && topology::hinders(subset, #[trigger] g.edges[i], y)
                && nodes.contains(g.edges[i].from.node)) by {
            reveal(each_fed_within);
        }
        let i = way_back(g, subset, nodes, y);
        assert(topology::hinders(subset, g.edges[i], y));
    }
}

proof fn lemma_back_reaches(
    g: GraphView,
    subset: Option<Set<NodeId>>,
    nodes: Seq<NodeId>,
    x: NodeId,
    j: nat,
    k: nat,
)
    requires
        each_fed_within(g, subset, nodes),
        nodes.contains(x),
        j <= k,
    ensures
        traversal::reaches(
            g.edges,
            steps_back(g, subset, nodes, x, k),
            steps_back(g, subset, nodes, x, j),
        ),
    decreases k,
{
    let b = steps_back(g, subset, nodes, x, j);
    if k == j {
        assert(traversal::leads(g.edges, Set::empty(), b, b, 0));
    } else {
        lemma_back_reaches(g, subset, nodes, x, j, (k - 1) as nat);
        lemma_steps_back(g, subset, nodes, x, k);
        let y = steps_back(g, subset, nodes, x, (k - 1) as nat);
        let i = way_back(g, subset, nodes, y);
        let n = choose|n: nat| traversal::leads(g.edges, Set::empty(), y, b, n);
        assert(g.edges[i].from.node == steps_back(g, subset, nodes, x, k));
        assert(traversal::leads(g.edges, Set::empty(), steps_back(g, subset, nodes, x, k), b, n + 1));
    }
}

/// More places than there are values for hold one value twice.
proof fn lemma_pigeonhole(walk: Seq<NodeId>, nodes: Seq<NodeId>)
    requires
        walk.len() > nodes.len(),
        forall|k: int| 0 <= k < walk.len() ==> nodes.contains(#[trigger] walk[k]),
    ensures
        !walk.no_duplicates(),
{
    if walk.no_duplicates() {
        walk.unique_seq_to_set();
        nodes.lemma_cardinality_of_set();
        assert forall|y: NodeId| walk.to_set().contains(y) implies nodes.to_set().contains(y) by {
            let k = choose|k: int| 0 <= k < walk.len() && walk[k] == y;
            assert(nodes.contains(walk[k]));
        }
        vstd::set_lib::lemma_len_subset(walk.to_set(), nodes.to_set());
    }
}

/// Going back for ever among finitely many nodes comes to one twice.
proof fn lemma_no_way_back(g: GraphView, subset: Option<Set<NodeId>>, nodes: Seq<NodeId>)
    requires
        each_fed_within(g, subset, nodes),
        nodes.len() > 0,
    ensures
        !traversal::acyclic(g.edges),
{
    let x = nodes[0];
    assert(nodes.contains(x));
    let walk = Seq::new(
        (nodes.len() + 1) as nat,
        |k: int| steps_back(g, subset, nodes, x, k as nat),
    );
    assert forall|k: int| 0 <= k < walk.len() implies nodes.contains(#[trigger] walk[k]) by {
        lemma_steps_back(g, subset, nodes, x, k as nat);
    }
    lemma_pigeonhole(walk, nodes);
    let (i, j) = choose|i: int, j: int|
        0 <= i < walk.len() && 0 <= j < walk.len() && i != j && walk[i] == walk[j];
    let (a, b) = if i < j {
        (i, j)
    } else {
        (j, i)
    };
    lemma_steps_back(g, subset, nodes, x, (a + 1) as nat);
    lemma_back_reaches(g, subset, nodes, x, (a + 1) as nat, b as nat);
    let e = way_back(g, subset, nodes, walk[a]);
    assert(traversal::reaches(g.edges, g.edges[e].to.node, g.edges[e].from.node));
}

/// The nodes of a well wired graph always have an order, and so have any of
/// them.
pub proof fn well_wired_graphs_have_an_order(g: GraphView, subset: Option<Set<NodeId>>)
    requires
        well_wired(g),
    ensures
        topology::topological(g, subset) is Ok,
{
    if topology::topological(g, subset) is Err {
        let nodes = topology::topological(g, subset)->Err_0->Cycle_nodes;
        assert(each_fed_within(g, subset, nodes) && nodes.len() > 0) by {
            topology::nodes_without_order_wait_for_each_other(g, subset);
            reveal(each_fed_within);
            assert forall|x: NodeId| #[trigger] nodes.contains(x) implies exists|i: int|
                0 <= i < g.edges.len() && topology::hinders(subset, #[trigger] g.edges[i], x)
                    && nodes.contains(g.edges[i].from.node) by {
                let i = choose|i: int|
                    0 <= i < g.edges.len() && topology::hinders(subset, #[trigger] g.edges[i], x) && (
                    nodes.contains(g.edges[i].from.node) || !g.nodes.contains_key(
                        g.edges[i].from.node,
                    ));
                assert(g.nodes.contains_key(g.edges[i].from.node));
                assert(nodes.contains(g.edges[i].from.node));
            }
        }
        lemma_no_way_back(g, subset, nodes);
    }
}

} // verus!
