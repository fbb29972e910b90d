//! How the types of a graph's nodes follow its wires.
//!
//! A kind of node can leave types open as type parameters. What a parameter
//! resolves to spreads along the wires to every socket that shares it, and a
//! parameter that a socket combines with another starts out like it.

use vstd::prelude::*;

use crate::error::{Direction, GraphError, GraphErrorView};
use crate::float::Float;
use crate::graph;
use crate::graph::{Graph, GraphView, Kinds, NodeId, NodeView, SocketRef, SocketRefView};
use crate::idmap;
use crate::lists;
use crate::node;
use crate::node::{
    contains_text, CombinedView, NodeDefinition, NodeDefinitionView, NodeRegistry, Socket,
    SocketView, Value, ValueType,
};
use crate::text;
use crate::text::same_text;
use crate::value;

verus! {

/// A node with other resolutions and values in place of its own.
pub open spec fn with_node(g: GraphView, id: NodeId, n: NodeView) -> GraphView {
    GraphView { nodes: g.nodes.insert(id, n), ..g }
}

/// A socket of a kind of node, on one side.
pub open spec fn socket_of(d: NodeDefinitionView, name: Seq<char>, direction: Direction) -> Option<
    SocketView,
> {
    match direction {
        Direction::Input => d.input(name),
        Direction::Output => d.output(name),
    }
}

/// The place of a socket on a node.
pub open spec fn at(node: NodeId, socket: SocketView) -> SocketRefView {
    SocketRefView { node, socket: socket.name }
}

/// The type at one end of an edge, as far as it is settled, or why there is no
/// such end.
pub open spec fn type_at(
    g: GraphView,
    kinds: Kinds,
    place: SocketRefView,
    direction: Direction,
) -> Result<Option<ValueType>, GraphErrorView> {
    match g.definition(kinds, place.node) {
        Err(e) => Err(e),
        Ok(d) => match socket_of(d, place.socket, direction) {
            None => Err(GraphErrorView::UnknownSocket { socket: place, direction }),
            Some(s) => Ok(g.effective_type(place.node, s)),
        },
    }
}

/// What an input is to be pinned to so that its value is of the type it
/// resolved to: the value it has, converted, or a zero where nothing feeds it.
pub open spec fn pin_of(g: GraphView, node: NodeId, socket: SocketView) -> Option<Value> {
    match g.effective_type(node, socket) {
        None => None,
        Some(ty) => {
            let params = g.nodes[node].params;
            if params.contains_key(socket.name) {
                let v = params[socket.name];
                if v.ty() != ty {
                    value::converted(v, ty)
                } else {
                    None
                }
            } else if node::default_of(socket, ty) is Some || socket.optional || g.edge_into(
                at(node, socket),
            ) is Some {
                None
            } else {
                match value::splat_of(ty, Float { bits: 0 }) {
                    Some(v) => Some(v),
                    None => value::zero_of(ty),
                }
            }
        },
    }
}

/// What the first `n` inputs are to be pinned to.
pub open spec fn pins(g: GraphView, node: NodeId, inputs: Seq<SocketView>, n: int) -> Seq<
    (Seq<char>, Value),
>
    decreases n,
{
    if n <= 0 {
        Seq::empty()
    } else {
        match pin_of(g, node, inputs[n - 1]) {
            Some(v) => pins(g, node, inputs, n - 1).push((inputs[n - 1].name, v)),
            None => pins(g, node, inputs, n - 1),
        }
    }
}

/// Values with the first `n` of some others put in.
pub open spec fn put_all(
    params: Map<Seq<char>, Value>,
    pins: Seq<(Seq<char>, Value)>,
    n: int,
) -> Map<Seq<char>, Value>
    decreases n,
{
    if n <= 0 {
        params
    } else {
        put_all(params, pins, n - 1).insert(pins[n - 1].0, pins[n - 1].1)
    }
}

/// The graph once the values of a node's inputs follow their types.
pub open spec fn retyped(g: GraphView, kinds: Kinds, node: NodeId) -> GraphView {
    if g.known(kinds, node) {
        let inputs = g.kind(kinds, node).inputs;
        let p = pins(g, node, inputs, inputs.len() as int);
        with_node(
            g,
            node,
            NodeView {
                params: put_all(g.nodes[node].params, p, p.len() as int),
                ..g.nodes[node]
            },
        )
    } else {
        g
    }
}

/// Whether an edge is on one of these sockets that reads a type parameter.
pub open spec fn param_has_edge(
    g: GraphView,
    d: NodeDefinitionView,
    node: NodeId,
    param: Seq<char>,
) -> bool {
    ||| exists|i: int|
        0 <= i < d.inputs.len() && node::references(#[trigger] d.inputs[i], param) && g.edge_into(
            at(node, d.inputs[i]),
        ) is Some
    ||| exists|i: int|
        0 <= i < d.outputs.len() && node::references(#[trigger] d.outputs[i], param) && g.edge_from(
            at(node, d.outputs[i]),
        ) is Some
}

/// The other of two combined parameters.
pub open spec fn partner(c: Option<CombinedView>, param: Seq<char>) -> Option<Seq<char>> {
    match c {
        Some(c) => if c.a == param {
            Some(c.b)
        } else if c.b == param {
            Some(c.a)
        } else {
            None
        },
        None => None,
    }
}

/// The parameters that the first `n` of these sockets combine with `param`,
/// and that nothing else has a say in: unresolved, free to be of the type, and
/// read by no socket with an edge.
pub open spec fn companions(
    g: GraphView,
    d: NodeDefinitionView,
    node: NodeId,
    param: Seq<char>,
    ty: ValueType,
    n: int,
) -> Seq<Seq<char>>
    decreases n,
{
    if n <= 0 {
        Seq::empty()
    } else {
        let before = companions(g, d, node, param, ty, n - 1);
        match partner((d.inputs + d.outputs)[n - 1].combine, param) {
            Some(other) => if other == param || before.contains(other) || graph::generic_of(
                g,
                node,
                other,
            ) is Some || !d.param_allows(other, ty) || param_has_edge(g, d, node, other) {
                before
            } else {
                before.push(other)
            },
            None => before,
        }
    }
}

/// All the parameters that start out like `param`.
pub open spec fn all_companions(
    g: GraphView,
    d: NodeDefinitionView,
    node: NodeId,
    param: Seq<char>,
    ty: ValueType,
) -> Seq<Seq<char>> {
    companions(g, d, node, param, ty, (d.inputs.len() + d.outputs.len()) as int)
}

impl Graph {
    /// The type at one end of an edge, as far as it is settled, or why there
    /// is no such end.
    pub(crate) fn socket_type(
        &self,
        registry: &NodeRegistry,
        place: &SocketRef,
        direction: Direction,
    ) -> (r: Result<Option<ValueType>, GraphError>)
        ensures
            match (r, type_at(self@, registry@, place@, direction)) {
                (Ok(a), Ok(b)) => a == b,
                (Err(e), Err(v)) => e@ == v,
                _ => false,
            },
    {
        let def = match self.definition(registry, place.node) {
            Ok(d) => d,
            Err(e) => {
                return Err(e);
            },
        };
        let found = match direction {
            Direction::Input => def.input(place.socket.as_str()),
            Direction::Output => def.output(place.socket.as_str()),
        };
        match found {
            None => Err(GraphError::UnknownSocket { socket: place.clone(), direction }),
            Some(s) => Ok(self.effective_type(place.node, s)),
        }
    }

    /// What an input is to be pinned to so that its value is of the type it
    /// resolved to.
    fn pin(&self, node: NodeId, socket: &Socket) -> (r: Option<Value>)
        requires
            self@.nodes.contains_key(node),
        ensures
            r == pin_of(self@, node, socket@),
    {
        let ty = match self.effective_type(node, socket) {
            Some(ty) => ty,
            None => {
                return None;
            },
        };
        let name = socket.name.as_str();
        let pinned = match self.nodes.get(node) {
            Some(n) => match n.params.get(name) {
                Some(v) => Some(*v),
                None => None,
            },
            None => None,
        };
        match pinned {
            Some(v) => if v.ty() != ty {
                v.converted_to(ty)
            } else {
                None
            },
            None => {
                let reference = SocketRef::new(node, name);
                if socket.default_for(ty).is_some() || socket.optional || self.edge_into(
                    &reference,
                ).is_some() {
                    None
                } else {
                    match ty.splat(Float::zero()) {
                        Some(v) => Some(v),
                        None => ty.zero(),
                    }
                }
            },
        }
    }

    /// Let the values of a node's inputs follow their types.
    pub(crate) fn retype_params(&mut self, registry: &NodeRegistry, node: NodeId)
        ensures
            final(self)@ == retyped(old(self)@, registry@, node),
    {
        let def = match self.definition(registry, node) {
            Ok(d) => d,
            Err(_) => {
                return;
            },
        };
        let ghost g = self@;
        let ghost inputs = def@.inputs;
        let mut updates: Vec<(String, Value)> = Vec::new();
        let mut i: usize = 0;
        assert(text::seq_of(updates@) =~= pins(g, node, inputs, 0));
        while i < def.inputs.len()
            invariant
                i <= inputs.len() == def.inputs@.len(),
                inputs == text::seq_of(def.inputs@),
                g == self@,
                g.nodes.contains_key(node),
                text::seq_of(updates@) == pins(g, node, inputs, i as int),
            decreases inputs.len() - i,
        {
            let socket = &def.inputs[i];
            assert(inputs[i as int] == socket@);
            match self.pin(node, socket) {
                Some(v) => {
                    let ghost before = updates@;
                    updates.push((socket.name.as_str().to_owned(), v));
                    assert(text::seq_of(updates@) =~= text::seq_of(before).push((socket@.name, v)));
                },
                None => {},
            }
            i += 1;
        }
        let mut instance = match self.nodes.get(node) {
            Some(n) => n.clone(),
            None => {
                return;
            },
        };
        let ghost p = text::seq_of(updates@);
        let ghost start = instance@;
        let mut i: usize = 0;
        while i < updates.len()
            invariant
                i <= updates@.len() == p.len(),
                p == text::seq_of(updates@),
                instance@ == (NodeView {
                    params: put_all(start.params, p, i as int),
                    ..start
                }),
            decreases updates@.len() - i,
        {
            let (name, value) = &updates[i];
            assert(p[i as int] == updates@[i as int]@);
            instance.params.insert(name.clone(), *value);
            i += 1;
        }
        self.nodes.replace(node, instance);
    }

    /// Whether an edge is on a socket that reads a type parameter.
    pub(crate) fn param_has_an_edge(&self, def: &NodeDefinition, node: NodeId, param: &str) -> (r: bool)
        ensures
            r == param_has_edge(self@, def@, node, param@),
    {
        let ghost d = def@;
        let ghost g = self@;
        let mut i: usize = 0;
        while i < def.inputs.len()
            invariant
                i <= d.inputs.len() == def.inputs@.len(),
                d.inputs == text::seq_of(def.inputs@),
                d == def@,
                g == self@,
                forall|j: int|
                    0 <= j < i ==> !(node::references(#[trigger] d.inputs[j], param@) && g.edge_into(
                        at(node, d.inputs[j]),
                    ) is Some),
            decreases d.inputs.len() - i,
        {
            let socket = &def.inputs[i];
            assert(d.inputs[i as int] == socket@);
            if socket.references_param(param) {
                let reference = SocketRef::new(node, socket.name.as_str());
                assert(reference@ == at(node, d.inputs[i as int]));
                if self.edge_into(&reference).is_some() {
                    return true;
                }
            }
            i += 1;
        }
        let mut i: usize = 0;
        while i < def.outputs.len()
            invariant
                i <= d.outputs.len() == def.outputs@.len(),
                d.outputs == text::seq_of(def.outputs@),
                d == def@,
                g == self@,
                forall|j: int|
                    0 <= j < i ==> !(node::references(#[trigger] d.outputs[j], param@) && g.edge_from(
                        at(node, d.outputs[j]),
                    ) is Some),
            decreases d.outputs.len() - i,
        {
            let socket = &def.outputs[i];
            assert(d.outputs[i as int] == socket@);
            if socket.references_param(param) {
                let reference = SocketRef::new(node, socket.name.as_str());
                assert(reference@ == at(node, d.outputs[i as int]));
                if self.edge_from(&reference).is_some() {
                    return true;
                }
            }
            i += 1;
        }
        false
    }

    /// The parameters of a node that start out like `param`.
    pub(crate) fn seedable_companions(
        &self,
        def: &NodeDefinition,
        node: NodeId,
        param: &str,
        ty: ValueType,
    ) -> (r: Vec<String>)
        ensures
            text::seq_of(r@) == all_companions(self@, def@, node, param@, ty),
    {
        let ghost d = def@;
        let ghost g = self@;
        let ghost all = d.inputs + d.outputs;
        let inputs: usize = def.inputs.len();
        let outputs: usize = def.outputs.len();
        let mut found: Vec<String> = Vec::new();
        let mut side: usize = 0;
        let mut i: usize = 0;
        assert(text::seq_of(found@) =~= companions(g, d, node, param@, ty, 0));
        while side < 2
            invariant
                side <= 2,
                d == def@,
                g == self@,
                all == d.inputs + d.outputs,
                inputs == d.inputs.len() == def.inputs@.len(),
                outputs == d.outputs.len() == def.outputs@.len(),
                d.inputs == text::seq_of(def.inputs@),
                d.outputs == text::seq_of(def.outputs@),
                side == 0 ==> i <= inputs && text::seq_of(found@) == companions(
                    g,
                    d,
                    node,
                    param@,
                    ty,
                    i as int,
                ),
                side == 1 ==> i <= outputs && text::seq_of(found@) == companions(
                    g,
                    d,
                    node,
                    param@,
                    ty,
                    inputs + i,
                ),
                side == 2 ==> text::seq_of(found@) == companions(
                    g,
                    d,
                    node,
                    param@,
                    ty,
                    inputs + outputs,
                ),
            decreases 2 - side, (if side == 0 { inputs - i } else { outputs - i }),
        {
            if (side == 0 && i >= inputs) || (side == 1 && i >= outputs) {
                side += 1;
                i = 0;
            } else {
                let socket = if side == 0 {
                    &def.inputs[i]
                } else {
                    &def.outputs[i]
                };
                assert(all[if side == 0 { i as int } else { inputs + i }] == socket@);
                match &socket.combine {
                    Some(c) => {
                        let other = if same_text(c.a.as_str(), param) {
                            Some(c.b.as_str())
                        } else if same_text(c.b.as_str(), param) {
                            Some(c.a.as_str())
                        } else {
                            None
                        };
                        match other {
                            Some(other) => {
                                if !(same_text(other, param) || contains_text(&found, other)
                                    || self.generic_type(node, other).is_some()
                                    || !def.param_allows(other, ty) || self.param_has_an_edge(
                                    def,
                                    node,
                                    other,
                                )) {
                                    let ghost before = found@;
                                    found.push(other.to_owned());
                                    assert(text::seq_of(found@) =~= text::seq_of(before).push(other@));
                                }
                            },
                            None => {},
                        }
                    },
                    None => {},
                }
                i += 1;
            }
        }
        found
    }
}

/// A type parameter of a node.
pub type Spot = (NodeId, Seq<char>);

/// The queue with the type parameter at an end of an edge behind it, where
/// that end is of such a type.
pub open spec fn with_neighbor(
    queue: Seq<Spot>,
    g: GraphView,
    kinds: Kinds,
    place: SocketRefView,
    direction: Direction,
) -> Seq<Spot> {
    if g.known(kinds, place.node) {
        match socket_of(g.kind(kinds, place.node), place.socket, direction) {
            Some(s) => match s.generic {
                Some(p) => queue.push((place.node, p)),
                None => queue,
            },
            None => queue,
        }
    } else {
        queue
    }
}

/// The queue with what feeds the first `n` inputs behind it, as far as they
/// share a type parameter.
pub open spec fn with_feeders(
    queue: Seq<Spot>,
    g: GraphView,
    kinds: Kinds,
    node: NodeId,
    param: Seq<char>,
    inputs: Seq<SocketView>,
    n: int,
) -> Seq<Spot>
    decreases n,
{
    if n <= 0 {
        queue
    } else {
        let q = with_feeders(queue, g, kinds, node, param, inputs, n - 1);
        if inputs[n - 1].generic == Some(param) {
            match g.edge_into(at(node, inputs[n - 1])) {
                Some(e) => with_neighbor(q, g, kinds, e.from, Direction::Output),
                None => q,
            }
        } else {
            q
        }
    }
}

/// The queue with what the first `m` edges carry an output to behind it.
pub open spec fn with_fed(
    queue: Seq<Spot>,
    g: GraphView,
    kinds: Kinds,
    output: SocketRefView,
    m: int,
) -> Seq<Spot>
    decreases m,
{
    if m <= 0 {
        queue
    } else {
        let q = with_fed(queue, g, kinds, output, m - 1);
        if g.edges[m - 1].from == output {
            with_neighbor(q, g, kinds, g.edges[m - 1].to, Direction::Input)
        } else {
            q
        }
    }
}

/// The queue with what the first `n` outputs feed behind it, as far as they
/// share a type parameter.
pub open spec fn with_consumers(
    queue: Seq<Spot>,
    g: GraphView,
    kinds: Kinds,
    node: NodeId,
    param: Seq<char>,
    outputs: Seq<SocketView>,
    n: int,
) -> Seq<Spot>
    decreases n,
{
    if n <= 0 {
        queue
    } else {
        let q = with_consumers(queue, g, kinds, node, param, outputs, n - 1);
        if outputs[n - 1].generic == Some(param) {
            with_fed(q, g, kinds, at(node, outputs[n - 1]), g.edges.len() as int)
        } else {
            q
        }
    }
}

/// The queue with the first `n` of these parameters of a node behind it.
pub open spec fn with_companions(
    queue: Seq<Spot>,
    node: NodeId,
    names: Seq<Seq<char>>,
    n: int,
) -> Seq<Spot>
    decreases n,
{
    if n <= 0 {
        queue
    } else {
        with_companions(queue, node, names, n - 1).push((node, names[n - 1]))
    }
}

/// Whether a type parameter is still to be resolved to a type.
pub open spec fn unresolved(g: GraphView, kinds: Kinds, spot: Spot, ty: ValueType) -> bool {
    g.known(kinds, spot.0) && graph::generic_of(g, spot.0, spot.1) != Some(ty)
}

/// A node with a type parameter resolved.
pub open spec fn with_generic(g: GraphView, spot: Spot, ty: ValueType) -> GraphView {
    with_node(
        g,
        spot.0,
        NodeView { generics: g.nodes[spot.0].generics.insert(spot.1, ty), ..g.nodes[spot.0] },
    )
}

/// What is queued once a type parameter was resolved: what shares it across an
/// edge, and what starts out like it.
pub open spec fn spread(
    queue: Seq<Spot>,
    g: GraphView,
    kinds: Kinds,
    spot: Spot,
    ty: ValueType,
) -> Seq<Spot> {
    let (node, param) = spot;
    let d = g.kind(kinds, node);
    let fed = with_feeders(queue, g, kinds, node, param, d.inputs, d.inputs.len() as int);
    let both = with_consumers(fed, g, kinds, node, param, d.outputs, d.outputs.len() as int);
    let names = all_companions(g, d, node, param, ty);
    with_companions(both, node, names, names.len() as int)
}

/// The graph and the queue once the first in the queue was dealt with.
pub open spec fn resolve_step(g: GraphView, kinds: Kinds, queue: Seq<Spot>, ty: ValueType) -> (
    GraphView,
    Seq<Spot>,
) {
    let rest = queue.skip(1);
    if unresolved(g, kinds, queue[0], ty) {
        let h = with_generic(g, queue[0], ty);
        (retyped(h, kinds, queue[0].0), spread(rest, h, kinds, queue[0], ty))
    } else {
        (g, rest)
    }
}

/// The graph and the queue after `n` steps, or once the queue is empty.
pub open spec fn resolving(
    g: GraphView,
    kinds: Kinds,
    spot: Spot,
    ty: ValueType,
    n: nat,
) -> (GraphView, Seq<Spot>)
    decreases n,
{
    if n == 0 {
        (g, seq![spot])
    } else {
        let (h, queue) = resolving(g, kinds, spot, ty, (n - 1) as nat);
        if queue.len() == 0 {
            (h, queue)
        } else {
            resolve_step(h, kinds, queue, ty)
        }
    }
}

/// Whether nothing is left to resolve after `n` steps.
pub open spec fn resolved_by(g: GraphView, kinds: Kinds, spot: Spot, ty: ValueType, n: nat) -> bool {
    resolving(g, kinds, spot, ty, n).1.len() == 0
}

/// The graph once a type parameter of a node was resolved to a type, and with
/// it everything that shares it along the wires.
pub open spec fn resolved(g: GraphView, kinds: Kinds, spot: Spot, ty: ValueType) -> GraphView {
    let n = choose|n: nat| resolved_by(g, kinds, spot, ty, n);
    resolving(g, kinds, spot, ty, n).0
}

proof fn lemma_resolving_settled(
    g: GraphView,
    kinds: Kinds,
    spot: Spot,
    ty: ValueType,
    n: nat,
    m: nat,
)
    requires
        resolved_by(g, kinds, spot, ty, n),
        n <= m,
    ensures
        resolving(g, kinds, spot, ty, m) == resolving(g, kinds, spot, ty, n),
    decreases m,
{
    if n < m {
        lemma_resolving_settled(g, kinds, spot, ty, n, (m - 1) as nat);
    }
}

proof fn lemma_resolved(g: GraphView, kinds: Kinds, spot: Spot, ty: ValueType, n: nat)
    requires
        resolved_by(g, kinds, spot, ty, n),
    ensures
        resolved(g, kinds, spot, ty) == resolving(g, kinds, spot, ty, n).0,
{
    let m = choose|m: nat| resolved_by(g, kinds, spot, ty, m);
    if n <= m {
        lemma_resolving_settled(g, kinds, spot, ty, n, m);
    } else {
        lemma_resolving_settled(g, kinds, spot, ty, m, n);
    }
}

/// Two graphs of the same nodes and edges, which can differ in what type
/// parameters are resolved to and in what inputs are pinned to.
pub open spec fn same_but_types(g: GraphView, h: GraphView) -> bool {
    &&& h == (GraphView { nodes: h.nodes, ..g })
    &&& h.nodes.dom() == g.nodes.dom()
    &&& forall|id: NodeId| #[trigger]
        g.nodes.contains_key(id) ==> h.nodes[id] == (NodeView {
            params: h.nodes[id].params,
            generics: h.nodes[id].generics,
            ..g.nodes[id]
        })
}

pub(crate) proof fn lemma_same_but_types_across(a: GraphView, b: GraphView, c: GraphView)
    requires
        same_but_types(a, b),
        same_but_types(b, c),
    ensures
        same_but_types(a, c),
{
    assert forall|id: NodeId| #[trigger] a.nodes.contains_key(id) implies c.nodes[id] == (
    NodeView {
        params: c.nodes[id].params,
        generics: c.nodes[id].generics,
        ..a.nodes[id]
    }) by {
        assert(a.nodes.dom().contains(id));
        assert(b.nodes.dom().contains(id));
        assert(b.nodes.contains_key(id));
    }
}

pub(crate) proof fn lemma_with_node(g: GraphView, id: NodeId, n: NodeView)
    requires
        g.nodes.contains_key(id),
        n == (NodeView { params: n.params, generics: n.generics, ..g.nodes[id] }),
    ensures
        same_but_types(g, with_node(g, id, n)),
{
    assert(with_node(g, id, n).nodes.dom() =~= g.nodes.dom());
}

pub(crate) proof fn lemma_retyped(g: GraphView, kinds: Kinds, node: NodeId)
    ensures
        same_but_types(g, retyped(g, kinds, node)),
        forall|spot: Spot| #[trigger]
            graph::generic_of(retyped(g, kinds, node), spot.0, spot.1) == graph::generic_of(g, spot.0, spot.1),
{
    if g.known(kinds, node) {
        let inputs = g.kind(kinds, node).inputs;
        let p = pins(g, node, inputs, inputs.len() as int);
        let n = NodeView {
            params: put_all(g.nodes[node].params, p, p.len() as int),
            ..g.nodes[node]
        };
        lemma_with_node(g, node, n);
    }
}

pub(crate) proof fn lemma_resolve_step(g: GraphView, kinds: Kinds, queue: Seq<Spot>, ty: ValueType)
    ensures
        same_but_types(g, resolve_step(g, kinds, queue, ty).0),
        unresolved(g, kinds, queue[0], ty) ==> {
            let h = resolve_step(g, kinds, queue, ty).0;
            &&& graph::generic_of(h, queue[0].0, queue[0].1) == Some(ty)
            &&& forall|spot: Spot|
                spot != queue[0] ==> #[trigger] graph::generic_of(h, spot.0, spot.1) == graph::generic_of(
                    g,
                    spot.0,
                    spot.1,
                )
        },
{
    if unresolved(g, kinds, queue[0], ty) {
        let spot = queue[0];
        let h = with_generic(g, spot, ty);
        lemma_with_node(
            g,
            spot.0,
            NodeView { generics: g.nodes[spot.0].generics.insert(spot.1, ty), ..g.nodes[spot.0] },
        );
        lemma_retyped(h, kinds, spot.0);
        lemma_same_but_types_across(g, h, retyped(h, kinds, spot.0));
        let k = retyped(h, kinds, spot.0);
        assert(graph::generic_of(k, spot.0, spot.1) == graph::generic_of(h, spot.0, spot.1));
        assert forall|other: Spot| other != spot implies #[trigger] graph::generic_of(
            k,
            other.0,
            other.1,
        ) == graph::generic_of(g, other.0, other.1) by {
            assert(graph::generic_of(k, other.0, other.1) == graph::generic_of(h, other.0, other.1));
        }
    }
}

proof fn lemma_resolving(g: GraphView, kinds: Kinds, spot: Spot, ty: ValueType, n: nat)
    ensures
        same_but_types(g, resolving(g, kinds, spot, ty, n).0),
    decreases n,
{
    if n > 0 {
        lemma_resolving(g, kinds, spot, ty, (n - 1) as nat);
        let (h, queue) = resolving(g, kinds, spot, ty, (n - 1) as nat);
        if queue.len() > 0 {
            lemma_resolve_step(h, kinds, queue, ty);
            lemma_same_but_types_across(g, h, resolve_step(h, kinds, queue, ty).0);
        }
    }
}

/// Resolving a type parameter changes nothing but types and pinned values.
pub proof fn resolving_changes_types_only(g: GraphView, kinds: Kinds, spot: Spot, ty: ValueType)
    ensures
        same_but_types(g, resolved(g, kinds, spot, ty)),
{
    let n = choose|n: nat| resolved_by(g, kinds, spot, ty, n);
    lemma_resolving(g, kinds, spot, ty, n);
}

/// Whether a list holds every type parameter that a socket of a known node
/// reads.
spec fn covers(all: Seq<Spot>, g: GraphView, kinds: Kinds) -> bool {
    forall|id: NodeId, i: int, p: Seq<char>|
        #![trigger g.known(kinds, id), node::references(
            (g.kind(kinds, id).inputs + g.kind(kinds, id).outputs)[i],
            p,
        )]
        g.known(kinds, id) && 0 <= i < (g.kind(kinds, id).inputs + g.kind(kinds, id).outputs).len()
            && node::references((g.kind(kinds, id).inputs + g.kind(kinds, id).outputs)[i], p)
            ==> all.contains((id, p))
}

spec fn within(queue: Seq<Spot>, all: Seq<Spot>) -> bool {
    forall|j: int| 0 <= j < queue.len() ==> all.contains(#[trigger] queue[j])
}

/// The type parameters that the first `n` sockets of a node read.
spec fn spots_of(node: NodeId, sockets: Seq<SocketView>, n: int) -> Seq<Spot>
    decreases n,
{
    if n <= 0 {
        Seq::empty()
    } else {
        let before = spots_of(node, sockets, n - 1);
        let s = sockets[n - 1];
        let one = match s.generic {
            Some(p) => before.push((node, p)),
            None => before,
        };
        match s.combine {
            Some(c) => one.push((node, c.a)).push((node, c.b)),
            None => one,
        }
    }
}

proof fn lemma_in_push(s: Seq<Spot>, a: Spot)
    ensures
        s.push(a).contains(a),
        forall|x: Spot| s.contains(x) ==> #[trigger] s.push(a).contains(x),
{
    let t = s.push(a);
    assert(t[s.len() as int] == a);
    assert forall|x: Spot| s.contains(x) implies #[trigger] t.contains(x) by {
        let i = choose|i: int| 0 <= i < s.len() && s[i] == x;
        assert(t[i] == x);
    }
}

proof fn lemma_spots_of(node: NodeId, sockets: Seq<SocketView>, n: int)
    requires
        n <= sockets.len(),
    ensures
        forall|i: int, p: Seq<char>|
            0 <= i < n && #[trigger] node::references(sockets[i], p) ==> spots_of(
                node,
                sockets,
                n,
            ).contains((node, p)),
    decreases n,
{
    if n > 0 {
        lemma_spots_of(node, sockets, n - 1);
        let before = spots_of(node, sockets, n - 1);
        let s = sockets[n - 1];
        let one = match s.generic {
            Some(p) => before.push((node, p)),
            None => before,
        };
        if s.generic is Some {
            lemma_in_push(before, (node, s.generic->0));
        }
        if s.combine is Some {
            lemma_in_push(one, (node, s.combine->0.a));
            lemma_in_push(one.push((node, s.combine->0.a)), (node, s.combine->0.b));
        }
    }
}

spec fn all_spots(g: GraphView, kinds: Kinds, ids: Seq<NodeId>, n: int) -> Seq<Spot>
    decreases n,
{
    if n <= 0 {
        Seq::empty()
    } else {
        let d = g.kind(kinds, ids[n - 1]);
        let sockets = d.inputs + d.outputs;
        all_spots(g, kinds, ids, n - 1) + spots_of(ids[n - 1], sockets, sockets.len() as int)
    }
}

proof fn lemma_all_spots(g: GraphView, kinds: Kinds, ids: Seq<NodeId>, n: int)
    requires
        n <= ids.len(),
    ensures
        forall|k: int, i: int, p: Seq<char>|
            #![trigger ids[k], node::references(
                (g.kind(kinds, ids[k]).inputs + g.kind(kinds, ids[k]).outputs)[i],
                p,
            )]
            0 <= k < n && 0 <= i < (g.kind(kinds, ids[k]).inputs + g.kind(
                kinds,
                ids[k],
            ).outputs).len() && node::references(
                (g.kind(kinds, ids[k]).inputs + g.kind(kinds, ids[k]).outputs)[i],
                p,
            ) ==> all_spots(g, kinds, ids, n).contains((ids[k], p)),
    decreases n,
{
    if n > 0 {
        lemma_all_spots(g, kinds, ids, n - 1);
        let d = g.kind(kinds, ids[n - 1]);
        let sockets = d.inputs + d.outputs;
        lemma_spots_of(ids[n - 1], sockets, sockets.len() as int);
        let a = all_spots(g, kinds, ids, n - 1);
        let b = spots_of(ids[n - 1], sockets, sockets.len() as int);
        assert forall|x: Spot| a.contains(x) || b.contains(x) implies #[trigger] (a + b).contains(
            x,
        ) by {
            if a.contains(x) {
                let i = choose|i: int| 0 <= i < a.len() && a[i] == x;
                assert((a + b)[i] == x);
            } else {
                let i = choose|i: int| 0 <= i < b.len() && b[i] == x;
                assert((a + b)[a.len() + i] == x);
            }
        }
        assert forall|k: int, i: int, p: Seq<char>|
            #![trigger ids[k], node::references(
                (g.kind(kinds, ids[k]).inputs + g.kind(kinds, ids[k]).outputs)[i],
                p,
            )]
            0 <= k < n && 0 <= i < (g.kind(kinds, ids[k]).inputs + g.kind(
                kinds,
                ids[k],
            ).outputs).len() && node::references(
                (g.kind(kinds, ids[k]).inputs + g.kind(kinds, ids[k]).outputs)[i],
                p,
            ) implies all_spots(g, kinds, ids, n).contains((ids[k], p)) by {
            if k < n - 1 {
                assert(a.contains((ids[k], p)));
            } else {
                assert(b.contains((ids[k], p)));
            }
            assert((a + b).contains((ids[k], p)));
        }
    }
}

/// Every type parameter that can come up in resolving one.
spec fn reachable_spots(g: GraphView, kinds: Kinds, spot: Spot) -> Seq<Spot> {
    all_spots(g, kinds, g.ids(), g.ids().len() as int).push(spot)
}

proof fn lemma_reachable_spots(g: GraphView, kinds: Kinds, spot: Spot)
    ensures
        covers(reachable_spots(g, kinds, spot), g, kinds),
        reachable_spots(g, kinds, spot).contains(spot),
{
    let ids = g.ids();
    let a = all_spots(g, kinds, ids, ids.len() as int);
    idmap::lemma_in_order(g.nodes.dom());
    lemma_all_spots(g, kinds, ids, ids.len() as int);
    lemma_in_push(a, spot);
    assert forall|id: NodeId, i: int, p: Seq<char>|
        #![trigger g.known(kinds, id), node::references(
            (g.kind(kinds, id).inputs + g.kind(kinds, id).outputs)[i],
            p,
        )]
        g.known(kinds, id) && 0 <= i < (g.kind(kinds, id).inputs + g.kind(kinds, id).outputs).len()
            && node::references((g.kind(kinds, id).inputs + g.kind(kinds, id).outputs)[i], p) implies a.push(
        spot,
    ).contains((id, p)) by {
        assert(g.nodes.dom().contains(id));
        assert(ids.contains(id));
        let k = choose|k: int| 0 <= k < ids.len() && ids[k] == id;
        assert(ids[k] == id);
        assert(a.contains((id, p)));
    }
}

proof fn lemma_neighbor_within(
    queue: Seq<Spot>,
    g: GraphView,
    kinds: Kinds,
    place: SocketRefView,
    direction: Direction,
    all: Seq<Spot>,
)
    requires
        within(queue, all),
        covers(all, g, kinds),
    ensures
        within(with_neighbor(queue, g, kinds, place, direction), all),
{
    if g.known(kinds, place.node) {
        let d = g.kind(kinds, place.node);
        let both = d.inputs + d.outputs;
        match socket_of(d, place.socket, direction) {
            Some(s) => {
                lists::lemma_first_where(d.inputs, node::socket_named(place.socket));
                lists::lemma_first_where(d.outputs, node::socket_named(place.socket));
                if s.generic is Some {
                    let p = s.generic->0;
                    match direction {
                        Direction::Input => {
                            let i = choose|i: int| 0 <= i < d.inputs.len() && d.inputs[i] == s;
                            assert(both[i] == s);
                            assert(node::references(both[i], p));
                        },
                        Direction::Output => {
                            let i = choose|i: int| 0 <= i < d.outputs.len() && d.outputs[i] == s;
                            assert(both[d.inputs.len() + i] == s);
                            assert(node::references(both[d.inputs.len() + i], p));
                        },
                    }
                    assert(all.contains((place.node, p)));
                }
            },
            None => {},
        }
    }
}

proof fn lemma_feeders_within(
    queue: Seq<Spot>,
    g: GraphView,
    kinds: Kinds,
    node: NodeId,
    param: Seq<char>,
    inputs: Seq<SocketView>,
    n: int,
    all: Seq<Spot>,
)
    requires
        within(queue, all),
        covers(all, g, kinds),
    ensures
        within(with_feeders(queue, g, kinds, node, param, inputs, n), all),
    decreases n,
{
    if n > 0 {
        lemma_feeders_within(queue, g, kinds, node, param, inputs, n - 1, all);
        let q = with_feeders(queue, g, kinds, node, param, inputs, n - 1);
        match g.edge_into(at(node, inputs[n - 1])) {
            Some(e) => {
                lemma_neighbor_within(q, g, kinds, e.from, Direction::Output, all);
            },
            None => {},
        }
    }
}

proof fn lemma_fed_within(
    queue: Seq<Spot>,
    g: GraphView,
    kinds: Kinds,
    output: SocketRefView,
    m: int,
    all: Seq<Spot>,
)
    requires
        within(queue, all),
        covers(all, g, kinds),
    ensures
        within(with_fed(queue, g, kinds, output, m), all),
    decreases m,
{
    if m > 0 {
        lemma_fed_within(queue, g, kinds, output, m - 1, all);
        lemma_neighbor_within(
            with_fed(queue, g, kinds, output, m - 1),
            g,
            kinds,
            g.edges[m - 1].to,
            Direction::Input,
            all,
        );
    }
}

proof fn lemma_consumers_within(
    queue: Seq<Spot>,
    g: GraphView,
    kinds: Kinds,
    node: NodeId,
    param: Seq<char>,
    outputs: Seq<SocketView>,
    n: int,
    all: Seq<Spot>,
)
    requires
        within(queue, all),
        covers(all, g, kinds),
    ensures
        within(with_consumers(queue, g, kinds, node, param, outputs, n), all),
    decreases n,
{
    if n > 0 {
        lemma_consumers_within(queue, g, kinds, node, param, outputs, n - 1, all);
        lemma_fed_within(
            with_consumers(queue, g, kinds, node, param, outputs, n - 1),
            g,
            kinds,
            at(node, outputs[n - 1]),
            g.edges.len() as int,
            all,
        );
    }
}

proof fn lemma_companions_within(
    g: GraphView,
    kinds: Kinds,
    node: NodeId,
    param: Seq<char>,
    ty: ValueType,
    n: int,
    all: Seq<Spot>,
)
    requires
        covers(all, g, kinds),
        g.known(kinds, node),
        n <= g.kind(kinds, node).inputs.len() + g.kind(kinds, node).outputs.len(),
    ensures
        forall|j: int|
            0 <= j < companions(g, g.kind(kinds, node), node, param, ty, n).len() ==> all.contains(
                (node, #[trigger] companions(g, g.kind(kinds, node), node, param, ty, n)[j]),
            ),
    decreases n,
{
    if n > 0 {
        lemma_companions_within(g, kinds, node, param, ty, n - 1, all);
        let d = g.kind(kinds, node);
        let both = d.inputs + d.outputs;
        match partner(both[n - 1].combine, param) {
            Some(other) => {
                assert(node::references(both[n - 1], other));
                assert(all.contains((node, other)));
            },
            None => {},
        }
    }
}

proof fn lemma_named_within(
    queue: Seq<Spot>,
    node: NodeId,
    names: Seq<Seq<char>>,
    n: int,
    all: Seq<Spot>,
)
    requires
        within(queue, all),
        n <= names.len(),
        forall|j: int| 0 <= j < names.len() ==> all.contains((node, #[trigger] names[j])),
    ensures
        within(with_companions(queue, node, names, n), all),
    decreases n,
{
    if n > 0 {
        lemma_named_within(queue, node, names, n - 1, all);
        assert(all.contains((node, names[n - 1])));
    }
}

proof fn lemma_spread_within(
    queue: Seq<Spot>,
    g: GraphView,
    kinds: Kinds,
    spot: Spot,
    ty: ValueType,
    all: Seq<Spot>,
)
    requires
        within(queue, all),
        covers(all, g, kinds),
        g.known(kinds, spot.0),
    ensures
        within(spread(queue, g, kinds, spot, ty), all),
{
    let (node, param) = spot;
    let d = g.kind(kinds, node);
    let fed = with_feeders(queue, g, kinds, node, param, d.inputs, d.inputs.len() as int);
    lemma_feeders_within(queue, g, kinds, node, param, d.inputs, d.inputs.len() as int, all);
    lemma_consumers_within(fed, g, kinds, node, param, d.outputs, d.outputs.len() as int, all);
    let both = with_consumers(fed, g, kinds, node, param, d.outputs, d.outputs.len() as int);
    lemma_companions_within(
        g,
        kinds,
        node,
        param,
        ty,
        (d.inputs.len() + d.outputs.len()) as int,
        all,
    );
    let names = all_companions(g, d, node, param, ty);
    lemma_named_within(both, node, names, names.len() as int, all);
}

/// A change of types leaves every node of its kind.
pub(crate) proof fn lemma_known(g: GraphView, h: GraphView, kinds: Kinds)
    requires
        same_but_types(g, h),
    ensures
        forall|id: NodeId| #[trigger] h.known(kinds, id) == g.known(kinds, id),
        forall|id: NodeId|
            g.known(kinds, id) ==> #[trigger] h.kind(kinds, id) == g.kind(kinds, id),
        forall|id: NodeId| #[trigger] h.definition(kinds, id) == g.definition(kinds, id),
{
    assert forall|id: NodeId|
        g.nodes.contains_key(id) == h.nodes.contains_key(id) && (g.nodes.contains_key(id)
            ==> #[trigger] h.nodes[id].def == g.nodes[id].def) by {
        assert(g.nodes.dom().contains(id) == h.nodes.dom().contains(id));
        if g.nodes.contains_key(id) {
            assert(h.nodes[id] == (NodeView {
                params: h.nodes[id].params,
                generics: h.nodes[id].generics,
                ..g.nodes[id]
            }));
        }
    }
    assert forall|id: NodeId| #[trigger] h.known(kinds, id) == g.known(kinds, id) by {
        assert(h.nodes[id].def == h.nodes[id].def);
    }
    assert forall|id: NodeId| g.known(kinds, id) implies #[trigger] h.kind(kinds, id) == g.kind(
        kinds,
        id,
    ) by {
        assert(h.nodes[id].def == h.nodes[id].def);
    }
    assert forall|id: NodeId| #[trigger] h.definition(kinds, id) == g.definition(kinds, id) by {
        assert(h.nodes[id].def == h.nodes[id].def);
    }
}

proof fn lemma_covers(all: Seq<Spot>, g: GraphView, h: GraphView, kinds: Kinds)
    requires
        covers(all, g, kinds),
        same_but_types(g, h),
    ensures
        covers(all, h, kinds),
{
    lemma_known(g, h, kinds);
    assert forall|id: NodeId, i: int, p: Seq<char>|
        #![trigger h.known(kinds, id), node::references(
            (h.kind(kinds, id).inputs + h.kind(kinds, id).outputs)[i],
            p,
        )]
        h.known(kinds, id) && 0 <= i < (h.kind(kinds, id).inputs + h.kind(kinds, id).outputs).len()
            && node::references(
            (h.kind(kinds, id).inputs + h.kind(kinds, id).outputs)[i],
            p,
        ) implies all.contains((id, p)) by {
        assert(g.known(kinds, id));
        assert(node::references((g.kind(kinds, id).inputs + g.kind(kinds, id).outputs)[i], p));
    }
}

/// Not being resolved to a type yet.
spec fn open_to(g: GraphView, ty: ValueType) -> spec_fn(Spot) -> bool {
    |spot: Spot| graph::generic_of(g, spot.0, spot.1) != Some(ty)
}

proof fn lemma_fewer_open(
    g: GraphView,
    kinds: Kinds,
    queue: Seq<Spot>,
    ty: ValueType,
    all: Seq<Spot>,
)
    requires
        unresolved(g, kinds, queue[0], ty),
        all.contains(queue[0]),
    ensures
        lists::count_where(all, open_to(resolve_step(g, kinds, queue, ty).0, ty)) < lists::count_where(
            all,
            open_to(g, ty),
        ),
{
    let h = resolve_step(g, kinds, queue, ty).0;
    lemma_resolve_step(g, kinds, queue, ty);
    let k = choose|k: int| 0 <= k < all.len() && all[k] == queue[0];
    assert forall|i: int| 0 <= i < all.len() && open_to(h, ty)(#[trigger] all[i]) implies open_to(
        g,
        ty,
    )(all[i]) by {
        let spot = all[i];
        if spot != queue[0] {
            assert(graph::generic_of(h, spot.0, spot.1) == graph::generic_of(g, spot.0, spot.1));
        }
    }
    lists::lemma_count_drops(all, open_to(g, ty), open_to(h, ty), k);
}

proof fn lemma_ends_from(
    g0: GraphView,
    kinds: Kinds,
    spot: Spot,
    ty: ValueType,
    n: nat,
    all: Seq<Spot>,
) -> (m: nat)
    requires
        within(resolving(g0, kinds, spot, ty, n).1, all),
        covers(all, resolving(g0, kinds, spot, ty, n).0, kinds),
    ensures
        resolved_by(g0, kinds, spot, ty, m),
    decreases
        lists::count_where(all, open_to(resolving(g0, kinds, spot, ty, n).0, ty)),
        resolving(g0, kinds, spot, ty, n).1.len(),
{
    let (g, queue) = resolving(g0, kinds, spot, ty, n);
    if queue.len() == 0 {
        n
    } else {
        let rest = queue.skip(1);
        let (h, more) = resolve_step(g, kinds, queue, ty);
        assert(resolving(g0, kinds, spot, ty, n + 1) == (h, more));
        assert(all.contains(queue[0]));
        assert forall|j: int| 0 <= j < rest.len() implies all.contains(#[trigger] rest[j]) by {
            assert(rest[j] == queue[j + 1]);
        }
        lemma_resolve_step(g, kinds, queue, ty);
        if unresolved(g, kinds, queue[0], ty) {
            let now = queue[0];
            let picked = with_generic(g, now, ty);
            lemma_fewer_open(g, kinds, queue, ty, all);
            lemma_with_node(
                g,
                now.0,
                NodeView { generics: g.nodes[now.0].generics.insert(now.1, ty), ..g.nodes[now.0] },
            );
            lemma_known(g, picked, kinds);
            lemma_covers(all, g, picked, kinds);
            lemma_spread_within(rest, picked, kinds, now, ty, all);
        }
        lemma_covers(all, g, h, kinds);
        lemma_ends_from(g0, kinds, spot, ty, n + 1, all)
    }
}

/// Resolving a type parameter comes to an end, however the graph is wired.
pub proof fn resolving_ends(g: GraphView, kinds: Kinds, spot: Spot, ty: ValueType) -> (n: nat)
    ensures
        resolved_by(g, kinds, spot, ty, n),
{
    let all = reachable_spots(g, kinds, spot);
    lemma_reachable_spots(g, kinds, spot);
    assert(resolving(g, kinds, spot, ty, 0).1[0] == spot);
    lemma_ends_from(g, kinds, spot, ty, 0, all)
}

proof fn lemma_kept_or_taken(
    g: GraphView,
    kinds: Kinds,
    spot: Spot,
    ty: ValueType,
    n: nat,
    other: Spot,
)
    ensures
        ({
            let h = resolving(g, kinds, spot, ty, n).0;
            ||| graph::generic_of(h, other.0, other.1) == graph::generic_of(g, other.0, other.1)
            ||| graph::generic_of(h, other.0, other.1) == Some(ty)
        }),
    decreases n,
{
    if n > 0 {
        lemma_kept_or_taken(g, kinds, spot, ty, (n - 1) as nat, other);
        let (h, queue) = resolving(g, kinds, spot, ty, (n - 1) as nat);
        if queue.len() > 0 {
            lemma_resolve_step(h, kinds, queue, ty);
        }
    }
}

/// Resolving a type parameter to a type leaves every type parameter as it was,
/// or resolves it to that type too.
pub proof fn resolving_takes_one_type(
    g: GraphView,
    kinds: Kinds,
    spot: Spot,
    ty: ValueType,
    other: Spot,
)
    ensures
        ({
            let h = resolved(g, kinds, spot, ty);
            ||| graph::generic_of(h, other.0, other.1) == graph::generic_of(g, other.0, other.1)
            ||| graph::generic_of(h, other.0, other.1) == Some(ty)
        }),
{
    let n = resolving_ends(g, kinds, spot, ty);
    lemma_resolved(g, kinds, spot, ty, n);
    lemma_kept_or_taken(g, kinds, spot, ty, n, other);
}

proof fn lemma_taken_at_once(g: GraphView, kinds: Kinds, spot: Spot, ty: ValueType, n: nat)
    requires
        g.known(kinds, spot.0),
        n > 0,
    ensures
        graph::generic_of(resolving(g, kinds, spot, ty, n).0, spot.0, spot.1) == Some(ty),
    decreases n,
{
    let (h, queue) = resolving(g, kinds, spot, ty, (n - 1) as nat);
    if n > 1 {
        lemma_taken_at_once(g, kinds, spot, ty, (n - 1) as nat);
    } else {
        assert(queue[0] == spot);
    }
    if queue.len() > 0 {
        lemma_resolve_step(h, kinds, queue, ty);
    }
}

/// A type parameter that is resolved to a type is of that type.
pub proof fn a_resolved_parameter_has_its_type(
    g: GraphView,
    kinds: Kinds,
    spot: Spot,
    ty: ValueType,
)
    requires
        g.known(kinds, spot.0),
    ensures
        graph::generic_of(resolved(g, kinds, spot, ty), spot.0, spot.1) == Some(ty),
{
    let n = resolving_ends(g, kinds, spot, ty);
    lemma_resolved(g, kinds, spot, ty, n);
    assert(resolving(g, kinds, spot, ty, 0).1.len() == 1);
    lemma_taken_at_once(g, kinds, spot, ty, n);
}

/// Whether an edge joins two type parameters: its output is of the one and its
/// input, which it feeds, of the other.
pub open spec fn joins(g: GraphView, kinds: Kinds, i: int, a: Spot, b: Spot) -> bool {
    let e = g.edges[i];
    &&& 0 <= i < g.edges.len()
    &&& g.edge_into(e.to) == Some(e)
    &&& a.0 == e.from.node && b.0 == e.to.node
    &&& g.known(kinds, a.0) && g.known(kinds, b.0)
    &&& match socket_of(g.kind(kinds, a.0), e.from.socket, Direction::Output) {
        Some(s) => s.generic == Some(a.1),
        None => false,
    }
    &&& match socket_of(g.kind(kinds, b.0), e.to.socket, Direction::Input) {
        Some(s) => s.generic == Some(b.1),
        None => false,
    }
}

proof fn lemma_neighbor_kept(
    queue: Seq<Spot>,
    g: GraphView,
    kinds: Kinds,
    place: SocketRefView,
    direction: Direction,
    x: Spot,
)
    requires
        queue.contains(x),
    ensures
        with_neighbor(queue, g, kinds, place, direction).contains(x),
{
    if g.known(kinds, place.node) {
        match socket_of(g.kind(kinds, place.node), place.socket, direction) {
            Some(s) => if s.generic is Some {
                lemma_in_push(queue, (place.node, s.generic->0));
            },
            None => {},
        }
    }
}

proof fn lemma_fed_kept(
    queue: Seq<Spot>,
    g: GraphView,
    kinds: Kinds,
    output: SocketRefView,
    k: int,
    m: int,
    x: Spot,
)
    requires
        0 <= k <= m,
        with_fed(queue, g, kinds, output, k).contains(x),
    ensures
        with_fed(queue, g, kinds, output, m).contains(x),
    decreases m - k,
{
    if k < m {
        lemma_fed_kept(queue, g, kinds, output, k, m - 1, x);
        lemma_neighbor_kept(
            with_fed(queue, g, kinds, output, m - 1),
            g,
            kinds,
            g.edges[m - 1].to,
            Direction::Input,
            x,
        );
    }
}

proof fn lemma_consumers_kept(
    queue: Seq<Spot>,
    g: GraphView,
    kinds: Kinds,
    spot: Spot,
    outputs: Seq<SocketView>,
    k: int,
    n: int,
    x: Spot,
)
    requires
        0 <= k <= n,
        with_consumers(queue, g, kinds, spot.0, spot.1, outputs, k).contains(x),
    ensures
        with_consumers(queue, g, kinds, spot.0, spot.1, outputs, n).contains(x),
    decreases n - k,
{
    if k < n {
        lemma_consumers_kept(queue, g, kinds, spot, outputs, k, n - 1, x);
        let q = with_consumers(queue, g, kinds, spot.0, spot.1, outputs, n - 1);
        assert(with_fed(q, g, kinds, at(spot.0, outputs[n - 1]), 0) == q);
        lemma_fed_kept(q, g, kinds, at(spot.0, outputs[n - 1]), 0, g.edges.len() as int, x);
    }
}

proof fn lemma_feeders_kept(
    queue: Seq<Spot>,
    g: GraphView,
    kinds: Kinds,
    spot: Spot,
    inputs: Seq<SocketView>,
    k: int,
    n: int,
    x: Spot,
)
    requires
        0 <= k <= n,
        with_feeders(queue, g, kinds, spot.0, spot.1, inputs, k).contains(x),
    ensures
        with_feeders(queue, g, kinds, spot.0, spot.1, inputs, n).contains(x),
    decreases n - k,
{
    if k < n {
        lemma_feeders_kept(queue, g, kinds, spot, inputs, k, n - 1, x);
        match g.edge_into(at(spot.0, inputs[n - 1])) {
            Some(e) => {
                lemma_neighbor_kept(
                    with_feeders(queue, g, kinds, spot.0, spot.1, inputs, n - 1),
                    g,
                    kinds,
                    e.from,
                    Direction::Output,
                    x,
                );
            },
            None => {},
        }
    }
}

proof fn lemma_companions_kept(
    queue: Seq<Spot>,
    node: NodeId,
    names: Seq<Seq<char>>,
    n: int,
    x: Spot,
)
    requires
        queue.contains(x),
    ensures
        with_companions(queue, node, names, n).contains(x),
    decreases n,
{
    if n > 0 {
        lemma_companions_kept(queue, node, names, n - 1, x);
        lemma_in_push(with_companions(queue, node, names, n - 1), (node, names[n - 1]));
    }
}

proof fn lemma_spread_keeps(
    queue: Seq<Spot>,
    g: GraphView,
    kinds: Kinds,
    spot: Spot,
    ty: ValueType,
    x: Spot,
)
    requires
        queue.contains(x),
    ensures
        spread(queue, g, kinds, spot, ty).contains(x),
{
    let d = g.kind(kinds, spot.0);
    let fed = with_feeders(queue, g, kinds, spot.0, spot.1, d.inputs, d.inputs.len() as int);
    let both = with_consumers(fed, g, kinds, spot.0, spot.1, d.outputs, d.outputs.len() as int);
    let names = all_companions(g, d, spot.0, spot.1, ty);
    lemma_feeders_kept(queue, g, kinds, spot, d.inputs, 0, d.inputs.len() as int, x);
    lemma_consumers_kept(fed, g, kinds, spot, d.outputs, 0, d.outputs.len() as int, x);
    lemma_companions_kept(both, spot.0, names, names.len() as int, x);
}

/// Resolving one end of an edge queues the other.
proof fn lemma_spread_reaches(
    queue: Seq<Spot>,
    g: GraphView,
    kinds: Kinds,
    ty: ValueType,
    i: int,
    a: Spot,
    b: Spot,
)
    requires
        joins(g, kinds, i, a, b),
    ensures
        spread(queue, g, kinds, a, ty).contains(b),
        spread(queue, g, kinds, b, ty).contains(a),
{
    let e = g.edges[i];
    let da = g.kind(kinds, a.0);
    let db = g.kind(kinds, b.0);
    lists::lemma_first_where(da.outputs, node::socket_named(e.from.socket));
    lists::lemma_first_where(db.inputs, node::socket_named(e.to.socket));
    assert(spread(queue, g, kinds, a, ty).contains(b)) by {
        let s = socket_of(da, e.from.socket, Direction::Output)->0;
        let k = choose|k: int| 0 <= k < da.outputs.len() && da.outputs[k] == s;
        assert(node::socket_named(e.from.socket)(s));
        assert(at(a.0, s) == e.from);
        let fed = with_feeders(queue, g, kinds, a.0, a.1, da.inputs, da.inputs.len() as int);
        let q = with_consumers(fed, g, kinds, a.0, a.1, da.outputs, k);
        lemma_in_push(with_fed(q, g, kinds, e.from, i), b);
        assert(with_fed(q, g, kinds, e.from, i + 1).contains(b));
        lemma_fed_kept(q, g, kinds, e.from, i + 1, g.edges.len() as int, b);
        assert(with_consumers(fed, g, kinds, a.0, a.1, da.outputs, k + 1).contains(b));
        let n = da.outputs.len() as int;
        lemma_consumers_kept(fed, g, kinds, a, da.outputs, k + 1, n, b);
        let both = with_consumers(fed, g, kinds, a.0, a.1, da.outputs, n);
        let names = all_companions(g, da, a.0, a.1, ty);
        lemma_companions_kept(both, a.0, names, names.len() as int, b);
    }
    assert(spread(queue, g, kinds, b, ty).contains(a)) by {
        let s = socket_of(db, e.to.socket, Direction::Input)->0;
        let k = choose|k: int| 0 <= k < db.inputs.len() && db.inputs[k] == s;
        assert(node::socket_named(e.to.socket)(s));
        assert(at(b.0, s) == e.to);
        let q = with_feeders(queue, g, kinds, b.0, b.1, db.inputs, k);
        lemma_in_push(q, a);
        assert(with_feeders(queue, g, kinds, b.0, b.1, db.inputs, k + 1).contains(a));
        let n = db.inputs.len() as int;
        lemma_feeders_kept(queue, g, kinds, b, db.inputs, k + 1, n, a);
        let fed = with_feeders(queue, g, kinds, b.0, b.1, db.inputs, n);
        let m = db.outputs.len() as int;
        lemma_consumers_kept(fed, g, kinds, b, db.outputs, 0, m, a);
        let both = with_consumers(fed, g, kinds, b.0, b.1, db.outputs, m);
        let names = all_companions(g, db, b.0, b.1, ty);
        lemma_companions_kept(both, b.0, names, names.len() as int, a);
    }
}

/// Whether resolving gave a type parameter its type.
pub open spec fn taken(g: GraphView, h: GraphView, spot: Spot, ty: ValueType) -> bool {
    graph::generic_of(g, spot.0, spot.1) != Some(ty) && graph::generic_of(h, spot.0, spot.1)
        == Some(ty)
}

proof fn lemma_follows(
    g: GraphView,
    kinds: Kinds,
    spot: Spot,
    ty: ValueType,
    n: nat,
    i: int,
    a: Spot,
    b: Spot,
)
    requires
        joins(g, kinds, i, a, b),
    ensures
        ({
            let (h, queue) = resolving(g, kinds, spot, ty, n);
            &&& taken(g, h, a, ty) ==> graph::generic_of(h, b.0, b.1) == Some(ty)
                || queue.contains(b)
            &&& taken(g, h, b, ty) ==> graph::generic_of(h, a.0, a.1) == Some(ty)
                || queue.contains(a)
        }),
    decreases n,
{
    if n > 0 {
        lemma_follows(g, kinds, spot, ty, (n - 1) as nat, i, a, b);
        lemma_resolving(g, kinds, spot, ty, (n - 1) as nat);
        let (h, queue) = resolving(g, kinds, spot, ty, (n - 1) as nat);
        lemma_known(g, h, kinds);
        if queue.len() > 0 {
            let x = queue[0];
            let rest = queue.skip(1);
            lemma_resolve_step(h, kinds, queue, ty);
            assert forall|y: Spot| queue.contains(y) && y != x implies rest.contains(y) by {
                let j = choose|j: int| 0 <= j < queue.len() && queue[j] == y;
                assert(rest[j - 1] == y);
            }
            if unresolved(h, kinds, x, ty) {
                let k = with_generic(h, x, ty);
                lemma_with_node(
                    h,
                    x.0,
                    NodeView { generics: h.nodes[x.0].generics.insert(x.1, ty), ..h.nodes[x.0] },
                );
                lemma_same_but_types_across(g, h, k);
                lemma_known(g, k, kinds);
                assert(joins(k, kinds, i, a, b));
                if x == a || x == b {
                    lemma_spread_reaches(rest, k, kinds, ty, i, a, b);
                }
                if rest.contains(a) {
                    lemma_spread_keeps(rest, k, kinds, x, ty, a);
                }
                if rest.contains(b) {
                    lemma_spread_keeps(rest, k, kinds, x, ty, b);
                }
            }
        }
    }
}

/// The types follow the wires: where resolving gives its type to a type
/// parameter at one end of an edge, the one at the other end has it too.
pub proof fn types_follow_the_wires(
    g: GraphView,
    kinds: Kinds,
    spot: Spot,
    ty: ValueType,
    i: int,
    a: Spot,
    b: Spot,
)
    requires
        joins(g, kinds, i, a, b),
        taken(g, resolved(g, kinds, spot, ty), a, ty) || taken(
            g,
            resolved(g, kinds, spot, ty),
            b,
            ty,
        ),
    ensures
        graph::generic_of(resolved(g, kinds, spot, ty), a.0, a.1) == Some(ty),
        graph::generic_of(resolved(g, kinds, spot, ty), b.0, b.1) == Some(ty),
{
    let n = resolving_ends(g, kinds, spot, ty);
    lemma_resolved(g, kinds, spot, ty, n);
    lemma_follows(g, kinds, spot, ty, n, i, a, b);
}

impl Graph {
    /// Queue the type parameter at an end of an edge, where that end is of
    /// such a type.
    fn enqueue_generic_neighbor(
        &self,
        registry: &NodeRegistry,
        place: &SocketRef,
        direction: Direction,
        queue: &mut Vec<(NodeId, String)>,
    )
        ensures
            text::seq_of(final(queue)@) == with_neighbor(
                text::seq_of(old(queue)@),
                self@,
                registry@,
                place@,
                direction,
            ),
    {
        let def = match self.definition(registry, place.node) {
            Ok(d) => d,
            Err(_) => {
                return;
            },
        };
        let found = match direction {
            Direction::Input => def.input(place.socket.as_str()),
            Direction::Output => def.output(place.socket.as_str()),
        };
        match found {
            Some(s) => match &s.generic {
                Some(p) => {
                    let ghost before = queue@;
                    queue.push((place.node, p.as_str().to_owned()));
                    assert(text::seq_of(queue@) =~= text::seq_of(before).push((place.node, p@)));
                },
                None => {},
            },
            None => {},
        }
    }

    /// Queue what shares a type parameter of a node across an edge.
    fn enqueue_neighbors(
        &self,
        registry: &NodeRegistry,
        def: &NodeDefinition,
        node: NodeId,
        param: &str,
        queue: &mut Vec<(NodeId, String)>,
    )
        ensures
            text::seq_of(final(queue)@) == with_consumers(
                with_feeders(
                    text::seq_of(old(queue)@),
                    self@,
                    registry@,
                    node,
                    param@,
                    def@.inputs,
                    def@.inputs.len() as int,
                ),
                self@,
                registry@,
                node,
                param@,
                def@.outputs,
                def@.outputs.len() as int,
            ),
    {
        let ghost g = self@;
        let ghost kinds = registry@;
        let ghost inputs = def@.inputs;
        let ghost outputs = def@.outputs;
        let ghost start = text::seq_of(queue@);
        let mut i: usize = 0;
        while i < def.inputs.len()
            invariant
                i <= inputs.len() == def.inputs@.len(),
                inputs == text::seq_of(def.inputs@),
                g == self@,
                kinds == registry@,
                text::seq_of(queue@) == with_feeders(
                    start,
                    g,
                    kinds,
                    node,
                    param@,
                    inputs,
                    i as int,
                ),
            decreases inputs.len() - i,
        {
            let socket = &def.inputs[i];
            assert(inputs[i as int] == socket@);
            match &socket.generic {
                Some(p) => {
                    if same_text(p.as_str(), param) {
                        let reference = SocketRef::new(node, socket.name.as_str());
                        assert(reference@ == at(node, socket@));
                        match self.edge_into(&reference) {
                            Some(edge) => {
                                self.enqueue_generic_neighbor(
                                    registry,
                                    &edge.from,
                                    Direction::Output,
                                    queue,
                                );
                            },
                            None => {},
                        }
                    }
                },
                None => {},
            }
            i += 1;
        }
        let ghost fed = text::seq_of(queue@);
        let mut i: usize = 0;
        while i < def.outputs.len()
            invariant
                i <= outputs.len() == def.outputs@.len(),
                outputs == text::seq_of(def.outputs@),
                g == self@,
                kinds == registry@,
                text::seq_of(queue@) == with_consumers(
                    fed,
                    g,
                    kinds,
                    node,
                    param@,
                    outputs,
                    i as int,
                ),
            decreases outputs.len() - i,
        {
            let socket = &def.outputs[i];
            assert(outputs[i as int] == socket@);
            let shares = match &socket.generic {
                Some(p) => same_text(p.as_str(), param),
                None => false,
            };
            if shares {
                let ghost place = at(node, socket@);
                let ghost before = text::seq_of(queue@);
                let mut k: usize = 0;
                while k < self.edges.len()
                    invariant
                        k <= g.edges.len() == self.edges@.len(),
                        g.edges == text::seq_of(self.edges@),
                        g == self@,
                        kinds == registry@,
                        place == at(node, socket@),
                        text::seq_of(queue@) == with_fed(before, g, kinds, place, k as int),
                    decreases g.edges.len() - k,
                {
                    let edge = &self.edges[k];
                    assert(g.edges[k as int] == edge@);
                    if edge.from.is(node, socket.name.as_str()) {
                        self.enqueue_generic_neighbor(
                            registry,
                            &edge.to,
                            Direction::Input,
                            queue,
                        );
                    }
                    k += 1;
                }
            }
            i += 1;
        }
    }

    /// Resolve a type parameter of a node to a type, and with it everything
    /// that shares it along the wires.
    pub(crate) fn resolve_generic(
        &mut self,
        registry: &NodeRegistry,
        node: NodeId,
        param: &str,
        ty: ValueType,
    )
        ensures
            final(self)@ == resolved(old(self)@, registry@, (node, param@), ty),
            same_but_types(old(self)@, final(self)@),
    {
        let ghost g0 = self@;
        let ghost kinds = registry@;
        let ghost spot = (node, param@);
        let ghost all = reachable_spots(g0, kinds, spot);
        let ghost mut steps: nat = 0;
        let mut queue: Vec<(NodeId, String)> = Vec::new();
        queue.push((node, param.to_owned()));
        proof {
            assert(text::seq_of(queue@) =~= seq![spot]);
            lemma_reachable_spots(g0, kinds, spot);
        }
        while queue.len() > 0
            invariant
                kinds == registry@,
                (self@, text::seq_of(queue@)) == resolving(g0, kinds, spot, ty, steps),
                same_but_types(g0, self@),
                within(text::seq_of(queue@), all),
                covers(all, self@, kinds),
            decreases lists::count_where(all, open_to(self@, ty)), queue@.len(),
        {
            let ghost g = self@;
            let ghost line = text::seq_of(queue@);
            let (node, param) = queue.remove(0);
            let ghost now = (node, param@);
            let ghost rest = line.skip(1);
            proof {
                assert(line[0] == now);
                assert(text::seq_of(queue@) =~= rest);
                assert(all.contains(line[0]));
                assert(within(rest, all)) by {
                    assert forall|j: int| 0 <= j < rest.len() implies all.contains(
                        #[trigger] rest[j],
                    ) by {
                        assert(rest[j] == line[j + 1]);
                    }
                }
                steps = steps + 1;
                assert(resolving(g0, kinds, spot, ty, steps) == resolve_step(g, kinds, line, ty));
            }
            let mut current = match self.nodes.get(node) {
                Some(n) => n.clone(),
                None => {
                    continue;
                },
            };
            let settled = match current.generics.get(param.as_str()) {
                Some(held) => *held == ty,
                None => false,
            };
            if settled {
                continue;
            }
            let def = match registry.get(current.def.as_str()) {
                Some(d) => &**d,
                None => {
                    continue;
                },
            };
            assert(unresolved(g, kinds, now, ty));
            proof {
                lemma_resolve_step(g, kinds, line, ty);
                lemma_fewer_open(g, kinds, line, ty, all);
                lemma_same_but_types_across(g0, g, resolve_step(g, kinds, line, ty).0);
            }
            current.generics.insert(param.clone(), ty);
            let ghost changed = current@;
            self.nodes.replace(node, current);
            let ghost h = self@;
            proof {
                assert(h == with_generic(g, now, ty));
                lemma_with_node(g, node, changed);
                lemma_known(g, h, kinds);
                lemma_covers(all, g, h, kinds);
                lemma_spread_within(rest, h, kinds, now, ty, all);
                assert(h.kind(kinds, node) == def@);
            }
            self.enqueue_neighbors(registry, def, node, param.as_str(), &mut queue);
            let ghost both = text::seq_of(queue@);
            let names = self.seedable_companions(def, node, param.as_str(), ty);
            let ghost list = text::seq_of(names@);
            let mut i: usize = 0;
            while i < names.len()
                invariant
                    i <= list.len() == names@.len(),
                    list == text::seq_of(names@),
                    text::seq_of(queue@) == with_companions(both, node, list, i as int),
                decreases list.len() - i,
            {
                let ghost before = queue@;
                assert(list[i as int] == names@[i as int]@);
                queue.push((node, names[i].clone()));
                assert(text::seq_of(queue@) =~= text::seq_of(before).push((node, list[i as int])));
                i += 1;
            }
            self.retype_params(registry, node);
            proof {
                lemma_covers(all, g, self@, kinds);
            }
        }
        proof {
            assert(resolved_by(g0, kinds, spot, ty, steps));
            lemma_resolved(g0, kinds, spot, ty, steps);
        }
    }
}

} // verus!
