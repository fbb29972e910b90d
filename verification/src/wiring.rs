//! Making and breaking the edges of a graph.

use vstd::prelude::*;

use crate::copies::copy_vec;
use crate::error::{Direction, GraphError, GraphErrorView};
use crate::graph;
use crate::graph::{
    effective_type_of, Edge, EdgeView, Graph, GraphView, Kinds, Node, NodeId, NodeView, SocketRef,
    SocketRefView,
};
use crate::node;
use crate::node::{
    contains_type, NodeDefinition, NodeDefinitionView, NodeRegistry, Socket, SocketView, ValueType,
};
use crate::text;
use crate::textmap;
use crate::textmap::TextMap;
use crate::traversal;
use crate::typing;
use crate::typing::Spot;

verus! {

/// The types of a node's parameters, were the first `n` of these of a type.
pub open spec fn supposed(
    g: GraphView,
    node: NodeId,
    params: Seq<Seq<char>>,
    ty: ValueType,
    n: int,
) -> Map<Seq<char>, ValueType>
    decreases n,
{
    if n <= 0 {
        if g.nodes.contains_key(node) {
            g.nodes[node].generics
        } else {
            Map::empty()
        }
    } else {
        supposed(g, node, params, ty, n - 1).insert(params[n - 1], ty)
    }
}

/// Whether the parameters that a socket combines go together, as far as both
/// are resolved.
pub open spec fn combines(s: SocketView, types: Map<Seq<char>, ValueType>) -> bool {
    match s.combine {
        Some(c) => types.contains_key(c.a) && types.contains_key(c.b) ==> c.rule.apply(
            types[c.a],
            types[c.b],
        ) is Some,
        None => true,
    }
}

/// Whether an edge still fits, were the types of a node's parameters these.
pub open spec fn edge_fits(
    g: GraphView,
    kinds: Kinds,
    node: NodeId,
    d: NodeDefinitionView,
    types: Map<Seq<char>, ValueType>,
    e: EdgeView,
) -> bool {
    let (mine, theirs, direction) = if e.to.node == node {
        (d.input(e.to.socket), e.from, Direction::Output)
    } else {
        (d.output(e.from.socket), e.to, Direction::Input)
    };
    if (e.to.node == node || e.from.node == node) && mine is Some {
        match (graph::effective_of(mine->0, types), typing::type_at(g, kinds, theirs, direction)) {
            (Some(becomes), Ok(Some(other))) => becomes == other,
            _ => true,
        }
    } else {
        true
    }
}

/// Whether the types of a node's parameters could be these: what is combined
/// goes together, and every edge that the node has still fits.
pub open spec fn could_be(
    g: GraphView,
    kinds: Kinds,
    node: NodeId,
    d: NodeDefinitionView,
    types: Map<Seq<char>, ValueType>,
) -> bool {
    &&& forall|i: int| 0 <= i < d.inputs.len() ==> combines(#[trigger] d.inputs[i], types)
    &&& forall|i: int| 0 <= i < d.outputs.len() ==> combines(#[trigger] d.outputs[i], types)
    &&& forall|i: int|
        0 <= i < g.edges.len() ==> edge_fits(g, kinds, node, d, types, #[trigger] g.edges[i])
}

/// Whether a socket becomes of a type by resolving these parameters to it,
/// with nothing else on the node breaking.
pub open spec fn makes(
    g: GraphView,
    kinds: Kinds,
    node: NodeId,
    d: NodeDefinitionView,
    s: SocketView,
    ty: ValueType,
    params: Seq<Seq<char>>,
) -> bool {
    let types = supposed(g, node, params, ty, params.len() as int);
    &&& forall|i: int| 0 <= i < params.len() ==> d.param_allows(#[trigger] params[i], ty)
    &&& graph::effective_of(s, types) == Some(ty)
    &&& could_be(g, kinds, node, d, types)
}

/// The parameters to resolve to a type for a socket to become of it: its own,
/// or of two it combines the first, the second or both.
pub open spec fn retyping(
    g: GraphView,
    kinds: Kinds,
    node: NodeId,
    d: NodeDefinitionView,
    s: SocketView,
    ty: ValueType,
) -> Option<Seq<Seq<char>>> {
    match s.generic {
        Some(p) => if makes(g, kinds, node, d, s, ty, seq![p]) {
            Some(seq![p])
        } else {
            None
        },
        None => match s.combine {
            Some(c) => if makes(g, kinds, node, d, s, ty, seq![c.a]) {
                Some(seq![c.a])
            } else if makes(g, kinds, node, d, s, ty, seq![c.b]) {
                Some(seq![c.b])
            } else if makes(g, kinds, node, d, s, ty, seq![c.a, c.b]) {
                Some(seq![c.a, c.b])
            } else {
                None
            },
            None => None,
        },
    }
}

impl Graph {
    /// Whether the parameters that a socket combines go together.
    fn combination_holds(socket: &Socket, types: &TextMap<ValueType>) -> (r: bool)
        ensures
            r == combines(socket@, types@),
    {
        match &socket.combine {
            Some(c) => match (types.get(c.a.as_str()), types.get(c.b.as_str())) {
                (Some(a), Some(b)) => c.rule.apply(*a, *b).is_some(),
                _ => true,
            },
            None => true,
        }
    }

    /// Whether an edge still fits, were the types of a node's parameters these.
    fn edge_still_fits(
        &self,
        registry: &NodeRegistry,
        node: NodeId,
        def: &NodeDefinition,
        types: &TextMap<ValueType>,
        edge: &Edge,
    ) -> (r: bool)
        ensures
            r == edge_fits(self@, registry@, node, def@, types@, edge@),
    {
        let (mine, theirs, direction) = if edge.to.node.0 == node.0 {
            (def.input(edge.to.socket.as_str()), &edge.from, Direction::Output)
        } else if edge.from.node.0 == node.0 {
            (def.output(edge.from.socket.as_str()), &edge.to, Direction::Input)
        } else {
            return true;
        };
        let mine = match mine {
            Some(s) => s,
            None => {
                return true;
            },
        };
        match (effective_type_of(mine, types), self.socket_type(registry, theirs, direction)) {
            (Some(becomes), Ok(Some(other))) => becomes == other,
            _ => true,
        }
    }

    /// Whether the types of a node's parameters could be these: what is
    /// combined goes together, and every edge that the node has still fits.
    fn hypothesis_holds(
        &self,
        registry: &NodeRegistry,
        node: NodeId,
        def: &NodeDefinition,
        types: &TextMap<ValueType>,
    ) -> (r: bool)
        ensures
            r == could_be(self@, registry@, node, def@, types@),
    {
        let ghost g = self@;
        let ghost d = def@;
        let mut i: usize = 0;
        while i < def.inputs.len()
            invariant
                i <= d.inputs.len() == def.inputs@.len(),
                d == def@,
                d.inputs == text::seq_of(def.inputs@),
                forall|j: int| 0 <= j < i ==> combines(#[trigger] d.inputs[j], types@),
            decreases d.inputs.len() - i,
        {
            assert(d.inputs[i as int] == def.inputs@[i as int]@);
            if !Self::combination_holds(&def.inputs[i], types) {
                return false;
            }
            i += 1;
        }
        let mut i: usize = 0;
        while i < def.outputs.len()
            invariant
                i <= d.outputs.len() == def.outputs@.len(),
                d == def@,
                d.outputs == text::seq_of(def.outputs@),
                forall|j: int| 0 <= j < i ==> combines(#[trigger] d.outputs[j], types@),
            decreases d.outputs.len() - i,
        {
            assert(d.outputs[i as int] == def.outputs@[i as int]@);
            if !Self::combination_holds(&def.outputs[i], types) {
                return false;
            }
            i += 1;
        }
        let mut i: usize = 0;
        while i < self.edges.len()
            invariant
                i <= g.edges.len() == self.edges@.len(),
                g == self@,
                d == def@,
                g.edges == text::seq_of(self.edges@),
                forall|j: int|
                    0 <= j < i ==> edge_fits(
                        g,
                        registry@,
                        node,
                        d,
                        types@,
                        #[trigger] g.edges[j],
                    ),
            decreases g.edges.len() - i,
        {
            assert(g.edges[i as int] == self.edges@[i as int]@);
            if !self.edge_still_fits(registry, node, def, types, &self.edges[i]) {
                return false;
            }
            i += 1;
        }
        true
    }

    /// Whether a socket becomes of a type by resolving these parameters to it,
    /// with nothing else on the node breaking.
    fn would_make(
        &self,
        registry: &NodeRegistry,
        node: NodeId,
        def: &NodeDefinition,
        socket: &Socket,
        ty: ValueType,
        params: &Vec<String>,
    ) -> (r: bool)
        ensures
            r == makes(self@, registry@, node, def@, socket@, ty, text::seq_of(params@)),
    {
        let ghost g = self@;
        let ghost names = text::seq_of(params@);
        let mut types = match self.nodes.get(node) {
            Some(n) => n.generics.copy(),
            None => TextMap::new(),
        };
        let mut i: usize = 0;
        while i < params.len()
            invariant
                i <= names.len() == params@.len(),
                names == text::seq_of(params@),
                types@ == supposed(g, node, names, ty, i as int),
                forall|j: int| 0 <= j < i ==> def@.param_allows(#[trigger] names[j], ty),
            decreases names.len() - i,
        {
            assert(names[i as int] == params@[i as int]@);
            if !def.param_allows(params[i].as_str(), ty) {
                return false;
            }
            types.insert(params[i].clone(), ty);
            i += 1;
        }
        match effective_type_of(socket, &types) {
            Some(t) => {
                if t != ty {
                    return false;
                }
            },
            None => {
                return false;
            },
        }
        self.hypothesis_holds(registry, node, def, &types)
    }

    /// The parameters to resolve to a type for a socket to become of it.
    fn plan_retype(
        &self,
        registry: &NodeRegistry,
        node: NodeId,
        def: &NodeDefinition,
        socket: &Socket,
        ty: ValueType,
    ) -> (r: Option<Vec<String>>)
        ensures
            match (r, retyping(self@, registry@, node, def@, socket@, ty)) {
                (Some(v), Some(s)) => text::seq_of(v@) == s,
                (None, None) => true,
                _ => false,
            },
    {
        match &socket.generic {
            Some(p) => {
                let mut own: Vec<String> = Vec::new();
                own.push(p.as_str().to_owned());
                assert(text::seq_of(own@) =~= seq![p@]);
                if self.would_make(registry, node, def, socket, ty, &own) {
                    Some(own)
                } else {
                    None
                }
            },
            None => match &socket.combine {
                Some(c) => {
                    let mut first: Vec<String> = Vec::new();
                    first.push(c.a.as_str().to_owned());
                    assert(text::seq_of(first@) =~= seq![c.a@]);
                    if self.would_make(registry, node, def, socket, ty, &first) {
                        return Some(first);
                    }
                    let mut second: Vec<String> = Vec::new();
                    second.push(c.b.as_str().to_owned());
                    assert(text::seq_of(second@) =~= seq![c.b@]);
                    if self.would_make(registry, node, def, socket, ty, &second) {
                        return Some(second);
                    }
                    first.push(c.b.as_str().to_owned());
                    assert(text::seq_of(first@) =~= seq![c.a@, c.b@]);
                    if self.would_make(registry, node, def, socket, ty, &first) {
                        return Some(first);
                    }
                    None
                },
                None => None,
            },
        }
    }
}

/// The resolutions of these parameters of a node to a type.
pub open spec fn each_to(node: NodeId, params: Option<Seq<Seq<char>>>, ty: ValueType) -> Seq<
    (Spot, ValueType),
> {
    match params {
        Some(names) => Seq::new(names.len(), |i: int| ((node, names[i]), ty)),
        None => Seq::empty(),
    }
}

/// What is to be resolved for two sockets to agree about a type: where they
/// differ, the input follows the output if it can, else the output the input;
/// a socket whose type is open follows the other, or stays open.
pub open spec fn agreement(
    g: GraphView,
    kinds: Kinds,
    from: SocketRefView,
    to: SocketRefView,
    out: SocketView,
    inp: SocketView,
) -> Result<Seq<(Spot, ValueType)>, GraphErrorView> {
    let fd = g.kind(kinds, from.node);
    let td = g.kind(kinds, to.node);
    match (g.effective_type(from.node, out), g.effective_type(to.node, inp)) {
        (Some(p), Some(e)) => if p == e {
            Ok(Seq::empty())
        } else {
            let forward = retyping(g, kinds, to.node, td, inp, p);
            let backward = retyping(g, kinds, from.node, fd, out, e);
            if forward is Some {
                Ok(each_to(to.node, forward, p))
            } else if backward is Some {
                Ok(each_to(from.node, backward, e))
            } else {
                Err(GraphErrorView::TypeMismatch { from, to, produced: p, expected: e })
            }
        },
        (Some(p), None) => Ok(each_to(to.node, retyping(g, kinds, to.node, td, inp, p), p)),
        (None, Some(e)) => Ok(each_to(from.node, retyping(g, kinds, from.node, fd, out, e), e)),
        (None, None) => Ok(Seq::empty()),
    }
}

/// What is to be resolved for an edge to be made, or why it cannot be.
pub open spec fn edge_plan(
    g: GraphView,
    kinds: Kinds,
    from: SocketRefView,
    to: SocketRefView,
) -> Result<Seq<(Spot, ValueType)>, GraphErrorView> {
    match g.definition(kinds, from.node) {
        Err(e) => Err(e),
        Ok(fd) => match fd.output(from.socket) {
            None => Err(
                GraphErrorView::UnknownSocket { socket: from, direction: Direction::Output },
            ),
            Some(out) => match g.definition(kinds, to.node) {
                Err(e) => Err(e),
                Ok(td) => match td.input(to.socket) {
                    None => Err(
                        GraphErrorView::UnknownSocket { socket: to, direction: Direction::Input },
                    ),
                    Some(inp) => if inp.constant {
                        Err(GraphErrorView::ConstantInput { socket: to })
                    } else {
                        agreement(g, kinds, from, to, out, inp)
                    },
                },
            },
        },
    }
}

/// The graph once the first `n` of these were resolved, one after the other.
pub open spec fn resolve_all(
    g: GraphView,
    kinds: Kinds,
    plan: Seq<(Spot, ValueType)>,
    n: int,
) -> GraphView
    decreases n,
{
    if n <= 0 {
        g
    } else {
        typing::resolved(resolve_all(g, kinds, plan, n - 1), kinds, plan[n - 1].0, plan[n - 1].1)
    }
}

/// The graph with one edge more.
pub open spec fn with_edge(g: GraphView, from: SocketRefView, to: SocketRefView) -> GraphView {
    GraphView { edges: g.edges.push(EdgeView { from, to }), ..g }
}

/// The graph once an output feeds an input, or why it cannot.
pub open spec fn connected(
    g: GraphView,
    kinds: Kinds,
    from: SocketRefView,
    to: SocketRefView,
) -> Result<GraphView, GraphErrorView> {
    match edge_plan(g, kinds, from, to) {
        Err(e) => Err(e),
        Ok(plan) => if g.edge_into(to) is Some {
            Err(GraphErrorView::InputAlreadyConnected { socket: to })
        } else if traversal::reaches(g.edges, to.node, from.node) {
            Err(GraphErrorView::WouldCycle { from, to })
        } else {
            Ok(resolve_all(with_edge(g, from, to), kinds, plan, plan.len() as int))
        },
    }
}

/// The resolutions that a plan makes, with the node and the type in each.
fn plan_for(node: NodeId, names: Vec<String>, ty: ValueType) -> (r: Vec<
    (NodeId, String, ValueType),
>)
    ensures
        planned(r@) == each_to(node, Some(text::seq_of(names@)), ty),
{
    let ghost s = text::seq_of(names@);
    let mut plan: Vec<(NodeId, String, ValueType)> = Vec::new();
    let mut i: usize = 0;
    while i < names.len()
        invariant
            i <= s.len() == names@.len(),
            s == text::seq_of(names@),
            plan@.len() == i,
            forall|j: int|
                0 <= j < i ==> (#[trigger] plan@[j]).0 == node && plan@[j].1@ == s[j] && plan@[j].2
                    == ty,
        decreases s.len() - i,
    {
        plan.push((node, names[i].clone(), ty));
        i += 1;
    }
    assert(planned(plan@) =~= each_to(node, Some(s), ty));
    plan
}

/// What a list of resolutions stands for.
spec fn planned(s: Seq<(NodeId, String, ValueType)>) -> Seq<(Spot, ValueType)> {
    Seq::new(s.len(), |i: int| ((s[i].0, s[i].1@), s[i].2))
}

impl Graph {
    /// What is to be resolved for two sockets to agree about a type.
    fn plan_agreement(
        &self,
        registry: &NodeRegistry,
        from: &SocketRef,
        to: &SocketRef,
        out: &Socket,
        inp: &Socket,
        from_def: &NodeDefinition,
        to_def: &NodeDefinition,
    ) -> (r: Result<Vec<(NodeId, String, ValueType)>, GraphError>)
        requires
            from_def@ == self@.kind(registry@, from@.node),
            to_def@ == self@.kind(registry@, to@.node),
        ensures
            match (r, agreement(self@, registry@, from@, to@, out@, inp@)) {
                (Ok(v), Ok(s)) => planned(v@) == s,
                (Err(e), Err(v)) => e@ == v,
                _ => false,
            },
    {
        let produced = self.effective_type(from.node, out);
        let expected = self.effective_type(to.node, inp);
        let empty: Vec<(NodeId, String, ValueType)> = Vec::new();
        assert(planned(empty@) =~= Seq::empty());
        match (produced, expected) {
            (Some(p), Some(e)) => {
                if p == e {
                    return Ok(empty);
                }
                match self.plan_retype(registry, to.node, to_def, inp, p) {
                    Some(names) => Ok(plan_for(to.node, names, p)),
                    None => match self.plan_retype(registry, from.node, from_def, out, e) {
                        Some(names) => Ok(plan_for(from.node, names, e)),
                        None => Err(
                            GraphError::TypeMismatch {
                                from: from.clone(),
                                to: to.clone(),
                                produced: p,
                                expected: e,
                            },
                        ),
                    },
                }
            },
            (Some(p), None) => match self.plan_retype(registry, to.node, to_def, inp, p) {
                Some(names) => Ok(plan_for(to.node, names, p)),
                None => Ok(empty),
            },
            (None, Some(e)) => match self.plan_retype(registry, from.node, from_def, out, e) {
                Some(names) => Ok(plan_for(from.node, names, e)),
                None => Ok(empty),
            },
            (None, None) => Ok(empty),
        }
    }

    /// What is to be resolved for an edge to be made, or why it cannot be.
    fn plan_edge(&self, registry: &NodeRegistry, from: &SocketRef, to: &SocketRef) -> (r: Result<
        Vec<(NodeId, String, ValueType)>,
        GraphError,
    >)
        ensures
            match (r, edge_plan(self@, registry@, from@, to@)) {
                (Ok(v), Ok(s)) => planned(v@) == s,
                (Err(e), Err(v)) => e@ == v,
                _ => false,
            },
    {
        let from_def = match self.definition(registry, from.node) {
            Ok(d) => d,
            Err(e) => {
                return Err(e);
            },
        };
        let out = match from_def.output(from.socket.as_str()) {
            Some(s) => s,
            None => {
                return Err(
                    GraphError::UnknownSocket {
                        socket: from.clone(),
                        direction: Direction::Output,
                    },
                );
            },
        };
        let to_def = match self.definition(registry, to.node) {
            Ok(d) => d,
            Err(e) => {
                return Err(e);
            },
        };
        let inp = match to_def.input(to.socket.as_str()) {
            Some(s) => s,
            None => {
                return Err(
                    GraphError::UnknownSocket { socket: to.clone(), direction: Direction::Input },
                );
            },
        };
        if inp.constant {
            return Err(GraphError::ConstantInput { socket: to.clone() });
        }
        self.plan_agreement(registry, from, to, out, inp, from_def, to_def)
    }

    /// Let an output feed an input. Where the two differ in type, a type
    /// parameter that no other wire backs gives way. On an error the graph
    /// stays as it was.
    pub fn connect(&mut self, registry: &NodeRegistry, from: SocketRef, to: SocketRef) -> (r:
        Result<(), GraphError>)
        ensures
            match (r, connected(old(self)@, registry@, from@, to@)) {
                (Ok(_), Ok(g)) => final(self)@ == g,
                (Err(e), Err(v)) => e@ == v && final(self)@ == old(self)@,
                _ => false,
            },
    {
        let plan = match self.plan_edge(registry, &from, &to) {
            Ok(p) => p,
            Err(e) => {
                return Err(e);
            },
        };
        if self.edge_into(&to).is_some() {
            return Err(GraphError::InputAlreadyConnected { socket: to });
        }
        if self.reaches(to.node, from.node) {
            return Err(GraphError::WouldCycle { from, to });
        }
        let ghost g = with_edge(self@, from@, to@);
        let ghost list = planned(plan@);
        let ghost before = self.edges@;
        self.edges.push(Edge { from, to });
        assert(text::seq_of(self.edges@) =~= g.edges);
        let mut i: usize = 0;
        while i < plan.len()
            invariant
                i <= list.len() == plan@.len(),
                list == planned(plan@),
                self@ == resolve_all(g, registry@, list, i as int),
            decreases list.len() - i,
        {
            let (node, param, ty) = &plan[i];
            assert(list[i as int] == ((*node, param@), *ty));
            self.resolve_generic(registry, *node, param.as_str(), *ty);
            i += 1;
        }
        Ok(())
    }

    /// Let an output feed an input, both by the names of their sockets.
    pub fn wire(&mut self, registry: &NodeRegistry, from: (NodeId, &str), to: (NodeId, &str)) -> (r:
        Result<(), GraphError>)
        ensures
            match (
                r,
                connected(
                    old(self)@,
                    registry@,
                    SocketRefView { node: from.0, socket: from.1@ },
                    SocketRefView { node: to.0, socket: to.1@ },
                ),
            ) {
                (Ok(_), Ok(g)) => final(self)@ == g,
                (Err(e), Err(v)) => e@ == v && final(self)@ == old(self)@,
                _ => false,
            },
    {
        self.connect(registry, SocketRef::new(from.0, from.1), SocketRef::new(to.0, to.1))
    }
}

/// The first `n` type parameters of a node that an edge still has a say in,
/// with what they resolved to.
pub open spec fn kept_types(g: GraphView, d: NodeDefinitionView, node: NodeId, n: int) -> Seq<
    (Seq<char>, ValueType),
>
    decreases n,
{
    if n <= 0 {
        Seq::empty()
    } else {
        let before = kept_types(g, d, node, n - 1);
        let name = d.generics[n - 1].name;
        match graph::generic_of(g, node, name) {
            Some(ty) => if typing::param_has_edge(g, d, node, name) {
                before.push((name, ty))
            } else {
                before
            },
            None => before,
        }
    }
}

/// The first `n` of these types, by name.
pub open spec fn types_by_name(s: Seq<(Seq<char>, ValueType)>, n: int) -> Map<
    Seq<char>,
    ValueType,
>
    decreases n,
{
    if n <= 0 {
        Map::empty()
    } else {
        types_by_name(s, n - 1).insert(s[n - 1].0, s[n - 1].1)
    }
}

/// The graph once the first `n` of these parameters of a node were resolved.
pub open spec fn resolve_names(
    g: GraphView,
    kinds: Kinds,
    node: NodeId,
    names: Seq<Seq<char>>,
    ty: ValueType,
    n: int,
) -> GraphView
    decreases n,
{
    if n <= 0 {
        g
    } else {
        typing::resolved(resolve_names(g, kinds, node, names, ty, n - 1), kinds, (node, names[n - 1]), ty)
    }
}

/// The graph once what starts out like a parameter was resolved.
pub open spec fn seeded(
    g: GraphView,
    kinds: Kinds,
    d: NodeDefinitionView,
    node: NodeId,
    param: Seq<char>,
    ty: ValueType,
) -> GraphView {
    let names = typing::all_companions(g, d, node, param, ty);
    resolve_names(g, kinds, node, names, ty, names.len() as int)
}

/// The graph once what starts out like the first `n` of these was resolved.
pub open spec fn seed_all(
    g: GraphView,
    kinds: Kinds,
    d: NodeDefinitionView,
    node: NodeId,
    kept: Seq<(Seq<char>, ValueType)>,
    n: int,
) -> GraphView
    decreases n,
{
    if n <= 0 {
        g
    } else {
        seeded(
            seed_all(g, kinds, d, node, kept, n - 1),
            kinds,
            d,
            node,
            kept[n - 1].0,
            kept[n - 1].1,
        )
    }
}

/// A node with these resolutions in place of its own.
pub open spec fn with_generics(
    g: GraphView,
    node: NodeId,
    generics: Map<Seq<char>, ValueType>,
) -> GraphView {
    typing::with_node(g, node, NodeView { generics, ..g.nodes[node] })
}

/// The graph once every type parameter of a node that is not resolved is of
/// the first type it allows.
pub open spec fn defaulted(g: GraphView, d: NodeDefinitionView, node: NodeId) -> GraphView {
    with_generics(g, node, d.default_generics().union_prefer_right(g.nodes[node].generics))
}

/// The graph once a node forgot what no edge of it backs any more: what an
/// edge has a say in stays, what starts out like it is resolved anew, the rest
/// starts from the first type allowed, and the pinned values follow.
pub open spec fn refreshed(g: GraphView, kinds: Kinds, node: NodeId) -> GraphView {
    if g.known(kinds, node) {
        let d = g.kind(kinds, node);
        let kept = kept_types(g, d, node, d.generics.len() as int);
        let trimmed_down = with_generics(g, node, types_by_name(kept, kept.len() as int));
        let again = seed_all(trimmed_down, kinds, d, node, kept, kept.len() as int);
        typing::retyped(defaulted(again, d, node), kinds, node)
    } else {
        g
    }
}

/// Forgetting changes nothing but types and pinned values.
pub(crate) proof fn lemma_resolve_names(
    g: GraphView,
    kinds: Kinds,
    node: NodeId,
    names: Seq<Seq<char>>,
    ty: ValueType,
    n: int,
)
    ensures
        typing::same_but_types(g, resolve_names(g, kinds, node, names, ty, n)),
    decreases n,
{
    if n > 0 {
        lemma_resolve_names(g, kinds, node, names, ty, n - 1);
        let h = resolve_names(g, kinds, node, names, ty, n - 1);
        typing::resolving_changes_types_only(h, kinds, (node, names[n - 1]), ty);
        typing::lemma_same_but_types_across(g, h, resolve_names(g, kinds, node, names, ty, n));
    }
}

proof fn lemma_seed_all(
    g: GraphView,
    kinds: Kinds,
    d: NodeDefinitionView,
    node: NodeId,
    kept: Seq<(Seq<char>, ValueType)>,
    n: int,
)
    ensures
        typing::same_but_types(g, seed_all(g, kinds, d, node, kept, n)),
    decreases n,
{
    if n > 0 {
        lemma_seed_all(g, kinds, d, node, kept, n - 1);
        let h = seed_all(g, kinds, d, node, kept, n - 1);
        let names = typing::all_companions(h, d, node, kept[n - 1].0, kept[n - 1].1);
        lemma_resolve_names(h, kinds, node, names, kept[n - 1].1, names.len() as int);
        typing::lemma_same_but_types_across(g, h, seed_all(g, kinds, d, node, kept, n));
    }
}

proof fn lemma_with_generics(g: GraphView, node: NodeId, generics: Map<Seq<char>, ValueType>)
    requires
        g.nodes.contains_key(node),
    ensures
        typing::same_but_types(g, with_generics(g, node, generics)),
{
    typing::lemma_with_node(g, node, NodeView { generics, ..g.nodes[node] });
}

pub(crate) proof fn lemma_refreshed(g: GraphView, kinds: Kinds, node: NodeId)
    ensures
        typing::same_but_types(g, refreshed(g, kinds, node)),
{
    if g.known(kinds, node) {
        let d = g.kind(kinds, node);
        let kept = kept_types(g, d, node, d.generics.len() as int);
        let t = types_by_name(kept, kept.len() as int);
        let g1 = with_generics(g, node, t);
        lemma_with_generics(g, node, t);
        let g2 = seed_all(g1, kinds, d, node, kept, kept.len() as int);
        lemma_seed_all(g1, kinds, d, node, kept, kept.len() as int);
        typing::lemma_same_but_types_across(g, g1, g2);
        assert(g2.nodes.dom().contains(node));
        let all = d.default_generics().union_prefer_right(g2.nodes[node].generics);
        lemma_with_generics(g2, node, all);
        let g3 = defaulted(g2, d, node);
        typing::lemma_same_but_types_across(g, g2, g3);
        typing::lemma_retyped(g3, kinds, node);
        typing::lemma_same_but_types_across(g, g3, typing::retyped(g3, kinds, node));
    }
}

/// A change of types leaves every kind in use as it was.
proof fn lemma_defaults_exist(g: GraphView, h: GraphView, kinds: Kinds)
    requires
        typing::same_but_types(g, h),
        g.defaults_exist(kinds),
    ensures
        h.defaults_exist(kinds),
{
    typing::lemma_known(g, h, kinds);
    assert forall|id: NodeId, i: int|
        #![trigger h.kind(kinds, id).generics[i]]
        h.known(kinds, id) && 0 <= i < h.kind(kinds, id).generics.len() implies h.kind(
        kinds,
        id,
    ).generics[i].allowed.len() > 0 by {
        assert(g.known(kinds, id));
        assert(h.kind(kinds, id) == g.kind(kinds, id));
        assert(g.kind(kinds, id).generics[i].allowed.len() > 0);
    }
}

impl Graph {
    /// Resolve what starts out like a parameter of a node.
    fn seed_companions(
        &mut self,
        registry: &NodeRegistry,
        def: &NodeDefinition,
        node: NodeId,
        param: &str,
        ty: ValueType,
    )
        ensures
            final(self)@ == seeded(old(self)@, registry@, def@, node, param@, ty),
    {
        let ghost g = self@;
        let names = self.seedable_companions(def, node, param, ty);
        let ghost list = text::seq_of(names@);
        let mut i: usize = 0;
        while i < names.len()
            invariant
                i <= list.len() == names@.len(),
                list == text::seq_of(names@),
                self@ == resolve_names(g, registry@, node, list, ty, i as int),
            decreases list.len() - i,
        {
            assert(list[i as int] == names@[i as int]@);
            self.resolve_generic(registry, node, names[i].as_str(), ty);
            i += 1;
        }
    }

    /// Let every type parameter of a node that is not resolved be of the first
    /// type it allows.
    fn fill_defaults(&mut self, def: &NodeDefinition, node: NodeId)
        requires
            old(self)@.nodes.contains_key(node),
            forall|i: int|
                0 <= i < def@.generics.len() ==> (#[trigger] def@.generics[i]).allowed.len() > 0,
        ensures
            final(self)@ == defaulted(old(self)@, def@, node),
    {
        let ghost g = self@;
        let mut instance = match self.nodes.get(node) {
            Some(n) => n.clone(),
            None => {
                return;
            },
        };
        let mut all = def.default_generics();
        let ghost start = all@;
        let ghost own = instance.generics@;
        let n: usize = instance.generics.len();
        let ghost keys = textmap::in_order(own.dom());
        let mut i: usize = 0;
        assert(all@ =~= start);
        while i < n
            invariant
                i <= n == keys.len(),
                own == instance.generics@,
                keys == textmap::in_order(own.dom()),
                textmap::lists(keys, own.dom()),
                forall|k: Seq<char>| #[trigger]
                    all@.contains_key(k) <==> start.contains_key(k) || keys.take(
                        i as int,
                    ).contains(k),
                forall|k: Seq<char>|
                    keys.take(i as int).contains(k) ==> #[trigger] all@[k] == own[k],
                forall|k: Seq<char>|
                    !keys.take(i as int).contains(k) && start.contains_key(k)
                        ==> #[trigger] all@[k] == start[k],
            decreases n - i,
        {
            let key = instance.generics.key_at(i);
            let value = *instance.generics.value_at(i);
            all.insert(key.to_owned(), value);
            proof {
                let t0 = keys.take(i as int);
                let t1 = keys.take(i + 1);
                assert(t1 =~= t0.push(keys[i as int]));
                assert forall|k: Seq<char>| t1.contains(k) <==> t0.contains(k) || k
                    == keys[i as int] by {
                    if t1.contains(k) {
                        let j = choose|j: int| 0 <= j < t1.len() && t1[j] == k;
                        if j < t0.len() {
                            assert(t0[j] == k);
                        }
                    }
                    if t0.contains(k) {
                        let j = choose|j: int| 0 <= j < t0.len() && t0[j] == k;
                        assert(t1[j] == k);
                    }
                    assert(t1[t0.len() as int] == keys[i as int]);
                }
            }
            i += 1;
        }
        proof {
            assert(keys.take(keys.len() as int) =~= keys);
            assert forall|k: Seq<char>| keys.contains(k) <==> own.contains_key(k) by {
                assert(own.dom().contains(k) <==> keys.contains(k));
            }
            assert(all@ =~= start.union_prefer_right(own));
        }
        instance.generics = all;
        self.nodes.replace(node, instance);
    }

    /// Let a node forget what no edge of it backs any more.
    pub(crate) fn refresh_generics(&mut self, registry: &NodeRegistry, node: NodeId)
        requires
            old(self)@.defaults_exist(registry@),
        ensures
            final(self)@ == refreshed(old(self)@, registry@, node),
            typing::same_but_types(old(self)@, final(self)@),
            final(self)@.defaults_exist(registry@),
    {
        let ghost g = self@;
        proof {
            lemma_refreshed(g, registry@, node);
            lemma_defaults_exist(g, refreshed(g, registry@, node), registry@);
        }
        let def = match self.definition(registry, node) {
            Ok(d) => d,
            Err(_) => {
                return;
            },
        };
        let ghost d = def@;
        let mut instance = match self.nodes.get(node) {
            Some(n) => n.clone(),
            None => {
                return;
            },
        };
        let mut kept: Vec<(String, ValueType)> = Vec::new();
        let mut types: TextMap<ValueType> = TextMap::new();
        let mut i: usize = 0;
        assert(text::seq_of(kept@) =~= kept_types(g, d, node, 0));
        assert(types@ =~= types_by_name(text::seq_of(kept@), 0));
        while i < def.generics.len()
            invariant
                i <= d.generics.len() == def.generics@.len(),
                d == def@,
                g == self@,
                d.generics == text::seq_of(def.generics@),
                text::seq_of(kept@) == kept_types(g, d, node, i as int),
            decreases d.generics.len() - i,
        {
            let name = def.generics[i].name.as_str();
            assert(d.generics[i as int] == def.generics@[i as int]@);
            if self.param_has_an_edge(def, node, name) {
                match self.generic_type(node, name) {
                    Some(ty) => {
                        let ghost before = kept@;
                        kept.push((name.to_owned(), ty));
                        assert(text::seq_of(kept@) =~= text::seq_of(before).push((name@, ty)));
                    },
                    None => {},
                }
            }
            i += 1;
        }
        let ghost list = text::seq_of(kept@);
        let mut i: usize = 0;
        while i < kept.len()
            invariant
                i <= list.len() == kept@.len(),
                list == text::seq_of(kept@),
                types@ == types_by_name(list, i as int),
            decreases list.len() - i,
        {
            let (name, ty) = &kept[i];
            assert(list[i as int] == (name@, *ty));
            types.insert(name.clone(), *ty);
            i += 1;
        }
        instance.generics = types;
        let ghost changed = instance@;
        self.nodes.replace(node, instance);
        let ghost g1 = self@;
        assert(g1 == with_generics(g, node, types_by_name(list, list.len() as int)));
        let mut i: usize = 0;
        while i < kept.len()
            invariant
                i <= list.len() == kept@.len(),
                list == text::seq_of(kept@),
                d == def@,
                self@ == seed_all(g1, registry@, d, node, list, i as int),
            decreases list.len() - i,
        {
            let (name, ty) = &kept[i];
            assert(list[i as int] == (name@, *ty));
            self.seed_companions(registry, def, node, name.as_str(), *ty);
            i += 1;
        }
        proof {
            lemma_with_generics(g, node, changed.generics);
            lemma_seed_all(g1, registry@, d, node, list, list.len() as int);
            assert(g1.nodes.dom().contains(node));
            assert(self@.nodes.dom().contains(node));
            assert(d == g.kind(registry@, node));
            assert forall|i: int| 0 <= i < d.generics.len() implies (
            #[trigger] d.generics[i]).allowed.len() > 0 by {
                assert(g.kind(registry@, node).generics[i].allowed.len() > 0);
            }
        }
        self.fill_defaults(def, node);
        self.retype_params(registry, node);
    }
}

/// The first position from `i` on of an edge into an input.
pub open spec fn edge_index(edges: Seq<EdgeView>, input: SocketRefView, i: int) -> Option<int>
    decreases edges.len() - i,
{
    if i >= edges.len() {
        None
    } else if edges[i].to == input {
        Some(i)
    } else {
        edge_index(edges, input, i + 1)
    }
}

/// The graph without the edge into an input, and that edge: both its ends
/// forget what it alone backed.
pub open spec fn disconnected(g: GraphView, kinds: Kinds, input: SocketRefView) -> (
    GraphView,
    Option<EdgeView>,
) {
    match edge_index(g.edges, input, 0) {
        Some(i) => {
            let e = g.edges[i];
            let cut = GraphView { edges: g.edges.remove(i), ..g };
            (refreshed(refreshed(cut, kinds, e.to.node), kinds, e.from.node), Some(e))
        },
        None => (g, None),
    }
}

/// The graph without the edges into the first `n` of these inputs, and those
/// edges.
pub open spec fn disconnect_all(
    g: GraphView,
    kinds: Kinds,
    inputs: Seq<SocketRefView>,
    n: int,
) -> (GraphView, Seq<EdgeView>)
    decreases n,
{
    if n <= 0 {
        (g, Seq::empty())
    } else {
        let (h, edges) = disconnect_all(g, kinds, inputs, n - 1);
        match disconnected(h, kinds, inputs[n - 1]) {
            (k, Some(e)) => (k, edges.push(e)),
            (k, None) => (k, edges),
        }
    }
}

/// The type at one end of an edge, where there is such an end and its type is
/// settled.
pub open spec fn settled_at(
    g: GraphView,
    kinds: Kinds,
    place: SocketRefView,
    direction: Direction,
) -> Option<ValueType> {
    match typing::type_at(g, kinds, place, direction) {
        Ok(t) => t,
        Err(_) => None,
    }
}

/// The wired inputs among the first `n` that would no longer be of the type
/// that feeds them, were the types of the node's parameters these.
pub open spec fn misfed(
    g: GraphView,
    kinds: Kinds,
    node: NodeId,
    inputs: Seq<SocketView>,
    param: Seq<char>,
    types: Map<Seq<char>, ValueType>,
    n: int,
) -> Seq<SocketRefView>
    decreases n,
{
    if n <= 0 {
        Seq::empty()
    } else {
        let before = misfed(g, kinds, node, inputs, param, types, n - 1);
        let s = inputs[n - 1];
        match g.edge_into(typing::at(node, s)) {
            Some(e) => if node::references(s, param) && settled_at(g, kinds, e.from, Direction::Output)
                != graph::effective_of(s, types) {
                before.push(typing::at(node, s))
            } else {
                before
            },
            None => before,
        }
    }
}

/// What the first `m` edges carry an output to, where it is not of the type
/// the output would be of.
pub open spec fn misled(
    acc: Seq<SocketRefView>,
    g: GraphView,
    kinds: Kinds,
    output: SocketRefView,
    ty: Option<ValueType>,
    m: int,
) -> Seq<SocketRefView>
    decreases m,
{
    if m <= 0 {
        acc
    } else {
        let before = misled(acc, g, kinds, output, ty, m - 1);
        let e = g.edges[m - 1];
        if e.from == output && settled_at(g, kinds, e.to, Direction::Input) != ty {
            before.push(e.to)
        } else {
            before
        }
    }
}

/// The inputs that the first `n` outputs feed and would no longer be of the
/// type of.
pub open spec fn misfeeding(
    acc: Seq<SocketRefView>,
    g: GraphView,
    kinds: Kinds,
    node: NodeId,
    outputs: Seq<SocketView>,
    param: Seq<char>,
    types: Map<Seq<char>, ValueType>,
    n: int,
) -> Seq<SocketRefView>
    decreases n,
{
    if n <= 0 {
        acc
    } else {
        let before = misfeeding(acc, g, kinds, node, outputs, param, types, n - 1);
        let s = outputs[n - 1];
        if node::references(s, param) {
            misled(
                before,
                g,
                kinds,
                typing::at(node, s),
                graph::effective_of(s, types),
                g.edges.len() as int,
            )
        } else {
            before
        }
    }
}

/// The inputs whose edges no longer fit once a parameter of a node is of a
/// type.
pub open spec fn misfits(
    g: GraphView,
    kinds: Kinds,
    node: NodeId,
    param: Seq<char>,
    ty: ValueType,
) -> Seq<SocketRefView> {
    let d = g.kind(kinds, node);
    let types = g.nodes[node].generics.insert(param, ty);
    misfeeding(
        misfed(g, kinds, node, d.inputs, param, types, d.inputs.len() as int),
        g,
        kinds,
        node,
        d.outputs,
        param,
        types,
        d.outputs.len() as int,
    )
}

/// The types that a parameter of a kind of node allows; none where it has no
/// such parameter.
pub open spec fn allowed_types(d: NodeDefinitionView, param: Seq<char>) -> Seq<ValueType> {
    match d.generic(param) {
        Some(p) => p.allowed,
        None => Seq::empty(),
    }
}

/// The graph once a parameter of a node was picked to be of a type, and the
/// edges that no longer fitted; or why it cannot be.
pub open spec fn repinned(
    g: GraphView,
    kinds: Kinds,
    node: NodeId,
    param: Seq<char>,
    ty: ValueType,
) -> Result<(GraphView, Seq<EdgeView>), GraphErrorView> {
    match g.definition(kinds, node) {
        Err(e) => Err(e),
        Ok(d) => {
            let allowed = allowed_types(d, param);
            if allowed.contains(ty) {
                let list = misfits(g, kinds, node, param, ty);
                let (cut, edges) = disconnect_all(g, kinds, list, list.len() as int);
                let picked = typing::with_generic(cut, (node, param), ty);
                let spread = seeded(picked, kinds, d, node, param, ty);
                Ok((typing::retyped(spread, kinds, node), edges))
            } else {
                Err(GraphErrorView::InvalidGenericType { node, param, ty, allowed })
            }
        },
    }
}

/// Two graphs of the same nodes, which can differ in edges, types and pinned
/// values.
pub open spec fn same_nodes(g: GraphView, h: GraphView) -> bool {
    typing::same_but_types(GraphView { edges: h.edges, ..g }, h)
}

proof fn lemma_disconnected(g: GraphView, kinds: Kinds, input: SocketRefView)
    requires
        g.defaults_exist(kinds),
    ensures
        same_nodes(g, disconnected(g, kinds, input).0),
        disconnected(g, kinds, input).0.defaults_exist(kinds),
{
    match edge_index(g.edges, input, 0) {
        Some(i) => {
            let e = g.edges[i];
            let cut = GraphView { edges: g.edges.remove(i), ..g };
            lemma_refreshed(cut, kinds, e.to.node);
            let h = refreshed(cut, kinds, e.to.node);
            lemma_refreshed(h, kinds, e.from.node);
            let k = refreshed(h, kinds, e.from.node);
            typing::lemma_same_but_types_across(cut, h, k);
            assert(cut.defaults_exist(kinds)) by {
                assert forall|id: NodeId, i: int|
                    #![trigger cut.kind(kinds, id).generics[i]]
                    cut.known(kinds, id) && 0 <= i < cut.kind(
                        kinds,
                        id,
                    ).generics.len() implies cut.kind(kinds, id).generics[i].allowed.len() > 0 by {
                    assert(g.kind(kinds, id).generics[i].allowed.len() > 0);
                }
            }
            lemma_defaults_exist(cut, k, kinds);
        },
        None => {},
    }
}

pub(crate) proof fn lemma_same_nodes_across(a: GraphView, b: GraphView, c: GraphView)
    requires
        same_nodes(a, b),
        same_nodes(b, c),
    ensures
        same_nodes(a, c),
{
    let a1 = GraphView { edges: c.edges, ..a };
    let b1 = GraphView { edges: c.edges, ..b };
    assert(typing::same_but_types(a1, b1));
    typing::lemma_same_but_types_across(a1, b1, c);
}

impl Graph {
    /// Drop the edge into an input, answering it. Both its ends forget what it
    /// alone backed.
    pub fn disconnect(&mut self, registry: &NodeRegistry, input: &SocketRef) -> (r: Option<Edge>)
        requires
            old(self)@.defaults_exist(registry@),
        ensures
            (final(self)@, text::opt_of(r)) == disconnected(old(self)@, registry@, input@),
            same_nodes(old(self)@, final(self)@),
            final(self)@.defaults_exist(registry@),
    {
        let ghost g = self@;
        proof {
            lemma_disconnected(g, registry@, input@);
        }
        let mut i: usize = 0;
        while i < self.edges.len()
            invariant
                i <= g.edges.len() == self.edges@.len(),
                g == self@,
                g.edges == text::seq_of(self.edges@),
                edge_index(g.edges, input@, 0) == edge_index(g.edges, input@, i as int),
                g == old(self)@,
                g.defaults_exist(registry@),
                same_nodes(g, disconnected(g, registry@, input@).0),
                disconnected(g, registry@, input@).0.defaults_exist(registry@),
            decreases g.edges.len() - i,
        {
            assert(g.edges[i as int] == self.edges@[i as int]@);
            if self.edges[i].to.same(input) {
                let edge = self.edges.remove(i);
                let ghost cut = GraphView { edges: g.edges.remove(i as int), ..g };
                proof {
                    assert(text::seq_of(self.edges@) =~= g.edges.remove(i as int));
                    assert forall|id: NodeId, i: int|
                        #![trigger cut.kind(registry@, id).generics[i]]
                        cut.known(registry@, id) && 0 <= i < cut.kind(
                            registry@,
                            id,
                        ).generics.len() implies cut.kind(registry@, id).generics[i].allowed.len()
                        > 0 by {
                        assert(g.kind(registry@, id).generics[i].allowed.len() > 0);
                    }
                }
                self.refresh_generics(registry, edge.to.node);
                self.refresh_generics(registry, edge.from.node);
                return Some(edge);
            }
            i += 1;
        }
        None
    }

    /// The wired inputs of a node that would no longer be of the type that
    /// feeds them, were the types of its parameters these.
    fn find_misfed(
        &self,
        registry: &NodeRegistry,
        def: &NodeDefinition,
        node: NodeId,
        param: &str,
        types: &TextMap<ValueType>,
    ) -> (r: Vec<SocketRef>)
        ensures
            text::seq_of(r@) == misfed(
                self@,
                registry@,
                node,
                def@.inputs,
                param@,
                types@,
                def@.inputs.len() as int,
            ),
    {
        let ghost g = self@;
        let ghost inputs = def@.inputs;
        let mut list: Vec<SocketRef> = Vec::new();
        let mut i: usize = 0;
        assert(text::seq_of(list@) =~= misfed(g, registry@, node, inputs, param@, types@, 0));
        while i < def.inputs.len()
            invariant
                i <= inputs.len() == def.inputs@.len(),
                g == self@,
                inputs == text::seq_of(def.inputs@),
                text::seq_of(list@) == misfed(
                    g,
                    registry@,
                    node,
                    inputs,
                    param@,
                    types@,
                    i as int,
                ),
            decreases inputs.len() - i,
        {
            let socket = &def.inputs[i];
            assert(inputs[i as int] == socket@);
            let reference = SocketRef::new(node, socket.name.as_str());
            assert(reference@ == typing::at(node, socket@));
            if socket.references_param(param) {
                match self.edge_into(&reference) {
                    Some(edge) => {
                        let other = match self.socket_type(
                            registry,
                            &edge.from,
                            Direction::Output,
                        ) {
                            Ok(t) => t,
                            Err(_) => None,
                        };
                        if other != effective_type_of(socket, types) {
                            let ghost before = list@;
                            list.push(reference);
                            assert(text::seq_of(list@) =~= text::seq_of(before).push(typing::at(node, socket@)));
                        }
                    },
                    None => {},
                }
            }
            i += 1;
        }
        list
    }

    /// Add the inputs that a node feeds and that would no longer be of the
    /// type of what feeds them, were the types of its parameters these.
    fn find_misfeeding(
        &self,
        registry: &NodeRegistry,
        def: &NodeDefinition,
        node: NodeId,
        param: &str,
        types: &TextMap<ValueType>,
        list: &mut Vec<SocketRef>,
    )
        ensures
            text::seq_of(final(list)@) == misfeeding(
                text::seq_of(old(list)@),
                self@,
                registry@,
                node,
                def@.outputs,
                param@,
                types@,
                def@.outputs.len() as int,
            ),
    {
        let ghost g = self@;
        let ghost outputs = def@.outputs;
        let ghost start = text::seq_of(list@);
        let mut i: usize = 0;
        while i < def.outputs.len()
            invariant
                i <= outputs.len() == def.outputs@.len(),
                g == self@,
                outputs == text::seq_of(def.outputs@),
                text::seq_of(list@) == misfeeding(
                    start,
                    g,
                    registry@,
                    node,
                    outputs,
                    param@,
                    types@,
                    i as int,
                ),
            decreases outputs.len() - i,
        {
            let socket = &def.outputs[i];
            assert(outputs[i as int] == socket@);
            if socket.references_param(param) {
                let ty = effective_type_of(socket, types);
                let ghost base = text::seq_of(list@);
                let ghost place = typing::at(node, socket@);
                let mut k: usize = 0;
                while k < self.edges.len()
                    invariant
                        k <= g.edges.len() == self.edges@.len(),
                        g == self@,
                        g.edges == text::seq_of(self.edges@),
                        place == typing::at(node, socket@),
                        text::seq_of(list@) == misled(base, g, registry@, place, ty, k as int),
                    decreases g.edges.len() - k,
                {
                    let edge = &self.edges[k];
                    assert(g.edges[k as int] == edge@);
                    if edge.from.is(node, socket.name.as_str()) {
                        let other = match self.socket_type(registry, &edge.to, Direction::Input) {
                            Ok(t) => t,
                            Err(_) => None,
                        };
                        if other != ty {
                            let ghost before = list@;
                            list.push(edge.to.clone());
                            assert(text::seq_of(list@) =~= text::seq_of(before).push(edge@.to));
                        }
                    }
                    k += 1;
                }
            }
            i += 1;
        }
    }

    /// Pick what type a parameter of a node is of, answering the edges that no
    /// longer fitted and are gone.
    pub fn set_generic(
        &mut self,
        registry: &NodeRegistry,
        node: NodeId,
        param: &str,
        ty: ValueType,
    ) -> (r: Result<Vec<Edge>, GraphError>)
        requires
            old(self)@.defaults_exist(registry@),
        ensures
            match (r, repinned(old(self)@, registry@, node, param@, ty)) {
                (Ok(v), Ok(s)) => final(self)@ == s.0 && text::seq_of(v@) == s.1,
                (Err(e), Err(v)) => e@ == v && final(self)@ == old(self)@,
                _ => false,
            },
    {
        let ghost g = self@;
        let ghost kinds = registry@;
        let def = match self.definition(registry, node) {
            Ok(d) => d,
            Err(e) => {
                return Err(e);
            },
        };
        let ghost d = def@;
        let allowed: Vec<ValueType> = match def.generic(param) {
            Some(p) => copy_vec(&p.allowed),
            None => Vec::new(),
        };
        assert(allowed@ =~= allowed_types(d, param@));
        if !contains_type(&allowed, ty) {
            return Err(
                GraphError::InvalidGenericType { node, param: param.to_owned(), ty, allowed },
            );
        }
        let mut types = match self.nodes.get(node) {
            Some(n) => n.generics.copy(),
            None => TextMap::new(),
        };
        types.insert(param.to_owned(), ty);
        let mut list = self.find_misfed(registry, def, node, param, &types);
        self.find_misfeeding(registry, def, node, param, &types, &mut list);
        let ghost inputs = text::seq_of(list@);
        assert(inputs == misfits(g, kinds, node, param@, ty));
        let mut gone: Vec<Edge> = Vec::new();
        let mut i: usize = 0;
        assert(text::seq_of(gone@) =~= Seq::empty());
        while i < list.len()
            invariant
                i <= inputs.len() == list@.len(),
                inputs == text::seq_of(list@),
                kinds == registry@,
                g.defaults_exist(kinds),
                self@.defaults_exist(kinds),
                same_nodes(g, self@),
                (self@, text::seq_of(gone@)) == disconnect_all(g, kinds, inputs, i as int),
            decreases inputs.len() - i,
        {
            let ghost h = self@;
            assert(inputs[i as int] == list@[i as int]@);
            match self.disconnect(registry, &list[i]) {
                Some(edge) => {
                    let ghost before = gone@;
                    gone.push(edge);
                    assert(text::seq_of(gone@) =~= text::seq_of(before).push(edge@));
                },
                None => {},
            }
            proof {
                lemma_same_nodes_across(g, h, self@);
            }
            i += 1;
        }
        let ghost cut = self@;
        assert(cut.nodes.dom().contains(node));
        match self.nodes.get(node) {
            Some(n) => {
                let mut instance = n.clone();
                instance.generics.insert(param.to_owned(), ty);
                self.nodes.replace(node, instance);
            },
            None => {},
        }
        assert(self@ == typing::with_generic(cut, (node, param@), ty));
        self.seed_companions(registry, def, node, param, ty);
        self.retype_params(registry, node);
        Ok(gone)
    }

    /// Add a node with every type parameter resolved: those it does not say
    /// start from the first type allowed, and its pinned values follow.
    pub fn add_resolved(&mut self, registry: &NodeRegistry, node: Node) -> (r: NodeId)
        requires
            old(self)@.next_id < u32::MAX,
            registry@.contains_key(node@.def) ==> forall|i: int|
                0 <= i < registry@[node@.def].generics.len() ==> (
                #[trigger] registry@[node@.def].generics[i]).allowed.len() > 0,
        ensures
            r == NodeId(old(self)@.next_id),
            !old(self)@.nodes.contains_key(r),
            final(self)@ == {
                let g = GraphView {
                    nodes: old(self)@.nodes.insert(r, node@),
                    next_id: (old(self)@.next_id + 1) as u32,
                    ..old(self)@
                };
                if registry@.contains_key(node@.def) {
                    typing::retyped(defaulted(g, registry@[node@.def], r), registry@, r)
                } else {
                    g
                }
            },
    {
        let id = self.add(node);
        match self.definition(registry, id) {
            Ok(def) => {
                self.fill_defaults(def, id);
            },
            Err(_) => {},
        }
        self.retype_params(registry, id);
        id
    }
}

/// The nodes at the other ends of the edges among the first `n` that a node
/// has.
pub open spec fn neighbors(edges: Seq<EdgeView>, id: NodeId, n: int) -> Seq<NodeId>
    decreases n,
{
    if n <= 0 {
        Seq::empty()
    } else {
        let before = neighbors(edges, id, n - 1);
        let e = edges[n - 1];
        if e.from.node != id && e.to.node == id {
            before.push(e.from.node)
        } else if e.from.node == id && e.to.node != id {
            before.push(e.to.node)
        } else {
            before
        }
    }
}

/// The edges among the first `n` that are not on a node.
pub open spec fn edges_apart(edges: Seq<EdgeView>, id: NodeId, n: int) -> Seq<EdgeView>
    decreases n,
{
    if n <= 0 {
        Seq::empty()
    } else {
        let before = edges_apart(edges, id, n - 1);
        if edges[n - 1].from.node != id && edges[n - 1].to.node != id {
            before.push(edges[n - 1])
        } else {
            before
        }
    }
}

/// The graph once the first `n` of these nodes forgot what no edge backs.
pub open spec fn refresh_all(g: GraphView, kinds: Kinds, ids: Seq<NodeId>, n: int) -> GraphView
    decreases n,
{
    if n <= 0 {
        g
    } else {
        refreshed(refresh_all(g, kinds, ids, n - 1), kinds, ids[n - 1])
    }
}

/// The graph without a node and its edges; the nodes at their other ends
/// forget what those alone backed.
pub open spec fn without_node(g: GraphView, kinds: Kinds, id: NodeId) -> GraphView {
    let n = g.edges.len() as int;
    let ids = neighbors(g.edges, id, n);
    let cut = GraphView { nodes: g.nodes.remove(id), edges: edges_apart(g.edges, id, n), ..g };
    refresh_all(cut, kinds, ids, ids.len() as int)
}

impl Graph {
    /// Take a node out, with its edges, answering it. The nodes at their other
    /// ends forget what those alone backed; no node gets another id.
    pub fn remove_node(&mut self, registry: &NodeRegistry, id: NodeId) -> (r: Option<Node>)
        requires
            old(self)@.defaults_exist(registry@),
        ensures
            match r {
                Some(n) => old(self)@.nodes.contains_key(id) && n@ == old(self)@.nodes[id]
                    && final(self)@ == without_node(old(self)@, registry@, id),
                None => !old(self)@.nodes.contains_key(id) && final(self)@ == old(self)@,
            },
    {
        let ghost g = self@;
        let ghost kinds = registry@;
        let node = match self.nodes.remove(id) {
            Some(n) => n,
            None => {
                assert(self@.nodes =~= g.nodes);
                return None;
            },
        };
        let mut ids: Vec<NodeId> = Vec::new();
        let mut kept: Vec<Edge> = Vec::new();
        let mut i: usize = 0;
        assert(text::seq_of(kept@) =~= edges_apart(g.edges, id, 0));
        while i < self.edges.len()
            invariant
                i <= g.edges.len() == self.edges@.len(),
                g.edges == text::seq_of(self.edges@),
                self@ == (GraphView { nodes: g.nodes.remove(id), ..g }),
                ids@ == neighbors(g.edges, id, i as int),
                text::seq_of(kept@) == edges_apart(g.edges, id, i as int),
            decreases g.edges.len() - i,
        {
            let edge = &self.edges[i];
            assert(g.edges[i as int] == edge@);
            let leaves = edge.from.node.0 == id.0;
            let enters = edge.to.node.0 == id.0;
            if !leaves && enters {
                ids.push(edge.from.node);
            } else if leaves && !enters {
                ids.push(edge.to.node);
            }
            if !leaves && !enters {
                let ghost before = kept@;
                kept.push(edge.clone());
                assert(text::seq_of(kept@) =~= text::seq_of(before).push(edge@));
            }
            i += 1;
        }
        self.edges = kept;
        let ghost cut = self@;
        proof {
            assert forall|x: NodeId, i: int|
                #![trigger cut.kind(kinds, x).generics[i]]
                cut.known(kinds, x) && 0 <= i < cut.kind(kinds, x).generics.len() implies cut.kind(
                kinds,
                x,
            ).generics[i].allowed.len() > 0 by {
                assert(g.known(kinds, x));
                assert(g.kind(kinds, x).generics[i].allowed.len() > 0);
            }
        }
        let mut i: usize = 0;
        while i < ids.len()
            invariant
                i <= ids@.len(),
                kinds == registry@,
                self@.defaults_exist(kinds),
                self@ == refresh_all(cut, kinds, ids@, i as int),
            decreases ids@.len() - i,
        {
            self.refresh_generics(registry, ids[i]);
            i += 1;
        }
        Some(node)
    }
}

} // verus!
