//! The ends of a graph, which everything it computes is computed for.

use vstd::prelude::*;

use crate::graph::{AttributeFrequency, Graph, GraphView, Kinds, NodeId};
use crate::idmap::NodeSet;
use crate::node::{NodeBody, NodeBodyView, NodeRegistry, SETTING_NAME};
use crate::text;
use crate::textmap;
use crate::textmap::TextMap;
use crate::traversal;
use crate::wxsl::WxslIdent;

verus! {

/// The kinds of end a graph can have.
#[derive(Clone, Copy, Debug, PartialEq, Eq, PartialOrd, Ord, Hash, Structural)]
pub enum Terminal {
    /// The surface to shade.
    Surface,
    /// What the vertex stage displaces.
    Vertex,
    /// Whether a fragment is dropped.
    Discard,
    /// An interpolant that the graph computes.
    Varying,
}

/// Whether a body is that of an end of this kind.
pub open spec fn ends_as(body: NodeBodyView, kind: Terminal) -> bool {
    match kind {
        Terminal::Surface => body is SurfaceOutput,
        Terminal::Vertex => body is VertexOutput,
        Terminal::Discard => body is DiscardOutput,
        Terminal::Varying => body is VaryingOutput,
    }
}

/// The ends of this kind among the first `n` of these nodes.
pub open spec fn terminals_among(
    g: GraphView,
    kinds: Kinds,
    kind: Terminal,
    ids: Seq<NodeId>,
    n: int,
) -> Seq<NodeId>
    decreases n,
{
    if n <= 0 {
        Seq::empty()
    } else {
        let before = terminals_among(g, kinds, kind, ids, n - 1);
        if g.known(kinds, ids[n - 1]) && ends_as(g.kind(kinds, ids[n - 1]).body, kind) {
            before.push(ids[n - 1])
        } else {
            before
        }
    }
}

/// The ends of this kind, in the order of their ids.
pub open spec fn terminals(g: GraphView, kinds: Kinds, kind: Terminal) -> Seq<NodeId> {
    terminals_among(g, kinds, kind, g.ids(), g.ids().len() as int)
}

/// The one element of a list of one.
pub open spec fn only(s: Seq<NodeId>) -> Option<NodeId> {
    if s.len() == 1 {
        Some(s[0])
    } else {
        None
    }
}

/// The declared interpolant that a node names.
pub open spec fn written_name(g: GraphView, kinds: Kinds, id: NodeId) -> Option<Seq<char>> {
    match g.declared_name(kinds, id, SETTING_NAME@) {
        Some(name) => match g.attribute(name) {
            Some(decl) => if decl.frequency == AttributeFrequency::Computed {
                Some(name)
            } else {
                None
            },
            None => None,
        },
        None => None,
    }
}

/// The first of the first `n` of these nodes to write each interpolant.
pub open spec fn first_writers(g: GraphView, kinds: Kinds, ids: Seq<NodeId>, n: int) -> Map<
    Seq<char>,
    (Seq<char>, NodeId),
>
    decreases n,
{
    if n <= 0 {
        Map::empty()
    } else {
        let before = first_writers(g, kinds, ids, n - 1);
        match written_name(g, kinds, ids[n - 1]) {
            Some(name) => if before.contains_key(name) {
                before
            } else {
                before.insert(name, (name, ids[n - 1]))
            },
            None => before,
        }
    }
}

/// The values of a map, in the order of its keys.
pub open spec fn values_in_order<V>(m: Map<Seq<char>, V>) -> Seq<V> {
    let keys = textmap::in_order(m.dom());
    Seq::new(keys.len(), |i: int| m[keys[i]])
}

/// The ends of a graph.
#[derive(Debug, PartialEq)]
pub struct GraphOutputs {
    /// The node that ends in the surface.
    pub surface: NodeId,
    /// The node that ends in the vertex offset.
    pub vertex: Option<NodeId>,
    /// The node that decides what is dropped.
    pub discard: Option<NodeId>,
    /// The nodes that compute an interpolant, with its name, in the order of
    /// the names.
    pub varyings: Vec<(WxslIdent, NodeId)>,
}

/// What [`GraphOutputs`] stand for.
#[verifier::ext_equal]
pub struct GraphOutputsView {
    /// The node that ends in the surface.
    pub surface: NodeId,
    /// The node that ends in the vertex offset.
    pub vertex: Option<NodeId>,
    /// The node that decides what is dropped.
    pub discard: Option<NodeId>,
    /// The nodes that compute an interpolant, with its name.
    pub varyings: Seq<(Seq<char>, NodeId)>,
}

impl View for GraphOutputs {
    type V = GraphOutputsView;

    open spec fn view(&self) -> GraphOutputsView {
        GraphOutputsView {
            surface: self.surface,
            vertex: self.vertex,
            discard: self.discard,
            varyings: text::seq_of(self.varyings@),
        }
    }
}

/// The ends of a graph, where it has one surface.
pub open spec fn outputs_of(g: GraphView, kinds: Kinds) -> Option<GraphOutputsView> {
    let surfaces = terminals(g, kinds, Terminal::Surface);
    let writers = terminals(g, kinds, Terminal::Varying);
    match only(surfaces) {
        Some(surface) => Some(
            GraphOutputsView {
                surface,
                vertex: only(terminals(g, kinds, Terminal::Vertex)),
                discard: only(terminals(g, kinds, Terminal::Discard)),
                varyings: values_in_order(
                    first_writers(g, kinds, writers, writers.len() as int),
                ),
            },
        ),
        None => None,
    }
}

/// Whether a node is one of the ends.
pub open spec fn is_end(o: GraphOutputsView, id: NodeId) -> bool {
    ||| o.surface == id
    ||| o.vertex == Some(id)
    ||| o.discard == Some(id)
    ||| exists|i: int| 0 <= i < o.varyings.len() && (#[trigger] o.varyings[i]).1 == id
}

/// The nodes that an end depends on, the ends among them.
pub open spec fn reachable(g: GraphView, o: GraphOutputsView) -> Set<NodeId> {
    Set::new(|id: NodeId| exists|end: NodeId| is_end(o, end) && traversal::reaches(g.edges, id, end))
}

/// The interpolant or attribute that a node reads.
pub open spec fn read_name(g: GraphView, kinds: Kinds, id: NodeId) -> Option<Seq<char>> {
    if g.known(kinds, id) && g.kind(kinds, id).body is AttributeRead {
        g.declared_name(kinds, id, SETTING_NAME@)
    } else {
        None
    }
}

impl Graph {
    /// The ends of this kind, in the order of their ids.
    fn terminals(&self, registry: &NodeRegistry, kind: Terminal) -> (r: Vec<NodeId>)
        ensures
            r@ == terminals(self@, registry@, kind),
    {
        let ghost g = self@;
        let ghost ids = g.ids();
        let mut r: Vec<NodeId> = Vec::new();
        let n: usize = self.nodes.len();
        let mut i: usize = 0;
        while i < n
            invariant
                i <= n == ids.len(),
                g == self@,
                g.nodes == self.nodes@.nodes,
                ids == g.ids(),
                r@ == terminals_among(g, registry@, kind, ids, i as int),
            decreases n - i,
        {
            let id = self.nodes.key_at(i);
            match self.definition(registry, id) {
                Ok(def) => {
                    let found = match kind {
                        Terminal::Surface => def.is_surface_output(),
                        Terminal::Vertex => def.is_vertex_output(),
                        Terminal::Discard => def.is_discard_output(),
                        Terminal::Varying => def.is_varying_output(),
                    };
                    if found {
                        r.push(id);
                    }
                },
                Err(_) => {},
            }
            i += 1;
        }
        r
    }

    /// Every node that ends in the surface. A graph to compile has one.
    pub fn surface_outputs(&self, registry: &NodeRegistry) -> (r: Vec<NodeId>)
        ensures
            r@ == terminals(self@, registry@, Terminal::Surface),
    {
        self.terminals(registry, Terminal::Surface)
    }

    /// Every node that ends in the vertex offset. A graph to compile has one
    /// at most.
    pub fn vertex_outputs(&self, registry: &NodeRegistry) -> (r: Vec<NodeId>)
        ensures
            r@ == terminals(self@, registry@, Terminal::Vertex),
    {
        self.terminals(registry, Terminal::Vertex)
    }

    /// Every node that decides what is dropped. A graph to compile has one at
    /// most.
    pub fn discard_outputs(&self, registry: &NodeRegistry) -> (r: Vec<NodeId>)
        ensures
            r@ == terminals(self@, registry@, Terminal::Discard),
    {
        self.terminals(registry, Terminal::Discard)
    }

    /// Every node that writes an interpolant, whether or not the name it has
    /// is declared.
    pub fn varying_outputs(&self, registry: &NodeRegistry) -> (r: Vec<NodeId>)
        ensures
            r@ == terminals(self@, registry@, Terminal::Varying),
    {
        self.terminals(registry, Terminal::Varying)
    }

    /// The declared interpolant that a node names.
    fn written_interpolant(&self, registry: &NodeRegistry, id: NodeId) -> (r: Option<WxslIdent>)
        ensures
            text::opt_of(r) == written_name(self@, registry@, id),
    {
        match self.declared_name(registry, id, SETTING_NAME) {
            Some(name) => match self.attribute(name.as_str()) {
                Some(decl) => if decl.frequency == AttributeFrequency::Computed {
                    Some(name)
                } else {
                    None
                },
                None => None,
            },
            None => None,
        }
    }

    /// The ends of the graph: the surface, and those it has besides. There are
    /// none to speak of where it has no surface, or more than one.
    pub fn outputs(&self, registry: &NodeRegistry) -> (r: Option<GraphOutputs>)
        ensures
            text::opt_of(r) == outputs_of(self@, registry@),
    {
        let ghost g = self@;
        let ghost kinds = registry@;
        let surfaces = self.surface_outputs(registry);
        if surfaces.len() != 1 {
            return None;
        }
        let writers = self.varying_outputs(registry);
        let mut first: TextMap<(WxslIdent, NodeId)> = TextMap::new();
        let mut i: usize = 0;
        assert(first@ =~= first_writers(g, kinds, writers@, 0));
        while i < writers.len()
            invariant
                i <= writers@.len(),
                g == self@,
                kinds == registry@,
                first@ == first_writers(g, kinds, writers@, i as int),
            decreases writers@.len() - i,
        {
            match self.written_interpolant(registry, writers[i]) {
                Some(name) => {
                    if !first.contains_key(name.as_str()) {
                        let key = name.as_str().to_owned();
                        first.insert(key, (name, writers[i]));
                    }
                },
                None => {},
            }
            i += 1;
        }
        let mut varyings: Vec<(WxslIdent, NodeId)> = Vec::new();
        let n: usize = first.len();
        let ghost m = first@;
        let ghost keys = textmap::in_order(m.dom());
        let mut i: usize = 0;
        while i < n
            invariant
                i <= n == keys.len(),
                m == first@,
                keys == textmap::in_order(m.dom()),
                varyings@.len() == i,
                forall|j: int| 0 <= j < i ==> (#[trigger] varyings@[j])@ == m[keys[j]],
            decreases n - i,
        {
            let (name, id) = first.value_at(i);
            varyings.push((name.clone(), *id));
            i += 1;
        }
        assert(text::seq_of(varyings@) =~= values_in_order(m));
        let vertices = self.vertex_outputs(registry);
        let discards = self.discard_outputs(registry);
        Some(
            GraphOutputs {
                surface: surfaces[0],
                vertex: if vertices.len() == 1 {
                    Some(vertices[0])
                } else {
                    None
                },
                discard: if discards.len() == 1 {
                    Some(discards[0])
                } else {
                    None
                },
                varyings,
            },
        )
    }

    /// The nodes that an end depends on, the ends among them.
    pub fn reachable_from(&self, outputs: &GraphOutputs) -> (r: NodeSet)
        ensures
            r@ == reachable(self@, outputs@),
    {
        let ghost g = self@;
        let ghost o = outputs@;
        let mut found = self.dependencies_of(outputs.surface);
        match outputs.vertex {
            Some(id) => {
                let more = self.dependencies_of(id);
                found.extend(&more);
            },
            None => {},
        }
        match outputs.discard {
            Some(id) => {
                let more = self.dependencies_of(id);
                found.extend(&more);
            },
            None => {},
        }
        let ghost start = found@;
        let mut i: usize = 0;
        while i < outputs.varyings.len()
            invariant
                i <= o.varyings.len() == outputs.varyings@.len(),
                g == self@,
                o == outputs@,
                o.varyings == text::seq_of(outputs.varyings@),
                forall|x: NodeId| #[trigger]
                    found@.contains(x) <==> start.contains(x) || exists|j: int|
                        0 <= j < i && traversal::reaches(g.edges, x, (#[trigger] o.varyings[j]).1),
            decreases o.varyings.len() - i,
        {
            assert(o.varyings[i as int] == outputs.varyings@[i as int]@);
            let ghost before = found@;
            let more = self.dependencies_of(outputs.varyings[i].1);
            found.extend(&more);
            proof {
                assert forall|x: NodeId| #[trigger] found@.contains(x) <==> start.contains(x)
                    || exists|j: int|
                    0 <= j < i + 1 && traversal::reaches(g.edges, x, (#[trigger] o.varyings[j]).1) by {
                    assert(before.contains(x) <==> start.contains(x) || exists|j: int|
                        0 <= j < i && traversal::reaches(g.edges, x, (#[trigger] o.varyings[j]).1));
                    if traversal::reaches(g.edges, x, o.varyings[i as int].1) {
                        assert(found@.contains(x));
                    }
                }
            }
            i += 1;
        }
        proof {
            assert forall|x: NodeId| found@.contains(x) == reachable(g, o).contains(x) by {
                if found@.contains(x) {
                    if traversal::reaches(g.edges, x, o.surface) {
                        assert(is_end(o, o.surface));
                    } else if o.vertex is Some && traversal::reaches(g.edges, x, o.vertex->0) {
                        assert(is_end(o, o.vertex->0));
                    } else if o.discard is Some && traversal::reaches(g.edges, x, o.discard->0) {
                        assert(is_end(o, o.discard->0));
                    } else {
                        let j = choose|j: int|
                            0 <= j < o.varyings.len() && traversal::reaches(
                                g.edges,
                                x,
                                (#[trigger] o.varyings[j]).1,
                            );
                        assert(is_end(o, o.varyings[j].1));
                    }
                }
            }
            assert(found@ =~= reachable(g, o));
        }
        found
    }

    /// The interpolant or attribute that a node reads.
    pub(crate) fn attribute_read_name(&self, registry: &NodeRegistry, id: NodeId) -> (r: Option<
        WxslIdent,
    >)
        ensures
            text::opt_of(r) == read_name(self@, registry@, id),
    {
        match self.definition(registry, id) {
            Ok(def) => match def.body {
                NodeBody::AttributeRead => self.declared_name(registry, id, SETTING_NAME),
                _ => None,
            },
            Err(_) => None,
        }
    }
}

proof fn lemma_terminals_among(
    g: GraphView,
    kinds: Kinds,
    kind: Terminal,
    ids: Seq<NodeId>,
    n: int,
    id: NodeId,
)
    requires
        terminals_among(g, kinds, kind, ids, n).contains(id),
    ensures
        g.known(kinds, id) && ends_as(g.kind(kinds, id).body, kind),
    decreases n,
{
    if n > 0 {
        let before = terminals_among(g, kinds, kind, ids, n - 1);
        if id != ids[n - 1] {
            let s = terminals_among(g, kinds, kind, ids, n);
            let i = choose|i: int| 0 <= i < s.len() && s[i] == id;
            assert(before[i] == id);
            assert(before.contains(id));
        }
        if before.contains(id) {
            lemma_terminals_among(g, kinds, kind, ids, n - 1, id);
        }
    }
}

proof fn lemma_first_writers(g: GraphView, kinds: Kinds, ids: Seq<NodeId>, n: int)
    requires
        n <= ids.len(),
    ensures
        first_writers(g, kinds, ids, n).dom().finite(),
        forall|name: Seq<char>| #[trigger]
            first_writers(g, kinds, ids, n).contains_key(name) ==> ids.contains(
                first_writers(g, kinds, ids, n)[name].1,
            ),
    decreases n,
{
    if n > 0 {
        lemma_first_writers(g, kinds, ids, n - 1);
        assert(ids.contains(ids[n - 1]));
    }
}

/// Every end of a graph is a node of a kind that ends one.
pub proof fn ends_end(g: GraphView, kinds: Kinds, id: NodeId)
    requires
        outputs_of(g, kinds) is Some,
        is_end(outputs_of(g, kinds)->0, id),
    ensures
        g.known(kinds, id),
        exists|kind: Terminal| #[trigger] ends_as(g.kind(kinds, id).body, kind),
{
    let o = outputs_of(g, kinds)->0;
    let n = g.ids().len() as int;
    let surfaces = terminals(g, kinds, Terminal::Surface);
    let vertices = terminals(g, kinds, Terminal::Vertex);
    let discards = terminals(g, kinds, Terminal::Discard);
    let writers = terminals(g, kinds, Terminal::Varying);
    if o.surface == id {
        assert(surfaces.contains(surfaces[0]));
        lemma_terminals_among(g, kinds, Terminal::Surface, g.ids(), n, id);
    } else if o.vertex == Some(id) {
        assert(vertices.contains(vertices[0]));
        lemma_terminals_among(g, kinds, Terminal::Vertex, g.ids(), n, id);
    } else if o.discard == Some(id) {
        assert(discards.contains(discards[0]));
        lemma_terminals_among(g, kinds, Terminal::Discard, g.ids(), n, id);
    } else {
        let i = choose|i: int| 0 <= i < o.varyings.len() && (#[trigger] o.varyings[i]).1 == id;
        let m = first_writers(g, kinds, writers, writers.len() as int);
        let keys = textmap::in_order(m.dom());
        lemma_first_writers(g, kinds, writers, writers.len() as int);
        textmap::lemma_in_order(m.dom());
        assert(keys.contains(keys[i]));
        assert(m.contains_key(keys[i]));
        lemma_terminals_among(g, kinds, Terminal::Varying, g.ids(), n, id);
    }
}

} // verus!
