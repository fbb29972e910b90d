//! A graph as a document holds it: nodes in a list, each with its id.

use vstd::prelude::*;

use crate::copies::{clone_vec, copy_opt};
use crate::graph::{
    AttributeDecl, AttributeDeclView, Graph, GraphView, Node, NodeTable, NodeView, UserBlockDecl,
    UserBlockDeclView,
};
use crate::idmap;
use crate::idmap::IdMap;
use crate::ids::{Edge, EdgeView, NodeId};
use crate::macros::{MacroSet, MacroValue};
use crate::text;

verus! {

/// A node of a document.
#[derive(Debug, PartialEq)]
pub struct WireNode {
    /// Its id.
    pub id: NodeId,
    /// The node.
    pub node: Node,
}

/// What a [`WireNode`] stands for.
#[verifier::ext_equal]
pub struct WireNodeView {
    /// Its id.
    pub id: NodeId,
    /// The node.
    pub node: NodeView,
}

impl View for WireNode {
    type V = WireNodeView;

    open spec fn view(&self) -> WireNodeView {
        WireNodeView {
            id: self.id,
            node: self.node@,
        }
    }
}

impl Clone for WireNode {
    fn clone(&self) -> (r: Self)
        ensures
            r@ == self@,
    {
        WireNode {
            id: self.id,
            node: self.node.clone(),
        }
    }
}

/// A graph as a document holds it.
#[derive(Debug, PartialEq)]
pub struct WireGraph {
    /// The graph's name.
    pub name: String,
    /// The macro values it pins.
    pub macros: MacroSet,
    /// The block it asks the application for.
    pub user_block: Option<UserBlockDecl>,
    /// What it asks of its geometry.
    pub attributes: Vec<AttributeDecl>,
    /// The nodes.
    pub nodes: Vec<WireNode>,
    /// The edges, in the order they were made.
    pub edges: Vec<Edge>,
}

/// What a [`WireGraph`] stands for.
#[verifier::ext_equal]
pub struct WireGraphView {
    /// The graph's name.
    pub name: Seq<char>,
    /// The macro values it pins.
    pub macros: Map<Seq<char>, MacroValue>,
    /// The block it asks the application for.
    pub user_block: Option<UserBlockDeclView>,
    /// What it asks of its geometry.
    pub attributes: Seq<AttributeDeclView>,
    /// The nodes.
    pub nodes: Seq<WireNodeView>,
    /// The edges, in the order they were made.
    pub edges: Seq<EdgeView>,
}

impl View for WireGraph {
    type V = WireGraphView;

    open spec fn view(&self) -> WireGraphView {
        WireGraphView {
            name: self.name@,
            macros: self.macros@,
            user_block: text::opt_of(self.user_block),
            attributes: text::seq_of(self.attributes@),
            nodes: text::seq_of(self.nodes@),
            edges: text::seq_of(self.edges@),
        }
    }
}

impl Clone for WireGraph {
    fn clone(&self) -> (r: Self)
        ensures
            r@ == self@,
    {
        WireGraph {
            name: self.name.clone(),
            macros: self.macros.clone(),
            user_block: copy_opt(&self.user_block),
            attributes: clone_vec(&self.attributes),
            nodes: clone_vec(&self.nodes),
            edges: clone_vec(&self.edges),
        }
    }
}

/// The first `n` of these nodes by id. The last of an id counts.
pub open spec fn nodes_by_id(s: Seq<WireNodeView>, n: int) -> Map<NodeId, NodeView>
    decreases n,
{
    if n <= 0 {
        Map::empty()
    } else {
        nodes_by_id(s, n - 1).insert(s[n - 1].id, s[n - 1].node)
    }
}

/// The highest id of the first `n` of these nodes, or 0.
pub open spec fn highest_id(s: Seq<WireNodeView>, n: int) -> u32
    decreases n,
{
    if n <= 0 {
        0
    } else if s[n - 1].id.0 > highest_id(s, n - 1) {
        s[n - 1].id.0
    } else {
        highest_id(s, n - 1)
    }
}

/// The graph that a document holds. Ids go on after the highest one.
pub open spec fn from_document(w: WireGraphView) -> GraphView {
    GraphView {
        name: w.name,
        nodes: nodes_by_id(w.nodes, w.nodes.len() as int),
        edges: w.edges,
        macros: w.macros,
        user_block: w.user_block,
        attributes: w.attributes,
        next_id: (highest_id(w.nodes, w.nodes.len() as int) + 1) as u32,
    }
}

/// The nodes of a graph in a list, in the order of their ids.
pub open spec fn listed_nodes(g: GraphView) -> Seq<WireNodeView> {
    Seq::new(g.ids().len(), |i: int| WireNodeView { id: g.ids()[i], node: g.nodes[g.ids()[i]] })
}

/// A graph as a document holds it.
pub open spec fn as_document(g: GraphView) -> WireGraphView {
    WireGraphView {
        name: g.name,
        macros: g.macros,
        user_block: g.user_block,
        attributes: g.attributes,
        nodes: listed_nodes(g),
        edges: g.edges,
    }
}

proof fn lemma_highest(s: Seq<WireNodeView>, n: int)
    requires
        0 <= n <= s.len(),
    ensures
        forall|i: int| 0 <= i < n ==> (#[trigger] s[i]).id.0 <= highest_id(s, n),
        forall|id: NodeId| #[trigger] nodes_by_id(s, n).contains_key(id) ==> id.0 <= highest_id(s, n),
    decreases n,
{
    if n > 0 {
        lemma_highest(s, n - 1);
        let before = nodes_by_id(s, n - 1);
        assert forall|id: NodeId| #[trigger] nodes_by_id(s, n).contains_key(id) implies id.0
            <= highest_id(s, n) by {
            if id != s[n - 1].id {
                assert(before.contains_key(id));
            }
        }
    }
}

proof fn lemma_highest_grows(s: Seq<WireNodeView>, m: int, n: int)
    requires
        m <= n,
    ensures
        highest_id(s, m) <= highest_id(s, n),
    decreases n - m,
{
    if m < n {
        lemma_highest_grows(s, m, n - 1);
    }
}

impl Graph {
    /// The graph as a document holds it.
    pub fn to_document(&self) -> (r: WireGraph)
        ensures
            r@ == as_document(self@),
    {
        let ghost g = self@;
        let ghost ids = g.ids();
        let mut nodes: Vec<WireNode> = Vec::new();
        let n: usize = self.nodes.len();
        let mut i: usize = 0;
        while i < n
            invariant
                i <= n == ids.len(),
                g == self@,
                ids == g.ids(),
                text::seq_of(nodes@) == listed_nodes(g).take(i as int),
            decreases n - i,
        {
            let ghost before = text::seq_of(nodes@);
            let entry = WireNode { id: self.nodes.key_at(i), node: self.nodes.value_at(i).clone() };
            nodes.push(entry);
            assert(text::seq_of(nodes@) =~= before.push(entry@));
            assert(text::seq_of(nodes@) =~= listed_nodes(g).take(i + 1));
            i += 1;
        }
        assert(listed_nodes(g).take(n as int) =~= listed_nodes(g));
        WireGraph {
            name: self.name.clone(),
            macros: self.macros.clone(),
            user_block: copy_opt(&self.user_block),
            attributes: clone_vec(&self.attributes),
            nodes,
            edges: clone_vec(&self.edges),
        }
    }

    /// The graph that a document holds.
    pub fn from_document(wire: &WireGraph) -> (r: Self)
        requires
            highest_id(wire@.nodes, wire@.nodes.len() as int) < u32::MAX,
        ensures
            r@ == from_document(wire@),
    {
        let ghost s = wire@.nodes;
        let mut entries: IdMap<Node> = IdMap::new();
        let mut highest: u32 = 0;
        let mut i: usize = 0;
        while i < wire.nodes.len()
            invariant
                i <= s.len() == wire.nodes@.len(),
                s == text::seq_of(wire.nodes@),
                entries@ == nodes_by_id(s, i as int),
                highest == highest_id(s, i as int),
            decreases s.len() - i,
        {
            assert(s[i as int] == wire.nodes@[i as int]@);
            let id = wire.nodes[i].id;
            entries.insert(id, wire.nodes[i].node.clone());
            if id.0 > highest {
                highest = id.0;
            }
            i += 1;
        }
        proof {
            lemma_highest(s, s.len() as int);
        }
        Graph {
            name: wire.name.clone(),
            nodes: NodeTable::of(entries, highest + 1),
            edges: clone_vec(&wire.edges),
            macros: wire.macros.clone(),
            user_block: copy_opt(&wire.user_block),
            attributes: clone_vec(&wire.attributes),
        }
    }
}

impl WireGraph {
    /// Whether ids are left for more nodes after the highest of the document.
    pub fn has_room(&self) -> (r: bool)
        ensures
            r == (highest_id(self@.nodes, self@.nodes.len() as int) < u32::MAX),
    {
        let ghost s = self@.nodes;
        let mut i: usize = 0;
        while i < self.nodes.len()
            invariant
                i <= s.len() == self.nodes@.len(),
                s == text::seq_of(self.nodes@),
                s == self@.nodes,
                highest_id(s, i as int) < u32::MAX,
            decreases s.len() - i,
        {
            assert(s[i as int] == self.nodes@[i as int]@);
            if self.nodes[i].id.0 == u32::MAX {
                proof {
                    lemma_highest_grows(s, i + 1, s.len() as int);
                }
                return false;
            }
            i += 1;
        }
        true
    }
}

proof fn lemma_listed(g: GraphView, n: int)
    requires
        idmap::lists(g.ids(), g.nodes.dom()),
        0 <= n <= g.ids().len(),
    ensures
        forall|id: NodeId|
            #![trigger nodes_by_id(listed_nodes(g), n).contains_key(id)]
            nodes_by_id(listed_nodes(g), n).contains_key(id) <==> g.ids().take(n).contains(id),
        forall|id: NodeId| #[trigger]
            nodes_by_id(listed_nodes(g), n).contains_key(id) ==> nodes_by_id(
                listed_nodes(g),
                n,
            )[id] == g.nodes[id],
    decreases n,
{
    if n > 0 {
        lemma_listed(g, n - 1);
        let t = g.ids().take(n);
        let t0 = g.ids().take(n - 1);
        assert(t =~= t0.push(g.ids()[n - 1]));
        assert forall|id: NodeId| t.contains(id) <==> t0.contains(id) || id == g.ids()[n - 1] by {
            if t0.contains(id) {
                let j = choose|j: int| 0 <= j < t0.len() && t0[j] == id;
                assert(t[j] == id);
            }
            assert(t[n - 1] == g.ids()[n - 1]);
        }
        let s = listed_nodes(g);
        let before = nodes_by_id(s, n - 1);
        let after = nodes_by_id(s, n);
        assert(after == before.insert(s[n - 1].id, s[n - 1].node));
        assert forall|id: NodeId| #[trigger] after.contains_key(id) <==> t.contains(id) by {
            assert(before.contains_key(id) <==> t0.contains(id));
        }
        assert forall|id: NodeId| #[trigger] after.contains_key(id) implies after[id]
            == g.nodes[id] by {
            if id != s[n - 1].id {
                assert(before.contains_key(id));
            }
        }
    }
}

/// A graph comes back from its document as it was, but for the ids that it
/// gives to more nodes: those go on after the highest one in use.
pub proof fn documents_keep_graphs(g: GraphView)
    requires
        g.ids_spent(),
    ensures
        from_document(as_document(g)).nodes == g.nodes,
        from_document(as_document(g)).name == g.name,
        from_document(as_document(g)).edges == g.edges,
        from_document(as_document(g)).macros == g.macros,
        from_document(as_document(g)).user_block == g.user_block,
        from_document(as_document(g)).attributes == g.attributes,
        highest_id(as_document(g).nodes, as_document(g).nodes.len() as int) < u32::MAX,
        from_document(as_document(g)).ids_spent(),
        as_document(from_document(as_document(g))) == as_document(g),
{
    idmap::lemma_in_order(g.nodes.dom());
    let n = g.ids().len() as int;
    let s = listed_nodes(g);
    lemma_listed(g, n);
    lemma_highest(s, n);
    assert(g.ids().take(n) =~= g.ids());
    let h = from_document(as_document(g));
    assert(h.nodes =~= g.nodes);
    lemma_highest_below(g, n);
}

proof fn lemma_highest_below(g: GraphView, n: int)
    requires
        g.ids_spent(),
        idmap::lists(g.ids(), g.nodes.dom()),
        0 <= n <= g.ids().len(),
    ensures
        highest_id(listed_nodes(g), n) < u32::MAX,
    decreases n,
{
    if n > 0 {
        lemma_highest_below(g, n - 1);
        assert(g.ids().contains(g.ids()[n - 1]));
        assert(g.nodes.contains_key(g.ids()[n - 1]));
    }
}

} // verus!
