//! Walks along the edges of a graph.

use vstd::prelude::*;

use crate::graph::Graph;
use crate::idmap::NodeSet;
use crate::ids::{EdgeView, NodeId};
use crate::lists;
use crate::text;

verus! {

/// Whether `n` edges lead from a node to another, none of them into a node of
/// `stops`.
pub open spec fn leads(
    edges: Seq<EdgeView>,
    stops: Set<NodeId>,
    from: NodeId,
    to: NodeId,
    n: nat,
) -> bool
    decreases n,
{
    if n == 0 {
        from == to
    } else {
        exists|i: int|
            0 <= i < edges.len() && (#[trigger] edges[i]).from.node == from && !stops.contains(
                edges[i].to.node,
            ) && leads(edges, stops, edges[i].to.node, to, (n - 1) as nat)
    }
}

/// Whether edges lead from a node to another, none of them into a node of
/// `stops`. A node leads to itself.
pub open spec fn leads_to(
    edges: Seq<EdgeView>,
    stops: Set<NodeId>,
    from: NodeId,
    to: NodeId,
) -> bool {
    exists|n: nat| leads(edges, stops, from, to, n)
}

/// Whether edges lead from a node to another. A node reaches itself.
pub open spec fn reaches(edges: Seq<EdgeView>, from: NodeId, to: NodeId) -> bool {
    leads_to(edges, Set::empty(), from, to)
}

/// No node is led back to itself along edges.
pub open spec fn acyclic(edges: Seq<EdgeView>) -> bool {
    forall|i: int|
        0 <= i < edges.len() ==> !reaches(edges, (#[trigger] edges[i]).to.node, edges[i].from.node)
}

/// The nodes that a node depends on, itself among them, where a walk goes no
/// further than a node of `stops`.
pub open spec fn dependencies(edges: Seq<EdgeView>, stops: Set<NodeId>, root: NodeId) -> Set<
    NodeId,
> {
    Set::new(|id: NodeId| leads_to(edges, stops, id, root))
}

/// One edge more at the end of a walk.
pub proof fn lemma_leads_further(
    edges: Seq<EdgeView>,
    from: NodeId,
    i: int,
    n: nat,
)
    requires
        0 <= i < edges.len(),
        leads(edges, Set::empty(), from, edges[i].from.node, n),
    ensures
        leads(edges, Set::empty(), from, edges[i].to.node, n + 1),
    decreases n,
{
    let none = Set::<NodeId>::empty();
    if n == 0 {
        assert(leads(edges, none, edges[i].to.node, edges[i].to.node, 0));
    } else {
        let j = choose|j: int|
            0 <= j < edges.len() && (#[trigger] edges[j]).from.node == from && !none.contains(
                edges[j].to.node,
            ) && leads(edges, none, edges[j].to.node, edges[i].from.node, (n - 1) as nat);
        lemma_leads_further(edges, edges[j].to.node, i, (n - 1) as nat);
        assert(leads(edges, none, edges[j].to.node, edges[i].to.node, n));
    }
}

/// Two walks one after the other.
pub proof fn lemma_leads_through(
    edges: Seq<EdgeView>,
    a: NodeId,
    b: NodeId,
    c: NodeId,
    n: nat,
    m: nat,
)
    requires
        leads(edges, Set::empty(), a, b, n),
        leads(edges, Set::empty(), b, c, m),
    ensures
        leads(edges, Set::empty(), a, c, n + m),
    decreases n,
{
    let none = Set::<NodeId>::empty();
    if n > 0 {
        let j = choose|j: int|
            0 <= j < edges.len() && (#[trigger] edges[j]).from.node == a && !none.contains(
                edges[j].to.node,
            ) && leads(edges, none, edges[j].to.node, b, (n - 1) as nat);
        lemma_leads_through(edges, edges[j].to.node, b, c, (n - 1) as nat, m);
        assert(leads(edges, none, edges[j].to.node, c, (n + m - 1) as nat));
    }
}

/// Reaching goes through.
pub proof fn reaching_is_transitive(edges: Seq<EdgeView>, a: NodeId, b: NodeId, c: NodeId)
    requires
        reaches(edges, a, b),
        reaches(edges, b, c),
    ensures
        reaches(edges, a, c),
{
    let n = choose|n: nat| leads(edges, Set::empty(), a, b, n);
    let m = choose|m: nat| leads(edges, Set::empty(), b, c, m);
    lemma_leads_through(edges, a, b, c, n, m);
    assert(leads(edges, Set::empty(), a, c, n + m));
}

/// A walk stays in a set that no edge leaves.
proof fn lemma_stays_inside(
    edges: Seq<EdgeView>,
    inside: Set<NodeId>,
    from: NodeId,
    to: NodeId,
    n: nat,
)
    requires
        inside.contains(from),
        forall|i: int|
            0 <= i < edges.len() && inside.contains((#[trigger] edges[i]).from.node)
                ==> inside.contains(edges[i].to.node),
        leads(edges, Set::empty(), from, to, n),
    ensures
        inside.contains(to),
    decreases n,
{
    let none = Set::<NodeId>::empty();
    if n > 0 {
        let j = choose|j: int|
            0 <= j < edges.len() && (#[trigger] edges[j]).from.node == from && !none.contains(
                edges[j].to.node,
            ) && leads(edges, none, edges[j].to.node, to, (n - 1) as nat);
        lemma_stays_inside(edges, inside, edges[j].to.node, to, (n - 1) as nat);
    }
}

/// A walk to a node of a set starts in it, where every edge into the set that
/// a walk may take comes from it.
proof fn lemma_starts_inside(
    edges: Seq<EdgeView>,
    stops: Set<NodeId>,
    inside: Set<NodeId>,
    from: NodeId,
    to: NodeId,
    n: nat,
)
    requires
        inside.contains(to),
        forall|i: int|
            0 <= i < edges.len() && inside.contains((#[trigger] edges[i]).to.node)
                && !stops.contains(edges[i].to.node) ==> inside.contains(edges[i].from.node),
        leads(edges, stops, from, to, n),
    ensures
        inside.contains(from),
    decreases n,
{
    if n > 0 {
        let j = choose|j: int|
            0 <= j < edges.len() && (#[trigger] edges[j]).from.node == from && !stops.contains(
                edges[j].to.node,
            ) && leads(edges, stops, edges[j].to.node, to, (n - 1) as nat);
        lemma_starts_inside(edges, stops, inside, edges[j].to.node, to, (n - 1) as nat);
    }
}

/// Not being in a set yet.
spec fn unseen(seen: Set<NodeId>) -> spec_fn(NodeId) -> bool {
    |id: NodeId| !seen.contains(id)
}

/// The nodes a forward walk can come to.
spec fn ends(start: NodeId, edges: Seq<EdgeView>) -> Seq<NodeId> {
    Seq::new(edges.len(), |i: int| edges[i].to.node).push(start)
}

/// The nodes a backward walk can come to.
spec fn origins(start: NodeId, edges: Seq<EdgeView>) -> Seq<NodeId> {
    Seq::new(edges.len(), |i: int| edges[i].from.node).push(start)
}

/// A node taken up leaves fewer that were not.
proof fn lemma_fewer_unseen(all: Seq<NodeId>, seen: Set<NodeId>, id: NodeId)
    requires
        all.contains(id),
        !seen.contains(id),
    ensures
        lists::count_where(all, unseen(seen.insert(id))) < lists::count_where(all, unseen(seen)),
{
    let k = choose|k: int| 0 <= k < all.len() && all[k] == id;
    lists::lemma_count_drops(all, unseen(seen), unseen(seen.insert(id)), k);
}

impl Graph {
    /// Whether edges lead from a node to another. A node reaches itself.
    pub fn reaches(&self, start: NodeId, target: NodeId) -> (r: bool)
        ensures
            r == reaches(self@.edges, start, target),
    {
        let ghost es = self@.edges;
        let ghost all = ends(start, es);
        let ghost none = Set::<NodeId>::empty();
        let mut seen = NodeSet::new();
        let mut stack: Vec<NodeId> = Vec::new();
        stack.push(start);
        proof {
            assert(leads(es, none, start, start, 0));
            assert(all[es.len() as int] == start);
            assert(stack@[0] == start);
        }
        while stack.len() > 0
            invariant
                es == self@.edges,
                es == text::seq_of(self.edges@),
                es.len() == self.edges@.len(),
                all == ends(start, es),
                none == Set::<NodeId>::empty(),
                seen@.contains(start) || stack@.contains(start),
                !seen@.contains(target),
                forall|j: int| 0 <= j < stack@.len() ==> all.contains(#[trigger] stack@[j]),
                forall|j: int|
                    0 <= j < stack@.len() ==> leads_to(es, none, start, #[trigger] stack@[j]),
                forall|i: int|
                    0 <= i < es.len() && seen@.contains((#[trigger] es[i]).from.node)
                        ==> seen@.contains(es[i].to.node) || stack@.contains(es[i].to.node),
            decreases lists::count_where(all, unseen(seen@)), stack@.len(),
        {
            let ghost before = stack@;
            let node = stack.pop().unwrap();
            proof {
                assert(before =~= stack@.push(node));
                assert(before[before.len() - 1] == node);
                assert forall|x: NodeId| before.contains(x) implies x == node || stack@.contains(
                    x,
                ) by {
                    let j = choose|j: int| 0 <= j < before.len() && before[j] == x;
                    if j < stack@.len() {
                        assert(stack@[j] == x);
                    }
                }
                assert forall|j: int| 0 <= j < stack@.len() implies all.contains(
                    #[trigger] stack@[j],
                ) && leads_to(es, none, start, stack@[j]) by {
                    assert(before[j] == stack@[j]);
                }
            }
            if node.0 == target.0 {
                return true;
            }
            let ghost was = seen@;
            if seen.insert(node) {
                proof {
                    lemma_fewer_unseen(all, was, node);
                }
                let ghost base = stack@;
                let mut i: usize = 0;
                while i < self.edges.len()
                    invariant
                        i <= es.len(),
                        es == self@.edges,
                        es == text::seq_of(self.edges@),
                        es.len() == self.edges@.len(),
                        all == ends(start, es),
                        none == Set::<NodeId>::empty(),
                        leads_to(es, none, start, node),
                        base.len() <= stack@.len(),
                        base == stack@.take(base.len() as int),
                        forall|j: int| 0 <= j < stack@.len() ==> all.contains(#[trigger] stack@[j]),
                        forall|j: int|
                            0 <= j < stack@.len() ==> leads_to(
                                es,
                                none,
                                start,
                                #[trigger] stack@[j],
                            ),
                        forall|k: int|
                            0 <= k < i && (#[trigger] es[k]).from.node == node ==> stack@.contains(
                                es[k].to.node,
                            ),
                    decreases es.len() - i,
                {
                    let edge = &self.edges[i];
                    assert(es[i as int] == edge@);
                    if edge.from.node.0 == node.0 {
                        let ghost held = stack@;
                        stack.push(edge.to.node);
                        proof {
                            let n = choose|n: nat| leads(es, none, start, node, n);
                            lemma_leads_further(es, start, i as int, n);
                            assert(leads_to(es, none, start, edge.to.node));
                            assert(all[i as int] == edge.to.node);
                            assert forall|x: NodeId| held.contains(x) implies stack@.contains(
                                x,
                            ) by {
                                let j = choose|j: int| 0 <= j < held.len() && held[j] == x;
                                assert(stack@[j] == x);
                            }
                            assert(stack@[held.len() as int] == edge.to.node);
                            assert(base =~= stack@.take(base.len() as int));
                        }
                    }
                    i += 1;
                }
                proof {
                    assert forall|x: NodeId| base.contains(x) implies stack@.contains(x) by {
                        let j = choose|j: int| 0 <= j < base.len() && base[j] == x;
                        assert(stack@[j] == x);
                    }
                }
            } else {
                assert(seen@ =~= was);
            }
        }
        proof {
            if leads_to(es, none, start, target) {
                let n = choose|n: nat| leads(es, none, start, target, n);
                lemma_stays_inside(es, seen@, start, target, n);
            }
        }
        false
    }

    /// The nodes that a node depends on, itself among them.
    pub fn dependencies_of(&self, root: NodeId) -> (r: NodeSet)
        ensures
            r@ == dependencies(self@.edges, Set::empty(), root),
    {
        let none = NodeSet::new();
        self.dependencies_stopping_at(root, &none)
    }

    /// The nodes that a node depends on, itself among them, where the walk
    /// goes no further than a node of `stops`.
    pub fn dependencies_stopping_at(&self, root: NodeId, stops: &NodeSet) -> (r: NodeSet)
        ensures
            r@ == dependencies(self@.edges, stops@, root),
    {
        let ghost es = self@.edges;
        let ghost all = origins(root, es);
        let mut seen = NodeSet::new();
        let mut stack: Vec<NodeId> = Vec::new();
        stack.push(root);
        proof {
            assert(leads(es, stops@, root, root, 0));
            assert(all[es.len() as int] == root);
            assert(stack@[0] == root);
        }
        while stack.len() > 0
            invariant
                es == self@.edges,
                es == text::seq_of(self.edges@),
                es.len() == self.edges@.len(),
                all == origins(root, es),
                seen@.contains(root) || stack@.contains(root),
                forall|x: NodeId| #[trigger] seen@.contains(x) ==> leads_to(es, stops@, x, root),
                forall|j: int| 0 <= j < stack@.len() ==> all.contains(#[trigger] stack@[j]),
                forall|j: int|
                    0 <= j < stack@.len() ==> leads_to(es, stops@, #[trigger] stack@[j], root),
                forall|i: int|
                    0 <= i < es.len() && seen@.contains((#[trigger] es[i]).to.node)
                        && !stops@.contains(es[i].to.node) ==> seen@.contains(es[i].from.node)
                        || stack@.contains(es[i].from.node),
            decreases lists::count_where(all, unseen(seen@)), stack@.len(),
        {
            let ghost before = stack@;
            let node = stack.pop().unwrap();
            proof {
                assert(before =~= stack@.push(node));
                assert(before[before.len() - 1] == node);
                assert forall|x: NodeId| before.contains(x) implies x == node || stack@.contains(
                    x,
                ) by {
                    let j = choose|j: int| 0 <= j < before.len() && before[j] == x;
                    if j < stack@.len() {
                        assert(stack@[j] == x);
                    }
                }
                assert forall|j: int| 0 <= j < stack@.len() implies all.contains(
                    #[trigger] stack@[j],
                ) && leads_to(es, stops@, stack@[j], root) by {
                    assert(before[j] == stack@[j]);
                }
            }
            let ghost was = seen@;
            if seen.insert(node) {
                proof {
                    lemma_fewer_unseen(all, was, node);
                }
                let stopped = stops.contains(node);
                let ghost base = stack@;
                let mut i: usize = 0;
                while i < self.edges.len()
                    invariant
                        i <= es.len(),
                        es == self@.edges,
                        es == text::seq_of(self.edges@),
                        es.len() == self.edges@.len(),
                        all == origins(root, es),
                        stopped == stops@.contains(node),
                        leads_to(es, stops@, node, root),
                        base.len() <= stack@.len(),
                        base == stack@.take(base.len() as int),
                        forall|j: int| 0 <= j < stack@.len() ==> all.contains(#[trigger] stack@[j]),
                        forall|j: int|
                            0 <= j < stack@.len() ==> leads_to(
                                es,
                                stops@,
                                #[trigger] stack@[j],
                                root,
                            ),
                        forall|k: int|
                            0 <= k < i && (#[trigger] es[k]).to.node == node && !stopped
                                ==> stack@.contains(es[k].from.node),
                    decreases es.len() - i,
                {
                    let edge = &self.edges[i];
                    assert(es[i as int] == edge@);
                    if edge.to.node.0 == node.0 && !stopped {
                        let ghost held = stack@;
                        stack.push(edge.from.node);
                        proof {
                            let n = choose|n: nat| leads(es, stops@, node, root, n);
                            assert(es[i as int].from.node == edge.from.node);
                            assert(leads(es, stops@, edge.from.node, root, n + 1));
                            assert(all[i as int] == edge.from.node);
                            assert forall|x: NodeId| held.contains(x) implies stack@.contains(
                                x,
                            ) by {
                                let j = choose|j: int| 0 <= j < held.len() && held[j] == x;
                                assert(stack@[j] == x);
                            }
                            assert(stack@[held.len() as int] == edge.from.node);
                            assert(base =~= stack@.take(base.len() as int));
                        }
                    }
                    i += 1;
                }
                proof {
                    assert forall|x: NodeId| base.contains(x) implies stack@.contains(x) by {
                        let j = choose|j: int| 0 <= j < base.len() && base[j] == x;
                        assert(stack@[j] == x);
                    }
                }
            } else {
                assert(seen@ =~= was);
            }
        }
        proof {
            assert forall|id: NodeId| leads_to(es, stops@, id, root) implies seen@.contains(
                id,
            ) by {
                let n = choose|n: nat| leads(es, stops@, id, root, n);
                lemma_starts_inside(es, stops@, seen@, id, root, n);
            }
            assert(seen@ =~= dependencies(es, stops@, root));
        }
        seen
    }
}

} // verus!
