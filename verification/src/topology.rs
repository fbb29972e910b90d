//! Orders in which every node comes after what feeds it.

use vstd::prelude::*;

use crate::error::{GraphError, GraphErrorView};
use crate::graph::{Graph, GraphView};
use crate::idmap;
use crate::idmap::{IdMap, NodeSet};
use crate::ids::{EdgeView, NodeId};
use crate::text;

verus! {

/// Whether a node is asked for. Without a set every node is.
pub open spec fn included(subset: Option<Set<NodeId>>, id: NodeId) -> bool {
    match subset {
        Some(set) => set.contains(id),
        None => true,
    }
}

/// Whether a node is in the graph and asked for.
pub open spec fn in_play(g: GraphView, subset: Option<Set<NodeId>>, id: NodeId) -> bool {
    g.nodes.contains_key(id) && included(subset, id)
}

/// Whether an edge asked for leads into a node.
pub open spec fn hinders(subset: Option<Set<NodeId>>, e: EdgeView, id: NodeId) -> bool {
    e.to.node == id && included(subset, e.from.node) && included(subset, e.to.node)
}

/// How many of the first `m` edges lead into a node from one that is not done.
pub open spec fn waits(
    edges: Seq<EdgeView>,
    subset: Option<Set<NodeId>>,
    done: Seq<NodeId>,
    id: NodeId,
    m: int,
) -> int
    decreases m,
{
    if m <= 0 {
        0
    } else {
        waits(edges, subset, done, id, m - 1) + (if hinders(subset, edges[m - 1], id)
            && !done.contains(edges[m - 1].from.node) {
            1int
        } else {
            0int
        })
    }
}

/// As [`waits`], but for the edges out of `node` among the first `k`.
pub open spec fn held(
    edges: Seq<EdgeView>,
    subset: Option<Set<NodeId>>,
    done: Seq<NodeId>,
    node: NodeId,
    k: int,
    id: NodeId,
    m: int,
) -> int
    decreases m,
{
    if m <= 0 {
        0
    } else {
        held(edges, subset, done, node, k, id, m - 1) + (if hinders(subset, edges[m - 1], id)
            && !done.contains(edges[m - 1].from.node) && !(edges[m - 1].from.node == node && m - 1
            < k) {
            1int
        } else {
            0int
        })
    }
}

/// The first `n` of these nodes that are asked for.
pub open spec fn kept(ids: Seq<NodeId>, subset: Option<Set<NodeId>>, n: int) -> Seq<NodeId>
    decreases n,
{
    if n <= 0 {
        Seq::empty()
    } else if included(subset, ids[n - 1]) {
        kept(ids, subset, n - 1).push(ids[n - 1])
    } else {
        kept(ids, subset, n - 1)
    }
}

/// The nodes in play, in the order of their ids.
pub open spec fn members(g: GraphView, subset: Option<Set<NodeId>>) -> Seq<NodeId> {
    kept(g.ids(), subset, g.ids().len() as int)
}

/// The nodes among the first `n` that wait for nothing.
pub open spec fn ready(
    g: GraphView,
    subset: Option<Set<NodeId>>,
    ids: Seq<NodeId>,
    n: int,
) -> Seq<NodeId>
    decreases n,
{
    if n <= 0 {
        Seq::empty()
    } else if waits(g.edges, subset, Seq::empty(), ids[n - 1], g.edges.len() as int) == 0 {
        ready(g, subset, ids, n - 1).push(ids[n - 1])
    } else {
        ready(g, subset, ids, n - 1)
    }
}

/// The queue once an edge has been looked at for whether it is one out of
/// `node`: a node joins it at the edge that was the last it waited for.
pub open spec fn joined(
    g: GraphView,
    subset: Option<Set<NodeId>>,
    done: Seq<NodeId>,
    node: NodeId,
    queue: Seq<NodeId>,
    k: int,
) -> Seq<NodeId> {
    let e = g.edges[k];
    let m = g.edges.len() as int;
    if e.from.node == node && in_play(g, subset, e.to.node) && held(
        g.edges,
        subset,
        done,
        node,
        k + 1,
        e.to.node,
        m,
    ) == 0 {
        queue.push(e.to.node)
    } else {
        queue
    }
}

/// The queue once the first `k` edges have been looked at.
pub open spec fn freed(
    g: GraphView,
    subset: Option<Set<NodeId>>,
    done: Seq<NodeId>,
    node: NodeId,
    queue: Seq<NodeId>,
    k: int,
) -> Seq<NodeId>
    decreases k,
{
    if k <= 0 {
        queue
    } else {
        joined(g, subset, done, node, freed(g, subset, done, node, queue, k - 1), k - 1)
    }
}

/// What is placed and what is ready, after `n` nodes were placed or none was
/// ready.
pub open spec fn placing(g: GraphView, subset: Option<Set<NodeId>>, n: nat) -> (
    Seq<NodeId>,
    Seq<NodeId>,
)
    decreases n,
{
    if n == 0 {
        (
            Seq::empty(),
            ready(g, subset, members(g, subset), members(g, subset).len() as int),
        )
    } else {
        let (done, queue) = placing(g, subset, (n - 1) as nat);
        if queue.len() == 0 {
            (done, queue)
        } else {
            (
                done.push(queue[0]),
                freed(g, subset, done, queue[0], queue.skip(1), g.edges.len() as int),
            )
        }
    }
}

/// The nodes that get a place, each after every node it waits for.
pub open spec fn placed(g: GraphView, subset: Option<Set<NodeId>>) -> Seq<NodeId> {
    placing(g, subset, members(g, subset).len()).0
}

/// The first `n` of these nodes that are not done.
pub open spec fn left_over(ids: Seq<NodeId>, done: Seq<NodeId>, n: int) -> Seq<NodeId>
    decreases n,
{
    if n <= 0 {
        Seq::empty()
    } else if done.contains(ids[n - 1]) {
        left_over(ids, done, n - 1)
    } else {
        left_over(ids, done, n - 1).push(ids[n - 1])
    }
}

/// The nodes in play in an order of dependency, or those that have none.
pub open spec fn topological(g: GraphView, subset: Option<Set<NodeId>>) -> Result<
    Seq<NodeId>,
    GraphErrorView,
> {
    let all = members(g, subset);
    let done = placed(g, subset);
    if done.len() == all.len() {
        Ok(done)
    } else {
        Err(GraphErrorView::Cycle { nodes: left_over(all, done, all.len() as int) })
    }
}

proof fn lemma_held_start(
    edges: Seq<EdgeView>,
    subset: Option<Set<NodeId>>,
    done: Seq<NodeId>,
    node: NodeId,
    id: NodeId,
    m: int,
)
    ensures
        held(edges, subset, done, node, 0, id, m) == waits(edges, subset, done, id, m),
    decreases m,
{
    if m > 0 {
        lemma_held_start(edges, subset, done, node, id, m - 1);
    }
}

proof fn lemma_held_end(
    edges: Seq<EdgeView>,
    subset: Option<Set<NodeId>>,
    done: Seq<NodeId>,
    node: NodeId,
    k: int,
    id: NodeId,
    m: int,
)
    requires
        m <= k,
    ensures
        held(edges, subset, done, node, k, id, m) == waits(edges, subset, done.push(node), id, m),
    decreases m,
{
    if m > 0 {
        lemma_held_end(edges, subset, done, node, k, id, m - 1);
        let x = edges[m - 1].from.node;
        lemma_pushed(done, node, x);
    }
}

/// What a sequence with one more element holds.
proof fn lemma_pushed(s: Seq<NodeId>, a: NodeId, x: NodeId)
    ensures
        s.push(a).contains(x) <==> s.contains(x) || x == a,
{
    let t = s.push(a);
    if t.contains(x) {
        let i = choose|i: int| 0 <= i < t.len() && t[i] == x;
        if i < s.len() {
            assert(s[i] == x);
        }
    }
    if s.contains(x) {
        let i = choose|i: int| 0 <= i < s.len() && s[i] == x;
        assert(t[i] == x);
    }
    assert(t[s.len() as int] == a);
}

proof fn lemma_held_step(
    edges: Seq<EdgeView>,
    subset: Option<Set<NodeId>>,
    done: Seq<NodeId>,
    node: NodeId,
    k: int,
    id: NodeId,
    m: int,
)
    requires
        0 <= k,
        !done.contains(node),
    ensures
        held(edges, subset, done, node, k + 1, id, m) == held(
            edges,
            subset,
            done,
            node,
            k,
            id,
            m,
        ) - (if k < m && edges[k].from.node == node && hinders(subset, edges[k], id) {
            1int
        } else {
            0int
        }),
    decreases m,
{
    if m > 0 {
        lemma_held_step(edges, subset, done, node, k, id, m - 1);
    }
}

proof fn lemma_held_bounds(
    edges: Seq<EdgeView>,
    subset: Option<Set<NodeId>>,
    done: Seq<NodeId>,
    node: NodeId,
    k: int,
    id: NodeId,
    m: int,
)
    ensures
        0 <= held(edges, subset, done, node, k, id, m) <= (if m <= 0 {
            0
        } else {
            m
        }),
    decreases m,
{
    if m > 0 {
        lemma_held_bounds(edges, subset, done, node, k, id, m - 1);
    }
}

proof fn lemma_waits(
    edges: Seq<EdgeView>,
    subset: Option<Set<NodeId>>,
    done: Seq<NodeId>,
    id: NodeId,
    m: int,
)
    ensures
        0 <= waits(edges, subset, done, id, m) <= (if m <= 0 {
            0
        } else {
            m
        }),
        waits(edges, subset, done, id, m) == 0 <==> (forall|i: int|
            0 <= i < m && hinders(subset, #[trigger] edges[i], id) ==> done.contains(
                edges[i].from.node,
            )),
    decreases m,
{
    if m > 0 {
        lemma_waits(edges, subset, done, id, m - 1);
        let e = edges[m - 1];
        if waits(edges, subset, done, id, m) == 0 {
            assert forall|i: int|
                0 <= i < m && hinders(subset, #[trigger] edges[i], id) implies done.contains(
                edges[i].from.node,
            ) by {
                if i < m - 1 {
                    assert(hinders(subset, edges[i], id));
                }
            }
        }
    }
}

proof fn lemma_kept(g: GraphView, subset: Option<Set<NodeId>>, n: int)
    requires
        idmap::lists(g.ids(), g.nodes.dom()),
        n <= g.ids().len(),
    ensures
        kept(g.ids(), subset, n).no_duplicates(),
        kept(g.ids(), subset, n).len() <= (if n <= 0 {
            0
        } else {
            n
        }),
        forall|x: NodeId| #[trigger]
            kept(g.ids(), subset, n).contains(x) <==> included(subset, x) && exists|j: int|
                0 <= j < n && #[trigger] g.ids()[j] == x,
    decreases n,
{
    let ids = g.ids();
    let t = kept(ids, subset, n);
    if n > 0 {
        lemma_kept(g, subset, n - 1);
        let before = kept(ids, subset, n - 1);
        assert forall|x: NodeId| #[trigger] t.contains(x) <==> included(subset, x) && exists|j: int|
            0 <= j < n && #[trigger] ids[j] == x by {
            lemma_pushed(before, ids[n - 1], x);
            if included(subset, x) && exists|j: int| 0 <= j < n && #[trigger] ids[j] == x {
                let j = choose|j: int| 0 <= j < n && #[trigger] ids[j] == x;
                if j < n - 1 {
                    assert(before.contains(x));
                }
            }
            if before.contains(x) {
                let j = choose|j: int| 0 <= j < n - 1 && #[trigger] ids[j] == x;
                assert(ids[j] == x);
            }
        }
        if included(subset, ids[n - 1]) {
            if before.contains(ids[n - 1]) {
                let j = choose|j: int| 0 <= j < n - 1 && #[trigger] ids[j] == ids[n - 1];
                assert(ids[j] == ids[n - 1]);
            }
        }
    } else {
        assert forall|x: NodeId| #[trigger] t.contains(x) <==> included(subset, x) && exists|j: int|
            0 <= j < n && #[trigger] ids[j] == x by {}
    }
}

/// The members are the nodes in play, each once.
pub proof fn lemma_members(g: GraphView, subset: Option<Set<NodeId>>)
    requires
        idmap::lists(g.ids(), g.nodes.dom()),
    ensures
        members(g, subset).no_duplicates(),
        forall|x: NodeId| #[trigger]
            members(g, subset).contains(x) <==> in_play(g, subset, x),
{
    let ids = g.ids();
    lemma_kept(g, subset, ids.len() as int);
    assert forall|x: NodeId| #[trigger] members(g, subset).contains(x) <==> in_play(
        g,
        subset,
        x,
    ) by {
        if in_play(g, subset, x) {
            assert(g.nodes.dom().contains(x));
            assert(ids.contains(x));
            let j = choose|j: int| 0 <= j < ids.len() && ids[j] == x;
            assert(ids[j] == x);
        }
        if members(g, subset).contains(x) {
            let j = choose|j: int| 0 <= j < ids.len() && #[trigger] ids[j] == x;
            assert(ids.contains(x));
            assert(g.nodes.dom().contains(x));
        }
    }
}

/// Every placed node comes after each node it waits for.
pub open spec fn fed_before(g: GraphView, subset: Option<Set<NodeId>>, done: Seq<NodeId>) -> bool {
    forall|i: int, j: int|
        #![trigger g.edges[i], done[j]]
        0 <= i < g.edges.len() && 0 <= j < done.len() && hinders(subset, g.edges[i], done[j])
            ==> done.take(j).contains(g.edges[i].from.node)
}

/// What holds of the nodes placed and the nodes ready at any time: each is in
/// play, waits for nothing and is there once, and nothing else is so.
spec fn sound(
    g: GraphView,
    subset: Option<Set<NodeId>>,
    done: Seq<NodeId>,
    queue: Seq<NodeId>,
) -> bool {
    let m = g.edges.len() as int;
    &&& done.no_duplicates()
    &&& queue.no_duplicates()
    &&& forall|x: NodeId| #[trigger] done.contains(x) ==> !queue.contains(x)
    &&& forall|x: NodeId| #[trigger]
        done.contains(x) ==> in_play(g, subset, x) && waits(g.edges, subset, done, x, m) == 0
    &&& forall|x: NodeId| #[trigger]
        queue.contains(x) ==> in_play(g, subset, x) && waits(g.edges, subset, done, x, m) == 0
    &&& forall|x: NodeId| #[trigger]
        in_play(g, subset, x) && waits(g.edges, subset, done, x, m) == 0 ==> done.contains(x)
            || queue.contains(x)
    &&& fed_before(g, subset, done)
}

/// As [`sound`], while the edges out of `node` are looked at.
spec fn sound_at(
    g: GraphView,
    subset: Option<Set<NodeId>>,
    done: Seq<NodeId>,
    node: NodeId,
    queue: Seq<NodeId>,
    k: int,
) -> bool {
    let m = g.edges.len() as int;
    let now = done.push(node);
    &&& now.no_duplicates()
    &&& queue.no_duplicates()
    &&& forall|x: NodeId| #[trigger] now.contains(x) ==> !queue.contains(x)
    &&& forall|x: NodeId| #[trigger]
        now.contains(x) ==> in_play(g, subset, x) && held(g.edges, subset, done, node, k, x, m) == 0
    &&& forall|x: NodeId| #[trigger]
        queue.contains(x) ==> in_play(g, subset, x) && held(g.edges, subset, done, node, k, x, m)
            == 0
    &&& forall|x: NodeId| #[trigger]
        in_play(g, subset, x) && held(g.edges, subset, done, node, k, x, m) == 0 ==> now.contains(x)
            || queue.contains(x)
}

proof fn lemma_sound_start(g: GraphView, subset: Option<Set<NodeId>>)
    requires
        idmap::lists(g.ids(), g.nodes.dom()),
    ensures
        sound(g, subset, placing(g, subset, 0).0, placing(g, subset, 0).1),
{
    let all = members(g, subset);
    lemma_members(g, subset);
    lemma_ready(g, subset, all, all.len() as int);
    let none = Seq::<NodeId>::empty();
    let queue = placing(g, subset, 0).1;
    assert forall|x: NodeId| #[trigger] in_play(g, subset, x) && waits(
        g.edges,
        subset,
        none,
        x,
        g.edges.len() as int,
    ) == 0 implies queue.contains(x) by {
        assert(all.contains(x));
        let j = choose|j: int| 0 <= j < all.len() && all[j] == x;
        assert(all[j] == x);
    }
    assert forall|x: NodeId| #[trigger] queue.contains(x) implies in_play(g, subset, x) by {
        let j = choose|j: int| 0 <= j < all.len() && #[trigger] all[j] == x;
        assert(all.contains(x));
    }
}

proof fn lemma_ready(g: GraphView, subset: Option<Set<NodeId>>, ids: Seq<NodeId>, n: int)
    requires
        ids.no_duplicates(),
        n <= ids.len(),
    ensures
        ready(g, subset, ids, n).no_duplicates(),
        forall|x: NodeId| #[trigger]
            ready(g, subset, ids, n).contains(x) <==> waits(
                g.edges,
                subset,
                Seq::empty(),
                x,
                g.edges.len() as int,
            ) == 0 && exists|j: int| 0 <= j < n && #[trigger] ids[j] == x,
    decreases n,
{
    let t = ready(g, subset, ids, n);
    let none = Seq::<NodeId>::empty();
    let m = g.edges.len() as int;
    if n > 0 {
        lemma_ready(g, subset, ids, n - 1);
        let before = ready(g, subset, ids, n - 1);
        assert forall|x: NodeId| #[trigger] t.contains(x) <==> waits(g.edges, subset, none, x, m)
            == 0 && exists|j: int| 0 <= j < n && #[trigger] ids[j] == x by {
            lemma_pushed(before, ids[n - 1], x);
            if exists|j: int| 0 <= j < n && #[trigger] ids[j] == x {
                let j = choose|j: int| 0 <= j < n && #[trigger] ids[j] == x;
                if j < n - 1 && waits(g.edges, subset, none, x, m) == 0 {
                    assert(before.contains(x));
                }
            }
            if before.contains(x) {
                let j = choose|j: int| 0 <= j < n - 1 && #[trigger] ids[j] == x;
                assert(ids[j] == x);
            }
        }
        if before.contains(ids[n - 1]) {
            let j = choose|j: int| 0 <= j < n - 1 && #[trigger] ids[j] == ids[n - 1];
            assert(ids[j] == ids[n - 1]);
        }
    } else {
        assert forall|x: NodeId| #[trigger] t.contains(x) <==> waits(g.edges, subset, none, x, m)
            == 0 && exists|j: int| 0 <= j < n && #[trigger] ids[j] == x by {}
    }
}

proof fn lemma_sound_taken(
    g: GraphView,
    subset: Option<Set<NodeId>>,
    done: Seq<NodeId>,
    queue: Seq<NodeId>,
)
    requires
        sound(g, subset, done, queue),
        queue.len() > 0,
    ensures
        sound_at(g, subset, done, queue[0], queue.skip(1), 0),
        fed_before(g, subset, done.push(queue[0])),
        !done.contains(queue[0]),
        in_play(g, subset, queue[0]),
{
    let node = queue[0];
    let rest = queue.skip(1);
    let now = done.push(node);
    let m = g.edges.len() as int;
    assert(queue.contains(node));
    assert forall|x: NodeId| #[trigger] rest.contains(x) <==> queue.contains(x) && x != node by {
        if rest.contains(x) {
            let j = choose|j: int| 0 <= j < rest.len() && rest[j] == x;
            assert(queue[j + 1] == x);
        }
        if queue.contains(x) && x != node {
            let j = choose|j: int| 0 <= j < queue.len() && queue[j] == x;
            assert(rest[j - 1] == x);
        }
    }
    assert forall|x: NodeId| #[trigger] now.contains(x) <==> done.contains(x) || x == node by {
        lemma_pushed(done, node, x);
    }
    assert(now.no_duplicates()) by {
        assert(!done.contains(node));
        assert forall|i: int, j: int|
            0 <= i < now.len() && 0 <= j < now.len() && i != j implies now[i] != now[j] by {
            if i < done.len() {
                assert(done.contains(done[i]));
            }
            if j < done.len() {
                assert(done.contains(done[j]));
            }
        }
    }
    assert(rest.no_duplicates()) by {
        assert forall|i: int, j: int|
            0 <= i < rest.len() && 0 <= j < rest.len() && i != j implies rest[i] != rest[j] by {
            assert(rest[i] == queue[i + 1] && rest[j] == queue[j + 1]);
        }
    }
    assert forall|x: NodeId| #[trigger] rest.contains(x) implies x != node by {
        let j = choose|j: int| 0 <= j < rest.len() && rest[j] == x;
        assert(queue[j + 1] == x);
    }
    assert forall|x: NodeId|
        held(g.edges, subset, done, node, 0, x, m) == #[trigger] waits(
            g.edges,
            subset,
            done,
            x,
            m,
        ) by {
        lemma_held_start(g.edges, subset, done, node, x, m);
    }
    assert forall|x: NodeId| #[trigger] now.contains(x) implies in_play(g, subset, x) && held(
        g.edges,
        subset,
        done,
        node,
        0,
        x,
        m,
    ) == 0 by {
        lemma_held_start(g.edges, subset, done, node, x, m);
    }
    assert forall|x: NodeId| #[trigger] rest.contains(x) implies in_play(g, subset, x) && held(
        g.edges,
        subset,
        done,
        node,
        0,
        x,
        m,
    ) == 0 by {
        lemma_held_start(g.edges, subset, done, node, x, m);
    }
    assert forall|x: NodeId| #[trigger] in_play(g, subset, x) && held(
        g.edges,
        subset,
        done,
        node,
        0,
        x,
        m,
    ) == 0 implies now.contains(x) || rest.contains(x) by {
        lemma_held_start(g.edges, subset, done, node, x, m);
    }
    assert forall|i: int, j: int|
        #![trigger g.edges[i], now[j]]
        0 <= i < g.edges.len() && 0 <= j < now.len() && hinders(
            subset,
            g.edges[i],
            now[j],
        ) implies now.take(j).contains(g.edges[i].from.node) by {
        if j < done.len() {
            assert(now[j] == done[j]);
            assert(now.take(j) =~= done.take(j));
        } else {
            assert(now.take(j) =~= done);
            lemma_waits(g.edges, subset, done, node, m);
        }
    }
}

proof fn lemma_sound_edge(
    g: GraphView,
    subset: Option<Set<NodeId>>,
    done: Seq<NodeId>,
    node: NodeId,
    queue: Seq<NodeId>,
    k: int,
)
    requires
        0 <= k < g.edges.len(),
        !done.contains(node),
        in_play(g, subset, node),
        sound_at(g, subset, done, node, queue, k),
    ensures
        sound_at(
            g,
            subset,
            done,
            node,
            joined(g, subset, done, node, queue, k),
            k + 1,
        ),
{
    let e = g.edges[k];
    let id = e.to.node;
    let m = g.edges.len() as int;
    let now = done.push(node);
    assert forall|x: NodeId|
        held(g.edges, subset, done, node, k + 1, x, m) == #[trigger] held(
            g.edges,
            subset,
            done,
            node,
            k,
            x,
            m,
        ) - (if e.from.node == node && hinders(subset, e, x) {
            1int
        } else {
            0int
        }) by {
        lemma_held_step(g.edges, subset, done, node, k, x, m);
    }
    assert forall|x: NodeId| 0 <= #[trigger] held(g.edges, subset, done, node, k + 1, x, m) by {
        lemma_held_bounds(g.edges, subset, done, node, k + 1, x, m);
    }
    assert forall|x: NodeId|
        held(g.edges, subset, done, node, k, x, m) == 0 implies #[trigger] held(
        g.edges,
        subset,
        done,
        node,
        k + 1,
        x,
        m,
    ) == 0 by {
        lemma_held_step(g.edges, subset, done, node, k, x, m);
    }
    let next = joined(g, subset, done, node, queue, k);
    assert forall|x: NodeId| #[trigger] next.contains(x) implies queue.contains(x) || (next
        != queue && x == id) by {
        lemma_pushed(queue, id, x);
    }
    if next != queue {
        assert(hinders(subset, e, id));
        assert(held(g.edges, subset, done, node, k, id, m) == 1);
        assert(!now.contains(id));
        assert(!queue.contains(id));
    }
    assert forall|x: NodeId| #[trigger] now.contains(x) implies held(
        g.edges,
        subset,
        done,
        node,
        k + 1,
        x,
        m,
    ) == 0 by {
        assert(held(g.edges, subset, done, node, k, x, m) == 0);
    }
    assert forall|x: NodeId| #[trigger] next.contains(x) implies in_play(g, subset, x) && held(
        g.edges,
        subset,
        done,
        node,
        k + 1,
        x,
        m,
    ) == 0 by {
        if queue.contains(x) {
            assert(held(g.edges, subset, done, node, k, x, m) == 0);
        }
    }
    assert forall|x: NodeId| #[trigger] in_play(g, subset, x) && held(
        g.edges,
        subset,
        done,
        node,
        k + 1,
        x,
        m,
    ) == 0 implies now.contains(x) || next.contains(x) by {
        lemma_pushed(queue, id, x);
        if held(g.edges, subset, done, node, k, x, m) == 0 {
            assert(now.contains(x) || queue.contains(x));
        } else {
            assert(x == id);
        }
    }
}

proof fn lemma_freed(
    g: GraphView,
    subset: Option<Set<NodeId>>,
    done: Seq<NodeId>,
    node: NodeId,
    queue: Seq<NodeId>,
    k: int,
)
    requires
        0 <= k <= g.edges.len(),
        !done.contains(node),
        in_play(g, subset, node),
        sound_at(g, subset, done, node, queue, 0),
    ensures
        sound_at(g, subset, done, node, freed(g, subset, done, node, queue, k), k),
    decreases k,
{
    if k > 0 {
        lemma_freed(g, subset, done, node, queue, k - 1);
        lemma_sound_edge(
            g,
            subset,
            done,
            node,
            freed(g, subset, done, node, queue, k - 1),
            k - 1,
        );
    }
}

proof fn lemma_sound_after(
    g: GraphView,
    subset: Option<Set<NodeId>>,
    done: Seq<NodeId>,
    node: NodeId,
    queue: Seq<NodeId>,
)
    requires
        sound_at(g, subset, done, node, queue, g.edges.len() as int),
        fed_before(g, subset, done.push(node)),
    ensures
        sound(g, subset, done.push(node), queue),
{
    let m = g.edges.len() as int;
    let now = done.push(node);
    assert forall|x: NodeId|
        #![trigger held(g.edges, subset, done, node, m, x, m)]
        #![trigger waits(g.edges, subset, now, x, m)]
        held(g.edges, subset, done, node, m, x, m) == waits(g.edges, subset, now, x, m) by {
        lemma_held_end(g.edges, subset, done, node, m, x, m);
    }
}

proof fn lemma_sound(g: GraphView, subset: Option<Set<NodeId>>, n: nat)
    requires
        idmap::lists(g.ids(), g.nodes.dom()),
    ensures
        sound(g, subset, placing(g, subset, n).0, placing(g, subset, n).1),
        placing(g, subset, n).0.len() == n || placing(g, subset, n).1.len() == 0,
    decreases n,
{
    if n == 0 {
        lemma_sound_start(g, subset);
    } else {
        lemma_sound(g, subset, (n - 1) as nat);
        let (done, queue) = placing(g, subset, (n - 1) as nat);
        if queue.len() > 0 {
            let m = g.edges.len() as int;
            lemma_sound_taken(g, subset, done, queue);
            lemma_freed(g, subset, done, queue[0], queue.skip(1), m);
            lemma_sound_after(
                g,
                subset,
                done,
                queue[0],
                freed(g, subset, done, queue[0], queue.skip(1), m),
            );
        }
    }
}

/// No more nodes are placed than there are in play, and where as many are,
/// all are.
proof fn lemma_room(all: Seq<NodeId>, done: Seq<NodeId>)
    requires
        all.no_duplicates(),
        done.no_duplicates(),
        forall|x: NodeId| #[trigger] done.contains(x) ==> all.contains(x),
    ensures
        done.len() <= all.len(),
        done.len() == all.len() ==> forall|x: NodeId| #[trigger] all.contains(x) ==> done.contains(
            x,
        ),
{
    all.unique_seq_to_set();
    done.unique_seq_to_set();
    let a = all.to_set();
    let d = done.to_set();
    assert forall|x: NodeId| d.contains(x) implies a.contains(x) by {
        assert(done.contains(x));
    }
    assert(d.subset_of(a));
    vstd::set_lib::lemma_len_subset(d, a);
    if done.len() == all.len() {
        vstd::set_lib::lemma_subset_equality(d, a);
        assert forall|x: NodeId| #[trigger] all.contains(x) implies done.contains(x) by {
            assert(a.contains(x));
            assert(d.contains(x));
        }
    }
}

/// Once nothing is ready, nothing changes.
proof fn lemma_settled(g: GraphView, subset: Option<Set<NodeId>>, n: nat, m: nat)
    requires
        placing(g, subset, n).1.len() == 0,
        n <= m,
    ensures
        placing(g, subset, m) == placing(g, subset, n),
    decreases m,
{
    if n < m {
        lemma_settled(g, subset, n, (m - 1) as nat);
    }
}

/// When as many nodes were placed as there are in play, none is ready.
proof fn lemma_all_placed(g: GraphView, subset: Option<Set<NodeId>>)
    requires
        idmap::lists(g.ids(), g.nodes.dom()),
    ensures
        placing(g, subset, members(g, subset).len()).1.len() == 0,
        sound(g, subset, placed(g, subset), Seq::empty()),
        placed(g, subset).len() <= members(g, subset).len(),
        placed(g, subset).len() == members(g, subset).len() ==> forall|x: NodeId|
            #[trigger] members(g, subset).contains(x) ==> placed(g, subset).contains(x),
{
    let all = members(g, subset);
    let (done, queue) = placing(g, subset, all.len());
    lemma_members(g, subset);
    lemma_sound(g, subset, all.len());
    assert forall|x: NodeId| #[trigger] done.contains(x) implies all.contains(x) by {
        assert(in_play(g, subset, x));
    }
    lemma_room(all, done);
    if queue.len() > 0 {
        assert(queue.contains(queue[0]));
        assert(in_play(g, subset, queue[0]));
        assert(all.contains(queue[0]));
    }
    assert(queue =~= Seq::<NodeId>::empty());
}

/// An order of dependency holds every node in play once, each after every
/// node that feeds it.
pub proof fn order_respects_edges(g: GraphView, subset: Option<Set<NodeId>>)
    requires
        topological(g, subset) is Ok,
    ensures
        topological(g, subset)->Ok_0.no_duplicates(),
        forall|x: NodeId| #[trigger]
            topological(g, subset)->Ok_0.contains(x) <==> in_play(g, subset, x),
        fed_before(g, subset, topological(g, subset)->Ok_0),
{
    idmap::lemma_in_order(g.nodes.dom());
    lemma_members(g, subset);
    lemma_all_placed(g, subset);
    let done = placed(g, subset);
    assert forall|x: NodeId| #[trigger] done.contains(x) <==> in_play(g, subset, x) by {
        if in_play(g, subset, x) {
            assert(members(g, subset).contains(x));
        }
    }
}

proof fn lemma_left_over(ids: Seq<NodeId>, done: Seq<NodeId>, n: int)
    requires
        n <= ids.len(),
    ensures
        forall|x: NodeId| #[trigger]
            left_over(ids, done, n).contains(x) <==> !done.contains(x) && exists|j: int|
                0 <= j < n && #[trigger] ids[j] == x,
    decreases n,
{
    let t = left_over(ids, done, n);
    if n > 0 {
        lemma_left_over(ids, done, n - 1);
        let before = left_over(ids, done, n - 1);
        assert forall|x: NodeId| #[trigger] t.contains(x) <==> !done.contains(x) && exists|j: int|
            0 <= j < n && #[trigger] ids[j] == x by {
            lemma_pushed(before, ids[n - 1], x);
            if !done.contains(x) && exists|j: int| 0 <= j < n && #[trigger] ids[j] == x {
                let j = choose|j: int| 0 <= j < n && #[trigger] ids[j] == x;
                if j < n - 1 {
                    assert(before.contains(x));
                }
            }
            if before.contains(x) {
                let j = choose|j: int| 0 <= j < n - 1 && #[trigger] ids[j] == x;
                assert(ids[j] == x);
            }
        }
    } else {
        assert forall|x: NodeId| #[trigger] t.contains(x) <==> !done.contains(x) && exists|j: int|
            0 <= j < n && #[trigger] ids[j] == x by {}
    }
}

/// Where there is no order, each of the nodes reported is fed by another of
/// them, or by a node that is not in the graph; and there is one.
pub proof fn nodes_without_order_wait_for_each_other(g: GraphView, subset: Option<Set<NodeId>>)
    requires
        topological(g, subset) is Err,
    ensures
        topological(g, subset)->Err_0 matches GraphErrorView::Cycle { nodes } && nodes.len() > 0
            && forall|x: NodeId| #[trigger]
            nodes.contains(x) ==> exists|i: int|
                0 <= i < g.edges.len() && hinders(subset, #[trigger] g.edges[i], x) && (
                nodes.contains(g.edges[i].from.node) || !g.nodes.contains_key(
                    g.edges[i].from.node,
                )),
{
    idmap::lemma_in_order(g.nodes.dom());
    lemma_members(g, subset);
    lemma_all_placed(g, subset);
    let all = members(g, subset);
    let done = placed(g, subset);
    let m = g.edges.len() as int;
    lemma_left_over(all, done, all.len() as int);
    let nodes = left_over(all, done, all.len() as int);
    if nodes.len() == 0 {
        assert forall|x: NodeId| #[trigger] all.contains(x) implies done.contains(x) by {
            let j = choose|j: int| 0 <= j < all.len() && all[j] == x;
            assert(all[j] == x);
            assert(!nodes.contains(x));
        }
        lemma_room(done, all);
    }
    assert forall|x: NodeId| #[trigger] nodes.contains(x) implies exists|i: int|
        0 <= i < g.edges.len() && hinders(subset, #[trigger] g.edges[i], x) && (nodes.contains(
            g.edges[i].from.node,
        ) || !g.nodes.contains_key(g.edges[i].from.node)) by {
        let j = choose|j: int| 0 <= j < all.len() && #[trigger] all[j] == x;
        assert(all.contains(x));
        assert(in_play(g, subset, x));
        assert(!Seq::<NodeId>::empty().contains(x));
        lemma_waits(g.edges, subset, done, x, m);
        let i = choose|i: int|
            0 <= i < m && hinders(subset, #[trigger] g.edges[i], x) && !done.contains(
                g.edges[i].from.node,
            );
        let from = g.edges[i].from.node;
        if g.nodes.contains_key(from) {
            assert(in_play(g, subset, from));
            assert(all.contains(from));
            let k = choose|k: int| 0 <= k < all.len() && all[k] == from;
            assert(all[k] == from);
        }
    }
}

/// Whether a node is asked for.
fn is_included(subset: Option<&NodeSet>, id: NodeId) -> (r: bool)
    ensures
        r == included(text::opt_of(subset), id),
{
    match subset {
        Some(set) => set.contains(id),
        None => true,
    }
}

impl Graph {
    /// The nodes in an order in which each comes after what feeds it: those
    /// that wait for nothing by id, then each as the last node it waited for
    /// is placed. Only edges between nodes of `subset` count.
    pub fn topological_order(&self, subset: Option<&NodeSet>) -> (r: Result<
        Vec<NodeId>,
        GraphError,
    >)
        ensures
            match (r, topological(self@, text::opt_of(subset))) {
                (Ok(v), Ok(s)) => v@ == s,
                (Err(e), Err(v)) => e@ == v,
                _ => false,
            },
    {
        let ghost g = self@;
        let ghost sub = text::opt_of(subset);
        let ghost ids = g.ids();
        let ghost es = g.edges;
        let ghost none = Seq::<NodeId>::empty();
        proof {
            idmap::lemma_in_order(g.nodes.dom());
            lemma_members(g, sub);
        }
        let mut all: Vec<NodeId> = Vec::new();
        let mut counts: IdMap<usize> = IdMap::new();
        let n: usize = self.nodes.len();
        let mut i: usize = 0;
        while i < n
            invariant
                i <= n == ids.len(),
                g == self@,
                g.nodes == self.nodes@.nodes,
                ids == g.ids(),
                sub == text::opt_of(subset),
                all@ == kept(ids, sub, i as int),
                forall|x: NodeId| #[trigger] counts@.contains_key(x) <==> all@.contains(x),
                forall|x: NodeId| #[trigger] counts@.contains_key(x) ==> counts@[x] == 0,
            decreases n - i,
        {
            let id = self.nodes.key_at(i);
            if is_included(subset, id) {
                let ghost before = all@;
                all.push(id);
                counts.insert(id, 0);
                proof {
                    assert forall|x: NodeId| #[trigger] all@.contains(x) <==> before.contains(x)
                        || x == id by {
                        lemma_pushed(before, id, x);
                    }
                }
            }
            i += 1;
        }
        assert(all@ == members(g, sub));
        let mut i: usize = 0;
        while i < self.edges.len()
            invariant
                i <= es.len() == self.edges@.len(),
                g == self@,
                es == g.edges,
                es == text::seq_of(self.edges@),
                sub == text::opt_of(subset),
                none == Seq::<NodeId>::empty(),
                forall|x: NodeId| #[trigger] counts@.contains_key(x) <==> all@.contains(x),
                forall|x: NodeId| #[trigger]
                    counts@.contains_key(x) ==> counts@[x] == waits(es, sub, none, x, i as int),
            decreases es.len() - i,
        {
            let edge = &self.edges[i];
            assert(es[i as int] == edge@);
            let ghost held = counts@;
            if is_included(subset, edge.from.node) && is_included(subset, edge.to.node) {
                match counts.get(edge.to.node) {
                    Some(count) => {
                        let c: usize = *count;
                        proof {
                            lemma_waits(es, sub, none, edge.to.node, i as int);
                        }
                        counts.insert(edge.to.node, c + 1);
                    },
                    None => {},
                }
            }
            i += 1;
        }
        let mut queue: Vec<NodeId> = Vec::new();
        let mut i: usize = 0;
        let total: usize = all.len();
        while i < total
            invariant
                i <= total == all@.len(),
                all@ == members(g, sub),
                es == g.edges,
                none == Seq::<NodeId>::empty(),
                forall|x: NodeId| #[trigger] counts@.contains_key(x) <==> all@.contains(x),
                forall|x: NodeId| #[trigger]
                    counts@.contains_key(x) ==> counts@[x] == waits(
                        es,
                        sub,
                        none,
                        x,
                        es.len() as int,
                    ),
                queue@ == ready(g, sub, all@, i as int),
            decreases total - i,
        {
            let id = all[i];
            assert(all@.contains(id));
            match counts.get(id) {
                Some(count) => {
                    if *count == 0 {
                        queue.push(id);
                    }
                },
                None => {},
            }
            i += 1;
        }
        let mut order: Vec<NodeId> = Vec::new();
        let ghost mut steps: nat = 0;
        assert(order@ =~= placing(g, sub, 0).0);
        while queue.len() > 0
            invariant
                g == self@,
                es == g.edges,
                es == text::seq_of(self.edges@),
                es.len() == self.edges@.len(),
                sub == text::opt_of(subset),
                idmap::lists(g.ids(), g.nodes.dom()),
                all@ == members(g, sub),
                forall|x: NodeId| #[trigger] all@.contains(x) <==> in_play(g, sub, x),
                forall|x: NodeId| #[trigger] counts@.contains_key(x) <==> in_play(g, sub, x),
                forall|x: NodeId| #[trigger]
                    counts@.contains_key(x) ==> counts@[x] == waits(
                        es,
                        sub,
                        order@,
                        x,
                        es.len() as int,
                    ),
                (order@, queue@) == placing(g, sub, steps),
                order@.len() == steps,
            decreases all@.len() + 1 - order@.len(),
        {
            let ghost done = order@;
            let ghost line = queue@;
            let ghost m = es.len() as int;
            proof {
                lemma_sound(g, sub, steps);
                lemma_sound_taken(g, sub, done, line);
                lemma_members(g, sub);
                assert forall|x: NodeId| #[trigger] done.contains(x) implies all@.contains(
                    x,
                ) by {
                    assert(in_play(g, sub, x));
                }
                lemma_room(all@, done);
            }
            let node = queue.remove(0);
            order.push(node);
            let ghost rest = line.skip(1);
            proof {
                assert(queue@ =~= rest);
                assert forall|x: NodeId| #[trigger] counts@.contains_key(x) implies counts@[x]
                    == held(es, sub, done, node, 0, x, m) by {
                    lemma_held_start(es, sub, done, node, x, m);
                }
            }
            let mut k: usize = 0;
            while k < self.edges.len()
                invariant
                    k <= es.len(),
                    g == self@,
                    es == g.edges,
                    es == text::seq_of(self.edges@),
                    es.len() == self.edges@.len(),
                    m == es.len(),
                    sub == text::opt_of(subset),
                    !done.contains(node),
                    in_play(g, sub, node),
                    sound_at(g, sub, done, node, rest, 0),
                    forall|x: NodeId| #[trigger] counts@.contains_key(x) <==> in_play(g, sub, x),
                    forall|x: NodeId| #[trigger]
                        counts@.contains_key(x) ==> counts@[x] == held(
                            es,
                            sub,
                            done,
                            node,
                            k as int,
                            x,
                            m,
                        ),
                    queue@ == freed(g, sub, done, node, rest, k as int),
                decreases es.len() - k,
            {
                let edge = &self.edges[k];
                assert(es[k as int] == edge@);
                let ghost before = counts@;
                let to = edge.to.node;
                proof {
                    assert forall|x: NodeId|
                        held(es, sub, done, node, k + 1, x, m) == #[trigger] held(
                            es,
                            sub,
                            done,
                            node,
                            k as int,
                            x,
                            m,
                        ) - (if edge@.from.node == node && hinders(sub, edge@, x) {
                            1int
                        } else {
                            0int
                        }) by {
                        lemma_held_step(es, sub, done, node, k as int, x, m);
                    }
                    lemma_held_bounds(es, sub, done, node, k + 1, to, m);
                }
                if edge.from.node.0 == node.0 && is_included(subset, to) {
                    match counts.get(to) {
                        Some(count) => {
                            let c: usize = *count;
                            assert(hinders(sub, edge@, to));
                            counts.insert(to, c - 1);
                            if c - 1 == 0 {
                                queue.push(to);
                            }
                        },
                        None => {},
                    }
                }
                k += 1;
            }
            proof {
                assert forall|x: NodeId| #[trigger] counts@.contains_key(x) implies counts@[x]
                    == waits(es, sub, order@, x, m) by {
                    lemma_held_end(es, sub, done, node, m, x, m);
                }
                steps = steps + 1;
                assert(placing(g, sub, steps) == (
                    done.push(line[0]),
                    freed(g, sub, done, line[0], line.skip(1), m),
                ));
            }
        }
        proof {
            lemma_sound(g, sub, steps);
            lemma_members(g, sub);
            assert forall|x: NodeId| #[trigger] order@.contains(x) implies all@.contains(x) by {
                assert(in_play(g, sub, x));
            }
            lemma_room(all@, order@);
            lemma_settled(g, sub, steps, all@.len());
            assert(order@ == placed(g, sub));
        }
        if order.len() != all.len() {
            let mut placed_set = NodeSet::new();
            let mut i: usize = 0;
            while i < order.len()
                invariant
                    i <= order@.len(),
                    forall|x: NodeId| #[trigger]
                        placed_set@.contains(x) <==> order@.take(i as int).contains(x),
                decreases order@.len() - i,
            {
                placed_set.insert(order[i]);
                proof {
                    assert(order@.take(i + 1) =~= order@.take(i as int).push(order@[i as int]));
                    assert forall|x: NodeId| #[trigger] placed_set@.contains(x) <==> order@.take(
                        i + 1,
                    ).contains(x) by {
                        lemma_pushed(order@.take(i as int), order@[i as int], x);
                    }
                }
                i += 1;
            }
            assert(order@.take(order@.len() as int) =~= order@);
            let mut nodes: Vec<NodeId> = Vec::new();
            let mut i: usize = 0;
            while i < all.len()
                invariant
                    i <= all@.len(),
                    forall|x: NodeId| #[trigger] placed_set@.contains(x) <==> order@.contains(x),
                    nodes@ == left_over(all@, order@, i as int),
                decreases all@.len() - i,
            {
                if !placed_set.contains(all[i]) {
                    nodes.push(all[i]);
                }
                i += 1;
            }
            return Err(GraphError::Cycle { nodes });
        }
        Ok(order)
    }
}

} // verus!
