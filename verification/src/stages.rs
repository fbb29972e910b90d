//! In which stage each node of a graph runs, and where a value crosses from
//! one to the other.
//!
//! A node runs in the stage that its author says, else in the earliest that
//! can compute it and serves every node that reads it. A value computed per
//! vertex that a fragment node reads is handed over as an interpolant that
//! nobody declared, as far as its type can be interpolated and the locations
//! between the stages last; otherwise both stages compute it.

use vstd::prelude::*;

use crate::abi;
use crate::error::{GraphError, GraphErrorView, GraphErrors};
use crate::graph;
use crate::graph::{
    AttributeDeclView, AttributeFrequency, EdgeView, Graph, GraphView, Kinds, NodeId, ShaderStage,
    SocketRef, SocketRefView, StageConstraint,
};
use crate::idmap;
use crate::idmap::{IdMap, NodeSet};
use crate::ids;
use crate::interface;
use crate::lists;
use crate::node::{NodeRegistry, ValueType};
use crate::outputs;
use crate::outputs::{GraphOutputs, GraphOutputsView};
use crate::resources;
use crate::sorting;
use crate::sorting::sort_stable;
use crate::soundness;
use crate::text;
use crate::text::push_number;
use crate::topology;
use crate::traversal;
use crate::typing;
use crate::wxsl;
use crate::wxsl::WxslIdent;

verus! {

/// A value that crosses from the vertex to the fragment stage.
#[derive(Debug, PartialEq)]
pub struct Cut {
    /// The output that computes it.
    pub socket: SocketRef,
    /// The interpolant it crosses as.
    pub name: WxslIdent,
    /// Its type.
    pub ty: ValueType,
}

/// What a [`Cut`] stands for.
#[verifier::ext_equal]
pub struct CutView {
    /// The output that computes it.
    pub socket: SocketRefView,
    /// The interpolant it crosses as.
    pub name: Seq<char>,
    /// Its type.
    pub ty: ValueType,
}

impl View for Cut {
    type V = CutView;

    open spec fn view(&self) -> CutView {
        CutView {
            socket: self.socket@,
            name: self.name@,
            ty: self.ty,
        }
    }
}

impl Clone for Cut {
    fn clone(&self) -> (r: Self)
        ensures
            r@ == self@,
    {
        Cut {
            socket: self.socket.clone(),
            name: self.name.clone(),
            ty: self.ty,
        }
    }
}

/// In which stage each node runs, and where a value crosses between them.
#[derive(Debug, PartialEq)]
pub struct StagePlan {
    /// The stage of each node that an end depends on, the ends among them.
    pub stage_of: IdMap<ShaderStage>,
    /// The values that cross, in the order of their sockets.
    pub cuts: Vec<Cut>,
    /// The nodes that both stages compute.
    pub duplicated: NodeSet,
}

/// What a [`StagePlan`] stands for.
#[verifier::ext_equal]
pub struct StagePlanView {
    /// The stage of each node that an end depends on.
    pub stage_of: Map<NodeId, ShaderStage>,
    /// The values that cross, in the order of their sockets.
    pub cuts: Seq<CutView>,
    /// The nodes that both stages compute.
    pub duplicated: Set<NodeId>,
}

impl View for StagePlan {
    type V = StagePlanView;

    open spec fn view(&self) -> StagePlanView {
        StagePlanView {
            stage_of: self.stage_of@,
            cuts: text::seq_of(self.cuts@),
            duplicated: self.duplicated@,
        }
    }
}

impl StagePlan {
    /// Whether nothing crosses and nothing is computed twice.
    pub fn is_empty(&self) -> (r: bool)
        ensures
            r == (self@.cuts.len() == 0 && self@.duplicated == Set::<NodeId>::empty()),
    {
        self.cuts.len() == 0 && self.duplicated.is_empty()
    }
}

/// Whether the vertex stage can run a node: it cannot read an interpolant,
/// which it computes itself.
pub open spec fn runs_per_vertex(g: GraphView, kinds: Kinds, id: NodeId) -> bool {
    g.known(kinds, id) && !(g.kind(kinds, id).body is VertexContextRead) ==> match outputs::read_name(
        g,
        kinds,
        id,
    ) {
        Some(name) => match g.attribute(name) {
            Some(decl) => decl.frequency != AttributeFrequency::Computed,
            None => true,
        },
        None => true,
    }
}

/// Whether the fragment stage can run a node: it has no object space.
pub open spec fn runs_per_fragment(g: GraphView, kinds: Kinds, id: NodeId) -> bool {
    g.known(kinds, id) ==> !(g.kind(kinds, id).body is VertexContextRead)
}

/// Whether a node is an end of the vertex stage.
pub open spec fn ends_per_vertex(o: GraphOutputsView, id: NodeId) -> bool {
    ||| o.vertex == Some(id)
    ||| exists|i: int| 0 <= i < o.varyings.len() && (#[trigger] o.varyings[i]).1 == id
}

/// The stages of the ends.
pub open spec fn stages_of_ends(o: GraphOutputsView) -> Map<NodeId, ShaderStage> {
    Map::new(
        |id: NodeId| outputs::is_end(o, id),
        |id: NodeId|
            if ends_per_vertex(o, id) {
                ShaderStage::Vertex
            } else {
                ShaderStage::Fragment
            },
    )
}

/// Whether a node that runs in a stage reads another.
pub open spec fn read_in(
    edges: Seq<EdgeView>,
    stages: Map<NodeId, ShaderStage>,
    id: NodeId,
    stage: ShaderStage,
) -> bool {
    exists|i: int|
        0 <= i < edges.len() && (#[trigger] edges[i]).from.node == id && stages.contains_key(
            edges[i].to.node,
        ) && stages[edges[i].to.node] == stage
}

/// The stage that a node runs in: the one its author says, else the earliest
/// that can run it and serves what reads it.
pub open spec fn stage_for(
    g: GraphView,
    kinds: Kinds,
    stages: Map<NodeId, ShaderStage>,
    id: NodeId,
) -> ShaderStage {
    match graph::stage_of_node(g, id) {
        StageConstraint::Vertex => ShaderStage::Vertex,
        StageConstraint::Fragment => ShaderStage::Fragment,
        StageConstraint::Auto => if runs_per_vertex(g, kinds, id) && (read_in(
            g.edges,
            stages,
            id,
            ShaderStage::Vertex,
        ) || !runs_per_fragment(g, kinds, id)) {
            ShaderStage::Vertex
        } else {
            ShaderStage::Fragment
        },
    }
}

/// The stages with one node more. A node that nothing placed reads has none.
pub open spec fn with_stage_of(
    g: GraphView,
    kinds: Kinds,
    stages: Map<NodeId, ShaderStage>,
    id: NodeId,
) -> Map<NodeId, ShaderStage> {
    if !stages.contains_key(id) && (read_in(g.edges, stages, id, ShaderStage::Vertex) || read_in(
        g.edges,
        stages,
        id,
        ShaderStage::Fragment,
    )) {
        stages.insert(id, stage_for(g, kinds, stages, id))
    } else {
        stages
    }
}

/// The stages once the last `n` nodes of an order were placed, from the last
/// back, so that what reads a node is placed before it.
pub open spec fn stages_back(
    g: GraphView,
    kinds: Kinds,
    o: GraphOutputsView,
    order: Seq<NodeId>,
    n: int,
) -> Map<NodeId, ShaderStage>
    decreases n,
{
    if n <= 0 {
        stages_of_ends(o)
    } else {
        with_stage_of(g, kinds, stages_back(g, kinds, o, order, n - 1), order[order.len() - n])
    }
}

/// The outputs among the first `n` edges whose value crosses from the vertex
/// to the fragment stage, each once.
pub open spec fn crossing(edges: Seq<EdgeView>, stages: Map<NodeId, ShaderStage>, n: int) -> Seq<
    SocketRefView,
>
    decreases n,
{
    if n <= 0 {
        Seq::empty()
    } else {
        let before = crossing(edges, stages, n - 1);
        let e = edges[n - 1];
        if stages.contains_key(e.from.node) && stages[e.from.node] == ShaderStage::Vertex
            && stages.contains_key(e.to.node) && stages[e.to.node] == ShaderStage::Fragment
            && !before.contains(e.from) {
            before.push(e.from)
        } else {
            before
        }
    }
}

/// The order of sockets.
pub open spec fn by_socket() -> spec_fn(SocketRefView, SocketRefView) -> bool {
    |a: SocketRefView, b: SocketRefView| ids::socket_less(a, b)
}

/// The outputs whose value crosses, in the order of their sockets.
pub open spec fn crossing_sockets(
    edges: Seq<EdgeView>,
    stages: Map<NodeId, ShaderStage>,
) -> Seq<SocketRefView> {
    sorting::sorted(crossing(edges, stages, edges.len() as int), by_socket())
}

/// The type of an output, where it can be interpolated.
pub open spec fn interpolated_type(g: GraphView, kinds: Kinds, socket: SocketRefView) -> Option<
    ValueType,
> {
    match typing::type_at(g, kinds, socket, crate::error::Direction::Output) {
        Ok(Some(ty)) => if abi::INTERPOLANT_TYPES@.contains(ty) {
            Some(ty)
        } else {
            None
        },
        _ => None,
    }
}

/// `auto0`, `auto1` and so on.
pub open spec fn auto_name(k: nat) -> Seq<char> {
    "auto"@ + text::decimal(k)
}

/// Whether a number gives a name that no declared attribute has.
pub open spec fn is_free(g: GraphView, k: nat) -> bool {
    g.attribute(auto_name(k)) is None
}

/// The first number from `k` on that gives a free name.
pub open spec fn first_free(g: GraphView, k: nat) -> nat {
    choose|n: nat|
        k <= n && #[trigger] is_free(g, n) && forall|m: nat| k <= m < n ==> !#[trigger] is_free(g, m)
}

/// A problem with the stage of a node.
pub open spec fn stage_error(
    g: GraphView,
    id: NodeId,
    output: Option<NodeId>,
    reason: Seq<char>,
) -> GraphErrorView {
    GraphErrorView::WrongStage {
        node: id,
        def: if g.nodes.contains_key(id) {
            g.nodes[id].def
        } else {
            Seq::empty()
        },
        output: match output {
            Some(end) => end,
            None => id,
        },
        reason,
    }
}

/// Why a value cannot cross that its author wants computed per vertex.
pub open spec fn uncrossed_reason(
    g: GraphView,
    kinds: Kinds,
    socket: SocketRefView,
) -> Seq<char> {
    if interpolated_type(g, kinds, socket) is None {
        "socket `"@ + socket.socket
            + "` is not a float or a float vector, so it cannot ride an interpolant to the fragment stage"@
    } else {
        "the inter-stage locations are spent ("@ + text::decimal(abi::MAX_VARYING_LOCATIONS as nat)
            + "), and this vertex value cannot reach the fragment stage — free one, or let the node be computed in both"@
    }
}

/// The values that cross, by the time some were dealt with.
#[verifier::ext_equal]
pub struct Crossed {
    /// Those that cross.
    pub cuts: Seq<CutView>,
    /// The nodes to compute in both stages instead.
    pub duplicated: Set<NodeId>,
    /// The problems found.
    pub errors: Seq<GraphErrorView>,
    /// The number the next name starts from.
    pub next: nat,
    /// The locations spent.
    pub spent: int,
}

/// What crosses with one output more.
pub open spec fn with_crossing(
    c: Crossed,
    g: GraphView,
    kinds: Kinds,
    o: GraphOutputsView,
    socket: SocketRefView,
) -> Crossed {
    let ty = interpolated_type(g, kinds, socket);
    if ty is Some && c.spent < abi::MAX_VARYING_LOCATIONS {
        let k = first_free(g, c.next);
        Crossed {
            cuts: c.cuts.push(CutView { socket, name: auto_name(k), ty: ty->0 }),
            next: k + 1,
            spent: c.spent + 1,
            ..c
        }
    } else if graph::stage_of_node(g, socket.node) == StageConstraint::Vertex {
        Crossed {
            errors: c.errors.push(
                stage_error(g, socket.node, Some(o.surface), uncrossed_reason(g, kinds, socket)),
            ),
            ..c
        }
    } else {
        Crossed { duplicated: c.duplicated.insert(socket.node), ..c }
    }
}

/// What crosses of the first `n` of these outputs.
pub open spec fn crossed(
    g: GraphView,
    kinds: Kinds,
    o: GraphOutputsView,
    sockets: Seq<SocketRefView>,
    n: int,
) -> Crossed
    decreases n,
{
    if n <= 0 {
        Crossed {
            cuts: Seq::empty(),
            duplicated: Set::empty(),
            errors: Seq::empty(),
            next: 0,
            spent: resources::varyings_spent(interface::geometry_asked(g)),
        }
    } else {
        with_crossing(crossed(g, kinds, o, sockets, n - 1), g, kinds, o, sockets[n - 1])
    }
}

/// Whether a value of a node crosses.
pub open spec fn is_cut(cuts: Seq<CutView>, id: NodeId) -> bool {
    exists|i: int| 0 <= i < cuts.len() && (#[trigger] cuts[i]).socket.node == id
}

/// Whether both stages read a node that is no end.
pub open spec fn is_shared(
    g: GraphView,
    o: GraphOutputsView,
    stages: Map<NodeId, ShaderStage>,
    id: NodeId,
) -> bool {
    &&& stages.contains_key(id)
    &&& !outputs::is_end(o, id)
    &&& read_in(g.edges, stages, id, ShaderStage::Vertex)
    &&& read_in(g.edges, stages, id, ShaderStage::Fragment)
}

/// Whether the vertex stage computes a placed node.
pub open spec fn computed_per_vertex(
    g: GraphView,
    stages: Map<NodeId, ShaderStage>,
    id: NodeId,
) -> bool {
    stages[id] == ShaderStage::Vertex || read_in(g.edges, stages, id, ShaderStage::Vertex)
}

/// Whether the fragment stage computes a placed node: it runs there, or it is
/// read there and does not cross.
pub open spec fn computed_per_fragment(
    g: GraphView,
    o: GraphOutputsView,
    stages: Map<NodeId, ShaderStage>,
    cuts: Seq<CutView>,
    id: NodeId,
) -> bool {
    ||| stages[id] == ShaderStage::Fragment
    ||| !is_cut(cuts, id) && (is_shared(g, o, stages, id) || graph::stage_of_node(g, id)
        == StageConstraint::Auto && read_in(g.edges, stages, id, ShaderStage::Fragment))
}

/// Why the vertex stage cannot run a node.
pub open spec fn vertex_reason(g: GraphView, kinds: Kinds, id: NodeId) -> Seq<char> {
    match outputs::read_name(g, kinds, id) {
        Some(name) => "`"@ + name
            + "` is an interpolant the vertex stage computes, so only the fragment stage can read it"@,
        None =>
            "it reads a computed interpolant, which only the fragment stage can read"@,
    }
}

/// The first end of the vertex stage.
pub open spec fn first_vertex_end(o: GraphOutputsView) -> Option<NodeId> {
    match o.vertex {
        Some(id) => Some(id),
        None => if o.varyings.len() > 0 {
            Some(o.varyings[0].1)
        } else {
            None
        },
    }
}

/// The problems with the stages that a node is computed in, behind others.
pub open spec fn with_stage_errors(
    errors: Seq<GraphErrorView>,
    g: GraphView,
    kinds: Kinds,
    o: GraphOutputsView,
    stages: Map<NodeId, ShaderStage>,
    cuts: Seq<CutView>,
    id: NodeId,
) -> Seq<GraphErrorView> {
    if outputs::is_end(o, id) {
        errors
    } else {
        let one = if computed_per_vertex(g, stages, id) && !runs_per_vertex(g, kinds, id) {
            errors.push(
                stage_error(g, id, first_vertex_end(o), vertex_reason(g, kinds, id)),
            )
        } else {
            errors
        };
        if computed_per_fragment(g, o, stages, cuts, id) && !runs_per_fragment(g, kinds, id) {
            one.push(
                stage_error(
                    g,
                    id,
                    Some(o.surface),
                    "it reads object space, which only the vertex stage has"@,
                ),
            )
        } else {
            one
        }
    }
}

/// The problems with the stages that the first `n` of these nodes are computed
/// in, behind others.
pub open spec fn all_stage_errors(
    errors: Seq<GraphErrorView>,
    g: GraphView,
    kinds: Kinds,
    o: GraphOutputsView,
    stages: Map<NodeId, ShaderStage>,
    cuts: Seq<CutView>,
    ids: Seq<NodeId>,
    n: int,
) -> Seq<GraphErrorView>
    decreases n,
{
    if n <= 0 {
        errors
    } else {
        with_stage_errors(
            all_stage_errors(errors, g, kinds, o, stages, cuts, ids, n - 1),
            g,
            kinds,
            o,
            stages,
            cuts,
            ids[n - 1],
        )
    }
}

/// The stages of the nodes of a graph, given an order of them.
pub open spec fn stages_in(
    g: GraphView,
    kinds: Kinds,
    o: GraphOutputsView,
    order: Seq<NodeId>,
) -> Map<NodeId, ShaderStage> {
    stages_back(g, kinds, o, order, order.len() as int)
}

/// In which stage each node runs and what crosses, or every problem with that.
pub open spec fn plan_of(g: GraphView, kinds: Kinds, o: GraphOutputsView) -> Result<
    StagePlanView,
    Seq<GraphErrorView>,
> {
    match topology::topological(g, None) {
        Err(e) => Err(seq![e]),
        Ok(order) => {
            let stages = stages_in(g, kinds, o, order);
            let sockets = crossing_sockets(g.edges, stages);
            let c = crossed(g, kinds, o, sockets, sockets.len() as int);
            let ids = idmap::in_order(stages.dom());
            let errors = all_stage_errors(
                c.errors,
                g,
                kinds,
                o,
                stages,
                c.cuts,
                ids,
                ids.len() as int,
            );
            if errors.len() > 0 {
                Err(errors)
            } else {
                Ok(
                    StagePlanView {
                        stage_of: stages,
                        cuts: c.cuts,
                        duplicated: Set::new(
                            |id: NodeId|
                                c.duplicated.contains(id) || (is_shared(g, o, stages, id)
                                    && !is_cut(c.cuts, id)),
                        ),
                    },
                )
            }
        },
    }
}

proof fn lemma_auto_name(k: nat)
    ensures
        wxsl::is_ident(auto_name(k)),
        text::trimmed(auto_name(k)) == auto_name(k),
{
    reveal_strlit("auto");
    text::lemma_decimal_digits(k);
    let s = auto_name(k);
    assert forall|i: int| 0 <= i < s.len() implies #[trigger] wxsl::name_char(s[i]) by {
        if i >= 4 {
            assert(s[i] == text::decimal(k)[i - 4]);
        }
    }
    assert(s[0] == 'a');
    assert(s[s.len() - 1] == text::decimal(k)[text::decimal(k).len() - 1]);
    assert(text::digit_char(s[s.len() - 1]));
}

proof fn lemma_auto_names_differ(a: nat, b: nat)
    requires
        auto_name(a) == auto_name(b),
    ensures
        a == b,
{
    reveal_strlit("auto");
    assert(text::decimal(a) =~= auto_name(a).skip(4));
    assert(text::decimal(b) =~= auto_name(b).skip(4));
    text::lemma_decimal_tells_apart(a, b);
}

/// Being an attribute with a name from `auto{k}` on.
pub open spec fn auto_named_from(k: nat) -> spec_fn(AttributeDeclView) -> bool {
    |d: AttributeDeclView| exists|n: nat| k <= n && text::trimmed(d.name) == #[trigger] auto_name(n)
}

/// A name that is taken leaves fewer to be taken.
proof fn lemma_taken(g: GraphView, k: nat)
    requires
        !is_free(g, k),
    ensures
        lists::count_where(g.attributes, auto_named_from(k + 1)) < lists::count_where(
            g.attributes,
            auto_named_from(k),
        ),
{
    let s = g.attributes;
    let p = graph::attribute_called(text::trimmed(auto_name(k)));
    lemma_auto_name(k);
    lists::lemma_first_where(s, p);
    let d = lists::first_where(s, p)->0;
    let i = choose|i: int| 0 <= i < s.len() && s[i] == d;
    assert(text::trimmed(s[i].name) == auto_name(k));
    assert(auto_named_from(k)(s[i]));
    assert(!auto_named_from(k + 1)(s[i])) by {
        if auto_named_from(k + 1)(s[i]) {
            let n = choose|n: nat| k + 1 <= n && text::trimmed(s[i].name) == #[trigger] auto_name(n);
            lemma_auto_names_differ(k, n);
        }
    }
    assert forall|j: int| 0 <= j < s.len() && auto_named_from(k + 1)(
        #[trigger] s[j],
    ) implies auto_named_from(k)(s[j]) by {
        let n = choose|n: nat| k + 1 <= n && text::trimmed(s[j].name) == #[trigger] auto_name(n);
        assert(k <= n && text::trimmed(s[j].name) == auto_name(n));
    }
    lists::lemma_count_drops(s, auto_named_from(k), auto_named_from(k + 1), i);
}

proof fn lemma_fewer_from(g: GraphView, k: nat)
    ensures
        lists::count_where(g.attributes, auto_named_from(k + 1)) <= lists::count_where(
            g.attributes,
            auto_named_from(k),
        ),
{
    let s = g.attributes;
    assert forall|j: int| 0 <= j < s.len() && auto_named_from(k + 1)(
        #[trigger] s[j],
    ) implies auto_named_from(k)(s[j]) by {
        let n = choose|n: nat| k + 1 <= n && text::trimmed(s[j].name) == #[trigger] auto_name(n);
        assert(k <= n && text::trimmed(s[j].name) == auto_name(n));
    }
    lists::lemma_count_drops(s, auto_named_from(k), auto_named_from(k + 1), -1);
}

proof fn lemma_count_at_most<A>(s: Seq<A>, p: spec_fn(A) -> bool)
    ensures
        lists::count_where(s, p) <= s.len(),
    decreases s.len(),
{
    if s.len() > 0 {
        lemma_count_at_most(s.drop_last(), p);
    }
}

proof fn lemma_first_free(g: GraphView, k: nat, n: nat)
    requires
        k <= n,
        is_free(g, n),
        forall|m: nat| k <= m < n ==> !#[trigger] is_free(g, m),
    ensures
        first_free(g, k) == n,
{
    let f = first_free(g, k);
    if f < n {
        assert(!is_free(g, f));
    } else if n < f {
        assert(!is_free(g, n));
    }
}

/// `auto{k}`.
fn auto_text(k: u64) -> (r: String)
    ensures
        r@ == auto_name(k as nat),
{
    let mut out = "auto".to_owned();
    push_number(&mut out, k);
    out
}

impl Graph {
    /// The first number from `k` on that gives a name no declared attribute
    /// has.
    fn free_number(&self, k: u64) -> (r: u64)
        requires
            k + lists::count_where(self@.attributes, auto_named_from(k as nat)) < u64::MAX,
        ensures
            r == first_free(self@, k as nat),
            is_free(self@, r as nat),
            k <= r,
            r + lists::count_where(self@.attributes, auto_named_from(r as nat)) <= k + lists::count_where(
                self@.attributes,
                auto_named_from(k as nat),
            ),
    {
        let ghost g = self@;
        let mut n: u64 = k;
        loop
            invariant
                g == self@,
                k <= n,
                forall|m: nat| k <= m < n ==> !#[trigger] is_free(g, m),
                n + lists::count_where(g.attributes, auto_named_from(n as nat)) <= k + lists::count_where(
                    g.attributes,
                    auto_named_from(k as nat),
                ),
                k + lists::count_where(g.attributes, auto_named_from(k as nat)) < u64::MAX,
            decreases lists::count_where(g.attributes, auto_named_from(n as nat)),
        {
            let name = auto_text(n);
            if self.attribute(name.as_str()).is_none() {
                proof {
                    lemma_first_free(g, k as nat, n as nat);
                }
                return n;
            }
            proof {
                assert(!is_free(g, n as nat));
                lemma_taken(g, n as nat);
            }
            n += 1;
        }
    }

    /// Whether the vertex stage can run a node.
    pub(crate) fn can_run_per_vertex(&self, registry: &NodeRegistry, id: NodeId) -> (r: bool)
        ensures
            r == runs_per_vertex(self@, registry@, id),
    {
        match self.definition(registry, id) {
            Ok(def) => {
                if def.is_vertex_only() {
                    return true;
                }
            },
            Err(_) => {
                return true;
            },
        }
        match self.attribute_read_name(registry, id) {
            Some(name) => match self.attribute(name.as_str()) {
                Some(decl) => decl.frequency != AttributeFrequency::Computed,
                None => true,
            },
            None => true,
        }
    }

    /// Whether the fragment stage can run a node.
    fn can_run_per_fragment(&self, registry: &NodeRegistry, id: NodeId) -> (r: bool)
        ensures
            r == runs_per_fragment(self@, registry@, id),
    {
        match self.definition(registry, id) {
            Ok(def) => !def.is_vertex_only(),
            Err(_) => true,
        }
    }

    /// Whether a node that runs in a stage reads another.
    fn is_read_in(&self, stages: &IdMap<ShaderStage>, id: NodeId, stage: ShaderStage) -> (r: bool)
        ensures
            r == read_in(self@.edges, stages@, id, stage),
    {
        let ghost es = self@.edges;
        let mut i: usize = 0;
        while i < self.edges.len()
            invariant
                i <= es.len() == self.edges@.len(),
                es == text::seq_of(self.edges@),
                forall|j: int|
                    0 <= j < i ==> !((#[trigger] es[j]).from.node == id && stages@.contains_key(
                        es[j].to.node,
                    ) && stages@[es[j].to.node] == stage),
            decreases es.len() - i,
        {
            let edge = &self.edges[i];
            assert(es[i as int] == edge@);
            if edge.from.node.0 == id.0 {
                match stages.get(edge.to.node) {
                    Some(s) => {
                        if *s == stage {
                            assert(es[i as int].from.node == id);
                            return true;
                        }
                    },
                    None => {},
                }
            }
            i += 1;
        }
        false
    }

    /// The stages of the ends.
    fn place_ends(&self, outputs: &GraphOutputs) -> (r: IdMap<ShaderStage>)
        ensures
            r@ == stages_of_ends(outputs@),
    {
        let ghost o = outputs@;
        let mut stages: IdMap<ShaderStage> = IdMap::new();
        stages.insert(outputs.surface, ShaderStage::Fragment);
        match outputs.discard {
            Some(id) => {
                stages.insert(id, ShaderStage::Fragment);
            },
            None => {},
        }
        match outputs.vertex {
            Some(id) => {
                stages.insert(id, ShaderStage::Vertex);
            },
            None => {},
        }
        let ghost start = stages@;
        let mut i: usize = 0;
        while i < outputs.varyings.len()
            invariant
                i <= o.varyings.len() == outputs.varyings@.len(),
                o == outputs@,
                o.varyings == text::seq_of(outputs.varyings@),
                forall|x: NodeId| #[trigger]
                    stages@.contains_key(x) <==> start.contains_key(x) || exists|j: int|
                        0 <= j < i && (#[trigger] o.varyings[j]).1 == x,
                forall|x: NodeId| #[trigger]
                    stages@.contains_key(x) ==> stages@[x] == (if exists|j: int|
                        0 <= j < i && (#[trigger] o.varyings[j]).1 == x {
                        ShaderStage::Vertex
                    } else {
                        start[x]
                    }),
            decreases o.varyings.len() - i,
        {
            let ghost before = stages@;
            let id = outputs.varyings[i].1;
            assert(o.varyings[i as int] == outputs.varyings@[i as int]@);
            stages.insert(id, ShaderStage::Vertex);
            proof {
                assert forall|x: NodeId| #[trigger] stages@.contains_key(x) implies stages@[x] == (
                if exists|j: int| 0 <= j < i + 1 && (#[trigger] o.varyings[j]).1 == x {
                    ShaderStage::Vertex
                } else {
                    start[x]
                }) && (start.contains_key(x) || exists|j: int|
                    0 <= j < i + 1 && (#[trigger] o.varyings[j]).1 == x) by {
                    if x == id {
                        assert(o.varyings[i as int].1 == x);
                    } else {
                        assert(before.contains_key(x));
                    }
                }
            }
            i += 1;
        }
        proof {
            assert forall|x: NodeId| stages@.contains_key(x) <==> stages_of_ends(o).contains_key(
                x,
            ) by {}
            assert forall|x: NodeId| stages@.contains_key(x) implies stages@[x] == stages_of_ends(
                o,
            )[x] by {}
            assert(stages@ =~= stages_of_ends(o));
        }
        stages
    }

    /// The stage that a node runs in.
    fn choose_stage(
        &self,
        registry: &NodeRegistry,
        stages: &IdMap<ShaderStage>,
        id: NodeId,
    ) -> (r: ShaderStage)
        ensures
            r == stage_for(self@, registry@, stages@, id),
    {
        match self.stage(id) {
            StageConstraint::Vertex => ShaderStage::Vertex,
            StageConstraint::Fragment => ShaderStage::Fragment,
            StageConstraint::Auto => if self.can_run_per_vertex(registry, id) && (self.is_read_in(
                stages,
                id,
                ShaderStage::Vertex,
            ) || !self.can_run_per_fragment(registry, id)) {
                ShaderStage::Vertex
            } else {
                ShaderStage::Fragment
            },
        }
    }

    /// The stages of the nodes, given an order of them.
    fn place_nodes(
        &self,
        registry: &NodeRegistry,
        outputs: &GraphOutputs,
        order: &Vec<NodeId>,
    ) -> (r: IdMap<ShaderStage>)
        ensures
            r@ == stages_in(self@, registry@, outputs@, order@),
    {
        let ghost g = self@;
        let mut stages = self.place_ends(outputs);
        let total: usize = order.len();
        let mut n: usize = 0;
        while n < total
            invariant
                n <= total == order@.len(),
                g == self@,
                stages@ == stages_back(g, registry@, outputs@, order@, n as int),
            decreases total - n,
        {
            let id = order[total - 1 - n];
            if !stages.contains_key(id) && (self.is_read_in(&stages, id, ShaderStage::Vertex)
                || self.is_read_in(&stages, id, ShaderStage::Fragment)) {
                let stage = self.choose_stage(registry, &stages, id);
                stages.insert(id, stage);
            }
            n += 1;
        }
        stages
    }

    /// The outputs whose value crosses from the vertex to the fragment stage.
    fn find_crossing(&self, stages: &IdMap<ShaderStage>) -> (r: Vec<SocketRef>)
        ensures
            text::seq_of(r@) == crossing_sockets(self@.edges, stages@),
    {
        let ghost es = self@.edges;
        let mut found: Vec<SocketRef> = Vec::new();
        let mut i: usize = 0;
        assert(text::seq_of(found@) =~= crossing(es, stages@, 0));
        while i < self.edges.len()
            invariant
                i <= es.len() == self.edges@.len(),
                es == text::seq_of(self.edges@),
                text::seq_of(found@) == crossing(es, stages@, i as int),
            decreases es.len() - i,
        {
            let edge = &self.edges[i];
            assert(es[i as int] == edge@);
            let crosses = match (stages.get(edge.from.node), stages.get(edge.to.node)) {
                (Some(a), Some(b)) => *a == ShaderStage::Vertex && *b == ShaderStage::Fragment,
                _ => false,
            };
            if crosses && !contains_socket(&found, &edge.from) {
                let ghost before = found@;
                found.push(edge.from.clone());
                assert(text::seq_of(found@) =~= text::seq_of(before).push(edge@.from));
            }
            i += 1;
        }
        let less = |a: &SocketRef, b: &SocketRef| -> (c: bool)
            ensures
                c == by_socket()(a@, b@),
            { a.comes_before(b) };
        sort_stable(found, less, Ghost(by_socket()))
    }

    /// The type of an output, where it can be interpolated.
    fn interpolable(&self, registry: &NodeRegistry, socket: &SocketRef) -> (r: Option<ValueType>)
        ensures
            r == interpolated_type(self@, registry@, socket@),
    {
        match self.socket_type(registry, socket, crate::error::Direction::Output) {
            Ok(Some(ty)) => if abi::is_interpolant_type(ty) {
                Some(ty)
            } else {
                None
            },
            _ => None,
        }
    }

    /// A problem with the stage of a node.
    pub(crate) fn wrong_stage(&self, id: NodeId, output: Option<NodeId>, reason: String) -> (r: GraphError)
        ensures
            r@ == stage_error(self@, id, output, reason@),
    {
        proof {
            reveal_strlit("");
        }
        let def = match self.nodes.get(id) {
            Some(n) => n.def.clone(),
            None => {
                let none = "".to_owned();
                assert(none@ =~= Seq::<char>::empty());
                none
            },
        };
        GraphError::WrongStage {
            node: id,
            def,
            output: match output {
                Some(end) => end,
                None => id,
            },
            reason,
        }
    }
}

/// Whether a socket is in a list.
fn contains_socket(sockets: &Vec<SocketRef>, socket: &SocketRef) -> (r: bool)
    ensures
        r == text::seq_of(sockets@).contains(socket@),
{
    let ghost s = text::seq_of(sockets@);
    let mut i: usize = 0;
    while i < sockets.len()
        invariant
            i <= s.len() == sockets@.len(),
            s == text::seq_of(sockets@),
            forall|j: int| 0 <= j < i ==> #[trigger] s[j] != socket@,
        decreases s.len() - i,
    {
        assert(s[i as int] == sockets@[i as int]@);
        if sockets[i].same(socket) {
            return true;
        }
        i += 1;
    }
    false
}

/// What crosses, while it is being decided.
struct Decided {
    cuts: Vec<Cut>,
    duplicated: NodeSet,
    errors: Vec<GraphError>,
    next: u64,
    spent: usize,
}

impl View for Decided {
    type V = Crossed;

    closed spec fn view(&self) -> Crossed {
        Crossed {
            cuts: text::seq_of(self.cuts@),
            duplicated: self.duplicated@,
            errors: text::seq_of(self.errors@),
            next: self.next as nat,
            spent: self.spent as int,
        }
    }
}

impl Graph {
    /// Why a value cannot cross that its author wants computed per vertex.
    fn why_uncrossed(&self, registry: &NodeRegistry, socket: &SocketRef) -> (r: String)
        ensures
            r@ == uncrossed_reason(self@, registry@, socket@),
    {
        if self.interpolable(registry, socket).is_none() {
            let mut out = "socket `".to_owned();
            out.append(socket.socket.as_str());
            out.append(
                "` is not a float or a float vector, so it cannot ride an interpolant to the fragment stage",
            );
            out
        } else {
            let mut out = "the inter-stage locations are spent (".to_owned();
            push_number(&mut out, abi::MAX_VARYING_LOCATIONS as u64);
            out.append(
                "), and this vertex value cannot reach the fragment stage — free one, or let the node be computed in both",
            );
            out
        }
    }

    /// Decide whether the value of one output crosses.
    #[verifier::rlimit(40)]
    fn decide_crossing(
        &self,
        registry: &NodeRegistry,
        outputs: &GraphOutputs,
        held: &mut Decided,
        socket: &SocketRef,
    )
        requires
            old(held).next + lists::count_where(
                self@.attributes,
                auto_named_from(old(held).next as nat),
            ) < u64::MAX - 1,
        ensures
            final(held)@ == with_crossing(old(held)@, self@, registry@, outputs@, socket@),
            final(held).next + lists::count_where(
                self@.attributes,
                auto_named_from(final(held).next as nat),
            ) <= old(held).next + lists::count_where(
                self@.attributes,
                auto_named_from(old(held).next as nat),
            ) + (final(held)@.cuts.len() - old(held)@.cuts.len()),
            final(held)@.cuts.len() <= (if old(held).spent < abi::MAX_VARYING_LOCATIONS {
                old(held)@.cuts.len() + 1
            } else {
                old(held)@.cuts.len()
            }),
            final(held).spent - final(held)@.cuts.len() == old(held).spent
                - old(held)@.cuts.len(),
    {
        let ghost g = self@;
        let ghost was = held@;
        let ty = self.interpolable(registry, socket);
        match ty {
            Some(ty) => {
                if held.spent < abi::MAX_VARYING_LOCATIONS {
                    let k: u64 = self.free_number(held.next);
                    proof {
                        lemma_auto_name(k as nat);
                        lemma_fewer_from(g, k as nat);
                    }
                    let name = auto_text(k);
                    match WxslIdent::new(name.as_str()) {
                        Some(ident) => {
                            let ghost before = held.cuts@;
                            held.cuts.push(Cut { socket: socket.clone(), name: ident, ty });
                            held.next = k + 1;
                            held.spent = held.spent + 1;
                            assert(text::seq_of(held.cuts@) =~= text::seq_of(before).push(
                                CutView { socket: socket@, name: auto_name(k as nat), ty },
                            ));
                        },
                        None => {},
                    }
                    return;
                }
            },
            None => {},
        }
        if self.stage(socket.node) == StageConstraint::Vertex {
            let reason = self.why_uncrossed(registry, socket);
            let error = self.wrong_stage(socket.node, Some(outputs.surface), reason);
            let ghost before = held.errors@;
            held.errors.push(error);
            assert(text::seq_of(held.errors@) =~= text::seq_of(before).push(error@));
        } else {
            held.duplicated.insert(socket.node);
        }
    }

    /// Decide what crosses.
    fn decide_crossings(
        &self,
        registry: &NodeRegistry,
        outputs: &GraphOutputs,
        sockets: &Vec<SocketRef>,
    ) -> (r: Decided)
        requires
            self@.geometry_fits(),
        ensures
            r@ == crossed(
                self@,
                registry@,
                outputs@,
                text::seq_of(sockets@),
                sockets@.len() as int,
            ),
    {
        let ghost g = self@;
        let ghost s = text::seq_of(sockets@);
        let geometry = self.geometry();
        let spent: usize = geometry.varyings_used();
        let mut held = Decided {
            cuts: Vec::new(),
            duplicated: NodeSet::new(),
            errors: Vec::new(),
            next: 0,
            spent,
        };
        proof {
            assert(held@.cuts =~= Seq::empty());
            assert(held@.errors =~= Seq::empty());
            lemma_count_at_most(g.attributes, auto_named_from(0));
        }
        let mut i: usize = 0;
        while i < sockets.len()
            invariant
                i <= s.len() == sockets@.len(),
                s == text::seq_of(sockets@),
                g == self@,
                g.attributes.len() + abi::MAX_VARYING_LOCATIONS < usize::MAX - 1,
                held@ == crossed(g, registry@, outputs@, s, i as int),
                held.next + lists::count_where(g.attributes, auto_named_from(held.next as nat))
                    <= g.attributes.len() + held@.cuts.len(),
                held@.cuts.len() <= held.spent,
                held@.cuts.len() <= abi::MAX_VARYING_LOCATIONS,
            decreases s.len() - i,
        {
            assert(s[i as int] == sockets@[i as int]@);
            self.decide_crossing(registry, outputs, &mut held, &sockets[i]);
            i += 1;
        }
        held
    }
}

/// Whether a value of a node crosses.
fn has_cut(cuts: &Vec<Cut>, id: NodeId) -> (r: bool)
    ensures
        r == is_cut(text::seq_of(cuts@), id),
{
    let ghost s = text::seq_of(cuts@);
    let mut i: usize = 0;
    while i < cuts.len()
        invariant
            i <= s.len() == cuts@.len(),
            s == text::seq_of(cuts@),
            forall|j: int| 0 <= j < i ==> (#[trigger] s[j]).socket.node != id,
        decreases s.len() - i,
    {
        assert(s[i as int] == cuts@[i as int]@);
        if cuts[i].socket.node.0 == id.0 {
            return true;
        }
        i += 1;
    }
    false
}

/// Whether a node is one of the ends.
fn is_an_end(outputs: &GraphOutputs, id: NodeId) -> (r: bool)
    ensures
        r == outputs::is_end(outputs@, id),
{
    let ghost o = outputs@;
    if outputs.surface.0 == id.0 {
        return true;
    }
    match outputs.vertex {
        Some(end) => {
            if end.0 == id.0 {
                return true;
            }
        },
        None => {},
    }
    match outputs.discard {
        Some(end) => {
            if end.0 == id.0 {
                return true;
            }
        },
        None => {},
    }
    let mut i: usize = 0;
    while i < outputs.varyings.len()
        invariant
            i <= o.varyings.len() == outputs.varyings@.len(),
            o.varyings == text::seq_of(outputs.varyings@),
            o == outputs@,
            forall|j: int| 0 <= j < i ==> (#[trigger] o.varyings[j]).1 != id,
        decreases o.varyings.len() - i,
    {
        assert(o.varyings[i as int] == outputs.varyings@[i as int]@);
        if outputs.varyings[i].1.0 == id.0 {
            return true;
        }
        i += 1;
    }
    false
}

impl Graph {
    /// Why the vertex stage cannot run a node.
    pub(crate) fn why_not_per_vertex(&self, registry: &NodeRegistry, id: NodeId) -> (r: String)
        ensures
            r@ == vertex_reason(self@, registry@, id),
    {
        match self.attribute_read_name(registry, id) {
            Some(name) => {
                let mut out = "`".to_owned();
                out.append(name.as_str());
                out.append(
                    "` is an interpolant the vertex stage computes, so only the fragment stage can read it",
                );
                out
            },
            None => "it reads a computed interpolant, which only the fragment stage can read".to_owned(),
        }
    }

    /// Whether both stages read a node that is no end.
    fn is_shared_node(
        &self,
        outputs: &GraphOutputs,
        stages: &IdMap<ShaderStage>,
        id: NodeId,
    ) -> (r: bool)
        ensures
            r == is_shared(self@, outputs@, stages@, id),
    {
        stages.contains_key(id) && !is_an_end(outputs, id) && self.is_read_in(
            stages,
            id,
            ShaderStage::Vertex,
        ) && self.is_read_in(stages, id, ShaderStage::Fragment)
    }

    /// Report the problems with the stages that a node is computed in.
    fn check_stage(
        &self,
        registry: &NodeRegistry,
        outputs: &GraphOutputs,
        stages: &IdMap<ShaderStage>,
        cuts: &Vec<Cut>,
        id: NodeId,
        errors: &mut Vec<GraphError>,
    )
        requires
            stages@.contains_key(id),
        ensures
            text::seq_of(final(errors)@) == with_stage_errors(
                text::seq_of(old(errors)@),
                self@,
                registry@,
                outputs@,
                stages@,
                text::seq_of(cuts@),
                id,
            ),
    {
        if is_an_end(outputs, id) {
            return;
        }
        let stage = match stages.get(id) {
            Some(s) => *s,
            None => {
                return;
            },
        };
        let read_per_vertex = self.is_read_in(stages, id, ShaderStage::Vertex);
        let per_vertex = stage == ShaderStage::Vertex || read_per_vertex;
        if per_vertex && !self.can_run_per_vertex(registry, id) {
            let first = match outputs.vertex {
                Some(end) => Some(end),
                None => if outputs.varyings.len() > 0 {
                    assert(outputs@.varyings[0] == outputs.varyings@[0]@);
                    Some(outputs.varyings[0].1)
                } else {
                    None
                },
            };
            let reason = self.why_not_per_vertex(registry, id);
            let error = self.wrong_stage(id, first, reason);
            let ghost before = errors@;
            errors.push(error);
            assert(text::seq_of(errors@) =~= text::seq_of(before).push(error@));
        }
        let per_fragment = stage == ShaderStage::Fragment || (!has_cut(cuts, id) && (
        self.is_shared_node(outputs, stages, id) || (self.stage(id) == StageConstraint::Auto
            && self.is_read_in(stages, id, ShaderStage::Fragment))));
        if per_fragment && !self.can_run_per_fragment(registry, id) {
            let error = self.wrong_stage(
                id,
                Some(outputs.surface),
                "it reads object space, which only the vertex stage has".to_owned(),
            );
            let ghost before = errors@;
            errors.push(error);
            assert(text::seq_of(errors@) =~= text::seq_of(before).push(error@));
        }
    }
}

/// In which stage each node of a graph runs, and what crosses from one to the
/// other; or every problem with that.
pub fn analyze(graph: &Graph, registry: &NodeRegistry, outputs: &GraphOutputs) -> (r: Result<
    StagePlan,
    GraphErrors,
>)
    requires
        graph@.geometry_fits(),
    ensures
        match (r, plan_of(graph@, registry@, outputs@)) {
            (Ok(p), Ok(v)) => p@ == v,
            (Err(e), Err(v)) => e@ == v,
            _ => false,
        },
{
    let ghost g = graph@;
    let ghost kinds = registry@;
    let ghost o = outputs@;
    let order = match graph.topological_order(None) {
        Ok(v) => v,
        Err(e) => {
            let mut errors: Vec<GraphError> = Vec::new();
            errors.push(e);
            assert(text::seq_of(errors@) =~= seq![e@]);
            return Err(GraphErrors(errors));
        },
    };
    let stages = graph.place_nodes(registry, outputs, &order);
    let sockets = graph.find_crossing(&stages);
    assert(text::seq_of(sockets@).len() == sockets@.len());
    let held = graph.decide_crossings(registry, outputs, &sockets);
    let Decided { cuts, duplicated, errors, next, spent } = held;
    let mut duplicated = duplicated;
    let mut errors = errors;
    let ghost c = held@;
    let ghost st = stages@;
    let ghost ids = idmap::in_order(st.dom());
    let ghost first = duplicated@;
    let n: usize = stages.len();
    let mut i: usize = 0;
    while i < n
        invariant
            i <= n == ids.len(),
            g == graph@,
            kinds == registry@,
            o == outputs@,
            st == stages@,
            ids == idmap::in_order(st.dom()),
            idmap::lists(ids, st.dom()),
            c.cuts == text::seq_of(cuts@),
            first == c.duplicated,
            text::seq_of(errors@) == all_stage_errors(
                c.errors,
                g,
                kinds,
                o,
                st,
                c.cuts,
                ids,
                i as int,
            ),
            forall|x: NodeId| #[trigger]
                duplicated@.contains(x) <==> first.contains(x) || (is_shared(g, o, st, x)
                    && !is_cut(c.cuts, x) && exists|j: int| 0 <= j < i && #[trigger] ids[j] == x),
        decreases n - i,
    {
        let id = stages.key_at(i);
        graph.check_stage(registry, outputs, &stages, &cuts, id, &mut errors);
        let ghost before = duplicated@;
        if graph.is_shared_node(outputs, &stages, id) && !has_cut(&cuts, id) {
            duplicated.insert(id);
        }
        proof {
            assert forall|x: NodeId| #[trigger] duplicated@.contains(x) <==> first.contains(x) || (
            is_shared(g, o, st, x) && !is_cut(c.cuts, x) && exists|j: int|
                0 <= j < i + 1 && #[trigger] ids[j] == x) by {
                assert(before.contains(x) <==> first.contains(x) || (is_shared(g, o, st, x)
                    && !is_cut(c.cuts, x) && exists|j: int| 0 <= j < i && #[trigger] ids[j] == x));
                if x == id {
                    assert(ids[i as int] == x);
                }
            }
        }
        i += 1;
    }
    assert(text::seq_of(errors@).len() == errors@.len());
    if errors.len() > 0 {
        return Err(GraphErrors(errors));
    }
    proof {
        let wanted = Set::new(
            |id: NodeId|
                c.duplicated.contains(id) || (is_shared(g, o, st, id) && !is_cut(c.cuts, id)),
        );
        assert forall|x: NodeId| duplicated@.contains(x) == wanted.contains(x) by {
            if is_shared(g, o, st, x) {
                assert(st.dom().contains(x));
                assert(ids.contains(x));
                let j = choose|j: int| 0 <= j < ids.len() && ids[j] == x;
                assert(ids[j] == x);
            }
        }
        assert(duplicated@ =~= wanted);
    }
    Ok(StagePlan { stage_of: stages, cuts, duplicated })
}

// ---------------------------------------------------------------------------
// What every plan keeps

pub(crate) proof fn lemma_free_exists(g: GraphView, k: nat)
    ensures
        k <= first_free(g, k),
        is_free(g, first_free(g, k)),
        forall|m: nat| k <= m < first_free(g, k) ==> !#[trigger] is_free(g, m),
    decreases lists::count_where(g.attributes, auto_named_from(k)),
{
    if is_free(g, k) {
        lemma_first_free(g, k, k);
    } else {
        lemma_taken(g, k);
        lemma_free_exists(g, k + 1);
        let n = first_free(g, k + 1);
        assert forall|m: nat| k <= m < n implies !#[trigger] is_free(g, m) by {}
        lemma_first_free(g, k, n);
    }
}

proof fn lemma_crossed(
    g: GraphView,
    kinds: Kinds,
    o: GraphOutputsView,
    sockets: Seq<SocketRefView>,
    n: int,
)
    requires
        n <= sockets.len(),
    ensures
        ({
            let c = crossed(g, kinds, o, sockets, n);
            &&& forall|i: int|
                0 <= i < c.cuts.len() ==> exists|k: nat|
                    k < c.next && is_free(g, k) && (#[trigger] c.cuts[i]).name
                        == #[trigger] auto_name(k)
            &&& forall|i: int, j: int|
                0 <= i < j < c.cuts.len() ==> (#[trigger] c.cuts[i]).name != (
                #[trigger] c.cuts[j]).name
            &&& c.spent == resources::varyings_spent(interface::geometry_asked(g)) + c.cuts.len()
            &&& c.cuts.len() > 0 ==> c.spent <= abi::MAX_VARYING_LOCATIONS
            &&& forall|i: int|
                0 <= i < c.cuts.len() ==> interpolated_type(
                    g,
                    kinds,
                    (#[trigger] c.cuts[i]).socket,
                ) == Some(c.cuts[i].ty) && exists|j: int|
                    0 <= j < n && #[trigger] sockets[j] == c.cuts[i].socket
        }),
    decreases n,
{
    if n > 0 {
        lemma_crossed(g, kinds, o, sockets, n - 1);
        let b = crossed(g, kinds, o, sockets, n - 1);
        let c = crossed(g, kinds, o, sockets, n);
        let socket = sockets[n - 1];
        let ty = interpolated_type(g, kinds, socket);
        if ty is Some && b.spent < abi::MAX_VARYING_LOCATIONS {
            let f = first_free(g, b.next);
            lemma_free_exists(g, b.next);
            assert forall|i: int| 0 <= i < c.cuts.len() implies exists|k: nat|
                k < c.next && is_free(g, k) && (#[trigger] c.cuts[i]).name == #[trigger] auto_name(
                    k,
                ) by {
                if i < b.cuts.len() {
                    assert(c.cuts[i] == b.cuts[i]);
                    let k = choose|k: nat|
                        k < b.next && is_free(g, k) && b.cuts[i].name == #[trigger] auto_name(k);
                    assert(k < c.next && c.cuts[i].name == auto_name(k));
                } else {
                    assert(f < c.next && c.cuts[i].name == auto_name(f));
                }
            }
            assert forall|i: int, j: int| 0 <= i < j < c.cuts.len() implies (
            #[trigger] c.cuts[i]).name != (#[trigger] c.cuts[j]).name by {
                assert(c.cuts[i] == b.cuts[i]);
                if j < b.cuts.len() {
                    assert(c.cuts[j] == b.cuts[j]);
                } else {
                    let k = choose|k: nat|
                        k < b.next && is_free(g, k) && b.cuts[i].name == #[trigger] auto_name(k);
                    if auto_name(k) == auto_name(f) {
                        lemma_auto_names_differ(k, f);
                    }
                }
            }
            assert forall|i: int| 0 <= i < c.cuts.len() implies interpolated_type(
                g,
                kinds,
                (#[trigger] c.cuts[i]).socket,
            ) == Some(c.cuts[i].ty) && exists|j: int|
                0 <= j < n && #[trigger] sockets[j] == c.cuts[i].socket by {
                if i < b.cuts.len() {
                    assert(c.cuts[i] == b.cuts[i]);
                    let j = choose|j: int|
                        0 <= j < n - 1 && #[trigger] sockets[j] == b.cuts[i].socket;
                    assert(sockets[j] == c.cuts[i].socket);
                } else {
                    assert(sockets[n - 1] == c.cuts[i].socket);
                }
            }
        } else {
            assert(c.cuts == b.cuts);
            assert forall|i: int| 0 <= i < c.cuts.len() implies exists|j: int|
                0 <= j < n && #[trigger] sockets[j] == (#[trigger] c.cuts[i]).socket by {
                let j = choose|j: int| 0 <= j < n - 1 && #[trigger] sockets[j] == b.cuts[i].socket;
                assert(sockets[j] == c.cuts[i].socket);
            }
        }
    }
}

/// A value crosses under a name that no declared attribute has, and no two
/// under one.
pub proof fn crossing_names_are_new(g: GraphView, kinds: Kinds, o: GraphOutputsView)
    requires
        plan_of(g, kinds, o) is Ok,
    ensures
        forall|i: int|
            0 <= i < plan_of(g, kinds, o)->Ok_0.cuts.len() ==> g.attribute(
                (#[trigger] plan_of(g, kinds, o)->Ok_0.cuts[i]).name,
            ) is None,
        forall|i: int, j: int|
            0 <= i < j < plan_of(g, kinds, o)->Ok_0.cuts.len() ==> (#[trigger] plan_of(
                g,
                kinds,
                o,
            )->Ok_0.cuts[i]).name != (#[trigger] plan_of(g, kinds, o)->Ok_0.cuts[j]).name,
{
    let stages = stages_in(g, kinds, o, topology::topological(g, None)->Ok_0);
    let sockets = crossing_sockets(g.edges, stages);
    lemma_crossed(g, kinds, o, sockets, sockets.len() as int);
    let cuts = plan_of(g, kinds, o)->Ok_0.cuts;
    assert forall|i: int| 0 <= i < cuts.len() implies g.attribute(
        (#[trigger] cuts[i]).name,
    ) is None by {
        let k = choose|k: nat| is_free(g, k) && cuts[i].name == #[trigger] auto_name(k);
        assert(is_free(g, k));
    }
}

/// What crosses never overruns the locations between the stages.
pub proof fn crossing_keeps_to_the_budget(g: GraphView, kinds: Kinds, o: GraphOutputsView)
    requires
        plan_of(g, kinds, o) is Ok,
        plan_of(g, kinds, o)->Ok_0.cuts.len() > 0,
    ensures
        resources::varyings_spent(interface::geometry_asked(g)) + plan_of(g, kinds, o)->Ok_0.cuts.len()
            <= abi::MAX_VARYING_LOCATIONS,
{
    let stages = stages_in(g, kinds, o, topology::topological(g, None)->Ok_0);
    let sockets = crossing_sockets(g.edges, stages);
    lemma_crossed(g, kinds, o, sockets, sockets.len() as int);
}

proof fn lemma_by_socket_is_strict()
    ensures
        sorting::strict_order(by_socket()),
{
    assert forall|a: SocketRefView| !#[trigger] by_socket()(a, a) by {
        text::text_less_irreflexive(a.socket);
    }
    assert forall|a: SocketRefView, b: SocketRefView, c: SocketRefView| #[trigger]
        by_socket()(a, b) && #[trigger] by_socket()(b, c) implies by_socket()(a, c) by {
        if a.node == b.node && b.node == c.node {
            text::text_less_transitive(a.socket, b.socket, c.socket);
        }
    }
    assert forall|a: SocketRefView, b: SocketRefView, c: SocketRefView|
        #![trigger by_socket()(a, b), by_socket()(b, c)]
        !by_socket()(a, b) && !by_socket()(b, c) implies !by_socket()(a, c) by {
        if a.node == b.node && b.node == c.node {
            text::text_less_total(a.socket, b.socket);
            text::text_less_total(b.socket, c.socket);
            if text::text_less(a.socket, c.socket) {
                if text::text_less(b.socket, a.socket) {
                    text::text_less_transitive(b.socket, a.socket, c.socket);
                }
            }
        }
    }
}

/// Whether an edge carries the value of an output from the vertex to the
/// fragment stage.
spec fn carries(
    edges: Seq<EdgeView>,
    stages: Map<NodeId, ShaderStage>,
    socket: SocketRefView,
    k: int,
) -> bool {
    &&& 0 <= k < edges.len()
    &&& edges[k].from == socket
    &&& stages.contains_key(edges[k].from.node)
    &&& stages[edges[k].from.node] == ShaderStage::Vertex
    &&& stages.contains_key(edges[k].to.node)
    &&& stages[edges[k].to.node] == ShaderStage::Fragment
}

proof fn lemma_crossing(edges: Seq<EdgeView>, stages: Map<NodeId, ShaderStage>, n: int, i: int) -> (k:
    int)
    requires
        n <= edges.len(),
        0 <= i < crossing(edges, stages, n).len(),
    ensures
        carries(edges, stages, crossing(edges, stages, n)[i], k),
    decreases n,
{
    let b = crossing(edges, stages, n - 1);
    if i < b.len() {
        lemma_crossing(edges, stages, n - 1, i)
    } else {
        n - 1
    }
}

/// What crosses is computed per vertex, read per fragment, and of a type that
/// can be interpolated.
pub proof fn what_crosses_can_cross(g: GraphView, kinds: Kinds, o: GraphOutputsView, i: int)
    requires
        plan_of(g, kinds, o) is Ok,
        0 <= i < plan_of(g, kinds, o)->Ok_0.cuts.len(),
    ensures
        ({
            let plan = plan_of(g, kinds, o)->Ok_0;
            let cut = plan.cuts[i];
            &&& interpolated_type(g, kinds, cut.socket) == Some(cut.ty)
            &&& plan.stage_of.contains_key(cut.socket.node)
            &&& plan.stage_of[cut.socket.node] == ShaderStage::Vertex
            &&& read_in(g.edges, plan.stage_of, cut.socket.node, ShaderStage::Fragment)
        }),
{
    let stages = stages_in(g, kinds, o, topology::topological(g, None)->Ok_0);
    let sockets = crossing_sockets(g.edges, stages);
    let all = crossing(g.edges, stages, g.edges.len() as int);
    lemma_crossed(g, kinds, o, sockets, sockets.len() as int);
    let cut = plan_of(g, kinds, o)->Ok_0.cuts[i];
    let j = choose|j: int| 0 <= j < sockets.len() && #[trigger] sockets[j] == cut.socket;
    lemma_by_socket_is_strict();
    sorting::lemma_sorted(all, by_socket());
    assert(sockets.contains(cut.socket));
    assert(all.contains(cut.socket));
    let m = choose|m: int| 0 <= m < all.len() && all[m] == cut.socket;
    let k = lemma_crossing(g.edges, stages, g.edges.len() as int, m);
    assert(g.edges[k].from.node == cut.socket.node);
}

proof fn lemma_stage_errors(
    errors: Seq<GraphErrorView>,
    g: GraphView,
    kinds: Kinds,
    o: GraphOutputsView,
    stages: Map<NodeId, ShaderStage>,
    cuts: Seq<CutView>,
    ids: Seq<NodeId>,
    n: int,
)
    requires
        n <= ids.len(),
        all_stage_errors(errors, g, kinds, o, stages, cuts, ids, n).len() == 0,
    ensures
        errors.len() == 0,
        forall|j: int|
            0 <= j < n && !outputs::is_end(o, #[trigger] ids[j]) ==> (computed_per_vertex(g, stages, ids[j])
                ==> runs_per_vertex(g, kinds, ids[j])) && (computed_per_fragment(
                g,
                o,
                stages,
                cuts,
                ids[j],
            ) ==> runs_per_fragment(g, kinds, ids[j])),
    decreases n,
{
    if n > 0 {
        lemma_stage_errors(errors, g, kinds, o, stages, cuts, ids, n - 1);
    }
}

/// In a plan, no stage computes a node that it cannot run.
pub proof fn no_node_is_misplaced(g: GraphView, kinds: Kinds, o: GraphOutputsView, id: NodeId)
    requires
        plan_of(g, kinds, o) is Ok,
        plan_of(g, kinds, o)->Ok_0.stage_of.contains_key(id),
        !outputs::is_end(o, id),
    ensures
        ({
            let plan = plan_of(g, kinds, o)->Ok_0;
            &&& computed_per_vertex(g, plan.stage_of, id) ==> runs_per_vertex(g, kinds, id)
            &&& computed_per_fragment(g, o, plan.stage_of, plan.cuts, id) ==> runs_per_fragment(
                g,
                kinds,
                id,
            )
        }),
{
    let stages = stages_in(g, kinds, o, topology::topological(g, None)->Ok_0);
    let sockets = crossing_sockets(g.edges, stages);
    let c = crossed(g, kinds, o, sockets, sockets.len() as int);
    let ids = idmap::in_order(stages.dom());
    idmap::lemma_in_order(stages.dom());
    assert(stages.dom().contains(id));
    assert(ids.contains(id));
    let j = choose|j: int| 0 <= j < ids.len() && ids[j] == id;
    assert(ids[j] == id);
    lemma_stage_errors(c.errors, g, kinds, o, stages, c.cuts, ids, ids.len() as int);
}

proof fn lemma_placed(
    g: GraphView,
    kinds: Kinds,
    o: GraphOutputsView,
    order: Seq<NodeId>,
    n: int,
)
    requires
        n <= order.len(),
    ensures
        forall|id: NodeId| #[trigger]
            outputs::is_end(o, id) ==> stages_back(g, kinds, o, order, n).contains_key(id),
        forall|id: NodeId| #[trigger]
            stages_back(g, kinds, o, order, n).contains_key(id) ==> outputs::reachable(g, o).contains(id),
        forall|id: NodeId| #[trigger]
            stages_back(g, kinds, o, order, n).contains_key(id) && !outputs::is_end(o, id) ==> match graph::stage_of_node(
                g,
                id,
            ) {
                StageConstraint::Vertex => stages_back(g, kinds, o, order, n)[id]
                    == ShaderStage::Vertex,
                StageConstraint::Fragment => stages_back(g, kinds, o, order, n)[id]
                    == ShaderStage::Fragment,
                StageConstraint::Auto => true,
            },
    decreases n,
{
    if n <= 0 {
        assert forall|id: NodeId| #[trigger] outputs::is_end(o, id) implies outputs::reachable(g, o).contains(
            id,
        ) by {
            assert(traversal::leads(g.edges, Set::empty(), id, id, 0));
            assert(traversal::reaches(g.edges, id, id));
        }
    } else {
        lemma_placed(g, kinds, o, order, n - 1);
        let b = stages_back(g, kinds, o, order, n - 1);
        let x = order[order.len() - n];
        assert forall|stage: ShaderStage| #[trigger]
            read_in(g.edges, b, x, stage) implies outputs::reachable(g, o).contains(x) by {
            let i = choose|i: int|
                0 <= i < g.edges.len() && (#[trigger] g.edges[i]).from.node == x && b.contains_key(
                    g.edges[i].to.node,
                ) && b[g.edges[i].to.node] == stage;
            let y = g.edges[i].to.node;
            assert(outputs::reachable(g, o).contains(y));
            let end = choose|end: NodeId| outputs::is_end(o, end) && traversal::reaches(g.edges, y, end);
            let m = choose|m: nat| traversal::leads(g.edges, Set::empty(), y, end, m);
            assert(traversal::leads(g.edges, Set::empty(), x, end, m + 1));
            assert(traversal::reaches(g.edges, x, end));
        }
    }
}

/// What an author says about the stage of a node is what is done.
pub proof fn constraints_are_kept(g: GraphView, kinds: Kinds, o: GraphOutputsView, id: NodeId)
    requires
        plan_of(g, kinds, o) is Ok,
        plan_of(g, kinds, o)->Ok_0.stage_of.contains_key(id),
        !outputs::is_end(o, id),
    ensures
        match graph::stage_of_node(g, id) {
            StageConstraint::Vertex => plan_of(g, kinds, o)->Ok_0.stage_of[id]
                == ShaderStage::Vertex,
            StageConstraint::Fragment => plan_of(g, kinds, o)->Ok_0.stage_of[id]
                == ShaderStage::Fragment,
            StageConstraint::Auto => true,
        },
{
    let order = topology::topological(g, None)->Ok_0;
    lemma_placed(g, kinds, o, order, order.len() as int);
}

/// Only what an end depends on is placed.
pub proof fn only_what_is_needed_is_placed(
    g: GraphView,
    kinds: Kinds,
    o: GraphOutputsView,
    id: NodeId,
)
    requires
        plan_of(g, kinds, o) is Ok,
        plan_of(g, kinds, o)->Ok_0.stage_of.contains_key(id),
    ensures
        outputs::reachable(g, o).contains(id),
{
    let order = topology::topological(g, None)->Ok_0;
    lemma_placed(g, kinds, o, order, order.len() as int);
}

proof fn lemma_reachable_placed(
    g: GraphView,
    kinds: Kinds,
    o: GraphOutputsView,
    order: Seq<NodeId>,
    n: int,
)
    requires
        n <= order.len(),
        order.no_duplicates(),
        forall|x: NodeId| #[trigger] order.contains(x) <==> g.nodes.contains_key(x),
        topology::fed_before(g, None, order),
        soundness::ends_exist(g),
    ensures
        forall|k: int|
            order.len() - n <= k < order.len() && outputs::reachable(g, o).contains(#[trigger] order[k])
                ==> stages_back(g, kinds, o, order, n).contains_key(order[k]),
    decreases n,
{
    if n > 0 {
        lemma_reachable_placed(g, kinds, o, order, n - 1);
        lemma_placed(g, kinds, o, order, n - 1);
        let b = stages_back(g, kinds, o, order, n - 1);
        let p = order.len() - n;
        let x = order[p];
        assert forall|k: int|
            order.len() - n <= k < order.len() && outputs::reachable(g, o).contains(
                #[trigger] order[k],
            ) implies stages_back(g, kinds, o, order, n).contains_key(order[k]) by {
            if k > p {
                assert(b.contains_key(order[k]));
            } else {
                let end = choose|end: NodeId| outputs::is_end(o, end) && traversal::reaches(g.edges, x, end);
                let m = choose|m: nat| traversal::leads(g.edges, Set::empty(), x, end, m);
                if m == 0 {
                    assert(outputs::is_end(o, x));
                    assert(b.contains_key(x));
                } else {
                    let none = Set::<NodeId>::empty();
                    let i = choose|i: int|
                        0 <= i < g.edges.len() && (#[trigger] g.edges[i]).from.node == x
                            && !none.contains(g.edges[i].to.node) && traversal::leads(
                            g.edges,
                            none,
                            g.edges[i].to.node,
                            end,
                            (m - 1) as nat,
                        );
                    let y = g.edges[i].to.node;
                    assert(traversal::reaches(g.edges, y, end));
                    assert(outputs::reachable(g, o).contains(y));
                    assert(g.nodes.contains_key(y));
                    assert(order.contains(y));
                    let q = choose|q: int| 0 <= q < order.len() && order[q] == y;
                    assert(topology::hinders(None, g.edges[i], order[q]));
                    assert(order.take(q).contains(x));
                    let r = choose|r: int| 0 <= r < order.take(q).len() && order.take(q)[r] == x;
                    assert(order[r] == x);
                    assert(r == p);
                    assert(b.contains_key(order[q]));
                    let s = b[y];
                    assert(read_in(g.edges, b, x, s));
                    match s {
                        ShaderStage::Vertex => {},
                        ShaderStage::Fragment => {},
                    }
                }
            }
        }
    }
}

/// In a well wired graph the nodes that get a stage are exactly those that an
/// end depends on.
pub proof fn exactly_what_is_needed_is_placed(g: GraphView, kinds: Kinds, o: GraphOutputsView)
    requires
        soundness::well_wired(g),
        plan_of(g, kinds, o) is Ok,
        forall|id: NodeId| #[trigger] outputs::is_end(o, id) ==> g.nodes.contains_key(id),
    ensures
        plan_of(g, kinds, o)->Ok_0.stage_of.dom() == outputs::reachable(g, o),
{
    let order = topology::topological(g, None)->Ok_0;
    let stages = stages_in(g, kinds, o, order);
    topology::order_respects_edges(g, None);
    lemma_placed(g, kinds, o, order, order.len() as int);
    lemma_reachable_placed(g, kinds, o, order, order.len() as int);
    assert forall|id: NodeId| stages.dom().contains(id) == outputs::reachable(g, o).contains(id) by {
        if outputs::reachable(g, o).contains(id) {
            let end = choose|end: NodeId| outputs::is_end(o, end) && traversal::reaches(g.edges, id, end);
            let m = choose|m: nat| traversal::leads(g.edges, Set::empty(), id, end, m);
            if m == 0 {
                assert(outputs::is_end(o, id));
            } else {
                let none = Set::<NodeId>::empty();
                let i = choose|i: int|
                    0 <= i < g.edges.len() && (#[trigger] g.edges[i]).from.node == id
                        && !none.contains(g.edges[i].to.node) && traversal::leads(
                        g.edges,
                        none,
                        g.edges[i].to.node,
                        end,
                        (m - 1) as nat,
                    );
                assert(g.nodes.contains_key(g.edges[i].from.node));
            }
            assert(topology::in_play(g, None, id));
            assert(order.contains(id));
            let k = choose|k: int| 0 <= k < order.len() && order[k] == id;
            assert(stages.contains_key(order[k]));
        }
    }
    assert(stages.dom() =~= outputs::reachable(g, o));
}

} // verus!
