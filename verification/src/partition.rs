//! The parts of a module: one function for each end of a graph and each value
//! that crosses between the stages.

use vstd::prelude::*;

use crate::abi;
use crate::emit;
use crate::emit::{Emission, Emitted, EmittedView};
use crate::error::{CodegenError, CodegenErrorView, GraphError, GraphErrorView};
use crate::expr;
use crate::expr::{input_expr, invalid_graph, Bindings, Context, ContextView, ImportItems, Imports};
use crate::idmap::NodeSet;
use crate::ids::{NodeId, SocketRef, SocketRefView};
use crate::lists;
use crate::node::{NodeDefinitionView, SocketView};
use crate::stages;
use crate::stages::{Cut, CutView};
use crate::text;
use crate::text::same_text;
use crate::textmap::TextMap;
use crate::topology;
use crate::traversal;

verus! {

/// The statements that lead up to an end, and what the end's inputs read.
#[verifier::ext_equal]
pub struct PartitionView {
    /// The statements, in an order of dependency.
    pub body: Seq<char>,
    /// The inputs that something feeds, by socket.
    pub inputs: Seq<(Seq<char>, Seq<char>)>,
}

/// The statements that lead up to an end, and what the end's inputs read.
#[derive(Debug)]
pub struct Partition {
    /// The statements, in an order of dependency.
    pub body: String,
    /// The inputs that something feeds, by socket.
    pub inputs: Vec<(String, String)>,
}

impl View for Partition {
    type V = PartitionView;

    open spec fn view(&self) -> PartitionView {
        PartitionView { body: self.body@, inputs: text::seq_of(self.inputs@) }
    }
}

/// Being the input of this name.
pub open spec fn input_called(name: Seq<char>) -> spec_fn((Seq<char>, Seq<char>)) -> bool {
    |i: (Seq<char>, Seq<char>)| i.0 == name
}

impl PartitionView {
    /// What an input reads, or something else where nothing feeds it.
    pub open spec fn input(self, socket: Seq<char>, fallback: Seq<char>) -> Seq<char> {
        match lists::first_where(self.inputs, input_called(socket)) {
            Some(i) => i.1,
            None => fallback,
        }
    }
}

impl Partition {
    /// What an input reads, or something else where nothing feeds it.
    pub fn input<'a>(&'a self, socket: &str, fallback: &'a str) -> (r: &'a str)
        ensures
            r@ == self@.input(socket@, fallback@),
    {
        let ghost s = self@.inputs;
        let ghost p = input_called(socket@);
        let mut i: usize = 0;
        assert(s.skip(0) =~= s);
        while i < self.inputs.len()
            invariant
                i <= s.len() == self.inputs@.len(),
                s == text::seq_of(self.inputs@),
                p == input_called(socket@),
                lists::first_where(s, p) == lists::first_where(s.skip(i as int), p),
                s == self@.inputs,
            decreases s.len() - i,
        {
            proof {
                lists::lemma_first_where_skip(s, p, i as int);
            }
            assert(s[i as int] == self.inputs@[i as int]@);
            if same_text(self.inputs[i].0.as_str(), socket) {
                return self.inputs[i].1.as_str();
            }
            i += 1;
        }
        fallback
    }
}

/// The first `n` of these nodes emitted, but for some.
pub open spec fn with_nodes(
    c: ContextView,
    st: EmittedView,
    order: Seq<NodeId>,
    skip: Set<NodeId>,
    n: int,
) -> Emission
    decreases n,
{
    if n <= 0 {
        Ok(st)
    } else {
        match with_nodes(c, st, order, skip, n - 1) {
            Err(e) => Err(e),
            Ok(before) => if skip.contains(order[n - 1]) {
                Ok(before)
            } else {
                emit::with_emitted(c, before, order[n - 1])
            },
        }
    }
}

/// What the first `n` inputs of an end read, where something feeds them.
pub open spec fn inputs_read(
    c: ContextView,
    bindings: Map<SocketRefView, Seq<char>>,
    id: NodeId,
    inputs: Seq<SocketView>,
    n: int,
) -> Result<Seq<(Seq<char>, Seq<char>)>, CodegenErrorView>
    decreases n,
{
    if n <= 0 {
        Ok(Seq::empty())
    } else {
        match inputs_read(c, bindings, id, inputs, n - 1) {
            Err(e) => Err(e),
            Ok(before) => match expr::input_text(c, bindings, id, inputs[n - 1].name) {
                Err(e) => Err(e),
                Ok(Some(expr)) => Ok(before.push((inputs[n - 1].name, expr))),
                Ok(None) => Ok(before),
            },
        }
    }
}

/// A partition and what its module imports by then.
pub type Compiled = Result<(PartitionView, Imports), CodegenErrorView>;

/// The end itself, after what it depends on has been emitted.
pub open spec fn ended(c: ContextView, st: EmittedView, id: NodeId) -> Compiled {
    match c.g.definition(c.kinds, id) {
        Err(e) => Err(expr::invalid(e)),
        Ok(def) => match inputs_read(c, st.bindings, id, def.inputs, def.inputs.len() as int) {
            Err(e) => Err(e),
            Ok(inputs) => Ok((PartitionView { body: st.body, inputs }, st.imports)),
        },
    }
}

/// Everything that an end depends on and the end itself, where the walk goes
/// no further than `stops`, and what those nodes compute is bound already.
pub open spec fn compiled_between(
    c: ContextView,
    bindings: Map<SocketRefView, Seq<char>>,
    imports: Imports,
    terminal: NodeId,
    stops: Set<NodeId>,
) -> Compiled {
    match topology::topological(c.g, Some(traversal::dependencies(c.g.edges, stops, terminal))) {
        Err(e) => Err(expr::invalid(e)),
        Ok(order) => match with_nodes(
            c,
            EmittedView { bindings, imports, body: ""@ },
            order,
            stops.insert(terminal),
            order.len() as int,
        ) {
            Err(e) => Err(e),
            Ok(st) => ended(c, st, terminal),
        },
    }
}

/// One end, with everything it depends on.
pub open spec fn compiled_end(c: ContextView, imports: Imports, terminal: NodeId) -> Compiled {
    compiled_between(c, Map::empty(), imports, terminal, Set::empty())
}

/// The nodes that compute what crosses between the stages.
pub open spec fn cut_nodes(cuts: Seq<CutView>) -> Set<NodeId> {
    Set::new(|id: NodeId| stages::is_cut(cuts, id))
}

/// What the first `n` values that cross read as, once they have crossed.
pub open spec fn crossed_bindings(cuts: Seq<CutView>, n: int) -> Map<SocketRefView, Seq<char>>
    decreases n,
{
    if n <= 0 {
        Map::empty()
    } else {
        crossed_bindings(cuts, n - 1).insert(
            cuts[n - 1].socket,
            abi::MATERIAL_ATTRIBUTES_VAR@ + "."@ + cuts[n - 1].name,
        )
    }
}

/// One end of the fragment stage. What crosses from the vertex stage is read
/// as an interpolant and not computed again.
pub open spec fn compiled_fragment(
    c: ContextView,
    imports: Imports,
    terminal: NodeId,
    cuts: Seq<CutView>,
) -> Compiled {
    compiled_between(
        c,
        crossed_bindings(cuts, cuts.len() as int),
        imports,
        terminal,
        cut_nodes(cuts),
    )
}

/// One value that crosses, with everything it depends on.
pub open spec fn compiled_cut(c: ContextView, imports: Imports, socket: SocketRefView) -> Compiled {
    match topology::topological(c.g, Some(traversal::dependencies(c.g.edges, Set::empty(), socket.node))) {
        Err(e) => Err(expr::invalid(e)),
        Ok(order) => match with_nodes(
            c,
            EmittedView { bindings: Map::empty(), imports, body: ""@ },
            order,
            Set::empty().insert(socket.node),
            order.len() as int,
        ) {
            Err(e) => Err(e),
            Ok(before) => match emit::with_emitted(c, before, socket.node) {
                Err(e) => Err(e),
                Ok(st) => if st.bindings.contains_key(socket) {
                    Ok(
                        (
                            PartitionView {
                                body: st.body,
                                inputs: seq![(abi::SOCKET_VARYING@, st.bindings[socket])],
                            },
                            st.imports,
                        ),
                    )
                } else {
                    Err(expr::invalid(GraphErrorView::UnknownNode(socket.node)))
                },
            },
        },
    }
}

/// Whether what a function answered is this outcome.
pub open spec fn compiles(
    r: Result<Partition, CodegenError>,
    imports: Imports,
    outcome: Compiled,
) -> bool {
    match (r, outcome) {
        (Ok(p), Ok((v, after))) => p@ == v && imports == after,
        (Err(e), Err(v)) => e@ == v,
        _ => false,
    }
}

proof fn lemma_nodes_stop(
    c: ContextView,
    st: EmittedView,
    order: Seq<NodeId>,
    skip: Set<NodeId>,
    m: int,
    n: int,
)
    requires
        m <= n,
        with_nodes(c, st, order, skip, m) is Err,
    ensures
        with_nodes(c, st, order, skip, n) == with_nodes(c, st, order, skip, m),
    decreases n - m,
{
    if m < n {
        lemma_nodes_stop(c, st, order, skip, m, n - 1);
    }
}

proof fn lemma_inputs_stop(
    c: ContextView,
    bindings: Map<SocketRefView, Seq<char>>,
    id: NodeId,
    inputs: Seq<SocketView>,
    m: int,
    n: int,
)
    requires
        m <= n,
        inputs_read(c, bindings, id, inputs, m) is Err,
    ensures
        inputs_read(c, bindings, id, inputs, n) == inputs_read(c, bindings, id, inputs, m),
    decreases n - m,
{
    if m < n {
        lemma_inputs_stop(c, bindings, id, inputs, m, n - 1);
    }
}

/// Emit these nodes, but for an end and some others.
fn emit_nodes(
    st: &mut Emitted,
    c: &Context,
    order: &Vec<NodeId>,
    terminal: NodeId,
    stops: &NodeSet,
) -> (r: Result<(), CodegenError>)
    ensures
        emit::emits(
            r,
            final(st)@,
            with_nodes(c@, old(st)@, order@, stops@.insert(terminal), order@.len() as int),
        ),
{
    let ghost start = st@;
    let ghost skip = stops@.insert(terminal);
    let mut i: usize = 0;
    while i < order.len()
        invariant
            i <= order@.len(),
            start == old(st)@,
            skip == stops@.insert(terminal),
            with_nodes(c@, start, order@, skip, i as int) == Emission::Ok(st@),
        decreases order@.len() - i,
    {
        if order[i] != terminal && !stops.contains(order[i]) {
            match st.emit_node(c, order[i]) {
                Ok(_) => {},
                Err(e) => {
                    proof {
                        lemma_nodes_stop(c@, start, order@, skip, i + 1, order@.len() as int);
                    }
                    return Err(e);
                },
            }
        }
        i += 1;
    }
    Ok(())
}

/// What the inputs of an end read.
fn emit_terminal(c: &Context, bindings: &Bindings, id: NodeId) -> (r: Result<
    Vec<(String, String)>,
    CodegenError,
>)
    ensures
        match c@.g.definition(c@.kinds, id) {
            Err(v) => r is Err && r->Err_0@ == expr::invalid(v),
            Ok(def) => match (
                r,
                inputs_read(c@, bindings@, id, def.inputs, def.inputs.len() as int),
            ) {
                (Ok(a), Ok(b)) => text::seq_of(a@) == b,
                (Err(e), Err(v)) => e@ == v,
                _ => false,
            },
        },
{
    let def = match c.graph.definition(c.registry, id) {
        Ok(d) => d,
        Err(e) => {
            return Err(invalid_graph(e));
        },
    };
    let ghost s = def@.inputs;
    let mut inputs: Vec<(String, String)> = Vec::new();
    assert(text::seq_of(inputs@) =~= Seq::<(Seq<char>, Seq<char>)>::empty());
    let mut i: usize = 0;
    while i < def.inputs.len()
        invariant
            i <= s.len() == def.inputs@.len(),
            s == text::seq_of(def.inputs@),
            c@.g.definition(c@.kinds, id) == Result::<NodeDefinitionView, GraphErrorView>::Ok(def@),
            s == def@.inputs,
            inputs_read(c@, bindings@, id, s, i as int) == Result::<
                Seq<(Seq<char>, Seq<char>)>,
                CodegenErrorView,
            >::Ok(text::seq_of(inputs@)),
        decreases s.len() - i,
    {
        assert(s[i as int] == def.inputs@[i as int]@);
        let ghost before = inputs@;
        match input_expr(c, bindings, id, def.inputs[i].name.as_str()) {
            Ok(Some(expr)) => {
                inputs.push((def.inputs[i].name.as_str().to_owned(), expr));
                assert(text::seq_of(inputs@) =~= text::seq_of(before).push((s[i as int].name, expr@)));
            },
            Ok(None) => {},
            Err(e) => {
                proof {
                    lemma_inputs_stop(c@, bindings@, id, s, i + 1, s.len() as int);
                }
                return Err(e);
            },
        }
        i += 1;
    }
    Ok(inputs)
}

/// Compile everything between these nodes and an end.
fn compile_between(
    c: &Context,
    bindings: Bindings,
    imports: &mut TextMap<ImportItems>,
    terminal: NodeId,
    stops: &NodeSet,
) -> (r: Result<Partition, CodegenError>)
    ensures
        compiles(
            r,
            final(imports)@,
            compiled_between(c@, bindings@, old(imports)@, terminal, stops@),
        ),
{
    let needed = c.graph.dependencies_stopping_at(terminal, stops);
    let order = match c.graph.topological_order(Some(&needed)) {
        Ok(o) => o,
        Err(e) => {
            return Err(invalid_graph(e));
        },
    };
    let mut st = Emitted { bindings, imports: imports.copy(), body: "".to_owned() };
    match emit_nodes(&mut st, c, &order, terminal, stops) {
        Ok(_) => {},
        Err(e) => {
            return Err(e);
        },
    }
    let inputs = match emit_terminal(c, &st.bindings, terminal) {
        Ok(i) => i,
        Err(e) => {
            return Err(e);
        },
    };
    *imports = st.imports;
    Ok(Partition { body: st.body, inputs })
}

/// Compile one end, with everything it depends on.
pub fn emit_partition(c: &Context, imports: &mut TextMap<ImportItems>, terminal: NodeId) -> (r: Result<
    Partition,
    CodegenError,
>)
    ensures
        compiles(r, final(imports)@, compiled_end(c@, old(imports)@, terminal)),
{
    let none = NodeSet::new();
    compile_between(c, Bindings::new(), imports, terminal, &none)
}

/// Compile one end of the fragment stage.
pub fn emit_fragment_partition(
    c: &Context,
    imports: &mut TextMap<ImportItems>,
    terminal: NodeId,
    cuts: &Vec<Cut>,
) -> (r: Result<Partition, CodegenError>)
    ensures
        compiles(
            r,
            final(imports)@,
            compiled_fragment(c@, old(imports)@, terminal, text::seq_of(cuts@)),
        ),
{
    let ghost s = text::seq_of(cuts@);
    let mut stops = NodeSet::new();
    let mut bindings = Bindings::new();
    let mut i: usize = 0;
    while i < cuts.len()
        invariant
            i <= s.len() == cuts@.len(),
            s == text::seq_of(cuts@),
            bindings@ == crossed_bindings(s, i as int),
            forall|id: NodeId|
                #![trigger stops@.contains(id)]
                stops@.contains(id) <==> exists|j: int| 0 <= j < i && (#[trigger] s[j]).socket.node == id,
        decreases s.len() - i,
    {
        assert(s[i as int] == cuts@[i as int]@);
        let ghost before = stops@;
        stops.insert(cuts[i].socket.node);
        assert forall|id: NodeId| #![trigger stops@.contains(id)] stops@.contains(id) <==> exists|
            j: int,
        |
            0 <= j < i + 1 && (#[trigger] s[j]).socket.node == id by {
            assert(before.contains(id) <==> exists|j: int|
                0 <= j < i && (#[trigger] s[j]).socket.node == id);
            if id == s[i as int].socket.node {
                assert(s[i as int].socket.node == id);
            }
        }
        let mut expr = abi::MATERIAL_ATTRIBUTES_VAR.to_owned();
        expr.append(".");
        expr.append(cuts[i].name.as_str());
        bindings.bind(cuts[i].socket.clone(), expr);
        i += 1;
    }
    assert(stops@ =~= cut_nodes(s));
    compile_between(c, bindings, imports, terminal, &stops)
}

/// Compile one value that crosses, with everything it depends on.
pub fn emit_cut(c: &Context, imports: &mut TextMap<ImportItems>, socket: &SocketRef) -> (r: Result<
    Partition,
    CodegenError,
>)
    ensures
        compiles(r, final(imports)@, compiled_cut(c@, old(imports)@, socket@)),
{
    let needed = c.graph.dependencies_of(socket.node);
    let order = match c.graph.topological_order(Some(&needed)) {
        Ok(o) => o,
        Err(e) => {
            return Err(invalid_graph(e));
        },
    };
    let none = NodeSet::new();
    let mut st = Emitted::start(imports.copy());
    match emit_nodes(&mut st, c, &order, socket.node, &none) {
        Ok(_) => {},
        Err(e) => {
            return Err(e);
        },
    }
    match st.emit_node(c, socket.node) {
        Ok(_) => {},
        Err(e) => {
            return Err(e);
        },
    }
    let expr = match st.bindings.get(socket) {
        Some(x) => x.to_owned(),
        None => {
            return Err(invalid_graph(GraphError::UnknownNode(socket.node)));
        },
    };
    let mut inputs: Vec<(String, String)> = Vec::new();
    inputs.push((abi::SOCKET_VARYING.to_owned(), expr));
    assert(text::seq_of(inputs@) =~= seq![(abi::SOCKET_VARYING@, expr@)]);
    *imports = st.imports;
    Ok(Partition { body: st.body, inputs })
}

} // verus!
