//! What the head of a module holds: the imports of everything that its
//! functions use, and its macros with their values.

use vstd::prelude::*;

use crate::abi;
use crate::assemble;
use crate::codegen;
use crate::codegen::CodegenOptionsView;
use crate::codegen_laws;
use crate::emit;
use crate::emit::EmittedView;
use crate::emit_laws;
use crate::error;
use crate::expr;
use crate::expr::{ContextView, Imports};
use crate::graph::{GraphView, Kinds, ShaderStage, SocketRefView};
use crate::ids::NodeId;
use crate::literal;
use crate::macros::MacroValue;
use crate::module_laws;
use crate::node::{FunctionReturnView, NodeBodyView, NodeDefinitionView, SocketView};
use crate::outputs;
use crate::partition;
use crate::partition::PartitionView;
use crate::resources::MaterialInterfaceView;
use crate::sorting;
use crate::stages;
use crate::stages::CutView;
use crate::text;
use crate::textmap;
use crate::topology;
use crate::traversal;
use crate::wxsl;

verus! {

// ---------------------------------------------------------------------------
// Collecting imports

/// Whether an item of a module is imported.
pub open spec fn has_import(imports: Imports, module: Seq<char>, item: Seq<char>) -> bool {
    imports.contains_key(module) && imports[module].contains(item)
}

/// Whether everything that is imported in one place is imported in another.
pub open spec fn keeps_imports(a: Imports, b: Imports) -> bool {
    forall|module: Seq<char>, item: Seq<char>| #[trigger]
        has_import(a, module, item) ==> has_import(b, module, item)
}

/// Whether imports are lists of different items, of finitely many modules.
pub open spec fn are_lists(imports: Imports) -> bool {
    &&& imports.dom().finite()
    &&& forall|module: Seq<char>| #[trigger]
        imports.contains_key(module) ==> imports[module].no_duplicates()
            && imports[module].len() > 0
}

proof fn lemma_one_import(imports: Imports, module: Seq<char>, item: Seq<char>)
    ensures
        ({
            let after = expr::with_import(imports, module, item);
            &&& has_import(after, module, item)
            &&& keeps_imports(imports, after)
            &&& are_lists(imports) ==> are_lists(after)
            &&& forall|m: Seq<char>, x: Seq<char>| #[trigger]
                has_import(after, m, x) ==> has_import(imports, m, x) || (m == module && x == item)
        }),
{
    let after = expr::with_import(imports, module, item);
    let items = if imports.contains_key(module) {
        imports[module]
    } else {
        Seq::empty()
    };
    let longer = items.push(item);
    assert(longer[items.len() as int] == item);
    assert forall|m: Seq<char>, x: Seq<char>| #[trigger] has_import(imports, m, x) implies has_import(
        after,
        m,
        x,
    ) by {
        if m == module && !items.contains(item) {
            let k = choose|k: int| 0 <= k < items.len() && items[k] == x;
            assert(longer[k] == x);
        }
    }
    assert forall|m: Seq<char>, x: Seq<char>| #[trigger] has_import(after, m, x) implies has_import(
        imports,
        m,
        x,
    ) || (m == module && x == item) by {
        if m == module && !items.contains(item) {
            let k = choose|k: int| 0 <= k < longer.len() && longer[k] == x;
            if k < items.len() {
                assert(items[k] == x);
            }
        }
    }
}

proof fn lemma_imports(imports: Imports, list: Seq<(Seq<char>, Seq<char>)>, n: int)
    requires
        n <= list.len(),
    ensures
        keeps_imports(imports, expr::with_imports(imports, list, n)),
        are_lists(imports) ==> are_lists(expr::with_imports(imports, list, n)),
        forall|k: int|
            0 <= k < n ==> has_import(
                expr::with_imports(imports, list, n),
                (#[trigger] list[k]).0,
                list[k].1,
            ),
    decreases n,
{
    if n > 0 {
        lemma_imports(imports, list, n - 1);
        lemma_one_import(
            expr::with_imports(imports, list, n - 1),
            list[n - 1].0,
            list[n - 1].1,
        );
    }
}

proof fn lemma_outputs(
    c: ContextView,
    st: EmittedView,
    id: NodeId,
    def: NodeDefinitionView,
    exprs: Seq<Seq<char>>,
    n: int,
)
    requires
        emit::with_outputs(c, st, id, def, exprs, n) is Ok,
    ensures
        emit::with_outputs(c, st, id, def, exprs, n)->Ok_0.imports == st.imports,
    decreases n,
{
    if n > 0 {
        lemma_outputs(c, st, id, def, exprs, n - 1);
    }
}

proof fn lemma_fields(st: EmittedView, id: NodeId, name: Seq<char>, fields: Seq<SocketView>, n: int)
    ensures
        emit::with_fields(st, id, name, fields, n).imports == st.imports,
    decreases n,
{
    if n > 0 {
        lemma_fields(st, id, name, fields, n - 1);
    }
}

/// Whether the imports of a kind of node are all there.
pub open spec fn serves(imports: Imports, d: NodeDefinitionView) -> bool {
    &&& forall|k: int|
        0 <= k < d.imports.len() ==> has_import(imports, (#[trigger] d.imports[k]).0, d.imports[k].1)
    &&& d.body matches NodeBodyView::Call(f) ==> has_import(imports, f.module, f.name)
}

proof fn lemma_emitted(c: ContextView, st: EmittedView, id: NodeId)
    requires
        emit::with_emitted(c, st, id) is Ok,
    ensures
        c.g.known(c.kinds, id),
        ({
            let after = emit::with_emitted(c, st, id)->Ok_0.imports;
            &&& keeps_imports(st.imports, after)
            &&& are_lists(st.imports) ==> are_lists(after)
            &&& serves(after, c.g.kind(c.kinds, id))
        }),
{
    let d = c.g.kind(c.kinds, id);
    let list = d.all_imports();
    let asked = EmittedView {
        imports: expr::with_imports(st.imports, list, list.len() as int),
        ..st
    };
    lemma_imports(st.imports, list, list.len() as int);
    assert forall|k: int| 0 <= k < d.imports.len() implies has_import(
        asked.imports,
        (#[trigger] d.imports[k]).0,
        d.imports[k].1,
    ) by {
        assert(list[k] == d.imports[k]);
    }
    match d.body {
        NodeBodyView::Call(f) => {
            assert(list[d.imports.len() as int] == (f.module, f.name));
            match f.ret {
                FunctionReturnView::Struct { name, fields } => {
                    let args = emit::arguments(c, asked.bindings, id, f.params, f.params.len() as int)->Ok_0;
                    let types = emit::type_arguments_text(c.g, id, d.generics)->Ok_0;
                    let bound = emit::binding_of(id, "call"@);
                    lemma_fields(
                        EmittedView {
                            body: emit::let_line(
                                asked.body,
                                bound,
                                name,
                                emit::call_text(f.name, types, args),
                            ),
                            ..asked
                        },
                        id,
                        bound,
                        fields,
                        fields.len() as int,
                    );
                },
                _ => {},
            }
        },
        NodeBodyView::Expr(exprs) => {
            if exprs.len() == d.outputs.len() {
                lemma_outputs(c, asked, id, d, exprs, exprs.len() as int);
            }
        },
        _ => {},
    }
    assert(emit::with_emitted(c, st, id)->Ok_0.imports == asked.imports);
}

proof fn lemma_nodes(c: ContextView, st: EmittedView, order: Seq<NodeId>, skip: Set<NodeId>, n: int)
    requires
        partition::with_nodes(c, st, order, skip, n) is Ok,
        n <= order.len(),
    ensures
        ({
            let after = partition::with_nodes(c, st, order, skip, n)->Ok_0.imports;
            &&& keeps_imports(st.imports, after)
            &&& are_lists(st.imports) ==> are_lists(after)
            &&& forall|k: int|
                0 <= k < n && !skip.contains(#[trigger] order[k]) ==> serves(
                    after,
                    c.g.kind(c.kinds, order[k]),
                )
        }),
    decreases n,
{
    if n > 0 {
        lemma_nodes(c, st, order, skip, n - 1);
        let before = partition::with_nodes(c, st, order, skip, n - 1)->Ok_0;
        if !skip.contains(order[n - 1]) {
            lemma_emitted(c, before, order[n - 1]);
        }
        let after = partition::with_nodes(c, st, order, skip, n)->Ok_0.imports;
        assert forall|k: int| 0 <= k < n && !skip.contains(#[trigger] order[k]) implies serves(
            after,
            c.g.kind(c.kinds, order[k]),
        ) by {
            if k < n - 1 {
                lemma_still_serves(before.imports, after, c.g.kind(c.kinds, order[k]));
            }
        }
    }
}

proof fn lemma_still_serves(a: Imports, b: Imports, d: NodeDefinitionView)
    requires
        serves(a, d),
        keeps_imports(a, b),
    ensures
        serves(b, d),
{
    assert forall|k: int| 0 <= k < d.imports.len() implies has_import(
        b,
        (#[trigger] d.imports[k]).0,
        d.imports[k].1,
    ) by {
        assert(has_import(a, d.imports[k].0, d.imports[k].1));
    }
}

/// Whether a module imports what the nodes use that an end depends on, as far
/// as they are computed where it is.
pub open spec fn serves_end(
    g: GraphView,
    kinds: Kinds,
    cuts: Seq<CutView>,
    end: NodeId,
    imports: Imports,
) -> bool {
    forall|id: NodeId| #[trigger]
        g.nodes.contains_key(id) && id != end && emit_laws::stays(cuts, id) && traversal::leads_to(
            g.edges,
            Set::new(|x: NodeId| !emit_laws::stays(cuts, x)),
            id,
            end,
        ) ==> serves(imports, g.kind(kinds, id))
}

proof fn lemma_still_serves_end(
    g: GraphView,
    kinds: Kinds,
    cuts: Seq<CutView>,
    end: NodeId,
    a: Imports,
    b: Imports,
)
    requires
        serves_end(g, kinds, cuts, end, a),
        keeps_imports(a, b),
    ensures
        serves_end(g, kinds, cuts, end, b),
{
    assert forall|id: NodeId| #[trigger]
        g.nodes.contains_key(id) && id != end && emit_laws::stays(cuts, id) && traversal::leads_to(
            g.edges,
            Set::new(|x: NodeId| !emit_laws::stays(cuts, x)),
            id,
            end,
        ) implies serves(b, g.kind(kinds, id)) by {
        lemma_still_serves(a, b, g.kind(kinds, id));
    }
}

proof fn lemma_between(
    c: ContextView,
    bindings: Map<SocketRefView, Seq<char>>,
    imports: Imports,
    end: NodeId,
    cuts: Seq<CutView>,
    stops: Set<NodeId>,
)
    requires
        forall|id: NodeId| #[trigger] stops.contains(id) <==> !emit_laws::stays(cuts, id),
        partition::compiled_between(c, bindings, imports, end, stops) is Ok,
    ensures
        ({
            let after = partition::compiled_between(c, bindings, imports, end, stops)->Ok_0.1;
            &&& keeps_imports(imports, after)
            &&& are_lists(imports) ==> are_lists(after)
            &&& serves_end(c.g, c.kinds, cuts, end, after)
        }),
{
    emit_laws::lemma_order(c, cuts, stops, end);
    let order = topology::topological(
        c.g,
        Some(traversal::dependencies(c.g.edges, stops, end)),
    )->Ok_0;
    let st = EmittedView { bindings, imports, body: ""@ };
    lemma_nodes(c, st, order, stops.insert(end), order.len() as int);
    let after = partition::compiled_between(c, bindings, imports, end, stops)->Ok_0.1;
    assert forall|id: NodeId| #[trigger]
        c.g.nodes.contains_key(id) && id != end && emit_laws::stays(cuts, id)
            && traversal::leads_to(
            c.g.edges,
            Set::new(|x: NodeId| !emit_laws::stays(cuts, x)),
            id,
            end,
        ) implies serves(after, c.g.kind(c.kinds, id)) by {
        assert(order.contains(id));
        let k = choose|k: int| 0 <= k < order.len() && order[k] == id;
        assert(!stops.insert(end).contains(order[k]));
    }
}

proof fn lemma_cut(c: ContextView, imports: Imports, cut: CutView)
    requires
        partition::compiled_cut(c, imports, cut.socket) is Ok,
    ensures
        ({
            let after = partition::compiled_cut(c, imports, cut.socket)->Ok_0.1;
            &&& keeps_imports(imports, after)
            &&& are_lists(imports) ==> are_lists(after)
            &&& serves_end(c.g, c.kinds, Seq::empty(), cut.socket.node, after)
            &&& serves(after, c.g.kind(c.kinds, cut.socket.node))
        }),
{
    let end = cut.socket.node;
    let none = Seq::<CutView>::empty();
    let stops = Set::<NodeId>::empty();
    emit_laws::lemma_order(c, none, stops, end);
    let order = topology::topological(
        c.g,
        Some(traversal::dependencies(c.g.edges, stops, end)),
    )->Ok_0;
    let st = EmittedView { bindings: Map::empty(), imports, body: ""@ };
    let skip = Set::empty().insert(end);
    lemma_nodes(c, st, order, skip, order.len() as int);
    let before = partition::with_nodes(c, st, order, skip, order.len() as int)->Ok_0;
    lemma_emitted(c, before, end);
    let after = partition::compiled_cut(c, imports, cut.socket)->Ok_0.1;
    assert forall|id: NodeId| #[trigger]
        c.g.nodes.contains_key(id) && id != end && emit_laws::stays(none, id)
            && traversal::leads_to(
            c.g.edges,
            Set::new(|x: NodeId| !emit_laws::stays(none, x)),
            id,
            end,
        ) implies serves(after, c.g.kind(c.kinds, id)) by {
        assert(order.contains(id));
        let k = choose|k: int| 0 <= k < order.len() && order[k] == id;
        assert(!skip.contains(order[k]));
        lemma_still_serves(before.imports, after, c.g.kind(c.kinds, id));
    }
}


proof fn lemma_written(
    c: ContextView,
    imports: Imports,
    varyings: Seq<(Seq<char>, NodeId)>,
    n: int,
)
    requires
        codegen::written_varyings(c, imports, varyings, n) is Ok,
    ensures
        ({
            let after = codegen::written_varyings(c, imports, varyings, n)->Ok_0.1;
            &&& keeps_imports(imports, after)
            &&& are_lists(imports) ==> are_lists(after)
            &&& forall|k: int|
                0 <= k < n ==> serves_end(
                    c.g,
                    c.kinds,
                    Seq::empty(),
                    (#[trigger] varyings[k]).1,
                    after,
                )
        }),
    decreases n,
{
    if n > 0 {
        lemma_written(c, imports, varyings, n - 1);
        let before = codegen::written_varyings(c, imports, varyings, n - 1)->Ok_0.1;
        let after = codegen::written_varyings(c, imports, varyings, n)->Ok_0.1;
        lemma_between(
            c,
            Map::empty(),
            before,
            varyings[n - 1].1,
            Seq::empty(),
            Set::empty(),
        );
        assert forall|k: int| 0 <= k < n implies serves_end(
            c.g,
            c.kinds,
            Seq::empty(),
            (#[trigger] varyings[k]).1,
            after,
        ) by {
            if k < n - 1 {
                lemma_still_serves_end(
                    c.g,
                    c.kinds,
                    Seq::empty(),
                    varyings[k].1,
                    before,
                    after,
                );
            }
        }
    }
}

/// Whether a module imports what a value uses that crosses between the stages,
/// and everything behind it.
pub open spec fn serves_cut(g: GraphView, kinds: Kinds, cut: CutView, imports: Imports) -> bool {
    serves_end(g, kinds, Seq::empty(), cut.socket.node, imports) && serves(
        imports,
        g.kind(kinds, cut.socket.node),
    )
}

proof fn lemma_crossing(
    c: ContextView,
    start: (Seq<(Seq<char>, PartitionView)>, Imports),
    cuts: Seq<CutView>,
    n: int,
)
    requires
        codegen::crossing_varyings(c, start, cuts, n) is Ok,
    ensures
        ({
            let after = codegen::crossing_varyings(c, start, cuts, n)->Ok_0.1;
            &&& keeps_imports(start.1, after)
            &&& are_lists(start.1) ==> are_lists(after)
            &&& forall|k: int|
                0 <= k < n ==> serves_cut(c.g, c.kinds, #[trigger] cuts[k], after)
        }),
    decreases n,
{
    if n > 0 {
        lemma_crossing(c, start, cuts, n - 1);
        let before = codegen::crossing_varyings(c, start, cuts, n - 1)->Ok_0.1;
        let after = codegen::crossing_varyings(c, start, cuts, n)->Ok_0.1;
        lemma_cut(c, before, cuts[n - 1]);
        assert forall|k: int| 0 <= k < n implies serves_cut(
            c.g,
            c.kinds,
            #[trigger] cuts[k],
            after,
        ) by {
            if k < n - 1 {
                lemma_still_serves_end(
                    c.g,
                    c.kinds,
                    Seq::empty(),
                    cuts[k].socket.node,
                    before,
                    after,
                );
                lemma_still_serves(before, after, c.g.kind(c.kinds, cuts[k].socket.node));
            }
        }
    }
}

/// Whether a module imports what each of its functions uses.
pub open spec fn serves_all(
    g: GraphView,
    kinds: Kinds,
    o: CodegenOptionsView,
    imports: Imports,
) -> bool {
    let outs = outputs::outputs_of(g, kinds)->0;
    let cuts = codegen_laws::crossing(g, kinds);
    &&& outs.vertex matches Some(end) ==> serves_end(g, kinds, Seq::empty(), end, imports)
    &&& outs.discard matches Some(end) ==> serves_end(g, kinds, cuts, end, imports)
    &&& o.stage.needs_surface() ==> serves_end(g, kinds, cuts, outs.surface, imports)
    &&& o.stage.needs_surface() || outs.discard is Some ==> {
        &&& forall|k: int|
            0 <= k < outs.varyings.len() ==> serves_end(
                g,
                kinds,
                Seq::empty(),
                (#[trigger] outs.varyings[k]).1,
                imports,
            )
        &&& forall|k: int|
            0 <= k < cuts.len() ==> serves_cut(g, kinds, #[trigger] cuts[k], imports)
    }
}

proof fn lemma_still_serves_all(
    g: GraphView,
    kinds: Kinds,
    o: CodegenOptionsView,
    a: Imports,
    b: Imports,
)
    requires
        serves_all(g, kinds, o, a),
        keeps_imports(a, b),
    ensures
        serves_all(g, kinds, o, b),
{
    let outs = outputs::outputs_of(g, kinds)->0;
    let cuts = codegen_laws::crossing(g, kinds);
    let none = Seq::<CutView>::empty();
    if outs.vertex is Some {
        lemma_still_serves_end(g, kinds, none, outs.vertex->0, a, b);
    }
    if outs.discard is Some {
        lemma_still_serves_end(g, kinds, cuts, outs.discard->0, a, b);
    }
    if o.stage.needs_surface() {
        lemma_still_serves_end(g, kinds, cuts, outs.surface, a, b);
    }
    if o.stage.needs_surface() || outs.discard is Some {
        assert forall|k: int| 0 <= k < outs.varyings.len() implies serves_end(
            g,
            kinds,
            Seq::empty(),
            (#[trigger] outs.varyings[k]).1,
            b,
        ) by {
            lemma_still_serves_end(g, kinds, none, outs.varyings[k].1, a, b);
        }
        assert forall|k: int| 0 <= k < cuts.len() implies serves_cut(
            g,
            kinds,
            #[trigger] cuts[k],
            b,
        ) by {
            lemma_still_serves_end(g, kinds, none, cuts[k].socket.node, a, b);
            lemma_still_serves(a, b, g.kind(kinds, cuts[k].socket.node));
        }
    }
}

proof fn lemma_parts(g: GraphView, kinds: Kinds, o: CodegenOptionsView, m: MaterialInterfaceView)
    requires
        ({
            let outs = outputs::outputs_of(g, kinds)->0;
            let cuts = codegen_laws::crossing(g, kinds);
            codegen::partitions_of(g, kinds, m, o.stage, outs, cuts) is Ok
        }),
    ensures
        ({
            let outs = outputs::outputs_of(g, kinds)->0;
            let cuts = codegen_laws::crossing(g, kinds);
            let after = codegen::partitions_of(g, kinds, m, o.stage, outs, cuts)->Ok_0.1;
            are_lists(after) && serves_all(g, kinds, o, after)
        }),
{
    let outs = outputs::outputs_of(g, kinds)->0;
    let cuts = codegen_laws::crossing(g, kinds);
    let none = Seq::<CutView>::empty();
    let v = ContextView { g, kinds, interface: m, stage: ShaderStage::Vertex };
    let f = ContextView { g, kinds, interface: m, stage: ShaderStage::Fragment };
    let first = Map::<Seq<char>, Seq<Seq<char>>>::empty();
    let stops = partition::cut_nodes(cuts);
    let bound = partition::crossed_bindings(cuts, cuts.len() as int);
    assert forall|id: NodeId| #[trigger] stops.contains(id) <==> !emit_laws::stays(cuts, id) by {
        if stages::is_cut(cuts, id) {
            let i = choose|i: int| 0 <= i < cuts.len() && (#[trigger] cuts[i]).socket.node == id;
            assert(cuts[i].socket.node == id);
        }
    }
    let a = codegen::vertex_part(v, first, outs.vertex)->Ok_0.1;
    if outs.vertex is Some {
        lemma_between(v, Map::empty(), first, outs.vertex->0, none, Set::empty());
    }
    assert(are_lists(a));
    let b = codegen::fragment_part(f, a, outs.discard, cuts)->Ok_0.1;
    if outs.discard is Some {
        lemma_between(f, bound, a, outs.discard->0, cuts, stops);
    }
    assert(are_lists(b) && keeps_imports(a, b));
    let has = codegen::has_fragment(o.stage, outs);
    let d = codegen::all_varyings(v, b, has, outs, cuts)->Ok_0.1;
    let n = outs.varyings.len() as int;
    if has {
        lemma_written(v, b, outs.varyings, n);
        let start = codegen::written_varyings(v, b, outs.varyings, n)->Ok_0;
        lemma_crossing(v, start, cuts, cuts.len() as int);
        assert forall|k: int| 0 <= k < n implies serves_end(
            g,
            kinds,
            Seq::empty(),
            (#[trigger] outs.varyings[k]).1,
            d,
        ) by {
            lemma_still_serves_end(g, kinds, none, outs.varyings[k].1, start.1, d);
        }
    }
    assert(are_lists(d) && keeps_imports(b, d));
    let end = if o.stage.needs_surface() {
        Some(outs.surface)
    } else {
        None
    };
    let e = codegen::fragment_part(f, d, end, cuts)->Ok_0.1;
    if o.stage.needs_surface() {
        lemma_between(f, bound, d, outs.surface, cuts, stops);
    }
    assert(are_lists(e) && keeps_imports(d, e));
    if outs.vertex is Some {
        lemma_still_serves_end(g, kinds, none, outs.vertex->0, a, e);
    }
    if outs.discard is Some {
        lemma_still_serves_end(g, kinds, cuts, outs.discard->0, b, e);
    }
    if has {
        assert forall|k: int| 0 <= k < n implies serves_end(
            g,
            kinds,
            Seq::empty(),
            (#[trigger] outs.varyings[k]).1,
            e,
        ) by {
            lemma_still_serves_end(g, kinds, none, outs.varyings[k].1, d, e);
        }
        assert forall|k: int| 0 <= k < cuts.len() implies serves_cut(
            g,
            kinds,
            #[trigger] cuts[k],
            e,
        ) by {
            lemma_still_serves_end(g, kinds, none, cuts[k].socket.node, d, e);
            lemma_still_serves(d, e, g.kind(kinds, cuts[k].socket.node));
        }
    }
    assert(codegen::partitions_of(g, kinds, m, o.stage, outs, cuts)->Ok_0.1 == e);
}

/// Whether a module imports the words of the shader interface that it uses.
pub open spec fn knows_its_words(
    imports: Imports,
    entries: bool,
    displaces: bool,
    shades: bool,
    interpolates: bool,
) -> bool {
    let surface = abi::SURFACE_MODULE@;
    let vertex = abi::VERTEX_MODULE@;
    &&& has_import(imports, surface, "SurfaceContext"@)
    &&& shades ==> has_import(imports, surface, "Surface"@) && has_import(
        imports,
        surface,
        "default_surface"@,
    )
    &&& displaces || interpolates ==> has_import(imports, vertex, "VertexContext"@)
    &&& entries ==> {
        &&& has_import(imports, vertex, "VertexIn"@)
        &&& has_import(imports, vertex, "VertexOut"@)
        &&& has_import(imports, vertex, abi::SURFACE_CONTEXT_FN@)
        &&& displaces ==> has_import(imports, vertex, abi::TRANSFORM_VERTEX_OFFSET_FN@)
        &&& !displaces ==> has_import(imports, vertex, abi::TRANSFORM_VERTEX_FN@)
        &&& displaces || interpolates ==> has_import(imports, vertex, abi::VERTEX_CONTEXT_FN@)
    }
}

proof fn lemma_vocabulary(
    imports: Imports,
    o: CodegenOptionsView,
    displaces: bool,
    shades: bool,
    interpolates: bool,
)
    ensures
        ({
            let after = codegen::vocabulary(imports, o, displaces, shades, interpolates);
            &&& keeps_imports(imports, after)
            &&& are_lists(imports) ==> are_lists(after)
            &&& knows_its_words(after, o.emit_entry_points, displaces, shades, interpolates)
        }),
{
    assert forall|i: Imports, module: Seq<char>, item: Seq<char>| has_import(
        #[trigger] expr::with_import(i, module, item),
        module,
        item,
    ) && keeps_imports(i, expr::with_import(i, module, item)) && (are_lists(i) ==> are_lists(
        expr::with_import(i, module, item),
    )) by {
        lemma_one_import(i, module, item);
    }
}


// ---------------------------------------------------------------------------
// The head as text

/// The line that imports items of a module.
pub open spec fn import_piece(module: Seq<char>, items: Seq<Seq<char>>) -> Seq<char> {
    "import "@ + module + "::"@ + (if items.len() == 1 {
        items[0]
    } else {
        "{"@ + text::joined(items) + "}"@
    }) + ";\n"@
}

proof fn lemma_names(out: Seq<char>, names: Seq<Seq<char>>)
    ensures
        error::names_text(out, names) == out + text::joined(names),
    decreases names.len(),
{
    if names.len() == 0 {
        assert(out + text::joined(names) =~= out);
    } else {
        let t = names.drop_last();
        lemma_names(out, t);
        assert(names =~= t.push(names.last()));
        if names.len() == 1 {
            assert(text::joined(t) =~= Seq::<char>::empty());
            assert(error::names_text(out, names) =~= out + text::joined(names));
        } else {
            text::lemma_joined_push(t, names.last());
            assert(error::names_text(out, names) =~= out + text::joined(names));
        }
    }
}

proof fn lemma_by_text_is_strict()
    ensures
        sorting::strict_order(assemble::by_text()),
{
    let less = assemble::by_text();
    assert forall|a: Seq<char>, b: Seq<char>| #[trigger] less(a, b) implies !less(b, a) by {
        text::text_less_total(a, b);
    }
    assert forall|a: Seq<char>, b: Seq<char>, c: Seq<char>|
        !(#[trigger] less(b, a)) && !(#[trigger] less(c, b)) implies !less(c, a) by {
        text::text_less_total(a, b);
        text::text_less_total(b, c);
        if text::text_less(c, a) && text::text_less(a, b) {
            text::text_less_transitive(c, a, b);
        }
    }
}

/// Whether a line of source imports exactly these items of a module, by name.
pub open spec fn imports_exactly(
    source: Seq<char>,
    module: Seq<char>,
    items: Seq<Seq<char>>,
    listed: Seq<Seq<char>>,
) -> bool {
    &&& listed.len() == items.len()
    &&& forall|x: Seq<char>| #[trigger] listed.contains(x) <==> items.contains(x)
    &&& forall|i: int, j: int|
        0 <= i < j < listed.len() ==> !text::text_less(#[trigger] listed[j], #[trigger] listed[i])
    &&& module_laws::occurs(source, import_piece(module, listed))
}

proof fn lemma_import_line(out: Seq<char>, module: Seq<char>, items: Seq<Seq<char>>)
    ensures
        imports_exactly(
            assemble::import_line(out, module, items),
            module,
            items,
            sorting::sorted(items, assemble::by_text()),
        ),
        text::begins(assemble::import_line(out, module, items), out),
{
    lemma_by_text_is_strict();
    let less = assemble::by_text();
    sorting::lemma_sorted(items, less);
    let listed = sorting::sorted(items, less);
    assert forall|i: int, j: int| 0 <= i < j < listed.len() implies !text::text_less(
        #[trigger] listed[j],
        #[trigger] listed[i],
    ) by {
        assert(!less(listed[j], listed[i]));
    }
    let line = assemble::import_line(out, module, items);
    let own = import_piece(module, listed);
    if listed.len() != 1 {
        reveal_strlit("};\n");
        reveal_strlit("}");
        reveal_strlit(";\n");
        assert("};\n"@ =~= "}"@ + ";\n"@);
        lemma_names(out + "import "@ + module + "::"@ + "{"@, listed);
    }
    assert(line =~= out + own);
    text::lemma_begins_itself(out + own);
    assert(module_laws::occurs(line, own));
    text::lemma_begins_itself(out);
    text::lemma_begins_further(out, out, own);
}

proof fn lemma_import_lines(out: Seq<char>, imports: Imports, modules: Seq<Seq<char>>, k: int, n: int)
    requires
        0 <= k < n <= modules.len(),
    ensures
        exists|listed: Seq<Seq<char>>| #[trigger]
            imports_exactly(
                assemble::imports_text(out, imports, modules, n),
                modules[k],
                imports[modules[k]],
                listed,
            ),
    decreases n,
{
    let before = assemble::imports_text(out, imports, modules, n - 1);
    let after = assemble::imports_text(out, imports, modules, n);
    lemma_import_line(before, modules[n - 1], imports[modules[n - 1]]);
    if k < n - 1 {
        lemma_import_lines(out, imports, modules, k, n - 1);
        let listed = choose|listed: Seq<Seq<char>>| #[trigger]
            imports_exactly(before, modules[k], imports[modules[k]], listed);
        lemma_further(before, after, modules[k], imports[modules[k]], listed);
    }
}

proof fn lemma_further(
    before: Seq<char>,
    after: Seq<char>,
    module: Seq<char>,
    items: Seq<Seq<char>>,
    listed: Seq<Seq<char>>,
)
    requires
        imports_exactly(before, module, items, listed),
        text::begins(after, before),
    ensures
        imports_exactly(after, module, items, listed),
{
    let own = import_piece(module, listed);
    let front = choose|front: Seq<char>| text::begins(before, #[trigger] (front + own));
    text::lemma_begins_across(front + own, before, after);
}

/// The line that declares a macro with a value, where the value can be written.
pub open spec fn macro_piece(name: Seq<char>, value: MacroValue) -> Option<Seq<char>> {
    match value {
        MacroValue::Flag(flag) => Some(
            "@macro const "@ + name + ": bool = "@ + (if flag {
                "true"@
            } else {
                "false"@
            }) + ";\n"@,
        ),
        MacroValue::Int(number) => Some(
            "@macro const "@ + name + ": i32 = "@ + text::signed_decimal(number as int) + ";\n"@,
        ),
        MacroValue::Float(number) => match literal::float_literal(number) {
            Some(digits) => Some("@macro const "@ + name + ": f32 = "@ + digits + ";\n"@),
            None => None,
        },
    }
}

proof fn lemma_macro_line(out: Seq<char>, name: Seq<char>, value: MacroValue)
    ensures
        text::begins(assemble::macro_line(out, name, value), out),
        wxsl::is_ident(name) ==> (macro_piece(name, value) matches Some(own)
            ==> module_laws::occurs(assemble::macro_line(out, name, value), own)),
{
    let line = assemble::macro_line(out, name, value);
    text::lemma_begins_itself(out);
    match macro_piece(name, value) {
        Some(own) => {
            if wxsl::is_ident(name) {
                assert(line =~= out + own);
                text::lemma_begins_itself(out + own);
                text::lemma_begins_further(out, out, own);
            }
        },
        None => {},
    }
}

proof fn lemma_macro_lines(
    out: Seq<char>,
    macros: Map<Seq<char>, MacroValue>,
    names: Seq<Seq<char>>,
    k: int,
    n: int,
)
    requires
        0 <= n <= names.len(),
    ensures
        text::begins(assemble::macros_text(out, macros, names, n), out),
        0 <= k < n && wxsl::is_ident(names[k]) ==> (macro_piece(
            names[k],
            macros[names[k]],
        ) matches Some(own) ==> module_laws::occurs(
            assemble::macros_text(out, macros, names, n),
            own,
        )),
    decreases n,
{
    text::lemma_begins_itself(out);
    if n > 0 {
        let before = assemble::macros_text(out, macros, names, n - 1);
        let after = assemble::macros_text(out, macros, names, n);
        lemma_macro_lines(out, macros, names, k, n - 1);
        lemma_macro_line(before, names[n - 1], macros[names[n - 1]]);
        text::lemma_begins_across(out, before, after);
        if 0 <= k < n - 1 && wxsl::is_ident(names[k]) && macro_piece(
            names[k],
            macros[names[k]],
        ) is Some {
            let own = macro_piece(names[k], macros[names[k]])->0;
            let front = choose|front: Seq<char>| text::begins(before, #[trigger] (front + own));
            text::lemma_begins_across(front + own, before, after);
        }
    }
}

/// Whether source imports an item of a module, on a line with others of it.
pub open spec fn is_imported(source: Seq<char>, module: Seq<char>, item: Seq<char>) -> bool {
    exists|listed: Seq<Seq<char>>|
        listed.contains(item) && module_laws::occurs(
            source,
            #[trigger] import_piece(module, listed),
        )
}

/// A module imports everything that it uses: what each node asks for and the
/// function that it calls, for every node that one of the module's functions
/// computes; what its lighting calls; and the words of the shader interface.
/// All of it stands in its source.
pub proof fn modules_import_what_they_use(g: GraphView, kinds: Kinds, o: CodegenOptionsView)
    requires
        codegen::generated(g, kinds, o) is Ok,
    ensures
        exists|imports: Imports|
            {
                let shader = codegen::generated(g, kinds, o)->Ok_0;
                let outs = outputs::outputs_of(g, kinds)->0;
                let list = codegen::lighting_of(o).imports;
                &&& #[trigger] serves_all(g, kinds, o, imports)
                &&& has_import(imports, abi::SURFACE_MODULE@, "SurfaceContext"@)
                &&& o.emit_entry_points && outs.vertex is Some ==> has_import(
                    imports,
                    abi::VERTEX_MODULE@,
                    abi::TRANSFORM_VERTEX_OFFSET_FN@,
                )
                &&& o.emit_entry_points && outs.vertex is None ==> has_import(
                    imports,
                    abi::VERTEX_MODULE@,
                    abi::TRANSFORM_VERTEX_FN@,
                )
                &&& forall|k: int|
                    0 <= k < list.len() ==> has_import(
                        imports,
                        (#[trigger] list[k]).0,
                        list[k].1,
                    )
                &&& forall|module: Seq<char>, item: Seq<char>| #[trigger]
                    has_import(imports, module, item) ==> is_imported(
                        shader.source,
                        module,
                        item,
                    )
            },
{
    let p = codegen_laws::lemma_source(g, kinds, o);
    let outs = outputs::outputs_of(g, kinds)->0;
    let cuts = codegen_laws::crossing(g, kinds);
    let m = codegen::interface_with(g, kinds, outs, cuts);
    let shader = codegen::generated(g, kinds, o)->Ok_0;
    let (p1, asked) = codegen::partitions_of(g, kinds, m, o.stage, outs, cuts)->Ok_0;
    lemma_parts(g, kinds, o, m);
    let words = codegen::vocabulary(
        asked,
        o,
        p1.vertex is Some,
        p1.surface is Some,
        p1.varyings.len() > 0,
    );
    lemma_vocabulary(
        asked,
        o,
        p1.vertex is Some,
        p1.surface is Some,
        p1.varyings.len() > 0,
    );
    let lighting = codegen::lighting_of(o);
    let list = lighting.imports;
    let imports = expr::with_imports(words, list, list.len() as int);
    lemma_imports(words, list, list.len() as int);
    assert(keeps_imports(asked, imports)) by {
        assert forall|a: Seq<char>, b: Seq<char>| #[trigger] has_import(asked, a, b) implies
            has_import(imports, a, b) by {
            assert(has_import(words, a, b));
        }
    }
    lemma_still_serves_all(g, kinds, o, asked, imports);
    assert(p1.vertex is Some == outs.vertex is Some);
    assert(has_import(words, abi::SURFACE_MODULE@, "SurfaceContext"@));
    if o.emit_entry_points {
        if outs.vertex is Some {
            assert(has_import(words, abi::VERTEX_MODULE@, abi::TRANSFORM_VERTEX_OFFSET_FN@));
        } else {
            assert(has_import(words, abi::VERTEX_MODULE@, abi::TRANSFORM_VERTEX_FN@));
        }
    }
    codegen_laws::lemma_values_only(g, kinds, outs, cuts);
    module_laws::lemma_module(g.name, shader.macros, o, m, imports, lighting.source, p1);
    let modules = textmap::in_order(imports.dom());
    textmap::lemma_in_order(imports.dom());
    let names = textmap::in_order(shader.macros.dom());
    let head = assemble::module_head(g.name, shader.macros);
    let imported = assemble::imports_text(head, imports, modules, modules.len() as int);
    lemma_macro_lines(imported, shader.macros, names, 0, names.len() as int);
    let with_macros = assemble::macros_text(
        imported,
        shader.macros,
        names,
        names.len() as int,
    );
    text::lemma_begins_across(imported, with_macros, shader.source);
    assert forall|module: Seq<char>, item: Seq<char>| #[trigger]
        has_import(imports, module, item) implies is_imported(shader.source, module, item) by {
        assert(modules.contains(module));
        let k = choose|k: int| 0 <= k < modules.len() && modules[k] == module;
        lemma_import_lines(head, imports, modules, k, modules.len() as int);
        let listed = choose|listed: Seq<Seq<char>>| #[trigger]
            imports_exactly(imported, modules[k], imports[modules[k]], listed);
        lemma_further(imported, shader.source, module, imports[module], listed);
        assert(listed.contains(item));
    }
}

/// A module declares every macro in effect that has a name in source, with its
/// value.
pub proof fn modules_declare_their_macros(
    g: GraphView,
    kinds: Kinds,
    o: CodegenOptionsView,
    name: Seq<char>,
)
    requires
        codegen::generated(g, kinds, o) is Ok,
        codegen::generated(g, kinds, o)->Ok_0.macros.dom().finite(),
        codegen::generated(g, kinds, o)->Ok_0.macros.contains_key(name),
        wxsl::is_ident(name),
    ensures
        ({
            let shader = codegen::generated(g, kinds, o)->Ok_0;
            macro_piece(name, shader.macros[name]) matches Some(own) ==> module_laws::occurs(
                shader.source,
                own,
            )
        }),
{
    let p = codegen_laws::lemma_source(g, kinds, o);
    let outs = outputs::outputs_of(g, kinds)->0;
    let cuts = codegen_laws::crossing(g, kinds);
    let m = codegen::interface_with(g, kinds, outs, cuts);
    let shader = codegen::generated(g, kinds, o)->Ok_0;
    let (p1, asked) = codegen::partitions_of(g, kinds, m, o.stage, outs, cuts)->Ok_0;
    let lighting = codegen::lighting_of(o);
    let imports = expr::with_imports(
        codegen::vocabulary(
            asked,
            o,
            p1.vertex is Some,
            p1.surface is Some,
            p1.varyings.len() > 0,
        ),
        lighting.imports,
        lighting.imports.len() as int,
    );
    codegen_laws::lemma_values_only(g, kinds, outs, cuts);
    module_laws::lemma_module(g.name, shader.macros, o, m, imports, lighting.source, p1);
    let modules = textmap::in_order(imports.dom());
    let names = textmap::in_order(shader.macros.dom());
    textmap::lemma_in_order(shader.macros.dom());
    let head = assemble::module_head(g.name, shader.macros);
    let imported = assemble::imports_text(head, imports, modules, modules.len() as int);
    assert(names.contains(name));
    let k = choose|k: int| 0 <= k < names.len() && names[k] == name;
    lemma_macro_lines(imported, shader.macros, names, k, names.len() as int);
    let before = assemble::macros_text(imported, shader.macros, names, names.len() as int);
    match macro_piece(name, shader.macros[name]) {
        Some(own) => {
            let front = choose|front: Seq<char>| text::begins(before, #[trigger] (front + own));
            text::lemma_begins_across(front + own, before, shader.source);
        },
        None => {},
    }
}

} // verus!
