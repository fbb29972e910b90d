//! What holds of every module that a graph compiles to.

use vstd::prelude::*;

use crate::assemble;
use crate::assemble::PartitionsView;
use crate::codegen;
use crate::codegen::{CodegenOptionsView, GeneratedShaderView};
use crate::emit_laws;
use crate::error::CodegenErrorView;
use crate::expr;
use crate::expr::{ContextView, Imports};
use crate::graph;
use crate::graph::{AttributeFrequency, GraphView, Kinds, ShaderStage};
use crate::ids::NodeId;
use crate::interface;
use crate::interface_laws;
use crate::lists;
use crate::macros::MacroValue;
use crate::module_laws;
use crate::outputs;
use crate::outputs::{GraphOutputsView, Terminal};
use crate::partition;
use crate::partition::PartitionView;
use crate::resources;
use crate::resources::{Entry, GeometryInterfaceView, VaryingBindingView};
use crate::sorting;
use crate::stages;
use crate::stages::CutView;
use crate::text;
use crate::textmap;
use crate::topology;
use crate::traversal;
use crate::validate;
use crate::value::ValueType;
use crate::wxsl;

verus! {

/// Only a graph that no rule speaks against, and that ends in exactly one
/// surface, compiles; any other is refused with everything that speaks
/// against it, or with its surfaces.
pub proof fn only_valid_graphs_compile(g: GraphView, kinds: Kinds, o: CodegenOptionsView)
    ensures
        codegen::generated(g, kinds, o) is Ok ==> validate::problems(g, kinds).len() == 0 && outputs::terminals(
            g,
            kinds,
            Terminal::Surface,
        ).len() == 1,
        validate::problems(g, kinds).len() > 0 ==> codegen::generated(g, kinds, o) == Err::<GeneratedShaderView, CodegenErrorView>(
            CodegenErrorView::Invalid(validate::problems(g, kinds)),
        ),
{
}

/// A module's macro values: what the caller insists on comes before what the
/// graph says, and that before what the caller starts from; nothing else is
/// in effect.
pub proof fn overrides_beat_the_graph_beats_the_base(
    o: CodegenOptionsView,
    own: Map<Seq<char>, MacroValue>,
    name: Seq<char>,
)
    ensures
        codegen::macros_in_effect(o, own).contains_key(name) <==> o.override_macros.contains_key(name)
            || own.contains_key(name) || o.base_macros.contains_key(name),
        o.override_macros.contains_key(name) ==> codegen::macros_in_effect(o, own)[name]
            == o.override_macros[name],
        !o.override_macros.contains_key(name) && own.contains_key(name) ==> codegen::macros_in_effect(
            o,
            own,
        )[name] == own[name],
        !o.override_macros.contains_key(name) && !own.contains_key(name)
            && o.base_macros.contains_key(name) ==> codegen::macros_in_effect(o, own)[name]
            == o.base_macros[name],
{
}

/// A compiled module carries the macro values in effect, and has a fragment
/// entry exactly where its stage writes a surface or the graph drops
/// fragments.
pub proof fn modules_say_what_they_are(
    g: GraphView,
    kinds: Kinds,
    o: CodegenOptionsView,
    outs: GraphOutputsView,
    macros: Map<Seq<char>, MacroValue>,
    cuts: Seq<CutView>,
)
    requires
        codegen::compiled_module(g, kinds, o, outs, macros, cuts) is Ok,
    ensures
        ({
            let shader = codegen::compiled_module(g, kinds, o, outs, macros, cuts)->Ok_0;
            &&& shader.macros == macros
            &&& shader.material_fn == o.material_fn
            &&& shader.source_hash == wxsl::text_hash(shader.source)
            &&& shader.interface == codegen::interface_with(g, kinds, outs, cuts)
            &&& shader.fragment_entry is Some <==> o.stage.needs_surface() || outs.discard is Some
        }),
{
}

/// Values that cross between the stages take the locations after everything
/// declared: nothing that the graph declares moves for them.
pub proof fn crossing_values_move_nothing(
    geometry: GeometryInterfaceView,
    cuts: Seq<CutView>,
    n: int,
)
    requires
        0 <= n <= cuts.len(),
    ensures
        ({
            let w = codegen::widened(geometry, cuts, n);
            &&& w.vertex == geometry.vertex
            &&& w.instance == geometry.instance
            &&& w.instance_index_location == geometry.instance_index_location
            &&& w.computed.len() == geometry.computed.len() + n
            &&& forall|i: int|
                0 <= i < geometry.computed.len() ==> #[trigger] w.computed[i]
                    == geometry.computed[i]
            &&& resources::varyings_spent(w) == resources::varyings_spent(geometry) + n
        }),
    decreases n,
{
    if n > 0 {
        crossing_values_move_nothing(geometry, cuts, n - 1);
    }
}

/// The nodes compiled for an end are those it depends on, each once and after
/// all that feed it; what lies behind a stop is left to another stage.
pub proof fn only_what_an_end_needs_is_compiled(
    g: GraphView,
    stops: Set<NodeId>,
    end: NodeId,
    id: NodeId,
)
    requires
        topology::topological(g, Some(traversal::dependencies(g.edges, stops, end))) is Ok,
    ensures
        ({
            let order = topology::topological(g, Some(traversal::dependencies(g.edges, stops, end)))->Ok_0;
            &&& order.no_duplicates()
            &&& order.contains(id) <==> g.nodes.contains_key(id) && traversal::leads_to(
                g.edges,
                stops,
                id,
                end,
            )
            &&& topology::fed_before(g, Some(traversal::dependencies(g.edges, stops, end)), order)
        }),
{
    let needed = Some(traversal::dependencies(g.edges, stops, end));
    topology::order_respects_edges(g, needed);
    assert(topology::topological(g, needed)->Ok_0.contains(id) <==> topology::in_play(g, needed, id));
}


// ---------------------------------------------------------------------------
// What the functions of a module compute

/// The values that cross between the stages of a graph.
pub open spec fn crossing(g: GraphView, kinds: Kinds) -> Seq<CutView> {
    stages::plan_of(g, kinds, outputs::outputs_of(g, kinds)->0)->Ok_0.cuts
}

/// What the source of a module's function is made from.
pub open spec fn within(
    g: GraphView,
    kinds: Kinds,
    shader: GeneratedShaderView,
    stage: ShaderStage,
) -> ContextView {
    ContextView { g, kinds, interface: shader.interface, stage }
}

/// Whether an expression is what a function gives back: what an input of its
/// end reads; something else only where the end has no such input or nothing
/// feeds it.
pub open spec fn yields(
    c: ContextView,
    cuts: Seq<CutView>,
    end: NodeId,
    socket: Seq<char>,
    otherwise: Seq<char>,
    e: Seq<char>,
) -> bool {
    ||| emit_laws::input_reads(c, cuts, end, socket, e)
    ||| e == otherwise && (!emit_laws::has_input(c.g.kind(c.kinds, end).inputs, socket)
        || emit_laws::unfed(c, end, socket))
}

proof fn lemma_yields(
    c: ContextView,
    cuts: Seq<CutView>,
    end: NodeId,
    part: PartitionView,
    socket: Seq<char>,
    otherwise: Seq<char>,
)
    requires
        emit_laws::reads_inputs(c, cuts, end, part.inputs),
    ensures
        yields(c, cuts, end, socket, otherwise, part.input(socket, otherwise)),
{
    let p = partition::input_called(socket);
    let inputs = c.g.kind(c.kinds, end).inputs;
    lists::lemma_first_where(part.inputs, p);
    match lists::first_where(part.inputs, p) {
        Some(x) => {
            let i = choose|i: int| 0 <= i < part.inputs.len() && part.inputs[i] == x;
            assert(p(x));
            assert(part.inputs[i].0 == socket);
        },
        None => {
            if emit_laws::has_input(inputs, socket) {
                let k = choose|k: int| 0 <= k < inputs.len() && (#[trigger] inputs[k]).name == socket;
                if emit_laws::lists_input(part.inputs, inputs[k].name) {
                    let i = choose|i: int|
                        0 <= i < part.inputs.len() && (#[trigger] part.inputs[i]).0 == socket;
                    assert(p(part.inputs[i]));
                }
            }
        },
    }
}

proof fn lemma_values_laid(entries: Seq<Entry>)
    ensures
        forall|i: int|
            0 <= i < resources::fields_of(entries).len() ==> !(#[trigger] resources::fields_of(
                entries,
            )[i]).ty.is_resource(),
    decreases entries.len(),
{
    if entries.len() > 0 {
        let t = entries.drop_last();
        lemma_values_laid(t);
        let before = resources::fields_of(t);
        let all = resources::fields_of(entries);
        assert forall|i: int| 0 <= i < all.len() implies !(#[trigger] all[i]).ty.is_resource() by {
            if i < before.len() {
                assert(all[i] == before[i]);
            }
        }
    }
}

proof fn lemma_laid_held(entries: Seq<Entry>, align: u32)
    ensures
        module_laws::held(resources::laid_out(entries, align)),
{
    lemma_values_laid(entries);
}

pub(crate) proof fn lemma_values_only(g: GraphView, kinds: Kinds, outs: GraphOutputsView, cuts: Seq<CutView>)
    ensures
        module_laws::values_only(codegen::interface_with(g, kinds, outs, cuts)),
{
    let set = codegen::compiled_nodes(g, outs, cuts);
    let a = interface::asked_by(g, kinds, set, g.ids(), g.ids().len() as int);
    lemma_laid_held(resources::uniform_order(a.params), 16);
    if g.user_block is Some {
        let decl = g.user_block->0;
        lemma_laid_held(
            resources::uniform_order(
                interface::usable_fields(decl.fields, decl.fields.len() as int),
            ),
            16,
        );
    }
    let n = g.attributes.len() as int;
    let i = graph::attributes_of(g.attributes, AttributeFrequency::Instance, n);
    lemma_laid_held(resources::storage_order(Seq::empty(), i), 0);
    crossing_values_move_nothing(interface::geometry_asked(g), cuts, cuts.len() as int);
}

/// Whether these are the partitions of a module.
pub open spec fn parts_of(
    g: GraphView,
    kinds: Kinds,
    o: CodegenOptionsView,
    p: PartitionsView,
    imports: Imports,
) -> bool {
    let outs = outputs::outputs_of(g, kinds)->0;
    let cuts = crossing(g, kinds);
    let m = codegen::interface_with(g, kinds, outs, cuts);
    codegen::partitions_of(g, kinds, m, o.stage, outs, cuts) == Ok::<
        (PartitionsView, Imports),
        CodegenErrorView,
    >((p, imports))
}

/// A module that compiles is made of partitions, and its source holds what
/// they are written as.
pub(crate) proof fn lemma_source(g: GraphView, kinds: Kinds, o: CodegenOptionsView) -> (p: PartitionsView)
    requires
        codegen::generated(g, kinds, o) is Ok,
    ensures
        outputs::outputs_of(g, kinds) is Some,
        stages::plan_of(g, kinds, outputs::outputs_of(g, kinds)->0) is Ok,
        exists|imports: Imports| #[trigger] parts_of(g, kinds, o, p, imports),
        ({
            let outs = outputs::outputs_of(g, kinds)->0;
            let shader = codegen::generated(g, kinds, o)->Ok_0;
            let source = shader.source;
            let geometry = shader.interface.geometry;
            &&& shader.interface == codegen::interface_with(g, kinds, outs, crossing(g, kinds))
            &&& module_laws::occurs(source, module_laws::declared_piece(shader.interface))
            &&& codegen::lighting_of(o).source.len() > 0 ==> module_laws::occurs(
                source,
                codegen::lighting_of(o).source,
            )
            &&& o.emit_entry_points ==> exists|before: Seq<char>|
                source == #[trigger] (before + module_laws::entries_piece(o, geometry, p))
            &&& p.vertex is Some ==> module_laws::occurs(
                source,
                module_laws::vertex_piece(
                    geometry,
                    p.vertex->0.body,
                    p.vertex->0.input("position_offset"@, "vec3f(0.0, 0.0, 0.0)"@),
                ),
            )
            &&& p.discard is Some ==> module_laws::occurs(
                source,
                module_laws::discard_piece(
                    geometry,
                    p.discard->0.body,
                    p.discard->0.input("discard"@, "false"@),
                ),
            )
            &&& p.surface is Some ==> module_laws::occurs(
                source,
                module_laws::surface_piece(
                    o.material_fn,
                    geometry,
                    p.surface->0.body,
                    p.surface->0.inputs,
                ),
            )
            &&& forall|i: int|
                0 <= i < p.varyings.len() && lists::first_where(
                    geometry.computed,
                    resources::varying_named((#[trigger] p.varyings[i]).0),
                ) is Some ==> {
                    let ty = lists::first_where(
                        geometry.computed,
                        resources::varying_named(p.varyings[i].0),
                    )->0.ty;
                    module_laws::occurs(
                        source,
                        module_laws::varying_piece(
                            geometry,
                            p.varyings[i].0,
                            ty,
                            p.varyings[i].1.body,
                            p.varyings[i].1.input("value"@, assemble::zero_literal(ty)),
                        ),
                    )
                }
        }),
{
    let outs = outputs::outputs_of(g, kinds)->0;
    let cuts = crossing(g, kinds);
    let m = codegen::interface_with(g, kinds, outs, cuts);
    let (p1, asked) = codegen::partitions_of(g, kinds, m, o.stage, outs, cuts)->Ok_0;
    assert(parts_of(g, kinds, o, p1, asked));
    let lighting = codegen::lighting_of(o);
    let imports = expr::with_imports(
        codegen::vocabulary(
            asked,
            o,
            p1.vertex is Some,
            p1.surface is Some,
            p1.varyings.len() > 0,
        ),
        lighting.imports,
        lighting.imports.len() as int,
    );
    let macros = codegen::generated(g, kinds, o)->Ok_0.macros;
    lemma_values_only(g, kinds, outs, cuts);
    module_laws::lemma_module(g.name, macros, o, m, imports, lighting.source, p1);
    let declared = assemble::declarations(
        assemble::macros_text(
            assemble::imports_text(
                assemble::module_head(g.name, macros),
                imports,
                textmap::in_order(imports.dom()),
                textmap::in_order(imports.dom()).len() as int,
            ),
            macros,
            textmap::in_order(macros.dom()),
            textmap::in_order(macros.dom()).len() as int,
        ),
        m,
    );
    module_laws::lemma_functions_further(
        codegen::generated(g, kinds, o)->Ok_0.source,
        declared,
        o.material_fn,
        m.geometry,
        p1,
    );
    p1
}


proof fn lemma_written(
    c: ContextView,
    imports: Imports,
    varyings: Seq<(Seq<char>, NodeId)>,
    n: int,
)
    requires
        0 <= n <= varyings.len(),
        codegen::written_varyings(c, imports, varyings, n) is Ok,
    ensures
        ({
            let parts = codegen::written_varyings(c, imports, varyings, n)->Ok_0.0;
            &&& parts.len() == n
            &&& forall|i: int|
                0 <= i < n ==> (#[trigger] parts[i]).0 == varyings[i].0 && emit_laws::prepares(
                    c,
                    Seq::empty(),
                    varyings[i].1,
                    parts[i].1.body,
                ) && emit_laws::reads_inputs(c, Seq::empty(), varyings[i].1, parts[i].1.inputs)
        }),
    decreases n,
{
    if n > 0 {
        lemma_written(c, imports, varyings, n - 1);
        let (before, by_now) = codegen::written_varyings(c, imports, varyings, n - 1)->Ok_0;
        let parts = codegen::written_varyings(c, imports, varyings, n)->Ok_0.0;
        emit_laws::vertex_functions_compute_their_end(c, by_now, varyings[n - 1].1);
        assert forall|i: int| 0 <= i < n implies (#[trigger] parts[i]).0 == varyings[i].0
            && emit_laws::prepares(c, Seq::empty(), varyings[i].1, parts[i].1.body)
            && emit_laws::reads_inputs(c, Seq::empty(), varyings[i].1, parts[i].1.inputs) by {
            if i < n - 1 {
                assert(parts[i] == before[i]);
            }
        }
    }
}

/// Whether a partition computes a value that crosses.
pub open spec fn carries(c: ContextView, cut: CutView, part: PartitionView) -> bool {
    &&& exists|before: Seq<char>, own: Seq<char>|
        part.body == #[trigger] (before + own) && emit_laws::prepares(
            c,
            Seq::empty(),
            cut.socket.node,
            before,
        ) && emit_laws::writes(c, Seq::empty(), cut.socket.node, own)
    &&& part.inputs.len() == 1
    &&& part.inputs[0].0 == "value"@
    &&& emit_laws::reads_as(c, Seq::empty(), cut.socket, part.inputs[0].1)
}

proof fn lemma_carried(
    c: ContextView,
    start: (Seq<(Seq<char>, PartitionView)>, Imports),
    cuts: Seq<CutView>,
    n: int,
)
    requires
        0 <= n <= cuts.len(),
        codegen::crossing_varyings(c, start, cuts, n) is Ok,
    ensures
        ({
            let parts = codegen::crossing_varyings(c, start, cuts, n)->Ok_0.0;
            let k = start.0.len() as int;
            &&& parts.len() == k + n
            &&& forall|i: int| 0 <= i < k ==> #[trigger] parts[i] == start.0[i]
            &&& forall|i: int|
                k <= i < k + n ==> (#[trigger] parts[i]).0 == cuts[i - k].name && carries(
                    c,
                    cuts[i - k],
                    parts[i].1,
                )
        }),
    decreases n,
{
    if n > 0 {
        lemma_carried(c, start, cuts, n - 1);
        let (before, by_now) = codegen::crossing_varyings(c, start, cuts, n - 1)->Ok_0;
        let parts = codegen::crossing_varyings(c, start, cuts, n)->Ok_0.0;
        let k = start.0.len() as int;
        emit_laws::crossing_functions_compute_their_value(c, by_now, cuts[n - 1].socket);
        assert(carries(c, cuts[n - 1], parts[k + n - 1].1));
        assert forall|i: int| k <= i < k + n implies (#[trigger] parts[i]).0 == cuts[i - k].name
            && carries(c, cuts[i - k], parts[i].1) by {
            if i < k + n - 1 {
                assert(parts[i] == before[i]);
            }
        }
        assert forall|i: int| 0 <= i < k implies #[trigger] parts[i] == start.0[i] by {
            assert(parts[i] == before[i]);
        }
    }
}

/// Whether the interpolants of a module are those that the graph writes, then
/// those that cross, each computed by its own function.
spec fn interpolants_of(
    c: ContextView,
    outs: GraphOutputsView,
    cuts: Seq<CutView>,
    parts: Seq<(Seq<char>, PartitionView)>,
) -> bool {
    let k = outs.varyings.len() as int;
    &&& parts.len() == k + cuts.len()
    &&& forall|i: int|
        0 <= i < k ==> (#[trigger] parts[i]).0 == outs.varyings[i].0 && emit_laws::prepares(
            c,
            Seq::empty(),
            outs.varyings[i].1,
            parts[i].1.body,
        ) && emit_laws::reads_inputs(c, Seq::empty(), outs.varyings[i].1, parts[i].1.inputs)
    &&& forall|i: int|
        k <= i < k + cuts.len() ==> (#[trigger] parts[i]).0 == cuts[i - k].name && carries(
            c,
            cuts[i - k],
            parts[i].1,
        )
}

proof fn lemma_interpolants(
    c: ContextView,
    imports: Imports,
    outs: GraphOutputsView,
    cuts: Seq<CutView>,
)
    requires
        codegen::all_varyings(c, imports, true, outs, cuts) is Ok,
    ensures
        interpolants_of(
            c,
            outs,
            cuts,
            codegen::all_varyings(c, imports, true, outs, cuts)->Ok_0.0,
        ),
{
    let k = outs.varyings.len() as int;
    let start = codegen::written_varyings(c, imports, outs.varyings, k)->Ok_0;
    lemma_written(c, imports, outs.varyings, k);
    lemma_carried(c, start, cuts, cuts.len() as int);
}

/// What the partitions of a module are made from.
proof fn lemma_parts(
    g: GraphView,
    kinds: Kinds,
    o: CodegenOptionsView,
    p: PartitionsView,
    imports: Imports,
)
    requires
        parts_of(g, kinds, o, p, imports),
    ensures
        ({
            let outs = outputs::outputs_of(g, kinds)->0;
            let cuts = crossing(g, kinds);
            let m = codegen::interface_with(g, kinds, outs, cuts);
            let vertex = ContextView { g, kinds, interface: m, stage: ShaderStage::Vertex };
            let fragment = ContextView { g, kinds, interface: m, stage: ShaderStage::Fragment };
            &&& p.vertex is Some == outs.vertex is Some
            &&& p.discard is Some == outs.discard is Some
            &&& p.surface is Some == o.stage.needs_surface()
            &&& outs.vertex is Some ==> emit_laws::prepares(
                vertex,
                Seq::empty(),
                outs.vertex->0,
                p.vertex->0.body,
            ) && emit_laws::reads_inputs(vertex, Seq::empty(), outs.vertex->0, p.vertex->0.inputs)
            &&& outs.discard is Some ==> emit_laws::prepares(
                fragment,
                cuts,
                outs.discard->0,
                p.discard->0.body,
            ) && emit_laws::reads_inputs(fragment, cuts, outs.discard->0, p.discard->0.inputs)
            &&& o.stage.needs_surface() ==> emit_laws::prepares(
                fragment,
                cuts,
                outs.surface,
                p.surface->0.body,
            ) && emit_laws::reads_inputs(fragment, cuts, outs.surface, p.surface->0.inputs)
            &&& if o.stage.needs_surface() || outs.discard is Some {
                interpolants_of(vertex, outs, cuts, p.varyings)
            } else {
                p.varyings.len() == 0
            }
        }),
{
    let outs = outputs::outputs_of(g, kinds)->0;
    let cuts = crossing(g, kinds);
    let m = codegen::interface_with(g, kinds, outs, cuts);
    let vertex = ContextView { g, kinds, interface: m, stage: ShaderStage::Vertex };
    let fragment = ContextView { g, kinds, interface: m, stage: ShaderStage::Fragment };
    let none = Map::<Seq<char>, Seq<Seq<char>>>::empty();
    if outs.vertex is Some {
        emit_laws::vertex_functions_compute_their_end(vertex, none, outs.vertex->0);
    }
    let one = codegen::vertex_part(vertex, none, outs.vertex)->Ok_0.1;
    if outs.discard is Some {
        emit_laws::fragment_functions_compute_their_end(fragment, one, outs.discard->0, cuts);
    }
    let two = codegen::fragment_part(fragment, one, outs.discard, cuts)->Ok_0.1;
    let computes = codegen::has_fragment(o.stage, outs);
    if computes {
        lemma_interpolants(vertex, two, outs, cuts);
    }
    let three = codegen::all_varyings(vertex, two, computes, outs, cuts)->Ok_0.1;
    if o.stage.needs_surface() {
        emit_laws::fragment_functions_compute_their_end(fragment, three, outs.surface, cuts);
    }
}

/// The material function of a module computes what the surface depends on and
/// sets each field of the surface that something feeds to what feeds it.
pub proof fn modules_compute_their_surface(g: GraphView, kinds: Kinds, o: CodegenOptionsView)
    requires
        codegen::generated(g, kinds, o) is Ok,
        o.stage.needs_surface(),
    ensures
        ({
            let shader = codegen::generated(g, kinds, o)->Ok_0;
            let c = within(g, kinds, shader, ShaderStage::Fragment);
            let cuts = crossing(g, kinds);
            let end = outputs::outputs_of(g, kinds)->0.surface;
            exists|body: Seq<char>, read: Seq<(Seq<char>, Seq<char>)>| #[trigger]
                emit_laws::prepares(c, cuts, end, body) && #[trigger] emit_laws::reads_inputs(
                    c,
                    cuts,
                    end,
                    read,
                ) && module_laws::occurs(
                    shader.source,
                    module_laws::surface_piece(
                        o.material_fn,
                        shader.interface.geometry,
                        body,
                        read,
                    ),
                )
        }),
{
    let p = lemma_source(g, kinds, o);
    let imports = choose|imports: Imports| #[trigger] parts_of(g, kinds, o, p, imports);
    lemma_parts(g, kinds, o, p, imports);
    let shader = codegen::generated(g, kinds, o)->Ok_0;
    let c = within(g, kinds, shader, ShaderStage::Fragment);
    let end = outputs::outputs_of(g, kinds)->0.surface;
    assert(emit_laws::prepares(c, crossing(g, kinds), end, p.surface->0.body));
    assert(emit_laws::reads_inputs(c, crossing(g, kinds), end, p.surface->0.inputs));
}

/// Where a graph displaces vertices, the module's function for that computes
/// what the displacement depends on and returns what feeds it.
pub proof fn modules_compute_their_displacement(g: GraphView, kinds: Kinds, o: CodegenOptionsView)
    requires
        codegen::generated(g, kinds, o) is Ok,
        outputs::outputs_of(g, kinds)->0.vertex is Some,
    ensures
        ({
            let shader = codegen::generated(g, kinds, o)->Ok_0;
            let c = within(g, kinds, shader, ShaderStage::Vertex);
            let end = outputs::outputs_of(g, kinds)->0.vertex->0;
            exists|body: Seq<char>, e: Seq<char>| #[trigger]
                emit_laws::prepares(c, Seq::empty(), end, body) && #[trigger] yields(
                    c,
                    Seq::empty(),
                    end,
                    "position_offset"@,
                    "vec3f(0.0, 0.0, 0.0)"@,
                    e,
                ) && module_laws::occurs(
                    shader.source,
                    module_laws::vertex_piece(shader.interface.geometry, body, e),
                )
        }),
{
    let p = lemma_source(g, kinds, o);
    let imports = choose|imports: Imports| #[trigger] parts_of(g, kinds, o, p, imports);
    lemma_parts(g, kinds, o, p, imports);
    let shader = codegen::generated(g, kinds, o)->Ok_0;
    let c = within(g, kinds, shader, ShaderStage::Vertex);
    let end = outputs::outputs_of(g, kinds)->0.vertex->0;
    let part = p.vertex->0;
    lemma_yields(c, Seq::empty(), end, part, "position_offset"@, "vec3f(0.0, 0.0, 0.0)"@);
    assert(emit_laws::prepares(c, Seq::empty(), end, part.body));
}

/// Where a graph drops fragments, the module's function for that computes what
/// decides it and returns what feeds it.
pub proof fn modules_compute_what_they_drop(g: GraphView, kinds: Kinds, o: CodegenOptionsView)
    requires
        codegen::generated(g, kinds, o) is Ok,
        outputs::outputs_of(g, kinds)->0.discard is Some,
    ensures
        ({
            let shader = codegen::generated(g, kinds, o)->Ok_0;
            let c = within(g, kinds, shader, ShaderStage::Fragment);
            let cuts = crossing(g, kinds);
            let end = outputs::outputs_of(g, kinds)->0.discard->0;
            exists|body: Seq<char>, e: Seq<char>| #[trigger]
                emit_laws::prepares(c, cuts, end, body) && #[trigger] yields(
                    c,
                    cuts,
                    end,
                    "discard"@,
                    "false"@,
                    e,
                ) && module_laws::occurs(
                    shader.source,
                    module_laws::discard_piece(shader.interface.geometry, body, e),
                )
        }),
{
    let p = lemma_source(g, kinds, o);
    let imports = choose|imports: Imports| #[trigger] parts_of(g, kinds, o, p, imports);
    lemma_parts(g, kinds, o, p, imports);
    let shader = codegen::generated(g, kinds, o)->Ok_0;
    let c = within(g, kinds, shader, ShaderStage::Fragment);
    let cuts = crossing(g, kinds);
    let end = outputs::outputs_of(g, kinds)->0.discard->0;
    let part = p.discard->0;
    lemma_yields(c, cuts, end, part, "discard"@, "false"@);
    assert(emit_laws::prepares(c, cuts, end, part.body));
}


pub(crate) proof fn lemma_trimmed_ident(name: Seq<char>)
    requires
        wxsl::is_ident(name),
    ensures
        text::trimmed(name) == name,
{
    assert(wxsl::name_char(name[0]));
    assert(wxsl::name_char(name[name.len() - 1]));
    assert(!text::space_char(name[0]));
    assert(!text::space_char(name[name.len() - 1]));
}

proof fn lemma_writer_names(g: GraphView, kinds: Kinds, ids: Seq<NodeId>, n: int)
    requires
        n <= ids.len(),
    ensures
        outputs::first_writers(g, kinds, ids, n).dom().finite(),
        forall|name: Seq<char>| #[trigger]
            outputs::first_writers(g, kinds, ids, n).contains_key(name)
                ==> outputs::first_writers(g, kinds, ids, n)[name].0 == name
                && outputs::written_name(g, kinds, outputs::first_writers(g, kinds, ids, n)[name].1)
                == Some(name),
    decreases n,
{
    if n > 0 {
        lemma_writer_names(g, kinds, ids, n - 1);
    }
}

/// Whether a list of declarations has a name.
spec fn names_entry(s: Seq<Entry>, name: Seq<char>) -> bool {
    exists|i: int| 0 <= i < s.len() && (#[trigger] s[i]).0 == name
}

proof fn lemma_declared_computed(g: GraphView, k: int, n: int)
    requires
        0 <= k < n <= g.attributes.len(),
        g.attributes[k].frequency == AttributeFrequency::Computed,
        wxsl::is_ident(text::trimmed(g.attributes[k].name)),
    ensures
        names_entry(
            graph::attributes_of(g.attributes, AttributeFrequency::Computed, n),
            text::trimmed(g.attributes[k].name),
        ),
    decreases n,
{
    let s = graph::attributes_of(g.attributes, AttributeFrequency::Computed, n);
    let before = graph::attributes_of(g.attributes, AttributeFrequency::Computed, n - 1);
    if k == n - 1 {
        assert(s[s.len() - 1].0 == text::trimmed(g.attributes[k].name));
    } else {
        lemma_declared_computed(g, k, n - 1);
        let i = choose|i: int|
            0 <= i < before.len() && (#[trigger] before[i]).0 == text::trimmed(
                g.attributes[k].name,
            );
        assert(s[i] == before[i]);
    }
}

proof fn lemma_named_once(s: Seq<Entry>, name: Seq<char>)
    requires
        names_entry(s, name),
    ensures
        names_entry(resources::dedup_names(s), name),
    decreases s.len(),
{
    if s.len() > 1 {
        let t = s.drop_last();
        let before = resources::dedup_names(t);
        let all = resources::dedup_names(s);
        let i = choose|i: int| 0 <= i < s.len() && (#[trigger] s[i]).0 == name;
        if i < t.len() {
            assert(t[i].0 == name);
            lemma_named_once(t, name);
            let j = choose|j: int| 0 <= j < before.len() && (#[trigger] before[j]).0 == name;
            assert(all[j].0 == name);
        } else {
            assert(all.last().0 == name);
            assert(all[all.len() - 1].0 == name);
        }
    }
}

/// Every interpolant that a graph writes is one that its interface numbers.
proof fn lemma_written_numbered(g: GraphView, kinds: Kinds, i: int)
    requires
        outputs::outputs_of(g, kinds) is Some,
        0 <= i < outputs::outputs_of(g, kinds)->0.varyings.len(),
    ensures
        ({
            let name = outputs::outputs_of(g, kinds)->0.varyings[i].0;
            let computed = interface::geometry_asked(g).computed;
            exists|k: int| 0 <= k < computed.len() && (#[trigger] computed[k]).name == name
        }),
{
    let writers = outputs::terminals(g, kinds, Terminal::Varying);
    let m = outputs::first_writers(g, kinds, writers, writers.len() as int);
    lemma_writer_names(g, kinds, writers, writers.len() as int);
    textmap::lemma_in_order(m.dom());
    let keys = textmap::in_order(m.dom());
    let name = keys[i];
    assert(keys.contains(name));
    assert(m.contains_key(name));
    let id = m[name].1;
    assert(outputs::written_name(g, kinds, id) == Some(name));
    lemma_trimmed_ident(name);
    let p = graph::attribute_called(name);
    lists::lemma_first_where(g.attributes, p);
    let decl = g.attribute(name)->0;
    let k = choose|k: int| 0 <= k < g.attributes.len() && g.attributes[k] == decl;
    assert(p(decl));
    let n = g.attributes.len() as int;
    lemma_declared_computed(g, k, n);
    let entries = graph::attributes_of(g.attributes, AttributeFrequency::Computed, n);
    let less = resources::by_name();
    resources::lemma_by_name_is_strict();
    sorting::lemma_sorted(entries, less);
    let sorted = sorting::sorted(entries, less);
    let e = choose|e: int| 0 <= e < entries.len() && (#[trigger] entries[e]).0 == name;
    assert(entries.contains(entries[e]));
    assert(sorted.contains(entries[e]));
    let f = choose|f: int| 0 <= f < sorted.len() && sorted[f] == entries[e];
    assert(sorted[f].0 == name);
    lemma_named_once(sorted, name);
    let cs = resources::named_order(entries);
    let j = choose|j: int| 0 <= j < cs.len() && (#[trigger] cs[j]).0 == name;
    assert(interface::geometry_asked(g).computed[j].name == name);
}

proof fn lemma_numbered(computed: Seq<VaryingBindingView>, name: Seq<char>, k: int)
    requires
        0 <= k < computed.len(),
        computed[k].name == name,
    ensures
        lists::first_where(computed, resources::varying_named(name)) is Some,
        numbers(
            computed,
            name,
            lists::first_where(computed, resources::varying_named(name))->0.ty,
        ),
{
    let p = resources::varying_named(name);
    lists::lemma_first_where(computed, p);
    assert(p(computed[k]));
    let v = lists::first_where(computed, p)->0;
    let j = choose|j: int| 0 <= j < computed.len() && computed[j] == v;
    assert(p(v));
    assert(computed[j].name == name);
}

/// Whether an interpolant of a name and a type has a location.
pub open spec fn numbers(computed: Seq<VaryingBindingView>, name: Seq<char>, ty: ValueType) -> bool {
    exists|k: int|
        0 <= k < computed.len() && (#[trigger] computed[k]).name == name && computed[k].ty == ty
}

/// Every interpolant that a graph writes is carried: its function computes, in
/// the vertex stage, what the written value depends on and returns what feeds
/// it; a zero only where nothing does.
pub proof fn written_interpolants_are_carried(
    g: GraphView,
    kinds: Kinds,
    o: CodegenOptionsView,
    i: int,
)
    requires
        codegen::generated(g, kinds, o) is Ok,
        o.stage.needs_surface() || outputs::outputs_of(g, kinds)->0.discard is Some,
        0 <= i < outputs::outputs_of(g, kinds)->0.varyings.len(),
    ensures
        ({
            let shader = codegen::generated(g, kinds, o)->Ok_0;
            let c = within(g, kinds, shader, ShaderStage::Vertex);
            let (name, end) = outputs::outputs_of(g, kinds)->0.varyings[i];
            exists|ty: ValueType, body: Seq<char>, e: Seq<char>| #[trigger]
                numbers(shader.interface.geometry.computed, name, ty)
                    && #[trigger] emit_laws::prepares(c, Seq::empty(), end, body)
                    && #[trigger] yields(
                    c,
                    Seq::empty(),
                    end,
                    "value"@,
                    assemble::zero_literal(ty),
                    e,
                ) && module_laws::occurs(
                    shader.source,
                    module_laws::varying_piece(shader.interface.geometry, name, ty, body, e),
                )
        }),
{
    let p = lemma_source(g, kinds, o);
    let imports = choose|imports: Imports| #[trigger] parts_of(g, kinds, o, p, imports);
    lemma_parts(g, kinds, o, p, imports);
    let shader = codegen::generated(g, kinds, o)->Ok_0;
    let c = within(g, kinds, shader, ShaderStage::Vertex);
    let outs = outputs::outputs_of(g, kinds)->0;
    let (name, end) = outs.varyings[i];
    let part = p.varyings[i].1;
    let computed = shader.interface.geometry.computed;
    let asked = interface::geometry_asked(g);
    lemma_written_numbered(g, kinds, i);
    let cuts = crossing(g, kinds);
    crossing_values_move_nothing(asked, cuts, cuts.len() as int);
    let k = choose|k: int| 0 <= k < asked.computed.len() && (#[trigger] asked.computed[k]).name == name;
    assert(computed[k] == asked.computed[k]);
    lemma_numbered(computed, name, k);
    let ty = lists::first_where(computed, resources::varying_named(name))->0.ty;
    lemma_yields(c, Seq::empty(), end, part, "value"@, assemble::zero_literal(ty));
    assert(p.varyings[i].0 == name);
    assert(emit_laws::prepares(c, Seq::empty(), end, part.body));
}

proof fn lemma_widened(asked: GeometryInterfaceView, cuts: Seq<CutView>, j: int, n: int)
    requires
        0 <= j < n <= cuts.len(),
    ensures
        codegen::widened(asked, cuts, n).computed.len() == asked.computed.len() + n,
        codegen::widened(asked, cuts, n).computed[asked.computed.len() + j].name == cuts[j].name,
    decreases n,
{
    crossing_values_move_nothing(asked, cuts, n - 1);
    if j < n - 1 {
        lemma_widened(asked, cuts, j, n - 1);
    }
}

/// Every value that crosses between the stages is carried: its function
/// computes its node in the vertex stage, with everything that it depends on,
/// and returns that value. The fragment stage reads it under its own name.
pub proof fn crossing_values_are_carried(g: GraphView, kinds: Kinds, o: CodegenOptionsView, j: int)
    requires
        codegen::generated(g, kinds, o) is Ok,
        o.stage.needs_surface() || outputs::outputs_of(g, kinds)->0.discard is Some,
        0 <= j < crossing(g, kinds).len(),
    ensures
        ({
            let shader = codegen::generated(g, kinds, o)->Ok_0;
            let c = within(g, kinds, shader, ShaderStage::Vertex);
            let cut = crossing(g, kinds)[j];
            exists|ty: ValueType, before: Seq<char>, own: Seq<char>, e: Seq<char>| #[trigger]
                numbers(shader.interface.geometry.computed, cut.name, ty)
                    && #[trigger] emit_laws::prepares(c, Seq::empty(), cut.socket.node, before)
                    && #[trigger] emit_laws::writes(c, Seq::empty(), cut.socket.node, own)
                    && #[trigger] emit_laws::reads_as(c, Seq::empty(), cut.socket, e)
                    && module_laws::occurs(
                    shader.source,
                    module_laws::varying_piece(
                        shader.interface.geometry,
                        cut.name,
                        ty,
                        before + own,
                        e,
                    ),
                )
        }),
{
    let p = lemma_source(g, kinds, o);
    let imports = choose|imports: Imports| #[trigger] parts_of(g, kinds, o, p, imports);
    lemma_parts(g, kinds, o, p, imports);
    let shader = codegen::generated(g, kinds, o)->Ok_0;
    let c = within(g, kinds, shader, ShaderStage::Vertex);
    let outs = outputs::outputs_of(g, kinds)->0;
    let cuts = crossing(g, kinds);
    let cut = cuts[j];
    let i = outs.varyings.len() + j;
    let part = p.varyings[i].1;
    assert(p.varyings[i].0 == cut.name);
    assert(carries(c, cut, part));
    let computed = shader.interface.geometry.computed;
    let asked = interface::geometry_asked(g);
    lemma_widened(asked, cuts, j, cuts.len() as int);
    lemma_numbered(computed, cut.name, asked.computed.len() + j);
    let ty = lists::first_where(computed, resources::varying_named(cut.name))->0.ty;
    let q = partition::input_called("value"@);
    lists::lemma_first_where(part.inputs, q);
    assert(q(part.inputs[0]));
    let e = part.inputs[0].1;
    assert(part.input("value"@, assemble::zero_literal(ty)) == e);
    let (before, own) = choose|before: Seq<char>, own: Seq<char>|
        part.body == #[trigger] (before + own) && emit_laws::prepares(
            c,
            Seq::empty(),
            cut.socket.node,
            before,
        ) && emit_laws::writes(c, Seq::empty(), cut.socket.node, own);
    assert(emit_laws::reads_as(c, Seq::empty(), cut.socket, e));
}

/// Whether partitions have the shape that the ends of a graph ask for: a
/// function for each end, and one for each interpolant that the graph writes
/// or that crosses, where the module has a fragment entry.
pub open spec fn shaped(g: GraphView, kinds: Kinds, o: CodegenOptionsView, p: PartitionsView) -> bool {
    let outs = outputs::outputs_of(g, kinds)->0;
    let cuts = crossing(g, kinds);
    let k = outs.varyings.len() as int;
    &&& p.vertex is Some == outs.vertex is Some
    &&& p.discard is Some == outs.discard is Some
    &&& if o.stage.needs_surface() || outs.discard is Some {
        &&& p.varyings.len() == k + cuts.len()
        &&& forall|i: int| 0 <= i < k ==> (#[trigger] p.varyings[i]).0 == outs.varyings[i].0
        &&& forall|i: int|
            k <= i < p.varyings.len() ==> (#[trigger] p.varyings[i]).0 == cuts[i - k].name
    } else {
        p.varyings.len() == 0
    }
}

/// A module with entry points ends in them: the vertex entry hands on the
/// shading basis, the attributes, and each interpolant as its function
/// computes it; the fragment entry takes each under its name, from the
/// location it was written to, and drops, shades or packs.
pub proof fn modules_end_in_their_entry_points(g: GraphView, kinds: Kinds, o: CodegenOptionsView)
    requires
        codegen::generated(g, kinds, o) is Ok,
        o.emit_entry_points,
    ensures
        ({
            let shader = codegen::generated(g, kinds, o)->Ok_0;
            exists|p: PartitionsView, before: Seq<char>| #[trigger]
                shaped(g, kinds, o, p) && shader.source == #[trigger] (before
                    + module_laws::entries_piece(o, shader.interface.geometry, p))
        }),
{
    let p = lemma_source(g, kinds, o);
    let imports = choose|imports: Imports| #[trigger] parts_of(g, kinds, o, p, imports);
    lemma_parts(g, kinds, o, p, imports);
    assert(shaped(g, kinds, o, p));
}

/// A module declares everything that its interface asks to be bound, at the
/// group and binding that the interface gives it, and holds the lighting that
/// its stage needs.
pub proof fn modules_declare_what_is_bound(g: GraphView, kinds: Kinds, o: CodegenOptionsView)
    requires
        codegen::generated(g, kinds, o) is Ok,
    ensures
        ({
            let shader = codegen::generated(g, kinds, o)->Ok_0;
            &&& module_laws::occurs(
                shader.source,
                module_laws::declared_piece(shader.interface),
            )
            &&& codegen::lighting_of(o).source.len() > 0 ==> module_laws::occurs(
                shader.source,
                codegen::lighting_of(o).source,
            )
        }),
{
    let p = lemma_source(g, kinds, o);
}


/// Every variable that the interface of a module asks for is declared in its
/// source at exactly the group and the binding that are its own, every texture
/// and sampler with its name and its type; and no two variables share a place.
pub proof fn modules_bind_each_variable_at_its_own_place(
    g: GraphView,
    kinds: Kinds,
    o: CodegenOptionsView,
)
    requires
        codegen::generated(g, kinds, o) is Ok,
        codegen::generated(g, kinds, o)->Ok_0.interface.resources.len() < u32::MAX,
    ensures
        ({
            let shader = codegen::generated(g, kinds, o)->Ok_0;
            let m = shader.interface;
            &&& forall|i: int|
                0 <= i < m.resources.len() ==> module_laws::occurs(
                    shader.source,
                    module_laws::bound_piece(
                        1,
                        (#[trigger] m.resources[i]).binding as nat,
                        ") var "@,
                        m.resources[i].name,
                        m.resources[i].ty.wxsl_type()@,
                    ),
                )
            &&& forall|group: nat, binding: nat, name: Seq<char>| #[trigger]
                interface_laws::is_bound_at(m, group, binding, name) ==> exists|
                    kind: Seq<char>,
                    ty: Seq<char>,
                |
                    module_laws::occurs(
                        shader.source,
                        #[trigger] module_laws::bound_piece(group, binding, kind, name, ty),
                    )
            &&& forall|group: nat, binding: nat, a: Seq<char>, b: Seq<char>| #[trigger]
                interface_laws::is_bound_at(m, group, binding, a)
                    && #[trigger] interface_laws::is_bound_at(m, group, binding, b) ==> a == b
        }),
{
    let p = lemma_source(g, kinds, o);
    let shader = codegen::generated(g, kinds, o)->Ok_0;
    let m = shader.interface;
    let outs = outputs::outputs_of(g, kinds)->0;
    let set = codegen::compiled_nodes(g, outs, crossing(g, kinds));
    assert forall|i: int| 0 <= i < m.resources.len() implies module_laws::occurs(
        shader.source,
        module_laws::bound_piece(
            1,
            (#[trigger] m.resources[i]).binding as nat,
            ") var "@,
            m.resources[i].name,
            m.resources[i].ty.wxsl_type()@,
        ),
    ) by {
        interface_laws::declared_resources_stand_in_the_source(shader.source, m, i);
    }
    assert forall|group: nat, binding: nat, name: Seq<char>| #[trigger]
        interface_laws::is_bound_at(m, group, binding, name) implies exists|
        kind: Seq<char>,
        ty: Seq<char>,
    |
        module_laws::occurs(
            shader.source,
            #[trigger] module_laws::bound_piece(group, binding, kind, name, ty),
        ) by {
        interface_laws::variables_are_declared_where_they_are_bound(
            shader.source,
            m,
            group,
            binding,
            name,
        );
    }
    assert forall|group: nat, binding: nat, a: Seq<char>, b: Seq<char>| #[trigger]
        interface_laws::is_bound_at(m, group, binding, a)
            && #[trigger] interface_laws::is_bound_at(m, group, binding, b) implies a == b by {
        interface_laws::places_hold_one_variable(g, kinds, set, m, group, binding, a, b);
    }
}

} // verus!
