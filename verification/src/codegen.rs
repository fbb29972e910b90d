//! A graph compiled to source, ready for a shader compiler.

use vstd::prelude::*;

use crate::abi;
use crate::abi::{MaterialStage, StageOutput};
use crate::assemble;
use crate::assemble::{finish, Partitions, PartitionsView};
use crate::copies::copy_opt;
use crate::error::{CodegenError, CodegenErrorView};
use crate::expr;
use crate::expr::{request_import, Context, ContextView, ImportItems, Imports};
use crate::graph::{Graph, GraphView, Kinds, ShaderStage};
use crate::graph_macros;
use crate::ids::NodeId;
use crate::interface;
use crate::lighting;
use crate::lighting::{
    pack_gbuffer, shade_surface_with, Dispatch, DispatchView, GeneratedLighting,
    GeneratedLightingView, MaterialLighting, MaterialLightingView,
};
use crate::macros;
use crate::macros::{MacroDefView, MacroSet, MacroValue};
use crate::node::NodeRegistry;
use crate::outputs;
use crate::outputs::{GraphOutputs, GraphOutputsView, Terminal};
use crate::partition;
use crate::partition::{
    emit_cut, emit_fragment_partition, emit_partition, Compiled, Partition, PartitionView,
};
use crate::resources;
use crate::resources::{
    GeometryInterfaceView, MaterialInterface, MaterialInterfaceView, VaryingBindingView,
};
use crate::stages;
use crate::stages::{analyze, Cut, CutView};
use crate::text;
use crate::text::decimal_text;
use crate::textmap::TextMap;
use crate::traversal;
use crate::validate;
use crate::wxsl;
use crate::wxsl::{hash_text, WxslIdent};

verus! {

/// The path that a generated module is mounted at.
pub const MATERIAL_MODULE: &'static str = "package::material";

/// What a module is generated with.
#[derive(Debug, PartialEq)]
pub struct CodegenOptions {
    /// The name of the material function.
    pub material_fn: String,
    /// The name of the vertex entry.
    pub vertex_entry: String,
    /// The stage that the module is for.
    pub stage: MaterialStage,
    /// Whether the module has entry points at all.
    pub emit_entry_points: bool,
    /// Macro values that the graph's own win over.
    pub base_macros: MacroSet,
    /// Macro values that win over the graph's own.
    pub override_macros: MacroSet,
    /// The model that shades the material, and the set it is of.
    pub lighting: MaterialLighting,
}

/// What [`CodegenOptions`] stand for.
#[verifier::ext_equal]
pub struct CodegenOptionsView {
    /// The name of the material function.
    pub material_fn: Seq<char>,
    /// The name of the vertex entry.
    pub vertex_entry: Seq<char>,
    /// The stage that the module is for.
    pub stage: MaterialStage,
    /// Whether the module has entry points at all.
    pub emit_entry_points: bool,
    /// Macro values that the graph's own win over.
    pub base_macros: Map<Seq<char>, MacroValue>,
    /// Macro values that win over the graph's own.
    pub override_macros: Map<Seq<char>, MacroValue>,
    /// The model that shades the material, and the set it is of.
    pub lighting: MaterialLightingView,
}

impl View for CodegenOptions {
    type V = CodegenOptionsView;

    open spec fn view(&self) -> CodegenOptionsView {
        CodegenOptionsView {
            material_fn: self.material_fn@,
            vertex_entry: self.vertex_entry@,
            stage: self.stage,
            emit_entry_points: self.emit_entry_points,
            base_macros: self.base_macros@,
            override_macros: self.override_macros@,
            lighting: self.lighting@,
        }
    }
}

impl Clone for CodegenOptions {
    fn clone(&self) -> (r: Self)
        ensures
            r@ == self@,
    {
        CodegenOptions {
            material_fn: self.material_fn.clone(),
            vertex_entry: self.vertex_entry.clone(),
            stage: self.stage,
            emit_entry_points: self.emit_entry_points,
            base_macros: self.base_macros.clone(),
            override_macros: self.override_macros.clone(),
            lighting: self.lighting.clone(),
        }
    }
}

/// The values of the macros that the ABI's own modules honour, by name.
pub open spec fn first_macros(s: Seq<MacroDefView>, n: int) -> Map<Seq<char>, MacroValue>
    decreases n,
{
    if n <= 0 {
        Map::empty()
    } else {
        first_macros(s, n - 1).insert(s[n - 1].name, s[n - 1].default)
    }
}

/// What a module is generated with where nothing is said.
pub open spec fn default_options() -> CodegenOptionsView {
    CodegenOptionsView {
        material_fn: abi::MATERIAL_FN@,
        vertex_entry: abi::VERTEX_ENTRY@,
        stage: MaterialStage::FORWARD_LIT,
        emit_entry_points: true,
        base_macros: first_macros(abi::abi_macro_list(), abi::abi_macro_list().len() as int),
        override_macros: Map::empty(),
        lighting: lighting::default_lighting(),
    }
}

impl Default for CodegenOptions {
    fn default() -> (r: Self)
        ensures
            r@ == default_options(),
            r@.lighting.enabled(),
    {
        let decls = abi::abi_macros();
        let ghost s = text::seq_of(decls@);
        let mut base_macros = MacroSet::new();
        let mut i: usize = 0;
        while i < decls.len()
            invariant
                i <= s.len() == decls@.len(),
                s == text::seq_of(decls@),
                base_macros@ == first_macros(s, i as int),
            decreases s.len() - i,
        {
            assert(s[i as int] == decls@[i as int]@);
            base_macros.set(decls[i].name.as_str(), decls[i].default);
            i += 1;
        }
        CodegenOptions {
            material_fn: abi::MATERIAL_FN.to_owned(),
            vertex_entry: abi::VERTEX_ENTRY.to_owned(),
            stage: MaterialStage::default(),
            emit_entry_points: true,
            base_macros,
            override_macros: MacroSet::new(),
            lighting: MaterialLighting::default(),
        }
    }
}

/// Source generated from a graph, and what is needed to compile it.
#[derive(Debug, PartialEq)]
pub struct GeneratedShader {
    /// The source of the module.
    pub source: String,
    /// The macro values it was generated with.
    pub macros: MacroSet,
    /// The name of the material function.
    pub material_fn: String,
    /// The name of the fragment entry, where the module has one.
    pub fragment_entry: Option<String>,
    /// What has to be bound before the module can run.
    pub interface: MaterialInterface,
    /// The hash of the source.
    pub source_hash: u64,
}

/// What a [`GeneratedShader`] stands for.
#[verifier::ext_equal]
pub struct GeneratedShaderView {
    /// The source of the module.
    pub source: Seq<char>,
    /// The macro values it was generated with.
    pub macros: Map<Seq<char>, MacroValue>,
    /// The name of the material function.
    pub material_fn: Seq<char>,
    /// The name of the fragment entry, where the module has one.
    pub fragment_entry: Option<Seq<char>>,
    /// What has to be bound before the module can run.
    pub interface: MaterialInterfaceView,
    /// The hash of the source.
    pub source_hash: u64,
}

impl View for GeneratedShader {
    type V = GeneratedShaderView;

    open spec fn view(&self) -> GeneratedShaderView {
        GeneratedShaderView {
            source: self.source@,
            macros: self.macros@,
            material_fn: self.material_fn@,
            fragment_entry: text::opt_of(self.fragment_entry),
            interface: self.interface@,
            source_hash: self.source_hash,
        }
    }
}

impl Clone for GeneratedShader {
    fn clone(&self) -> (r: Self)
        ensures
            r@ == self@,
    {
        GeneratedShader {
            source: self.source.clone(),
            macros: self.macros.clone(),
            material_fn: self.material_fn.clone(),
            fragment_entry: copy_opt(&self.fragment_entry),
            interface: self.interface.clone(),
            source_hash: self.source_hash,
        }
    }
}

/// The text whose hash is the key of a variant: the hash of the source and
/// the values of the macros.
pub open spec fn variant_text(s: GeneratedShaderView) -> Seq<char> {
    text::decimal(s.source_hash as nat) + ";"@ + macros::macro_signature(s.macros)
}

impl GeneratedShader {
    /// A number that identifies this source compiled with these macro values.
    pub fn variant_key(&self) -> (r: u64)
        ensures
            r == wxsl::text_hash(variant_text(self@)),
    {
        let mut out = decimal_text(self.source_hash);
        out.append(";");
        out.append(self.macros.signature().as_str());
        hash_text(out.as_str())
    }
}

// ---------------------------------------------------------------------------
// Generation

/// The imports that every module of a stage starts from.
pub open spec fn vocabulary(
    imports: Imports,
    o: CodegenOptionsView,
    displaces: bool,
    shades: bool,
    interpolates: bool,
) -> Imports {
    let surface = if shades {
        expr::with_import(
            expr::with_import(imports, abi::SURFACE_MODULE@, abi::SURFACE_STRUCT@),
            abi::SURFACE_MODULE@,
            abi::DEFAULT_SURFACE_FN@,
        )
    } else {
        imports
    };
    let context = expr::with_import(surface, abi::SURFACE_MODULE@, abi::CONTEXT_STRUCT@);
    let vertex = if displaces || interpolates {
        expr::with_import(context, abi::VERTEX_MODULE@, abi::VERTEX_CONTEXT_STRUCT@)
    } else {
        context
    };
    if o.emit_entry_points {
        let io = expr::with_import(
            expr::with_import(vertex, abi::VERTEX_MODULE@, abi::VERTEX_IN_STRUCT@),
            abi::VERTEX_MODULE@,
            abi::VERTEX_OUT_STRUCT@,
        );
        let transform = if displaces {
            expr::with_import(
                expr::with_import(io, abi::VERTEX_MODULE@, abi::VERTEX_CONTEXT_FN@),
                abi::VERTEX_MODULE@,
                abi::TRANSFORM_VERTEX_OFFSET_FN@,
            )
        } else {
            expr::with_import(io, abi::VERTEX_MODULE@, abi::TRANSFORM_VERTEX_FN@)
        };
        let read = if interpolates {
            expr::with_import(transform, abi::VERTEX_MODULE@, abi::VERTEX_CONTEXT_FN@)
        } else {
            transform
        };
        expr::with_import(read, abi::VERTEX_MODULE@, abi::SURFACE_CONTEXT_FN@)
    } else {
        vertex
    }
}

/// What the lighting adds to a module: the shading function, or the G-buffer
/// and the function that fills it.
pub open spec fn lighting_of(o: CodegenOptionsView) -> GeneratedLightingView {
    if o.emit_entry_points {
        match o.stage.output() {
            StageOutput::Color => lighting::shading_for(DispatchView::Direct(o.lighting.own()), false),
            StageOutput::GBuffer => lighting::packing_for(o.lighting.own(), o.lighting.set),
            StageOutput::Nothing => GeneratedLightingView {
                source: ""@,
                imports: Seq::empty(),
            },
        }
    } else {
        GeneratedLightingView { source: ""@, imports: Seq::empty() }
    }
}

/// Whether the lighting can be written, where the module has any: the
/// material's model is then one of those enabled.
pub open spec fn lighting_usable(o: CodegenOptionsView) -> bool {
    o.emit_entry_points && o.stage.needs_surface() ==> o.lighting.enabled()
}

/// The nodes that the first `n` values that cross depend on, and these.
pub open spec fn with_crossing_nodes(
    g: GraphView,
    nodes: Set<NodeId>,
    cuts: Seq<CutView>,
    n: int,
) -> Set<NodeId>
    decreases n,
{
    if n <= 0 {
        nodes
    } else {
        with_crossing_nodes(g, nodes, cuts, n - 1).union(
            traversal::dependencies(g.edges, Set::empty(), cuts[n - 1].socket.node),
        )
    }
}

/// The nodes that are compiled: those that an end depends on, and those that
/// what crosses depends on.
pub open spec fn compiled_nodes(g: GraphView, o: GraphOutputsView, cuts: Seq<CutView>) -> Set<
    NodeId,
> {
    with_crossing_nodes(g, outputs::reachable(g, o), cuts, cuts.len() as int)
}

proof fn lemma_crossing_nodes_needed(
    g: GraphView,
    o: GraphOutputsView,
    cuts: Seq<CutView>,
    n: int,
)
    requires
        0 <= n <= cuts.len(),
        forall|i: int|
            0 <= i < cuts.len() ==> outputs::reachable(g, o).contains(
                (#[trigger] cuts[i]).socket.node,
            ),
    ensures
        with_crossing_nodes(g, outputs::reachable(g, o), cuts, n) == outputs::reachable(g, o),
    decreases n,
{
    if n > 0 {
        lemma_crossing_nodes_needed(g, o, cuts, n - 1);
        let node = cuts[n - 1].socket.node;
        let behind = traversal::dependencies(g.edges, Set::empty(), node);
        let needed = outputs::reachable(g, o);
        let end = choose|end: NodeId|
            outputs::is_end(o, end) && traversal::reaches(g.edges, node, end);
        assert forall|id: NodeId| behind.contains(id) implies needed.contains(id) by {
            assert(traversal::reaches(g.edges, id, node));
            traversal::reaching_is_transitive(g.edges, id, node, end);
        }
        assert(needed.union(behind) =~= needed);
    }
}

/// What crosses depends on nothing that an end does not depend on: exactly what
/// an end depends on is compiled.
pub proof fn crossing_needs_nothing_more(g: GraphView, kinds: Kinds, o: GraphOutputsView)
    requires
        stages::plan_of(g, kinds, o) is Ok,
    ensures
        compiled_nodes(g, o, stages::plan_of(g, kinds, o)->Ok_0.cuts) == outputs::reachable(g, o),
{
    let cuts = stages::plan_of(g, kinds, o)->Ok_0.cuts;
    assert forall|i: int| 0 <= i < cuts.len() implies outputs::reachable(g, o).contains(
        (#[trigger] cuts[i]).socket.node,
    ) by {
        stages::what_crosses_can_cross(g, kinds, o, i);
        stages::only_what_is_needed_is_placed(g, kinds, o, cuts[i].socket.node);
    }
    lemma_crossing_nodes_needed(g, o, cuts, cuts.len() as int);
}

/// What is asked of the geometry, with the first `n` values that cross at the
/// next locations.
pub open spec fn widened(geometry: GeometryInterfaceView, cuts: Seq<CutView>, n: int) -> GeometryInterfaceView
    decreases n,
{
    if n <= 0 {
        geometry
    } else {
        let before = widened(geometry, cuts, n - 1);
        GeometryInterfaceView {
            computed: before.computed.push(
                VaryingBindingView {
                    name: cuts[n - 1].name,
                    ty: cuts[n - 1].ty,
                    varying: resources::varyings_spent(before) as u32,
                },
            ),
            ..before
        }
    }
}

/// What a module asks to be bound: what the nodes that an end depends on ask
/// for, and the values that cross.
pub open spec fn interface_with(
    g: GraphView,
    kinds: Kinds,
    outs: GraphOutputsView,
    cuts: Seq<CutView>,
) -> MaterialInterfaceView {
    let asked = interface::interface_asked(
        g,
        kinds,
        compiled_nodes(g, outs, cuts),
    );
    MaterialInterfaceView {
        geometry: widened(asked.geometry, cuts, cuts.len() as int),
        ..asked
    }
}

/// Some partitions by name, and what is imported by then.
pub type Interpolants = Result<(Seq<(Seq<char>, PartitionView)>, Imports), CodegenErrorView>;

/// The first `n` interpolants that the graph ends in.
pub open spec fn written_varyings(
    c: ContextView,
    imports: Imports,
    varyings: Seq<(Seq<char>, NodeId)>,
    n: int,
) -> Interpolants
    decreases n,
{
    if n <= 0 {
        Ok((Seq::empty(), imports))
    } else {
        match written_varyings(c, imports, varyings, n - 1) {
            Err(e) => Err(e),
            Ok((before, by_now)) => match partition::compiled_end(c, by_now, varyings[n - 1].1) {
                Err(e) => Err(e),
                Ok((part, after)) => Ok((before.push((varyings[n - 1].0, part)), after)),
            },
        }
    }
}

/// These interpolants and the first `n` values that cross.
pub open spec fn crossing_varyings(
    c: ContextView,
    start: (Seq<(Seq<char>, PartitionView)>, Imports),
    cuts: Seq<CutView>,
    n: int,
) -> Interpolants
    decreases n,
{
    if n <= 0 {
        Ok(start)
    } else {
        match crossing_varyings(c, start, cuts, n - 1) {
            Err(e) => Err(e),
            Ok((before, by_now)) => match partition::compiled_cut(c, by_now, cuts[n - 1].socket) {
                Err(e) => Err(e),
                Ok((part, after)) => Ok((before.push((cuts[n - 1].name, part)), after)),
            },
        }
    }
}

/// Whether a module has a fragment entry: where its stage writes a surface, or
/// the graph drops fragments.
pub open spec fn has_fragment(stage: MaterialStage, outs: GraphOutputsView) -> bool {
    stage.needs_surface() || outs.discard is Some
}

/// Every interpolant that a module computes. One that nothing would read is
/// not computed.
pub open spec fn all_varyings(
    c: ContextView,
    imports: Imports,
    computes: bool,
    outs: GraphOutputsView,
    cuts: Seq<CutView>,
) -> Interpolants {
    if computes {
        match written_varyings(c, imports, outs.varyings, outs.varyings.len() as int) {
            Err(e) => Err(e),
            Ok(start) => crossing_varyings(c, start, cuts, cuts.len() as int),
        }
    } else {
        Ok((Seq::empty(), imports))
    }
}

/// One partition that a module may have, and what is imported by then.
pub type Optional = Result<(Option<PartitionView>, Imports), CodegenErrorView>;

/// A partition that is there.
pub open spec fn present(compiled: Compiled) -> Optional {
    match compiled {
        Ok((part, imports)) => Ok((Some(part), imports)),
        Err(e) => Err(e),
    }
}

/// The partition that displaces a vertex.
pub open spec fn vertex_part(c: ContextView, imports: Imports, end: Option<NodeId>) -> Optional {
    match end {
        Some(id) => present(partition::compiled_end(c, imports, id)),
        None => Ok((None, imports)),
    }
}

/// A partition of the fragment stage.
pub open spec fn fragment_part(
    c: ContextView,
    imports: Imports,
    end: Option<NodeId>,
    cuts: Seq<CutView>,
) -> Optional {
    match end {
        Some(id) => present(partition::compiled_fragment(c, imports, id, cuts)),
        None => Ok((None, imports)),
    }
}

/// All partitions of a module, and what they import.
pub open spec fn partitions_of(
    g: GraphView,
    kinds: Kinds,
    interface: MaterialInterfaceView,
    stage: MaterialStage,
    outs: GraphOutputsView,
    cuts: Seq<CutView>,
) -> Result<(PartitionsView, Imports), CodegenErrorView> {
    let per_vertex = ContextView { g, kinds, interface, stage: ShaderStage::Vertex };
    let per_fragment = ContextView { g, kinds, interface, stage: ShaderStage::Fragment };
    match vertex_part(per_vertex, Map::empty(), outs.vertex) {
        Err(e) => Err(e),
        Ok((vertex, after_vertex)) => match fragment_part(
            per_fragment,
            after_vertex,
            outs.discard,
            cuts,
        ) {
            Err(e) => Err(e),
            Ok((discard, after_discard)) => match all_varyings(
                per_vertex,
                after_discard,
                has_fragment(stage, outs),
                outs,
                cuts,
            ) {
                Err(e) => Err(e),
                Ok((varyings, after_varyings)) => match fragment_part(
                    per_fragment,
                    after_varyings,
                    if stage.needs_surface() {
                        Some(outs.surface)
                    } else {
                        None
                    },
                    cuts,
                ) {
                    Err(e) => Err(e),
                    Ok((surface, imports)) => Ok(
                        (PartitionsView { varyings, vertex, surface, discard }, imports),
                    ),
                },
            },
        },
    }
}

/// The module that a graph with these ends and this plan compiles to.
pub open spec fn compiled_module(
    g: GraphView,
    kinds: Kinds,
    o: CodegenOptionsView,
    outs: GraphOutputsView,
    macros: Map<Seq<char>, MacroValue>,
    cuts: Seq<CutView>,
) -> Result<GeneratedShaderView, CodegenErrorView> {
    let interface = interface_with(g, kinds, outs, cuts);
    match partitions_of(g, kinds, interface, o.stage, outs, cuts) {
        Err(e) => Err(e),
        Ok((parts, asked)) => {
            let lighting = lighting_of(o);
            let imports = expr::with_imports(
                vocabulary(
                    asked,
                    o,
                    parts.vertex is Some,
                    parts.surface is Some,
                    parts.varyings.len() > 0,
                ),
                lighting.imports,
                lighting.imports.len() as int,
            );
            let source = assemble::module_text(
                g.name,
                macros,
                o,
                interface,
                imports,
                lighting.source,
                parts,
            );
            Ok(
                GeneratedShaderView {
                    source,
                    macros,
                    material_fn: o.material_fn,
                    fragment_entry: if has_fragment(o.stage, outs) {
                        Some(o.stage.fragment_entry()@)
                    } else {
                        None
                    },
                    interface,
                    source_hash: wxsl::text_hash(source),
                },
            )
        },
    }
}

/// The macro values a module is generated with: what the caller starts from,
/// the graph's own over that, and what the caller insists on over both.
pub open spec fn macros_in_effect(
    o: CodegenOptionsView,
    own: Map<Seq<char>, MacroValue>,
) -> Map<Seq<char>, MacroValue> {
    o.base_macros.union_prefer_right(own).union_prefer_right(o.override_macros)
}

/// What a graph compiles to, or what stops it. Only a valid graph with one
/// surface compiles.
pub open spec fn generated(g: GraphView, kinds: Kinds, o: CodegenOptionsView) -> Result<
    GeneratedShaderView,
    CodegenErrorView,
> {
    let found = outputs::terminals(g, kinds, Terminal::Surface);
    if validate::problems(g, kinds).len() > 0 {
        Err(CodegenErrorView::Invalid(validate::problems(g, kinds)))
    } else if found.len() == 0 {
        Err(CodegenErrorView::NoOutputNode)
    } else if found.len() > 1 {
        Err(CodegenErrorView::MultipleOutputNodes(found))
    } else {
        let outs = outputs::outputs_of(g, kinds)->0;
        match graph_macros::effective_of_macros(g, kinds) {
            Err(errors) => Err(CodegenErrorView::Invalid(errors)),
            Ok(own) => match stages::plan_of(g, kinds, outs) {
                Err(errors) => Err(CodegenErrorView::Invalid(errors)),
                Ok(plan) => compiled_module(
                    g,
                    kinds,
                    o,
                    outs,
                    macros_in_effect(o, own),
                    plan.cuts,
                ),
            },
        }
    }
}

/// Ask for the imports that every module of a stage starts from.
fn request_vocabulary(
    imports: &mut TextMap<ImportItems>,
    options: &CodegenOptions,
    displaces: bool,
    shades: bool,
    interpolates: bool,
)
    ensures
        final(imports)@ == vocabulary(
            old(imports)@,
            options@,
            displaces,
            shades,
            interpolates,
        ),
{
    if shades {
        request_import(imports, abi::SURFACE_MODULE, abi::SURFACE_STRUCT);
        request_import(imports, abi::SURFACE_MODULE, abi::DEFAULT_SURFACE_FN);
    }
    request_import(imports, abi::SURFACE_MODULE, abi::CONTEXT_STRUCT);
    if displaces || interpolates {
        request_import(imports, abi::VERTEX_MODULE, abi::VERTEX_CONTEXT_STRUCT);
    }
    if options.emit_entry_points {
        request_import(imports, abi::VERTEX_MODULE, abi::VERTEX_IN_STRUCT);
        request_import(imports, abi::VERTEX_MODULE, abi::VERTEX_OUT_STRUCT);
        if displaces {
            request_import(imports, abi::VERTEX_MODULE, abi::VERTEX_CONTEXT_FN);
            request_import(imports, abi::VERTEX_MODULE, abi::TRANSFORM_VERTEX_OFFSET_FN);
        } else {
            request_import(imports, abi::VERTEX_MODULE, abi::TRANSFORM_VERTEX_FN);
        }
        if interpolates {
            request_import(imports, abi::VERTEX_MODULE, abi::VERTEX_CONTEXT_FN);
        }
        request_import(imports, abi::VERTEX_MODULE, abi::SURFACE_CONTEXT_FN);
    }
}

/// What the lighting adds to a module.
fn generate_lighting(options: &CodegenOptions) -> (r: GeneratedLighting)
    requires
        lighting_usable(options@),
    ensures
        r@ == lighting_of(options@),
{
    if options.emit_entry_points {
        match options.stage.output() {
            StageOutput::Color => {
                return shade_surface_with(&Dispatch::Direct(*options.lighting.model()), false);
            },
            StageOutput::GBuffer => {
                return pack_gbuffer(options.lighting.model(), options.lighting.set());
            },
            StageOutput::Nothing => {},
        }
    }
    let r = GeneratedLighting { source: "".to_owned(), imports: Vec::new() };
    assert(r@ =~= lighting_of(options@));
    r
}

/// Ask for everything that a module imports, answering the lighting's source.
fn request_abi_imports(
    imports: &mut TextMap<ImportItems>,
    options: &CodegenOptions,
    displaces: bool,
    shades: bool,
    interpolates: bool,
) -> (r: String)
    requires
        lighting_usable(options@),
    ensures
        final(imports)@ == expr::with_imports(
            vocabulary(old(imports)@, options@, displaces, shades, interpolates),
            lighting_of(options@).imports,
            lighting_of(options@).imports.len() as int,
        ),
        r@ == lighting_of(options@).source,
{
    request_vocabulary(imports, options, displaces, shades, interpolates);
    let ghost start = imports@;
    let lighting = generate_lighting(options);
    let asked = &lighting.imports;
    let ghost s = text::seq_of(asked@);
    let mut i: usize = 0;
    while i < asked.len()
        invariant
            i <= s.len() == asked@.len(),
            s == text::seq_of(asked@),
            imports@ == expr::with_imports(start, s, i as int),
        decreases s.len() - i,
    {
        assert(s[i as int] == asked@[i as int]@);
        request_import(imports, asked[i].0, asked[i].1);
        i += 1;
    }
    lighting.source
}

/// What a module asks to be bound.
fn interface_for(
    graph: &Graph,
    registry: &NodeRegistry,
    outputs: &GraphOutputs,
    cuts: &Vec<Cut>,
) -> (r: MaterialInterface)
    requires
        graph@.interface_fits(registry@, compiled_nodes(graph@, outputs@, text::seq_of(cuts@))),
        cuts@.len() > 0 ==> resources::varyings_spent(interface::geometry_asked(graph@)) + cuts@.len()
            <= abi::MAX_VARYING_LOCATIONS,
    ensures
        r@ == interface_with(graph@, registry@, outputs@, text::seq_of(cuts@)),
{
    let ghost s = text::seq_of(cuts@);
    let ghost g = graph@;
    let mut nodes = graph.reachable_from(outputs);
    let ghost ends = nodes@;
    let mut i: usize = 0;
    while i < cuts.len()
        invariant
            i <= s.len() == cuts@.len(),
            s == text::seq_of(cuts@),
            g == graph@,
            nodes@ == with_crossing_nodes(g, ends, s, i as int),
        decreases s.len() - i,
    {
        assert(s[i as int] == cuts@[i as int]@);
        let needed = graph.dependencies_of(cuts[i].socket.node);
        nodes.extend(&needed);
        i += 1;
    }
    let mut interface = graph.interface_of(registry, &nodes);
    let ghost asked = interface@;
    let ghost spent = resources::varyings_spent(asked.geometry);
    let mut j: usize = 0;
    while j < cuts.len()
        invariant
            j <= s.len() == cuts@.len(),
            s == text::seq_of(cuts@),
            asked.geometry == interface::geometry_asked(g),
            spent == resources::varyings_spent(asked.geometry),
            s.len() > 0 ==> spent + s.len() <= abi::MAX_VARYING_LOCATIONS,
            resources::varyings_spent(interface@.geometry) == spent + j,
            interface@ == (MaterialInterfaceView {
                geometry: widened(asked.geometry, s, j as int),
                ..asked
            }),
        decreases s.len() - j,
    {
        assert(s[j as int] == cuts@[j as int]@);
        interface.geometry.add_computed(cuts[j].name.clone(), cuts[j].ty);
        j += 1;
    }
    interface
}

proof fn lemma_written_stop(
    c: ContextView,
    imports: Imports,
    varyings: Seq<(Seq<char>, NodeId)>,
    m: int,
    n: int,
)
    requires
        m <= n,
        written_varyings(c, imports, varyings, m) is Err,
    ensures
        written_varyings(c, imports, varyings, n) == written_varyings(c, imports, varyings, m),
    decreases n - m,
{
    if m < n {
        lemma_written_stop(c, imports, varyings, m, n - 1);
    }
}

proof fn lemma_crossing_stop(
    c: ContextView,
    start: (Seq<(Seq<char>, PartitionView)>, Imports),
    cuts: Seq<CutView>,
    m: int,
    n: int,
)
    requires
        m <= n,
        crossing_varyings(c, start, cuts, m) is Err,
    ensures
        crossing_varyings(c, start, cuts, n) == crossing_varyings(c, start, cuts, m),
    decreases n - m,
{
    if m < n {
        lemma_crossing_stop(c, start, cuts, m, n - 1);
    }
}

/// Compile the interpolants that the graph ends in.
fn emit_written(
    c: &Context,
    imports: &mut TextMap<ImportItems>,
    varyings: &Vec<(WxslIdent, NodeId)>,
) -> (r: Result<Vec<(WxslIdent, Partition)>, CodegenError>)
    ensures
        match (
            r,
            written_varyings(c@, old(imports)@, text::seq_of(varyings@), varyings@.len() as int),
        ) {
            (Ok(v), Ok((parts, after))) => text::seq_of(v@) == parts && final(imports)@ == after,
            (Err(e), Err(v)) => e@ == v,
            _ => false,
        },
{
    let ghost start = imports@;
    let ghost s = text::seq_of(varyings@);
    let mut parts: Vec<(WxslIdent, Partition)> = Vec::new();
    assert(text::seq_of(parts@) =~= Seq::<(Seq<char>, PartitionView)>::empty());
    let mut i: usize = 0;
    while i < varyings.len()
        invariant
            i <= s.len() == varyings@.len(),
            s == text::seq_of(varyings@),
            start == old(imports)@,
            written_varyings(c@, start, s, i as int) == Interpolants::Ok(
                (text::seq_of(parts@), imports@),
            ),
        decreases s.len() - i,
    {
        assert(s[i as int] == varyings@[i as int]@);
        let ghost before = text::seq_of(parts@);
        match emit_partition(c, imports, varyings[i].1) {
            Ok(part) => {
                parts.push((varyings[i].0.clone(), part));
                assert(text::seq_of(parts@) =~= before.push((s[i as int].0, part@)));
            },
            Err(e) => {
                proof {
                    lemma_written_stop(c@, start, s, i + 1, s.len() as int);
                }
                return Err(e);
            },
        }
        i += 1;
    }
    Ok(parts)
}

/// Compile the values that cross, after these.
fn emit_crossing(
    c: &Context,
    imports: &mut TextMap<ImportItems>,
    first: Vec<(WxslIdent, Partition)>,
    cuts: &Vec<Cut>,
) -> (r: Result<Vec<(WxslIdent, Partition)>, CodegenError>)
    ensures
        match (
            r,
            crossing_varyings(
                c@,
                (text::seq_of(first@), old(imports)@),
                text::seq_of(cuts@),
                cuts@.len() as int,
            ),
        ) {
            (Ok(v), Ok((parts, after))) => text::seq_of(v@) == parts && final(imports)@ == after,
            (Err(e), Err(v)) => e@ == v,
            _ => false,
        },
{
    let ghost start = (text::seq_of(first@), imports@);
    let ghost s = text::seq_of(cuts@);
    let mut parts = first;
    let mut i: usize = 0;
    while i < cuts.len()
        invariant
            i <= s.len() == cuts@.len(),
            s == text::seq_of(cuts@),
            start == (text::seq_of(first@), old(imports)@),
            crossing_varyings(c@, start, s, i as int) == Interpolants::Ok(
                (text::seq_of(parts@), imports@),
            ),
        decreases s.len() - i,
    {
        assert(s[i as int] == cuts@[i as int]@);
        let ghost before = text::seq_of(parts@);
        match emit_cut(c, imports, &cuts[i].socket) {
            Ok(part) => {
                parts.push((cuts[i].name.clone(), part));
                assert(text::seq_of(parts@) =~= before.push((s[i as int].name, part@)));
            },
            Err(e) => {
                proof {
                    lemma_crossing_stop(c@, start, s, i + 1, s.len() as int);
                }
                return Err(e);
            },
        }
        i += 1;
    }
    Ok(parts)
}

/// Compile every interpolant of a module.
fn emit_varyings(
    c: &Context,
    imports: &mut TextMap<ImportItems>,
    computes: bool,
    outputs: &GraphOutputs,
    cuts: &Vec<Cut>,
) -> (r: Result<Vec<(WxslIdent, Partition)>, CodegenError>)
    ensures
        match (r, all_varyings(c@, old(imports)@, computes, outputs@, text::seq_of(cuts@))) {
            (Ok(v), Ok((parts, after))) => text::seq_of(v@) == parts && final(imports)@ == after,
            (Err(e), Err(v)) => e@ == v,
            _ => false,
        },
{
    if !computes {
        let none: Vec<(WxslIdent, Partition)> = Vec::new();
        assert(text::seq_of(none@) =~= Seq::<(Seq<char>, PartitionView)>::empty());
        return Ok(none);
    }
    assert(text::seq_of(outputs.varyings@).len() == outputs.varyings@.len());
    assert(text::seq_of(cuts@).len() == cuts@.len());
    match emit_written(c, imports, &outputs.varyings) {
        Ok(first) => emit_crossing(c, imports, first, cuts),
        Err(e) => Err(e),
    }
}

/// Compile a partition of the fragment stage that may not be there.
fn emit_fragment(
    c: &Context,
    imports: &mut TextMap<ImportItems>,
    end: Option<NodeId>,
    cuts: &Vec<Cut>,
) -> (r: Result<Option<Partition>, CodegenError>)
    ensures
        match (r, fragment_part(c@, old(imports)@, end, text::seq_of(cuts@))) {
            (Ok(p), Ok((part, after))) => text::opt_of(p) == part && final(imports)@ == after,
            (Err(e), Err(v)) => e@ == v,
            _ => false,
        },
{
    match end {
        Some(id) => match emit_fragment_partition(c, imports, id, cuts) {
            Ok(part) => Ok(Some(part)),
            Err(e) => Err(e),
        },
        None => Ok(None),
    }
}

/// Compile all partitions of a module.
fn emit_partitions(
    graph: &Graph,
    registry: &NodeRegistry,
    interface: &MaterialInterface,
    stage: MaterialStage,
    outputs: &GraphOutputs,
    cuts: &Vec<Cut>,
) -> (r: Result<(Partitions, TextMap<ImportItems>), CodegenError>)
    ensures
        match (
            r,
            partitions_of(graph@, registry@, interface@, stage, outputs@, text::seq_of(cuts@)),
        ) {
            (Ok(p), Ok((parts, imports))) => p.0@ == parts && p.1@ == imports,
            (Err(e), Err(v)) => e@ == v,
            _ => false,
        },
{
    let per_vertex = Context { graph, registry, interface, stage: ShaderStage::Vertex };
    let per_fragment = Context { graph, registry, interface, stage: ShaderStage::Fragment };
    let mut imports: TextMap<ImportItems> = TextMap::new();
    let vertex = match outputs.vertex {
        Some(id) => match emit_partition(&per_vertex, &mut imports, id) {
            Ok(part) => Some(part),
            Err(e) => {
                return Err(e);
            },
        },
        None => None,
    };
    let discard = match emit_fragment(&per_fragment, &mut imports, outputs.discard, cuts) {
        Ok(part) => part,
        Err(e) => {
            return Err(e);
        },
    };
    let computes = stage.needs_surface() || outputs.discard.is_some();
    let varyings = match emit_varyings(&per_vertex, &mut imports, computes, outputs, cuts) {
        Ok(parts) => parts,
        Err(e) => {
            return Err(e);
        },
    };
    let end: Option<NodeId> = if stage.needs_surface() {
        Some(outputs.surface)
    } else {
        None
    };
    let surface = match emit_fragment(&per_fragment, &mut imports, end, cuts) {
        Ok(part) => part,
        Err(e) => {
            return Err(e);
        },
    };
    Ok((Partitions { varyings, vertex, surface, discard }, imports))
}

/// Compile a graph with these ends and this plan.
fn compile_module(
    graph: &Graph,
    registry: &NodeRegistry,
    options: &CodegenOptions,
    outputs: &GraphOutputs,
    macros: MacroSet,
    cuts: &Vec<Cut>,
) -> (r: Result<GeneratedShader, CodegenError>)
    requires
        graph@.interface_fits(registry@, compiled_nodes(graph@, outputs@, text::seq_of(cuts@))),
        lighting_usable(options@),
        cuts@.len() > 0 ==> resources::varyings_spent(interface::geometry_asked(graph@)) + cuts@.len()
            <= abi::MAX_VARYING_LOCATIONS,
    ensures
        match (
            r,
            compiled_module(graph@, registry@, options@, outputs@, macros@, text::seq_of(cuts@)),
        ) {
            (Ok(a), Ok(b)) => a@ == b,
            (Err(e), Err(v)) => e@ == v,
            _ => false,
        },
{
    let interface = interface_for(graph, registry, outputs, cuts);
    let (parts, mut imports) = match emit_partitions(
        graph,
        registry,
        &interface,
        options.stage,
        outputs,
        cuts,
    ) {
        Ok(p) => p,
        Err(e) => {
            return Err(e);
        },
    };
    assert(text::seq_of(parts.varyings@).len() == parts.varyings@.len());
    let lighting = request_abi_imports(
        &mut imports,
        options,
        parts.vertex.is_some(),
        parts.surface.is_some(),
        parts.varyings.len() > 0,
    );
    let source = finish(
        graph.name(),
        &macros,
        options,
        &interface,
        &imports,
        lighting.as_str(),
        &parts,
    );
    let fragment_entry = if options.stage.needs_surface() || outputs.discard.is_some() {
        Some(options.stage.fragment_entry().to_owned())
    } else {
        None
    };
    let source_hash = hash_text(source.as_str());
    Ok(
        GeneratedShader {
            source,
            macros,
            material_fn: options.material_fn.clone(),
            fragment_entry,
            interface,
            source_hash,
        },
    )
}

/// Compile a graph to source. It is checked first: source from a graph that
/// does not hold together would only move the error into a shader compiler.
pub fn generate(graph: &Graph, registry: &NodeRegistry, options: &CodegenOptions) -> (r: Result<
    GeneratedShader,
    CodegenError,
>)
    requires
        graph@.within_limits(registry@),
        lighting_usable(options@),
    ensures
        match (r, generated(graph@, registry@, options@)) {
            (Ok(a), Ok(b)) => a@ == b,
            (Err(e), Err(v)) => e@ == v,
            _ => false,
        },
{
    match graph.validate(registry) {
        Ok(_) => {},
        Err(e) => {
            return Err(CodegenError::Invalid(e));
        },
    }
    let found = graph.surface_outputs(registry);
    if found.len() == 0 {
        return Err(CodegenError::NoOutputNode);
    }
    if found.len() > 1 {
        return Err(CodegenError::MultipleOutputNodes(found));
    }
    let outputs = match graph.outputs(registry) {
        Some(o) => o,
        None => {
            return Err(CodegenError::NoOutputNode);
        },
    };
    let own = match graph.effective_macros(registry) {
        Ok(m) => m,
        Err(e) => {
            return Err(CodegenError::Invalid(e));
        },
    };
    let mut macros = options.base_macros.clone();
    macros.overlay(&own);
    macros.overlay(&options.override_macros);
    let plan = match analyze(graph, registry, &outputs) {
        Ok(p) => p,
        Err(e) => {
            return Err(CodegenError::Invalid(e));
        },
    };
    proof {
        assert(plan@.cuts.len() == plan.cuts@.len());
        if plan.cuts@.len() > 0 {
            stages::crossing_keeps_to_the_budget(graph@, registry@, outputs@);
        }
        crossing_needs_nothing_more(graph@, registry@, outputs@);
    }
    compile_module(graph, registry, options, &outputs, macros, &plan.cuts)
}

} // verus!
