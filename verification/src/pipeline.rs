//! The vocabulary of a pipeline document: the kinds of node that a frame's
//! passes, sources and resources are.

use vstd::prelude::*;

use crate::node;
use crate::node::{
    NodeBodyView, NodeDefinition, NodeDefinitionView, NodeRegistry, SettingDef, SettingDefView,
    Socket, SocketView,
};
use crate::text;
use crate::value::ValueType;
use crate::wxsl;

verus! {

/// The setting that holds a tag expression.
pub const SETTING_TAGS: &'static str = "tags";

/// The setting that holds the stage a pass draws its materials with.
pub const SETTING_STAGE: &'static str = "stage";

/// The setting that holds the effect a screen pass runs.
pub const SETTING_EFFECT: &'static str = "effect";

/// The setting that holds the precision of a target.
pub const SETTING_PRECISION: &'static str = "precision";

/// The setting that holds the size of a target, as a fraction of the frame's.
pub const SETTING_SCALE: &'static str = "scale";

/// The setting that holds how many previous frames stay readable.
pub const SETTING_HISTORY: &'static str = "history";

/// The kind of node that is the frame's draw list.
pub const SOURCE_SCENE: &'static str = "source.scene";

/// The kind of node that is the frame's shadow maps.
pub const SOURCE_LIGHTS: &'static str = "source.lights";

/// The kind of node that is the G-buffer.
pub const RESOURCE_GBUFFER: &'static str = "resource.gbuffer";

/// The kind of node that is a colour target.
pub const RESOURCE_COLOR: &'static str = "resource.color";

/// The kind of node that is a depth target.
pub const RESOURCE_DEPTH: &'static str = "resource.depth";

/// The kind of node that draws materials.
pub const PASS_GEOMETRY: &'static str = "pass.geometry";

/// The kind of node that fills the shadow maps.
pub const PASS_SHADOW: &'static str = "pass.shadow";

/// The kind of node that runs an effect over the screen.
pub const PASS_SCREEN: &'static str = "pass.screen";

/// The kind of node that a document ends in.
pub const PRESENT: &'static str = "present";

/// Every kind of node of the vocabulary.
pub const NODE_IDS: [&'static str; 9] = [
    SOURCE_SCENE,
    SOURCE_LIGHTS,
    RESOURCE_GBUFFER,
    RESOURCE_COLOR,
    RESOURCE_DEPTH,
    PASS_GEOMETRY,
    PASS_SHADOW,
    PASS_SCREEN,
    PRESENT,
];

/// A socket that carries a handle.
pub open spec fn handle(name: Seq<char>, ty: ValueType, doc: Seq<char>) -> SocketView {
    SocketView { doc, ..node::plain_socket(name, ty) }
}

/// A socket that carries a handle and may stay unfed.
pub open spec fn spare_handle(name: Seq<char>, ty: ValueType, doc: Seq<char>) -> SocketView {
    SocketView { optional: true, ..handle(name, ty, doc) }
}

/// A setting of any text, with a default.
pub open spec fn setting_of(
    name: Seq<char>,
    label: Seq<char>,
    doc: Seq<char>,
    default: Seq<char>,
) -> SettingDefView {
    SettingDefView { name, label, doc, default }
}

/// A kind of node of a document.
pub open spec fn document_def(
    id: Seq<char>,
    label: Seq<char>,
    doc: Seq<char>,
    inputs: Seq<SocketView>,
    outputs: Seq<SocketView>,
    settings: Seq<SettingDefView>,
) -> NodeDefinitionView {
    NodeDefinitionView {
        doc,
        inputs,
        outputs,
        settings,
        body: NodeBodyView::Document,
        ..node::bare_definition(id, label)
    }
}

fn socket(name: &str, ty: ValueType, spare: bool, doc: &str) -> (r: Socket)
    requires
        wxsl::is_ident(name@),
    ensures
        r@ == (if spare {
            spare_handle(name@, ty, doc@)
        } else {
            handle(name@, ty, doc@)
        }),
{
    let plain = Socket::new(name, ty);
    if spare {
        plain.optional().with_doc(doc)
    } else {
        plain.with_doc(doc)
    }
}

/// A setting of any text: what it means is up to who reads the document.
fn text_setting(name: &str, label: &str, doc: &str, default: &str) -> (r: SettingDef)
    requires
        wxsl::is_ident(name@),
    ensures
        r@ == setting_of(name@, label@, doc@, default@),
{
    SettingDef::new(name, label, doc).with_default(default)
}

fn document(
    id: &str,
    label: &str,
    doc: &str,
    inputs: Vec<Socket>,
    outputs: Vec<Socket>,
    settings: Vec<SettingDef>,
) -> (r: NodeDefinition)
    ensures
        r@ == document_def(
            id@,
            label@,
            doc@,
            text::seq_of(inputs@),
            text::seq_of(outputs@),
            text::seq_of(settings@),
        ),
{
    let bare = NodeDefinition::builder(id, label).doc(doc).document();
    NodeDefinition { inputs, outputs, settings, ..bare }
}

/// The draw list of a frame.
pub open spec fn scene_source_view() -> NodeDefinitionView {
    document_def(
        SOURCE_SCENE@,
        "Scene"@,
        "The frame's draw list, filtered by a tag expression."@,
        Seq::empty(),
        seq![
            handle("draws"@, ValueType::DrawQueue, "Everything the scene offers, filtered by `tags`."@),
        ],
        seq![
            setting_of(SETTING_TAGS@, "Tags"@, "Which instances this queue carries, as a tag expression: `*`, `opaque && !outlined`."@, "*"@),
        ],
    )
}

fn scene_source() -> (r: NodeDefinition)
    ensures
        r@ == scene_source_view(),
{
    proof {
        reveal_strlit("draws");
        reveal_strlit("tags");
    }
    let inputs: Vec<Socket> = Vec::new();
    assert(text::seq_of(inputs@) =~= scene_source_view().inputs);
    let mut outputs: Vec<Socket> = Vec::new();
    outputs.push(socket("draws", ValueType::DrawQueue, false, "Everything the scene offers, filtered by `tags`."));
    assert(text::seq_of(outputs@) =~= scene_source_view().outputs);
    let mut settings: Vec<SettingDef> = Vec::new();
    settings.push(text_setting(SETTING_TAGS, "Tags", "Which instances this queue carries, as a tag expression: `*`, `opaque && !outlined`.", "*"));
    assert(text::seq_of(settings@) =~= scene_source_view().settings);
    document(
        SOURCE_SCENE,
        "Scene",
        "The frame's draw list, filtered by a tag expression.",
        inputs,
        outputs,
        settings,
    )
}

/// The shadow maps of a frame.
pub open spec fn lights_source_view() -> NodeDefinitionView {
    document_def(
        SOURCE_LIGHTS@,
        "shadow maps"@,
        "The frame's shadow-map array: one slice per light slot, at the ABI's fixed resolution. Its shape is the frame group's, not a setting — the lighting pass reads it by that shape."@,
        Seq::empty(),
        seq![
            handle("shadows"@, ValueType::ShadowMaps, "The array the shadow passes fill, one layer per light."@),
        ],
        Seq::empty(),
    )
}

fn lights_source() -> (r: NodeDefinition)
    ensures
        r@ == lights_source_view(),
{
    proof {
        reveal_strlit("shadows");
    }
    let inputs: Vec<Socket> = Vec::new();
    assert(text::seq_of(inputs@) =~= lights_source_view().inputs);
    let mut outputs: Vec<Socket> = Vec::new();
    outputs.push(socket("shadows", ValueType::ShadowMaps, false, "The array the shadow passes fill, one layer per light."));
    assert(text::seq_of(outputs@) =~= lights_source_view().outputs);
    let settings: Vec<SettingDef> = Vec::new();
    assert(text::seq_of(settings@) =~= lights_source_view().settings);
    document(
        SOURCE_LIGHTS,
        "shadow maps",
        "The frame's shadow-map array: one slice per light slot, at the ABI's fixed resolution. Its shape is the frame group's, not a setting — the lighting pass reads it by that shape.",
        inputs,
        outputs,
        settings,
    )
}

/// The G-buffer.
pub open spec fn gbuffer_resource_view() -> NodeDefinitionView {
    document_def(
        RESOURCE_GBUFFER@,
        "G-buffer"@,
        "The G-buffer the enabled lighting set requests: one target per request, plus the depth the lighting pass reconstructs position from. The set is a knob of the pipeline's configuration, not of the document — widening it rewires nothing."@,
        Seq::empty(),
        seq![
            handle("gbuffer"@, ValueType::GBuffer, "Every target, then depth — the order a screen pass reads them in."@),
        ],
        Seq::empty(),
    )
}

fn gbuffer_resource() -> (r: NodeDefinition)
    ensures
        r@ == gbuffer_resource_view(),
{
    proof {
        reveal_strlit("gbuffer");
    }
    let inputs: Vec<Socket> = Vec::new();
    assert(text::seq_of(inputs@) =~= gbuffer_resource_view().inputs);
    let mut outputs: Vec<Socket> = Vec::new();
    outputs.push(socket("gbuffer", ValueType::GBuffer, false, "Every target, then depth — the order a screen pass reads them in."));
    assert(text::seq_of(outputs@) =~= gbuffer_resource_view().outputs);
    let settings: Vec<SettingDef> = Vec::new();
    assert(text::seq_of(settings@) =~= gbuffer_resource_view().settings);
    document(
        RESOURCE_GBUFFER,
        "G-buffer",
        "The G-buffer the enabled lighting set requests: one target per request, plus the depth the lighting pass reconstructs position from. The set is a knob of the pipeline's configuration, not of the document — widening it rewires nothing.",
        inputs,
        outputs,
        settings,
    )
}

/// A colour target.
pub open spec fn color_resource_view() -> NodeDefinitionView {
    document_def(
        RESOURCE_COLOR@,
        "colour target"@,
        "A colour target an effect chain writes and reads."@,
        Seq::empty(),
        seq![
            handle("color"@, ValueType::ColorTarget, "The target, sized from `scale`."@),
        ],
        seq![
            setting_of(SETTING_PRECISION@, "Precision"@, "standard (8-bit), hdr (half float), scalar (one channel) or pair (two)."@, "standard"@),
            setting_of(SETTING_SCALE@, "Scale"@, "Fraction of the frame target's size: 1.0 full, 0.5 half."@, "1"@),
            setting_of(SETTING_HISTORY@, "History"@, "Previous frames kept readable: 0 transient, 1 ping-pong, n a ring of n+1."@, "0"@),
        ],
    )
}

fn color_resource() -> (r: NodeDefinition)
    ensures
        r@ == color_resource_view(),
{
    proof {
        reveal_strlit("color");
        reveal_strlit("history");
        reveal_strlit("precision");
        reveal_strlit("scale");
    }
    let inputs: Vec<Socket> = Vec::new();
    assert(text::seq_of(inputs@) =~= color_resource_view().inputs);
    let mut outputs: Vec<Socket> = Vec::new();
    outputs.push(socket("color", ValueType::ColorTarget, false, "The target, sized from `scale`."));
    assert(text::seq_of(outputs@) =~= color_resource_view().outputs);
    let mut settings: Vec<SettingDef> = Vec::new();
    settings.push(text_setting(SETTING_PRECISION, "Precision", "standard (8-bit), hdr (half float), scalar (one channel) or pair (two).", "standard"));
    settings.push(text_setting(SETTING_SCALE, "Scale", "Fraction of the frame target's size: 1.0 full, 0.5 half.", "1"));
    settings.push(text_setting(SETTING_HISTORY, "History", "Previous frames kept readable: 0 transient, 1 ping-pong, n a ring of n+1.", "0"));
    assert(text::seq_of(settings@) =~= color_resource_view().settings);
    document(
        RESOURCE_COLOR,
        "colour target",
        "A colour target an effect chain writes and reads.",
        inputs,
        outputs,
        settings,
    )
}

/// A depth target.
pub open spec fn depth_resource_view() -> NodeDefinitionView {
    document_def(
        RESOURCE_DEPTH@,
        "depth target"@,
        "A depth target. The first pass to draw into it clears it; a pass taking another pass's depth output tests against what is already there."@,
        Seq::empty(),
        seq![
            handle("depth"@, ValueType::DepthTarget, "The target, sized from `scale`."@),
        ],
        seq![
            setting_of(SETTING_SCALE@, "Scale"@, "Fraction of the frame target's size: 1.0 full, 0.5 half."@, "1"@),
        ],
    )
}

fn depth_resource() -> (r: NodeDefinition)
    ensures
        r@ == depth_resource_view(),
{
    proof {
        reveal_strlit("depth");
        reveal_strlit("scale");
    }
    let inputs: Vec<Socket> = Vec::new();
    assert(text::seq_of(inputs@) =~= depth_resource_view().inputs);
    let mut outputs: Vec<Socket> = Vec::new();
    outputs.push(socket("depth", ValueType::DepthTarget, false, "The target, sized from `scale`."));
    assert(text::seq_of(outputs@) =~= depth_resource_view().outputs);
    let mut settings: Vec<SettingDef> = Vec::new();
    settings.push(text_setting(SETTING_SCALE, "Scale", "Fraction of the frame target's size: 1.0 full, 0.5 half.", "1"));
    assert(text::seq_of(settings@) =~= depth_resource_view().settings);
    document(
        RESOURCE_DEPTH,
        "depth target",
        "A depth target. The first pass to draw into it clears it; a pass taking another pass's depth output tests against what is already there.",
        inputs,
        outputs,
        settings,
    )
}

/// A pass that draws materials.
pub open spec fn geometry_pass_view() -> NodeDefinitionView {
    document_def(
        PASS_GEOMETRY@,
        "material pass"@,
        "Draws a material stage over a draw list. Wired to a G-buffer it writes that set's targets; wired to depth it clears it if the depth comes straight from a `resource.depth` node and tests against it (without writing) if it comes from another pass's depth output. Its colour output feeds `present`, or another pass in a chain."@,
        seq![
            handle("draws"@, ValueType::DrawQueue, "What to draw."@),
            spare_handle("gbuffer"@, ValueType::GBuffer, "For a `gbuffer`-stage pass: the G-buffer to write."@),
            spare_handle("depth"@, ValueType::DepthTarget, "The depth to clear or test against."@),
        ],
        seq![
            handle("color"@, ValueType::ColorTarget, "What the pass wrote — unconnected for a stage that writes no colour."@),
            handle("depth"@, ValueType::DepthTarget, "The depth as this pass left it, for the next pass to test against."@),
        ],
        seq![
            setting_of(SETTING_STAGE@, "Stage"@, "forward_lit, gbuffer or depth_only — the material stage the pass draws."@, "forward_lit"@),
        ],
    )
}

fn geometry_pass() -> (r: NodeDefinition)
    ensures
        r@ == geometry_pass_view(),
{
    proof {
        reveal_strlit("color");
        reveal_strlit("depth");
        reveal_strlit("draws");
        reveal_strlit("gbuffer");
        reveal_strlit("stage");
    }
    let mut inputs: Vec<Socket> = Vec::new();
    inputs.push(socket("draws", ValueType::DrawQueue, false, "What to draw."));
    inputs.push(socket("gbuffer", ValueType::GBuffer, true, "For a `gbuffer`-stage pass: the G-buffer to write."));
    inputs.push(socket("depth", ValueType::DepthTarget, true, "The depth to clear or test against."));
    assert(text::seq_of(inputs@) =~= geometry_pass_view().inputs);
    let mut outputs: Vec<Socket> = Vec::new();
    outputs.push(socket("color", ValueType::ColorTarget, false, "What the pass wrote — unconnected for a stage that writes no colour."));
    outputs.push(socket("depth", ValueType::DepthTarget, false, "The depth as this pass left it, for the next pass to test against."));
    assert(text::seq_of(outputs@) =~= geometry_pass_view().outputs);
    let mut settings: Vec<SettingDef> = Vec::new();
    settings.push(text_setting(SETTING_STAGE, "Stage", "forward_lit, gbuffer or depth_only — the material stage the pass draws.", "forward_lit"));
    assert(text::seq_of(settings@) =~= geometry_pass_view().settings);
    document(
        PASS_GEOMETRY,
        "material pass",
        "Draws a material stage over a draw list. Wired to a G-buffer it writes that set's targets; wired to depth it clears it if the depth comes straight from a `resource.depth` node and tests against it (without writing) if it comes from another pass's depth output. Its colour output feeds `present`, or another pass in a chain.",
        inputs,
        outputs,
        settings,
    )
}

/// The passes that fill the shadow maps.
pub open spec fn shadow_pass_view() -> NodeDefinitionView {
    document_def(
        PASS_SHADOW@,
        "shadow"@,
        "One shadow pass per light slot, filling one layer each of the shadow-map array. A slot whose light casts nothing this frame is cleared and left alone — the pass list is built once and scheduled against every frame."@,
        seq![
            handle("draws"@, ValueType::DrawQueue, "What to draw."@),
            handle("into"@, ValueType::ShadowMaps, "The shadow maps to fill."@),
        ],
        Seq::empty(),
        Seq::empty(),
    )
}

fn shadow_pass() -> (r: NodeDefinition)
    ensures
        r@ == shadow_pass_view(),
{
    proof {
        reveal_strlit("draws");
        reveal_strlit("into");
    }
    let mut inputs: Vec<Socket> = Vec::new();
    inputs.push(socket("draws", ValueType::DrawQueue, false, "What to draw."));
    inputs.push(socket("into", ValueType::ShadowMaps, false, "The shadow maps to fill."));
    assert(text::seq_of(inputs@) =~= shadow_pass_view().inputs);
    let outputs: Vec<Socket> = Vec::new();
    assert(text::seq_of(outputs@) =~= shadow_pass_view().outputs);
    let settings: Vec<SettingDef> = Vec::new();
    assert(text::seq_of(settings@) =~= shadow_pass_view().settings);
    document(
        PASS_SHADOW,
        "shadow",
        "One shadow pass per light slot, filling one layer each of the shadow-map array. A slot whose light casts nothing this frame is cleared and left alone — the pass list is built once and scheduled against every frame.",
        inputs,
        outputs,
        settings,
    )
}

/// A pass over the whole screen.
pub open spec fn screen_pass_view() -> NodeDefinitionView {
    document_def(
        PASS_SCREEN@,
        "screen effect"@,
        "A fullscreen pass over what earlier passes wrote. The effect is named by `effect`; what it reads is what is wired into it — a G-buffer for the deferred lighting pass, a colour target for a post effect. With `into` unconnected it writes the frame's own target."@,
        seq![
            spare_handle("gbuffer"@, ValueType::GBuffer, "The G-buffer, for an effect that shades one."@),
            spare_handle("image"@, ValueType::ColorTarget, "A colour input, for a post effect."@),
            spare_handle("into"@, ValueType::ColorTarget, "Where to write. Unconnected means the frame's own target."@),
        ],
        seq![
            handle("color"@, ValueType::ColorTarget, "What the effect wrote — the frame's target when `into` is unconnected."@),
        ],
        seq![
            setting_of(SETTING_EFFECT@, "Effect"@, "Which screen effect the pass runs."@, "deferred_lighting"@),
        ],
    )
}

fn screen_pass() -> (r: NodeDefinition)
    ensures
        r@ == screen_pass_view(),
{
    proof {
        reveal_strlit("color");
        reveal_strlit("effect");
        reveal_strlit("gbuffer");
        reveal_strlit("image");
        reveal_strlit("into");
    }
    let mut inputs: Vec<Socket> = Vec::new();
    inputs.push(socket("gbuffer", ValueType::GBuffer, true, "The G-buffer, for an effect that shades one."));
    inputs.push(socket("image", ValueType::ColorTarget, true, "A colour input, for a post effect."));
    inputs.push(socket("into", ValueType::ColorTarget, true, "Where to write. Unconnected means the frame's own target."));
    assert(text::seq_of(inputs@) =~= screen_pass_view().inputs);
    let mut outputs: Vec<Socket> = Vec::new();
    outputs.push(socket("color", ValueType::ColorTarget, false, "What the effect wrote — the frame's target when `into` is unconnected."));
    assert(text::seq_of(outputs@) =~= screen_pass_view().outputs);
    let mut settings: Vec<SettingDef> = Vec::new();
    settings.push(text_setting(SETTING_EFFECT, "Effect", "Which screen effect the pass runs.", "deferred_lighting"));
    assert(text::seq_of(settings@) =~= screen_pass_view().settings);
    document(
        PASS_SCREEN,
        "screen effect",
        "A fullscreen pass over what earlier passes wrote. The effect is named by `effect`; what it reads is what is wired into it — a G-buffer for the deferred lighting pass, a colour target for a post effect. With `into` unconnected it writes the frame's own target.",
        inputs,
        outputs,
        settings,
    )
}

/// What reaches the frame.
pub open spec fn present_end_view() -> NodeDefinitionView {
    document_def(
        PRESENT@,
        "Present"@,
        "What reaches the frame's own target. Exactly one per document."@,
        seq![
            handle("surface"@, ValueType::ColorTarget, "What to present."@),
        ],
        Seq::empty(),
        Seq::empty(),
    )
}

fn present_end() -> (r: NodeDefinition)
    ensures
        r@ == present_end_view(),
{
    proof {
        reveal_strlit("surface");
    }
    let mut inputs: Vec<Socket> = Vec::new();
    inputs.push(socket("surface", ValueType::ColorTarget, false, "What to present."));
    assert(text::seq_of(inputs@) =~= present_end_view().inputs);
    let outputs: Vec<Socket> = Vec::new();
    assert(text::seq_of(outputs@) =~= present_end_view().outputs);
    let settings: Vec<SettingDef> = Vec::new();
    assert(text::seq_of(settings@) =~= present_end_view().settings);
    document(
        PRESENT,
        "Present",
        "What reaches the frame's own target. Exactly one per document.",
        inputs,
        outputs,
        settings,
    )
}

/// The vocabulary, in the order of [`NODE_IDS`].
pub open spec fn vocabulary() -> Seq<NodeDefinitionView> {
    seq![
        scene_source_view(),
        lights_source_view(),
        gbuffer_resource_view(),
        color_resource_view(),
        depth_resource_view(),
        geometry_pass_view(),
        shadow_pass_view(),
        screen_pass_view(),
        present_end_view(),
    ]
}

/// The kinds of node of a pipeline document.
pub fn node_defs() -> (r: Vec<NodeDefinition>)
    ensures
        text::seq_of(r@) == vocabulary(),
{
    let mut defs: Vec<NodeDefinition> = Vec::new();
    defs.push(scene_source());
    defs.push(lights_source());
    defs.push(gbuffer_resource());
    defs.push(color_resource());
    defs.push(depth_resource());
    defs.push(geometry_pass());
    defs.push(shadow_pass());
    defs.push(screen_pass());
    defs.push(present_end());
    assert(text::seq_of(defs@) =~= vocabulary());
    defs
}

/// Every kind of node has an id of its own, and is listed under it.
pub proof fn vocabulary_has_no_collisions()
    ensures
        vocabulary().len() == NODE_IDS@.len(),
        forall|i: int| 0 <= i < NODE_IDS@.len() ==> (#[trigger] vocabulary()[i]).id == NODE_IDS@[i]@,
        forall|i: int| 0 <= i < NODE_IDS@.len() ==> (#[trigger] vocabulary()[i]).body is Document,
        forall|i: int, j: int|
            0 <= i < j < NODE_IDS@.len() ==> (#[trigger] vocabulary()[i]).id != (
            #[trigger] vocabulary()[j]).id,
{
    reveal_strlit("source.scene");
    reveal_strlit("source.lights");
    reveal_strlit("resource.gbuffer");
    reveal_strlit("resource.color");
    reveal_strlit("resource.depth");
    reveal_strlit("pass.geometry");
    reveal_strlit("pass.shadow");
    reveal_strlit("pass.screen");
    reveal_strlit("present");
    assert("source.lights"@[0] != "pass.geometry"@[0]);
    assert("resource.color"@[9] != "resource.depth"@[9]);
    assert("pass.shadow"@[6] != "pass.screen"@[6]);
}

/// The registry of a pipeline document: every kind of node of the vocabulary.
pub fn registry() -> (r: NodeRegistry)
    ensures
        r@ == node::registered(Map::empty(), vocabulary()),
{
    proof {
        vocabulary_has_no_collisions();
    }
    let mut registry = NodeRegistry::new();
    registry.register_all(node_defs());
    registry
}

} // verus!
