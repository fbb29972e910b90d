//! The contract between generated modules and the shader library around them:
//! the names both sides spell, the tables of fields and stages, and the nodes
//! that stand for them.

use vstd::prelude::*;

use crate::float::Float;
use crate::lists;
use crate::macros::{MacroDef, MacroDefView, MacroValue};
use crate::node;
use crate::node::{
    GenericParam, GenericParamView, NodeBodyView, NodeDefinition, NodeDefinitionView, SettingDef,
    SettingDefView, Socket, SocketView, Value, ValueType, SETTING_NAME,
};
use crate::text;
use crate::text::{is_same_ignoring_case, trim};
use crate::value;
use crate::wxsl;

verus! {

/// Module holding `CONTEXT_STRUCT`, `SURFACE_STRUCT` and `DEFAULT_SURFACE_FN`.
pub const SURFACE_MODULE: &'static str = "package::wxsl::surface";

/// Module holding the vertex stage and the context builder.
pub const VERTEX_MODULE: &'static str = "package::wxsl::vertex";

/// Module holding the forward-path shading function.
pub const SHADING_MODULE: &'static str = "package::wxsl::shading";

/// Module holding the G-buffer struct and packing function.
pub const DEFERRED_MODULE: &'static str = "package::wxsl::deferred";

/// Per-fragment inputs handed to the material function.
pub const CONTEXT_STRUCT: &'static str = "SurfaceContext";

/// Parameter name a generated function receives a `CONTEXT_STRUCT` as.
pub const CONTEXT_VAR: &'static str = "ctx";

/// Parameter name a generated function receives a `VERTEX_CONTEXT_STRUCT` as.
pub const VERTEX_CONTEXT_VAR: &'static str = "vtx";

/// Material properties the material function returns.
pub const SURFACE_STRUCT: &'static str = "Surface";

/// Returns a `SURFACE_STRUCT` pre-filled from a `CONTEXT_STRUCT`: sensible
/// material defaults, and the geometric normal.
pub const DEFAULT_SURFACE_FN: &'static str = "default_surface";

/// Vertex stage input struct (matches `wxsl-render`'s vertex buffer layout).
pub const VERTEX_IN_STRUCT: &'static str = "VertexIn";

/// Vertex stage output / fragment stage input struct.
pub const VERTEX_OUT_STRUCT: &'static str = "VertexOut";

/// Vertex stage body, shared by both render paths.
pub const TRANSFORM_VERTEX_FN: &'static str = "transform_vertex";

/// Builds a `CONTEXT_STRUCT` from a `VERTEX_OUT_STRUCT`.
pub const SURFACE_CONTEXT_FN: &'static str = "surface_context";

/// Per-vertex inputs handed to the generated vertex function.
pub const VERTEX_CONTEXT_STRUCT: &'static str = "VertexContext";

/// Builds a `VERTEX_CONTEXT_STRUCT` from a `VERTEX_IN_STRUCT`.
pub const VERTEX_CONTEXT_FN: &'static str = "vertex_context";

/// `TRANSFORM_VERTEX_FN` with an object-space position offset applied before
/// the model transform.
pub const TRANSFORM_VERTEX_OFFSET_FN: &'static str = "transform_vertex_offset";

/// Struct a generated module declares for the *declared* per-vertex attributes,
/// taken as the vertex entry's **second** parameter.
pub const MATERIAL_VERTEX_IN_STRUCT: &'static str = "MaterialVertexIn";

/// Struct a generated module declares as its vertex entry's *return* when it
/// has anything to pass down beyond `VERTEX_OUT_FIELDS`.
pub const MATERIAL_VERTEX_OUT_STRUCT: &'static str = "MaterialVertexOut";

/// Struct holding only the *extra* varyings, taken as the fragment entry's
/// second parameter beside a plain `VERTEX_OUT_STRUCT`.
pub const MATERIAL_VARYINGS_STRUCT: &'static str = "MaterialVaryings";

/// Plain (non-IO) struct handed to the material function as its second
/// argument, holding what the geometry supplied.
pub const MATERIAL_ATTRIBUTES_STRUCT: &'static str = "MaterialAttributes";

/// Parameter name the material function receives a `MATERIAL_ATTRIBUTES_STRUCT`
/// under.
pub const MATERIAL_ATTRIBUTES_VAR: &'static str = "attrs";

/// Field of `MATERIAL_ATTRIBUTES_STRUCT` and `MATERIAL_VARYINGS_STRUCT`
/// carrying `@builtin(instance_index)` down to the fragment stage.
pub const INSTANCE_INDEX_FIELD: &'static str = "wxsl_instance";

/// Struct a generated module declares for one instance's *declared* attributes
/// — the per-instance half of what a material requires of its geometry.
pub const MATERIAL_INSTANCE_STRUCT: &'static str = "MaterialInstance";

/// Variable the declared per-instance attributes are bound as, at
/// `BINDING_INSTANCE_ATTRIBUTES` of `GROUP_FRAME`.
pub const MATERIAL_INSTANCE_VAR: &'static str = "wxsl_instance_attributes";

/// Field of `VERTEX_OUT_STRUCT` carrying `@builtin(position)`.
pub const CLIP_POSITION_FIELD: &'static str = "clip_position";

/// How many `@location` slots an inter-stage interface has.
pub const MAX_VARYING_LOCATIONS: usize = 16;

/// How many per-vertex attributes a material may declare.
pub const MAX_VERTEX_ATTRIBUTES: usize = 4;

/// Shades a surface to a final `vec4f` colour (`MaterialStage::FORWARD_LIT`).
pub const SHADE_SURFACE_FN: &'static str = "shade_surface";

/// The G-buffer fragment output struct (`MaterialStage::GBUFFER`).
pub const GBUFFER_STRUCT: &'static str = "GBuffer";

/// Packs a surface into the G-buffer (`MaterialStage::GBUFFER`).
pub const PACK_GBUFFER_FN: &'static str = "pack_gbuffer";

/// Shadow map bindings and the filtered lookup over them.
pub const SHADOW_MODULE: &'static str = "package::wxsl::shadow";

/// Attenuation of one light at one point, in `[0, 1]` (`SHADOW_MODULE`).
pub const SHADOW_FACTOR_FN: &'static str = "shadow_factor";

/// Deferred path: the standalone module holding the lighting pass, compiled as
/// its own root (it shades the G-buffer, so it has no material graph).
pub const LIGHTING_PASS_MODULE: &'static str = "package::wxsl::lighting_pass";

/// Vertex entry point of `LIGHTING_PASS_MODULE` (a fullscreen triangle).
pub const LIGHTING_PASS_VERTEX_ENTRY: &'static str = "lighting_vs";

/// Fragment entry point of `LIGHTING_PASS_MODULE`.
pub const LIGHTING_PASS_FRAGMENT_ENTRY: &'static str = "lighting_fs";

/// Per-frame data: camera, scene, and the instance transforms
/// (`package::wxsl::bindings`).
pub const GROUP_FRAME: u32 = 0;

/// Per-material data: the uniform parameters a graph exposes, plus its textures
/// and samplers.
pub const GROUP_MATERIAL: u32 = 1;

/// The application's own slot.
pub const GROUP_USER: u32 = 2;

/// Per-pass data, such as the G-buffer the deferred lighting pass samples.
pub const GROUP_PASS: u32 = 3;

/// `GROUP_FRAME` binding of the camera uniform.
pub const BINDING_CAMERA: u32 = 0;

/// `GROUP_FRAME` binding of the scene uniform (lights, ambient, time).
pub const BINDING_SCENE: u32 = 1;

/// `GROUP_MATERIAL` binding of the material's uniform parameter buffer.
pub const BINDING_MATERIAL_PARAMS: u32 = 0;

/// First `GROUP_MATERIAL` binding available to a declared texture or sampler;
/// they take the indices upwards from here, in name order.
pub const MATERIAL_RESOURCE_BINDING_BASE: u32 = BINDING_MATERIAL_PARAMS + 1;

/// `GROUP_USER` binding of the block a material *requires the application to
/// supply*.
pub const BINDING_USER_BLOCK: u32 = 0;

/// Name of the generated struct holding a material's uniform parameters.
pub const MATERIAL_PARAMS_STRUCT: &'static str = "MaterialParams";

/// Name of the generated variable holding a material's uniform parameters.
pub const MATERIAL_PARAMS_VAR: &'static str = "material";

/// `GROUP_FRAME` binding of the instance transform storage buffer.
pub const BINDING_INSTANCES: u32 = 2;

/// `GROUP_FRAME` binding of the per-instance attributes a material declares.
pub const BINDING_INSTANCE_ATTRIBUTES: u32 = 3;

/// `GROUP_FRAME` binding of the shadow maps, one array layer per light.
pub const BINDING_SHADOW_MAPS: u32 = 4;

/// `GROUP_FRAME` binding of the comparison sampler used with
/// `BINDING_SHADOW_MAPS`.
pub const BINDING_SHADOW_SAMPLER: u32 = 5;

/// How many lights the scene uniform carries, and therefore how many slices the
/// shadow map array has.
pub const MAX_LIGHTS: usize = 4;

/// Edge length in texels of one shadow map slice.
pub const SHADOW_MAP_RESOLUTION: u32 = 1024;

/// Feature flag: tonemap the shaded colour (see `abi_macros`).
pub const FEATURE_TONEMAP: &'static str = "wxsl_tonemap";

/// Feature flag: output normals instead of shading (see `abi_macros`).
pub const FEATURE_DEBUG_NORMALS: &'static str = "wxsl_debug_normals";

/// Feature flag: sample the shadow maps when shading (see `abi_macros`).
pub const FEATURE_RECEIVE_SHADOWS: &'static str = "wxsl_receive_shadows";

/// Feature flag: world space is measured from the camera (see `abi_macros`).
pub const FEATURE_RELATIVE_TO_EYE: &'static str = "wxsl_relative_to_eye";

/// Feature flag: time-driven nodes read the previous frame's clock (see
/// `abi_macros`).
pub const FEATURE_PREVIOUS_FRAME: &'static str = "wxsl_previous_frame";

/// Module holding the 2D UI pass the editor draws itself with.
pub const UI_MODULE: &'static str = "package::wxsl::ui";

/// Vertex entry point of `UI_MODULE`.
pub const UI_VERTEX_ENTRY: &'static str = "ui_vs";

/// Fragment entry point of `UI_MODULE`.
pub const UI_FRAGMENT_ENTRY: &'static str = "ui_fs";

/// `GROUP_PASS` binding of the UI viewport uniform.
pub const BINDING_UI_VIEWPORT: u32 = 0;

/// `GROUP_PASS` binding of the texture a UI batch samples (the glyph and image
/// atlas, or an offscreen render such as the material preview).
pub const BINDING_UI_TEXTURE: u32 = 1;

/// `GROUP_PASS` binding of the sampler used with `BINDING_UI_TEXTURE`.
pub const BINDING_UI_SAMPLER: u32 = 2;

/// How many vertices one UI primitive's quad is drawn from.
pub const UI_QUAD_VERTICES: u32 = 6;

/// Module holding the compute pass that generates glyph distance fields.
pub const MSDF_MODULE: &'static str = "package::wxsl::msdf";

/// Compute entry point of `MSDF_MODULE`.
pub const MSDF_ENTRY: &'static str = "msdf_main";

/// `GROUP_PASS` binding of the coloured edges of every glyph in a batch.
pub const BINDING_MSDF_EDGES: u32 = 0;

/// `GROUP_PASS` binding of the per-glyph jobs.
pub const BINDING_MSDF_JOBS: u32 = 1;

/// `GROUP_PASS` binding of the packed RGBA8 output pixels.
pub const BINDING_MSDF_PIXELS: u32 = 2;

/// Edge kind in `MSDF_MODULE`'s edge buffer: a straight line.
pub const MSDF_EDGE_LINE: u32 = 1;

/// Edge kind: a quadratic Bézier (TrueType outlines).
pub const MSDF_EDGE_QUAD: u32 = 2;

/// Edge kind: a cubic Bézier (CFF/OpenType outlines).
pub const MSDF_EDGE_CUBIC: u32 = 3;

/// `UI_KINDS` value: a signed-distance rounded box.
pub const UI_KIND_SHAPE: u32 = 0;

/// `UI_KINDS` value: a textured quad.
pub const UI_KIND_TEXTURE: u32 = 1;

/// `UI_KINDS` value: an MSDF glyph.
pub const UI_KIND_TEXT: u32 = 2;

/// Name of the generated material function.
pub const MATERIAL_FN: &'static str = "wxsl_material";

/// Name of the generated vertex function: the object-space position offset a
/// graph's vertex output produces.
pub const VERTEX_FN: &'static str = "wxsl_vertex";

/// Name of the generated discard function: whether this fragment should be
/// thrown away.
pub const DISCARD_FN: &'static str = "wxsl_discard";

/// Prefix of the generated function computing one declared interpolant.
pub const VARYING_FN_PREFIX: &'static str = "wxsl_varying_";

/// Name of the generated vertex entry point.
pub const VERTEX_ENTRY: &'static str = "vs_main";

/// Registry id of the surface output node.
pub const SURFACE_OUTPUT_ID: &'static str = "output.surface";

/// Registry id of the vertex output node.
pub const VERTEX_OUTPUT_ID: &'static str = "output.vertex";

/// Registry id of the discard output node.
pub const DISCARD_OUTPUT_ID: &'static str = "output.discard";

/// Definition id of the node that writes one declared interpolant
/// (`varying_output_def`).
pub const VARYING_OUTPUT_ID: &'static str = "output.varying";

/// The input socket `VERTEX_OUTPUT_ID` takes its offset on.
pub const SOCKET_POSITION_OFFSET: &'static str = "position_offset";

/// The input socket `DISCARD_OUTPUT_ID` takes its condition on.
pub const SOCKET_DISCARD: &'static str = "discard";

/// Input socket of `VARYING_OUTPUT_ID`.
pub const SOCKET_VARYING: &'static str = "value";


/// Maps a texel of the G-buffer back to a surface.
pub const UNPACK_GBUFFER_FN: &'static str = "unpack_gbuffer";

/// Calls the lighting model of a fragment for one light.
pub const LIGHTING_DISPATCH_FN: &'static str = "lighting_dispatch";

/// The threads of one workgroup of `MSDF_MODULE`, in x and y.
pub const MSDF_WORKGROUP: [u32; 2] = [8, 8];

/// The number of fields of `vertex_in_fields`.
pub const VERTEX_IN_COUNT: usize = 4;

/// The number of fields of `vertex_out_fields`.
pub const VERTEX_OUT_COUNT: usize = 5;

/// Names that a declaration may not take, because the generated module uses
/// them for itself.
pub const RESERVED_NAMES: [&'static str; 7] = [
    MATERIAL_ATTRIBUTES_VAR,
    MATERIAL_INSTANCE_VAR,
    INSTANCE_INDEX_FIELD,
    MATERIAL_PARAMS_VAR,
    MATERIAL_PARAMS_STRUCT,
    "ctx",
    "surface",
];

/// The types a value can have that is interpolated between the stages.
pub const INTERPOLANT_TYPES: [ValueType; 4] = [
    ValueType::F32,
    ValueType::Vec2,
    ValueType::Vec3,
    ValueType::Vec4,
];

/// A field of a vertex interface.
#[derive(Clone, Copy, Debug, PartialEq, Eq)]
pub struct VertexField {
    /// The field's name.
    pub name: &'static str,
    /// The field's type.
    pub ty: ValueType,
}

/// One bind group of a generated module.
#[derive(Clone, Copy, Debug, PartialEq, Eq)]
pub struct BindGroup {
    /// The `@group` index.
    pub index: u32,
    /// What the group is called.
    pub name: &'static str,
    /// What is bound in it.
    pub doc: &'static str,
    /// Whether the application fills it.
    pub application_owned: bool,
}

/// How much a G-buffer target holds per pixel.
#[derive(Clone, Copy, Debug, PartialEq, Eq, Hash, Structural)]
pub enum GBufferPrecision {
    /// Four channels between 0 and 1.
    Normalized,
    /// Four half floats.
    HighDynamicRange,
    /// One channel between 0 and 1.
    NormalizedScalar,
    /// Two half floats.
    HighDynamicRangePair,
}

impl GBufferPrecision {
    /// The number of channels.
    #[verifier::allow_in_spec]
    pub fn channels(self) -> u32
        returns
            (match self {
                GBufferPrecision::NormalizedScalar => 1u32,
                GBufferPrecision::HighDynamicRangePair => 2u32,
                _ => 4u32,
            }),
    {
        match self {
            GBufferPrecision::NormalizedScalar => 1,
            GBufferPrecision::HighDynamicRangePair => 2,
            _ => 4,
        }
    }

    /// The type of the field that holds a target's texel.
    #[verifier::allow_in_spec]
    pub fn field_type(self) -> &'static str
        returns
            (match self {
                GBufferPrecision::NormalizedScalar => "f32",
                GBufferPrecision::HighDynamicRangePair => "vec2f",
                _ => "vec4f",
            }),
    {
        match self {
            GBufferPrecision::NormalizedScalar => "f32",
            GBufferPrecision::HighDynamicRangePair => "vec2f",
            _ => "vec4f",
        }
    }
}

/// One render target of the G-buffer.
#[derive(Clone, Copy, Debug, PartialEq, Eq, Hash)]
pub struct GBufferTarget {
    /// The field of the G-buffer struct.
    pub field: &'static str,
    /// What is packed in it.
    pub doc: &'static str,
    /// How much it holds per pixel.
    pub precision: GBufferPrecision,
}

/// One attribute of a UI primitive.
#[derive(Clone, Copy, Debug, PartialEq, Eq)]
pub struct UiAttribute {
    /// The attribute's name.
    pub name: &'static str,
    /// Its type, as source spells it.
    pub ty: &'static str,
    /// What it says.
    pub doc: &'static str,
}

/// One kind of UI primitive.
#[derive(Clone, Copy, Debug, PartialEq, Eq)]
pub struct UiKind {
    /// The value an instance carries.
    pub value: u32,
    /// The constant that source names it by.
    pub name: &'static str,
    /// What it draws.
    pub doc: &'static str,
}

/// What the fragment stage of a module writes.
#[derive(Clone, Copy, Debug, PartialEq, Eq, Hash, Structural)]
pub enum StageOutput {
    /// One colour.
    Color,
    /// The G-buffer.
    GBuffer,
    /// Nothing but depth.
    Nothing,
}

impl StageOutput {
    /// The number of colour targets.
    #[verifier::allow_in_spec]
    pub fn color_targets(self) -> usize
        returns
            (match self {
                StageOutput::Color => 1usize,
                StageOutput::GBuffer => 3usize,
                StageOutput::Nothing => 0usize,
            }),
    {
        match self {
            StageOutput::Color => 1,
            StageOutput::GBuffer => 3,
            StageOutput::Nothing => 0,
        }
    }
}

/// A stage a material is compiled for.
#[derive(Clone, Copy, Debug, PartialEq, Eq)]
pub struct MaterialStageDesc {
    /// The stage's name, as documents spell it.
    pub name: &'static str,
    /// The fragment entry point of its module.
    pub fragment_entry: &'static str,
    /// What its fragment stage writes.
    pub output: StageOutput,
    /// What the stage is for.
    pub doc: &'static str,
}

/// A value a graph can read about the fragment or the vertex.
#[derive(Clone, Copy, Debug, PartialEq, Eq)]
pub struct ContextField {
    /// The field's name.
    pub name: &'static str,
    /// The field's type.
    pub ty: ValueType,
    /// What an editor calls it.
    pub label: &'static str,
    /// What it is.
    pub doc: &'static str,
}

/// A field of the surface a material writes.
#[derive(Clone, Copy, Debug, PartialEq)]
pub struct SurfaceField {
    /// The field's name.
    pub name: &'static str,
    /// The field's type.
    pub ty: ValueType,
    /// What it means.
    pub doc: &'static str,
    /// The value an editor shows where nothing feeds it.
    pub editable_default: Option<Value>,
}

/// What a vertex buffer supplies, in `@location` order.
#[verifier::allow_in_spec]
pub fn vertex_in_fields() -> [VertexField; 4]
    returns
        ([
            VertexField {
                name: "position",
                ty: ValueType::Vec3,
            },
            VertexField {
                name: "normal",
                ty: ValueType::Vec3,
            },
            VertexField {
                name: "tangent",
                ty: ValueType::Vec4,
            },
            VertexField {
                name: "uv",
                ty: ValueType::Vec2,
            },
        ]),
{
    [
        VertexField {
            name: "position",
            ty: ValueType::Vec3,
        },
        VertexField {
            name: "normal",
            ty: ValueType::Vec3,
        },
        VertexField {
            name: "tangent",
            ty: ValueType::Vec4,
        },
        VertexField {
            name: "uv",
            ty: ValueType::Vec2,
        },
    ]
}

/// What the vertex stage hands down, in `@location` order.
#[verifier::allow_in_spec]
pub fn vertex_out_fields() -> [VertexField; 5]
    returns
        ([
            VertexField {
                name: "world_position",
                ty: ValueType::Vec3,
            },
            VertexField {
                name: "world_normal",
                ty: ValueType::Vec3,
            },
            VertexField {
                name: "world_tangent",
                ty: ValueType::Vec3,
            },
            VertexField {
                name: "world_bitangent",
                ty: ValueType::Vec3,
            },
            VertexField {
                name: "uv",
                ty: ValueType::Vec2,
            },
        ]),
{
    [
        VertexField {
            name: "world_position",
            ty: ValueType::Vec3,
        },
        VertexField {
            name: "world_normal",
            ty: ValueType::Vec3,
        },
        VertexField {
            name: "world_tangent",
            ty: ValueType::Vec3,
        },
        VertexField {
            name: "world_bitangent",
            ty: ValueType::Vec3,
        },
        VertexField {
            name: "uv",
            ty: ValueType::Vec2,
        },
    ]
}

/// What every row of the instance buffer starts with.
#[verifier::allow_in_spec]
pub fn instance_base_fields() -> [VertexField; 2]
    returns
        ([
            VertexField {
                name: "model",
                ty: ValueType::Mat4,
            },
            VertexField {
                name: "normal_matrix",
                ty: ValueType::Mat4,
            },
        ]),
{
    [
        VertexField {
            name: "model",
            ty: ValueType::Mat4,
        },
        VertexField {
            name: "normal_matrix",
            ty: ValueType::Mat4,
        },
    ]
}

/// The bind groups of every generated module.
#[verifier::allow_in_spec]
pub fn bind_groups() -> [BindGroup; 4]
    returns
        ([
            BindGroup {
                index: GROUP_FRAME,
                name: "frame",
                doc: "Camera, scene lighting and the instance transform buffer. Built once per frame.",
                application_owned: false,
            },
            BindGroup {
                index: GROUP_MATERIAL,
                name: "material",
                doc: "A material's uniform parameters, textures and samplers, all declared by its graph.",
                application_owned: false,
            },
            BindGroup {
                index: GROUP_USER,
                name: "user",
                doc: "The application's own slot. A material may declare the block it expects to find here, but never what is in it.",
                application_owned: true,
            },
            BindGroup {
                index: GROUP_PASS,
                name: "pass",
                doc: "Resources a pipeline shape needs, such as the G-buffer read by the deferred lighting pass.",
                application_owned: false,
            },
        ]),
{
    [
        BindGroup {
            index: GROUP_FRAME,
            name: "frame",
            doc: "Camera, scene lighting and the instance transform buffer. Built once per frame.",
            application_owned: false,
        },
        BindGroup {
            index: GROUP_MATERIAL,
            name: "material",
            doc: "A material's uniform parameters, textures and samplers, all declared by its graph.",
            application_owned: false,
        },
        BindGroup {
            index: GROUP_USER,
            name: "user",
            doc: "The application's own slot. A material may declare the block it expects to find here, but never what is in it.",
            application_owned: true,
        },
        BindGroup {
            index: GROUP_PASS,
            name: "pass",
            doc: "Resources a pipeline shape needs, such as the G-buffer read by the deferred lighting pass.",
            application_owned: false,
        },
    ]
}

/// The render targets of the G-buffer that every lighting set has.
#[verifier::allow_in_spec]
pub fn gbuffer_base_targets() -> [GBufferTarget; 3]
    returns
        ([
            GBufferTarget {
                field: "base_color",
                doc: "rgb = linear base colour, a = metallic",
                precision: GBufferPrecision::Normalized,
            },
            GBufferTarget {
                field: "normal",
                doc: "rgb = world-space shading normal, a = roughness",
                precision: GBufferPrecision::HighDynamicRange,
            },
            GBufferTarget {
                field: "emissive",
                doc: "rgb = emissive radiance, a = ambient occlusion",
                precision: GBufferPrecision::HighDynamicRange,
            },
        ]),
{
    [
        GBufferTarget {
            field: "base_color",
            doc: "rgb = linear base colour, a = metallic",
            precision: GBufferPrecision::Normalized,
        },
        GBufferTarget {
            field: "normal",
            doc: "rgb = world-space shading normal, a = roughness",
            precision: GBufferPrecision::HighDynamicRange,
        },
        GBufferTarget {
            field: "emissive",
            doc: "rgb = emissive radiance, a = ambient occlusion",
            precision: GBufferPrecision::HighDynamicRange,
        },
    ]
}

/// What one UI primitive carries, in order.
#[verifier::allow_in_spec]
pub fn ui_attributes() -> [UiAttribute; 8]
    returns
        ([
            UiAttribute {
                name: "center",
                ty: "vec2f",
                doc: "Centre of the primitive in physical pixels, y down from the top left.",
            },
            UiAttribute {
                name: "half_extent",
                ty: "vec2f",
                doc: "Half the primitive's size in its own frame. The signed distance is evaluated against this, so a capsule is an axis-aligned rounded box however the quad is rotated on screen.",
            },
            UiAttribute {
                name: "axis",
                ty: "vec2f",
                doc: "Unit vector the primitive's local x axis points along on screen. (1, 0) for anything axis-aligned; a line's direction for a capsule.",
            },
            UiAttribute {
                name: "shape",
                ty: "vec2f",
                doc: "x = corner radius (glyph runs: the distance field's range in screen pixels), y = border thickness, 0 for a filled primitive.",
            },
            UiAttribute {
                name: "uv_min",
                ty: "vec2f",
                doc: "Texture coordinate of the primitive's top-left corner.",
            },
            UiAttribute {
                name: "uv_max",
                ty: "vec2f",
                doc: "Texture coordinate of the primitive's bottom-right corner.",
            },
            UiAttribute {
                name: "color",
                ty: "vec4f",
                doc: "Straight (non-premultiplied) RGBA tint, in the target's colour space — the UI pass converts nothing.",
            },
            UiAttribute {
                name: "kind",
                ty: "u32",
                doc: "Which of `UI_KINDS` this primitive is. Flat-interpolated.",
            },
        ]),
{
    [
        UiAttribute {
            name: "center",
            ty: "vec2f",
            doc: "Centre of the primitive in physical pixels, y down from the top left.",
        },
        UiAttribute {
            name: "half_extent",
            ty: "vec2f",
            doc: "Half the primitive's size in its own frame. The signed distance is evaluated against this, so a capsule is an axis-aligned rounded box however the quad is rotated on screen.",
        },
        UiAttribute {
            name: "axis",
            ty: "vec2f",
            doc: "Unit vector the primitive's local x axis points along on screen. (1, 0) for anything axis-aligned; a line's direction for a capsule.",
        },
        UiAttribute {
            name: "shape",
            ty: "vec2f",
            doc: "x = corner radius (glyph runs: the distance field's range in screen pixels), y = border thickness, 0 for a filled primitive.",
        },
        UiAttribute {
            name: "uv_min",
            ty: "vec2f",
            doc: "Texture coordinate of the primitive's top-left corner.",
        },
        UiAttribute {
            name: "uv_max",
            ty: "vec2f",
            doc: "Texture coordinate of the primitive's bottom-right corner.",
        },
        UiAttribute {
            name: "color",
            ty: "vec4f",
            doc: "Straight (non-premultiplied) RGBA tint, in the target's colour space — the UI pass converts nothing.",
        },
        UiAttribute {
            name: "kind",
            ty: "u32",
            doc: "Which of `UI_KINDS` this primitive is. Flat-interpolated.",
        },
    ]
}

/// The kinds of UI primitive, by value.
#[verifier::allow_in_spec]
pub fn ui_kinds() -> [UiKind; 3]
    returns
        ([
            UiKind {
                value: UI_KIND_SHAPE,
                name: "UI_KIND_SHAPE",
                doc: "Rounded box from the signed distance to `shape`, filled or stroked.",
            },
            UiKind {
                value: UI_KIND_TEXTURE,
                name: "UI_KIND_TEXTURE",
                doc: "The batch's texture, tinted by `color` and masked by the same rounded-box distance, so an image can have rounded corners.",
            },
            UiKind {
                value: UI_KIND_TEXT,
                name: "UI_KIND_TEXT",
                doc: "A multi-channel signed distance field glyph: the median of the texture's RGB, scaled by `shape.z` screen pixels of range.",
            },
        ]),
{
    [
        UiKind {
            value: UI_KIND_SHAPE,
            name: "UI_KIND_SHAPE",
            doc: "Rounded box from the signed distance to `shape`, filled or stroked.",
        },
        UiKind {
            value: UI_KIND_TEXTURE,
            name: "UI_KIND_TEXTURE",
            doc: "The batch's texture, tinted by `color` and masked by the same rounded-box distance, so an image can have rounded corners.",
        },
        UiKind {
            value: UI_KIND_TEXT,
            name: "UI_KIND_TEXT",
            doc: "A multi-channel signed distance field glyph: the median of the texture's RGB, scaled by `shape.z` screen pixels of range.",
        },
    ]
}

/// The stages a material is compiled for, by index.
#[verifier::allow_in_spec]
pub fn material_stages() -> [MaterialStageDesc; 4]
    returns
        ([
            MaterialStageDesc {
                name: "forward_lit",
                fragment_entry: "fs_forward_lit",
                output: StageOutput::Color,
                doc: "Shade the surface where it is evaluated, and write the final colour.",
            },
            MaterialStageDesc {
                name: "gbuffer",
                fragment_entry: "fs_gbuffer",
                output: StageOutput::GBuffer,
                doc: "Write the surface into the G-buffer for a later lighting pass to shade.",
            },
            MaterialStageDesc {
                name: "depth_only",
                fragment_entry: "fs_depth_only",
                output: StageOutput::Nothing,
                doc: "Write depth and nothing else: a depth prepass. A material that discards still gets a fragment stage here, because a prepass that filled the holes would occlude what should show through them.",
            },
            MaterialStageDesc {
                name: "shadow",
                fragment_entry: "fs_shadow",
                output: StageOutput::Nothing,
                doc: "Write depth into a shadow map slice. The same shape as a depth prepass, from a light's point of view — and the reason the vertex and alpha subgraphs had to become separable at all.",
            },
        ]),
{
    [
        MaterialStageDesc {
            name: "forward_lit",
            fragment_entry: "fs_forward_lit",
            output: StageOutput::Color,
            doc: "Shade the surface where it is evaluated, and write the final colour.",
        },
        MaterialStageDesc {
            name: "gbuffer",
            fragment_entry: "fs_gbuffer",
            output: StageOutput::GBuffer,
            doc: "Write the surface into the G-buffer for a later lighting pass to shade.",
        },
        MaterialStageDesc {
            name: "depth_only",
            fragment_entry: "fs_depth_only",
            output: StageOutput::Nothing,
            doc: "Write depth and nothing else: a depth prepass. A material that discards still gets a fragment stage here, because a prepass that filled the holes would occlude what should show through them.",
        },
        MaterialStageDesc {
            name: "shadow",
            fragment_entry: "fs_shadow",
            output: StageOutput::Nothing,
            doc: "Write depth into a shadow map slice. The same shape as a depth prepass, from a light's point of view — and the reason the vertex and alpha subgraphs had to become separable at all.",
        },
    ]
}

/// What a fragment can read, each through an input node.
#[verifier::allow_in_spec]
pub fn context_fields() -> [ContextField; 7]
    returns
        ([
            ContextField {
                name: "world_position",
                ty: ValueType::Vec3,
                label: "World position",
                doc: "Fragment position in world space.",
            },
            ContextField {
                name: "world_normal",
                ty: ValueType::Vec3,
                label: "World normal",
                doc: "Interpolated geometric normal in world space, normalized.",
            },
            ContextField {
                name: "world_tangent",
                ty: ValueType::Vec3,
                label: "World tangent",
                doc: "Interpolated tangent in world space, normalized.",
            },
            ContextField {
                name: "world_bitangent",
                ty: ValueType::Vec3,
                label: "World bitangent",
                doc: "Interpolated bitangent in world space, normalized.",
            },
            ContextField {
                name: "view_direction",
                ty: ValueType::Vec3,
                label: "View direction",
                doc: "Unit vector from the fragment towards the camera.",
            },
            ContextField {
                name: "uv",
                ty: ValueType::Vec2,
                label: "UV",
                doc: "Interpolated texture coordinates.",
            },
            ContextField {
                name: "time",
                ty: ValueType::F32,
                label: "Time",
                doc: "Seconds since the renderer started, for animated materials.",
            },
        ]),
{
    [
        ContextField {
            name: "world_position",
            ty: ValueType::Vec3,
            label: "World position",
            doc: "Fragment position in world space.",
        },
        ContextField {
            name: "world_normal",
            ty: ValueType::Vec3,
            label: "World normal",
            doc: "Interpolated geometric normal in world space, normalized.",
        },
        ContextField {
            name: "world_tangent",
            ty: ValueType::Vec3,
            label: "World tangent",
            doc: "Interpolated tangent in world space, normalized.",
        },
        ContextField {
            name: "world_bitangent",
            ty: ValueType::Vec3,
            label: "World bitangent",
            doc: "Interpolated bitangent in world space, normalized.",
        },
        ContextField {
            name: "view_direction",
            ty: ValueType::Vec3,
            label: "View direction",
            doc: "Unit vector from the fragment towards the camera.",
        },
        ContextField {
            name: "uv",
            ty: ValueType::Vec2,
            label: "UV",
            doc: "Interpolated texture coordinates.",
        },
        ContextField {
            name: "time",
            ty: ValueType::F32,
            label: "Time",
            doc: "Seconds since the renderer started, for animated materials.",
        },
    ]
}

/// What only the vertex stage can read.
#[verifier::allow_in_spec]
pub fn vertex_only_fields() -> [ContextField; 2]
    returns
        ([
            ContextField {
                name: "object_position",
                ty: ValueType::Vec3,
                label: "Object position",
                doc: "The vertex's position in object space, before the model transform.",
            },
            ContextField {
                name: "object_normal",
                ty: ValueType::Vec3,
                label: "Object normal",
                doc: "The vertex's normal in object space, unit length.",
            },
        ]),
{
    [
        ContextField {
            name: "object_position",
            ty: ValueType::Vec3,
            label: "Object position",
            doc: "The vertex's position in object space, before the model transform.",
        },
        ContextField {
            name: "object_normal",
            ty: ValueType::Vec3,
            label: "Object normal",
            doc: "The vertex's normal in object space, unit length.",
        },
    ]
}

/// The fields of the surface a material writes.
#[verifier::allow_in_spec]
pub fn surface_fields() -> [SurfaceField; 7]
    returns
        ([
            SurfaceField {
                name: "base_color",
                ty: ValueType::Vec3,
                doc: "Linear-space diffuse albedo (metals: reflectance tint).",
                editable_default: Some(Value::Vec3([Float { bits: 0x3f4ccccd }, Float { bits: 0x3f4ccccd }, Float { bits: 0x3f4ccccd }])),
            },
            SurfaceField {
                name: "metallic",
                ty: ValueType::F32,
                doc: "0 = dielectric, 1 = conductor.",
                editable_default: Some(Value::F32(Float { bits: 0 })),
            },
            SurfaceField {
                name: "roughness",
                ty: ValueType::F32,
                doc: "Perceptual roughness; squared into the GGX alpha.",
                editable_default: Some(Value::F32(Float { bits: 0x3f000000 })),
            },
            SurfaceField {
                name: "normal",
                ty: ValueType::Vec3,
                doc: "Shading normal in world space. Unconnected: geometric normal.",
                editable_default: None,
            },
            SurfaceField {
                name: "emissive",
                ty: ValueType::Vec3,
                doc: "Light emitted by the surface, added after shading.",
                editable_default: Some(Value::Vec3([Float { bits: 0 }, Float { bits: 0 }, Float { bits: 0 }])),
            },
            SurfaceField {
                name: "occlusion",
                ty: ValueType::F32,
                doc: "Ambient occlusion multiplier, 1 = unoccluded.",
                editable_default: Some(Value::F32(Float { bits: 0x3f800000 })),
            },
            SurfaceField {
                name: "alpha",
                ty: ValueType::F32,
                doc: "Opacity. The deferred path ignores it (the G-buffer is opaque).",
                editable_default: Some(Value::F32(Float { bits: 0x3f800000 })),
            },
        ]),
{
    [
        SurfaceField {
            name: "base_color",
            ty: ValueType::Vec3,
            doc: "Linear-space diffuse albedo (metals: reflectance tint).",
            editable_default: Some(Value::Vec3([Float { bits: 0x3f4ccccd }, Float { bits: 0x3f4ccccd }, Float { bits: 0x3f4ccccd }])),
        },
        SurfaceField {
            name: "metallic",
            ty: ValueType::F32,
            doc: "0 = dielectric, 1 = conductor.",
            editable_default: Some(Value::F32(Float { bits: 0 })),
        },
        SurfaceField {
            name: "roughness",
            ty: ValueType::F32,
            doc: "Perceptual roughness; squared into the GGX alpha.",
            editable_default: Some(Value::F32(Float { bits: 0x3f000000 })),
        },
        SurfaceField {
            name: "normal",
            ty: ValueType::Vec3,
            doc: "Shading normal in world space. Unconnected: geometric normal.",
            editable_default: None,
        },
        SurfaceField {
            name: "emissive",
            ty: ValueType::Vec3,
            doc: "Light emitted by the surface, added after shading.",
            editable_default: Some(Value::Vec3([Float { bits: 0 }, Float { bits: 0 }, Float { bits: 0 }])),
        },
        SurfaceField {
            name: "occlusion",
            ty: ValueType::F32,
            doc: "Ambient occlusion multiplier, 1 = unoccluded.",
            editable_default: Some(Value::F32(Float { bits: 0x3f800000 })),
        },
        SurfaceField {
            name: "alpha",
            ty: ValueType::F32,
            doc: "Opacity. The deferred path ignores it (the G-buffer is opaque).",
            editable_default: Some(Value::F32(Float { bits: 0x3f800000 })),
        },
    ]
}

/// The macro variables every generated module knows, with their defaults.
pub open spec fn abi_macro_list() -> Seq<MacroDefView> {
    seq![
        MacroDefView {
            name: FEATURE_TONEMAP@,
            default: MacroValue::Flag(true),
            doc: "Apply the filmic tonemap curve before writing the final colour."@,
        },
        MacroDefView {
            name: FEATURE_DEBUG_NORMALS@,
            default: MacroValue::Flag(false),
            doc: "Shade surfaces as their world-space normal instead of lighting them."@,
        },
        MacroDefView {
            name: FEATURE_RECEIVE_SHADOWS@,
            default: MacroValue::Flag(true),
            doc: "Attenuate each light by the shadow map it casts into."@,
        },
        MacroDefView {
            name: FEATURE_RELATIVE_TO_EYE@,
            default: MacroValue::Flag(false),
            doc: "Measure world-space positions from the camera rather than the origin."@,
        },
        MacroDefView {
            name: FEATURE_PREVIOUS_FRAME@,
            default: MacroValue::Flag(false),
            doc: "Read the previous frame's clock, so a time-driven graph answers for where it was."@,
        },
    ]
}

/// The macro variables every generated module knows, with their defaults.
pub fn abi_macros() -> (r: Vec<MacroDef>)
    ensures
        text::seq_of(r@) == abi_macro_list(),
{
    proof {
        reveal_strlit("wxsl_tonemap");
        reveal_strlit("wxsl_debug_normals");
        reveal_strlit("wxsl_receive_shadows");
        reveal_strlit("wxsl_relative_to_eye");
        reveal_strlit("wxsl_previous_frame");
    }
    let mut r: Vec<MacroDef> = Vec::new();
    r.push(
        MacroDef::new(
            FEATURE_TONEMAP,
            MacroValue::Flag(true),
            "Apply the filmic tonemap curve before writing the final colour.",
        ),
    );
    r.push(
        MacroDef::new(
            FEATURE_DEBUG_NORMALS,
            MacroValue::Flag(false),
            "Shade surfaces as their world-space normal instead of lighting them.",
        ),
    );
    r.push(
        MacroDef::new(
            FEATURE_RECEIVE_SHADOWS,
            MacroValue::Flag(true),
            "Attenuate each light by the shadow map it casts into.",
        ),
    );
    r.push(
        MacroDef::new(
            FEATURE_RELATIVE_TO_EYE,
            MacroValue::Flag(false),
            "Measure world-space positions from the camera rather than the origin.",
        ),
    );
    r.push(
        MacroDef::new(
            FEATURE_PREVIOUS_FRAME,
            MacroValue::Flag(false),
            "Read the previous frame's clock, so a time-driven graph answers for where it was.",
        ),
    );
    assert(text::seq_of(r@) =~= abi_macro_list());
    r
}

/// A stage that a material is compiled for: a row of `material_stages`.
#[allow(non_camel_case_types)]
#[derive(Clone, Copy, Debug, PartialEq, Eq, PartialOrd, Ord, Hash, Structural)]
pub enum MaterialStage {
    /// Shade and write the final colour.
    FORWARD_LIT,
    /// Write the surface into the G-buffer.
    GBUFFER,
    /// Write depth only.
    DEPTH_ONLY,
    /// Write depth into a shadow map.
    SHADOW,
}

impl Default for MaterialStage {
    fn default() -> (r: Self)
        ensures
            r == MaterialStage::FORWARD_LIT,
    {
        MaterialStage::FORWARD_LIT
    }
}

/// Being the stage of this name, in whatever case of letters.
pub open spec fn stage_called(name: Seq<char>) -> spec_fn(MaterialStage) -> bool {
    |s: MaterialStage| text::same_ignoring_case(s.name()@, name)
}

impl MaterialStage {
    /// Every stage, by index.
    pub const ALL: [MaterialStage; 4] = [
        MaterialStage::FORWARD_LIT,
        MaterialStage::GBUFFER,
        MaterialStage::DEPTH_ONLY,
        MaterialStage::SHADOW,
    ];

    /// The stage at an index.
    pub fn from_index(index: usize) -> (r: Option<Self>)
        ensures
            r is Some <==> index < Self::ALL@.len(),
            r is Some ==> r->0 == Self::ALL@[index as int] && r->0.index() == index,
    {
        if index == 0 {
            Some(MaterialStage::FORWARD_LIT)
        } else if index == 1 {
            Some(MaterialStage::GBUFFER)
        } else if index == 2 {
            Some(MaterialStage::DEPTH_ONLY)
        } else if index == 3 {
            Some(MaterialStage::SHADOW)
        } else {
            None
        }
    }

    /// The index of the stage's row.
    #[verifier::allow_in_spec]
    pub fn index(self) -> usize
        returns
            (match self {
                MaterialStage::FORWARD_LIT => 0usize,
                MaterialStage::GBUFFER => 1usize,
                MaterialStage::DEPTH_ONLY => 2usize,
                MaterialStage::SHADOW => 3usize,
            }),
    {
        match self {
            MaterialStage::FORWARD_LIT => 0,
            MaterialStage::GBUFFER => 1,
            MaterialStage::DEPTH_ONLY => 2,
            MaterialStage::SHADOW => 3,
        }
    }

    /// The stage's row.
    #[verifier::allow_in_spec]
    pub fn desc(self) -> MaterialStageDesc
        returns
            material_stages()@[self.index() as int],
    {
        material_stages()[self.index()]
    }

    /// The stage's name, as documents spell it.
    #[verifier::allow_in_spec]
    pub fn name(self) -> &'static str
        returns
            self.desc().name,
    {
        self.desc().name
    }

    /// The stage of a name, in whatever case of letters and with white space
    /// around it or not.
    pub fn parse(text: &str) -> (r: Option<Self>)
        ensures
            r == lists::first_where(Self::ALL@, stage_called(text::trimmed(text@))),
    {
        let name = trim(text);
        let ghost s = Self::ALL@;
        let ghost p = stage_called(name@);
        let mut i: usize = 0;
        assert(s.skip(0) == s);
        while i < 4
            invariant
                i <= 4 == s.len(),
                s == Self::ALL@,
                name@ == text::trimmed(text@),
                p == stage_called(name@),
                lists::first_where(s, p) == lists::first_where(s.skip(i as int), p),
            decreases 4 - i,
        {
            proof {
                lists::lemma_first_where_skip(s, p, i as int);
            }
            let stage = MaterialStage::from_index(i).unwrap();
            if is_same_ignoring_case(stage.name(), name) {
                return Some(stage);
            }
            i += 1;
        }
        None
    }

    /// The fragment entry point of the stage's module.
    #[verifier::allow_in_spec]
    pub fn fragment_entry(self) -> &'static str
        returns
            self.desc().fragment_entry,
    {
        self.desc().fragment_entry
    }

    /// Whether the stage evaluates the surface at all.
    #[verifier::allow_in_spec]
    pub fn needs_surface(self) -> bool
        returns
            self.output() != StageOutput::Nothing,
    {
        self.output() != StageOutput::Nothing
    }

    /// What the stage's fragment stage writes.
    #[verifier::allow_in_spec]
    pub fn output(self) -> StageOutput
        returns
            self.desc().output,
    {
        self.desc().output
    }

    /// The number of colour targets of the stage.
    #[verifier::allow_in_spec]
    pub fn color_targets(self) -> usize
        returns
            self.output().color_targets(),
    {
        self.output().color_targets()
    }
}

/// A stage is found again by its own name.
pub proof fn stage_names_round_trip(stage: MaterialStage)
    ensures
        lists::first_where(MaterialStage::ALL@, stage_called(text::trimmed(stage.name()@))) == Some(stage),
{
    reveal_strlit("forward_lit");
    reveal_strlit("gbuffer");
    reveal_strlit("depth_only");
    reveal_strlit("shadow");
    let s = MaterialStage::ALL@;
    let p = stage_called(text::trimmed(stage.name()@));
    assert(text::trimmed(stage.name()@) == stage.name()@);
    assert("forward_lit"@.len() == 11 && "gbuffer"@.len() == 7 && "depth_only"@.len() == 10
        && "shadow"@.len() == 6);
    reveal_with_fuel(lists::first_where, 5);
    assert(s.skip(1)[0] == s[1]);
    assert(s.skip(1).skip(1)[0] == s[2]);
    assert(s.skip(1).skip(1).skip(1)[0] == s[3]);
}

/// A stage writes colour exactly where it evaluates the surface.
pub proof fn surface_stages_write_color(stage: MaterialStage)
    ensures
        stage.needs_surface() <==> stage.color_targets() > 0,
        stage.output() == StageOutput::GBuffer ==> stage.color_targets()
            == gbuffer_base_targets()@.len(),
{
}

/// The id of the node that reads a context field.
pub fn context_node_id(field: &str) -> (r: String)
    ensures
        r@ == "input."@ + field@,
{
    let mut r = "input.".to_owned();
    r.append(field);
    r
}

/// The input of the surface output for a field.
pub open spec fn surface_socket(f: SurfaceField) -> SocketView {
    SocketView {
        doc: f.doc@,
        optional: true,
        default: f.editable_default,
        ..node::plain_socket(f.name@, f.ty)
    }
}

/// The kind of node that a material's surface is.
pub open spec fn surface_output_view() -> NodeDefinitionView {
    NodeDefinitionView {
        category: "output"@,
        doc: "The material a graph produces. Unconnected inputs keep their default: the geometric normal for `normal`, the value shown in the editor for the rest."@,
        inputs: Seq::new(7, |i: int| surface_socket(surface_fields()@[i])),
        body: NodeBodyView::SurfaceOutput,
        ..node::bare_definition(SURFACE_OUTPUT_ID@, "Surface output"@)
    }
}

proof fn lemma_surface_names()
    ensures
        forall|i: int| 0 <= i < 7 ==> wxsl::is_ident((#[trigger] surface_fields()@[i]).name@),
        forall|i: int, j: int|
            0 <= i < j < 7 ==> (#[trigger] surface_fields()@[i]).name@ != (
            #[trigger] surface_fields()@[j]).name@,
        forall|i: int|
            0 <= i < 7 && (#[trigger] surface_fields()@[i]).editable_default is Some
                ==> surface_fields()@[i].editable_default->0.ty() == surface_fields()@[i].ty,
{
    reveal_strlit("base_color");
    reveal_strlit("metallic");
    reveal_strlit("roughness");
    reveal_strlit("normal");
    reveal_strlit("emissive");
    reveal_strlit("occlusion");
    reveal_strlit("alpha");
    let f = surface_fields()@;
    assert(f[0].name@ == "base_color"@ && f[1].name@ == "metallic"@ && f[2].name@ == "roughness"@
        && f[3].name@ == "normal"@ && f[4].name@ == "emissive"@ && f[5].name@ == "occlusion"@
        && f[6].name@ == "alpha"@);
    assert("metallic"@[0] != "emissive"@[0]);
    assert("roughness"@[0] != "occlusion"@[0]);
    assert(wxsl::is_ident("base_color"@) && wxsl::is_ident("metallic"@) && wxsl::is_ident("roughness"@) && wxsl::is_ident(
        "normal"@,
    ) && wxsl::is_ident("emissive"@) && wxsl::is_ident("occlusion"@) && wxsl::is_ident("alpha"@));
}

/// The kind of node that a material's surface is.
pub fn surface_output_def() -> (r: NodeDefinition)
    ensures
        r@ == surface_output_view(),
{
    proof {
        lemma_surface_names();
    }
    let fields = surface_fields();
    let mut builder = NodeDefinition::builder(SURFACE_OUTPUT_ID, "Surface output").category(
        "output",
    ).doc(
        "The material a graph produces. Unconnected inputs keep their default: the geometric normal for `normal`, the value shown in the editor for the rest.",
    );
    let ghost start = builder@;
    let ghost all = surface_output_view().inputs;
    let mut i: usize = 0;
    assert(builder@ == (NodeDefinitionView { inputs: all.take(0), ..start }));
    while i < 7
        invariant
            i <= 7,
            fields@ == surface_fields()@,
            all == surface_output_view().inputs,
            builder@ == (NodeDefinitionView { inputs: all.take(i as int), ..start }),
        decreases 7 - i,
    {
        proof {
            lemma_surface_names();
            assert forall|j: int| 0 <= j < i implies !(node::socket_named(
                fields@[i as int].name@,
            ))(#[trigger] all.take(i as int)[j]) by {
                assert(all[j].name == surface_fields()@[j].name@);
            }
            lists::lemma_absent(all.take(i as int), node::socket_named(fields@[i as int].name@));
        }
        let field = fields[i];
        let mut socket = Socket::new(field.name, field.ty).with_doc(field.doc).optional();
        if let Some(default) = field.editable_default {
            socket = socket.with_default(default);
        }
        assert(socket@ == surface_socket(field));
        builder = builder.input(socket);
        assert(all.take(i + 1) =~= all.take(i as int).push(all[i as int]));
        i += 1;
    }
    assert(all.take(7) =~= all);
    proof {
        assert forall|j: int| 0 <= j < 7 implies node::params_declared(
            surface_output_view(),
            #[trigger] all[j],
        ) by {}
    }
    builder.surface_output()
}

/// The output of a node that reads a field.
pub open spec fn field_socket(f: ContextField) -> SocketView {
    SocketView { doc: f.doc@, ..node::plain_socket("out"@, f.ty) }
}

/// The kind of node that reads a field of the fragment's context.
pub open spec fn context_def(f: ContextField) -> NodeDefinitionView {
    NodeDefinitionView {
        category: "input"@,
        doc: f.doc@,
        outputs: seq![field_socket(f)],
        body: NodeBodyView::ContextRead(f.name@),
        ..node::bare_definition("input."@ + f.name@, f.label@)
    }
}

/// The kind of node that reads a field only the vertex stage has.
pub open spec fn vertex_context_def(f: ContextField) -> NodeDefinitionView {
    NodeDefinitionView {
        body: NodeBodyView::VertexContextRead(f.name@),
        ..context_def(f)
    }
}

proof fn lemma_context_names()
    ensures
        forall|i: int| 0 <= i < 7 ==> wxsl::is_ident((#[trigger] context_fields()@[i]).name@),
        forall|i: int| 0 <= i < 2 ==> wxsl::is_ident((#[trigger] vertex_only_fields()@[i]).name@),
{
    reveal_strlit("world_position");
    reveal_strlit("world_normal");
    reveal_strlit("world_tangent");
    reveal_strlit("world_bitangent");
    reveal_strlit("view_direction");
    reveal_strlit("uv");
    reveal_strlit("time");
    reveal_strlit("object_position");
    reveal_strlit("object_normal");
    let f = context_fields()@;
    let v = vertex_only_fields()@;
    assert(f[0].name@ == "world_position"@ && f[1].name@ == "world_normal"@ && f[2].name@
        == "world_tangent"@ && f[3].name@ == "world_bitangent"@ && f[4].name@ == "view_direction"@
        && f[5].name@ == "uv"@ && f[6].name@ == "time"@);
    assert(v[0].name@ == "object_position"@ && v[1].name@ == "object_normal"@);
    assert(wxsl::is_ident("world_position"@) && wxsl::is_ident("world_normal"@) && wxsl::is_ident("world_tangent"@)
        && wxsl::is_ident("world_bitangent"@) && wxsl::is_ident("view_direction"@) && wxsl::is_ident("uv"@)
        && wxsl::is_ident("time"@));
    assert(wxsl::is_ident("object_position"@) && wxsl::is_ident("object_normal"@));
}

/// The kinds of node that read the fragment's context, one per field.
pub fn context_node_defs() -> (r: Vec<NodeDefinition>)
    ensures
        text::seq_of(r@) == Seq::new(7, |i: int| context_def(context_fields()@[i])),
{
    let fields = context_fields();
    let mut r: Vec<NodeDefinition> = Vec::new();
    let mut i: usize = 0;
    while i < 7
        invariant
            i <= 7,
            fields@ == context_fields()@,
            r@.len() == i,
            forall|j: int| 0 <= j < i ==> (#[trigger] r@[j])@ == context_def(fields@[j]),
        decreases 7 - i,
    {
        let field = fields[i];
        proof {
            lemma_context_names();
            reveal_strlit("out");
        }
        let builder = NodeDefinition::builder(
            context_node_id(field.name).as_str(),
            field.label,
        ).category("input").doc(field.doc).output(
            Socket::new("out", field.ty).with_doc(field.doc),
        );
        assert(builder@.outputs =~= seq![field_socket(field)]);
        let def = builder.context_read(field.name);
        r.push(def);
        i += 1;
    }
    assert(text::seq_of(r@) =~= Seq::new(7, |i: int| context_def(context_fields()@[i])));
    r
}

/// The kinds of node that read what only the vertex stage has.
pub fn vertex_context_node_defs() -> (r: Vec<NodeDefinition>)
    ensures
        text::seq_of(r@) == Seq::new(2, |i: int| vertex_context_def(vertex_only_fields()@[i])),
{
    let fields = vertex_only_fields();
    let mut r: Vec<NodeDefinition> = Vec::new();
    let mut i: usize = 0;
    while i < 2
        invariant
            i <= 2,
            fields@ == vertex_only_fields()@,
            r@.len() == i,
            forall|j: int| 0 <= j < i ==> (#[trigger] r@[j])@ == vertex_context_def(fields@[j]),
        decreases 2 - i,
    {
        let field = fields[i];
        proof {
            lemma_context_names();
            reveal_strlit("out");
        }
        let builder = NodeDefinition::builder(
            context_node_id(field.name).as_str(),
            field.label,
        ).category("input").doc(field.doc).output(
            Socket::new("out", field.ty).with_doc(field.doc),
        );
        assert(builder@.outputs =~= seq![field_socket(field)]);
        let def = builder.vertex_context_read(field.name);
        r.push(def);
        i += 1;
    }
    assert(text::seq_of(r@) =~= Seq::new(2, |i: int| vertex_context_def(vertex_only_fields()@[i])));
    r
}

/// The kind of node that moves a vertex.
pub open spec fn vertex_output_view() -> NodeDefinitionView {
    NodeDefinitionView {
        category: "output"@,
        doc: "Moves the vertex, in object space, before it is transformed. The one place a material graph runs in the vertex stage — so everything feeding it is compiled there too, including into a shadow pass, which is what makes a displaced object cast a displaced shadow."@,
        inputs: seq![
            SocketView {
                doc: "Object-space offset added to the vertex position."@,
                default: value::zero_of(ValueType::Vec3),
                optional: true,
                ..node::plain_socket(SOCKET_POSITION_OFFSET@, ValueType::Vec3)
            },
        ],
        body: NodeBodyView::VertexOutput,
        ..node::bare_definition(VERTEX_OUTPUT_ID@, "Vertex output"@)
    }
}

/// The kind of node that moves a vertex.
pub fn vertex_output_def() -> (r: NodeDefinition)
    ensures
        r@ == vertex_output_view(),
{
    proof {
        reveal_strlit("position_offset");
    }
    let z = Float::zero();
    let builder = NodeDefinition::builder(VERTEX_OUTPUT_ID, "Vertex output").category("output").doc(
        "Moves the vertex, in object space, before it is transformed. The one place a material graph runs in the vertex stage — so everything feeding it is compiled there too, including into a shadow pass, which is what makes a displaced object cast a displaced shadow.",
    ).input(
        Socket::new(SOCKET_POSITION_OFFSET, ValueType::Vec3).with_doc(
            "Object-space offset added to the vertex position.",
        ).with_default(Value::Vec3([z, z, z])).optional(),
    );
    assert(builder@.inputs =~= vertex_output_view().inputs);
    builder.vertex_output()
}

/// The kind of node that computes a declared interpolant.
pub open spec fn varying_output_view() -> NodeDefinitionView {
    NodeDefinitionView {
        category: "output"@,
        doc: "Computes one declared interpolant in the vertex stage, to be read per fragment. The graph declares the name and the type; this says what goes in it. Each interpolant costs one of the 16 inter-stage locations, and the graph is told when it runs out."@,
        settings: seq![
            SettingDefView {
                name: SETTING_NAME@,
                label: "name"@,
                doc: "Which declared interpolant this writes."@,
                default: "value"@,
            },
        ],
        generics: seq![GenericParamView { name: "T"@, allowed: INTERPOLANT_TYPES@ }],
        inputs: seq![
            SocketView {
                doc: "What the vertex stage computes for this interpolant."@,
                generic: Some("T"@),
                optional: true,
                ..node::plain_socket(SOCKET_VARYING@, ValueType::F32)
            },
        ],
        body: NodeBodyView::VaryingOutput,
        ..node::bare_definition(VARYING_OUTPUT_ID@, "Interpolant output"@)
    }
}

/// The types a value can have that is interpolated between the stages.
pub fn interpolant_types() -> (r: Vec<ValueType>)
    ensures
        r@ == INTERPOLANT_TYPES@,
{
    let mut r: Vec<ValueType> = Vec::new();
    r.push(ValueType::F32);
    r.push(ValueType::Vec2);
    r.push(ValueType::Vec3);
    r.push(ValueType::Vec4);
    assert(r@ =~= INTERPOLANT_TYPES@);
    r
}

/// Whether a value of a type can be interpolated between the stages.
pub fn is_interpolant_type(ty: ValueType) -> (r: bool)
    ensures
        r == INTERPOLANT_TYPES@.contains(ty),
{
    let r = ty.is_float();
    proof {
        let t = INTERPOLANT_TYPES@;
        assert(t[0] is F32 && t[1] is Vec2 && t[2] is Vec3 && t[3] is Vec4);
    }
    r
}

/// The kind of node that computes a declared interpolant.
pub fn varying_output_def() -> (r: NodeDefinition)
    ensures
        r@ == varying_output_view(),
{
    proof {
        reveal_strlit("value");
        reveal_strlit("name");
        reveal_strlit("T");
    }
    let builder = NodeDefinition::builder(VARYING_OUTPUT_ID, "Interpolant output").category(
        "output",
    ).doc(
        "Computes one declared interpolant in the vertex stage, to be read per fragment. The graph declares the name and the type; this says what goes in it. Each interpolant costs one of the 16 inter-stage locations, and the graph is told when it runs out.",
    ).setting(
        SettingDef::new(
            SETTING_NAME,
            "name",
            "Which declared interpolant this writes.",
        ).with_default("value"),
    ).generic_param(GenericParam::new("T", interpolant_types())).input(
        Socket::new(SOCKET_VARYING, ValueType::F32).with_doc(
            "What the vertex stage computes for this interpolant.",
        ).generic("T").optional(),
    );
    assert(builder@.inputs =~= varying_output_view().inputs);
    assert(builder@.generics =~= varying_output_view().generics);
    assert(builder@.settings =~= varying_output_view().settings);
    proof {
        reveal_with_fuel(lists::first_where, 2);
    }
    builder.varying_output()
}

/// The kind of node that drops a fragment.
pub open spec fn discard_output_view() -> NodeDefinitionView {
    NodeDefinitionView {
        category: "output"@,
        doc: "Throws the fragment away when true, writing neither colour nor depth. This is the only part of a material a depth or shadow pass compiles, so keep what feeds it cheap."@,
        inputs: seq![
            SocketView {
                doc: "Discard the fragment when true."@,
                default: Some(Value::Bool(false)),
                optional: true,
                ..node::plain_socket(SOCKET_DISCARD@, ValueType::Bool)
            },
        ],
        body: NodeBodyView::DiscardOutput,
        ..node::bare_definition(DISCARD_OUTPUT_ID@, "Discard"@)
    }
}

/// The kind of node that drops a fragment.
pub fn discard_output_def() -> (r: NodeDefinition)
    ensures
        r@ == discard_output_view(),
{
    proof {
        reveal_strlit("discard");
    }
    let builder = NodeDefinition::builder(DISCARD_OUTPUT_ID, "Discard").category("output").doc(
        "Throws the fragment away when true, writing neither colour nor depth. This is the only part of a material a depth or shadow pass compiles, so keep what feeds it cheap.",
    ).input(
        Socket::new(SOCKET_DISCARD, ValueType::Bool).with_doc(
            "Discard the fragment when true.",
        ).with_default(Value::Bool(false)).optional(),
    );
    assert(builder@.inputs =~= discard_output_view().inputs);
    builder.discard_output()
}

} // verus!
