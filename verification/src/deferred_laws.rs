//! What holds of deferred shading as a whole: what a material packs is what the
//! lighting pass reads back, and every model of a set is reached.

use vstd::prelude::*;

use crate::abi;
use crate::abi::{GBufferPrecision, GBufferTarget};
use crate::lighting;
use crate::lighting::{DispatchView, LightingModel, ModelExtra};
use crate::module_laws;
use crate::text;

verus! {

broadcast proof fn lemma_occurs_further(source: Seq<char>, more: Seq<char>, piece: Seq<char>)
    requires
        module_laws::occurs(source, piece),
    ensures
        #[trigger] module_laws::occurs(source + more, piece),
{
    let before = choose|before: Seq<char>| text::begins(source, #[trigger] (before + piece));
    text::lemma_begins_further(source, before + piece, more);
}

broadcast proof fn lemma_occurs_behind(before: Seq<char>, piece: Seq<char>)
    ensures
        #[trigger] module_laws::occurs(before + piece, piece),
{
    text::lemma_begins_itself(before + piece);
}

// ---------------------------------------------------------------------------
// Packing and reading back

/// The surface's field that the fourth channel of a target carries, where every
/// G-buffer has the target.
pub open spec fn fourth_field(target: Seq<char>) -> Seq<char> {
    if target == "base_color"@ {
        "metallic"@
    } else if target == "normal"@ {
        "roughness"@
    } else {
        "occlusion"@
    }
}

/// Whether every G-buffer has a target of this name. Its first three channels
/// carry the surface's field of the same name.
pub open spec fn is_base_target(target: Seq<char>) -> bool {
    target == "base_color"@ || target == "normal"@ || target == "emissive"@
}

/// What a surface's colour or direction goes into a target as.
pub open spec fn packed_colour(target: Seq<char>) -> Seq<char> {
    if target == "normal"@ {
        "normalize(surface."@ + target + ")"@
    } else {
        "surface."@ + target
    }
}

/// The line that reads the fourth channel of a target back.
pub open spec fn fourth_line(target: Seq<char>) -> Seq<char> {
    "    out.surface."@ + fourth_field(target) + " = "@ + target + ".a;\n"@
}

/// The line that reads the other channels of a target back.
pub open spec fn colour_line(target: Seq<char>) -> Seq<char> {
    "    out.surface."@ + target + " = "@ + (if target == "normal"@ {
        "normalize("@ + target + ".xyz)"@
    } else {
        target + ".rgb"@
    }) + ";\n"@
}

proof fn lemma_base_color()
    ensures
        lighting::base_packing("base_color"@) == Some(
            "vec4f("@ + packed_colour("base_color"@) + ", saturate(surface."@ + fourth_field("base_color"@) + "))"@,
        ),
        fourth_line("base_color"@) == "    out.surface.metallic = base_color.a;\n"@,
        colour_line("base_color"@) == "    out.surface.base_color = base_color.rgb;\n"@,
{
    reveal_strlit("base_color");
    reveal_strlit("normal");
    reveal_strlit("emissive");
    reveal_strlit("metallic");
    reveal_strlit("surface.");
    reveal_strlit("vec4f(");
    reveal_strlit(", saturate(surface.");
    reveal_strlit("))");
    reveal_strlit("vec4f(surface.base_color, saturate(surface.metallic))");
    reveal_strlit("    out.surface.");
    reveal_strlit(" = ");
    reveal_strlit(".a;\n");
    reveal_strlit(";\n");
    reveal_strlit("    out.surface.metallic = base_color.a;\n");
    reveal_strlit("    out.surface.base_color = base_color.rgb;\n");
    reveal_strlit(".rgb");
    assert("base_color"@.len() == 10);
    assert("normal"@.len() == 6);
    assert("emissive"@.len() == 8);
    assert("vec4f(surface.base_color, saturate(surface.metallic))"@ =~= "vec4f("@ + ("surface."@ + "base_color"@) + ", saturate(surface."@ + "metallic"@ + "))"@);
    assert("    out.surface.metallic = base_color.a;\n"@ =~= "    out.surface."@ + "metallic"@ + " = "@ + "base_color"@ + ".a;\n"@);
    assert("    out.surface.base_color = base_color.rgb;\n"@ =~= "    out.surface."@ + "base_color"@ + " = "@ + ("base_color"@ + ".rgb"@) + ";\n"@);
}

proof fn lemma_normal()
    ensures
        lighting::base_packing("normal"@) == Some(
            "vec4f("@ + packed_colour("normal"@) + ", saturate(surface."@ + fourth_field("normal"@) + "))"@,
        ),
        fourth_line("normal"@) == "    out.surface.roughness = normal.a;\n"@,
        colour_line("normal"@) == "    out.surface.normal = normalize(normal.xyz);\n"@,
{
    reveal_strlit("normal");
    reveal_strlit("base_color");
    reveal_strlit("emissive");
    reveal_strlit("roughness");
    reveal_strlit("surface.");
    reveal_strlit("vec4f(");
    reveal_strlit(", saturate(surface.");
    reveal_strlit("))");
    reveal_strlit("vec4f(normalize(surface.normal), saturate(surface.roughness))");
    reveal_strlit("    out.surface.");
    reveal_strlit(" = ");
    reveal_strlit(".a;\n");
    reveal_strlit(";\n");
    reveal_strlit("    out.surface.roughness = normal.a;\n");
    reveal_strlit("    out.surface.normal = normalize(normal.xyz);\n");
    reveal_strlit("normalize(");
    reveal_strlit(".xyz)");
    reveal_strlit("normalize(surface.");
    reveal_strlit(")");
    assert("base_color"@.len() == 10);
    assert("normal"@.len() == 6);
    assert("emissive"@.len() == 8);
    assert("vec4f(normalize(surface.normal), saturate(surface.roughness))"@ =~= "vec4f("@ + ("normalize(surface."@ + "normal"@ + ")"@) + ", saturate(surface."@ + "roughness"@ + "))"@);
    assert("    out.surface.roughness = normal.a;\n"@ =~= "    out.surface."@ + "roughness"@ + " = "@ + "normal"@ + ".a;\n"@);
    assert("    out.surface.normal = normalize(normal.xyz);\n"@ =~= "    out.surface."@ + "normal"@ + " = "@ + ("normalize("@ + "normal"@ + ".xyz)"@) + ";\n"@);
}

proof fn lemma_emissive()
    ensures
        lighting::base_packing("emissive"@) == Some(
            "vec4f("@ + packed_colour("emissive"@) + ", saturate(surface."@ + fourth_field("emissive"@) + "))"@,
        ),
        fourth_line("emissive"@) + "    out.surface.alpha = 1.0;\n"@
            == "    out.surface.occlusion = emissive.a;\n    out.surface.alpha = 1.0;\n"@,
        colour_line("emissive"@) == "    out.surface.emissive = emissive.rgb;\n"@,
{
    reveal_strlit("emissive");
    reveal_strlit("base_color");
    reveal_strlit("normal");
    reveal_strlit("occlusion");
    reveal_strlit("surface.");
    reveal_strlit("vec4f(");
    reveal_strlit(", saturate(surface.");
    reveal_strlit("))");
    reveal_strlit("vec4f(surface.emissive, saturate(surface.occlusion))");
    reveal_strlit("    out.surface.");
    reveal_strlit(" = ");
    reveal_strlit(".a;\n");
    reveal_strlit(";\n");
    reveal_strlit("    out.surface.occlusion = emissive.a;\n    out.surface.alpha = 1.0;\n");
    reveal_strlit("    out.surface.emissive = emissive.rgb;\n");
    reveal_strlit(".rgb");
    reveal_strlit("    out.surface.alpha = 1.0;\n");
    assert("base_color"@.len() == 10);
    assert("normal"@.len() == 6);
    assert("emissive"@.len() == 8);
    assert("vec4f(surface.emissive, saturate(surface.occlusion))"@ =~= "vec4f("@ + ("surface."@ + "emissive"@) + ", saturate(surface."@ + "occlusion"@ + "))"@);
    assert("    out.surface.occlusion = emissive.a;\n    out.surface.alpha = 1.0;\n"@ =~= "    out.surface."@ + "occlusion"@ + " = "@ + "emissive"@ + ".a;\n"@ + "    out.surface.alpha = 1.0;\n"@);
    assert("    out.surface.emissive = emissive.rgb;\n"@ =~= "    out.surface."@ + "emissive"@ + " = "@ + ("emissive"@ + ".rgb"@) + ";\n"@);
}

// What is written stays written

proof fn lemma_packed_further(
    out: Seq<char>,
    m: LightingModel,
    layout: Seq<GBufferTarget>,
    k: int,
    n: int,
    piece: Seq<char>,
)
    requires
        0 <= k <= n,
        module_laws::occurs(lighting::packed_lines(out, m, layout, k), piece),
    ensures
        module_laws::occurs(lighting::packed_lines(out, m, layout, n), piece),
    decreases n - k,
{
    broadcast use lemma_occurs_further;

    if k < n {
        lemma_packed_further(out, m, layout, k, n - 1, piece);
        let before = lighting::packed_lines(out, m, layout, n - 1);
        let head = before + "    out."@ + layout[n - 1].field@ + " = "@;
        assert(module_laws::occurs(head, piece));
        assert(module_laws::occurs(lighting::packed_value(head, m, layout[n - 1]), piece));
    }
}

/// What stands behind the name of a target where a material of a model fills it.
pub open spec fn fills_with(m: LightingModel, s: Seq<LightingModel>, target: Seq<char>, value: Seq<char>) -> bool {
    module_laws::occurs(
        lighting::packing_for(m, s).source,
        "    out."@ + target + " = "@ + value + ";\n"@,
    )
}

proof fn lemma_filled(m: LightingModel, s: Seq<LightingModel>, k: int, value: Seq<char>)
    requires
        0 <= k < lighting::layout_of(s).len(),
        forall|out: Seq<char>| #[trigger]
            lighting::packed_value(out, m, lighting::layout_of(s)[k]) == out + value,
    ensures
        fills_with(m, s, lighting::layout_of(s)[k].field@, value),
{
    broadcast use lemma_occurs_further;

    let layout = lighting::layout_of(s);
    let t = layout[k];
    let head = lighting::pack_head(lighting::gbuffer_struct_text(layout), s.len() > 1);
    let before = lighting::packed_lines(head, m, layout, k);
    let piece = "    out."@ + t.field@ + " = "@ + value + ";\n"@;
    let grown = before + "    out."@ + t.field@ + " = "@;
    assert(lighting::packed_lines(head, m, layout, k + 1) == lighting::packed_value(grown, m, t)
        + ";\n"@);
    assert(lighting::packed_value(grown, m, t) == grown + value);
    module_laws::lemma_behind_5(before, "    out."@, t.field@, " = "@, value, ";\n"@);
    lemma_occurs_behind(before, piece);
    lemma_packed_further(head, m, layout, k + 1, layout.len() as int, piece);
}

proof fn lemma_loads_further(out: Seq<char>, layout: Seq<GBufferTarget>, n: int, piece: Seq<char>)
    requires
        module_laws::occurs(out, piece),
    ensures
        module_laws::occurs(lighting::target_loads(out, layout, n), piece),
    decreases n,
{
    broadcast use lemma_occurs_further;

    if n > 0 {
        lemma_loads_further(out, layout, n - 1, piece);
    }
}

proof fn lemma_reads_further(out: Seq<char>, extras: Seq<ModelExtra>, n: int, piece: Seq<char>)
    requires
        module_laws::occurs(out, piece),
    ensures
        module_laws::occurs(lighting::extras_read(out, extras, n), piece),
    decreases n,
{
    broadcast use lemma_occurs_further;

    if n > 0 {
        lemma_reads_further(out, extras, n - 1, piece);
    }
}

proof fn lemma_passed_further(
    out: Seq<char>,
    extras: Seq<ModelExtra>,
    k: int,
    n: int,
    piece: Seq<char>,
)
    requires
        0 <= k <= n,
        module_laws::occurs(lighting::extras_passed(out, extras, k), piece),
    ensures
        module_laws::occurs(lighting::extras_passed(out, extras, n), piece),
    decreases n - k,
{
    broadcast use lemma_occurs_further;

    if k < n {
        lemma_passed_further(out, extras, k, n - 1, piece);
    }
}

proof fn lemma_params_further(out: Seq<char>, layout: Seq<GBufferTarget>, n: int, piece: Seq<char>)
    requires
        module_laws::occurs(out, piece),
    ensures
        module_laws::occurs(lighting::target_params(out, layout, n), piece),
    decreases n,
{
    broadcast use lemma_occurs_further;

    if n > 0 {
        lemma_params_further(out, layout, n - 1, piece);
    }
}

proof fn lemma_fields_further(
    out: Seq<char>,
    extras: Seq<ModelExtra>,
    n: int,
    piece: Seq<char>,
)
    requires
        module_laws::occurs(out, piece),
    ensures
        module_laws::occurs(lighting::extra_fields(out, extras, n), piece),
    decreases n,
{
    broadcast use lemma_occurs_further;

    if n > 0 {
        lemma_fields_further(out, extras, n - 1, piece);
    }
}

/// What stands in front of the function that reads the texels back.
spec fn before_reading(s: Seq<LightingModel>) -> Seq<char> {
    let imports = lighting::shading_for(lighting::pass_dispatch(s), true).imports;
    lighting::unpacked_struct(
        lighting::pass_vertex(
            lighting::pass_bindings(lighting::pass_head(s, imports), lighting::layout_of(s)),
        ),
        s,
    )
}

/// What is read back stands in the pass.
proof fn lemma_in_pass(s: Seq<LightingModel>, piece: Seq<char>)
    requires
        module_laws::occurs(
            lighting::unpack_fn_text(before_reading(s), s) + lighting::shading_for(
                lighting::pass_dispatch(s),
                true,
            ).source,
            piece,
        ),
    ensures
        module_laws::occurs(lighting::lighting_pass_text(s), piece),
{
    broadcast use lemma_occurs_further;

    let layout = lighting::layout_of(s);
    let extras = lighting::extras_of(s, s.len() as int);
    let out = lighting::unpack_fn_text(before_reading(s), s) + lighting::shading_for(
        lighting::pass_dispatch(s),
        true,
    ).source;
    let head = out + "\n@fragment\nfn "@ + abi::LIGHTING_PASS_FRAGMENT_ENTRY@
        + "(@builtin(position) position: vec4f) -> @location(0) vec4f {\n"@
        + "    let coord = vec2i(position.xy);\n"@
        + "    let depth = textureLoad(gbuffer_depth, coord, 0);\n"@
        + "    if depth >= 1.0 {\n        return scene.background;\n    }\n"@
        + "    let size = vec2f(textureDimensions(gbuffer_"@ + layout[0].field@ + "));\n"@
        + "    let ndc = vec2f(position.x / size.x * 2.0 - 1.0, 1.0 - position.y / size.y * 2.0);\n"@
        + "    let world = camera.inverse_view_projection * vec4f(ndc, depth, 1.0);\n"@
        + "    let unpacked = "@ + abi::UNPACK_GBUFFER_FN@ + "("@;
    assert(module_laws::occurs(head, piece));
    lemma_loads_further(head, layout, layout.len() as int, piece);
    let loaded = lighting::target_loads(head, layout, layout.len() as int);
    let shaded = loaded + ");\n    let basis = tangent_basis(unpacked.surface.normal);\n"@
        + "    var ctx: SurfaceContext;\n    ctx.world_position = world.xyz / world.w;\n"@
        + "    ctx.world_normal = unpacked.surface.normal;\n"@
        + "    ctx.world_tangent = basis[0];\n    ctx.world_bitangent = basis[1];\n"@
        + "    ctx.view_direction = normalize(camera.position.xyz - ctx.world_position);\n"@
        + "    ctx.time = scene.time;\n    return "@ + abi::SHADE_SURFACE_FN@ + "("@;
    assert(module_laws::occurs(shaded, piece));
    lemma_reads_further(
        shaded + "unpacked.surface, ctx, ModelExtras("@,
        extras,
        extras.len() as int,
        piece,
    );
    assert(module_laws::occurs(lighting::shade_args(shaded, s), piece));
    assert(lighting::lighting_pass_text(s) == lighting::shade_args(shaded, s) + ");\n}\n"@);
}

/// The reading function up to the values that models asked for.
spec fn surface_read(s: Seq<LightingModel>) -> Seq<char> {
    let layout = lighting::layout_of(s);
    lighting::target_params(
        before_reading(s) + "fn "@ + abi::UNPACK_GBUFFER_FN@ + "("@,
        layout,
        layout.len() as int,
    ) + ") -> UnpackedGBuffer {\n    var out: UnpackedGBuffer;\n"@
        + "    out.surface.base_color = base_color.rgb;\n"@
        + "    out.surface.metallic = base_color.a;\n"@
        + "    out.surface.normal = normalize(normal.xyz);\n"@
        + "    out.surface.roughness = normal.a;\n"@
        + "    out.surface.emissive = emissive.rgb;\n"@
        + "    out.surface.occlusion = emissive.a;\n    out.surface.alpha = 1.0;\n"@ + (
    if s.len() > 1 {
        "    out.model_id = u32(round(lighting * "@ + text::decimal(
            lighting::MODEL_ID_SCALE as nat,
        ) + "));\n"@
    } else {
        ""@
    })
}

proof fn lemma_read_in_pass(s: Seq<LightingModel>, piece: Seq<char>)
    requires
        module_laws::occurs(surface_read(s), piece),
    ensures
        module_laws::occurs(lighting::lighting_pass_text(s), piece),
{
    broadcast use lemma_occurs_further;

    let extras = lighting::extras_of(s, s.len() as int);
    lemma_passed_further(surface_read(s), extras, 0, extras.len() as int, piece);
    lemma_in_pass(s, piece);
}

/// Packing and reading back agree on the surface: the function by which a
/// material of any model fills the G-buffer puts two fields of the surface into
/// each target that every G-buffer has, and the lighting pass reads the same
/// two back from the same channels. The fourth channel of `base_color` is the
/// metallic, of `normal` the roughness, of `emissive` the occlusion.
pub proof fn surfaces_come_back_from_the_channels_they_went_to(
    m: LightingModel,
    s: Seq<LightingModel>,
    target: Seq<char>,
)
    requires
        is_base_target(target),
    ensures
        fills_with(
            m,
            s,
            target,
            "vec4f("@ + packed_colour(target) + ", saturate(surface."@ + fourth_field(target)
                + "))"@,
        ),
        module_laws::occurs(lighting::lighting_pass_text(s), fourth_line(target)),
        module_laws::occurs(lighting::lighting_pass_text(s), colour_line(target)),
{
    broadcast use {lemma_occurs_further, lemma_occurs_behind};

    lemma_base_color();
    lemma_normal();
    lemma_emissive();
    let layout = lighting::layout_of(s);
    let base = abi::gbuffer_base_targets()@;
    assert(layout.len() >= 3);
    assert(layout[0] == base[0]);
    assert(layout[1] == base[1]);
    assert(layout[2] == base[2]);
    let k: int = if target == "base_color"@ {
        0
    } else if target == "normal"@ {
        1
    } else {
        2
    };
    assert(layout[k].field@ == target);
    let value = "vec4f("@ + packed_colour(target) + ", saturate(surface."@ + fourth_field(target)
        + "))"@;
    assert(lighting::base_packing(target) == Some(value));
    lemma_filled(m, s, k, value);
    assert(module_laws::occurs(surface_read(s), colour_line(target)));
    if k == 2 {
        let alpha = "    out.surface.alpha = 1.0;\n"@;
        let both = fourth_line(target) + alpha;
        let before = lighting::target_params(
            before_reading(s) + "fn "@ + abi::UNPACK_GBUFFER_FN@ + "("@,
            layout,
            layout.len() as int,
        ) + ") -> UnpackedGBuffer {\n    var out: UnpackedGBuffer;\n"@
            + "    out.surface.base_color = base_color.rgb;\n"@
            + "    out.surface.metallic = base_color.a;\n"@
            + "    out.surface.normal = normalize(normal.xyz);\n"@
            + "    out.surface.roughness = normal.a;\n"@
            + "    out.surface.emissive = emissive.rgb;\n"@;
        text::lemma_assoc(before, fourth_line(target), alpha);
        assert(module_laws::occurs(before + fourth_line(target) + alpha, fourth_line(target)));
    }
    assert(module_laws::occurs(surface_read(s), fourth_line(target)));
    lemma_read_in_pass(s, colour_line(target));
    lemma_read_in_pass(s, fourth_line(target));
}


// ---------------------------------------------------------------------------
// The id of the model, and what models ask for

proof fn lemma_id_is_no_base_target()
    ensures
        lighting::base_packing("lighting"@) is None,
{
    reveal_strlit("lighting");
    reveal_strlit("base_color");
    reveal_strlit("normal");
    reveal_strlit("emissive");
    assert("lighting"@[0] == 'l');
    assert("base_color"@[0] == 'b');
    assert("normal"@[0] == 'n');
    assert("emissive"@[0] == 'e');
}

/// The id comes back as it was: what it is divided by to travel is what it is
/// multiplied by again.
pub proof fn model_ids_come_back(m: LightingModel, s: Seq<LightingModel>)
    requires
        s.len() > 1,
    ensures
        exists|scale: nat| #[trigger] scales_by(m, s, scale),
{
    broadcast use {lemma_occurs_further, lemma_occurs_behind};

    let layout = lighting::layout_of(s);
    let scale = lighting::MODEL_ID_SCALE as nat;
    let value = "f32(model_id) / "@ + text::decimal(scale);
    let t = lighting::model_id_target();
    assert(layout[3] == t);
    lemma_id_is_no_base_target();
    assert forall|out: Seq<char>| #[trigger] lighting::packed_value(out, m, t) == out + value by {
        text::lemma_assoc(out, "f32(model_id) / "@, text::decimal(scale));
    }
    lemma_filled(m, s, 3, value);
    let line = "    out.model_id = u32(round(lighting * "@ + text::decimal(scale) + "));\n"@;
    assert(module_laws::occurs(surface_read(s), line));
    lemma_read_in_pass(s, line);
    assert(scales_by(m, s, scale));
}

/// Whether an id travels divided by a number and is multiplied by it again.
pub open spec fn scales_by(m: LightingModel, s: Seq<LightingModel>, scale: nat) -> bool {
    &&& fills_with(m, s, "lighting"@, "f32(model_id) / "@ + text::decimal(scale))
    &&& module_laws::occurs(
        lighting::lighting_pass_text(s),
        "    out.model_id = u32(round(lighting * "@ + text::decimal(scale) + "));\n"@,
    )
}

/// As many channels of four as a target has.
pub open spec fn channels_kept(t: GBufferTarget) -> Seq<char> {
    match t.precision {
        GBufferPrecision::NormalizedScalar => ".x"@,
        GBufferPrecision::HighDynamicRangePair => ".xy"@,
        _ => ""@,
    }
}

/// Nothing, in as many channels as a target has.
pub open spec fn nothing_in(t: GBufferTarget) -> Seq<char> {
    match t.precision {
        GBufferPrecision::NormalizedScalar => "0.0"@,
        GBufferPrecision::HighDynamicRangePair => "vec2f(0.0)"@,
        _ => "vec4f(0.0)"@,
    }
}

/// Whether a name is none that a target has without being asked for.
pub open spec fn is_own_name(field: Seq<char>) -> bool {
    !is_base_target(field) && field != "lighting"@
}

proof fn lemma_extras_listed(s: Seq<LightingModel>, k: int, n: int) -> (i: int)
    requires
        0 <= k < n <= s.len(),
        s[k].extra is Some,
    ensures
        0 <= i < lighting::extras_of(s, n).len(),
        lighting::extras_of(s, n)[i] == s[k].extra->0,
    decreases n,
{
    if k == n - 1 {
        lighting::extras_of(s, n).len() - 1
    } else {
        lemma_extras_listed(s, k, n - 1)
    }
}

/// What a model asks the G-buffer to carry is carried: its own materials fill
/// the target through its packing function, materials of models that ask for
/// no target of that name leave it empty, and the lighting pass reads it back
/// under the same name.
pub proof fn extras_are_carried(s: Seq<LightingModel>, k: int, m: LightingModel)
    requires
        0 <= k < s.len(),
        s[k].extra is Some,
        is_own_name(s[k].extra->0.target.field@),
    ensures
        ({
            let e = s[k].extra->0;
            let field = e.target.field@;
            &&& fills_with(
                s[k],
                s,
                field,
                e.pack@ + "(surface)"@ + channels_kept(e.target),
            )
            &&& (m.extra matches Some(other) ==> other.target.field@ != field) ==> fills_with(
                m,
                s,
                field,
                nothing_in(e.target),
            )
            &&& module_laws::occurs(
                lighting::lighting_pass_text(s),
                "    out."@ + field + " = "@ + field + ";\n"@,
            )
        }),
{
    broadcast use lemma_occurs_further;

    let e = s[k].extra->0;
    let field = e.target.field@;
    let layout = lighting::layout_of(s);
    let n = s.len() as int;
    let extras = lighting::extras_of(s, n);
    let i = lemma_extras_listed(s, k, n);
    let base: int = if s.len() > 1 {
        4
    } else {
        3
    };
    assert(layout[base + i] == e.target);
    let own = e.pack@ + "(surface)"@ + channels_kept(e.target);
    assert(channels_kept(e.target) == lighting::leading_channels(e.target.precision.channels()));
    assert(nothing_in(e.target) == lighting::zero_channels(e.target.precision.channels()));
    assert forall|out: Seq<char>| #[trigger]
        lighting::packed_value(out, s[k], e.target) == out + own by {
        module_laws::lemma_behind_3(out, e.pack@, "(surface)"@, channels_kept(e.target));
    }
    lemma_filled(s[k], s, base + i, own);
    if m.extra matches Some(other) ==> other.target.field@ != field {
        lemma_filled(m, s, base + i, nothing_in(e.target));
    }
    let line = "    out."@ + field + " = "@ + field + ";\n"@;
    let start = surface_read(s);
    let before = lighting::extras_passed(start, extras, i);
    assert(lighting::extras_passed(start, extras, i + 1) == before + "    out."@ + field + " = "@
        + field + ";\n"@);
    module_laws::lemma_behind_5(before, "    out."@, field, " = "@, field, ";\n"@);
    lemma_occurs_behind(before, line);
    lemma_passed_further(start, extras, i + 1, extras.len() as int, line);
    lemma_in_pass(s, line);
}

// ---------------------------------------------------------------------------
// Dispatch

/// What a model is handed as its extra: its own target, widened to four
/// channels, or nothing.
pub open spec fn handed(m: LightingModel) -> Seq<char> {
    match m.extra {
        None => "vec4f(0.0)"@,
        Some(e) => match e.target.precision {
            GBufferPrecision::NormalizedScalar => "vec4f(extras."@ + e.target.field@
                + ", 0.0, 0.0, 0.0)"@,
            GBufferPrecision::HighDynamicRangePair => "vec4f(extras."@ + e.target.field@
                + ", 0.0, 0.0)"@,
            _ => "extras."@ + e.target.field@,
        },
    }
}

/// The arm by which the shading of a set reaches a model.
pub open spec fn arm(m: LightingModel) -> Seq<char> {
    "        case "@ + text::decimal(m.id as nat) + "u: { return "@ + m.function@
        + "(surface, ctx, light, "@ + handed(m) + "); }\n"@
}

proof fn lemma_handed(out: Seq<char>, m: LightingModel)
    ensures
        lighting::handed_extra(out, m) == out + handed(m),
{
    match m.extra {
        None => {},
        Some(e) => {
            module_laws::lemma_behind_3(
                out,
                "vec4f(extras."@,
                e.target.field@,
                ", 0.0, 0.0, 0.0)"@,
            );
            module_laws::lemma_behind_3(out, "vec4f(extras."@, e.target.field@, ", 0.0, 0.0)"@);
            module_laws::lemma_behind_2(out, "extras."@, e.target.field@);
        },
    }
}

proof fn lemma_arms(out: Seq<char>, s: Seq<LightingModel>, k: int, n: int)
    requires
        0 <= k < n <= s.len(),
    ensures
        module_laws::occurs(lighting::switch_arms(out, s, n), arm(s[k])),
    decreases n,
{
    broadcast use lemma_occurs_further;

    let m = s[n - 1];
    let before = lighting::switch_arms(out, s, n - 1);
    let head = before + "        case "@ + text::decimal(m.id as nat) + "u: { return "@
        + m.function@ + "(surface, ctx, light, "@;
    lemma_handed(head, m);
    assert(lighting::switch_arms(out, s, n) == head + handed(m) + "); }\n"@);
    if k == n - 1 {
        module_laws::lemma_behind_7(
            before,
            "        case "@,
            text::decimal(m.id as nat),
            "u: { return "@,
            m.function@,
            "(surface, ctx, light, "@,
            handed(m),
            "); }\n"@,
        );
        lemma_occurs_behind(before, arm(m));
    } else {
        lemma_arms(out, s, k, n - 1);
        assert(module_laws::occurs(head, arm(s[k])));
    }
}

proof fn lemma_shading_further(out: Seq<char>, d: DispatchView, piece: Seq<char>)
    requires
        module_laws::occurs(out, piece),
    ensures
        module_laws::occurs(lighting::shade_fn_text(out, d), piece),
{
    broadcast use lemma_occurs_further;

    let head = out + "fn "@ + abi::SHADE_SURFACE_FN@ + "(surface: "@ + abi::SURFACE_STRUCT@
        + ", ctx: "@ + abi::CONTEXT_STRUCT@ + lighting::shading_params(d) + ") -> vec4f {\n"@;
    assert(module_laws::occurs(head, piece));
    assert(module_laws::occurs(lighting::extra_declared(head, d), piece));
}

/// Shading that dispatches reaches every model of its set under the id of that
/// model, by its function, with what that model asked the G-buffer to carry.
pub proof fn every_model_is_reached_by_its_id(s: Seq<LightingModel>, k: int, declare_macros: bool)
    requires
        0 <= k < s.len(),
    ensures
        module_laws::occurs(
            lighting::shading_source(DispatchView::Switch(s), declare_macros),
            arm(s[k]),
        ),
{
    broadcast use lemma_occurs_further;

    let d = DispatchView::Switch(s);
    let out = if declare_macros {
        lighting::shading_macros(lighting::shading_header())
    } else {
        lighting::shading_header()
    };
    let extras = lighting::extras_of(s, s.len() as int);
    let fields = lighting::extra_fields(
        out + "struct ModelExtras {\n"@,
        extras,
        extras.len() as int,
    ) + "}\n\n"@;
    let head = lighting::dispatch_head(fields)
        + "extras: ModelExtras, model_id: u32) -> vec3f {\n    switch model_id {\n"@;
    lemma_arms(head, s, k, s.len() as int);
    lemma_shading_further(lighting::dispatch_text(out, d), d, arm(s[k]));
}

/// The lighting pass over several models holds the arm of each.
pub proof fn the_pass_reaches_every_model(s: Seq<LightingModel>, k: int)
    requires
        s.len() > 1,
        0 <= k < s.len(),
    ensures
        module_laws::occurs(lighting::lighting_pass_text(s), arm(s[k])),
{
    every_model_is_reached_by_its_id(s, k, true);
    let shading = lighting::shading_for(lighting::pass_dispatch(s), true).source;
    let front = lighting::unpack_fn_text(before_reading(s), s);
    let before = choose|before: Seq<char>|
        text::begins(shading, #[trigger] (before + arm(s[k])));
    let start = before + arm(s[k]);
    assert((front + shading).take((front.len() + start.len()) as int) =~= front + shading.take(
        start.len() as int,
    ));
    assert(front + start =~= (front + before) + arm(s[k]));
    assert(module_laws::occurs(front + shading, arm(s[k])));
    lemma_in_pass(s, arm(s[k]));
}

/// Shading by one model calls its function for each light, and works out first
/// what that model would pack.
pub proof fn one_model_is_called_directly(m: LightingModel, declare_macros: bool)
    ensures
        ({
            let source = lighting::shading_source(DispatchView::Direct(m), declare_macros);
            &&& module_laws::occurs(
                source,
                "extra: vec4f) -> vec3f {\n    return "@ + m.function@
                    + "(surface, ctx, light, extra);\n}\n\n"@,
            )
            &&& module_laws::occurs(
                source,
                match m.extra {
                    Some(e) => "    let model_extra = "@ + e.pack@ + "(surface);\n"@,
                    None => "    let model_extra = vec4f(0.0);\n"@,
                },
            )
        }),
{
    broadcast use lemma_occurs_further;

    let d = DispatchView::Direct(m);
    let out = if declare_macros {
        lighting::shading_macros(lighting::shading_header())
    } else {
        lighting::shading_header()
    };
    let call = "extra: vec4f) -> vec3f {\n    return "@ + m.function@
        + "(surface, ctx, light, extra);\n}\n\n"@;
    let front = lighting::dispatch_head(out);
    module_laws::lemma_behind_3(
        front,
        "extra: vec4f) -> vec3f {\n    return "@,
        m.function@,
        "(surface, ctx, light, extra);\n}\n\n"@,
    );
    lemma_occurs_behind(front, call);
    let direct = lighting::direct_text(out, m);
    lemma_shading_further(direct, d, call);
    let head = direct + "fn "@ + abi::SHADE_SURFACE_FN@ + "(surface: "@ + abi::SURFACE_STRUCT@
        + ", ctx: "@ + abi::CONTEXT_STRUCT@ + lighting::shading_params(d) + ") -> vec4f {\n"@;
    let line = match m.extra {
        Some(e) => "    let model_extra = "@ + e.pack@ + "(surface);\n"@,
        None => "    let model_extra = vec4f(0.0);\n"@,
    };
    match m.extra {
        Some(e) => {
            module_laws::lemma_behind_3(
                head,
                "    let model_extra = "@,
                e.pack@,
                "(surface);\n"@,
            );
        },
        None => {},
    }
    lemma_occurs_behind(head, line);
    assert(lighting::extra_declared(head, d) == head + line);
}

// ---------------------------------------------------------------------------
// Where targets are

proof fn lemma_located(out: Seq<char>, layout: Seq<GBufferTarget>, k: int, n: int)
    requires
        0 <= k < n <= layout.len(),
    ensures
        module_laws::occurs(lighting::target_fields(out, layout, n), target_line(layout, k)),
    decreases n,
{
    broadcast use lemma_occurs_further;

    let before = lighting::target_fields(out, layout, n - 1);
    let t = layout[n - 1];
    if k == n - 1 {
        let front = before + "    // "@ + t.doc@;
        module_laws::lemma_behind_6(
            front,
            "\n    @location("@,
            text::decimal(k as nat),
            ") "@,
            t.field@,
            ": "@,
            t.precision.field_type()@,
        );
        lemma_occurs_behind(front, target_line(layout, k));
    } else {
        lemma_located(out, layout, k, n - 1);
    }
}

/// The field of a G-buffer for a target, up to its type.
pub open spec fn target_line(layout: Seq<GBufferTarget>, k: int) -> Seq<char> {
    "\n    @location("@ + text::decimal(k as nat) + ") "@ + layout[k].field@ + ": "@
        + layout[k].precision.field_type()@
}

/// The texture from which the lighting pass reads a target.
pub open spec fn texture_line(layout: Seq<GBufferTarget>, k: int) -> Seq<char> {
    "@group(3) @binding("@ + text::decimal(k as nat) + ") var gbuffer_"@ + layout[k].field@
        + ": texture_2d<f32>;\n"@
}

proof fn lemma_textures(out: Seq<char>, layout: Seq<GBufferTarget>, k: int, n: int)
    requires
        0 <= k < n <= layout.len(),
    ensures
        module_laws::occurs(lighting::target_bindings(out, layout, n), texture_line(layout, k)),
    decreases n,
{
    broadcast use lemma_occurs_further;

    let before = lighting::target_bindings(out, layout, n - 1);
    if k == n - 1 {
        module_laws::lemma_behind_5(
            before,
            "@group(3) @binding("@,
            text::decimal(k as nat),
            ") var gbuffer_"@,
            layout[k].field@,
            ": texture_2d<f32>;\n"@,
        );
        lemma_occurs_behind(before, texture_line(layout, k));
    } else {
        lemma_textures(out, layout, k, n - 1);
    }
}

/// A target is written to the location that is its place in the layout of the
/// set, and the lighting pass reads it from the texture bound at that place.
pub proof fn targets_are_read_where_they_are_written(
    m: LightingModel,
    s: Seq<LightingModel>,
    k: int,
)
    requires
        0 <= k < lighting::layout_of(s).len(),
    ensures
        module_laws::occurs(
            lighting::packing_for(m, s).source,
            target_line(lighting::layout_of(s), k),
        ),
        module_laws::occurs(
            lighting::lighting_pass_text(s),
            texture_line(lighting::layout_of(s), k),
        ),
{
    broadcast use lemma_occurs_further;

    let layout = lighting::layout_of(s);
    let n = layout.len() as int;
    lemma_located("struct "@ + abi::GBUFFER_STRUCT@ + " {\n"@, layout, k, n);
    let head = lighting::pack_head(lighting::gbuffer_struct_text(layout), s.len() > 1);
    let own = target_line(layout, k);
    assert(module_laws::occurs(lighting::gbuffer_struct_text(layout), own));
    assert(module_laws::occurs(head, own));
    lemma_packed_further(head, m, layout, 0, n, own);
    let imports = lighting::shading_for(lighting::pass_dispatch(s), true).imports;
    let start = lighting::pass_head(s, imports);
    let line = texture_line(layout, k);
    lemma_textures(start + "\n"@, layout, k, n);
    let bound = lighting::pass_vertex(lighting::pass_bindings(start, layout));
    assert(module_laws::occurs(bound, line));
    let extras = lighting::extras_of(s, s.len() as int);
    let opened = bound + "struct UnpackedGBuffer {\n    surface: Surface,\n"@ + (if s.len() > 1 {
        "    model_id: u32,\n"@
    } else {
        ""@
    });
    lemma_fields_further(opened, extras, extras.len() as int, line);
    assert(module_laws::occurs(before_reading(s), line));
    lemma_params_further(
        before_reading(s) + "fn "@ + abi::UNPACK_GBUFFER_FN@ + "("@,
        layout,
        n,
        line,
    );
    assert(module_laws::occurs(surface_read(s), line));
    lemma_read_in_pass(s, line);
}

// ---------------------------------------------------------------------------
// The order in which targets are handed over

/// A target as a parameter of the reading function.
pub open spec fn as_param(t: GBufferTarget) -> Seq<char> {
    t.field@ + ": "@ + t.precision.field_type()@
}

/// A target as it is loaded for the reading function.
pub open spec fn as_argument(t: GBufferTarget) -> Seq<char> {
    "textureLoad(gbuffer_"@ + t.field@ + ", coord, 0)"@ + channels_kept(t)
}

/// The targets of a layout as parameters.
pub open spec fn all_params(layout: Seq<GBufferTarget>) -> Seq<Seq<char>> {
    Seq::new(layout.len(), |i: int| as_param(layout[i]))
}

/// The targets of a layout as they are loaded.
pub open spec fn all_arguments(layout: Seq<GBufferTarget>) -> Seq<Seq<char>> {
    Seq::new(layout.len(), |i: int| as_argument(layout[i]))
}

proof fn lemma_params_joined(out: Seq<char>, layout: Seq<GBufferTarget>, n: int)
    requires
        0 <= n <= layout.len(),
    ensures
        lighting::target_params(out, layout, n) == out + text::joined(all_params(layout).take(n)),
    decreases n,
{
    let parts = all_params(layout);
    if n <= 0 {
        assert(text::joined(parts.take(0)) =~= Seq::<char>::empty());
        assert(out + text::joined(parts.take(0)) =~= out);
    } else {
        lemma_params_joined(out, layout, n - 1);
        let t = layout[n - 1];
        let before = text::joined(parts.take(n - 1));
        assert(parts.take(n) =~= parts.take(n - 1).push(as_param(t)));
        if n == 1 {
            reveal_strlit("");
            assert(parts.take(1)[0] == as_param(t));
            assert(before =~= Seq::<char>::empty());
        } else {
            text::lemma_joined_push(parts.take(n - 1), as_param(t));
        }
        assert(lighting::target_params(out, layout, n) =~= out + text::joined(parts.take(n)));
    }
}

proof fn lemma_loads_joined(out: Seq<char>, layout: Seq<GBufferTarget>, n: int)
    requires
        0 <= n <= layout.len(),
    ensures
        lighting::target_loads(out, layout, n) == out + text::joined(
            all_arguments(layout).take(n),
        ),
    decreases n,
{
    let parts = all_arguments(layout);
    if n <= 0 {
        assert(text::joined(parts.take(0)) =~= Seq::<char>::empty());
        assert(out + text::joined(parts.take(0)) =~= out);
    } else {
        lemma_loads_joined(out, layout, n - 1);
        let t = layout[n - 1];
        let before = text::joined(parts.take(n - 1));
        assert(channels_kept(t) == lighting::leading_channels(t.precision.channels()));
        assert(parts.take(n) =~= parts.take(n - 1).push(as_argument(t)));
        if n == 1 {
            reveal_strlit("");
            assert(parts.take(1)[0] == as_argument(t));
            assert(before =~= Seq::<char>::empty());
        } else {
            text::lemma_joined_push(parts.take(n - 1), as_argument(t));
        }
        assert(lighting::target_loads(out, layout, n) =~= out + text::joined(parts.take(n)));
    }
}


/// The lighting pass hands the targets to the function that reads them back in
/// the order in which it takes them: for each of its parameters the texel of
/// the target of that name.
pub proof fn targets_are_handed_over_in_order(s: Seq<LightingModel>)
    ensures
        ({
            let pass = lighting::lighting_pass_text(s);
            let layout = lighting::layout_of(s);
            let name = abi::UNPACK_GBUFFER_FN@;
            &&& module_laws::occurs(
                pass,
                "fn "@ + name + "("@ + text::joined(all_params(layout)),
            )
            &&& module_laws::occurs(pass, name + "("@ + text::joined(all_arguments(layout)))
        }),
{
    broadcast use lemma_occurs_further;

    let layout = lighting::layout_of(s);
    let n = layout.len() as int;
    let name = abi::UNPACK_GBUFFER_FN@;
    let params = text::joined(all_params(layout));
    let loads = text::joined(all_arguments(layout));
    assert(all_params(layout).take(n) =~= all_params(layout));
    assert(all_arguments(layout).take(n) =~= all_arguments(layout));
    let front = before_reading(s);
    lemma_params_joined(front + "fn "@ + name + "("@, layout, n);
    module_laws::lemma_behind_4(front, "fn "@, name, "("@, params);
    let head = "fn "@ + name + "("@ + params;
    lemma_occurs_behind(front, head);
    assert(module_laws::occurs(surface_read(s), head));
    lemma_read_in_pass(s, head);
    let call = name + "("@ + loads;
    let out = lighting::unpack_fn_text(front, s) + lighting::shading_for(
        lighting::pass_dispatch(s),
        true,
    ).source;
    let before = out + "\n@fragment\nfn "@ + abi::LIGHTING_PASS_FRAGMENT_ENTRY@
        + "(@builtin(position) position: vec4f) -> @location(0) vec4f {\n"@
        + "    let coord = vec2i(position.xy);\n"@
        + "    let depth = textureLoad(gbuffer_depth, coord, 0);\n"@
        + "    if depth >= 1.0 {\n        return scene.background;\n    }\n"@
        + "    let size = vec2f(textureDimensions(gbuffer_"@ + layout[0].field@ + "));\n"@
        + "    let ndc = vec2f(position.x / size.x * 2.0 - 1.0, 1.0 - position.y / size.y * 2.0);\n"@
        + "    let world = camera.inverse_view_projection * vec4f(ndc, depth, 1.0);\n"@
        + "    let unpacked = "@;
    lemma_loads_joined(before + name + "("@, layout, n);
    module_laws::lemma_behind_3(before, name, "("@, loads);
    lemma_occurs_behind(before, call);
    let loaded = lighting::target_loads(before + name + "("@, layout, n);
    assert(module_laws::occurs(loaded, call));
    let shaded = loaded + ");\n    let basis = tangent_basis(unpacked.surface.normal);\n"@
        + "    var ctx: SurfaceContext;\n    ctx.world_position = world.xyz / world.w;\n"@
        + "    ctx.world_normal = unpacked.surface.normal;\n"@
        + "    ctx.world_tangent = basis[0];\n    ctx.world_bitangent = basis[1];\n"@
        + "    ctx.view_direction = normalize(camera.position.xyz - ctx.world_position);\n"@
        + "    ctx.time = scene.time;\n    return "@ + abi::SHADE_SURFACE_FN@ + "("@;
    assert(module_laws::occurs(shaded, call));
    let extras = lighting::extras_of(s, s.len() as int);
    lemma_reads_further(
        shaded + "unpacked.surface, ctx, ModelExtras("@,
        extras,
        extras.len() as int,
        call,
    );
    assert(module_laws::occurs(lighting::shade_args(shaded, s), call));
    assert(lighting::lighting_pass_text(s) == lighting::shade_args(shaded, s) + ");\n}\n"@);
}

} // verus!
