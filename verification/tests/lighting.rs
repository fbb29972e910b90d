//! Lighting models, sets of them, and what is generated for a set.

use wxsl_core::abi;
use wxsl_core::lighting::{
    default_models, default_set, default_single_set, gbuffer_struct, lighting_pass_source,
    model_id_target, pack_gbuffer, shade_surface, shade_surface_with, ChannelSource, Dispatch,
    LightingError, LightingModel, LightingSet, MaterialLighting, DEFAULT_MODEL_ID,
};

fn model(id: u32, name: &'static str) -> LightingModel {
    LightingModel {
        id,
        name,
        module: "package::test",
        function: "test_model",
        extra: None,
        doc: "",
    }
}

fn default_model() -> LightingModel {
    default_models()[DEFAULT_MODEL_ID as usize]
}

#[test]
fn a_set_is_sorted_by_id_and_rejects_collisions() {
    let set = LightingSet::new(vec![model(2, "b"), model(0, "a")]).unwrap();
    assert_eq!(
        set.models().iter().map(|m| m.id).collect::<Vec<_>>(),
        vec![0, 2]
    );
    assert_eq!(set.default_model().name, "a", "lowest id is the default");

    assert_eq!(
        LightingSet::new(vec![model(1, "a"), model(1, "b")]).unwrap_err(),
        LightingError::DuplicateId { id: 1 }
    );
    assert_eq!(
        LightingSet::new(vec![model(0, "same"), model(1, "same")]).unwrap_err(),
        LightingError::DuplicateName { name: "same".to_string() }
    );
    assert_eq!(LightingSet::new(vec![]).unwrap_err(), LightingError::Empty);
}

#[test]
fn a_single_model_needs_no_id_channel() {
    let set = LightingSet::single(default_model());
    assert!(!set.dispatches());
    assert_eq!(set.gbuffer_layout(), abi::gbuffer_base_targets().to_vec());
}

#[test]
fn the_layout_is_base_plus_id_plus_extras_in_id_order() {
    let set = default_set().unwrap();
    assert!(set.dispatches());
    let layout = set.gbuffer_layout();
    let fields: Vec<&str> = layout.iter().map(|t| t.field).collect();
    assert_eq!(
        fields,
        vec!["base_color", "normal", "emissive", "lighting", "clearcoat"],
        "base targets, then the id channel, then the requests"
    );
    assert_eq!(layout[3], model_id_target());
}

#[test]
fn a_direct_dispatch_names_one_model_and_no_other() {
    let pbr = default_model();
    let generated = shade_surface(&Dispatch::Direct(pbr));
    assert!(generated.source.contains("fn lighting_dispatch"));
    assert!(generated
        .source
        .contains("return lighting_pbr(surface, ctx, light, extra);"));
    assert!(!generated.source.contains("lighting_lambert"));
    assert!(!generated.source.contains("switch"));
    assert!(generated
        .imports
        .iter()
        .any(|(module, item)| *module == pbr.module && *item == pbr.function));
    // One import per pair, even when two pieces asked for the same.
    let mut unique = generated.imports.clone();
    unique.sort_unstable();
    unique.dedup();
    assert_eq!(unique.len(), generated.imports.len());
}

#[test]
fn a_switch_dispatch_has_one_arm_per_enabled_model() {
    let set = default_set().unwrap();
    let generated = shade_surface(&Dispatch::Switch(set.clone()));
    for model in set.models() {
        assert!(
            generated.source.contains(&format!(
                "case {}u: {{ return {}(",
                model.id, model.function
            )),
            "no arm for {}",
            model.name
        );
    }
    assert!(generated.source.contains("lighting_lambert"));
    assert!(generated.source.contains("default: { return vec3f(0.0); }"));
    assert!(generated.source.contains(
        "case 3u: { return lighting_clearcoat(surface, ctx, light, vec4f(extras.clearcoat, 0.0, 0.0)); }"
    ));
    assert!(generated
        .source
        .contains("case 2u: { return lighting_pbr(surface, ctx, light, vec4f(0.0)); }"));
    assert!(generated.source.contains(
        "fn shade_surface(surface: Surface, ctx: SurfaceContext, extras: ModelExtras, model_id: u32)"
    ));
}

#[test]
fn the_pack_fills_the_id_channel_only_when_dispatching() {
    let single = LightingSet::single(default_model());
    let plain = pack_gbuffer(&default_model(), &single);
    assert!(plain
        .source
        .contains("fn pack_gbuffer(surface: Surface) -> GBuffer"));
    assert!(!plain.source.contains("model_id"));

    let set = default_set().unwrap();
    let dispatched = pack_gbuffer(&default_model(), &set);
    assert!(dispatched
        .source
        .contains("fn pack_gbuffer(surface: Surface, model_id: u32) -> GBuffer"));
    assert!(dispatched
        .source
        .contains("out.lighting = f32(model_id) / 255"));

    let models = default_models();
    let coat = models.iter().find(|m| m.name == "clearcoat").unwrap();
    let coated = pack_gbuffer(coat, &set);
    assert!(coated
        .source
        .contains("out.clearcoat = pack_clearcoat(surface).xy;"));
    assert!(coated.source.contains("out.lighting = f32(model_id)"));
    let plain_under_set = pack_gbuffer(&default_model(), &set);
    assert!(plain_under_set
        .source
        .contains("out.clearcoat = vec2f(0.0);"));
}

#[test]
fn the_lighting_pass_binds_one_target_per_layout_entry_plus_depth() {
    let set = default_set().unwrap();
    let source = lighting_pass_source(&set);
    let layout = set.gbuffer_layout();
    for (binding, target) in layout.iter().enumerate() {
        assert!(
            source.contains(&format!(
                "@group(3) @binding({binding}) var gbuffer_{}:",
                target.field
            )),
            "no binding for {}",
            target.field
        );
    }
    assert!(source.contains(&format!(
        "@group(3) @binding({}) var gbuffer_depth:",
        layout.len()
    )));
    assert!(source.contains("switch model_id"));
    assert!(source.contains("out.model_id = u32(round(lighting * 255))"));
    assert!(source.contains(
        "return shade_surface(unpacked.surface, ctx, ModelExtras(unpacked.clearcoat), unpacked.model_id)"
    ));
}

#[test]
fn a_single_model_pass_has_no_dispatch_at_all() {
    let set = LightingSet::single(default_model());
    let source = lighting_pass_source(&set);
    assert!(!source.contains("switch"));
    assert!(!source.contains("model_id"));
    assert!(source.contains("return shade_surface(unpacked.surface, ctx)"));
    assert!(source.contains("return lighting_pbr(surface, ctx, light, extra);"));
}

#[test]
fn a_set_signature_distinguishes_sets() {
    let single = LightingSet::single(default_model());
    let all = default_set().unwrap();
    assert_ne!(single.signature(), all.signature());
    assert_ne!(single.stable_id(), all.stable_id());
    // Order of construction does not change the identity.
    let reordered =
        LightingSet::new(default_models().iter().rev().copied().collect()).unwrap();
    assert_eq!(all.signature(), reordered.signature());
}

#[test]
fn a_model_is_resolved_by_name_or_is_the_default() {
    let set = default_set().unwrap();
    let named = MaterialLighting::resolve(&set, Some("clearcoat")).unwrap();
    assert_eq!(named.model().name, "clearcoat");
    let unnamed = MaterialLighting::resolve(&set, None).unwrap();
    assert_eq!(unnamed.model().id, DEFAULT_MODEL_ID);
    let others = LightingSet::new(vec![model(7, "b"), model(5, "a")]).unwrap();
    assert_eq!(MaterialLighting::resolve(&others, None).unwrap().model().name, "a");
    let error = MaterialLighting::resolve(&set, Some("glass")).unwrap_err();
    assert!(error.text().contains("glass"));
}

#[test]
fn the_default_set_holds_the_default_model_alone() {
    let set = default_single_set();
    assert_eq!(set.len(), 1);
    assert_eq!(set.default_model(), &default_model());
    assert_eq!(LightingSet::default(), set);
    assert_eq!(set.by_name("lambert"), None);
    assert_eq!(set.get(DEFAULT_MODEL_ID), Some(&default_model()));
}

#[test]
fn a_gbuffer_has_a_field_per_target() {
    let text = gbuffer_struct(&abi::gbuffer_base_targets());
    assert!(text.contains("@location(0) base_color: vec4f"));
    assert!(text.contains("@location(2) emissive: vec4f"));
}

#[test]
fn macros_are_declared_on_request() {
    let d = Dispatch::Direct(default_model());
    let plain = shade_surface_with(&d, false);
    let declared = shade_surface_with(&d, true);
    assert_eq!(plain.imports, declared.imports);
    assert_eq!(declared.source, shade_surface(&d).source);
    assert!(declared.source.len() > plain.source.len());
}

#[test]
fn sources_of_channels_have_names() {
    assert_eq!(ChannelSource::Feature("clearcoat").name(), "clearcoat");
}

#[test]
fn errors_of_lighting_have_a_text() {
    assert!(!LightingError::Empty.text().is_empty());
    assert!(LightingError::DuplicateId { id: 7 }.text().contains('7'));
}

#[test]
fn a_set_signature_lists_names_and_ids() {
    let a = LightingSet::new(vec![model(2, "b"), model(0, "a")]).unwrap();
    let b = LightingSet::new(vec![model(0, "a"), model(2, "b")]).unwrap();
    assert_eq!(a.signature(), "models=a:0,b:2");
    assert_eq!(a.signature(), b.signature());
    assert_eq!(a.stable_id(), b.stable_id());
    let renamed = LightingSet::new(vec![model(0, "a"), model(2, "c")]).unwrap();
    let renumbered = LightingSet::new(vec![model(0, "a"), model(12, "b")]).unwrap();
    let shorter = LightingSet::new(vec![model(0, "a")]).unwrap();
    for other in [&renamed, &renumbered, &shorter] {
        assert_ne!(a.signature(), other.signature());
    }
}

#[test]
fn shading_differs_by_the_macros_alone() {
    let set = default_set().unwrap();
    for dispatch in [Dispatch::Direct(default_model()), Dispatch::Switch(set)] {
        let with = shade_surface_with(&dispatch, true);
        let without = shade_surface_with(&dispatch, false);
        assert_eq!(with.imports, without.imports);
        let start = with.source.find("@macro const").expect("declared");
        let (header, rest) = with.source.split_at(start);
        let end = rest.rfind("@macro const").expect("declared");
        let end = end + rest[end..].find("\n\n").expect("the declarations end") + 2;
        assert_eq!(format!("{header}{}", &rest[end..]), without.source);
        assert!(!without.source.contains("@macro"));
    }
}
