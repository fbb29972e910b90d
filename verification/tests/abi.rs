//! The names and numbers that shaders and renderers agree on.

use wxsl_core::abi::{
    abi_macros, bind_groups, context_fields, context_node_defs, context_node_id,
    discard_output_def, gbuffer_base_targets, interpolant_types, is_interpolant_type,
    material_stages, surface_fields, surface_output_def, ui_attributes, ui_kinds,
    varying_output_def, vertex_context_node_defs, vertex_output_def, GBufferPrecision,
    MaterialStage, StageOutput, BINDING_UI_SAMPLER, BINDING_UI_TEXTURE, BINDING_UI_VIEWPORT,
    GROUP_PASS, UI_KIND_SHAPE, UI_KIND_TEXT, UI_KIND_TEXTURE, UI_QUAD_VERTICES,
};
use wxsl_core::macros::MacroValue;
use wxsl_core::node::ValueType;

#[test]
fn surface_output_exposes_every_surface_field() {
    let def = surface_output_def();
    assert!(def.is_surface_output());
    assert_eq!(def.inputs.len(), surface_fields().len());
    for field in surface_fields() {
        let socket = def.input(field.name).expect("field is an input");
        assert_eq!(socket.ty, field.ty);
        assert!(socket.optional);
    }
}

#[test]
fn the_ui_instance_layout_is_dense_and_ordered() {
    assert!(!ui_attributes().is_empty());
    assert_eq!(ui_attributes().last().expect("attributes").name, "kind");
    assert_eq!(UI_QUAD_VERTICES, 6, "two triangles");
}

#[test]
fn the_ui_kind_table_agrees_with_its_constants() {
    for (index, kind) in ui_kinds().iter().enumerate() {
        assert_eq!(kind.value as usize, index, "`{}` is out of order", kind.name);
    }
    assert_eq!(ui_kinds()[UI_KIND_SHAPE as usize].name, "UI_KIND_SHAPE");
    assert_eq!(ui_kinds()[UI_KIND_TEXTURE as usize].name, "UI_KIND_TEXTURE");
    assert_eq!(ui_kinds()[UI_KIND_TEXT as usize].name, "UI_KIND_TEXT");
}

#[test]
fn the_ui_pass_binds_only_the_pass_group() {
    let bindings = [BINDING_UI_VIEWPORT, BINDING_UI_TEXTURE, BINDING_UI_SAMPLER];
    let mut sorted = bindings;
    sorted.sort_unstable();
    assert_eq!(sorted, [0, 1, 2], "the UI bindings are dense from zero");
    assert!(bind_groups()
        .iter()
        .any(|slot| slot.index == GROUP_PASS && !slot.application_owned));
}

#[test]
fn every_stage_constant_points_at_its_own_row() {
    assert_eq!(MaterialStage::ALL.len(), material_stages().len());
    for (index, stage) in MaterialStage::ALL.iter().enumerate() {
        assert_eq!(stage.index(), index);
        assert_eq!(MaterialStage::from_index(index), Some(*stage));
    }
    assert_eq!(MaterialStage::FORWARD_LIT.name(), "forward_lit");
    assert_eq!(MaterialStage::GBUFFER.name(), "gbuffer");
    assert_eq!(MaterialStage::DEPTH_ONLY.name(), "depth_only");
    assert_eq!(MaterialStage::from_index(material_stages().len()), None);
}

#[test]
fn stage_names_round_trip_and_are_unique() {
    for stage in MaterialStage::ALL {
        assert_eq!(MaterialStage::parse(stage.name()), Some(stage));
    }
    assert_eq!(MaterialStage::parse("  GBuffer "), Some(MaterialStage::GBUFFER));
    assert_eq!(MaterialStage::parse("velocity"), None);
    let stages = material_stages();
    let mut names: Vec<&str> = stages.iter().map(|stage| stage.name).collect();
    names.sort_unstable();
    names.dedup();
    assert_eq!(names.len(), material_stages().len());
}

#[test]
fn a_stages_target_count_follows_from_what_it_returns() {
    assert_eq!(MaterialStage::FORWARD_LIT.color_targets(), 1);
    assert_eq!(MaterialStage::GBUFFER.color_targets(), gbuffer_base_targets().len());
    assert_eq!(MaterialStage::DEPTH_ONLY.color_targets(), 0);
    assert_eq!(MaterialStage::SHADOW.color_targets(), 0);
    for stage in MaterialStage::ALL {
        assert_eq!(stage.needs_surface(), stage.color_targets() > 0);
        assert_eq!(stage.needs_surface(), stage.output() != StageOutput::Nothing);
    }
    let stages = material_stages();
    let mut entries: Vec<&str> = stages.iter().map(|stage| stage.fragment_entry).collect();
    entries.sort_unstable();
    entries.dedup();
    assert_eq!(entries.len(), material_stages().len());
}

#[test]
fn context_nodes_cover_every_context_field() {
    let defs = context_node_defs();
    assert_eq!(defs.len(), context_fields().len());
    for (def, field) in defs.iter().zip(context_fields()) {
        assert_eq!(def.id, context_node_id(field.name));
        assert_eq!(def.outputs[0].ty, field.ty);
    }
}

#[test]
fn context_nodes_are_called_after_their_fields() {
    assert_eq!(context_node_id("uv"), "input.uv");
}

#[test]
fn the_vertex_fields_are_only_there_per_vertex() {
    for def in vertex_context_node_defs() {
        assert!(def.is_vertex_only());
    }
    for def in context_node_defs() {
        assert!(!def.is_vertex_only());
    }
}

#[test]
fn every_end_is_of_its_own_kind() {
    assert!(vertex_output_def().is_vertex_output());
    assert!(discard_output_def().is_discard_output());
    assert!(varying_output_def().is_varying_output());
    assert!(!varying_output_def().is_surface_output());
}

#[test]
fn a_varying_takes_what_can_be_interpolated() {
    assert_eq!(
        interpolant_types(),
        vec![ValueType::F32, ValueType::Vec2, ValueType::Vec3, ValueType::Vec4]
    );
    assert!(is_interpolant_type(ValueType::Vec3));
    assert!(!is_interpolant_type(ValueType::I32));
    assert!(!is_interpolant_type(ValueType::Mat3));
}

#[test]
fn the_macros_of_the_interface_are_flags() {
    let macros = abi_macros();
    assert!(!macros.is_empty());
    for decl in macros {
        assert!(matches!(decl.default, MacroValue::Flag(_)));
    }
}

#[test]
fn precisions_say_how_many_channels_they_have() {
    for target in gbuffer_base_targets() {
        assert_eq!(target.precision.channels(), 4);
    }
    assert_eq!(GBufferPrecision::field_type(gbuffer_base_targets()[0].precision), "vec4f");
}
