//! What holds across calls, on chosen graphs.

use wxsl_core::abi;
use wxsl_core::codegen::{generate, CodegenOptions};
use wxsl_core::float::Float;
use wxsl_core::graph::{
    AttributeDecl, AttributeFrequency, Graph, Node, SocketRef, UserBlockDecl, UserField,
};
use wxsl_core::lighting::{default_single_set, MaterialLighting};
use wxsl_core::macros::{MacroDef, MacroKind, MacroSet, MacroValue};
use wxsl_core::node::{
    GenericParam, NodeBody, NodeDefinition, NodeRegistry, SettingDef, Socket, Value, ValueType,
    SETTING_NAME,
};
use wxsl_core::GraphError;

fn float(x: f32) -> Float {
    Float { bits: x.to_bits() }
}

fn registry() -> NodeRegistry {
    let mut registry = NodeRegistry::new();
    registry.register(abi::surface_output_def());
    registry.register(abi::vertex_output_def());
    registry.register(abi::discard_output_def());
    registry.register(abi::varying_output_def());
    registry.register_all(abi::context_node_defs());
    registry.register_all(vec![
        NodeDefinition::builder("test.const", "Const")
            .output(Socket::new("out", ValueType::F32))
            .expr("1.0"),
        NodeDefinition::builder("test.add", "Add")
            .input(Socket::new("a", ValueType::F32).with_splat_default(float(0.0)))
            .input(Socket::new("b", ValueType::F32).with_splat_default(float(0.0)))
            .output(Socket::new("out", ValueType::F32))
            .expr("{a} + {b}"),
        NodeDefinition::builder("test.negate", "Negate")
            .generic_param(GenericParam::new("T", vec![ValueType::F32, ValueType::Vec3]))
            .input(Socket::new("a", ValueType::F32).generic("T"))
            .output(Socket::new("out", ValueType::F32).generic("T"))
            .expr("-{a}"),
        NodeDefinition::builder("test.above", "Above")
            .input(Socket::new("a", ValueType::F32).with_splat_default(float(0.0)))
            .output(Socket::new("out", ValueType::Bool))
            .expr("{a} > 0.5"),
        NodeDefinition::builder("test.scaled", "Scaled")
            .macro_var(MacroDef::new("SCALE", MacroValue::Int(1), ""))
            .output(Socket::new("out", ValueType::F32))
            .expr("f32(SCALE)"),
        NodeDefinition::builder("param.value", "Parameter")
            .setting(SettingDef::new(SETTING_NAME, "name", ""))
            .generic_param(GenericParam::new("T", vec![ValueType::F32, ValueType::Vec3]))
            .input(Socket::new("value", ValueType::F32).generic("T").constant())
            .output(Socket::new("out", ValueType::F32).generic("T"))
            .declaration(NodeBody::Param),
        NodeDefinition::builder("param.texture", "Texture")
            .setting(SettingDef::new(SETTING_NAME, "name", ""))
            .output(Socket::new("out", ValueType::Texture2d))
            .declaration(NodeBody::Resource),
    ]);
    registry
}

#[test]
fn disconnecting_undoes_connecting() {
    let registry = registry();
    let mut graph = Graph::new("g");
    let a = graph.add_node("test.const");
    let b = graph.add_node("test.add");
    let before = graph.clone();
    graph.wire(&registry, (a, "out"), (b, "a")).unwrap();
    assert_ne!(graph, before);
    let edge = graph.disconnect(&registry, &SocketRef::new(b, "a")).expect("there was an edge");
    assert_eq!(edge.from, SocketRef::new(a, "out"));
    assert_eq!(graph, before);
    assert!(graph.disconnect(&registry, &SocketRef::new(b, "a")).is_none());
}

#[test]
fn a_refused_edge_changes_nothing() {
    let registry = registry();
    let mut graph = Graph::new("g");
    let a = graph.add_node("input.world_normal");
    let b = graph.add_node("test.add");
    let before = graph.clone();
    graph.wire(&registry, (a, "out"), (b, "a")).unwrap_err();
    assert_eq!(graph, before);
}

#[test]
fn documents_keep_graphs() {
    let registry = registry();
    let mut graph = Graph::new("saved");
    let a = graph.add(Node::new("test.const").with_label("one").with_color([float(0.5); 3]));
    let b = graph.add(Node::new("test.add").with_position([float(1.0), float(2.0)]));
    graph.wire(&registry, (a, "out"), (b, "a")).unwrap();
    graph.set_macro("wxsl_tonemap", MacroValue::Flag(true));
    graph.declare_attribute(AttributeDecl::instance("tint", ValueType::Vec3));
    let document = graph.to_document();
    assert!(document.has_room());
    assert_eq!(document.nodes.len(), 2);
    assert_eq!(document.nodes[0].id, a);
    assert_eq!(Graph::from_document(&document), graph);
}

#[test]
fn a_node_is_changed_in_place() {
    let mut graph = Graph::new("g");
    let a = graph.add_node("test.const");
    let b = graph.add_node("test.add");
    graph.node_mut(a).expect("it is there").label = Some("renamed".to_string());
    assert_eq!(graph.node(a).unwrap().label.as_deref(), Some("renamed"));
    assert_eq!(graph.node(b).unwrap().label, None);
    assert_eq!(graph.node_count(), 2);
    assert!(graph.node_mut(wxsl_core::NodeId(7)).is_none());
}

#[test]
fn edges_are_listed_by_their_ends() {
    let registry = registry();
    let mut graph = Graph::new("g");
    let a = graph.add_node("test.const");
    let b = graph.add_node("test.add");
    graph.wire(&registry, (a, "out"), (b, "b")).unwrap();
    graph.wire(&registry, (a, "out"), (b, "a")).unwrap();
    assert_eq!(graph.edges_from(a).len(), 2);
    assert_eq!(graph.edges_into(b).len(), 2);
    assert!(graph.edges_into(a).is_empty());
    assert_eq!(graph.edge_into(&SocketRef::new(b, "a")).unwrap().to.socket, "a");
    assert_eq!(graph.edge_from(&SocketRef::new(a, "out")).unwrap().to.socket, "b");
    assert!(graph.reaches(a, b));
    assert!(!graph.reaches(b, a));
}

#[test]
fn what_only_parked_nodes_hold_does_not_show() {
    let registry = registry();
    let compiled = |parked: Node| {
        let mut graph = Graph::new("g");
        let a = graph.add_node("test.const");
        graph.add(parked);
        let surface = graph.add_node(abi::SURFACE_OUTPUT_ID);
        graph.wire(&registry, (a, "out"), (surface, "roughness")).unwrap();
        generate(&graph, &registry, &CodegenOptions::default()).expect("compiles")
    };
    let one = compiled(Node::new("test.const"));
    let other = compiled(Node::new("test.add").with_param("a", Value::F32(float(7.0))));
    assert_eq!(one, other);
}

#[test]
fn overrides_come_before_pins_before_the_base() {
    let registry = registry();
    let mut graph = Graph::new("g");
    let scaled = graph.add_node("test.scaled");
    let surface = graph.add_node(abi::SURFACE_OUTPUT_ID);
    graph.wire(&registry, (scaled, "out"), (surface, "roughness")).unwrap();
    let value = |graph: &Graph, options: &CodegenOptions| {
        generate(graph, &registry, options).expect("compiles").macros.get("SCALE")
    };
    let mut base = MacroSet::new();
    base.set("SCALE", MacroValue::Int(10));
    base.set("OTHER", MacroValue::Int(11));
    let mut options = CodegenOptions { base_macros: base, ..CodegenOptions::default() };
    assert_eq!(value(&graph, &options), Some(MacroValue::Int(1)));
    graph.set_macro("SCALE", MacroValue::Int(2));
    assert_eq!(value(&graph, &options), Some(MacroValue::Int(2)));
    options.override_macros.set("SCALE", MacroValue::Int(3));
    assert_eq!(value(&graph, &options), Some(MacroValue::Int(3)));
    let shader = generate(&graph, &registry, &options).expect("compiles");
    assert_eq!(shader.macros.get("OTHER"), Some(MacroValue::Int(11)));
}

#[test]
fn a_fragment_entry_is_there_where_a_surface_or_a_discard_is() {
    let registry = registry();
    let mut graph = Graph::new("g");
    graph.add_node(abi::SURFACE_OUTPUT_ID);
    let entry = |graph: &Graph, stage: abi::MaterialStage| {
        let options = CodegenOptions { stage, ..CodegenOptions::default() };
        generate(graph, &registry, &options).expect("compiles").fragment_entry
    };
    assert!(entry(&graph, abi::MaterialStage::FORWARD_LIT).is_some());
    assert!(entry(&graph, abi::MaterialStage::SHADOW).is_none());
    let above = graph.add_node("test.above");
    let discard = graph.add_node(abi::DISCARD_OUTPUT_ID);
    graph.wire(&registry, (above, "out"), (discard, abi::SOCKET_DISCARD)).unwrap();
    assert_eq!(entry(&graph, abi::MaterialStage::SHADOW).as_deref(), Some("fs_shadow"));
    let options = CodegenOptions {
        stage: abi::MaterialStage::SHADOW,
        ..CodegenOptions::default()
    };
    let source = generate(&graph, &registry, &options).expect("compiles").source;
    assert!(source.contains("discard;"), "{source}");
}

#[test]
fn only_what_an_end_reaches_is_asked_for() {
    let registry = registry();
    let mut graph = Graph::new("g");
    let used = graph.add_resolved(&registry, Node::new("param.value").with_setting("name", "gloss"));
    graph.add_resolved(&registry, Node::new("param.value").with_setting("name", "parked"));
    let surface = graph.add_node(abi::SURFACE_OUTPUT_ID);
    graph.wire(&registry, (used, "out"), (surface, "roughness")).unwrap();
    let interface = graph.interface(&registry);
    assert_eq!(interface.params.fields().len(), 1);
    assert_eq!(interface.params.fields()[0].name.as_str(), "gloss");
    assert!(!interface.material_group_is_empty());
    let shader = generate(&graph, &registry, &CodegenOptions::default()).expect("compiles");
    assert_eq!(shader.interface, interface);
    assert!(shader.source.contains("surface.roughness = material.gloss;"), "{}", shader.source);
    assert!(!shader.source.contains("parked"), "{}", shader.source);
}

#[test]
fn the_value_of_a_parameter_is_not_compiled() {
    let registry = registry();
    let compiled = |x: f32| {
        let mut graph = Graph::new("g");
        let node =
            graph.add_resolved(&registry, Node::new("param.value").with_setting("name", "gloss"));
        graph.set_param(node, "value", Value::F32(float(x)));
        let surface = graph.add_node(abi::SURFACE_OUTPUT_ID);
        graph.wire(&registry, (node, "out"), (surface, "roughness")).unwrap();
        assert!(graph.has_countable_geometry());
        assert!(graph.is_within_limits(&registry));
        generate(&graph, &registry, &CodegenOptions::default()).expect("compiles")
    };
    let one = compiled(0.25);
    let other = compiled(0.75);
    assert_eq!(one.source, other.source);
    assert_eq!(one.variant_key(), other.variant_key());
    assert_eq!(one.interface.signature(), other.interface.signature());
    assert_eq!(one.interface.defaults.get("gloss"), Some(&Value::F32(float(0.25))));
    assert_eq!(other.interface.defaults.get("gloss"), Some(&Value::F32(float(0.75))));
}

#[test]
fn a_varying_is_written_per_vertex_and_read_per_fragment() {
    let mut registry = registry();
    registry.register(
        NodeDefinition::builder("input.attribute", "Attribute")
            .setting(SettingDef::new(SETTING_NAME, "name", ""))
            .generic_param(GenericParam::new("T", ValueType::ALL.to_vec()))
            .output(Socket::new("out", ValueType::F32).generic("T"))
            .declaration(NodeBody::AttributeRead),
    );
    let mut graph = Graph::new("g");
    graph.declare_attribute(AttributeDecl::computed("phase", ValueType::F32));
    let value = graph.add_node("test.const");
    let written = graph.add(Node::new(abi::VARYING_OUTPUT_ID).with_setting("name", "phase"));
    graph.wire(&registry, (value, "out"), (written, abi::SOCKET_VARYING)).unwrap();
    let read = graph.add(Node::new("input.attribute").with_setting("name", "phase"));
    let surface = graph.add_node(abi::SURFACE_OUTPUT_ID);
    graph.wire(&registry, (read, "out"), (surface, "roughness")).unwrap();
    let shader = generate(&graph, &registry, &CodegenOptions::default()).expect("compiles");
    assert!(shader.source.contains("fn wxsl_varying_phase("), "{}", shader.source);
    assert!(shader.source.contains("surface.roughness = attrs.phase;"), "{}", shader.source);
}

#[test]
fn picking_a_type_sticks() {
    let registry = registry();
    let mut graph = Graph::new("g");
    let node = graph.add_resolved(&registry, Node::new("test.negate"));
    assert_eq!(graph.generic_type(node, "T"), Some(ValueType::F32));
    graph.set_generic(&registry, node, "T", ValueType::Vec3).unwrap();
    assert_eq!(graph.generic_type(node, "T"), Some(ValueType::Vec3));
}

#[test]
fn settings_fall_back_to_the_definition() {
    let mut registry = NodeRegistry::new();
    registry.register(
        NodeDefinition::builder("test.named", "Named")
            .setting(SettingDef::new(SETTING_NAME, "name", "").with_default("plain"))
            .output(Socket::new("out", ValueType::F32))
            .expr("1.0"),
    );
    let mut graph = Graph::new("g");
    let node = graph.add_node("test.named");
    assert_eq!(graph.setting(&registry, node, "name"), Some("plain"));
    graph.set_setting(node, "name", "fancy");
    assert_eq!(graph.setting(&registry, node, "name"), Some("fancy"));
    assert_eq!(graph.setting(&registry, node, "colour"), None);
}

#[test]
fn declarations_are_kept_by_name() {
    let mut graph = Graph::new("g");
    graph.declare_attribute(AttributeDecl::vertex("tint", ValueType::Vec3));
    graph.declare_attribute(AttributeDecl::instance("tint", ValueType::Vec4));
    assert_eq!(graph.attributes().len(), 1);
    assert_eq!(graph.attribute("tint").unwrap().frequency, AttributeFrequency::Instance);
    assert_eq!(graph.remove_attribute("tint").unwrap().ty, ValueType::Vec4);
    assert!(graph.remove_attribute("tint").is_none());
    graph.set_user_block(UserBlockDecl {
        name: "weather".to_string(),
        fields: vec![UserField::new("wind", ValueType::F32)],
    });
    assert_eq!(graph.user_block().unwrap().name, "weather");
    assert_eq!(graph.clear_user_block().unwrap().name, "weather");
    assert!(graph.user_block().is_none());
}

#[test]
fn frequencies_are_called_by_name() {
    for frequency in AttributeFrequency::ALL {
        assert_eq!(AttributeFrequency::parse(frequency.name()), Some(frequency));
    }
    assert_eq!(AttributeFrequency::parse("sometimes"), None);
}

#[test]
fn macro_sets_overlay_and_sign() {
    let mut base = MacroSet::new();
    base.set("A", MacroValue::Int(1));
    base.set("b", MacroValue::Flag(true));
    let mut over = MacroSet::new();
    over.set("A", MacroValue::Float(float(2.5)));
    let before = base.signature();
    base.overlay(&over);
    assert_eq!(base.get("A"), Some(MacroValue::Float(float(2.5))));
    assert_eq!(base.get("b"), Some(MacroValue::Flag(true)));
    assert_ne!(base.signature(), before);
    assert_eq!(base.unset("A"), Some(MacroValue::Float(float(2.5))));
    assert!(!base.contains("A"));
    assert_eq!(MacroValue::Int(-3).text(), "-3");
    assert_eq!(MacroValue::Flag(true).kind(), MacroKind::Flag);
}

#[test]
fn a_texture_is_bound_beside_the_parameters() {
    let registry = registry();
    let mut graph = Graph::new("g");
    graph.add(Node::new("param.texture").with_setting("name", "albedo"));
    graph.add_node(abi::SURFACE_OUTPUT_ID);
    // Nothing reads it, so nothing is bound.
    assert!(graph.interface(&registry).resource("albedo").is_none());
}

#[test]
fn types_follow_the_wires() {
    let registry = registry();
    let mut graph = Graph::new("g");
    let first = graph.add_node("test.negate");
    let second = graph.add_node("test.negate");
    let third = graph.add_node("test.negate");
    graph.wire(&registry, (first, "out"), (second, "a")).unwrap();
    graph.wire(&registry, (second, "out"), (third, "a")).unwrap();
    assert_eq!(graph.node(third).unwrap().generics.get("T"), None);
    let normal = graph.add_node("input.world_normal");
    graph.wire(&registry, (normal, "out"), (first, "a")).unwrap();
    for id in [first, second, third] {
        assert_eq!(graph.node(id).unwrap().generics.get("T"), Some(&ValueType::Vec3));
    }
    let surface = graph.add_node(abi::SURFACE_OUTPUT_ID);
    graph.wire(&registry, (third, "out"), (surface, "roughness")).unwrap_err();
    graph.wire(&registry, (third, "out"), (surface, "base_color")).unwrap();
    assert!(graph.validate(&registry).is_ok());
}

#[test]
fn a_graph_with_ends_of_two_types_is_not_valid() {
    let registry = registry();
    let mut graph = Graph::new("g");
    let normal = graph.add_node("input.world_normal");
    let add = graph.add_node("test.add");
    let constant = graph.add_node("test.const");
    graph.wire(&registry, (constant, "out"), (add, "a")).unwrap();
    let mut document = graph.to_document();
    document.edges[0].from = SocketRef::new(normal, "out");
    let errors = Graph::from_document(&document).validate(&registry).unwrap_err().0;
    assert_eq!(
        errors,
        vec![GraphError::TypeMismatch {
            from: SocketRef::new(normal, "out"),
            to: SocketRef::new(add, "a"),
            produced: ValueType::Vec3,
            expected: ValueType::F32,
        }]
    );
}

#[test]
fn a_model_that_is_not_enabled_matters_only_where_a_stage_shades() {
    let registry = registry();
    let mut graph = Graph::new("g");
    graph.add_node(abi::SURFACE_OUTPUT_ID);
    let lighting = MaterialLighting { set: default_single_set(), model: 99, features: vec![] };
    let depth = CodegenOptions {
        stage: abi::MaterialStage::DEPTH_ONLY,
        lighting: lighting.clone(),
        ..CodegenOptions::default()
    };
    let bare = CodegenOptions { emit_entry_points: false, lighting, ..CodegenOptions::default() };
    let usual = CodegenOptions { emit_entry_points: false, ..CodegenOptions::default() };
    assert!(generate(&graph, &registry, &depth).is_ok());
    assert_eq!(
        generate(&graph, &registry, &bare).expect("compiles").source,
        generate(&graph, &registry, &usual).expect("compiles").source
    );
}
