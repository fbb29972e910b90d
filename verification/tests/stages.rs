//! Which stage each node runs in, and what crosses between them.

use wxsl_core::abi;
use wxsl_core::float::Float;
use wxsl_core::graph::{AttributeDecl, Graph, Node, NodeId, ShaderStage, StageConstraint};
use wxsl_core::node::{
    GenericParam, NodeBody, NodeDefinition, NodeRegistry, SettingDef, Socket, ValueType,
    SETTING_NAME,
};
use wxsl_core::stages::analyze;
use wxsl_core::GraphError;

fn float(x: f32) -> Float {
    Float { bits: x.to_bits() }
}

fn registry() -> NodeRegistry {
    let mut registry = NodeRegistry::new();
    registry.register(abi::surface_output_def());
    registry.register(abi::vertex_output_def());
    registry.register(abi::discard_output_def());
    registry.register(abi::varying_output_def());
    registry.register_all(abi::context_node_defs());
    registry.register_all(abi::vertex_context_node_defs());
    registry.register_all(vec![
        NodeDefinition::builder("test.f32", "F32")
            .input(Socket::new("a", ValueType::F32).with_splat_default(float(0.0)))
            .output(Socket::new("out", ValueType::F32))
            .expr("{a}"),
        NodeDefinition::builder("test.vec3", "Vec3")
            .input(Socket::new("a", ValueType::F32).with_splat_default(float(0.0)))
            .output(Socket::new("out", ValueType::Vec3))
            .expr("vec3f({a})"),
        NodeDefinition::builder("test.bool", "Bool")
            .input(Socket::new("a", ValueType::F32).with_splat_default(float(0.0)))
            .output(Socket::new("out", ValueType::Bool))
            .expr("{a} > 0.0"),
        NodeDefinition::builder("test.f32_from_bool", "Bool to f32")
            .input(Socket::new("a", ValueType::Bool))
            .output(Socket::new("out", ValueType::F32))
            .expr("select(0.0, 1.0, {a})"),
        NodeDefinition::builder("input.attribute", "Attribute")
            .setting(SettingDef::new(
                SETTING_NAME,
                "name",
                "Which attribute.",
            ))
            .generic_param(GenericParam::new("T", ValueType::ALL.to_vec()))
            .output(Socket::new("out", ValueType::F32).generic("T"))
            .declaration(NodeBody::AttributeRead),
    ]);
    registry
}

fn shared_graph(registry: &NodeRegistry) -> (Graph, NodeId) {
    let mut graph = Graph::new("shared");
    let value = graph.add(Node::new("test.vec3"));
    let surface = graph.add(Node::new(abi::SURFACE_OUTPUT_ID));
    let vertex = graph.add(Node::new(abi::VERTEX_OUTPUT_ID));
    graph
        .wire(registry, (value, "out"), (surface, "base_color"))
        .expect("vec3 into base_color");
    graph
        .wire(
            registry,
            (value, "out"),
            (vertex, abi::SOCKET_POSITION_OFFSET),
        )
        .expect("vec3 into the offset");
    (graph, value)
}

#[test]
fn a_node_both_stages_read_is_computed_once_in_the_vertex_stage() {
    let registry = registry();
    let (graph, value) = shared_graph(&registry);
    let outputs = graph.outputs(&registry).expect("complete");
    let plan = analyze(&graph, &registry, &outputs).expect("the plan");

    assert_eq!(plan.stage_of.get(value), Some(&ShaderStage::Vertex));
    assert_eq!(plan.cuts.len(), 1);
    let cut = plan.cuts.first().expect("the cut");
    assert_eq!(cut.name.as_str(), "auto0");
    assert_eq!(cut.ty, ValueType::Vec3);
    assert!(plan.duplicated.is_empty());
}

#[test]
fn an_empty_plan_is_the_common_graph() {
    let registry = registry();
    let mut graph = Graph::new("plain");
    let value = graph.add(Node::new("test.vec3"));
    let surface = graph.add(Node::new(abi::SURFACE_OUTPUT_ID));
    graph
        .wire(&registry, (value, "out"), (surface, "base_color"))
        .expect("wired");
    let outputs = graph.outputs(&registry).expect("complete");
    let plan = analyze(&graph, &registry, &outputs).expect("the plan");
    assert!(plan.is_empty(), "fragment-only graphs cut nothing");
}

#[test]
fn an_explicit_fragment_constraint_pins_the_old_duplication() {
    let registry = registry();
    let (mut graph, value) = shared_graph(&registry);
    graph.set_stage(value, StageConstraint::Fragment);
    let outputs = graph.outputs(&registry).expect("complete");
    let plan = analyze(&graph, &registry, &outputs).expect("the plan");

    assert_eq!(plan.stage_of.get(value), Some(&ShaderStage::Fragment));
    assert!(plan.cuts.is_empty(), "no interpolant was spent");
    assert!(plan.duplicated.contains(value), "both stages compute it");
}

#[test]
fn an_explicit_vertex_constraint_pulls_a_fragment_node_up() {
    let registry = registry();
    let mut graph = Graph::new("hoisted");
    let value = graph.add(Node::new("test.f32").with_stage(StageConstraint::Vertex));
    let surface = graph.add(Node::new(abi::SURFACE_OUTPUT_ID));
    graph
        .wire(&registry, (value, "out"), (surface, "roughness"))
        .expect("f32 into roughness");
    let outputs = graph.outputs(&registry).expect("complete");
    let plan = analyze(&graph, &registry, &outputs).expect("the plan");

    assert_eq!(plan.stage_of.get(value), Some(&ShaderStage::Vertex));
    assert_eq!(plan.cuts.len(), 1, "the value rides an interpolant down");
    assert!(plan.duplicated.is_empty());
}

#[test]
fn a_type_that_cannot_interpolate_is_duplicated_not_cut() {
    let registry = registry();
    let mut graph = Graph::new("boolean");
    let value = graph.add(Node::new("test.bool"));
    let discard = graph.add(Node::new(abi::DISCARD_OUTPUT_ID));
    let as_f32 = graph.add(Node::new("test.f32_from_bool"));
    let as_vec3 = graph.add(Node::new("test.vec3"));
    let vertex = graph.add(Node::new(abi::VERTEX_OUTPUT_ID));
    let surface = graph.add(Node::new(abi::SURFACE_OUTPUT_ID));
    let other = graph.add(Node::new("test.vec3"));
    graph
        .wire(&registry, (other, "out"), (surface, "base_color"))
        .expect("vec3 into base_color");
    graph
        .wire(&registry, (value, "out"), (discard, abi::SOCKET_DISCARD))
        .expect("bool into discard");
    graph
        .wire(&registry, (value, "out"), (as_f32, "a"))
        .expect("bool into the converter");
    graph
        .wire(&registry, (as_f32, "out"), (as_vec3, "a"))
        .expect("f32 into the vec3");
    graph
        .wire(
            &registry,
            (as_vec3, "out"),
            (vertex, abi::SOCKET_POSITION_OFFSET),
        )
        .expect("vec3 into the offset");
    let outputs = graph.outputs(&registry).expect("complete");
    let plan = analyze(&graph, &registry, &outputs).expect("the plan");

    assert!(plan.cuts.is_empty(), "a bool cannot ride an interpolant");
    assert!(plan.duplicated.contains(value));
}

#[test]
fn a_vertex_only_node_shared_across_the_boundary_is_cut_not_rejected() {
    let registry = registry();
    let mut graph = Graph::new("object space");
    let position = graph.add(Node::new("input.object_position"));
    let surface = graph.add(Node::new(abi::SURFACE_OUTPUT_ID));
    let vertex = graph.add(Node::new(abi::VERTEX_OUTPUT_ID));
    graph
        .wire(&registry, (position, "out"), (surface, "base_color"))
        .expect("vec3 into base_color");
    graph
        .wire(
            &registry,
            (position, "out"),
            (vertex, abi::SOCKET_POSITION_OFFSET),
        )
        .expect("vec3 into the offset");
    let outputs = graph.outputs(&registry).expect("complete");
    let plan = analyze(&graph, &registry, &outputs).expect("the plan");
    assert_eq!(plan.cuts.len(), 1);
}

#[test]
fn a_vertex_only_node_pinned_to_the_fragment_stage_is_reported() {
    let registry = registry();
    let mut graph = Graph::new("misplaced");
    let position =
        graph.add(Node::new("input.object_position").with_stage(StageConstraint::Fragment));
    let surface = graph.add(Node::new(abi::SURFACE_OUTPUT_ID));
    graph
        .wire(&registry, (position, "out"), (surface, "base_color"))
        .expect("vec3 into base_color");
    let outputs = graph.outputs(&registry).expect("complete");
    let errors = analyze(&graph, &registry, &outputs).expect_err("the constraint is illegal");
    assert!(
        errors
            .0
            .iter()
            .any(|error| matches!(error, GraphError::WrongStage { .. })),
        "{errors:?}"
    );
}

#[test]
fn an_interpolant_read_in_the_stage_that_computes_it_is_reported() {
    let registry = registry();
    let mut graph = Graph::new("read too early");
    graph.declare_attribute(AttributeDecl::computed(
        "phase",
        ValueType::Vec3,
    ));
    let reader = graph.add(Node::new("input.attribute").with_setting("name", "phase"));
    graph
        .set_generic(&registry, reader, "T", ValueType::Vec3)
        .expect("allowed");
    let surface = graph.add(Node::new(abi::SURFACE_OUTPUT_ID));
    let vertex = graph.add(Node::new(abi::VERTEX_OUTPUT_ID));
    graph
        .wire(&registry, (reader, "out"), (surface, "base_color"))
        .expect("vec3 into base_color");
    graph
        .wire(
            &registry,
            (reader, "out"),
            (vertex, abi::SOCKET_POSITION_OFFSET),
        )
        .expect("vec3 into the offset — the mistake");
    let outputs = graph.outputs(&registry).expect("complete");
    let errors =
        analyze(&graph, &registry, &outputs).expect_err("the vertex stage cannot read it");
    assert!(
        errors
            .0
            .iter()
            .any(|error| matches!(error, GraphError::WrongStage { .. })),
        "{errors:?}"
    );
}

#[test]
fn a_cut_that_does_not_fit_the_budget_is_duplicated() {
    let registry = registry();
    let mut graph = Graph::new("no room");
    let room = abi::MAX_VARYING_LOCATIONS - abi::vertex_out_fields().len();
    for index in 0..room {
        let name = format!("spent{index}");
        graph.declare_attribute(AttributeDecl::computed(&name, ValueType::F32));
    }
    let value = graph.add(Node::new("test.vec3"));
    let surface = graph.add(Node::new(abi::SURFACE_OUTPUT_ID));
    let vertex = graph.add(Node::new(abi::VERTEX_OUTPUT_ID));
    graph
        .wire(&registry, (value, "out"), (surface, "base_color"))
        .expect("vec3 into base_color");
    graph
        .wire(
            &registry,
            (value, "out"),
            (vertex, abi::SOCKET_POSITION_OFFSET),
        )
        .expect("vec3 into the offset");
    let outputs = graph.outputs(&registry).expect("complete");
    let plan = analyze(&graph, &registry, &outputs).expect("the plan");
    assert!(plan.cuts.is_empty(), "the budget was spent");
    assert!(plan.duplicated.contains(value));
}

#[test]
fn validate_runs_the_analysis_so_the_editor_sees_what_the_compiler_sees() {
    let registry = registry();
    let mut graph = Graph::new("reported at edit time");
    let bogus =
        graph.add(Node::new("input.object_position").with_stage(StageConstraint::Fragment));
    let surface = graph.add(Node::new(abi::SURFACE_OUTPUT_ID));
    graph
        .wire(&registry, (bogus, "out"), (surface, "base_color"))
        .expect("wired");
    let errors = graph
        .validate(&registry)
        .expect_err("reported at validate time");
    assert!(
        errors
            .0
            .iter()
            .any(|error| matches!(error, GraphError::WrongStage { .. })),
        "{errors:?}"
    );
}

fn early_reader(registry: &NodeRegistry, graph: &mut Graph) -> NodeId {
    graph.declare_attribute(AttributeDecl::computed("phase", ValueType::Vec3));
    let value = graph.add(Node::new("test.vec3"));
    let written = graph.add(Node::new(abi::VARYING_OUTPUT_ID).with_setting("name", "phase"));
    graph.wire(registry, (value, "out"), (written, abi::SOCKET_VARYING)).expect("written");
    let reader = graph.add(Node::new("input.attribute").with_setting("name", "phase"));
    graph.set_generic(registry, reader, "T", ValueType::Vec3).expect("allowed");
    reader
}

fn stage_problem(graph: &Graph, node: NodeId, output: NodeId) -> GraphError {
    GraphError::WrongStage {
        node,
        def: graph.node(node).expect("it is there").def.clone(),
        output,
        reason: "`phase` is an interpolant the vertex stage computes, so only the fragment stage can read it"
            .to_string(),
    }
}

#[test]
fn an_interpolant_read_for_a_displacement_is_reported_without_a_surface() {
    let registry = registry();
    let mut graph = Graph::new("no surface yet");
    let reader = early_reader(&registry, &mut graph);
    assert!(graph.validate(&registry).is_ok());
    let vertex = graph.add(Node::new(abi::VERTEX_OUTPUT_ID));
    graph
        .wire(&registry, (reader, "out"), (vertex, abi::SOCKET_POSITION_OFFSET))
        .expect("vec3 into the offset");
    assert!(graph.outputs(&registry).is_none());
    let errors = graph.validate(&registry).expect_err("read too early").0;
    assert_eq!(errors, vec![stage_problem(&graph, reader, vertex)]);
}

#[test]
fn an_interpolant_read_for_another_is_reported_without_a_surface() {
    let registry = registry();
    let mut graph = Graph::new("no surface yet");
    let reader = early_reader(&registry, &mut graph);
    graph.declare_attribute(AttributeDecl::computed("other", ValueType::Vec3));
    let end = graph.add(Node::new(abi::VARYING_OUTPUT_ID).with_setting("name", "other"));
    graph.wire(&registry, (reader, "out"), (end, abi::SOCKET_VARYING)).expect("vec3");
    let errors = graph.validate(&registry).expect_err("read too early").0;
    assert_eq!(errors, vec![stage_problem(&graph, reader, end)]);
}

#[test]
fn an_interpolant_read_too_early_is_reported_once() {
    let registry = registry();
    let mut graph = Graph::new("with a surface");
    let reader = early_reader(&registry, &mut graph);
    let vertex = graph.add(Node::new(abi::VERTEX_OUTPUT_ID));
    graph.add(Node::new(abi::SURFACE_OUTPUT_ID));
    graph
        .wire(&registry, (reader, "out"), (vertex, abi::SOCKET_POSITION_OFFSET))
        .expect("vec3 into the offset");
    let errors = graph.validate(&registry).expect_err("read too early").0;
    assert_eq!(errors, vec![stage_problem(&graph, reader, vertex)]);
}

#[test]
fn an_interpolant_read_too_early_is_reported_for_every_end() {
    let registry = registry();
    let mut graph = Graph::new("two ends");
    let reader = early_reader(&registry, &mut graph);
    graph.declare_attribute(AttributeDecl::computed("other", ValueType::Vec3));
    let end = graph.add(Node::new(abi::VARYING_OUTPUT_ID).with_setting("name", "other"));
    graph.wire(&registry, (reader, "out"), (end, abi::SOCKET_VARYING)).expect("vec3");
    let vertex = graph.add(Node::new(abi::VERTEX_OUTPUT_ID));
    graph
        .wire(&registry, (reader, "out"), (vertex, abi::SOCKET_POSITION_OFFSET))
        .expect("vec3 into the offset");
    let expected =
        vec![stage_problem(&graph, reader, vertex), stage_problem(&graph, reader, end)];
    assert_eq!(graph.validate(&registry).expect_err("read too early").0, expected);
    graph.add(Node::new(abi::SURFACE_OUTPUT_ID));
    assert_eq!(graph.validate(&registry).expect_err("read too early").0, expected);
}
