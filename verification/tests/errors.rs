//! Every rule that a graph can break, and what is said of it.

use wxsl_core::abi;
use wxsl_core::codegen::{generate, CodegenOptions};
use wxsl_core::error::{CodegenError, Direction, GraphErrors};
use wxsl_core::float::Float;
use wxsl_core::graph::{
    AttributeDecl, Edge, Graph, Node, NodeId, SocketRef, StageConstraint, UserBlockDecl, UserField,
};
use wxsl_core::macros::{MacroDef, MacroSet, MacroValue};
use wxsl_core::node::{
    GenericParam, NodeBody, NodeDefinition, NodeRegistry, SettingDef, Socket, TypeRule, Value,
    ValueType, SETTING_FIELD, SETTING_NAME,
};
use wxsl_core::wire::{WireGraph, WireNode};
use wxsl_core::GraphError;

fn float(x: f32) -> Float {
    Float { bits: x.to_bits() }
}

fn registry() -> NodeRegistry {
    let mut registry = NodeRegistry::new();
    registry.register(abi::surface_output_def());
    registry.register_all(abi::context_node_defs());
    registry.register_all(abi::vertex_context_node_defs());
    registry.register_all(vec![
        NodeDefinition::builder("test.const", "Const")
            .output(Socket::new("out", ValueType::F32))
            .expr("1.0"),
        NodeDefinition::builder("test.add", "Add")
            .input(Socket::new("a", ValueType::F32).with_splat_default(float(0.0)))
            .input(Socket::new("b", ValueType::F32).with_splat_default(float(0.0)))
            .output(Socket::new("out", ValueType::F32))
            .expr("{a} + {b}"),
        NodeDefinition::builder("test.fixed", "Fixed")
            .input(Socket::new("a", ValueType::F32).with_splat_default(float(0.0)).constant())
            .output(Socket::new("out", ValueType::F32))
            .expr("{a}"),
        NodeDefinition::builder("test.product", "Product")
            .generic_param(GenericParam::new("A", vec![ValueType::Vec2, ValueType::Vec3]))
            .generic_param(GenericParam::new("B", vec![ValueType::Vec2, ValueType::Vec3]))
            .input(Socket::new("a", ValueType::F32).generic("A"))
            .input(Socket::new("b", ValueType::F32).generic("B"))
            .output(Socket::new("out", ValueType::F32).combine(TypeRule::Product, "A", "B"))
            .expr("{a} * {b}"),
        NodeDefinition::builder("test.macro_one", "One")
            .macro_var(MacroDef::new("SCALE", MacroValue::Int(1), ""))
            .output(Socket::new("out", ValueType::F32))
            .expr("SCALE"),
        NodeDefinition::builder("test.macro_two", "Two")
            .macro_var(MacroDef::new("SCALE", MacroValue::Int(2), ""))
            .output(Socket::new("out", ValueType::F32))
            .expr("SCALE"),
        NodeDefinition::builder("param.value", "Parameter")
            .setting(SettingDef::new(SETTING_NAME, "name", ""))
            .generic_param(GenericParam::new("T", vec![ValueType::F32, ValueType::Vec3]))
            .input(Socket::new("value", ValueType::F32).generic("T").constant())
            .output(Socket::new("out", ValueType::F32).generic("T"))
            .declaration(NodeBody::Param),
        NodeDefinition::builder("input.user", "User field")
            .setting(SettingDef::new(SETTING_FIELD, "field", ""))
            .generic_param(GenericParam::new("T", vec![ValueType::F32, ValueType::Vec3]))
            .output(Socket::new("out", ValueType::F32).generic("T"))
            .declaration(NodeBody::UserRead),
        NodeDefinition::builder("input.attribute", "Attribute")
            .setting(SettingDef::new(SETTING_NAME, "name", ""))
            .generic_param(GenericParam::new("T", ValueType::ALL.to_vec()))
            .output(Socket::new("out", ValueType::F32).generic("T"))
            .declaration(NodeBody::AttributeRead),
    ]);
    registry
}

/// What a graph is told, one line for each problem.
fn problems(graph: &Graph) -> Vec<String> {
    match graph.validate(&registry()) {
        Ok(()) => Vec::new(),
        Err(errors) => errors.0.iter().map(|error| error.text()).collect(),
    }
}

#[test]
fn a_node_of_no_known_kind() {
    let mut graph = Graph::new("g");
    let id = graph.add_node("test.nothing");
    assert_eq!(
        problems(&graph),
        vec![format!("node #{} references unknown node definition `test.nothing`", id.0)]
    );
}

#[test]
fn a_node_that_is_not_there() {
    let registry = registry();
    let mut graph = Graph::new("g");
    let id = graph.add_node("test.const");
    let error = graph.wire(&registry, (id, "out"), (NodeId(9), "a")).unwrap_err();
    assert_eq!(error, GraphError::UnknownNode(NodeId(9)));
    assert_eq!(error.text(), "no such node: #9");
    assert!(graph.edges().is_empty());
}

#[test]
fn a_socket_that_is_not_there() {
    let registry = registry();
    let mut graph = Graph::new("g");
    let a = graph.add_node("test.const");
    let b = graph.add_node("test.add");
    let error = graph.wire(&registry, (a, "out"), (b, "z")).unwrap_err();
    assert_eq!(
        error,
        GraphError::UnknownSocket { socket: SocketRef::new(b, "z"), direction: Direction::Input }
    );
    assert_eq!(error.text(), "node #2 has no input socket `z`");
}

#[test]
fn two_types_that_do_not_meet() {
    let registry = registry();
    let mut graph = Graph::new("g");
    let normal = graph.add_node("input.world_normal");
    let add = graph.add_node("test.add");
    let error = graph.wire(&registry, (normal, "out"), (add, "a")).unwrap_err();
    assert_eq!(error.text(), "type mismatch connecting #1.out (vec3f) to #2.a (f32)");
}

#[test]
fn an_input_that_is_taken() {
    let registry = registry();
    let mut graph = Graph::new("g");
    let a = graph.add_node("test.const");
    let b = graph.add_node("test.add");
    graph.wire(&registry, (a, "out"), (b, "a")).unwrap();
    let error = graph.wire(&registry, (a, "out"), (b, "a")).unwrap_err();
    assert_eq!(error.text(), "input #2.a is already connected");
}

#[test]
fn an_input_that_takes_no_edge() {
    let registry = registry();
    let mut graph = Graph::new("g");
    let a = graph.add_node("test.const");
    let b = graph.add_node("test.fixed");
    let error = graph.wire(&registry, (a, "out"), (b, "a")).unwrap_err();
    assert_eq!(error, GraphError::ConstantInput { socket: SocketRef::new(b, "a") });
    assert!(error.text().contains("#2.a"));
}

#[test]
fn an_edge_that_closes_a_circle() {
    let registry = registry();
    let mut graph = Graph::new("g");
    let a = graph.add_node("test.add");
    let b = graph.add_node("test.add");
    graph.wire(&registry, (a, "out"), (b, "a")).unwrap();
    let error = graph.wire(&registry, (b, "out"), (a, "a")).unwrap_err();
    assert_eq!(error.text(), "connecting #2.out to #1.a would create a cycle");
}

#[test]
fn a_circle_in_a_document() {
    let node = |id: u32| WireNode { id: NodeId(id), node: Node::new("test.add") };
    let edge = |from: u32, to: u32| Edge {
        from: SocketRef::new(NodeId(from), "out"),
        to: SocketRef::new(NodeId(to), "a"),
    };
    let wire = WireGraph {
        name: "circle".to_string(),
        macros: MacroSet::new(),
        user_block: None,
        attributes: Vec::new(),
        nodes: vec![node(1), node(2)],
        edges: vec![edge(1, 2), edge(2, 1)],
    };
    let graph = Graph::from_document(&wire);
    assert!(problems(&graph).contains(&"graph contains a cycle: #1 -> #2".to_string()));
    assert!(graph.topological_order(None).is_err());
}

#[test]
fn a_pinned_value_of_another_type() {
    let mut graph = Graph::new("g");
    graph.add(Node::new("test.add").with_param("a", Value::I32(1)));
    assert_eq!(
        problems(&graph),
        vec!["parameter for #1.a has type i32, but the socket is f32".to_string()]
    );
}

#[test]
fn a_pinned_value_for_no_input() {
    let mut graph = Graph::new("g");
    graph.add(Node::new("test.add").with_param("z", Value::I32(1)));
    assert_eq!(
        problems(&graph),
        vec!["node #1 has a parameter `z` that matches no input socket".to_string()]
    );
}

#[test]
fn an_input_that_nothing_feeds() {
    let mut registry = registry();
    registry.register(
        NodeDefinition::builder("test.required", "Required")
            .input(Socket::new("must", ValueType::F32))
            .output(Socket::new("out", ValueType::F32))
            .expr("{must}"),
    );
    let mut graph = Graph::new("g");
    graph.add_node("test.required");
    let errors = graph.validate(&registry).unwrap_err();
    assert_eq!(
        errors.text(),
        "input #1.must is not connected and has no value or default"
    );
}

#[test]
fn macros_that_disagree() {
    let mut graph = Graph::new("g");
    graph.add_node("test.macro_one");
    graph.add_node("test.macro_two");
    assert_eq!(
        problems(&graph),
        vec![
            "macro `SCALE` is declared with conflicting defaults (1 and 2); pin it on the graph \
             to resolve"
                .to_string()
        ]
    );
    graph.set_macro("SCALE", MacroValue::Int(3));
    let effective = graph.effective_macros(&registry()).expect("pinned");
    assert_eq!(effective.get("SCALE"), Some(MacroValue::Int(3)));
}

#[test]
fn a_macro_that_is_no_name() {
    let mut graph = Graph::new("g");
    graph.set_macro("no name", MacroValue::Flag(true));
    assert_eq!(
        problems(&graph),
        vec!["macro name `no name` is not a valid WXSL identifier".to_string()]
    );
}

#[test]
fn a_macro_of_another_kind() {
    let mut graph = Graph::new("g");
    graph.add_node("test.macro_one");
    graph.set_macro("SCALE", MacroValue::Flag(true));
    let said = problems(&graph);
    assert_eq!(said.len(), 1);
    assert!(said[0].starts_with("macro `SCALE` is declared as "), "{said:?}");
}

#[test]
fn a_type_that_nothing_resolves() {
    let mut graph = Graph::new("g");
    graph.add_node("test.product");
    let said = problems(&graph);
    assert!(
        said.iter().any(|text| text.starts_with(
            "node #1 has not resolved its generic parameter `A`; connect something"
        )),
        "{said:?}"
    );
}

#[test]
fn a_type_that_is_not_allowed() {
    let registry = registry();
    let mut graph = Graph::new("g");
    let node = graph.add_node("test.product");
    let error = graph.set_generic(&registry, node, "A", ValueType::F32).unwrap_err();
    assert_eq!(
        error.text(),
        "node #1's generic parameter `A` cannot be f32; it allows vec2f, vec3f"
    );
    assert_eq!(graph.generic_type(node, "A"), None);
}

#[test]
fn operands_that_do_not_combine() {
    let registry = registry();
    let mut graph = Graph::new("g");
    let node = graph.add_resolved(&registry, Node::new("test.product"));
    graph.set_generic(&registry, node, "B", ValueType::Vec3).unwrap();
    let said = problems(&graph);
    assert!(
        said.iter().any(|text| text.starts_with(
            "node #1's socket `out` cannot combine `A` (vec2f) with `B` (vec3f) as a "
        )),
        "{said:?}"
    );
}

#[test]
fn a_setting_for_nothing() {
    let mut graph = Graph::new("g");
    let node = graph.add(Node::new("test.const").with_setting("colour", "red"));
    let errors = graph.validate(&registry()).unwrap_err();
    assert_eq!(
        errors.0,
        vec![GraphError::UnknownSetting { node, setting: "colour".to_string() }]
    );
}

#[test]
fn a_setting_that_is_no_name() {
    let registry = registry();
    let mut graph = Graph::new("g");
    graph.add_resolved(&registry, Node::new("param.value").with_setting("name", "not a name"));
    let errors = graph.validate(&registry).unwrap_err();
    assert!(matches!(errors.0[0], GraphError::InvalidSetting { .. }), "{errors:?}");
    assert!(errors.0[0].text().contains("not a name"));
}

#[test]
fn declarations_that_disagree() {
    let registry = registry();
    let mut graph = Graph::new("g");
    let one = graph.add_resolved(&registry, Node::new("param.value").with_setting("name", "x"));
    let two = graph.add_resolved(&registry, Node::new("param.value").with_setting("name", "x"));
    graph.set_generic(&registry, two, "T", ValueType::Vec3).unwrap();
    assert_eq!(graph.generic_type(one, "T"), Some(ValueType::F32));
    let errors = graph.validate(&registry).unwrap_err();
    assert_eq!(
        errors.0,
        vec![GraphError::ConflictingDeclaration {
            name: "x".to_string(),
            first: ValueType::F32,
            second: ValueType::Vec3,
        }]
    );
}

#[test]
fn a_field_of_no_block() {
    let registry = registry();
    let mut graph = Graph::new("g");
    let node = graph.add_resolved(&registry, Node::new("input.user").with_setting("field", "wind"));
    let errors = graph.validate(&registry).unwrap_err();
    assert_eq!(errors.0, vec![GraphError::NoUserBlock { node }]);

    graph.set_user_block(UserBlockDecl {
        name: "weather".to_string(),
        fields: vec![UserField::new("rain", ValueType::F32)],
    });
    let errors = graph.validate(&registry).unwrap_err();
    assert_eq!(
        errors.0,
        vec![GraphError::UnknownUserField {
            node,
            field: "wind".to_string(),
            declared: vec!["rain".to_string()],
        }]
    );

    graph.set_user_block(UserBlockDecl {
        name: "weather".to_string(),
        fields: vec![UserField::new("wind", ValueType::Vec3)],
    });
    let errors = graph.validate(&registry).unwrap_err();
    assert_eq!(
        errors.0,
        vec![GraphError::UserFieldTypeMismatch {
            node,
            field: "wind".to_string(),
            resolved: ValueType::F32,
            declared: ValueType::Vec3,
        }]
    );

    graph.set_generic(&registry, node, "T", ValueType::Vec3).unwrap();
    graph.validate(&registry).expect("it agrees now");
}

#[test]
fn an_attribute_nobody_declares() {
    let registry = registry();
    let mut graph = Graph::new("g");
    let node =
        graph.add_resolved(&registry, Node::new("input.attribute").with_setting("name", "wear"));
    graph.declare_attribute(AttributeDecl::vertex("paint", ValueType::Vec3));
    let errors = graph.validate(&registry).unwrap_err();
    assert_eq!(
        errors.0,
        vec![GraphError::UnknownAttribute {
            node,
            attribute: "wear".to_string(),
            declared: vec!["paint".to_string()],
        }]
    );
    graph.declare_attribute(AttributeDecl::vertex("wear", ValueType::Vec3));
    let errors = graph.validate(&registry).unwrap_err();
    assert!(matches!(errors.0[0], GraphError::AttributeTypeMismatch { .. }), "{errors:?}");
}

#[test]
fn an_attribute_that_is_no_name() {
    let mut graph = Graph::new("g");
    graph.declare_attribute(AttributeDecl::vertex("not a name", ValueType::F32));
    let errors = graph.validate(&registry()).unwrap_err();
    assert!(matches!(errors.0[0], GraphError::InvalidAttribute { .. }), "{errors:?}");
}

#[test]
fn a_block_that_cannot_be_bound() {
    let mut graph = Graph::new("g");
    graph.set_user_block(UserBlockDecl {
        name: "weather".to_string(),
        fields: vec![UserField::new("map", ValueType::Texture2d)],
    });
    let errors = graph.validate(&registry()).unwrap_err();
    assert!(
        errors.0.iter().any(|error| matches!(error, GraphError::InvalidUserBlock { .. })),
        "{errors:?}"
    );
}

#[test]
fn two_ends_of_a_kind() {
    let mut graph = Graph::new("g");
    let one = graph.add_node(abi::SURFACE_OUTPUT_ID);
    let two = graph.add_node(abi::SURFACE_OUTPUT_ID);
    let errors = graph.validate(&registry()).unwrap_err();
    assert!(
        matches!(&errors.0[0], GraphError::DuplicateOutput { nodes, .. } if *nodes == vec![one, two]),
        "{errors:?}"
    );
}

#[test]
fn a_node_in_the_wrong_stage() {
    let registry = registry();
    let mut graph = Graph::new("g");
    let position =
        graph.add(Node::new("input.object_position").with_stage(StageConstraint::Fragment));
    let surface = graph.add_node(abi::SURFACE_OUTPUT_ID);
    graph.wire(&registry, (position, "out"), (surface, "base_color")).unwrap();
    let errors = graph.validate(&registry).unwrap_err();
    assert!(
        matches!(&errors.0[0], GraphError::WrongStage { node, output, .. }
            if *node == position && *output == surface),
        "{errors:?}"
    );
}

#[test]
fn several_problems_are_listed() {
    let errors = GraphErrors(vec![
        GraphError::UnknownNode(NodeId(1)),
        GraphError::UnknownNode(NodeId(2)),
    ]);
    assert_eq!(
        errors.text(),
        "2 graph errors:\n  - no such node: #1\n  - no such node: #2"
    );
    assert_eq!(GraphErrors(Vec::new()).text(), "no errors");
    assert_eq!(errors.first(), Some(&GraphError::UnknownNode(NodeId(1))));
}

#[test]
fn a_template_that_names_no_input() {
    let mut registry = registry();
    registry.register(
        NodeDefinition::builder("test.bad", "Bad")
            .output(Socket::new("out", ValueType::F32))
            .expr("{nope} + 1.0"),
    );
    let mut graph = Graph::new("g");
    let bad = graph.add_node("test.bad");
    let surface = graph.add_node(abi::SURFACE_OUTPUT_ID);
    graph.wire(&registry, (bad, "out"), (surface, "roughness")).unwrap();
    let error = generate(&graph, &registry, &CodegenOptions::default()).unwrap_err();
    assert_eq!(
        error.text(),
        "node definition `test.bad` has an expression template referencing unknown socket `nope`"
    );
    assert!(error.source().is_none());
}

#[test]
fn a_value_without_a_literal() {
    let registry = registry();
    let mut graph = Graph::new("g");
    let add = graph.add(Node::new("test.add").with_param("a", Value::F32(float(f32::NAN))));
    let surface = graph.add_node(abi::SURFACE_OUTPUT_ID);
    graph.wire(&registry, (add, "out"), (surface, "roughness")).unwrap();
    let error = generate(&graph, &registry, &CodegenOptions::default()).unwrap_err();
    assert!(matches!(error, CodegenError::UnrepresentableValue { .. }), "{error:?}");
    assert!(error.text().contains("cannot be written as a WXSL literal"), "{}", error.text());
}

#[test]
fn errors_of_codegen_say_where_they_come_from() {
    let invalid =
        CodegenError::Invalid(GraphErrors(vec![GraphError::UnknownNode(NodeId(3))]));
    assert_eq!(invalid.text(), "graph is invalid: no such node: #3");
    assert!(invalid.source().is_some());
    assert_eq!(CodegenError::NoOutputNode.text(), "graph has no surface output node");
    assert_eq!(
        CodegenError::MultipleOutputNodes(vec![NodeId(1), NodeId(4)]).text(),
        "graph has 2 surface output nodes (expected 1): #1, #4"
    );
    let arity = CodegenError::OutputArityMismatch {
        def: "test.two".to_string(),
        outputs: 2,
        exprs: 1,
    };
    assert_eq!(
        arity.text(),
        "node definition `test.two` declares 2 outputs but supplies 1 expressions"
    );
}
