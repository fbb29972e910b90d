//! Editing a graph: wiring, typing, validating.

use wxsl_core::abi;
use wxsl_core::error::Direction;
use wxsl_core::float::Float;
use wxsl_core::graph::{AttributeDecl, Graph, Node, NodeId, SocketRef};
use wxsl_core::node::{
    GenericParam, NodeBody, NodeDefinition, NodeRegistry, SettingDef, Socket, TypeRule, Value,
    ValueType, SETTING_NAME,
};
use wxsl_core::GraphError;

fn float(x: f32) -> Float {
    Float { bits: x.to_bits() }
}

fn floats<const N: usize>(xs: [f32; N]) -> [Float; N] {
    xs.map(float)
}

fn attribute_registry() -> NodeRegistry {
    let mut registry = NodeRegistry::new();
    registry.register(
        NodeDefinition::builder("input.attribute", "Attribute")
            .setting(SettingDef::new(
                SETTING_NAME,
                "name",
                "Which attribute.",
            ))
            .generic_param(GenericParam::new("T", ValueType::ALL.to_vec()))
            .output(Socket::new("out", ValueType::F32).generic("T"))
            .declaration(NodeBody::AttributeRead),
    );
    registry
}

#[test]
fn reading_an_attribute_the_graph_does_not_declare_is_reported() {
    let registry = attribute_registry();
    let mut graph = Graph::new("undeclared");
    let node = graph.add(Node::new("input.attribute").with_setting("name", "color"));
    graph
        .set_generic(&registry, node, "T", ValueType::Vec3)
        .expect("allowed");
    let errors = graph.validate(&registry).expect_err("undeclared");
    assert!(
        errors
            .0
            .iter()
            .any(|error| matches!(error, GraphError::UnknownAttribute { .. })),
        "{errors:?}"
    );

    graph.declare_attribute(AttributeDecl::vertex("color", ValueType::Vec3));
    graph.validate(&registry).expect("declared now");

    graph.declare_attribute(AttributeDecl::vertex("color", ValueType::Vec2));
    let errors = graph.validate(&registry).expect_err("mistyped");
    assert!(
        errors
            .0
            .iter()
            .any(|error| matches!(error, GraphError::AttributeTypeMismatch { .. })),
        "{errors:?}"
    );
}

#[test]
fn a_per_vertex_attribute_of_a_type_no_vertex_buffer_carries_is_reported() {
    let registry = attribute_registry();
    let mut graph = Graph::new("integers");
    graph.declare_attribute(AttributeDecl::instance("count", ValueType::U32));
    graph
        .validate(&registry)
        .expect("a storage row holds a u32");
    graph.declare_attribute(AttributeDecl::vertex("count", ValueType::U32));
    let errors = graph.validate(&registry).expect_err("not a vertex format");
    assert!(
        errors
            .0
            .iter()
            .any(|error| matches!(error, GraphError::InvalidAttribute { .. })),
        "{errors:?}"
    );
}

#[test]
fn overrunning_a_budget_says_which_budget_and_by_how_much() {
    let registry = attribute_registry();
    let mut graph = Graph::new("greedy");
    for index in 0..abi::MAX_VERTEX_ATTRIBUTES + 1 {
        graph.declare_attribute(AttributeDecl::vertex(
            &format!("stream_{index}"),
            ValueType::Vec2,
        ));
    }
    let errors = graph.validate(&registry).expect_err("over the slot budget");
    let reported: Vec<String> = errors.0.iter().map(|error| error.text()).collect();
    assert!(
        reported
            .iter()
            .any(|text| text.contains("per-vertex attributes declared")),
        "{reported:?}"
    );
}

#[test]
fn an_attribute_cannot_take_a_name_the_instance_row_already_uses() {
    let registry = attribute_registry();
    let mut graph = Graph::new("shadowing");
    graph.declare_attribute(AttributeDecl::instance(
        abi::instance_base_fields()[0].name,
        ValueType::Mat4,
    ));
    let errors = graph.validate(&registry).expect_err("that name is taken");
    assert!(
        errors
            .0
            .iter()
            .any(|error| matches!(error, GraphError::InvalidAttribute { .. })),
        "{errors:?}"
    );
}


fn registry() -> NodeRegistry {
    let mut registry = NodeRegistry::new();
    registry.register_all(vec![
        NodeDefinition::builder("test.const", "Const")
            .output(Socket::new("out", ValueType::F32))
            .expr("1.0"),
        NodeDefinition::builder("test.add", "Add")
            .input(Socket::new("a", ValueType::F32).with_splat_default(float(0.0)))
            .input(Socket::new("b", ValueType::F32).with_splat_default(float(0.0)))
            .output(Socket::new("out", ValueType::F32))
            .expr("{a} + {b}"),
        NodeDefinition::builder("test.vec", "Vec")
            .input(Socket::new("v", ValueType::Vec3).with_splat_default(float(0.0)))
            .output(Socket::new("out", ValueType::Vec3))
            .expr("{v}"),
        NodeDefinition::builder("test.required", "Required")
            .input(Socket::new("must", ValueType::F32))
            .output(Socket::new("out", ValueType::F32))
            .expr("{must}"),
        NodeDefinition::builder("test.generic_add", "Generic add")
            .generic_param(GenericParam::new(
                "T",
                vec![ValueType::F32, ValueType::Vec3],
            ))
            .input(Socket::new("a", ValueType::F32).generic("T"))
            .input(Socket::new("b", ValueType::F32).generic("T"))
            .output(Socket::new("out", ValueType::F32).generic("T"))
            .expr("{a} + {b}"),
        NodeDefinition::builder("test.generic_negate", "Generic negate")
            .generic_param(GenericParam::new(
                "T",
                vec![ValueType::F32, ValueType::Vec3],
            ))
            .input(Socket::new("a", ValueType::F32).generic("T"))
            .output(Socket::new("out", ValueType::F32).generic("T"))
            .expr("-{a}"),
        NodeDefinition::builder("test.product", "Product")
            .generic_param(GenericParam::new(
                "A",
                vec![ValueType::F32, ValueType::Vec2, ValueType::Vec3],
            ))
            .generic_param(GenericParam::new(
                "B",
                vec![ValueType::F32, ValueType::Vec2, ValueType::Vec3],
            ))
            .input(Socket::new("a", ValueType::F32).generic("A"))
            .input(Socket::new("b", ValueType::F32).generic("B"))
            .output(Socket::new("out", ValueType::F32).combine(TypeRule::Product, "A", "B"))
            .expr("{a} * {b}"),
    ]);
    registry
}

#[test]
fn connect_type_checks_both_ends() {
    let registry = registry();
    let mut graph = Graph::new("g");
    let a = graph.add_node("test.const");
    let v = graph.add_node("test.vec");
    let error = graph
        .wire(&registry, (a, "out"), (v, "v"))
        .expect_err("f32 must not connect to vec3f");
    assert!(matches!(error, GraphError::TypeMismatch { .. }));
    assert!(graph.edges().is_empty(), "a rejected edge is not added");
}


#[test]
fn a_fresh_generic_node_is_invalid_until_something_resolves_it() {
    let registry = registry();
    let mut graph = Graph::new("g");
    graph.add_node("test.generic_add");
    let errors = graph.validate(&registry).expect_err("nothing resolved T");
    assert!(
        errors
            .0
            .iter()
            .any(|e| matches!(e, GraphError::UnresolvedGeneric { param, .. } if param == "T")),
        "{errors:?}"
    );
}

#[test]
fn connecting_a_concrete_source_resolves_the_generic_target() {
    let registry = registry();
    let mut graph = Graph::new("g");
    let source = graph.add_node("test.vec");
    let add = graph.add_node("test.generic_add");
    graph
        .wire(&registry, (source, "out"), (add, "a"))
        .expect("vec3f is one of T's allowed types");
    assert_eq!(graph.generic_type(add, "T"), Some(ValueType::Vec3));

    assert_eq!(
        graph
            .node(add)
            .and_then(|node| node.params.get("b"))
            .copied(),
        Some(Value::Vec3(floats([0.0; 3])))
    );
    graph.validate(&registry).expect("resolved and fed");
}

#[test]
fn connecting_a_concrete_target_resolves_the_generic_source() {
    let registry = registry();
    let mut graph = Graph::new("g");
    let add = graph.add_node("test.generic_add");
    let sink = graph.add_node("test.vec");
    graph
        .wire(&registry, (add, "out"), (sink, "v"))
        .expect("vec3f is one of T's allowed types");
    assert_eq!(graph.generic_type(add, "T"), Some(ValueType::Vec3));
}

#[test]
fn a_mismatched_connection_to_an_already_resolved_generic_is_rejected() {
    let registry = registry();
    let mut graph = Graph::new("g");
    let vec_source = graph.add_node("test.vec");
    let f32_source = graph.add_node("test.const");
    let add = graph.add_node("test.generic_add");
    graph
        .wire(&registry, (vec_source, "out"), (add, "a"))
        .expect("resolves T to vec3f");

    let error = graph
        .wire(&registry, (f32_source, "out"), (add, "b"))
        .expect_err("f32 no longer matches T (vec3f)");
    assert!(matches!(error, GraphError::TypeMismatch { .. }));
    assert_eq!(graph.edges().len(), 1);
}

#[test]
fn two_generic_nodes_wired_together_stay_polymorphic_until_anchored() {
    let registry = registry();
    let mut graph = Graph::new("g");
    let first = graph.add_node("test.generic_negate");
    let second = graph.add_node("test.generic_negate");
    graph
        .wire(&registry, (first, "out"), (second, "a"))
        .expect("neither side is resolved yet, so nothing to check");
    assert_eq!(graph.generic_type(first, "T"), None);
    assert_eq!(graph.generic_type(second, "T"), None);

    let source = graph.add_node("test.vec");
    graph
        .wire(&registry, (source, "out"), (first, "a"))
        .expect("vec3f is allowed");
    assert_eq!(graph.generic_type(first, "T"), Some(ValueType::Vec3));
    assert_eq!(
        graph.generic_type(second, "T"),
        Some(ValueType::Vec3),
        "resolution should have propagated across the existing edge"
    );
}

#[test]
fn set_generic_rejects_a_type_the_parameter_does_not_allow() {
    let registry = registry();
    let mut graph = Graph::new("g");
    let add = graph.add_node("test.generic_add");
    let error = graph
        .set_generic(&registry, add, "T", ValueType::Vec4)
        .expect_err("vec4f is not in T's allowed set");
    assert!(matches!(
        error,
        GraphError::InvalidGenericType {
            ty: ValueType::Vec4,
            ..
        }
    ));
}

#[test]
fn set_generic_resolves_a_node_nothing_has_connected_yet() {
    let registry = registry();
    let mut graph = Graph::new("g");
    let add = graph.add_node("test.generic_add");
    let disconnected = graph
        .set_generic(&registry, add, "T", ValueType::F32)
        .expect("f32 is allowed");
    assert!(disconnected.is_empty(), "nothing was connected to disturb");
    assert_eq!(graph.generic_type(add, "T"), Some(ValueType::F32));
}

#[test]
fn repinning_disconnects_edges_that_no_longer_fit() {
    let registry = registry();
    let mut graph = Graph::new("g");
    let vec_source = graph.add_node("test.vec");
    let add = graph.add_node("test.generic_add");
    graph
        .wire(&registry, (vec_source, "out"), (add, "a"))
        .expect("resolves T to vec3f");
    assert_eq!(graph.edges().len(), 1);

    let disconnected = graph
        .set_generic(&registry, add, "T", ValueType::F32)
        .expect("f32 is allowed");
    assert_eq!(disconnected.len(), 1, "the now-mismatched edge came back");
    assert_eq!(disconnected[0].from.node, vec_source);
    assert!(graph.edges().is_empty(), "and is gone from the graph");
    assert_eq!(graph.generic_type(add, "T"), Some(ValueType::F32));
}

#[test]
fn a_resolved_generic_socket_checks_its_param_against_the_resolved_type() {
    let registry = registry();
    let mut graph = Graph::new("g");
    let add = graph.add_node("test.generic_add");
    graph
        .set_generic(&registry, add, "T", ValueType::Vec3)
        .expect("vec3f is allowed");
    graph.set_param(add, "a", Value::F32(float(1.0)));
    graph.set_param(add, "b", Value::Vec3(floats([0.0; 3])));
    let errors = graph.validate(&registry).expect_err("a is the wrong type");
    assert!(matches!(
        errors.0.as_slice(),
        [GraphError::ParamTypeMismatch {
            supplied: ValueType::F32,
            expected: ValueType::Vec3,
            ..
        }]
    ));
}

#[test]
fn a_fully_resolved_and_fed_generic_node_validates_and_compiles() {
    let registry = registry();
    let mut graph = Graph::new("g");
    let add = graph.add_node("test.generic_add");
    graph.set_param(add, "a", Value::Vec3(floats([1.0, 2.0, 3.0])));
    graph.set_param(add, "b", Value::Vec3(floats([4.0, 5.0, 6.0])));
    graph
        .set_generic(&registry, add, "T", ValueType::Vec3)
        .expect("vec3f is allowed");
    graph.validate(&registry).expect("fully resolved and fed");
}

#[test]
fn a_placed_node_starts_at_its_default_type_and_validates() {
    let registry = registry();
    let mut graph = Graph::new("g");
    let add = graph.add_resolved(&registry, Node::new("test.generic_add"));
    assert_eq!(graph.generic_type(add, "T"), Some(ValueType::F32));
    assert_eq!(
        graph
            .node(add)
            .and_then(|node| node.params.get("a"))
            .copied(),
        Some(Value::F32(float(0.0))),
        "a generic input has no fixed default, so it needs a pinned value"
    );
    graph.validate(&registry).expect("placed and complete");
}

#[test]
fn picking_a_type_carries_the_pinned_values_across() {
    let registry = registry();
    let mut graph = Graph::new("g");
    let add = graph.add_resolved(&registry, Node::new("test.generic_add"));
    graph.set_param(add, "a", Value::F32(float(0.5)));
    graph
        .set_generic(&registry, add, "T", ValueType::Vec3)
        .expect("vec3f is allowed");
    assert_eq!(
        graph
            .node(add)
            .and_then(|node| node.params.get("a"))
            .copied(),
        Some(Value::Vec3(floats([0.5; 3]))),
        "the value the author typed should widen, not become a mismatch"
    );
    graph.validate(&registry).expect("retyped and still fed");
}

#[test]
fn plugging_a_vector_into_a_scalar_socket_retypes_the_node() {
    let registry = registry();
    let mut graph = Graph::new("g");
    let source = graph.add_node("test.vec");
    let add = graph.add_resolved(&registry, Node::new("test.generic_add"));
    assert_eq!(graph.generic_type(add, "T"), Some(ValueType::F32));
    graph
        .wire(&registry, (source, "out"), (add, "a"))
        .expect("a wire retypes what only a default backs");
    assert_eq!(graph.generic_type(add, "T"), Some(ValueType::Vec3));
    graph.validate(&registry).expect("retyped and still fed");
}

#[test]
fn retyping_a_combined_output_solves_back_through_its_operands() {
    let registry = registry();
    let mut graph = Graph::new("g");
    let mul = graph.add_resolved(&registry, Node::new("test.product"));
    let sink = graph.add_node("test.vec");
    assert_eq!(graph.generic_type(mul, "A"), Some(ValueType::F32));
    graph
        .wire(&registry, (mul, "out"), (sink, "v"))
        .expect("A can become vec3f, which makes the product one");
    assert_eq!(graph.generic_type(mul, "A"), Some(ValueType::Vec3));
    assert_eq!(graph.generic_type(mul, "B"), Some(ValueType::F32));

    let def = registry.get("test.product").unwrap();
    let out = def.output("out").unwrap();
    assert_eq!(graph.effective_type(mul, out), Some(ValueType::Vec3));
    graph.validate(&registry).expect("solved and fed");
}

#[test]
fn retyping_stops_where_it_would_break_an_edge_that_already_exists() {
    let registry = registry();
    let mut graph = Graph::new("g");
    let mul = graph.add_resolved(&registry, Node::new("test.product"));
    let sink = graph.add_node("test.add");
    let vector = graph.add_node("test.vec");
    graph
        .wire(&registry, (mul, "out"), (sink, "a"))
        .expect("f32 * f32 is an f32");

    let error = graph
        .wire(&registry, (vector, "out"), (mul, "a"))
        .expect_err("retyping A would break the output's edge");
    assert!(
        matches!(error, GraphError::TypeMismatch { .. }),
        "{error:?}"
    );
    assert_eq!(graph.generic_type(mul, "A"), Some(ValueType::F32));
    assert_eq!(graph.edges().len(), 1, "and nothing was disconnected");
}

#[test]
fn resolving_one_operand_seeds_the_other() {
    let registry = registry();
    let mut graph = Graph::new("g");
    let source = graph.add_node("test.vec");
    let mul = graph.add_node("test.product");
    graph
        .wire(&registry, (source, "out"), (mul, "a"))
        .expect("A resolves to vec3f");
    assert_eq!(graph.generic_type(mul, "A"), Some(ValueType::Vec3));
    assert_eq!(
        graph.generic_type(mul, "B"),
        Some(ValueType::Vec3),
        "the other operand should follow, so the node is usable at once"
    );
    graph.set_param(mul, "b", Value::Vec3(floats([2.0; 3])));
    graph.validate(&registry).expect("complete from one wire");
}

#[test]
fn a_wire_beats_a_resolution_no_other_wire_backs() {
    let registry = registry();
    let mut graph = Graph::new("g");
    let vector = graph.add_node("test.vec");
    let scalar = graph.add_node("test.const");
    let mul = graph.add_node("test.product");
    graph
        .wire(&registry, (vector, "out"), (mul, "a"))
        .expect("A resolves to vec3f, B is seeded to match");
    assert_eq!(graph.generic_type(mul, "B"), Some(ValueType::Vec3));
    graph
        .wire(&registry, (scalar, "out"), (mul, "b"))
        .expect("a wire retypes a seeded parameter");
    assert_eq!(graph.generic_type(mul, "B"), Some(ValueType::F32));

    let def = registry.get("test.product").unwrap();
    let out = def.output("out").unwrap();
    assert_eq!(graph.effective_type(mul, out), Some(ValueType::Vec3));
    graph.validate(&registry).expect("vec3f * f32 is valid");
}

#[test]
fn an_explicit_pick_is_also_only_a_default_until_a_wire_backs_it() {
    let registry = registry();
    let mut graph = Graph::new("g");
    let vector = graph.add_node("test.vec");
    let negate = graph.add_node("test.generic_negate");
    graph
        .set_generic(&registry, negate, "T", ValueType::F32)
        .expect("f32 is allowed");
    graph
        .wire(&registry, (vector, "out"), (negate, "a"))
        .expect("the wire retypes an unbacked pick");
    assert_eq!(graph.generic_type(negate, "T"), Some(ValueType::Vec3));
}

#[test]
fn disconnecting_everything_forgets_both_of_two_parameters() {
    let registry = registry();
    let mut graph = Graph::new("g");
    let source = graph.add_node("test.const");
    let mul = graph.add_node("test.product");
    graph
        .wire(&registry, (source, "out"), (mul, "a"))
        .expect("A resolves to f32, B is seeded to match");
    assert_eq!(graph.generic_type(mul, "A"), Some(ValueType::F32));
    assert_eq!(graph.generic_type(mul, "B"), Some(ValueType::F32));

    graph
        .disconnect(&registry, &SocketRef::new(mul, "a"))
        .expect("there was an edge");
    let default = registry.get("test.product").unwrap().default_generics();
    assert_eq!(graph.generic_type(mul, "A"), Some(*default.get("A").unwrap()));
    assert_eq!(
        graph.generic_type(mul, "B"),
        Some(*default.get("B").unwrap()),
        "a seeded parameter is released with the one that seeded it"
    );
    graph.validate(&registry).expect("resolved and fed");
}

#[test]
fn unplugging_a_combined_output_keeps_what_the_operands_still_say() {
    let registry = registry();
    let mut graph = Graph::new("g");
    let source = graph.add_node("test.vec");
    let mul = graph.add_node("test.product");
    let sink = graph.add_node("test.vec");
    graph
        .wire(&registry, (source, "out"), (mul, "a"))
        .expect("A resolves to vec3f, B is seeded to match");
    graph
        .wire(&registry, (mul, "out"), (sink, "v"))
        .expect("vec3f * vec3f is a vec3f");

    graph
        .disconnect(&registry, &SocketRef::new(sink, "v"))
        .expect("there was an edge");
    assert_eq!(graph.generic_type(mul, "A"), Some(ValueType::Vec3));
    assert_eq!(graph.generic_type(mul, "B"), Some(ValueType::Vec3));
}

#[test]
fn disconnecting_every_edge_releases_a_generic_resolution() {
    let registry = registry();
    let mut graph = Graph::new("g");
    let source = graph.add_node("test.vec");
    let add = graph.add_node("test.generic_add");
    graph
        .wire(&registry, (source, "out"), (add, "a"))
        .expect("resolves T to vec3f");
    assert_eq!(graph.generic_type(add, "T"), Some(ValueType::Vec3));

    graph
        .disconnect(&registry, &SocketRef::new(add, "a"))
        .expect("there was an edge");
    assert_eq!(
        graph.generic_type(add, "T"),
        Some(ValueType::F32),
        "nothing constrains T anymore, so it falls back to the default"
    );

    let vec_source = graph.add_node("test.vec");
    graph
        .wire(&registry, (vec_source, "out"), (add, "a"))
        .expect("T is free to become vec3f now");
    assert_eq!(graph.generic_type(add, "T"), Some(ValueType::Vec3));
}

#[test]
fn removing_a_node_releases_a_surviving_neighbors_generic_resolution() {
    let registry = registry();
    let mut graph = Graph::new("g");
    let source = graph.add_node("test.vec");
    let add = graph.add_node("test.generic_add");
    graph
        .wire(&registry, (source, "out"), (add, "a"))
        .expect("resolves T to vec3f");
    assert_eq!(graph.generic_type(add, "T"), Some(ValueType::Vec3));

    graph.remove_node(&registry, source).expect("it existed");
    assert_eq!(
        graph.generic_type(add, "T"),
        Some(ValueType::F32),
        "its only connection went with the node that made it, so `T` \
         is back to the default rather than stuck or unresolved"
    );
    graph.validate(&registry).expect("resolved and fed");
}

#[test]
fn a_node_still_wired_to_another_generic_node_keeps_its_resolution() {
    let registry = registry();
    let mut graph = Graph::new("g");
    let first = graph.add_node("test.generic_negate");
    let second = graph.add_node("test.generic_negate");
    graph
        .wire(&registry, (first, "out"), (second, "a"))
        .expect("both stay polymorphic");
    let sink = graph.add_node("test.vec");
    graph
        .wire(&registry, (second, "out"), (sink, "v"))
        .expect("resolves the whole chain to vec3f");
    assert_eq!(graph.generic_type(first, "T"), Some(ValueType::Vec3));
    assert_eq!(graph.generic_type(second, "T"), Some(ValueType::Vec3));

    graph
        .disconnect(&registry, &SocketRef::new(sink, "v"))
        .unwrap();
    assert_eq!(
        graph.generic_type(second, "T"),
        Some(ValueType::Vec3),
        "second is still wired to first, so it keeps its resolution"
    );
}

#[test]
fn a_combined_output_adapts_to_a_scalar_and_a_vector_operand() {
    let registry = registry();
    let mut graph = Graph::new("g");
    let scalar = graph.add_node("test.const");
    let vector = graph.add_node("test.vec");
    let mul = graph.add_node("test.product");
    graph
        .wire(&registry, (scalar, "out"), (mul, "a"))
        .expect("A resolves to f32");
    graph
        .wire(&registry, (vector, "out"), (mul, "b"))
        .expect("B resolves to vec3f");

    let def = registry.get("test.product").unwrap();
    let out = def.output("out").unwrap();
    assert_eq!(graph.effective_type(mul, out), Some(ValueType::Vec3));
    graph.validate(&registry).expect("f32 * vec3f is valid");
}

#[test]
fn mismatched_combined_operands_are_reported_but_do_not_block_connecting() {
    let registry = registry();
    let mut graph = Graph::new("g");
    let two = graph.add_node("test.product");
    graph
        .set_generic(&registry, two, "A", ValueType::Vec2)
        .unwrap();
    graph
        .set_generic(&registry, two, "B", ValueType::Vec3)
        .unwrap();

    let def = registry.get("test.product").unwrap();
    let out = def.output("out").unwrap();
    assert_eq!(
        graph.effective_type(two, out),
        None,
        "vec2f and vec3f do not combine"
    );
    graph.set_param(two, "a", Value::Vec2(floats([0.0; 2])));
    graph.set_param(two, "b", Value::Vec3(floats([0.0; 3])));
    let errors = graph
        .validate(&registry)
        .expect_err("incompatible operands");
    assert!(
        errors
            .0
            .iter()
            .any(|e| matches!(e, GraphError::IncompatibleGenerics { .. })),
        "{errors:?}"
    );
}

#[test]
fn repinning_one_combined_operand_disconnects_a_now_mismatched_output() {
    let registry = registry();
    let mut graph = Graph::new("g");
    let mul = graph.add_node("test.product");
    let sink = graph.add_node("test.vec");
    graph
        .set_generic(&registry, mul, "A", ValueType::Vec3)
        .unwrap();
    graph
        .set_generic(&registry, mul, "B", ValueType::F32)
        .unwrap();
    graph.wire(&registry, (mul, "out"), (sink, "v")).unwrap();

    let disconnected = graph
        .set_generic(&registry, mul, "B", ValueType::Vec2)
        .expect("vec2f is allowed for B");
    assert_eq!(disconnected.len(), 1, "the output's stale edge came back");
    assert_eq!(disconnected[0].to.node, sink);
    assert!(graph.edges().is_empty());
}

#[test]
fn connect_rejects_unknown_sockets() {
    let registry = registry();
    let mut graph = Graph::new("g");
    let a = graph.add_node("test.const");
    let b = graph.add_node("test.add");
    assert!(matches!(
        graph.wire(&registry, (a, "nope"), (b, "a")),
        Err(GraphError::UnknownSocket {
            direction: Direction::Output,
            ..
        })
    ));
    assert!(matches!(
        graph.wire(&registry, (a, "out"), (b, "nope")),
        Err(GraphError::UnknownSocket {
            direction: Direction::Input,
            ..
        })
    ));
}

#[test]
fn inputs_take_exactly_one_edge() {
    let registry = registry();
    let mut graph = Graph::new("g");
    let a = graph.add_node("test.const");
    let b = graph.add_node("test.const");
    let add = graph.add_node("test.add");
    graph.wire(&registry, (a, "out"), (add, "a")).unwrap();
    assert!(matches!(
        graph.wire(&registry, (b, "out"), (add, "a")),
        Err(GraphError::InputAlreadyConnected { .. })
    ));
    graph
        .disconnect(&registry, &SocketRef::new(add, "a"))
        .unwrap();
    graph.wire(&registry, (b, "out"), (add, "a")).unwrap();
}

#[test]
fn cycles_are_rejected_at_connect_time() {
    let registry = registry();
    let mut graph = Graph::new("g");
    let first = graph.add_node("test.add");
    let second = graph.add_node("test.add");
    graph
        .wire(&registry, (first, "out"), (second, "a"))
        .unwrap();
    assert!(matches!(
        graph.wire(&registry, (second, "out"), (first, "a")),
        Err(GraphError::WouldCycle { .. })
    ));
    assert!(matches!(
        graph.wire(&registry, (first, "out"), (first, "b")),
        Err(GraphError::WouldCycle { .. })
    ));
    assert_eq!(graph.edges().len(), 1);
    graph.validate(&registry).expect("still a valid DAG");
}

#[test]
fn topological_order_respects_dependencies() {
    let registry = registry();
    let mut graph = Graph::new("g");
    let a = graph.add_node("test.const");
    let b = graph.add_node("test.add");
    let c = graph.add_node("test.add");
    graph.wire(&registry, (a, "out"), (b, "a")).unwrap();
    graph.wire(&registry, (b, "out"), (c, "a")).unwrap();
    let order = graph.topological_order(None).unwrap();
    let position = |id: NodeId| order.iter().position(|x| *x == id).unwrap();
    assert!(position(a) < position(b));
    assert!(position(b) < position(c));

    let subset = graph.dependencies_of(b);
    let order = graph.topological_order(Some(&subset)).unwrap();
    assert_eq!(order, vec![a, b]);
}

#[test]
fn removing_a_node_removes_its_edges() {
    let registry = registry();
    let mut graph = Graph::new("g");
    let a = graph.add_node("test.const");
    let b = graph.add_node("test.add");
    graph.wire(&registry, (a, "out"), (b, "a")).unwrap();
    graph.remove_node(&registry, a).unwrap();
    assert!(graph.edges().is_empty());
    assert!(graph.node(a).is_none());
    let c = graph.add_node("test.const");
    assert_ne!(c, a);
}

#[test]
fn validate_reports_every_problem_at_once() {
    let registry = registry();
    let mut graph = Graph::new("g");
    let missing = graph.add(Node::new("test.required"));
    let unknown_def = graph.add(Node::new("test.does_not_exist"));
    let bad_param = graph.add(Node::new("test.add").with_param("a", Value::Vec3(floats([0.0; 3]))));
    let unknown_param = graph.add(Node::new("test.add").with_param("nope", Value::F32(float(1.0))));

    let errors = graph.validate(&registry).expect_err("graph is invalid");
    assert_eq!(errors.len(), 4, "{}", errors.text());
    assert!(errors.0.iter().any(|e| matches!(
        e,
        GraphError::MissingInput { socket } if socket.node == missing
    )));
    assert!(errors.0.iter().any(
        |e| matches!(e, GraphError::UnknownDefinition { node, .. } if *node == unknown_def)
    ));
    assert!(errors.0.iter().any(|e| matches!(
        e,
        GraphError::ParamTypeMismatch { socket, .. } if socket.node == bad_param
    )));
    assert!(errors
        .0
        .iter()
        .any(|e| matches!(e, GraphError::UnknownParam { node, .. } if *node == unknown_param)));
}

#[test]
fn a_pinned_parameter_satisfies_a_required_input() {
    let registry = registry();
    let mut graph = Graph::new("g");
    graph.add(Node::new("test.required").with_param("must", Value::F32(float(0.25))));
    graph.validate(&registry).unwrap();
}
