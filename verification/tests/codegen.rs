//! Compiling a graph.

use wxsl_core::abi;
use wxsl_core::codegen::{generate, CodegenOptions, GeneratedShader};
use wxsl_core::error::CodegenError;
use wxsl_core::expr::as_atom;
use wxsl_core::float::Float;
use wxsl_core::graph::{Graph, Node};
use wxsl_core::macros::{MacroDef, MacroValue};
use wxsl_core::node::{
    GenericParam, NodeDefinition, NodeRegistry, Socket, Value, ValueType, WxslFunction,
};
use wxsl_core::GraphError;

fn float(x: f32) -> Float {
    Float { bits: x.to_bits() }
}

fn floats<const N: usize>(xs: [f32; N]) -> [Float; N] {
    xs.map(float)
}

fn registry() -> NodeRegistry {
    let mut registry = NodeRegistry::new();
    registry.register(abi::surface_output_def());
    registry.register_all(abi::context_node_defs());
    registry.register_all(vec![
        NodeDefinition::builder("math.multiply.f32", "Multiply")
            .input(Socket::new("a", ValueType::F32).with_splat_default(float(1.0)))
            .input(Socket::new("b", ValueType::F32).with_splat_default(float(1.0)))
            .output(Socket::new("out", ValueType::F32))
            .expr("{a} * {b}"),
        NodeDefinition::builder("math.negate.f32", "Negate")
            .input(Socket::new("a", ValueType::F32).with_splat_default(float(0.0)))
            .output(Socket::new("out", ValueType::F32))
            .expr("-{a}"),
        NodeDefinition::builder("test.macro_user", "Macro user")
            .macro_var(MacroDef::new(
                "WXSL_TEST_SCALE",
                MacroValue::Float(float(2.0)),
                "test scale",
            ))
            .macro_var(MacroDef::new(
                "wxsl_test_flag",
                MacroValue::Flag(false),
                "test flag",
            ))
            .input(Socket::new("a", ValueType::F32).with_splat_default(float(1.0)))
            .output(Socket::new("out", ValueType::F32))
            .expr("{a} * WXSL_TEST_SCALE"),
        NodeDefinition::builder("test.generic_add", "Generic add")
            .generic_param(GenericParam::new(
                "T",
                vec![ValueType::F32, ValueType::Vec3],
            ))
            .input(Socket::new("a", ValueType::F32).generic("T"))
            .input(Socket::new("b", ValueType::F32).generic("T"))
            .output(Socket::new("out", ValueType::F32).generic("T"))
            .expr("{a} + {b}"),
        NodeDefinition::builder("test.split", "Split").call(WxslFunction::new_struct(
            "package::test",
            "split_value",
            vec![Socket::new("value", ValueType::F32).with_splat_default(float(0.0))],
            "SplitResult",
            vec![
                Socket::new("low", ValueType::F32),
                Socket::new("high", ValueType::F32),
            ],
        )),
    ]);
    registry
}

fn generate_default(graph: &Graph, registry: &NodeRegistry) -> GeneratedShader {
    generate(graph, registry, &CodegenOptions::default()).expect("codegen succeeds")
}

#[test]
fn a_shared_node_is_computed_in_the_vertex_stage_and_interpolated_down() {
    let mut registry = NodeRegistry::new();
    registry.register(abi::surface_output_def());
    registry.register(abi::vertex_output_def());
    registry.register_all(abi::context_node_defs());
    registry.register_all(vec![NodeDefinition::builder("test.vec3", "Vec3")
        .input(Socket::new("a", ValueType::F32).with_splat_default(float(0.5)))
        .output(Socket::new("out", ValueType::Vec3))
        .expr("vec3f({a})")]);
    let mut graph = Graph::new("cut");
    let value = graph.add(Node::new("test.vec3"));
    let surface = graph.add(Node::new(abi::SURFACE_OUTPUT_ID));
    let vertex = graph.add(Node::new(abi::VERTEX_OUTPUT_ID));
    graph
        .wire(&registry, (value, "out"), (surface, "base_color"))
        .expect("vec3 into base_color");
    graph
        .wire(
            &registry,
            (value, "out"),
            (vertex, abi::SOCKET_POSITION_OFFSET),
        )
        .expect("vec3 into the offset");

    let shader = generate_default(&graph, &registry);
    assert!(
        shader
            .source
            .contains("fn wxsl_varying_auto0(vtx: VertexContext"),
        "{})",
        shader.source
    );
    assert!(
        shader
            .source
            .contains("out.auto0 = wxsl_varying_auto0(vtx, attrs);"),
        "{}",
        shader.source
    );
    assert!(shader.source.contains("attrs.auto0"), "{}", shader.source);
    assert!(
        shader.source.contains("surface.base_color = attrs.auto0;"),
        "{}",
        shader.source
    );

    let options = CodegenOptions {
        stage: abi::MaterialStage::DEPTH_ONLY,
        ..CodegenOptions::default()
    };
    let depth = generate(&graph, &registry, &options).expect("depth compiles");
    assert!(
        !depth.source.contains("wxsl_varying_auto0"),
        "the depth module should not compute the cut:\n{}",
        depth.source
    );
}

#[test]
fn a_bare_output_node_still_compiles_to_a_material() {
    let registry = registry();
    let mut graph = Graph::new("bare");
    graph.add_node(abi::SURFACE_OUTPUT_ID);
    let shader = generate_default(&graph, &registry);

    assert!(shader
        .source
        .contains("fn wxsl_material(ctx: SurfaceContext) -> Surface"));
    assert!(shader
        .source
        .contains("var surface: Surface = default_surface(ctx);"));
    assert!(!shader.source.contains("surface.normal ="));
    assert!(shader
        .source
        .contains("surface.base_color = vec3f(0.8, 0.8, 0.8);"));
    assert!(shader
        .source
        .contains("fn fs_forward_lit(vertex: VertexOut)"));
    assert_eq!(shader.source.matches("@fragment").count(), 1);
    assert_eq!(shader.source.matches("@if(wxsl_debug_normals)").count(), 1);
    assert_eq!(shader.source.matches("@if(!wxsl_debug_normals)").count(), 1);
}

#[test]
fn each_stage_emits_its_own_entry_point_and_imports_only_what_it_calls() {
    let registry = registry();
    let mut graph = Graph::new("stages");
    graph.add_node(abi::SURFACE_OUTPUT_ID);

    let module = |stage: abi::MaterialStage| {
        let options = CodegenOptions {
            stage,
            ..CodegenOptions::default()
        };
        generate(&graph, &registry, &options)
            .expect("compiles")
            .source
    };

    let forward = module(abi::MaterialStage::FORWARD_LIT);
    assert!(forward.contains("fn fs_forward_lit(vertex: VertexOut) -> @location(0) vec4f"));
    assert!(forward.contains("shade_surface"));
    assert!(!forward.contains("pack_gbuffer"));

    let gbuffer = module(abi::MaterialStage::GBUFFER);
    assert!(gbuffer.contains("fn fs_gbuffer(vertex: VertexOut) -> GBuffer"));
    assert!(gbuffer.contains("pack_gbuffer"));
    assert!(!gbuffer.contains("shade_surface"));

    let depth = module(abi::MaterialStage::DEPTH_ONLY);
    assert!(depth.contains("fn vs_main(input: VertexIn) -> VertexOut"));
    assert!(!depth.contains("@fragment"));
    assert!(!depth.contains("shade_surface"));
    assert!(!depth.contains("pack_gbuffer"));
    assert!(!depth.contains("fn wxsl_material"));
    let shadow = module(abi::MaterialStage::SHADOW);
    assert!(!shadow.contains("fn wxsl_material"));

    for pair in [(&forward, &gbuffer), (&forward, &depth), (&gbuffer, &depth)] {
        assert_ne!(pair.0, pair.1);
    }
}

#[test]
fn nodes_are_emitted_in_dependency_order_with_typed_bindings() {
    let registry = registry();
    let mut graph = Graph::new("chain");
    let uv = graph.add_node("input.uv");
    let time = graph.add_node("input.time");
    let scaled = graph.add(Node::new("math.multiply.f32").with_param("b", Value::F32(float(3.0))));
    let out = graph.add_node(abi::SURFACE_OUTPUT_ID);
    graph.wire(&registry, (time, "out"), (scaled, "a")).unwrap();
    graph
        .wire(&registry, (scaled, "out"), (out, "roughness"))
        .unwrap();
    let _ = uv;

    let shader = generate_default(&graph, &registry);
    assert!(
        shader.source.contains("let n3_out: f32 = ctx.time * 3.0;"),
        "{}",
        shader.source
    );
    assert!(shader.source.contains("surface.roughness = n3_out;"));
    assert!(!shader.source.contains("ctx.uv"), "dead nodes are dropped");
}

#[test]
fn a_type_placeholder_emits_the_resolved_type_name() {
    let mut registry = registry();
    registry.register(
        NodeDefinition::builder("test.splat", "Splat")
            .generic_param(GenericParam::new("T", vec![ValueType::Vec3]))
            .input(Socket::new("value", ValueType::F32).with_splat_default(float(0.5)))
            .output(Socket::new("out", ValueType::F32).generic("T"))
            .expr("{$T}({value})"),
    );
    let mut graph = Graph::new("splat");
    let splat = graph.add_node("test.splat");
    let out = graph.add_node(abi::SURFACE_OUTPUT_ID);
    graph
        .wire(&registry, (splat, "out"), (out, "base_color"))
        .expect("T resolves to vec3f");

    let shader = generate_default(&graph, &registry);
    assert!(
        shader.source.contains("let n1_out: vec3f = vec3f(0.5);"),
        "{}",
        shader.source
    );
}

#[test]
fn a_generic_function_node_writes_its_type_arguments() {
    let mut registry = registry();
    registry.register(
        NodeDefinition::builder("test.generic_call", "Generic call")
            .generic_param(GenericParam::new(
                "T",
                vec![ValueType::Vec3, ValueType::Vec4],
            ))
            .call(WxslFunction::new(
                "package::test::identity",
                "identity",
                vec![Socket::new("v", ValueType::F32)
                    .generic("T")
                    .with_splat_default(float(1.0))],
                Socket::new("out", ValueType::F32).generic("T"),
            )),
    );
    let mut graph = Graph::new("call");
    let call = graph.add_node("test.generic_call");
    let out = graph.add_node(abi::SURFACE_OUTPUT_ID);
    graph
        .wire(&registry, (call, "out"), (out, "base_color"))
        .expect("T resolves to vec3f");

    let shader = generate_default(&graph, &registry);
    assert!(
        shader
            .source
            .contains("let n1_call: vec3f = identity<vec3f>(vec3f(1.0, 1.0, 1.0));"),
        "{}",
        shader.source
    );
}

#[test]
fn a_generic_node_emits_its_resolved_type_not_the_placeholder() {
    let registry = registry();

    let mut vec_graph = Graph::new("vec");
    let color = vec_graph.add_node("input.world_position");
    let add = vec_graph
        .add(Node::new("test.generic_add").with_param("b", Value::Vec3(floats([1.0, 2.0, 3.0]))));
    let out = vec_graph.add_node(abi::SURFACE_OUTPUT_ID);
    vec_graph
        .wire(&registry, (color, "out"), (add, "a"))
        .unwrap();
    vec_graph
        .wire(&registry, (add, "out"), (out, "base_color"))
        .unwrap();
    let shader = generate_default(&vec_graph, &registry);
    assert!(
        shader.source.contains(": vec3f = ") && shader.source.contains(" + vec3f("),
        "expected a vec3f binding and a vec3f literal, got:\n{}",
        shader.source
    );
    assert!(!shader.source.contains(": f32 ="), "{}", shader.source);

    let mut scalar_graph = Graph::new("scalar");
    let add = scalar_graph.add(
        Node::new("test.generic_add")
            .with_param("a", Value::F32(float(1.0)))
            .with_param("b", Value::F32(float(2.0))),
    );
    scalar_graph
        .set_generic(&registry, add, "T", ValueType::F32)
        .expect("f32 is allowed");
    let out = scalar_graph.add_node(abi::SURFACE_OUTPUT_ID);
    scalar_graph
        .wire(&registry, (add, "out"), (out, "roughness"))
        .unwrap();
    let shader = generate_default(&scalar_graph, &registry);
    assert!(
        shader.source.contains(": f32 = 1.0 + 2.0;"),
        "{}",
        shader.source
    );
}

#[test]
fn atoms_are_recognized_and_everything_else_is_wrapped() {
    for atom in [
        "n1_out",
        "ctx.world_normal",
        "0.5",
        "vec3f(1.0, 0.0, 0.0)",
        "f(g(x))",
    ] {
        assert_eq!(as_atom(atom), atom, "`{atom}` should not be wrapped");
    }
    for compound in ["-1.0", "a + b", "f(x) * 2.0", "(a)", ""] {
        assert_eq!(as_atom(compound), format!("({compound})"));
    }
}

#[test]
fn substituted_expressions_are_parenthesized_when_needed() {
    let registry = registry();
    let mut graph = Graph::new("negate");
    let negate = graph.add(Node::new("math.negate.f32").with_param("a", Value::F32(float(-1.0))));
    let out = graph.add_node(abi::SURFACE_OUTPUT_ID);
    graph
        .wire(&registry, (negate, "out"), (out, "metallic"))
        .unwrap();

    let shader = generate_default(&graph, &registry);
    assert!(
        shader.source.contains("let n1_out: f32 = -(-1.0);"),
        "{}",
        shader.source
    );
}

#[test]
fn struct_returning_functions_are_called_once_for_all_outputs() {
    let registry = registry();
    let mut graph = Graph::new("split");
    let split = graph.add(Node::new("test.split").with_param("value", Value::F32(float(0.5))));
    let out = graph.add_node(abi::SURFACE_OUTPUT_ID);
    graph
        .wire(&registry, (split, "low"), (out, "metallic"))
        .unwrap();
    graph
        .wire(&registry, (split, "high"), (out, "roughness"))
        .unwrap();

    let shader = generate_default(&graph, &registry);
    assert_eq!(shader.source.matches("split_value(").count(), 1);
    assert!(shader.source.contains("surface.metallic = n1_call.low;"));
    assert!(shader.source.contains("surface.roughness = n1_call.high;"));
    assert!(shader
        .source
        .contains("import package::test::{SplitResult, split_value};"));
}

#[test]
fn macros_reach_the_shader_as_consts_and_features() {
    let registry = registry();
    let mut graph = Graph::new("macros");
    let user = graph.add_node("test.macro_user");
    let out = graph.add_node(abi::SURFACE_OUTPUT_ID);
    graph
        .wire(&registry, (user, "out"), (out, "roughness"))
        .unwrap();

    let shader = generate_default(&graph, &registry);
    assert_eq!(
        shader.macros.get("WXSL_TEST_SCALE"),
        Some(MacroValue::Float(float(2.0)))
    );
    assert_eq!(
        shader.macros.get("wxsl_test_flag"),
        Some(MacroValue::Flag(false))
    );
    assert!(
        shader
            .source
            .contains("@macro const WXSL_TEST_SCALE: f32 = 2.0;"),
        "{}",
        shader.source
    );
    assert!(
        shader
            .source
            .contains("@macro const wxsl_test_flag: bool = false;"),
        "{}",
        shader.source
    );
    assert!(!shader.source.contains("package::wxsl::macros"));

    graph.set_macro("WXSL_TEST_SCALE", MacroValue::Float(float(8.0)));
    graph.set_macro("wxsl_test_flag", MacroValue::Flag(true));
    let pinned = generate_default(&graph, &registry);
    assert!(
        pinned
            .source
            .contains("@macro const WXSL_TEST_SCALE: f32 = 8.0;"),
        "{}",
        pinned.source
    );
    assert_eq!(
        pinned.macros.get("wxsl_test_flag"),
        Some(MacroValue::Flag(true))
    );

    let differing: Vec<(&str, &str)> = shader
        .source
        .lines()
        .zip(pinned.source.lines())
        .filter(|(a, b)| a != b)
        .collect();
    assert_eq!(differing.len(), 3, "{differing:?}");
    assert!(differing[0].0.starts_with("// Macros:"));
    assert!(differing[1].0.contains("WXSL_TEST_SCALE: f32 = 2.0"));
    assert!(differing[2].0.contains("wxsl_test_flag: bool = false"));

    assert_ne!(shader.variant_key(), pinned.variant_key());
}

#[test]
fn a_graph_with_no_output_node_is_an_error() {
    let registry = registry();
    let mut graph = Graph::new("headless");
    graph.add_node("input.uv");
    assert_eq!(
        generate(&graph, &registry, &CodegenOptions::default()),
        Err(CodegenError::NoOutputNode)
    );

    graph.add_node(abi::SURFACE_OUTPUT_ID);
    graph.add_node(abi::SURFACE_OUTPUT_ID);
    let Err(CodegenError::Invalid(errors)) =
        generate(&graph, &registry, &CodegenOptions::default())
    else {
        panic!("two surface outputs is an error");
    };
    assert!(
        errors.0.iter().any(
            |error| matches!(error, GraphError::DuplicateOutput { nodes, .. }
                if nodes.len() == 2)
        ),
        "{errors:?}"
    );
}

#[test]
fn generation_is_reproducible() {
    let registry = registry();
    let mut graph = Graph::new("repro");
    let out = graph.add_node(abi::SURFACE_OUTPUT_ID);
    let time = graph.add_node("input.time");
    graph
        .wire(&registry, (time, "out"), (out, "roughness"))
        .unwrap();
    let first = generate_default(&graph, &registry);
    let second = generate_default(&graph, &registry);
    assert_eq!(first, second);
    assert_eq!(first.variant_key(), second.variant_key());
}

#[test]
fn entry_points_can_be_left_out() {
    let registry = registry();
    let mut graph = Graph::new("material-only");
    graph.add_node(abi::SURFACE_OUTPUT_ID);
    let options = CodegenOptions {
        emit_entry_points: false,
        ..CodegenOptions::default()
    };
    let shader = generate(&graph, &registry, &options).unwrap();
    assert!(!shader.source.contains("@vertex"));
    assert!(!shader.source.contains("@fragment"));
    assert!(shader.source.contains("fn wxsl_material"));
}
