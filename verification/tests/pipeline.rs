//! The vocabulary of pipeline documents.

use wxsl_core::float::Float;
use wxsl_core::graph::Graph;
use wxsl_core::node::ValueType;
use wxsl_core::pipeline::{registry, NODE_IDS, PRESENT, SOURCE_SCENE};
use wxsl_core::GraphError;

#[test]
fn the_vocabulary_registers_without_collisions() {
    let registry = registry();
    assert_eq!(registry.len(), NODE_IDS.len());
    for id in NODE_IDS {
        let def = registry
            .get(id)
            .unwrap_or_else(|| panic!("{id} is listed but not registered"));
        assert!(def.is_document(), "{id} is not a document node");
        assert_eq!(def.category, id.split('.').next().unwrap_or(id));
    }
}

#[test]
fn handle_types_never_reach_a_shader_socket() {
    for ty in ValueType::PIPELINE_RESOURCES {
        let name = ty.wxsl_type();
        assert!(!ValueType::ALL.contains(&ty), "{name} leaked into ALL");
        assert!(!ValueType::RESOURCES.contains(&ty), "{name} leaked into RESOURCES");
        assert!(ty.is_resource(), "{name} must behave as a resource when typed");
        assert!(ty.zero().is_none(), "{name} has no zero");
        assert!(ty.splat(Float { bits: 1.0f32.to_bits() }).is_none(), "{name} has no splat");
    }
}

#[test]
fn a_pipeline_document_validates_as_a_graph() {
    let registry = registry();
    let mut graph = Graph::new("empty");
    graph.add_node(SOURCE_SCENE);
    graph.add_node(PRESENT);
    let errors = graph
        .validate(&registry)
        .expect_err("an unfed mandatory input is a graph error");
    // `present.surface` is mandatory and nothing feeds it.
    assert!(
        errors
            .0
            .iter()
            .any(|error| matches!(error, GraphError::MissingInput { .. })),
        "expected the unfed `surface` input to be reported: {}",
        errors.text()
    );
}

#[test]
fn handle_types_do_not_combine_as_values() {
    assert_eq!(ValueType::DrawQueue.componentwise(ValueType::DrawQueue), None);
    assert_eq!(ValueType::ColorTarget.product(ValueType::ColorTarget), None);
    assert_eq!(ValueType::DepthTarget.componentwise(ValueType::F32), None);
}
