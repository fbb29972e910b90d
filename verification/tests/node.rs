//! Types, values and definitions of nodes.

use wxsl_core::float::Float;
use wxsl_core::node::{
    GenericParam, NodeDefinition, NodeRegistry, Socket, TypeRule, Value, ValueType, WxslFunction,
};

fn float(x: f32) -> Float {
    Float { bits: x.to_bits() }
}

#[test]
fn value_literals_are_wgsl_shaped() {
    assert_eq!(Value::F32(float(1.0)).wxsl_literal().unwrap(), "1.0");
    assert_eq!(Value::I32(-2).wxsl_literal().unwrap(), "-2i");
    assert_eq!(Value::U32(7).wxsl_literal().unwrap(), "7u");
    assert_eq!(Value::Bool(true).wxsl_literal().unwrap(), "true");
    assert_eq!(
        Value::Vec3([float(0.5), float(1.0), float(0.0)]).wxsl_literal().unwrap(),
        "vec3f(0.5, 1.0, 0.0)"
    );
    assert!(Value::Vec2([float(1.0), float(f32::NAN)]).wxsl_literal().is_none());
}

#[test]
fn builder_derives_category_from_id() {
    let def = NodeDefinition::builder("math.add.f32", "Add")
        .input(Socket::new("a", ValueType::F32).with_splat_default(float(0.0)))
        .input(Socket::new("b", ValueType::F32).with_splat_default(float(0.0)))
        .output(Socket::new("out", ValueType::F32))
        .expr("{a} + {b}");
    assert_eq!(def.category, "math");
    assert_eq!(def.inputs.len(), 2);
    assert!(!def.is_surface_output());
}

#[test]
fn function_nodes_take_their_interface_from_the_function() {
    let func = WxslFunction::new_struct(
        "package::lighting::pbr",
        "pbr_split",
        vec![Socket::new("normal", ValueType::Vec3)],
        "PbrSplit",
        vec![
            Socket::new("diffuse", ValueType::Vec3),
            Socket::new("specular", ValueType::Vec3),
        ],
    );
    let def = NodeDefinition::from_function("lighting.pbr_split", "PBR split", "", func);
    assert_eq!(def.inputs.len(), 1);
    assert_eq!(def.outputs.len(), 2);
    // Both the function and its return struct must be imported.
    assert_eq!(def.all_imports().len(), 2);
}

#[test]
fn componentwise_spreads_a_scalar_and_rejects_everything_else() {
    for ty in ValueType::ALL {
        assert_eq!(ty.componentwise(ty), Some(ty), "{} with itself", ty.wxsl_type());
    }
    for wide in ValueType::VECTORS {
        assert_eq!(ValueType::F32.componentwise(wide), Some(wide));
        assert_eq!(wide.componentwise(ValueType::F32), Some(wide));
    }
    assert_eq!(ValueType::Vec2.componentwise(ValueType::Vec3), None);
    // A scalar does not spread into a matrix.
    assert_eq!(ValueType::F32.componentwise(ValueType::Mat3), None);
    assert_eq!(ValueType::Mat3.componentwise(ValueType::Mat4), None);
}

#[test]
fn product_adds_the_linear_algebra_on_top_of_componentwise() {
    // Everything componentwise allows still holds.
    assert_eq!(ValueType::F32.product(ValueType::Vec3), Some(ValueType::Vec3));
    assert_eq!(ValueType::Vec3.product(ValueType::Vec3), Some(ValueType::Vec3));
    // Plus what only `*` allows.
    for m in ValueType::MATRICES {
        assert_eq!(ValueType::F32.product(m), Some(m));
        assert_eq!(m.product(ValueType::F32), Some(m));
        assert_eq!(m.product(m), Some(m));
    }
    assert_eq!(ValueType::Mat3.product(ValueType::Vec3), Some(ValueType::Vec3));
    assert_eq!(ValueType::Vec3.product(ValueType::Mat3), Some(ValueType::Vec3));
    assert_eq!(ValueType::Mat4.product(ValueType::Vec4), Some(ValueType::Vec4));
    // And nothing more: a matrix only meets a vector of its own size.
    assert_eq!(ValueType::Mat3.product(ValueType::Vec4), None);
    assert_eq!(ValueType::Mat4.product(ValueType::Vec3), None);
    assert_eq!(ValueType::Mat3.product(ValueType::Mat4), None);
}

#[test]
fn combining_does_not_care_which_side_is_which() {
    for a in ValueType::ALL {
        for b in ValueType::ALL {
            assert_eq!(a.componentwise(b), b.componentwise(a));
            assert_eq!(a.product(b), b.product(a));
            if let Some(ty) = a.componentwise(b) {
                assert_eq!(a.product(b), Some(ty));
            }
        }
    }
    assert_eq!(TypeRule::Product.apply(ValueType::Mat3, ValueType::Vec3), Some(ValueType::Vec3));
    assert_eq!(TypeRule::Componentwise.apply(ValueType::Mat3, ValueType::Vec3), None);
}

#[test]
fn a_definition_must_declare_what_its_sockets_follow() {
    let builder = NodeDefinition::builder("math.bogus_combined", "Bogus")
        .generic_param(GenericParam::new("A", vec![ValueType::F32]))
        .input(Socket::new("a", ValueType::F32).generic("A"))
        .output(Socket::new("out", ValueType::F32).combine(TypeRule::Product, "A", "B"));
    assert!(!builder.is_buildable());
}

#[test]
fn converting_a_value_gives_one_of_the_type() {
    let v = Value::F32(float(2.5));
    assert_eq!(v.converted_to(ValueType::I32), Some(Value::I32(0)));
    assert_eq!(v.converted_to(ValueType::Sampler), None);
    assert_eq!(
        Value::Vec2([float(1.0), float(2.0)]).converted_to(ValueType::Vec4),
        Some(Value::Vec4([float(1.0), float(2.0), float(2.0), float(2.0)]))
    );
    assert_eq!(v.converted_to(ValueType::F32), Some(v));
    assert_eq!(
        v.converted_to(ValueType::Vec2),
        Some(Value::Vec2([float(2.5), float(2.5)]))
    );
    for ty in ValueType::ALL {
        if let Some(converted) = v.converted_to(ty) {
            assert_eq!(converted.ty(), ty);
        }
    }
}

#[test]
fn zero_and_splat_are_of_the_type() {
    for ty in ValueType::ALL {
        assert_eq!(ty.zero().unwrap().ty(), ty);
    }
    for ty in ValueType::RESOURCES {
        assert!(ty.zero().is_none());
        assert!(ty.is_resource());
    }
    assert_eq!(
        ValueType::Vec3.splat(float(1.0)),
        Some(Value::Vec3([float(1.0), float(1.0), float(1.0)]))
    );
}

#[test]
fn a_registry_lists_its_definitions_by_id() {
    let mut registry = NodeRegistry::new();
    assert!(registry.is_empty());
    let def = |id: &str| {
        NodeDefinition::builder(id, "").output(Socket::new("out", ValueType::F32)).expr("0.0")
    };
    registry.register_all(vec![def("b.two"), def("a.one")]);
    assert_eq!(registry.len(), 2);
    assert!(registry.contains("a.one"));
    assert!(!registry.contains("a.two"));
    let ids: Vec<&str> = registry.iter().iter().map(|d| d.id.as_str()).collect();
    assert_eq!(ids, vec!["a.one", "b.two"]);
    assert_eq!(registry.categories(), vec!["a".to_string(), "b".to_string()]);
    let before = registry.signature();
    let replaced = registry.register(def("a.one").with_macros(Vec::new()));
    assert_eq!(replaced.unwrap().id, "a.one");
    assert_eq!(registry.signature(), before);
}
