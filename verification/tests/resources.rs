//! Buffer layouts, geometry and what a material asks to be bound.

use wxsl_core::abi;
use wxsl_core::float::Float;
use wxsl_core::node::{Value, ValueType};
use wxsl_core::resources::{
    BufferLayout, GeometryInterface, LayoutError, MaterialInterface, UserBlock,
};
use wxsl_core::textmap::TextMap;
use wxsl_core::wxsl::WxslIdent;

fn float(x: f32) -> Float {
    Float { bits: x.to_bits() }
}

fn floats<const N: usize>(xs: [f32; N]) -> [Float; N] {
    xs.map(float)
}

fn ident(name: &str) -> WxslIdent {
    WxslIdent::new(name).expect("test identifier")
}

fn layout(fields: &[(&str, ValueType)]) -> BufferLayout {
    BufferLayout::uniform(fields.iter().map(|(name, ty)| (ident(name), *ty)).collect())
}

#[test]
fn the_storage_address_space_does_not_round_a_struct_up_to_sixteen() {
    let one = |name: &str, ty| vec![(WxslIdent::new(name).expect("valid"), ty)];
    let uniform = BufferLayout::uniform(one("amount", ValueType::F32));
    let storage = BufferLayout::storage(vec![], one("amount", ValueType::F32));
    assert_eq!(uniform.size(), 16);
    assert_eq!(storage.size(), 4);
    assert_eq!(storage.align(), 4);
    assert_eq!(storage.field("amount").expect("declared").offset, 0);
}

#[test]
fn a_storage_prefix_keeps_its_place_whatever_sorts_in_front_of_it() {
    let layout = BufferLayout::storage(
        vec![(ident("model"), ValueType::Mat4)],
        vec![
            (ident("aaa"), ValueType::Mat4),
            (ident("zzz"), ValueType::F32),
        ],
    );
    let names: Vec<&str> = layout
        .fields()
        .iter()
        .map(|field| field.name.as_str())
        .collect();
    assert_eq!(names, ["model", "aaa", "zzz"]);
    assert_eq!(layout.field("model").expect("declared").offset, 0);
}

#[test]
fn declaring_nothing_is_the_geometry_every_material_always_had() {
    let geometry = GeometryInterface::default();
    assert!(geometry.is_empty());
    assert!(geometry.vertex().is_empty());
    assert!(geometry.instance().is_empty());
    assert_eq!(geometry.instance_index_location(), None);
    assert_eq!(geometry.varyings_used(), abi::vertex_out_fields().len());
}

#[test]
fn the_instance_index_travels_once_however_many_attributes() {
    let one = GeometryInterface::new(vec![], vec![(ident("tint"), ValueType::Vec3)], vec![]);
    let many = GeometryInterface::new(
        vec![],
        vec![
            (ident("tint"), ValueType::Vec3),
            (ident("age"), ValueType::F32),
            (ident("phase"), ValueType::Vec2),
        ],
        vec![],
    );
    assert_eq!(one.varyings_used(), many.varyings_used());
    assert_eq!(one.varyings_used(), abi::vertex_out_fields().len() + 1);
    assert_eq!(
        many.instance_index_location(),
        Some(abi::vertex_out_fields().len() as u32)
    );
}

#[test]
fn a_vertex_attribute_is_numbered_in_three_places_at_once() {
    let geometry = GeometryInterface::new(
        vec![
            (ident("weight"), ValueType::F32),
            (ident("color"), ValueType::Vec4),
        ],
        vec![(ident("tint"), ValueType::Vec3)],
        vec![],
    );
    // Name order, not declaration order.
    let color = geometry.vertex_attribute("color").expect("declared");
    let weight = geometry.vertex_attribute("weight").expect("declared");
    assert_eq!(color.location, abi::vertex_in_fields().len() as u32);
    assert_eq!(color.slot, 1);
    assert_eq!(weight.location, color.location + 1);
    assert_eq!(weight.slot, 2);
    // The index is pinned in front of them.
    assert_eq!(
        geometry.instance_index_location(),
        Some(abi::vertex_out_fields().len() as u32)
    );
    assert_eq!(color.varying, abi::vertex_out_fields().len() as u32 + 1);
}

#[test]
fn a_computed_interpolant_is_numbered_after_everything_the_geometry_brings() {
    let attributes = vec![(ident("color"), ValueType::Vec4)];
    let plain = GeometryInterface::new(attributes.clone(), vec![], vec![]);
    let computing = GeometryInterface::new(
        attributes.clone(),
        vec![],
        vec![
            (ident("wobble"), ValueType::F32),
            (ident("bend"), ValueType::Vec2),
        ],
    );
    let color = |geometry: &GeometryInterface| {
        let entry = geometry.vertex_attribute("color").expect("declared");
        (entry.location, entry.slot, entry.varying)
    };
    assert_eq!(color(&plain), color(&computing));

    // Name order among themselves, and after the attribute.
    let bend = computing.computed_varying("bend").expect("declared");
    let wobble = computing.computed_varying("wobble").expect("declared");
    assert_eq!(bend.varying, color(&computing).2 + 1);
    assert_eq!(wobble.varying, bend.varying + 1);
    assert_eq!(computing.varyings_used(), plain.varyings_used() + 2);
    assert_ne!(plain.signature(), computing.signature());
}

#[test]
fn what_the_geometry_wants_is_part_of_the_shape_a_pipeline_is_built_for() {
    let plain = MaterialInterface::default();
    let declaring = MaterialInterface {
        geometry: GeometryInterface::new(vec![(ident("color"), ValueType::Vec3)], vec![], vec![]),
        ..MaterialInterface::default()
    };
    assert_ne!(plain.signature(), declaring.signature());
    assert!(!plain.signature().contains("geom"));
}

#[test]
fn an_empty_layout_has_no_buffer_at_all() {
    let empty = BufferLayout::uniform(vec![]);
    assert!(empty.is_empty());
    assert_eq!(empty.size(), 0);
    assert!(empty.zeroed().is_empty());
}

#[test]
fn a_vec3_never_lands_at_a_non_multiple_of_sixteen() {
    let laid_out = layout(&[("amount", ValueType::F32), ("tint", ValueType::Vec3)]);
    let tint = laid_out.field("tint").expect("declared");
    assert_eq!(tint.offset % 16, 0);
    // Widest first, so the `f32` fills the vector's tail padding.
    assert_eq!(tint.offset, 0);
    assert_eq!(laid_out.field("amount").expect("declared").offset, 12);
    assert_eq!(laid_out.size(), 16);
}

#[test]
fn every_field_sits_at_a_multiple_of_its_own_alignment() {
    let laid_out = layout(&[
        ("flag", ValueType::Bool),
        ("count", ValueType::I32),
        ("basis", ValueType::Mat3),
        ("offset", ValueType::Vec2),
        ("color", ValueType::Vec4),
        ("transform", ValueType::Mat4),
        ("scale", ValueType::F32),
        ("normal", ValueType::Vec3),
        ("index", ValueType::U32),
    ]);
    for field in laid_out.fields() {
        let align = field.ty.buffer_align().expect("a value type");
        assert_eq!(
            field.offset % align,
            0,
            "`{}` ({}) at {}",
            field.name.as_str(),
            field.ty.wxsl_type(),
            field.offset
        );
    }
    assert_eq!(laid_out.size() % 16, 0);
    // No two fields overlap, in the order they were laid out.
    for pair in laid_out.fields().windows(2) {
        assert!(pair[0].offset + pair[0].size <= pair[1].offset);
    }
}

#[test]
fn the_order_is_a_property_of_the_declarations_not_of_the_walk() {
    let forwards = layout(&[
        ("a", ValueType::F32),
        ("b", ValueType::Vec3),
        ("c", ValueType::Vec2),
    ]);
    let backwards = layout(&[
        ("c", ValueType::Vec2),
        ("b", ValueType::Vec3),
        ("a", ValueType::F32),
    ]);
    assert_eq!(forwards, backwards);
    assert_eq!(forwards.signature(), backwards.signature());
}

#[test]
fn a_mat3_is_written_as_three_padded_columns() {
    let laid_out = layout(&[("basis", ValueType::Mat3)]);
    let mut bytes = laid_out.zeroed();
    let cells = [1.0, 2.0, 3.0, 4.0, 5.0, 6.0, 7.0, 8.0, 9.0];
    laid_out
        .write(&mut bytes, "basis", Value::Mat3(floats(cells)))
        .expect("declared");
    assert_eq!(bytes.len(), 48);
    let read = |at: usize| f32::from_le_bytes(bytes[at..at + 4].try_into().expect("4 bytes"));
    for column in 0..3 {
        for row in 0..3 {
            assert_eq!(read(column * 16 + row * 4), cells[column * 3 + row]);
        }
        // The padding word each column ends with.
        assert_eq!(read(column * 16 + 12), 0.0);
    }
}

#[test]
fn a_bool_is_a_u32_in_the_buffer_and_a_comparison_in_the_shader() {
    let laid_out = layout(&[("enabled", ValueType::Bool)]);
    assert_eq!(
        laid_out.field("enabled").expect("declared").ty,
        ValueType::Bool
    );
    assert!(laid_out.wgsl_struct("P").contains("enabled: u32"));
    assert_eq!(
        laid_out.read_expr("material", "enabled").as_deref(),
        Some("(material.enabled != 0u)")
    );
    let mut bytes = laid_out.zeroed();
    laid_out
        .write(&mut bytes, "enabled", Value::Bool(true))
        .expect("declared");
    assert_eq!(bytes[0..4], [1, 0, 0, 0]);
}

#[test]
fn every_value_type_survives_a_round_trip_through_the_layout() {
    let values = [
        ("flag", Value::Bool(true)),
        ("count", Value::I32(-7)),
        ("index", Value::U32(9)),
        ("scale", Value::F32(float(0.25))),
        ("offset", Value::Vec2(floats([1.0, 2.0]))),
        ("tint", Value::Vec3(floats([3.0, 4.0, 5.0]))),
        ("color", Value::Vec4(floats([6.0, 7.0, 8.0, 9.0]))),
        (
            "basis",
            Value::Mat3(floats([1.0, 2.0, 3.0, 4.0, 5.0, 6.0, 7.0, 8.0, 9.0])),
        ),
        ("transform", Value::Mat4(core::array::from_fn(|i| float(i as f32)))),
    ];
    let laid_out = BufferLayout::uniform(
        values.iter().map(|(name, value)| (ident(name), value.ty())).collect(),
    );
    let mut bytes = laid_out.zeroed();
    for (name, value) in &values {
        laid_out.write(&mut bytes, name, *value).expect("declared");
    }
    for (name, value) in &values {
        assert_eq!(laid_out.read(&bytes, name), Some(*value), "`{name}`");
    }
}

#[test]
fn writing_the_wrong_type_is_an_error_rather_than_a_reinterpretation() {
    let laid_out = layout(&[("tint", ValueType::Vec3)]);
    let mut bytes = laid_out.zeroed();
    assert!(matches!(
        laid_out.write(&mut bytes, "tint", Value::F32(float(1.0))),
        Err(LayoutError::TypeMismatch { .. })
    ));
    assert!(matches!(
        laid_out.write(&mut bytes, "nope", Value::Vec3(floats([0.0; 3]))),
        Err(LayoutError::UnknownField { .. })
    ));
}

#[test]
fn the_generated_struct_lists_the_fields_in_layout_order() {
    let laid_out = layout(&[("amount", ValueType::F32), ("tint", ValueType::Vec3)]);
    // And a fresh buffer starts at the declared values, at the computed
    // offsets.
    let mut defaults: TextMap<Value> = TextMap::new();
    defaults.insert("amount".to_string(), Value::F32(float(0.5)));
    defaults.insert("tint".to_string(), Value::Vec3(floats([1.0, 0.0, 0.0])));
    let bytes = laid_out.filled(&defaults);
    let read = |at: usize| f32::from_le_bytes(bytes[at..at + 4].try_into().expect("4 bytes"));
    assert_eq!(read(0), 1.0);
    assert_eq!(read(12), 0.5);
    let source = laid_out.wgsl_struct("MaterialParams");
    let tint = source.find("tint").expect("declared");
    let amount = source.find("amount").expect("declared");
    assert!(tint < amount, "{source}");
}

#[test]
fn resources_are_not_buffer_fields() {
    for ty in ValueType::RESOURCES {
        assert_eq!(ty.buffer_align(), None);
        assert_eq!(ty.buffer_size(), None);
        assert_eq!(ty.buffer_type(), None);
    }
    // And a resource is dropped rather than laid out at a made-up size.
    let laid_out = layout(&[("tex", ValueType::Texture2d), ("amount", ValueType::F32)]);
    assert_eq!(laid_out.fields().len(), 1);
}

#[test]
fn two_interfaces_differ_by_shape_and_never_by_value() {
    let amount = |x: f32| {
        let mut defaults: TextMap<Value> = TextMap::new();
        defaults.insert("amount".to_string(), Value::F32(float(x)));
        defaults
    };
    let one = MaterialInterface {
        params: layout(&[("amount", ValueType::F32)]),
        defaults: amount(0.25),
        ..MaterialInterface::default()
    };
    let same = MaterialInterface {
        params: layout(&[("amount", ValueType::F32)]),
        defaults: amount(0.75),
        ..MaterialInterface::default()
    };
    let other = MaterialInterface {
        params: layout(&[("amount", ValueType::Vec3)]),
        ..MaterialInterface::default()
    };
    assert_eq!(one.signature(), same.signature());
    assert_ne!(one.signature(), other.signature());
    assert!(MaterialInterface::default().material_group_is_empty());
    assert!(!one.material_group_is_empty());
}

#[test]
fn writing_one_field_leaves_the_others() {
    let laid_out = layout(&[("amount", ValueType::F32), ("tint", ValueType::Vec3)]);
    let mut bytes = laid_out.zeroed();
    laid_out.write(&mut bytes, "tint", Value::Vec3(floats([1.0, 2.0, 3.0]))).expect("declared");
    laid_out.write(&mut bytes, "amount", Value::F32(float(9.0))).expect("declared");
    assert_eq!(laid_out.read(&bytes, "tint"), Some(Value::Vec3(floats([1.0, 2.0, 3.0]))));
    assert_eq!(laid_out.read(&bytes, "nope"), None);
}

#[test]
fn a_buffer_that_is_too_short_is_refused() {
    let laid_out = layout(&[("tint", ValueType::Vec3)]);
    let mut bytes: Vec<u8> = vec![0; 4];
    let error = laid_out
        .write(&mut bytes, "tint", Value::Vec3(floats([1.0, 2.0, 3.0])))
        .expect_err("too short");
    assert!(matches!(error, LayoutError::BufferTooSmall { .. }));
    assert!(!error.text().is_empty());
    assert_eq!(bytes, vec![0; 4]);
    assert_eq!(laid_out.read(&bytes, "tint"), None);
}

#[test]
fn a_name_declared_twice_is_laid_out_once() {
    let laid_out = layout(&[("amount", ValueType::F32), ("amount", ValueType::Vec4)]);
    assert_eq!(laid_out.fields().len(), 1);
    assert_eq!(laid_out.field("amount").expect("declared").ty, ValueType::Vec4);
}

#[test]
fn a_user_block_has_a_struct_of_its_own() {
    assert_eq!(UserBlock::struct_name_for(&ident("weather_state")), "weather_state_uniforms");
}

#[test]
fn fields_lie_close_and_in_order() {
    let layout = layout(&[
        ("b", ValueType::F32),
        ("z", ValueType::Vec3),
        ("t", ValueType::Texture2d),
        ("a", ValueType::F32),
        ("m", ValueType::Vec2),
        ("y", ValueType::Vec3),
    ]);
    let placed: Vec<(&str, u32, u32)> =
        layout.fields().iter().map(|f| (f.name.as_str(), f.offset, f.size)).collect();
    assert_eq!(
        placed,
        vec![("y", 0, 12), ("z", 16, 12), ("m", 32, 8), ("a", 40, 4), ("b", 44, 4)]
    );
    assert_eq!((layout.size(), layout.align()), (48, 16));
    let row = BufferLayout::storage(
        vec![(ident("first"), ValueType::F32)],
        vec![(ident("second"), ValueType::Vec2)],
    );
    assert_eq!((row.size(), row.align()), (16, 8));
    assert_eq!(row.field("second").expect("declared").offset, 8);
}

#[test]
fn layouts_that_differ_have_other_signatures() {
    let one = layout(&[("a", ValueType::F32), ("b", ValueType::Vec3)]);
    assert_eq!(one.signature(), "b:vec3f@0;a:f32@12;");
    assert_eq!(one.signature(), layout(&[("b", ValueType::Vec3), ("a", ValueType::F32)]).signature());
    for other in [
        layout(&[("a", ValueType::F32)]),
        layout(&[("a", ValueType::U32), ("b", ValueType::Vec3)]),
        layout(&[("c", ValueType::F32), ("b", ValueType::Vec3)]),
        layout(&[("a", ValueType::F32), ("b", ValueType::Vec4)]),
    ] {
        assert_ne!(one.fields(), other.fields());
        assert_ne!(one.signature(), other.signature());
    }
}

#[test]
fn a_geometry_is_numbered_whatever_the_order() {
    let v = vec![(ident("color"), ValueType::Vec4), (ident("bend"), ValueType::F32)];
    let i = vec![(ident("tint"), ValueType::Vec3), (ident("age"), ValueType::F32)];
    let c = vec![(ident("phase"), ValueType::F32), (ident("glow"), ValueType::Vec2)];
    let back = |s: &Vec<(WxslIdent, ValueType)>| -> Vec<(WxslIdent, ValueType)> {
        s.iter().rev().cloned().collect()
    };
    let one = GeometryInterface::new(v.clone(), i.clone(), c.clone());
    assert_eq!(one, GeometryInterface::new(back(&v), back(&i), back(&c)));
    let mut used: Vec<u32> = (0..abi::vertex_out_fields().len() as u32).collect();
    used.extend(one.instance_index_location());
    used.extend(one.vertex().iter().map(|a| a.varying));
    used.extend(one.computed().iter().map(|a| a.varying));
    assert_eq!(used, (0..one.varyings_used() as u32).collect::<Vec<u32>>());
}

#[test]
fn the_instance_index_travels_only_with_values() {
    let none = GeometryInterface::new(vec![], vec![(ident("map"), ValueType::Texture2d)], vec![]);
    assert_eq!(none.instance_index_location(), None);
    assert!(none.instance().is_empty());
    let some = GeometryInterface::new(
        vec![(ident("color"), ValueType::Vec4)],
        vec![(ident("map"), ValueType::Texture2d), (ident("age"), ValueType::F32)],
        vec![(ident("phase"), ValueType::F32)],
    );
    assert_eq!(some.instance_index_location(), Some(5));
    assert_eq!(GeometryInterface::default().instance_index_location(), None);
    assert_eq!(GeometryInterface::default().varyings_used(), 5);
}
