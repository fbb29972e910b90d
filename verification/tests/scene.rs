//! Scenes, tags and tag expressions.

use wxsl_core::float::Float;
use wxsl_core::graph::Graph;
use wxsl_core::macros::{MacroSet, MacroValue};
use wxsl_core::scene::{
    Instance, MaterialEntry, MeshEntry, MeshSource, Scene, SceneError, TagExpr, TagExprError, Tags,
};

fn float(x: f32) -> Float {
    Float { bits: x.to_bits() }
}

fn tags(list: &[&str]) -> Tags {
    Tags::from_iter(list)
}

#[test]
fn tags_are_sorted_and_unique() {
    let mut set = tags(&["outlined", "opaque", "opaque"]);
    assert_eq!(set.len(), 2);
    assert_eq!(set.text(), "opaque outlined");
    assert!(set.contains("opaque"));
    assert!(set.remove("opaque"));
    assert!(!set.remove("opaque"));
    assert_eq!(set.text(), "outlined");
}

#[test]
fn a_tag_expression_selects_what_a_pass_draws() {
    let expr = TagExpr::parse("opaque && !outlined").expect("parses");
    assert!(expr.matches(&tags(&["opaque"])));
    assert!(!expr.matches(&tags(&["opaque", "outlined"])));
    assert!(!expr.matches(&tags(&["transparent"])));

    let everything = TagExpr::parse("*").expect("parses");
    assert!(everything.matches(&Tags::new()));
}

#[test]
fn precedence_is_the_usual_one_and_brackets_override_it() {
    // `a || b && c` is `a || (b && c)`, so `a` alone matches.
    let expr = TagExpr::parse("a || b && c").expect("parses");
    assert!(expr.matches(&tags(&["a"])));
    assert!(!expr.matches(&tags(&["b"])));
    assert!(expr.matches(&tags(&["b", "c"])));

    let bracketed = TagExpr::parse("(a || b) && c").expect("parses");
    assert!(!bracketed.matches(&tags(&["a"])));
    assert!(bracketed.matches(&tags(&["a", "c"])));
}

#[test]
fn every_expression_round_trips_through_its_own_display() {
    for text in [
        "*",
        "opaque",
        "!opaque",
        "opaque && outlined",
        "a || b && c",
        "(a || b) && c",
        "!(a || b)",
        "two-sided && crate.opaque",
    ] {
        let expr = TagExpr::parse(text).expect(text);
        let printed = expr.text();
        let reparsed = TagExpr::parse(&printed).expect(&printed);
        assert_eq!(expr, reparsed, "`{text}` printed as `{printed}`");
    }
}

#[test]
fn malformed_expressions_say_what_is_wrong() {
    assert_eq!(TagExpr::parse("a & b"), Err(TagExprError::SingleOperator('&')));
    assert_eq!(TagExpr::parse("a &&"), Err(TagExprError::ExpectedOperand));
    assert_eq!(TagExpr::parse("(a"), Err(TagExprError::UnclosedBracket));
    assert_eq!(TagExpr::parse("a b"), Err(TagExprError::Trailing));
    assert_eq!(TagExpr::parse("a # b"), Err(TagExprError::UnexpectedCharacter('#')));
}

#[test]
fn an_instance_falls_back_to_its_materials_tags() {
    let mut scene = Scene::new("two boxes");
    let mesh = scene.add_mesh(MeshEntry::new("cube", MeshSource::Cube { size: float(1.0) }));
    let material = scene.add_material(
        MaterialEntry::new("paint", Graph::new("paint")).with_tags(tags(&["opaque"])),
    );
    let plain = Instance::new(mesh, material);
    let outlined = Instance::new(mesh, material).with_tags(tags(&["opaque", "outlined"]));

    assert_eq!(scene.instance_tags(&plain), tags(&["opaque"]));
    assert_eq!(scene.instance_tags(&outlined), tags(&["opaque", "outlined"]));
    assert!(scene.validate().is_empty());
}

#[test]
fn a_dangling_index_is_reported_rather_than_panicking() {
    let mut scene = Scene::new("broken");
    scene.add_instance(Instance::new(3, 7));
    assert_eq!(
        scene.validate(),
        vec![
            SceneError::NoSuchMesh { instance: 0, mesh: 3 },
            SceneError::NoSuchMaterial { instance: 0, material: 7 },
        ]
    );
    // And the tag lookup still answers.
    assert!(scene.instance_tags(&scene.instances[0]).is_empty());
}

#[test]
fn tags_may_be_written_in_any_alphabet() {
    let expr = TagExpr::parse("gr\u{fc}n && \u{10d3}\u{10d0}9").expect("parses");
    assert!(expr.matches(&tags(&["gr\u{fc}n", "\u{10d3}\u{10d0}9"])));
    assert!(!expr.matches(&tags(&["gr\u{fc}n"])));
    assert_eq!(TagExpr::parse("a \u{2192} b"), Err(TagExprError::UnexpectedCharacter('\u{2192}')));
}

#[test]
fn an_expression_keeps_its_meaning_when_written() {
    let right = TagExpr::tag("a").and(TagExpr::tag("b").and(TagExpr::tag("c")));
    let again = TagExpr::parse(&right.text()).expect("parses");
    for list in [&["a", "b", "c"][..], &["a", "b"][..], &["c"][..], &[][..]] {
        assert_eq!(right.matches(&tags(list)), again.matches(&tags(list)));
    }
    let left = TagExpr::tag("a").or(TagExpr::tag("b")).and(TagExpr::tag("c").not());
    assert_eq!(left.text(), "(a || b) && !c");
    assert_eq!(TagExpr::parse(&left.text()), Ok(left));
}

#[test]
fn errors_of_expressions_have_a_text() {
    for text in ["a & b", "a &&", "(a", "a b", "a # b"] {
        assert!(!TagExpr::parse(text).unwrap_err().text().is_empty());
    }
    assert_eq!(TagExpr::parse(""), Err(TagExprError::ExpectedOperand));
}

#[test]
fn material_macros_are_kept_with_the_material() {
    let mut macros = MacroSet::new();
    macros.set("wxsl_tonemap", MacroValue::Flag(true));
    let entry = MaterialEntry::new("paint", Graph::new("paint")).with_macros(macros.clone());
    assert_eq!(entry.macros, macros);
}

#[test]
fn scene_errors_say_which_instance() {
    let e = SceneError::NoSuchMesh { instance: 4, mesh: 3 };
    assert!(e.text().contains('4') && e.text().contains('3'));
}

#[test]
fn tags_in_any_script_read_back() {
    let expr = TagExpr::tag("été").or(TagExpr::tag("雪-1")).and(TagExpr::tag("v2.0"));
    let text = expr.text();
    assert_eq!(text, "(été || 雪-1) && v2.0");
    assert_eq!(TagExpr::parse(&text), Ok(expr));
    assert_eq!(
        TagExpr::parse("a\u{2003}&&\u{a0}b"),
        Ok(TagExpr::tag("a").and(TagExpr::tag("b")))
    );
}
