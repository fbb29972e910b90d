//! Filling the holes of a template.

use wxsl_core::template::{check, fill};

/// Fill a template whose table fits, and fail otherwise.
fn fill_or_fail(template: &str, holes: &[(&str, &str)]) -> String {
    if let Some(problem) = check(template, holes) {
        panic!("{}", problem.text());
    }
    fill(template, holes)
}

#[test]
fn every_hole_is_replaced_and_only_holes_are_replaced() {
    let filled = fill("fn ${A}(x: ${B}) { }\n", &[("A", "main"), ("B", "f32")]);
    assert_eq!(filled, "fn main(x: f32) { }\n");
}

#[test]
#[should_panic(expected = "still names hole")]
fn a_value_introducing_a_hole_is_caught_not_refilled() {
    fill_or_fail("(${A})", &[("A", "${B}")]);
}

#[test]
#[should_panic(expected = "names no hole")]
fn a_table_entry_without_a_hole_in_the_file_is_a_bug() {
    fill_or_fail("nothing here", &[("A", "x")]);
}

#[test]
#[should_panic(expected = "still names hole")]
fn a_hole_without_a_table_entry_is_a_bug() {
    fill_or_fail("${A} ${B}", &[("A", "x")]);
}

#[test]
#[should_panic(expected = "appears twice")]
fn the_same_hole_twice_in_the_table_is_a_bug() {
    fill_or_fail("${A}", &[("A", "x"), ("A", "y")]);
}

#[test]
fn a_hole_may_stand_in_several_places() {
    assert_eq!(fill_or_fail("${A}-${B}-${A}", &[("A", "x"), ("B", "")]), "x--x");
}

#[test]
fn a_table_that_fits_has_no_problem() {
    assert!(check("${A}", &[("A", "x")]).is_none());
    assert!(check("no holes", &[]).is_none());
}
