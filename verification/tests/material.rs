//! What a material is configured with.

use wxsl_core::abi;
use wxsl_core::lighting::{feature_requests, features, LightingError, LightingSet};
use wxsl_core::macros::{MacroSet, MacroValue};
use wxsl_core::material::MaterialConfig;

#[test]
fn a_flag_becomes_a_macro_exactly_once() {
    let mut macros = MacroSet::new();
    // Even a caller pinning the macro by hand loses to the field.
    macros.set(abi::FEATURE_RECEIVE_SHADOWS, MacroValue::Flag(true));
    let resolved = MaterialConfig {
        macros,
        receive_shadow: false,
        ..MaterialConfig::default()
    }
    .resolve(&LightingSet::default())
    .expect("the default set resolves");
    assert_eq!(
        resolved.macros.get(abi::FEATURE_RECEIVE_SHADOWS),
        Some(MacroValue::Flag(false))
    );
    assert!(!resolved.receive_shadow());
}

#[test]
fn a_model_the_set_does_not_enable_is_named() {
    let error = MaterialConfig::default()
        .with_model("no-such-model")
        .resolve(&LightingSet::default())
        .expect_err("the default set enables one model");
    assert!(matches!(error, LightingError::UnknownModel { .. }));
}

#[test]
fn a_feature_demand_the_plan_does_not_carry_is_named() {
    let all = features();
    let feature = all.first().expect("at least one feature ships");
    let mut effective = MacroSet::new();
    effective.set(feature.macro_name, MacroValue::Flag(true));

    let bare = MaterialConfig::default()
        .resolve(&LightingSet::default())
        .expect("resolves");
    let error = bare
        .check_feature_demands(&effective)
        .expect_err("the plan carries no channel");
    let message = error.text();
    assert!(
        message.contains(feature.macro_name) && message.contains(feature.name),
        "the error names the macro and the feature: {message}"
    );

    let carried = MaterialConfig::default()
        .with_features(feature_requests(&[feature.name]).expect("the feature ships"))
        .resolve(&LightingSet::default())
        .expect("resolves");
    assert!(carried.check_feature_demands(&effective).is_ok());
}

#[test]
fn a_feature_nobody_ships_is_refused() {
    let error = feature_requests(&["no-such-feature"]).expect_err("no such feature");
    assert!(error.text().contains("no-such-feature"));
}

#[test]
fn a_material_that_receives_shadows_says_so_in_its_macros() {
    let resolved = MaterialConfig::default()
        .with_shadows(true, true)
        .resolve(&LightingSet::default())
        .expect("resolves");
    assert!(resolved.receive_shadow());
    assert_eq!(
        resolved.macros.get(abi::FEATURE_RECEIVE_SHADOWS),
        Some(MacroValue::Flag(true))
    );
}
