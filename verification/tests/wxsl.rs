//! Identifiers, module paths, number literals and the stable hash.

use wxsl_core::float::Float;
use wxsl_core::text::is_space_char;
use wxsl_core::wxsl::{hash_text, stable_hash, write_f32, ModulePath, WxslIdent};

fn float(x: f32) -> Float {
    Float { bits: x.to_bits() }
}

#[test]
fn identifiers_follow_the_wgsl_grammar() {
    assert!(WxslIdent::new("world_normal").is_some());
    assert!(WxslIdent::new("_private1").is_some());
    assert!(WxslIdent::new("1bad").is_none());
    assert!(WxslIdent::new("has space").is_none());
    assert!(WxslIdent::new("has-dash").is_none());
    assert!(WxslIdent::new("").is_none());
    assert!(WxslIdent::new("_").is_none());
    assert!(WxslIdent::new("__reserved").is_none());
}

#[test]
fn module_paths_validate_every_component() {
    assert!(ModulePath::new("package::lighting::pbr").is_some());
    assert!(ModulePath::new("package").is_some());
    assert!(ModulePath::new("package::").is_none());
    assert!(ModulePath::new("package::9").is_none());
    assert!(ModulePath::new("").is_none());
}

#[test]
fn floats_always_keep_a_decimal_point() {
    let mut out = String::new();
    assert!(write_f32(&mut out, float(1.0)).is_some());
    assert_eq!(out, "1.0");

    out.clear();
    assert!(write_f32(&mut out, float(-0.5)).is_some());
    assert_eq!(out, "-0.5");

    out.clear();
    assert!(write_f32(&mut out, float(f32::INFINITY)).is_none());
    assert!(out.is_empty());
    assert!(write_f32(&mut out, float(f32::NAN)).is_none());
    assert!(out.is_empty());
}

#[test]
fn stable_hash_is_deterministic_and_sensitive() {
    assert_eq!(stable_hash(b"abc"), stable_hash(b"abc"));
    assert_ne!(stable_hash(b"abc"), stable_hash(b"abd"));
    // The published reference vectors of FNV-1a.
    assert_eq!(stable_hash(b""), 0xcbf2_9ce4_8422_2325);
    assert_eq!(stable_hash(b"a"), 0xaf63_dc4c_8601_ec8c);
    assert_eq!(stable_hash(b"foobar"), 0x8594_4171_f739_67e8);
}

#[test]
fn a_text_hashes_as_its_bytes() {
    assert_eq!(hash_text("foobar"), stable_hash(b"foobar"));
    assert_eq!(hash_text("gr\u{fc}n \u{1f33f}"), stable_hash("gr\u{fc}n \u{1f33f}".as_bytes()));
}

#[test]
fn accepted_names_are_kept_as_they_are() {
    assert_eq!(WxslIdent::new("world_normal").unwrap().as_str(), "world_normal");
    assert_eq!(ModulePath::new("package::a::b").unwrap().as_str(), "package::a::b");
    assert!(ModulePath::new("package:a").is_none());
    assert!(ModulePath::new("a:::b").is_none());
    assert!(WxslIdent::new("na\u{ef}ve").is_none());
}

#[test]
fn literals_are_the_shortest_that_read_back() {
    let chosen = [
        0.0f32, -0.0, 1.0, 0.1, 0.2, 0.3, 1.5, 3.1415927, 100.0, 1e7, 16777216.0, 1e15, 9.999999e15,
        1e16, 1.2345e20, 3.4028235e38, 1e-4, 9.999e-5, 1e-5, 1.1754944e-38, 1e-45, 5.877472e-39,
        0.33333334, 123456.79, 8388608.5, 4194304.25, -2.5e-7, 65504.0,
    ];
    for x in chosen {
        assert_eq!(float(x).literal().unwrap(), format!("{:?}", x));
    }
    // A walk through the bit patterns, of every exponent and both signs.
    let mut bits: u32 = 1;
    for _ in 0..1500 {
        bits = bits.wrapping_mul(1664525).wrapping_add(1013904223);
        let x = f32::from_bits(bits);
        if x.is_finite() {
            let text = float(x).literal().unwrap();
            assert_eq!(text, format!("{:?}", x));
            assert_eq!(text.parse::<f32>().unwrap().to_bits(), x.to_bits());
        }
    }
}

#[test]
fn floats_turn_into_integers_as_casts_do() {
    let chosen = [
        0.0f32, -0.0, 0.9, -0.9, 1.0, -1.0, 2.5, -2.5, 1e9, -1e9, 3e9, -3e9, 5e9, 1e30, -1e30,
        16777215.0, 2147483520.0, 4294967040.0, f32::INFINITY, f32::NEG_INFINITY, f32::NAN, 1e-40,
    ];
    for x in chosen {
        assert_eq!(float(x).to_i32(), x as i32);
        assert_eq!(float(x).to_u32(), x as u32);
    }
}

#[test]
fn spaces_are_those_of_unicode() {
    for c in '\0'..=char::MAX {
        assert_eq!(is_space_char(c), c.is_whitespace(), "{:?}", c);
    }
}
