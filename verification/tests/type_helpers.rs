use struct_macros::helpers::{is_bool, is_float, is_int, is_option, is_str_ref, is_string, is_vec};
use struct_macros::model::TypeShape;

fn path(names: &[&str]) -> TypeShape {
    TypeShape::Path { has_qself: false, segments: names.iter().map(|s| s.to_string()).collect() }
}

#[test]
fn bool_by_last_segment() {
    assert!(is_bool(&path(&["bool"])));
    assert!(is_bool(&path(&["core", "primitive", "bool"])));
    assert!(!is_bool(&path(&["Bool"])));
    assert!(!is_bool(&TypeShape::Other));
}

#[test]
fn qualified_self_is_not_matched() {
    let q = TypeShape::Path { has_qself: true, segments: vec!["bool".to_string()] };
    assert!(!is_bool(&q));
    let q = TypeShape::Path { has_qself: true, segments: vec!["u8".to_string()] };
    assert!(!is_int(&q));
}

#[test]
fn empty_path_is_not_matched() {
    assert!(!is_vec(&path(&[])));
}

#[test]
fn every_integer_name() {
    for n in ["i8", "i16", "i32", "i64", "i128", "isize", "u8", "u16", "u32", "u64", "u128", "usize"] {
        assert!(is_int(&path(&[n])), "{n}");
        assert!(!is_float(&path(&[n])));
    }
    assert!(!is_int(&path(&["u256"])));
    assert!(!is_int(&path(&["f32"])));
}

#[test]
fn floats() {
    assert!(is_float(&path(&["f32"])));
    assert!(is_float(&path(&["std", "f64"])));
    assert!(!is_float(&path(&["f16"])));
}

#[test]
fn vec_string_option() {
    assert!(is_vec(&path(&["std", "vec", "Vec"])));
    assert!(is_string(&path(&["String"])));
    assert!(is_option(&path(&["Option"])));
    assert!(!is_option(&path(&["String"])));
}

#[test]
fn str_reference() {
    let r = TypeShape::Reference { elem: Box::new(path(&["str"])) };
    assert!(is_str_ref(&r));
    assert!(!is_str_ref(&path(&["str"])));
    let r = TypeShape::Reference { elem: Box::new(path(&["String"])) };
    assert!(!is_str_ref(&r));
}
