use struct_macros::cipher::cipher_aes_256_gcm_siv;
use struct_macros::model::{FieldDef, StructDef, TypeShape};
use struct_macros::parser::{capitalize, parser_app, retain_rule_of, RetainRule};
use struct_macros::text::decimal_string;

fn path(names: &[&str]) -> TypeShape {
    TypeShape::Path { has_qself: false, segments: names.iter().map(|s| s.to_string()).collect() }
}

fn field(name: &str, ty: TypeShape) -> FieldDef {
    FieldDef { name: name.to_string(), ty, sql: None, aes_secret_key: None }
}

#[test]
fn capitalize_first_ascii_letter() {
    assert_eq!(capitalize("name"), "Name");
    assert_eq!(capitalize("Name"), "Name");
    assert_eq!(capitalize("_x"), "_x");
    assert_eq!(capitalize("éa"), "éa");
    assert_eq!(capitalize(""), "");
}

#[test]
fn retain_rules_by_type() {
    assert!(matches!(retain_rule_of(&path(&["String"])), Some(RetainRule::EmptyValue)));
    assert!(matches!(
        retain_rule_of(&TypeShape::Reference { elem: Box::new(path(&["str"])) }),
        Some(RetainRule::EmptyValue)
    ));
    assert!(matches!(retain_rule_of(&path(&["Vec"])), Some(RetainRule::EmptyValue)));
    assert!(matches!(retain_rule_of(&path(&["bool"])), Some(RetainRule::FalseValue)));
    assert!(matches!(retain_rule_of(&path(&["u64"])), Some(RetainRule::ZeroInt)));
    assert!(matches!(retain_rule_of(&path(&["f32"])), Some(RetainRule::ZeroF32)));
    assert!(matches!(retain_rule_of(&path(&["f64"])), Some(RetainRule::ZeroF64)));
    assert!(matches!(retain_rule_of(&path(&["Option"])), Some(RetainRule::NoneValue)));
    assert!(retain_rule_of(&path(&["HashMap"])).is_none());
    assert!(retain_rule_of(&TypeShape::Other).is_none());
}

#[test]
fn parser_plan_names() {
    let s = StructDef {
        name: "User".to_string(),
        fields: vec![
            field("name", path(&["String"])),
            field("active", path(&["bool"])),
            field("extra", path(&["HashMap"])),
            field("score", path(&["f32"])),
        ],
    };
    let p = parser_app(&s);
    assert_eq!(p.key_enum, "UserParserKey");
    assert_eq!(p.value_enum, "UserParserValue");
    assert_eq!(p.hash_map, "UserHashMap");
    assert_eq!(p.hash_set, "UserHashSet");
    let vs: Vec<(String, String)> = p.variants.iter().map(|v| (v.field.clone(), v.variant.clone())).collect();
    assert_eq!(
        vs,
        vec![
            ("name".to_string(), "UserName".to_string()),
            ("active".to_string(), "UserActive".to_string()),
            ("extra".to_string(), "UserExtra".to_string()),
            ("score".to_string(), "UserScore".to_string()),
        ]
    );
    assert_eq!(p.retain_arms.len(), 3);
    assert_eq!(p.retain_arms[0].variant, "UserName");
    assert!(matches!(p.retain_arms[0].rule, RetainRule::EmptyValue));
    assert_eq!(p.retain_arms[1].variant, "UserActive");
    assert!(matches!(p.retain_arms[1].rule, RetainRule::FalseValue));
    assert_eq!(p.retain_arms[2].variant, "UserScore");
    assert!(matches!(p.retain_arms[2].rule, RetainRule::ZeroF32));
}

#[test]
fn cipher_names_and_default_key() {
    let s = StructDef { name: "Vault".to_string(), fields: vec![field("secret", path(&["String"]))] };
    let p = cipher_aes_256_gcm_siv(&s, &s.fields[0]);
    assert_eq!(p.encrypt_fn, "aes_256_gcm_siv_encrypt_secret");
    assert_eq!(p.decrypt_fn, "aes_256_gcm_siv_decrypt_secret");
    assert_eq!(p.key_and_nonce_fn, "aes_256_gcm_siv_key_and_nonce_ga_secret");
    assert_eq!(p.secret_key, "\"SECRET\"");
}

#[test]
fn cipher_key_from_attribute() {
    let mut f = field("token", path(&["String"]));
    f.aes_secret_key = Some("\"TOKEN_KEY\"".to_string());
    let s = StructDef { name: "Vault".to_string(), fields: vec![] };
    let p = cipher_aes_256_gcm_siv(&s, &f);
    assert_eq!(p.secret_key, "\"TOKEN_KEY\"");
}

#[test]
fn decimal_rendering() {
    assert_eq!(decimal_string(0), "0");
    assert_eq!(decimal_string(7), "7");
    assert_eq!(decimal_string(120), "120");
    assert_eq!(decimal_string(usize::MAX), usize::MAX.to_string());
}
