use struct_macros::model::{FieldDef, StructDef, TypeShape};
use struct_macros::sql::{
    choose_sql_text, sql_app, sql_delete_by_field, sql_insert_method, sql_select_all_method,
    sql_select_by_field, sql_update_by_field, strip_sql_quotes, tk_to_sql_string, up_migrations,
    SqlCall,
};

fn path(names: &[&str]) -> TypeShape {
    TypeShape::Path { has_qself: false, segments: names.iter().map(|s| s.to_string()).collect() }
}

fn field(name: &str, ty: TypeShape, sql: Option<&str>) -> FieldDef {
    FieldDef { name: name.to_string(), ty, sql: sql.map(|s| s.to_string()), aes_secret_key: None }
}

fn user() -> StructDef {
    StructDef {
        name: "User".to_string(),
        fields: vec![
            field("id", path(&["String"]), Some("\"TEXT PRIMARY KEY\"")),
            field("name", path(&["String"]), Some("\"TEXT NOT NULL\"")),
            field("age", path(&["i32"]), Some("INTEGER")),
        ],
    }
}

#[test]
fn select_by_field_statement() {
    let u = user();
    let f = sql_select_by_field(&u, &u.fields[1], &u.fields);
    assert_eq!(f.name, "sql_select_by_name");
    assert_eq!(f.sql, "SELECT id, name, age FROM \"user\" WHERE name = $1");
    assert_eq!(f.params, vec!["name".to_string()]);
    assert!(matches!(f.call, SqlCall::Query));
    assert!(f.takes_self);
}

#[test]
fn delete_by_field_statement() {
    let u = user();
    let f = sql_delete_by_field(&u, &u.fields[0]);
    assert_eq!(f.name, "sql_delete_by_id");
    assert_eq!(f.sql, "DELETE FROM \"user\" WHERE id = $1");
    assert_eq!(f.params, vec!["id".to_string()]);
    assert!(matches!(f.call, SqlCall::Execute));
}

#[test]
fn update_by_field_binds_key_last() {
    let u = user();
    let f = sql_update_by_field(&u, &u.fields[1], &u.fields);
    assert_eq!(f.name, "sql_update_by_name");
    assert_eq!(f.sql, "UPDATE \"user\" SET id = $1, age = $2 WHERE name = $3");
    assert_eq!(f.params, vec!["id".to_string(), "age".to_string(), "name".to_string()]);
    assert!(matches!(f.call, SqlCall::Execute));
}

#[test]
fn update_by_only_field_sets_itself() {
    let s = StructDef { name: "Tag".to_string(), fields: vec![field("label", path(&["String"]), None)] };
    let f = sql_update_by_field(&s, &s.fields[0], &s.fields);
    assert_eq!(f.sql, "UPDATE \"tag\" SET label = label WHERE label = $1");
    assert_eq!(f.params, vec!["label".to_string()]);
}

#[test]
fn update_numbers_past_nine() {
    let names: Vec<String> = (0..11).map(|i| format!("c{i}")).collect();
    let fields: Vec<FieldDef> = names.iter().map(|n| field(n, path(&["u8"]), None)).collect();
    let s = StructDef { name: "Wide".to_string(), fields };
    let f = sql_update_by_field(&s, &s.fields[0], &s.fields);
    assert!(f.sql.ends_with("c10 = $10 WHERE c0 = $11"));
    assert_eq!(f.params.len(), 11);
}

#[test]
fn insert_statement() {
    let u = user();
    let f = sql_insert_method(&u, &u.fields);
    assert_eq!(f.name, "sql_insert");
    assert_eq!(f.sql, "INSERT INTO \"user\" (id, name, age) VALUES ($1, $2, $3)");
    assert_eq!(f.params, vec!["id".to_string(), "name".to_string(), "age".to_string()]);
}

#[test]
fn select_all_statement() {
    let u = user();
    let f = sql_select_all_method(&u, &u.fields);
    assert_eq!(f.name, "sql_select_all");
    assert_eq!(f.sql, "SELECT id, name, age FROM \"user\"");
    assert!(f.params.is_empty());
    assert!(matches!(f.call, SqlCall::Query));
}

#[test]
fn table_name_is_lowercased() {
    let s = StructDef { name: "BlogPost".to_string(), fields: vec![field("id", path(&["i64"]), None)] };
    let f = sql_select_all_method(&s, &s.fields);
    assert_eq!(f.sql, "SELECT id FROM \"blogpost\"");
}

#[test]
fn migrations_statements() {
    let u = user();
    let m = up_migrations(&u);
    assert_eq!(m.len(), 2);
    assert_eq!(m[0].name, "up_migrations_temporary_table_if_not_exists");
    assert_eq!(
        m[0].sql,
        "CREATE TEMPORARY TABLE IF NOT EXISTS user (id TEXT PRIMARY KEY, name TEXT NOT NULL, age INTEGER)"
    );
    assert_eq!(m[1].name, "up_migrations_table_if_not_exists");
    assert_eq!(
        m[1].sql,
        "CREATE TABLE IF NOT EXISTS user (id TEXT PRIMARY KEY, name TEXT NOT NULL, age INTEGER)"
    );
    assert!(!m[0].takes_self && !m[1].takes_self);
    assert!(m[0].params.is_empty());
}

#[test]
fn sql_text_reads_string_literal() {
    assert_eq!(tk_to_sql_string(&Some("\"TEXT PRIMARY KEY\"".to_string())), "TEXT PRIMARY KEY");
}

#[test]
fn sql_text_unescapes_literal() {
    assert_eq!(tk_to_sql_string(&Some("\"a\\\"b\"".to_string())), "a\"b");
}

#[test]
fn sql_text_raw_string_literal() {
    assert_eq!(tk_to_sql_string(&Some("r\"TEXT\"".to_string())), "TEXT");
}

#[test]
fn sql_text_strips_quotes_of_other_tokens() {
    assert_eq!(tk_to_sql_string(&Some("'x'".to_string())), "x");
    assert_eq!(tk_to_sql_string(&Some("INTEGER".to_string())), "INTEGER");
}

#[test]
fn strip_quotes_cases() {
    assert_eq!(strip_sql_quotes("\"abc\""), "abc");
    assert_eq!(strip_sql_quotes("'abc'"), "abc");
    assert_eq!(strip_sql_quotes("\"abc'"), "\"abc'");
    assert_eq!(strip_sql_quotes("\"\""), "");
    assert_eq!(strip_sql_quotes(""), "");
}

#[test]
fn choose_sql_text_prefers_first_value() {
    assert_eq!(choose_sql_text(Some("A".to_string()), Some("B".to_string()), "\"C\""), "A");
    assert_eq!(choose_sql_text(None, Some("B".to_string()), "\"C\""), "B");
    assert_eq!(choose_sql_text(None, None, "\"C\""), "C");
}

#[test]
fn sql_app_layout() {
    let u = user();
    let all = sql_app(&u);
    assert_eq!(all.len(), 4 + 3 * 3);
    let names: Vec<&str> = all.iter().map(|f| f.name.as_str()).collect();
    assert_eq!(
        names,
        vec![
            "sql_select_all",
            "sql_insert",
            "up_migrations_temporary_table_if_not_exists",
            "up_migrations_table_if_not_exists",
            "sql_select_by_id",
            "sql_update_by_id",
            "sql_delete_by_id",
            "sql_select_by_name",
            "sql_update_by_name",
            "sql_delete_by_name",
            "sql_select_by_age",
            "sql_update_by_age",
            "sql_delete_by_age",
        ]
    );
    assert_eq!(all[5].sql, "UPDATE \"user\" SET name = $1, age = $2 WHERE id = $3");
}
