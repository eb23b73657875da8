use struct_macros::paths::{attr_options, parse_attr_items, path_enum_options};

fn item(k: &str, v: Option<&str>) -> (String, Option<String>) {
    (k.to_string(), v.map(|s| s.to_string()))
}

fn svg() -> Vec<String> {
    vec!["svg".to_string()]
}

#[test]
fn empty_attribute_gives_defaults() {
    assert_eq!(attr_options(""), (".".to_string(), svg(), String::new()));
    assert!(parse_attr_items("").is_empty());
}

#[test]
fn all_three_options() {
    let (root, ext, prefix) = attr_options("path = \"assets\", ext = \"svg, png\", prefix = \"img\"");
    assert_eq!(root, "assets");
    assert_eq!(ext, vec!["svg".to_string(), "png".to_string()]);
    assert_eq!(prefix, "img");
}

#[test]
fn items_are_read_from_text() {
    let items = parse_attr_items("path = \"a\", ext = 5, other");
    assert_eq!(items[0], item("path", Some("a")));
    assert_eq!(items[1], item("ext", None));
}

#[test]
fn later_key_overrides() {
    let (root, _, _) = attr_options("path = \"a\", path = \"b\"");
    assert_eq!(root, "b");
}

#[test]
fn unknown_key_stops_reading() {
    let (root, ext, prefix) = attr_options("path = \"a\", color = \"red\", prefix = \"p\"");
    assert_eq!(root, "a");
    assert_eq!(ext, svg());
    assert_eq!(prefix, "");
}

#[test]
fn non_literal_value_stops_reading() {
    let (root, ext, _) = attr_options("ext = \"png\", path = 5, path = \"b\"");
    assert_eq!(ext, vec!["png".to_string()]);
    assert_eq!(root, ".");
}

#[test]
fn options_from_items() {
    let items = vec![
        item("prefix", Some("x")),
        item("ext", Some(" jpg ,gif")),
        item("path", None),
        item("path", Some("late")),
    ];
    let (root, ext, prefix) = path_enum_options(&items);
    assert_eq!(root, ".");
    assert_eq!(ext, vec!["jpg".to_string(), "gif".to_string()]);
    assert_eq!(prefix, "x");
}
