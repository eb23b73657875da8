use struct_macros::ident::{valid_rust_ident, ToValidIdent};
use struct_macros::order::{sort_by_ident, text_le, PathVariant};
use struct_macros::paths::{
    collect_paths, has_allowed_extension, parse_ext_list, path2enum_app, rel_path, resolve_exts,
    resolve_root, EntryKind, PathEntry,
};

fn entry(parent: &str, name: &str, kind: EntryKind) -> PathEntry {
    PathEntry { parent: parent.to_string(), name: name.to_string(), kind }
}

fn pairs(v: &[PathVariant]) -> Vec<(String, String)> {
    v.iter().map(|p| (p.ident.clone(), p.path.clone())).collect()
}

#[test]
fn ident_of_nested_path() {
    assert_eq!("icons/arrow-left.svg".to_valid_rust_ident_with_no(), "Icons\u{30CE}ArrowLeft\u{30FB}svg");
}

#[test]
fn ident_replaces_ampersand_and_separators() {
    assert_eq!(valid_rust_ident("a&b"), "AAndb");
    assert_eq!(valid_rust_ident("my_file name-x"), "MyFileNameX");
}

#[test]
fn ident_guards_digits_and_empty() {
    assert_eq!(valid_rust_ident("1icon.svg"), "_1icon\u{30FB}svg");
    assert_eq!(valid_rust_ident(""), "_");
    assert_eq!(valid_rust_ident("/x"), "_\u{30CE}X");
    assert_eq!(valid_rust_ident("--"), "_");
}

#[test]
fn ident_uppercases_unicode_first_letters() {
    assert_eq!(valid_rust_ident("über"), "Über");
    assert_eq!(valid_rust_ident("ßa"), "SSa");
}

#[test]
fn rel_path_joins() {
    assert_eq!(rel_path("", "a.svg"), "a.svg");
    assert_eq!(rel_path("icons", "a.svg"), "icons/a.svg");
}

#[test]
fn allowed_extensions() {
    let exts = vec!["svg".to_string(), "png".to_string()];
    assert!(has_allowed_extension("a.svg", &exts));
    assert!(has_allowed_extension("a.b.png", &exts));
    assert!(!has_allowed_extension("svg", &exts));
    assert!(!has_allowed_extension("a.jpg", &exts));
}

#[test]
fn ext_list_is_split_and_trimmed() {
    assert_eq!(parse_ext_list(" svg, png ,, "), vec!["svg".to_string(), "png".to_string()]);
    assert_eq!(parse_ext_list(""), Vec::<String>::new());
    assert_eq!(parse_ext_list("\tjpg\n"), vec!["jpg".to_string()]);
}

#[test]
fn defaults() {
    assert_eq!(resolve_root(None), ".");
    assert_eq!(resolve_root(Some("assets".to_string())), "assets");
    assert_eq!(resolve_exts(None), vec!["svg".to_string()]);
    assert_eq!(resolve_exts(Some(vec!["png".to_string()])), vec!["png".to_string()]);
}

#[test]
fn text_order() {
    assert!(text_le("a", "b"));
    assert!(text_le("a", "ab"));
    assert!(!text_le("ab", "a"));
    assert!(text_le("", ""));
    assert!(text_le("Z", "a"));
}

#[test]
fn sort_is_stable() {
    let v = vec![
        PathVariant { ident: "B".to_string(), path: "1".to_string() },
        PathVariant { ident: "A".to_string(), path: "2".to_string() },
        PathVariant { ident: "B".to_string(), path: "3".to_string() },
        PathVariant { ident: "A".to_string(), path: "4".to_string() },
    ];
    let s = sort_by_ident(v);
    assert_eq!(
        pairs(&s),
        vec![
            ("A".to_string(), "2".to_string()),
            ("A".to_string(), "4".to_string()),
            ("B".to_string(), "1".to_string()),
            ("B".to_string(), "3".to_string()),
        ]
    );
}

#[test]
fn collect_keeps_dirs_and_allowed_files_once() {
    let entries = vec![
        entry("", "icons", EntryKind::Dir),
        entry("icons", "a.svg", EntryKind::File),
        entry("icons", "b.txt", EntryKind::File),
        entry("icons", "link", EntryKind::Other),
        entry("", "icons", EntryKind::Dir),
    ];
    let exts = vec!["svg".to_string()];
    let mut variants = Vec::new();
    let mut seen = Vec::new();
    collect_paths(&entries, &exts, &mut variants, "", &mut seen);
    assert_eq!(
        pairs(&variants),
        vec![
            ("Icons".to_string(), "icons".to_string()),
            ("Icons\u{30CE}A\u{30FB}svg".to_string(), "icons/a.svg".to_string()),
        ]
    );
    assert_eq!(seen, vec!["icons".to_string(), "icons/a.svg".to_string()]);
}

#[test]
fn collect_uses_prefix_and_existing_seen() {
    let entries = vec![entry("", "a.svg", EntryKind::File), entry("", "b.svg", EntryKind::File)];
    let exts = vec!["svg".to_string()];
    let mut variants = Vec::new();
    let mut seen = vec!["img/a.svg".to_string()];
    collect_paths(&entries, &exts, &mut variants, "img", &mut seen);
    assert_eq!(pairs(&variants), vec![("Img\u{30CE}B\u{30FB}svg".to_string(), "img/b.svg".to_string())]);
    assert_eq!(seen.len(), 2);
}

#[test]
fn enum_variants_sorted_by_ident() {
    let entries = vec![
        entry("", "zeta.svg", EntryKind::File),
        entry("", "alpha", EntryKind::Dir),
        entry("alpha", "x-y.svg", EntryKind::File),
        entry("alpha", "x_y.svg", EntryKind::File),
    ];
    let exts = vec!["svg".to_string()];
    let v = path2enum_app(&entries, &exts, "");
    assert_eq!(
        pairs(&v),
        vec![
            ("Alpha".to_string(), "alpha".to_string()),
            ("Alpha\u{30CE}XY\u{30FB}svg".to_string(), "alpha/x-y.svg".to_string()),
            ("Alpha\u{30CE}XY\u{30FB}svg".to_string(), "alpha/x_y.svg".to_string()),
            ("Zeta\u{30FB}svg".to_string(), "zeta.svg".to_string()),
        ]
    );
}

#[test]
fn walk_order_does_not_matter() {
    let walk1 = vec![
        entry("", "b.svg", EntryKind::File),
        entry("", "dir", EntryKind::Dir),
        entry("dir", "c.svg", EntryKind::File),
        entry("", "a.svg", EntryKind::File),
    ];
    let walk2 = vec![
        entry("", "a.svg", EntryKind::File),
        entry("", "dir", EntryKind::Dir),
        entry("dir", "c.svg", EntryKind::File),
        entry("", "b.svg", EntryKind::File),
    ];
    let exts = vec!["svg".to_string()];
    let r1 = path2enum_app(&walk1, &exts, "");
    let r2 = path2enum_app(&walk2, &exts, "");
    assert_eq!(pairs(&r1), pairs(&r2));
    assert_eq!(r1[0].path, "a.svg");
}
