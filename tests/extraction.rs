use rusty_docs::imports::{explode_use_tree, update_imports};
use rusty_docs::models::{CodeElement, ItemKind};
use rusty_docs::parsing::{extract_documentation, get_code_from_nested, module_location, parse_file};
use rusty_docs::syntax::{Decl, UseTree};
use rusty_docs::text::split_lines;

fn decl(kind: ItemKind, ident: &str, first: usize, last: usize) -> Decl {
    Decl {
        kind,
        ident: ident.to_string(),
        first_line: first,
        last_line: last,
        field_lines: Vec::new(),
        members: Vec::new(),
        use_tree: None,
        scope_uses: Vec::new(),
    }
}

fn path(segments: &[&str], last: UseTree) -> UseTree {
    let mut tree = last;
    for s in segments.iter().rev() {
        tree = UseTree::Path(s.to_string(), Box::new(tree));
    }
    tree
}

fn find<'a>(elements: &'a [CodeElement], ident: &str) -> &'a CodeElement {
    elements.iter().find(|e| e.code_element_id.ident == ident).expect("element present")
}

#[test]
fn split_lines_follows_str_lines() {
    assert_eq!(split_lines("a\r\nb\n"), vec!["a".to_string(), "b".to_string()]);
    assert_eq!(split_lines(""), Vec::<String>::new());
    assert_eq!(split_lines("\n"), vec!["".to_string()]);
    assert_eq!(split_lines("x\r"), vec!["x\r".to_string()]);
}

#[test]
fn nested_code_is_cut_relative_to_parent() {
    let code = "impl A {\n    fn f() {}\n    fn g() {\n    }\n}";
    assert_eq!(get_code_from_nested(code, 12, 13, Some(10)), "    fn g() {\n    }");
    assert_eq!(get_code_from_nested(code, 11, 11, Some(10)), "    fn f() {}");
    assert_eq!(get_code_from_nested(code, 1, 1, None), "impl A {");
    assert_eq!(get_code_from_nested(code, 4, 9, None), "    }\n}");
}

#[test]
fn use_trees_explode_into_paths() {
    let tree = path(
        &["std", "collections"],
        UseTree::Group(vec![
            UseTree::Name("HashMap".to_string()),
            UseTree::Rename("BTreeMap".to_string(), "Tree".to_string()),
            UseTree::Glob,
        ]),
    );
    let imports = explode_use_tree(&tree, "");
    assert_eq!(
        imports,
        vec![
            ("std :: collections :: HashMap".to_string(), "HashMap".to_string()),
            ("std :: collections :: BTreeMap as Tree".to_string(), "Tree".to_string()),
        ]
    );
    assert_eq!(explode_use_tree(&UseTree::Name("x".to_string()), ""), vec![(" :: x".to_string(), "x".to_string())]);
}

#[test]
fn body_uses_shadow_outer_imports() {
    let mut imports = vec![
        ("a :: Foo".to_string(), "Foo".to_string()),
        ("a :: Bar".to_string(), "Bar".to_string()),
    ];
    let local = vec![path(&["b"], UseTree::Name("Bar".to_string())), path(&["c"], UseTree::Name("Baz".to_string()))];
    update_imports(&local, &mut imports);
    assert_eq!(
        imports,
        vec![
            ("a :: Foo".to_string(), "Foo".to_string()),
            ("b :: Bar".to_string(), "Bar".to_string()),
            ("c :: Baz".to_string(), "Baz".to_string()),
        ]
    );
}

#[test]
fn file_location_comes_from_the_path() {
    assert_eq!(module_location("repo/src/models/item.rs"), "crate :: models :: item");
    assert_eq!(module_location("lib.rs"), "crate :: lib");
}

#[test]
fn file_yields_items_then_the_file_module() {
    let code = "use std::fmt;\npub struct Point {\n    x: f64,\n    y: f64,\n}\n";
    let mut u = decl(ItemKind::Use, "", 1, 1);
    u.use_tree = Some(path(&["std"], UseTree::Name("fmt".to_string())));
    let mut s = decl(ItemKind::Struct, "Point", 2, 5);
    s.field_lines = vec![3, 4];
    let file = parse_file("repo/src/geometry.rs", code, &vec![u, s]);
    assert_eq!(file.path, "repo/src/geometry.rs");
    assert_eq!(file.elements.len(), 2);
    let point = &file.elements[0];
    assert_eq!(point.code_element_id.ident, "Point");
    assert_eq!(point.code_element_id.location, "crate :: geometry");
    assert_eq!(point.line_start, vec![2, 3, 4]);
    assert_eq!(point.code, "pub struct Point {\n    x: f64,\n    y: f64,\n}");
    assert_eq!(point.imports, vec!["std :: fmt".to_string()]);
    let module = &file.elements[1];
    assert_eq!(module.code_element_id.ident, "geometry");
    assert_eq!(module.code_element_id.kind, ItemKind::Mod);
    assert_eq!(module.code_element_id.location, "crate");
    assert_eq!(module.line_start, vec![1]);
    assert_eq!(module.children, vec![point.code_element_id.clone()]);
    assert!(file.elements.iter().all(|e| e.code_element_id.kind != ItemKind::Use));
}

#[test]
fn non_rust_files_yield_nothing() {
    let file = parse_file("repo/README.md", "# title", &vec![]);
    assert!(file.elements.is_empty());
}

#[test]
fn mod_rs_stands_for_its_directory() {
    let file = parse_file("repo/src/models/mod.rs", "", &vec![]);
    assert_eq!(file.elements.len(), 1);
    assert_eq!(file.elements[0].code_element_id.ident, "models");
    assert_eq!(file.elements[0].code_element_id.location, "crate :: models");
}

#[test]
fn test_modules_are_left_out_entirely() {
    let code = "fn a() {}\nmod tests {\n    fn t() {}\n}\nmod MyTestHelpers {\n    fn h() {}\n}\n";
    let mut m = decl(ItemKind::Mod, "tests", 2, 4);
    m.members = vec![decl(ItemKind::Fn, "t", 3, 3)];
    let mut m2 = decl(ItemKind::Mod, "MyTestHelpers", 5, 7);
    m2.members = vec![decl(ItemKind::Fn, "h", 6, 6)];
    let file = parse_file("repo/src/lib.rs", code, &vec![decl(ItemKind::Fn, "a", 1, 1), m, m2]);
    let idents: Vec<&str> = file.elements.iter().map(|e| e.code_element_id.ident.as_str()).collect();
    assert_eq!(idents, vec!["a", "lib"]);
    assert_eq!(file.elements[1].code_element_id.location, "crate");
    assert!(file.elements.iter().all(|e| !e.code_element_id.location.contains("tests")));
    assert_eq!(file.elements[1].children.len(), 1);
}

#[test]
fn impl_members_become_siblings_located_below() {
    let code = "impl Point {\n    fn norm(&self) -> f64 {\n        use std::f64::consts;\n        0.0\n    }\n}\n";
    let mut f = decl(ItemKind::Fn, "norm", 2, 5);
    f.scope_uses = vec![path(&["std", "f64"], UseTree::Name("consts".to_string()))];
    let mut i = decl(ItemKind::Impl, "impl_Point", 1, 6);
    i.members = vec![f];
    let file = parse_file("repo/src/geo.rs", code, &vec![i]);
    let norm = find(&file.elements, "norm");
    assert_eq!(norm.code_element_id.location, "crate :: geo :: impl_Point");
    assert_eq!(norm.line_start, vec![2]);
    assert_eq!(norm.imports, vec!["std :: f64 :: consts".to_string()]);
    assert_eq!(norm.code, "    fn norm(&self) -> f64 {\n        use std::f64::consts;\n        0.0\n    }");
    let block = find(&file.elements, "impl_Point");
    assert_eq!(block.children, vec![norm.code_element_id.clone()]);
    for child in &block.children {
        assert!(child.location.starts_with(&block.code_element_id.location));
        assert!(child.location.len() > block.code_element_id.location.len());
    }
}

#[test]
fn inline_module_docs_go_to_its_first_body_line() {
    let code = "mod inner {\n    fn f() {}\n}\nmod decl;\n";
    let mut m = decl(ItemKind::Mod, "inner", 1, 3);
    m.members = vec![decl(ItemKind::Fn, "f", 2, 2)];
    let file = parse_file("repo/src/lib.rs", code, &vec![m, decl(ItemKind::Mod, "decl", 4, 4)]);
    let inner = find(&file.elements, "inner");
    assert_eq!(inner.line_start, vec![2]);
    let f = find(&file.elements, "f");
    assert_eq!(f.code_element_id.location, "crate :: lib :: inner");
    assert_eq!(f.code, "    fn f() {}");
    assert!(file.elements.iter().all(|e| e.code_element_id.ident != "decl"));
    assert_eq!(file.elements.last().unwrap().children.len(), 2);
}

#[test]
fn every_child_is_located_below_its_parent() {
    let code = "fn a() {}\nmod inner {\n    fn f() {}\n}\n";
    let mut m = decl(ItemKind::Mod, "inner", 2, 4);
    m.members = vec![decl(ItemKind::Fn, "f", 3, 3)];
    let file = parse_file("repo/src/net/client.rs", code, &vec![decl(ItemKind::Fn, "a", 1, 1), m]);
    let module = file.elements.last().unwrap();
    assert_eq!(module.code_element_id.ident, "client");
    assert_eq!(module.code_element_id.location, "crate :: net");
    for e in &file.elements {
        for c in &e.children {
            assert!(c.location.starts_with(&e.code_element_id.location));
            assert!(c.location.len() > e.code_element_id.location.len());
        }
    }
}

#[test]
fn test_module_names_are_matched_in_lower_case() {
    assert!(rusty_docs::parsing::is_test_module_name("mytests"));
    assert!(!rusty_docs::parsing::is_test_module_name("Tests"));
    assert!(!rusty_docs::parsing::is_test_module_name("helpers"));
}

#[test]
fn extraction_is_deterministic() {
    let code = "fn a() {}\nfn b() {}\n";
    let items = || vec![decl(ItemKind::Fn, "a", 1, 1), decl(ItemKind::Fn, "b", 2, 2)];
    let first = parse_file("repo/src/x.rs", code, &items());
    let second = parse_file("repo/src/x.rs", code, &items());
    let ids = |f: &rusty_docs::CodeFile| {
        f.elements.iter().map(|e| (e.code_element_id.clone(), e.code_element_id.get_hash())).collect::<Vec<_>>()
    };
    assert_eq!(ids(&first), ids(&second));
}

#[test]
fn module_documentation_lines_are_kept() {
    assert_eq!(extract_documentation("//! one\nfn a() {}\n//! two"), "//! one\n//! two\n");
    assert_eq!(extract_documentation("fn a() {}"), "");
}
