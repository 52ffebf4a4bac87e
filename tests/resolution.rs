use rusty_docs::models::{sort_dedup, CodeElement, CodeElementID, CodeFile, ItemKind};
use rusty_docs::parsing::parse_file;
use rusty_docs::resolve::{contains_fully_qualified, parsing_step_2, pattern_formatter, verify_dependency};
use rusty_docs::syntax::Decl;

fn decl(kind: ItemKind, ident: &str, first: usize, last: usize) -> Decl {
    Decl {
        kind,
        ident: ident.to_string(),
        first_line: first,
        last_line: last,
        field_lines: Vec::new(),
        members: Vec::new(),
        use_tree: None,
        scope_uses: Vec::new(),
    }
}

fn id(ident: &str, kind: ItemKind, location: &str) -> CodeElementID {
    CodeElementID::new(ident.to_string(), kind, location.to_string())
}

fn element(ident: &str, kind: ItemKind, location: &str, code: &str, imports: &[&str]) -> CodeElement {
    CodeElement {
        code_element_id: id(ident, kind, location),
        code: code.to_string(),
        line_start: vec![1],
        imports: imports.iter().map(|s| s.to_string()).collect(),
        children: Vec::new(),
        dependencies: Vec::new(),
        implementors: Vec::new(),
    }
}

fn find<'a>(files: &'a [CodeFile], ident: &str) -> &'a CodeElement {
    files.iter().flat_map(|f| f.elements.iter()).find(|e| e.code_element_id.ident == ident).expect("present")
}

#[test]
fn point_and_dist_reference_each_other() {
    let code = "pub struct Point {\n    x: f64,\n    y: f64,\n}\n\npub fn dist(p: Point) -> f64 {\n    (p.x * p.x + p.y * p.y).sqrt()\n}\n";
    let mut point = decl(ItemKind::Struct, "Point", 1, 4);
    point.field_lines = vec![2, 3];
    let dist = decl(ItemKind::Fn, "dist", 6, 8);
    let file = parse_file("repo/src/geometry.rs", code, &vec![point, dist]);
    let files = parsing_step_2(vec![file]);
    let point_id = id("Point", ItemKind::Struct, "crate :: geometry");
    let dist_id = id("dist", ItemKind::Fn, "crate :: geometry");
    assert_eq!(find(&files, "Point").implementors, vec![dist_id.clone()]);
    assert_eq!(find(&files, "dist").dependencies, vec![point_id.clone()]);
    assert!(find(&files, "Point").dependencies.is_empty());
    assert!(find(&files, "dist").implementors.is_empty());
    assert!(find(&files, "geometry").implementors.is_empty());
}

#[test]
fn word_boundaries_and_documentation_are_respected() {
    let a = element("Point", ItemKind::Struct, "crate :: m", "struct Point;", &[]);
    let b = element("Pointer", ItemKind::Struct, "crate :: m", "/// see fn_a\nstruct Pointer(u8);", &[]);
    let c = element("fn_a", ItemKind::Fn, "crate :: m", "fn fn_a() -> Pointer { make() }", &[]);
    let files = parsing_step_2(vec![CodeFile { path: "src/m.rs".to_string(), elements: vec![a, b, c] }]);
    assert!(find(&files, "Point").implementors.is_empty());
    assert_eq!(find(&files, "Pointer").implementors, vec![id("fn_a", ItemKind::Fn, "crate :: m")]);
    assert!(find(&files, "fn_a").implementors.is_empty());
}

#[test]
fn visibility_needs_scope_or_import_but_qualified_names_pass() {
    let target = element("Helper", ItemKind::Struct, "crate :: a", "struct Helper;", &[]);
    let unseen = element("user", ItemKind::Fn, "crate :: b", "fn user(h: Helper) {}", &[]);
    let imported = element("other", ItemKind::Fn, "crate :: c", "fn other(h: Helper) {}", &["crate :: a"]);
    let qualified = element("third", ItemKind::Fn, "crate :: d", "fn third(h: crate::a::Helper) {}", &[]);
    let files = parsing_step_2(vec![CodeFile {
        path: "repo/src/x.rs".to_string(),
        elements: vec![target, unseen, imported, qualified],
    }]);
    assert_eq!(
        find(&files, "Helper").implementors,
        vec![id("other", ItemKind::Fn, "crate :: c"), id("third", ItemKind::Fn, "crate :: d")]
    );
    let third = find(&files, "third");
    assert_eq!(third.dependencies, vec![id("Helper", ItemKind::Struct, "crate :: a")]);
}

#[test]
fn qualified_references_count_anywhere_in_the_text() {
    let target = element("Helper", ItemKind::Struct, "crate :: a", "struct Helper;", &[]);
    let doc = element("user", ItemKind::Fn, "crate :: b", "/// Wraps crate::a::Helper.\nfn user() {}", &[]);
    let files = parsing_step_2(vec![CodeFile { path: "src/x.rs".to_string(), elements: vec![target, doc] }]);
    assert_eq!(find(&files, "Helper").implementors, vec![id("user", ItemKind::Fn, "crate :: b")]);
}

#[test]
fn unique_identities_are_detected() {
    let a = element("impl_T", ItemKind::Impl, "crate :: a", "impl T {}", &[]);
    let b = element("impl_T", ItemKind::Impl, "crate :: a", "impl Display for T {}", &[]);
    let c = element("f", ItemKind::Fn, "crate :: a", "fn f() {}", &[]);
    assert!(!rusty_docs::resolve::has_unique_ids(&vec![a.clone(), b, c.clone()]));
    assert!(rusty_docs::resolve::has_unique_ids(&vec![a, c]));
}

#[test]
fn dependency_visibility_rules() {
    assert!(verify_dependency("crate :: lib", &ItemKind::Fn, "crate :: x", &[]));
    assert!(verify_dependency("crate :: main", &ItemKind::Fn, "crate :: x", &[]));
    assert!(!verify_dependency("lib", &ItemKind::Fn, "crate :: x", &[]));
    assert!(!verify_dependency("crate :: a", &ItemKind::Fn, "crate :: ab", &[]));
    assert!(verify_dependency("crate :: a", &ItemKind::Fn, "crate :: a", &[]));
    assert!(verify_dependency("crate :: a", &ItemKind::Fn, "crate :: a :: impl_T", &[]));
    assert!(!verify_dependency("crate :: a", &ItemKind::Mod, "crate :: a :: impl_T", &[]));
    assert!(!verify_dependency("crate :: a", &ItemKind::Trait, "crate :: a :: inner", &[]));
    assert!(verify_dependency("crate :: a", &ItemKind::Mod, "crate :: b", &["crate :: a".to_string()]));
    assert!(!verify_dependency("crate :: a", &ItemKind::Fn, "crate :: b", &["crate :: c".to_string()]));
}

#[test]
fn fully_qualified_names_ignore_spaces_in_locations() {
    assert!(contains_fully_qualified("Helper", "crate :: a", "let x = crate::a::Helper;"));
    assert!(!contains_fully_qualified("Helper", "crate :: a", "let x = a::Helper;"));
}

#[test]
fn declaration_patterns() {
    assert_eq!(pattern_formatter("go", &ItemKind::Fn), "fn go");
    assert_eq!(pattern_formatter("T", &ItemKind::Trait), "trait T");
    assert_eq!(pattern_formatter("S", &ItemKind::Struct), "struct S");
    assert_eq!(pattern_formatter("m", &ItemKind::Mod), "");
}

#[test]
fn sorting_orders_by_identity_and_drops_repeats() {
    let v = vec![
        id("b", ItemKind::Fn, "x"),
        id("a", ItemKind::Struct, "x"),
        id("a", ItemKind::Const, "y"),
        id("b", ItemKind::Fn, "x"),
        id("a", ItemKind::Const, "x"),
    ];
    assert_eq!(
        sort_dedup(v),
        vec![
            id("a", ItemKind::Const, "x"),
            id("a", ItemKind::Const, "y"),
            id("a", ItemKind::Struct, "x"),
            id("b", ItemKind::Fn, "x"),
        ]
    );
}

#[test]
fn lists_are_deduplicated_and_inverse() {
    let target = element("T", ItemKind::Struct, "crate :: a", "struct T;", &[]);
    let user = element("u", ItemKind::Fn, "crate :: a", "fn u(t: T) -> T { T }", &[]);
    let files = parsing_step_2(vec![
        CodeFile { path: "src/a.rs".to_string(), elements: vec![target] },
        CodeFile { path: "src/b.rs".to_string(), elements: vec![user] },
    ]);
    assert_eq!(files[0].path, "src/a.rs");
    assert_eq!(files[1].path, "src/b.rs");
    let all: Vec<&CodeElement> = files.iter().flat_map(|f| f.elements.iter()).collect();
    for x in &all {
        for y in &all {
            assert_eq!(
                x.dependencies.contains(&y.code_element_id),
                y.implementors.contains(&x.code_element_id)
            );
        }
        let mut d = x.dependencies.clone();
        d.dedup();
        assert_eq!(d.len(), x.dependencies.len());
    }
    assert_eq!(all[0].implementors.len(), 1);
}

#[test]
fn identity_hash_is_a_function_of_the_identity() {
    let a = id("x", ItemKind::Fn, "crate :: m");
    let b = id("x", ItemKind::Fn, "crate :: m");
    let c = id("x", ItemKind::Const, "crate :: m");
    assert_eq!(a.get_hash(), b.get_hash());
    assert_ne!(a.get_hash(), c.get_hash());
}

#[test]
fn kinds_parse_and_print() {
    assert_eq!(ItemKind::from_name("  FN "), Some(ItemKind::Fn));
    assert_eq!("externcrate".parse::<ItemKind>(), Ok(ItemKind::ExternCrate));
    assert_eq!(ItemKind::from_name("extern_crate"), None);
    assert_eq!(ItemKind::ForeignMod.to_string(), "foreign_mod");
    assert_eq!(ItemKind::Fn.to_string(), "fn");
}
