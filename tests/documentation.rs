use rusty_docs::doc_gen::{documentation_formatter, find_start, put_documentation_inside_repository, should_document};
use rusty_docs::models::{CodeElement, CodeElementID, DocumentedCodeElement, ItemKind};
use rusty_docs::openai::normalize_documented;

fn record(ident: &str, kind: &str, location: &str, description: &str) -> DocumentedCodeElement {
    DocumentedCodeElement {
        ident: ident.to_string(),
        kind: kind.to_string(),
        location: location.to_string(),
        general_description: description.to_string(),
        panic_possible: false,
        panic_section: String::new(),
        error_possible: false,
        error_section: String::new(),
        example_section: String::new(),
        has_fields_or_variants: false,
        fields_or_variants_descriptions: None,
    }
}

fn element(ident: &str, kind: ItemKind, location: &str, line: usize) -> CodeElement {
    CodeElement {
        code_element_id: CodeElementID::new(ident.to_string(), kind, location.to_string()),
        code: String::new(),
        line_start: vec![line],
        imports: Vec::new(),
        children: Vec::new(),
        dependencies: Vec::new(),
        implementors: Vec::new(),
    }
}

fn lines(text: &str) -> Vec<String> {
    text.lines().map(String::from).collect()
}

#[test]
fn function_documentation_has_its_sections() {
    let mut r = record("go", "fn", "crate :: a", "Runs.\nFast.");
    r.error_possible = true;
    r.error_section = "When it fails.".to_string();
    r.example_section = "go();".to_string();
    r.fields_or_variants_descriptions = Some(vec!["f".to_string()]);
    let (text, fields) = documentation_formatter(&r);
    assert_eq!(
        text,
        "/// Runs.\n/// Fast.\n/// \n/// # Errors \n/// \n/// When it fails. \n/// \n/// # Examples \n/// \n/// go();"
    );
    assert_eq!(fields, Some(vec!["f".to_string()]));
}

#[test]
fn module_documentation_is_inner() {
    let (text, fields) = documentation_formatter(&record("m", "mod", "crate", "About m.\nMore."));
    assert_eq!(text, "//! About m.\n//! More.");
    assert_eq!(fields, None);
    let (text, _) = documentation_formatter(&record("S", "struct", "crate", "A point."));
    assert_eq!(text, "/// A point.");
}

#[test]
fn the_start_is_the_first_line_of_the_matching_element() {
    let elements = vec![element("a", ItemKind::Fn, "crate :: x", 3), element("a", ItemKind::Struct, "crate :: x", 7)];
    assert_eq!(find_start(&elements, &record("a", "struct", "crate :: x", "")), Some(7));
    assert_eq!(find_start(&elements, &record("a", "fn", "crate :: y", "")), None);
}

#[test]
fn documentation_goes_above_its_element_and_later_lines_move_down() {
    let code = lines("use x;\n\nfn a() {}\n\nfn b() {}");
    let elements = vec![element("a", ItemKind::Fn, "crate :: m", 3), element("b", ItemKind::Fn, "crate :: m", 5)];
    let records = vec![
        record("a", "fn", "crate :: m", "Does a."),
        record("missing", "fn", "crate :: m", "Nothing."),
        record("b", "struct", "crate :: m", "Wrong kind."),
        record("b", "fn", "crate :: other", "Other file."),
        record("b", "fn", "crate :: m", "Does b."),
    ];
    let out = put_documentation_inside_repository("repo/src/m.rs", code.clone(), &elements, &records);
    let a_block = documentation_formatter(&records[0]).0;
    let k = a_block.lines().count();
    assert_eq!(out[2..2 + k].join("\n"), a_block);
    assert_eq!(out[2 + k], "fn a() {}");
    assert_eq!(out[4 + k], "/// Does b. ");
    assert_eq!(out[5 + k], "/// ");
    assert_eq!(out[out.len() - 1], "fn b() {}");
    assert_eq!(out.len(), code.len() + 2 * k);
}

#[test]
fn module_documentation_goes_inside_the_module() {
    let code = lines("mod m {\n    fn f() {}\n}");
    let elements = vec![element("f", ItemKind::Fn, "crate :: lib :: m", 2), element("m", ItemKind::Mod, "crate :: lib", 2)];
    let records = vec![record("m", "mod", "crate :: lib", "Inner."), record("f", "other", "crate :: lib :: m", "F.")];
    let out = put_documentation_inside_repository("repo/src/lib.rs", code, &elements, &records);
    assert_eq!(out, lines("mod m {\n//! Inner.\n    fn f() {}\n}"));
    let records = vec![record("f", "fn", "crate :: lib :: m", ""), record("m", "mod", "crate :: lib", "Inner.")];
    let out = put_documentation_inside_repository("repo/src/lib.rs", lines("mod m {\n    fn f() {}\n}"), &elements, &records);
    assert_eq!(out[0], "mod m {");
    assert_eq!(out[1], "//! Inner.");
    assert_eq!(out[2], "///  ");
    assert_eq!(out[out.len() - 2], "    fn f() {}");
}

#[test]
fn other_files_are_left_alone() {
    let code = lines("fn a() {}");
    let elements = vec![element("a", ItemKind::Fn, "crate :: m", 1)];
    let out = put_documentation_inside_repository("notes.txt", code.clone(), &elements, &vec![record("a", "fn", "m", "x")]);
    assert_eq!(out, code);
}

#[test]
fn kinds_to_document() {
    assert!(should_document(&ItemKind::Fn, &[ItemKind::All]));
    assert!(should_document(&ItemKind::Fn, &[ItemKind::Struct, ItemKind::Fn]));
    assert!(!should_document(&ItemKind::Fn, &[ItemKind::Struct]));
}

#[test]
fn generated_records_are_normalized() {
    let r = normalize_documented(record("a", "Fn", "crate::models :: item", "x"));
    assert_eq!(r.kind, "fn");
    assert_eq!(r.location, "crate :: models :: item");
    assert_eq!(r.ident, "a");
}
