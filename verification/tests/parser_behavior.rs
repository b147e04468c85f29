use crate_analyzer::parse_module_text;
use crate_analyzer::AnalyzeError;

fn path_of(parts: &[&str]) -> Vec<String> {
    parts.iter().map(|s| s.to_string()).collect()
}

#[test]
fn module_doc_lines_join_with_newlines() {
    let text = "//! First line\n//! Second line\n";
    let (m, ss, es) = parse_module_text(&path_of(&["c"]), text).unwrap();
    assert_eq!(m.path, path_of(&["c"]));
    assert_eq!(m.docstring, "First line\nSecond line");
    assert!(m.declarations.is_empty());
    assert!(ss.is_empty());
    assert!(es.is_empty());
}

#[test]
fn struct_fields_are_collected_from_the_body() {
    let text = "/// Doc\npub struct S {\n    first: u8,\n    second: Vec<u8>,\n}\n";
    let (_, ss, _) = parse_module_text(&path_of(&["c", "m"]), text).unwrap();
    assert_eq!(ss.len(), 1);
    assert_eq!(ss[0].path, path_of(&["c", "m", "S"]));
    assert_eq!(ss[0].docstring, "Doc");
    assert_eq!(ss[0].fields, path_of(&["first", "second"]));
}

#[test]
fn enum_variants_are_collected_from_the_body() {
    let text = "/// Choice\npub enum E {\n    Left,\n    Right(u8),\n}\n";
    let (_, _, es) = parse_module_text(&path_of(&["c"]), text).unwrap();
    assert_eq!(es.len(), 1);
    assert_eq!(es[0].path, path_of(&["c", "E"]));
    assert_eq!(es[0].variants, path_of(&["Left", "Right"]));
}

#[test]
fn undocumented_items_are_not_reported() {
    let text = "pub struct Quiet;\npub enum Mute {}\n/// Loud\npub struct Loud;\n";
    let (_, ss, es) = parse_module_text(&path_of(&["c"]), text).unwrap();
    assert_eq!(ss.len(), 1);
    assert_eq!(ss[0].path, path_of(&["c", "Loud"]));
    assert!(es.is_empty());
}

#[test]
fn item_doc_lines_join_and_do_not_leak() {
    let text = "/// A\n/// B\npub struct S;\n\n/// stray\n\npub struct T;\n";
    let (_, ss, _) = parse_module_text(&path_of(&["c"]), text).unwrap();
    assert_eq!(ss.len(), 1);
    assert_eq!(ss[0].docstring, "A\nB");
}

#[test]
fn inline_module_bodies_are_declared_but_not_entered() {
    let text = "pub mod inner {\n/// Hidden\npub struct Hidden;\n}\npub mod plain;\n";
    let (m, ss, es) = parse_module_text(&path_of(&["c"]), text).unwrap();
    assert_eq!(m.declarations, path_of(&["inner", "plain"]));
    assert!(ss.is_empty());
    assert!(es.is_empty());
}

#[test]
fn tuple_struct_has_no_named_fields() {
    let text = "/// Pair\npub struct Pair(u8, u8);\n";
    let (_, ss, _) = parse_module_text(&path_of(&["c"]), text).unwrap();
    assert_eq!(ss.len(), 1);
    assert!(ss[0].fields.is_empty());
}

#[test]
fn unbalanced_brace_is_a_parse_error() {
    let err = parse_module_text(&path_of(&["c"]), "pub struct S {\n").unwrap_err();
    assert!(matches!(err, AnalyzeError::SourceParseError(_)));
}

#[test]
fn stray_closing_brace_is_a_parse_error() {
    let err = parse_module_text(&path_of(&["c"]), "}\n").unwrap_err();
    assert!(matches!(err, AnalyzeError::SourceParseError(_)));
}

#[test]
fn module_declaration_without_a_name_is_a_parse_error() {
    let err = parse_module_text(&path_of(&["c"]), "pub mod ;\n").unwrap_err();
    assert!(matches!(err, AnalyzeError::SourceParseError(_)));
}

#[test]
fn plain_comments_and_code_are_ignored() {
    let text = "// just a comment\nuse something::Else;\nfn private() {}\n//! Doc\n";
    let (m, ss, es) = parse_module_text(&path_of(&["c"]), text).unwrap();
    assert_eq!(m.docstring, "Doc");
    assert!(m.declarations.is_empty());
    assert!(ss.is_empty());
    assert!(es.is_empty());
}

#[test]
fn carriage_returns_and_padding_are_trimmed() {
    let text = "  //! Padded doc  \r\n\tpub mod a;\r\n";
    let (m, _, _) = parse_module_text(&path_of(&["c"]), text).unwrap();
    assert_eq!(m.docstring, "Padded doc");
    assert_eq!(m.declarations, path_of(&["a"]));
}
