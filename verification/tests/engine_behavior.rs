use crate_analyzer::AnalyzeError;
use crate_analyzer::Analyzer;
use crate_analyzer::Pending;
use std::collections::HashMap;

fn drive(analyzer: &mut Analyzer, files: &HashMap<String, String>) -> Result<(), AnalyzeError> {
    while let Some(p) = analyzer.pop_pending() {
        let file = p.file_candidate();
        let modf = p.mod_candidate();
        let res = crate_analyzer::choose_candidate(
            files.contains_key(&file),
            files.contains_key(&modf),
        );
        if let Some(found) = analyzer.begin_module(&p, res) {
            let text = files.get(&found).expect("begin_module handed back a candidate");
            analyzer.finish_module(&p, res, text)?;
        }
    }
    Ok(())
}

fn path_of(parts: &[&str]) -> Vec<String> {
    parts.iter().map(|s| s.to_string()).collect()
}

#[test]
fn end_to_end_nested_modules() {
    let manifest = "[package]\nname = \"my_crate\"\nversion = \"0.1.0\"\n\n[lib]\n";
    let info = crate_analyzer::read_manifest(manifest).unwrap();
    assert_eq!(info.crate_name, "my_crate");
    assert_eq!(info.version, "0.1.0");
    assert_eq!(info.entry_rel_path, "src/lib.rs");

    let mut files: HashMap<String, String> = HashMap::new();
    files.insert(
        "src/my_module.rs".to_string(),
        "//! The module docstring\npub mod my_submodule;\n/// The struct1 docstring\npub struct DummyStruct1;\n/// The enum1 docstring\npub enum DummyEnum1 {}\n".to_string(),
    );
    files.insert(
        "src/my_module/my_submodule.rs".to_string(),
        "//! The sub-module docstring\n/// The struct2 docstring\npub struct DummyStruct2;\n/// The enum2 docstring\npub enum DummyEnum2 {}\n".to_string(),
    );

    let mut a = Analyzer::new(info.crate_name, info.version);
    a.load_entry("src", "//! The crate docstring\npub mod my_module;\n").unwrap();
    drive(&mut a, &files).unwrap();
    let r = a.into_result();

    assert_eq!(r.crate_.name, "my_crate");
    assert_eq!(r.crate_.version, "0.1.0");
    assert_eq!(r.crate_.docstring, "The crate docstring");

    assert_eq!(r.modules.len(), 2);
    assert_eq!(r.modules[0].path, path_of(&["my_crate", "my_module"]));
    assert_eq!(r.modules[0].docstring, "The module docstring");
    assert_eq!(r.modules[0].declarations, path_of(&["my_submodule"]));
    assert_eq!(r.modules[1].path, path_of(&["my_crate", "my_module", "my_submodule"]));
    assert_eq!(r.modules[1].docstring, "The sub-module docstring");
    assert!(r.modules[1].declarations.is_empty());

    assert_eq!(r.structs.len(), 2);
    assert_eq!(r.structs[0].path, path_of(&["my_crate", "my_module", "DummyStruct1"]));
    assert_eq!(r.structs[0].docstring, "The struct1 docstring");
    assert!(r.structs[0].fields.is_empty());
    assert_eq!(
        r.structs[1].path,
        path_of(&["my_crate", "my_module", "my_submodule", "DummyStruct2"]),
    );
    assert_eq!(r.structs[1].docstring, "The struct2 docstring");
    assert!(r.structs[1].fields.is_empty());

    assert_eq!(r.enums.len(), 2);
    assert_eq!(r.enums[0].path, path_of(&["my_crate", "my_module", "DummyEnum1"]));
    assert_eq!(r.enums[0].docstring, "The enum1 docstring");
    assert!(r.enums[0].variants.is_empty());
    assert_eq!(
        r.enums[1].path,
        path_of(&["my_crate", "my_module", "my_submodule", "DummyEnum2"]),
    );
    assert_eq!(r.enums[1].docstring, "The enum2 docstring");
    assert!(r.enums[1].variants.is_empty());
}

#[test]
fn soft_success_when_entry_is_absent() {
    let a = Analyzer::new("stub_crate".to_string(), "2.0.0".to_string());
    let r = a.into_result();
    assert_eq!(r.crate_.name, "stub_crate");
    assert_eq!(r.crate_.version, "2.0.0");
    assert_eq!(r.crate_.docstring, "");
    assert!(r.modules.is_empty());
    assert!(r.structs.is_empty());
    assert!(r.enums.is_empty());
}

#[test]
fn duplicate_declaration_chains_are_taken_once() {
    let mut files: HashMap<String, String> = HashMap::new();
    files.insert(
        "src/shared.rs".to_string(),
        "//! Shared\n/// One struct\npub struct Once;\n".to_string(),
    );
    let mut a = Analyzer::new("dup".to_string(), "0.1.0".to_string());
    a.load_entry("src", "pub mod shared;\npub mod shared;\n").unwrap();
    drive(&mut a, &files).unwrap();
    let r = a.into_result();
    assert_eq!(r.modules.len(), 1);
    assert_eq!(r.modules[0].path, path_of(&["dup", "shared"]));
    assert_eq!(r.structs.len(), 1);
    assert_eq!(r.structs[0].path, path_of(&["dup", "shared", "Once"]));
}

#[test]
fn missing_submodule_is_skipped_without_error() {
    let mut files: HashMap<String, String> = HashMap::new();
    files.insert(
        "src/real_module.rs".to_string(),
        "//! Present\n/// Here\npub struct Here;\n".to_string(),
    );
    let mut a = Analyzer::new("gaps".to_string(), "0.1.0".to_string());
    a.load_entry("src", "pub mod absent_module;\npub mod real_module;\n").unwrap();
    drive(&mut a, &files).unwrap();
    let r = a.into_result();
    assert_eq!(r.modules.len(), 1);
    assert_eq!(r.modules[0].path, path_of(&["gaps", "real_module"]));
    assert_eq!(r.structs.len(), 1);
}

#[test]
fn mod_file_convention_keeps_parent_directory() {
    let mut files: HashMap<String, String> = HashMap::new();
    files.insert(
        "src/sub/mod.rs".to_string(),
        "//! Sub\npub mod child;\n/// In sub\npub struct InSub;\n".to_string(),
    );
    files.insert("src/child.rs".to_string(), "//! Child\n".to_string());
    let mut a = Analyzer::new("tree".to_string(), "0.1.0".to_string());
    a.load_entry("src", "pub mod sub;\n").unwrap();
    drive(&mut a, &files).unwrap();
    let r = a.into_result();
    assert_eq!(r.modules.len(), 2);
    assert_eq!(r.modules[0].path, path_of(&["tree", "sub"]));
    assert_eq!(r.modules[1].path, path_of(&["tree", "sub", "child"]));
    assert_eq!(r.modules[1].docstring, "Child");
}

#[test]
fn candidate_paths_follow_the_convention() {
    let p = Pending {
        dir: "src/a".to_string(),
        name: "b".to_string(),
        prefix: path_of(&["c", "a"]),
    };
    assert_eq!(p.file_candidate(), "src/a/b.rs");
    assert_eq!(p.mod_candidate(), "src/a/b/mod.rs");
    assert_eq!(p.dir_candidate(), "src/a/b");
}

#[test]
fn unparseable_module_aborts_the_analysis() {
    let mut files: HashMap<String, String> = HashMap::new();
    files.insert("src/broken.rs".to_string(), "pub struct Open {\n".to_string());
    let mut a = Analyzer::new("bad".to_string(), "0.1.0".to_string());
    a.load_entry("src", "pub mod broken;\n").unwrap();
    let err = drive(&mut a, &files).unwrap_err();
    assert!(matches!(err, AnalyzeError::SourceParseError(_)));
}

#[test]
fn entry_file_that_cannot_be_parsed_is_an_error() {
    let mut a = Analyzer::new("bad_entry".to_string(), "0.1.0".to_string());
    let err = a.load_entry("src", "}\n").unwrap_err();
    assert!(matches!(err, AnalyzeError::SourceParseError(_)));
}

#[test]
fn plain_file_is_preferred_over_mod_file() {
    let mut files: HashMap<String, String> = HashMap::new();
    files.insert("src/both.rs".to_string(), "//! As plain file
".to_string());
    files.insert("src/both/mod.rs".to_string(), "//! As mod file
".to_string());
    let mut a = Analyzer::new("pref".to_string(), "0.1.0".to_string());
    a.load_entry("src", "pub mod both;
").unwrap();
    drive(&mut a, &files).unwrap();
    let r = a.into_result();
    assert_eq!(r.modules.len(), 1);
    assert_eq!(r.modules[0].docstring, "As plain file");
}
