use crate_analyzer::read_manifest;
use crate_analyzer::resolve_target;
use crate_analyzer::AnalyzeError;
use crate_analyzer::RawManifest;
use crate_analyzer::TargetTable;

#[test]
fn both_lib_and_bin_is_ambiguous() {
    let text = "[package]\nname = \"p\"\nversion = \"1.0.0\"\n\n[lib]\n\n[bin]\nname = \"b\"\n";
    assert_eq!(read_manifest(text).unwrap_err(), AnalyzeError::AmbiguousTarget);
}

#[test]
fn neither_lib_nor_bin_is_no_target() {
    let text = "[package]\nname = \"p\"\nversion = \"1.0.0\"\n";
    assert_eq!(read_manifest(text).unwrap_err(), AnalyzeError::NoTarget);
}

#[test]
fn library_defaults_to_package_name_and_lib_path() {
    let text = "[package]\nname = \"p\"\nversion = \"1.2.3\"\n\n[lib]\n";
    let info = read_manifest(text).unwrap();
    assert_eq!(info.crate_name, "p");
    assert_eq!(info.version, "1.2.3");
    assert_eq!(info.entry_rel_path, "src/lib.rs");
}

#[test]
fn binary_defaults_to_main_path() {
    let text = "[package]\nname = \"p\"\nversion = \"0.2.0\"\n\n[bin]\nname = \"tool\"\n";
    let info = read_manifest(text).unwrap();
    assert_eq!(info.crate_name, "tool");
    assert_eq!(info.entry_rel_path, "src/main.rs");
}

#[test]
fn explicit_target_name_and_path_win() {
    let text =
        "[package]\nname = \"p\"\nversion = \"0.2.0\"\n\n[lib]\nname = \"other\"\npath = \"lib/top.rs\"\n";
    let info = read_manifest(text).unwrap();
    assert_eq!(info.crate_name, "other");
    assert_eq!(info.entry_rel_path, "lib/top.rs");
}

#[test]
fn undecodable_manifest_is_a_parse_error() {
    let err = read_manifest("this = = is not toml").unwrap_err();
    assert!(matches!(err, AnalyzeError::ManifestParseError(_)));
}

#[test]
fn missing_package_name_is_a_parse_error() {
    let text = "[package]\nversion = \"1.0.0\"\n\n[lib]\n";
    let err = read_manifest(text).unwrap_err();
    assert!(matches!(err, AnalyzeError::ManifestParseError(_)));
}

#[test]
fn missing_package_version_is_a_parse_error() {
    let text = "[package]\nname = \"p\"\n\n[lib]\n";
    let err = read_manifest(text).unwrap_err();
    assert!(matches!(err, AnalyzeError::ManifestParseError(_)));
}

#[test]
fn non_table_target_section_is_a_parse_error() {
    let text = "lib = 5\n\n[package]\nname = \"p\"\nversion = \"1.0.0\"\n";
    let err = read_manifest(text).unwrap_err();
    assert!(matches!(err, AnalyzeError::ManifestParseError(_)));
}

#[test]
fn non_string_target_path_is_a_parse_error() {
    let text = "[package]\nname = \"p\"\nversion = \"1.0.0\"\n\n[lib]\npath = 3\n";
    let err = read_manifest(text).unwrap_err();
    assert!(matches!(err, AnalyzeError::ManifestParseError(_)));
}

#[test]
fn resolve_target_decides_from_plain_fields() {
    let raw = RawManifest {
        package_name: "p".to_string(),
        package_version: "9.9.9".to_string(),
        lib: None,
        bin: Some(TargetTable { name: None, path: None }),
    };
    let info = resolve_target(raw).unwrap();
    assert_eq!(info.crate_name, "p");
    assert_eq!(info.version, "9.9.9");
    assert_eq!(info.entry_rel_path, "src/main.rs");

    let raw = RawManifest {
        package_name: "p".to_string(),
        package_version: "9.9.9".to_string(),
        lib: Some(TargetTable { name: None, path: None }),
        bin: Some(TargetTable { name: None, path: None }),
    };
    assert_eq!(resolve_target(raw).unwrap_err(), AnalyzeError::AmbiguousTarget);
}
