//! The manifest reader: decodes the package manifest through the toml
//! crate and decides the configured target.
//!
//! The decoded document is opaque to the verifier, but every toml call
//! the reader makes is a function of its arguments alone, so each call's
//! result carries a name (`toml_doc_of`, `toml_child_of`, `toml_str_of`,
//! `toml_is_table_of`). The spec function [`manifest_fields_of`] composes
//! those names into the fields the reader extracts from a text, and
//! [`read_manifest`] is proved to return exactly the target decision on
//! those fields — or a parse error exactly when the composition yields
//! none.

use crate::data::AnalyzeError;
use crate::parser::opt_str_model;
use vstd::prelude::*;

verus! {

#[verifier::external_type_specification]
#[verifier::external_body]
pub struct ExTomlValue(toml::Value);

#[verifier::external_type_specification]
#[verifier::external_body]
pub struct ExTomlDeError(toml::de::Error);

/// The document a text decodes to, if it decodes. toml::from_str is a
/// function of the text alone.
pub uninterp spec fn toml_doc_of(text: Seq<char>) -> Option<toml::Value>;

/// The value under a key of a TOML value, if the value is a table that
/// holds the key. toml::Value::get is a function of value and key alone.
pub uninterp spec fn toml_child_of(v: toml::Value, key: Seq<char>) -> Option<toml::Value>;

/// The string payload of a TOML value, if it is a string.
/// toml::Value::as_str is a function of the value alone.
pub uninterp spec fn toml_str_of(v: toml::Value) -> Option<Seq<char>>;

/// Whether a TOML value is a table. toml::Value::is_table is a function
/// of the value alone.
pub uninterp spec fn toml_is_table_of(v: toml::Value) -> bool;

/// Relies on toml::from_str: decodes a TOML document into a toml::Value,
/// deterministically in the text.
#[verifier::external_body]
fn toml_parse(text: &str) -> (r: Result<toml::Value, toml::de::Error>)
    ensures
        r matches Ok(v) ==> toml_doc_of(text@) == Some(v),
        r is Err ==> toml_doc_of(text@) is None,
{
    toml::from_str::<toml::Value>(text)
}

/// Relies on toml::Value::get: looks a key up, `None` when the value is
/// not a table or the key is absent, deterministically in value and key.
#[verifier::external_body]
fn toml_get<'a>(v: &'a toml::Value, key: &str) -> (r: Option<&'a toml::Value>)
    ensures
        r matches Some(c) ==> toml_child_of(*v, key@) == Some(*c),
        r is None ==> toml_child_of(*v, key@) is None,
{
    v.get(key)
}

/// Relies on toml::Value::as_str: the string payload, if the value is a
/// TOML string, deterministically in the value.
#[verifier::external_body]
fn toml_as_str(v: &toml::Value) -> (r: Option<String>)
    ensures
        r matches Some(s) ==> toml_str_of(*v) == Some(s@),
        r is None ==> toml_str_of(*v) is None,
{
    match v.as_str() {
        Some(s) => Some(s.to_string()),
        None => None,
    }
}

/// Relies on toml::Value::is_table.
#[verifier::external_body]
fn toml_is_table(v: &toml::Value) -> (r: bool)
    ensures
        r == toml_is_table_of(*v),
{
    v.is_table()
}

/// Relies on toml::de::Error::message: what went wrong, as text.
#[verifier::external_body]
fn toml_error_message(e: &toml::de::Error) -> (r: String) {
    e.message().to_string()
}

/// A `[lib]` or `[bin]` section of the manifest: both fields optional.
#[derive(Debug, Clone, PartialEq)]
pub struct TargetTable {
    pub name: Option<String>,
    pub path: Option<String>,
}

/// The manifest fields the analysis cares about, as plain values.
#[derive(Debug, Clone, PartialEq)]
pub struct RawManifest {
    pub package_name: String,
    pub package_version: String,
    pub lib: Option<TargetTable>,
    pub bin: Option<TargetTable>,
}

/// What the manifest reader yields: the package identity and the entry
/// file path, relative to the package root.
#[derive(Debug, Clone, PartialEq)]
pub struct ManifestInfo {
    pub crate_name: String,
    pub version: String,
    pub entry_rel_path: String,
}

/// A target section's fields, as mathematical values.
#[verifier::ext_equal]
pub ghost struct TargetFields {
    pub name: Option<Seq<char>>,
    pub path: Option<Seq<char>>,
}

/// The extracted manifest fields, as mathematical values.
#[verifier::ext_equal]
pub ghost struct ManifestFields {
    pub package_name: Seq<char>,
    pub package_version: Seq<char>,
    pub lib: Option<TargetFields>,
    pub bin: Option<TargetFields>,
}

impl TargetTable {
    pub open spec fn model(&self) -> TargetFields {
        TargetFields { name: opt_str_model(self.name), path: opt_str_model(self.path) }
    }
}

pub open spec fn opt_target_model(o: Option<TargetTable>) -> Option<TargetFields> {
    match o {
        None => None,
        Some(t) => Some(t.model()),
    }
}

impl RawManifest {
    pub open spec fn model(&self) -> ManifestFields {
        ManifestFields {
            package_name: self.package_name@,
            package_version: self.package_version@,
            lib: opt_target_model(self.lib),
            bin: opt_target_model(self.bin),
        }
    }
}

/// An optional string field of a table: `None` for a present value that
/// is not a string, `Some(None)` for an absent key, `Some(Some(s))` for
/// a string.
pub open spec fn spec_opt_str(sec: toml::Value, key: Seq<char>) -> Option<Option<Seq<char>>> {
    match toml_child_of(sec, key) {
        None => Some(None),
        Some(v) => match toml_str_of(v) {
            None => None,
            Some(s) => Some(Some(s)),
        },
    }
}

/// A required string field of a table, or `None` when absent or not a
/// string.
pub open spec fn spec_req_str(tbl: toml::Value, key: Seq<char>) -> Option<Seq<char>> {
    match toml_child_of(tbl, key) {
        None => None,
        Some(v) => toml_str_of(v),
    }
}

/// What reading one optional target section yields: `None` when the
/// section is present but malformed, otherwise its fields or its
/// absence.
pub open spec fn spec_target_of(doc: toml::Value, key: Seq<char>) -> Option<Option<TargetFields>> {
    match toml_child_of(doc, key) {
        None => Some(None),
        Some(sec) => {
            if !toml_is_table_of(sec) {
                None
            } else {
                let name = spec_opt_str(sec, "name"@);
                let path = spec_opt_str(sec, "path"@);
                if name is None || path is None {
                    None
                } else {
                    Some(Some(TargetFields { name: name->0, path: path->0 }))
                }
            }
        },
    }
}

/// The fields the reader extracts from a decoded document, or `None`
/// when a required shape is missing.
pub open spec fn spec_raw_of(doc: toml::Value) -> Option<ManifestFields> {
    match toml_child_of(doc, "package"@) {
        None => None,
        Some(pkg) => {
            let name = spec_req_str(pkg, "name"@);
            let version = spec_req_str(pkg, "version"@);
            let lib = spec_target_of(doc, "lib"@);
            let bin = spec_target_of(doc, "bin"@);
            if name is None || version is None || lib is None || bin is None {
                None
            } else {
                Some(
                    ManifestFields {
                        package_name: name->0,
                        package_version: version->0,
                        lib: lib->0,
                        bin: bin->0,
                    },
                )
            }
        },
    }
}

/// The fields the reader extracts from a text, or `None` when the text
/// does not decode or a required shape is missing.
pub open spec fn manifest_fields_of(text: Seq<char>) -> Option<ManifestFields> {
    match toml_doc_of(text) {
        None => None,
        Some(doc) => spec_raw_of(doc),
    }
}

/// Decides the configured target. A manifest must configure exactly one of
/// a library or a binary; the target name defaults to the package name and
/// the entry path to the conventional location for the target kind.
pub fn resolve_target(raw: RawManifest) -> (r: Result<ManifestInfo, AnalyzeError>)
    ensures
        raw.lib is Some && raw.bin is Some ==> r == Err::<ManifestInfo, AnalyzeError>(
            AnalyzeError::AmbiguousTarget,
        ),
        raw.lib is None && raw.bin is None ==> r == Err::<ManifestInfo, AnalyzeError>(
            AnalyzeError::NoTarget,
        ),
        raw.lib is Some && raw.bin is None ==> (r matches Ok(info) && {
            &&& info.version@ == raw.package_version@
            &&& info.crate_name@ == (if raw.lib->0.name is Some {
                raw.lib->0.name->0@
            } else {
                raw.package_name@
            })
            &&& info.entry_rel_path@ == (if raw.lib->0.path is Some {
                raw.lib->0.path->0@
            } else {
                "src/lib.rs"@
            })
        }),
        raw.lib is None && raw.bin is Some ==> (r matches Ok(info) && {
            &&& info.version@ == raw.package_version@
            &&& info.crate_name@ == (if raw.bin->0.name is Some {
                raw.bin->0.name->0@
            } else {
                raw.package_name@
            })
            &&& info.entry_rel_path@ == (if raw.bin->0.path is Some {
                raw.bin->0.path->0@
            } else {
                "src/main.rs"@
            })
        }),
{
    match (raw.lib, raw.bin) {
        (Some(_), Some(_)) => Err(AnalyzeError::AmbiguousTarget),
        (None, None) => Err(AnalyzeError::NoTarget),
        (Some(t), None) => Ok(
            ManifestInfo {
                crate_name: match t.name {
                    Some(n) => n,
                    None => raw.package_name,
                },
                version: raw.package_version,
                entry_rel_path: match t.path {
                    Some(p) => p,
                    None => "src/lib.rs".to_owned(),
                },
            },
        ),
        (None, Some(t)) => Ok(
            ManifestInfo {
                crate_name: match t.name {
                    Some(n) => n,
                    None => raw.package_name,
                },
                version: raw.package_version,
                entry_rel_path: match t.path {
                    Some(p) => p,
                    None => "src/main.rs".to_owned(),
                },
            },
        ),
    }
}

/// Reads one optional string field of a target section.
fn opt_str_field(sec: &toml::Value, key: &str) -> (r: Result<Option<String>, AnalyzeError>)
    ensures
        r is Err <==> spec_opt_str(*sec, key@) is None,
        r matches Err(e) ==> e is ManifestParseError,
        r matches Ok(o) ==> spec_opt_str(*sec, key@) == Some(opt_str_model(o)),
{
    match toml_get(sec, key) {
        None => Ok(None),
        Some(v) => match toml_as_str(v) {
            Some(s) => Ok(Some(s)),
            None => Err(
                AnalyzeError::ManifestParseError("target field is not a string".to_owned()),
            ),
        },
    }
}

/// Reads one optional target section (`[lib]` or `[bin]`) out of the
/// decoded manifest. A present section must be a table, and its `name`
/// and `path` fields, when present, must be strings.
fn target_from_value(doc: &toml::Value, key: &str) -> (r: Result<Option<TargetTable>, AnalyzeError>)
    ensures
        r is Err <==> spec_target_of(*doc, key@) is None,
        r matches Err(e) ==> e is ManifestParseError,
        r matches Ok(t) ==> spec_target_of(*doc, key@) == Some(opt_target_model(t)),
{
    let section = match toml_get(doc, key) {
        Some(s) => s,
        None => {
            return Ok(None);
        },
    };
    if !toml_is_table(section) {
        return Err(AnalyzeError::ManifestParseError("target section is not a table".to_owned()));
    }
    let name = match opt_str_field(section, "name") {
        Ok(o) => o,
        Err(e) => {
            return Err(e);
        },
    };
    let path = match opt_str_field(section, "path") {
        Ok(o) => o,
        Err(e) => {
            return Err(e);
        },
    };
    Ok(Some(TargetTable { name, path }))
}

/// Reads the raw manifest fields out of a decoded document: the required
/// `package.name` and `package.version` strings and the optional target
/// sections.
fn raw_from_value(doc: &toml::Value) -> (r: Result<RawManifest, AnalyzeError>)
    ensures
        r is Err <==> spec_raw_of(*doc) is None,
        r matches Err(e) ==> e is ManifestParseError,
        r matches Ok(raw) ==> spec_raw_of(*doc) == Some(raw.model()),
{
    let package = match toml_get(doc, "package") {
        Some(p) => p,
        None => {
            return Err(AnalyzeError::ManifestParseError("missing package section".to_owned()));
        },
    };
    let package_name = match toml_get(package, "name") {
        Some(v) => match toml_as_str(v) {
            Some(s) => s,
            None => {
                return Err(
                    AnalyzeError::ManifestParseError("package name is not a string".to_owned()),
                );
            },
        },
        None => {
            return Err(AnalyzeError::ManifestParseError("missing package name".to_owned()));
        },
    };
    let package_version = match toml_get(package, "version") {
        Some(v) => match toml_as_str(v) {
            Some(s) => s,
            None => {
                return Err(
                    AnalyzeError::ManifestParseError("package version is not a string".to_owned()),
                );
            },
        },
        None => {
            return Err(AnalyzeError::ManifestParseError("missing package version".to_owned()));
        },
    };
    let lib = match target_from_value(doc, "lib") {
        Ok(t) => t,
        Err(e) => {
            return Err(e);
        },
    };
    let bin = match target_from_value(doc, "bin") {
        Ok(t) => t,
        Err(e) => {
            return Err(e);
        },
    };
    Ok(RawManifest { package_name, package_version, lib, bin })
}

/// Decodes manifest text and resolves the configured target: a parse
/// error exactly when the text does not decode to the required shape,
/// the two target-count faults exactly when the decoded fields configure
/// both targets or neither, and otherwise the target decision on the
/// decoded fields, defaults included.
pub fn read_manifest(text: &str) -> (r: Result<ManifestInfo, AnalyzeError>)
    ensures
        manifest_fields_of(text@) is None <==> (r matches Err(e) && e is ManifestParseError),
        manifest_fields_of(text@) matches Some(f) ==> ({
            &&& f.lib is Some && f.bin is Some ==> r == Err::<ManifestInfo, AnalyzeError>(
                AnalyzeError::AmbiguousTarget,
            )
            &&& f.lib is None && f.bin is None ==> r == Err::<ManifestInfo, AnalyzeError>(
                AnalyzeError::NoTarget,
            )
            &&& f.lib is Some && f.bin is None ==> (r matches Ok(info) && {
                &&& info.version@ == f.package_version
                &&& info.crate_name@ == (if f.lib->0.name is Some {
                    f.lib->0.name->0
                } else {
                    f.package_name
                })
                &&& info.entry_rel_path@ == (if f.lib->0.path is Some {
                    f.lib->0.path->0
                } else {
                    "src/lib.rs"@
                })
            })
            &&& f.lib is None && f.bin is Some ==> (r matches Ok(info) && {
                &&& info.version@ == f.package_version
                &&& info.crate_name@ == (if f.bin->0.name is Some {
                    f.bin->0.name->0
                } else {
                    f.package_name
                })
                &&& info.entry_rel_path@ == (if f.bin->0.path is Some {
                    f.bin->0.path->0
                } else {
                    "src/main.rs"@
                })
            })
        }),
        r matches Err(e) ==> (e is ManifestParseError || e is AmbiguousTarget || e is NoTarget),
{
    let doc = match toml_parse(text) {
        Ok(d) => d,
        Err(e) => {
            return Err(AnalyzeError::ManifestParseError(toml_error_message(&e)));
        },
    };
    let raw = match raw_from_value(&doc) {
        Ok(raw) => raw,
        Err(e) => {
            return Err(e);
        },
    };
    proof {
        assert(manifest_fields_of(text@) == Some(raw.model()));
    }
    resolve_target(raw)
}

} // verus!
