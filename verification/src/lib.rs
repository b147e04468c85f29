//! Static analysis of a package of source modules on disk: reads the
//! package manifest, resolves the declared module tree against the files
//! that actually exist, and collects the doc-commented structs and enums
//! reachable from the entry file into one structured result.
//!
//! The pieces that touch the operating system (directory checks, file
//! reads) stay outside this crate; a caller decodes the manifest with
//! [`manifest::read_manifest`], seeds an [`engine::Analyzer`] with the
//! entry file's text, and then drives the work list: pop a pending
//! declaration, report which candidate file exists, hand the file's
//! text back. The engine and the module-text parser are verified.

pub mod data;
pub mod engine;
pub mod manifest;
pub mod parser;

pub use data::AnalysisResult;
pub use data::AnalyzeError;
pub use data::Crate;
pub use data::Enum;
pub use data::Module;
pub use data::Struct;
pub use engine::choose_candidate;
pub use engine::Analyzer;
pub use engine::Pending;
pub use engine::Resolution;
pub use manifest::read_manifest;
pub use manifest::resolve_target;
pub use manifest::ManifestInfo;
pub use manifest::RawManifest;
pub use manifest::TargetTable;
pub use parser::parse_module_text;
