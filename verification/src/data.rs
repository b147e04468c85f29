use vstd::prelude::*;

verus! {

/// Identity of the package under analysis: manifest fields plus the doc
/// comment of the entry module, which is filled in once that module is read.
#[derive(Debug, Clone, PartialEq)]
pub struct Crate {
    pub name: String,
    pub version: String,
    pub docstring: String,
}

/// One resolved module: its location in the declared tree (root to here),
/// its doc comment, and the names of the sub-modules it declares publicly.
#[derive(Debug, Clone, PartialEq)]
pub struct Module {
    pub path: Vec<String>,
    pub docstring: String,
    pub declarations: Vec<String>,
}

/// A doc-commented struct declared directly in some module's file.
#[derive(Debug, Clone, PartialEq)]
pub struct Struct {
    pub path: Vec<String>,
    pub docstring: String,
    pub fields: Vec<String>,
}

/// A doc-commented enum declared directly in some module's file.
#[derive(Debug, Clone, PartialEq)]
pub struct Enum {
    pub path: Vec<String>,
    pub docstring: String,
    pub variants: Vec<String>,
}

/// Everything the analysis produces: the package identity and the modules,
/// structs and enums reachable from the entry file. The entry module itself
/// is folded into `crate_` and never appears in `modules`.
#[derive(Debug, Clone, PartialEq)]
pub struct AnalysisResult {
    pub crate_: Crate,
    pub modules: Vec<Module>,
    pub structs: Vec<Struct>,
    pub enums: Vec<Enum>,
}

/// Why an analysis stopped. A declared sub-module with no file on disk is
/// the one tolerated gap and has no variant here.
#[derive(Debug, Clone, PartialEq)]
pub enum AnalyzeError {
    /// The given root is missing or not a directory.
    NotADirectory,
    /// No manifest file at the package root.
    ManifestMissing,
    /// The manifest could not be decoded; carries the underlying message.
    ManifestParseError(String),
    /// The manifest declares both a library and a binary target.
    AmbiguousTarget,
    /// The manifest declares neither a library nor a binary target.
    NoTarget,
    /// Reading a resolved file failed; carries the offending path.
    IoError(String),
    /// A module's text could not be parsed; carries the offending path
    /// or a description of the fault.
    SourceParseError(String),
}

/// Mathematical shape shared by modules, structs and enums: a path of
/// identifiers, a doc comment, and a list of member names (declared
/// sub-modules, fields, or variants).
#[verifier::ext_equal]
pub ghost struct SpecItem {
    pub path: Seq<Seq<char>>,
    pub docstring: Seq<char>,
    pub members: Seq<Seq<char>>,
}

impl Module {
    pub open spec fn model(&self) -> SpecItem {
        SpecItem {
            path: self.path.deep_view(),
            docstring: self.docstring@,
            members: self.declarations.deep_view(),
        }
    }
}

impl Struct {
    pub open spec fn model(&self) -> SpecItem {
        SpecItem {
            path: self.path.deep_view(),
            docstring: self.docstring@,
            members: self.fields.deep_view(),
        }
    }
}

impl Enum {
    pub open spec fn model(&self) -> SpecItem {
        SpecItem {
            path: self.path.deep_view(),
            docstring: self.docstring@,
            members: self.variants.deep_view(),
        }
    }
}

/// A path is rooted when it starts with the crate name.
pub open spec fn rooted(name: Seq<char>, path: Seq<Seq<char>>) -> bool {
    path.len() >= 1 && path[0] == name
}

/// The models of a sequence of modules, in order.
pub open spec fn module_models(v: Seq<Module>) -> Seq<SpecItem> {
    v.map_values(|m: Module| m.model())
}

/// The models of a sequence of structs, in order.
pub open spec fn struct_models(v: Seq<Struct>) -> Seq<SpecItem> {
    v.map_values(|m: Struct| m.model())
}

/// The models of a sequence of enums, in order.
pub open spec fn enum_models(v: Seq<Enum>) -> Seq<SpecItem> {
    v.map_values(|m: Enum| m.model())
}

} // verus!
