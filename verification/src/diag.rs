//! What the compiler front end reports of source files.
use vstd::prelude::*;

verus! {

#[derive(Debug, Clone, Copy, PartialEq, Eq, Structural)]
pub enum Severity {
    Error,
    Warning,
    Note,
    Help,
}

/// A range of bytes in the file with an address in the virtual file system.
pub struct DiagRange {
    pub file_url: String,
    pub start: u32,
    pub end: u32,
}

/// The model of a range of bytes in a file.
pub struct RangeParts {
    pub file_url: Seq<char>,
    pub start: u32,
    pub end: u32,
}

impl View for DiagRange {
    type V = RangeParts;

    open spec fn view(&self) -> RangeParts {
        RangeParts { file_url: self.file_url@, start: self.start, end: self.end }
    }
}

/// A range that a diagnostic points at, with what it says of it.
pub struct DiagLabel {
    pub range: DiagRange,
    pub message: Option<String>,
    pub is_primary: bool,
}

/// Whether a suggestion can be applied as it is.
#[derive(Debug, Clone, Copy, PartialEq, Eq, Structural)]
pub enum Applicability {
    MachineApplicable,
    MaybeIncorrect,
    HasPlaceholders,
    Unspecified,
}

/// New text for a range of a file.
pub struct SuggestedEdit {
    pub range: DiagRange,
    pub replacement: String,
}

/// The model of new text for a range of a file.
pub struct SuggestedParts {
    pub range: RangeParts,
    pub replacement: Seq<char>,
}

impl View for SuggestedEdit {
    type V = SuggestedParts;

    open spec fn view(&self) -> SuggestedParts {
        SuggestedParts { range: self.range@, replacement: self.replacement@ }
    }
}

/// A way to mend what a diagnostic is about.
pub struct Suggestion {
    pub title: String,
    pub applicability: Applicability,
    pub edits: Vec<SuggestedEdit>,
}

/// A diagnostic of the front end.
pub struct SourceDiagnostic {
    pub severity: Severity,
    pub code: Option<String>,
    pub message: String,
    pub primary: Option<DiagRange>,
    pub labels: Vec<DiagLabel>,
    pub notes: Vec<String>,
    pub helps: Vec<String>,
    pub suggestions: Vec<Suggestion>,
}

/// A name that the front end could not resolve.
pub enum NameProblem {
    Term { name: String },
    TypeConstructor { name: String },
    Class { name: String },
    ModuleQualifier { access_path: String },
    ModuleMember { access_path: String },
    QualifiedConstructor { access_path: String },
    Other,
}

/// A problem with a name, with the code, the message and the range of its diagnostic.
pub struct ReportedName {
    pub problem: NameProblem,
    pub code: String,
    pub message: String,
    pub range: DiagRange,
}

/// Where the front end looks for a name to import.
#[derive(Debug, Clone, Copy, PartialEq, Eq, Structural)]
pub enum ImportNamespace {
    Term,
    Type,
    Class,
}

/// A module that exports a name.
pub struct ImportCandidate {
    pub import_path: String,
    pub public_name: String,
}

/// The modules that export a name of a namespace.
pub struct NameCandidates {
    pub name: String,
    pub namespace: ImportNamespace,
    pub candidates: Vec<ImportCandidate>,
}

/// The modules that export a type with a constructor.
pub struct ConstructorCandidates {
    pub ty: String,
    pub constructor: String,
    pub candidates: Vec<ImportCandidate>,
}

/// The modules that can be imported under a qualifier and export a member.
pub struct ModuleCandidates {
    pub qualifier: String,
    pub member: String,
    pub candidates: Vec<ImportCandidate>,
}

/// What the front end knows of the imports that could mend the problems of a module.
pub struct ImportCandidates {
    pub names: Vec<NameCandidates>,
    pub constructors: Vec<ConstructorCandidates>,
    pub modules: Vec<ModuleCandidates>,
}

} // verus!
