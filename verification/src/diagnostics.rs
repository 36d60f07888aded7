//! Conversion of the front end's diagnostics to those that are published.
//!
//! The front end's diagnostics carry byte ranges in files that they name by address. They are
//! filtered to the document that is asked for, and their ranges go through its line index.
use vstd::prelude::*;

use crate::analysis::{facts_at, known_text, source_file};
use crate::diag::{DiagLabel, DiagRange, RangeParts, Severity, SourceDiagnostic};
use crate::hir::Analysis;
use crate::line_index::{range_at, LineIndexExt};
use crate::protocol::{Location, LocationParts, Range};
use crate::seqs::{collect, filter_map, seen, views};
use crate::state::{client_uri, known_path, WorldModel, WorldState};
use crate::url::{Url, UrlParts};

verus! {

#[derive(Debug, Clone, Copy, PartialEq, Eq, Structural)]
pub enum DiagnosticSeverity {
    Error,
    Warning,
    Information,
    Hint,
}

/// The code of a diagnostic.
pub enum DiagnosticCode {
    Number(i32),
    Text(String),
}

/// The model of the code of a diagnostic.
pub enum CodeParts {
    Number(i32),
    Text(Seq<char>),
}

impl View for DiagnosticCode {
    type V = CodeParts;

    open spec fn view(&self) -> CodeParts {
        match *self {
            DiagnosticCode::Number(number) => CodeParts::Number(number),
            DiagnosticCode::Text(text) => CodeParts::Text(text@),
        }
    }
}

/// Another range that a diagnostic speaks of.
pub struct RelatedInformation {
    pub location: Location,
    pub message: String,
}

/// The model of another range that a diagnostic speaks of.
pub struct RelatedParts {
    pub location: LocationParts,
    pub message: Seq<char>,
}

impl View for RelatedInformation {
    type V = RelatedParts;

    open spec fn view(&self) -> RelatedParts {
        RelatedParts { location: self.location@, message: self.message@ }
    }
}

/// A diagnostic as it is published.
pub struct Diagnostic {
    pub range: Range,
    pub severity: DiagnosticSeverity,
    pub code: Option<DiagnosticCode>,
    pub source: String,
    pub message: String,
    pub related_information: Vec<RelatedInformation>,
}

/// The model of a diagnostic as it is published.
pub struct DiagnosticParts {
    pub range: Range,
    pub severity: DiagnosticSeverity,
    pub code: Option<CodeParts>,
    pub source: Seq<char>,
    pub message: Seq<char>,
    pub related_information: Seq<RelatedParts>,
}

impl View for Diagnostic {
    type V = DiagnosticParts;

    open spec fn view(&self) -> DiagnosticParts {
        DiagnosticParts {
            range: self.range,
            severity: self.severity,
            code: seen(self.code),
            source: self.source@,
            message: self.message@,
            related_information: views(self.related_information@),
        }
    }
}

pub open spec fn published_severity(severity: Severity) -> DiagnosticSeverity {
    match severity {
        Severity::Error => DiagnosticSeverity::Error,
        Severity::Warning => DiagnosticSeverity::Warning,
        Severity::Note => DiagnosticSeverity::Information,
        Severity::Help => DiagnosticSeverity::Hint,
    }
}

pub fn to_lsp_severity(severity: Severity) -> (published: DiagnosticSeverity)
    ensures
        published == published_severity(severity),
{
    match severity {
        Severity::Error => DiagnosticSeverity::Error,
        Severity::Warning => DiagnosticSeverity::Warning,
        Severity::Note => DiagnosticSeverity::Information,
        Severity::Help => DiagnosticSeverity::Hint,
    }
}

/// A text with paragraphs behind it, each behind a heading.
pub open spec fn with_paragraphs(text: Seq<char>, heading: Seq<char>, paragraphs: Seq<String>) -> Seq<char>
    decreases paragraphs.len(),
{
    if paragraphs.len() == 0 {
        text
    } else {
        with_paragraphs(text, heading, paragraphs.drop_last()) + heading + paragraphs.last()@
    }
}

fn append_paragraphs(text: &mut String, heading: &str, paragraphs: &Vec<String>)
    ensures
        final(text)@ == with_paragraphs(old(text)@, heading@, paragraphs@),
{
    let ghost before = text@;
    let ghost all = paragraphs@;
    let mut i: usize = 0;
    assert(all.take(0) == Seq::<String>::empty());
    while i < paragraphs.len()
        invariant
            i <= all.len(),
            all == paragraphs@,
            text@ == with_paragraphs(before, heading@, all.take(i as int)),
        decreases all.len() - i,
    {
        assert(all.take(i + 1).drop_last() == all.take(i as int));
        assert(all.take(i + 1).last() == all[i as int]);
        text.append(heading);
        text.append(paragraphs[i].as_str());
        i += 1;
    }
    assert(all.take(i as int) == all);
}

/// The message of a diagnostic with its notes and its helps.
pub open spec fn full_message(diagnostic: SourceDiagnostic) -> Seq<char> {
    with_paragraphs(
        with_paragraphs(diagnostic.message@, "\n\nnote: "@, diagnostic.notes@),
        "\n\nhelp: "@,
        diagnostic.helps@,
    )
}

pub fn message_with_notes_and_helps(diagnostic: &SourceDiagnostic) -> (message: String)
    ensures
        message@ == full_message(*diagnostic),
{
    let mut message = diagnostic.message.clone();
    append_paragraphs(&mut message, "\n\nnote: ", &diagnostic.notes);
    append_paragraphs(&mut message, "\n\nhelp: ", &diagnostic.helps);
    message
}

/// The place in a known document of a range of a file.
pub open spec fn place_of_range(world: WorldModel, range: RangeParts) -> Option<LocationParts> {
    match client_uri(world, range.file_url) {
        Some(uri) => match known_text(world, uri) {
            Some(text) => Some(
                LocationParts { uri, range: range_at(text, range.start as int, range.end as int) },
            ),
            None => None,
        },
        None => None,
    }
}

fn location_for_range(world: &WorldState, range: &DiagRange) -> (location: Option<Location>)
    ensures
        seen(location) == place_of_range(world@, range@),
{
    let uri = match world.client_uri_for_vfs_url(range.file_url.as_str()) {
        Some(uri) => uri,
        None => return None,
    };
    let shown = match world.line_index(&uri) {
        Some(index) => index.range(range.start, range.end),
        None => return None,
    };
    Some(Location { uri, range: shown })
}

/// What a label adds to a diagnostic.
pub open spec fn related_of(world: WorldModel, label: DiagLabel) -> Option<RelatedParts> {
    match (label.is_primary, label.message, place_of_range(world, label.range@)) {
        (false, Some(message), Some(location)) => Some(
            RelatedParts { location, message: message@ },
        ),
        _ => None,
    }
}

fn related_information(world: &WorldState, labels: &Vec<DiagLabel>) -> (related: Vec<
    RelatedInformation,
>)
    ensures
        views(related@) == filter_map(labels@, |label: DiagLabel| related_of(world@, label)),
{
    let of_label = |label: &DiagLabel| -> (related: Option<RelatedInformation>)
        ensures
            seen(related) == related_of(world@, *label),
    {
        if label.is_primary {
            return None;
        }
        match (&label.message, location_for_range(world, &label.range)) {
            (Some(message), Some(location)) => Some(
                RelatedInformation { location, message: message.clone() },
            ),
            _ => None,
        }
    };
    collect(labels, of_label, Ghost(|label: DiagLabel| related_of(world@, label)))
}

/// The code of a diagnostic as it is published.
pub open spec fn published_code(code: Option<String>) -> Option<CodeParts> {
    match code {
        Some(code) => Some(CodeParts::Text(code@)),
        None => None,
    }
}

/// A diagnostic as it is published for a document.
pub open spec fn published(
    world: WorldModel,
    text: Seq<char>,
    diagnostic: SourceDiagnostic,
    primary: RangeParts,
) -> DiagnosticParts {
    DiagnosticParts {
        range: range_at(text, primary.start as int, primary.end as int),
        severity: published_severity(diagnostic.severity),
        code: published_code(diagnostic.code),
        source: "solcore"@,
        message: full_message(diagnostic),
        related_information: filter_map(
            diagnostic.labels@,
            |label: DiagLabel| related_of(world, label),
        ),
    }
}

fn to_lsp_diagnostic(
    world: &WorldState,
    index: &LineIndexExt,
    diagnostic: &SourceDiagnostic,
    primary: &DiagRange,
) -> (converted: Diagnostic)
    ensures
        converted@ == published(world@, index@, *diagnostic, primary@),
{
    let code = match &diagnostic.code {
        Some(code) => Some(DiagnosticCode::Text(code.clone())),
        None => None,
    };
    Diagnostic {
        range: index.range(primary.start, primary.end),
        severity: to_lsp_severity(diagnostic.severity),
        code,
        source: "solcore".to_owned(),
        message: message_with_notes_and_helps(diagnostic),
        related_information: related_information(world, &diagnostic.labels),
    }
}

/// The diagnostic that is published for a document, none where the diagnostic is about another
/// one.
pub open spec fn published_for(world: WorldModel, uri: UrlParts, diagnostic: SourceDiagnostic) -> Option<
    DiagnosticParts,
> {
    match (known_path(world, uri), known_text(world, uri), diagnostic.primary) {
        (Some(_), Some(text), Some(primary)) => match client_uri(world, primary.file_url@) {
            Some(owner) => if owner.text == uri.text {
                Some(published(world, text, diagnostic, primary@))
            } else {
                None
            },
            None => None,
        },
        _ => None,
    }
}

/// Converts a diagnostic of the front end to the one that is published for a document.
pub fn published_diagnostic(world: &WorldState, uri: &Url, diagnostic: &SourceDiagnostic) -> (converted:
    Option<Diagnostic>)
    ensures
        seen(converted) == published_for(world@, uri@, *diagnostic),
{
    match (world.vfs_path_for_uri(uri), world.line_index(uri), &diagnostic.primary) {
        (Some(_), Some(index), Some(primary)) => match world.client_uri_for_vfs_url(
            primary.file_url.as_str(),
        ) {
            Some(owner) => if owner.same(uri) {
                Some(to_lsp_diagnostic(world, index, diagnostic, primary))
            } else {
                None
            },
            None => None,
        },
        _ => None,
    }
}

/// Computes the diagnostics of a single document from those of the front end.
pub fn compute_diagnostics(world: &WorldState, uri: &Url, found: &Vec<SourceDiagnostic>) -> (diagnostics:
    Vec<Diagnostic>)
    ensures
        views(diagnostics@) == filter_map(
            found@,
            |diagnostic: SourceDiagnostic| published_for(world@, uri@, diagnostic),
        ),
{
    let convert = |diagnostic: &SourceDiagnostic| -> (converted: Option<Diagnostic>)
        ensures
            seen(converted) == published_for(world@, uri@, *diagnostic),
    {
        published_diagnostic(world, uri, diagnostic)
    };
    collect(
        found,
        convert,
        Ghost(|diagnostic: SourceDiagnostic| published_for(world@, uri@, diagnostic)),
    )
}

/// The module from which the front end looks for the diagnostics of a document.
pub enum DiagnosticsEntry {
    /// The entry module of the workspace.
    Workspace,
    /// The document itself, by its path.
    Document(String),
}

/// The model of the module from which diagnostics are looked for.
pub enum EntryParts {
    Workspace,
    Document(Seq<char>),
}

impl View for DiagnosticsEntry {
    type V = EntryParts;

    open spec fn view(&self) -> EntryParts {
        match *self {
            DiagnosticsEntry::Workspace => EntryParts::Workspace,
            DiagnosticsEntry::Document(path) => EntryParts::Document(path@),
        }
    }
}

/// Whether the entry module of the workspace reaches the file with a path.
pub open spec fn reachable(analysis: Analysis, path: Seq<char>) -> bool {
    match facts_at(analysis.files@, path) {
        Some(facts) => analysis.reachable@.contains(facts.file),
        None => false,
    }
}

pub fn is_reachable_from_workspace_entry(analysis: &Analysis, path: &str) -> (found: bool)
    ensures
        found == reachable(*analysis, path@),
{
    let facts = match source_file(&analysis.files, path) {
        Some(facts) => facts,
        None => return false,
    };
    let mut i: usize = 0;
    while i < analysis.reachable.len()
        invariant
            i <= analysis.reachable@.len(),
            facts_at(analysis.files@, path@) == Some(*facts),
            forall|k: int| 0 <= k < i ==> analysis.reachable@[k] != facts.file,
        decreases analysis.reachable@.len() - i,
    {
        if analysis.reachable[i] == facts.file {
            assert(analysis.reachable@[i as int] == facts.file);
            return true;
        }
        i += 1;
    }
    false
}

/// The module from which to look for the diagnostics of a document: the workspace's own entry
/// where it reaches the document, else the document. None where the document is not known.
pub open spec fn entry_for(world: WorldModel, analysis: Analysis, uri: UrlParts) -> Option<EntryParts> {
    match (known_path(world, uri), known_text(world, uri)) {
        (Some(path), Some(_)) => if reachable(analysis, path) {
            Some(EntryParts::Workspace)
        } else {
            Some(EntryParts::Document(path))
        },
        _ => None,
    }
}

/// Returns the module from which to look for the diagnostics of a document.
pub fn diagnostics_entry(world: &WorldState, analysis: &Analysis, uri: &Url) -> (entry: Option<
    DiagnosticsEntry,
>)
    ensures
        seen(entry) == entry_for(world@, *analysis, uri@),
{
    match (world.vfs_path_for_uri(uri), world.line_index(uri)) {
        (Some(path), Some(_)) => if is_reachable_from_workspace_entry(analysis, path.as_str()) {
            Some(DiagnosticsEntry::Workspace)
        } else {
            Some(DiagnosticsEntry::Document(path))
        },
        _ => None,
    }
}

} // verus!
