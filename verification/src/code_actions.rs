//! Diagnostic quick fixes.
use vstd::prelude::*;
use vstd::utf8::is_char_boundary;

use crate::analysis::{known_text, module_facts, module_for_uri};
use crate::diag::{
    Applicability, ConstructorCandidates, DiagRange, ImportCandidate, ImportCandidates, ImportNamespace,
    ModuleCandidates, NameCandidates, NameProblem, RangeParts, ReportedName, SourceDiagnostic,
    SuggestedEdit, SuggestedParts, Suggestion,
};
use crate::diagnostics::{
    published_diagnostic, published_for, Diagnostic, DiagnosticCode, DiagnosticParts,
};
use crate::hir::{Analysis, ParsedFile, SourceFacts};
use crate::import_edits::{
    accepts, edit_of, import_fix, is_accepted, module_import_fix, plan_import_fix,
    plan_module_import_fix, EditParts, ImportEdit,
};
use crate::line_index::{byte_at, char_index, cut, range_at};
use crate::protocol::{
    DocumentEdits, DocumentParts, Location, LocationParts, Position, Range, TextEdit, TextEditParts,
};
use crate::rank::{in_rank, law_ranked, rank, ranked, Ranked};
use crate::references::{
    is_location_before, lemma_location_asymmetric, lemma_location_not_behind, location_before,
};
use crate::seqs::{
    any, collect_by_view, concat_map, filter_map, find_map, find_position, first_seen, gather,
    has_any, join, pointee, position, seen, views,
};
use crate::state::{client_uri, WorldModel, WorldState};
use crate::text::{lemma_text_lt_total, lemma_text_lt_transitive, text_lt};
use crate::text::{has_prefix, parts_between, split_chars, str_eq, str_starts_with, to_chars, utf8};
use crate::url::{text_of, Url, UrlParts};

verus! {

/// The most imports that are offered for one diagnostic.
pub const MAX_AUTO_IMPORT_CANDIDATES: usize = 20;

/// A diagnostic that a client asks to mend.
pub struct RequestedDiagnostic {
    pub range: Range,
    pub code: Option<DiagnosticCode>,
    pub source: Option<String>,
    pub message: String,
}

/// What a client asks for: the diagnostics to mend, and the kinds of actions that it wants.
pub struct CodeActionContext {
    pub diagnostics: Vec<RequestedDiagnostic>,
    pub only: Option<Vec<String>>,
}

/// Whether a kind of actions is that of quick fixes or one that they belong to.
pub open spec fn covers_quick_fixes(kind: Seq<char>) -> bool {
    kind == ""@ || kind == "quickfix"@ || has_prefix("quickfix"@, kind.push('.'))
}

fn is_quick_fix_kind(kind: &String) -> (found: bool)
    ensures
        found == covers_quick_fixes(kind@),
{
    let mut head = kind.clone();
    head.push('.');
    str_eq(kind.as_str(), "") || str_eq(kind.as_str(), "quickfix") || str_starts_with(
        "quickfix",
        head.as_str(),
    )
}

/// Whether a client wants quick fixes.
pub open spec fn wants_quick_fixes(context: CodeActionContext) -> bool {
    match context.only {
        Some(kinds) => any(kinds@, |kind: String| covers_quick_fixes(kind@)),
        None => true,
    }
}

pub fn quick_fixes_requested(context: &CodeActionContext) -> (requested: bool)
    ensures
        requested == wants_quick_fixes(*context),
{
    match &context.only {
        Some(kinds) => {
            let covers = |kind: &String| -> (found: bool)
                ensures
                    found == covers_quick_fixes(kind@),
            {
                is_quick_fix_kind(kind)
            };
            has_any(kinds, covers, Ghost(|kind: String| covers_quick_fixes(kind@)))
        },
        None => true,
    }
}

/// Whether a position is in front of another.
pub open spec fn position_before(a: Position, b: Position) -> bool {
    a.line < b.line || (a.line == b.line && a.character < b.character)
}

fn is_position_before(a: Position, b: Position) -> (before: bool)
    ensures
        before == position_before(a, b),
{
    a.line < b.line || (a.line == b.line && a.character < b.character)
}

/// Whether two ranges have something in common. An empty range has its position in common with a
/// range that it lies in or at the edge of.
pub open spec fn intersecting(a: Range, b: Range) -> bool {
    if a.start == a.end {
        !position_before(a.start, b.start) && !position_before(b.end, a.start)
    } else if b.start == b.end {
        !position_before(b.start, a.start) && !position_before(a.end, b.start)
    } else {
        position_before(a.start, b.end) && position_before(b.start, a.end)
    }
}

pub fn ranges_intersect(left: Range, right: Range) -> (found: bool)
    ensures
        found == intersecting(left, right),
{
    if left.start == left.end {
        return !is_position_before(left.start, right.start) && !is_position_before(
            right.end,
            left.start,
        );
    }
    if right.start == right.end {
        return !is_position_before(right.start, left.start) && !is_position_before(
            left.end,
            right.start,
        );
    }
    is_position_before(left.start, right.end) && is_position_before(right.start, left.end)
}

/// Whether a client asks to mend a diagnostic that is published.
pub open spec fn asks_for(requested: RequestedDiagnostic, published: DiagnosticParts) -> bool {
    requested.range == published.range && seen(requested.code) == published.code
        && requested.message@ == published.message && match requested.source {
        Some(source) => source@ == "solcore"@,
        None => true,
    }
}

fn same_code(a: &Option<DiagnosticCode>, b: &Option<DiagnosticCode>) -> (same: bool)
    ensures
        same == (seen(*a) == seen(*b)),
{
    match (a, b) {
        (Some(DiagnosticCode::Number(a)), Some(DiagnosticCode::Number(b))) => *a == *b,
        (Some(DiagnosticCode::Text(a)), Some(DiagnosticCode::Text(b))) => str_eq(
            a.as_str(),
            b.as_str(),
        ),
        (None, None) => true,
        _ => false,
    }
}

pub fn diagnostic_matches(requested: &RequestedDiagnostic, published: &Diagnostic) -> (found: bool)
    ensures
        found == asks_for(*requested, published@),
{
    let of_server = match &requested.source {
        Some(source) => str_eq(source.as_str(), "solcore"),
        None => true,
    };
    of_server && requested.range == published.range && same_code(&requested.code, &published.code)
        && str_eq(requested.message.as_str(), published.message.as_str())
}

/// The place among the requested diagnostics of the first one that asks to mend a published one.
pub open spec fn asked_at(requested: Seq<RequestedDiagnostic>, published: DiagnosticParts) -> Option<usize> {
    position(requested, |candidate: RequestedDiagnostic| asks_for(candidate, published))
}

fn find_asked(requested: &Vec<RequestedDiagnostic>, published: &Diagnostic) -> (place: Option<usize>)
    ensures
        place == asked_at(requested@, published@),
{
    let test = |candidate: &RequestedDiagnostic| -> (found: bool)
        ensures
            found == asks_for(*candidate, published@),
    {
        diagnostic_matches(candidate, published)
    };
    find_position(
        requested,
        test,
        Ghost(|candidate: RequestedDiagnostic| asks_for(candidate, published@)),
    )
}

/// The model of a way to mend what a diagnostic is about.
pub struct SuggestionParts {
    pub title: Seq<char>,
    pub applicability: Applicability,
    pub edits: Seq<SuggestedParts>,
}

impl View for Suggestion {
    type V = SuggestionParts;

    open spec fn view(&self) -> SuggestionParts {
        SuggestionParts {
            title: self.title@,
            applicability: self.applicability,
            edits: views(self.edits@),
        }
    }
}

/// An import that is missing.
pub enum MissingImport {
    Name { name: String, namespace: ImportNamespace },
    QualifiedConstructor { ty: String, constructor: String },
    QualifiedAccess { qualifier: String, member: String },
    ModuleMember { qualifier: String, member: String },
}

/// The model of an import that is missing.
pub enum MissingParts {
    Name { name: Seq<char>, namespace: ImportNamespace },
    QualifiedConstructor { ty: Seq<char>, constructor: Seq<char> },
    QualifiedAccess { qualifier: Seq<char>, member: Seq<char> },
    ModuleMember { qualifier: Seq<char>, member: Seq<char> },
}

impl View for MissingImport {
    type V = MissingParts;

    open spec fn view(&self) -> MissingParts {
        match *self {
            MissingImport::Name { name, namespace } => MissingParts::Name { name: name@, namespace },
            MissingImport::QualifiedConstructor { ty, constructor } => {
                MissingParts::QualifiedConstructor { ty: ty@, constructor: constructor@ }
            },
            MissingImport::QualifiedAccess { qualifier, member } => {
                MissingParts::QualifiedAccess { qualifier: qualifier@, member: member@ }
            },
            MissingImport::ModuleMember { qualifier, member } => {
                MissingParts::ModuleMember { qualifier: qualifier@, member: member@ }
            },
        }
    }
}

/// The two identifiers of a path. None where it has not exactly two parts or one of them is not
/// an identifier of the front end.
pub open spec fn two_segments(path: Seq<char>, identifiers: Seq<String>) -> Option<(Seq<char>, Seq<char>)> {
    let parts = parts_between(path, '.');
    if parts.len() == 2 && accepts(identifiers, parts[0]) && accepts(identifiers, parts[1]) {
        Some((parts[0], parts[1]))
    } else {
        None
    }
}

/// The model of a pair of texts.
pub open spec fn text_pair(pair: Option<(String, String)>) -> Option<(Seq<char>, Seq<char>)> {
    match pair {
        Some((first, second)) => Some((first@, second@)),
        None => None,
    }
}

pub fn qualified_path_segments(access_path: &str, identifiers: &[String]) -> (segments: Option<
    (String, String),
>)
    ensures
        text_pair(segments) == two_segments(access_path@, identifiers@),
{
    let chars = to_chars(access_path);
    let parts = split_chars(chars.as_slice(), 0, '.');
    assert(chars@.skip(0) == access_path@);
    if parts.len() != 2 || !is_accepted(identifiers, parts[0].as_str()) || !is_accepted(
        identifiers,
        parts[1].as_str(),
    ) {
        return None;
    }
    Some((parts[0].clone(), parts[1].clone()))
}

/// The import that mends a problem with a name.
pub open spec fn import_for(problem: NameProblem, identifiers: Seq<String>) -> Option<MissingParts> {
    match problem {
        NameProblem::Term { name } => Some(
            MissingParts::Name { name: name@, namespace: ImportNamespace::Term },
        ),
        NameProblem::TypeConstructor { name } => Some(
            MissingParts::Name { name: name@, namespace: ImportNamespace::Type },
        ),
        NameProblem::Class { name } => Some(
            MissingParts::Name { name: name@, namespace: ImportNamespace::Class },
        ),
        NameProblem::ModuleQualifier { access_path } => match two_segments(
            access_path@,
            identifiers,
        ) {
            Some((qualifier, member)) => Some(MissingParts::QualifiedAccess { qualifier, member }),
            None => None,
        },
        NameProblem::ModuleMember { access_path } => match two_segments(access_path@, identifiers) {
            Some((qualifier, member)) => Some(MissingParts::ModuleMember { qualifier, member }),
            None => None,
        },
        NameProblem::QualifiedConstructor { access_path } => match two_segments(
            access_path@,
            identifiers,
        ) {
            Some((ty, constructor)) => Some(MissingParts::QualifiedConstructor { ty, constructor }),
            None => None,
        },
        NameProblem::Other => None,
    }
}

fn missing_import_for(problem: &NameProblem, identifiers: &[String]) -> (missing: Option<
    MissingImport,
>)
    ensures
        seen(missing) == import_for(*problem, identifiers@),
{
    match problem {
        NameProblem::Term { name } => Some(
            MissingImport::Name { name: name.clone(), namespace: ImportNamespace::Term },
        ),
        NameProblem::TypeConstructor { name } => Some(
            MissingImport::Name { name: name.clone(), namespace: ImportNamespace::Type },
        ),
        NameProblem::Class { name } => Some(
            MissingImport::Name { name: name.clone(), namespace: ImportNamespace::Class },
        ),
        NameProblem::ModuleQualifier { access_path } => match qualified_path_segments(
            access_path.as_str(),
            identifiers,
        ) {
            Some((qualifier, member)) => Some(MissingImport::QualifiedAccess { qualifier, member }),
            None => None,
        },
        NameProblem::ModuleMember { access_path } => match qualified_path_segments(
            access_path.as_str(),
            identifiers,
        ) {
            Some((qualifier, member)) => Some(MissingImport::ModuleMember { qualifier, member }),
            None => None,
        },
        NameProblem::QualifiedConstructor { access_path } => match qualified_path_segments(
            access_path.as_str(),
            identifiers,
        ) {
            Some((ty, constructor)) => Some(MissingImport::QualifiedConstructor { ty, constructor }),
            None => None,
        },
        NameProblem::Other => None,
    }
}

/// Whether a diagnostic is that of a problem with a name: it has its code, its message and its
/// range.
pub open spec fn reports(diagnostic: SourceDiagnostic, reported: ReportedName) -> bool {
    match (diagnostic.code, diagnostic.primary) {
        (Some(code), Some(primary)) => code@ == reported.code@ && diagnostic.message@
            == reported.message@ && primary@ == reported.range@,
        _ => false,
    }
}

fn is_report_of(diagnostic: &SourceDiagnostic, reported: &ReportedName) -> (found: bool)
    ensures
        found == reports(*diagnostic, *reported),
{
    match (&diagnostic.code, &diagnostic.primary) {
        (Some(code), Some(primary)) => str_eq(code.as_str(), reported.code.as_str()) && str_eq(
            diagnostic.message.as_str(),
            reported.message.as_str(),
        ) && str_eq(primary.file_url.as_str(), reported.range.file_url.as_str()) && primary.start
            == reported.range.start && primary.end == reported.range.end,
        _ => false,
    }
}

pub open spec fn missing_of(
    reported: ReportedName,
    diagnostic: SourceDiagnostic,
    identifiers: Seq<String>,
) -> Option<MissingParts> {
    if reports(diagnostic, reported) {
        import_for(reported.problem, identifiers)
    } else {
        None
    }
}

/// The import that is missing where a diagnostic is.
pub open spec fn missing_import(
    reported: Seq<ReportedName>,
    diagnostic: SourceDiagnostic,
    identifiers: Seq<String>,
) -> Option<MissingParts> {
    find_map(reported, |reported: ReportedName| missing_of(reported, diagnostic, identifiers))
}

/// Returns the import that is missing where a diagnostic is: that of the first problem with a
/// name that the diagnostic reports and that an import can mend.
pub fn missing_import_for_diagnostic(
    reported: &Vec<ReportedName>,
    diagnostic: &SourceDiagnostic,
    identifiers: &[String],
) -> (missing: Option<MissingImport>)
    ensures
        seen(missing) == missing_import(reported@, *diagnostic, identifiers@),
{
    let find = |reported: &ReportedName| -> (missing: Option<MissingImport>)
        ensures
            seen(missing) == missing_of(*reported, *diagnostic, identifiers@),
    {
        if is_report_of(diagnostic, reported) {
            missing_import_for(&reported.problem, identifiers)
        } else {
            None
        }
    };
    first_seen(
        reported,
        find,
        Ghost(|reported: ReportedName| missing_of(reported, *diagnostic, identifiers@)),
    )
}

/// The candidates for a name of a namespace.
pub open spec fn name_candidates(known: ImportCandidates, name: Seq<char>, namespace: ImportNamespace) -> Seq<
    ImportCandidate,
> {
    match find_map(
        known.names@,
        |entry: NameCandidates|
            if entry.name@ == name && entry.namespace == namespace {
                Some(entry.candidates@)
            } else {
                None
            },
    ) {
        Some(candidates) => candidates,
        None => Seq::empty(),
    }
}

/// The candidates for a type with a constructor.
pub open spec fn constructor_candidates(
    known: ImportCandidates,
    ty: Seq<char>,
    constructor: Seq<char>,
) -> Seq<ImportCandidate> {
    match find_map(
        known.constructors@,
        |entry: ConstructorCandidates|
            if entry.ty@ == ty && entry.constructor@ == constructor {
                Some(entry.candidates@)
            } else {
                None
            },
    ) {
        Some(candidates) => candidates,
        None => Seq::empty(),
    }
}

/// The candidates for a module with a member.
pub open spec fn module_candidates(known: ImportCandidates, qualifier: Seq<char>, member: Seq<char>) -> Seq<
    ImportCandidate,
> {
    match find_map(
        known.modules@,
        |entry: ModuleCandidates|
            if entry.qualifier@ == qualifier && entry.member@ == member {
                Some(entry.candidates@)
            } else {
                None
            },
    ) {
        Some(candidates) => candidates,
        None => Seq::empty(),
    }
}

fn find_name_candidates<'a>(
    known: &'a ImportCandidates,
    name: &str,
    namespace: ImportNamespace,
) -> (found: Option<&'a Vec<ImportCandidate>>)
    ensures
        match found {
            Some(candidates) => candidates@ == name_candidates(*known, name@, namespace),
            None => name_candidates(*known, name@, namespace) == Seq::<ImportCandidate>::empty(),
        },
{
    let find = |entry: &'a NameCandidates| -> (found: Option<&'a Vec<ImportCandidate>>)
        ensures
            seen(found) == if entry.name@ == name@ && entry.namespace == namespace {
                Some(entry.candidates@)
            } else {
                None
            },
    {
        if entry.namespace == namespace && str_eq(entry.name.as_str(), name) {
            Some(&entry.candidates)
        } else {
            None
        }
    };
    first_seen(
        &known.names,
        find,
        Ghost(
            |entry: NameCandidates|
                if entry.name@ == name@ && entry.namespace == namespace {
                    Some(entry.candidates@)
                } else {
                    None
                },
        ),
    )
}

fn find_constructor_candidates<'a>(known: &'a ImportCandidates, ty: &str, constructor: &str) -> (found:
    Option<&'a Vec<ImportCandidate>>)
    ensures
        match found {
            Some(candidates) => candidates@ == constructor_candidates(*known, ty@, constructor@),
            None => constructor_candidates(*known, ty@, constructor@) == Seq::<
                ImportCandidate,
            >::empty(),
        },
{
    let find = |entry: &'a ConstructorCandidates| -> (found: Option<&'a Vec<ImportCandidate>>)
        ensures
            seen(found) == if entry.ty@ == ty@ && entry.constructor@ == constructor@ {
                Some(entry.candidates@)
            } else {
                None
            },
    {
        if str_eq(entry.ty.as_str(), ty) && str_eq(entry.constructor.as_str(), constructor) {
            Some(&entry.candidates)
        } else {
            None
        }
    };
    first_seen(
        &known.constructors,
        find,
        Ghost(
            |entry: ConstructorCandidates|
                if entry.ty@ == ty@ && entry.constructor@ == constructor@ {
                    Some(entry.candidates@)
                } else {
                    None
                },
        ),
    )
}

fn find_module_candidates<'a>(known: &'a ImportCandidates, qualifier: &str, member: &str) -> (found:
    Option<&'a Vec<ImportCandidate>>)
    ensures
        match found {
            Some(candidates) => candidates@ == module_candidates(*known, qualifier@, member@),
            None => module_candidates(*known, qualifier@, member@) == Seq::<
                ImportCandidate,
            >::empty(),
        },
{
    let find = |entry: &'a ModuleCandidates| -> (found: Option<&'a Vec<ImportCandidate>>)
        ensures
            seen(found) == if entry.qualifier@ == qualifier@ && entry.member@ == member@ {
                Some(entry.candidates@)
            } else {
                None
            },
    {
        if str_eq(entry.qualifier.as_str(), qualifier) && str_eq(entry.member.as_str(), member) {
            Some(&entry.candidates)
        } else {
            None
        }
    };
    first_seen(
        &known.modules,
        find,
        Ghost(
            |entry: ModuleCandidates|
                if entry.qualifier@ == qualifier@ && entry.member@ == member@ {
                    Some(entry.candidates@)
                } else {
                    None
                },
        ),
    )
}

/// An import that can be written.
pub struct PlannedImport {
    pub title: String,
    pub edit: ImportEdit,
}

/// The model of an import that can be written.
pub struct PlannedParts {
    pub title: Seq<char>,
    pub edit: EditParts,
}

impl View for PlannedImport {
    type V = PlannedParts;

    open spec fn view(&self) -> PlannedParts {
        PlannedParts { title: self.title@, edit: edit_of(Some(self.edit))->0 }
    }
}

pub open spec fn symbol_title(candidate: ImportCandidate) -> Seq<char> {
    "Import `"@ + candidate.public_name@ + "` from `"@ + candidate.import_path@ + "`"@
}

pub open spec fn module_title(candidate: ImportCandidate) -> Seq<char> {
    "Import module `"@ + candidate.public_name@ + "` from `"@ + candidate.import_path@ + "`"@
}

/// What the front end knows of a module with problems: the module as it was parsed, its problems
/// with names, the imports that could mend them, and the words that it accepts as identifiers.
pub struct ModuleFindings {
    pub parsed: ParsedFile,
    pub reported: Vec<ReportedName>,
    pub candidates: ImportCandidates,
    pub identifiers: Vec<String>,
}

/// The plan to import a name, or a module.
pub open spec fn plan_of(
    source: Seq<char>,
    findings: ModuleFindings,
    candidate: ImportCandidate,
    whole_module: bool,
) -> Option<PlannedParts> {
    if whole_module {
        match module_import_fix(
            source,
            findings.parsed,
            candidate.import_path@,
            findings.identifiers@,
        ) {
            Some(edit) => Some(PlannedParts { title: module_title(candidate), edit }),
            None => None,
        }
    } else {
        match import_fix(
            source,
            findings.parsed,
            candidate.import_path@,
            candidate.public_name@,
            findings.identifiers@,
        ) {
            Some(edit) => Some(PlannedParts { title: symbol_title(candidate), edit }),
            None => None,
        }
    }
}

fn plan(source: &str, findings: &ModuleFindings, candidate: &ImportCandidate, whole_module: bool) -> (planned:
    Option<PlannedImport>)
    ensures
        seen(planned) == plan_of(source@, *findings, *candidate, whole_module),
{
    let edit = if whole_module {
        plan_module_import_fix(
            source,
            &findings.parsed,
            candidate.import_path.as_str(),
            findings.identifiers.as_slice(),
        )
    } else {
        plan_import_fix(
            source,
            &findings.parsed,
            candidate.import_path.as_str(),
            candidate.public_name.as_str(),
            findings.identifiers.as_slice(),
        )
    };
    let edit = match edit {
        Some(edit) => edit,
        None => return None,
    };
    let mut title = if whole_module {
        "Import module `".to_owned()
    } else {
        "Import `".to_owned()
    };
    title.append(candidate.public_name.as_str());
    title.append("` from `");
    title.append(candidate.import_path.as_str());
    title.append("`");
    Some(PlannedImport { title, edit })
}

/// Plans with those for further candidates, as long as there are not too many.
pub open spec fn with_plans(
    planned: Seq<PlannedParts>,
    source: Seq<char>,
    findings: ModuleFindings,
    candidates: Seq<ImportCandidate>,
    whole_module: bool,
) -> Seq<PlannedParts>
    decreases candidates.len(),
{
    if candidates.len() == 0 {
        planned
    } else {
        let front = with_plans(planned, source, findings, candidates.drop_last(), whole_module);
        match plan_of(source, findings, candidates.last(), whole_module) {
            Some(next) => if front.len() == MAX_AUTO_IMPORT_CANDIDATES {
                front
            } else {
                front.push(next)
            },
            None => front,
        }
    }
}

fn extend_imports(
    planned: Vec<PlannedImport>,
    source: &str,
    findings: &ModuleFindings,
    candidates: Option<&Vec<ImportCandidate>>,
    whole_module: bool,
) -> (extended: Vec<PlannedImport>)
    ensures
        views(extended@) == with_plans(
            views(planned@),
            source@,
            *findings,
            match candidates {
                Some(candidates) => candidates@,
                None => Seq::empty(),
            },
            whole_module,
        ),
{
    let ghost before = views(planned@);
    let candidates = match candidates {
        Some(candidates) => candidates,
        None => return planned,
    };
    let ghost all = candidates@;
    let mut planned = planned;
    let mut i: usize = 0;
    assert(all.take(0) == Seq::<ImportCandidate>::empty());
    while i < candidates.len()
        invariant
            i <= all.len(),
            all == candidates@,
            views(planned@) == with_plans(
                before,
                source@,
                *findings,
                all.take(i as int),
                whole_module,
            ),
        decreases all.len() - i,
    {
        assert(all.take(i + 1).drop_last() == all.take(i as int));
        assert(all.take(i + 1).last() == all[i as int]);
        if planned.len() != MAX_AUTO_IMPORT_CANDIDATES {
            if let Some(next) = plan(source, findings, &candidates[i], whole_module) {
                let ghost front = views(planned@);
                let ghost model = next@;
                planned.push(next);
                assert(views(planned@) == front.push(model));
            }
        }
        i += 1;
    }
    assert(all.take(i as int) == all);
    planned
}

/// The plans for an import that is missing. A name that is not an identifier has none. For a
/// qualified name the qualifier can be a class, a type with the constructor, or a module.
pub open spec fn plans_for(source: Seq<char>, findings: ModuleFindings, missing: MissingParts) -> Seq<
    PlannedParts,
> {
    match missing {
        MissingParts::Name { name, namespace } => if accepts(findings.identifiers@, name) {
            with_plans(
                Seq::empty(),
                source,
                findings,
                name_candidates(findings.candidates, name, namespace),
                false,
            )
        } else {
            Seq::empty()
        },
        MissingParts::QualifiedConstructor { ty, constructor } => with_plans(
            Seq::empty(),
            source,
            findings,
            constructor_candidates(findings.candidates, ty, constructor),
            false,
        ),
        MissingParts::QualifiedAccess { qualifier, member } => with_plans(
            with_plans(
                with_plans(
                    Seq::empty(),
                    source,
                    findings,
                    name_candidates(findings.candidates, qualifier, ImportNamespace::Class),
                    false,
                ),
                source,
                findings,
                constructor_candidates(findings.candidates, qualifier, member),
                false,
            ),
            source,
            findings,
            module_candidates(findings.candidates, qualifier, member),
            true,
        ),
        MissingParts::ModuleMember { qualifier, member } => with_plans(
            Seq::empty(),
            source,
            findings,
            module_candidates(findings.candidates, qualifier, member),
            true,
        ),
    }
}

fn plan_imports(source: &str, findings: &ModuleFindings, missing: &MissingImport) -> (planned: Vec<
    PlannedImport,
>)
    ensures
        views(planned@) == plans_for(source@, *findings, missing@),
{
    let none: Vec<PlannedImport> = Vec::new();
    assert(views(none@) == Seq::<PlannedParts>::empty());
    match missing {
        MissingImport::Name { name, namespace } => {
            if !is_accepted(findings.identifiers.as_slice(), name.as_str()) {
                return none;
            }
            extend_imports(
                none,
                source,
                findings,
                find_name_candidates(&findings.candidates, name.as_str(), *namespace),
                false,
            )
        },
        MissingImport::QualifiedConstructor { ty, constructor } => extend_imports(
            none,
            source,
            findings,
            find_constructor_candidates(
                &findings.candidates,
                ty.as_str(),
                constructor.as_str(),
            ),
            false,
        ),
        MissingImport::QualifiedAccess { qualifier, member } => {
            let classes = extend_imports(
                none,
                source,
                findings,
                find_name_candidates(
                    &findings.candidates,
                    qualifier.as_str(),
                    ImportNamespace::Class,
                ),
                false,
            );
            let constructors = extend_imports(
                classes,
                source,
                findings,
                find_constructor_candidates(
                    &findings.candidates,
                    qualifier.as_str(),
                    member.as_str(),
                ),
                false,
            );
            extend_imports(
                constructors,
                source,
                findings,
                find_module_candidates(
                    &findings.candidates,
                    qualifier.as_str(),
                    member.as_str(),
                ),
                true,
            )
        },
        MissingImport::ModuleMember { qualifier, member } => extend_imports(
            none,
            source,
            findings,
            find_module_candidates(&findings.candidates, qualifier.as_str(), member.as_str()),
            true,
        ),
    }
}

/// The suggestion to write a planned import into a file.
pub open spec fn suggestion_of(
    planned: PlannedParts,
    file_url: Seq<char>,
    applicability: Applicability,
) -> SuggestionParts {
    SuggestionParts {
        title: planned.title,
        applicability,
        edits: seq![
            SuggestedParts {
                range: RangeParts {
                    file_url,
                    start: planned.edit.start as u32,
                    end: planned.edit.end as u32,
                },
                replacement: planned.edit.replacement,
            },
        ],
    }
}

/// The suggestions to import what is missing where a diagnostic is. A single one is sure to be
/// right where the front end suggests nothing itself.
pub open spec fn import_suggestions(
    facts: SourceFacts,
    findings: ModuleFindings,
    diagnostic: SourceDiagnostic,
) -> Seq<SuggestionParts> {
    match (
        missing_import(findings.reported@, diagnostic, findings.identifiers@),
        text_of(facts.content),
    ) {
        (Some(missing), Some(source)) => {
            let planned = plans_for(source, findings, missing);
            let applicability = if planned.len() == 1 && diagnostic.suggestions@.len() == 0 {
                Applicability::MachineApplicable
            } else {
                Applicability::MaybeIncorrect
            };
            filter_map(
                planned,
                |planned: PlannedParts| Some(suggestion_of(planned, facts.url@, applicability)),
            )
        },
        _ => Seq::empty(),
    }
}

fn new_suggestion(planned: &PlannedImport, file_url: &str, applicability: Applicability) -> (suggestion:
    Suggestion)
    ensures
        suggestion@ == suggestion_of(planned@, file_url@, applicability),
{
    let mut edits: Vec<SuggestedEdit> = Vec::new();
    edits.push(
        SuggestedEdit {
            range: DiagRange {
                file_url: file_url.to_owned(),
                start: planned.edit.start,
                end: planned.edit.end,
            },
            replacement: planned.edit.replacement.clone(),
        },
    );
    let suggestion = Suggestion { title: planned.title.clone(), applicability, edits };
    assert(suggestion@.edits == suggestion_of(planned@, file_url@, applicability).edits);
    suggestion
}

/// Suggests the imports that mend what a diagnostic is about.
pub fn auto_import_suggestions(
    facts: &SourceFacts,
    findings: &ModuleFindings,
    diagnostic: &SourceDiagnostic,
) -> (suggestions: Vec<Suggestion>)
    ensures
        views(suggestions@) == import_suggestions(*facts, *findings, *diagnostic),
{
    let none: Vec<Suggestion> = Vec::new();
    assert(views(none@) == Seq::<SuggestionParts>::empty());
    let missing = match missing_import_for_diagnostic(
        &findings.reported,
        diagnostic,
        findings.identifiers.as_slice(),
    ) {
        Some(missing) => missing,
        None => return none,
    };
    let source = match &facts.content {
        Some(source) => source.as_str(),
        None => return none,
    };
    let planned = plan_imports(source, findings, &missing);
    let applicability = if planned.len() == 1 && diagnostic.suggestions.len() == 0 {
        Applicability::MachineApplicable
    } else {
        Applicability::MaybeIncorrect
    };
    let url = facts.url.as_str();
    let suggest = |planned: &PlannedImport| -> (suggestion: Option<Suggestion>)
        ensures
            seen(suggestion) == Some(suggestion_of(planned@, url@, applicability)),
    {
        Some(new_suggestion(planned, url, applicability))
    };
    collect_by_view(
        &planned,
        suggest,
        Ghost(|planned: PlannedParts| Some(suggestion_of(planned, url@, applicability))),
    )
}

/// New text for a range of a document.
pub struct PlacedEdit {
    pub location: Location,
    pub new_text: String,
}

/// The model of new text for a range of a document.
pub struct PlacedParts {
    pub location: LocationParts,
    pub new_text: Seq<char>,
}

impl View for PlacedEdit {
    type V = PlacedParts;

    open spec fn view(&self) -> PlacedParts {
        PlacedParts { location: self.location@, new_text: self.new_text@ }
    }
}

impl Ranked for PlacedEdit {
    open spec fn before(a: PlacedParts, b: PlacedParts) -> bool {
        location_before(a.location, b.location)
    }

    fn is_before(&self, other: &Self) -> (before: bool) {
        is_location_before(&self.location, &other.location)
    }

    proof fn lemma_asymmetric(a: PlacedParts, b: PlacedParts) {
        lemma_location_asymmetric(a.location, b.location);
    }

    proof fn lemma_not_behind(a: PlacedParts, b: PlacedParts, c: PlacedParts) {
        lemma_location_not_behind(a.location, b.location, c.location);
    }
}

/// A suggested edit in the document that the client knows, and whether it changes the document.
/// None where the document is not known or the range is not one of characters of it.
pub open spec fn placed_edit(world: WorldModel, edit: SuggestedParts) -> Option<(PlacedParts, bool)> {
    match client_uri(world, edit.range.file_url) {
        Some(uri) => match known_text(world, uri) {
            Some(text) => if edit.range.start <= edit.range.end <= utf8(text).len()
                && is_char_boundary(utf8(text), edit.range.start as int) && is_char_boundary(
                utf8(text),
                edit.range.end as int,
            ) {
                Some(
                    (
                        PlacedParts {
                            location: LocationParts {
                                uri,
                                range: range_at(
                                    text,
                                    edit.range.start as int,
                                    edit.range.end as int,
                                ),
                            },
                            new_text: edit.replacement,
                        },
                        text.subrange(
                            char_index(text, edit.range.start as int),
                            char_index(text, edit.range.end as int),
                        ) != edit.replacement,
                    ),
                )
            } else {
                None
            },
            None => None,
        },
        None => None,
    }
}

/// The model of a placed edit and whether it changes its document.
pub open spec fn placed_pair(placed: Option<(PlacedEdit, bool)>) -> Option<(PlacedParts, bool)> {
    match placed {
        Some((edit, changes)) => Some((edit@, changes)),
        None => None,
    }
}

fn to_lsp_text_edit(world: &WorldState, edit: &SuggestedEdit) -> (placed: Option<(PlacedEdit, bool)>)
    ensures
        placed_pair(placed) == placed_edit(world@, edit@),
{
    let uri = match world.client_uri_for_vfs_url(edit.range.file_url.as_str()) {
        Some(uri) => uri,
        None => return None,
    };
    let (range, changes) = match world.line_index(&uri) {
        Some(index) => {
            let text = index.text();
            let start: usize = edit.range.start as usize;
            let end: usize = edit.range.end as usize;
            if start > end || end > text.as_bytes().len() || !text.is_char_boundary(start)
                || !text.is_char_boundary(end) {
                return None;
            }
            let (_, replaced, _) = cut(text, edit.range.start, edit.range.end);
            (
                index.range(edit.range.start, edit.range.end),
                !str_eq(replaced, edit.replacement.as_str()),
            )
        },
        None => return None,
    };
    Some(
        (
            PlacedEdit { location: Location { uri, range }, new_text: edit.replacement.clone() },
            changes,
        ),
    )
}

/// The suggested edits that change a document. None where one of the edits has no place.
pub open spec fn placed_edits(world: WorldModel, edits: Seq<SuggestedParts>) -> Option<Seq<PlacedParts>>
    decreases edits.len(),
{
    if edits.len() == 0 {
        Some(Seq::empty())
    } else {
        match (placed_edits(world, edits.drop_last()), placed_edit(world, edits.last())) {
            (Some(front), Some((edit, changes))) => if changes {
                Some(front.push(edit))
            } else {
                Some(front)
            },
            _ => None,
        }
    }
}

proof fn lemma_unplaced(world: WorldModel, edits: Seq<SuggestedParts>, count: int)
    requires
        0 <= count <= edits.len(),
        placed_edits(world, edits.take(count)) is None,
    ensures
        placed_edits(world, edits) is None,
    decreases edits.len(),
{
    if count == edits.len() {
        assert(edits.take(count) == edits);
    } else {
        assert(edits.drop_last().take(count) == edits.take(count));
        lemma_unplaced(world, edits.drop_last(), count);
    }
}

fn place_edits(world: &WorldState, edits: &Vec<SuggestedEdit>) -> (placed: Option<Vec<PlacedEdit>>)
    ensures
        match placed {
            Some(placed) => placed_edits(world@, views(edits@)) == Some(views(placed@)),
            None => placed_edits(world@, views(edits@)) is None,
        },
{
    let ghost all = views(edits@);
    let mut placed: Vec<PlacedEdit> = Vec::new();
    let mut i: usize = 0;
    assert(all.take(0) == Seq::<SuggestedParts>::empty());
    assert(views(placed@) == Seq::<PlacedParts>::empty());
    while i < edits.len()
        invariant
            i <= edits@.len(),
            all == views(edits@),
            placed_edits(world@, all.take(i as int)) == Some(views(placed@)),
        decreases edits@.len() - i,
    {
        assert(all.take(i + 1).drop_last() == all.take(i as int));
        assert(all.take(i + 1).last() == edits@[i as int]@);
        match to_lsp_text_edit(world, &edits[i]) {
            Some((edit, changes)) => if changes {
                let ghost front = views(placed@);
                let ghost model = edit@;
                placed.push(edit);
                assert(views(placed@) == front.push(model));
            },
            None => {
                proof {
                    assert(placed_edits(world@, all.take(i + 1)) is None);
                    lemma_unplaced(world@, all, i + 1);
                }
                return None;
            },
        }
        i += 1;
    }
    assert(all.take(i as int) == all);
    Some(placed)
}

/// Whether two edits do the same.
pub open spec fn same_edit(a: PlacedParts, b: PlacedParts) -> bool {
    a.location.uri.text == b.location.uri.text && a.location.range == b.location.range
        && a.new_text == b.new_text
}

fn is_same_edit(a: &PlacedEdit, b: &PlacedEdit) -> (same: bool)
    ensures
        same == same_edit(a@, b@),
{
    a.location.uri.same(&b.location.uri) && a.location.range == b.location.range && str_eq(
        a.new_text.as_str(),
        b.new_text.as_str(),
    )
}

/// A list without the edits that do the same as the one before them.
pub open spec fn unrepeated(edits: Seq<PlacedParts>) -> Seq<PlacedParts>
    decreases edits.len(),
{
    if edits.len() == 0 {
        edits
    } else {
        let front = unrepeated(edits.drop_last());
        if front.len() > 0 && same_edit(front.last(), edits.last()) {
            front
        } else {
            front.push(edits.last())
        }
    }
}

fn copy_edit(edit: &PlacedEdit) -> (copy: PlacedEdit)
    ensures
        copy@ == edit@,
{
    PlacedEdit {
        location: Location { uri: edit.location.uri.clone(), range: edit.location.range },
        new_text: edit.new_text.clone(),
    }
}

fn drop_repeated(edits: &Vec<PlacedEdit>) -> (kept: Vec<PlacedEdit>)
    ensures
        views(kept@) == unrepeated(views(edits@)),
{
    let ghost all = views(edits@);
    let mut kept: Vec<PlacedEdit> = Vec::new();
    let mut i: usize = 0;
    assert(all.take(0) == Seq::<PlacedParts>::empty());
    assert(views(kept@) == Seq::<PlacedParts>::empty());
    while i < edits.len()
        invariant
            i <= edits@.len(),
            all == views(edits@),
            views(kept@) == unrepeated(all.take(i as int)),
        decreases edits@.len() - i,
    {
        let ghost front = views(kept@);
        assert(all.take(i + 1).drop_last() == all.take(i as int));
        assert(all.take(i + 1).last() == edits@[i as int]@);
        let repeats = kept.len() > 0 && is_same_edit(&kept[kept.len() - 1], &edits[i]);
        assert(front.len() == kept@.len());
        assert(front.len() > 0 ==> front.last() == kept@[kept@.len() - 1]@);
        if !repeats {
            kept.push(copy_edit(&edits[i]));
            assert(views(kept@) == front.push(all[i as int]));
        }
        i += 1;
    }
    assert(all.take(i as int) == all);
    kept
}

/// Whether an edit and the one behind it cannot both be made: they overlap, or both insert at one
/// position.
pub open spec fn conflicting(a: PlacedParts, b: PlacedParts) -> bool {
    a.location.uri.text == b.location.uri.text && (position_before(
        b.location.range.start,
        a.location.range.end,
    ) || (a.location.range.start == a.location.range.end && b.location.range.start
        == b.location.range.end && a.location.range.start == b.location.range.start))
}

fn text_edits_conflict(a: &PlacedEdit, b: &PlacedEdit) -> (conflict: bool)
    ensures
        conflict == conflicting(a@, b@),
{
    let left = a.location.range;
    let right = b.location.range;
    a.location.uri.same(&b.location.uri) && (is_position_before(right.start, left.end) || (
    left.start == left.end && right.start == right.end && left.start == right.start))
}

/// Whether no edit of a list conflicts with the one behind it.
pub open spec fn compatible(edits: Seq<PlacedParts>) -> bool {
    forall|i: int|
        #![trigger edits[i]]
        0 <= i < edits.len() - 1 ==> !conflicting(edits[i], edits[i + 1])
}

fn are_compatible(edits: &Vec<PlacedEdit>) -> (found: bool)
    ensures
        found == compatible(views(edits@)),
{
    let ghost all = views(edits@);
    let mut i: usize = 1;
    while i < edits.len()
        invariant
            1 <= i,
            i <= edits@.len() || edits@.len() == 0,
            all == views(edits@),
            forall|k: int| #![trigger all[k]] 0 <= k < i - 1 ==> !conflicting(all[k], all[k + 1]),
        decreases edits@.len() - i,
    {
        assert(all[i - 1] == edits@[i - 1]@ && all[i as int] == edits@[i as int]@);
        if text_edits_conflict(&edits[i - 1], &edits[i]) {
            assert(conflicting(all[i - 1], all[i - 1 + 1]));
            return false;
        }
        i += 1;
    }
    true
}

/// Edits in the order of their documents and ranges, each once.
pub open spec fn settled(edits: Seq<PlacedParts>) -> Seq<PlacedParts> {
    unrepeated(ranked::<PlacedEdit>(edits))
}

/// The edits of a suggestion. None where they change nothing, have no place or conflict.
pub open spec fn suggestion_edits(world: WorldModel, suggestion: SuggestionParts) -> Option<
    Seq<PlacedParts>,
> {
    match placed_edits(world, suggestion.edits) {
        Some(edits) => if edits.len() > 0 && compatible(settled(edits)) {
            Some(settled(edits))
        } else {
            None
        },
        None => None,
    }
}

/// The model of a list of placed edits that may be there.
pub open spec fn placed_list(edits: Option<Vec<PlacedEdit>>) -> Option<Seq<PlacedParts>> {
    match edits {
        Some(edits) => Some(views(edits@)),
        None => None,
    }
}

/// Returns the edits of a suggestion in the order in which the client is told of them.
pub fn suggestion_workspace_edit(world: &WorldState, suggestion: &Suggestion) -> (edits: Option<
    Vec<PlacedEdit>,
>)
    ensures
        placed_list(edits) == suggestion_edits(world@, suggestion@),
{
    let placed = match place_edits(world, &suggestion.edits) {
        Some(placed) => placed,
        None => return None,
    };
    if placed.len() == 0 {
        return None;
    }
    let edits = drop_repeated(&rank(placed));
    if are_compatible(&edits) {
        Some(edits)
    } else {
        None
    }
}

/// A quick fix for a diagnostic, given by its place among those that the client asks to mend.
pub struct CodeAction {
    pub title: String,
    pub diagnostic: usize,
    pub edits: Vec<PlacedEdit>,
    pub is_preferred: bool,
}

/// The model of a quick fix.
pub struct ActionParts {
    pub title: Seq<char>,
    pub diagnostic: usize,
    pub edits: Seq<PlacedParts>,
    pub is_preferred: bool,
}

impl View for CodeAction {
    type V = ActionParts;

    open spec fn view(&self) -> ActionParts {
        ActionParts {
            title: self.title@,
            diagnostic: self.diagnostic,
            edits: views(self.edits@),
            is_preferred: self.is_preferred,
        }
    }
}

/// The quick fix that a suggestion makes for a diagnostic.
pub open spec fn action_of(world: WorldModel, suggestion: SuggestionParts, diagnostic: usize) -> Option<
    ActionParts,
> {
    if suggestion.applicability == Applicability::HasPlaceholders || suggestion.applicability
        == Applicability::Unspecified {
        None
    } else {
        match suggestion_edits(world, suggestion) {
            Some(edits) => Some(
                ActionParts {
                    title: suggestion.title,
                    diagnostic,
                    edits,
                    is_preferred: suggestion.applicability == Applicability::MachineApplicable,
                },
            ),
            None => None,
        }
    }
}

fn action_for(world: &WorldState, suggestion: &Suggestion, diagnostic: usize) -> (action: Option<
    CodeAction,
>)
    ensures
        seen(action) == action_of(world@, suggestion@, diagnostic),
{
    if suggestion.applicability == Applicability::HasPlaceholders || suggestion.applicability
        == Applicability::Unspecified {
        return None;
    }
    match suggestion_workspace_edit(world, suggestion) {
        Some(edits) => Some(
            CodeAction {
                title: suggestion.title.clone(),
                diagnostic,
                edits,
                is_preferred: suggestion.applicability == Applicability::MachineApplicable,
            },
        ),
        None => None,
    }
}

/// The quick fixes that some suggestions make.
pub open spec fn actions_of(world: WorldModel, suggestions: Seq<SuggestionParts>, diagnostic: usize) -> Seq<
    ActionParts,
> {
    filter_map(
        suggestions,
        |suggestion: SuggestionParts| action_of(world, suggestion, diagnostic),
    )
}

fn actions_for(world: &WorldState, suggestions: &Vec<Suggestion>, diagnostic: usize) -> (actions: Vec<
    CodeAction,
>)
    ensures
        views(actions@) == actions_of(world@, views(suggestions@), diagnostic),
{
    let act = |suggestion: &Suggestion| -> (action: Option<CodeAction>)
        ensures
            seen(action) == action_of(world@, suggestion@, diagnostic),
    {
        action_for(world, suggestion, diagnostic)
    };
    collect_by_view(
        suggestions,
        act,
        Ghost(|suggestion: SuggestionParts| action_of(world@, suggestion, diagnostic)),
    )
}

/// The suggestions to import what is missing, none in a document that is no module.
pub open spec fn further_suggestions(
    facts: Option<SourceFacts>,
    findings: ModuleFindings,
    diagnostic: SourceDiagnostic,
) -> Seq<SuggestionParts> {
    match facts {
        Some(facts) => import_suggestions(facts, findings, diagnostic),
        None => Seq::empty(),
    }
}

/// The quick fixes for a diagnostic: those of the front end, then imports. None where it is not
/// published for the document, is not in the requested range or is not asked for.
pub open spec fn offered(
    world: WorldModel,
    uri: UrlParts,
    facts: Option<SourceFacts>,
    range: Range,
    context: CodeActionContext,
    findings: ModuleFindings,
    diagnostic: SourceDiagnostic,
) -> Seq<ActionParts> {
    match published_for(world, uri, diagnostic) {
        Some(published) => match asked_at(context.diagnostics@, published) {
            Some(place) => if intersecting(range, published.range) {
                actions_of(world, views(diagnostic.suggestions@), place) + actions_of(
                    world,
                    further_suggestions(facts, findings, diagnostic),
                    place,
                )
            } else {
                Seq::empty()
            },
            None => Seq::empty(),
        },
        None => Seq::empty(),
    }
}

fn offer(
    world: &WorldState,
    uri: &Url,
    facts: Option<&SourceFacts>,
    range: Range,
    context: &CodeActionContext,
    findings: &ModuleFindings,
    diagnostic: &SourceDiagnostic,
) -> (actions: Vec<CodeAction>)
    ensures
        views(actions@) == offered(
            world@,
            uri@,
            pointee(facts),
            range,
            *context,
            *findings,
            *diagnostic,
        ),
{
    let none: Vec<CodeAction> = Vec::new();
    assert(views(none@) == Seq::<ActionParts>::empty());
    let published = match published_diagnostic(world, uri, diagnostic) {
        Some(published) => published,
        None => return none,
    };
    if !ranges_intersect(range, published.range) {
        return none;
    }
    let place = match find_asked(&context.diagnostics, &published) {
        Some(place) => place,
        None => return none,
    };
    let own = actions_for(world, &diagnostic.suggestions, place);
    let imports = match facts {
        Some(facts) => actions_for(
            world,
            &auto_import_suggestions(facts, findings, diagnostic),
            place,
        ),
        None => none,
    };
    join(own, imports)
}

/// Whether the edits of two lists do the same one by one.
pub open spec fn same_edits(a: Seq<PlacedParts>, b: Seq<PlacedParts>) -> bool {
    a.len() == b.len() && forall|i: int| 0 <= i < a.len() ==> same_edit(#[trigger] a[i], b[i])
}

fn are_same_edits(a: &Vec<PlacedEdit>, b: &Vec<PlacedEdit>) -> (same: bool)
    ensures
        same == same_edits(views(a@), views(b@)),
{
    if a.len() != b.len() {
        return false;
    }
    let mut i: usize = 0;
    while i < a.len()
        invariant
            i <= a@.len(),
            a@.len() == b@.len(),
            forall|k: int| 0 <= k < i ==> same_edit(#[trigger] views(a@)[k], views(b@)[k]),
        decreases a@.len() - i,
    {
        if !is_same_edit(&a[i], &b[i]) {
            assert(!same_edit(views(a@)[i as int], views(b@)[i as int]));
            return false;
        }
        assert(same_edit(views(a@)[i as int], views(b@)[i as int]));
        i += 1;
    }
    true
}

/// Whether two quick fixes have one title and do the same.
pub open spec fn same_action(a: ActionParts, b: ActionParts) -> bool {
    a.title == b.title && same_edits(a.edits, b.edits)
}

pub open spec fn has_action(actions: Seq<ActionParts>, action: ActionParts) -> bool {
    exists|i: int| 0 <= i < actions.len() && same_action(#[trigger] actions[i], action)
}

/// The first of the quick fixes that have one title and do the same.
pub open spec fn without_repeats(actions: Seq<ActionParts>) -> Seq<ActionParts>
    decreases actions.len(),
{
    if actions.len() == 0 {
        actions
    } else {
        let front = without_repeats(actions.drop_last());
        if has_action(front, actions.last()) {
            front
        } else {
            front.push(actions.last())
        }
    }
}

fn contains_action(actions: &Vec<CodeAction>, action: &CodeAction) -> (found: bool)
    ensures
        found == has_action(views(actions@), action@),
{
    let ghost all = views(actions@);
    let mut i: usize = 0;
    while i < actions.len()
        invariant
            i <= actions@.len(),
            all == views(actions@),
            forall|k: int| 0 <= k < i ==> !same_action(#[trigger] all[k], action@),
        decreases actions@.len() - i,
    {
        assert(all[i as int] == actions@[i as int]@);
        if str_eq(actions[i].title.as_str(), action.title.as_str()) && are_same_edits(
            &actions[i].edits,
            &action.edits,
        ) {
            assert(same_action(all[i as int], action@));
            return true;
        }
        i += 1;
    }
    false
}

fn drop_repeated_actions(list: Vec<CodeAction>) -> (actions: Vec<CodeAction>)
    ensures
        views(actions@) == without_repeats(views(list@)),
{
    let ghost all = views(list@);
    let ghost count = list@.len();
    let mut rest = list;
    let mut actions: Vec<CodeAction> = Vec::new();
    assert(all.take(0) == Seq::<ActionParts>::empty());
    assert(views(actions@) == Seq::<ActionParts>::empty());
    while rest.len() > 0
        invariant
            rest@.len() <= count,
            count == all.len(),
            views(rest@) == all.skip(count - rest@.len()),
            views(actions@) == without_repeats(all.take(count - rest@.len())),
        decreases rest@.len(),
    {
        let ghost i = count - rest@.len();
        let ghost waiting = views(rest@);
        let next = rest.remove(0);
        assert(next@ == waiting[0]);
        assert(next@ == all[i]);
        assert(views(rest@) == waiting.skip(1));
        assert(waiting.skip(1) == all.skip(i + 1));
        assert(all.take(i + 1).drop_last() == all.take(i));
        assert(all.take(i + 1).last() == all[i]);
        if !contains_action(&actions, &next) {
            let ghost front = views(actions@);
            let ghost model = next@;
            actions.push(next);
            assert(views(actions@) == front.push(model));
        }
    }
    assert(all.take(count as int) == all);
    actions
}

/// The quick fixes for the diagnostics of a document.
pub open spec fn quick_fixes(
    world: WorldModel,
    uri: UrlParts,
    facts: Option<SourceFacts>,
    range: Range,
    context: CodeActionContext,
    findings: ModuleFindings,
    found: Seq<SourceDiagnostic>,
) -> Seq<ActionParts> {
    if wants_quick_fixes(context) && context.diagnostics@.len() > 0 {
        without_repeats(
            concat_map(
                found,
                |diagnostic: SourceDiagnostic|
                    offered(world, uri, facts, range, context, findings, diagnostic),
            ),
        )
    } else {
        Seq::empty()
    }
}

/// Whether a range is one of a document.
pub open spec fn valid_range(text: Seq<char>, range: Range) -> bool {
    match (byte_at(text, range.start), byte_at(text, range.end)) {
        (Some(start), Some(end)) => start <= end,
        _ => false,
    }
}

/// Computes quick fixes for diagnostics in a request.
///
/// The request has to name the diagnostics by the code, the range and the message with which they
/// are published now, so that no fix is made for a diagnostic of an earlier text.
pub fn handle_code_action(
    world: &WorldState,
    analysis: &Analysis,
    uri: &Url,
    range: Range,
    context: &CodeActionContext,
    findings: &ModuleFindings,
    found: &Vec<SourceDiagnostic>,
) -> (actions: Option<Vec<CodeAction>>)
    ensures
        match actions {
            Some(actions) => known_text(world@, uri@) matches Some(text) && valid_range(text, range)
                && views(actions@) == quick_fixes(
                world@,
                uri@,
                module_facts(world@, analysis.files@, uri@),
                range,
                *context,
                *findings,
                found@,
            ),
            None => match known_text(world@, uri@) {
                Some(text) => !valid_range(text, range),
                None => true,
            },
        },
{
    let index = match world.line_index(uri) {
        Some(index) => index,
        None => return None,
    };
    match (index.position_to_byte(range.start), index.position_to_byte(range.end)) {
        (Some(start), Some(end)) => if start > end {
            return None;
        },
        _ => return None,
    }
    if !quick_fixes_requested(context) || context.diagnostics.len() == 0 {
        let none: Vec<CodeAction> = Vec::new();
        assert(views(none@) == Seq::<ActionParts>::empty());
        return Some(none);
    }
    let facts = module_for_uri(world, &analysis.files, uri);
    let fixes = |diagnostic: &SourceDiagnostic| -> (actions: Vec<CodeAction>)
        ensures
            views(actions@) == offered(
                world@,
                uri@,
                pointee(facts),
                range,
                *context,
                *findings,
                *diagnostic,
            ),
    {
        offer(world, uri, facts, range, context, findings, diagnostic)
    };
    let all = gather(
        found,
        fixes,
        Ghost(
            |diagnostic: SourceDiagnostic|
                offered(
                    world@,
                    uri@,
                    pointee(facts),
                    range,
                    *context,
                    *findings,
                    diagnostic,
                ),
        ),
    );
    Some(drop_repeated_actions(all))
}

pub open spec fn text_edit(edit: PlacedParts) -> TextEditParts {
    TextEditParts { range: edit.location.range, new_text: edit.new_text }
}

/// Edits put together where they stand behind each other and are of one document.
pub open spec fn by_document(edits: Seq<PlacedParts>) -> Seq<DocumentParts>
    decreases edits.len(),
{
    if edits.len() == 0 {
        Seq::empty()
    } else {
        let front = by_document(edits.drop_last());
        let edit = edits.last();
        if front.len() > 0 && front.last().uri.text == edit.location.uri.text {
            front.drop_last().push(
                DocumentParts {
                    uri: front.last().uri,
                    edits: front.last().edits.push(text_edit(edit)),
                },
            )
        } else {
            front.push(DocumentParts { uri: edit.location.uri, edits: seq![text_edit(edit)] })
        }
    }
}

fn add_to_document(documents: &mut Vec<DocumentEdits>, edit: &PlacedEdit)
    ensures
        views(final(documents)@) == ({
            let front = views(old(documents)@);
            if front.len() > 0 && front.last().uri.text == edit@.location.uri.text {
                front.drop_last().push(
                    DocumentParts {
                        uri: front.last().uri,
                        edits: front.last().edits.push(text_edit(edit@)),
                    },
                )
            } else {
                front.push(
                    DocumentParts { uri: edit@.location.uri, edits: seq![text_edit(edit@)] },
                )
            }
        }),
{
    let ghost front = views(documents@);
    let change = TextEdit { range: edit.location.range, new_text: edit.new_text.clone() };
    assert(change@ == text_edit(edit@));
    let count: usize = documents.len();
    if count > 0 && documents[count - 1].uri.same(&edit.location.uri) {
        assert(front.last() == documents@[count - 1]@);
        if let Some(last) = documents.pop() {
            let mut edits = last.edits;
            let ghost before = views(edits@);
            edits.push(change);
            assert(views(edits@) == before.push(text_edit(edit@)));
            documents.push(DocumentEdits { uri: last.uri, edits });
            assert(views(documents@) == front.drop_last().push(
                DocumentParts {
                    uri: front.last().uri,
                    edits: front.last().edits.push(text_edit(edit@)),
                },
            ));
        }
    } else {
        assert(front.len() > 0 ==> front.last() == documents@[count - 1]@);
        let mut edits: Vec<TextEdit> = Vec::new();
        edits.push(change);
        assert(views(edits@) == seq![text_edit(edit@)]);
        documents.push(DocumentEdits { uri: edit.location.uri.clone(), edits });
        assert(views(documents@) == front.push(
            DocumentParts { uri: edit@.location.uri, edits: seq![text_edit(edit@)] },
        ));
    }
}

/// Puts the edits of each document together.
pub fn edits_by_document(edits: &Vec<PlacedEdit>) -> (documents: Vec<DocumentEdits>)
    ensures
        views(documents@) == by_document(views(edits@)),
{
    let ghost all = views(edits@);
    let mut documents: Vec<DocumentEdits> = Vec::new();
    let mut i: usize = 0;
    assert(all.take(0) == Seq::<PlacedParts>::empty());
    assert(views(documents@) == Seq::<DocumentParts>::empty());
    while i < edits.len()
        invariant
            i <= edits@.len(),
            all == views(edits@),
            views(documents@) == by_document(all.take(i as int)),
        decreases edits@.len() - i,
    {
        assert(all.take(i + 1).drop_last() == all.take(i as int));
        assert(all.take(i + 1).last() == edits@[i as int]@);
        add_to_document(&mut documents, &edits[i]);
        i += 1;
    }
    assert(all.take(i as int) == all);
    documents
}

proof fn lemma_by_document(edits: Seq<PlacedParts>)
    requires
        in_rank::<PlacedEdit>(edits),
    ensures
        by_document(edits).len() == 0 <==> edits.len() == 0,
        edits.len() > 0 ==> by_document(edits).last().uri.text == edits.last().location.uri.text,
        forall|i: int, j: int|
            0 <= i < j < by_document(edits).len() ==> text_lt(
                (#[trigger] by_document(edits)[i]).uri.text,
                (#[trigger] by_document(edits)[j]).uri.text,
            ),
    decreases edits.len(),
{
    if edits.len() > 0 {
        let init = edits.drop_last();
        let front = by_document(init);
        let all = by_document(edits);
        let last = edits.last();
        lemma_rank_front(edits);
        lemma_by_document(init);
        if front.len() > 0 {
            let previous = edits[edits.len() - 2];
            assert(init.last() == previous);
            assert(!<PlacedEdit as Ranked>::before(edits[edits.len() - 1], previous));
            lemma_text_lt_total(previous.location.uri.text, last.location.uri.text);
            if front.last().uri.text != last.location.uri.text {
                assert(text_lt(front.last().uri.text, last.location.uri.text));
                assert forall|i: int, j: int| 0 <= i < j < all.len() implies text_lt(
                    (#[trigger] all[i]).uri.text,
                    (#[trigger] all[j]).uri.text,
                ) by {
                    if j < front.len() {
                        assert(all[i] == front[i] && all[j] == front[j]);
                    } else if i < front.len() - 1 {
                        assert(all[i] == front[i]);
                        assert(text_lt(front[i].uri.text, front[front.len() - 1].uri.text));
                        lemma_text_lt_transitive(
                            front[i].uri.text,
                            front.last().uri.text,
                            last.location.uri.text,
                        );
                    }
                }
            } else {
                assert forall|i: int, j: int| 0 <= i < j < all.len() implies text_lt(
                    (#[trigger] all[i]).uri.text,
                    (#[trigger] all[j]).uri.text,
                ) by {
                    assert(all[i].uri == front[i].uri && all[j].uri == front[j].uri);
                    assert(text_lt(front[i].uri.text, front[j].uri.text));
                }
            }
        }
    }
}

proof fn lemma_rank_front(edits: Seq<PlacedParts>)
    requires
        in_rank::<PlacedEdit>(edits),
        edits.len() > 0,
    ensures
        in_rank::<PlacedEdit>(edits.drop_last()),
{
    let init = edits.drop_last();
    assert forall|i: int, j: int| 0 <= i < j < init.len() implies !<PlacedEdit as Ranked>::before(
        #[trigger] init[j],
        #[trigger] init[i],
    ) by {
        assert(init[i] == edits[i] && init[j] == edits[j]);
    }
}

proof fn lemma_unrepeated(edits: Seq<PlacedParts>)
    requires
        in_rank::<PlacedEdit>(edits),
    ensures
        in_rank::<PlacedEdit>(unrepeated(edits)),
        forall|i: int| 0 <= i < unrepeated(edits).len() ==> edits.contains(#[trigger] unrepeated(edits)[i]),
    decreases edits.len(),
{
    if edits.len() > 0 {
        let init = edits.drop_last();
        let front = unrepeated(init);
        let all = unrepeated(edits);
        lemma_rank_front(edits);
        lemma_unrepeated(init);
        assert forall|i: int| 0 <= i < all.len() implies edits.contains(#[trigger] all[i]) by {
            if i < front.len() {
                assert(all[i] == front[i]);
                assert(init.contains(front[i]));
                let k = choose|k: int| 0 <= k < init.len() && init[k] == front[i];
                assert(edits[k] == all[i]);
            } else {
                assert(edits[edits.len() - 1] == all[i]);
            }
        }
        assert forall|i: int, j: int| 0 <= i < j < all.len() implies !<PlacedEdit as Ranked>::before(
            #[trigger] all[j],
            #[trigger] all[i],
        ) by {
            if j < front.len() {
                assert(all[i] == front[i] && all[j] == front[j]);
            } else {
                assert(all[i] == front[i]);
                assert(init.contains(front[i]));
                let k = choose|k: int| 0 <= k < init.len() && init[k] == front[i];
                assert(edits[k] == front[i]);
                assert(!<PlacedEdit as Ranked>::before(edits[edits.len() - 1], edits[k]));
            }
        }
    }
}

/// A client is told of the edits of each document once, in the order of the documents' addresses.
pub proof fn law_documents_once(edits: Seq<PlacedParts>)
    ensures
        forall|i: int, j: int|
            0 <= i < j < by_document(settled(edits)).len() ==> text_lt(
                (#[trigger] by_document(settled(edits))[i]).uri.text,
                (#[trigger] by_document(settled(edits))[j]).uri.text,
            ),
{
    law_ranked::<PlacedEdit>(edits);
    lemma_unrepeated(ranked::<PlacedEdit>(edits));
    lemma_by_document(settled(edits));
}

/// Whether a range does not end in front of its start.
pub open spec fn forward(edit: PlacedParts) -> bool {
    !position_before(edit.location.range.end, edit.location.range.start)
}

proof fn lemma_apart(edits: Seq<PlacedParts>, i: int, j: int)
    requires
        in_rank::<PlacedEdit>(edits),
        compatible(edits),
        forall|k: int| 0 <= k < edits.len() ==> forward(#[trigger] edits[k]),
        0 <= i < j < edits.len(),
        edits[i].location.uri.text == edits[j].location.uri.text,
    ensures
        !position_before(edits[j].location.range.start, edits[i].location.range.end),
    decreases j - i,
{
    assert(!conflicting(edits[i], edits[i + 1]));
    if i + 1 < j {
        let next = edits[i + 1];
        let uri = edits[i].location.uri.text;
        assert(!<PlacedEdit as Ranked>::before(edits[i + 1], edits[i]));
        assert(!<PlacedEdit as Ranked>::before(edits[j], edits[i + 1]));
        lemma_text_lt_total(uri, next.location.uri.text);
        lemma_apart(edits, i + 1, j);
        assert(forward(next));
    }
}

/// The edits of a quick fix can all be made: no edit of a document begins in front of the end of
/// one that stands before it.
pub proof fn law_edits_apart(edits: Seq<PlacedParts>, i: int, j: int)
    requires
        forall|k: int| 0 <= k < edits.len() ==> forward(#[trigger] edits[k]),
        compatible(settled(edits)),
        0 <= i < j < settled(edits).len(),
        settled(edits)[i].location.uri.text == settled(edits)[j].location.uri.text,
    ensures
        !position_before(
            settled(edits)[j].location.range.start,
            settled(edits)[i].location.range.end,
        ),
{
    broadcast use vstd::seq_lib::group_to_multiset_ensures;

    let ordered = ranked::<PlacedEdit>(edits);
    let all = settled(edits);
    law_ranked::<PlacedEdit>(edits);
    lemma_unrepeated(ordered);
    assert forall|k: int| 0 <= k < all.len() implies forward(#[trigger] all[k]) by {
        assert(ordered.contains(all[k]));
        let m = choose|m: int| 0 <= m < ordered.len() && ordered[m] == all[k];
        assert(ordered.to_multiset().count(ordered[m]) > 0);
        assert(edits.contains(ordered[m]));
        let n = choose|n: int| 0 <= n < edits.len() && edits[n] == ordered[m];
        assert(forward(edits[n]));
    }
    lemma_apart(all, i, j);
}

proof fn lemma_with_plans(
    planned: Seq<PlannedParts>,
    source: Seq<char>,
    findings: ModuleFindings,
    candidates: Seq<ImportCandidate>,
    whole_module: bool,
)
    requires
        planned.len() <= MAX_AUTO_IMPORT_CANDIDATES,
    ensures
        with_plans(planned, source, findings, candidates, whole_module).len()
            <= MAX_AUTO_IMPORT_CANDIDATES,
    decreases candidates.len(),
{
    if candidates.len() > 0 {
        lemma_with_plans(planned, source, findings, candidates.drop_last(), whole_module);
    }
}

/// The imports that are offered for one diagnostic are limited in number.
pub proof fn law_imports_limited(source: Seq<char>, findings: ModuleFindings, missing: MissingParts)
    ensures
        plans_for(source, findings, missing).len() <= MAX_AUTO_IMPORT_CANDIDATES,
{
    let none = Seq::<PlannedParts>::empty();
    match missing {
        MissingParts::Name { name, namespace } => {
            lemma_with_plans(
                none,
                source,
                findings,
                name_candidates(findings.candidates, name, namespace),
                false,
            );
        },
        MissingParts::QualifiedConstructor { ty, constructor } => {
            lemma_with_plans(
                none,
                source,
                findings,
                constructor_candidates(findings.candidates, ty, constructor),
                false,
            );
        },
        MissingParts::QualifiedAccess { qualifier, member } => {
            let names = name_candidates(findings.candidates, qualifier, ImportNamespace::Class);
            let classes = with_plans(none, source, findings, names, false);
            lemma_with_plans(none, source, findings, names, false);
            let listed = constructor_candidates(findings.candidates, qualifier, member);
            lemma_with_plans(classes, source, findings, listed, false);
            lemma_with_plans(
                with_plans(classes, source, findings, listed, false),
                source,
                findings,
                module_candidates(findings.candidates, qualifier, member),
                true,
            );
        },
        MissingParts::ModuleMember { qualifier, member } => {
            lemma_with_plans(
                none,
                source,
                findings,
                module_candidates(findings.candidates, qualifier, member),
                true,
            );
        },
    }
}

proof fn lemma_not_asked(requested: Seq<RequestedDiagnostic>, published: DiagnosticParts)
    requires
        forall|i: int| 0 <= i < requested.len() ==> !asks_for(#[trigger] requested[i], published),
    ensures
        asked_at(requested, published) is None,
    decreases requested.len(),
{
    if requested.len() > 0 {
        let init = requested.drop_last();
        assert forall|i: int| 0 <= i < init.len() implies !asks_for(#[trigger] init[i], published) by {
            assert(init[i] == requested[i]);
        }
        lemma_not_asked(init, published);
        assert(!asks_for(requested[requested.len() - 1], published));
    }
}

/// A diagnostic that has another range, another code or another message than those that a client
/// asks to mend gets no fix.
pub proof fn law_stale_diagnostics_get_no_fix(
    world: WorldModel,
    uri: UrlParts,
    facts: Option<SourceFacts>,
    range: Range,
    context: CodeActionContext,
    findings: ModuleFindings,
    diagnostic: SourceDiagnostic,
)
    requires
        published_for(world, uri, diagnostic) matches Some(published) ==> forall|i: int|
            0 <= i < context.diagnostics@.len() ==> (#[trigger] context.diagnostics@[i]).range
                != published.range || seen(context.diagnostics@[i].code) != published.code
                || context.diagnostics@[i].message@ != published.message,
    ensures
        offered(world, uri, facts, range, context, findings, diagnostic) == Seq::<
            ActionParts,
        >::empty(),
{
    if let Some(published) = published_for(world, uri, diagnostic) {
        lemma_not_asked(context.diagnostics@, published);
    }
}

} // verus!
