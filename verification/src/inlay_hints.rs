//! Inlay hint support.
use vstd::prelude::*;

use crate::analysis::{known_text, module_facts, module_for_uri};
use crate::hir::{
    Analysis, BodyId, BodyTypes, FuncBody, LetType, SourceFacts, Stmt, StmtKind,
};
use crate::line_index::{byte_at, clamped, position_at, LineIndexExt};
use crate::protocol::{InlayHint, Position, Range};
use crate::rank::{in_rank, law_ranked, rank, ranked, Ranked};
use crate::resolve::{
    bodies_forward, contexts, derefs, forward_tree, function_contexts, FunctionAtOffset,
};
use crate::seqs::{concat_map, find, first_where, gather, lemma_concat_step, pointee, views};
use crate::state::{WorldModel, WorldState};
use crate::url::{Url, UrlParts};

verus! {

/// The model of a hint.
pub struct HintParts {
    pub position: Position,
    pub label: Seq<char>,
}

impl View for InlayHint {
    type V = HintParts;

    open spec fn view(&self) -> HintParts {
        HintParts { position: self.position, label: self.label@ }
    }
}

/// Hints are ordered by position.
impl Ranked for InlayHint {
    open spec fn before(a: HintParts, b: HintParts) -> bool {
        a.position.line < b.position.line || (a.position.line == b.position.line
            && a.position.character < b.position.character)
    }

    fn is_before(&self, other: &InlayHint) -> (before: bool) {
        self.position.line < other.position.line || (self.position.line == other.position.line
            && self.position.character < other.position.character)
    }

    proof fn lemma_asymmetric(a: HintParts, b: HintParts) {
    }

    proof fn lemma_not_behind(a: HintParts, b: HintParts, c: HintParts) {
    }
}

/// The inferred types of a function.
pub open spec fn types_of(facts: SourceFacts, root: BodyId) -> Option<BodyTypes> {
    find(facts.types@, |types: BodyTypes| types.root == root)
}

pub fn find_types(facts: &SourceFacts, root: BodyId) -> (found: Option<&BodyTypes>)
    ensures
        pointee(found) == types_of(*facts, root),
{
    let same = |types: &BodyTypes| -> (same: bool)
        ensures
            same == (types.root == root),
    {
        types.root == root
    };
    first_where(&facts.types, same, Ghost(|types: BodyTypes| types.root == root))
}

pub open spec fn is_let_of(entry: LetType, body: BodyId, stmt: usize) -> bool {
    entry.body == body && entry.stmt == stmt
}

/// The inferred type of what a `let` binds.
pub open spec fn let_type(types: BodyTypes, body: BodyId, stmt: usize) -> Option<LetType> {
    find(types.lets@, |entry: LetType| is_let_of(entry, body, stmt))
}

pub fn find_let_type(types: &BodyTypes, body: BodyId, stmt: usize) -> (found: Option<&LetType>)
    ensures
        pointee(found) == let_type(*types, body, stmt),
{
    let same = |entry: &LetType| -> (same: bool)
        ensures
            same == is_let_of(*entry, body, stmt),
    {
        entry.body == body && entry.stmt == stmt
    };
    first_where(&types.lets, same, Ghost(|entry: LetType| is_let_of(entry, body, stmt)))
}

/// A request for the hints of a part of a file.
#[derive(Clone, Copy)]
pub struct HintRequest {
    pub file: u32,
    pub start: u32,
    pub end: u32,
}

/// The hint of a statement: that of a `let` without a type whose name is in the part asked for.
pub open spec fn stmt_hint(
    text: Seq<char>,
    types: BodyTypes,
    request: HintRequest,
    body: BodyId,
    stmt: Stmt,
    index: usize,
) -> Option<HintParts> {
    match stmt.kind {
        StmtKind::Let { name, ty: None, .. } => if name.span.file != request.file
            || name.span.start < request.start || request.end < name.span.end {
            None
        } else {
            match let_type(types, body, index) {
                Some(found) => Some(
                    HintParts {
                        position: position_at(text, clamped(text, name.span.end as int)),
                        label: ": "@ + found.shown@,
                    },
                ),
                None => None,
            }
        },
        _ => None,
    }
}

/// The hints of the first `count` statements of a body.
pub open spec fn body_hints(
    text: Seq<char>,
    types: BodyTypes,
    request: HintRequest,
    body: FuncBody,
    count: nat,
) -> Seq<HintParts>
    decreases count,
{
    if count == 0 {
        Seq::empty()
    } else {
        let before = body_hints(text, types, request, body, (count - 1) as nat);
        match stmt_hint(
            text,
            types,
            request,
            body.id,
            body.stmts@[count - 1],
            (count - 1) as usize,
        ) {
            Some(hint) => before.push(hint),
            None => before,
        }
    }
}

fn collect_body_lets(
    index: &LineIndexExt,
    types: &BodyTypes,
    request: &HintRequest,
    body: &FuncBody,
) -> (hints: Vec<InlayHint>)
    ensures
        views(hints@) == body_hints(index@, *types, *request, *body, body.stmts@.len()),
{
    let mut hints: Vec<InlayHint> = Vec::new();
    let mut i: usize = 0;
    assert(views(hints@) == Seq::<HintParts>::empty());
    while i < body.stmts.len()
        invariant
            i <= body.stmts@.len(),
            views(hints@) == body_hints(index@, *types, *request, *body, i as nat),
        decreases body.stmts@.len() - i,
    {
        let ghost before = hints@;
        if let StmtKind::Let { comptime: _, name, ty: None } = &body.stmts[i].kind {
            if name.span.file == request.file && request.start <= name.span.start && name.span.end
                <= request.end {
                if let Some(found) = find_let_type(types, body.id, i) {
                    let hint = type_hint(index, name.span.end, found.shown.as_str());
                    let ghost model = hint@;
                    hints.push(hint);
                    assert(views(hints@) == views(before).push(model));
                }
            }
        }
        i += 1;
    }
    hints
}

fn type_hint(index: &LineIndexExt, offset: u32, ty: &str) -> (hint: InlayHint)
    ensures
        hint@ == (HintParts {
            position: position_at(index@, clamped(index@, offset as int)),
            label: ": "@ + ty@,
        }),
{
    let mut label = ": ".to_owned();
    label.append(ty);
    InlayHint { position: index.byte_to_position(offset), label }
}

/// The hints of a function.
pub open spec fn context_hints(
    text: Seq<char>,
    facts: SourceFacts,
    request: HintRequest,
    context: FunctionAtOffset<'_>,
) -> Seq<HintParts> {
    match types_of(facts, context.root_body.id) {
        Some(types) => concat_map(
            forward_tree(*context.root_body),
            |body: FuncBody| body_hints(text, types, request, body, body.stmts@.len()),
        ),
        None => Seq::empty(),
    }
}

fn collect_context_hints(
    index: &LineIndexExt,
    facts: &SourceFacts,
    request: &HintRequest,
    context: &FunctionAtOffset<'_>,
) -> (hints: Vec<InlayHint>)
    ensures
        views(hints@) == context_hints(index@, *facts, *request, *context),
{
    let mut hints: Vec<InlayHint> = Vec::new();
    assert(views(hints@) == Seq::<HintParts>::empty());
    let types = match find_types(facts, context.root_body.id) {
        Some(types) => types,
        None => return hints,
    };
    let bodies = bodies_forward(context.root_body);
    let ghost all = derefs(bodies@);
    let ghost g = |body: FuncBody|
        body_hints(index@, *types, *request, body, body.stmts@.len());
    let mut i: usize = 0;
    assert(all.take(0) == Seq::<FuncBody>::empty());
    while i < bodies.len()
        invariant
            i <= all.len(),
            all == derefs(bodies@),
            g == |body: FuncBody|
                body_hints(index@, *types, *request, body, body.stmts@.len()),
            views(hints@) == concat_map(all.take(i as int), g),
        decreases all.len() - i,
    {
        let ghost before = hints@;
        let mut more = collect_body_lets(index, types, request, bodies[i]);
        let ghost added = more@;
        hints.append(&mut more);
        proof {
            lemma_concat_step(all, g, i as int);
            assert(views(hints@) == views(before) + views(added));
        }
        i += 1;
    }
    assert(all.take(i as int) == all);
    hints
}

/// The hints of a part of a file, in order.
pub open spec fn file_hints(text: Seq<char>, facts: SourceFacts, request: HintRequest) -> Seq<HintParts> {
    ranked::<InlayHint>(
        concat_map(
            contexts(&facts.module, facts.module.items@.len()),
            |context: FunctionAtOffset<'_>| context_hints(text, facts, request, context),
        ),
    )
}

/// The hints of a range of a document.
pub open spec fn hints_at(world: WorldModel, files: Seq<SourceFacts>, uri: UrlParts, range: Range) -> Option<
    Seq<HintParts>,
> {
    match (module_facts(world, files, uri), known_text(world, uri)) {
        (Some(facts), Some(text)) => match (byte_at(text, range.start), byte_at(text, range.end)) {
            (Some(start), Some(end)) => Some(
                file_hints(text, facts, HintRequest { file: facts.file, start, end }),
            ),
            _ => None,
        },
        _ => None,
    }
}

/// Computes inferred-type inlay hints for local bindings in a source range.
pub fn handle_inlay_hints(world: &WorldState, analysis: &Analysis, uri: &Url, range: Range) -> (hints:
    Option<Vec<InlayHint>>)
    ensures
        match hints {
            Some(hints) => hints_at(world@, analysis.files@, uri@, range) == Some(views(hints@)),
            None => hints_at(world@, analysis.files@, uri@, range) is None,
        },
{
    let facts = match module_for_uri(world, &analysis.files, uri) {
        Some(facts) => facts,
        None => return None,
    };
    let index = match world.line_index(uri) {
        Some(index) => index,
        None => return None,
    };
    let start = match index.position_to_byte(range.start) {
        Some(start) => start,
        None => return None,
    };
    let end = match index.position_to_byte(range.end) {
        Some(end) => end,
        None => return None,
    };
    let request = HintRequest { file: facts.file, start, end };
    let functions = function_contexts(&facts.module);
    let of_function = |context: &FunctionAtOffset<'_>| -> (hints: Vec<InlayHint>)
        ensures
            views(hints@) == context_hints(index@, *facts, request, *context),
    {
        collect_context_hints(index, facts, &request, context)
    };
    let hints = gather(
        &functions,
        of_function,
        Ghost(
            |context: FunctionAtOffset<'_>| context_hints(index@, *facts, request, context),
        ),
    );
    Some(rank(hints))
}

/// Hints come in the order of their positions.
pub proof fn law_hints_ordered(text: Seq<char>, facts: SourceFacts, request: HintRequest)
    ensures
        in_rank::<InlayHint>(file_hints(text, facts, request)),
{
    law_ranked::<InlayHint>(
        concat_map(
            contexts(&facts.module, facts.module.items@.len()),
            |context: FunctionAtOffset<'_>| context_hints(text, facts, request, context),
        ),
    );
}

} // verus!
