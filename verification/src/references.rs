//! Find-references support.
use vstd::prelude::*;

use crate::analysis::{
    expr_entry_at, expr_of, facts_numbered, file_numbered, find_expr, find_pat, find_stmt,
    locate_request, location_for_span, map_of, body_resolution_map, pat_of, place_of,
    reference_search_modules, requested, resolved_expr_at, searched, stmt_of,
};
use crate::declarations::{
    adt_of, class_method_name_span, ctor_name_span, ctor_span, def_name_span, def_span,
    field_name_span, field_span, find_adt, let_name_span, let_span, method_span,
    param_name_or_whole_span, param_name_span, param_name_span_of, param_span, pattern_name_span,
    pattern_span, type_var_name_span, type_var_span,
};
use crate::hir::{
    AdtCtor, Analysis, BodyId, BodyResolutionMap, ContractItem, ContractScope, CtorEntry, DefId,
    ExportKind, ExportedName, Expr, ExprEntry, ExprKind, FieldEntry, FieldId, FuncBody, FuncParam,
    FunctionDef, ImportSelector, ImportedName, Item, ItemScopeFacts, LocalBinding, Module,
    ModuleEnv, Name, Namespace, ParamId, Pat, PatEntry, PatKind, PredEntry, Resolution, ScopeEntry,
    SelectedName, SourceFacts, Span, StmtEntry, StmtKind, TypeEntry, TypeRef,
};
use crate::protocol::{Location, LocationParts, Position, Range};
use crate::rank::{distinct, law_distinct, rank_distinct, strictly_ranked, Ranked};
use crate::resolve::{bodies_in, body_tree, contexts, derefs, function_contexts, FunctionAtOffset};
use crate::seqs::{
    collect, concat_map, filter_map, find, find_map, find_position, first_seen, first_where,
    gather, join, lemma_find_step, or_else, pointee, position, seen, views,
};
use crate::state::{WorldModel, WorldState};
use crate::text::{
    lemma_text_lt_irreflexive, lemma_text_lt_total, lemma_text_lt_transitive, str_eq, text_less,
    text_lt,
};
use crate::url::{Url, UrlParts};

verus! {

/// Semantic identity used by references, highlights and rename.
pub enum ReferenceTarget {
    /// A named user definition such as a function, type, contract, class, or instance.
    Def(DefId),
    /// A data constructor identified by its owning type and constructor index.
    Ctor { ty: DefId, index: usize },
    /// A function or lambda parameter.
    Param(ParamId),
    /// A local body binding, including pattern variables and type variables.
    Local(LocalBinding),
    /// A contract field.
    Field(FieldId),
    /// A type-class method.
    ClassMethod { class: DefId, name: String },
}

/// The model of a reference target.
pub enum TargetParts {
    Def(DefId),
    Ctor { ty: DefId, index: usize },
    Param(ParamId),
    Let { body: BodyId, stmt: usize },
    Pattern { body: BodyId, pat: usize },
    TypeVar { owner: DefId, index: usize, name: Seq<char> },
    Field(FieldId),
    ClassMethod { class: DefId, name: Seq<char> },
}

pub open spec fn binding_parts(binding: LocalBinding) -> TargetParts {
    match binding {
        LocalBinding::Let { body, stmt } => TargetParts::Let { body, stmt },
        LocalBinding::Pattern { body, pat } => TargetParts::Pattern { body, pat },
        LocalBinding::TypeVar { owner, index, name } => TargetParts::TypeVar {
            owner,
            index,
            name: name@,
        },
    }
}

impl View for ReferenceTarget {
    type V = TargetParts;

    open spec fn view(&self) -> TargetParts {
        match *self {
            ReferenceTarget::Def(def) => TargetParts::Def(def),
            ReferenceTarget::Ctor { ty, index } => TargetParts::Ctor { ty, index },
            ReferenceTarget::Param(param) => TargetParts::Param(param),
            ReferenceTarget::Local(binding) => binding_parts(binding),
            ReferenceTarget::Field(field) => TargetParts::Field(field),
            ReferenceTarget::ClassMethod { class, name } => TargetParts::ClassMethod {
                class,
                name: name@,
            },
        }
    }
}

impl ReferenceTarget {
    /// Whether both are the same target.
    pub fn same(&self, other: &ReferenceTarget) -> (same: bool)
        ensures
            same == (self@ == other@),
    {
        match (self, other) {
            (ReferenceTarget::Def(a), ReferenceTarget::Def(b)) => *a == *b,
            (
                ReferenceTarget::Ctor { ty: a, index: i },
                ReferenceTarget::Ctor { ty: b, index: k },
            ) => *a == *b && *i == *k,
            (ReferenceTarget::Param(a), ReferenceTarget::Param(b)) => *a == *b,
            (ReferenceTarget::Local(a), ReferenceTarget::Local(b)) => same_binding(a, b),
            (ReferenceTarget::Field(a), ReferenceTarget::Field(b)) => *a == *b,
            (
                ReferenceTarget::ClassMethod { class: a, name: n },
                ReferenceTarget::ClassMethod { class: b, name: m },
            ) => *a == *b && str_eq(n.as_str(), m.as_str()),
            _ => false,
        }
    }
}

fn same_binding(a: &LocalBinding, b: &LocalBinding) -> (same: bool)
    ensures
        same == (binding_parts(*a) == binding_parts(*b)),
{
    match (a, b) {
        (
            LocalBinding::Let { body: a, stmt: i },
            LocalBinding::Let { body: b, stmt: k },
        ) => *a == *b && *i == *k,
        (
            LocalBinding::Pattern { body: a, pat: i },
            LocalBinding::Pattern { body: b, pat: k },
        ) => *a == *b && *i == *k,
        (
            LocalBinding::TypeVar { owner: a, index: i, name: n },
            LocalBinding::TypeVar { owner: b, index: k, name: m },
        ) => *a == *b && *i == *k && str_eq(n.as_str(), m.as_str()),
        _ => false,
    }
}

fn copy_binding(binding: &LocalBinding) -> (copy: LocalBinding)
    ensures
        binding_parts(copy) == binding_parts(*binding),
{
    match binding {
        LocalBinding::Let { body, stmt } => LocalBinding::Let { body: *body, stmt: *stmt },
        LocalBinding::Pattern { body, pat } => LocalBinding::Pattern { body: *body, pat: *pat },
        LocalBinding::TypeVar { owner, index, name } => LocalBinding::TypeVar {
            owner: *owner,
            index: *index,
            name: name.clone(),
        },
    }
}

/// The target that a resolution stands for, none for one that the program does not declare.
pub open spec fn target_of(resolution: Resolution) -> Option<TargetParts> {
    match resolution {
        Resolution::Def { def, .. } => Some(TargetParts::Def(def)),
        Resolution::Ctor { ty, index } => Some(TargetParts::Ctor { ty, index }),
        Resolution::Param(param) => Some(TargetParts::Param(param)),
        Resolution::Local(binding) => Some(binding_parts(binding)),
        Resolution::Field(field) => Some(TargetParts::Field(field)),
        Resolution::ClassMethod { class, name } => Some(
            TargetParts::ClassMethod { class, name: name@ },
        ),
        Resolution::Module { .. } => None,
        Resolution::DotCtorDeferred => None,
        Resolution::Builtin(_) => None,
        Resolution::Unresolved => None,
    }
}

pub fn target_from_resolution(resolution: &Resolution) -> (target: Option<ReferenceTarget>)
    ensures
        seen(target) == target_of(*resolution),
{
    match resolution {
        Resolution::Def { def, kind: _ } => Some(ReferenceTarget::Def(*def)),
        Resolution::Ctor { ty, index } => Some(ReferenceTarget::Ctor { ty: *ty, index: *index }),
        Resolution::Param(param) => Some(ReferenceTarget::Param(*param)),
        Resolution::Local(binding) => Some(ReferenceTarget::Local(copy_binding(binding))),
        Resolution::Field(field) => Some(ReferenceTarget::Field(*field)),
        Resolution::ClassMethod { class, name } => Some(
            ReferenceTarget::ClassMethod { class: *class, name: name.clone() },
        ),
        Resolution::Module { .. } => None,
        Resolution::DotCtorDeferred => None,
        Resolution::Builtin(_) => None,
        Resolution::Unresolved => None,
    }
}

/// The place of the declaration of a target.
pub open spec fn declaration_span(files: Seq<SourceFacts>, target: TargetParts) -> Option<Span> {
    match target {
        TargetParts::Def(def) => def_span(files, def),
        TargetParts::Ctor { ty, index } => ctor_span(files, ty, index),
        TargetParts::Param(param) => param_name_span_of(files, param),
        TargetParts::Let { body, stmt } => let_span(files, body, stmt),
        TargetParts::Pattern { body, pat } => pattern_span(files, body, pat),
        TargetParts::TypeVar { owner, index, .. } => type_var_span(files, owner, index),
        TargetParts::Field(field) => field_span(files, field),
        TargetParts::ClassMethod { class, name } => method_span(files, class, name),
    }
}

/// Returns the declaration span for a semantic reference target.
pub fn target_declaration_span(files: &Vec<SourceFacts>, target: &ReferenceTarget) -> (span: Option<
    Span,
>)
    ensures
        span == declaration_span(files@, target@),
{
    match target {
        ReferenceTarget::Def(def) => def_name_span(files, *def),
        ReferenceTarget::Ctor { ty, index } => ctor_name_span(files, *ty, *index),
        ReferenceTarget::Param(param) => param_name_span(files, *param),
        ReferenceTarget::Local(LocalBinding::Let { body, stmt }) => let_name_span(
            files,
            *body,
            *stmt,
        ),
        ReferenceTarget::Local(LocalBinding::Pattern { body, pat }) => pattern_name_span(
            files,
            *body,
            *pat,
        ),
        ReferenceTarget::Local(LocalBinding::TypeVar { owner, index, name: _ }) => {
            type_var_name_span(files, *owner, *index)
        },
        ReferenceTarget::Field(field) => field_name_span(files, *field),
        ReferenceTarget::ClassMethod { class, name } => class_method_name_span(
            files,
            *class,
            name.as_str(),
        ),
    }
}

/// How a name is spelled at a place. What could not be parsed has an empty spelling.
pub struct Spelled<'a> {
    pub text: &'a str,
    pub span: Span,
}

pub struct SpelledParts {
    pub text: Seq<char>,
    pub span: Span,
}

impl View for Spelled<'_> {
    type V = SpelledParts;

    open spec fn view(&self) -> SpelledParts {
        SpelledParts { text: self.text@, span: self.span }
    }
}

pub open spec fn spelled_name(name: Name) -> SpelledParts {
    SpelledParts { text: name.text@, span: name.span }
}

fn spell(name: &Name) -> (spelled: Spelled<'_>)
    ensures
        spelled@ == spelled_name(*name),
{
    Spelled { text: name.text.as_str(), span: name.span }
}

/// The name by which an expression refers to something.
pub open spec fn expr_name(expr: Expr) -> Option<SpelledParts> {
    match expr.kind {
        ExprKind::Ident { name } => Some(spelled_name(name)),
        ExprKind::DotCtor { name } => Some(spelled_name(name)),
        ExprKind::Field { name } => Some(spelled_name(name)),
        ExprKind::Error => Some(SpelledParts { text: ""@, span: expr.span }),
        _ => None,
    }
}

pub fn expr_reference(expr: &Expr) -> (name: Option<Spelled<'_>>)
    ensures
        seen(name) == expr_name(*expr),
{
    match &expr.kind {
        ExprKind::Ident { name } => Some(spell(name)),
        ExprKind::DotCtor { name } => Some(spell(name)),
        ExprKind::Field { name } => Some(spell(name)),
        ExprKind::Error => Some(Spelled { text: "", span: expr.span }),
        _ => None,
    }
}

/// The name by which a pattern refers to something.
pub open spec fn pat_name(pat: Pat) -> Option<SpelledParts> {
    match pat.kind {
        PatKind::Var { name } => Some(spelled_name(name)),
        PatKind::Ctor { name, .. } => Some(spelled_name(name)),
        PatKind::Error => Some(SpelledParts { text: ""@, span: pat.span }),
        PatKind::Other => None,
    }
}

pub fn pat_reference(pat: &Pat) -> (name: Option<Spelled<'_>>)
    ensures
        seen(name) == pat_name(*pat),
{
    match &pat.kind {
        PatKind::Var { name } => Some(spell(name)),
        PatKind::Ctor { qualifiers: _, name } => Some(spell(name)),
        PatKind::Error => Some(Spelled { text: "", span: pat.span }),
        PatKind::Other => None,
    }
}

/// The name by which a type refers to something.
pub open spec fn type_ref_name(ty: TypeRef) -> Option<SpelledParts> {
    match ty {
        TypeRef::Named { name, .. } => Some(spelled_name(name)),
        TypeRef::Error { span } => Some(SpelledParts { text: ""@, span }),
        _ => None,
    }
}

pub fn type_reference(ty: &TypeRef) -> (name: Option<Spelled<'_>>)
    ensures
        seen(name) == type_ref_name(*ty),
{
    match ty {
        TypeRef::Named { qualifier: _, name, args: _ } => Some(spell(name)),
        TypeRef::Error { span } => Some(Spelled { text: "", span: *span }),
        _ => None,
    }
}

/// The name under a position: what it stands for.
pub struct Hit {
    pub target: Option<ReferenceTarget>,
}

impl View for Hit {
    type V = Option<TargetParts>;

    open spec fn view(&self) -> Option<TargetParts> {
        seen(self.target)
    }
}

/// What a name stands for where it is the one at an offset.
pub open spec fn hit(
    name: Option<SpelledParts>,
    resolution: Resolution,
    file: u32,
    offset: u32,
) -> Option<Option<TargetParts>> {
    match name {
        Some(name) => if name.span.holds(file, offset) {
            Some(target_of(resolution))
        } else {
            None
        },
        None => None,
    }
}

fn name_hit(name: Option<Spelled<'_>>, resolution: &Resolution, file: u32, offset: u32) -> (found:
    Option<Hit>)
    ensures
        seen(found) == hit(seen(name), *resolution, file, offset),
{
    match name {
        Some(name) => if name.span.contains_offset(file, offset) {
            Some(Hit { target: target_from_resolution(resolution) })
        } else {
            None
        },
        None => None,
    }
}

/// The target of what was found at a position.
pub open spec fn flat(found: Option<Option<TargetParts>>) -> Option<TargetParts> {
    match found {
        Some(target) => target,
        None => None,
    }
}

fn flatten(found: Option<Hit>) -> (target: Option<ReferenceTarget>)
    ensures
        seen(target) == flat(seen(found)),
{
    match found {
        Some(hit) => hit.target,
        None => None,
    }
}

pub open spec fn type_entry_hit(entry: TypeEntry, file: u32, offset: u32) -> Option<
    Option<TargetParts>,
> {
    hit(type_ref_name(entry.ty), entry.resolution, file, offset)
}

pub open spec fn pred_entry_hit(entry: PredEntry, file: u32, offset: u32) -> Option<
    Option<TargetParts>,
> {
    hit(Some(spelled_name(entry.pred.class)), entry.resolution, file, offset)
}

/// The type or predicate at an offset.
pub open spec fn types_hit(
    types: Seq<TypeEntry>,
    preds: Seq<PredEntry>,
    file: u32,
    offset: u32,
) -> Option<Option<TargetParts>> {
    match find_map(types, |entry: TypeEntry| type_entry_hit(entry, file, offset)) {
        Some(found) => Some(found),
        None => find_map(preds, |entry: PredEntry| pred_entry_hit(entry, file, offset)),
    }
}

fn find_types_hit(types: &Vec<TypeEntry>, preds: &Vec<PredEntry>, file: u32, offset: u32) -> (found:
    Option<Hit>)
    ensures
        seen(found) == types_hit(types@, preds@, file, offset),
{
    let type_hit = |entry: &TypeEntry| -> (found: Option<Hit>)
        ensures
            seen(found) == type_entry_hit(*entry, file, offset),
    {
        name_hit(type_reference(&entry.ty), &entry.resolution, file, offset)
    };
    if let Some(found) = first_seen(
        types,
        type_hit,
        Ghost(|entry: TypeEntry| type_entry_hit(entry, file, offset)),
    ) {
        return Some(found);
    }
    let pred_hit = |entry: &PredEntry| -> (found: Option<Hit>)
        ensures
            seen(found) == pred_entry_hit(*entry, file, offset),
    {
        name_hit(Some(spell(&entry.pred.class)), &entry.resolution, file, offset)
    };
    first_seen(preds, pred_hit, Ghost(|entry: PredEntry| pred_entry_hit(entry, file, offset)))
}

/// The name that a statement binds.
pub open spec fn stmt_name(module: Module, body: BodyId, stmt: usize) -> Option<SpelledParts> {
    match stmt_of(module, body, stmt) {
        Some(stmt) => match stmt.kind {
            StmtKind::Let { name, .. } => Some(spelled_name(name)),
            StmtKind::Other => None,
        },
        None => None,
    }
}

/// What a binding statement means for the search of the name at an offset. A statement that
/// binds no name ends the search.
pub open spec fn stmt_entry_hit(module: Module, entry: StmtEntry, file: u32, offset: u32) -> Option<
    Option<TargetParts>,
> {
    match stmt_name(module, entry.body, entry.stmt) {
        Some(name) => hit(Some(name), entry.resolution, file, offset),
        None => Some(None),
    }
}

pub open spec fn pat_entry_hit(module: Module, entry: PatEntry, file: u32, offset: u32) -> Option<
    Option<TargetParts>,
> {
    match pat_of(module, entry.body, entry.pat) {
        Some(pat) => hit(pat_name(pat), entry.resolution, file, offset),
        None => None,
    }
}

/// The binding, pattern, type or predicate of a body at an offset.
pub open spec fn map_hit(module: Module, map: BodyResolutionMap, file: u32, offset: u32) -> Option<
    Option<TargetParts>,
> {
    match find_map(
        map.stmt_bindings@,
        |entry: StmtEntry| stmt_entry_hit(module, entry, file, offset),
    ) {
        Some(found) => Some(found),
        None => match find_map(
            map.pats@,
            |entry: PatEntry| pat_entry_hit(module, entry, file, offset),
        ) {
            Some(found) => Some(found),
            None => types_hit(map.types@, map.preds@, file, offset),
        },
    }
}

fn body_map_target_at(module: &Module, map: &BodyResolutionMap, file: u32, offset: u32) -> (target:
    Option<ReferenceTarget>)
    ensures
        seen(target) == flat(map_hit(*module, *map, file, offset)),
{
    let stmt_hit = |entry: &StmtEntry| -> (found: Option<Hit>)
        ensures
            seen(found) == stmt_entry_hit(*module, *entry, file, offset),
    {
        match find_stmt(module, entry.body, entry.stmt) {
            Some(stmt) => match &stmt.kind {
                StmtKind::Let { comptime: _, name, ty: _ } => name_hit(
                    Some(spell(name)),
                    &entry.resolution,
                    file,
                    offset,
                ),
                StmtKind::Other => Some(Hit { target: None }),
            },
            None => Some(Hit { target: None }),
        }
    };
    if let Some(found) = first_seen(
        &map.stmt_bindings,
        stmt_hit,
        Ghost(|entry: StmtEntry| stmt_entry_hit(*module, entry, file, offset)),
    ) {
        return flatten(Some(found));
    }
    let pat_hit = |entry: &PatEntry| -> (found: Option<Hit>)
        ensures
            seen(found) == pat_entry_hit(*module, *entry, file, offset),
    {
        match find_pat(module, entry.body, entry.pat) {
            Some(pat) => name_hit(pat_reference(pat), &entry.resolution, file, offset),
            None => None,
        }
    };
    if let Some(found) = first_seen(
        &map.pats,
        pat_hit,
        Ghost(|entry: PatEntry| pat_entry_hit(*module, entry, file, offset)),
    ) {
        return flatten(Some(found));
    }
    flatten(find_types_hit(&map.types, &map.preds, file, offset))
}

/// The parameter of a list at an offset.
pub open spec fn param_hit(params: Seq<FuncParam>, body: BodyId, file: u32, offset: u32) -> Option<
    TargetParts,
>
    decreases params.len(),
{
    if params.len() == 0 {
        None
    } else {
        match param_hit(params.drop_last(), body, file, offset) {
            Some(target) => Some(target),
            None => match param_span(params.last()) {
                Some(span) => if span.holds(file, offset) {
                    Some(
                        TargetParts::Param(
                            ParamId { body, index: (params.len() - 1) as usize },
                        ),
                    )
                } else {
                    None
                },
                None => None,
            },
        }
    }
}

proof fn lemma_param_hit_front(params: Seq<FuncParam>, body: BodyId, file: u32, offset: u32, i: int)
    requires
        0 <= i <= params.len(),
        param_hit(params.take(i), body, file, offset) is Some,
    ensures
        param_hit(params, body, file, offset) == param_hit(params.take(i), body, file, offset),
    decreases params.len(),
{
    if i == params.len() {
        assert(params.take(i) == params);
    } else {
        assert(params.drop_last().take(i) == params.take(i));
        lemma_param_hit_front(params.drop_last(), body, file, offset, i);
    }
}

fn param_target_in_list(params: &Vec<FuncParam>, body: BodyId, file: u32, offset: u32) -> (target:
    Option<ReferenceTarget>)
    ensures
        seen(target) == param_hit(params@, body, file, offset),
{
    let ghost all = params@;
    let mut i: usize = 0;
    assert(all.take(0) == Seq::<FuncParam>::empty());
    while i < params.len()
        invariant
            i <= all.len(),
            all == params@,
            param_hit(all.take(i as int), body, file, offset) is None,
        decreases all.len() - i,
    {
        assert(all.take(i + 1).drop_last() == all.take(i as int));
        assert(all.take(i + 1).last() == all[i as int]);
        if let Some(span) = param_name_or_whole_span(&params[i]) {
            if span.contains_offset(file, offset) {
                let target = ReferenceTarget::Param(ParamId { body, index: i });
                proof {
                    assert(param_hit(all.take(i + 1), body, file, offset) == Some(target@));
                    lemma_param_hit_front(all, body, file, offset, i + 1);
                }
                return Some(target);
            }
        }
        i += 1;
    }
    assert(all.take(i as int) == all);
    None
}

pub open spec fn lambda_param_hit(expr: Expr, file: u32, offset: u32) -> Option<TargetParts> {
    match expr.kind {
        ExprKind::Lambda { params, body } => param_hit(params@, body.id, file, offset),
        _ => None,
    }
}

/// The parameter of a lambda of a function at an offset.
pub open spec fn lambda_params_hit(root: FuncBody, file: u32, offset: u32) -> Option<TargetParts> {
    find_map(
        body_tree(root),
        |body: FuncBody|
            find_map(body.exprs@, |expr: Expr| lambda_param_hit(expr, file, offset)),
    )
}

fn lambda_param_target_at(root_body: &FuncBody, file: u32, offset: u32) -> (target: Option<
    ReferenceTarget,
>)
    ensures
        seen(target) == lambda_params_hit(*root_body, file, offset),
{
    let bodies = bodies_in(root_body);
    let ghost all = derefs(bodies@);
    let ghost g = |body: FuncBody|
        find_map(body.exprs@, |expr: Expr| lambda_param_hit(expr, file, offset));
    let mut i: usize = 0;
    assert(all.take(0) == Seq::<FuncBody>::empty());
    while i < bodies.len()
        invariant
            i <= all.len(),
            all == derefs(bodies@),
            all == body_tree(*root_body),
            g == |body: FuncBody|
                find_map(body.exprs@, |expr: Expr| lambda_param_hit(expr, file, offset)),
            find_map(all.take(i as int), g) is None,
        decreases all.len() - i,
    {
        proof {
            lemma_find_step(all, g, i as int);
        }
        let target_in = |expr: &Expr| -> (target: Option<ReferenceTarget>)
            ensures
                seen(target) == lambda_param_hit(*expr, file, offset),
        {
            match &expr.kind {
                ExprKind::Lambda { params, body } => param_target_in_list(
                    params,
                    body.id,
                    file,
                    offset,
                ),
                _ => None,
            }
        };
        let target = first_seen(
            &bodies[i].exprs,
            target_in,
            Ghost(|expr: Expr| lambda_param_hit(expr, file, offset)),
        );
        if target.is_some() {
            return target;
        }
        i += 1;
    }
    assert(all.take(i as int) == all);
    None
}

/// The parameter, binding, pattern, type or predicate of a function at an offset.
pub open spec fn context_hit(facts: SourceFacts, context: FunctionAtOffset<'_>, offset: u32) -> Option<
    TargetParts,
> {
    let file = facts.file;
    match param_hit(context.function.sig.params@, context.root_body.id, file, offset) {
        Some(target) => Some(target),
        None => match lambda_params_hit(*context.root_body, file, offset) {
            Some(target) => Some(target),
            None => match map_of(facts, context.root_body.id) {
                Some(found) => flat(map_hit(facts.module, found.map, file, offset)),
                None => None,
            },
        },
    }
}

fn function_param_target_at(context: &FunctionAtOffset<'_>, file: u32, offset: u32) -> (target: Option<
    ReferenceTarget,
>)
    ensures
        seen(target) == match param_hit(
            context.function.sig.params@,
            context.root_body.id,
            file,
            offset,
        ) {
            Some(target) => Some(target),
            None => lambda_params_hit(*context.root_body, file, offset),
        },
{
    let target = param_target_in_list(
        &context.function.sig.params,
        context.root_body.id,
        file,
        offset,
    );
    if target.is_some() {
        return target;
    }
    lambda_param_target_at(context.root_body, file, offset)
}

fn context_target_at(facts: &SourceFacts, context: &FunctionAtOffset<'_>, offset: u32) -> (target:
    Option<ReferenceTarget>)
    ensures
        seen(target) == context_hit(*facts, *context, offset),
{
    let target = function_param_target_at(context, facts.file, offset);
    if target.is_some() {
        return target;
    }
    match body_resolution_map(facts, context.root_body.id) {
        Some(found) => body_map_target_at(&facts.module, &found.map, facts.file, offset),
        None => None,
    }
}

/// The target of the expression at an offset, where the offset is in the name of it.
pub open spec fn expr_hit(facts: SourceFacts, offset: u32) -> Option<TargetParts> {
    match expr_entry_at(facts, offset) {
        Some((expr, entry)) => flat(hit(expr_name(expr), entry.resolution, facts.file, offset)),
        None => None,
    }
}

fn body_expr_target_at(facts: &SourceFacts, offset: u32) -> (target: Option<ReferenceTarget>)
    ensures
        seen(target) == expr_hit(*facts, offset),
{
    match resolved_expr_at(facts, offset) {
        Some((expr, entry)) => flatten(
            name_hit(expr_reference(expr), &entry.resolution, facts.file, offset),
        ),
        None => None,
    }
}

/// The type variable of a list at an offset.
pub open spec fn var_hit(owner: DefId, vars: Seq<Name>, file: u32, offset: u32) -> Option<TargetParts> {
    match position(vars, |var: Name| var.span.holds(file, offset)) {
        Some(index) => Some(
            TargetParts::TypeVar { owner, index, name: vars[index as int].text@ },
        ),
        None => None,
    }
}

fn type_var_target_in_list(owner: DefId, vars: &Vec<Name>, file: u32, offset: u32) -> (target: Option<
    ReferenceTarget,
>)
    ensures
        seen(target) == var_hit(owner, vars@, file, offset),
{
    let holds = |var: &Name| -> (holds: bool)
        ensures
            holds == var.span.holds(file, offset),
    {
        var.span.contains_offset(file, offset)
    };
    match find_position(vars, holds, Ghost(|var: Name| var.span.holds(file, offset))) {
        Some(index) => Some(
            ReferenceTarget::Local(
                LocalBinding::TypeVar { owner, index, name: vars[index].text.clone() },
            ),
        ),
        None => None,
    }
}

pub open spec fn function_var_hit(function: FunctionDef, file: u32, offset: u32) -> Option<TargetParts> {
    var_hit(function.def, function.sig.type_vars@, file, offset)
}

fn function_type_var_target_at(function: &FunctionDef, file: u32, offset: u32) -> (target: Option<
    ReferenceTarget,
>)
    ensures
        seen(target) == function_var_hit(*function, file, offset),
{
    type_var_target_in_list(function.def, &function.sig.type_vars, file, offset)
}

pub open spec fn contract_item_var_hit(item: ContractItem, file: u32, offset: u32) -> Option<
    TargetParts,
> {
    match item {
        ContractItem::FunctionDef(function) => function_var_hit(function, file, offset),
        ContractItem::TypeAlias(alias) => var_hit(alias.def, alias.params@, file, offset),
        ContractItem::AdtDef(adt) => var_hit(adt.def, adt.params@, file, offset),
        ContractItem::Error { .. } => None,
    }
}

/// The type variable that an item declares at an offset.
pub open spec fn item_var_hit(item: Item, file: u32, offset: u32) -> Option<TargetParts> {
    match item {
        Item::FunctionDef(function) => function_var_hit(function, file, offset),
        Item::TypeAlias(alias) => var_hit(alias.def, alias.params@, file, offset),
        Item::AdtDef(adt) => var_hit(adt.def, adt.params@, file, offset),
        Item::ClassDef(class) => var_hit(class.def, class.type_vars@, file, offset),
        Item::InstanceDef(instance) => or_else(
            var_hit(instance.def, instance.type_vars@, file, offset),
            find_map(
                instance.methods@,
                |method: FunctionDef| function_var_hit(method, file, offset),
            ),
        ),
        Item::ContractDef(contract) => or_else(
            var_hit(contract.def, contract.params@, file, offset),
            find_map(
                contract.items@,
                |inner: ContractItem| contract_item_var_hit(inner, file, offset),
            ),
        ),
        _ => None,
    }
}

fn contract_item_type_var_target_at(item: &ContractItem, file: u32, offset: u32) -> (target: Option<
    ReferenceTarget,
>)
    ensures
        seen(target) == contract_item_var_hit(*item, file, offset),
{
    match item {
        ContractItem::FunctionDef(function) => function_type_var_target_at(function, file, offset),
        ContractItem::TypeAlias(alias) => type_var_target_in_list(
            alias.def,
            &alias.params,
            file,
            offset,
        ),
        ContractItem::AdtDef(adt) => type_var_target_in_list(adt.def, &adt.params, file, offset),
        ContractItem::Error { .. } => None,
    }
}

fn item_type_var_target_at(module: &Module, file: u32, offset: u32) -> (target: Option<
    ReferenceTarget,
>)
    ensures
        seen(target) == find_map(module.items@, |item: Item| item_var_hit(item, file, offset)),
{
    let target_in = |item: &Item| -> (target: Option<ReferenceTarget>)
        ensures
            seen(target) == item_var_hit(*item, file, offset),
    {
        match item {
            Item::FunctionDef(function) => function_type_var_target_at(function, file, offset),
            Item::TypeAlias(alias) => type_var_target_in_list(
                alias.def,
                &alias.params,
                file,
                offset,
            ),
            Item::AdtDef(adt) => type_var_target_in_list(adt.def, &adt.params, file, offset),
            Item::ClassDef(class) => type_var_target_in_list(
                class.def,
                &class.type_vars,
                file,
                offset,
            ),
            Item::InstanceDef(instance) => {
                let own = type_var_target_in_list(
                    instance.def,
                    &instance.type_vars,
                    file,
                    offset,
                );
                if own.is_some() {
                    own
                } else {
                    let method_target = |method: &FunctionDef| -> (target: Option<ReferenceTarget>)
                        ensures
                            seen(target) == function_var_hit(*method, file, offset),
                    {
                        function_type_var_target_at(method, file, offset)
                    };
                    first_seen(
                        &instance.methods,
                        method_target,
                        Ghost(|method: FunctionDef| function_var_hit(method, file, offset)),
                    )
                }
            },
            Item::ContractDef(contract) => {
                let own = type_var_target_in_list(contract.def, &contract.params, file, offset);
                if own.is_some() {
                    own
                } else {
                    let inner_target = |inner: &ContractItem| -> (target: Option<ReferenceTarget>)
                        ensures
                            seen(target) == contract_item_var_hit(*inner, file, offset),
                    {
                        contract_item_type_var_target_at(inner, file, offset)
                    };
                    first_seen(
                        &contract.items,
                        inner_target,
                        Ghost(|inner: ContractItem| contract_item_var_hit(inner, file, offset)),
                    )
                }
            },
            _ => None,
        }
    };
    first_seen(&module.items, target_in, Ghost(|item: Item| item_var_hit(item, file, offset)))
}

pub open spec fn scope_entry_hit(entry: ScopeEntry, file: u32, offset: u32) -> Option<TargetParts> {
    if entry.span.holds(file, offset) {
        target_of(entry.resolution)
    } else {
        None
    }
}

/// The declared name of a scope at an offset.
pub open spec fn entries_hit(entries: Seq<ScopeEntry>, file: u32, offset: u32) -> Option<TargetParts> {
    find_map(entries, |entry: ScopeEntry| scope_entry_hit(entry, file, offset))
}

fn scope_entries_target_at(entries: &Vec<ScopeEntry>, file: u32, offset: u32) -> (target: Option<
    ReferenceTarget,
>)
    ensures
        seen(target) == entries_hit(entries@, file, offset),
{
    let target_in = |entry: &ScopeEntry| -> (target: Option<ReferenceTarget>)
        ensures
            seen(target) == scope_entry_hit(*entry, file, offset),
    {
        if entry.span.contains_offset(file, offset) {
            target_from_resolution(&entry.resolution)
        } else {
            None
        }
    };
    first_seen(
        entries,
        target_in,
        Ghost(|entry: ScopeEntry| scope_entry_hit(entry, file, offset)),
    )
}

pub open spec fn ctor_entry_hit(entry: CtorEntry, file: u32, offset: u32) -> Option<TargetParts> {
    if entry.span.holds(file, offset) {
        Some(TargetParts::Ctor { ty: entry.ty, index: entry.index })
    } else {
        None
    }
}

pub open spec fn ctors_hit(entries: Seq<CtorEntry>, file: u32, offset: u32) -> Option<TargetParts> {
    find_map(entries, |entry: CtorEntry| ctor_entry_hit(entry, file, offset))
}

fn ctor_lists_target_at(entries: &Vec<CtorEntry>, file: u32, offset: u32) -> (target: Option<
    ReferenceTarget,
>)
    ensures
        seen(target) == ctors_hit(entries@, file, offset),
{
    let target_in = |entry: &CtorEntry| -> (target: Option<ReferenceTarget>)
        ensures
            seen(target) == ctor_entry_hit(*entry, file, offset),
    {
        if entry.span.contains_offset(file, offset) {
            Some(ReferenceTarget::Ctor { ty: entry.ty, index: entry.index })
        } else {
            None
        }
    };
    first_seen(
        entries,
        target_in,
        Ghost(|entry: CtorEntry| ctor_entry_hit(entry, file, offset)),
    )
}

pub open spec fn field_entry_hit(entry: FieldEntry, file: u32, offset: u32) -> Option<TargetParts> {
    if entry.span.holds(file, offset) {
        Some(TargetParts::Field(entry.field))
    } else {
        None
    }
}

pub open spec fn contract_scope_hit(scope: ContractScope, file: u32, offset: u32) -> Option<
    TargetParts,
> {
    or_else(
        entries_hit(scope.types@, file, offset),
        or_else(
            entries_hit(scope.terms@, file, offset),
            or_else(
                find_map(scope.fields@, |entry: FieldEntry| field_entry_hit(entry, file, offset)),
                ctors_hit(scope.ctors@, file, offset),
            ),
        ),
    )
}

fn contract_scope_target_at(scope: &ContractScope, file: u32, offset: u32) -> (target: Option<
    ReferenceTarget,
>)
    ensures
        seen(target) == contract_scope_hit(*scope, file, offset),
{
    let in_types = scope_entries_target_at(&scope.types, file, offset);
    if in_types.is_some() {
        return in_types;
    }
    let in_terms = scope_entries_target_at(&scope.terms, file, offset);
    if in_terms.is_some() {
        return in_terms;
    }
    let field_target = |entry: &FieldEntry| -> (target: Option<ReferenceTarget>)
        ensures
            seen(target) == field_entry_hit(*entry, file, offset),
    {
        if entry.span.contains_offset(file, offset) {
            Some(ReferenceTarget::Field(entry.field))
        } else {
            None
        }
    };
    let in_fields = first_seen(
        &scope.fields,
        field_target,
        Ghost(|entry: FieldEntry| field_entry_hit(entry, file, offset)),
    );
    if in_fields.is_some() {
        return in_fields;
    }
    ctor_lists_target_at(&scope.ctors, file, offset)
}

/// The declaration of a module at an offset.
pub open spec fn scope_hit(scope: ItemScopeFacts, file: u32, offset: u32) -> Option<TargetParts> {
    or_else(
        entries_hit(scope.types@, file, offset),
        or_else(
            entries_hit(scope.terms@, file, offset),
            or_else(
                entries_hit(scope.modules@, file, offset),
                or_else(
                    ctors_hit(scope.ctors@, file, offset),
                    find_map(
                        scope.contracts@,
                        |contract: ContractScope| contract_scope_hit(contract, file, offset),
                    ),
                ),
            ),
        ),
    )
}

fn item_scope_target_at(scope: &ItemScopeFacts, file: u32, offset: u32) -> (target: Option<
    ReferenceTarget,
>)
    ensures
        seen(target) == scope_hit(*scope, file, offset),
{
    let in_types = scope_entries_target_at(&scope.types, file, offset);
    if in_types.is_some() {
        return in_types;
    }
    let in_terms = scope_entries_target_at(&scope.terms, file, offset);
    if in_terms.is_some() {
        return in_terms;
    }
    let in_modules = scope_entries_target_at(&scope.modules, file, offset);
    if in_modules.is_some() {
        return in_modules;
    }
    let in_ctors = ctor_lists_target_at(&scope.ctors, file, offset);
    if in_ctors.is_some() {
        return in_ctors;
    }
    let contract_target = |contract: &ContractScope| -> (target: Option<ReferenceTarget>)
        ensures
            seen(target) == contract_scope_hit(*contract, file, offset),
    {
        contract_scope_target_at(contract, file, offset)
    };
    first_seen(
        &scope.contracts,
        contract_target,
        Ghost(|contract: ContractScope| contract_scope_hit(contract, file, offset)),
    )
}

pub open spec fn is_imported_as(imported: ImportedName, namespace: Namespace, name: Seq<char>) -> bool {
    imported.namespace == namespace && imported.name@ == name
}

/// What an imported name stands for.
pub open spec fn imported(env: ModuleEnv, namespace: Namespace, name: Seq<char>) -> Option<Resolution> {
    match find(
        env.names@,
        |imported: ImportedName| is_imported_as(imported, namespace, name),
    ) {
        Some(imported) => imported.resolution,
        None => None,
    }
}

pub fn find_imported<'a>(env: &'a ModuleEnv, namespace: Namespace, name: &str) -> (found: Option<
    &'a Resolution,
>)
    ensures
        pointee(found) == imported(*env, namespace, name@),
{
    let same = |imported: &ImportedName| -> (same: bool)
        ensures
            same == is_imported_as(*imported, namespace, name@),
    {
        imported.namespace == namespace && str_eq(imported.name.as_str(), name)
    };
    match first_where(
        &env.names,
        same,
        Ghost(|imported: ImportedName| is_imported_as(imported, namespace, name@)),
    ) {
        Some(imported) => imported.resolution.as_ref(),
        None => None,
    }
}

/// The name that a selected name has in the importing module.
pub open spec fn local_name(selected: SelectedName) -> Seq<char> {
    match selected.alias {
        Some(alias) => alias.text@,
        None => selected.name.text@,
    }
}

pub fn selected_local_name(selected: &SelectedName) -> (name: &str)
    ensures
        name@ == local_name(*selected),
{
    match &selected.alias {
        Some(alias) => alias.text.as_str(),
        None => selected.name.text.as_str(),
    }
}

/// What a selected name stands for.
pub open spec fn selected_resolution(env: ModuleEnv, selected: SelectedName) -> Option<Resolution> {
    or_else(
        imported(env, Namespace::Term, local_name(selected)),
        imported(env, Namespace::Type, local_name(selected)),
    )
}

pub fn import_selected_name_resolution<'a>(env: &'a ModuleEnv, selected: &SelectedName) -> (found:
    Option<&'a Resolution>)
    ensures
        pointee(found) == selected_resolution(*env, *selected),
{
    let name = selected_local_name(selected);
    let term = find_imported(env, Namespace::Term, name);
    if term.is_some() {
        return term;
    }
    find_imported(env, Namespace::Type, name)
}

/// What a declared name stands for.
pub open spec fn declared(entries: Seq<ScopeEntry>, name: Seq<char>) -> Option<Resolution> {
    match find(entries, |entry: ScopeEntry| entry.name@ == name) {
        Some(entry) => Some(entry.resolution),
        None => None,
    }
}

pub fn find_declared<'a>(entries: &'a Vec<ScopeEntry>, name: &str) -> (found: Option<&'a Resolution>)
    ensures
        pointee(found) == declared(entries@, name@),
{
    let same = |entry: &ScopeEntry| -> (same: bool)
        ensures
            same == (entry.name@ == name@),
    {
        str_eq(entry.name.as_str(), name)
    };
    match first_where(entries, same, Ghost(|entry: ScopeEntry| entry.name@ == name@)) {
        Some(entry) => Some(&entry.resolution),
        None => None,
    }
}

/// What an exported name stands for.
pub open spec fn exported_resolution(scope: ItemScopeFacts, name: Seq<char>) -> Option<Resolution> {
    or_else(declared(scope.terms@, name), declared(scope.types@, name))
}

pub fn export_name_resolution<'a>(scope: &'a ItemScopeFacts, name: &str) -> (found: Option<
    &'a Resolution,
>)
    ensures
        pointee(found) == exported_resolution(*scope, name@),
{
    let term = find_declared(&scope.terms, name);
    if term.is_some() {
        return term;
    }
    find_declared(&scope.types, name)
}

/// The target of a resolution that may be missing.
pub open spec fn target_of_any(resolution: Option<Resolution>) -> Option<TargetParts> {
    match resolution {
        Some(resolution) => target_of(resolution),
        None => None,
    }
}

fn target_from_any(resolution: Option<&Resolution>) -> (target: Option<ReferenceTarget>)
    ensures
        seen(target) == target_of_any(pointee(resolution)),
{
    match resolution {
        Some(resolution) => target_from_resolution(resolution),
        None => None,
    }
}

/// The constructor with a name of the data type that a resolution stands for.
pub open spec fn ctor_target(
    files: Seq<SourceFacts>,
    ty: Option<Resolution>,
    name: Seq<char>,
) -> Option<TargetParts> {
    match ty {
        Some(Resolution::Def { def, .. }) => match facts_numbered(files, def.file) {
            Some(facts) => match adt_of(facts.module, def) {
                Some(adt) => match position(
                    adt.ctors@,
                    |ctor: AdtCtor| ctor.name.text@ == name,
                ) {
                    Some(index) => Some(TargetParts::Ctor { ty: def, index }),
                    None => None,
                },
                None => None,
            },
            None => None,
        },
        _ => None,
    }
}

fn ctor_name_target(files: &Vec<SourceFacts>, ty: Option<&Resolution>, name: &str) -> (target: Option<
    ReferenceTarget,
>)
    ensures
        seen(target) == ctor_target(files@, pointee(ty), name@),
{
    let def = match ty {
        Some(Resolution::Def { def, kind: _ }) => *def,
        _ => return None,
    };
    let facts = match file_numbered(files, def.file) {
        Some(facts) => facts,
        None => return None,
    };
    let adt = match find_adt(&facts.module, def) {
        Some(adt) => adt,
        None => return None,
    };
    let same = |ctor: &AdtCtor| -> (same: bool)
        ensures
            same == (ctor.name.text@ == name@),
    {
        str_eq(ctor.name.text.as_str(), name)
    };
    match find_position(&adt.ctors, same, Ghost(|ctor: AdtCtor| ctor.name.text@ == name@)) {
        Some(index) => Some(ReferenceTarget::Ctor { ty: def, index }),
        None => None,
    }
}

pub open spec fn ctor_name_hit(
    files: Seq<SourceFacts>,
    ty: Option<Resolution>,
    name: Name,
    file: u32,
    offset: u32,
) -> Option<Option<TargetParts>> {
    if name.span.holds(file, offset) {
        Some(ctor_target(files, ty, name.text@))
    } else {
        None
    }
}

/// The name of a list of an import or export at an offset, or one of the constructors with it.
pub open spec fn listed_hit(
    files: Seq<SourceFacts>,
    name: Name,
    resolution: Option<Resolution>,
    ctors: Seq<Name>,
    ty: Option<Resolution>,
    file: u32,
    offset: u32,
) -> Option<Option<TargetParts>> {
    if name.span.holds(file, offset) {
        Some(target_of_any(resolution))
    } else {
        find_map(ctors, |ctor: Name| ctor_name_hit(files, ty, ctor, file, offset))
    }
}

fn find_listed_hit(
    files: &Vec<SourceFacts>,
    name: &Name,
    resolution: Option<&Resolution>,
    ctors: &Vec<Name>,
    ty: Option<&Resolution>,
    file: u32,
    offset: u32,
) -> (found: Option<Hit>)
    ensures
        seen(found) == listed_hit(
            files@,
            *name,
            pointee(resolution),
            ctors@,
            pointee(ty),
            file,
            offset,
        ),
{
    if name.span.contains_offset(file, offset) {
        return Some(Hit { target: target_from_any(resolution) });
    }
    let ghost parts = pointee(ty);
    let ctor_hit = |ctor: &Name| -> (found: Option<Hit>)
        ensures
            seen(found) == ctor_name_hit(files@, pointee(ty), *ctor, file, offset),
    {
        if ctor.span.contains_offset(file, offset) {
            Some(Hit { target: ctor_name_target(files, ty, ctor.text.as_str()) })
        } else {
            None
        }
    };
    first_seen(
        ctors,
        ctor_hit,
        Ghost(|ctor: Name| ctor_name_hit(files@, parts, ctor, file, offset)),
    )
}

pub open spec fn selected_hit(
    files: Seq<SourceFacts>,
    env: ModuleEnv,
    selected: SelectedName,
    file: u32,
    offset: u32,
) -> Option<Option<TargetParts>> {
    listed_hit(
        files,
        selected.name,
        selected_resolution(env, selected),
        selected.ctors@,
        imported(env, Namespace::Type, local_name(selected)),
        file,
        offset,
    )
}

pub open spec fn exported_hit(
    files: Seq<SourceFacts>,
    scope: ItemScopeFacts,
    exported: ExportedName,
    file: u32,
    offset: u32,
) -> Option<Option<TargetParts>> {
    listed_hit(
        files,
        exported.name,
        exported_resolution(scope, exported.name.text@),
        exported.ctors@,
        declared(scope.types@, exported.name.text@),
        file,
        offset,
    )
}

/// The name in an import selector or an export list at an offset.
pub open spec fn import_export_hit(files: Seq<SourceFacts>, facts: SourceFacts, item: Item, offset: u32) -> Option<
    Option<TargetParts>,
> {
    match item {
        Item::Import(import) => match import.selector {
            Some(ImportSelector::Names(names)) => find_map(
                names@,
                |selected: SelectedName|
                    selected_hit(files, facts.env, selected, facts.file, offset),
            ),
            _ => None,
        },
        Item::Export(export) => match export.kind {
            ExportKind::List(names) => find_map(
                names@,
                |exported: ExportedName|
                    exported_hit(files, facts.scope, exported, facts.file, offset),
            ),
            _ => None,
        },
        _ => None,
    }
}

/// The target of the name in an import selector or an export list at an offset.
pub open spec fn import_export_at(files: Seq<SourceFacts>, facts: SourceFacts, offset: u32) -> Option<
    TargetParts,
> {
    flat(
        find_map(
            facts.module.items@,
            |item: Item| import_export_hit(files, facts, item, offset),
        ),
    )
}

fn import_export_target_in_module(files: &Vec<SourceFacts>, facts: &SourceFacts, offset: u32) -> (target:
    Option<ReferenceTarget>)
    ensures
        seen(target) == import_export_at(files@, *facts, offset),
{
    let file = facts.file;
    let item_hit = |item: &Item| -> (found: Option<Hit>)
        ensures
            seen(found) == import_export_hit(files@, *facts, *item, offset),
    {
        match item {
            Item::Import(import) => match &import.selector {
                Some(ImportSelector::Names(names)) => {
                    let name_hit = |selected: &SelectedName| -> (found: Option<Hit>)
                        ensures
                            seen(found) == selected_hit(
                                files@,
                                facts.env,
                                *selected,
                                facts.file,
                                offset,
                            ),
                    {
                        find_listed_hit(
                            files,
                            &selected.name,
                            import_selected_name_resolution(&facts.env, selected),
                            &selected.ctors,
                            find_imported(
                                &facts.env,
                                Namespace::Type,
                                selected_local_name(selected),
                            ),
                            facts.file,
                            offset,
                        )
                    };
                    first_seen(
                        names,
                        name_hit,
                        Ghost(
                            |selected: SelectedName|
                                selected_hit(files@, facts.env, selected, facts.file, offset),
                        ),
                    )
                },
                _ => None,
            },
            Item::Export(export) => match &export.kind {
                ExportKind::List(names) => {
                    let name_hit = |exported: &ExportedName| -> (found: Option<Hit>)
                        ensures
                            seen(found) == exported_hit(
                                files@,
                                facts.scope,
                                *exported,
                                facts.file,
                                offset,
                            ),
                    {
                        find_listed_hit(
                            files,
                            &exported.name,
                            export_name_resolution(&facts.scope, exported.name.text.as_str()),
                            &exported.ctors,
                            find_declared(&facts.scope.types, exported.name.text.as_str()),
                            facts.file,
                            offset,
                        )
                    };
                    first_seen(
                        names,
                        name_hit,
                        Ghost(
                            |exported: ExportedName|
                                exported_hit(files@, facts.scope, exported, facts.file, offset),
                        ),
                    )
                },
                _ => None,
            },
            _ => None,
        }
    };
    flatten(
        first_seen(
            &facts.module.items,
            item_hit,
            Ghost(|item: Item| import_export_hit(files@, *facts, item, offset)),
        ),
    )
}

/// The target of the name at an offset of a file.
pub open spec fn target_in_file(files: Seq<SourceFacts>, facts: SourceFacts, offset: u32) -> Option<
    TargetParts,
> {
    or_else(
        expr_hit(facts, offset),
        or_else(
            find_map(
                contexts(&facts.module, facts.module.items@.len()),
                |context: FunctionAtOffset<'_>| context_hit(facts, context, offset),
            ),
            or_else(
                find_map(
                    facts.module.items@,
                    |item: Item| item_var_hit(item, facts.file, offset),
                ),
                or_else(
                    flat(
                        types_hit(
                            facts.item_facts.types@,
                            facts.item_facts.preds@,
                            facts.file,
                            offset,
                        ),
                    ),
                    or_else(
                        scope_hit(facts.scope, facts.file, offset),
                        import_export_at(files, facts, offset),
                    ),
                ),
            ),
        ),
    )
}

/// Finds the target of the name at an offset of a file.
pub fn find_target_in_file(files: &Vec<SourceFacts>, facts: &SourceFacts, offset: u32) -> (target:
    Option<ReferenceTarget>)
    ensures
        seen(target) == target_in_file(files@, *facts, offset),
{
    let in_expr = body_expr_target_at(facts, offset);
    if in_expr.is_some() {
        return in_expr;
    }
    let functions = function_contexts(&facts.module);
    let context_target = |context: &FunctionAtOffset<'_>| -> (target: Option<ReferenceTarget>)
        ensures
            seen(target) == context_hit(*facts, *context, offset),
    {
        context_target_at(facts, context, offset)
    };
    let in_function = first_seen(
        &functions,
        context_target,
        Ghost(|context: FunctionAtOffset<'_>| context_hit(*facts, context, offset)),
    );
    if in_function.is_some() {
        return in_function;
    }
    let in_type_vars = item_type_var_target_at(&facts.module, facts.file, offset);
    if in_type_vars.is_some() {
        return in_type_vars;
    }
    let in_types = flatten(
        find_types_hit(&facts.item_facts.types, &facts.item_facts.preds, facts.file, offset),
    );
    if in_types.is_some() {
        return in_types;
    }
    let in_scope = item_scope_target_at(&facts.scope, facts.file, offset);
    if in_scope.is_some() {
        return in_scope;
    }
    import_export_target_in_module(files, facts, offset)
}

/// The target of the symbol at a position of a document.
pub open spec fn target_at(
    world: WorldModel,
    files: Seq<SourceFacts>,
    uri: UrlParts,
    position: Position,
) -> Option<TargetParts> {
    match requested(world, files, uri, position) {
        Some((facts, offset)) => target_in_file(files, facts, offset),
        None => None,
    }
}

/// Resolves the symbol under `position` to a reusable semantic reference target.
pub fn reference_target_at(
    world: &WorldState,
    analysis: &Analysis,
    uri: &Url,
    position: Position,
) -> (target: Option<ReferenceTarget>)
    ensures
        seen(target) == target_at(world@, analysis.files@, uri@, position),
{
    match locate_request(world, &analysis.files, uri, position) {
        Some((facts, offset)) => find_target_in_file(&analysis.files, facts, offset),
        None => None,
    }
}

/// Resolves an import selector or explicit export-list occurrence under `position`.
pub fn import_export_target_at(
    world: &WorldState,
    analysis: &Analysis,
    uri: &Url,
    position: Position,
) -> (target: Option<ReferenceTarget>)
    ensures
        seen(target) == match requested(world@, analysis.files@, uri@, position) {
            Some((facts, offset)) => import_export_at(analysis.files@, facts, offset),
            None => None,
        },
{
    match locate_request(world, &analysis.files, uri, position) {
        Some((facts, offset)) => import_export_target_in_module(&analysis.files, facts, offset),
        None => None,
    }
}

/// A name in a source file that stands for a target.
pub struct Occurrence {
    pub target: ReferenceTarget,
    pub text: String,
    pub span: Span,
}

pub struct OccurrenceParts {
    pub target: TargetParts,
    pub text: Seq<char>,
    pub span: Span,
}

impl View for Occurrence {
    type V = OccurrenceParts;

    open spec fn view(&self) -> OccurrenceParts {
        OccurrenceParts { target: self.target@, text: self.text@, span: self.span }
    }
}

/// The occurrence of a target under a name.
pub open spec fn occurrence(name: Option<SpelledParts>, target: Option<TargetParts>) -> Option<
    OccurrenceParts,
> {
    match (name, target) {
        (Some(name), Some(target)) => Some(
            OccurrenceParts { target, text: name.text, span: name.span },
        ),
        _ => None,
    }
}

fn make_occurrence(name: Option<Spelled<'_>>, target: Option<ReferenceTarget>) -> (found: Option<
    Occurrence,
>)
    ensures
        seen(found) == occurrence(seen(name), seen(target)),
{
    match (name, target) {
        (Some(name), Some(target)) => Some(
            Occurrence { target, text: name.text.to_owned(), span: name.span },
        ),
        _ => None,
    }
}

pub open spec fn type_occurrence(entry: TypeEntry) -> Option<OccurrenceParts> {
    occurrence(type_ref_name(entry.ty), target_of(entry.resolution))
}

pub open spec fn pred_occurrence(entry: PredEntry) -> Option<OccurrenceParts> {
    occurrence(Some(spelled_name(entry.pred.class)), target_of(entry.resolution))
}

/// The targets that types and predicates name.
pub open spec fn type_occurrences(types: Seq<TypeEntry>, preds: Seq<PredEntry>) -> Seq<OccurrenceParts> {
    filter_map(types, |entry: TypeEntry| type_occurrence(entry)) + filter_map(
        preds,
        |entry: PredEntry| pred_occurrence(entry),
    )
}

fn collect_types(types: &Vec<TypeEntry>, preds: &Vec<PredEntry>) -> (found: Vec<Occurrence>)
    ensures
        views(found@) == type_occurrences(types@, preds@),
{
    let of_type = |entry: &TypeEntry| -> (found: Option<Occurrence>)
        ensures
            seen(found) == type_occurrence(*entry),
    {
        make_occurrence(type_reference(&entry.ty), target_from_resolution(&entry.resolution))
    };
    let of_pred = |entry: &PredEntry| -> (found: Option<Occurrence>)
        ensures
            seen(found) == pred_occurrence(*entry),
    {
        make_occurrence(
            Some(spell(&entry.pred.class)),
            target_from_resolution(&entry.resolution),
        )
    };
    let first = collect(types, of_type, Ghost(|entry: TypeEntry| type_occurrence(entry)));
    let second = collect(preds, of_pred, Ghost(|entry: PredEntry| pred_occurrence(entry)));
    join(first, second)
}

pub open spec fn expr_occurrence(module: Module, entry: ExprEntry) -> Option<OccurrenceParts> {
    match expr_of(module, entry.body, entry.expr) {
        Some(expr) => occurrence(expr_name(expr), target_of(entry.resolution)),
        None => None,
    }
}

/// The target that a pattern names; a pattern variable declares a target and does not name it.
pub open spec fn pat_occurrence(module: Module, entry: PatEntry) -> Option<OccurrenceParts> {
    if target_of(entry.resolution) == Some(
        TargetParts::Pattern { body: entry.body, pat: entry.pat },
    ) {
        None
    } else {
        match pat_of(module, entry.body, entry.pat) {
            Some(pat) => occurrence(pat_name(pat), target_of(entry.resolution)),
            None => None,
        }
    }
}

/// The targets that the bodies of a function name.
pub open spec fn map_occurrences(module: Module, map: BodyResolutionMap) -> Seq<OccurrenceParts> {
    filter_map(map.exprs@, |entry: ExprEntry| expr_occurrence(module, entry)) + filter_map(
        map.pats@,
        |entry: PatEntry| pat_occurrence(module, entry),
    ) + type_occurrences(map.types@, map.preds@)
}

fn is_own_pattern(entry: &PatEntry) -> (own: bool)
    ensures
        own == (target_of(entry.resolution) == Some(
            TargetParts::Pattern { body: entry.body, pat: entry.pat },
        )),
{
    match &entry.resolution {
        Resolution::Local(LocalBinding::Pattern { body, pat }) => *body == entry.body && *pat
            == entry.pat,
        _ => false,
    }
}

fn collect_body_occurrences(module: &Module, map: &BodyResolutionMap) -> (found: Vec<Occurrence>)
    ensures
        views(found@) == map_occurrences(*module, *map),
{
    let of_expr = |entry: &ExprEntry| -> (found: Option<Occurrence>)
        ensures
            seen(found) == expr_occurrence(*module, *entry),
    {
        match find_expr(module, entry.body, entry.expr) {
            Some(expr) => make_occurrence(
                expr_reference(expr),
                target_from_resolution(&entry.resolution),
            ),
            None => None,
        }
    };
    let of_pat = |entry: &PatEntry| -> (found: Option<Occurrence>)
        ensures
            seen(found) == pat_occurrence(*module, *entry),
    {
        if is_own_pattern(entry) {
            None
        } else {
            match find_pat(module, entry.body, entry.pat) {
                Some(pat) => make_occurrence(
                    pat_reference(pat),
                    target_from_resolution(&entry.resolution),
                ),
                None => None,
            }
        }
    };
    let exprs = collect(
        &map.exprs,
        of_expr,
        Ghost(|entry: ExprEntry| expr_occurrence(*module, entry)),
    );
    let pats = collect(&map.pats, of_pat, Ghost(|entry: PatEntry| pat_occurrence(*module, entry)));
    let types = collect_types(&map.types, &map.preds);
    join(join(exprs, pats), types)
}

pub open spec fn ctor_occurrence(files: Seq<SourceFacts>, ty: Option<Resolution>, name: Name) -> Option<
    OccurrenceParts,
> {
    occurrence(Some(spelled_name(name)), ctor_target(files, ty, name.text@))
}

/// The targets that a name of a list of an import or export and the constructors with it name.
pub open spec fn listed_occurrences(
    files: Seq<SourceFacts>,
    name: Name,
    resolution: Option<Resolution>,
    ctors: Seq<Name>,
    ty: Option<Resolution>,
) -> Seq<OccurrenceParts> {
    let of_ctors = filter_map(ctors, |ctor: Name| ctor_occurrence(files, ty, ctor));
    match occurrence(Some(spelled_name(name)), target_of_any(resolution)) {
        Some(found) => seq![found] + of_ctors,
        None => of_ctors,
    }
}

fn collect_listed(
    files: &Vec<SourceFacts>,
    name: &Name,
    resolution: Option<&Resolution>,
    ctors: &Vec<Name>,
    ty: Option<&Resolution>,
) -> (found: Vec<Occurrence>)
    ensures
        views(found@) == listed_occurrences(
            files@,
            *name,
            pointee(resolution),
            ctors@,
            pointee(ty),
        ),
{
    let ghost parts = pointee(ty);
    let of_ctor = |ctor: &Name| -> (found: Option<Occurrence>)
        ensures
            seen(found) == ctor_occurrence(files@, pointee(ty), *ctor),
    {
        make_occurrence(Some(spell(ctor)), ctor_name_target(files, ty, ctor.text.as_str()))
    };
    let of_ctors = collect(ctors, of_ctor, Ghost(|ctor: Name| ctor_occurrence(files@, parts, ctor)));
    match make_occurrence(Some(spell(name)), target_from_any(resolution)) {
        Some(found) => {
            let ghost model = found@;
            let mut first: Vec<Occurrence> = Vec::new();
            first.push(found);
            assert(views(first@) == seq![model]);
            join(first, of_ctors)
        },
        None => of_ctors,
    }
}

pub open spec fn selected_occurrences(
    files: Seq<SourceFacts>,
    env: ModuleEnv,
    selected: SelectedName,
) -> Seq<OccurrenceParts> {
    listed_occurrences(
        files,
        selected.name,
        selected_resolution(env, selected),
        selected.ctors@,
        imported(env, Namespace::Type, local_name(selected)),
    )
}

pub open spec fn exported_occurrences(
    files: Seq<SourceFacts>,
    scope: ItemScopeFacts,
    exported: ExportedName,
) -> Seq<OccurrenceParts> {
    listed_occurrences(
        files,
        exported.name,
        exported_resolution(scope, exported.name.text@),
        exported.ctors@,
        declared(scope.types@, exported.name.text@),
    )
}

/// The targets that the selector of an import or the list of an export names.
pub open spec fn import_export_occurrences(files: Seq<SourceFacts>, facts: SourceFacts, item: Item) -> Seq<
    OccurrenceParts,
> {
    match item {
        Item::Import(import) => match import.selector {
            Some(ImportSelector::Names(names)) => concat_map(
                names@,
                |selected: SelectedName| selected_occurrences(files, facts.env, selected),
            ),
            _ => Seq::empty(),
        },
        Item::Export(export) => match export.kind {
            ExportKind::List(names) => concat_map(
                names@,
                |exported: ExportedName|
                    exported_occurrences(files, facts.resolved.scope, exported),
            ),
            _ => Seq::empty(),
        },
        _ => Seq::empty(),
    }
}

fn none_found() -> (found: Vec<Occurrence>)
    ensures
        views(found@) == Seq::<OccurrenceParts>::empty(),
{
    let found: Vec<Occurrence> = Vec::new();
    assert(views(found@) == Seq::<OccurrenceParts>::empty());
    found
}

fn collect_import_export_occurrences(files: &Vec<SourceFacts>, facts: &SourceFacts, item: &Item) -> (found:
    Vec<Occurrence>)
    ensures
        views(found@) == import_export_occurrences(files@, *facts, *item),
{
    match item {
        Item::Import(import) => match &import.selector {
            Some(ImportSelector::Names(names)) => {
                let of_name = |selected: &SelectedName| -> (found: Vec<Occurrence>)
                    ensures
                        views(found@) == selected_occurrences(files@, facts.env, *selected),
                {
                    collect_listed(
                        files,
                        &selected.name,
                        import_selected_name_resolution(&facts.env, selected),
                        &selected.ctors,
                        find_imported(
                            &facts.env,
                            Namespace::Type,
                            selected_local_name(selected),
                        ),
                    )
                };
                gather(
                    names,
                    of_name,
                    Ghost(
                        |selected: SelectedName|
                            selected_occurrences(files@, facts.env, selected),
                    ),
                )
            },
            _ => none_found(),
        },
        Item::Export(export) => match &export.kind {
            ExportKind::List(names) => {
                let of_name = |exported: &ExportedName| -> (found: Vec<Occurrence>)
                    ensures
                        views(found@) == exported_occurrences(
                            files@,
                            facts.resolved.scope,
                            *exported,
                        ),
                {
                    collect_listed(
                        files,
                        &exported.name,
                        export_name_resolution(
                            &facts.resolved.scope,
                            exported.name.text.as_str(),
                        ),
                        &exported.ctors,
                        find_declared(&facts.resolved.scope.types, exported.name.text.as_str()),
                    )
                };
                gather(
                    names,
                    of_name,
                    Ghost(
                        |exported: ExportedName|
                            exported_occurrences(files@, facts.resolved.scope, exported),
                    ),
                )
            },
            _ => none_found(),
        },
        _ => none_found(),
    }
}

/// The targets that the selectors of imports and the lists of exports of a file name.
pub open spec fn listed_in_file(files: Seq<SourceFacts>, facts: SourceFacts) -> Seq<OccurrenceParts> {
    concat_map(
        facts.module.items@,
        |item: Item| import_export_occurrences(files, facts, item),
    )
}

pub fn collect_listed_in_file(files: &Vec<SourceFacts>, facts: &SourceFacts) -> (found: Vec<
    Occurrence,
>)
    ensures
        views(found@) == listed_in_file(files@, *facts),
{
    let of_item = |item: &Item| -> (found: Vec<Occurrence>)
        ensures
            views(found@) == import_export_occurrences(files@, *facts, *item),
    {
        collect_import_export_occurrences(files, facts, item)
    };
    gather(
        &facts.module.items,
        of_item,
        Ghost(|item: Item| import_export_occurrences(files@, *facts, item)),
    )
}

/// The targets that the types, predicates and bodies of a file name.
pub open spec fn used_in_file(facts: SourceFacts) -> Seq<OccurrenceParts> {
    type_occurrences(facts.resolved.item_facts.types@, facts.resolved.item_facts.preds@)
        + concat_map(
        facts.resolved.bodies@,
        |map: BodyResolutionMap| map_occurrences(facts.module, map),
    )
}

pub fn collect_used_in_file(facts: &SourceFacts) -> (found: Vec<Occurrence>)
    ensures
        views(found@) == used_in_file(*facts),
{
    let in_types = collect_types(
        &facts.resolved.item_facts.types,
        &facts.resolved.item_facts.preds,
    );
    let of_body = |map: &BodyResolutionMap| -> (found: Vec<Occurrence>)
        ensures
            views(found@) == map_occurrences(facts.module, *map),
    {
        collect_body_occurrences(&facts.module, map)
    };
    let in_bodies = gather(
        &facts.resolved.bodies,
        of_body,
        Ghost(|map: BodyResolutionMap| map_occurrences(facts.module, map)),
    );
    join(in_types, in_bodies)
}

/// The targets that the names of a file stand for.
pub open spec fn file_occurrences(files: Seq<SourceFacts>, facts: SourceFacts) -> Seq<
    OccurrenceParts,
> {
    listed_in_file(files, facts) + used_in_file(facts)
}

/// Lists the targets that the names of a file stand for.
pub fn collect_file_occurrences(files: &Vec<SourceFacts>, facts: &SourceFacts) -> (found: Vec<
    Occurrence,
>)
    ensures
        views(found@) == file_occurrences(files@, *facts),
{
    join(collect_listed_in_file(files, facts), collect_used_in_file(facts))
}

pub open spec fn range_before(a: Range, b: Range) -> bool {
    if a.start.line != b.start.line {
        a.start.line < b.start.line
    } else if a.start.character != b.start.character {
        a.start.character < b.start.character
    } else if a.end.line != b.end.line {
        a.end.line < b.end.line
    } else {
        a.end.character < b.end.character
    }
}

pub fn range_less(a: &Range, b: &Range) -> (less: bool)
    ensures
        less == range_before(*a, *b),
{
    if a.start.line != b.start.line {
        a.start.line < b.start.line
    } else if a.start.character != b.start.character {
        a.start.character < b.start.character
    } else if a.end.line != b.end.line {
        a.end.line < b.end.line
    } else {
        a.end.character < b.end.character
    }
}

/// Locations are ordered by document, then by range.
pub open spec fn location_before(a: LocationParts, b: LocationParts) -> bool {
    text_lt(a.uri.text, b.uri.text) || (a.uri.text == b.uri.text && range_before(a.range, b.range))
}

pub fn is_location_before(a: &Location, b: &Location) -> (before: bool)
    ensures
        before == location_before(a@, b@),
{
    text_less(a.uri.as_str(), b.uri.as_str()) || (a.uri.same(&b.uri) && range_less(
        &a.range,
        &b.range,
    ))
}

pub proof fn lemma_location_asymmetric(a: LocationParts, b: LocationParts)
    ensures
        location_before(a, b) ==> !location_before(b, a),
{
    if text_lt(a.uri.text, b.uri.text) && text_lt(b.uri.text, a.uri.text) {
        lemma_text_lt_transitive(a.uri.text, b.uri.text, a.uri.text);
    }
    lemma_text_lt_irreflexive(a.uri.text);
}

pub proof fn lemma_location_not_behind(a: LocationParts, b: LocationParts, c: LocationParts)
    requires
        !location_before(b, a),
        !location_before(c, b),
    ensures
        !location_before(c, a),
{
    lemma_text_lt_total(a.uri.text, b.uri.text);
    lemma_text_lt_total(b.uri.text, c.uri.text);
    lemma_text_lt_irreflexive(a.uri.text);
    if text_lt(c.uri.text, a.uri.text) {
        if text_lt(a.uri.text, b.uri.text) {
            lemma_text_lt_transitive(c.uri.text, a.uri.text, b.uri.text);
        }
    }
    if text_lt(a.uri.text, b.uri.text) && text_lt(b.uri.text, c.uri.text) {
        lemma_text_lt_transitive(a.uri.text, b.uri.text, c.uri.text);
    }
}

impl Ranked for Location {
    open spec fn before(a: LocationParts, b: LocationParts) -> bool {
        location_before(a, b)
    }

    fn is_before(&self, other: &Location) -> (before: bool) {
        is_location_before(self, other)
    }

    proof fn lemma_asymmetric(a: LocationParts, b: LocationParts) {
        lemma_location_asymmetric(a, b);
    }

    proof fn lemma_not_behind(a: LocationParts, b: LocationParts, c: LocationParts) {
        lemma_location_not_behind(a, b, c);
    }
}

/// The place of an occurrence of a target.
pub open spec fn occurrence_place(
    world: WorldModel,
    files: Seq<SourceFacts>,
    target: TargetParts,
    found: OccurrenceParts,
) -> Option<LocationParts> {
    if found.target == target {
        place_of(world, files, found.span)
    } else {
        None
    }
}

/// The places of the occurrences of a target in a file.
pub open spec fn places_in_file(
    world: WorldModel,
    files: Seq<SourceFacts>,
    target: TargetParts,
    file: u32,
) -> Seq<LocationParts> {
    match facts_numbered(files, file) {
        Some(facts) => filter_map(
            file_occurrences(files, facts),
            |found: OccurrenceParts| occurrence_place(world, files, target, found),
        ),
        None => Seq::empty(),
    }
}

fn locations_in_file(
    world: &WorldState,
    files: &Vec<SourceFacts>,
    target: &ReferenceTarget,
    file: u32,
) -> (found: Vec<Location>)
    ensures
        views(found@) == places_in_file(world@, files@, target@, file),
{
    let mut found: Vec<Location> = Vec::new();
    assert(views(found@) == Seq::<LocationParts>::empty());
    let facts = match file_numbered(files, file) {
        Some(facts) => facts,
        None => return found,
    };
    let occurrences = collect_file_occurrences(files, facts);
    let ghost all = views(occurrences@);
    let ghost g = |found: OccurrenceParts| occurrence_place(world@, files@, target@, found);
    let mut i: usize = 0;
    assert(all.take(0) == Seq::<OccurrenceParts>::empty());
    while i < occurrences.len()
        invariant
            i <= all.len(),
            all == views(occurrences@),
            g == |found: OccurrenceParts| occurrence_place(world@, files@, target@, found),
            views(found@) == filter_map(all.take(i as int), g),
        decreases all.len() - i,
    {
        let ghost before = found@;
        assert(all.take(i + 1).drop_last() == all.take(i as int));
        assert(all.take(i + 1).last() == occurrences@[i as int]@);
        if occurrences[i].target.same(target) {
            if let Some(location) = location_for_span(world, files, occurrences[i].span) {
                let ghost model = location@;
                found.push(location);
                assert(views(found@) == views(before).push(model));
            }
        }
        i += 1;
    }
    assert(all.take(i as int) == all);
    found
}

/// The places of the references to a target.
pub open spec fn reference_places(
    world: WorldModel,
    analysis: Analysis,
    target: TargetParts,
    include_declaration: bool,
) -> Seq<LocationParts> {
    let files = analysis.files@;
    let uses = concat_map(
        searched(world, analysis),
        |file: u32| places_in_file(world, files, target, file),
    );
    let declaration = match declaration_span(files, target) {
        Some(span) => place_of(world, files, span),
        None => None,
    };
    match declaration {
        Some(place) => if include_declaration {
            uses.push(place)
        } else {
            uses
        },
        None => uses,
    }
}

/// The references to a target in order, each once.
pub open spec fn sorted_references(
    world: WorldModel,
    analysis: Analysis,
    target: TargetParts,
    include_declaration: bool,
) -> Seq<LocationParts> {
    distinct::<Location>(reference_places(world, analysis, target, include_declaration))
}

/// Collects all known references to `target` in reachable and open modules.
pub fn collect_reference_locations(
    world: &WorldState,
    analysis: &Analysis,
    target: &ReferenceTarget,
    include_declaration: bool,
) -> (locations: Vec<Location>)
    ensures
        views(locations@) == sorted_references(world@, *analysis, target@, include_declaration),
{
    let files = &analysis.files;
    let modules = reference_search_modules(world, analysis);
    let in_module = |file: &u32| -> (found: Vec<Location>)
        ensures
            views(found@) == places_in_file(world@, files@, target@, *file),
    {
        locations_in_file(world, files, target, *file)
    };
    let mut locations = gather(
        &modules,
        in_module,
        Ghost(|file: u32| places_in_file(world@, files@, target@, file)),
    );
    let ghost uses = locations@;
    if include_declaration {
        if let Some(span) = target_declaration_span(files, target) {
            if let Some(location) = location_for_span(world, files, span) {
                let ghost model = location@;
                locations.push(location);
                assert(views(locations@) == views(uses).push(model));
            }
        }
    }
    rank_distinct(locations)
}

/// Computes all reference locations for the symbol at a source position.
pub fn handle_references(
    world: &WorldState,
    analysis: &Analysis,
    uri: &Url,
    position: Position,
    include_declaration: bool,
) -> (locations: Option<Vec<Location>>)
    ensures
        match target_at(world@, analysis.files@, uri@, position) {
            Some(target) => locations is Some && views(locations->0@) == sorted_references(
                world@,
                *analysis,
                target,
                include_declaration,
            ),
            None => locations is None,
        },
{
    match reference_target_at(world, analysis, uri, position) {
        Some(target) => Some(
            collect_reference_locations(world, analysis, &target, include_declaration),
        ),
        None => None,
    }
}

/// References come strictly in order, so none comes twice, and each is the place of a use or of
/// the declaration. The declaration adds its own place and takes none away.
pub proof fn law_references(world: WorldModel, analysis: Analysis, target: TargetParts)
    ensures
        forall|declaration: bool|
            strictly_ranked::<Location>(
                #[trigger] sorted_references(world, analysis, target, declaration),
            ),
        forall|declaration: bool, place: LocationParts|
            sorted_references(world, analysis, target, declaration).contains(place)
                ==> #[trigger] reference_places(world, analysis, target, declaration).contains(place),
        reference_places(world, analysis, target, false).is_prefix_of(
            reference_places(world, analysis, target, true),
        ),
{
    law_distinct::<Location>(reference_places(world, analysis, target, true));
    law_distinct::<Location>(reference_places(world, analysis, target, false));
}

} // verus!
