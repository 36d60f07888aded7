//! Rename support.
//!
//! A name that an import gives to a selected name or to a module is renamed where it is used, and
//! so is a name that an export gives to a module. Other symbols are renamed where they are
//! spelled by their own names.
use vstd::prelude::*;

use crate::analysis::{
    expr_of, facts_numbered, file_numbered, find_expr, find_pat, known_text, locate_request,
    location_for_span, pat_of, place_of, reference_search_modules, requested, searched,
};
use crate::definition::{find_module_file, module_file};
use crate::hir::{
    Analysis, BodyResolutionMap, ExportKind, ExportedName, ExprEntry, ImportSelector, Item, Module,
    ModuleEnv, PatEntry, PatKind, Resolution, SelectedName, SourceFacts, Span, TypeEntry, TypeRef,
};
use crate::import_edits::{accepts, is_accepted};
use crate::line_index::{byte_at, LineIndexExt};
use crate::protocol::{
    DocumentEdits, Location, LocationParts, Position, Range, TextEdit, WorkspaceEdit,
};
use crate::rank::{distinct, law_distinct, lemma_distinct_stays, rank_distinct, strictly_ranked};
use crate::references::{
    collect_listed_in_file, collect_used_in_file, declaration_span, expr_name, expr_reference,
    find_target_in_file, import_selected_name_resolution, listed_in_file, location_before,
    range_before, selected_resolution, target_declaration_span, target_from_resolution,
    target_in_file, target_of_any, used_in_file, Occurrence, OccurrenceParts, ReferenceTarget, TargetParts,
};
use crate::seqs::{
    any, collect, collect_by_view, concat_map, filter_map, find_map, first, first_seen, gather,
    has_any, join, lemma_find_source, lemma_find_step, or_else, seen, views,
};
use crate::state::{WorldModel, WorldState};
use crate::text::{
    from_chars, lemma_text_lt_irreflexive, lemma_text_lt_transitive, str_eq, text_lt, to_chars,
};
use crate::url::{Url, UrlParts};

verus! {

/// What is renamed.
pub enum RenameTarget {
    /// The name that an import of a file gives to a selected name.
    Alias { file: u32, span: Span, text: String, target: ReferenceTarget },
    /// The name that an import or an export gives to a module.
    Module { span: Span },
    /// Another symbol.
    Symbol(ReferenceTarget),
}

pub enum RenameParts {
    Alias { file: u32, span: Span, text: Seq<char>, target: TargetParts },
    Module { span: Span },
    Symbol(TargetParts),
}

impl View for RenameTarget {
    type V = RenameParts;

    open spec fn view(&self) -> RenameParts {
        match *self {
            RenameTarget::Alias { file, span, text, target } => RenameParts::Alias {
                file,
                span,
                text: text@,
                target: target@,
            },
            RenameTarget::Module { span } => RenameParts::Module { span },
            RenameTarget::Symbol(target) => RenameParts::Symbol(target@),
        }
    }
}

/// What a selected name of an import stands for.
pub open spec fn selected_target(env: ModuleEnv, selected: SelectedName) -> Option<TargetParts> {
    target_of_any(selected_resolution(env, selected))
}

fn find_selected_target(env: &ModuleEnv, selected: &SelectedName) -> (target: Option<
    ReferenceTarget,
>)
    ensures
        seen(target) == selected_target(*env, *selected),
{
    match import_selected_name_resolution(env, selected) {
        Some(resolution) => target_from_resolution(resolution),
        None => None,
    }
}

/// Whether a selected name of an import stands for a target.
pub open spec fn selects_target(env: ModuleEnv, selected: SelectedName, target: TargetParts) -> bool {
    selected_target(env, selected) == Some(target)
}

fn is_selecting(env: &ModuleEnv, selected: &SelectedName, target: &ReferenceTarget) -> (same: bool)
    ensures
        same == selects_target(*env, *selected, target@),
{
    match find_selected_target(env, selected) {
        Some(found) => found.same(target),
        None => false,
    }
}

/// The place at which a selected name is given a name, where that is the one looked for.
pub open spec fn alias_span(
    env: ModuleEnv,
    selected: SelectedName,
    text: Seq<char>,
    target: TargetParts,
) -> Option<Span> {
    match selected.alias {
        Some(alias) => if alias.text@ == text && selects_target(env, selected, target) {
            Some(alias.span)
        } else {
            None
        },
        None => None,
    }
}

/// The selected names of an import.
pub open spec fn selected_names(item: Item) -> Seq<SelectedName> {
    match item {
        Item::Import(import) => match import.selector {
            Some(ImportSelector::Names(names)) => names@,
            _ => Seq::empty(),
        },
        _ => Seq::empty(),
    }
}

fn find_selected_names(item: &Item) -> (names: Option<&Vec<SelectedName>>)
    ensures
        match names {
            Some(names) => names@ == selected_names(*item),
            None => selected_names(*item).len() == 0,
        },
{
    match item {
        Item::Import(import) => match &import.selector {
            Some(ImportSelector::Names(names)) => Some(names),
            _ => None,
        },
        _ => None,
    }
}

/// The place at which a file gives a name to a target.
pub open spec fn alias_named(facts: SourceFacts, text: Seq<char>, target: TargetParts) -> Option<Span> {
    find_map(
        facts.module.items@,
        |item: Item|
            find_map(
                selected_names(item),
                |selected: SelectedName| alias_span(facts.env, selected, text, target),
            ),
    )
}

fn find_alias_named(facts: &SourceFacts, text: &str, target: &ReferenceTarget) -> (span: Option<Span>)
    ensures
        span == alias_named(*facts, text@, target@),
{
    let in_item = |item: &Item| -> (span: Option<Span>)
        ensures
            span == find_map(
                selected_names(*item),
                |selected: SelectedName| alias_span(facts.env, selected, text@, target@),
            ),
    {
        match find_selected_names(item) {
            Some(names) => {
                let in_name = |selected: &SelectedName| -> (span: Option<Span>)
                    ensures
                        span == alias_span(facts.env, *selected, text@, target@),
                {
                    match &selected.alias {
                        Some(alias) => if str_eq(alias.text.as_str(), text) && is_selecting(
                            &facts.env,
                            selected,
                            target,
                        ) {
                            Some(alias.span)
                        } else {
                            None
                        },
                        None => None,
                    }
                };
                first(
                    names,
                    in_name,
                    Ghost(
                        |selected: SelectedName| alias_span(facts.env, selected, text@, target@),
                    ),
                )
            },
            None => None,
        }
    };
    first(
        &facts.module.items,
        in_item,
        Ghost(
            |item: Item|
                find_map(
                    selected_names(item),
                    |selected: SelectedName| alias_span(facts.env, selected, text@, target@),
                ),
        ),
    )
}

/// The name that a selected name is given at an offset.
pub open spec fn declared_alias(facts: SourceFacts, selected: SelectedName, offset: u32) -> Option<
    RenameParts,
> {
    match selected.alias {
        Some(alias) => if alias.span.holds(facts.file, offset) {
            match selected_target(facts.env, selected) {
                Some(target) => Some(
                    RenameParts::Alias {
                        file: facts.file,
                        span: alias.span,
                        text: alias.text@,
                        target,
                    },
                ),
                None => None,
            }
        } else {
            None
        },
        None => None,
    }
}

pub open spec fn declared_alias_in(facts: SourceFacts, item: Item, offset: u32) -> Option<RenameParts> {
    find_map(
        selected_names(item),
        |selected: SelectedName| declared_alias(facts, selected, offset),
    )
}

fn find_declared_alias(facts: &SourceFacts, offset: u32) -> (found: Option<RenameTarget>)
    ensures
        seen(found) == find_map(
            facts.module.items@,
            |item: Item| declared_alias_in(*facts, item, offset),
        ),
{
    let in_item = |item: &Item| -> (found: Option<RenameTarget>)
        ensures
            seen(found) == declared_alias_in(*facts, *item, offset),
    {
        match find_selected_names(item) {
            Some(names) => {
                let in_name = |selected: &SelectedName| -> (found: Option<RenameTarget>)
                    ensures
                        seen(found) == declared_alias(*facts, *selected, offset),
                {
                    match &selected.alias {
                        Some(alias) => if alias.span.contains_offset(facts.file, offset) {
                            match find_selected_target(&facts.env, selected) {
                                Some(target) => Some(
                                    RenameTarget::Alias {
                                        file: facts.file,
                                        span: alias.span,
                                        text: alias.text.clone(),
                                        target,
                                    },
                                ),
                                None => None,
                            }
                        } else {
                            None
                        },
                        None => None,
                    }
                };
                first_seen(
                    names,
                    in_name,
                    Ghost(|selected: SelectedName| declared_alias(*facts, selected, offset)),
                )
            },
            None => None,
        }
    };
    first_seen(
        &facts.module.items,
        in_item,
        Ghost(|item: Item| declared_alias_in(*facts, item, offset)),
    )
}

/// The given name that a name at an offset is.
pub open spec fn used_alias(facts: SourceFacts, found: OccurrenceParts, offset: u32) -> Option<
    RenameParts,
> {
    if found.span.holds(facts.file, offset) {
        match alias_named(facts, found.text, found.target) {
            Some(span) => Some(
                RenameParts::Alias {
                    file: facts.file,
                    span,
                    text: found.text,
                    target: found.target,
                },
            ),
            None => None,
        }
    } else {
        None
    }
}

fn find_used_alias(facts: &SourceFacts, offset: u32) -> (found: Option<RenameTarget>)
    ensures
        seen(found) == find_map(
            used_in_file(*facts),
            |found: OccurrenceParts| used_alias(*facts, found, offset),
        ),
{
    let mut uses = collect_used_in_file(facts);
    let ghost all = views(uses@);
    let ghost g = |found: OccurrenceParts| used_alias(*facts, found, offset);
    let mut i: usize = 0;
    assert(all.take(0) == Seq::<OccurrenceParts>::empty());
    while i < uses.len()
        invariant
            i <= all.len(),
            all == views(uses@),
            all == used_in_file(*facts),
            g == |found: OccurrenceParts| used_alias(*facts, found, offset),
            find_map(all.take(i as int), g) is None,
        decreases all.len() - i,
    {
        proof {
            lemma_find_step(all, g, i as int);
        }
        if uses[i].span.contains_offset(facts.file, offset) {
            if let Some(span) = find_alias_named(facts, uses[i].text.as_str(), &uses[i].target) {
                let found = uses.swap_remove(i);
                return Some(
                    RenameTarget::Alias {
                        file: facts.file,
                        span,
                        text: found.text,
                        target: found.target,
                    },
                );
            }
        }
        i += 1;
    }
    assert(all.take(i as int) == all);
    None
}

/// The place at which an import or an export gives a name to a module.
pub open spec fn module_alias(item: Item) -> Option<Span> {
    match item {
        Item::Import(import) => match import.alias {
            Some(alias) => Some(alias.span),
            None => None,
        },
        Item::Export(export) => match export.kind {
            ExportKind::Module { alias: Some(alias) } => Some(alias.span),
            _ => None,
        },
        _ => None,
    }
}

pub open spec fn module_alias_at(item: Item, file: u32, offset: u32) -> Option<Span> {
    match module_alias(item) {
        Some(span) => if span.holds(file, offset) {
            Some(span)
        } else {
            None
        },
        None => None,
    }
}

pub fn find_module_alias(item: &Item) -> (span: Option<Span>)
    ensures
        span == module_alias(*item),
{
    match item {
        Item::Import(import) => match &import.alias {
            Some(alias) => Some(alias.span),
            None => None,
        },
        Item::Export(export) => match &export.kind {
            ExportKind::Module { alias: Some(alias) } => Some(alias.span),
            _ => None,
        },
        _ => None,
    }
}

/// The place at which an import gives a name to a module.
pub open spec fn import_alias_named(item: Item, name: Seq<char>) -> Option<Span> {
    match item {
        Item::Import(import) => match import.alias {
            Some(alias) => if alias.text@ == name {
                Some(alias.span)
            } else {
                None
            },
            None => None,
        },
        _ => None,
    }
}

/// The place at which an export gives a name to a module.
pub open spec fn export_alias_named(item: Item, name: Seq<char>) -> Option<Span> {
    match item {
        Item::Export(export) => match export.kind {
            ExportKind::Module { alias: Some(alias) } => if alias.text@ == name {
                Some(alias.span)
            } else {
                None
            },
            _ => None,
        },
        _ => None,
    }
}

/// The place at which a module gives a name to another one in an import.
pub open spec fn imported_alias(module: Module, name: Seq<char>) -> Option<Span> {
    find_map(module.items@, |item: Item| import_alias_named(item, name))
}

fn find_imported_alias(module: &Module, name: &str) -> (span: Option<Span>)
    ensures
        span == imported_alias(*module, name@),
{
    let in_item = |item: &Item| -> (span: Option<Span>)
        ensures
            span == import_alias_named(*item, name@),
    {
        match item {
            Item::Import(import) => match &import.alias {
                Some(alias) => if str_eq(alias.text.as_str(), name) {
                    Some(alias.span)
                } else {
                    None
                },
                None => None,
            },
            _ => None,
        }
    };
    first(&module.items, in_item, Ghost(|item: Item| import_alias_named(item, name@)))
}

/// The place at which a module gives a name to another one in an export.
pub open spec fn exported_alias(module: Module, name: Seq<char>) -> Option<Span> {
    find_map(module.items@, |item: Item| export_alias_named(item, name))
}

fn find_exported_alias(module: &Module, name: &str) -> (span: Option<Span>)
    ensures
        span == exported_alias(*module, name@),
{
    let in_item = |item: &Item| -> (span: Option<Span>)
        ensures
            span == export_alias_named(*item, name@),
    {
        match item {
            Item::Export(export) => match &export.kind {
                ExportKind::Module { alias: Some(alias) } => if str_eq(alias.text.as_str(), name) {
                    Some(alias.span)
                } else {
                    None
                },
                _ => None,
            },
            _ => None,
        }
    };
    first(&module.items, in_item, Ghost(|item: Item| export_alias_named(item, name@)))
}

/// The index of the last dot of a name.
pub open spec fn last_dot(name: Seq<char>) -> Option<int>
    decreases name.len(),
{
    if name.len() == 0 {
        None
    } else if name.last() == '.' {
        Some(name.len() - 1)
    } else {
        last_dot(name.drop_last())
    }
}

fn find_last_dot(name: &Vec<char>) -> (found: Option<usize>)
    ensures
        match found {
            Some(i) => last_dot(name@) == Some(i as int) && i < name@.len(),
            None => last_dot(name@) is None,
        },
{
    let mut i: usize = name.len();
    assert(name@.take(i as int) == name@);
    while i > 0
        invariant
            i <= name@.len(),
            last_dot(name@.take(i as int)) == last_dot(name@),
        decreases i,
    {
        i -= 1;
        assert(name@.take(i + 1).drop_last() == name@.take(i as int));
        assert(name@.take(i + 1).last() == name@[i as int]);
        if name[i] == '.' {
            return Some(i);
        }
    }
    None
}

/// The place at which the last part of the name of a module was given: by an import of the file
/// for a name of one part, else by an export of the module that the other parts name.
pub open spec fn alias_of_module(files: Seq<SourceFacts>, facts: SourceFacts, name: Seq<char>) -> Option<
    Span,
> {
    match last_dot(name) {
        None => imported_alias(facts.module, name),
        Some(dot) => match module_file(facts.env, name.take(dot)) {
            Some(file) => match facts_numbered(files, file) {
                Some(other) => exported_alias(other.module, name.skip(dot + 1)),
                None => None,
            },
            None => None,
        },
    }
}

fn find_alias_of_module(files: &Vec<SourceFacts>, facts: &SourceFacts, name: &str) -> (span: Option<
    Span,
>)
    ensures
        span == alias_of_module(files@, *facts, name@),
{
    let chars = to_chars(name);
    let count: usize = chars.len();
    let dot = match find_last_dot(&chars) {
        Some(dot) => dot,
        None => return find_imported_alias(&facts.module, name),
    };
    let front = from_chars(chars.as_slice(), 0, dot);
    let last = from_chars(chars.as_slice(), dot + 1, count);
    assert(front@ == name@.take(dot as int));
    assert(last@ == name@.skip(dot + 1));
    let file = match find_module_file(&facts.env, front.as_str()) {
        Some(file) => file,
        None => return None,
    };
    match file_numbered(files, file) {
        Some(other) => find_exported_alias(&other.module, last.as_str()),
        None => None,
    }
}

/// A name that stands for a module by a name that it was given.
#[derive(Clone, Copy)]
pub struct ModuleUse {
    pub span: Span,
    pub alias: Span,
}

impl View for ModuleUse {
    type V = ModuleUse;

    open spec fn view(&self) -> ModuleUse {
        *self
    }
}

pub open spec fn module_use(span: Span, alias: Option<Span>) -> Option<ModuleUse> {
    match alias {
        Some(alias) => Some(ModuleUse { span, alias }),
        None => None,
    }
}

pub open spec fn expr_module_use(files: Seq<SourceFacts>, facts: SourceFacts, entry: ExprEntry) -> Option<
    ModuleUse,
> {
    match entry.resolution {
        Resolution::Module { name } => match expr_of(facts.module, entry.body, entry.expr) {
            Some(expr) => match expr_name(expr) {
                Some(spelled) => module_use(
                    spelled.span,
                    alias_of_module(files, facts, name@),
                ),
                None => None,
            },
            None => None,
        },
        _ => None,
    }
}

pub open spec fn type_module_use(facts: SourceFacts, entry: TypeEntry) -> Option<ModuleUse> {
    match entry.ty {
        TypeRef::Named { qualifier: Some(qualifier), .. } => module_use(
            qualifier.span,
            imported_alias(facts.module, qualifier.text@),
        ),
        _ => None,
    }
}

pub open spec fn pat_module_use(facts: SourceFacts, entry: PatEntry) -> Option<ModuleUse> {
    match pat_of(facts.module, entry.body, entry.pat) {
        Some(pat) => match pat.kind {
            PatKind::Ctor { qualifiers, .. } => if qualifiers@.len() > 0 {
                module_use(
                    qualifiers@[0].span,
                    imported_alias(facts.module, qualifiers@[0].text@),
                )
            } else {
                None
            },
            _ => None,
        },
        None => None,
    }
}

/// The names in the bodies of a function that stand for modules.
pub open spec fn map_module_uses(files: Seq<SourceFacts>, facts: SourceFacts, map: BodyResolutionMap) -> Seq<
    ModuleUse,
> {
    filter_map(map.exprs@, |entry: ExprEntry| expr_module_use(files, facts, entry)) + filter_map(
        map.pats@,
        |entry: PatEntry| pat_module_use(facts, entry),
    ) + filter_map(map.types@, |entry: TypeEntry| type_module_use(facts, entry))
}

/// The names in a file that stand for modules.
pub open spec fn module_uses(files: Seq<SourceFacts>, facts: SourceFacts) -> Seq<ModuleUse> {
    filter_map(
        facts.resolved.item_facts.types@,
        |entry: TypeEntry| type_module_use(facts, entry),
    ) + concat_map(
        facts.resolved.bodies@,
        |map: BodyResolutionMap| map_module_uses(files, facts, map),
    )
}

fn make_module_use(span: Span, alias: Option<Span>) -> (found: Option<ModuleUse>)
    ensures
        found == module_use(span, alias),
{
    match alias {
        Some(alias) => Some(ModuleUse { span, alias }),
        None => None,
    }
}

fn collect_type_module_uses(facts: &SourceFacts, types: &Vec<TypeEntry>) -> (found: Vec<ModuleUse>)
    ensures
        views(found@) == filter_map(types@, |entry: TypeEntry| type_module_use(*facts, entry)),
{
    let of_type = |entry: &TypeEntry| -> (found: Option<ModuleUse>)
        ensures
            seen(found) == type_module_use(*facts, *entry),
    {
        match &entry.ty {
            TypeRef::Named { qualifier: Some(qualifier), name: _, args: _ } => make_module_use(
                qualifier.span,
                find_imported_alias(&facts.module, qualifier.text.as_str()),
            ),
            _ => None,
        }
    };
    collect(types, of_type, Ghost(|entry: TypeEntry| type_module_use(*facts, entry)))
}

fn collect_map_module_uses(files: &Vec<SourceFacts>, facts: &SourceFacts, map: &BodyResolutionMap) -> (found:
    Vec<ModuleUse>)
    ensures
        views(found@) == map_module_uses(files@, *facts, *map),
{
    let of_expr = |entry: &ExprEntry| -> (found: Option<ModuleUse>)
        ensures
            seen(found) == expr_module_use(files@, *facts, *entry),
    {
        match &entry.resolution {
            Resolution::Module { name } => match find_expr(&facts.module, entry.body, entry.expr) {
                Some(expr) => match expr_reference(expr) {
                    Some(spelled) => make_module_use(
                        spelled.span,
                        find_alias_of_module(files, facts, name.as_str()),
                    ),
                    None => None,
                },
                None => None,
            },
            _ => None,
        }
    };
    let of_pat = |entry: &PatEntry| -> (found: Option<ModuleUse>)
        ensures
            seen(found) == pat_module_use(*facts, *entry),
    {
        match find_pat(&facts.module, entry.body, entry.pat) {
            Some(pat) => match &pat.kind {
                PatKind::Ctor { qualifiers, name: _ } => if qualifiers.len() > 0 {
                    make_module_use(
                        qualifiers[0].span,
                        find_imported_alias(&facts.module, qualifiers[0].text.as_str()),
                    )
                } else {
                    None
                },
                _ => None,
            },
            None => None,
        }
    };
    let in_exprs = collect(
        &map.exprs,
        of_expr,
        Ghost(|entry: ExprEntry| expr_module_use(files@, *facts, entry)),
    );
    let in_pats = collect(&map.pats, of_pat, Ghost(|entry: PatEntry| pat_module_use(*facts, entry)));
    join(join(in_exprs, in_pats), collect_type_module_uses(facts, &map.types))
}

fn collect_module_uses(files: &Vec<SourceFacts>, facts: &SourceFacts) -> (found: Vec<ModuleUse>)
    ensures
        found@ == module_uses(files@, *facts),
{
    let in_types = collect_type_module_uses(facts, &facts.resolved.item_facts.types);
    let of_body = |map: &BodyResolutionMap| -> (found: Vec<ModuleUse>)
        ensures
            views(found@) == map_module_uses(files@, *facts, *map),
    {
        collect_map_module_uses(files, facts, map)
    };
    let in_bodies = gather(
        &facts.resolved.bodies,
        of_body,
        Ghost(|map: BodyResolutionMap| map_module_uses(files@, *facts, map)),
    );
    let found = join(in_types, in_bodies);
    assert(found@ == views(found@));
    found
}

/// The name of a module that was given at an offset or is used there.
pub open spec fn module_alias_under(files: Seq<SourceFacts>, facts: SourceFacts, offset: u32) -> Option<
    Span,
> {
    or_else(
        find_map(
            facts.module.items@,
            |item: Item| module_alias_at(item, facts.file, offset),
        ),
        find_map(
            module_uses(files, facts),
            |used: ModuleUse| alias_used_at(used, facts.file, offset),
        ),
    )
}

pub open spec fn alias_used_at(used: ModuleUse, file: u32, offset: u32) -> Option<Span> {
    if used.span.holds(file, offset) {
        Some(used.alias)
    } else {
        None
    }
}

fn find_module_alias_under(files: &Vec<SourceFacts>, facts: &SourceFacts, offset: u32) -> (span: Option<
    Span,
>)
    ensures
        span == module_alias_under(files@, *facts, offset),
{
    let file = facts.file;
    let declared = |item: &Item| -> (span: Option<Span>)
        ensures
            span == module_alias_at(*item, file, offset),
    {
        match find_module_alias(item) {
            Some(span) => if span.contains_offset(file, offset) {
                Some(span)
            } else {
                None
            },
            None => None,
        }
    };
    let given = first(
        &facts.module.items,
        declared,
        Ghost(|item: Item| module_alias_at(item, file, offset)),
    );
    if given.is_some() {
        return given;
    }
    let uses = collect_module_uses(files, facts);
    let used_at = |used: &ModuleUse| -> (span: Option<Span>)
        ensures
            span == alias_used_at(*used, file, offset),
    {
        if used.span.contains_offset(file, offset) {
            Some(used.alias)
        } else {
            None
        }
    };
    first(&uses, used_at, Ghost(|used: ModuleUse| alias_used_at(used, file, offset)))
}

/// What a rename at an offset of a file renames.
pub open spec fn rename_target_in_file(files: Seq<SourceFacts>, facts: SourceFacts, offset: u32) -> Option<
    RenameParts,
> {
    or_else(
        find_map(facts.module.items@, |item: Item| declared_alias_in(facts, item, offset)),
        or_else(
            find_map(
                used_in_file(facts),
                |found: OccurrenceParts| used_alias(facts, found, offset),
            ),
            match module_alias_under(files, facts, offset) {
                Some(span) => Some(RenameParts::Module { span }),
                None => match target_in_file(files, facts, offset) {
                    Some(target) => Some(RenameParts::Symbol(target)),
                    None => None,
                },
            },
        ),
    )
}

pub fn find_rename_target(files: &Vec<SourceFacts>, facts: &SourceFacts, offset: u32) -> (target: Option<
    RenameTarget,
>)
    ensures
        seen(target) == rename_target_in_file(files@, *facts, offset),
{
    let declared = find_declared_alias(facts, offset);
    if declared.is_some() {
        return declared;
    }
    let used = find_used_alias(facts, offset);
    if used.is_some() {
        return used;
    }
    if let Some(span) = find_module_alias_under(files, facts, offset) {
        return Some(RenameTarget::Module { span });
    }
    match find_target_in_file(files, facts, offset) {
        Some(target) => Some(RenameTarget::Symbol(target)),
        None => None,
    }
}

pub open spec fn lists_name(item: Item, name: Seq<char>) -> bool {
    match item {
        Item::Export(export) => match export.kind {
            ExportKind::List(names) => any(
                names@,
                |exported: ExportedName| exported.name.text@ == name,
            ),
            _ => false,
        },
        _ => false,
    }
}

/// Whether a module exports a name.
pub open spec fn exports_name(module: Module, name: Seq<char>) -> bool {
    any(module.items@, |item: Item| lists_name(item, name))
}

fn is_exporting(module: &Module, name: &str) -> (found: bool)
    ensures
        found == exports_name(*module, name@),
{
    let lists = |item: &Item| -> (lists: bool)
        ensures
            lists == lists_name(*item, name@),
    {
        match item {
            Item::Export(export) => match &export.kind {
                ExportKind::List(names) => {
                    let same = |exported: &ExportedName| -> (same: bool)
                        ensures
                            same == (exported.name.text@ == name@),
                    {
                        str_eq(exported.name.text.as_str(), name)
                    };
                    has_any(
                        names,
                        same,
                        Ghost(|exported: ExportedName| exported.name.text@ == name@),
                    )
                },
                _ => false,
            },
            _ => false,
        }
    };
    has_any(&module.items, lists, Ghost(|item: Item| lists_name(item, name@)))
}

/// Whether a module gives a target another name and exports that.
pub open spec fn passes_on(facts: SourceFacts, selected: SelectedName, target: TargetParts) -> bool {
    selected.alias matches Some(alias) && selects_target(facts.env, selected, target)
        && exports_name(facts.module, alias.text@)
}

pub open spec fn renamed_export(files: Seq<SourceFacts>, file: u32, target: TargetParts) -> bool {
    match facts_numbered(files, file) {
        Some(facts) => any(
            facts.module.items@,
            |item: Item| item_passes_on(facts, item, target),
        ),
        None => false,
    }
}

pub open spec fn item_passes_on(facts: SourceFacts, item: Item, target: TargetParts) -> bool {
    any(selected_names(item), |selected: SelectedName| passes_on(facts, selected, target))
}

fn is_passing_on(facts: &SourceFacts, item: &Item, target: &ReferenceTarget) -> (found: bool)
    ensures
        found == item_passes_on(*facts, *item, target@),
{
    match find_selected_names(item) {
        Some(names) => {
            let passes = |selected: &SelectedName| -> (passes: bool)
                ensures
                    passes == passes_on(*facts, *selected, target@),
            {
                match &selected.alias {
                    Some(alias) => is_selecting(&facts.env, selected, target) && is_exporting(
                        &facts.module,
                        alias.text.as_str(),
                    ),
                    None => false,
                }
            };
            has_any(
                names,
                passes,
                Ghost(|selected: SelectedName| passes_on(*facts, selected, target@)),
            )
        },
        None => false,
    }
}

/// Whether a rename of the spelled names is complete. A given name that is exported, or that a
/// module passes on, has uses that are not spelled like it.
pub open spec fn supports_text_rename(world: WorldModel, analysis: Analysis, target: RenameParts) -> bool {
    match target {
        RenameParts::Alias { file, text, .. } => match facts_numbered(analysis.files@, file) {
            Some(facts) => !exports_name(facts.module, text),
            None => false,
        },
        RenameParts::Module { .. } => true,
        RenameParts::Symbol(target) => !any(
            searched(world, analysis),
            |file: u32| renamed_export(analysis.files@, file, target),
        ),
    }
}

pub fn target_supports_text_rename(world: &WorldState, analysis: &Analysis, target: &RenameTarget) -> (supported:
    bool)
    ensures
        supported == supports_text_rename(world@, *analysis, target@),
{
    match target {
        RenameTarget::Alias { file, span: _, text, target: _ } => match file_numbered(
            &analysis.files,
            *file,
        ) {
            Some(facts) => !is_exporting(&facts.module, text.as_str()),
            None => false,
        },
        RenameTarget::Module { .. } => true,
        RenameTarget::Symbol(target) => {
            let modules = reference_search_modules(world, analysis);
            let renamed = |file: &u32| -> (renamed: bool)
                ensures
                    renamed == renamed_export(analysis.files@, *file, target@),
            {
                match file_numbered(&analysis.files, *file) {
                    Some(facts) => {
                        let passes = |item: &Item| -> (passes: bool)
                            ensures
                                passes == item_passes_on(*facts, *item, target@),
                        {
                            is_passing_on(facts, item, target)
                        };
                        has_any(
                            &facts.module.items,
                            passes,
                            Ghost(|item: Item| item_passes_on(*facts, item, target@)),
                        )
                    },
                    None => false,
                }
            };
            !has_any(
                &modules,
                renamed,
                Ghost(|file: u32| renamed_export(analysis.files@, file, target@)),
            )
        },
    }
}

/// The place of a use of a given name.
pub open spec fn alias_place(
    world: WorldModel,
    files: Seq<SourceFacts>,
    found: OccurrenceParts,
    text: Seq<char>,
    target: TargetParts,
) -> Option<LocationParts> {
    if found.text == text && found.target == target {
        place_of(world, files, found.span)
    } else {
        None
    }
}

/// The place of a name that stands for a target, unless it is a name that the file gives to it.
pub open spec fn symbol_place(
    world: WorldModel,
    files: Seq<SourceFacts>,
    facts: SourceFacts,
    found: OccurrenceParts,
    target: TargetParts,
) -> Option<LocationParts> {
    if found.target == target && alias_named(facts, found.text, found.target) is None {
        place_of(world, files, found.span)
    } else {
        None
    }
}

pub open spec fn listed_place(
    world: WorldModel,
    files: Seq<SourceFacts>,
    found: OccurrenceParts,
    target: TargetParts,
) -> Option<LocationParts> {
    if found.target == target {
        place_of(world, files, found.span)
    } else {
        None
    }
}

pub open spec fn module_use_place(
    world: WorldModel,
    files: Seq<SourceFacts>,
    used: ModuleUse,
    alias: Span,
) -> Option<LocationParts> {
    if used.alias == alias {
        place_of(world, files, used.span)
    } else {
        None
    }
}

/// The places in a file at which a target is spelled by its name.
pub open spec fn rename_places_in_file(
    world: WorldModel,
    files: Seq<SourceFacts>,
    target: RenameParts,
    file: u32,
) -> Seq<LocationParts> {
    match facts_numbered(files, file) {
        Some(facts) => match target {
            RenameParts::Alias { file: own, text, target, .. } => if own == file {
                filter_map(
                    used_in_file(facts),
                    |found: OccurrenceParts| alias_place(world, files, found, text, target),
                )
            } else {
                Seq::empty()
            },
            RenameParts::Module { span } => filter_map(
                module_uses(files, facts),
                |used: ModuleUse| module_use_place(world, files, used, span),
            ),
            RenameParts::Symbol(target) => filter_map(
                listed_in_file(files, facts),
                |found: OccurrenceParts| listed_place(world, files, found, target),
            ) + filter_map(
                used_in_file(facts),
                |found: OccurrenceParts| symbol_place(world, files, facts, found, target),
            ),
        },
        None => Seq::empty(),
    }
}

fn rename_locations_in_file(
    world: &WorldState,
    files: &Vec<SourceFacts>,
    target: &RenameTarget,
    file: u32,
) -> (found: Vec<Location>)
    ensures
        views(found@) == rename_places_in_file(world@, files@, target@, file),
{
    let none: Vec<Location> = Vec::new();
    assert(views(none@) == Seq::<LocationParts>::empty());
    let facts = match file_numbered(files, file) {
        Some(facts) => facts,
        None => return none,
    };
    match target {
        RenameTarget::Alias { file: own, span: _, text, target } => {
            if *own != file {
                return none;
            }
            let uses = collect_used_in_file(facts);
            let place = |found: &Occurrence| -> (location: Option<Location>)
                ensures
                    seen(location) == alias_place(world@, files@, found@, text@, target@),
            {
                if str_eq(found.text.as_str(), text.as_str()) && found.target.same(target) {
                    location_for_span(world, files, found.span)
                } else {
                    None
                }
            };
            collect_by_view(
                &uses,
                place,
                Ghost(
                    |found: OccurrenceParts| alias_place(world@, files@, found, text@, target@),
                ),
            )
        },
        RenameTarget::Module { span } => {
            let uses = collect_module_uses(files, facts);
            let alias = *span;
            let place = |used: &ModuleUse| -> (location: Option<Location>)
                ensures
                    seen(location) == module_use_place(world@, files@, *used, alias),
            {
                if used.alias == alias {
                    location_for_span(world, files, used.span)
                } else {
                    None
                }
            };
            collect(
                &uses,
                place,
                Ghost(|used: ModuleUse| module_use_place(world@, files@, used, alias)),
            )
        },
        RenameTarget::Symbol(target) => {
            let listed = collect_listed_in_file(files, facts);
            let listed_at = |found: &Occurrence| -> (location: Option<Location>)
                ensures
                    seen(location) == listed_place(world@, files@, found@, target@),
            {
                if found.target.same(target) {
                    location_for_span(world, files, found.span)
                } else {
                    None
                }
            };
            let in_lists = collect_by_view(
                &listed,
                listed_at,
                Ghost(|found: OccurrenceParts| listed_place(world@, files@, found, target@)),
            );
            let uses = collect_used_in_file(facts);
            let used_at = |found: &Occurrence| -> (location: Option<Location>)
                ensures
                    seen(location) == symbol_place(world@, files@, *facts, found@, target@),
            {
                if found.target.same(target) && find_alias_named(
                    facts,
                    found.text.as_str(),
                    &found.target,
                ).is_none() {
                    location_for_span(world, files, found.span)
                } else {
                    None
                }
            };
            let in_uses = collect_by_view(
                &uses,
                used_at,
                Ghost(
                    |found: OccurrenceParts|
                        symbol_place(world@, files@, *facts, found, target@),
                ),
            );
            join(in_lists, in_uses)
        },
    }
}

/// The place at which a target is declared.
pub open spec fn rename_declaration(files: Seq<SourceFacts>, target: RenameParts) -> Option<Span> {
    match target {
        RenameParts::Alias { span, .. } => Some(span),
        RenameParts::Module { span } => Some(span),
        RenameParts::Symbol(target) => declaration_span(files, target),
    }
}

/// The places that a rename edits.
pub open spec fn rename_places(world: WorldModel, analysis: Analysis, target: RenameParts) -> Seq<
    LocationParts,
> {
    let files = analysis.files@;
    let uses = concat_map(
        searched(world, analysis),
        |file: u32| rename_places_in_file(world, files, target, file),
    );
    let declaration = match rename_declaration(files, target) {
        Some(span) => place_of(world, files, span),
        None => None,
    };
    distinct::<Location>(
        match declaration {
            Some(place) => uses.push(place),
            None => uses,
        },
    )
}

/// Whether all of some places are in known documents.
pub open spec fn all_known(world: WorldModel, places: Seq<LocationParts>) -> bool {
    forall|i: int| 0 <= i < places.len() ==> known_text(world, (#[trigger] places[i]).uri) is Some
}

/// The places that a rename edits, none where one of them cannot be edited.
pub open spec fn editable_places(world: WorldModel, analysis: Analysis, target: RenameParts) -> Option<
    Seq<LocationParts>,
> {
    let places = rename_places(world, analysis, target);
    if places.len() > 0 && all_known(world, places) {
        Some(places)
    } else {
        None
    }
}

fn editable_reference_locations(world: &WorldState, analysis: &Analysis, target: &RenameTarget) -> (found:
    Option<Vec<Location>>)
    ensures
        match found {
            Some(locations) => editable_places(world@, *analysis, target@) == Some(
                views(locations@),
            ),
            None => editable_places(world@, *analysis, target@) is None,
        },
{
    let files = &analysis.files;
    let modules = reference_search_modules(world, analysis);
    let in_module = |file: &u32| -> (found: Vec<Location>)
        ensures
            views(found@) == rename_places_in_file(world@, files@, target@, *file),
    {
        rename_locations_in_file(world, files, target, *file)
    };
    let mut found = gather(
        &modules,
        in_module,
        Ghost(|file: u32| rename_places_in_file(world@, files@, target@, file)),
    );
    let ghost uses = found@;
    let declaration = match target {
        RenameTarget::Alias { file: _, span, text: _, target: _ } => Some(*span),
        RenameTarget::Module { span } => Some(*span),
        RenameTarget::Symbol(target) => target_declaration_span(files, target),
    };
    if let Some(span) = declaration {
        if let Some(location) = location_for_span(world, files, span) {
            let ghost model = location@;
            found.push(location);
            assert(views(found@) == views(uses).push(model));
        }
    }
    let locations = rank_distinct(found);
    let ghost places = views(locations@);
    if locations.len() == 0 {
        return None;
    }
    let mut i: usize = 0;
    while i < locations.len()
        invariant
            i <= locations@.len(),
            places == views(locations@),
            places == rename_places(world@, *analysis, target@),
            forall|k: int| 0 <= k < i ==> known_text(world@, (#[trigger] places[k]).uri) is Some,
        decreases locations@.len() - i,
    {
        if world.line_index(&locations[i].uri).is_none() {
            assert(known_text(world@, places[i as int].uri) is None);
            assert(!all_known(world@, places));
            return None;
        }
        i += 1;
    }
    Some(locations)
}

pub open spec fn position_before(a: Position, b: Position) -> bool {
    a.line < b.line || (a.line == b.line && a.character < b.character)
}

/// Whether a range begins before the end of the one in front of it in the same document.
pub open spec fn overlap_at(places: Seq<LocationParts>, i: int) -> bool {
    places[i].uri.text == places[i + 1].uri.text && position_before(
        places[i + 1].range.start,
        places[i].range.end,
    )
}

pub open spec fn overlapping(places: Seq<LocationParts>) -> bool {
    exists|i: int| 0 <= i < places.len() - 1 && #[trigger] overlap_at(places, i)
}

fn ranges_overlap(locations: &Vec<Location>) -> (overlap: bool)
    ensures
        overlap == overlapping(views(locations@)),
{
    let ghost places = views(locations@);
    let mut i: usize = 1;
    while i < locations.len()
        invariant
            1 <= i,
            places == views(locations@),
            i <= places.len() || places.len() == 0,
            forall|k: int| 0 <= k < i - 1 ==> !#[trigger] overlap_at(places, k),
        decreases locations@.len() - i,
    {
        let next = &locations[i];
        let last = &locations[i - 1];
        let start = next.range.start;
        let end = last.range.end;
        if last.uri.same(&next.uri) && (start.line < end.line || (start.line == end.line
            && start.character < end.character)) {
            assert(overlap_at(places, i - 1));
            return true;
        }
        assert(!overlap_at(places, i - 1));
        i += 1;
    }
    false
}

/// The edits of a document.
pub struct EditedParts {
    pub uri: UrlParts,
    pub ranges: Seq<Range>,
}

/// Places that come in order of their documents, by document.
pub open spec fn by_document(places: Seq<LocationParts>) -> Seq<EditedParts>
    decreases places.len(),
{
    if places.len() == 0 {
        Seq::empty()
    } else {
        let groups = by_document(places.drop_last());
        let place = places.last();
        if groups.len() > 0 && groups.last().uri.text == place.uri.text {
            groups.drop_last().push(
                EditedParts {
                    uri: groups.last().uri,
                    ranges: groups.last().ranges.push(place.range),
                },
            )
        } else {
            groups.push(EditedParts { uri: place.uri, ranges: seq![place.range] })
        }
    }
}

/// Whether some edits put a text in place of some ranges.
pub open spec fn replaces(edits: Seq<TextEdit>, ranges: Seq<Range>, text: Seq<char>) -> bool {
    edits.len() == ranges.len() && forall|i: int|
        0 <= i < edits.len() ==> (#[trigger] edits[i]).range == ranges[i] && edits[i].new_text@
            == text
}

/// Whether the edits of some documents put a text in place of some ranges.
pub open spec fn renames(changes: Seq<DocumentEdits>, groups: Seq<EditedParts>, text: Seq<char>) -> bool {
    changes.len() == groups.len() && forall|i: int|
        0 <= i < changes.len() ==> (#[trigger] changes[i]).uri@ == groups[i].uri && replaces(
            changes[i].edits@,
            groups[i].ranges,
            text,
        )
}

/// Groups the edits that put a name in place of some locations by document. A location that
/// occurs twice is edited once; locations that overlap are refused.
fn text_edits_by_uri(locations: Vec<Location>, new_name: &str) -> (found: Option<Vec<DocumentEdits>>)
    ensures
        ({
            let places = distinct::<Location>(views(locations@));
            match found {
                Some(changes) => !overlapping(places) && renames(
                    changes@,
                    by_document(places),
                    new_name@,
                ),
                None => overlapping(places),
            }
        }),
{
    let locations = rank_distinct(locations);
    if ranges_overlap(&locations) {
        return None;
    }
    let ghost places = views(locations@);
    let mut changes: Vec<DocumentEdits> = Vec::new();
    let mut i: usize = 0;
    assert(places.take(0) == Seq::<LocationParts>::empty());
    while i < locations.len()
        invariant
            i <= places.len(),
            places == views(locations@),
            renames(changes@, by_document(places.take(i as int)), new_name@),
        decreases places.len() - i,
    {
        let ghost groups = by_document(places.take(i as int));
        let ghost before = changes@;
        assert(places.take(i + 1).drop_last() == places.take(i as int));
        assert(places.take(i + 1).last() == locations@[i as int]@);
        let location = &locations[i];
        let edit = TextEdit { range: location.range, new_text: new_name.to_owned() };
        let count = changes.len();
        if count > 0 && changes[count - 1].uri.same(&location.uri) {
            assert(changes@[count - 1].uri@ == groups[count - 1].uri);
            if let Some(last) = changes.pop() {
                let mut edits = last.edits;
                let ghost sofar = edits@;
                edits.push(edit);
                changes.push(DocumentEdits { uri: last.uri, edits });
                let ghost group = by_document(places.take(i + 1)).last();
                assert(replaces(sofar, groups.last().ranges, new_name@));
                assert(replaces(edits@, group.ranges, new_name@));
                assert forall|k: int| 0 <= k < changes@.len() implies (
                #[trigger] changes@[k]).uri@ == by_document(places.take(i + 1))[k].uri && replaces(
                    changes@[k].edits@,
                    by_document(places.take(i + 1))[k].ranges,
                    new_name@,
                ) by {
                    if k < count - 1 {
                        assert(changes@[k] == before[k]);
                    }
                }
            }
        } else {
            let mut edits: Vec<TextEdit> = Vec::new();
            edits.push(edit);
            changes.push(DocumentEdits { uri: location.uri.clone(), edits });
            if count > 0 {
                assert(before[count - 1].uri@ == groups[count - 1].uri);
            }
            assert(replaces(edits@, seq![location.range], new_name@));
            assert forall|k: int| 0 <= k < changes@.len() implies (#[trigger] changes@[k]).uri@
                == by_document(places.take(i + 1))[k].uri && replaces(
                changes@[k].edits@,
                by_document(places.take(i + 1))[k].ranges,
                new_name@,
            ) by {
                if k < count {
                    assert(changes@[k] == before[k]);
                }
            }
        }
        i += 1;
    }
    assert(places.take(i as int) == places);
    Some(changes)
}

/// The places that a rename at a position edits.
pub open spec fn rename_at(
    world: WorldModel,
    analysis: Analysis,
    uri: UrlParts,
    position: Position,
) -> Option<Seq<LocationParts>> {
    match requested(world, analysis.files@, uri, position) {
        Some((facts, offset)) => match rename_target_in_file(analysis.files@, facts, offset) {
            Some(target) => if supports_text_rename(world, analysis, target) {
                editable_places(world, analysis, target)
            } else {
                None
            },
            None => None,
        },
        None => None,
    }
}

fn find_rename(world: &WorldState, analysis: &Analysis, uri: &Url, position: Position) -> (found: Option<
    Vec<Location>,
>)
    ensures
        match found {
            Some(locations) => rename_at(world@, *analysis, uri@, position) == Some(
                views(locations@),
            ),
            None => rename_at(world@, *analysis, uri@, position) is None,
        },
{
    let (facts, offset) = match locate_request(world, &analysis.files, uri, position) {
        Some(found) => found,
        None => return None,
    };
    let target = match find_rename_target(&analysis.files, facts, offset) {
        Some(target) => target,
        None => return None,
    };
    if !target_supports_text_rename(world, analysis, &target) {
        return None;
    }
    editable_reference_locations(world, analysis, &target)
}

/// Whether a place is in a document and holds an offset of its text.
pub open spec fn covers(place: LocationParts, uri: UrlParts, text: Seq<char>, offset: u32) -> bool {
    place.uri.text == uri.text && match (
        byte_at(text, place.range.start),
        byte_at(text, place.range.end),
    ) {
        (Some(start), Some(end)) => start <= offset < end,
        _ => false,
    }
}

pub open spec fn covering_range(place: LocationParts, uri: UrlParts, text: Seq<char>, offset: u32) -> Option<
    Range,
> {
    if covers(place, uri, text, offset) {
        Some(place.range)
    } else {
        None
    }
}

fn location_contains_offset(index: &LineIndexExt, location: &Location, uri: &Url, offset: u32) -> (inside:
    bool)
    ensures
        inside == covers(location@, uri@, index@, offset),
{
    if !location.uri.same(uri) {
        return false;
    }
    match (
        index.position_to_byte(location.range.start),
        index.position_to_byte(location.range.end),
    ) {
        (Some(start), Some(end)) => start <= offset && offset < end,
        _ => false,
    }
}

fn find_covering(locations: &Vec<Location>, index: &LineIndexExt, uri: &Url, offset: u32) -> (range: Option<
    Range,
>)
    ensures
        range == find_map(
            views(locations@),
            |place: LocationParts| covering_range(place, uri@, index@, offset),
        ),
{
    let ghost places = views(locations@);
    let ghost g = |place: LocationParts| covering_range(place, uri@, index@, offset);
    let mut i: usize = 0;
    assert(places.take(0) == Seq::<LocationParts>::empty());
    while i < locations.len()
        invariant
            i <= places.len(),
            places == views(locations@),
            g == |place: LocationParts| covering_range(place, uri@, index@, offset),
            find_map(places.take(i as int), g) is None,
        decreases places.len() - i,
    {
        proof {
            lemma_find_step(places, g, i as int);
        }
        if location_contains_offset(index, &locations[i], uri, offset) {
            assert(find_map(places, g) == Some(locations@[i as int].range));
            return Some(locations[i].range);
        }
        i += 1;
    }
    assert(places.take(i as int) == places);
    None
}

/// The range that a rename at a position offers.
pub open spec fn prepared_range(
    world: WorldModel,
    analysis: Analysis,
    uri: UrlParts,
    position: Position,
) -> Option<Range> {
    match (rename_at(world, analysis, uri, position), known_text(world, uri)) {
        (Some(places), Some(text)) => match byte_at(text, position) {
            Some(offset) => find_map(
                places,
                |place: LocationParts| covering_range(place, uri, text, offset),
            ),
            None => None,
        },
        _ => None,
    }
}

/// Computes the rename range for the user symbol at a source position.
pub fn handle_prepare_rename(
    world: &WorldState,
    analysis: &Analysis,
    uri: &Url,
    position: Position,
) -> (range: Option<Range>)
    ensures
        range == prepared_range(world@, *analysis, uri@, position),
{
    let locations = match find_rename(world, analysis, uri, position) {
        Some(locations) => locations,
        None => return None,
    };
    let index = match world.line_index(uri) {
        Some(index) => index,
        None => return None,
    };
    let offset = match index.position_to_byte(position) {
        Some(offset) => offset,
        None => return None,
    };
    find_covering(&locations, index, uri, offset)
}

/// Computes a workspace edit that renames the user symbol at a source position.
///
/// The new name has to be one of the words that the front end accepts as identifiers. Edits that
/// overlap are refused.
pub fn handle_rename(
    world: &WorldState,
    analysis: &Analysis,
    uri: &Url,
    position: Position,
    new_name: &str,
    identifiers: &[String],
) -> (edit: Option<WorkspaceEdit>)
    ensures
        match rename_at(world@, *analysis, uri@, position) {
            Some(places) => if accepts(identifiers@, new_name@) && !overlapping(places) {
                edit is Some && renames(edit->0.changes@, by_document(places), new_name@)
            } else {
                edit is None
            },
            None => edit is None,
        },
{
    if !is_accepted(identifiers, new_name) {
        return None;
    }
    let locations = match find_rename(world, analysis, uri, position) {
        Some(locations) => locations,
        None => return None,
    };
    proof {
        law_rename_places(world@, *analysis, uri@, position);
        lemma_distinct_stays::<Location>(views(locations@));
    }
    match text_edits_by_uri(locations, new_name) {
        Some(changes) => Some(WorkspaceEdit { changes }),
        None => None,
    }
}

/// The places that a rename edits come strictly in order, so that none is edited twice, and all
/// are in known documents.
pub proof fn law_rename_places(world: WorldModel, analysis: Analysis, uri: UrlParts, position: Position)
    ensures
        rename_at(world, analysis, uri, position) matches Some(places) ==> strictly_ranked::<
            Location,
        >(places) && all_known(world, places) && places.len() > 0,
{
    if let Some((facts, offset)) = requested(world, analysis.files@, uri, position) {
        if let Some(target) = rename_target_in_file(analysis.files@, facts, offset) {
            let files = analysis.files@;
            let uses = concat_map(
                searched(world, analysis),
                |file: u32| rename_places_in_file(world, files, target, file),
            );
            let declaration = match rename_declaration(files, target) {
                Some(span) => place_of(world, files, span),
                None => None,
            };
            law_distinct::<Location>(
                match declaration {
                    Some(place) => uses.push(place),
                    None => uses,
                },
            );
        }
    }
}

/// The range that a rename offers is one of the places that it edits, in the document that was
/// asked about, and covers the position.
pub proof fn law_prepared_is_renamed(
    world: WorldModel,
    analysis: Analysis,
    uri: UrlParts,
    position: Position,
)
    ensures
        prepared_range(world, analysis, uri, position) matches Some(range) ==> {
            &&& rename_at(world, analysis, uri, position) matches Some(places)
            &&& known_text(world, uri) matches Some(text)
            &&& byte_at(text, position) matches Some(offset)
            &&& exists|i: int|
                0 <= i < places.len() && (#[trigger] places[i]).range == range && covers(
                    places[i],
                    uri,
                    text,
                    offset,
                )
        },
{
    if prepared_range(world, analysis, uri, position) is Some {
        let places = rename_at(world, analysis, uri, position)->0;
        let text = known_text(world, uri)->0;
        let offset = byte_at(text, position)->0;
        let i = lemma_find_source(
            places,
            |place: LocationParts| covering_range(place, uri, text, offset),
        );
        assert(covers(places[i], uri, text, offset));
    }
}

/// Whether one of the ranges of some groups of edits is a place.
pub open spec fn is_edited(groups: Seq<EditedParts>, place: LocationParts) -> bool {
    exists|g: int, k: int|
        0 <= g < groups.len() && 0 <= k < groups[g].ranges.len() && groups[g].uri.text
            == place.uri.text && #[trigger] groups[g].ranges[k] == place.range
}

/// Whether some ranges come strictly in order, each at or behind the end of the one in front of
/// it.
pub open spec fn ranges_apart(ranges: Seq<Range>) -> bool {
    forall|k: int|
        #![trigger ranges[k]]
        0 < k < ranges.len() ==> range_before(ranges[k - 1], ranges[k]) && !position_before(
            ranges[k].start,
            ranges[k - 1].end,
        )
}

/// Whether a range of a document is one of some places.
pub open spec fn is_place(places: Seq<LocationParts>, text: Seq<char>, range: Range) -> bool {
    exists|i: int|
        0 <= i < places.len() && (#[trigger] places[i]).uri.text == text && places[i].range == range
}

/// Whether groups of edits name each document once, in order.
pub open spec fn documents_ordered(groups: Seq<EditedParts>) -> bool {
    forall|g: int, h: int|
        0 <= g < h < groups.len() ==> text_lt(
            (#[trigger] groups[g]).uri.text,
            (#[trigger] groups[h]).uri.text,
        )
}

/// Whether each group of edits has ranges, which are apart.
pub open spec fn groups_apart(groups: Seq<EditedParts>) -> bool {
    forall|g: int|
        0 <= g < groups.len() ==> (#[trigger] groups[g]).ranges.len() > 0 && ranges_apart(
            groups[g].ranges,
        )
}

/// Edits by document name each document once, in order. They hold each of the places and no
/// other. In a document the ranges come strictly in order, each at or behind the end of the one
/// in front of it.
pub proof fn law_edits_by_document(places: Seq<LocationParts>)
    requires
        strictly_ranked::<Location>(places),
        !overlapping(places),
    ensures
        documents_ordered(by_document(places)),
        groups_apart(by_document(places)),
        forall|i: int|
            0 <= i < places.len() ==> is_edited(by_document(places), #[trigger] places[i]),
        forall|g: int, k: int|
            0 <= g < by_document(places).len() && 0 <= k < by_document(places)[g].ranges.len()
                ==> is_place(
                places,
                by_document(places)[g].uri.text,
                #[trigger] by_document(places)[g].ranges[k],
            ),
    decreases places.len(),
{
    if places.len() > 0 {
        let init = places.drop_last();
        lemma_places_front(places);
        law_edits_by_document(init);
        lemma_last_group(init);
        lemma_documents_ordered(places);
        lemma_groups_apart(places);
        lemma_all_edited(places);
        lemma_only_places(places);
    }
}

proof fn lemma_places_front(places: Seq<LocationParts>)
    requires
        places.len() > 0,
        strictly_ranked::<Location>(places),
        !overlapping(places),
    ensures
        strictly_ranked::<Location>(places.drop_last()),
        !overlapping(places.drop_last()),
        places.len() > 1 ==> location_before(places.drop_last().last(), places.last())
            && !overlap_at(places, places.len() - 2),
{
    let init = places.drop_last();
    assert forall|i: int, j: int| 0 <= i < j < init.len() implies location_before(
        #[trigger] init[i],
        #[trigger] init[j],
    ) by {
        assert(places[i] == init[i] && places[j] == init[j]);
    }
    assert forall|i: int| 0 <= i < init.len() - 1 implies !#[trigger] overlap_at(init, i) by {
        assert(!overlap_at(places, i));
    }
    if places.len() > 1 {
        assert(location_before(places[places.len() - 2], places[places.len() - 1]));
    }
}

/// The last group ends in the last place.
proof fn lemma_last_group(places: Seq<LocationParts>)
    ensures
        places.len() > 0 ==> by_document(places).len() > 0 && by_document(places).last().uri.text
            == places.last().uri.text && by_document(places).last().ranges.len() > 0
            && by_document(places).last().ranges.last() == places.last().range,
        places.len() == 0 ==> by_document(places).len() == 0,
{
}

proof fn lemma_documents_ordered(places: Seq<LocationParts>)
    requires
        places.len() > 0,
        documents_ordered(by_document(places.drop_last())),
        places.len() > 1 ==> location_before(places.drop_last().last(), places.last()),
    ensures
        documents_ordered(by_document(places)),
{
    let groups = by_document(places);
    let front = by_document(places.drop_last());
    let place = places.last();
    lemma_last_group(places.drop_last());
    assert forall|g: int, h: int| 0 <= g < h < groups.len() implies text_lt(
        (#[trigger] groups[g]).uri.text,
        (#[trigger] groups[h]).uri.text,
    ) by {
        assert(groups[g] == front[g]);
        if h < front.len() {
            assert(groups[h].uri == front[h].uri);
            assert(text_lt(front[g].uri.text, front[h].uri.text));
        } else if g < front.len() - 1 {
            assert(text_lt(front[g].uri.text, front[front.len() - 1].uri.text));
            lemma_text_lt_transitive(front[g].uri.text, front.last().uri.text, place.uri.text);
        }
    }
}

proof fn lemma_groups_apart(places: Seq<LocationParts>)
    requires
        places.len() > 0,
        groups_apart(by_document(places.drop_last())),
        places.len() > 1 ==> location_before(places.drop_last().last(), places.last())
            && !overlap_at(places, places.len() - 2),
    ensures
        groups_apart(by_document(places)),
{
    let groups = by_document(places);
    let front = by_document(places.drop_last());
    let place = places.last();
    lemma_last_group(places.drop_last());
    lemma_text_lt_irreflexive(place.uri.text);
    assert forall|g: int| 0 <= g < groups.len() implies (#[trigger] groups[g]).ranges.len() > 0
        && ranges_apart(groups[g].ranges) by {
        if g < groups.len() - 1 {
            assert(groups[g] == front[g]);
        } else if g < front.len() {
            let sofar = front[g].ranges;
            let all = groups[g].ranges;
            assert(ranges_apart(sofar));
            assert(all == sofar.push(place.range));
            assert forall|k: int|
                #![trigger all[k]]
                0 < k < all.len() implies range_before(all[k - 1], all[k]) && !position_before(
                all[k].start,
                all[k - 1].end,
            ) by {
                if k < sofar.len() {
                    assert(all[k] == sofar[k] && all[k - 1] == sofar[k - 1]);
                } else {
                    assert(all[k - 1] == places[places.len() - 2].range);
                }
            }
        }
    }
}

proof fn lemma_all_edited(places: Seq<LocationParts>)
    requires
        places.len() > 0,
        forall|i: int|
            0 <= i < places.len() - 1 ==> is_edited(
                by_document(places.drop_last()),
                #[trigger] places.drop_last()[i],
            ),
    ensures
        forall|i: int|
            0 <= i < places.len() ==> is_edited(by_document(places), #[trigger] places[i]),
{
    let groups = by_document(places);
    let front = by_document(places.drop_last());
    lemma_last_group(places);
    assert forall|i: int| 0 <= i < places.len() implies is_edited(groups, #[trigger] places[i]) by {
        if i < places.len() - 1 {
            assert(places.drop_last()[i] == places[i]);
            let (g, k) = choose|g: int, k: int|
                0 <= g < front.len() && 0 <= k < front[g].ranges.len() && front[g].uri.text
                    == places[i].uri.text && #[trigger] front[g].ranges[k] == places[i].range;
            assert(groups[g].ranges[k] == places[i].range);
        } else {
            let last = groups[groups.len() - 1];
            assert(last.ranges[last.ranges.len() - 1] == places[i].range);
            assert(groups[groups.len() - 1].ranges[last.ranges.len() - 1] == places[i].range);
        }
    }
}

proof fn lemma_only_places(places: Seq<LocationParts>)
    requires
        places.len() > 0,
        forall|g: int, k: int|
            0 <= g < by_document(places.drop_last()).len() && 0 <= k < by_document(
                places.drop_last(),
            )[g].ranges.len() ==> is_place(
                places.drop_last(),
                by_document(places.drop_last())[g].uri.text,
                #[trigger] by_document(places.drop_last())[g].ranges[k],
            ),
    ensures
        forall|g: int, k: int|
            0 <= g < by_document(places).len() && 0 <= k < by_document(places)[g].ranges.len()
                ==> is_place(
                places,
                by_document(places)[g].uri.text,
                #[trigger] by_document(places)[g].ranges[k],
            ),
{
    let groups = by_document(places);
    let init = places.drop_last();
    let front = by_document(init);
    lemma_last_group(places);
    assert forall|g: int, k: int|
        0 <= g < groups.len() && 0 <= k < groups[g].ranges.len() implies is_place(
        places,
        groups[g].uri.text,
        #[trigger] groups[g].ranges[k],
    ) by {
        if g == groups.len() - 1 && k == groups[g].ranges.len() - 1 {
            assert(places[places.len() - 1].range == groups[g].ranges[k]);
        } else {
            assert(front[g].ranges[k] == groups[g].ranges[k]);
            assert(is_place(init, front[g].uri.text, front[g].ranges[k]));
            let i = choose|i: int|
                0 <= i < init.len() && (#[trigger] init[i]).uri.text == front[g].uri.text
                    && init[i].range == front[g].ranges[k];
            assert(places[i] == init[i]);
        }
    }
}

} // verus!
