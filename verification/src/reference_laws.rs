//! What holds of the places that a symbol is found at, and of those that a rename edits.
use vstd::prelude::*;

use crate::analysis::{
    expr_of, facts_numbered, known_text, module_facts, module_numbers, pat_of, place_of, searched, with_files,
};
use crate::declarations::{
    ctor_span, def_span, field_span, let_span, method_span, param_name_span_of, pattern_span,
    type_var_span,
};
use crate::hir::{
    Analysis, BodyResolutionMap, Expr, ExprEntry, ExprKind, ExportKind, ExportedName, ImportSelector,
    Item, LocalBinding, Module, ModuleEnv, Name, Namespace, Pat, PatEntry, PatKind, PredEntry,
    Resolution, SelectedName, SourceFacts, Span, TypeEntry, TypeRef,
};
use crate::line_index::byte_at;
use crate::protocol::{Location, LocationParts, Position};
use crate::rank::{distinct, has_place, law_distinct, share_place};
use crate::references::{
    ctor_occurrence, ctor_target, declaration_span, declared, expr_name, expr_occurrence, exported_occurrences,
    exported_resolution, file_occurrences, import_export_occurrences, imported, listed_in_file,
    listed_occurrences, local_name, map_occurrences, occurrence, occurrence_place, pat_occurrence,
    places_in_file, pred_occurrence, reference_places, selected_occurrences, selected_resolution,
    sorted_references, spelled_name, target_in_file, target_of, target_of_any, type_occurrence, type_occurrences,
    used_in_file, OccurrenceParts, TargetParts,
};
use crate::rename::{
    alias_named, alias_of_module, alias_place, alias_span, covering_range, covers, declared_alias, declared_alias_in,
    exports_name, expr_module_use, import_alias_named, imported_alias, item_passes_on, listed_place, map_module_uses,
    module_alias_under, module_use_place, module_uses, pat_module_use, passes_on, prepared_range, rename_at, rename_declaration,
    rename_places, rename_places_in_file, rename_target_in_file, renamed_export, selected_names,
    supports_text_rename, symbol_place, type_module_use, used_alias, ModuleUse, RenameParts,
};
use crate::seqs::{
    any, concat_map, filter_map, find_map, law_concat_map, law_filter_map, law_find_map, law_joined,
    lemma_find_source,
};
use crate::state::{document_urls, sorted_urls, WorldModel};
use crate::text::lemma_text_lt_total;
use crate::url::UrlParts;
use crate::world_laws::law_sorted_urls;

verus! {

/// Whether a resolution stands for a target. What the program does not declare stands for none.
pub open spec fn denotes(resolution: Resolution, target: TargetParts) -> bool {
    match target {
        TargetParts::Def(def) => resolution matches Resolution::Def { def: own, .. } && own == def,
        TargetParts::Ctor { ty, index } => resolution == (Resolution::Ctor { ty, index }),
        TargetParts::Param(param) => resolution == Resolution::Param(param),
        TargetParts::Let { body, stmt } => resolution == Resolution::Local(
            LocalBinding::Let { body, stmt },
        ),
        TargetParts::Pattern { body, pat } => resolution == Resolution::Local(
            LocalBinding::Pattern { body, pat },
        ),
        TargetParts::TypeVar { owner, index, name } => resolution matches Resolution::Local(
            LocalBinding::TypeVar { owner: o, index: i, name: n },
        ) && o == owner && i == index && n@ == name,
        TargetParts::Field(field) => resolution == Resolution::Field(field),
        TargetParts::ClassMethod { class, name } => resolution matches Resolution::ClassMethod {
            class: c,
            name: n,
        } && c == class && n@ == name,
    }
}

pub proof fn lemma_denotes(resolution: Resolution, target: TargetParts)
    ensures
        target_of(resolution) == Some(target) <==> denotes(resolution, target),
{
}

/// Whether a name is written with a text at a place.
pub open spec fn is_written(name: Name, text: Seq<char>, span: Span) -> bool {
    name.text@ == text && name.span == span
}

/// Whether an expression refers to something by a name. What could not be read has no spelling.
pub open spec fn expr_spells(expr: Expr, text: Seq<char>, span: Span) -> bool {
    match expr.kind {
        ExprKind::Ident { name } => is_written(name, text, span),
        ExprKind::DotCtor { name } => is_written(name, text, span),
        ExprKind::Field { name } => is_written(name, text, span),
        ExprKind::Error => text == ""@ && span == expr.span,
        _ => false,
    }
}

/// Whether a pattern refers to something by a name.
pub open spec fn pat_spells(pat: Pat, text: Seq<char>, span: Span) -> bool {
    match pat.kind {
        PatKind::Var { name } => is_written(name, text, span),
        PatKind::Ctor { name, .. } => is_written(name, text, span),
        PatKind::Error => text == ""@ && span == pat.span,
        PatKind::Other => false,
    }
}

/// Whether a type refers to something by a name.
pub open spec fn type_spells(ty: TypeRef, text: Seq<char>, span: Span) -> bool {
    match ty {
        TypeRef::Named { name, .. } => is_written(name, text, span),
        TypeRef::Error { span: own } => text == ""@ && span == own,
        _ => false,
    }
}

/// Whether an entry for an expression is a use of a target.
pub open spec fn expr_uses(
    module: Module,
    entry: ExprEntry,
    target: TargetParts,
    text: Seq<char>,
    span: Span,
) -> bool {
    expr_of(module, entry.body, entry.expr) matches Some(expr) && expr_spells(expr, text, span)
        && denotes(entry.resolution, target)
}

/// Whether an entry for a pattern is a use of a target. A pattern that binds a variable declares
/// it and does not use it.
pub open spec fn pat_uses(
    module: Module,
    entry: PatEntry,
    target: TargetParts,
    text: Seq<char>,
    span: Span,
) -> bool {
    pat_of(module, entry.body, entry.pat) matches Some(pat) && pat_spells(pat, text, span)
        && denotes(entry.resolution, target) && target != (TargetParts::Pattern {
        body: entry.body,
        pat: entry.pat,
    })
}

/// Whether a type is a use of a target.
pub open spec fn type_uses(entry: TypeEntry, target: TargetParts, text: Seq<char>, span: Span) -> bool {
    type_spells(entry.ty, text, span) && denotes(entry.resolution, target)
}

/// Whether the class of a predicate is a use of a target.
pub open spec fn pred_uses(entry: PredEntry, target: TargetParts, text: Seq<char>, span: Span) -> bool {
    is_written(entry.pred.class, text, span) && denotes(entry.resolution, target)
}

pub open spec fn types_use(
    types: Seq<TypeEntry>,
    preds: Seq<PredEntry>,
    target: TargetParts,
    text: Seq<char>,
    span: Span,
) -> bool {
    (exists|k: int| 0 <= k < types.len() && type_uses(#[trigger] types[k], target, text, span)) || (
    exists|k: int| 0 <= k < preds.len() && pred_uses(#[trigger] preds[k], target, text, span))
}

/// Whether a name in the bodies of a function is a use of a target.
pub open spec fn map_uses(
    module: Module,
    map: BodyResolutionMap,
    target: TargetParts,
    text: Seq<char>,
    span: Span,
) -> bool {
    (exists|k: int|
        0 <= k < map.exprs@.len() && expr_uses(module, #[trigger] map.exprs@[k], target, text, span))
        || (exists|k: int|
        0 <= k < map.pats@.len() && pat_uses(module, #[trigger] map.pats@[k], target, text, span))
        || types_use(map.types@, map.preds@, target, text, span)
}

/// Whether a name of a file is a use of a target.
pub open spec fn file_uses(facts: SourceFacts, target: TargetParts, text: Seq<char>, span: Span) -> bool {
    types_use(
        facts.resolved.item_facts.types@,
        facts.resolved.item_facts.preds@,
        target,
        text,
        span,
    ) || exists|m: int|
        0 <= m < facts.resolved.bodies@.len() && map_uses(
            facts.module,
            #[trigger] facts.resolved.bodies@[m],
            target,
            text,
            span,
        )
}

proof fn lemma_type_occurrences(
    types: Seq<TypeEntry>,
    preds: Seq<PredEntry>,
    target: TargetParts,
    text: Seq<char>,
    span: Span,
)
    ensures
        type_occurrences(types, preds).contains(OccurrenceParts { target, text, span })
            <==> types_use(types, preds, target, text, span),
{
    let found = OccurrenceParts { target, text, span };
    let f = |entry: TypeEntry| type_occurrence(entry);
    let g = |entry: PredEntry| pred_occurrence(entry);
    law_filter_map(types, f);
    law_filter_map(preds, g);
    law_joined(filter_map(types, f), filter_map(preds, g));
    assert(type_occurrences(types, preds) == filter_map(types, f) + filter_map(preds, g));
    assert forall|k: int| 0 <= k < types.len() implies (type_occurrence(#[trigger] types[k]) == Some(
        found,
    ) <==> type_uses(types[k], target, text, span)) by {
        lemma_denotes(types[k].resolution, target);
    }
    assert forall|k: int| 0 <= k < preds.len() implies (pred_occurrence(#[trigger] preds[k]) == Some(
        found,
    ) <==> pred_uses(preds[k], target, text, span)) by {
        lemma_denotes(preds[k].resolution, target);
    }
    if types_use(types, preds, target, text, span) {
        if exists|k: int| 0 <= k < types.len() && type_uses(#[trigger] types[k], target, text, span) {
            let k = choose|k: int|
                0 <= k < types.len() && type_uses(#[trigger] types[k], target, text, span);
            assert(f(types[k]) == Some(found));
        } else {
            let k = choose|k: int|
                0 <= k < preds.len() && pred_uses(#[trigger] preds[k], target, text, span);
            assert(g(preds[k]) == Some(found));
        }
    }
    if type_occurrences(types, preds).contains(found) {
        if filter_map(types, f).contains(found) {
            let k = choose|k: int| 0 <= k < types.len() && f(#[trigger] types[k]) == Some(found);
            assert(type_uses(types[k], target, text, span));
        } else {
            let k = choose|k: int| 0 <= k < preds.len() && g(#[trigger] preds[k]) == Some(found);
            assert(pred_uses(preds[k], target, text, span));
        }
    }
}

proof fn lemma_map_occurrences(
    module: Module,
    map: BodyResolutionMap,
    target: TargetParts,
    text: Seq<char>,
    span: Span,
)
    ensures
        map_occurrences(module, map).contains(OccurrenceParts { target, text, span }) <==> map_uses(
            module,
            map,
            target,
            text,
            span,
        ),
{
    let found = OccurrenceParts { target, text, span };
    let f = |entry: ExprEntry| expr_occurrence(module, entry);
    let g = |entry: PatEntry| pat_occurrence(module, entry);
    let exprs = filter_map(map.exprs@, f);
    let pats = filter_map(map.pats@, g);
    let types = type_occurrences(map.types@, map.preds@);
    law_filter_map(map.exprs@, f);
    law_filter_map(map.pats@, g);
    law_joined(exprs, pats);
    law_joined(exprs + pats, types);
    lemma_type_occurrences(map.types@, map.preds@, target, text, span);
    assert(map_occurrences(module, map) == exprs + pats + types);
    assert forall|k: int| 0 <= k < map.exprs@.len() implies (expr_occurrence(
        module,
        #[trigger] map.exprs@[k],
    ) == Some(found) <==> expr_uses(module, map.exprs@[k], target, text, span)) by {
        lemma_denotes(map.exprs@[k].resolution, target);
    }
    assert forall|k: int| 0 <= k < map.pats@.len() implies (pat_occurrence(
        module,
        #[trigger] map.pats@[k],
    ) == Some(found) <==> pat_uses(module, map.pats@[k], target, text, span)) by {
        lemma_denotes(map.pats@[k].resolution, target);
    }
    if exists|k: int|
        0 <= k < map.exprs@.len() && expr_uses(module, #[trigger] map.exprs@[k], target, text, span) {
        let k = choose|k: int|
            0 <= k < map.exprs@.len() && expr_uses(
                module,
                #[trigger] map.exprs@[k],
                target,
                text,
                span,
            );
        assert(f(map.exprs@[k]) == Some(found));
        assert(exprs.contains(found));
    }
    if exists|k: int|
        0 <= k < map.pats@.len() && pat_uses(module, #[trigger] map.pats@[k], target, text, span) {
        let k = choose|k: int|
            0 <= k < map.pats@.len() && pat_uses(module, #[trigger] map.pats@[k], target, text, span);
        assert(g(map.pats@[k]) == Some(found));
        assert(pats.contains(found));
    }
    if exprs.contains(found) {
        let k = choose|k: int| 0 <= k < map.exprs@.len() && f(#[trigger] map.exprs@[k]) == Some(found);
        assert(expr_uses(module, map.exprs@[k], target, text, span));
    }
    if pats.contains(found) {
        let k = choose|k: int| 0 <= k < map.pats@.len() && g(#[trigger] map.pats@[k]) == Some(found);
        assert(pat_uses(module, map.pats@[k], target, text, span));
    }
}

/// The uses that a file is found to hold are all its names that stand for something: those of
/// expressions, patterns, types and predicates, each for what it resolves to. None is left out,
/// and nothing else is among them.
pub proof fn law_uses(facts: SourceFacts, target: TargetParts, text: Seq<char>, span: Span)
    ensures
        used_in_file(facts).contains(OccurrenceParts { target, text, span }) <==> file_uses(
            facts,
            target,
            text,
            span,
        ),
{
    let found = OccurrenceParts { target, text, span };
    let types = facts.resolved.item_facts.types@;
    let preds = facts.resolved.item_facts.preds@;
    let bodies = facts.resolved.bodies@;
    let f = |map: BodyResolutionMap| map_occurrences(facts.module, map);
    lemma_type_occurrences(types, preds, target, text, span);
    law_concat_map(bodies, f);
    law_joined(type_occurrences(types, preds), concat_map(bodies, f));
    assert(used_in_file(facts) == type_occurrences(types, preds) + concat_map(bodies, f));
    if concat_map(bodies, f).contains(found) {
        let m = choose|m: int| 0 <= m < bodies.len() && f(#[trigger] bodies[m]).contains(found);
        lemma_map_occurrences(facts.module, bodies[m], target, text, span);
        assert(map_uses(facts.module, bodies[m], target, text, span));
    }
    if exists|m: int|
        0 <= m < bodies.len() && map_uses(facts.module, #[trigger] bodies[m], target, text, span) {
        let m = choose|m: int|
            0 <= m < bodies.len() && map_uses(facts.module, #[trigger] bodies[m], target, text, span);
        lemma_map_occurrences(facts.module, bodies[m], target, text, span);
        assert(f(bodies[m]).contains(found));
    }
}

/// Whether a list names a target: by the listed name itself, or by a constructor that is listed
/// with it.
pub open spec fn list_names(
    files: Seq<SourceFacts>,
    name: Name,
    resolution: Option<Resolution>,
    ctors: Seq<Name>,
    ty: Option<Resolution>,
    target: TargetParts,
    text: Seq<char>,
    span: Span,
) -> bool {
    (resolution matches Some(resolution) && is_written(name, text, span) && denotes(
        resolution,
        target,
    )) || exists|k: int|
        0 <= k < ctors.len() && is_written(#[trigger] ctors[k], text, span) && ctor_target(
            files,
            ty,
            text,
        ) == Some(target)
}

/// Whether an import or an export of a file lists a target.
pub open spec fn item_lists(
    files: Seq<SourceFacts>,
    facts: SourceFacts,
    item: Item,
    target: TargetParts,
    text: Seq<char>,
    span: Span,
) -> bool {
    match item {
        Item::Import(import) => match import.selector {
            Some(ImportSelector::Names(names)) => exists|k: int|
                0 <= k < names@.len() && list_names(
                    files,
                    (#[trigger] names@[k]).name,
                    selected_resolution(facts.env, names@[k]),
                    names@[k].ctors@,
                    imported(facts.env, Namespace::Type, local_name(names@[k])),
                    target,
                    text,
                    span,
                ),
            _ => false,
        },
        Item::Export(export) => match export.kind {
            ExportKind::List(names) => exists|k: int|
                0 <= k < names@.len() && list_names(
                    files,
                    (#[trigger] names@[k]).name,
                    exported_resolution(facts.resolved.scope, names@[k].name.text@),
                    names@[k].ctors@,
                    declared(facts.resolved.scope.types@, names@[k].name.text@),
                    target,
                    text,
                    span,
                ),
            _ => false,
        },
        _ => false,
    }
}

pub open spec fn file_lists(
    files: Seq<SourceFacts>,
    facts: SourceFacts,
    target: TargetParts,
    text: Seq<char>,
    span: Span,
) -> bool {
    exists|i: int|
        0 <= i < facts.module.items@.len() && item_lists(
            files,
            facts,
            #[trigger] facts.module.items@[i],
            target,
            text,
            span,
        )
}

proof fn lemma_listed_occurrences(
    files: Seq<SourceFacts>,
    name: Name,
    resolution: Option<Resolution>,
    ctors: Seq<Name>,
    ty: Option<Resolution>,
    target: TargetParts,
    text: Seq<char>,
    span: Span,
)
    ensures
        listed_occurrences(files, name, resolution, ctors, ty).contains(
            OccurrenceParts { target, text, span },
        ) <==> list_names(files, name, resolution, ctors, ty, target, text, span),
{
    let found = OccurrenceParts { target, text, span };
    let f = |ctor: Name| ctor_occurrence(files, ty, ctor);
    let own = occurrence(Some(spelled_name(name)), target_of_any(resolution));
    let of_ctors = filter_map(ctors, f);
    law_filter_map(ctors, f);
    if resolution is Some {
        lemma_denotes(resolution->0, target);
    }
    assert(own == Some(found) <==> is_written(name, text, span) && resolution is Some && denotes(
        resolution->0,
        target,
    ));
    if own is Some {
        law_joined(seq![own->0], of_ctors);
        assert(seq![own->0].contains(found) <==> own->0 == found) by {
            assert(seq![own->0][0] == own->0);
        }
    }
    if of_ctors.contains(found) {
        let k = choose|k: int| 0 <= k < ctors.len() && f(#[trigger] ctors[k]) == Some(found);
        assert(is_written(ctors[k], text, span));
    }
    if exists|k: int|
        0 <= k < ctors.len() && is_written(#[trigger] ctors[k], text, span) && ctor_target(
            files,
            ty,
            text,
        ) == Some(target) {
        let k = choose|k: int|
            0 <= k < ctors.len() && is_written(#[trigger] ctors[k], text, span) && ctor_target(
                files,
                ty,
                text,
            ) == Some(target);
        assert(f(ctors[k]) == Some(found));
    }
}

proof fn lemma_item_lists(
    files: Seq<SourceFacts>,
    facts: SourceFacts,
    item: Item,
    target: TargetParts,
    text: Seq<char>,
    span: Span,
)
    ensures
        import_export_occurrences(files, facts, item).contains(
            OccurrenceParts { target, text, span },
        ) <==> item_lists(files, facts, item, target, text, span),
{
    let found = OccurrenceParts { target, text, span };
    match item {
        Item::Import(import) => match import.selector {
            Some(ImportSelector::Names(names)) => {
                let f = |selected: SelectedName| selected_occurrences(files, facts.env, selected);
                law_concat_map(names@, f);
                assert forall|k: int| 0 <= k < names@.len() implies (f(#[trigger] names@[k]).contains(
                    found,
                ) <==> list_names(
                    files,
                    names@[k].name,
                    selected_resolution(facts.env, names@[k]),
                    names@[k].ctors@,
                    imported(facts.env, Namespace::Type, local_name(names@[k])),
                    target,
                    text,
                    span,
                )) by {
                    lemma_listed_occurrences(
                        files,
                        names@[k].name,
                        selected_resolution(facts.env, names@[k]),
                        names@[k].ctors@,
                        imported(facts.env, Namespace::Type, local_name(names@[k])),
                        target,
                        text,
                        span,
                    );
                }
            },
            _ => {},
        },
        Item::Export(export) => match export.kind {
            ExportKind::List(names) => {
                let f = |exported: ExportedName|
                    exported_occurrences(files, facts.resolved.scope, exported);
                law_concat_map(names@, f);
                assert forall|k: int| 0 <= k < names@.len() implies (f(#[trigger] names@[k]).contains(
                    found,
                ) <==> list_names(
                    files,
                    names@[k].name,
                    exported_resolution(facts.resolved.scope, names@[k].name.text@),
                    names@[k].ctors@,
                    declared(facts.resolved.scope.types@, names@[k].name.text@),
                    target,
                    text,
                    span,
                )) by {
                    lemma_listed_occurrences(
                        files,
                        names@[k].name,
                        exported_resolution(facts.resolved.scope, names@[k].name.text@),
                        names@[k].ctors@,
                        declared(facts.resolved.scope.types@, names@[k].name.text@),
                        target,
                        text,
                        span,
                    );
                }
            },
            _ => {},
        },
        _ => {},
    }
}

/// The names that the imports and exports of a file list are found, with the constructors that
/// are listed with them, and nothing else is.
pub proof fn law_listed(
    files: Seq<SourceFacts>,
    facts: SourceFacts,
    target: TargetParts,
    text: Seq<char>,
    span: Span,
)
    ensures
        listed_in_file(files, facts).contains(OccurrenceParts { target, text, span })
            <==> file_lists(files, facts, target, text, span),
{
    let found = OccurrenceParts { target, text, span };
    let f = |item: Item| import_export_occurrences(files, facts, item);
    let items = facts.module.items@;
    law_concat_map(items, f);
    assert forall|i: int| 0 <= i < items.len() implies (f(#[trigger] items[i]).contains(found)
        <==> item_lists(files, facts, items[i], target, text, span)) by {
        lemma_item_lists(files, facts, items[i], target, text, span);
    }
}

proof fn lemma_with_files(first: Seq<u32>, more: Seq<u32>, file: u32)
    ensures
        with_files(first, more).contains(file) <==> first.contains(file) || more.contains(file),
        first.no_duplicates() ==> with_files(first, more).no_duplicates(),
    decreases more.len(),
{
    if more.len() > 0 {
        let front = more.drop_last();
        let last = more.last();
        let before = with_files(first, front);
        lemma_with_files(first, front, file);
        lemma_with_files(first, front, last);
        law_joined(front, seq![last]);
        law_joined(before, seq![last]);
        assert(more == front + seq![last]);
        assert(before.push(last) == before + seq![last]);
        assert(seq![last].contains(file) <==> file == last) by {
            assert(seq![last][0] == last);
        }
    }
}

proof fn lemma_module_numbers(
    world: WorldModel,
    files: Seq<SourceFacts>,
    uris: Seq<UrlParts>,
    file: u32,
)
    ensures
        module_numbers(world, files, uris).contains(file) <==> exists|i: int|
            0 <= i < uris.len() && is_module_at(world, files, #[trigger] uris[i], file),
    decreases uris.len(),
{
    if uris.len() > 0 {
        let front = uris.drop_last();
        let before = module_numbers(world, files, front);
        lemma_module_numbers(world, files, front, file);
        assert forall|i: int| 0 <= i < front.len() implies #[trigger] uris[i] == front[i] by {}
        assert(uris[uris.len() - 1] == uris.last());
        match module_facts(world, files, uris.last()) {
            Some(facts) => {
                law_joined(before, seq![facts.file]);
                assert(before.push(facts.file) == before + seq![facts.file]);
                assert(seq![facts.file].contains(file) <==> file == facts.file) by {
                    assert(seq![facts.file][0] == facts.file);
                }
            },
            None => {},
        }
        if before.contains(file) {
            let i = choose|i: int|
                0 <= i < front.len() && is_module_at(world, files, #[trigger] front[i], file);
            assert(is_module_at(world, files, uris[i], file));
        }
        if exists|i: int| 0 <= i < uris.len() && is_module_at(world, files, #[trigger] uris[i], file) {
            let i = choose|i: int|
                0 <= i < uris.len() && is_module_at(world, files, #[trigger] uris[i], file);
            if i < front.len() {
                assert(is_module_at(world, files, front[i], file));
            }
        }
    }
}

/// Whether a document is a module with a number.
pub open spec fn is_module_at(world: WorldModel, files: Seq<SourceFacts>, uri: UrlParts, file: u32) -> bool {
    module_facts(world, files, uri) matches Some(facts) && facts.file == file
}

/// The files that are searched are those that can be reached and the modules of the known
/// documents, each once.
pub proof fn law_searched(world: WorldModel, analysis: Analysis, file: u32)
    ensures
        searched(world, analysis).contains(file) <==> analysis.reachable@.contains(file) || exists|
            uri: UrlParts,
        |
            document_urls(world).contains(uri) && #[trigger] is_module_at(
                world,
                analysis.files@,
                uri,
                file,
            ),
        searched(world, analysis).no_duplicates(),
{
    let urls = sorted_urls(document_urls(world), |u: UrlParts| true);
    let reached = with_files(Seq::empty(), analysis.reachable@);
    let known = module_numbers(world, analysis.files@, urls);
    lemma_with_files(Seq::empty(), analysis.reachable@, file);
    lemma_with_files(reached, known, file);
    lemma_module_numbers(world, analysis.files@, urls, file);
    if known.contains(file) {
        let i = choose|i: int|
            0 <= i < urls.len() && is_module_at(world, analysis.files@, #[trigger] urls[i], file);
        assert(urls.contains(urls[i]));
        law_sorted_urls(document_urls(world), |u: UrlParts| true, urls[i]);
    }
    if exists|uri: UrlParts|
        document_urls(world).contains(uri) && #[trigger] is_module_at(
            world,
            analysis.files@,
            uri,
            file,
        ) {
        let uri = choose|uri: UrlParts|
            document_urls(world).contains(uri) && #[trigger] is_module_at(
                world,
                analysis.files@,
                uri,
                file,
            );
        law_sorted_urls(document_urls(world), |u: UrlParts| true, uri);
        let i = choose|i: int| 0 <= i < urls.len() && urls[i] == uri;
        assert(is_module_at(world, analysis.files@, urls[i], file));
    }
}

/// Whether a place is that of a name in a searched file that stands for a target.
pub open spec fn is_use_place(
    world: WorldModel,
    analysis: Analysis,
    target: TargetParts,
    place: LocationParts,
    file: u32,
    text: Seq<char>,
    span: Span,
) -> bool {
    facts_numbered(analysis.files@, file) matches Some(facts) && searched(world, analysis).contains(
        file,
    ) && place_of(world, analysis.files@, span) == Some(place) && (file_uses(
        facts,
        target,
        text,
        span,
    ) || file_lists(analysis.files@, facts, target, text, span))
}

/// Whether a place is that of the declaration of a target.
pub open spec fn is_declared_at(
    world: WorldModel,
    files: Seq<SourceFacts>,
    target: TargetParts,
    place: LocationParts,
) -> bool {
    declaration_span(files, target) matches Some(span) && place_of(world, files, span) == Some(
        place,
    )
}

proof fn lemma_places_in_file(
    world: WorldModel,
    files: Seq<SourceFacts>,
    facts: SourceFacts,
    target: TargetParts,
    file: u32,
    place: LocationParts,
)
    requires
        facts_numbered(files, file) == Some(facts),
    ensures
        places_in_file(world, files, target, file).contains(place) <==> exists|
            text: Seq<char>,
            span: Span,
        |
            place_of(world, files, span) == Some(place) && (#[trigger] file_uses(
                facts,
                target,
                text,
                span,
            ) || file_lists(files, facts, target, text, span)),
{
    let all = file_occurrences(files, facts);
    let f = |found: OccurrenceParts| occurrence_place(world, files, target, found);
    law_filter_map(all, f);
    law_joined(listed_in_file(files, facts), used_in_file(facts));
    if places_in_file(world, files, target, file).contains(place) {
        let k = choose|k: int| 0 <= k < all.len() && f(#[trigger] all[k]) == Some(place);
        let found = all[k];
        assert(all.contains(found));
        assert(found == OccurrenceParts { target, text: found.text, span: found.span });
        law_uses(facts, target, found.text, found.span);
        law_listed(files, facts, target, found.text, found.span);
        assert(file_uses(facts, target, found.text, found.span) || file_lists(
            files,
            facts,
            target,
            found.text,
            found.span,
        ));
    }
    assert forall|text: Seq<char>, span: Span|
        place_of(world, files, span) == Some(place) && (#[trigger] file_uses(
            facts,
            target,
            text,
            span,
        ) || file_lists(files, facts, target, text, span)) implies places_in_file(
        world,
        files,
        target,
        file,
    ).contains(place) by {
        let found = OccurrenceParts { target, text, span };
        law_uses(facts, target, text, span);
        law_listed(files, facts, target, text, span);
        assert(all.contains(found));
        let k = choose|k: int| 0 <= k < all.len() && all[k] == found;
        assert(f(all[k]) == Some(place));
    }
}

/// The references to a target are the places of all names in the searched files that stand for
/// it, wherever they are: in expressions, patterns, types, predicates, imports and exports. On
/// demand its declaration is among them. Nothing else is.
pub proof fn law_reference_places(
    world: WorldModel,
    analysis: Analysis,
    target: TargetParts,
    declaration: bool,
    place: LocationParts,
)
    ensures
        reference_places(world, analysis, target, declaration).contains(place) <==> (exists|
            file: u32,
            text: Seq<char>,
            span: Span,
        | #[trigger]
            is_use_place(world, analysis, target, place, file, text, span)) || (declaration && is_declared_at(world, analysis.files@, target, place)),
{
    let files = analysis.files@;
    let modules = searched(world, analysis);
    let f = |file: u32| places_in_file(world, files, target, file);
    let uses = concat_map(modules, f);
    law_concat_map(modules, f);
    if uses.contains(place) {
        let m = choose|m: int| 0 <= m < modules.len() && f(#[trigger] modules[m]).contains(place);
        assert(places_in_file(world, files, target, modules[m]).contains(place));
        let facts = facts_numbered(files, modules[m])->0;
        lemma_places_in_file(world, files, facts, target, modules[m], place);
        let (text, span) = choose|text: Seq<char>, span: Span|
            place_of(world, files, span) == Some(place) && (#[trigger] file_uses(
                facts,
                target,
                text,
                span,
            ) || file_lists(files, facts, target, text, span));
        assert(modules.contains(modules[m]));
        assert(is_use_place(world, analysis, target, place, modules[m], text, span));
    }
    assert forall|file: u32, text: Seq<char>, span: Span| #[trigger]
        is_use_place(world, analysis, target, place, file, text, span) implies uses.contains(
        place,
    ) by {
        let facts = facts_numbered(files, file)->0;
        lemma_places_in_file(world, files, facts, target, file, place);
        let used = file_uses(facts, target, text, span);
        assert(place_of(world, files, span) == Some(place) && (used || file_lists(
            files,
            facts,
            target,
            text,
            span,
        )));
        assert(places_in_file(world, files, target, file).contains(place));
        let m = choose|m: int| 0 <= m < modules.len() && modules[m] == file;
        assert(f(modules[m]).contains(place));
    }
    let own = match declaration_span(files, target) {
        Some(span) => place_of(world, files, span),
        None => None,
    };
    if own is Some && declaration {
        law_joined(uses, seq![own->0]);
        assert(uses.push(own->0) == uses + seq![own->0]);
        assert(seq![own->0].contains(place) <==> own->0 == place) by {
            assert(seq![own->0][0] == own->0);
        }
    }
}

/// Whether one of some places is at the same range of the same document.
pub open spec fn has_location(places: Seq<LocationParts>, place: LocationParts) -> bool {
    exists|i: int|
        0 <= i < places.len() && (#[trigger] places[i]).uri.text == place.uri.text
            && places[i].range == place.range
}

pub proof fn lemma_distinct_locations(places: Seq<LocationParts>, place: LocationParts)
    requires
        places.contains(place),
    ensures
        has_location(distinct::<Location>(places), place),
{
    law_distinct::<Location>(places);
    let k = choose|k: int| 0 <= k < places.len() && places[k] == place;
    assert(has_place::<Location>(distinct::<Location>(places), places[k]));
    let all = distinct::<Location>(places);
    let i = choose|i: int|
        0 <= i < all.len() && share_place::<Location>(#[trigger] all[i], place);
    lemma_text_lt_total(all[i].uri.text, place.uri.text);
}

/// Finding the references to a symbol gives the place of each name that stands for it, and of its
/// declaration on demand, each once.
pub proof fn law_references_found(
    world: WorldModel,
    analysis: Analysis,
    target: TargetParts,
    declaration: bool,
)
    ensures
        forall|place: LocationParts, file: u32, text: Seq<char>, span: Span| #[trigger]
            is_use_place(world, analysis, target, place, file, text, span) ==> has_location(
                sorted_references(world, analysis, target, declaration),
                place,
            ),
        declaration ==> forall|place: LocationParts| #[trigger]
            is_declared_at(world, analysis.files@, target, place) ==> has_location(
                sorted_references(world, analysis, target, declaration),
                place,
            ),
        forall|place: LocationParts| #[trigger]
            sorted_references(world, analysis, target, declaration).contains(place) ==> (exists|
                file: u32,
                text: Seq<char>,
                span: Span,
            | #[trigger]
                is_use_place(world, analysis, target, place, file, text, span)) || (declaration && is_declared_at(world, analysis.files@, target, place)),
{
    let places = reference_places(world, analysis, target, declaration);
    assert forall|place: LocationParts, file: u32, text: Seq<char>, span: Span| #[trigger]
        is_use_place(world, analysis, target, place, file, text, span) implies has_location(
        sorted_references(world, analysis, target, declaration),
        place,
    ) by {
        law_reference_places(world, analysis, target, declaration, place);
        lemma_distinct_locations(places, place);
    }
    if declaration {
        assert forall|place: LocationParts| #[trigger]
            is_declared_at(world, analysis.files@, target, place) implies has_location(
            sorted_references(world, analysis, target, declaration),
            place,
        ) by {
            law_reference_places(world, analysis, target, declaration, place);
            lemma_distinct_locations(places, place);
        }
    }
    assert forall|place: LocationParts| #[trigger]
        sorted_references(world, analysis, target, declaration).contains(place) implies places.contains(
        place,
    ) by {
        law_distinct::<Location>(places);
    }
    assert forall|place: LocationParts| #[trigger]
        sorted_references(world, analysis, target, declaration).contains(place) implies (exists|
        file: u32,
        text: Seq<char>,
        span: Span,
    | #[trigger]
        is_use_place(world, analysis, target, place, file, text, span)) || (declaration && is_declared_at(world, analysis.files@, target, place)) by {
        law_reference_places(world, analysis, target, declaration, place);
    }
}

/// A constructor that is matched by a pattern is used there: the name in the pattern is a
/// reference to it.
pub proof fn law_constructor_pattern_is_reference(
    world: WorldModel,
    analysis: Analysis,
    facts: SourceFacts,
    file: u32,
    m: int,
    k: int,
    name: Name,
    place: LocationParts,
    declaration: bool,
)
    requires
        searched(world, analysis).contains(file),
        facts_numbered(analysis.files@, file) == Some(facts),
        0 <= m < facts.resolved.bodies@.len(),
        0 <= k < facts.resolved.bodies@[m].pats@.len(),
        ({
            let entry = facts.resolved.bodies@[m].pats@[k];
            &&& entry.resolution is Ctor
            &&& pat_of(facts.module, entry.body, entry.pat) matches Some(pat)
            &&& pat.kind matches PatKind::Ctor { name: own, .. }
            &&& own == name
        }),
        place_of(world, analysis.files@, name.span) == Some(place),
    ensures
        facts.resolved.bodies@[m].pats@[k].resolution matches Resolution::Ctor { ty, index }
            ==> reference_places(
            world,
            analysis,
            TargetParts::Ctor { ty, index },
            declaration,
        ).contains(place) && has_location(
            sorted_references(world, analysis, TargetParts::Ctor { ty, index }, declaration),
            place,
        ) && (alias_named(facts, name.text@, TargetParts::Ctor { ty, index }) is None
            ==> has_location(
            rename_places(
                world,
                analysis,
                RenameParts::Symbol(TargetParts::Ctor { ty, index }),
            ),
            place,
        )),
{
    let map = facts.resolved.bodies@[m];
    let entry = map.pats@[k];
    match entry.resolution {
        Resolution::Ctor { ty, index } => {
            let target = TargetParts::Ctor { ty, index };
            assert(pat_uses(facts.module, map.pats@[k], target, name.text@, name.span));
            assert(map_uses(facts.module, facts.resolved.bodies@[m], target, name.text@, name.span));
            assert(file_uses(facts, target, name.text@, name.span));
            assert(is_use_place(world, analysis, target, place, file, name.text@, name.span));
            law_reference_places(world, analysis, target, declaration, place);
            law_references_found(world, analysis, target, declaration);
            law_alias_given(facts, name.text@, target);
            if alias_named(facts, name.text@, target) is None {
                assert(is_renamed_place(
                    world,
                    analysis,
                    target,
                    place,
                    file,
                    name.text@,
                    name.span,
                ));
                law_symbol_renamed(world, analysis, target);
            }
        },
        _ => {},
    }
}

/// A name that an expression refers to something by is a reference to it: an identifier, a
/// constructor behind a dot or a member.
pub proof fn law_expression_is_reference(
    world: WorldModel,
    analysis: Analysis,
    facts: SourceFacts,
    file: u32,
    m: int,
    k: int,
    name: Name,
    target: TargetParts,
    place: LocationParts,
    declaration: bool,
)
    requires
        searched(world, analysis).contains(file),
        facts_numbered(analysis.files@, file) == Some(facts),
        0 <= m < facts.resolved.bodies@.len(),
        0 <= k < facts.resolved.bodies@[m].exprs@.len(),
        ({
            let entry = facts.resolved.bodies@[m].exprs@[k];
            &&& denotes(entry.resolution, target)
            &&& expr_of(facts.module, entry.body, entry.expr) matches Some(expr)
            &&& expr.kind == (ExprKind::Ident { name }) || expr.kind == (ExprKind::DotCtor { name })
                || expr.kind == (ExprKind::Field { name })
        }),
        place_of(world, analysis.files@, name.span) == Some(place),
    ensures
        reference_places(world, analysis, target, declaration).contains(place),
        has_location(sorted_references(world, analysis, target, declaration), place),
        alias_named(facts, name.text@, target) is None ==> has_location(
            rename_places(world, analysis, RenameParts::Symbol(target)),
            place,
        ),
{
    let map = facts.resolved.bodies@[m];
    assert(expr_uses(facts.module, map.exprs@[k], target, name.text@, name.span));
    assert(map_uses(facts.module, facts.resolved.bodies@[m], target, name.text@, name.span));
    assert(file_uses(facts, target, name.text@, name.span));
    assert(is_use_place(world, analysis, target, place, file, name.text@, name.span));
    law_reference_places(world, analysis, target, declaration, place);
    law_references_found(world, analysis, target, declaration);
    law_alias_given(facts, name.text@, target);
    if alias_named(facts, name.text@, target) is None {
        assert(is_renamed_place(world, analysis, target, place, file, name.text@, name.span));
        law_symbol_renamed(world, analysis, target);
    }
}

/// Whether an import of a file gives a target a name of its own.
pub open spec fn gives_alias(facts: SourceFacts, text: Seq<char>, target: TargetParts) -> bool {
    exists|i: int|
        0 <= i < facts.module.items@.len() && item_gives_alias(
            #[trigger] facts.module.items@[i],
            facts.env,
            text,
            target,
        )
}

pub open spec fn item_gives_alias(item: Item, env: ModuleEnv, text: Seq<char>, target: TargetParts) -> bool {
    match item {
        Item::Import(import) => match import.selector {
            Some(ImportSelector::Names(names)) => exists|k: int|
                0 <= k < names@.len() && is_alias(#[trigger] names@[k], env, text, target),
            _ => false,
        },
        _ => false,
    }
}

/// Whether a selected name of an import is given a name and stands for a target.
pub open spec fn is_alias(
    selected: SelectedName,
    env: ModuleEnv,
    text: Seq<char>,
    target: TargetParts,
) -> bool {
    (selected.alias matches Some(alias) && alias.text@ == text) && (selected_resolution(
        env,
        selected,
    ) matches Some(resolution) && denotes(resolution, target))
}

/// A file is found to give a target a name exactly where one of its imports does.
pub proof fn law_alias_given(facts: SourceFacts, text: Seq<char>, target: TargetParts)
    ensures
        alias_named(facts, text, target) is Some <==> gives_alias(facts, text, target),
{
    let items = facts.module.items@;
    let g = |selected: SelectedName| alias_span(facts.env, selected, text, target);
    let f = |item: Item|
        find_map(
            selected_names(item),
            |selected: SelectedName| alias_span(facts.env, selected, text, target),
        );
    law_find_map(items, f);
    assert forall|selected: SelectedName|
        is_alias(selected, facts.env, text, target) == (#[trigger] alias_span(
            facts.env,
            selected,
            text,
            target,
        ) is Some) by {
        if selected_resolution(facts.env, selected) is Some {
            lemma_denotes(selected_resolution(facts.env, selected)->0, target);
        }
    }
    assert forall|i: int| 0 <= i < items.len() implies (f(#[trigger] items[i]) is Some
        <==> item_gives_alias(items[i], facts.env, text, target)) by {
        let names = selected_names(items[i]);
        law_find_map(names, g);
        assert(f(items[i]) == find_map(names, g));
        if f(items[i]) is Some {
            let k = lemma_find_source(names, g);
            assert(is_alias(names[k], facts.env, text, target));
        }
        if item_gives_alias(items[i], facts.env, text, target) {
            let k = choose|k: int|
                0 <= k < names.len() && is_alias(#[trigger] names[k], facts.env, text, target);
            assert(g(names[k]) is Some);
        }
    }
}

/// Whether a place is that of a name in a searched file that a rename of a symbol edits: one that
/// an import or export lists, or one that is used under the symbol's own name.
pub open spec fn is_renamed_place(
    world: WorldModel,
    analysis: Analysis,
    target: TargetParts,
    place: LocationParts,
    file: u32,
    text: Seq<char>,
    span: Span,
) -> bool {
    facts_numbered(analysis.files@, file) matches Some(facts) && searched(world, analysis).contains(
        file,
    ) && place_of(world, analysis.files@, span) == Some(place) && ((file_uses(
        facts,
        target,
        text,
        span,
    ) && !gives_alias(facts, text, target)) || file_lists(analysis.files@, facts, target, text, span))
}

proof fn lemma_symbol_places(
    world: WorldModel,
    analysis: Analysis,
    facts: SourceFacts,
    target: TargetParts,
    file: u32,
    place: LocationParts,
)
    requires
        searched(world, analysis).contains(file),
        facts_numbered(analysis.files@, file) == Some(facts),
    ensures
        rename_places_in_file(
            world,
            analysis.files@,
            RenameParts::Symbol(target),
            file,
        ).contains(place) <==> exists|text: Seq<char>, span: Span| #[trigger]
            is_renamed_place(world, analysis, target, place, file, text, span),
{
    let files = analysis.files@;
    let listed = listed_in_file(files, facts);
    let used = used_in_file(facts);
    let f = |found: OccurrenceParts| listed_place(world, files, found, target);
    let g = |found: OccurrenceParts| symbol_place(world, files, facts, found, target);
    law_filter_map(listed, f);
    law_filter_map(used, g);
    law_joined(filter_map(listed, f), filter_map(used, g));
    let all = rename_places_in_file(world, files, RenameParts::Symbol(target), file);
    assert(all == filter_map(listed, f) + filter_map(used, g));
    if filter_map(listed, f).contains(place) {
        let k = choose|k: int| 0 <= k < listed.len() && f(#[trigger] listed[k]) == Some(place);
        let found = listed[k];
        assert(listed.contains(found));
        assert(found == OccurrenceParts { target, text: found.text, span: found.span });
        law_listed(files, facts, target, found.text, found.span);
        assert(is_renamed_place(world, analysis, target, place, file, found.text, found.span));
    }
    if filter_map(used, g).contains(place) {
        let k = choose|k: int| 0 <= k < used.len() && g(#[trigger] used[k]) == Some(place);
        let found = used[k];
        assert(used.contains(found));
        assert(found == OccurrenceParts { target, text: found.text, span: found.span });
        law_uses(facts, target, found.text, found.span);
        law_alias_given(facts, found.text, target);
        assert(is_renamed_place(world, analysis, target, place, file, found.text, found.span));
    }
    assert forall|text: Seq<char>, span: Span| #[trigger]
        is_renamed_place(world, analysis, target, place, file, text, span) implies all.contains(
        place,
    ) by {
        let found = OccurrenceParts { target, text, span };
        law_uses(facts, target, text, span);
        law_listed(files, facts, target, text, span);
        law_alias_given(facts, text, target);
        if file_lists(files, facts, target, text, span) {
            let k = choose|k: int| 0 <= k < listed.len() && listed[k] == found;
            assert(f(listed[k]) == Some(place));
        } else {
            let k = choose|k: int| 0 <= k < used.len() && used[k] == found;
            assert(g(used[k]) == Some(place));
        }
    }
}

proof fn lemma_rename_places(
    world: WorldModel,
    analysis: Analysis,
    target: RenameParts,
    place: LocationParts,
)
    ensures
        (exists|file: u32|
            searched(world, analysis).contains(file) && #[trigger] rename_places_in_file(
                world,
                analysis.files@,
                target,
                file,
            ).contains(place)) ==> has_location(rename_places(world, analysis, target), place),
        (rename_declaration(analysis.files@, target) matches Some(span) && place_of(
            world,
            analysis.files@,
            span,
        ) == Some(place)) ==> has_location(rename_places(world, analysis, target), place),
        rename_places(world, analysis, target).contains(place) ==> (exists|file: u32|
            searched(world, analysis).contains(file) && #[trigger] rename_places_in_file(
                world,
                analysis.files@,
                target,
                file,
            ).contains(place)) || (rename_declaration(analysis.files@, target) matches Some(span)
            && place_of(world, analysis.files@, span) == Some(place)),
{
    let files = analysis.files@;
    let modules = searched(world, analysis);
    let f = |file: u32| rename_places_in_file(world, files, target, file);
    let uses = concat_map(modules, f);
    law_concat_map(modules, f);
    let own = match rename_declaration(files, target) {
        Some(span) => place_of(world, files, span),
        None => None,
    };
    let all = match own {
        Some(place) => uses.push(place),
        None => uses,
    };
    if own is Some {
        law_joined(uses, seq![own->0]);
        assert(uses.push(own->0) == uses + seq![own->0]);
        assert(seq![own->0].contains(place) <==> own->0 == place) by {
            assert(seq![own->0][0] == own->0);
        }
    }
    if all.contains(place) {
        lemma_distinct_locations(all, place);
    }
    law_distinct::<Location>(all);
    assert(rename_places(world, analysis, target) == distinct::<Location>(all));
    if exists|file: u32|
        modules.contains(file) && #[trigger] rename_places_in_file(
            world,
            files,
            target,
            file,
        ).contains(place) {
        let file = choose|file: u32|
            modules.contains(file) && #[trigger] rename_places_in_file(
                world,
                files,
                target,
                file,
            ).contains(place);
        let m = choose|m: int| 0 <= m < modules.len() && modules[m] == file;
        assert(f(modules[m]).contains(place));
        assert(all.contains(place));
    }
    if uses.contains(place) {
        let m = choose|m: int| 0 <= m < modules.len() && f(#[trigger] modules[m]).contains(place);
        assert(modules.contains(modules[m]));
        assert(rename_places_in_file(world, files, target, modules[m]).contains(place));
    }
}

/// Renaming a symbol edits its declaration and the place of each name in the searched files that
/// stands for it under its own name: in expressions, patterns, types, predicates, imports and
/// exports. Nothing else is edited.
pub proof fn law_symbol_renamed(world: WorldModel, analysis: Analysis, target: TargetParts)
    ensures
        forall|place: LocationParts, file: u32, text: Seq<char>, span: Span| #[trigger]
            is_renamed_place(world, analysis, target, place, file, text, span) ==> has_location(
                rename_places(world, analysis, RenameParts::Symbol(target)),
                place,
            ),
        forall|place: LocationParts| #[trigger]
            is_declared_at(world, analysis.files@, target, place) ==> has_location(
                rename_places(world, analysis, RenameParts::Symbol(target)),
                place,
            ),
        forall|place: LocationParts| #[trigger]
            rename_places(world, analysis, RenameParts::Symbol(target)).contains(place) ==> (
            exists|file: u32, text: Seq<char>, span: Span| #[trigger]
                is_renamed_place(world, analysis, target, place, file, text, span))
                || is_declared_at(world, analysis.files@, target, place),
{
    let files = analysis.files@;
    let symbol = RenameParts::Symbol(target);
    assert forall|place: LocationParts, file: u32, text: Seq<char>, span: Span| #[trigger]
        is_renamed_place(world, analysis, target, place, file, text, span) implies has_location(
        rename_places(world, analysis, symbol),
        place,
    ) by {
        let facts = facts_numbered(files, file)->0;
        lemma_symbol_places(world, analysis, facts, target, file, place);
        assert(rename_places_in_file(world, files, symbol, file).contains(place));
        lemma_rename_places(world, analysis, symbol, place);
    }
    assert forall|place: LocationParts| #[trigger]
        is_declared_at(world, files, target, place) implies has_location(
        rename_places(world, analysis, symbol),
        place,
    ) by {
        lemma_rename_places(world, analysis, symbol, place);
    }
    assert forall|place: LocationParts| #[trigger]
        rename_places(world, analysis, symbol).contains(place) implies (exists|
        file: u32,
        text: Seq<char>,
        span: Span,
    | #[trigger]
        is_renamed_place(world, analysis, target, place, file, text, span)) || is_declared_at(
        world,
        files,
        target,
        place,
    ) by {
        lemma_rename_places(world, analysis, symbol, place);
        if !is_declared_at(world, files, target, place) {
            let file = choose|file: u32|
                searched(world, analysis).contains(file) && #[trigger] rename_places_in_file(
                    world,
                    files,
                    symbol,
                    file,
                ).contains(place);
            lemma_symbol_places(
                world,
                analysis,
                facts_numbered(files, file)->0,
                target,
                file,
                place,
            );
        }
    }
}

/// Renaming the name that an import gives to a symbol edits that name and each use of the symbol
/// under it in the file of the import, and nothing else: no name that is spelled otherwise and no
/// other file.
pub proof fn law_alias_renamed(
    world: WorldModel,
    analysis: Analysis,
    facts: SourceFacts,
    span: Span,
    text: Seq<char>,
    target: TargetParts,
    place: LocationParts,
)
    requires
        facts_numbered(analysis.files@, facts.file) == Some(facts),
        searched(world, analysis).contains(facts.file),
    ensures
        ({
            let alias = RenameParts::Alias { file: facts.file, span, text, target };
            &&& forall|used: Span| #[trigger]
                file_uses(facts, target, text, used) && place_of(world, analysis.files@, used)
                    == Some(place) ==> has_location(rename_places(world, analysis, alias), place)
            &&& place_of(world, analysis.files@, span) == Some(place) ==> has_location(
                rename_places(world, analysis, alias),
                place,
            )
            &&& rename_places(world, analysis, alias).contains(place) ==> (exists|used: Span|
                #[trigger] file_uses(facts, target, text, used) && place_of(
                    world,
                    analysis.files@,
                    used,
                ) == Some(place)) || place_of(world, analysis.files@, span) == Some(place)
        }),
{
    let files = analysis.files@;
    let alias = RenameParts::Alias { file: facts.file, span, text, target };
    let uses = used_in_file(facts);
    let f = |found: OccurrenceParts| alias_place(world, files, found, text, target);
    law_filter_map(uses, f);
    lemma_rename_places(world, analysis, alias, place);
    let all = rename_places_in_file(world, files, alias, facts.file);
    assert(all == filter_map(uses, f));
    assert forall|used: Span| #[trigger]
        file_uses(facts, target, text, used) && place_of(world, files, used) == Some(
            place,
        ) implies has_location(rename_places(world, analysis, alias), place) by {
        let found = OccurrenceParts { target, text, span: used };
        law_uses(facts, target, text, used);
        let k = choose|k: int| 0 <= k < uses.len() && uses[k] == found;
        assert(f(uses[k]) == Some(place));
        assert(all.contains(place));
    }
    if rename_places(world, analysis, alias).contains(place) && place_of(world, files, span) != Some(
        place,
    ) {
        let file = choose|file: u32|
            searched(world, analysis).contains(file) && #[trigger] rename_places_in_file(
                world,
                files,
                alias,
                file,
            ).contains(place);
        assert(file == facts.file);
        let k = choose|k: int| 0 <= k < uses.len() && f(#[trigger] uses[k]) == Some(place);
        let found = uses[k];
        assert(uses.contains(found));
        assert(found == OccurrenceParts { target, text, span: found.span });
        law_uses(facts, target, text, found.span);
        assert(file_uses(facts, target, text, found.span));
    }
}

/// The declaration of a symbol is that of its own kind, under its own number: nothing but the
/// symbol decides it.
pub proof fn law_declaration_of(files: Seq<SourceFacts>, target: TargetParts)
    ensures
        target matches TargetParts::Def(def) ==> declaration_span(files, target) == def_span(
            files,
            def,
        ),
        target matches TargetParts::Ctor { ty, index } ==> declaration_span(files, target)
            == ctor_span(files, ty, index),
        target matches TargetParts::Param(param) ==> declaration_span(files, target)
            == param_name_span_of(files, param),
        target matches TargetParts::Let { body, stmt } ==> declaration_span(files, target)
            == let_span(files, body, stmt),
        target matches TargetParts::Pattern { body, pat } ==> declaration_span(files, target)
            == pattern_span(files, body, pat),
        target matches TargetParts::TypeVar { owner, index, .. } ==> declaration_span(files, target)
            == type_var_span(files, owner, index),
        target matches TargetParts::Field(field) ==> declaration_span(files, target) == field_span(
            files,
            field,
        ),
        target matches TargetParts::ClassMethod { class, name } ==> declaration_span(files, target)
            == method_span(files, class, name),
{
}

/// Where a position is on the name that an import gives to a symbol, that name is renamed.
pub proof fn law_rename_of_alias(
    files: Seq<SourceFacts>,
    facts: SourceFacts,
    offset: u32,
    i: int,
    k: int,
    names: Seq<SelectedName>,
    alias: Name,
    target: TargetParts,
)
    requires
        0 <= i < facts.module.items@.len(),
        facts.module.items@[i] matches Item::Import(import) && (import.selector matches Some(
            ImportSelector::Names(own),
        ) && own@ == names),
        0 <= k < names.len(),
        names[k].alias == Some(alias),
        alias.span.file == facts.file && alias.span.start <= offset < alias.span.end,
        selected_resolution(facts.env, names[k]) matches Some(resolution) && denotes(
            resolution,
            target,
        ),
        forall|j: int|
            0 <= j < i ==> declared_alias_in(facts, #[trigger] facts.module.items@[j], offset) is None,
        forall|j: int| 0 <= j < k ==> declared_alias(facts, #[trigger] names[j], offset) is None,
    ensures
        rename_target_in_file(files, facts, offset) == Some(
            RenameParts::Alias { file: facts.file, span: alias.span, text: alias.text@, target },
        ),
{
    let f = |item: Item| declared_alias_in(facts, item, offset);
    let g = |selected: SelectedName| declared_alias(facts, selected, offset);
    lemma_denotes(selected_resolution(facts.env, names[k])->0, target);
    law_find_map(names, g);
    law_find_map(facts.module.items@, f);
    assert(selected_names(facts.module.items@[i]) == names);
    assert(g(names[k]) is Some);
    assert(find_map(names, g) == g(names[k]));
    assert(f(facts.module.items@[i]) is Some);
}

/// Where no name at a position is given by an import or export, the symbol at the position is
/// renamed.
pub proof fn law_rename_of_symbol(
    files: Seq<SourceFacts>,
    facts: SourceFacts,
    offset: u32,
    target: TargetParts,
)
    requires
        target_in_file(files, facts, offset) == Some(target),
        module_alias_under(files, facts, offset) is None,
        forall|i: int|
            0 <= i < facts.module.items@.len() ==> declared_alias_in(
                facts,
                #[trigger] facts.module.items@[i],
                offset,
            ) is None,
        forall|other: TargetParts, text: Seq<char>, span: Span| #[trigger]
            file_uses(facts, other, text, span) && span.file == facts.file && span.start <= offset
                < span.end ==> !gives_alias(facts, text, other),
    ensures
        rename_target_in_file(files, facts, offset) == Some(RenameParts::Symbol(target)),
{
    let f = |item: Item| declared_alias_in(facts, item, offset);
    let g = |found: OccurrenceParts| used_alias(facts, found, offset);
    let used = used_in_file(facts);
    law_find_map(facts.module.items@, f);
    law_find_map(used, g);
    assert forall|i: int| 0 <= i < used.len() implies g(#[trigger] used[i]) is None by {
        let found = used[i];
        assert(used.contains(found));
        law_uses(facts, found.target, found.text, found.span);
        law_alias_given(facts, found.text, found.target);
        assert(found == OccurrenceParts {
            target: found.target,
            text: found.text,
            span: found.span,
        });
    }
}

/// A use under a name that an import gives is renamed as that name.
pub proof fn law_rename_of_aliased_use(
    files: Seq<SourceFacts>,
    facts: SourceFacts,
    offset: u32,
    target: TargetParts,
    text: Seq<char>,
    span: Span,
)
    requires
        file_uses(facts, target, text, span),
        gives_alias(facts, text, target),
        span.file == facts.file && span.start <= offset < span.end,
        forall|i: int|
            0 <= i < facts.module.items@.len() ==> declared_alias_in(
                facts,
                #[trigger] facts.module.items@[i],
                offset,
            ) is None,
        forall|other: TargetParts, written: Seq<char>, at: Span| #[trigger]
            file_uses(facts, other, written, at) && at.file == facts.file && at.start <= offset
                < at.end ==> other == target && written == text,
    ensures
        rename_target_in_file(files, facts, offset) matches Some(RenameParts::Alias {
            file,
            text: own,
            target: of,
            ..
        }) && file == facts.file && own == text && of == target,
{
    let f = |item: Item| declared_alias_in(facts, item, offset);
    let g = |found: OccurrenceParts| used_alias(facts, found, offset);
    let used = used_in_file(facts);
    law_find_map(facts.module.items@, f);
    law_find_map(used, g);
    law_uses(facts, target, text, span);
    law_alias_given(facts, text, target);
    let found = OccurrenceParts { target, text, span };
    let k = choose|k: int| 0 <= k < used.len() && used[k] == found;
    assert(g(used[k]) is Some);
    let m = lemma_find_source(used, g);
    let other = used[m];
    assert(used.contains(other));
    assert(other == OccurrenceParts { target: other.target, text: other.text, span: other.span });
    law_uses(facts, other.target, other.text, other.span);
    assert(file_uses(facts, other.target, other.text, other.span));
}

/// Whether an import of a file passes a symbol on under another name: it gives it a name, and an
/// export of the file lists that name.
pub open spec fn is_passed_on(facts: SourceFacts, target: TargetParts) -> bool {
    exists|text: Seq<char>| #[trigger] gives_alias(facts, text, target) && exports_name(
        facts.module,
        text,
    )
}

/// A symbol is not renamed where a searched file passes it on under another name, and only there.
pub proof fn law_rename_supported(world: WorldModel, analysis: Analysis, target: TargetParts)
    ensures
        supports_text_rename(world, analysis, RenameParts::Symbol(target)) <==> forall|file: u32|
            searched(world, analysis).contains(file) ==> match #[trigger] facts_numbered(
                analysis.files@,
                file,
            ) {
                Some(facts) => !is_passed_on(facts, target),
                None => true,
            },
{
    let files = analysis.files@;
    let modules = searched(world, analysis);
    let test = |file: u32| renamed_export(files, file, target);
    assert forall|file: u32| #[trigger] renamed_export(files, file, target) == match facts_numbered(
        files,
        file,
    ) {
        Some(facts) => is_passed_on(facts, target),
        None => false,
    } by {
        if facts_numbered(files, file) is Some {
            lemma_passed_on(facts_numbered(files, file)->0, target);
        }
    }
    if !supports_text_rename(world, analysis, RenameParts::Symbol(target)) {
        let i = choose|i: int| 0 <= i < modules.len() && test(#[trigger] modules[i]);
        assert(modules.contains(modules[i]));
        assert(renamed_export(files, modules[i], target));
    } else {
        assert forall|file: u32| modules.contains(file) implies match #[trigger] facts_numbered(
            files,
            file,
        ) {
            Some(facts) => !is_passed_on(facts, target),
            None => true,
        } by {
            let i = choose|i: int| 0 <= i < modules.len() && modules[i] == file;
            assert(!test(modules[i]));
            assert(!renamed_export(files, file, target));
        }
    }
}

proof fn lemma_passed_on(facts: SourceFacts, target: TargetParts)
    ensures
        is_passed_on(facts, target) == any(
            facts.module.items@,
            |item: Item| item_passes_on(facts, item, target),
        ),
{
    let items = facts.module.items@;
    let test = |item: Item| item_passes_on(facts, item, target);
    if any(items, test) {
        let i = choose|i: int| 0 <= i < items.len() && test(#[trigger] items[i]);
        let names = selected_names(items[i]);
        let inner = |selected: SelectedName| passes_on(facts, selected, target);
        let k = choose|k: int| 0 <= k < names.len() && inner(#[trigger] names[k]);
        let text = names[k].alias->0.text@;
        lemma_denotes(selected_resolution(facts.env, names[k])->0, target);
        assert(is_alias(names[k], facts.env, text, target));
        assert(item_gives_alias(items[i], facts.env, text, target));
        assert(gives_alias(facts, text, target));
    }
    if is_passed_on(facts, target) {
        let text = choose|text: Seq<char>| #[trigger]
            gives_alias(facts, text, target) && exports_name(facts.module, text);
        let i = choose|i: int|
            0 <= i < items.len() && item_gives_alias(#[trigger] items[i], facts.env, text, target);
        let names = selected_names(items[i]);
        let k = choose|k: int|
            0 <= k < names.len() && is_alias(#[trigger] names[k], facts.env, text, target);
        lemma_denotes(selected_resolution(facts.env, names[k])->0, target);
        let inner = |selected: SelectedName| passes_on(facts, selected, target);
        assert(inner(names[k]));
        assert(any(names, inner));
        assert(test(items[i]));
    }
}

/// Whether a name in a file goes through the name that an import or export gives to a module: an
/// expression that resolves to the module, or what stands before the dot of a type or of a
/// constructor in a pattern.
pub open spec fn uses_module(files: Seq<SourceFacts>, facts: SourceFacts, used: ModuleUse) -> bool {
    (exists|k: int|
        0 <= k < facts.resolved.item_facts.types@.len() && type_uses_module(
            facts,
            #[trigger] facts.resolved.item_facts.types@[k],
            used,
        )) || exists|m: int|
        0 <= m < facts.resolved.bodies@.len() && body_uses_module(
            files,
            facts,
            #[trigger] facts.resolved.bodies@[m],
            used,
        )
}

pub open spec fn type_uses_module(facts: SourceFacts, entry: TypeEntry, used: ModuleUse) -> bool {
    entry.ty matches TypeRef::Named { qualifier: Some(qualifier), .. } && used.span == qualifier.span
        && imported_alias(facts.module, qualifier.text@) == Some(used.alias)
}

pub open spec fn body_uses_module(
    files: Seq<SourceFacts>,
    facts: SourceFacts,
    map: BodyResolutionMap,
    used: ModuleUse,
) -> bool {
    (exists|k: int|
        0 <= k < map.exprs@.len() && expr_uses_module(files, facts, #[trigger] map.exprs@[k], used))
        || (exists|k: int|
        0 <= k < map.pats@.len() && pat_uses_module(facts, #[trigger] map.pats@[k], used)) || (
    exists|k: int|
        0 <= k < map.types@.len() && type_uses_module(facts, #[trigger] map.types@[k], used))
}

pub open spec fn expr_uses_module(
    files: Seq<SourceFacts>,
    facts: SourceFacts,
    entry: ExprEntry,
    used: ModuleUse,
) -> bool {
    entry.resolution matches Resolution::Module { name } && alias_of_module(files, facts, name@)
        == Some(used.alias) && (expr_of(facts.module, entry.body, entry.expr) matches Some(expr)
        && exists|text: Seq<char>| #[trigger] expr_spells(expr, text, used.span))
}

pub open spec fn pat_uses_module(facts: SourceFacts, entry: PatEntry, used: ModuleUse) -> bool {
    pat_of(facts.module, entry.body, entry.pat) matches Some(pat) && (pat.kind matches PatKind::Ctor {
        qualifiers,
        ..
    } && qualifiers@.len() > 0 && used.span == qualifiers@[0].span && imported_alias(
        facts.module,
        qualifiers@[0].text@,
    ) == Some(used.alias))
}

proof fn lemma_map_module_uses(
    files: Seq<SourceFacts>,
    facts: SourceFacts,
    map: BodyResolutionMap,
    used: ModuleUse,
)
    ensures
        map_module_uses(files, facts, map).contains(used) <==> body_uses_module(
            files,
            facts,
            map,
            used,
        ),
{
    let f = |entry: ExprEntry| expr_module_use(files, facts, entry);
    let g = |entry: PatEntry| pat_module_use(facts, entry);
    let h = |entry: TypeEntry| type_module_use(facts, entry);
    let a = filter_map(map.exprs@, f);
    let b = filter_map(map.pats@, g);
    let c = filter_map(map.types@, h);
    law_filter_map(map.exprs@, f);
    law_filter_map(map.pats@, g);
    law_filter_map(map.types@, h);
    law_joined(a, b);
    law_joined(a + b, c);
    assert(map_module_uses(files, facts, map) == a + b + c);
    assert((a + b).contains(used) <==> a.contains(used) || b.contains(used));
    assert forall|k: int| 0 <= k < map.exprs@.len() implies (f(#[trigger] map.exprs@[k]) == Some(used)
        <==> expr_uses_module(files, facts, map.exprs@[k], used)) by {
        let entry = map.exprs@[k];
        if f(entry) == Some(used) {
            let expr = expr_of(facts.module, entry.body, entry.expr)->0;
            let name = expr_name(expr)->0;
            assert(expr_spells(expr, name.text, used.span));
        }
    }
    assert forall|k: int| 0 <= k < map.pats@.len() implies (g(#[trigger] map.pats@[k]) == Some(used)
        <==> pat_uses_module(facts, map.pats@[k], used)) by {}
    assert forall|k: int| 0 <= k < map.types@.len() implies (h(#[trigger] map.types@[k]) == Some(used)
        <==> type_uses_module(facts, map.types@[k], used)) by {}
    if exists|k: int|
        0 <= k < map.exprs@.len() && expr_uses_module(files, facts, #[trigger] map.exprs@[k], used) {
        let k = choose|k: int|
            0 <= k < map.exprs@.len() && expr_uses_module(files, facts, #[trigger] map.exprs@[k], used);
        assert(f(map.exprs@[k]) == Some(used));
    }
    if exists|k: int| 0 <= k < map.pats@.len() && pat_uses_module(facts, #[trigger] map.pats@[k], used) {
        let k = choose|k: int|
            0 <= k < map.pats@.len() && pat_uses_module(facts, #[trigger] map.pats@[k], used);
        assert(g(map.pats@[k]) == Some(used));
    }
    if exists|k: int| 0 <= k < map.types@.len() && type_uses_module(facts, #[trigger] map.types@[k], used) {
        let k = choose|k: int|
            0 <= k < map.types@.len() && type_uses_module(facts, #[trigger] map.types@[k], used);
        assert(h(map.types@[k]) == Some(used));
    }
}

/// The uses of the names of modules in a file are found: in expressions, patterns and types, and
/// nothing else is.
pub proof fn law_module_uses(files: Seq<SourceFacts>, facts: SourceFacts, used: ModuleUse)
    ensures
        module_uses(files, facts).contains(used) <==> uses_module(files, facts, used),
{
    let types = facts.resolved.item_facts.types@;
    let bodies = facts.resolved.bodies@;
    let f = |entry: TypeEntry| type_module_use(facts, entry);
    let g = |map: BodyResolutionMap| map_module_uses(files, facts, map);
    law_filter_map(types, f);
    law_concat_map(bodies, g);
    law_joined(filter_map(types, f), concat_map(bodies, g));
    assert(module_uses(files, facts) == filter_map(types, f) + concat_map(bodies, g));
    assert forall|k: int| 0 <= k < types.len() implies (f(#[trigger] types[k]) == Some(used)
        <==> type_uses_module(facts, types[k], used)) by {}
    assert forall|m: int| 0 <= m < bodies.len() implies (g(#[trigger] bodies[m]).contains(used)
        <==> body_uses_module(files, facts, bodies[m], used)) by {
        lemma_map_module_uses(files, facts, bodies[m], used);
    }
    if exists|k: int| 0 <= k < types.len() && type_uses_module(facts, #[trigger] types[k], used) {
        let k = choose|k: int|
            0 <= k < types.len() && type_uses_module(facts, #[trigger] types[k], used);
        assert(f(types[k]) == Some(used));
    }
}

/// Renaming the name of a module edits the place at which an import or export gives it, and each
/// use of that very name in the searched files, and nothing else.
pub proof fn law_module_renamed(world: WorldModel, analysis: Analysis, span: Span, place: LocationParts)
    ensures
        forall|file: u32, used: Span|
            searched(world, analysis).contains(file) && #[trigger] is_module_renamed(
                world,
                analysis,
                file,
                used,
                span,
                place,
            ) ==> has_location(
                rename_places(world, analysis, RenameParts::Module { span }),
                place,
            ),
        place_of(world, analysis.files@, span) == Some(place) ==> has_location(
            rename_places(world, analysis, RenameParts::Module { span }),
            place,
        ),
        rename_places(world, analysis, RenameParts::Module { span }).contains(place) ==> place_of(
            world,
            analysis.files@,
            span,
        ) == Some(place) || exists|file: u32, used: Span|
            searched(world, analysis).contains(file) && #[trigger] is_module_renamed(
                world,
                analysis,
                file,
                used,
                span,
                place,
            ),
{
    let files = analysis.files@;
    let target = RenameParts::Module { span };
    let f = |used: ModuleUse| module_use_place(world, files, used, span);
    lemma_rename_places(world, analysis, target, place);
    assert forall|file: u32, used: Span|
        searched(world, analysis).contains(file) && #[trigger] is_module_renamed(
            world,
            analysis,
            file,
            used,
            span,
            place,
        ) implies has_location(rename_places(world, analysis, target), place) by {
        let facts = facts_numbered(files, file)->0;
        let all = module_uses(files, facts);
        let found = ModuleUse { span: used, alias: span };
        law_module_uses(files, facts, found);
        law_filter_map(all, f);
        let k = choose|k: int| 0 <= k < all.len() && all[k] == found;
        assert(f(all[k]) == Some(place));
        assert(rename_places_in_file(world, files, target, file).contains(place));
    }
    if rename_places(world, analysis, target).contains(place) && place_of(world, files, span) != Some(
        place,
    ) {
        let file = choose|file: u32|
            searched(world, analysis).contains(file) && #[trigger] rename_places_in_file(
                world,
                files,
                target,
                file,
            ).contains(place);
        let facts = facts_numbered(files, file)->0;
        let all = module_uses(files, facts);
        law_filter_map(all, f);
        let k = choose|k: int| 0 <= k < all.len() && f(#[trigger] all[k]) == Some(place);
        assert(all.contains(all[k]));
        law_module_uses(files, facts, all[k]);
        assert(all[k] == ModuleUse { span: all[k].span, alias: span });
        assert(is_module_renamed(world, analysis, file, all[k].span, span, place));
    }
}

/// Whether a place is that of a use of the name of a module in a file.
pub open spec fn is_module_renamed(
    world: WorldModel,
    analysis: Analysis,
    file: u32,
    used: Span,
    alias: Span,
    place: LocationParts,
) -> bool {
    facts_numbered(analysis.files@, file) matches Some(facts) && uses_module(
        analysis.files@,
        facts,
        ModuleUse { span: used, alias },
    ) && place_of(world, analysis.files@, used) == Some(place)
}

/// The name that an import gives to a module is that of the first import that gives it.
pub proof fn law_imported_module_name(module: Module, name: Seq<char>)
    ensures
        imported_alias(module, name) matches Some(span) ==> exists|i: int|
            0 <= i < module.items@.len() && is_import_as(#[trigger] module.items@[i], name, span),
        imported_alias(module, name) is None ==> forall|i: int, span: Span|
            0 <= i < module.items@.len() ==> !#[trigger] is_import_as(module.items@[i], name, span),
{
    let f = |item: Item| import_alias_named(item, name);
    law_find_map(module.items@, f);
    assert(imported_alias(module, name) == find_map(module.items@, f));
    if find_map(module.items@, f) is Some {
        let i = lemma_find_source(module.items@, f);
        assert(is_import_as(module.items@[i], name, find_map(module.items@, f)->0));
    } else {
        assert forall|i: int, span: Span| 0 <= i < module.items@.len() implies !#[trigger] is_import_as(
            module.items@[i],
            name,
            span,
        ) by {
            assert(f(module.items@[i]) is None);
        }
    }
}

/// Whether an item imports a module and gives it a name at a place.
pub open spec fn is_import_as(item: Item, name: Seq<char>, span: Span) -> bool {
    item matches Item::Import(import) && (import.alias matches Some(alias) && is_written(
        alias,
        name,
        span,
    ))
}

/// Where a place that a rename edits covers the position, the rename offers a range.
pub proof fn law_rename_prepared(
    world: WorldModel,
    analysis: Analysis,
    uri: UrlParts,
    position: Position,
    places: Seq<LocationParts>,
    text: Seq<char>,
    offset: u32,
    k: int,
)
    requires
        rename_at(world, analysis, uri, position) == Some(places),
        known_text(world, uri) == Some(text),
        byte_at(text, position) == Some(offset),
        0 <= k < places.len(),
        covers(places[k], uri, text, offset),
        forall|j: int| 0 <= j < k ==> !covers(#[trigger] places[j], uri, text, offset),
    ensures
        prepared_range(world, analysis, uri, position) == Some(places[k].range),
{
    law_find_map(places, |place: LocationParts| covering_range(place, uri, text, offset));
}

} // verus!
