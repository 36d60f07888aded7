//! Go-to-definition support.
use vstd::prelude::*;

use crate::analysis::{
    expr_entry_at, find_module_named, known_location_for_span, locate_request, module_named,
    open_place_of, requested, resolved_expr_at,
};
use crate::declarations::{
    class_method_name_span, ctor_name_span, ctor_span, def_name_span, def_span, field_name_span,
    field_span, find_param_span_in_module, let_name_span, let_span, method_span, param_in_module,
    pattern_name_span, pattern_span,
};
use crate::hir::{
    Analysis, Import, Item, LocalBinding, ModuleEnv, Name, Resolution, SourceFacts, Span,
};
use crate::protocol::{Location, LocationParts, Position};
use crate::references::{
    declaration_span, import_export_at, import_export_target_at, reference_target_at,
    target_declaration_span, target_in_file,
};
use crate::seqs::{any, find_map, first, has_any, or_else, seen};
use crate::state::{WorldModel, WorldState};
use crate::url::Url;

verus! {

/// The start of a module.
pub open spec fn module_start(file: Option<u32>) -> Option<Span> {
    match file {
        Some(file) => Some(Span { file, start: 0, end: 0 }),
        None => None,
    }
}

fn module_start_span(file: Option<u32>) -> (span: Option<Span>)
    ensures
        span == module_start(file),
{
    match file {
        Some(file) => Some(Span { file, start: 0, end: 0 }),
        None => None,
    }
}

/// The file of the module that is known by a name. A module that goes by the name itself comes
/// before one that is only reached through it.
pub open spec fn module_file(env: ModuleEnv, name: Seq<char>) -> Option<u32> {
    match module_named(env.modules@, name) {
        Some(module) => module.file,
        None => match module_named(env.module_origins@, name) {
            Some(module) => module.file,
            None => None,
        },
    }
}

pub fn find_module_file(env: &ModuleEnv, name: &str) -> (file: Option<u32>)
    ensures
        file == module_file(*env, name@),
{
    match find_module_named(&env.modules, name) {
        Some(module) => module.file,
        None => match find_module_named(&env.module_origins, name) {
            Some(module) => module.file,
            None => None,
        },
    }
}

/// The place of what a name in a body stands for.
pub open spec fn resolution_span(files: Seq<SourceFacts>, facts: SourceFacts, resolution: Resolution) -> Option<
    Span,
> {
    match resolution {
        Resolution::Def { def, .. } => def_span(files, def),
        Resolution::Ctor { ty, index } => ctor_span(files, ty, index),
        Resolution::Param(param) => param_in_module(facts.module, param),
        Resolution::Local(LocalBinding::Let { body, stmt }) => let_span(files, body, stmt),
        Resolution::Local(LocalBinding::Pattern { body, pat }) => pattern_span(files, body, pat),
        Resolution::Local(LocalBinding::TypeVar { .. }) => None,
        Resolution::Field(field) => field_span(files, field),
        Resolution::ClassMethod { class, name } => method_span(files, class, name@),
        Resolution::Module { name } => module_start(module_file(facts.env, name@)),
        Resolution::DotCtorDeferred => None,
        Resolution::Builtin(_) => None,
        Resolution::Unresolved => None,
    }
}

fn resolution_target_span(files: &Vec<SourceFacts>, facts: &SourceFacts, resolution: &Resolution) -> (span:
    Option<Span>)
    ensures
        span == resolution_span(files@, *facts, *resolution),
{
    match resolution {
        Resolution::Def { def, kind: _ } => def_name_span(files, *def),
        Resolution::Ctor { ty, index } => ctor_name_span(files, *ty, *index),
        Resolution::Param(param) => find_param_span_in_module(&facts.module, *param),
        Resolution::Local(LocalBinding::Let { body, stmt }) => let_name_span(files, *body, *stmt),
        Resolution::Local(LocalBinding::Pattern { body, pat }) => pattern_name_span(
            files,
            *body,
            *pat,
        ),
        Resolution::Local(LocalBinding::TypeVar { .. }) => None,
        Resolution::Field(field) => field_name_span(files, *field),
        Resolution::ClassMethod { class, name } => class_method_name_span(
            files,
            *class,
            name.as_str(),
        ),
        Resolution::Module { name } => module_start_span(
            find_module_file(&facts.env, name.as_str()),
        ),
        Resolution::DotCtorDeferred => None,
        Resolution::Builtin(_) => None,
        Resolution::Unresolved => None,
    }
}

/// Whether an offset is in the path or in the alias of an import.
pub open spec fn on_import(import: Import, file: u32, offset: u32) -> bool {
    any(import.path@, |segment: Name| segment.span.holds(file, offset)) || (
    import.alias matches Some(alias) && alias.span.holds(file, offset))
}

/// The module of the import whose path or alias is at an offset.
pub open spec fn import_at(item: Item, file: u32, offset: u32) -> Option<Option<u32>> {
    match item {
        Item::Import(import) => if on_import(import, file, offset) {
            Some(import.target)
        } else {
            None
        },
        _ => None,
    }
}

/// The start of the module that the import at an offset resolves to.
pub open spec fn import_module_span(facts: SourceFacts, offset: u32) -> Option<Span> {
    match find_map(facts.module.items@, |item: Item| import_at(item, facts.file, offset)) {
        Some(target) => module_start(target),
        None => None,
    }
}

fn import_module_span_at(facts: &SourceFacts, offset: u32) -> (span: Option<Span>)
    ensures
        span == import_module_span(*facts, offset),
{
    let file = facts.file;
    let module_in = |item: &Item| -> (found: Option<Option<u32>>)
        ensures
            found == import_at(*item, file, offset),
    {
        match item {
            Item::Import(import) => {
                let holds = |segment: &Name| -> (holds: bool)
                    ensures
                        holds == segment.span.holds(file, offset),
                {
                    segment.span.contains_offset(file, offset)
                };
                let on_path = has_any(
                    &import.path,
                    holds,
                    Ghost(|segment: Name| segment.span.holds(file, offset)),
                );
                let on_alias = match &import.alias {
                    Some(alias) => alias.span.contains_offset(file, offset),
                    None => false,
                };
                if on_path || on_alias {
                    Some(import.target)
                } else {
                    None
                }
            },
            _ => None,
        }
    };
    match first(
        &facts.module.items,
        module_in,
        Ghost(|item: Item| import_at(item, file, offset)),
    ) {
        Some(target) => module_start_span(target),
        None => None,
    }
}

/// The place of a span that may be missing.
pub open spec fn place_of_any(world: WorldModel, files: Seq<SourceFacts>, span: Option<Span>) -> Option<
    LocationParts,
> {
    match span {
        Some(span) => open_place_of(world, files, span),
        None => None,
    }
}

fn location_of_any(world: &WorldState, files: &Vec<SourceFacts>, span: Option<Span>) -> (location: Option<
    Location,
>)
    ensures
        seen(location) == place_of_any(world@, files@, span),
{
    match span {
        Some(span) => known_location_for_span(world, files, span),
        None => None,
    }
}

/// The place of the definition of the symbol at an offset of a file: of what the expression
/// there stands for, else of the module of the import there, else of the declaration of the name
/// there.
pub open spec fn definition_in_file(
    world: WorldModel,
    files: Seq<SourceFacts>,
    facts: SourceFacts,
    offset: u32,
) -> Option<LocationParts> {
    let of_expr = match expr_entry_at(facts, offset) {
        Some((_, entry)) => resolution_span(files, facts, entry.resolution),
        None => None,
    };
    let of_name = match target_in_file(files, facts, offset) {
        Some(target) => declaration_span(files, target),
        None => None,
    };
    let of_listed = match import_export_at(files, facts, offset) {
        Some(target) => declaration_span(files, target),
        None => None,
    };
    or_else(
        place_of_any(world, files, of_expr),
        or_else(
            place_of_any(world, files, import_module_span(facts, offset)),
            or_else(
                place_of_any(world, files, of_name),
                place_of_any(world, files, of_listed),
            ),
        ),
    )
}

/// Computes the target definition location for the symbol at a source position.
pub fn handle_definition(
    world: &WorldState,
    analysis: &Analysis,
    uri: &Url,
    position: Position,
) -> (location: Option<Location>)
    ensures
        seen(location) == match requested(world@, analysis.files@, uri@, position) {
            Some((facts, offset)) => definition_in_file(world@, analysis.files@, facts, offset),
            None => None,
        },
{
    let files = &analysis.files;
    let (facts, offset) = match locate_request(world, files, uri, position) {
        Some(found) => found,
        None => return None,
    };
    if let Some((_, entry)) = resolved_expr_at(facts, offset) {
        let location = location_of_any(
            world,
            files,
            resolution_target_span(files, facts, &entry.resolution),
        );
        if location.is_some() {
            return location;
        }
    }
    let location = location_of_any(world, files, import_module_span_at(facts, offset));
    if location.is_some() {
        return location;
    }
    if let Some(target) = reference_target_at(world, analysis, uri, position) {
        let location = location_of_any(world, files, target_declaration_span(files, &target));
        if location.is_some() {
            return location;
        }
    }
    match import_export_target_at(world, analysis, uri, position) {
        Some(target) => location_of_any(world, files, target_declaration_span(files, &target)),
        None => None,
    }
}

} // verus!
