//! Lookups in what the front end knows of the source files.
use vstd::prelude::*;

use crate::hir::{
    Analysis, BodyFacts, BodyId, Expr, ExprEntry, FuncBody, Module, NamedModule, Pat, SourceFacts,
    Span, Stmt,
};
use crate::line_index::{byte_at, range_at, LineIndexExt};
use crate::protocol::{Location, LocationParts, Position};
use crate::resolve::{
    bodies_in, body_tree, contexts, derefs, function_contexts, function_owning_offset, innermost,
    innermost_expr, owner_at, FunctionAtOffset,
};
use crate::seqs::{find, find_map, first_where, lemma_find_step, pointee, seen, views};
use crate::state::{
    client_uri, document_urls, fits, known_path, sorted_urls, WorldModel, WorldState,
};
use crate::table::lookup;
use crate::text::str_eq;
use crate::url::{Url, UrlParts};

verus! {

/// The file at a path of the virtual file system.
pub open spec fn facts_at(files: Seq<SourceFacts>, path: Seq<char>) -> Option<SourceFacts> {
    find(files, |facts: SourceFacts| facts.path@ == path)
}

/// The file with a number.
pub open spec fn facts_numbered(files: Seq<SourceFacts>, file: u32) -> Option<SourceFacts> {
    find(files, |facts: SourceFacts| facts.file == file)
}

pub fn source_file<'a>(files: &'a Vec<SourceFacts>, path: &str) -> (found: Option<&'a SourceFacts>)
    ensures
        pointee(found) == facts_at(files@, path@),
{
    let same = |facts: &SourceFacts| -> (same: bool)
        ensures
            same == (facts.path@ == path@),
    {
        str_eq(facts.path.as_str(), path)
    };
    first_where(files, same, Ghost(|facts: SourceFacts| facts.path@ == path@))
}

pub fn file_numbered(files: &Vec<SourceFacts>, file: u32) -> (found: Option<&SourceFacts>)
    ensures
        pointee(found) == facts_numbered(files@, file),
{
    let same = |facts: &SourceFacts| -> (same: bool)
        ensures
            same == (facts.file == file),
    {
        facts.file == file
    };
    first_where(files, same, Ghost(|facts: SourceFacts| facts.file == file))
}

/// The file of a document that is a module of the program.
pub open spec fn module_facts(world: WorldModel, files: Seq<SourceFacts>, uri: UrlParts) -> Option<
    SourceFacts,
> {
    match known_path(world, uri) {
        Some(path) => match facts_at(files, path) {
            Some(facts) => if facts.is_module {
                Some(facts)
            } else {
                None
            },
            None => None,
        },
        None => None,
    }
}

pub fn module_for_uri<'a>(world: &WorldState, files: &'a Vec<SourceFacts>, uri: &Url) -> (found:
    Option<&'a SourceFacts>)
    ensures
        pointee(found) == module_facts(world@, files@, uri@),
{
    match world.vfs_path_for_uri(uri) {
        Some(path) => match source_file(files, path.as_str()) {
            Some(facts) => if facts.is_module {
                Some(facts)
            } else {
                None
            },
            None => None,
        },
        None => None,
    }
}

/// The text of a known document.
pub open spec fn known_text(world: WorldModel, uri: UrlParts) -> Option<Seq<char>> {
    match lookup(world.documents, uri.text) {
        Some(document) => Some(document.1),
        None => None,
    }
}

/// The file and the byte offset that a position in a document stands for.
pub open spec fn requested(
    world: WorldModel,
    files: Seq<SourceFacts>,
    uri: UrlParts,
    position: Position,
) -> Option<(SourceFacts, u32)> {
    match (module_facts(world, files, uri), known_text(world, uri)) {
        (Some(facts), Some(text)) => match byte_at(text, position) {
            Some(offset) => Some((facts, offset)),
            None => None,
        },
        _ => None,
    }
}

pub fn locate_request<'a>(
    world: &WorldState,
    files: &'a Vec<SourceFacts>,
    uri: &Url,
    position: Position,
) -> (found: Option<(&'a SourceFacts, u32)>)
    ensures
        match found {
            Some((facts, offset)) => requested(world@, files@, uri@, position) == Some(
                (*facts, offset),
            ),
            None => requested(world@, files@, uri@, position) is None,
        },
{
    match (module_for_uri(world, files, uri), world.line_index(uri)) {
        (Some(facts), Some(index)) => match index.position_to_byte(position) {
            Some(offset) => Some((facts, offset)),
            None => None,
        },
        _ => None,
    }
}

/// The body with a number in the functions of a module.
pub open spec fn body_of(module: Module, id: BodyId) -> Option<FuncBody> {
    find_map(
        contexts(&module, module.items@.len()),
        |context: FunctionAtOffset<'_>|
            find(body_tree(*context.root_body), |body: FuncBody| body.id == id),
    )
}

fn find_in_tree(root: &FuncBody, id: BodyId) -> (found: Option<&FuncBody>)
    ensures
        pointee(found) == find(body_tree(*root), |body: FuncBody| body.id == id),
{
    let bodies = bodies_in(root);
    let ghost all = derefs(bodies@);
    let ghost g = |body: FuncBody|
        if (|body: FuncBody| body.id == id)(body) {
            Some(body)
        } else {
            None
        };
    let mut i: usize = 0;
    assert(all.take(0) == Seq::<FuncBody>::empty());
    while i < bodies.len()
        invariant
            i <= all.len(),
            all == derefs(bodies@),
            all == body_tree(*root),
            g == |body: FuncBody|
                if (|body: FuncBody| body.id == id)(body) {
                    Some(body)
                } else {
                    None
                },
            find_map(all.take(i as int), g) is None,
        decreases all.len() - i,
    {
        proof {
            lemma_find_step(all, g, i as int);
        }
        if bodies[i].id == id {
            return Some(bodies[i]);
        }
        i += 1;
    }
    assert(all.take(i as int) == all);
    None
}

pub fn find_body<'a>(module: &'a Module, id: BodyId) -> (found: Option<&'a FuncBody>)
    ensures
        pointee(found) == body_of(*module, id),
{
    let functions = function_contexts(module);
    let ghost all = functions@;
    let ghost g = |context: FunctionAtOffset<'_>|
        find(body_tree(*context.root_body), |body: FuncBody| body.id == id);
    let mut i: usize = 0;
    assert(all.take(0) == Seq::<FunctionAtOffset<'a>>::empty());
    while i < functions.len()
        invariant
            i <= all.len(),
            all == functions@,
            all == contexts(module, module.items@.len()),
            g == |context: FunctionAtOffset<'_>|
                find(body_tree(*context.root_body), |body: FuncBody| body.id == id),
            find_map(all.take(i as int), g) is None,
        decreases all.len() - i,
    {
        proof {
            lemma_find_step(all, g, i as int);
        }
        let found = find_in_tree(functions[i].root_body, id);
        if found.is_some() {
            return found;
        }
        i += 1;
    }
    assert(all.take(i as int) == all);
    None
}

/// An element of a list, none behind its end.
pub open spec fn element<T>(s: Seq<T>, i: usize) -> Option<T> {
    if i < s.len() {
        Some(s[i as int])
    } else {
        None
    }
}

pub fn get<T>(list: &Vec<T>, i: usize) -> (found: Option<&T>)
    ensures
        pointee(found) == element(list@, i),
{
    if i < list.len() {
        Some(&list[i])
    } else {
        None
    }
}

pub open spec fn expr_of(module: Module, body: BodyId, expr: usize) -> Option<Expr> {
    match body_of(module, body) {
        Some(body) => element(body.exprs@, expr),
        None => None,
    }
}

pub fn find_expr<'a>(module: &'a Module, body: BodyId, expr: usize) -> (found: Option<&'a Expr>)
    ensures
        pointee(found) == expr_of(*module, body, expr),
{
    match find_body(module, body) {
        Some(body) => get(&body.exprs, expr),
        None => None,
    }
}

pub open spec fn stmt_of(module: Module, body: BodyId, stmt: usize) -> Option<Stmt> {
    match body_of(module, body) {
        Some(body) => element(body.stmts@, stmt),
        None => None,
    }
}

pub fn find_stmt<'a>(module: &'a Module, body: BodyId, stmt: usize) -> (found: Option<&'a Stmt>)
    ensures
        pointee(found) == stmt_of(*module, body, stmt),
{
    match find_body(module, body) {
        Some(body) => get(&body.stmts, stmt),
        None => None,
    }
}

pub open spec fn pat_of(module: Module, body: BodyId, pat: usize) -> Option<Pat> {
    match body_of(module, body) {
        Some(body) => element(body.pats@, pat),
        None => None,
    }
}

pub fn find_pat<'a>(module: &'a Module, body: BodyId, pat: usize) -> (found: Option<&'a Pat>)
    ensures
        pointee(found) == pat_of(*module, body, pat),
{
    match find_body(module, body) {
        Some(body) => get(&body.pats, pat),
        None => None,
    }
}

/// What the names in the bodies of a function stand for.
pub open spec fn map_of(facts: SourceFacts, root: BodyId) -> Option<BodyFacts> {
    find(facts.bodies@, |body: BodyFacts| body.root == root)
}

pub fn body_resolution_map(facts: &SourceFacts, root: BodyId) -> (found: Option<&BodyFacts>)
    ensures
        pointee(found) == map_of(*facts, root),
{
    let same = |body: &BodyFacts| -> (same: bool)
        ensures
            same == (body.root == root),
    {
        body.root == root
    };
    first_where(&facts.bodies, same, Ghost(|body: BodyFacts| body.root == root))
}

/// The module that is known by a name.
pub open spec fn module_named(modules: Seq<NamedModule>, name: Seq<char>) -> Option<NamedModule> {
    find(modules, |module: NamedModule| module.name@ == name)
}

pub fn find_module_named<'a>(modules: &'a Vec<NamedModule>, name: &str) -> (found: Option<
    &'a NamedModule,
>)
    ensures
        pointee(found) == module_named(modules@, name@),
{
    let same = |module: &NamedModule| -> (same: bool)
        ensures
            same == (module.name@ == name@),
    {
        str_eq(module.name.as_str(), name)
    };
    first_where(modules, same, Ghost(|module: NamedModule| module.name@ == name@))
}

/// A list of file numbers with one more that it does not hold yet.
pub open spec fn with_file(files: Seq<u32>, file: u32) -> Seq<u32> {
    if files.contains(file) {
        files
    } else {
        files.push(file)
    }
}

/// Some file numbers and those of further files, each once.
pub open spec fn with_files(first: Seq<u32>, more: Seq<u32>) -> Seq<u32>
    decreases more.len(),
{
    if more.len() == 0 {
        first
    } else {
        with_file(with_files(first, more.drop_last()), more.last())
    }
}

/// The numbers of the modules of some documents.
pub open spec fn module_numbers(world: WorldModel, files: Seq<SourceFacts>, uris: Seq<UrlParts>) -> Seq<
    u32,
>
    decreases uris.len(),
{
    if uris.len() == 0 {
        Seq::empty()
    } else {
        let before = module_numbers(world, files, uris.drop_last());
        match module_facts(world, files, uris.last()) {
            Some(facts) => before.push(facts.file),
            None => before,
        }
    }
}

/// The modules in which references are searched: those that the entry module reaches, then those
/// of the known documents.
pub open spec fn searched(world: WorldModel, analysis: Analysis) -> Seq<u32> {
    with_files(
        with_files(Seq::empty(), analysis.reachable@),
        module_numbers(
            world,
            analysis.files@,
            sorted_urls(document_urls(world), |u: UrlParts| true),
        ),
    )
}

fn push_unique(files: &mut Vec<u32>, file: u32)
    ensures
        final(files)@ == with_file(old(files)@, file),
{
    let mut i: usize = 0;
    while i < files.len()
        invariant
            i <= files@.len(),
            forall|j: int| 0 <= j < i ==> files@[j] != file,
        decreases files@.len() - i,
    {
        if files[i] == file {
            assert(files@.contains(file));
            return;
        }
        i += 1;
    }
    files.push(file);
}

pub fn reference_search_modules(world: &WorldState, analysis: &Analysis) -> (found: Vec<u32>)
    ensures
        found@ == searched(world@, *analysis),
{
    let mut found: Vec<u32> = Vec::new();
    let ghost reachable = analysis.reachable@;
    let mut i: usize = 0;
    assert(reachable.take(0) == Seq::<u32>::empty());
    while i < analysis.reachable.len()
        invariant
            i <= reachable.len(),
            reachable == analysis.reachable@,
            found@ == with_files(Seq::empty(), reachable.take(i as int)),
        decreases reachable.len() - i,
    {
        assert(reachable.take(i + 1).drop_last() == reachable.take(i as int));
        push_unique(&mut found, analysis.reachable[i]);
        i += 1;
    }
    assert(reachable.take(i as int) == reachable);
    let ghost first = found@;
    let uris = world.workspace_document_uris();
    let ghost all = views(uris@);
    let mut k: usize = 0;
    assert(all.take(0) == Seq::<UrlParts>::empty());
    while k < uris.len()
        invariant
            k <= all.len(),
            all == views(uris@),
            found@ == with_files(
                first,
                module_numbers(world@, analysis.files@, all.take(k as int)),
            ),
        decreases all.len() - k,
    {
        let ghost numbers = module_numbers(world@, analysis.files@, all.take(k as int));
        assert(all.take(k + 1).drop_last() == all.take(k as int));
        assert(all.take(k + 1).last() == uris@[k as int]@);
        if let Some(facts) = module_for_uri(world, &analysis.files, &uris[k]) {
            push_unique(&mut found, facts.file);
            assert(numbers.push(facts.file).drop_last() == numbers);
        }
        k += 1;
    }
    assert(all.take(k as int) == all);
    found
}

/// The place of a span as the client knows it. The text of a file that is not a known document
/// is that of the front end; there is no place in a text whose offsets cannot be expressed.
pub open spec fn place_of(world: WorldModel, files: Seq<SourceFacts>, span: Span) -> Option<
    LocationParts,
> {
    match facts_numbered(files, span.file) {
        Some(facts) => match client_uri(world, facts.url@) {
            Some(uri) => match known_text(world, uri) {
                Some(text) => Some(
                    LocationParts { uri, range: range_at(text, span.start as int, span.end as int) },
                ),
                None => match facts.content {
                    Some(content) => if fits(content@) {
                        Some(
                            LocationParts {
                                uri,
                                range: range_at(content@, span.start as int, span.end as int),
                            },
                        )
                    } else {
                        None
                    },
                    None => None,
                },
            },
            None => None,
        },
        None => None,
    }
}

pub fn location_for_span(world: &WorldState, files: &Vec<SourceFacts>, span: Span) -> (location:
    Option<Location>)
    ensures
        seen(location) == place_of(world@, files@, span),
{
    let facts = match file_numbered(files, span.file) {
        Some(facts) => facts,
        None => return None,
    };
    let uri = match world.client_uri_for_vfs_url(facts.url.as_str()) {
        Some(uri) => uri,
        None => return None,
    };
    let range = match world.line_index(&uri) {
        Some(index) => index.range(span.start, span.end),
        None => match &facts.content {
            Some(content) => {
                if content.as_str().as_bytes().len() >= 0xffff_ffff {
                    return None;
                }
                LineIndexExt::new(content.as_str()).range(span.start, span.end)
            },
            None => return None,
        },
    };
    Some(Location { uri, range })
}

/// The place of a span in a known document.
pub open spec fn open_place_of(world: WorldModel, files: Seq<SourceFacts>, span: Span) -> Option<
    LocationParts,
> {
    match facts_numbered(files, span.file) {
        Some(facts) => match client_uri(world, facts.url@) {
            Some(uri) => match known_text(world, uri) {
                Some(text) => Some(
                    LocationParts { uri, range: range_at(text, span.start as int, span.end as int) },
                ),
                None => None,
            },
            None => None,
        },
        None => None,
    }
}

pub fn known_location_for_span(world: &WorldState, files: &Vec<SourceFacts>, span: Span) -> (location:
    Option<Location>)
    ensures
        seen(location) == open_place_of(world@, files@, span),
{
    let facts = match file_numbered(files, span.file) {
        Some(facts) => facts,
        None => return None,
    };
    let uri = match world.client_uri_for_vfs_url(facts.url.as_str()) {
        Some(uri) => uri,
        None => return None,
    };
    let range = match world.line_index(&uri) {
        Some(index) => index.range(span.start, span.end),
        None => return None,
    };
    Some(Location { uri, range })
}

pub open spec fn is_entry_for(entry: ExprEntry, body: BodyId, expr: int) -> bool {
    entry.body == body && entry.expr == expr
}

/// The smallest expression at an offset, with what it stands for.
pub open spec fn expr_entry_at(facts: SourceFacts, offset: u32) -> Option<(Expr, ExprEntry)> {
    match owner_at(&facts.module, facts.file, offset) {
        Some(owner) => match (
            map_of(facts, owner.root_body.id),
            innermost(*owner.root_body, facts.file, offset),
        ) {
            (Some(found), Some(at)) => {
                let body = body_tree(*owner.root_body)[at.body];
                match find(
                    found.map.exprs@,
                    |entry: ExprEntry| is_entry_for(entry, body.id, at.expr),
                ) {
                    Some(entry) => Some((body.exprs@[at.expr], entry)),
                    None => None,
                }
            },
            _ => None,
        },
        None => None,
    }
}

pub fn resolved_expr_at(facts: &SourceFacts, offset: u32) -> (found: Option<(&Expr, &ExprEntry)>)
    ensures
        match found {
            Some((expr, entry)) => expr_entry_at(*facts, offset) == Some((*expr, *entry)),
            None => expr_entry_at(*facts, offset) is None,
        },
{
    let owner = match function_owning_offset(&facts.module, facts.file, offset) {
        Some(owner) => owner,
        None => return None,
    };
    let body_facts = match body_resolution_map(facts, owner.root_body.id) {
        Some(body_facts) => body_facts,
        None => return None,
    };
    let (body, expr) = match innermost_expr(owner.root_body, facts.file, offset) {
        Some(found) => found,
        None => return None,
    };
    let id = body.id;
    let same = |entry: &ExprEntry| -> (same: bool)
        ensures
            same == is_entry_for(*entry, id, expr as int),
    {
        entry.body == id && entry.expr == expr
    };
    match first_where(
        &body_facts.map.exprs,
        same,
        Ghost(|entry: ExprEntry| is_entry_for(entry, id, expr as int)),
    ) {
        Some(entry) => Some((&body.exprs[expr], entry)),
        None => None,
    }
}

} // verus!
