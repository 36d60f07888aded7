//! What holds of the place that a name leads to.
use vstd::prelude::*;
use vstd::utf8::is_char_boundary;

use crate::analysis::{
    body_of, expr_entry_at, facts_numbered, is_entry_for, known_text, map_of, open_place_of,
    place_of,
};
use crate::declaration_laws::{
    declares, has_adt, has_params, law_ctor_declared, law_def_declared, law_field_declared,
    law_let_declared, law_method_declared, law_param_declared, law_pattern_declared, param_at,
};
use crate::declarations::{def_span, method_span, param_in_module};
use crate::definition::{definition_in_file, import_at, import_module_span, module_file, on_import};
use crate::hir::{
    AdtDef, BodyFacts, BodyId, ClassDef, ContractDef, ExprEntry, FieldId, FuncBody, FuncParam,
    Import, Item, LocalBinding, Name, NamedModule, ParamId, PatKind, Resolution, SourceFacts, Span,
    StmtKind,
};
use crate::line_index::{byte_at, law_position_round_trip};
use crate::protocol::LocationParts;
use crate::reference_laws::{denotes, expr_spells, lemma_denotes};
use crate::references::{declaration_span, target_in_file, TargetParts};
use crate::resolve::{body_tree, innermost, owner_at, FunctionAtOffset};
use crate::seqs::{law_find, law_find_map};
use crate::state::{client_uri, WorldModel};
use crate::text::utf8;
use crate::tree_laws::{expr_at, has_function, law_innermost, law_owner};

verus! {

/// What is known of the name at an offset is the entry of the smallest expression there, in the
/// names of the function that it stands in.
pub proof fn law_entry_at(facts: SourceFacts, offset: u32)
    ensures
        expr_entry_at(facts, offset) matches Some((expr, entry)) ==> exists|
            owner: FunctionAtOffset<'_>,
            body: FuncBody,
            i: int,
            found: BodyFacts,
        |
            #![trigger has_function(facts.module, owner), expr_at(*owner.root_body, body, i, facts.file, offset), facts.bodies@.contains(found)]
            {
                &&& has_function(facts.module, owner)
                &&& expr_at(*owner.root_body, body, i, facts.file, offset)
                &&& forall|other: FuncBody, j: int| #[trigger]
                    expr_at(*owner.root_body, other, j, facts.file, offset)
                        ==> body.exprs@[i].span.width() <= other.exprs@[j].span.width()
                &&& expr == body.exprs@[i]
                &&& facts.bodies@.contains(found)
                &&& found.root == owner.root_body.id
                &&& found.map.exprs@.contains(entry)
                &&& entry.body == body.id
                &&& entry.expr == i
            },
{
    if expr_entry_at(facts, offset) is Some {
        let (expr, entry) = expr_entry_at(facts, offset)->0;
        let owner = owner_at(&facts.module, facts.file, offset)->0;
        let found = map_of(facts, owner.root_body.id)->0;
        let at = innermost(*owner.root_body, facts.file, offset)->0;
        let body = body_tree(*owner.root_body)[at.body];
        law_owner(facts.module, facts.file, offset);
        law_innermost(*owner.root_body, facts.file, offset);
        law_find(facts.bodies@, |body: BodyFacts| body.root == owner.root_body.id);
        law_find(found.map.exprs@, |entry: ExprEntry| is_entry_for(entry, body.id, at.expr));
        assert(facts.bodies@.contains(found));
        assert(found.map.exprs@.contains(entry));
        assert(expr_at(*owner.root_body, body, at.expr, facts.file, offset));
    }
}

/// Where an expression refers to something by a name, and the offset is on that name, the symbol
/// at the offset is what the name resolves to.
pub proof fn law_symbol_of_expression(
    files: Seq<SourceFacts>,
    facts: SourceFacts,
    offset: u32,
    text: Seq<char>,
    span: Span,
    target: TargetParts,
)
    requires
        expr_entry_at(facts, offset) matches Some((expr, entry)) && expr_spells(expr, text, span)
            && denotes(entry.resolution, target),
        span.file == facts.file && span.start <= offset < span.end,
    ensures
        target_in_file(files, facts, offset) == Some(target),
{
    let (expr, entry) = expr_entry_at(facts, offset)->0;
    lemma_denotes(entry.resolution, target);
}

/// A name that a `let` statement binds leads to the name in that very statement.
pub proof fn law_definition_of_let(
    world: WorldModel,
    files: Seq<SourceFacts>,
    facts: SourceFacts,
    offset: u32,
    declaring: SourceFacts,
    body: FuncBody,
    stmt: usize,
    name: Name,
    place: LocationParts,
)
    requires
        expr_entry_at(facts, offset) matches Some((_, entry)) && entry.resolution
            == Resolution::Local(LocalBinding::Let { body: body.id, stmt }),
        facts_numbered(files, body.id.file) == Some(declaring),
        body_of(declaring.module, body.id) == Some(body),
        stmt < body.stmts@.len(),
        body.stmts@[stmt as int].kind matches StmtKind::Let { name: own, .. } && own == name,
        open_place_of(world, files, name.span) == Some(place),
    ensures
        definition_in_file(world, files, facts, offset) == Some(place),
{
    law_let_declared(files, declaring, body, stmt);
}

/// A name that a pattern binds leads to the variable of that very pattern.
pub proof fn law_definition_of_pattern(
    world: WorldModel,
    files: Seq<SourceFacts>,
    facts: SourceFacts,
    offset: u32,
    declaring: SourceFacts,
    body: FuncBody,
    pat: usize,
    name: Name,
    place: LocationParts,
)
    requires
        expr_entry_at(facts, offset) matches Some((_, entry)) && entry.resolution
            == Resolution::Local(LocalBinding::Pattern { body: body.id, pat }),
        facts_numbered(files, body.id.file) == Some(declaring),
        body_of(declaring.module, body.id) == Some(body),
        pat < body.pats@.len(),
        body.pats@[pat as int].kind == (PatKind::Var { name }),
        open_place_of(world, files, name.span) == Some(place),
    ensures
        definition_in_file(world, files, facts, offset) == Some(place),
{
    law_pattern_declared(files, declaring, body, pat);
}

/// A parameter leads to its own name in the list of its function or lambda.
pub proof fn law_definition_of_param(
    world: WorldModel,
    files: Seq<SourceFacts>,
    facts: SourceFacts,
    offset: u32,
    body: BodyId,
    params: Seq<FuncParam>,
    index: usize,
    span: Span,
    place: LocationParts,
)
    requires
        expr_entry_at(facts, offset) matches Some((_, entry)) && entry.resolution
            == Resolution::Param(ParamId { body, index }),
        has_params(facts.module, body, params),
        forall|other: Seq<FuncParam>| #[trigger]
            has_params(facts.module, body, other) ==> other == params,
        index < params.len(),
        param_at(params[index as int], span),
        open_place_of(world, files, span) == Some(place),
    ensures
        definition_in_file(world, files, facts, offset) == Some(place),
{
    law_param_declared(facts.module, body, params, index);
    assert(param_in_module(facts.module, ParamId { body, index }) == Some(span));
}

/// A constructor leads to its own name in the list of its type.
pub proof fn law_definition_of_constructor(
    world: WorldModel,
    files: Seq<SourceFacts>,
    facts: SourceFacts,
    offset: u32,
    declaring: SourceFacts,
    adt: AdtDef,
    index: usize,
    place: LocationParts,
)
    requires
        expr_entry_at(facts, offset) matches Some((_, entry)) && entry.resolution == (
        Resolution::Ctor { ty: adt.def, index }),
        facts_numbered(files, adt.def.file) == Some(declaring),
        has_adt(declaring.module, adt),
        forall|other: AdtDef| #[trigger]
            has_adt(declaring.module, other) && other.def == adt.def ==> other == adt,
        index < adt.ctors@.len(),
        open_place_of(world, files, adt.ctors@[index as int].name.span) == Some(place),
    ensures
        definition_in_file(world, files, facts, offset) == Some(place),
{
    law_ctor_declared(files, declaring, adt, index);
}

/// A definition leads to the name that it is declared by.
pub proof fn law_definition_of_item(
    world: WorldModel,
    files: Seq<SourceFacts>,
    facts: SourceFacts,
    offset: u32,
    declaring: SourceFacts,
    i: int,
    span: Span,
    place: LocationParts,
)
    requires
        expr_entry_at(facts, offset) matches Some((_, entry)) && (entry.resolution matches Resolution::Def {
            def,
            ..
        } && facts_numbered(files, def.file) == Some(declaring) && declares(
            declaring.module.items@[i],
            def,
            span,
        ) && forall|j: int, other: Span|
            0 <= j < declaring.module.items@.len() && #[trigger] declares(
                declaring.module.items@[j],
                def,
                other,
            ) ==> other == span),
        0 <= i < declaring.module.items@.len(),
        open_place_of(world, files, span) == Some(place),
    ensures
        definition_in_file(world, files, facts, offset) == Some(place),
{
    let (expr, entry) = expr_entry_at(facts, offset)->0;
    match entry.resolution {
        Resolution::Def { def, .. } => {
            law_def_declared(files, declaring, def);
            assert(def_span(files, def) == Some(span));
        },
        _ => {},
    }
}

/// A field leads to its own name in the list of its contract.
pub proof fn law_definition_of_field(
    world: WorldModel,
    files: Seq<SourceFacts>,
    facts: SourceFacts,
    offset: u32,
    declaring: SourceFacts,
    contract: ContractDef,
    index: usize,
    place: LocationParts,
)
    requires
        expr_entry_at(facts, offset) matches Some((_, entry)) && entry.resolution
            == Resolution::Field(FieldId { contract: contract.def, index }),
        facts_numbered(files, contract.def.file) == Some(declaring),
        declaring.module.items@.contains(Item::ContractDef(contract)),
        forall|other: ContractDef| #[trigger]
            declaring.module.items@.contains(Item::ContractDef(other)) && other.def == contract.def
                ==> other == contract,
        index < contract.fields@.len(),
        open_place_of(world, files, contract.fields@[index as int].name.span) == Some(place),
    ensures
        definition_in_file(world, files, facts, offset) == Some(place),
{
    law_field_declared(files, declaring, contract, index);
}

/// A method of a class leads to the name of the method of that name in the class.
pub proof fn law_definition_of_method(
    world: WorldModel,
    files: Seq<SourceFacts>,
    facts: SourceFacts,
    offset: u32,
    declaring: SourceFacts,
    class: ClassDef,
    k: int,
    place: LocationParts,
)
    requires
        0 <= k < class.methods@.len(),
        expr_entry_at(facts, offset) matches Some((_, entry)) && (entry.resolution matches Resolution::ClassMethod {
            class: c,
            name,
        } && c == class.def && name@ == class.methods@[k].sig.name.text@),
        facts_numbered(files, class.def.file) == Some(declaring),
        declaring.module.items@.contains(Item::ClassDef(class)),
        forall|other: ClassDef| #[trigger]
            declaring.module.items@.contains(Item::ClassDef(other)) && other.def == class.def
                ==> other == class,
        forall|j: int|
            0 <= j < k ==> (#[trigger] class.methods@[j]).sig.name.text@
                != class.methods@[k].sig.name.text@,
        open_place_of(world, files, class.methods@[k].sig.name.span) == Some(place),
    ensures
        definition_in_file(world, files, facts, offset) == Some(place),
{
    let name = class.methods@[k].sig.name.text@;
    law_method_declared(files, declaring, class, name);
    assert(method_span(files, class.def, name) == Some(class.methods@[k].sig.name.span));
}

/// The name of a module leads to the start of the file that the module is known to be in: by the
/// name itself, or else by where the name comes from.
pub proof fn law_definition_of_module(
    world: WorldModel,
    files: Seq<SourceFacts>,
    facts: SourceFacts,
    offset: u32,
    modules: Seq<NamedModule>,
    k: int,
    file: u32,
    place: LocationParts,
)
    requires
        0 <= k < modules.len(),
        modules[k].file == Some(file),
        forall|j: int| 0 <= j < k ==> (#[trigger] modules[j]).name@ != modules[k].name@,
        expr_entry_at(facts, offset) matches Some((_, entry)) && (entry.resolution matches Resolution::Module {
            name,
        } && name@ == modules[k].name@),
        modules == facts.env.modules@ || (modules == facts.env.module_origins@ && forall|j: int|
            0 <= j < facts.env.modules@.len() ==> (#[trigger] facts.env.modules@[j]).name@
                != modules[k].name@),
        open_place_of(world, files, (Span { file, start: 0, end: 0 })) == Some(place),
    ensures
        definition_in_file(world, files, facts, offset) == Some(place),
{
    let (expr, entry) = expr_entry_at(facts, offset)->0;
    match entry.resolution {
        Resolution::Module { name } => {
            law_find(facts.env.modules@, |module: NamedModule| module.name@ == name@);
            law_find(facts.env.module_origins@, |module: NamedModule| module.name@ == name@);
            assert(module_file(facts.env, name@) == Some(file));
        },
        _ => {},
    }
}

/// A word of the path of an import, or the name that the import gives to the module, leads to the
/// start of the imported module, where no expression does.
pub proof fn law_definition_of_import(
    world: WorldModel,
    files: Seq<SourceFacts>,
    facts: SourceFacts,
    offset: u32,
    i: int,
    import: Import,
    file: u32,
    place: LocationParts,
)
    requires
        expr_entry_at(facts, offset) is None,
        0 <= i < facts.module.items@.len(),
        facts.module.items@[i] == Item::Import(import),
        (exists|k: int|
            0 <= k < import.path@.len() && (#[trigger] import.path@[k]).span.file == facts.file
                && import.path@[k].span.start <= offset < import.path@[k].span.end) || (
        import.alias matches Some(alias) && alias.span.file == facts.file && alias.span.start
            <= offset < alias.span.end),
        forall|j: int|
            0 <= j < i ==> import_at(#[trigger] facts.module.items@[j], facts.file, offset) is None,
        import.target == Some(file),
        open_place_of(world, files, (Span { file, start: 0, end: 0 })) == Some(place),
    ensures
        definition_in_file(world, files, facts, offset) == Some(place),
{
    let f = |item: Item| import_at(item, facts.file, offset);
    law_find_map(facts.module.items@, f);
    assert(on_import(import, facts.file, offset)) by {
        if exists|k: int|
            0 <= k < import.path@.len() && (#[trigger] import.path@[k]).span.file == facts.file
                && import.path@[k].span.start <= offset < import.path@[k].span.end {
            let k = choose|k: int|
                0 <= k < import.path@.len() && (#[trigger] import.path@[k]).span.file == facts.file
                    && import.path@[k].span.start <= offset < import.path@[k].span.end;
            assert(import.path@[k].span.holds(facts.file, offset));
        }
    }
    assert(f(facts.module.items@[i]) is Some);
    assert(import_module_span(facts, offset) == Some(Span { file, start: 0, end: 0 }));
}

/// Another name that stands for a symbol leads to the declaration of that symbol.
pub proof fn law_definition_of_name(
    world: WorldModel,
    files: Seq<SourceFacts>,
    facts: SourceFacts,
    offset: u32,
    target: TargetParts,
    span: Span,
    place: LocationParts,
)
    requires
        expr_entry_at(facts, offset) is None,
        import_module_span(facts, offset) is None,
        target_in_file(files, facts, offset) == Some(target),
        declaration_span(files, target) == Some(span),
        open_place_of(world, files, span) == Some(place),
    ensures
        definition_in_file(world, files, facts, offset) == Some(place),
{
}

/// The place of a span is in the document that the client knows the file as, and its range reads
/// back as the start and the end of the span.
pub proof fn law_place(
    world: WorldModel,
    files: Seq<SourceFacts>,
    facts: SourceFacts,
    span: Span,
    text: Seq<char>,
)
    requires
        facts_numbered(files, span.file) == Some(facts),
        client_uri(world, facts.url@) matches Some(uri) && known_text(world, uri) == Some(text),
        utf8(text).len() < u32::MAX,
        span.start <= utf8(text).len(),
        span.end <= utf8(text).len(),
        is_char_boundary(utf8(text), span.start as int),
        is_char_boundary(utf8(text), span.end as int),
    ensures
        place_of(world, files, span) == open_place_of(world, files, span),
        open_place_of(world, files, span) matches Some(place) && Some(place.uri) == client_uri(
            world,
            facts.url@,
        ) && byte_at(text, place.range.start) == Some(span.start) && byte_at(text, place.range.end)
            == Some(span.end),
{
    law_position_round_trip(text, span.start as int);
    law_position_round_trip(text, span.end as int);
}

} // verus!
