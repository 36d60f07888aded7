//! What holds of the texts that are shown for symbols and expressions.
use vstd::prelude::*;

use crate::analysis::{body_of, expr_entry_at, facts_numbered, map_of};
use crate::comments::documentation;
use crate::display::{
    callable_text, comptime_prefix, joined_by, name_texts, named_params, param_names,
    source_signature, ty_text, ty_texts, type_ref_text, type_ref_texts,
};
use crate::hir::{
    AdtDef, Analysis, BodyFacts, BodyId, BodyTypes, ClassDef, ContractDef, ContractItem, DefId,
    ExprEntry, ExprType, FieldId, FuncBody, FuncKind, FuncParam, FunctionDef, InstanceDef, Item,
    LetType, Module, Name, ParamId, PatKind, PatType, Resolution, SchemeFacts, SourceFacts, Span,
    StmtKind, Ty, TyScheme, TypeAlias, TypeRef,
};
use crate::hover::{
    body_owner, contract_item_definition, ctor_info, declared_scheme, def_info, definition_of,
    expr_hover, expr_type, field_info, function_definition, hover_in_file, identifier_at,
    is_type_of_expr, is_type_of_pat, item_definition, let_info, method_info, name_info, param_info,
    param_type, param_use_type, pat_type, pattern_info, scheme_of, tree_has, type_var_names,
    DefinitionParts, InfoParts, KeyParts,
};
use crate::inlay_hints::{is_let_of, let_type, types_of};
use crate::line_index::range_at;
use crate::reference_laws::expr_spells;
use crate::references::TargetParts;
use crate::rename::{rename_target_in_file, RenameParts};
use crate::resolve::{body_tree, contexts, innermost, owner_at, FunctionAtOffset};
use crate::seqs::{find, find_map, law_find, law_find_map, lemma_find_source};
use crate::tree_laws::{
    expr_at, has_function, law_body_tree, law_functions, law_innermost, law_owner, lies_in,
};

verus! {

/// Whether a text ends in another.
pub open spec fn ends_in(text: Seq<char>, end: Seq<char>) -> bool {
    end.len() <= text.len() && text.skip(text.len() - end.len()) == end
}

/// Whether a text starts with another.
pub open spec fn starts_with_text(text: Seq<char>, start: Seq<char>) -> bool {
    start.len() <= text.len() && text.take(start.len() as int) == start
}

proof fn lemma_ends_in(front: Seq<char>, end: Seq<char>)
    ensures
        ends_in(front + end, end),
        starts_with_text(front + end, front),
{
    assert((front + end).skip(front.len() as int) == end);
    assert((front + end).take(front.len() as int) == front);
}

/// The function that a body is looked up in holds it. None is found only where no function of the
/// module holds a body with that number.
pub proof fn law_body_owner(module: Module, id: BodyId)
    ensures
        body_owner(&module, id) matches Some(owner) ==> has_function(module, owner) && exists|
            body: FuncBody,
        | #[trigger]
            lies_in(*owner.root_body, body) && body.id == id,
        body_owner(&module, id) is None ==> forall|owner: FunctionAtOffset<'_>, body: FuncBody|
            #[trigger] has_function(module, owner) && #[trigger] lies_in(*owner.root_body, body)
                ==> body.id != id,
{
    let all = contexts(&module, module.items@.len());
    let test = |context: FunctionAtOffset<'_>| tree_has(*context.root_body, id);
    law_find(all, test);
    assert(body_owner(&module, id) == find(all, test));
    if body_owner(&module, id) is Some {
        let owner = body_owner(&module, id)->0;
        let tree = body_tree(*owner.root_body);
        assert(all.contains(owner));
        law_functions(module, owner);
        law_find(tree, |inner: FuncBody| inner.id == id);
        let body = find(tree, |inner: FuncBody| inner.id == id)->0;
        assert(tree.contains(body));
        law_body_tree(*owner.root_body, body);
    } else {
        assert forall|owner: FunctionAtOffset<'_>, body: FuncBody|
            #[trigger] has_function(module, owner) && #[trigger] lies_in(
                *owner.root_body,
                body,
            ) implies body.id != id by {
            law_functions(module, owner);
            law_body_tree(*owner.root_body, body);
            let k = choose|k: int| 0 <= k < all.len() && all[k] == owner;
            assert(!test(all[k]));
            let tree = body_tree(*owner.root_body);
            law_find(tree, |inner: FuncBody| inner.id == id);
            let b = choose|b: int| 0 <= b < tree.len() && tree[b] == body;
            assert(tree[b].id != id);
        }
    }
}

/// What stands before the type of a parameter: its name, and the word for one that is known when
/// the program is compiled.
pub open spec fn param_lead(param: FuncParam) -> Seq<char> {
    match param {
        FuncParam::Typed { comptime, name, .. } => if comptime {
            "comptime "@ + name.text@ + ": "@
        } else {
            name.text@ + ": "@
        },
        FuncParam::Untyped { comptime, name } => if comptime {
            "comptime "@ + name.text@ + ": "@
        } else {
            name.text@ + ": "@
        },
        FuncParam::Error { .. } => Seq::empty(),
    }
}

proof fn lemma_lead(comptime: bool, name: Seq<char>)
    ensures
        comptime_prefix(comptime) + name + ": "@ == if comptime {
            "comptime "@ + name + ": "@
        } else {
            name + ": "@
        },
{
    assert(Seq::<char>::empty() + name == name);
}

/// A parameter of a function is shown with its own name and its own type: the hover of the one
/// with an index ends in the text of the type at that index in the inferred type of the function.
pub proof fn law_param_hover(
    facts: SourceFacts,
    owner: FunctionAtOffset<'_>,
    types: BodyTypes,
    params: Seq<Ty>,
    index: usize,
)
    requires
        body_owner(&facts.module, owner.root_body.id) == Some(owner),
        types_of(facts, owner.root_body.id) == Some(types),
        types.scheme.ty matches Ty::Function { params: own, .. } && own@ == params,
        index < params.len(),
        index < owner.function.sig.params@.len(),
        !(owner.function.sig.params@[index as int] is Error),
    ensures
        param_info(facts, ParamId { body: owner.root_body.id, index }) matches Some(info)
            && info.code == param_lead(owner.function.sig.params@[index as int]) + ty_text(
            params[index as int],
            type_var_names(owner),
        ) && ends_in(info.code, ty_text(params[index as int], type_var_names(owner)))
            && starts_with_text(
            info.code,
            param_lead(owner.function.sig.params@[index as int]),
        ),
{
    let param = owner.function.sig.params@[index as int];
    let text = ty_text(params[index as int], type_var_names(owner));
    match param {
        FuncParam::Typed { comptime, name, .. } => lemma_lead(comptime, name.text@),
        FuncParam::Untyped { comptime, name } => lemma_lead(comptime, name.text@),
        FuncParam::Error { .. } => {},
    }
    lemma_ends_in(param_lead(param), text);
}

/// Two parameters of a function whose types are written differently are shown differently: behind
/// their names, their hovers differ.
pub proof fn law_param_hovers_differ(
    facts: SourceFacts,
    owner: FunctionAtOffset<'_>,
    types: BodyTypes,
    params: Seq<Ty>,
    i: usize,
    j: usize,
)
    requires
        body_owner(&facts.module, owner.root_body.id) == Some(owner),
        types_of(facts, owner.root_body.id) == Some(types),
        types.scheme.ty matches Ty::Function { params: own, .. } && own@ == params,
        i < params.len() && i < owner.function.sig.params@.len(),
        j < params.len() && j < owner.function.sig.params@.len(),
        !(owner.function.sig.params@[i as int] is Error),
        !(owner.function.sig.params@[j as int] is Error),
        ty_text(params[i as int], type_var_names(owner)) != ty_text(
            params[j as int],
            type_var_names(owner),
        ),
    ensures
        ({
            let first = param_info(facts, ParamId { body: owner.root_body.id, index: i });
            let second = param_info(facts, ParamId { body: owner.root_body.id, index: j });
            first is Some && second is Some && first->0.code.skip(
                param_lead(owner.function.sig.params@[i as int]).len() as int,
            ) != second->0.code.skip(
                param_lead(owner.function.sig.params@[j as int]).len() as int,
            )
        }),
{
    law_param_hover(facts, owner, types, params, i);
    law_param_hover(facts, owner, types, params, j);
    let a = param_lead(owner.function.sig.params@[i as int]);
    let b = param_lead(owner.function.sig.params@[j as int]);
    let x = ty_text(params[i as int], type_var_names(owner));
    let y = ty_text(params[j as int], type_var_names(owner));
    assert((a + x).skip(a.len() as int) == x);
    assert((b + y).skip(b.len() as int) == y);
}

/// A parameter whose type was not inferred is shown with the type that is written for it, and
/// with a blank where none is.
pub proof fn law_param_hover_written(facts: SourceFacts, owner: FunctionAtOffset<'_>, index: usize)
    requires
        body_owner(&facts.module, owner.root_body.id) == Some(owner),
        types_of(facts, owner.root_body.id) is None,
        index < owner.function.sig.params@.len(),
    ensures
        owner.function.sig.params@[index as int] matches FuncParam::Typed { ty, .. } ==> (param_info(
            facts,
            ParamId { body: owner.root_body.id, index },
        ) matches Some(info) && ends_in(info.code, type_ref_text(ty))),
        owner.function.sig.params@[index as int] matches FuncParam::Untyped { .. } ==> (param_info(
            facts,
            ParamId { body: owner.root_body.id, index },
        ) matches Some(info) && ends_in(info.code, "_"@)),
{
    match owner.function.sig.params@[index as int] {
        FuncParam::Typed { comptime, name, ty } => lemma_ends_in(
            comptime_prefix(comptime) + name.text@ + ": "@,
            type_ref_text(ty),
        ),
        FuncParam::Untyped { comptime, name } => lemma_ends_in(
            comptime_prefix(comptime) + name.text@ + ": "@,
            "_"@,
        ),
        _ => {},
    }
}

/// A parameter of a lambda is shown with the type of one of its own uses.
pub proof fn law_lambda_param_type(
    facts: SourceFacts,
    root: BodyId,
    types: BodyTypes,
    found: BodyFacts,
    param: ParamId,
)
    requires
        types_of(facts, root) == Some(types),
        map_of(facts, root) == Some(found),
        param.body != root,
    ensures
        param_type(facts, root, param) matches Some(ty) ==> exists|k: int|
            0 <= k < found.map.exprs@.len() && (#[trigger] found.map.exprs@[k]).resolution
                == Resolution::Param(param) && expr_type(
                types,
                found.map.exprs@[k].body,
                found.map.exprs@[k].expr,
            ) == Some(ty),
        param_type(facts, root, param) is None ==> forall|k: int|
            0 <= k < found.map.exprs@.len() && (#[trigger] found.map.exprs@[k]).resolution
                == Resolution::Param(param) ==> expr_type(
                types,
                found.map.exprs@[k].body,
                found.map.exprs@[k].expr,
            ) is None,
{
    let f = |entry: ExprEntry| param_use_type(types, entry, param);
    law_find_map(found.map.exprs@, f);
    assert(param_type(facts, root, param) == find_map(found.map.exprs@, f));
    if find_map(found.map.exprs@, f) is Some {
        let k = lemma_find_source(found.map.exprs@, f);
        assert(found.map.exprs@[k].resolution == Resolution::Param(param));
    }
}

/// The type of an expression, of a `let` binding or of a pattern is the one that is recorded for
/// it: for its body and its index. None is given only where none is recorded.
pub proof fn law_recorded_types(types: BodyTypes, body: BodyId, index: usize)
    ensures
        expr_type(types, body, index) matches Some(ty) ==> exists|k: int|
            0 <= k < types.exprs@.len() && (#[trigger] types.exprs@[k]).body == body
                && types.exprs@[k].expr == index && types.exprs@[k].ty == ty,
        expr_type(types, body, index) is None ==> forall|k: int|
            0 <= k < types.exprs@.len() ==> !((#[trigger] types.exprs@[k]).body == body
                && types.exprs@[k].expr == index),
        let_type(types, body, index) matches Some(entry) ==> types.lets@.contains(entry)
            && entry.body == body && entry.stmt == index,
        let_type(types, body, index) is None ==> forall|k: int|
            0 <= k < types.lets@.len() ==> !((#[trigger] types.lets@[k]).body == body
                && types.lets@[k].stmt == index),
        pat_type(types, body, index) matches Some(ty) ==> exists|k: int|
            0 <= k < types.pats@.len() && (#[trigger] types.pats@[k]).body == body
                && types.pats@[k].pat == index && types.pats@[k].ty == ty,
        pat_type(types, body, index) is None ==> forall|k: int|
            0 <= k < types.pats@.len() ==> !((#[trigger] types.pats@[k]).body == body
                && types.pats@[k].pat == index),
{
    law_find(types.exprs@, |entry: ExprType| is_type_of_expr(entry, body, index));
    law_find(types.lets@, |entry: LetType| is_let_of(entry, body, index));
    law_find(types.pats@, |entry: PatType| is_type_of_pat(entry, body, index));
}

/// The types of a function's bodies are those that are recorded for its own body.
pub proof fn law_types_of(facts: SourceFacts, root: BodyId)
    ensures
        types_of(facts, root) matches Some(types) ==> facts.types@.contains(types) && types.root
            == root,
        types_of(facts, root) is None ==> forall|k: int|
            0 <= k < facts.types@.len() ==> (#[trigger] facts.types@[k]).root != root,
{
    law_find(facts.types@, |types: BodyTypes| types.root == root);
}

/// A `let` binding is shown with its own name and the type that was inferred for that very
/// statement.
pub proof fn law_let_hover(
    facts: SourceFacts,
    owner: FunctionAtOffset<'_>,
    types: BodyTypes,
    body: FuncBody,
    stmt: usize,
    name: Name,
    entry: LetType,
)
    requires
        body_owner(&facts.module, body.id) == Some(owner),
        types_of(facts, owner.root_body.id) == Some(types),
        body_of(facts.module, body.id) == Some(body),
        stmt < body.stmts@.len(),
        body.stmts@[stmt as int].kind matches StmtKind::Let { name: own, .. } && own == name,
        let_type(types, body.id, stmt) == Some(entry),
    ensures
        let_info(facts, body.id, stmt) matches Some(info) && ends_in(
            info.code,
            "let "@ + name.text@ + ": "@ + ty_text(entry.ty, type_var_names(owner)),
        ),
{
    match body.stmts@[stmt as int].kind {
        StmtKind::Let { comptime, .. } => {
            let lead = comptime_prefix(comptime);
            let rest = "let "@ + name.text@ + ": "@ + ty_text(entry.ty, type_var_names(owner));
            lemma_ends_in(lead, rest);
            assert(lead + "let "@ + name.text@ + ": "@ + ty_text(entry.ty, type_var_names(owner))
                == lead + rest);
        },
        _ => {},
    }
}

/// A variable of a pattern is shown with its own name and the type that was inferred for that
/// very pattern.
pub proof fn law_pattern_hover(
    facts: SourceFacts,
    owner: FunctionAtOffset<'_>,
    types: BodyTypes,
    body: FuncBody,
    pat: usize,
    name: Name,
    ty: Ty,
)
    requires
        body_owner(&facts.module, body.id) == Some(owner),
        types_of(facts, owner.root_body.id) == Some(types),
        body_of(facts.module, body.id) == Some(body),
        pat < body.pats@.len(),
        body.pats@[pat as int].kind == (PatKind::Var { name }),
        pat_type(types, body.id, pat) == Some(ty),
    ensures
        pattern_info(facts, body.id, pat) matches Some(info) && info.code == name.text@ + ": "@
            + ty_text(ty, type_var_names(owner)),
{
}

/// An expression without a name is shown by its own type: that of the smallest expression at the
/// offset.
pub proof fn law_expression_hover(
    text: Seq<char>,
    facts: SourceFacts,
    offset: u32,
    owner: FunctionAtOffset<'_>,
    types: BodyTypes,
)
    requires
        owner_at(&facts.module, facts.file, offset) == Some(owner),
        types_of(facts, owner.root_body.id) == Some(types),
    ensures
        expr_hover(text, facts, offset) matches Some(hover) ==> exists|body: FuncBody, i: int|
            #[trigger] expr_at(*owner.root_body, body, i, facts.file, offset) && (forall|
                other: FuncBody,
                j: int,
            | #[trigger]
                expr_at(*owner.root_body, other, j, facts.file, offset)
                    ==> body.exprs@[i].span.width() <= other.exprs@[j].span.width()) && (expr_type(
                types,
                body.id,
                i as usize,
            ) matches Some(ty) && hover.info.code == ty_text(ty, type_var_names(owner))),
{
    law_innermost(*owner.root_body, facts.file, offset);
    law_owner(facts.module, facts.file, offset);
    if expr_hover(text, facts, offset) is Some {
        let at = innermost(*owner.root_body, facts.file, offset)->0;
        let body = body_tree(*owner.root_body)[at.body];
        assert(expr_at(*owner.root_body, body, at.expr, facts.file, offset));
    }
}

/// The names of type variables in the text of a type are those of the function, behind those of
/// the contract or instance around it.
pub proof fn law_type_var_names(owner: FunctionAtOffset<'_>, index: int)
    ensures
        ({
            let own = owner.function.sig.type_vars@;
            let around = match owner.inherited_type_vars {
                Some((_, names)) => names@,
                None => Seq::empty(),
            };
            let names = type_var_names(owner);
            &&& names.len() == around.len() + own.len()
            &&& 0 <= index < around.len() ==> names[index] == around[index].text@
            &&& 0 <= index < own.len() ==> names[around.len() + index] == own[index].text@
        }),
{
}

/// Where the name at an offset stands for a symbol, what is shown is what is known of that symbol.
/// Only where it stands for none is the expression shown.
pub proof fn law_hover_of_symbol(
    analysis: Analysis,
    text: Seq<char>,
    facts: SourceFacts,
    offset: u32,
    target: TargetParts,
    info: InfoParts,
)
    requires
        rename_target_in_file(analysis.files@, facts, offset) == Some(RenameParts::Symbol(target)),
        match target {
            TargetParts::Def(def) => def_info(analysis, def) == Some(info),
            TargetParts::Ctor { ty, index } => ctor_info(analysis, ty, index) == Some(info),
            TargetParts::Param(param) => param_info(facts, param) == Some(info),
            TargetParts::Let { body, stmt } => let_info(facts, body, stmt) == Some(info),
            TargetParts::Pattern { body, pat } => pattern_info(facts, body, pat) == Some(info),
            TargetParts::TypeVar { name, .. } => info == (InfoParts {
                code: "type parameter "@ + name,
                documentation: None,
            }),
            TargetParts::Field(field) => field_info(analysis, field) == Some(info),
            TargetParts::ClassMethod { class, name } => method_info(analysis, class, name) == Some(
                info,
            ),
        },
    ensures
        hover_in_file(analysis, text, facts, offset) matches Some(hover) && hover.info == info,
{
}

/// Whether an item of a contract is a definition. Its functions and types know the contract's
/// type parameters.
pub open spec fn member_is(
    item: ContractItem,
    def: DefId,
    around: Seq<Name>,
    definition: DefinitionParts,
) -> bool {
    match item {
        ContractItem::FunctionDef(function) => function.def == def && definition == (
        DefinitionParts::Function {
            function,
            names: name_texts(around) + name_texts(function.sig.type_vars@),
        }),
        ContractItem::TypeAlias(alias) => alias.def == def && definition
            == DefinitionParts::TypeAlias(alias),
        ContractItem::AdtDef(adt) => adt.def == def && definition == (DefinitionParts::Adt {
            adt,
            names: name_texts(around) + name_texts(adt.params@),
        }),
        ContractItem::Error { .. } => false,
    }
}

/// Whether an item, or one that stands in it, is a definition.
pub open spec fn item_is(item: Item, def: DefId, definition: DefinitionParts) -> bool {
    match item {
        Item::FunctionDef(function) => function.def == def && definition == (
        DefinitionParts::Function { function, names: name_texts(function.sig.type_vars@) }),
        Item::TypeAlias(alias) => alias.def == def && definition == DefinitionParts::TypeAlias(
            alias,
        ),
        Item::AdtDef(adt) => adt.def == def && definition == (DefinitionParts::Adt {
            adt,
            names: name_texts(adt.params@),
        }),
        Item::ClassDef(class) => class.def == def && definition == DefinitionParts::Class(class),
        Item::InstanceDef(instance) => if instance.def == def {
            definition == DefinitionParts::Instance(instance)
        } else {
            exists|j: int|
                0 <= j < instance.methods@.len() && (#[trigger] instance.methods@[j]).def == def
                    && definition == (DefinitionParts::Function {
                    function: instance.methods@[j],
                    names: name_texts(instance.type_vars@) + name_texts(
                        instance.methods@[j].sig.type_vars@,
                    ),
                })
        },
        Item::ContractDef(contract) => if contract.def == def {
            definition == DefinitionParts::Contract(contract)
        } else {
            exists|j: int|
                0 <= j < contract.items@.len() && member_is(
                    #[trigger] contract.items@[j],
                    def,
                    contract.params@,
                    definition,
                )
        },
        _ => false,
    }
}

proof fn lemma_item_definition(item: Item, def: DefId)
    ensures
        item_definition(item, def) matches Some(definition) ==> item_is(item, def, definition),
        item_definition(item, def) is None ==> forall|definition: DefinitionParts| !#[trigger]
            item_is(item, def, definition),
{
    match item {
        Item::FunctionDef(function) => {
            assert(name_texts(Seq::<Name>::empty()) + name_texts(function.sig.type_vars@)
                == name_texts(function.sig.type_vars@));
        },
        Item::InstanceDef(instance) => {
            let f = |method: FunctionDef| function_definition(method, def, instance.type_vars@);
            law_find_map(instance.methods@, f);
            if instance.def != def {
                if find_map(instance.methods@, f) is Some {
                    let j = lemma_find_source(instance.methods@, f);
                    assert(instance.methods@[j].def == def);
                } else {
                    assert forall|definition: DefinitionParts| !#[trigger]
                        item_is(item, def, definition) by {
                        if item_is(item, def, definition) {
                            let j = choose|j: int|
                                0 <= j < instance.methods@.len() && (
                                #[trigger] instance.methods@[j]).def == def && definition == (
                                DefinitionParts::Function {
                                    function: instance.methods@[j],
                                    names: name_texts(instance.type_vars@) + name_texts(
                                        instance.methods@[j].sig.type_vars@,
                                    ),
                                });
                            assert(f(instance.methods@[j]) is None);
                        }
                    }
                }
            }
        },
        Item::ContractDef(contract) => {
            let f = |inner: ContractItem| contract_item_definition(inner, def, contract.params@);
            law_find_map(contract.items@, f);
            if contract.def != def {
                if find_map(contract.items@, f) is Some {
                    let j = lemma_find_source(contract.items@, f);
                    assert(member_is(
                        contract.items@[j],
                        def,
                        contract.params@,
                        find_map(contract.items@, f)->0,
                    ));
                } else {
                    assert forall|definition: DefinitionParts| !#[trigger]
                        item_is(item, def, definition) by {
                        if item_is(item, def, definition) {
                            let j = choose|j: int|
                                0 <= j < contract.items@.len() && member_is(
                                    #[trigger] contract.items@[j],
                                    def,
                                    contract.params@,
                                    definition,
                                );
                            assert(f(contract.items@[j]) is None);
                        }
                    }
                }
            }
        },
        _ => {},
    }
}

/// A definition that is found by its number is declared in the module under that number. None is
/// found only where the module declares none.
pub proof fn law_definition_found(module: Module, def: DefId)
    ensures
        definition_of(module, def) matches Some(definition) ==> exists|i: int|
            0 <= i < module.items@.len() && #[trigger] item_is(
                module.items@[i],
                def,
                definition,
            ),
        definition_of(module, def) is None ==> forall|i: int, definition: DefinitionParts|
            0 <= i < module.items@.len() ==> !#[trigger] item_is(module.items@[i], def, definition),
{
    let items = module.items@;
    let f = |item: Item| item_definition(item, def);
    law_find_map(items, f);
    if find_map(items, f) is Some {
        let k = lemma_find_source(items, f);
        lemma_item_definition(items[k], def);
        assert(item_is(items[k], def, find_map(items, f)->0));
    } else {
        assert forall|i: int, definition: DefinitionParts| 0 <= i < items.len() implies !#[trigger] item_is(
            items[i],
            def,
            definition,
        ) by {
            lemma_item_definition(items[i], def);
            assert(f(items[i]) is None);
        }
    }
}

/// Whether a module declares one definition under a number.
pub open spec fn declares_only(module: Module, def: DefId, definition: DefinitionParts) -> bool {
    (exists|i: int|
        0 <= i < module.items@.len() && #[trigger] item_is(module.items@[i], def, definition))
        && forall|j: int, other: DefinitionParts|
        0 <= j < module.items@.len() && #[trigger] item_is(module.items@[j], def, other) ==> other
            == definition
}

proof fn lemma_declares_only(module: Module, def: DefId, definition: DefinitionParts)
    requires
        declares_only(module, def, definition),
    ensures
        definition_of(module, def) == Some(definition),
{
    law_definition_found(module, def);
    let i = choose|i: int|
        0 <= i < module.items@.len() && #[trigger] item_is(module.items@[i], def, definition);
    if definition_of(module, def) is None {
        assert(!item_is(module.items@[i], def, definition));
    }
}

/// The scheme of a symbol is the one that is recorded for it, where its file is a module.
pub proof fn law_scheme_found(schemes: Seq<SchemeFacts>, facts: SourceFacts, key: KeyParts)
    ensures
        declared_scheme(schemes, facts, key) matches Some(found) ==> facts.is_module
            && schemes.contains(found) && found.key@ == key,
        facts.is_module && declared_scheme(schemes, facts, key) is None ==> forall|k: int|
            0 <= k < schemes.len() ==> (#[trigger] schemes[k]).key@ != key,
        !facts.is_module ==> declared_scheme(schemes, facts, key) is None,
{
    assert(seq![key][0] == key);
    assert(scheme_of(schemes, seq![key][0]) == scheme_of(schemes, key));
    law_find(schemes, |facts: SchemeFacts| facts.key@ == seq![key][0]);
}

/// Whether a text shows a parameter: by its name, where it has one, and its type.
pub open spec fn is_param_text(ty: Ty, name: Option<Seq<char>>, names: Seq<Seq<char>>, text: Seq<char>) -> bool {
    match name {
        Some(name) => text == name + ": "@ + ty_text(ty, names),
        None => text == ty_text(ty, names),
    }
}

/// What is shown of something that can be called: its name, its parameters in their order, each
/// with its name where it has one, and its result.
pub proof fn law_callable_text(
    name: Seq<char>,
    params: Seq<Seq<char>>,
    names: Seq<Seq<char>>,
    scheme: TyScheme,
    types: Seq<Ty>,
    ret: Ty,
    shown: Seq<Seq<char>>,
)
    requires
        scheme.ty matches Ty::Function { params: p, ret: r } && p@ == types && *r == ret,
        shown.len() == types.len(),
        types.len() <= usize::MAX,
        forall|i: int|
            0 <= i < types.len() ==> is_param_text(
                types[i],
                if i < params.len() {
                    Some(params[i])
                } else {
                    None
                },
                names,
                #[trigger] shown[i],
            ),
    ensures
        starts_with_text(
            callable_text(name, params, names, scheme),
            name + seq!['('] + joined_by(shown, ", "@) + ") -> "@ + ty_text(ret, names),
        ),
        scheme.preds@.len() == 0 ==> ends_in(
            callable_text(name, params, names, scheme),
            ") -> "@ + ty_text(ret, names),
        ),
        starts_with_text(callable_text(name, params, names, scheme), name + seq!['(']),
{
    assert(named_params(types, params, names) == shown) by {
        assert forall|i: int| 0 <= i < types.len() implies named_params(types, params, names)[i]
            == #[trigger] shown[i] by {}
    }
    let front = name + seq!['('];
    let inner = joined_by(shown, ", "@);
    let back = ") -> "@ + ty_text(ret, names);
    let signature = name + seq!['('] + inner + ") -> "@ + ty_text(ret, names);
    assert(signature == front + inner + back);
    lemma_ends_in(front + inner, back);
    assert(signature == front + (inner + back));
    lemma_ends_in(front, inner + back);
    let text = callable_text(name, params, names, scheme);
    if scheme.preds@.len() > 0 {
        let rest = text.skip(signature.len() as int);
        assert(text.take(signature.len() as int) == signature);
        assert(text.take(front.len() as int) == signature.take(front.len() as int));
    } else {
        assert(text.take(signature.len() as int) == signature);
    }
}

/// The names of parameters that could be read stand in their order.
pub proof fn law_param_names(params: Seq<FuncParam>, i: int)
    requires
        0 <= i < params.len(),
        forall|k: int| 0 <= k < params.len() ==> !((#[trigger] params[k]) is Error),
    ensures
        param_names(params).len() == params.len(),
        params[i] matches FuncParam::Typed { name, .. } ==> param_names(params)[i] == name.text@,
        params[i] matches FuncParam::Untyped { name, .. } ==> param_names(params)[i] == name.text@,
    decreases params.len(),
{
    let front = params.drop_last();
    assert forall|k: int| 0 <= k < front.len() implies !((#[trigger] front[k]) is Error) by {
        assert(!(params[k] is Error));
    }
    assert(!(params[params.len() - 1] is Error));
    if front.len() > 0 {
        law_param_names(
            front,
            if i < front.len() {
                i
            } else {
                0
            },
        );
    } else {
        assert(param_names(front).len() == 0);
    }
}

/// The texts of a list of types are those of its types, in their order.
pub proof fn law_type_texts(types: Seq<Ty>, count: nat, names: Seq<Seq<char>>)
    requires
        count <= types.len(),
    ensures
        ty_texts(types, count, names).len() == count,
        forall|i: int|
            0 <= i < count ==> #[trigger] ty_texts(types, count, names)[i] == ty_text(types[i], names),
    decreases count,
{
    if count > 0 {
        law_type_texts(types, (count - 1) as nat, names);
    }
}

/// The texts of a list of written types are those of its types, in their order.
pub proof fn law_written_type_texts(types: Seq<TypeRef>, count: nat)
    requires
        count <= types.len(),
    ensures
        type_ref_texts(types, count).len() == count,
        forall|i: int|
            0 <= i < count ==> #[trigger] type_ref_texts(types, count)[i] == type_ref_text(types[i]),
    decreases count,
{
    if count > 0 {
        law_written_type_texts(types, (count - 1) as nat);
    }
}

/// Types are written so: a variable by its own name, a name with its arguments behind it, a
/// function by its parameters and then its result, a tuple by its elements.
pub proof fn law_type_text(ty: Ty, names: Seq<Seq<char>>)
    ensures
        ty matches Ty::BoundVar { index } ==> (index < names.len() ==> ty_text(ty, names)
            == names[index as int]),
        ty matches Ty::Named { name, args } ==> starts_with_text(ty_text(ty, names), name@) && (
        args@.len() == 0 ==> ty_text(ty, names) == name@) && (args@.len() == 1 ==> ty_text(ty, names)
            == name@ + seq!['('] + ty_text(args@[0], names) + seq![')']),
        ty matches Ty::Function { params, ret } ==> ends_in(
            ty_text(ty, names),
            ") -> "@ + ty_text(*ret, names),
        ) && (params@.len() == 1 ==> ty_text(ty, names) == seq!['('] + ty_text(params@[0], names)
            + ") -> "@ + ty_text(*ret, names)),
        ty matches Ty::Tuple { elems } ==> (elems@.len() == 2 ==> ty_text(ty, names) == seq!['(']
            + (ty_text(elems@[0], names) + ", "@ + ty_text(elems@[1], names)) + seq![')']),
        ty matches Ty::Comptime { inner } ==> ty_text(ty, names) == "comptime "@ + ty_text(
            *inner,
            names,
        ),
{
    match ty {
        Ty::Named { name, args } => {
            law_type_texts(args@, args@.len(), names);
            assert(name@ + Seq::<char>::empty() == name@);
            assert(name@.take(name@.len() as int) == name@);
            if args@.len() > 0 {
                let rest = seq!['('] + joined_by(ty_texts(args@, args@.len(), names), ", "@) + seq![
                    ')',
                ];
                lemma_ends_in(name@, rest);
                assert(ty_text(ty, names) == name@ + rest);
            }
            if args@.len() == 1 {
                assert(ty_texts(args@, 1, names)[0] == ty_text(args@[0], names));
            }
        },
        Ty::Function { params, ret } => {
            law_type_texts(params@, params@.len(), names);
            let front = seq!['('] + joined_by(ty_texts(params@, params@.len(), names), ", "@);
            let back = ") -> "@ + ty_text(*ret, names);
            lemma_ends_in(front, back);
            assert(ty_text(ty, names) == front + back);
            if params@.len() == 1 {
                assert(ty_texts(params@, 1, names)[0] == ty_text(params@[0], names));
            }
        },
        Ty::Tuple { elems } => {
            law_type_texts(elems@, elems@.len(), names);
            if elems@.len() == 2 {
                let texts = ty_texts(elems@, 2, names);
                assert(texts[0] == ty_text(elems@[0], names));
                assert(texts[1] == ty_text(elems@[1], names));
                assert(texts.drop_last().len() == 1 && texts.drop_last()[0] == texts[0]);
                assert(joined_by(texts.drop_last(), ", "@) == texts[0]);
            }
        },
        _ => {},
    }
}

/// A function is shown by the word for its kind and its own name, a type alias, a data type, a
/// class, an instance and a contract each by its own word and name, and each with its own
/// comments.
pub proof fn law_definition_hover(
    analysis: Analysis,
    facts: SourceFacts,
    def: DefId,
    definition: DefinitionParts,
)
    requires
        facts_numbered(analysis.files@, def.file) == Some(facts),
        declares_only(facts.module, def, definition),
    ensures
        def_info(analysis, def) matches Some(info) && match definition {
            DefinitionParts::Function { function, names } => info.documentation == documentation(
                function.comments@,
            ) && match function.kind {
                FuncKind::Function => starts_with_text(
                    info.code,
                    "function "@ + (function.sig.name.text@ + seq!['(']),
                ),
                FuncKind::Constructor => starts_with_text(
                    info.code,
                    "constructor "@ + (function.sig.name.text@ + seq!['(']),
                ),
                FuncKind::Fallback => starts_with_text(
                    info.code,
                    "fallback "@ + (function.sig.name.text@ + seq!['(']),
                ),
            },
            DefinitionParts::TypeAlias(alias) => info.documentation == documentation(
                alias.comments@,
            ) && starts_with_text(info.code, "type "@ + alias.name.text@) && ends_in(
                info.code,
                " = "@ + type_ref_text(alias.ty),
            ),
            DefinitionParts::Adt { adt, .. } => info.documentation == documentation(adt.comments@)
                && starts_with_text(info.code, "data "@ + adt.name.text@),
            DefinitionParts::Class(class) => info.documentation == documentation(class.comments@)
                && starts_with_text(info.code, "class "@ + type_ref_text(class.head.ty)),
            DefinitionParts::Instance(instance) => info.documentation == documentation(
                instance.comments@,
            ) && starts_with_text(info.code, "instance "@ + type_ref_text(instance.head.ty)),
            DefinitionParts::Contract(contract) => info.documentation == documentation(
                contract.comments@,
            ) && starts_with_text(info.code, "contract "@ + contract.name.text@),
        },
{
    lemma_declares_only(facts.module, def, definition);
    let info = def_info(analysis, def)->0;
    match definition {
        DefinitionParts::Function { function, names } => {
            let name = function.sig.name.text@;
            let word = match function.kind {
                FuncKind::Function => "function "@,
                FuncKind::Constructor => "constructor "@,
                FuncKind::Fallback => "fallback "@,
            };
            let rest = info.code.skip(word.len() as int);
            assert(starts_with_text(rest, name + seq!['('])) by {
                match declared_scheme(analysis.schemes@, facts, KeyParts::Function(function.def)) {
                    Some(found) => {
                        let text = callable_text(
                            name,
                            param_names(function.sig.params@),
                            names,
                            found.scheme,
                        );
                        lemma_callable_start(
                            name,
                            param_names(function.sig.params@),
                            names,
                            found.scheme,
                        );
                        assert(info.code == word + text);
                        assert(rest == text);
                    },
                    None => {
                        let text = source_signature(function.sig);
                        assert(info.code == word + text);
                        assert(rest == text);
                        assert(text.take(name.len() as int + 1) == name + seq!['(']);
                    },
                }
            }
            let lead = name + seq!['('];
            assert(info.code == word + rest);
            assert(info.code.take((word + lead).len() as int) == word + rest.take(
                lead.len() as int,
            ));
        },
        DefinitionParts::TypeAlias(alias) => {
            let lead = "type "@ + alias.name.text@;
            assert(info.code.take(lead.len() as int) == lead);
            let end = " = "@ + type_ref_text(alias.ty);
            assert(info.code.skip(info.code.len() - end.len()) == end);
        },
        DefinitionParts::Adt { adt, .. } => {
            let lead = "data "@ + adt.name.text@;
            assert(info.code.take(lead.len() as int) == lead);
        },
        DefinitionParts::Class(class) => {
            let lead = "class "@ + type_ref_text(class.head.ty);
            assert(info.code.take(lead.len() as int) == lead);
        },
        DefinitionParts::Instance(instance) => {
            let lead = "instance "@ + type_ref_text(instance.head.ty);
            assert(info.code.take(lead.len() as int) == lead);
        },
        DefinitionParts::Contract(contract) => {
            let lead = "contract "@ + contract.name.text@;
            assert(info.code.take(lead.len() as int) == lead);
        },
    }
}

proof fn lemma_callable_start(
    name: Seq<char>,
    params: Seq<Seq<char>>,
    names: Seq<Seq<char>>,
    scheme: TyScheme,
)
    ensures
        starts_with_text(callable_text(name, params, names, scheme), name + seq!['(']),
{
    let text = callable_text(name, params, names, scheme);
    assert(text.take(name.len() as int + 1) == name + seq!['(']);
}

/// A constructor is shown by its own name and with its own comments: those of the constructor at
/// its index.
pub proof fn law_constructor_hover(
    analysis: Analysis,
    facts: SourceFacts,
    adt: AdtDef,
    names: Seq<Seq<char>>,
    index: usize,
)
    requires
        facts_numbered(analysis.files@, adt.def.file) == Some(facts),
        declares_only(facts.module, adt.def, DefinitionParts::Adt { adt, names }),
        index < adt.ctors@.len(),
    ensures
        ctor_info(analysis, adt.def, index) matches Some(info) ==> starts_with_text(
            info.code,
            "constructor "@ + (adt.ctors@[index as int].name.text@ + seq!['(']),
        ) && info.documentation == documentation(adt.ctors@[index as int].comments@),
        ctor_info(analysis, adt.def, index) is Some <==> declared_scheme(
            analysis.schemes@,
            facts,
            KeyParts::Ctor { ty: adt.def, index },
        ) is Some,
{
    lemma_declares_only(facts.module, adt.def, DefinitionParts::Adt { adt, names });
    if ctor_info(analysis, adt.def, index) is Some {
        let found = declared_scheme(
            analysis.schemes@,
            facts,
            KeyParts::Ctor { ty: adt.def, index },
        )->0;
        let name = adt.ctors@[index as int].name.text@;
        let text = callable_text(name, Seq::empty(), names, found.scheme);
        let code = ctor_info(analysis, adt.def, index)->0.code;
        lemma_callable_start(name, Seq::empty(), names, found.scheme);
        assert(code == "constructor "@ + text);
        let lead = "constructor "@ + (name + seq!['(']);
        assert(code.take(lead.len() as int) == "constructor "@ + text.take(name.len() as int + 1));
    }
}

/// A field is shown by its own name, its own type and its own comments: those of the field at its
/// index.
pub proof fn law_field_hover(
    analysis: Analysis,
    facts: SourceFacts,
    contract: ContractDef,
    index: usize,
    found: SchemeFacts,
)
    requires
        facts_numbered(analysis.files@, contract.def.file) == Some(facts),
        declares_only(facts.module, contract.def, DefinitionParts::Contract(contract)),
        index < contract.fields@.len(),
        declared_scheme(
            analysis.schemes@,
            facts,
            KeyParts::Field(FieldId { contract: contract.def, index }),
        ) == Some(found),
    ensures
        field_info(analysis, FieldId { contract: contract.def, index }) matches Some(info)
            && info.code == contract.fields@[index as int].name.text@ + ": "@ + ty_text(
            found.scheme.ty,
            name_texts(contract.params@),
        ) && info.documentation == documentation(contract.fields@[index as int].comments@),
{
    lemma_declares_only(facts.module, contract.def, DefinitionParts::Contract(contract));
}

/// What is shown for a name is shown for the whole word at the offset.
pub proof fn law_hover_range(
    analysis: Analysis,
    text: Seq<char>,
    facts: SourceFacts,
    offset: u32,
)
    requires
        name_info(analysis, facts, offset) is Some,
    ensures
        hover_in_file(analysis, text, facts, offset) matches Some(hover) && Some(hover.info)
            == name_info(analysis, facts, offset) && match identifier_at(text, offset as int) {
            Some((start, end)) => hover.range == Some(range_at(text, start as int, end as int)),
            None => hover.range is None,
        },
{
}

/// A name that an import gives to a symbol is shown as such, by its own text. A name that resolves
/// to a module is shown by the module's name.
pub proof fn law_alias_hover(
    analysis: Analysis,
    text: Seq<char>,
    facts: SourceFacts,
    offset: u32,
)
    ensures
        rename_target_in_file(analysis.files@, facts, offset) matches Some(
            RenameParts::Alias { text: name, .. },
        ) ==> (hover_in_file(analysis, text, facts, offset) matches Some(hover) && hover.info.code
            == "import alias "@ + name),
        rename_target_in_file(analysis.files@, facts, offset) is None ==> (expr_entry_at(
            facts,
            offset,
        ) matches Some((expr, entry)) ==> (entry.resolution matches Resolution::Module { name }
            ==> forall|word: Seq<char>, span: Span|
            #[trigger] expr_spells(expr, word, span) && span.file == facts.file && span.start
                <= offset < span.end ==> (hover_in_file(
                analysis,
                text,
                facts,
                offset,
            ) matches Some(hover) && hover.info.code == "module "@ + name@))),
{
}

} // verus!
