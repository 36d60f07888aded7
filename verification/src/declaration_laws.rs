//! What holds of the places at which names are declared.
use vstd::prelude::*;

use crate::analysis::{body_of, facts_numbered};
use crate::declarations::{
    adt_in_contract_item, adt_in_item, adt_of, class_in_item, class_of, contract_in_item,
    contract_item_var_span, contract_of, ctor_span, def_span, def_span_in_contract_item,
    def_span_in_item, def_span_in_module, field_span, function_var_span, item_var_span,
    lambda_param_in_expr, lambda_param_span, let_span, method_span, param_in_context,
    param_in_module, param_name_span_of, pattern_span, type_var_span,
};
use crate::hir::{
    AdtDef, BodyId, ClassDef, ClassMethod, ContractDef, ContractItem, DefId, DefLocation, Expr,
    ExprKind, FieldId, FuncBody, FuncParam, FunctionDef, Item, Module, Name, ParamId, PatKind,
    SourceFacts, Span, StmtKind,
};
use crate::resolve::{body_tree, contexts, FunctionAtOffset};
use crate::seqs::{find_map, law_find, law_find_map, law_find_only, lemma_find_source};
use crate::tree_laws::{has_function, law_body_tree, law_functions, lies_in};

verus! {

/// Whether an item of a contract declares a definition, with its name at a place.
pub open spec fn member_declares(item: ContractItem, def: DefId, span: Span) -> bool {
    match item {
        ContractItem::FunctionDef(function) => function.def == def && function.sig.name.span == span,
        ContractItem::TypeAlias(alias) => alias.def == def && alias.name.span == span,
        ContractItem::AdtDef(adt) => adt.def == def && adt.name.span == span,
        ContractItem::Error { .. } => false,
    }
}

/// Whether an item declares a definition, with its name at a place. A class is named where its
/// head names it, an instance by its head. A contract also declares its members.
pub open spec fn declares(item: Item, def: DefId, span: Span) -> bool {
    match item {
        Item::FunctionDef(function) => function.def == def && function.sig.name.span == span,
        Item::TypeAlias(alias) => alias.def == def && alias.name.span == span,
        Item::AdtDef(adt) => adt.def == def && adt.name.span == span,
        Item::ClassDef(class) => class.def == def && class.head.class.span == span,
        Item::InstanceDef(instance) => instance.def == def && instance.head.span == span,
        Item::ContractDef(contract) => (contract.def == def && contract.name.span == span)
            || exists|j: int|
            0 <= j < contract.items@.len() && member_declares(
                #[trigger] contract.items@[j],
                def,
                span,
            ),
        _ => false,
    }
}

proof fn lemma_def_span_in_item(item: Item, def: DefId)
    ensures
        def_span_in_item(item, def) matches Some(span) ==> declares(item, def, span),
        def_span_in_item(item, def) is None ==> forall|span: Span| !#[trigger]
            declares(item, def, span),
{
    match item {
        Item::ContractDef(contract) => {
            let f = |inner: ContractItem| def_span_in_contract_item(inner, def);
            law_find_map(contract.items@, f);
            if contract.def != def {
                if find_map(contract.items@, f) is Some {
                    let j = lemma_find_source(contract.items@, f);
                    assert(member_declares(contract.items@[j], def, find_map(contract.items@, f)->0));
                } else {
                    assert forall|span: Span| !#[trigger] declares(item, def, span) by {
                        if declares(item, def, span) {
                            let j = choose|j: int|
                                0 <= j < contract.items@.len() && member_declares(
                                    #[trigger] contract.items@[j],
                                    def,
                                    span,
                                );
                            assert(f(contract.items@[j]) is None);
                        }
                    }
                }
            }
        },
        _ => {},
    }
}

/// A definition is declared where an item of its file names it. Where no item does, its recorded
/// place counts.
pub proof fn law_def_declared(files: Seq<SourceFacts>, facts: SourceFacts, def: DefId)
    requires
        facts_numbered(files, def.file) == Some(facts),
    ensures
        forall|i: int, span: Span|
            0 <= i < facts.module.items@.len() && #[trigger] declares(
                facts.module.items@[i],
                def,
                span,
            ) && (forall|j: int, other: Span|
                0 <= j < facts.module.items@.len() && #[trigger] declares(
                    facts.module.items@[j],
                    def,
                    other,
                ) ==> other == span) ==> def_span(files, def) == Some(span),
        def_span(files, def) matches Some(span) ==> (exists|i: int|
            0 <= i < facts.module.items@.len() && #[trigger] declares(
                facts.module.items@[i],
                def,
                span,
            )) || (span.file == def.file && exists|k: int|
            0 <= k < facts.def_locations@.len() && (#[trigger] facts.def_locations@[k]).def == def
                && span.start == facts.def_locations@[k].offset && span.end == span.start),
        def_span(files, def) is None ==> forall|i: int, span: Span|
            0 <= i < facts.module.items@.len() ==> !#[trigger] declares(
                facts.module.items@[i],
                def,
                span,
            ),
{
    let items = facts.module.items@;
    let f = |item: Item| def_span_in_item(item, def);
    law_find_map(items, f);
    law_find(facts.def_locations@, |location: DefLocation| location.def == def);
    assert(def_span_in_module(facts.module, def) == find_map(items, f));
    assert forall|i: int, span: Span|
        0 <= i < items.len() && #[trigger] declares(items[i], def, span) implies find_map(items, f) is Some by {
        lemma_def_span_in_item(items[i], def);
        if find_map(items, f) is None {
            assert(f(items[i]) is None);
        }
    }
    if find_map(items, f) is Some {
        let k = lemma_find_source(items, f);
        lemma_def_span_in_item(items[k], def);
        assert(declares(items[k], def, find_map(items, f)->0));
    }
}

/// Whether a module declares a type: as an item, or as an item of a contract.
pub open spec fn has_adt(module: Module, adt: AdtDef) -> bool {
    exists|i: int| 0 <= i < module.items@.len() && #[trigger] item_has_adt(module.items@[i], adt)
}

pub open spec fn item_has_adt(item: Item, adt: AdtDef) -> bool {
    match item {
        Item::AdtDef(own) => own == adt,
        Item::ContractDef(contract) => contract.items@.contains(ContractItem::AdtDef(adt)),
        _ => false,
    }
}

proof fn lemma_adt_in_item(item: Item, def: DefId)
    ensures
        adt_in_item(item, def) matches Some(adt) ==> adt.def == def && item_has_adt(item, adt),
        adt_in_item(item, def) is None ==> forall|adt: AdtDef| #[trigger]
            item_has_adt(item, adt) ==> adt.def != def,
{
    match item {
        Item::ContractDef(contract) => {
            let f = |inner: ContractItem| adt_in_contract_item(inner, def);
            law_find_map(contract.items@, f);
            if find_map(contract.items@, f) is Some {
                let j = lemma_find_source(contract.items@, f);
                assert(contract.items@[j] == ContractItem::AdtDef(find_map(contract.items@, f)->0));
            } else {
                assert forall|adt: AdtDef| #[trigger] item_has_adt(item, adt) implies adt.def
                    != def by {
                    let j = choose|j: int|
                        0 <= j < contract.items@.len() && contract.items@[j]
                            == ContractItem::AdtDef(adt);
                    assert(f(contract.items@[j]) is None);
                }
            }
        },
        _ => {},
    }
}

/// A type that is found by its number is declared in the module under that number. None is found
/// only where the module declares none.
pub proof fn law_adt_found(module: Module, def: DefId)
    ensures
        adt_of(module, def) matches Some(adt) ==> adt.def == def && has_adt(module, adt),
        adt_of(module, def) is None ==> forall|adt: AdtDef| #[trigger]
            has_adt(module, adt) ==> adt.def != def,
{
    let f = |item: Item| adt_in_item(item, def);
    let items = module.items@;
    law_find_map(items, f);
    if find_map(items, f) is Some {
        let k = lemma_find_source(items, f);
        lemma_adt_in_item(items[k], def);
        assert(item_has_adt(items[k], find_map(items, f)->0));
    } else {
        assert forall|adt: AdtDef| #[trigger] has_adt(module, adt) implies adt.def != def by {
            let k = choose|k: int| 0 <= k < items.len() && #[trigger] item_has_adt(items[k], adt);
            lemma_adt_in_item(items[k], def);
            assert(f(items[k]) is None);
        }
    }
}

/// A constructor is declared where its type lists it: the one with an index is named by the
/// constructor at that index. One that the type does not list is declared nowhere.
pub proof fn law_ctor_declared(
    files: Seq<SourceFacts>,
    facts: SourceFacts,
    adt: AdtDef,
    index: usize,
)
    requires
        facts_numbered(files, adt.def.file) == Some(facts),
        has_adt(facts.module, adt),
        forall|other: AdtDef| #[trigger]
            has_adt(facts.module, other) && other.def == adt.def ==> other == adt,
    ensures
        index < adt.ctors@.len() ==> ctor_span(files, adt.def, index) == Some(
            adt.ctors@[index as int].name.span,
        ),
        index >= adt.ctors@.len() ==> ctor_span(files, adt.def, index) is None,
{
    law_adt_found(facts.module, adt.def);
}

/// Whether a function or lambda of a module has a body with a number, and these parameters.
pub open spec fn has_params(module: Module, body: BodyId, params: Seq<FuncParam>) -> bool {
    exists|context: FunctionAtOffset<'_>| #[trigger]
        has_function(module, context) && takes(context, body, params)
}

/// Whether a function, or a lambda in it, has a body with a number, and these parameters.
pub open spec fn takes(context: FunctionAtOffset<'_>, body: BodyId, params: Seq<FuncParam>) -> bool {
    if context.root_body.id == body {
        params == context.function.sig.params@
    } else {
        exists|outer: FuncBody, i: int|
            lies_in(*context.root_body, outer) && #[trigger] lambda_takes(outer, i, body, params)
    }
}

pub open spec fn lambda_takes(outer: FuncBody, i: int, body: BodyId, params: Seq<FuncParam>) -> bool {
    0 <= i < outer.exprs@.len() && match outer.exprs@[i].kind {
        ExprKind::Lambda { params: own, body: inner } => inner.id == body && own@ == params,
        _ => false,
    }
}

/// Whether a parameter has a name at a place. One that could not be read stands for itself.
pub open spec fn param_at(param: FuncParam, span: Span) -> bool {
    match param {
        FuncParam::Typed { name, .. } => name.span == span,
        FuncParam::Untyped { name, .. } => name.span == span,
        FuncParam::Error { span: own } => own == span && own.start < own.end,
    }
}

proof fn lemma_lambda_param(root: FuncBody, body: BodyId, index: usize)
    ensures
        lambda_param_span(root, body, index) matches Some(span) ==> exists|
            outer: FuncBody,
            i: int,
            params: Seq<FuncParam>,
        |
            lies_in(root, outer) && #[trigger] lambda_takes(outer, i, body, params) && index
                < params.len() && param_at(params[index as int], span),
        lambda_param_span(root, body, index) is None ==> forall|
            outer: FuncBody,
            i: int,
            params: Seq<FuncParam>,
            span: Span,
        |
            lies_in(root, outer) && #[trigger] lambda_takes(outer, i, body, params) && index
                < params.len() ==> !#[trigger] param_at(params[index as int], span),
{
    let tree = body_tree(root);
    let g = |expr: Expr| lambda_param_in_expr(expr, body, index);
    let f = |inner: FuncBody| find_map(inner.exprs@, |expr: Expr| lambda_param_in_expr(expr, body, index));
    law_find_map(tree, f);
    assert(lambda_param_span(root, body, index) == find_map(tree, f));
    if find_map(tree, f) is Some {
        let b = lemma_find_source(tree, f);
        let outer = tree[b];
        assert(f(outer) == find_map(outer.exprs@, g));
        let i = lemma_find_source(outer.exprs@, g);
        assert(tree.contains(outer));
        law_body_tree(root, outer);
        match outer.exprs@[i].kind {
            ExprKind::Lambda { params, .. } => {
                assert(lambda_takes(outer, i, body, params@));
                assert(param_at(params@[index as int], find_map(tree, f)->0));
            },
            _ => {},
        }
    } else {
        assert forall|outer: FuncBody, i: int, params: Seq<FuncParam>, span: Span|
            lies_in(root, outer) && #[trigger] lambda_takes(outer, i, body, params) && index
                < params.len() implies !#[trigger] param_at(params[index as int], span) by {
            law_body_tree(root, outer);
            let b = choose|b: int| 0 <= b < tree.len() && tree[b] == outer;
            assert(f(tree[b]) is None);
            assert(f(outer) == find_map(outer.exprs@, g));
            law_find_map(outer.exprs@, g);
            assert(g(outer.exprs@[i]) is None);
        }
    }
}

proof fn lemma_param_in_context(context: FunctionAtOffset<'_>, body: BodyId, index: usize)
    ensures
        param_in_context(context, body, index) matches Some(span) ==> exists|
            params: Seq<FuncParam>,
        | #[trigger]
            takes(context, body, params) && index < params.len() && param_at(
                params[index as int],
                span,
            ),
        param_in_context(context, body, index) is None ==> forall|
            params: Seq<FuncParam>,
            span: Span,
        | #[trigger]
            takes(context, body, params) && index < params.len() ==> !#[trigger] param_at(
                params[index as int],
                span,
            ),
{
    if context.root_body.id == body {
        let params = context.function.sig.params@;
        assert(takes(context, body, params));
    } else {
        lemma_lambda_param(*context.root_body, body, index);
        if param_in_context(context, body, index) is Some {
            let span = param_in_context(context, body, index)->0;
            let (outer, i, params) = choose|outer: FuncBody, i: int, params: Seq<FuncParam>|
                lies_in(*context.root_body, outer) && #[trigger] lambda_takes(outer, i, body, params)
                    && index < params.len() && param_at(params[index as int], span);
            assert(takes(context, body, params));
        }
    }
}

/// A parameter is declared where its function or lambda lists it: the one with an index is named
/// by the parameter at that index.
pub proof fn law_param_declared(module: Module, body: BodyId, params: Seq<FuncParam>, index: usize)
    requires
        has_params(module, body, params),
        forall|other: Seq<FuncParam>| #[trigger] has_params(module, body, other) ==> other == params,
    ensures
        param_in_module(module, ParamId { body, index }) matches Some(span) ==> index
            < params.len() && param_at(params[index as int], span),
        param_in_module(module, ParamId { body, index }) is None ==> index >= params.len()
            || forall|span: Span| !#[trigger] param_at(params[index as int], span),
{
    let all = contexts(&module, module.items@.len());
    let f = |context: FunctionAtOffset<'_>| param_in_context(context, body, index);
    law_find_map(all, f);
    assert(param_in_module(module, ParamId { body, index }) == find_map(all, f));
    if find_map(all, f) is Some {
        let k = lemma_find_source(all, f);
        lemma_param_in_context(all[k], body, index);
        assert(all.contains(all[k]));
        law_functions(module, all[k]);
        let other = choose|other: Seq<FuncParam>| #[trigger]
            takes(all[k], body, other) && index < other.len() && param_at(
                other[index as int],
                find_map(all, f)->0,
            );
        assert(has_params(module, body, other));
    } else {
        let context = choose|context: FunctionAtOffset<'_>| #[trigger]
            has_function(module, context) && takes(context, body, params);
        law_functions(module, context);
        let k = choose|k: int| 0 <= k < all.len() && all[k] == context;
        assert(f(all[k]) is None);
        lemma_param_in_context(context, body, index);
    }
}

/// The place of a parameter is looked up in the file of its function.
pub proof fn law_param_of_file(files: Seq<SourceFacts>, facts: SourceFacts, param: ParamId)
    requires
        facts_numbered(files, param.body.file) == Some(facts),
    ensures
        param_name_span_of(files, param) == param_in_module(facts.module, param),
{
}

/// A `let` binding is declared by the very statement that binds it, at the name that is written
/// there.
pub proof fn law_let_declared(files: Seq<SourceFacts>, facts: SourceFacts, body: FuncBody, stmt: usize)
    requires
        facts_numbered(files, body.id.file) == Some(facts),
        body_of(facts.module, body.id) == Some(body),
        stmt < body.stmts@.len(),
    ensures
        body.stmts@[stmt as int].kind matches StmtKind::Let { name, .. } ==> let_span(
            files,
            body.id,
            stmt,
        ) == Some(name.span),
{
}

/// A variable of a pattern is declared by the very pattern that binds it, at the name that is
/// written there.
pub proof fn law_pattern_declared(
    files: Seq<SourceFacts>,
    facts: SourceFacts,
    body: FuncBody,
    pat: usize,
)
    requires
        facts_numbered(files, body.id.file) == Some(facts),
        body_of(facts.module, body.id) == Some(body),
        pat < body.pats@.len(),
    ensures
        body.pats@[pat as int].kind matches PatKind::Var { name } ==> pattern_span(
            files,
            body.id,
            pat,
        ) == Some(name.span),
{
}

/// A field is declared where its contract lists it: the one with an index is named by the field
/// at that index.
pub proof fn law_field_declared(
    files: Seq<SourceFacts>,
    facts: SourceFacts,
    contract: ContractDef,
    index: usize,
)
    requires
        facts_numbered(files, contract.def.file) == Some(facts),
        facts.module.items@.contains(Item::ContractDef(contract)),
        forall|other: ContractDef|
            #[trigger] facts.module.items@.contains(Item::ContractDef(other)) && other.def == contract.def
                ==> other == contract,
    ensures
        contract_of(facts.module, contract.def) == Some(contract),
        index < contract.fields@.len() ==> field_span(
            files,
            FieldId { contract: contract.def, index },
        ) == Some(contract.fields@[index as int].name.span),
        index >= contract.fields@.len() ==> field_span(
            files,
            FieldId { contract: contract.def, index },
        ) is None,
{
    let items = facts.module.items@;
    let test = |item: Item| contract_in_item(item, contract.def);
    let k = choose|k: int| 0 <= k < items.len() && items[k] == Item::ContractDef(contract);
    assert forall|j: int| 0 <= j < items.len() && test(#[trigger] items[j]) implies items[j]
        == items[k] by {
        match items[j] {
            Item::ContractDef(other) => {
                assert(items.contains(Item::ContractDef(other)));
            },
            _ => {},
        }
    }
    law_find_only(items, test, k);
}

/// A method of a class is declared where its class lists it: at the name of the first method with
/// the name it is used by. One that the class does not list is declared nowhere.
pub proof fn law_method_declared(
    files: Seq<SourceFacts>,
    facts: SourceFacts,
    class: ClassDef,
    name: Seq<char>,
)
    requires
        facts_numbered(files, class.def.file) == Some(facts),
        facts.module.items@.contains(Item::ClassDef(class)),
        forall|other: ClassDef|
            #[trigger] facts.module.items@.contains(Item::ClassDef(other)) && other.def == class.def ==> other
                == class,
    ensures
        class_of(facts.module, class.def) == Some(class),
        forall|k: int|
            0 <= k < class.methods@.len() && (#[trigger] class.methods@[k]).sig.name.text@ == name
                && (forall|j: int|
                0 <= j < k ==> (#[trigger] class.methods@[j]).sig.name.text@ != name) ==> method_span(
                files,
                class.def,
                name,
            ) == Some(class.methods@[k].sig.name.span),
        (forall|k: int|
            0 <= k < class.methods@.len() ==> (#[trigger] class.methods@[k]).sig.name.text@ != name)
            ==> method_span(files, class.def, name) is None,
{
    let items = facts.module.items@;
    let test = |item: Item| class_in_item(item, class.def);
    let k = choose|k: int| 0 <= k < items.len() && items[k] == Item::ClassDef(class);
    assert forall|j: int| 0 <= j < items.len() && test(#[trigger] items[j]) implies items[j]
        == items[k] by {
        match items[j] {
            Item::ClassDef(other) => {
                assert(items.contains(Item::ClassDef(other)));
            },
            _ => {},
        }
    }
    law_find_only(items, test, k);
    assert(name.take(name.len() as int) == name);
    law_find(
        class.methods@,
        |method: ClassMethod| method.sig.name.text@ == name.take(name.len() as int),
    );
}

/// Whether an item of a contract has a number and these type variables.
pub open spec fn member_has_vars(item: ContractItem, owner: DefId, names: Seq<Name>) -> bool {
    match item {
        ContractItem::FunctionDef(function) => function.def == owner && function.sig.type_vars@
            == names,
        ContractItem::TypeAlias(alias) => alias.def == owner && alias.params@ == names,
        ContractItem::AdtDef(adt) => adt.def == owner && adt.params@ == names,
        ContractItem::Error { .. } => false,
    }
}

/// Whether an item, or one that stands in it, has a number and these type variables.
pub open spec fn has_vars(item: Item, owner: DefId, names: Seq<Name>) -> bool {
    match item {
        Item::FunctionDef(function) => function.def == owner && function.sig.type_vars@ == names,
        Item::TypeAlias(alias) => alias.def == owner && alias.params@ == names,
        Item::AdtDef(adt) => adt.def == owner && adt.params@ == names,
        Item::ClassDef(class) => class.def == owner && class.type_vars@ == names,
        Item::InstanceDef(instance) => if instance.def == owner {
            instance.type_vars@ == names
        } else {
            exists|j: int|
                0 <= j < instance.methods@.len() && (#[trigger] instance.methods@[j]).def == owner
                    && instance.methods@[j].sig.type_vars@ == names
        },
        Item::ContractDef(contract) => if contract.def == owner {
            contract.params@ == names
        } else {
            exists|j: int|
                0 <= j < contract.items@.len() && member_has_vars(
                    #[trigger] contract.items@[j],
                    owner,
                    names,
                )
        },
        _ => false,
    }
}

proof fn lemma_item_var_span(item: Item, owner: DefId, index: usize)
    ensures
        item_var_span(item, owner, index) matches Some(span) ==> exists|names: Seq<Name>| #[trigger]
            has_vars(item, owner, names) && index < names.len() && names[index as int].span == span,
        item_var_span(item, owner, index) is None ==> forall|names: Seq<Name>| #[trigger]
            has_vars(item, owner, names) ==> index >= names.len(),
{
    match item {
        Item::FunctionDef(function) => {
            assert(function.def == owner ==> has_vars(item, owner, function.sig.type_vars@));
        },
        Item::TypeAlias(alias) => {
            assert(alias.def == owner ==> has_vars(item, owner, alias.params@));
        },
        Item::AdtDef(adt) => {
            assert(adt.def == owner ==> has_vars(item, owner, adt.params@));
        },
        Item::ClassDef(class) => {
            assert(class.def == owner ==> has_vars(item, owner, class.type_vars@));
        },
        Item::InstanceDef(instance) => {
            let f = |method: FunctionDef| function_var_span(method, owner, index);
            law_find_map(instance.methods@, f);
            if instance.def == owner {
                assert(has_vars(item, owner, instance.type_vars@));
            } else if find_map(instance.methods@, f) is Some {
                let j = lemma_find_source(instance.methods@, f);
                assert(has_vars(item, owner, instance.methods@[j].sig.type_vars@));
            } else {
                assert forall|names: Seq<Name>| #[trigger] has_vars(item, owner, names) implies index
                    >= names.len() by {
                    let j = choose|j: int|
                        0 <= j < instance.methods@.len() && (#[trigger] instance.methods@[j]).def
                            == owner && instance.methods@[j].sig.type_vars@ == names;
                    assert(f(instance.methods@[j]) is None);
                }
            }
        },
        Item::ContractDef(contract) => {
            let f = |inner: ContractItem| contract_item_var_span(inner, owner, index);
            law_find_map(contract.items@, f);
            if contract.def == owner {
                assert(has_vars(item, owner, contract.params@));
            } else if find_map(contract.items@, f) is Some {
                let j = lemma_find_source(contract.items@, f);
                let names = match contract.items@[j] {
                    ContractItem::FunctionDef(function) => function.sig.type_vars@,
                    ContractItem::TypeAlias(alias) => alias.params@,
                    ContractItem::AdtDef(adt) => adt.params@,
                    ContractItem::Error { .. } => Seq::empty(),
                };
                assert(member_has_vars(contract.items@[j], owner, names));
                assert(has_vars(item, owner, names));
            } else {
                assert forall|names: Seq<Name>| #[trigger] has_vars(item, owner, names) implies index
                    >= names.len() by {
                    let j = choose|j: int|
                        0 <= j < contract.items@.len() && member_has_vars(
                            #[trigger] contract.items@[j],
                            owner,
                            names,
                        );
                    assert(f(contract.items@[j]) is None);
                }
            }
        },
        _ => {},
    }
}

/// A type variable is declared where its owner lists it: the one with an index is named at that
/// index.
pub proof fn law_type_var_declared(
    files: Seq<SourceFacts>,
    facts: SourceFacts,
    owner: DefId,
    i: int,
    names: Seq<Name>,
    index: usize,
)
    requires
        facts_numbered(files, owner.file) == Some(facts),
        0 <= i < facts.module.items@.len(),
        has_vars(facts.module.items@[i], owner, names),
        forall|j: int, other: Seq<Name>|
            0 <= j < facts.module.items@.len() && #[trigger] has_vars(
                facts.module.items@[j],
                owner,
                other,
            ) ==> other == names,
    ensures
        index < names.len() ==> type_var_span(files, owner, index) == Some(names[index as int].span),
        index >= names.len() ==> type_var_span(files, owner, index) is None,
{
    let items = facts.module.items@;
    let f = |item: Item| item_var_span(item, owner, index);
    law_find_map(items, f);
    if find_map(items, f) is Some {
        let k = lemma_find_source(items, f);
        lemma_item_var_span(items[k], owner, index);
    } else {
        lemma_item_var_span(items[i], owner, index);
        assert(f(items[i]) is None);
    }
}

} // verus!
