//! Declarations of names.
use vstd::prelude::*;

use crate::analysis::{element, facts_numbered, file_numbered, find_pat, find_stmt, get, pat_of, stmt_of};
use crate::hir::{
    AdtDef, BodyId, ClassDef, ClassMethod, ContractDef, ContractItem, DefId, DefLocation, Expr,
    ExprKind, FieldId, FuncBody, FuncParam, FunctionDef, Item, Module, Name, ParamId, PatKind,
    SourceFacts, Span, StmtKind,
};
use crate::resolve::{
    bodies_in, body_tree, contexts, derefs, function_contexts, FunctionAtOffset,
};
use crate::seqs::{find, find_map, first, first_where, lemma_find_step, pointee};
use crate::text::str_eq;

verus! {

/// The place of the name of a definition in a contract.
pub open spec fn def_span_in_contract_item(item: ContractItem, def: DefId) -> Option<Span> {
    match item {
        ContractItem::FunctionDef(function) => if function.def == def {
            Some(function.sig.name.span)
        } else {
            None
        },
        ContractItem::TypeAlias(alias) => if alias.def == def {
            Some(alias.name.span)
        } else {
            None
        },
        ContractItem::AdtDef(adt) => if adt.def == def {
            Some(adt.name.span)
        } else {
            None
        },
        ContractItem::Error { .. } => None,
    }
}

/// The place of the name of a definition that an item is or holds.
pub open spec fn def_span_in_item(item: Item, def: DefId) -> Option<Span> {
    match item {
        Item::FunctionDef(function) => if function.def == def {
            Some(function.sig.name.span)
        } else {
            None
        },
        Item::TypeAlias(alias) => if alias.def == def {
            Some(alias.name.span)
        } else {
            None
        },
        Item::AdtDef(adt) => if adt.def == def {
            Some(adt.name.span)
        } else {
            None
        },
        Item::ClassDef(class) => if class.def == def {
            Some(class.head.class.span)
        } else {
            None
        },
        Item::InstanceDef(instance) => if instance.def == def {
            Some(instance.head.span)
        } else {
            None
        },
        Item::ContractDef(contract) => if contract.def == def {
            Some(contract.name.span)
        } else {
            find_map(
                contract.items@,
                |inner: ContractItem| def_span_in_contract_item(inner, def),
            )
        },
        _ => None,
    }
}

fn find_def_name_span_in_contract(contract: &ContractDef, def: DefId) -> (span: Option<Span>)
    ensures
        span == find_map(
            contract.items@,
            |inner: ContractItem| def_span_in_contract_item(inner, def),
        ),
{
    let span_in = |inner: &ContractItem| -> (span: Option<Span>)
        ensures
            span == def_span_in_contract_item(*inner, def),
    {
        match inner {
            ContractItem::FunctionDef(function) => if function.def == def {
                Some(function.sig.name.span)
            } else {
                None
            },
            ContractItem::TypeAlias(alias) => if alias.def == def {
                Some(alias.name.span)
            } else {
                None
            },
            ContractItem::AdtDef(adt) => if adt.def == def {
                Some(adt.name.span)
            } else {
                None
            },
            ContractItem::Error { .. } => None,
        }
    };
    first(
        &contract.items,
        span_in,
        Ghost(|inner: ContractItem| def_span_in_contract_item(inner, def)),
    )
}

/// The place of the name of a definition in a module.
pub open spec fn def_span_in_module(module: Module, def: DefId) -> Option<Span> {
    find_map(module.items@, |item: Item| def_span_in_item(item, def))
}

fn find_def_name_span_in_module(module: &Module, def: DefId) -> (span: Option<Span>)
    ensures
        span == def_span_in_module(*module, def),
{
    let span_in = |item: &Item| -> (span: Option<Span>)
        ensures
            span == def_span_in_item(*item, def),
    {
        match item {
            Item::FunctionDef(function) => if function.def == def {
                Some(function.sig.name.span)
            } else {
                None
            },
            Item::TypeAlias(alias) => if alias.def == def {
                Some(alias.name.span)
            } else {
                None
            },
            Item::AdtDef(adt) => if adt.def == def {
                Some(adt.name.span)
            } else {
                None
            },
            Item::ClassDef(class) => if class.def == def {
                Some(class.head.class.span)
            } else {
                None
            },
            Item::InstanceDef(instance) => if instance.def == def {
                Some(instance.head.span)
            } else {
                None
            },
            Item::ContractDef(contract) => if contract.def == def {
                Some(contract.name.span)
            } else {
                find_def_name_span_in_contract(contract, def)
            },
            _ => None,
        }
    };
    first(&module.items, span_in, Ghost(|item: Item| def_span_in_item(item, def)))
}

/// The place of the name of a definition; the start of a definition that has none.
pub open spec fn def_span(files: Seq<SourceFacts>, def: DefId) -> Option<Span> {
    match facts_numbered(files, def.file) {
        Some(facts) => match def_span_in_module(facts.module, def) {
            Some(span) => Some(span),
            None => match find(
                facts.def_locations@,
                |location: DefLocation| location.def == def,
            ) {
                Some(location) => Some(
                    Span { file: def.file, start: location.offset, end: location.offset },
                ),
                None => None,
            },
        },
        None => None,
    }
}

pub fn def_name_span(files: &Vec<SourceFacts>, def: DefId) -> (span: Option<Span>)
    ensures
        span == def_span(files@, def),
{
    let facts = match file_numbered(files, def.file) {
        Some(facts) => facts,
        None => return None,
    };
    if let Some(span) = find_def_name_span_in_module(&facts.module, def) {
        return Some(span);
    }
    let same = |location: &DefLocation| -> (same: bool)
        ensures
            same == (location.def == def),
    {
        location.def == def
    };
    match first_where(
        &facts.def_locations,
        same,
        Ghost(|location: DefLocation| location.def == def),
    ) {
        Some(location) => Some(
            Span { file: def.file, start: location.offset, end: location.offset },
        ),
        None => None,
    }
}

/// The data type that an item is or holds.
pub open spec fn adt_in_item(item: Item, def: DefId) -> Option<AdtDef> {
    match item {
        Item::AdtDef(adt) => if adt.def == def {
            Some(adt)
        } else {
            None
        },
        Item::ContractDef(contract) => find_map(
            contract.items@,
            |inner: ContractItem| adt_in_contract_item(inner, def),
        ),
        _ => None,
    }
}

pub open spec fn adt_in_contract_item(item: ContractItem, def: DefId) -> Option<AdtDef> {
    match item {
        ContractItem::AdtDef(adt) => if adt.def == def {
            Some(adt)
        } else {
            None
        },
        _ => None,
    }
}

/// The data type of a module with a definition.
pub open spec fn adt_of(module: Module, def: DefId) -> Option<AdtDef> {
    find_map(module.items@, |item: Item| adt_in_item(item, def))
}

pub fn find_adt<'a>(module: &'a Module, def: DefId) -> (found: Option<&'a AdtDef>)
    ensures
        pointee(found) == adt_of(*module, def),
{
    let ghost items = module.items@;
    let ghost g = |item: Item| adt_in_item(item, def);
    let mut i: usize = 0;
    assert(items.take(0) == Seq::<Item>::empty());
    while i < module.items.len()
        invariant
            i <= items.len(),
            items == module.items@,
            g == |item: Item| adt_in_item(item, def),
            find_map(items.take(i as int), g) is None,
        decreases items.len() - i,
    {
        proof {
            lemma_find_step(items, g, i as int);
        }
        match &module.items[i] {
            Item::AdtDef(adt) => {
                if adt.def == def {
                    return Some(adt);
                }
            },
            Item::ContractDef(contract) => {
                let ghost inner = contract.items@;
                let ghost h = |inner: ContractItem| adt_in_contract_item(inner, def);
                let mut k: usize = 0;
                assert(inner.take(0) == Seq::<ContractItem>::empty());
                while k < contract.items.len()
                    invariant
                        k <= inner.len(),
                        inner == contract.items@,
                        h == |inner: ContractItem| adt_in_contract_item(inner, def),
                        find_map(inner.take(k as int), h) is None,
                        i < items.len(),
                        items[i as int] == Item::ContractDef(*contract),
                        find_map(inner, h) is Some ==> find_map(items, g) == find_map(inner, h),
                        items == module.items@,
                        g == |item: Item| adt_in_item(item, def),
                    decreases inner.len() - k,
                {
                    proof {
                        lemma_find_step(inner, h, k as int);
                    }
                    if let ContractItem::AdtDef(adt) = &contract.items[k] {
                        if adt.def == def {
                            return Some(adt);
                        }
                    }
                    k += 1;
                }
                assert(inner.take(k as int) == inner);
            },
            _ => {},
        }
        i += 1;
    }
    assert(items.take(i as int) == items);
    None
}

/// The place of the name of a data constructor.
pub open spec fn ctor_span(files: Seq<SourceFacts>, ty: DefId, index: usize) -> Option<Span> {
    match facts_numbered(files, ty.file) {
        Some(facts) => match adt_of(facts.module, ty) {
            Some(adt) => match element(adt.ctors@, index) {
                Some(ctor) => Some(ctor.name.span),
                None => None,
            },
            None => None,
        },
        None => None,
    }
}

pub fn ctor_name_span(files: &Vec<SourceFacts>, ty: DefId, index: usize) -> (span: Option<Span>)
    ensures
        span == ctor_span(files@, ty, index),
{
    let facts = match file_numbered(files, ty.file) {
        Some(facts) => facts,
        None => return None,
    };
    let adt = match find_adt(&facts.module, ty) {
        Some(adt) => adt,
        None => return None,
    };
    match get(&adt.ctors, index) {
        Some(ctor) => Some(ctor.name.span),
        None => None,
    }
}

/// The place of a parameter: of its name, or of all of it where it could not be parsed.
pub open spec fn param_span(param: FuncParam) -> Option<Span> {
    match param {
        FuncParam::Typed { name, .. } => Some(name.span),
        FuncParam::Untyped { name, .. } => Some(name.span),
        FuncParam::Error { span } => if span.width() > 0 {
            Some(span)
        } else {
            None
        },
    }
}

pub fn param_name_or_whole_span(param: &FuncParam) -> (span: Option<Span>)
    ensures
        span == param_span(*param),
{
    match param {
        FuncParam::Typed { comptime: _, name, ty: _ } => Some(name.span),
        FuncParam::Untyped { comptime: _, name } => Some(name.span),
        FuncParam::Error { span } => if !span.is_empty() {
            Some(*span)
        } else {
            None
        },
    }
}

pub open spec fn param_span_at(params: Seq<FuncParam>, index: usize) -> Option<Span> {
    match element(params, index) {
        Some(param) => param_span(param),
        None => None,
    }
}

fn find_param_span(params: &Vec<FuncParam>, index: usize) -> (span: Option<Span>)
    ensures
        span == param_span_at(params@, index),
{
    match get(params, index) {
        Some(param) => param_name_or_whole_span(param),
        None => None,
    }
}

/// The place of a parameter of a lambda with a body.
pub open spec fn lambda_param_in_expr(expr: Expr, body: BodyId, index: usize) -> Option<Span> {
    match expr.kind {
        ExprKind::Lambda { params, body: inner } => if inner.id == body {
            param_span_at(params@, index)
        } else {
            None
        },
        _ => None,
    }
}

/// The place of a parameter of a lambda in a body, or in the lambdas in it.
pub open spec fn lambda_param_span(root: FuncBody, body: BodyId, index: usize) -> Option<Span> {
    find_map(
        body_tree(root),
        |inner: FuncBody|
            find_map(inner.exprs@, |expr: Expr| lambda_param_in_expr(expr, body, index)),
    )
}

fn find_lambda_param_span(root: &FuncBody, body: BodyId, index: usize) -> (span: Option<Span>)
    ensures
        span == lambda_param_span(*root, body, index),
{
    let bodies = bodies_in(root);
    let ghost all = derefs(bodies@);
    let ghost g = |inner: FuncBody|
        find_map(inner.exprs@, |expr: Expr| lambda_param_in_expr(expr, body, index));
    let mut i: usize = 0;
    assert(all.take(0) == Seq::<FuncBody>::empty());
    while i < bodies.len()
        invariant
            i <= all.len(),
            all == derefs(bodies@),
            all == body_tree(*root),
            g == |inner: FuncBody|
                find_map(inner.exprs@, |expr: Expr| lambda_param_in_expr(expr, body, index)),
            find_map(all.take(i as int), g) is None,
        decreases all.len() - i,
    {
        proof {
            lemma_find_step(all, g, i as int);
        }
        let span_in = |expr: &Expr| -> (span: Option<Span>)
            ensures
                span == lambda_param_in_expr(*expr, body, index),
        {
            match &expr.kind {
                ExprKind::Lambda { params, body: inner } => if inner.id == body {
                    find_param_span(params, index)
                } else {
                    None
                },
                _ => None,
            }
        };
        let span = first(
            &bodies[i].exprs,
            span_in,
            Ghost(|expr: Expr| lambda_param_in_expr(expr, body, index)),
        );
        if span.is_some() {
            return span;
        }
        i += 1;
    }
    assert(all.take(i as int) == all);
    None
}

/// The place of a parameter of a function, or of a lambda in it.
pub open spec fn param_in_context(context: FunctionAtOffset<'_>, body: BodyId, index: usize) -> Option<
    Span,
> {
    if context.root_body.id == body {
        param_span_at(context.function.sig.params@, index)
    } else {
        lambda_param_span(*context.root_body, body, index)
    }
}

/// The place of a parameter in a module.
pub open spec fn param_in_module(module: Module, param: ParamId) -> Option<Span> {
    find_map(
        contexts(&module, module.items@.len()),
        |context: FunctionAtOffset<'_>| param_in_context(context, param.body, param.index),
    )
}

pub fn find_param_span_in_module(module: &Module, param: ParamId) -> (span: Option<Span>)
    ensures
        span == param_in_module(*module, param),
{
    let functions = function_contexts(module);
    let ghost g = |context: FunctionAtOffset<'_>|
        param_in_context(context, param.body, param.index);
    let span_in = |context: &FunctionAtOffset<'_>| -> (span: Option<Span>)
        ensures
            span == param_in_context(*context, param.body, param.index),
    {
        if context.root_body.id == param.body {
            find_param_span(&context.function.sig.params, param.index)
        } else {
            find_lambda_param_span(context.root_body, param.body, param.index)
        }
    };
    first(&functions, span_in, Ghost(g))
}

/// The place of a parameter.
pub open spec fn param_name_span_of(files: Seq<SourceFacts>, param: ParamId) -> Option<Span> {
    match facts_numbered(files, param.body.file) {
        Some(facts) => param_in_module(facts.module, param),
        None => None,
    }
}

pub fn param_name_span(files: &Vec<SourceFacts>, param: ParamId) -> (span: Option<Span>)
    ensures
        span == param_name_span_of(files@, param),
{
    match file_numbered(files, param.body.file) {
        Some(facts) => find_param_span_in_module(&facts.module, param),
        None => None,
    }
}

pub open spec fn name_span_at(names: Seq<Name>, index: usize) -> Option<Span> {
    match element(names, index) {
        Some(name) => Some(name.span),
        None => None,
    }
}

fn find_name_span(names: &Vec<Name>, index: usize) -> (span: Option<Span>)
    ensures
        span == name_span_at(names@, index),
{
    match get(names, index) {
        Some(name) => Some(name.span),
        None => None,
    }
}

pub open spec fn function_var_span(function: FunctionDef, owner: DefId, index: usize) -> Option<Span> {
    if function.def == owner {
        name_span_at(function.sig.type_vars@, index)
    } else {
        None
    }
}

fn find_function_var_span(function: &FunctionDef, owner: DefId, index: usize) -> (span: Option<Span>)
    ensures
        span == function_var_span(*function, owner, index),
{
    if function.def == owner {
        find_name_span(&function.sig.type_vars, index)
    } else {
        None
    }
}

/// The place of a type variable of a definition in a contract.
pub open spec fn contract_item_var_span(item: ContractItem, owner: DefId, index: usize) -> Option<Span> {
    match item {
        ContractItem::FunctionDef(function) => function_var_span(function, owner, index),
        ContractItem::TypeAlias(alias) => if alias.def == owner {
            name_span_at(alias.params@, index)
        } else {
            None
        },
        ContractItem::AdtDef(adt) => if adt.def == owner {
            name_span_at(adt.params@, index)
        } else {
            None
        },
        ContractItem::Error { .. } => None,
    }
}

/// The place of a type variable of a definition that an item is or holds.
pub open spec fn item_var_span(item: Item, owner: DefId, index: usize) -> Option<Span> {
    match item {
        Item::FunctionDef(function) => function_var_span(function, owner, index),
        Item::TypeAlias(alias) => if alias.def == owner {
            name_span_at(alias.params@, index)
        } else {
            None
        },
        Item::AdtDef(adt) => if adt.def == owner {
            name_span_at(adt.params@, index)
        } else {
            None
        },
        Item::ClassDef(class) => if class.def == owner {
            name_span_at(class.type_vars@, index)
        } else {
            None
        },
        Item::InstanceDef(instance) => if instance.def == owner {
            name_span_at(instance.type_vars@, index)
        } else {
            find_map(
                instance.methods@,
                |method: FunctionDef| function_var_span(method, owner, index),
            )
        },
        Item::ContractDef(contract) => if contract.def == owner {
            name_span_at(contract.params@, index)
        } else {
            find_map(
                contract.items@,
                |inner: ContractItem| contract_item_var_span(inner, owner, index),
            )
        },
        _ => None,
    }
}

fn find_type_var_span_in_contract(contract: &ContractDef, owner: DefId, index: usize) -> (span: Option<
    Span,
>)
    ensures
        span == find_map(
            contract.items@,
            |inner: ContractItem| contract_item_var_span(inner, owner, index),
        ),
{
    let span_in = |inner: &ContractItem| -> (span: Option<Span>)
        ensures
            span == contract_item_var_span(*inner, owner, index),
    {
        match inner {
            ContractItem::FunctionDef(function) => find_function_var_span(function, owner, index),
            ContractItem::TypeAlias(alias) => if alias.def == owner {
                find_name_span(&alias.params, index)
            } else {
                None
            },
            ContractItem::AdtDef(adt) => if adt.def == owner {
                find_name_span(&adt.params, index)
            } else {
                None
            },
            ContractItem::Error { .. } => None,
        }
    };
    first(
        &contract.items,
        span_in,
        Ghost(|inner: ContractItem| contract_item_var_span(inner, owner, index)),
    )
}

/// The place of a type variable of a definition in a module.
pub open spec fn var_in_module(module: Module, owner: DefId, index: usize) -> Option<Span> {
    find_map(module.items@, |item: Item| item_var_span(item, owner, index))
}

fn find_type_var_span_in_module(module: &Module, owner: DefId, index: usize) -> (span: Option<Span>)
    ensures
        span == var_in_module(*module, owner, index),
{
    let span_in = |item: &Item| -> (span: Option<Span>)
        ensures
            span == item_var_span(*item, owner, index),
    {
        match item {
            Item::FunctionDef(function) => find_function_var_span(function, owner, index),
            Item::TypeAlias(alias) => if alias.def == owner {
                find_name_span(&alias.params, index)
            } else {
                None
            },
            Item::AdtDef(adt) => if adt.def == owner {
                find_name_span(&adt.params, index)
            } else {
                None
            },
            Item::ClassDef(class) => if class.def == owner {
                find_name_span(&class.type_vars, index)
            } else {
                None
            },
            Item::InstanceDef(instance) => if instance.def == owner {
                find_name_span(&instance.type_vars, index)
            } else {
                let method_span = |method: &FunctionDef| -> (span: Option<Span>)
                    ensures
                        span == function_var_span(*method, owner, index),
                {
                    find_function_var_span(method, owner, index)
                };
                first(
                    &instance.methods,
                    method_span,
                    Ghost(|method: FunctionDef| function_var_span(method, owner, index)),
                )
            },
            Item::ContractDef(contract) => if contract.def == owner {
                find_name_span(&contract.params, index)
            } else {
                find_type_var_span_in_contract(contract, owner, index)
            },
            _ => None,
        }
    };
    first(&module.items, span_in, Ghost(|item: Item| item_var_span(item, owner, index)))
}

/// The place of a type variable.
pub open spec fn type_var_span(files: Seq<SourceFacts>, owner: DefId, index: usize) -> Option<Span> {
    match facts_numbered(files, owner.file) {
        Some(facts) => var_in_module(facts.module, owner, index),
        None => None,
    }
}

pub fn type_var_name_span(files: &Vec<SourceFacts>, owner: DefId, index: usize) -> (span: Option<
    Span,
>)
    ensures
        span == type_var_span(files@, owner, index),
{
    match file_numbered(files, owner.file) {
        Some(facts) => find_type_var_span_in_module(&facts.module, owner, index),
        None => None,
    }
}

pub open spec fn contract_in_item(item: Item, def: DefId) -> bool {
    item matches Item::ContractDef(contract) && contract.def == def
}

pub open spec fn class_in_item(item: Item, def: DefId) -> bool {
    item matches Item::ClassDef(class) && class.def == def
}

/// The contract of a module with a definition.
pub open spec fn contract_of(module: Module, def: DefId) -> Option<ContractDef> {
    match find(module.items@, |item: Item| contract_in_item(item, def)) {
        Some(Item::ContractDef(contract)) => Some(contract),
        _ => None,
    }
}

pub fn find_contract(module: &Module, def: DefId) -> (found: Option<&ContractDef>)
    ensures
        pointee(found) == contract_of(*module, def),
{
    let same = |item: &Item| -> (same: bool)
        ensures
            same == contract_in_item(*item, def),
    {
        match item {
            Item::ContractDef(contract) => contract.def == def,
            _ => false,
        }
    };
    match first_where(&module.items, same, Ghost(|item: Item| contract_in_item(item, def))) {
        Some(Item::ContractDef(contract)) => Some(contract),
        _ => None,
    }
}

/// The class of a module with a definition.
pub open spec fn class_of(module: Module, def: DefId) -> Option<ClassDef> {
    match find(module.items@, |item: Item| class_in_item(item, def)) {
        Some(Item::ClassDef(class)) => Some(class),
        _ => None,
    }
}

pub fn find_class(module: &Module, def: DefId) -> (found: Option<&ClassDef>)
    ensures
        pointee(found) == class_of(*module, def),
{
    let same = |item: &Item| -> (same: bool)
        ensures
            same == class_in_item(*item, def),
    {
        match item {
            Item::ClassDef(class) => class.def == def,
            _ => false,
        }
    };
    match first_where(&module.items, same, Ghost(|item: Item| class_in_item(item, def))) {
        Some(Item::ClassDef(class)) => Some(class),
        _ => None,
    }
}

/// The place of the name of a contract field.
pub open spec fn field_span(files: Seq<SourceFacts>, field: FieldId) -> Option<Span> {
    match facts_numbered(files, field.contract.file) {
        Some(facts) => match contract_of(facts.module, field.contract) {
            Some(contract) => match element(contract.fields@, field.index) {
                Some(field) => Some(field.name.span),
                None => None,
            },
            None => None,
        },
        None => None,
    }
}

pub fn field_name_span(files: &Vec<SourceFacts>, field: FieldId) -> (span: Option<Span>)
    ensures
        span == field_span(files@, field),
{
    let facts = match file_numbered(files, field.contract.file) {
        Some(facts) => facts,
        None => return None,
    };
    let contract = match find_contract(&facts.module, field.contract) {
        Some(contract) => contract,
        None => return None,
    };
    match get(&contract.fields, field.index) {
        Some(field) => Some(field.name.span),
        None => None,
    }
}

/// The method of a class with a name.
pub open spec fn method_of(class: ClassDef, name: Seq<char>) -> Option<ClassMethod> {
    find(class.methods@, |method: ClassMethod| method.sig.name.text@ == name)
}

pub fn find_method<'a>(class: &'a ClassDef, name: &str) -> (found: Option<&'a ClassMethod>)
    ensures
        pointee(found) == method_of(*class, name@),
{
    let same = |method: &ClassMethod| -> (same: bool)
        ensures
            same == (method.sig.name.text@ == name@),
    {
        str_eq(method.sig.name.text.as_str(), name)
    };
    first_where(
        &class.methods,
        same,
        Ghost(|method: ClassMethod| method.sig.name.text@ == name@),
    )
}

/// The place of the name of a class method.
pub open spec fn method_span(files: Seq<SourceFacts>, class: DefId, name: Seq<char>) -> Option<Span> {
    match facts_numbered(files, class.file) {
        Some(facts) => match class_of(facts.module, class) {
            Some(class) => match method_of(class, name) {
                Some(method) => Some(method.sig.name.span),
                None => None,
            },
            None => None,
        },
        None => None,
    }
}

pub fn class_method_name_span(files: &Vec<SourceFacts>, class: DefId, name: &str) -> (span: Option<
    Span,
>)
    ensures
        span == method_span(files@, class, name@),
{
    let facts = match file_numbered(files, class.file) {
        Some(facts) => facts,
        None => return None,
    };
    let class = match find_class(&facts.module, class) {
        Some(class) => class,
        None => return None,
    };
    match find_method(class, name) {
        Some(method) => Some(method.sig.name.span),
        None => None,
    }
}

/// The place of the name that a `let` binds, or of the whole statement.
pub open spec fn let_span(files: Seq<SourceFacts>, body: BodyId, stmt: usize) -> Option<Span> {
    match facts_numbered(files, body.file) {
        Some(facts) => match stmt_of(facts.module, body, stmt) {
            Some(stmt) => match stmt.kind {
                StmtKind::Let { name, .. } => Some(name.span),
                StmtKind::Other => Some(stmt.span),
            },
            None => None,
        },
        None => None,
    }
}

pub fn let_name_span(files: &Vec<SourceFacts>, body: BodyId, stmt: usize) -> (span: Option<Span>)
    ensures
        span == let_span(files@, body, stmt),
{
    let facts = match file_numbered(files, body.file) {
        Some(facts) => facts,
        None => return None,
    };
    match find_stmt(&facts.module, body, stmt) {
        Some(stmt) => match &stmt.kind {
            StmtKind::Let { comptime: _, name, ty: _ } => Some(name.span),
            StmtKind::Other => Some(stmt.span),
        },
        None => None,
    }
}

/// The place of the name that a pattern binds, or of the whole pattern.
pub open spec fn pattern_span(files: Seq<SourceFacts>, body: BodyId, pat: usize) -> Option<Span> {
    match facts_numbered(files, body.file) {
        Some(facts) => match pat_of(facts.module, body, pat) {
            Some(pat) => match pat.kind {
                PatKind::Var { name } => Some(name.span),
                _ => Some(pat.span),
            },
            None => None,
        },
        None => None,
    }
}

pub fn pattern_name_span(files: &Vec<SourceFacts>, body: BodyId, pat: usize) -> (span: Option<Span>)
    ensures
        span == pattern_span(files@, body, pat),
{
    let facts = match file_numbered(files, body.file) {
        Some(facts) => facts,
        None => return None,
    };
    match find_pat(&facts.module, body, pat) {
        Some(pat) => match &pat.kind {
            PatKind::Var { name } => Some(name.span),
            _ => Some(pat.span),
        },
        None => None,
    }
}

} // verus!
