//! Shared helpers for source-position semantic lookup.
use vstd::prelude::*;

use crate::hir::{
    ContractDef, ContractItem, DefId, Expr, ExprKind, FuncBody, FunctionDef, InstanceDef, Item,
    Module, Name,
};

verus! {

/// A body and the bodies of the lambdas in it, each before those in it and later lambdas of a
/// body first.
pub open spec fn body_tree(body: FuncBody) -> Seq<FuncBody>
    decreases body, 0nat,
{
    seq![body] + lambda_trees(body.exprs@, body.exprs@.len())
}

/// The bodies of the lambdas among the first `count` expressions, those of later lambdas first.
pub open spec fn lambda_trees(exprs: Seq<Expr>, count: nat) -> Seq<FuncBody>
    decreases exprs, count,
{
    if count == 0 || count > exprs.len() {
        Seq::empty()
    } else {
        lambda_tree(exprs[count - 1]) + lambda_trees(exprs, (count - 1) as nat)
    }
}

pub open spec fn lambda_tree(expr: Expr) -> Seq<FuncBody>
    decreases expr, 0nat,
{
    match expr.kind {
        ExprKind::Lambda { body, .. } => body_tree(body),
        _ => Seq::empty(),
    }
}

/// References to some values stand for the values.
pub open spec fn derefs<T>(s: Seq<&T>) -> Seq<T> {
    Seq::new(s.len(), |i: int| *s[i])
}

/// Lists a body and the bodies of the lambdas in it.
pub fn bodies_in(body: &FuncBody) -> (bodies: Vec<&FuncBody>)
    ensures
        derefs(bodies@) == body_tree(*body),
    decreases body,
{
    let mut bodies: Vec<&FuncBody> = Vec::new();
    bodies.push(body);
    let ghost exprs = body.exprs@;
    let mut i: usize = body.exprs.len();
    assert(derefs(bodies@) == seq![*body]);
    assert(derefs(bodies@) + lambda_trees(exprs, i as nat) == body_tree(*body));
    while i > 0
        invariant
            i <= exprs.len(),
            exprs == body.exprs@,
            derefs(bodies@) + lambda_trees(exprs, i as nat) == body_tree(*body),
        decreases i,
    {
        i -= 1;
        let ghost before = derefs(bodies@);
        if let ExprKind::Lambda { params: _, body: inner } = &body.exprs[i].kind {
            let mut nested = bodies_in(inner);
            let ghost added = nested@;
            bodies.append(&mut nested);
            assert(derefs(bodies@) == before + derefs(added));
            assert(derefs(added) == lambda_tree(exprs[i as int]));
        } else {
            assert(lambda_tree(exprs[i as int]) == Seq::<FuncBody>::empty());
            assert(derefs(bodies@) == before + lambda_tree(exprs[i as int]));
        }
        assert(lambda_trees(exprs, (i + 1) as nat) == lambda_tree(exprs[i as int]) + lambda_trees(
            exprs,
            i as nat,
        ));
        assert(derefs(bodies@) + lambda_trees(exprs, i as nat) == before + (lambda_tree(
            exprs[i as int],
        ) + lambda_trees(exprs, i as nat)));
    }
    assert(derefs(bodies@) + lambda_trees(exprs, 0) == derefs(bodies@));
    bodies
}

/// An expression that holds an offset, with its place in the list of bodies.
pub struct ExprAt {
    pub body: int,
    pub expr: int,
    pub width: nat,
}

/// The smallest of the first `count` expressions of a body that hold an offset, the first of
/// equally small ones; an earlier one is kept unless a smaller one is found.
pub open spec fn smallest_in_body(
    best: Option<ExprAt>,
    exprs: Seq<Expr>,
    body: int,
    file: u32,
    offset: u32,
    count: nat,
) -> Option<ExprAt>
    decreases count,
{
    if count == 0 {
        best
    } else {
        let before = smallest_in_body(best, exprs, body, file, offset, (count - 1) as nat);
        let span = exprs[count - 1].span;
        if span.holds(file, offset) && (before is None || span.width() < before->0.width) {
            Some(ExprAt { body, expr: count - 1, width: span.width() })
        } else {
            before
        }
    }
}

/// The smallest expression of the first `count` bodies that holds an offset.
pub open spec fn smallest_expr(bodies: Seq<FuncBody>, file: u32, offset: u32, count: nat) -> Option<
    ExprAt,
>
    decreases count,
{
    if count == 0 {
        None
    } else {
        smallest_in_body(
            smallest_expr(bodies, file, offset, (count - 1) as nat),
            bodies[count - 1].exprs@,
            count - 1,
            file,
            offset,
            bodies[count - 1].exprs@.len(),
        )
    }
}

/// The smallest expression in a body and the lambdas in it that holds an offset.
pub open spec fn innermost(root: FuncBody, file: u32, offset: u32) -> Option<ExprAt> {
    smallest_expr(body_tree(root), file, offset, body_tree(root).len())
}

proof fn lemma_smallest_in_body(
    best: Option<ExprAt>,
    bodies: Seq<FuncBody>,
    body: int,
    file: u32,
    offset: u32,
    count: nat,
)
    requires
        0 <= body < bodies.len(),
        count <= bodies[body].exprs@.len(),
        best is Some ==> 0 <= best->0.body < bodies.len() && 0 <= best->0.expr
            < bodies[best->0.body].exprs@.len(),
    ensures
        ({
            let found = smallest_in_body(best, bodies[body].exprs@, body, file, offset, count);
            found is Some ==> 0 <= found->0.body < bodies.len() && 0 <= found->0.expr
                < bodies[found->0.body].exprs@.len()
        }),
    decreases count,
{
    if count > 0 {
        lemma_smallest_in_body(best, bodies, body, file, offset, (count - 1) as nat);
    }
}

/// The smallest expression that holds an offset stands in one of the bodies.
pub proof fn lemma_smallest_expr(bodies: Seq<FuncBody>, file: u32, offset: u32, count: nat)
    requires
        count <= bodies.len(),
    ensures
        ({
            let found = smallest_expr(bodies, file, offset, count);
            found is Some ==> 0 <= found->0.body < bodies.len() && 0 <= found->0.expr
                < bodies[found->0.body].exprs@.len()
        }),
    decreases count,
{
    if count > 0 {
        lemma_smallest_expr(bodies, file, offset, (count - 1) as nat);
        lemma_smallest_in_body(
            smallest_expr(bodies, file, offset, (count - 1) as nat),
            bodies,
            count - 1,
            file,
            offset,
            bodies[count - 1].exprs@.len(),
        );
    }
}

/// Returns the smallest expression whose range contains `offset`, with the body that holds it.
pub fn innermost_expr(root_body: &FuncBody, file: u32, offset: u32) -> (found: Option<
    (&FuncBody, usize),
>)
    ensures
        match found {
            Some((body, expr)) => ({
                let at = innermost(*root_body, file, offset);
                &&& at is Some
                &&& *body == body_tree(*root_body)[at->0.body]
                &&& expr == at->0.expr
                &&& expr < body.exprs@.len()
                &&& 0 <= at->0.body < body_tree(*root_body).len()
            }),
            None => innermost(*root_body, file, offset) is None,
        },
{
    let bodies = bodies_in(root_body);
    let ghost all = derefs(bodies@);
    let mut best: Option<(usize, usize, u32)> = None;
    let ghost mut shown: Option<ExprAt> = None;
    let mut i: usize = 0;
    while i < bodies.len()
        invariant
            i <= bodies@.len(),
            all == derefs(bodies@),
            shown == smallest_expr(all, file, offset, i as nat),
            match best {
                Some((b, e, w)) => shown == Some(
                    ExprAt { body: b as int, expr: e as int, width: w as nat },
                ) && b < bodies@.len(),
                None => shown is None,
            },
        decreases bodies@.len() - i,
    {
        let body = bodies[i];
        let ghost before = shown;
        let mut k: usize = 0;
        while k < body.exprs.len()
            invariant
                i < bodies@.len(),
                k <= body.exprs@.len(),
                shown == smallest_in_body(before, body.exprs@, i as int, file, offset, k as nat),
                match best {
                    Some((b, e, w)) => shown == Some(
                        ExprAt { body: b as int, expr: e as int, width: w as nat },
                    ) && b < bodies@.len(),
                    None => shown is None,
                },
            decreases body.exprs@.len() - k,
        {
            let span = body.exprs[k].span;
            if span.contains_offset(file, offset) {
                let width = span.len();
                let smaller = match best {
                    Some((_, _, least)) => width < least,
                    None => true,
                };
                if smaller {
                    best = Some((i, k, width));
                    proof {
                        shown = Some(ExprAt { body: i as int, expr: k as int, width: width as nat });
                    }
                }
            }
            k += 1;
        }
        assert(all[i as int] == *body);
        i += 1;
    }
    proof {
        lemma_smallest_expr(all, file, offset, all.len());
    }
    match best {
        Some((b, e, _)) => {
            assert(all[b as int] == *bodies@[b as int]);
            Some((bodies[b], e))
        },
        None => None,
    }
}

/// A function with a body, and what it inherits from the item around it: the contract, and the
/// type variables with the definition that declares them.
#[derive(Clone, Copy)]
pub struct FunctionAtOffset<'a> {
    pub function: &'a FunctionDef,
    pub root_body: &'a FuncBody,
    pub enclosing_contract: Option<DefId>,
    pub inherited_type_vars: Option<(DefId, &'a Vec<Name>)>,
}

/// A function as a context, none where it has no body.
pub open spec fn context_of<'a>(
    function: &'a FunctionDef,
    contract: Option<DefId>,
    inherited: Option<(DefId, &'a Vec<Name>)>,
) -> Seq<FunctionAtOffset<'a>> {
    match function.body {
        Some(body) => seq![
            FunctionAtOffset {
                function,
                root_body: &body,
                enclosing_contract: contract,
                inherited_type_vars: inherited,
            },
        ],
        None => Seq::empty(),
    }
}

pub open spec fn contract_contexts<'a>(contract: &'a ContractDef, count: nat) -> Seq<
    FunctionAtOffset<'a>,
>
    decreases count,
{
    if count == 0 {
        Seq::empty()
    } else {
        contract_contexts(contract, (count - 1) as nat) + match &contract.items@[count - 1] {
            ContractItem::FunctionDef(function) => context_of(
                function,
                Some(contract.def),
                Some((contract.def, &contract.params)),
            ),
            _ => Seq::empty(),
        }
    }
}

pub open spec fn instance_contexts<'a>(instance: &'a InstanceDef, count: nat) -> Seq<
    FunctionAtOffset<'a>,
>
    decreases count,
{
    if count == 0 {
        Seq::empty()
    } else {
        instance_contexts(instance, (count - 1) as nat) + context_of(
            &instance.methods@[count - 1],
            None,
            Some((instance.def, &instance.type_vars)),
        )
    }
}

pub open spec fn item_contexts<'a>(item: &'a Item) -> Seq<FunctionAtOffset<'a>> {
    match item {
        Item::FunctionDef(function) => context_of(function, None, None),
        Item::ContractDef(contract) => contract_contexts(contract, contract.items@.len()),
        Item::InstanceDef(instance) => instance_contexts(instance, instance.methods@.len()),
        _ => Seq::empty(),
    }
}

/// The functions with bodies among the first `count` items, in source order.
pub open spec fn contexts<'a>(module: &'a Module, count: nat) -> Seq<FunctionAtOffset<'a>>
    decreases count,
{
    if count == 0 {
        Seq::empty()
    } else {
        contexts(module, (count - 1) as nat) + item_contexts(&module.items@[count - 1])
    }
}

fn push_function_context<'a>(
    contexts: &mut Vec<FunctionAtOffset<'a>>,
    function: &'a FunctionDef,
    contract: Option<DefId>,
    inherited: Option<(DefId, &'a Vec<Name>)>,
)
    ensures
        final(contexts)@ == old(contexts)@ + context_of(function, contract, inherited),
{
    let ghost before = contexts@;
    match &function.body {
        Some(body) => {
            contexts.push(
                FunctionAtOffset {
                    function,
                    root_body: body,
                    enclosing_contract: contract,
                    inherited_type_vars: inherited,
                },
            );
            assert(contexts@ == before + context_of(function, contract, inherited));
        },
        None => {
            assert(contexts@ == before + context_of(function, contract, inherited));
        },
    }
}

/// Lists the functions with bodies of a module, in source order.
pub fn function_contexts<'a>(module: &'a Module) -> (found: Vec<FunctionAtOffset<'a>>)
    ensures
        found@ == contexts(module, module.items@.len()),
{
    let mut found: Vec<FunctionAtOffset<'a>> = Vec::new();
    let mut i: usize = 0;
    while i < module.items.len()
        invariant
            i <= module.items@.len(),
            found@ == contexts(module, i as nat),
        decreases module.items@.len() - i,
    {
        let ghost before = found@;
        match &module.items[i] {
            Item::FunctionDef(function) => push_function_context(&mut found, function, None, None),
            Item::ContractDef(contract) => {
                let mut k: usize = 0;
                assert(before + contract_contexts(contract, 0) == before);
                while k < contract.items.len()
                    invariant
                        k <= contract.items@.len(),
                        found@ == before + contract_contexts(contract, k as nat),
                    decreases contract.items@.len() - k,
                {
                    let ghost sofar = found@;
                    if let ContractItem::FunctionDef(function) = &contract.items[k] {
                        push_function_context(
                            &mut found,
                            function,
                            Some(contract.def),
                            Some((contract.def, &contract.params)),
                        );
                    }
                    assert(found@ == before + contract_contexts(contract, (k + 1) as nat));
                    k += 1;
                }
            },
            Item::InstanceDef(instance) => {
                let mut k: usize = 0;
                assert(before + instance_contexts(instance, 0) == before);
                while k < instance.methods.len()
                    invariant
                        k <= instance.methods@.len(),
                        found@ == before + instance_contexts(instance, k as nat),
                    decreases instance.methods@.len() - k,
                {
                    push_function_context(
                        &mut found,
                        &instance.methods[k],
                        None,
                        Some((instance.def, &instance.type_vars)),
                    );
                    assert(found@ == before + instance_contexts(instance, (k + 1) as nat));
                    k += 1;
                }
            },
            _ => {
                assert(before + item_contexts(&module.items@[i as int]) == before);
            },
        }
        assert(found@ == before + item_contexts(&module.items@[i as int]));
        i += 1;
    }
    found
}

/// Index of the first of some functions that has an expression at an offset.
pub open spec fn owning_context(found: Seq<FunctionAtOffset<'_>>, file: u32, offset: u32) -> Option<
    int,
>
    decreases found.len(),
{
    if found.len() == 0 {
        None
    } else {
        match owning_context(found.drop_last(), file, offset) {
            Some(i) => Some(i),
            None => if innermost(*found.last().root_body, file, offset) is Some {
                Some(found.len() - 1)
            } else {
                None
            },
        }
    }
}

/// The function of a module whose body has an expression at an offset.
pub open spec fn owner_at<'a>(module: &'a Module, file: u32, offset: u32) -> Option<
    FunctionAtOffset<'a>,
> {
    let all = contexts(module, module.items@.len());
    match owning_context(all, file, offset) {
        Some(i) => Some(all[i]),
        None => None,
    }
}

/// Returns the function or method whose body contains an expression at `offset`.
pub fn function_owning_offset<'a>(module: &'a Module, file: u32, offset: u32) -> (found: Option<
    FunctionAtOffset<'a>,
>)
    ensures
        found == owner_at(module, file, offset),
        found is Some ==> innermost(*found->0.root_body, file, offset) is Some,
{
    let all = function_contexts(module);
    let ghost listed = all@;
    let mut i: usize = 0;
    assert(listed.take(0) == Seq::<FunctionAtOffset<'a>>::empty());
    while i < all.len()
        invariant
            i <= all@.len(),
            all@ == listed,
            listed == contexts(module, module.items@.len()),
            owning_context(listed.take(i as int), file, offset) is None,
        decreases all@.len() - i,
    {
        assert(listed.take(i + 1).drop_last() == listed.take(i as int));
        if innermost_expr(all[i].root_body, file, offset).is_some() {
            proof {
                assert(owning_context(listed.take(i + 1), file, offset) == Some(i as int));
                lemma_owning_context(listed, file, offset, i + 1);
            }
            return Some(all[i]);
        }
        i += 1;
    }
    assert(listed.take(i as int) == listed);
    None
}

proof fn lemma_owning_context(found: Seq<FunctionAtOffset<'_>>, file: u32, offset: u32, count: int)
    requires
        0 <= count <= found.len(),
        owning_context(found.take(count), file, offset) is Some,
    ensures
        owning_context(found, file, offset) == owning_context(found.take(count), file, offset),
    decreases found.len(),
{
    if count == found.len() {
        assert(found.take(count) == found);
    } else {
        assert(found.drop_last().take(count) == found.take(count));
        lemma_owning_context(found.drop_last(), file, offset, count);
    }
}

/// A body and the bodies of the lambdas in it, each before those in it and in source order.
pub open spec fn forward_tree(body: FuncBody) -> Seq<FuncBody>
    decreases body, 0nat,
{
    seq![body] + forward_lambdas(body.exprs@, body.exprs@.len())
}

/// The bodies of the lambdas among the first `count` expressions, in source order.
pub open spec fn forward_lambdas(exprs: Seq<Expr>, count: nat) -> Seq<FuncBody>
    decreases exprs, count,
{
    if count == 0 || count > exprs.len() {
        Seq::empty()
    } else {
        forward_lambdas(exprs, (count - 1) as nat) + forward_lambda(exprs[count - 1])
    }
}

pub open spec fn forward_lambda(expr: Expr) -> Seq<FuncBody>
    decreases expr, 0nat,
{
    match expr.kind {
        ExprKind::Lambda { body, .. } => forward_tree(body),
        _ => Seq::empty(),
    }
}

/// Lists a body and the bodies of the lambdas in it in source order.
pub fn bodies_forward(body: &FuncBody) -> (bodies: Vec<&FuncBody>)
    ensures
        derefs(bodies@) == forward_tree(*body),
    decreases body,
{
    let mut bodies: Vec<&FuncBody> = Vec::new();
    bodies.push(body);
    let ghost exprs = body.exprs@;
    let mut i: usize = 0;
    assert(derefs(bodies@) == seq![*body] + forward_lambdas(exprs, 0));
    while i < body.exprs.len()
        invariant
            i <= exprs.len(),
            exprs == body.exprs@,
            derefs(bodies@) == seq![*body] + forward_lambdas(exprs, i as nat),
        decreases exprs.len() - i,
    {
        let ghost before = derefs(bodies@);
        if let ExprKind::Lambda { params: _, body: inner } = &body.exprs[i].kind {
            let mut nested = bodies_forward(inner);
            let ghost added = nested@;
            bodies.append(&mut nested);
            assert(derefs(bodies@) == before + derefs(added));
            assert(derefs(added) == forward_lambda(exprs[i as int]));
        } else {
            assert(derefs(bodies@) == before + forward_lambda(exprs[i as int]));
        }
        assert(forward_lambdas(exprs, (i + 1) as nat) == forward_lambdas(exprs, i as nat)
            + forward_lambda(exprs[i as int]));
        assert(derefs(bodies@) == seq![*body] + forward_lambdas(exprs, (i + 1) as nat));
        i += 1;
    }
    bodies
}

} // verus!
