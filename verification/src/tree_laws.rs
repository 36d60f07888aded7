//! What holds of the functions, bodies and expressions of a module as a whole.
use vstd::prelude::*;

use crate::analysis::{
    body_of, expr_of, facts_at, facts_numbered, known_text, map_of, pat_of, requested, stmt_of,
};
use crate::hir::{
    BodyFacts, BodyId, ContractDef, ContractItem, Expr, ExprKind, FuncBody, FunctionDef, InstanceDef,
    Item, Module, SourceFacts,
};
use crate::line_index::byte_at;
use crate::protocol::Position;
use crate::resolve::{
    body_tree, context_of, contexts, contract_contexts, forward_lambda, forward_lambdas,
    forward_tree, innermost, instance_contexts, item_contexts, lambda_tree, lambda_trees,
    owner_at, owning_context, smallest_expr, smallest_in_body, ExprAt, FunctionAtOffset,
};
use crate::seqs::{find, find_map, law_find, law_find_map, law_joined};
use crate::state::{known_path, WorldModel};
use crate::url::UrlParts;

verus! {

pub open spec fn is_lambda_with(expr: Expr, inner: FuncBody) -> bool {
    expr.kind matches ExprKind::Lambda { body, .. } && body == inner
}

/// Whether an expression of a body is a lambda with another body.
pub open spec fn has_lambda(outer: FuncBody, inner: FuncBody) -> bool {
    exists|i: int| 0 <= i < outer.exprs@.len() && is_lambda_with(#[trigger] outer.exprs@[i], inner)
}

/// Whether the body at an index of a list is that of a lambda in the one before it.
pub open spec fn follows(chain: Seq<FuncBody>, i: int) -> bool {
    has_lambda(chain[i - 1], chain[i])
}

/// Whether a list leads from a body to another through lambdas.
pub open spec fn leads(chain: Seq<FuncBody>, root: FuncBody, body: FuncBody) -> bool {
    chain.len() > 0 && chain[0] == root && chain[chain.len() - 1] == body && forall|i: int|
        0 < i < chain.len() ==> #[trigger] follows(chain, i)
}

/// Whether a body is another or stands in a lambda of it, however deep.
pub open spec fn lies_in(root: FuncBody, body: FuncBody) -> bool {
    exists|chain: Seq<FuncBody>| #[trigger] leads(chain, root, body)
}

proof fn lemma_lambda_trees(exprs: Seq<Expr>, count: nat)
    requires
        count <= exprs.len(),
    ensures
        forall|i: int, body: FuncBody|
            0 <= i < count && #[trigger] lambda_tree(exprs[i]).contains(body) ==> lambda_trees(
                exprs,
                count,
            ).contains(body),
        forall|body: FuncBody| #[trigger]
            lambda_trees(exprs, count).contains(body) ==> exists|i: int|
                0 <= i < count && lambda_tree(#[trigger] exprs[i]).contains(body),
    decreases count,
{
    if count > 0 {
        let rest = (count - 1) as nat;
        lemma_lambda_trees(exprs, rest);
        law_joined(lambda_tree(exprs[count - 1]), lambda_trees(exprs, rest));
        assert(lambda_trees(exprs, count) == lambda_tree(exprs[count - 1]) + lambda_trees(
            exprs,
            rest,
        ));
        assert forall|body: FuncBody| #[trigger]
            lambda_trees(exprs, count).contains(body) implies exists|i: int|
            0 <= i < count && lambda_tree(#[trigger] exprs[i]).contains(body) by {
            if lambda_tree(exprs[count - 1]).contains(body) {
            } else {
                assert(lambda_trees(exprs, rest).contains(body));
            }
        }
    }
}

proof fn lemma_forward_lambdas(exprs: Seq<Expr>, count: nat)
    requires
        count <= exprs.len(),
    ensures
        forall|i: int, body: FuncBody|
            0 <= i < count && #[trigger] forward_lambda(exprs[i]).contains(body)
                ==> forward_lambdas(exprs, count).contains(body),
        forall|body: FuncBody| #[trigger]
            forward_lambdas(exprs, count).contains(body) ==> exists|i: int|
                0 <= i < count && forward_lambda(#[trigger] exprs[i]).contains(body),
    decreases count,
{
    if count > 0 {
        let rest = (count - 1) as nat;
        lemma_forward_lambdas(exprs, rest);
        law_joined(forward_lambdas(exprs, rest), forward_lambda(exprs[count - 1]));
        assert(forward_lambdas(exprs, count) == forward_lambdas(exprs, rest) + forward_lambda(
            exprs[count - 1],
        ));
        assert forall|body: FuncBody| #[trigger]
            forward_lambdas(exprs, count).contains(body) implies exists|i: int|
            0 <= i < count && forward_lambda(#[trigger] exprs[i]).contains(body) by {
            if forward_lambda(exprs[count - 1]).contains(body) {
            } else {
                assert(forward_lambdas(exprs, rest).contains(body));
            }
        }
    }
}

proof fn lemma_lambda(expr: Expr)
    requires
        expr.kind is Lambda,
    ensures
        expr.kind matches ExprKind::Lambda { body, .. } ==> lambda_tree(expr) == body_tree(body)
            && forward_lambda(expr) == forward_tree(body),
{
    reveal_with_fuel(lambda_tree, 2);
    reveal_with_fuel(forward_lambda, 2);
    reveal_with_fuel(body_tree, 2);
    reveal_with_fuel(forward_tree, 2);
}

proof fn lemma_deeper(root: FuncBody, inner: FuncBody, body: FuncBody)
    requires
        has_lambda(root, inner),
        lies_in(inner, body),
    ensures
        lies_in(root, body),
{
    let rest = choose|chain: Seq<FuncBody>| #[trigger] leads(chain, inner, body);
    let chain = seq![root] + rest;
    assert forall|i: int| 0 < i < chain.len() implies #[trigger] follows(chain, i) by {
        if i == 1 {
            assert(chain[1] == inner);
        } else {
            assert(chain[i] == rest[i - 1] && chain[i - 1] == rest[i - 2]);
            assert(follows(rest, i - 1));
        }
    }
    assert(leads(chain, root, body));
}

proof fn lemma_tree_lies_in(root: FuncBody)
    ensures
        forall|body: FuncBody| #[trigger] body_tree(root).contains(body) ==> lies_in(root, body),
        forall|body: FuncBody| #[trigger] forward_tree(root).contains(body) ==> lies_in(root, body),
    decreases root,
{
    let exprs = root.exprs@;
    assert forall|i: int| 0 <= i < exprs.len() implies (forall|body: FuncBody|
        lambda_tree(#[trigger] exprs[i]).contains(body) || forward_lambda(exprs[i]).contains(body)
            ==> #[trigger] lies_in(root, body)) by {
        match exprs[i].kind {
            ExprKind::Lambda { body: inner, .. } => {
                lemma_tree_lies_in(inner);
                lemma_lambda(exprs[i]);
                assert forall|body: FuncBody|
                    lambda_tree(exprs[i]).contains(body) || forward_lambda(exprs[i]).contains(
                        body,
                    ) implies #[trigger] lies_in(root, body) by {
                    assert(body_tree(inner).contains(body) || forward_tree(inner).contains(body));
                    assert(has_lambda(root, inner));
                    lemma_deeper(root, inner, body);
                }
            },
            _ => {},
        }
    }
    lemma_lambda_trees(exprs, exprs.len());
    lemma_forward_lambdas(exprs, exprs.len());
    law_joined(seq![root], lambda_trees(exprs, exprs.len()));
    law_joined(seq![root], forward_lambdas(exprs, exprs.len()));
    assert(leads(seq![root], root, root));
    assert forall|body: FuncBody| #[trigger] body_tree(root).contains(body) implies lies_in(
        root,
        body,
    ) by {
        if seq![root].contains(body) {
            assert(body == root);
        } else {
            assert(lambda_trees(exprs, exprs.len()).contains(body));
            let i = choose|i: int|
                0 <= i < exprs.len() && lambda_tree(#[trigger] exprs[i]).contains(body);
        }
    }
    assert forall|body: FuncBody| #[trigger] forward_tree(root).contains(body) implies lies_in(
        root,
        body,
    ) by {
        if seq![root].contains(body) {
            assert(body == root);
        } else {
            assert(forward_lambdas(exprs, exprs.len()).contains(body));
            let i = choose|i: int|
                0 <= i < exprs.len() && forward_lambda(#[trigger] exprs[i]).contains(body);
        }
    }
}

proof fn lemma_chain_in_tree(root: FuncBody, body: FuncBody, chain: Seq<FuncBody>)
    requires
        leads(chain, root, body),
    ensures
        body_tree(root).contains(body),
        forward_tree(root).contains(body),
    decreases chain.len(),
{
    let exprs = root.exprs@;
    lemma_lambda_trees(exprs, exprs.len());
    lemma_forward_lambdas(exprs, exprs.len());
    law_joined(seq![root], lambda_trees(exprs, exprs.len()));
    law_joined(seq![root], forward_lambdas(exprs, exprs.len()));
    assert(body_tree(root) == seq![root] + lambda_trees(exprs, exprs.len()));
    assert(forward_tree(root) == seq![root] + forward_lambdas(exprs, exprs.len()));
    if chain.len() == 1 {
        assert(seq![root][0] == body);
        assert(seq![root].contains(body));
    } else {
        assert(follows(chain, 1));
        let inner = chain[1];
        let rest = chain.skip(1);
        assert forall|i: int| 0 < i < rest.len() implies #[trigger] follows(rest, i) by {
            assert(follows(chain, i + 1));
        }
        lemma_chain_in_tree(inner, body, rest);
        let i = choose|i: int|
            0 <= i < exprs.len() && is_lambda_with(#[trigger] exprs[i], inner);
        lemma_lambda(exprs[i]);
        assert(lambda_tree(exprs[i]).contains(body));
        assert(forward_lambda(exprs[i]).contains(body));
    }
}

/// A function's bodies are its own body and the bodies of the lambdas in it, however deep, and no
/// other: in whichever order they are listed.
pub proof fn law_body_tree(root: FuncBody, body: FuncBody)
    ensures
        body_tree(root).contains(body) <==> lies_in(root, body),
        forward_tree(root).contains(body) <==> lies_in(root, body),
{
    lemma_tree_lies_in(root);
    if lies_in(root, body) {
        let chain = choose|chain: Seq<FuncBody>| #[trigger] leads(chain, root, body);
        lemma_chain_in_tree(root, body, chain);
    }
}

/// Whether a function of a module has a body: a function of its own, one of a contract, which
/// knows the contract and its type parameters, or a method of an instance, which knows the
/// instance's type variables.
pub open spec fn has_function(module: Module, context: FunctionAtOffset<'_>) -> bool {
    context.function.body == Some(*context.root_body) && exists|i: int|
        0 <= i < module.items@.len() && #[trigger] item_has_function(module.items@[i], context)
}

pub open spec fn item_has_function(item: Item, context: FunctionAtOffset<'_>) -> bool {
    match item {
        Item::FunctionDef(function) => function == *context.function
            && context.enclosing_contract is None && context.inherited_type_vars is None,
        Item::ContractDef(contract) => contract.items@.contains(
            ContractItem::FunctionDef(*context.function),
        ) && context.enclosing_contract == Some(contract.def) && context.inherited_type_vars
            == Some((contract.def, &contract.params)),
        Item::InstanceDef(instance) => instance.methods@.contains(*context.function)
            && context.enclosing_contract is None && context.inherited_type_vars == Some(
            (instance.def, &instance.type_vars),
        ),
        _ => false,
    }
}

proof fn lemma_contract_contexts(
    contract: &ContractDef,
    count: nat,
    context: FunctionAtOffset<'_>,
)
    requires
        count <= contract.items@.len(),
    ensures
        contract_contexts(contract, count).contains(context) <==> context.function.body == Some(
            *context.root_body,
        ) && contract.items@.take(count as int).contains(
            ContractItem::FunctionDef(*context.function),
        ) && context.enclosing_contract == Some(contract.def) && context.inherited_type_vars
            == Some((contract.def, &contract.params)),
    decreases count,
{
    if count > 0 {
        let rest = (count - 1) as nat;
        lemma_contract_contexts(contract, rest, context);
        let last = contract.items@[count - 1];
        let own = match &contract.items@[count - 1] {
            ContractItem::FunctionDef(function) => context_of(
                function,
                Some(contract.def),
                Some((contract.def, &contract.params)),
            ),
            _ => Seq::empty(),
        };
        law_joined(contract_contexts(contract, rest), own);
        assert(contract.items@.take(count as int) == contract.items@.take(rest as int) + seq![last]);
        law_joined(contract.items@.take(rest as int), seq![last]);
        let wanted = ContractItem::FunctionDef(*context.function);
        assert(seq![last].contains(wanted) <==> wanted == last) by {
            assert(seq![last][0] == last);
        }
        if own.contains(context) {
            assert(own[0] == context);
        }
        if last == wanted && context.function.body == Some(*context.root_body)
            && context.enclosing_contract == Some(contract.def) && context.inherited_type_vars
            == Some((contract.def, &contract.params)) {
            assert(own[0] == context);
        }
    } else {
        assert(contract.items@.take(0) == Seq::<ContractItem>::empty());
    }
}

proof fn lemma_instance_contexts(
    instance: &InstanceDef,
    count: nat,
    context: FunctionAtOffset<'_>,
)
    requires
        count <= instance.methods@.len(),
    ensures
        instance_contexts(instance, count).contains(context) <==> context.function.body == Some(
            *context.root_body,
        ) && instance.methods@.take(count as int).contains(*context.function)
            && context.enclosing_contract is None && context.inherited_type_vars == Some(
            (instance.def, &instance.type_vars),
        ),
    decreases count,
{
    if count > 0 {
        let rest = (count - 1) as nat;
        lemma_instance_contexts(instance, rest, context);
        let last = instance.methods@[count - 1];
        let own = context_of(
            &instance.methods@[count - 1],
            None,
            Some((instance.def, &instance.type_vars)),
        );
        law_joined(instance_contexts(instance, rest), own);
        assert(instance.methods@.take(count as int) == instance.methods@.take(rest as int)
            + seq![last]);
        law_joined(instance.methods@.take(rest as int), seq![last]);
        assert(seq![last].contains(*context.function) <==> *context.function == last) by {
            assert(seq![last][0] == last);
        }
        if own.contains(context) {
            assert(own[0] == context);
        }
        if last == *context.function && context.function.body == Some(*context.root_body)
            && context.enclosing_contract is None && context.inherited_type_vars == Some(
            (instance.def, &instance.type_vars),
        ) {
            assert(own[0] == context);
        }
    } else {
        assert(instance.methods@.take(0) == Seq::<FunctionDef>::empty());
    }
}

proof fn lemma_item_contexts(item: &Item, context: FunctionAtOffset<'_>)
    ensures
        item_contexts(item).contains(context) <==> context.function.body == Some(
            *context.root_body,
        ) && item_has_function(*item, context),
{
    match item {
        Item::FunctionDef(function) => {
            let own = context_of(function, None, None);
            if own.contains(context) {
                assert(own[0] == context);
            }
            if context.function.body == Some(*context.root_body) && item_has_function(
                *item,
                context,
            ) {
                assert(own[0] == context);
            }
        },
        Item::ContractDef(contract) => {
            lemma_contract_contexts(contract, contract.items@.len(), context);
            assert(contract.items@.take(contract.items@.len() as int) == contract.items@);
        },
        Item::InstanceDef(instance) => {
            lemma_instance_contexts(instance, instance.methods@.len(), context);
            assert(instance.methods@.take(instance.methods@.len() as int) == instance.methods@);
        },
        _ => {},
    }
}

proof fn lemma_contexts(module: &Module, count: nat, context: FunctionAtOffset<'_>)
    requires
        count <= module.items@.len(),
    ensures
        contexts(module, count).contains(context) <==> context.function.body == Some(
            *context.root_body,
        ) && exists|i: int|
            0 <= i < count && #[trigger] item_has_function(module.items@[i], context),
    decreases count,
{
    if count > 0 {
        let rest = (count - 1) as nat;
        lemma_contexts(module, rest, context);
        lemma_item_contexts(&module.items@[count - 1], context);
        law_joined(contexts(module, rest), item_contexts(&module.items@[count - 1]));
    }
}

/// The functions of a module that are looked into are all those that have a body, wherever they
/// stand: on their own, in a contract or in an instance.
pub proof fn law_functions(module: Module, context: FunctionAtOffset<'_>)
    ensures
        contexts(&module, module.items@.len()).contains(context) <==> has_function(module, context),
{
    lemma_contexts(&module, module.items@.len(), context);
}

/// Whether an expression of a function's bodies is at an offset.
pub open spec fn expr_at(root: FuncBody, body: FuncBody, i: int, file: u32, offset: u32) -> bool {
    lies_in(root, body) && 0 <= i < body.exprs@.len() && body.exprs@[i].span.file == file
        && body.exprs@[i].span.start <= offset < body.exprs@[i].span.end
}

proof fn lemma_smallest_in_body(
    best: Option<ExprAt>,
    exprs: Seq<Expr>,
    body: int,
    file: u32,
    offset: u32,
    count: nat,
)
    requires
        count <= exprs.len(),
    ensures
        ({
            let found = smallest_in_body(best, exprs, body, file, offset, count);
            &&& best is Some ==> found is Some && found->0.width <= best->0.width
            &&& forall|i: int|
                0 <= i < count && (#[trigger] exprs[i]).span.holds(file, offset) ==> found is Some
                    && found->0.width <= exprs[i].span.width()
            &&& found is Some ==> found == best || (found->0.body == body && 0 <= found->0.expr
                < count && exprs[found->0.expr].span.holds(file, offset) && found->0.width
                == exprs[found->0.expr].span.width())
        }),
    decreases count,
{
    if count > 0 {
        lemma_smallest_in_body(best, exprs, body, file, offset, (count - 1) as nat);
    }
}

proof fn lemma_smallest(bodies: Seq<FuncBody>, file: u32, offset: u32, count: nat)
    requires
        count <= bodies.len(),
    ensures
        ({
            let found = smallest_expr(bodies, file, offset, count);
            &&& forall|b: int, i: int|
                0 <= b < count && 0 <= i < bodies[b].exprs@.len() && (
                #[trigger] bodies[b].exprs@[i]).span.holds(file, offset) ==> found is Some
                    && found->0.width <= bodies[b].exprs@[i].span.width()
            &&& found is Some ==> 0 <= found->0.body < count && 0 <= found->0.expr
                < bodies[found->0.body].exprs@.len()
                && bodies[found->0.body].exprs@[found->0.expr].span.holds(file, offset)
                && found->0.width == bodies[found->0.body].exprs@[found->0.expr].span.width()
        }),
    decreases count,
{
    if count > 0 {
        let rest = (count - 1) as nat;
        lemma_smallest(bodies, file, offset, rest);
        lemma_smallest_in_body(
            smallest_expr(bodies, file, offset, rest),
            bodies[count - 1].exprs@,
            count - 1,
            file,
            offset,
            bodies[count - 1].exprs@.len(),
        );
    }
}

/// The expression of a function that is taken for an offset holds the offset, and none of the
/// function that holds it has fewer bytes. None is taken only where none holds the offset.
pub proof fn law_innermost(root: FuncBody, file: u32, offset: u32)
    ensures
        innermost(root, file, offset) is None <==> forall|body: FuncBody, i: int|
            !#[trigger] expr_at(root, body, i, file, offset),
        innermost(root, file, offset) matches Some(at) ==> 0 <= at.body < body_tree(root).len()
            && expr_at(root, body_tree(root)[at.body], at.expr, file, offset) && forall|
            body: FuncBody,
            i: int,
        | #[trigger]
            expr_at(root, body, i, file, offset) ==> body_tree(
                root,
            )[at.body].exprs@[at.expr].span.width() <= body.exprs@[i].span.width(),
{
    let bodies = body_tree(root);
    let found = innermost(root, file, offset);
    lemma_smallest(bodies, file, offset, bodies.len());
    if found is Some {
        let body = bodies[found->0.body];
        assert(bodies.contains(body));
        law_body_tree(root, body);
        assert(expr_at(root, body, found->0.expr, file, offset));
    }
    assert forall|body: FuncBody, i: int| #[trigger]
        expr_at(root, body, i, file, offset) implies found is Some && bodies[
    found->0.body].exprs@[found->0.expr].span.width() <= body.exprs@[i].span.width() by {
        law_body_tree(root, body);
        let b = choose|b: int| 0 <= b < bodies.len() && bodies[b] == body;
        assert(bodies[b].exprs@[i].span.holds(file, offset));
    }
}

proof fn lemma_owning_context(found: Seq<FunctionAtOffset<'_>>, file: u32, offset: u32)
    ensures
        owning_context(found, file, offset) is None <==> forall|i: int|
            0 <= i < found.len() ==> innermost(*(#[trigger] found[i]).root_body, file, offset) is None,
        owning_context(found, file, offset) matches Some(at) ==> 0 <= at < found.len() && innermost(
            *found[at].root_body,
            file,
            offset,
        ) is Some && forall|i: int|
            0 <= i < at ==> innermost(*(#[trigger] found[i]).root_body, file, offset) is None,
    decreases found.len(),
{
    if found.len() > 0 {
        let front = found.drop_last();
        lemma_owning_context(front, file, offset);
        assert forall|i: int| 0 <= i < front.len() implies #[trigger] found[i] == front[i] by {}
    }
}

/// The function that is taken for an offset is one of the module with an expression there. None
/// is taken only where no function of the module has one.
pub proof fn law_owner(module: Module, file: u32, offset: u32)
    ensures
        owner_at(&module, file, offset) matches Some(owner) ==> has_function(module, owner)
            && exists|body: FuncBody, i: int| #[trigger]
            expr_at(*owner.root_body, body, i, file, offset),
        owner_at(&module, file, offset) is None ==> forall|
            owner: FunctionAtOffset<'_>,
            body: FuncBody,
            i: int,
        |
            #[trigger] has_function(module, owner) ==> !#[trigger] expr_at(
                *owner.root_body,
                body,
                i,
                file,
                offset,
            ),
{
    let all = contexts(&module, module.items@.len());
    lemma_owning_context(all, file, offset);
    if owner_at(&module, file, offset) is Some {
        let owner = owner_at(&module, file, offset)->0;
        assert(all.contains(owner));
        law_functions(module, owner);
        law_innermost(*owner.root_body, file, offset);
    } else {
        assert forall|owner: FunctionAtOffset<'_>, body: FuncBody, i: int| #[trigger]
            has_function(module, owner) implies !#[trigger] expr_at(
            *owner.root_body,
            body,
            i,
            file,
            offset,
        ) by {
            law_functions(module, owner);
            let k = choose|k: int| 0 <= k < all.len() && all[k] == owner;
            assert(innermost(*all[k].root_body, file, offset) is None);
            law_innermost(*owner.root_body, file, offset);
        }
    }
}

/// Whether a body is one of the bodies of the functions of a module.
pub open spec fn has_body(module: Module, body: FuncBody) -> bool {
    exists|context: FunctionAtOffset<'_>| #[trigger]
        has_function(module, context) && lies_in(*context.root_body, body)
}

/// Whether no two bodies of a module go by one number.
pub open spec fn bodies_apart(module: Module) -> bool {
    forall|a: FuncBody, b: FuncBody|
        #![trigger has_body(module, a), has_body(module, b)]
        has_body(module, a) && has_body(module, b) && a.id == b.id ==> a == b
}

/// A body that is found by its number has that number and is one of the module's. None is found
/// only where no body of the module has it.
pub proof fn law_body_by_number(module: Module, id: BodyId)
    ensures
        body_of(module, id) matches Some(body) ==> body.id == id && has_body(module, body),
        body_of(module, id) is None ==> forall|body: FuncBody| #[trigger]
            has_body(module, body) ==> body.id != id,
{
    let all = contexts(&module, module.items@.len());
    let test = |body: FuncBody| body.id == id;
    let f = |context: FunctionAtOffset<'_>| find(body_tree(*context.root_body), test);
    assert(body_of(module, id) == find_map(all, f));
    law_find_map(all, f);
    if body_of(module, id) is Some {
        let body = body_of(module, id)->0;
        let k = choose|k: int|
            0 <= k < all.len() && f(#[trigger] all[k]) == find_map(all, f) && forall|j: int|
                0 <= j < k ==> f(#[trigger] all[j]) is None;
        let tree = body_tree(*all[k].root_body);
        law_find(tree, test);
        assert(tree.contains(body));
        law_body_tree(*all[k].root_body, body);
        assert(all.contains(all[k]));
        law_functions(module, all[k]);
    } else {
        assert forall|body: FuncBody| #[trigger] has_body(module, body) implies body.id != id by {
            let context = choose|context: FunctionAtOffset<'_>| #[trigger]
                has_function(module, context) && lies_in(*context.root_body, body);
            law_functions(module, context);
            let k = choose|k: int| 0 <= k < all.len() && all[k] == context;
            assert(f(all[k]) is None);
            let tree = body_tree(*context.root_body);
            law_find(tree, test);
            law_body_tree(*context.root_body, body);
            let b = choose|b: int| 0 <= b < tree.len() && tree[b] == body;
            assert(!test(tree[b]));
        }
    }
}

/// Each body of a module is found by its number, and so are its statements, expressions and
/// patterns: the one at an index is the one that is found by that index.
pub proof fn law_body_found(module: Module, body: FuncBody, index: usize)
    requires
        bodies_apart(module),
        has_body(module, body),
    ensures
        body_of(module, body.id) == Some(body),
        index < body.stmts@.len() ==> stmt_of(module, body.id, index) == Some(
            body.stmts@[index as int],
        ),
        index < body.exprs@.len() ==> expr_of(module, body.id, index) == Some(
            body.exprs@[index as int],
        ),
        index < body.pats@.len() ==> pat_of(module, body.id, index) == Some(
            body.pats@[index as int],
        ),
        index >= body.stmts@.len() ==> stmt_of(module, body.id, index) is None,
        index >= body.exprs@.len() ==> expr_of(module, body.id, index) is None,
        index >= body.pats@.len() ==> pat_of(module, body.id, index) is None,
{
    law_body_by_number(module, body.id);
}

/// A file that is found by its number has that number. None is found only where none has it.
pub proof fn law_file_by_number(files: Seq<SourceFacts>, file: u32)
    ensures
        facts_numbered(files, file) matches Some(facts) ==> files.contains(facts) && facts.file
            == file,
        facts_numbered(files, file) is None ==> forall|i: int|
            0 <= i < files.len() ==> (#[trigger] files[i]).file != file,
{
    law_find(files, |facts: SourceFacts| facts.file == file);
}

/// A request is about the module at the path that the document is known by, and about the byte of
/// its text at the position. It is about nothing only where there is no such module, no such
/// document or no such position.
pub proof fn law_request(
    world: WorldModel,
    files: Seq<SourceFacts>,
    uri: UrlParts,
    position: Position,
    path: Seq<char>,
    text: Seq<char>,
)
    requires
        known_path(world, uri) == Some(path),
        known_text(world, uri) == Some(text),
    ensures
        requested(world, files, uri, position) matches Some((facts, offset)) ==> files.contains(facts)
            && facts.path@ == path && facts.is_module && byte_at(text, position) == Some(offset),
        forall|i: int|
            0 <= i < files.len() && (#[trigger] files[i]).path@ == path && files[i].is_module && (
            forall|j: int| 0 <= j < i ==> (#[trigger] files[j]).path@ != path) && byte_at(
                text,
                position,
            ) is Some ==> requested(world, files, uri, position) == Some(
                (files[i], byte_at(text, position)->0),
            ),
{
    assert(seq![path][0] == path);
    assert(facts_at(files, path) == facts_at(files, seq![path][0]));
    law_find(files, |facts: SourceFacts| facts.path@ == seq![path][0]);
}

/// The names of a function are those that are recorded for its own body.
pub proof fn law_names_of(facts: SourceFacts, root: BodyId)
    ensures
        map_of(facts, root) matches Some(found) ==> facts.bodies@.contains(found) && found.root
            == root,
        map_of(facts, root) is None ==> forall|i: int|
            0 <= i < facts.bodies@.len() ==> (#[trigger] facts.bodies@[i]).root != root,
{
    law_find(facts.bodies@, |body: BodyFacts| body.root == root);
}

} // verus!
