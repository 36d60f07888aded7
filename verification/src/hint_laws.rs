//! What holds of the types that are shown in the text of a document.
use vstd::prelude::*;

use crate::hir::{BodyTypes, FuncBody, SourceFacts, StmtKind};
use crate::inlay_hints::{
    body_hints, context_hints, file_hints, let_type, stmt_hint, types_of, HintParts, HintRequest,
};
use crate::line_index::{clamped, position_at};
use crate::protocol::InlayHint;
use crate::rank::law_ranked;
use crate::resolve::{contexts, forward_tree, FunctionAtOffset};
use crate::seqs::{concat_map, law_concat_map, law_joined};
use crate::tree_laws::{has_function, law_body_tree, law_functions, lies_in};

verus! {

/// Whether a hint stands behind the name of a `let` statement of a body that is written without a
/// type, inside of the range that was asked for, and shows the type that was inferred for it.
pub open spec fn is_hint_for(
    text: Seq<char>,
    types: BodyTypes,
    request: HintRequest,
    body: FuncBody,
    k: int,
    hint: HintParts,
) -> bool {
    0 <= k < body.stmts@.len() && match body.stmts@[k].kind {
        StmtKind::Let { name, ty: None, .. } => name.span.file == request.file && request.start
            <= name.span.start && name.span.end <= request.end && match let_type(
            types,
            body.id,
            k as usize,
        ) {
            Some(found) => hint.label == ": "@ + found.shown@ && hint.position == position_at(
                text,
                clamped(text, name.span.end as int),
            ),
            None => false,
        },
        _ => false,
    }
}

proof fn lemma_body_hints(
    text: Seq<char>,
    types: BodyTypes,
    request: HintRequest,
    body: FuncBody,
    count: nat,
    hint: HintParts,
)
    requires
        count <= body.stmts@.len(),
    ensures
        body_hints(text, types, request, body, count).contains(hint) <==> exists|k: int|
            k < count && #[trigger] is_hint_for(text, types, request, body, k, hint),
    decreases count,
{
    if count > 0 {
        let rest = (count - 1) as nat;
        let before = body_hints(text, types, request, body, rest);
        lemma_body_hints(text, types, request, body, rest, hint);
        let own = stmt_hint(
            text,
            types,
            request,
            body.id,
            body.stmts@[count - 1],
            (count - 1) as usize,
        );
        assert(own == Some(hint) <==> is_hint_for(text, types, request, body, count - 1, hint));
        if own is Some {
            law_joined(before, seq![own->0]);
            assert(before.push(own->0) == before + seq![own->0]);
            assert(seq![own->0].contains(hint) <==> own->0 == hint) by {
                assert(seq![own->0][0] == own->0);
            }
        }
    }
}

/// Whether a hint stands for a `let` statement of a function.
pub open spec fn is_function_hint(
    text: Seq<char>,
    facts: SourceFacts,
    request: HintRequest,
    context: FunctionAtOffset<'_>,
    hint: HintParts,
) -> bool {
    types_of(facts, context.root_body.id) matches Some(types) && exists|body: FuncBody, k: int|
        lies_in(*context.root_body, body) && #[trigger] is_hint_for(
            text,
            types,
            request,
            body,
            k,
            hint,
        )
}

proof fn lemma_context_hints(
    text: Seq<char>,
    facts: SourceFacts,
    request: HintRequest,
    context: FunctionAtOffset<'_>,
    hint: HintParts,
)
    ensures
        context_hints(text, facts, request, context).contains(hint) <==> is_function_hint(
            text,
            facts,
            request,
            context,
            hint,
        ),
{
    match types_of(facts, context.root_body.id) {
        Some(types) => {
            let tree = forward_tree(*context.root_body);
            let f = |body: FuncBody| body_hints(text, types, request, body, body.stmts@.len());
            law_concat_map(tree, f);
            if context_hints(text, facts, request, context).contains(hint) {
                let b = choose|b: int| 0 <= b < tree.len() && f(#[trigger] tree[b]).contains(hint);
                assert(tree.contains(tree[b]));
                law_body_tree(*context.root_body, tree[b]);
                lemma_body_hints(text, types, request, tree[b], tree[b].stmts@.len(), hint);
            }
            if is_function_hint(text, facts, request, context, hint) {
                let (body, k) = choose|body: FuncBody, k: int|
                    lies_in(*context.root_body, body) && #[trigger] is_hint_for(
                        text,
                        types,
                        request,
                        body,
                        k,
                        hint,
                    );
                law_body_tree(*context.root_body, body);
                let b = choose|b: int| 0 <= b < tree.len() && tree[b] == body;
                lemma_body_hints(text, types, request, body, body.stmts@.len(), hint);
                assert(f(tree[b]).contains(hint));
            }
        },
        None => {},
    }
}

/// Each `let` statement that is written without a type and stands in the range that was asked for
/// has a hint behind its name with the type that was inferred for it. Nothing else has one.
pub proof fn law_hints(text: Seq<char>, facts: SourceFacts, request: HintRequest, hint: HintParts)
    ensures
        file_hints(text, facts, request).contains(hint) <==> exists|context: FunctionAtOffset<'_>|
            has_function(facts.module, context) && #[trigger] is_function_hint(
                text,
                facts,
                request,
                context,
                hint,
            ),
{
    broadcast use vstd::seq_lib::group_to_multiset_ensures;

    let all = contexts(&facts.module, facts.module.items@.len());
    let f = |context: FunctionAtOffset<'_>| context_hints(text, facts, request, context);
    let found = concat_map(all, f);
    let shown = file_hints(text, facts, request);
    law_concat_map(all, f);
    law_ranked::<InlayHint>(found);
    assert(shown.contains(hint) <==> shown.to_multiset().count(hint) > 0);
    assert(found.contains(hint) <==> found.to_multiset().count(hint) > 0);
    if found.contains(hint) {
        let i = choose|i: int| 0 <= i < all.len() && f(#[trigger] all[i]).contains(hint);
        assert(all.contains(all[i]));
        law_functions(facts.module, all[i]);
        lemma_context_hints(text, facts, request, all[i], hint);
    }
    if exists|context: FunctionAtOffset<'_>|
        has_function(facts.module, context) && #[trigger] is_function_hint(
            text,
            facts,
            request,
            context,
            hint,
        ) {
        let context = choose|context: FunctionAtOffset<'_>|
            has_function(facts.module, context) && #[trigger] is_function_hint(
                text,
                facts,
                request,
                context,
                hint,
            );
        law_functions(facts.module, context);
        let i = choose|i: int| 0 <= i < all.len() && all[i] == context;
        lemma_context_hints(text, facts, request, context, hint);
        assert(f(all[i]).contains(hint));
    }
}

} // verus!
