//! What holds of the help that is shown while the arguments of a call are written.
use vstd::prelude::*;

use crate::analysis::{facts_numbered, is_entry_for, map_of};
use crate::declarations::{adt_of, class_of, method_of};
use crate::display::joined_by;
use crate::hir::{
    AdtDef, Analysis, BodyFacts, BuiltinKind, ClassDef, ClassMethod, DefId, DefResolutionKind, Expr, ExprEntry, ExprKind, FuncBody,
    FuncParam, FunctionDef, Resolution, SchemeFacts, ShownReturn, SourceFacts,
};
use crate::hover::{declared_scheme, definition_of, scheme_of, DefinitionParts, KeyParts};
use crate::hover_laws::{ends_in, starts_with_text};
use crate::resolve::{body_tree, owner_at, FunctionAtOffset};
use crate::seqs::law_find;
use crate::signature_help::{
    argument_at, argument_range, best_call, best_in_body, builtin_name_of, call_of, callable, commas, commas_before,
    help_in_file, paren_close, paren_open, signature_of, within, CallAtOffset,
};
use crate::text::utf8;
use crate::tree_laws::{law_body_tree, lies_in};

verus! {

/// How many more parentheses open than close in a part of a text.
pub open spec fn balance(bytes: Seq<u8>, start: int, end: int) -> int
    decreases end - start,
{
    if start >= end {
        0
    } else {
        balance(bytes, start, end - 1) + if bytes[end - 1] == 0x28 {
            1
        } else if bytes[end - 1] == 0x29 {
            -1int
        } else {
            0
        }
    }
}

proof fn lemma_paren_open(bytes: Seq<u8>, i: int, end: int)
    requires
        0 <= i,
        end <= bytes.len(),
    ensures
        paren_open(bytes, i, end) matches Some(open) ==> i <= open < end && bytes[open] == 0x28
            && forall|k: int| i <= k < open ==> #[trigger] bytes[k] != 0x28,
        paren_open(bytes, i, end) is None ==> forall|k: int|
            i <= k < end ==> #[trigger] bytes[k] != 0x28,
    decreases end - i,
{
    if i < end && bytes[i] != 0x28 {
        lemma_paren_open(bytes, i + 1, end);
    }
}

proof fn lemma_paren_close(bytes: Seq<u8>, open: int, i: int, depth: nat, end: int)
    requires
        0 <= open < i <= end <= bytes.len(),
        depth == balance(bytes, open, i),
        forall|k: int| open < k <= i ==> #[trigger] balance(bytes, open, k) > 0,
    ensures
        paren_close(bytes, i, depth, end) matches Some(close) ==> i <= close < end && bytes[close]
            == 0x29 && balance(bytes, open, close + 1) == 0 && forall|k: int|
            open < k <= close ==> #[trigger] balance(bytes, open, k) > 0,
        paren_close(bytes, i, depth, end) is None ==> forall|k: int|
            open < k <= end ==> #[trigger] balance(bytes, open, k) > 0,
    decreases end - i,
{
    if i < end {
        assert(balance(bytes, open, i + 1) == balance(bytes, open, i) + if bytes[i] == 0x28 {
            1
        } else if bytes[i] == 0x29 {
            -1int
        } else {
            0
        });
        if bytes[i] == 0x28 {
            lemma_paren_close(bytes, open, i + 1, depth + 1, end);
        } else if bytes[i] == 0x29 && depth <= 1 {
        } else if bytes[i] == 0x29 {
            lemma_paren_close(bytes, open, i + 1, (depth - 1) as nat, end);
        } else {
            lemma_paren_close(bytes, open, i + 1, depth, end);
        }
    }
}

/// The arguments of a call stand between the first parenthesis that opens behind the callee and
/// the one that closes it: in between, more have opened than closed.
pub proof fn law_argument_range(text: Seq<char>, callee_end: u32, call_end: u32)
    requires
        utf8(text).len() <= u32::MAX,
    ensures
        argument_range(text, callee_end, call_end) matches Some((start, end)) ==> {
            &&& callee_end < start <= end < call_end
            &&& end < utf8(text).len()
            &&& utf8(text)[start - 1] == 0x28
            &&& utf8(text)[end as int] == 0x29
            &&& forall|k: int| callee_end <= k < start - 1 ==> #[trigger] utf8(text)[k] != 0x28
            &&& balance(utf8(text), start - 1, end + 1) == 0
            &&& forall|k: int|
                start <= k <= end ==> #[trigger] balance(utf8(text), start - 1, k) > 0
        },
        argument_range(text, callee_end, call_end) is None ==> forall|open: int, close: int|
            callee_end <= open < close < call_end && close < utf8(text).len() && utf8(text)[open]
                == 0x28 && (forall|k: int| callee_end <= k < open ==> #[trigger] utf8(text)[k] != 0x28)
                ==> #[trigger] balance(utf8(text), open, close + 1) > 0,
{
    let bytes = utf8(text);
    let end = within(call_end, bytes.len());
    assert(end == if call_end < bytes.len() {
        call_end as int
    } else {
        bytes.len() as int
    });
    lemma_paren_open(bytes, callee_end as int, end);
    match paren_open(bytes, callee_end as int, end) {
        Some(open) => {
            assert(balance(bytes, open, open) == 0);
            assert(balance(bytes, open, open + 1) == 1);
            assert(paren_close(bytes, open, 0, end) == paren_close(bytes, open + 1, 1, end));
            lemma_paren_close(bytes, open, open + 1, 1, end);
            if argument_range(text, callee_end, call_end) is None {
                assert forall|other: int, close: int|
                    callee_end <= other < close < call_end && close < bytes.len() && bytes[other]
                        == 0x28 && (forall|k: int|
                        callee_end <= k < other ==> #[trigger] bytes[k] != 0x28) implies #[trigger] balance(
                    bytes,
                    other,
                    close + 1,
                ) > 0 by {
                    if other < open {
                        assert(bytes[other] != 0x28);
                    } else if open < other {
                        assert(bytes[open] != 0x28);
                    }
                }
            }
        },
        None => {
            assert forall|other: int, close: int|
                callee_end <= other < close < call_end && close < bytes.len() && bytes[other] == 0x28
                    && (forall|k: int| callee_end <= k < other ==> #[trigger] bytes[k] != 0x28) implies #[trigger] balance(
            bytes, other, close + 1) > 0 by {
                assert(bytes[other] != 0x28);
            }
        },
    }
}

/// How many brackets are open behind a part of a text. One that closes nothing is passed over.
pub open spec fn open_brackets(bytes: Seq<u8>, start: int, end: int) -> nat
    decreases end - start,
{
    if start >= end {
        0
    } else {
        let before = open_brackets(bytes, start, end - 1);
        if bytes[end - 1] == 0x28 || bytes[end - 1] == 0x5b || bytes[end - 1] == 0x7b {
            before + 1
        } else if (bytes[end - 1] == 0x29 || bytes[end - 1] == 0x5d || bytes[end - 1] == 0x7d)
            && before > 0 {
            (before - 1) as nat
        } else {
            before
        }
    }
}

proof fn lemma_commas(bytes: Seq<u8>, start: int, i: int, end: int)
    requires
        0 <= start <= i <= end < bytes.len(),
    ensures
        commas(bytes, i, end + 1, open_brackets(bytes, start, i)) == commas(
            bytes,
            i,
            end,
            open_brackets(bytes, start, i),
        ) + if bytes[end] == 0x2c && open_brackets(bytes, start, end) == 0 {
            1nat
        } else {
            0nat
        },
    decreases end - i,
{
    let depth = open_brackets(bytes, start, i);
    let next = open_brackets(bytes, start, i + 1);
    if i < end {
        lemma_commas(bytes, start, i + 1, end);
    } else {
        assert(commas(bytes, i + 1, end + 1, next) == 0);
        assert(commas(bytes, i, end, depth) == 0);
    }
}

/// Before the arguments there is no comma. Stepping over a byte adds one exactly where the byte
/// is a comma and every bracket of the arguments before it is closed.
pub proof fn law_commas(text: Seq<char>, start: u32, offset: u32)
    requires
        start <= offset < utf8(text).len() <= u32::MAX,
    ensures
        commas_before(text, start, start) == 0,
        commas_before(text, start, (offset + 1) as u32) == commas_before(text, start, offset)
            + if utf8(text)[offset as int] == 0x2c && open_brackets(
            utf8(text),
            start as int,
            offset as int,
        ) == 0 {
            1int
        } else {
            0
        },
{
    let bytes = utf8(text);
    assert(open_brackets(bytes, start as int, start as int) == 0);
    lemma_commas(bytes, start as int, start as int, offset as int);
    lemma_commas_bound(bytes, start as int, offset + 1, 0);
    lemma_commas_bound(bytes, start as int, offset as int, 0);
}

proof fn lemma_commas_bound(bytes: Seq<u8>, i: int, end: int, depth: nat)
    requires
        0 <= i <= end <= bytes.len(),
    ensures
        commas(bytes, i, end, depth) <= end - i,
    decreases end - i,
{
    if i < end {
        if bytes[i] == 0x28 || bytes[i] == 0x5b || bytes[i] == 0x7b {
            lemma_commas_bound(bytes, i + 1, end, depth + 1);
        } else if bytes[i] == 0x29 || bytes[i] == 0x5d || bytes[i] == 0x7d {
            let less = if depth > 0 {
                (depth - 1) as nat
            } else {
                0
            };
            lemma_commas_bound(bytes, i + 1, end, less);
        } else {
            lemma_commas_bound(bytes, i + 1, end, depth);
        }
    }
}

/// Whether a span holds an offset or ends at it.
pub open spec fn reaches(expr: Expr, file: u32, offset: u32) -> bool {
    expr.span.file == file && expr.span.start <= offset && offset <= expr.span.end
}

/// Whether an expression of a body is a call whose argument list holds an offset.
pub open spec fn is_call_at(text: Seq<char>, body: FuncBody, i: int, file: u32, offset: u32) -> bool {
    0 <= i < body.exprs@.len() && reaches(body.exprs@[i], file, offset) && match body.exprs@[i].kind {
        ExprKind::Call { callee, .. } => callee < body.exprs@.len() && match argument_range(
            text,
            body.exprs@[callee as int].span.end,
            body.exprs@[i].span.end,
        ) {
            Some((start, end)) => start <= offset && offset <= end,
            None => false,
        },
        _ => false,
    }
}

/// Whether a call is the one at an index of a body: its callee is that of the expression, and
/// its active argument is the first one at the offset, or, where none is, the one behind as many
/// commas.
pub open spec fn is_call(
    text: Seq<char>,
    body: FuncBody,
    i: int,
    call: CallAtOffset,
    file: u32,
    offset: u32,
) -> bool {
    call.body == body.id && match body.exprs@[i].kind {
        ExprKind::Call { callee, args } => call.callee == callee && (forall|k: int|
            0 <= k < args@.len() && is_argument_at(body, #[trigger] args@[k], file, offset) && (
            forall|j: int|
                0 <= j < k ==> !is_argument_at(body, #[trigger] args@[j], file, offset))
                ==> call.active_parameter == k) && ((forall|k: int|
            0 <= k < args@.len() ==> !is_argument_at(body, #[trigger] args@[k], file, offset))
            ==> match argument_range(
            text,
            body.exprs@[callee as int].span.end,
            body.exprs@[i].span.end,
        ) {
            Some((start, _)) => call.active_parameter == commas_before(text, start, offset),
            None => true,
        }),
        _ => false,
    }
}

pub open spec fn is_argument_at(body: FuncBody, arg: usize, file: u32, offset: u32) -> bool {
    arg < body.exprs@.len() && reaches(body.exprs@[arg as int], file, offset)
}

proof fn lemma_argument_at(body: FuncBody, args: Seq<usize>, file: u32, offset: u32)
    requires
        args.len() <= u32::MAX,
    ensures
        argument_at(body.exprs@, args, file, offset) is None <==> forall|k: int|
            0 <= k < args.len() ==> !is_argument_at(body, #[trigger] args[k], file, offset),
        forall|k: int|
            0 <= k < args.len() && is_argument_at(body, #[trigger] args[k], file, offset) && (
            forall|j: int|
                0 <= j < k ==> !is_argument_at(body, #[trigger] args[j], file, offset))
                ==> argument_at(body.exprs@, args, file, offset) == Some(k as u32),
    decreases args.len(),
{
    if args.len() > 0 {
        let front = args.drop_last();
        lemma_argument_at(body, front, file, offset);
        assert forall|k: int| 0 <= k < front.len() implies #[trigger] args[k] == front[k] by {}
        assert(args[args.len() - 1] == args.last());
        assert forall|k: int|
            0 <= k < args.len() && is_argument_at(body, #[trigger] args[k], file, offset) && (
            forall|j: int|
                0 <= j < k ==> !is_argument_at(body, #[trigger] args[j], file, offset)) implies argument_at(
            body.exprs@,
            args,
            file,
            offset,
        ) == Some(k as u32) by {
            assert forall|j: int| 0 <= j < k implies !is_argument_at(
                body,
                #[trigger] front[j],
                file,
                offset,
            ) by {
                assert(args[j] == front[j]);
            }
            if k < front.len() {
                assert(is_argument_at(body, front[k], file, offset));
            }
        }
        if argument_at(body.exprs@, args, file, offset) is None {
            assert forall|k: int| 0 <= k < args.len() implies !is_argument_at(
                body,
                #[trigger] args[k],
                file,
                offset,
            ) by {
                if k < front.len() {
                    assert(!is_argument_at(body, front[k], file, offset));
                }
            }
        }
    }
}

/// Whether no call of a function has more arguments than can be counted.
pub open spec fn calls_fit(root: FuncBody) -> bool {
    forall|body: FuncBody, i: int|
        lies_in(root, body) && 0 <= i < body.exprs@.len() ==> match (
        #[trigger] body.exprs@[i]).kind {
            ExprKind::Call { args, .. } => args@.len() <= u32::MAX,
            _ => true,
        }
}

proof fn lemma_call_of(text: Seq<char>, body: FuncBody, i: int, file: u32, offset: u32)
    requires
        0 <= i < body.exprs@.len(),
        body.exprs@[i].kind matches ExprKind::Call { args, .. } ==> args@.len() <= u32::MAX,
    ensures
        call_of(text, body, body.exprs@[i], file, offset) is Some <==> is_call_at(
            text,
            body,
            i,
            file,
            offset,
        ),
        call_of(text, body, body.exprs@[i], file, offset) matches Some(call) ==> is_call(
            text,
            body,
            i,
            call,
            file,
            offset,
        ) && call.width == body.exprs@[i].span.width(),
{
    match body.exprs@[i].kind {
        ExprKind::Call { callee, args } => {
            lemma_argument_at(body, args@, file, offset);
        },
        _ => {},
    }
}

proof fn lemma_best_in_body(
    text: Seq<char>,
    best: Option<CallAtOffset>,
    body: FuncBody,
    file: u32,
    offset: u32,
    count: nat,
)
    requires
        count <= body.exprs@.len(),
        forall|i: int|
            0 <= i < body.exprs@.len() ==> match (#[trigger] body.exprs@[i]).kind {
                ExprKind::Call { args, .. } => args@.len() <= u32::MAX,
                _ => true,
            },
    ensures
        ({
            let found = best_in_body(text, best, body, file, offset, count);
            &&& best is Some ==> found is Some && found->0.width <= best->0.width
            &&& forall|i: int|
                0 <= i < count && #[trigger] is_call_at(text, body, i, file, offset)
                    ==> found is Some && found->0.width <= body.exprs@[i].span.width()
            &&& found is Some ==> found == best || exists|i: int|
                0 <= i < count && #[trigger] is_call_at(text, body, i, file, offset) && is_call(
                    text,
                    body,
                    i,
                    found->0,
                    file,
                    offset,
                ) && found->0.width == body.exprs@[i].span.width()
        }),
    decreases count,
{
    if count > 0 {
        let rest = (count - 1) as nat;
        lemma_best_in_body(text, best, body, file, offset, rest);
        assert(match (body.exprs@[count - 1]).kind {
            ExprKind::Call { args, .. } => args@.len() <= u32::MAX,
            _ => true,
        });
        lemma_call_of(text, body, count - 1, file, offset);
    }
}

proof fn lemma_best_call(text: Seq<char>, bodies: Seq<FuncBody>, file: u32, offset: u32)
    requires
        forall|b: int, i: int|
            0 <= b < bodies.len() && 0 <= i < bodies[b].exprs@.len() ==> match (
            #[trigger] bodies[b].exprs@[i]).kind {
                ExprKind::Call { args, .. } => args@.len() <= u32::MAX,
                _ => true,
            },
    ensures
        ({
            let found = best_call(text, bodies, file, offset);
            &&& forall|b: int, i: int|
                0 <= b < bodies.len() && #[trigger] is_call_at(text, bodies[b], i, file, offset)
                    ==> found is Some && found->0.width <= bodies[b].exprs@[i].span.width()
            &&& found is Some ==> exists|b: int, i: int|
                0 <= b < bodies.len() && #[trigger] is_call_at(text, bodies[b], i, file, offset)
                    && is_call(text, bodies[b], i, found->0, file, offset) && found->0.width
                    == bodies[b].exprs@[i].span.width()
        }),
    decreases bodies.len(),
{
    if bodies.len() > 0 {
        let front = bodies.drop_last();
        let last = bodies.last();
        let before = best_call(text, front, file, offset);
        let found = best_call(text, bodies, file, offset);
        assert forall|b: int| 0 <= b < front.len() implies #[trigger] bodies[b] == front[b] by {}
        assert forall|b: int, i: int|
            0 <= b < front.len() && 0 <= i < front[b].exprs@.len() implies match (
        #[trigger] front[b].exprs@[i]).kind {
            ExprKind::Call { args, .. } => args@.len() <= u32::MAX,
            _ => true,
        } by {
            assert(match (bodies[b].exprs@[i]).kind {
                ExprKind::Call { args, .. } => args@.len() <= u32::MAX,
                _ => true,
            });
        }
        lemma_best_call(text, front, file, offset);
        assert(bodies[bodies.len() - 1] == last);
        assert forall|i: int| 0 <= i < last.exprs@.len() implies match (
        #[trigger] last.exprs@[i]).kind {
            ExprKind::Call { args, .. } => args@.len() <= u32::MAX,
            _ => true,
        } by {
            assert(match (bodies[bodies.len() - 1].exprs@[i]).kind {
                ExprKind::Call { args, .. } => args@.len() <= u32::MAX,
                _ => true,
            });
        }
        lemma_best_in_body(text, before, last, file, offset, last.exprs@.len());
        assert forall|b: int, i: int|
            0 <= b < bodies.len() && #[trigger] is_call_at(
                text,
                bodies[b],
                i,
                file,
                offset,
            ) implies found is Some && found->0.width <= bodies[b].exprs@[i].span.width() by {
            if b < front.len() {
                assert(is_call_at(text, front[b], i, file, offset));
            } else {
                assert(is_call_at(text, last, i, file, offset));
            }
        }
        if found is Some {
            if found == before {
                let (b, i) = choose|b: int, i: int|
                    0 <= b < front.len() && #[trigger] is_call_at(text, front[b], i, file, offset)
                        && is_call(text, front[b], i, found->0, file, offset) && found->0.width
                        == front[b].exprs@[i].span.width();
                assert(is_call_at(text, bodies[b], i, file, offset));
            } else {
                let i = choose|i: int|
                    0 <= i < last.exprs@.len() && #[trigger] is_call_at(text, last, i, file, offset)
                        && is_call(text, last, i, found->0, file, offset) && found->0.width
                        == last.exprs@[i].span.width();
                assert(is_call_at(text, bodies[bodies.len() - 1], i, file, offset));
            }
        }
    }
}

/// The call that help is shown for is the innermost one: its argument list holds the offset, and
/// no call of the function whose argument list holds the offset has fewer bytes. Where a call of
/// the function does, one is found. The argument that is active is the one at the offset.
pub proof fn law_enclosing_call(text: Seq<char>, root: FuncBody, file: u32, offset: u32)
    requires
        calls_fit(root),
    ensures
        best_call(text, body_tree(root), file, offset) is None <==> forall|body: FuncBody, i: int|
            lies_in(root, body) ==> !#[trigger] is_call_at(text, body, i, file, offset),
        best_call(text, body_tree(root), file, offset) matches Some(call) ==> exists|
            body: FuncBody,
            i: int,
        |
            lies_in(root, body) && #[trigger] is_call_at(text, body, i, file, offset) && is_call(
                text,
                body,
                i,
                call,
                file,
                offset,
            ) && forall|other: FuncBody, j: int|
                lies_in(root, other) && #[trigger] is_call_at(text, other, j, file, offset)
                    ==> body.exprs@[i].span.width() <= other.exprs@[j].span.width(),
{
    let bodies = body_tree(root);
    let found = best_call(text, bodies, file, offset);
    assert forall|b: int, i: int|
        0 <= b < bodies.len() && 0 <= i < bodies[b].exprs@.len() implies match (
    #[trigger] bodies[b].exprs@[i]).kind {
        ExprKind::Call { args, .. } => args@.len() <= u32::MAX,
        _ => true,
    } by {
        assert(bodies.contains(bodies[b]));
        law_body_tree(root, bodies[b]);
    }
    lemma_best_call(text, bodies, file, offset);
    assert forall|body: FuncBody, i: int|
        lies_in(root, body) && #[trigger] is_call_at(text, body, i, file, offset) implies found is Some
        && found->0.width <= body.exprs@[i].span.width() by {
        law_body_tree(root, body);
        let b = choose|b: int| 0 <= b < bodies.len() && bodies[b] == body;
        assert(is_call_at(text, bodies[b], i, file, offset));
    }
    if found is Some {
        let (b, i) = choose|b: int, i: int|
            0 <= b < bodies.len() && #[trigger] is_call_at(text, bodies[b], i, file, offset)
                && is_call(text, bodies[b], i, found->0, file, offset) && found->0.width
                == bodies[b].exprs@[i].span.width();
        assert(bodies.contains(bodies[b]));
        law_body_tree(root, bodies[b]);
        assert(is_call_at(text, bodies[b], i, file, offset));
    }
}

/// The text of the type of a parameter in a signature: as it is written, or else as it was
/// inferred.
pub open spec fn is_type_shown(facts: SchemeFacts, i: int, ty: Seq<char>) -> bool {
    if i < facts.source_params@.len() && facts.source_params@[i] is Some {
        ty == facts.source_params@[i]->0@
    } else {
        ty == facts.params@[i]@
    }
}

/// A signature has the name of what is called and a label for each parameter, in their order: the
/// name that is declared at that place, where there is one, and the type. It ends in the result,
/// as it is written or else as it was inferred.
pub proof fn law_signature(name: Seq<char>, facts: SchemeFacts, declared: Seq<FuncParam>, i: int, ty: Seq<char>)
    requires
        0 <= i < facts.params@.len() <= usize::MAX,
        is_type_shown(facts, i, ty),
    ensures
        signature_of(name, facts, declared).parameters.len() == facts.params@.len(),
        i >= declared.len() ==> signature_of(name, facts, declared).parameters[i] == ty,
        i < declared.len() ==> match declared[i] {
            FuncParam::Typed { comptime, name: own, .. } => signature_of(
                name,
                facts,
                declared,
            ).parameters[i] == if comptime {
                "comptime "@ + own.text@ + ": "@ + ty
            } else {
                own.text@ + ": "@ + ty
            },
            FuncParam::Untyped { comptime, name: own } => signature_of(
                name,
                facts,
                declared,
            ).parameters[i] == if comptime {
                "comptime "@ + own.text@ + ": "@ + ty
            } else {
                own.text@ + ": "@ + ty
            },
            FuncParam::Error { .. } => signature_of(name, facts, declared).parameters[i] == ty,
        },
        starts_with_text(
            signature_of(name, facts, declared).label,
            name + "("@ + joined_by(signature_of(name, facts, declared).parameters, ", "@) + ")"@,
        ),
        (match facts.source_ret {
            Some(written) => written,
            None => facts.ret,
        }) matches ShownReturn::Other(text) ==> ends_in(
            signature_of(name, facts, declared).label,
            " returns ("@ + text@ + ")"@,
        ),
{
    let signature = signature_of(name, facts, declared);
    let front = name + "("@ + joined_by(signature.parameters, ", "@) + ")"@;
    assert(signature.label.take(front.len() as int) == front);
    if i < declared.len() {
        match declared[i] {
            FuncParam::Typed { comptime, name: own, .. } => {
                assert(Seq::<char>::empty() + own.text@ == own.text@);
            },
            FuncParam::Untyped { comptime, name: own } => {
                assert(Seq::<char>::empty() + own.text@ == own.text@);
            },
            FuncParam::Error { .. } => {},
        }
    }
    let ret = match facts.source_ret {
        Some(written) => written,
        None => facts.ret,
    };
    match ret {
        ShownReturn::Other(text) => {
            let end = " returns ("@ + text@ + ")"@;
            assert(signature.label == front + end);
            assert(signature.label.skip(signature.label.len() - end.len()) == end);
        },
        _ => {},
    }
}

/// What help is shown for is what the callee of the innermost call resolves to: a function, a
/// constructor or a method of a class by its own name and scheme.
pub proof fn law_help(
    analysis: Analysis,
    text: Seq<char>,
    facts: SourceFacts,
    offset: u32,
    owner: FunctionAtOffset<'_>,
    found: BodyFacts,
    call: CallAtOffset,
    k: int,
)
    requires
        owner_at(&facts.module, facts.file, offset) == Some(owner),
        map_of(facts, owner.root_body.id) == Some(found),
        best_call(text, body_tree(*owner.root_body), facts.file, offset) == Some(call),
        0 <= k < found.map.exprs@.len(),
        found.map.exprs@[k].body == call.body && found.map.exprs@[k].expr == call.callee,
        forall|j: int|
            0 <= j < k ==> !((#[trigger] found.map.exprs@[j]).body == call.body
                && found.map.exprs@[j].expr == call.callee),
    ensures
        help_in_file(analysis, text, facts, offset) matches Some(help) ==> callable(
            analysis,
            found.map.exprs@[k].resolution,
        ) == Some(help.signature),
        callable(analysis, found.map.exprs@[k].resolution) is Some ==> help_in_file(
            analysis,
            text,
            facts,
            offset,
        ) is Some,
{
    law_find(
        found.map.exprs@,
        |entry: ExprEntry| is_entry_for(entry, call.body, call.callee as int),
    );
}

/// A function that is called is shown by its own name, with a label for each parameter of its
/// scheme.
pub proof fn law_function_help(
    analysis: Analysis,
    facts: SourceFacts,
    def: DefId,
    function: FunctionDef,
    names: Seq<Seq<char>>,
    found: SchemeFacts,
)
    requires
        facts_numbered(analysis.files@, def.file) == Some(facts),
        definition_of(facts.module, def) == Some(DefinitionParts::Function { function, names }),
        declared_scheme(analysis.schemes@, facts, KeyParts::Function(def)) == Some(found),
    ensures
        callable(analysis, Resolution::Def { def, kind: DefResolutionKind::Function }) == Some(
            signature_of(function.sig.name.text@, found, function.sig.params@),
        ),
{
}

/// A constructor that is called is shown by its own name: that of the constructor at its index.
pub proof fn law_constructor_help(
    analysis: Analysis,
    facts: SourceFacts,
    adt: AdtDef,
    index: usize,
    found: SchemeFacts,
)
    requires
        facts_numbered(analysis.files@, adt.def.file) == Some(facts),
        adt_of(facts.module, adt.def) == Some(adt),
        index < adt.ctors@.len(),
        declared_scheme(
            analysis.schemes@,
            facts,
            KeyParts::Ctor { ty: adt.def, index },
        ) == Some(found),
    ensures
        callable(analysis, Resolution::Ctor { ty: adt.def, index }) == Some(
            signature_of(adt.ctors@[index as int].name.text@, found, Seq::empty()),
        ),
{
}

/// The parameter that is pointed at is that of the argument at the offset. Behind the last
/// parameter it stays the last one.
pub proof fn law_active_parameter(
    analysis: Analysis,
    text: Seq<char>,
    facts: SourceFacts,
    offset: u32,
    owner: FunctionAtOffset<'_>,
    call: CallAtOffset,
)
    requires
        owner_at(&facts.module, facts.file, offset) == Some(owner),
        best_call(text, body_tree(*owner.root_body), facts.file, offset) == Some(call),
    ensures
        help_in_file(analysis, text, facts, offset) matches Some(help)
            ==> help.signature.parameters.len() < u32::MAX ==> (call.active_parameter
            < help.signature.parameters.len() ==> help.active_parameter == call.active_parameter)
            && (call.active_parameter >= help.signature.parameters.len() > 0
            ==> help.active_parameter == help.signature.parameters.len() - 1) && (
        help.signature.parameters.len() == 0 ==> help.active_parameter == 0),
{
}

/// A method of a class that is called is shown by its own name and scheme, with the parameters of
/// the first method of the class that has the name.
pub proof fn law_method_help(
    analysis: Analysis,
    facts: SourceFacts,
    class: ClassDef,
    k: int,
    name: String,
    found: SchemeFacts,
)
    requires
        facts_numbered(analysis.files@, class.def.file) == Some(facts),
        class_of(facts.module, class.def) == Some(class),
        0 <= k < class.methods@.len(),
        class.methods@[k].sig.name.text@ == name@,
        forall|j: int| 0 <= j < k ==> (#[trigger] class.methods@[j]).sig.name.text@ != name@,
        declared_scheme(
            analysis.schemes@,
            facts,
            KeyParts::Method { class: class.def, name: name@ },
        ) == Some(found),
    ensures
        callable(analysis, Resolution::ClassMethod { class: class.def, name }) == Some(
            signature_of(name@, found, class.methods@[k].sig.params@),
        ),
{
    let text = name@;
    assert(text.take(text.len() as int) == text);
    law_find(
        class.methods@,
        |method: ClassMethod| method.sig.name.text@ == text.take(text.len() as int),
    );
    assert(method_of(class, text) == method_of(class, text.take(text.len() as int)));
    assert(method_of(class, text) == Some(class.methods@[k]));
}

/// A builtin that is called is shown by the scheme that it has.
pub proof fn law_builtin_help(analysis: Analysis, kind: BuiltinKind, found: SchemeFacts)
    requires
        scheme_of(analysis.schemes@, KeyParts::Builtin(kind)) == Some(found),
        kind is Constructor || kind is Function || kind is ClassMethod,
    ensures
        exists|name: Seq<char>|
            callable(analysis, Resolution::Builtin(kind)) == Some(
                #[trigger] signature_of(name, found, Seq::empty()),
            ),
{
    let name = builtin_name_of(kind)->0;
    assert(callable(analysis, Resolution::Builtin(kind)) == Some(
        signature_of(name, found, Seq::empty()),
    ));
}

} // verus!
