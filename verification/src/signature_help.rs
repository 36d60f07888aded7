//! Signature help support.
use vstd::prelude::*;

use crate::analysis::{
    body_resolution_map, element, facts_numbered, file_numbered, get, is_entry_for, known_text,
    locate_request, map_of, requested,
};
use crate::declarations::{adt_of, class_of, find_adt, find_class, find_method, method_of};
use crate::display::{comptime_prefix, join_texts, joined_by, start_text};
use crate::hir::{
    Analysis, BodyFacts, BodyId, BuiltinClassMethod, BuiltinCtor, BuiltinFunction, BuiltinKind,
    DefId, DefResolutionKind, Expr, ExprEntry, ExprKind, FuncBody, FuncParam, Resolution, SchemeFacts,
    SchemeKey, ShownReturn, SourceFacts,
};
use crate::hover::{
    declared_scheme, definition_of, find_declared_scheme, find_definition, find_scheme, scheme_of,
    Definition, DefinitionParts, KeyParts,
};
use crate::protocol::Position;
use crate::resolve::{bodies_in, body_tree, derefs, function_owning_offset, owner_at};
use crate::seqs::{find, first_where, seen, views};
use crate::state::WorldState;
use crate::text::utf8;
use crate::url::Url;

verus! {

/// The smaller of an offset and the length of a text.
pub open spec fn within(offset: u32, len: nat) -> int {
    let end = (len as usize) as u32;
    if offset < end {
        offset as int
    } else {
        end as int
    }
}

fn limit(offset: u32, len: usize) -> (limited: usize)
    ensures
        limited == within(offset, len as nat),
{
    let end: u32 = len as u32;
    if offset < end {
        offset as usize
    } else {
        end as usize
    }
}

/// The index of the first opening parenthesis of a part of a text.
pub open spec fn paren_open(bytes: Seq<u8>, i: int, end: int) -> Option<int>
    decreases end - i,
{
    if i < 0 || i >= end || end > bytes.len() {
        None
    } else if bytes[i] == 0x28 {
        Some(i)
    } else {
        paren_open(bytes, i + 1, end)
    }
}

/// The index of the parenthesis that closes the open ones.
pub open spec fn paren_close(bytes: Seq<u8>, i: int, depth: nat, end: int) -> Option<int>
    decreases end - i,
{
    if i < 0 || i >= end || end > bytes.len() {
        None
    } else if bytes[i] == 0x28 {
        paren_close(bytes, i + 1, depth + 1, end)
    } else if bytes[i] == 0x29 && depth <= 1 {
        Some(i)
    } else if bytes[i] == 0x29 {
        paren_close(bytes, i + 1, (depth - 1) as nat, end)
    } else {
        paren_close(bytes, i + 1, depth, end)
    }
}

/// The bytes between the parentheses of a call.
pub open spec fn argument_range(text: Seq<char>, callee_end: u32, call_end: u32) -> Option<(u32, u32)> {
    let bytes = utf8(text);
    let end = within(call_end, bytes.len());
    match paren_open(bytes, callee_end as int, end) {
        Some(open) => match paren_close(bytes, open, 0, end) {
            Some(close) => Some(((open + 1) as u32, close as u32)),
            None => None,
        },
        None => None,
    }
}

pub fn call_argument_range(text: &str, callee_end: u32, call_end: u32) -> (range: Option<(u32, u32)>)
    ensures
        range == argument_range(text@, callee_end, call_end),
{
    let bytes = text.as_bytes();
    let end: usize = limit(call_end, bytes.len());
    if end > bytes.len() {
        return None;
    }
    let first: usize = callee_end as usize;
    let mut open: usize = first;
    while open < end && bytes[open] != 0x28
        invariant
            first <= open,
            end <= bytes@.len(),
            paren_open(bytes@, open as int, end as int) == paren_open(
                bytes@,
                first as int,
                end as int,
            ),
        decreases end - open,
    {
        open += 1;
    }
    if open >= end {
        return None;
    }
    let mut index: usize = open;
    let mut depth: usize = 0;
    while index < end
        invariant
            open <= index <= end,
            end <= bytes@.len(),
            depth <= index - open,
            paren_open(bytes@, first as int, end as int) == Some(open as int),
            end == within(call_end, utf8(text@).len()),
            bytes@ == utf8(text@),
            first == callee_end,
            paren_close(bytes@, index as int, depth as nat, end as int) == paren_close(
                bytes@,
                open as int,
                0,
                end as int,
            ),
        decreases end - index,
    {
        if bytes[index] == 0x28 {
            depth += 1;
        } else if bytes[index] == 0x29 {
            if depth <= 1 {
                return Some(((open + 1) as u32, index as u32));
            }
            depth -= 1;
        }
        index += 1;
    }
    None
}

/// The number of commas in a part of a text that are not inside of brackets. `depth` is the
/// number of open brackets.
pub open spec fn commas(bytes: Seq<u8>, i: int, end: int, depth: nat) -> nat
    decreases end - i,
{
    if i < 0 || i >= end || end > bytes.len() {
        0
    } else if bytes[i] == 0x28 || bytes[i] == 0x5b || bytes[i] == 0x7b {
        commas(bytes, i + 1, end, depth + 1)
    } else if bytes[i] == 0x29 || bytes[i] == 0x5d || bytes[i] == 0x7d {
        commas(
            bytes,
            i + 1,
            end,
            if depth > 0 {
                (depth - 1) as nat
            } else {
                0
            },
        )
    } else if bytes[i] == 0x2c && depth == 0 {
        commas(bytes, i + 1, end, depth) + 1
    } else {
        commas(bytes, i + 1, end, depth)
    }
}

/// The number of commas before an offset that part the arguments of a call.
pub open spec fn commas_before(text: Seq<char>, start: u32, offset: u32) -> u32 {
    let bytes = utf8(text);
    (commas(bytes, within(start, bytes.len()), within(offset, bytes.len()), 0) as usize) as u32
}

pub fn count_commas_before(text: &str, start: u32, offset: u32) -> (count: u32)
    requires
        within(start, utf8(text@).len()) <= within(offset, utf8(text@).len()),
    ensures
        count == commas_before(text@, start, offset),
{
    let bytes = text.as_bytes();
    let first: usize = limit(start, bytes.len());
    let end: usize = limit(offset, bytes.len());
    if end > bytes.len() {
        return 0;
    }
    let mut index: usize = first;
    let mut depth: usize = 0;
    let mut count: usize = 0;
    while index < end
        invariant
            first <= index,
            index <= end || index == first,
            first <= end <= bytes@.len(),
            depth <= index - first,
            count <= index - first,
            count + commas(bytes@, index as int, end as int, depth as nat) == commas(
                bytes@,
                first as int,
                end as int,
                0,
            ),
        decreases end - index,
    {
        let byte = bytes[index];
        if byte == 0x28 || byte == 0x5b || byte == 0x7b {
            depth += 1;
        } else if byte == 0x29 || byte == 0x5d || byte == 0x7d {
            if depth > 0 {
                depth -= 1;
            }
        } else if byte == 0x2c && depth == 0 {
            count += 1;
        }
        index += 1;
    }
    count as u32
}

/// A call whose arguments are at an offset: the body that holds it, its callee, the argument at
/// the offset, and the number of its bytes.
#[derive(Clone, Copy)]
pub struct CallAtOffset {
    pub body: BodyId,
    pub callee: usize,
    pub active_parameter: u32,
    pub width: u32,
}

pub open spec fn holds_closed(expr: Expr, file: u32, offset: u32) -> bool {
    expr.span.file == file && expr.span.start <= offset <= expr.span.end
}

fn is_at(expr: &Expr, file: u32, offset: u32) -> (inside: bool)
    ensures
        inside == holds_closed(*expr, file, offset),
{
    expr.span.file == file && expr.span.start <= offset && offset <= expr.span.end
}

/// The first of the arguments of a call that is at an offset.
pub open spec fn argument_at(exprs: Seq<Expr>, args: Seq<usize>, file: u32, offset: u32) -> Option<u32>
    decreases args.len(),
{
    if args.len() == 0 {
        None
    } else {
        match argument_at(exprs, args.drop_last(), file, offset) {
            Some(index) => Some(index),
            None => match element(exprs, args.last()) {
                Some(expr) => if holds_closed(expr, file, offset) {
                    Some(((args.len() - 1) as usize) as u32)
                } else {
                    None
                },
                None => None,
            },
        }
    }
}

proof fn lemma_argument_front(exprs: Seq<Expr>, args: Seq<usize>, file: u32, offset: u32, i: int)
    requires
        0 <= i <= args.len(),
        argument_at(exprs, args.take(i), file, offset) is Some,
    ensures
        argument_at(exprs, args, file, offset) == argument_at(exprs, args.take(i), file, offset),
    decreases args.len(),
{
    if i == args.len() {
        assert(args.take(i) == args);
    } else {
        assert(args.drop_last().take(i) == args.take(i));
        lemma_argument_front(exprs, args.drop_last(), file, offset, i);
    }
}

/// The argument of a call that is at an offset: the one that holds it, else the one behind as
/// many commas.
pub open spec fn active_argument(
    text: Seq<char>,
    exprs: Seq<Expr>,
    args: Seq<usize>,
    file: u32,
    offset: u32,
    args_start: u32,
) -> u32 {
    match argument_at(exprs, args, file, offset) {
        Some(index) => index,
        None => commas_before(text, args_start, offset),
    }
}

fn active_parameter(
    text: &str,
    body: &FuncBody,
    args: &Vec<usize>,
    file: u32,
    offset: u32,
    args_start: u32,
) -> (active: u32)
    requires
        args_start <= offset,
    ensures
        active == active_argument(text@, body.exprs@, args@, file, offset, args_start),
{
    let ghost all = args@;
    let mut i: usize = 0;
    assert(all.take(0) == Seq::<usize>::empty());
    while i < args.len()
        invariant
            i <= all.len(),
            all == args@,
            argument_at(body.exprs@, all.take(i as int), file, offset) is None,
        decreases all.len() - i,
    {
        assert(all.take(i + 1).drop_last() == all.take(i as int));
        assert(all.take(i + 1).last() == all[i as int]);
        if let Some(expr) = get(&body.exprs, args[i]) {
            if is_at(expr, file, offset) {
                proof {
                    lemma_argument_front(body.exprs@, all, file, offset, i + 1);
                }
                return i as u32;
            }
        }
        i += 1;
    }
    assert(all.take(i as int) == all);
    count_commas_before(text, args_start, offset)
}

/// The call that an expression is, where its arguments are at an offset.
pub open spec fn call_of(text: Seq<char>, body: FuncBody, expr: Expr, file: u32, offset: u32) -> Option<
    CallAtOffset,
> {
    match expr.kind {
        ExprKind::Call { callee, args } => match element(body.exprs@, callee) {
            Some(called) => match argument_range(text, called.span.end, expr.span.end) {
                Some((start, end)) => if holds_closed(expr, file, offset) && start <= offset
                    <= end {
                    Some(
                        CallAtOffset {
                            body: body.id,
                            callee,
                            active_parameter: active_argument(
                                text,
                                body.exprs@,
                                args@,
                                file,
                                offset,
                                start,
                            ),
                            width: expr.span.width() as u32,
                        },
                    )
                } else {
                    None
                },
                None => None,
            },
            None => None,
        },
        _ => None,
    }
}

fn find_call_of(text: &str, body: &FuncBody, expr: &Expr, file: u32, offset: u32) -> (call: Option<
    CallAtOffset,
>)
    ensures
        call == call_of(text@, *body, *expr, file, offset),
{
    let (callee, args) = match &expr.kind {
        ExprKind::Call { callee, args } => (*callee, args),
        _ => return None,
    };
    if !is_at(expr, file, offset) {
        return None;
    }
    let called = match get(&body.exprs, callee) {
        Some(called) => called,
        None => return None,
    };
    match call_argument_range(text, called.span.end, expr.span.end) {
        Some((start, end)) => if start <= offset && offset <= end {
            Some(
                CallAtOffset {
                    body: body.id,
                    callee,
                    active_parameter: active_parameter(text, body, args, file, offset, start),
                    width: expr.span.len(),
                },
            )
        } else {
            None
        },
        None => None,
    }
}

/// The smaller of two calls, the first of equally small ones.
pub open spec fn smaller_call(best: Option<CallAtOffset>, call: Option<CallAtOffset>) -> Option<
    CallAtOffset,
> {
    match (best, call) {
        (Some(first), Some(second)) => if second.width < first.width {
            Some(second)
        } else {
            Some(first)
        },
        (Some(first), None) => Some(first),
        (None, second) => second,
    }
}

/// The smallest call of the first `count` expressions of a body.
pub open spec fn best_in_body(
    text: Seq<char>,
    best: Option<CallAtOffset>,
    body: FuncBody,
    file: u32,
    offset: u32,
    count: nat,
) -> Option<CallAtOffset>
    decreases count,
{
    if count == 0 {
        best
    } else {
        smaller_call(
            best_in_body(text, best, body, file, offset, (count - 1) as nat),
            call_of(text, body, body.exprs@[count - 1], file, offset),
        )
    }
}

/// The smallest call of some bodies.
pub open spec fn best_call(text: Seq<char>, bodies: Seq<FuncBody>, file: u32, offset: u32) -> Option<
    CallAtOffset,
>
    decreases bodies.len(),
{
    if bodies.len() == 0 {
        None
    } else {
        best_in_body(
            text,
            best_call(text, bodies.drop_last(), file, offset),
            bodies.last(),
            file,
            offset,
            bodies.last().exprs@.len(),
        )
    }
}

fn enclosing_call(text: &str, root_body: &FuncBody, file: u32, offset: u32) -> (call: Option<
    CallAtOffset,
>)
    ensures
        call == best_call(text@, body_tree(*root_body), file, offset),
{
    let bodies = bodies_in(root_body);
    let ghost all = derefs(bodies@);
    let mut best: Option<CallAtOffset> = None;
    let mut i: usize = 0;
    assert(all.take(0) == Seq::<FuncBody>::empty());
    while i < bodies.len()
        invariant
            i <= all.len(),
            all == derefs(bodies@),
            best == best_call(text@, all.take(i as int), file, offset),
        decreases all.len() - i,
    {
        let body = bodies[i];
        let ghost before = best;
        assert(all.take(i + 1).drop_last() == all.take(i as int));
        assert(all.take(i + 1).last() == *body);
        let mut k: usize = 0;
        while k < body.exprs.len()
            invariant
                k <= body.exprs@.len(),
                best == best_in_body(text@, before, *body, file, offset, k as nat),
            decreases body.exprs@.len() - k,
        {
            let call = find_call_of(text, body, &body.exprs[k], file, offset);
            best = match (best, call) {
                (Some(first), Some(second)) => if second.width < first.width {
                    Some(second)
                } else {
                    Some(first)
                },
                (Some(first), None) => Some(first),
                (None, second) => second,
            };
            k += 1;
        }
        i += 1;
    }
    assert(all.take(i as int) == all);
    best
}

/// What can be called, as it is shown.
pub struct CallableSignature {
    pub label: String,
    pub parameters: Vec<String>,
}

pub struct SignatureParts {
    pub label: Seq<char>,
    pub parameters: Seq<Seq<char>>,
}

impl View for CallableSignature {
    type V = SignatureParts;

    open spec fn view(&self) -> SignatureParts {
        SignatureParts { label: self.label@, parameters: views(self.parameters@) }
    }
}

/// The shown type of a parameter: as written, else as inferred.
pub open spec fn param_type_text(facts: SchemeFacts, index: int) -> Seq<char> {
    match element(facts.source_params@, index as usize) {
        Some(Some(written)) => written@,
        _ => facts.params@[index]@,
    }
}

/// The shown parameter, with the name that it is declared by.
pub open spec fn param_label(facts: SchemeFacts, declared: Seq<FuncParam>, index: int) -> Seq<char> {
    let ty = param_type_text(facts, index);
    match element(declared, index as usize) {
        Some(FuncParam::Typed { comptime, name, .. }) => comptime_prefix(comptime) + name.text@
            + ": "@ + ty,
        Some(FuncParam::Untyped { comptime, name }) => comptime_prefix(comptime) + name.text@
            + ": "@ + ty,
        _ => ty,
    }
}

pub open spec fn param_labels(facts: SchemeFacts, declared: Seq<FuncParam>) -> Seq<Seq<char>> {
    Seq::new(facts.params@.len(), |i: int| param_label(facts, declared, i))
}

/// The shown result.
pub open spec fn return_suffix(ret: ShownReturn) -> Seq<char> {
    match ret {
        ShownReturn::Tuple(elements) => if elements@.len() == 0 {
            Seq::empty()
        } else {
            " returns ("@ + joined_by(views(elements@), ", "@) + ")"@
        },
        ShownReturn::Other(text) => " returns ("@ + text@ + ")"@,
    }
}

/// The shown signature of something with a type. Its parameters go by the names that they are
/// declared by.
pub open spec fn signature_of(
    name: Seq<char>,
    facts: SchemeFacts,
    declared: Seq<FuncParam>,
) -> SignatureParts {
    let parameters = param_labels(facts, declared);
    let suffix = match facts.source_ret {
        Some(written) => return_suffix(written),
        None => return_suffix(facts.ret),
    };
    SignatureParts {
        label: name + "("@ + joined_by(parameters, ", "@) + ")"@ + suffix,
        parameters,
    }
}

fn display_return_suffix(ret: &ShownReturn) -> (text: String)
    ensures
        text@ == return_suffix(*ret),
{
    match ret {
        ShownReturn::Tuple(elements) => if elements.len() == 0 {
            let text = String::new();
            assert(text@ == Seq::<char>::empty());
            text
        } else {
            let mut text = " returns (".to_owned();
            text.append(join_texts(elements, ", ").as_str());
            text.append(")");
            text
        },
        ShownReturn::Other(shown) => {
            let mut text = " returns (".to_owned();
            text.append(shown.as_str());
            text.append(")");
            text
        },
    }
}

fn display_param(facts: &SchemeFacts, declared: &Vec<FuncParam>, index: usize) -> (text: String)
    requires
        index < facts.params@.len(),
    ensures
        text@ == param_label(*facts, declared@, index as int),
{
    let ty = match get(&facts.source_params, index) {
        Some(Some(written)) => written.as_str(),
        _ => facts.params[index].as_str(),
    };
    match get(declared, index) {
        Some(FuncParam::Typed { comptime, name, ty: _ }) => {
            let mut text = start_text(*comptime);
            text.append(name.text.as_str());
            text.append(": ");
            text.append(ty);
            text
        },
        Some(FuncParam::Untyped { comptime, name }) => {
            let mut text = start_text(*comptime);
            text.append(name.text.as_str());
            text.append(": ");
            text.append(ty);
            text
        },
        _ => ty.to_owned(),
    }
}

/// Shows the signature of something with a type.
pub fn signature_from_scheme(name: &str, facts: &SchemeFacts, declared: &Vec<FuncParam>) -> (signature:
    CallableSignature)
    ensures
        signature@ == signature_of(name@, *facts, declared@),
{
    let mut parameters: Vec<String> = Vec::new();
    let mut i: usize = 0;
    while i < facts.params.len()
        invariant
            i <= facts.params@.len(),
            parameters@.len() == i,
            forall|k: int|
                0 <= k < i ==> (#[trigger] parameters@[k])@ == param_label(*facts, declared@, k),
        decreases facts.params@.len() - i,
    {
        parameters.push(display_param(facts, declared, i));
        i += 1;
    }
    assert(views(parameters@) == param_labels(*facts, declared@));
    let mut label = name.to_owned();
    label.append("(");
    label.append(join_texts(&parameters, ", ").as_str());
    label.append(")");
    let suffix = match &facts.source_ret {
        Some(written) => display_return_suffix(written),
        None => display_return_suffix(&facts.ret),
    };
    label.append(suffix.as_str());
    CallableSignature { label, parameters }
}

/// The name of something built in that can be called.
pub open spec fn builtin_name_of(kind: BuiltinKind) -> Option<Seq<char>> {
    match kind {
        BuiltinKind::Constructor(BuiltinCtor::True) => Some("true"@),
        BuiltinKind::Constructor(BuiltinCtor::False) => Some("false"@),
        BuiltinKind::Constructor(BuiltinCtor::Unit) => Some("()"@),
        BuiltinKind::Constructor(BuiltinCtor::Pair) => Some("pair"@),
        BuiltinKind::Constructor(BuiltinCtor::Inl) => Some("inl"@),
        BuiltinKind::Constructor(BuiltinCtor::Inr) => Some("inr"@),
        BuiltinKind::Function(BuiltinFunction::Invoke) => Some("invoke"@),
        BuiltinKind::Function(BuiltinFunction::PrimAddWord) => Some("primAddWord"@),
        BuiltinKind::Function(BuiltinFunction::PrimEqWord) => Some("primEqWord"@),
        BuiltinKind::Function(BuiltinFunction::WordToInteger) => Some("wordToInteger"@),
        BuiltinKind::Function(BuiltinFunction::WordFromInteger) => Some("wordFromInteger"@),
        BuiltinKind::Function(BuiltinFunction::IntegerAdd) => Some("integerAdd"@),
        BuiltinKind::Function(BuiltinFunction::IntegerSub) => Some("integerSub"@),
        BuiltinKind::Function(BuiltinFunction::IntegerMul) => Some("integerMul"@),
        BuiltinKind::Function(BuiltinFunction::IntegerLt) => Some("integerLt"@),
        BuiltinKind::Function(BuiltinFunction::IntegerEq) => Some("integerEq"@),
        BuiltinKind::ClassMethod(BuiltinClassMethod::InvokableInvoke) => Some("invoke"@),
        BuiltinKind::ClassMethod(BuiltinClassMethod::IntFromInteger) => Some("fromInteger"@),
        BuiltinKind::Type => None,
        BuiltinKind::Class => None,
    }
}

pub fn builtin_name(kind: BuiltinKind) -> (name: Option<&'static str>)
    ensures
        match name {
            Some(name) => builtin_name_of(kind) == Some(name@),
            None => builtin_name_of(kind) is None,
        },
{
    match kind {
        BuiltinKind::Constructor(BuiltinCtor::True) => Some("true"),
        BuiltinKind::Constructor(BuiltinCtor::False) => Some("false"),
        BuiltinKind::Constructor(BuiltinCtor::Unit) => Some("()"),
        BuiltinKind::Constructor(BuiltinCtor::Pair) => Some("pair"),
        BuiltinKind::Constructor(BuiltinCtor::Inl) => Some("inl"),
        BuiltinKind::Constructor(BuiltinCtor::Inr) => Some("inr"),
        BuiltinKind::Function(BuiltinFunction::Invoke) => Some("invoke"),
        BuiltinKind::Function(BuiltinFunction::PrimAddWord) => Some("primAddWord"),
        BuiltinKind::Function(BuiltinFunction::PrimEqWord) => Some("primEqWord"),
        BuiltinKind::Function(BuiltinFunction::WordToInteger) => Some("wordToInteger"),
        BuiltinKind::Function(BuiltinFunction::WordFromInteger) => Some("wordFromInteger"),
        BuiltinKind::Function(BuiltinFunction::IntegerAdd) => Some("integerAdd"),
        BuiltinKind::Function(BuiltinFunction::IntegerSub) => Some("integerSub"),
        BuiltinKind::Function(BuiltinFunction::IntegerMul) => Some("integerMul"),
        BuiltinKind::Function(BuiltinFunction::IntegerLt) => Some("integerLt"),
        BuiltinKind::Function(BuiltinFunction::IntegerEq) => Some("integerEq"),
        BuiltinKind::ClassMethod(BuiltinClassMethod::InvokableInvoke) => Some("invoke"),
        BuiltinKind::ClassMethod(BuiltinClassMethod::IntFromInteger) => Some("fromInteger"),
        BuiltinKind::Type => None,
        BuiltinKind::Class => None,
    }
}

/// The shown signature of a function.
pub open spec fn function_signature(analysis: Analysis, def: DefId) -> Option<SignatureParts> {
    match facts_numbered(analysis.files@, def.file) {
        Some(facts) => match (
            definition_of(facts.module, def),
            declared_scheme(analysis.schemes@, facts, KeyParts::Function(def)),
        ) {
            (Some(DefinitionParts::Function { function, .. }), Some(found)) => Some(
                signature_of(function.sig.name.text@, found, function.sig.params@),
            ),
            _ => None,
        },
        None => None,
    }
}

fn find_function_signature(analysis: &Analysis, def: DefId) -> (signature: Option<CallableSignature>)
    ensures
        seen(signature) == function_signature(*analysis, def),
{
    let facts = match file_numbered(&analysis.files, def.file) {
        Some(facts) => facts,
        None => return None,
    };
    match (
        find_definition(&facts.module, def),
        find_declared_scheme(&analysis.schemes, facts, &SchemeKey::Function(def)),
    ) {
        (Some(Definition::Function { function, names: _ }), Some(found)) => Some(
            signature_from_scheme(function.sig.name.text.as_str(), found, &function.sig.params),
        ),
        _ => None,
    }
}

/// The shown signature of a data constructor.
pub open spec fn ctor_signature(analysis: Analysis, ty: DefId, index: usize) -> Option<SignatureParts> {
    match facts_numbered(analysis.files@, ty.file) {
        Some(facts) => match (
            adt_of(facts.module, ty),
            declared_scheme(analysis.schemes@, facts, KeyParts::Ctor { ty, index }),
        ) {
            (Some(adt), Some(found)) => match element(adt.ctors@, index) {
                Some(ctor) => Some(signature_of(ctor.name.text@, found, Seq::empty())),
                None => None,
            },
            _ => None,
        },
        None => None,
    }
}

fn find_ctor_signature(analysis: &Analysis, ty: DefId, index: usize) -> (signature: Option<
    CallableSignature,
>)
    ensures
        seen(signature) == ctor_signature(*analysis, ty, index),
{
    let facts = match file_numbered(&analysis.files, ty.file) {
        Some(facts) => facts,
        None => return None,
    };
    let none: Vec<FuncParam> = Vec::new();
    assert(none@ == Seq::<FuncParam>::empty());
    match (
        find_adt(&facts.module, ty),
        find_declared_scheme(&analysis.schemes, facts, &SchemeKey::Ctor { ty, index }),
    ) {
        (Some(adt), Some(found)) => match get(&adt.ctors, index) {
            Some(ctor) => Some(signature_from_scheme(ctor.name.text.as_str(), found, &none)),
            None => None,
        },
        _ => None,
    }
}

/// The declared parameters of a class method, none where it is not declared.
pub open spec fn method_params(facts: SourceFacts, class: DefId, name: Seq<char>) -> Seq<FuncParam> {
    match class_of(facts.module, class) {
        Some(declared) => match method_of(declared, name) {
            Some(method) => method.sig.params@,
            None => Seq::empty(),
        },
        None => Seq::empty(),
    }
}

/// The shown signature of a class method.
pub open spec fn method_signature(analysis: Analysis, class: DefId, name: Seq<char>) -> Option<
    SignatureParts,
> {
    match facts_numbered(analysis.files@, class.file) {
        Some(facts) => match declared_scheme(
            analysis.schemes@,
            facts,
            KeyParts::Method { class, name },
        ) {
            Some(found) => Some(signature_of(name, found, method_params(facts, class, name))),
            None => None,
        },
        None => None,
    }
}

fn find_method_signature(analysis: &Analysis, class: DefId, name: &str) -> (signature: Option<
    CallableSignature,
>)
    ensures
        seen(signature) == method_signature(*analysis, class, name@),
{
    let facts = match file_numbered(&analysis.files, class.file) {
        Some(facts) => facts,
        None => return None,
    };
    let key = SchemeKey::Method { class, name: name.to_owned() };
    let found = match find_declared_scheme(&analysis.schemes, facts, &key) {
        Some(found) => found,
        None => return None,
    };
    let none: Vec<FuncParam> = Vec::new();
    assert(none@ == Seq::<FuncParam>::empty());
    let params = match find_class(&facts.module, class) {
        Some(declared) => match find_method(declared, name) {
            Some(method) => &method.sig.params,
            None => &none,
        },
        None => &none,
    };
    Some(signature_from_scheme(name, found, params))
}

/// The shown signature of what a callee stands for.
pub open spec fn callable(analysis: Analysis, resolution: Resolution) -> Option<SignatureParts> {
    match resolution {
        Resolution::Def { def, kind } => if kind == DefResolutionKind::Function {
            function_signature(analysis, def)
        } else {
            None
        },
        Resolution::Ctor { ty, index } => ctor_signature(analysis, ty, index),
        Resolution::ClassMethod { class, name } => method_signature(analysis, class, name@),
        Resolution::Builtin(kind) => match (
            builtin_name_of(kind),
            scheme_of(analysis.schemes@, KeyParts::Builtin(kind)),
        ) {
            (Some(name), Some(found)) => Some(signature_of(name, found, Seq::empty())),
            _ => None,
        },
        _ => None,
    }
}

fn callable_signature(analysis: &Analysis, resolution: &Resolution) -> (signature: Option<
    CallableSignature,
>)
    ensures
        seen(signature) == callable(*analysis, *resolution),
{
    match resolution {
        Resolution::Def { def, kind } => if *kind == DefResolutionKind::Function {
            find_function_signature(analysis, *def)
        } else {
            None
        },
        Resolution::Ctor { ty, index } => find_ctor_signature(analysis, *ty, *index),
        Resolution::ClassMethod { class, name } => find_method_signature(
            analysis,
            *class,
            name.as_str(),
        ),
        Resolution::Builtin(kind) => {
            let none: Vec<FuncParam> = Vec::new();
            assert(none@ == Seq::<FuncParam>::empty());
            match (
                builtin_name(*kind),
                find_scheme(&analysis.schemes, &SchemeKey::Builtin(*kind)),
            ) {
                (Some(name), Some(found)) => Some(signature_from_scheme(name, found, &none)),
                _ => None,
            }
        },
        _ => None,
    }
}

/// A signature with the parameter that is being written.
pub struct SignatureHelp {
    pub signature: CallableSignature,
    pub active_parameter: u32,
}

pub struct HelpParts {
    pub signature: SignatureParts,
    pub active_parameter: u32,
}

impl View for SignatureHelp {
    type V = HelpParts;

    open spec fn view(&self) -> HelpParts {
        HelpParts { signature: self.signature@, active_parameter: self.active_parameter }
    }
}

/// The parameter that is being written, the last one behind them all.
pub open spec fn shown_parameter(signature: SignatureParts, active: u32) -> u32 {
    let count = (signature.parameters.len() as usize) as u32;
    if count == 0 {
        0
    } else if active < count - 1 {
        active
    } else {
        (count - 1) as u32
    }
}

/// What a call at an offset stands for.
pub open spec fn called(found: BodyFacts, call: CallAtOffset) -> Option<ExprEntry> {
    find(
        found.map.exprs@,
        |entry: ExprEntry| is_entry_for(entry, call.body, call.callee as int),
    )
}

/// The signature help at an offset of a file.
pub open spec fn help_in_file(analysis: Analysis, text: Seq<char>, facts: SourceFacts, offset: u32) -> Option<
    HelpParts,
> {
    match owner_at(&facts.module, facts.file, offset) {
        Some(owner) => match (
            map_of(facts, owner.root_body.id),
            best_call(text, body_tree(*owner.root_body), facts.file, offset),
        ) {
            (Some(found), Some(call)) => match called(found, call) {
                Some(entry) => match callable(analysis, entry.resolution) {
                    Some(signature) => Some(
                        HelpParts {
                            signature,
                            active_parameter: shown_parameter(signature, call.active_parameter),
                        },
                    ),
                    None => None,
                },
                None => None,
            },
            _ => None,
        },
        None => None,
    }
}

fn help_at(analysis: &Analysis, text: &str, facts: &SourceFacts, offset: u32) -> (help: Option<
    SignatureHelp,
>)
    ensures
        seen(help) == help_in_file(*analysis, text@, *facts, offset),
{
    let owner = match function_owning_offset(&facts.module, facts.file, offset) {
        Some(owner) => owner,
        None => return None,
    };
    let found = match body_resolution_map(facts, owner.root_body.id) {
        Some(found) => found,
        None => return None,
    };
    let call = match enclosing_call(text, owner.root_body, facts.file, offset) {
        Some(call) => call,
        None => return None,
    };
    let same = |entry: &ExprEntry| -> (same: bool)
        ensures
            same == is_entry_for(*entry, call.body, call.callee as int),
    {
        entry.body == call.body && entry.expr == call.callee
    };
    let entry = match first_where(
        &found.map.exprs,
        same,
        Ghost(|entry: ExprEntry| is_entry_for(entry, call.body, call.callee as int)),
    ) {
        Some(entry) => entry,
        None => return None,
    };
    let signature = match callable_signature(analysis, &entry.resolution) {
        Some(signature) => signature,
        None => return None,
    };
    let count: u32 = signature.parameters.len() as u32;
    let active_parameter = if count == 0 {
        0
    } else if call.active_parameter < count - 1 {
        call.active_parameter
    } else {
        count - 1
    };
    Some(SignatureHelp { signature, active_parameter })
}

/// Computes signature help for the nearest call argument list at a source position.
pub fn handle_signature_help(world: &WorldState, analysis: &Analysis, uri: &Url, position: Position) -> (help:
    Option<SignatureHelp>)
    ensures
        seen(help) == match (
            requested(world@, analysis.files@, uri@, position),
            known_text(world@, uri@),
        ) {
            (Some((facts, offset)), Some(text)) => help_in_file(*analysis, text, facts, offset),
            _ => None,
        },
{
    let (facts, offset) = match locate_request(world, &analysis.files, uri, position) {
        Some(found) => found,
        None => return None,
    };
    match world.line_index(uri) {
        Some(index) => help_at(analysis, index.text(), facts, offset),
        None => None,
    }
}

/// The parameter that is shown as the active one is a parameter of the signature: the one that
/// is being written where there is such a parameter.
pub proof fn law_active_parameter(signature: SignatureParts, active: u32)
    requires
        0 < signature.parameters.len() <= u32::MAX,
    ensures
        shown_parameter(signature, active) < signature.parameters.len(),
        active < signature.parameters.len() ==> shown_parameter(signature, active) == active,
{
}

} // verus!
