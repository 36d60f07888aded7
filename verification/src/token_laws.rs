//! What holds of the tokens that names are marked by.
use vstd::prelude::*;
use vstd::utf8::is_char_boundary;

use crate::analysis::{expr_of, map_of, pat_of, stmt_of};
use crate::hir::{
    AdtCtor, AdtDef, BodyFacts, BuiltinKind, ClassMethod, ContractDef, ContractItem,
    DefResolutionKind, Expr, ExprEntry, ExprKind, FieldDef, FuncBody, FuncParam, FuncSig,
    FunctionDef, Item,
    LocalBinding, Name, PatEntry, PatKind, PredEntry, Resolution, SourceFacts, Span, StmtEntry,
    StmtKind, TypeEntry, TypeRef,
};
use crate::line_index::{byte_at, law_position_round_trip, law_positions_follow_offsets, position_at};
use crate::order::{law_sorted, sorted};
use crate::protocol::Position;
use crate::resolve::{contexts, FunctionAtOffset};
use crate::semantic_tokens::{
    adt_tokens, alias_tokens, apart, arranged_tokens, body_tokens, contract_item_tokens, contract_tokens,
    declaration, declaration_tokens, expr_token, function_tokens, item_tokens, lambda_tokens,
    lambda_tokens_in, lambda_tokens_of,
    legend_types, let_token, listed, map_tokens, overlaps_last, param_token, param_tokens,
    pattern_token, placed, placed_tokens, pred_token, raw_tokens, signature_tokens, token_before,
    token_for, type_token, type_tokens, type_var_tokens, PositionedToken, RawToken,
    SemanticTokenType, TokenKind,
};
use crate::seqs::{
    concat_map, filter_map, law_concat_map, law_filter_map, law_joined,
};
use crate::text::utf8;
use crate::tree_laws::{
    follows, has_function, is_lambda_with, law_functions, leads, lies_in,
};

verus! {

/// Whether a list marks a span as a type of token.
pub open spec fn marks(
    tokens: Seq<RawToken>,
    span: Span,
    ty: SemanticTokenType,
    modifiers: u32,
) -> bool {
    exists|i: int| 0 <= i < tokens.len() && is_mark(#[trigger] tokens[i], span, ty, modifiers)
}

pub open spec fn is_mark(token: RawToken, span: Span, ty: SemanticTokenType, modifiers: u32) -> bool {
    token.start == span.start && token.end == span.end && token.modifiers == modifiers
        && token.token_type < legend_types().len() && legend_types()[token.token_type as int] == ty
}

/// The type of token that a name has by what it stands for.
pub open spec fn is_marked_as(resolution: Resolution, ty: SemanticTokenType) -> bool {
    match resolution {
        Resolution::Def { kind: DefResolutionKind::Function, .. } => ty
            == SemanticTokenType::Function,
        Resolution::Def { .. } => ty == SemanticTokenType::Type,
        Resolution::Local(LocalBinding::TypeVar { .. }) => ty == SemanticTokenType::Type,
        Resolution::Local(_) => ty == SemanticTokenType::Variable,
        Resolution::Param(_) => ty == SemanticTokenType::Parameter,
        Resolution::Field(_) => ty == SemanticTokenType::Property,
        Resolution::Ctor { .. } => ty == SemanticTokenType::EnumMember,
        Resolution::DotCtorDeferred => ty == SemanticTokenType::EnumMember,
        Resolution::ClassMethod { .. } => ty == SemanticTokenType::Function,
        Resolution::Module { .. } => ty == SemanticTokenType::Namespace,
        Resolution::Builtin(BuiltinKind::Type) => ty == SemanticTokenType::Type,
        Resolution::Builtin(BuiltinKind::Class) => ty == SemanticTokenType::Type,
        Resolution::Builtin(BuiltinKind::Constructor(_)) => ty == SemanticTokenType::EnumMember,
        Resolution::Builtin(BuiltinKind::Function(_)) => ty == SemanticTokenType::Function,
        Resolution::Builtin(BuiltinKind::ClassMethod(_)) => ty == SemanticTokenType::Function,
        Resolution::Unresolved => false,
    }
}

/// Whether a span is in a file and not empty, so that it can be marked.
pub open spec fn is_visible(span: Span, file: u32) -> bool {
    span.file == file && span.start < span.end
}

proof fn lemma_marked(tokens: Seq<RawToken>, token: RawToken, span: Span, ty: SemanticTokenType, modifiers: u32)
    requires
        tokens.contains(token),
        is_mark(token, span, ty, modifiers),
    ensures
        marks(tokens, span, ty, modifiers),
{
    let i = choose|i: int| 0 <= i < tokens.len() && tokens[i] == token;
    assert(is_mark(tokens[i], span, ty, modifiers));
}

proof fn lemma_marks_more(all: Seq<RawToken>, tokens: Seq<RawToken>, span: Span, ty: SemanticTokenType, modifiers: u32)
    requires
        marks(tokens, span, ty, modifiers),
        forall|token: RawToken| #[trigger] tokens.contains(token) ==> all.contains(token),
    ensures
        marks(all, span, ty, modifiers),
{
    let i = choose|i: int|
        0 <= i < tokens.len() && is_mark(#[trigger] tokens[i], span, ty, modifiers);
    assert(tokens.contains(tokens[i]));
    lemma_marked(all, tokens[i], span, ty, modifiers);
}

proof fn lemma_in_function(facts: SourceFacts, context: FunctionAtOffset<'_>, found: BodyFacts, token: RawToken)
    requires
        has_function(facts.module, context),
        map_of(facts, context.root_body.id) == Some(found),
        map_tokens(facts, Some(found)).contains(token),
    ensures
        raw_tokens(facts).contains(token),
{
    let all = contexts(&facts.module, facts.module.items@.len());
    let f = |context: FunctionAtOffset<'_>| function_tokens(facts, context);
    law_functions(facts.module, context);
    law_concat_map(all, f);
    let k = choose|k: int| 0 <= k < all.len() && all[k] == context;
    law_joined(map_tokens(facts, Some(found)), lambda_tokens(facts.file, *context.root_body));
    assert(f(all[k]).contains(token));
    let declared = declaration_tokens(facts.file, facts.module);
    let types = type_tokens(facts.file, facts.item_facts.types@, facts.item_facts.preds@);
    law_joined(declared, types);
    law_joined(declared + types, body_tokens(facts));
}

proof fn lemma_map_parts(facts: SourceFacts, found: BodyFacts)
    ensures
        forall|token: RawToken|
            filter_map(found.map.exprs@, |entry: ExprEntry| expr_token(facts, entry)).contains(token)
                || filter_map(
                found.map.stmt_bindings@,
                |entry: StmtEntry| let_token(facts, entry),
            ).contains(token) || filter_map(
                found.map.pats@,
                |entry: PatEntry| pattern_token(facts, entry),
            ).contains(token) || type_tokens(
                facts.file,
                found.map.types@,
                found.map.preds@,
            ).contains(token) ==> #[trigger] map_tokens(facts, Some(found)).contains(token),
{
    let a = filter_map(found.map.exprs@, |entry: ExprEntry| expr_token(facts, entry));
    let b = filter_map(found.map.stmt_bindings@, |entry: StmtEntry| let_token(facts, entry));
    let c = filter_map(found.map.pats@, |entry: PatEntry| pattern_token(facts, entry));
    let d = type_tokens(facts.file, found.map.types@, found.map.preds@);
    law_joined(a, b);
    law_joined(a + b, c);
    law_joined(a + b + c, d);
    assert(map_tokens(facts, Some(found)) == a + b + c + d);
    assert forall|token: RawToken|
        a.contains(token) || b.contains(token) || c.contains(token) || d.contains(
            token,
        ) implies #[trigger] map_tokens(facts, Some(found)).contains(token) by {
        assert((a + b).contains(token) || c.contains(token) || d.contains(token));
        assert((a + b + c).contains(token) || d.contains(token));
    }
}

/// A name in an expression is marked by what it stands for.
pub proof fn law_expression_marked(
    facts: SourceFacts,
    context: FunctionAtOffset<'_>,
    found: BodyFacts,
    k: int,
    name: Name,
    ty: SemanticTokenType,
)
    requires
        has_function(facts.module, context),
        map_of(facts, context.root_body.id) == Some(found),
        0 <= k < found.map.exprs@.len(),
        expr_of(facts.module, found.map.exprs@[k].body, found.map.exprs@[k].expr) matches Some(expr)
            && (expr.kind == (ExprKind::Ident { name }) || expr.kind == (ExprKind::DotCtor { name })
            || expr.kind == (ExprKind::Field { name })),
        is_marked_as(found.map.exprs@[k].resolution, ty),
        is_visible(name.span, facts.file),
    ensures
        marks(raw_tokens(facts), name.span, ty, 0),
{
    let f = |entry: ExprEntry| expr_token(facts, entry);
    let entry = found.map.exprs@[k];
    law_filter_map(found.map.exprs@, f);
    let token = f(found.map.exprs@[k])->0;
    assert(f(found.map.exprs@[k]) is Some && is_mark(token, name.span, ty, 0));
    lemma_map_parts(facts, found);
    assert(map_tokens(facts, Some(found)).contains(token));
    lemma_in_function(facts, context, found, token);
    lemma_marked(raw_tokens(facts), token, name.span, ty, 0);
}

/// A name that a `let` statement binds is marked as a variable that is declared there.
pub proof fn law_let_marked(
    facts: SourceFacts,
    context: FunctionAtOffset<'_>,
    found: BodyFacts,
    k: int,
    name: Name,
)
    requires
        has_function(facts.module, context),
        map_of(facts, context.root_body.id) == Some(found),
        0 <= k < found.map.stmt_bindings@.len(),
        stmt_of(
            facts.module,
            found.map.stmt_bindings@[k].body,
            found.map.stmt_bindings@[k].stmt,
        ) matches Some(stmt) && (stmt.kind matches StmtKind::Let { name: own, .. } && own == name),
        is_visible(name.span, facts.file),
    ensures
        marks(raw_tokens(facts), name.span, SemanticTokenType::Variable, 1),
{
    let f = |entry: StmtEntry| let_token(facts, entry);
    law_filter_map(found.map.stmt_bindings@, f);
    let token = f(found.map.stmt_bindings@[k])->0;
    assert(f(found.map.stmt_bindings@[k]) is Some && is_mark(
        token,
        name.span,
        SemanticTokenType::Variable,
        1,
    ));
    lemma_map_parts(facts, found);
    assert(map_tokens(facts, Some(found)).contains(token));
    lemma_in_function(facts, context, found, token);
    lemma_marked(raw_tokens(facts), token, name.span, SemanticTokenType::Variable, 1);
}

/// A name in a pattern is marked: a variable as one that is declared there, a constructor by what
/// it stands for.
pub proof fn law_pattern_marked(
    facts: SourceFacts,
    context: FunctionAtOffset<'_>,
    found: BodyFacts,
    k: int,
    name: Name,
    ty: SemanticTokenType,
)
    requires
        has_function(facts.module, context),
        map_of(facts, context.root_body.id) == Some(found),
        0 <= k < found.map.pats@.len(),
        pat_of(facts.module, found.map.pats@[k].body, found.map.pats@[k].pat) matches Some(pat) && (
        pat.kind == (PatKind::Var { name }) || (pat.kind matches PatKind::Ctor { name: own, .. }
            && own == name)),
        is_marked_as(found.map.pats@[k].resolution, ty),
        is_visible(name.span, facts.file),
    ensures
        found.map.pats@[k].resolution matches Resolution::Local(LocalBinding::Pattern { .. }) ==> marks(
            raw_tokens(facts),
            name.span,
            SemanticTokenType::Variable,
            1,
        ),
        !(found.map.pats@[k].resolution matches Resolution::Local(LocalBinding::Pattern { .. }))
            ==> marks(raw_tokens(facts), name.span, ty, 0),
{
    let f = |entry: PatEntry| pattern_token(facts, entry);
    law_filter_map(found.map.pats@, f);
    let token = f(found.map.pats@[k])->0;
    assert(f(found.map.pats@[k]) is Some);
    lemma_map_parts(facts, found);
    assert(map_tokens(facts, Some(found)).contains(token));
    lemma_in_function(facts, context, found, token);
    if found.map.pats@[k].resolution matches Resolution::Local(LocalBinding::Pattern { .. }) {
        lemma_marked(raw_tokens(facts), token, name.span, SemanticTokenType::Variable, 1);
    } else {
        lemma_marked(raw_tokens(facts), token, name.span, ty, 0);
    }
}

/// The name of a type is marked by what it stands for, the class of a predicate as a type.
pub proof fn law_types_marked(file: u32, types: Seq<TypeEntry>, preds: Seq<PredEntry>, k: int)
    ensures
        0 <= k < types.len() && (types[k].ty matches TypeRef::Named { name, .. } && is_visible(
            name.span,
            file,
        )) ==> forall|ty: SemanticTokenType|
            (ty == SemanticTokenType::Type || ty == SemanticTokenType::Namespace || ty
                == SemanticTokenType::EnumMember) && #[trigger] is_marked_as(types[k].resolution, ty)
                ==> marks(
                type_tokens(file, types, preds),
                types[k].ty->Named_name.span,
                ty,
                0,
            ),
        0 <= k < preds.len() && is_visible(preds[k].pred.class.span, file) && is_marked_as(
            preds[k].resolution,
            SemanticTokenType::Type,
        ) ==> marks(
            type_tokens(file, types, preds),
            preds[k].pred.class.span,
            SemanticTokenType::Type,
            0,
        ),
{
    let f = |entry: TypeEntry| type_token(file, entry);
    let g = |entry: PredEntry| pred_token(file, entry);
    let all = type_tokens(file, types, preds);
    law_filter_map(types, f);
    law_filter_map(preds, g);
    law_joined(filter_map(types, f), filter_map(preds, g));
    assert(all == filter_map(types, f) + filter_map(preds, g));
    if 0 <= k < types.len() && (types[k].ty matches TypeRef::Named { name, .. } && is_visible(
        name.span,
        file,
    )) {
        let span = types[k].ty->Named_name.span;
        assert forall|ty: SemanticTokenType|
            (ty == SemanticTokenType::Type || ty == SemanticTokenType::Namespace || ty
                == SemanticTokenType::EnumMember) && #[trigger] is_marked_as(
                types[k].resolution,
                ty,
            ) implies marks(all, span, ty, 0) by {
            assert(f(types[k]) is Some);
            lemma_marked(all, f(types[k])->0, span, ty, 0);
        }
    }
    if 0 <= k < preds.len() && is_visible(preds[k].pred.class.span, file) && is_marked_as(
        preds[k].resolution,
        SemanticTokenType::Type,
    ) {
        assert(g(preds[k]) is Some);
        lemma_marked(all, g(preds[k])->0, preds[k].pred.class.span, SemanticTokenType::Type, 0);
    }
}

/// The signature of a function marks its name, its type variables and its parameters as declared
/// there.
pub proof fn law_signature_marked(file: u32, sig: FuncSig, k: int)
    ensures
        is_visible(sig.name.span, file) ==> marks(
            signature_tokens(file, sig),
            sig.name.span,
            SemanticTokenType::Function,
            1,
        ),
        0 <= k < sig.type_vars@.len() && is_visible(sig.type_vars@[k].span, file) ==> marks(
            signature_tokens(file, sig),
            sig.type_vars@[k].span,
            SemanticTokenType::Type,
            1,
        ),
        0 <= k < sig.params@.len() ==> match sig.params@[k] {
            FuncParam::Typed { name, .. } => is_visible(name.span, file) ==> marks(
                signature_tokens(file, sig),
                name.span,
                SemanticTokenType::Parameter,
                1,
            ),
            FuncParam::Untyped { name, .. } => is_visible(name.span, file) ==> marks(
                signature_tokens(file, sig),
                name.span,
                SemanticTokenType::Parameter,
                1,
            ),
            FuncParam::Error { .. } => true,
        },
{
    let own = listed(token_for(file, sig.name.span, TokenKind::Function, declaration()));
    let vars = type_var_tokens(file, sig.type_vars@);
    let params = param_tokens(file, sig.params@);
    let all = signature_tokens(file, sig);
    let f = |param: FuncParam| param_token(file, param);
    law_joined(own, vars);
    law_joined(own + vars, params);
    assert(all == own + vars + params);
    if is_visible(sig.name.span, file) {
        let token = token_for(file, sig.name.span, TokenKind::Function, declaration())->0;
        assert(own[0] == token);
        assert(own.contains(token));
        assert((own + vars).contains(token));
        lemma_marked(all, token, sig.name.span, SemanticTokenType::Function, 1);
    }
    law_type_vars_marked(file, sig.type_vars@, k);
    if 0 <= k < sig.type_vars@.len() && is_visible(sig.type_vars@[k].span, file) {
        assert forall|token: RawToken| #[trigger] vars.contains(token) implies all.contains(
            token,
        ) by {
            assert((own + vars).contains(token));
        }
        lemma_marks_more(all, vars, sig.type_vars@[k].span, SemanticTokenType::Type, 1);
    }
    law_filter_map(sig.params@, f);
    if 0 <= k < sig.params@.len() && f(sig.params@[k]) is Some {
        let token = f(sig.params@[k])->0;
        assert(params.contains(token));
        match sig.params@[k] {
            FuncParam::Typed { name, .. } => lemma_marked(
                all,
                token,
                name.span,
                SemanticTokenType::Parameter,
                1,
            ),
            FuncParam::Untyped { name, .. } => lemma_marked(
                all,
                token,
                name.span,
                SemanticTokenType::Parameter,
                1,
            ),
            FuncParam::Error { .. } => {},
        }
    }
}

/// Type variables are marked as types that are declared there.
pub proof fn law_type_vars_marked(file: u32, vars: Seq<Name>, k: int)
    ensures
        0 <= k < vars.len() && is_visible(vars[k].span, file) ==> marks(
            type_var_tokens(file, vars),
            vars[k].span,
            SemanticTokenType::Type,
            1,
        ),
{
    let f = |var: Name| token_for(file, var.span, TokenKind::Type, declaration());
    law_filter_map(vars, f);
    if 0 <= k < vars.len() && is_visible(vars[k].span, file) {
        assert(f(vars[k]) is Some);
        lemma_marked(
            type_var_tokens(file, vars),
            f(vars[k])->0,
            vars[k].span,
            SemanticTokenType::Type,
            1,
        );
    }
}

/// A data type marks its name as a type and each of its constructors as a member, as declared
/// there.
pub proof fn law_data_type_marked(file: u32, adt: AdtDef, k: int)
    ensures
        is_visible(adt.name.span, file) ==> marks(
            adt_tokens(file, adt),
            adt.name.span,
            SemanticTokenType::Type,
            1,
        ),
        0 <= k < adt.ctors@.len() && is_visible(adt.ctors@[k].name.span, file) ==> marks(
            adt_tokens(file, adt),
            adt.ctors@[k].name.span,
            SemanticTokenType::EnumMember,
            1,
        ),
{
    let own = listed(token_for(file, adt.name.span, TokenKind::Type, declaration()));
    let vars = type_var_tokens(file, adt.params@);
    let f = |ctor: AdtCtor| token_for(file, ctor.name.span, TokenKind::EnumMember, declaration());
    let ctors = filter_map(adt.ctors@, f);
    let all = adt_tokens(file, adt);
    law_joined(own, vars);
    law_joined(own + vars, ctors);
    law_filter_map(adt.ctors@, f);
    assert(all == own + vars + ctors);
    if is_visible(adt.name.span, file) {
        let token = token_for(file, adt.name.span, TokenKind::Type, declaration())->0;
        assert(own[0] == token);
        assert(own.contains(token));
        assert((own + vars).contains(token));
        lemma_marked(all, token, adt.name.span, SemanticTokenType::Type, 1);
    }
    if 0 <= k < adt.ctors@.len() && is_visible(adt.ctors@[k].name.span, file) {
        assert(f(adt.ctors@[k]) is Some);
        let token = f(adt.ctors@[k])->0;
        assert(ctors.contains(token));
        lemma_marked(all, token, adt.ctors@[k].name.span, SemanticTokenType::EnumMember, 1);
    }
}

/// Whatever an item of a module marks is marked in the file.
pub proof fn law_items_marked(
    facts: SourceFacts,
    i: int,
    span: Span,
    ty: SemanticTokenType,
    modifiers: u32,
)
    requires
        0 <= i < facts.module.items@.len(),
        match facts.module.items@[i] {
            Item::FunctionDef(function) => marks(
                signature_tokens(facts.file, function.sig),
                span,
                ty,
                modifiers,
            ),
            Item::AdtDef(adt) => marks(adt_tokens(facts.file, adt), span, ty, modifiers),
            Item::TypeAlias(alias) => marks(alias_tokens(facts.file, alias), span, ty, modifiers),
            Item::ClassDef(class) => exists|k: int|
                0 <= k < class.methods@.len() && marks(
                    signature_tokens(facts.file, (#[trigger] class.methods@[k]).sig),
                    span,
                    ty,
                    modifiers,
                ),
            Item::InstanceDef(instance) => exists|k: int|
                0 <= k < instance.methods@.len() && marks(
                    signature_tokens(facts.file, (#[trigger] instance.methods@[k]).sig),
                    span,
                    ty,
                    modifiers,
                ),
            Item::ContractDef(contract) => (exists|k: int|
                0 <= k < contract.fields@.len() && (#[trigger] contract.fields@[k]).name.span == span
                    && is_visible(span, facts.file) && ty == SemanticTokenType::Property && modifiers
                    == 1) || (exists|k: int|
                0 <= k < contract.items@.len() && match #[trigger] contract.items@[k] {
                    ContractItem::FunctionDef(function) => marks(
                        signature_tokens(facts.file, function.sig),
                        span,
                        ty,
                        modifiers,
                    ),
                    ContractItem::AdtDef(adt) => marks(
                        adt_tokens(facts.file, adt),
                        span,
                        ty,
                        modifiers,
                    ),
                    ContractItem::TypeAlias(alias) => marks(
                        alias_tokens(facts.file, alias),
                        span,
                        ty,
                        modifiers,
                    ),
                    _ => false,
                }),
            _ => false,
        },
    ensures
        marks(raw_tokens(facts), span, ty, modifiers),
{
    let item = facts.module.items@[i];
    let own = item_tokens(facts.file, item);
    match item {
        Item::ClassDef(class) => {
            let f = |method: ClassMethod| signature_tokens(facts.file, method.sig);
            let k = choose|k: int|
                0 <= k < class.methods@.len() && marks(
                    signature_tokens(facts.file, (#[trigger] class.methods@[k]).sig),
                    span,
                    ty,
                    modifiers,
                );
            law_concat_map(class.methods@, f);
            let a = listed(
                token_for(facts.file, class.head.class.span, TokenKind::Type, declaration()),
            );
            let b = type_var_tokens(facts.file, class.type_vars@);
            let c = concat_map(class.methods@, f);
            law_joined(a + b, c);
            assert(own == a + b + c);
            let part = f(class.methods@[k]);
            assert forall|token: RawToken| #[trigger] part.contains(token) implies own.contains(
                token,
            ) by {
                assert(f(class.methods@[k]).contains(token));
                assert(c.contains(token));
            }
            lemma_marks_more(own, part, span, ty, modifiers);
        },
        Item::InstanceDef(instance) => {
            let f = |method: FunctionDef| signature_tokens(facts.file, method.sig);
            let k = choose|k: int|
                0 <= k < instance.methods@.len() && marks(
                    signature_tokens(facts.file, (#[trigger] instance.methods@[k]).sig),
                    span,
                    ty,
                    modifiers,
                );
            law_concat_map(instance.methods@, f);
            let b = type_var_tokens(facts.file, instance.type_vars@);
            let c = concat_map(instance.methods@, f);
            law_joined(b, c);
            assert(own == b + c);
            let part = f(instance.methods@[k]);
            assert forall|token: RawToken| #[trigger] part.contains(token) implies own.contains(
                token,
            ) by {
                assert(f(instance.methods@[k]).contains(token));
                assert(c.contains(token));
            }
            lemma_marks_more(own, part, span, ty, modifiers);
        },
        Item::ContractDef(contract) => lemma_contract_marked(
            facts.file,
            contract,
            span,
            ty,
            modifiers,
        ),
        _ => {},
    }
    law_item_kept(facts, i, span, ty, modifiers);
}

/// What an item marks by itself is marked in the file.
pub proof fn law_item_kept(
    facts: SourceFacts,
    i: int,
    span: Span,
    ty: SemanticTokenType,
    modifiers: u32,
)
    requires
        0 <= i < facts.module.items@.len(),
        marks(item_tokens(facts.file, facts.module.items@[i]), span, ty, modifiers),
    ensures
        marks(raw_tokens(facts), span, ty, modifiers),
{
    let own = item_tokens(facts.file, facts.module.items@[i]);
    let f = |item: Item| item_tokens(facts.file, item);
    law_concat_map(facts.module.items@, f);
    let declared = declaration_tokens(facts.file, facts.module);
    let types = type_tokens(facts.file, facts.item_facts.types@, facts.item_facts.preds@);
    law_joined(declared, types);
    law_joined(declared + types, body_tokens(facts));
    assert forall|token: RawToken| #[trigger] own.contains(token) implies raw_tokens(facts).contains(
        token,
    ) by {
        assert(f(facts.module.items@[i]).contains(token));
        assert(declared.contains(token));
        assert((declared + types).contains(token));
    }
    lemma_marks_more(raw_tokens(facts), own, span, ty, modifiers);
}

proof fn lemma_contract_marked(
    file: u32,
    contract: ContractDef,
    span: Span,
    ty: SemanticTokenType,
    modifiers: u32,
)
    requires
        (exists|k: int|
            0 <= k < contract.fields@.len() && (#[trigger] contract.fields@[k]).name.span == span
                && is_visible(span, file) && ty == SemanticTokenType::Property && modifiers == 1) || (
        exists|k: int|
            0 <= k < contract.items@.len() && match #[trigger] contract.items@[k] {
                ContractItem::FunctionDef(function) => marks(
                    signature_tokens(file, function.sig),
                    span,
                    ty,
                    modifiers,
                ),
                ContractItem::AdtDef(adt) => marks(adt_tokens(file, adt), span, ty, modifiers),
                ContractItem::TypeAlias(alias) => marks(
                    alias_tokens(file, alias),
                    span,
                    ty,
                    modifiers,
                ),
                _ => false,
            }),
    ensures
        marks(contract_tokens(file, contract), span, ty, modifiers),
{
    let own = contract_tokens(file, contract);
    let f = |field: FieldDef| token_for(file, field.name.span, TokenKind::Property, declaration());
    let g = |item: ContractItem| contract_item_tokens(file, item);
    let a = listed(token_for(file, contract.name.span, TokenKind::Type, declaration()));
    let b = type_var_tokens(file, contract.params@);
    let c = filter_map(contract.fields@, f);
    let d = concat_map(contract.items@, g);
    law_filter_map(contract.fields@, f);
    law_concat_map(contract.items@, g);
    law_joined(a + b, c);
    law_joined(a + b + c, d);
    assert(own == a + b + c + d);
    if exists|k: int|
        0 <= k < contract.fields@.len() && (#[trigger] contract.fields@[k]).name.span == span
            && is_visible(span, file) && ty == SemanticTokenType::Property && modifiers == 1 {
        let k = choose|k: int|
            0 <= k < contract.fields@.len() && (#[trigger] contract.fields@[k]).name.span == span
                && is_visible(span, file) && ty == SemanticTokenType::Property && modifiers == 1;
        assert(f(contract.fields@[k]) is Some);
        let token = f(contract.fields@[k])->0;
        assert(c.contains(token));
        assert((a + b + c).contains(token));
        lemma_marked(own, token, span, ty, modifiers);
    } else {
        let k = choose|k: int|
            0 <= k < contract.items@.len() && match #[trigger] contract.items@[k] {
                ContractItem::FunctionDef(function) => marks(
                    signature_tokens(file, function.sig),
                    span,
                    ty,
                    modifiers,
                ),
                ContractItem::AdtDef(adt) => marks(adt_tokens(file, adt), span, ty, modifiers),
                ContractItem::TypeAlias(alias) => marks(
                    alias_tokens(file, alias),
                    span,
                    ty,
                    modifiers,
                ),
                _ => false,
            };
        let part = g(contract.items@[k]);
        assert forall|token: RawToken| #[trigger] part.contains(token) implies own.contains(
            token,
        ) by {
            assert(g(contract.items@[k]).contains(token));
            assert(d.contains(token));
        }
        lemma_marks_more(own, part, span, ty, modifiers);
    }
}

/// Whether a token starts inside of another on its line.
pub open spec fn starts_inside(token: PositionedToken, other: PositionedToken) -> bool {
    other.line == token.line && other.start <= token.start && token.start < other.end
}

proof fn lemma_apart_kept(tokens: Seq<PositionedToken>, k: int)
    requires
        0 <= k < tokens.len(),
        forall|i: int, j: int|
            0 <= i < j < tokens.len() ==> !token_before(#[trigger] tokens[j], #[trigger] tokens[i]),
    ensures
        apart(tokens).contains(tokens[k]) || exists|i: int|
            0 <= i < apart(tokens).len() && starts_inside(tokens[k], #[trigger] apart(tokens)[i]),
        forall|token: PositionedToken| #[trigger] apart(tokens).contains(token) ==> tokens.contains(token),
    decreases tokens.len(),
{
    let front = tokens.drop_last();
    let last = tokens.last();
    let before = apart(front);
    let all = apart(tokens);
    assert forall|i: int, j: int| 0 <= i < j < front.len() implies !token_before(
        #[trigger] front[j],
        #[trigger] front[i],
    ) by {
        assert(!token_before(tokens[j], tokens[i]));
    }
    if front.len() > 0 {
        let m = if k < front.len() {
            k
        } else {
            0
        };
        lemma_apart_kept(front, m);
        if k < front.len() {
            if before.contains(front[k]) {
                let i = choose|i: int| 0 <= i < before.len() && before[i] == front[k];
                assert(all[i] == tokens[k]);
            } else {
                let i = choose|i: int|
                    0 <= i < before.len() && starts_inside(front[k], #[trigger] before[i]);
                assert(all[i] == before[i]);
            }
        }
    }
    if k == front.len() {
        if overlaps_last(before, last) {
            let i = before.len() - 1;
            assert(before.contains(before[i]));
            let n = choose|n: int| 0 <= n < front.len() && front[n] == before[i];
            assert(!token_before(tokens[tokens.len() - 1], tokens[n]));
            assert(starts_inside(last, all[i]));
        } else {
            assert(all[all.len() - 1] == last);
        }
    }
    assert forall|token: PositionedToken| #[trigger] all.contains(token) implies tokens.contains(
        token,
    ) by {
        let i = choose|i: int| 0 <= i < all.len() && all[i] == token;
        if i < before.len() {
            assert(before[i] == token);
            assert(before.contains(token));
            let n = choose|n: int| 0 <= n < front.len() && front[n] == token;
            assert(tokens[n] == token);
        } else {
            assert(tokens[tokens.len() - 1] == token);
        }
    }
}

/// Each token that has a place on a line is sent, but for one that starts inside of another that
/// is sent.
pub proof fn law_tokens_sent(text: Seq<char>, tokens: Seq<RawToken>, k: int)
    requires
        0 <= k < tokens.len(),
    ensures
        placed(text, tokens[k]) matches Some(token) ==> arranged_tokens(text, tokens).contains(token)
            || exists|i: int|
            0 <= i < arranged_tokens(text, tokens).len() && starts_inside(
                token,
                #[trigger] arranged_tokens(text, tokens)[i],
            ),
{
    broadcast use vstd::seq_lib::group_to_multiset_ensures;

    let f = |token: RawToken| placed(text, token);
    let found = placed_tokens(text, tokens);
    let all = sorted(found);
    law_filter_map(tokens, f);
    law_sorted(found);
    if f(tokens[k]) is Some {
        let token = f(tokens[k])->0;
        assert(found.contains(token));
        assert(all.to_multiset().count(token) > 0);
        let m = choose|m: int| 0 <= m < all.len() && all[m] == token;
        assert forall|i: int, j: int| 0 <= i < j < all.len() implies !token_before(
            #[trigger] all[j],
            #[trigger] all[i],
        ) by {}
        lemma_apart_kept(all, m);
    }
}

/// A token is placed where its span is: on one line, from the position of its start to that of its
/// end. One that goes over several lines has no place.
pub proof fn law_token_placed(text: Seq<char>, token: RawToken)
    requires
        utf8(text).len() < u32::MAX,
        token.start < token.end <= utf8(text).len(),
        is_char_boundary(utf8(text), token.start as int),
        is_char_boundary(utf8(text), token.end as int),
    ensures
        placed(text, token) is Some <==> position_at(text, token.start as int).line == position_at(
            text,
            token.end as int,
        ).line,
        placed(text, token) matches Some(at) ==> byte_at(
            text,
            Position { line: at.line, character: at.start },
        ) == Some(token.start) && byte_at(text, Position { line: at.line, character: at.end })
            == Some(token.end) && at.token_type == token.token_type && at.modifiers
            == token.modifiers,
{
    law_position_round_trip(text, token.start as int);
    law_position_round_trip(text, token.end as int);
    law_positions_follow_offsets(text, token.start as int, token.end as int);
}

proof fn lemma_name_marked(
    tokens: Seq<RawToken>,
    file: u32,
    name: Span,
    vars: Seq<Name>,
    rest: Seq<RawToken>,
    k: int,
)
    requires
        tokens == listed(token_for(file, name, TokenKind::Type, declaration())) + type_var_tokens(
            file,
            vars,
        ) + rest,
    ensures
        is_visible(name, file) ==> marks(tokens, name, SemanticTokenType::Type, 1),
        0 <= k < vars.len() && is_visible(vars[k].span, file) ==> marks(
            tokens,
            vars[k].span,
            SemanticTokenType::Type,
            1,
        ),
{
    let own = listed(token_for(file, name, TokenKind::Type, declaration()));
    let declared = type_var_tokens(file, vars);
    law_joined(own, declared);
    law_joined(own + declared, rest);
    if is_visible(name, file) {
        let token = token_for(file, name, TokenKind::Type, declaration())->0;
        assert(own[0] == token);
        assert(own.contains(token));
        assert((own + declared).contains(token));
        lemma_marked(tokens, token, name, SemanticTokenType::Type, 1);
    }
    law_type_vars_marked(file, vars, k);
    if 0 <= k < vars.len() && is_visible(vars[k].span, file) {
        assert forall|token: RawToken| #[trigger] declared.contains(token) implies tokens.contains(
            token,
        ) by {
            assert((own + declared).contains(token));
        }
        lemma_marks_more(tokens, declared, vars[k].span, SemanticTokenType::Type, 1);
    }
}

/// Aliases, data types, classes and contracts mark their names and their type variables as types
/// that are declared there. Instances mark their type variables.
pub proof fn law_type_names_marked(file: u32, item: Item, k: int)
    ensures
        match item {
            Item::TypeAlias(alias) => names_type(
                item_tokens(file, item),
                file,
                alias.name.span,
                alias.params@,
                k,
            ),
            Item::AdtDef(adt) => names_type(
                item_tokens(file, item),
                file,
                adt.name.span,
                adt.params@,
                k,
            ),
            Item::ClassDef(class) => names_type(
                item_tokens(file, item),
                file,
                class.head.class.span,
                class.type_vars@,
                k,
            ),
            Item::ContractDef(contract) => names_type(
                item_tokens(file, item),
                file,
                contract.name.span,
                contract.params@,
                k,
            ),
            Item::InstanceDef(instance) => 0 <= k < instance.type_vars@.len() && is_visible(
                instance.type_vars@[k].span,
                file,
            ) ==> marks(
                item_tokens(file, item),
                instance.type_vars@[k].span,
                SemanticTokenType::Type,
                1,
            ),
            _ => true,
        },
{
    let all = item_tokens(file, item);
    match item {
        Item::TypeAlias(alias) => {
            assert(all == all + Seq::<RawToken>::empty());
            lemma_name_marked(all, file, alias.name.span, alias.params@, Seq::empty(), k);
        },
        Item::AdtDef(adt) => {
            let rest = filter_map(
                adt.ctors@,
                |ctor: AdtCtor|
                    token_for(file, ctor.name.span, TokenKind::EnumMember, declaration()),
            );
            lemma_name_marked(all, file, adt.name.span, adt.params@, rest, k);
        },
        Item::ClassDef(class) => {
            let rest = concat_map(
                class.methods@,
                |method: ClassMethod| signature_tokens(file, method.sig),
            );
            lemma_name_marked(all, file, class.head.class.span, class.type_vars@, rest, k);
        },
        Item::ContractDef(contract) => {
            let fields = filter_map(
                contract.fields@,
                |field: FieldDef|
                    token_for(file, field.name.span, TokenKind::Property, declaration()),
            );
            let items = concat_map(
                contract.items@,
                |item: ContractItem| contract_item_tokens(file, item),
            );
            let own = listed(token_for(file, contract.name.span, TokenKind::Type, declaration()));
            let vars = type_var_tokens(file, contract.params@);
            assert(all == own + vars + fields + items);
            assert(own + vars + fields + items == own + vars + (fields + items));
            lemma_name_marked(
                all,
                file,
                contract.name.span,
                contract.params@,
                fields + items,
                k,
            );
        },
        Item::InstanceDef(instance) => {
            let vars = type_var_tokens(file, instance.type_vars@);
            let rest = concat_map(
                instance.methods@,
                |method: FunctionDef| signature_tokens(file, method.sig),
            );
            law_joined(vars, rest);
            law_type_vars_marked(file, instance.type_vars@, k);
            if 0 <= k < instance.type_vars@.len() && is_visible(
                instance.type_vars@[k].span,
                file,
            ) {
                lemma_marks_more(
                    all,
                    vars,
                    instance.type_vars@[k].span,
                    SemanticTokenType::Type,
                    1,
                );
            }
        },
        _ => {},
    }
}

/// Whether a list marks a name and a type variable of it as types that are declared there.
pub open spec fn names_type(
    tokens: Seq<RawToken>,
    file: u32,
    name: Span,
    vars: Seq<Name>,
    k: int,
) -> bool {
    (is_visible(name, file) ==> marks(tokens, name, SemanticTokenType::Type, 1)) && (0 <= k
        < vars.len() && is_visible(vars[k].span, file) ==> marks(
        tokens,
        vars[k].span,
        SemanticTokenType::Type,
        1,
    ))
}

proof fn lemma_lambda_tokens_in(file: u32, exprs: Seq<Expr>, count: nat, i: int)
    requires
        0 <= i < count <= exprs.len(),
    ensures
        forall|token: RawToken| #[trigger]
            lambda_tokens_of(file, exprs[i]).contains(token) ==> lambda_tokens_in(
                file,
                exprs,
                count,
            ).contains(token),
    decreases count,
{
    let rest = (count - 1) as nat;
    let before = lambda_tokens_in(file, exprs, rest);
    law_joined(before, lambda_tokens_of(file, exprs[count - 1]));
    if i < rest {
        lemma_lambda_tokens_in(file, exprs, rest, i);
    }
}

proof fn lemma_nested_tokens(file: u32, root: FuncBody, body: FuncBody, chain: Seq<FuncBody>)
    requires
        leads(chain, root, body),
    ensures
        forall|token: RawToken| #[trigger]
            lambda_tokens(file, body).contains(token) ==> lambda_tokens(file, root).contains(token),
    decreases chain.len(),
{
    if chain.len() > 1 {
        let inner = chain[1];
        let rest = chain.drop_first();
        assert(follows(chain, 1));
        let i = choose|i: int|
            0 <= i < root.exprs@.len() && is_lambda_with(#[trigger] root.exprs@[i], inner);
        assert forall|j: int| 0 < j < rest.len() implies #[trigger] follows(rest, j) by {
            assert(follows(chain, j + 1));
        }
        assert(leads(rest, inner, body));
        lemma_nested_tokens(file, inner, body, rest);
        lemma_lambda_tokens_in(file, root.exprs@, root.exprs@.len(), i);
        let params = root.exprs@[i].kind->Lambda_params;
        law_joined(param_tokens(file, params@), lambda_tokens(file, inner));
        assert(lambda_tokens_of(file, root.exprs@[i]) == param_tokens(file, params@)
            + lambda_tokens(file, inner));
        assert(lambda_tokens(file, root) == lambda_tokens_in(
            file,
            root.exprs@,
            root.exprs@.len(),
        ));
    }
}

/// The parameters of a lambda are marked as parameters that are declared there, in whichever
/// function and however deep the lambda stands.
pub proof fn law_lambda_params_marked(
    facts: SourceFacts,
    context: FunctionAtOffset<'_>,
    body: FuncBody,
    i: int,
    k: int,
    name: Name,
)
    requires
        has_function(facts.module, context),
        lies_in(*context.root_body, body),
        0 <= i < body.exprs@.len(),
        body.exprs@[i].kind matches ExprKind::Lambda { params, .. } && 0 <= k < params@.len() && (
        params@[k] matches FuncParam::Typed { name: declared, .. } && declared == name || (
        params@[k] matches FuncParam::Untyped { name: declared, .. } && declared == name)),
        is_visible(name.span, facts.file),
    ensures
        marks(raw_tokens(facts), name.span, SemanticTokenType::Parameter, 1),
{
    let file = facts.file;
    let root = *context.root_body;
    let params = body.exprs@[i].kind->Lambda_params;
    let inner = body.exprs@[i].kind->Lambda_body;
    let f = |param: FuncParam| param_token(file, param);
    law_filter_map(params@, f);
    let token = f(params@[k])->0;
    assert(f(params@[k]) is Some);
    assert(param_tokens(file, params@).contains(token));
    law_joined(param_tokens(file, params@), lambda_tokens(file, inner));
    assert(lambda_tokens_of(file, body.exprs@[i]) == param_tokens(file, params@) + lambda_tokens(
        file,
        inner,
    ));
    lemma_lambda_tokens_in(file, body.exprs@, body.exprs@.len(), i);
    assert(lambda_tokens_of(file, body.exprs@[i]).contains(token));
    assert(lambda_tokens(file, body) == lambda_tokens_in(file, body.exprs@, body.exprs@.len()));
    let chain = choose|chain: Seq<FuncBody>| #[trigger] leads(chain, root, body);
    lemma_nested_tokens(file, root, body, chain);
    assert(lambda_tokens(file, body).contains(token));
    assert(lambda_tokens(file, root).contains(token));
    let named = map_tokens(facts, map_of(facts, root.id));
    law_joined(named, lambda_tokens(file, root));
    let g = |context: FunctionAtOffset<'_>| function_tokens(facts, context);
    let all = contexts(&facts.module, facts.module.items@.len());
    law_functions(facts.module, context);
    law_concat_map(all, g);
    let n = choose|n: int| 0 <= n < all.len() && all[n] == context;
    assert(g(all[n]).contains(token));
    let declared = declaration_tokens(file, facts.module);
    let types = type_tokens(file, facts.item_facts.types@, facts.item_facts.preds@);
    law_joined(declared + types, body_tokens(facts));
    assert(body_tokens(facts).contains(token));
    assert(raw_tokens(facts).contains(token));
    lemma_marked(raw_tokens(facts), token, name.span, SemanticTokenType::Parameter, 1);
}

} // verus!
