//! Semantic token support.
//!
//! Tokens are made for names only. Keywords, literals, operators and comments are left to the
//! client's own highlighting.
use vstd::prelude::*;

use crate::analysis::{
    body_resolution_map, expr_of, find_expr, find_pat, find_stmt, known_text, map_of, module_facts,
    module_for_uri, pat_of, stmt_of,
};
use crate::hir::{
    AdtCtor, AdtDef, Analysis, BodyFacts, BuiltinKind, ClassMethod, ContractDef, ContractItem,
    DefResolutionKind, Expr, ExprEntry, ExprKind, FieldDef, FuncBody, FuncParam, FuncSig, FunctionDef,
    Item, LocalBinding, Module, Name, PatEntry, PatKind, PredEntry, Resolution, SourceFacts, Span,
    StmtEntry, StmtKind, TypeAlias, TypeEntry, TypeRef,
};
use crate::line_index::{clamped, position_at, LineIndexExt};
use crate::order::{in_order, law_sorted, sort, sorted, Ordered};
use crate::resolve::{contexts, function_contexts, FunctionAtOffset};
use crate::seqs::{collect, concat_map, filter_map, gather, join, pointee, seen, views};
use crate::state::WorldState;
use crate::url::Url;

verus! {

/// The types of tokens that the server tells clients of.
#[derive(Debug, Clone, Copy, PartialEq, Eq, Structural)]
pub enum SemanticTokenType {
    Keyword,
    Function,
    Type,
    Variable,
    Parameter,
    Property,
    EnumMember,
    Namespace,
    Number,
    Str,
    Operator,
    Comment,
}

/// The modifiers of tokens that the server tells clients of.
#[derive(Debug, Clone, Copy, PartialEq, Eq, Structural)]
pub enum SemanticTokenModifier {
    Declaration,
    Readonly,
}

/// The types of tokens, each at the place by which tokens refer to it.
pub open spec fn legend_types() -> Seq<SemanticTokenType> {
    seq![
        SemanticTokenType::Keyword,
        SemanticTokenType::Function,
        SemanticTokenType::Type,
        SemanticTokenType::Variable,
        SemanticTokenType::Parameter,
        SemanticTokenType::Property,
        SemanticTokenType::EnumMember,
        SemanticTokenType::Namespace,
        SemanticTokenType::Number,
        SemanticTokenType::Str,
        SemanticTokenType::Operator,
        SemanticTokenType::Comment,
    ]
}

/// The modifiers of tokens, each at the place of its bit.
pub open spec fn legend_modifiers() -> Seq<SemanticTokenModifier> {
    seq![SemanticTokenModifier::Declaration, SemanticTokenModifier::Readonly]
}

/// Semantic token types advertised by the server and used by the encoder.
pub fn token_types() -> (types: Vec<SemanticTokenType>)
    ensures
        types@ == legend_types(),
{
    let types: Vec<SemanticTokenType> = vec![
        SemanticTokenType::Keyword,
        SemanticTokenType::Function,
        SemanticTokenType::Type,
        SemanticTokenType::Variable,
        SemanticTokenType::Parameter,
        SemanticTokenType::Property,
        SemanticTokenType::EnumMember,
        SemanticTokenType::Namespace,
        SemanticTokenType::Number,
        SemanticTokenType::Str,
        SemanticTokenType::Operator,
        SemanticTokenType::Comment,
    ];
    assert(types@ == legend_types());
    types
}

/// Semantic token modifiers advertised by the server and used by the encoder.
pub fn token_modifiers() -> (modifiers: Vec<SemanticTokenModifier>)
    ensures
        modifiers@ == legend_modifiers(),
{
    let modifiers: Vec<SemanticTokenModifier> = vec![
        SemanticTokenModifier::Declaration,
        SemanticTokenModifier::Readonly,
    ];
    assert(modifiers@ == legend_modifiers());
    modifiers
}

/// What a token is for.
#[derive(Debug, Clone, Copy, PartialEq, Eq, Structural)]
pub enum TokenKind {
    Function,
    Type,
    Variable,
    Parameter,
    Property,
    EnumMember,
    Namespace,
}

pub open spec fn type_of_kind(kind: TokenKind) -> SemanticTokenType {
    match kind {
        TokenKind::Function => SemanticTokenType::Function,
        TokenKind::Type => SemanticTokenType::Type,
        TokenKind::Variable => SemanticTokenType::Variable,
        TokenKind::Parameter => SemanticTokenType::Parameter,
        TokenKind::Property => SemanticTokenType::Property,
        TokenKind::EnumMember => SemanticTokenType::EnumMember,
        TokenKind::Namespace => SemanticTokenType::Namespace,
    }
}

/// The place of the type of a token in the legend.
pub open spec fn type_index(kind: TokenKind) -> u32 {
    match kind {
        TokenKind::Function => 1,
        TokenKind::Type => 2,
        TokenKind::Variable => 3,
        TokenKind::Parameter => 4,
        TokenKind::Property => 5,
        TokenKind::EnumMember => 6,
        TokenKind::Namespace => 7,
    }
}

pub fn token_type_index(kind: TokenKind) -> (index: u32)
    ensures
        index == type_index(kind),
        index < legend_types().len(),
        legend_types()[index as int] == type_of_kind(kind),
{
    match kind {
        TokenKind::Function => 1,
        TokenKind::Type => 2,
        TokenKind::Variable => 3,
        TokenKind::Parameter => 4,
        TokenKind::Property => 5,
        TokenKind::EnumMember => 6,
        TokenKind::Namespace => 7,
    }
}

/// The bit of declarations.
pub open spec fn declaration() -> u32 {
    1
}

pub fn declaration_bitset() -> (bits: u32)
    ensures
        bits == declaration(),
        legend_modifiers()[0] == SemanticTokenModifier::Declaration,
{
    1
}

/// A token with the bytes that it covers.
#[derive(Debug, Clone, Copy, PartialEq, Eq, Structural)]
pub struct RawToken {
    pub start: u32,
    pub end: u32,
    pub token_type: u32,
    pub modifiers: u32,
}

impl View for RawToken {
    type V = RawToken;

    open spec fn view(&self) -> RawToken {
        *self
    }
}

/// The token for a range of a file, none where the range is in another file or empty.
pub open spec fn token_for(file: u32, span: Span, kind: TokenKind, modifiers: u32) -> Option<RawToken> {
    if span.file != file || span.width() == 0 {
        None
    } else {
        Some(
            RawToken {
                start: span.start,
                end: span.end,
                token_type: type_index(kind),
                modifiers,
            },
        )
    }
}

fn new_token(file: u32, span: Span, kind: TokenKind, modifiers: u32) -> (token: Option<RawToken>)
    ensures
        token == token_for(file, span, kind, modifiers),
        seen(token) == token,
{
    if span.file != file || span.is_empty() {
        return None;
    }
    Some(
        RawToken { start: span.start, end: span.end, token_type: token_type_index(kind), modifiers },
    )
}

/// The list of a token that may be there.
pub open spec fn listed(token: Option<RawToken>) -> Seq<RawToken> {
    match token {
        Some(token) => seq![token],
        None => Seq::empty(),
    }
}

fn list(token: Option<RawToken>) -> (tokens: Vec<RawToken>)
    ensures
        views(tokens@) == listed(token),
{
    let mut tokens: Vec<RawToken> = Vec::new();
    if let Some(token) = token {
        tokens.push(token);
    }
    assert(views(tokens@) == listed(token));
    tokens
}

fn no_tokens() -> (tokens: Vec<RawToken>)
    ensures
        views(tokens@) == Seq::<RawToken>::empty(),
{
    let tokens: Vec<RawToken> = Vec::new();
    assert(views(tokens@) == Seq::<RawToken>::empty());
    tokens
}

/// The tokens of declared type variables.
pub open spec fn type_var_tokens(file: u32, vars: Seq<Name>) -> Seq<RawToken> {
    filter_map(vars, |var: Name| token_for(file, var.span, TokenKind::Type, declaration()))
}

fn collect_type_var_declarations(file: u32, vars: &Vec<Name>) -> (tokens: Vec<RawToken>)
    ensures
        views(tokens@) == type_var_tokens(file, vars@),
{
    let token = |var: &Name| -> (token: Option<RawToken>)
        ensures
            seen(token) == token_for(file, var.span, TokenKind::Type, declaration()),
    {
        new_token(file, var.span, TokenKind::Type, declaration_bitset())
    };
    collect(
        vars,
        token,
        Ghost(|var: Name| token_for(file, var.span, TokenKind::Type, declaration())),
    )
}

pub open spec fn param_token(file: u32, param: FuncParam) -> Option<RawToken> {
    match param {
        FuncParam::Typed { name, .. } => token_for(
            file,
            name.span,
            TokenKind::Parameter,
            declaration(),
        ),
        FuncParam::Untyped { name, .. } => token_for(
            file,
            name.span,
            TokenKind::Parameter,
            declaration(),
        ),
        FuncParam::Error { .. } => None,
    }
}

/// The tokens of declared parameters.
pub open spec fn param_tokens(file: u32, params: Seq<FuncParam>) -> Seq<RawToken> {
    filter_map(params, |param: FuncParam| param_token(file, param))
}

fn collect_param_declarations(file: u32, params: &Vec<FuncParam>) -> (tokens: Vec<RawToken>)
    ensures
        views(tokens@) == param_tokens(file, params@),
{
    let token = |param: &FuncParam| -> (token: Option<RawToken>)
        ensures
            seen(token) == param_token(file, *param),
    {
        match param {
            FuncParam::Typed { comptime: _, name, ty: _ } => new_token(
                file,
                name.span,
                TokenKind::Parameter,
                declaration_bitset(),
            ),
            FuncParam::Untyped { comptime: _, name } => new_token(
                file,
                name.span,
                TokenKind::Parameter,
                declaration_bitset(),
            ),
            FuncParam::Error { .. } => None,
        }
    };
    collect(params, token, Ghost(|param: FuncParam| param_token(file, param)))
}

/// The tokens of a signature: its name, its type variables, its parameters.
pub open spec fn signature_tokens(file: u32, sig: FuncSig) -> Seq<RawToken> {
    listed(token_for(file, sig.name.span, TokenKind::Function, declaration())) + type_var_tokens(
        file,
        sig.type_vars@,
    ) + param_tokens(file, sig.params@)
}

fn collect_signature_declarations(file: u32, sig: &FuncSig) -> (tokens: Vec<RawToken>)
    ensures
        views(tokens@) == signature_tokens(file, *sig),
{
    let name = list(new_token(file, sig.name.span, TokenKind::Function, declaration_bitset()));
    let vars = collect_type_var_declarations(file, &sig.type_vars);
    let params = collect_param_declarations(file, &sig.params);
    join(join(name, vars), params)
}

/// The tokens of a type alias.
pub open spec fn alias_tokens(file: u32, alias: TypeAlias) -> Seq<RawToken> {
    listed(token_for(file, alias.name.span, TokenKind::Type, declaration())) + type_var_tokens(
        file,
        alias.params@,
    )
}

fn collect_alias_declarations(file: u32, alias: &TypeAlias) -> (tokens: Vec<RawToken>)
    ensures
        views(tokens@) == alias_tokens(file, *alias),
{
    let name = list(new_token(file, alias.name.span, TokenKind::Type, declaration_bitset()));
    join(name, collect_type_var_declarations(file, &alias.params))
}

/// The tokens of a data type: its name, its type variables, its constructors.
pub open spec fn adt_tokens(file: u32, adt: AdtDef) -> Seq<RawToken> {
    listed(token_for(file, adt.name.span, TokenKind::Type, declaration())) + type_var_tokens(
        file,
        adt.params@,
    ) + filter_map(
        adt.ctors@,
        |ctor: AdtCtor| token_for(file, ctor.name.span, TokenKind::EnumMember, declaration()),
    )
}

fn collect_adt_declarations(file: u32, adt: &AdtDef) -> (tokens: Vec<RawToken>)
    ensures
        views(tokens@) == adt_tokens(file, *adt),
{
    let name = list(new_token(file, adt.name.span, TokenKind::Type, declaration_bitset()));
    let vars = collect_type_var_declarations(file, &adt.params);
    let token = |ctor: &AdtCtor| -> (token: Option<RawToken>)
        ensures
            seen(token) == token_for(
                file,
                ctor.name.span,
                TokenKind::EnumMember,
                declaration(),
            ),
    {
        new_token(file, ctor.name.span, TokenKind::EnumMember, declaration_bitset())
    };
    let ctors = collect(
        &adt.ctors,
        token,
        Ghost(
            |ctor: AdtCtor| token_for(file, ctor.name.span, TokenKind::EnumMember, declaration()),
        ),
    );
    join(join(name, vars), ctors)
}

/// The tokens of an item of a contract.
pub open spec fn contract_item_tokens(file: u32, item: ContractItem) -> Seq<RawToken> {
    match item {
        ContractItem::FunctionDef(function) => signature_tokens(file, function.sig),
        ContractItem::TypeAlias(alias) => alias_tokens(file, alias),
        ContractItem::AdtDef(adt) => adt_tokens(file, adt),
        ContractItem::Error { .. } => Seq::empty(),
    }
}

fn collect_contract_item_declarations(file: u32, item: &ContractItem) -> (tokens: Vec<RawToken>)
    ensures
        views(tokens@) == contract_item_tokens(file, *item),
{
    match item {
        ContractItem::FunctionDef(function) => collect_signature_declarations(file, &function.sig),
        ContractItem::TypeAlias(alias) => collect_alias_declarations(file, alias),
        ContractItem::AdtDef(adt) => collect_adt_declarations(file, adt),
        ContractItem::Error { .. } => no_tokens(),
    }
}

/// The tokens of a contract: its name, its type variables, its fields, its items.
pub open spec fn contract_tokens(file: u32, contract: ContractDef) -> Seq<RawToken> {
    listed(token_for(file, contract.name.span, TokenKind::Type, declaration())) + type_var_tokens(
        file,
        contract.params@,
    ) + filter_map(
        contract.fields@,
        |field: FieldDef| token_for(file, field.name.span, TokenKind::Property, declaration()),
    ) + concat_map(contract.items@, |item: ContractItem| contract_item_tokens(file, item))
}

fn collect_contract_declarations(file: u32, contract: &ContractDef) -> (tokens: Vec<RawToken>)
    ensures
        views(tokens@) == contract_tokens(file, *contract),
{
    let name = list(new_token(file, contract.name.span, TokenKind::Type, declaration_bitset()));
    let vars = collect_type_var_declarations(file, &contract.params);
    let token = |field: &FieldDef| -> (token: Option<RawToken>)
        ensures
            seen(token) == token_for(
                file,
                field.name.span,
                TokenKind::Property,
                declaration(),
            ),
    {
        new_token(file, field.name.span, TokenKind::Property, declaration_bitset())
    };
    let fields = collect(
        &contract.fields,
        token,
        Ghost(
            |field: FieldDef| token_for(file, field.name.span, TokenKind::Property, declaration()),
        ),
    );
    let tokens = |item: &ContractItem| -> (tokens: Vec<RawToken>)
        ensures
            views(tokens@) == contract_item_tokens(file, *item),
    {
        collect_contract_item_declarations(file, item)
    };
    let items = gather(
        &contract.items,
        tokens,
        Ghost(|item: ContractItem| contract_item_tokens(file, item)),
    );
    join(join(join(name, vars), fields), items)
}

/// The tokens of what an item declares.
pub open spec fn item_tokens(file: u32, item: Item) -> Seq<RawToken> {
    match item {
        Item::FunctionDef(function) => signature_tokens(file, function.sig),
        Item::TypeAlias(alias) => alias_tokens(file, alias),
        Item::AdtDef(adt) => adt_tokens(file, adt),
        Item::ClassDef(class) => listed(
            token_for(file, class.head.class.span, TokenKind::Type, declaration()),
        ) + type_var_tokens(file, class.type_vars@) + concat_map(
            class.methods@,
            |method: ClassMethod| signature_tokens(file, method.sig),
        ),
        Item::InstanceDef(instance) => type_var_tokens(file, instance.type_vars@) + concat_map(
            instance.methods@,
            |method: FunctionDef| signature_tokens(file, method.sig),
        ),
        Item::ContractDef(contract) => contract_tokens(file, contract),
        _ => Seq::empty(),
    }
}

fn collect_item_declarations(file: u32, item: &Item) -> (tokens: Vec<RawToken>)
    ensures
        views(tokens@) == item_tokens(file, *item),
{
    match item {
        Item::FunctionDef(function) => collect_signature_declarations(file, &function.sig),
        Item::TypeAlias(alias) => collect_alias_declarations(file, alias),
        Item::AdtDef(adt) => collect_adt_declarations(file, adt),
        Item::ClassDef(class) => {
            let name = list(
                new_token(file, class.head.class.span, TokenKind::Type, declaration_bitset()),
            );
            let vars = collect_type_var_declarations(file, &class.type_vars);
            let tokens = |method: &ClassMethod| -> (tokens: Vec<RawToken>)
                ensures
                    views(tokens@) == signature_tokens(file, method.sig),
            {
                collect_signature_declarations(file, &method.sig)
            };
            let methods = gather(
                &class.methods,
                tokens,
                Ghost(|method: ClassMethod| signature_tokens(file, method.sig)),
            );
            join(join(name, vars), methods)
        },
        Item::InstanceDef(instance) => {
            let vars = collect_type_var_declarations(file, &instance.type_vars);
            let tokens = |method: &FunctionDef| -> (tokens: Vec<RawToken>)
                ensures
                    views(tokens@) == signature_tokens(file, method.sig),
            {
                collect_signature_declarations(file, &method.sig)
            };
            let methods = gather(
                &instance.methods,
                tokens,
                Ghost(|method: FunctionDef| signature_tokens(file, method.sig)),
            );
            join(vars, methods)
        },
        Item::ContractDef(contract) => collect_contract_declarations(file, contract),
        _ => no_tokens(),
    }
}

/// The tokens of what a module declares.
pub open spec fn declaration_tokens(file: u32, module: Module) -> Seq<RawToken> {
    concat_map(module.items@, |item: Item| item_tokens(file, item))
}

fn collect_declaration_tokens(file: u32, module: &Module) -> (tokens: Vec<RawToken>)
    ensures
        views(tokens@) == declaration_tokens(file, *module),
{
    let tokens = |item: &Item| -> (tokens: Vec<RawToken>)
        ensures
            views(tokens@) == item_tokens(file, *item),
    {
        collect_item_declarations(file, item)
    };
    gather(&module.items, tokens, Ghost(|item: Item| item_tokens(file, item)))
}

/// What a name is shown as by what it stands for.
pub open spec fn kind_of(resolution: Resolution) -> Option<TokenKind> {
    match resolution {
        Resolution::Def { kind, .. } => if kind == DefResolutionKind::Function {
            Some(TokenKind::Function)
        } else {
            Some(TokenKind::Type)
        },
        Resolution::Local(LocalBinding::TypeVar { .. }) => Some(TokenKind::Type),
        Resolution::Local(_) => Some(TokenKind::Variable),
        Resolution::Param(_) => Some(TokenKind::Parameter),
        Resolution::Field(_) => Some(TokenKind::Property),
        Resolution::Ctor { .. } => Some(TokenKind::EnumMember),
        Resolution::DotCtorDeferred => Some(TokenKind::EnumMember),
        Resolution::ClassMethod { .. } => Some(TokenKind::Function),
        Resolution::Module { .. } => Some(TokenKind::Namespace),
        Resolution::Builtin(kind) => match kind {
            BuiltinKind::Type => Some(TokenKind::Type),
            BuiltinKind::Class => Some(TokenKind::Type),
            BuiltinKind::Constructor(_) => Some(TokenKind::EnumMember),
            BuiltinKind::Function(_) => Some(TokenKind::Function),
            BuiltinKind::ClassMethod(_) => Some(TokenKind::Function),
        },
        Resolution::Unresolved => None,
    }
}

pub fn token_kind_for_resolution(resolution: &Resolution) -> (kind: Option<TokenKind>)
    ensures
        kind == kind_of(*resolution),
{
    match resolution {
        Resolution::Def { def: _, kind } => if *kind == DefResolutionKind::Function {
            Some(TokenKind::Function)
        } else {
            Some(TokenKind::Type)
        },
        Resolution::Local(LocalBinding::TypeVar { .. }) => Some(TokenKind::Type),
        Resolution::Local(_) => Some(TokenKind::Variable),
        Resolution::Param(_) => Some(TokenKind::Parameter),
        Resolution::Field(_) => Some(TokenKind::Property),
        Resolution::Ctor { .. } => Some(TokenKind::EnumMember),
        Resolution::DotCtorDeferred => Some(TokenKind::EnumMember),
        Resolution::ClassMethod { .. } => Some(TokenKind::Function),
        Resolution::Module { .. } => Some(TokenKind::Namespace),
        Resolution::Builtin(kind) => match kind {
            BuiltinKind::Type => Some(TokenKind::Type),
            BuiltinKind::Class => Some(TokenKind::Type),
            BuiltinKind::Constructor(_) => Some(TokenKind::EnumMember),
            BuiltinKind::Function(_) => Some(TokenKind::Function),
            BuiltinKind::ClassMethod(_) => Some(TokenKind::Function),
        },
        Resolution::Unresolved => None,
    }
}

/// The token of a type that is used.
pub open spec fn type_token(file: u32, entry: TypeEntry) -> Option<RawToken> {
    match (kind_of(entry.resolution), entry.ty) {
        (Some(kind), TypeRef::Named { name, .. }) => if kind == TokenKind::Type || kind
            == TokenKind::Namespace || kind == TokenKind::EnumMember {
            token_for(file, name.span, kind, 0)
        } else {
            None
        },
        _ => None,
    }
}

fn type_ref_token(file: u32, entry: &TypeEntry) -> (token: Option<RawToken>)
    ensures
        seen(token) == type_token(file, *entry),
{
    match (token_kind_for_resolution(&entry.resolution), &entry.ty) {
        (Some(kind), TypeRef::Named { qualifier: _, name, args: _ }) => if kind == TokenKind::Type
            || kind == TokenKind::Namespace || kind == TokenKind::EnumMember {
            new_token(file, name.span, kind, 0)
        } else {
            None
        },
        _ => None,
    }
}

/// The token of a class that is used.
pub open spec fn pred_token(file: u32, entry: PredEntry) -> Option<RawToken> {
    if kind_of(entry.resolution) == Some(TokenKind::Type) {
        token_for(file, entry.pred.class.span, TokenKind::Type, 0)
    } else {
        None
    }
}

fn pred_ref_token(file: u32, entry: &PredEntry) -> (token: Option<RawToken>)
    ensures
        seen(token) == pred_token(file, *entry),
{
    match token_kind_for_resolution(&entry.resolution) {
        Some(TokenKind::Type) => new_token(file, entry.pred.class.span, TokenKind::Type, 0),
        _ => None,
    }
}

/// The tokens of the types and classes that are used.
pub open spec fn type_tokens(file: u32, types: Seq<TypeEntry>, preds: Seq<PredEntry>) -> Seq<RawToken> {
    filter_map(types, |entry: TypeEntry| type_token(file, entry)) + filter_map(
        preds,
        |entry: PredEntry| pred_token(file, entry),
    )
}

fn collect_type_tokens(file: u32, types: &Vec<TypeEntry>, preds: &Vec<PredEntry>) -> (tokens: Vec<
    RawToken,
>)
    ensures
        views(tokens@) == type_tokens(file, types@, preds@),
{
    let of_type = |entry: &TypeEntry| -> (token: Option<RawToken>)
        ensures
            seen(token) == type_token(file, *entry),
    {
        type_ref_token(file, entry)
    };
    let named = collect(types, of_type, Ghost(|entry: TypeEntry| type_token(file, entry)));
    let of_pred = |entry: &PredEntry| -> (token: Option<RawToken>)
        ensures
            seen(token) == pred_token(file, *entry),
    {
        pred_ref_token(file, entry)
    };
    let classes = collect(preds, of_pred, Ghost(|entry: PredEntry| pred_token(file, entry)));
    join(named, classes)
}

/// The range of the name in an expression.
pub open spec fn expr_name_span(expr: Expr) -> Option<Span> {
    match expr.kind {
        ExprKind::Ident { name } => Some(name.span),
        ExprKind::DotCtor { name } => Some(name.span),
        ExprKind::Field { name } => Some(name.span),
        _ => None,
    }
}

/// The token of an expression that is a name.
pub open spec fn expr_token(facts: SourceFacts, entry: ExprEntry) -> Option<RawToken> {
    match (expr_of(facts.module, entry.body, entry.expr), kind_of(entry.resolution)) {
        (Some(expr), Some(kind)) => match expr_name_span(expr) {
            Some(span) => token_for(facts.file, span, kind, 0),
            None => None,
        },
        _ => None,
    }
}

fn expr_entry_token(facts: &SourceFacts, entry: &ExprEntry) -> (token: Option<RawToken>)
    ensures
        seen(token) == expr_token(*facts, *entry),
{
    match (
        find_expr(&facts.module, entry.body, entry.expr),
        token_kind_for_resolution(&entry.resolution),
    ) {
        (Some(expr), Some(kind)) => match &expr.kind {
            ExprKind::Ident { name } => new_token(facts.file, name.span, kind, 0),
            ExprKind::DotCtor { name } => new_token(facts.file, name.span, kind, 0),
            ExprKind::Field { name } => new_token(facts.file, name.span, kind, 0),
            _ => None,
        },
        _ => None,
    }
}

/// The token of a name that a `let` binds.
pub open spec fn let_token(facts: SourceFacts, entry: StmtEntry) -> Option<RawToken> {
    match stmt_of(facts.module, entry.body, entry.stmt) {
        Some(stmt) => match stmt.kind {
            StmtKind::Let { name, .. } => token_for(
                facts.file,
                name.span,
                TokenKind::Variable,
                declaration(),
            ),
            _ => None,
        },
        None => None,
    }
}

fn let_entry_token(facts: &SourceFacts, entry: &StmtEntry) -> (token: Option<RawToken>)
    ensures
        seen(token) == let_token(*facts, *entry),
{
    match find_stmt(&facts.module, entry.body, entry.stmt) {
        Some(stmt) => match &stmt.kind {
            StmtKind::Let { comptime: _, name, ty: _ } => new_token(
                facts.file,
                name.span,
                TokenKind::Variable,
                declaration_bitset(),
            ),
            _ => None,
        },
        None => None,
    }
}

/// The token of a name in a pattern: a declared variable where the pattern binds it.
pub open spec fn named_pattern_token(file: u32, span: Span, resolution: Resolution) -> Option<RawToken> {
    match resolution {
        Resolution::Local(LocalBinding::Pattern { .. }) => token_for(
            file,
            span,
            TokenKind::Variable,
            declaration(),
        ),
        _ => match kind_of(resolution) {
            Some(kind) => token_for(file, span, kind, 0),
            None => None,
        },
    }
}

fn new_pattern_token(file: u32, span: Span, resolution: &Resolution) -> (token: Option<RawToken>)
    ensures
        seen(token) == named_pattern_token(file, span, *resolution),
{
    match resolution {
        Resolution::Local(LocalBinding::Pattern { .. }) => new_token(
            file,
            span,
            TokenKind::Variable,
            declaration_bitset(),
        ),
        _ => match token_kind_for_resolution(resolution) {
            Some(kind) => new_token(file, span, kind, 0),
            None => None,
        },
    }
}

pub open spec fn pattern_token(facts: SourceFacts, entry: PatEntry) -> Option<RawToken> {
    match pat_of(facts.module, entry.body, entry.pat) {
        Some(pat) => match pat.kind {
            PatKind::Var { name } => named_pattern_token(facts.file, name.span, entry.resolution),
            PatKind::Ctor { name, .. } => named_pattern_token(
                facts.file,
                name.span,
                entry.resolution,
            ),
            _ => None,
        },
        None => None,
    }
}

fn pattern_entry_token(facts: &SourceFacts, entry: &PatEntry) -> (token: Option<RawToken>)
    ensures
        seen(token) == pattern_token(*facts, *entry),
{
    match find_pat(&facts.module, entry.body, entry.pat) {
        Some(pat) => match &pat.kind {
            PatKind::Var { name } => new_pattern_token(facts.file, name.span, &entry.resolution),
            PatKind::Ctor { qualifiers: _, name } => new_pattern_token(
                facts.file,
                name.span,
                &entry.resolution,
            ),
            _ => None,
        },
        None => None,
    }
}

/// The tokens of the names in the bodies of a function: expressions, bound names, patterns,
/// types, classes.
pub open spec fn map_tokens(facts: SourceFacts, bodies: Option<BodyFacts>) -> Seq<RawToken> {
    match bodies {
        Some(bodies) => filter_map(
            bodies.map.exprs@,
            |entry: ExprEntry| expr_token(facts, entry),
        ) + filter_map(
            bodies.map.stmt_bindings@,
            |entry: StmtEntry| let_token(facts, entry),
        ) + filter_map(bodies.map.pats@, |entry: PatEntry| pattern_token(facts, entry))
            + type_tokens(facts.file, bodies.map.types@, bodies.map.preds@),
        None => Seq::empty(),
    }
}

fn collect_body_map_tokens(facts: &SourceFacts, bodies: Option<&BodyFacts>) -> (tokens: Vec<RawToken>)
    ensures
        views(tokens@) == map_tokens(*facts, pointee(bodies)),
{
    let bodies = match bodies {
        Some(bodies) => bodies,
        None => return no_tokens(),
    };
    let of_expr = |entry: &ExprEntry| -> (token: Option<RawToken>)
        ensures
            seen(token) == expr_token(*facts, *entry),
    {
        expr_entry_token(facts, entry)
    };
    let exprs = collect(
        &bodies.map.exprs,
        of_expr,
        Ghost(|entry: ExprEntry| expr_token(*facts, entry)),
    );
    let of_let = |entry: &StmtEntry| -> (token: Option<RawToken>)
        ensures
            seen(token) == let_token(*facts, *entry),
    {
        let_entry_token(facts, entry)
    };
    let lets = collect(
        &bodies.map.stmt_bindings,
        of_let,
        Ghost(|entry: StmtEntry| let_token(*facts, entry)),
    );
    let of_pattern = |entry: &PatEntry| -> (token: Option<RawToken>)
        ensures
            seen(token) == pattern_token(*facts, *entry),
    {
        pattern_entry_token(facts, entry)
    };
    let patterns = collect(
        &bodies.map.pats,
        of_pattern,
        Ghost(|entry: PatEntry| pattern_token(*facts, entry)),
    );
    let types = collect_type_tokens(facts.file, &bodies.map.types, &bodies.map.preds);
    join(join(join(exprs, lets), patterns), types)
}

/// The tokens of the parameters of the lambdas in a body.
pub open spec fn lambda_tokens(file: u32, body: FuncBody) -> Seq<RawToken>
    decreases body, 0nat,
{
    lambda_tokens_in(file, body.exprs@, body.exprs@.len())
}

/// The tokens of the parameters of the lambdas in the first `count` expressions.
pub open spec fn lambda_tokens_in(file: u32, exprs: Seq<Expr>, count: nat) -> Seq<RawToken>
    decreases exprs, count,
{
    if count == 0 || count > exprs.len() {
        Seq::empty()
    } else {
        lambda_tokens_in(file, exprs, (count - 1) as nat) + lambda_tokens_of(
            file,
            exprs[count - 1],
        )
    }
}

pub open spec fn lambda_tokens_of(file: u32, expr: Expr) -> Seq<RawToken>
    decreases expr, 0nat,
{
    match expr.kind {
        ExprKind::Lambda { params, body } => param_tokens(file, params@) + lambda_tokens(
            file,
            body,
        ),
        _ => Seq::empty(),
    }
}

fn collect_lambda_param_declarations(file: u32, body: &FuncBody) -> (tokens: Vec<RawToken>)
    ensures
        views(tokens@) == lambda_tokens(file, *body),
    decreases body,
{
    let ghost exprs = body.exprs@;
    let mut tokens: Vec<RawToken> = no_tokens();
    let mut i: usize = 0;
    while i < body.exprs.len()
        invariant
            i <= exprs.len(),
            exprs == body.exprs@,
            views(tokens@) == lambda_tokens_in(file, exprs, i as nat),
        decreases exprs.len() - i,
    {
        if let ExprKind::Lambda { params, body: inner } = &body.exprs[i].kind {
            let declared = collect_param_declarations(file, params);
            let nested = collect_lambda_param_declarations(file, inner);
            let ghost before = views(tokens@);
            let added = join(declared, nested);
            assert(views(added@) == lambda_tokens_of(file, exprs[i as int]));
            tokens = join(tokens, added);
            assert(views(tokens@) == before + lambda_tokens_of(file, exprs[i as int]));
        } else {
            assert(lambda_tokens_of(file, exprs[i as int]) == Seq::<RawToken>::empty());
        }
        assert(views(tokens@) == lambda_tokens_in(file, exprs, (i + 1) as nat));
        i += 1;
    }
    tokens
}

pub open spec fn function_tokens(facts: SourceFacts, context: FunctionAtOffset<'_>) -> Seq<RawToken> {
    map_tokens(facts, map_of(facts, context.root_body.id)) + lambda_tokens(
        facts.file,
        *context.root_body,
    )
}

/// The tokens of the bodies of a module.
pub open spec fn body_tokens(facts: SourceFacts) -> Seq<RawToken> {
    concat_map(
        contexts(&facts.module, facts.module.items@.len()),
        |context: FunctionAtOffset<'_>| function_tokens(facts, context),
    )
}

fn collect_body_tokens(facts: &SourceFacts) -> (tokens: Vec<RawToken>)
    ensures
        views(tokens@) == body_tokens(*facts),
{
    let functions = function_contexts(&facts.module);
    let tokens = |context: &FunctionAtOffset<'_>| -> (tokens: Vec<RawToken>)
        ensures
            views(tokens@) == function_tokens(*facts, *context),
    {
        let named = collect_body_map_tokens(
            facts,
            body_resolution_map(facts, context.root_body.id),
        );
        join(named, collect_lambda_param_declarations(facts.file, context.root_body))
    };
    gather(
        &functions,
        tokens,
        Ghost(|context: FunctionAtOffset<'_>| function_tokens(*facts, context)),
    )
}

/// The tokens of a file: what it declares, the types and classes it uses, and its bodies.
pub open spec fn raw_tokens(facts: SourceFacts) -> Seq<RawToken> {
    declaration_tokens(facts.file, facts.module) + type_tokens(
        facts.file,
        facts.item_facts.types@,
        facts.item_facts.preds@,
    ) + body_tokens(facts)
}

fn collect_tokens(facts: &SourceFacts) -> (tokens: Vec<RawToken>)
    ensures
        tokens@ == raw_tokens(*facts),
{
    let declared = collect_declaration_tokens(facts.file, &facts.module);
    let types = collect_type_tokens(facts.file, &facts.item_facts.types, &facts.item_facts.preds);
    let tokens = join(join(declared, types), collect_body_tokens(facts));
    assert(tokens@ == views(tokens@));
    tokens
}

/// A token on one line, from one character to another.
#[derive(Debug, Clone, Copy, PartialEq, Eq, Structural)]
pub struct PositionedToken {
    pub line: u32,
    pub start: u32,
    pub end: u32,
    pub token_type: u32,
    pub modifiers: u32,
}

impl View for PositionedToken {
    type V = PositionedToken;

    open spec fn view(&self) -> PositionedToken {
        *self
    }
}

/// Whether a token is before another: by its line, its start, its length, its type.
pub open spec fn token_before(a: PositionedToken, b: PositionedToken) -> bool {
    a.line < b.line || (a.line == b.line && (a.start < b.start || (a.start == b.start && (a.end
        < b.end || (a.end == b.end && a.token_type < b.token_type)))))
}

impl Ordered for PositionedToken {
    open spec fn before(self, other: Self) -> bool {
        token_before(self, other)
    }

    fn is_before(&self, other: &Self) -> (before: bool) {
        self.line < other.line || (self.line == other.line && (self.start < other.start || (
        self.start == other.start && (self.end < other.end || (self.end == other.end
            && self.token_type < other.token_type)))))
    }

    proof fn lemma_asymmetric(a: Self, b: Self) {
    }

    proof fn lemma_not_behind(a: Self, b: Self, c: Self) {
    }
}

/// A token at its place in a text, none where it does not end on its line behind its start.
pub open spec fn placed(text: Seq<char>, token: RawToken) -> Option<PositionedToken> {
    let start = position_at(text, clamped(text, token.start as int));
    let end = position_at(text, clamped(text, token.end as int));
    if start.line != end.line || start.character >= end.character {
        None
    } else {
        Some(
            PositionedToken {
                line: start.line,
                start: start.character,
                end: end.character,
                token_type: token.token_type,
                modifiers: token.modifiers,
            },
        )
    }
}

pub open spec fn placed_tokens(text: Seq<char>, tokens: Seq<RawToken>) -> Seq<PositionedToken> {
    filter_map(tokens, |token: RawToken| placed(text, token))
}

fn place_tokens(index: &LineIndexExt, tokens: &Vec<RawToken>) -> (positioned: Vec<PositionedToken>)
    ensures
        positioned@ == placed_tokens(index@, tokens@),
{
    let place = |token: &RawToken| -> (found: Option<PositionedToken>)
        ensures
            seen(found) == placed(index@, *token),
    {
        let start = index.byte_to_position(token.start);
        let end = index.byte_to_position(token.end);
        if start.line != end.line || start.character >= end.character {
            return None;
        }
        Some(
            PositionedToken {
                line: start.line,
                start: start.character,
                end: end.character,
                token_type: token.token_type,
                modifiers: token.modifiers,
            },
        )
    };
    let positioned = collect(tokens, place, Ghost(|token: RawToken| placed(index@, token)));
    assert(positioned@ == views(positioned@));
    positioned
}

/// Whether a token begins inside of the last one of a list.
pub open spec fn overlaps_last(tokens: Seq<PositionedToken>, token: PositionedToken) -> bool {
    tokens.len() > 0 && tokens.last().line == token.line && token.start < tokens.last().end
}

/// A list without the tokens that begin inside of the one kept before them.
pub open spec fn apart(tokens: Seq<PositionedToken>) -> Seq<PositionedToken>
    decreases tokens.len(),
{
    if tokens.len() == 0 {
        tokens
    } else {
        let front = apart(tokens.drop_last());
        if overlaps_last(front, tokens.last()) {
            front
        } else {
            front.push(tokens.last())
        }
    }
}

fn drop_overlaps(tokens: &Vec<PositionedToken>) -> (kept: Vec<PositionedToken>)
    ensures
        kept@ == apart(tokens@),
{
    let ghost all = tokens@;
    let mut kept: Vec<PositionedToken> = Vec::new();
    let mut i: usize = 0;
    assert(all.take(0) == Seq::<PositionedToken>::empty());
    while i < tokens.len()
        invariant
            i <= all.len(),
            all == tokens@,
            kept@ == apart(all.take(i as int)),
        decreases all.len() - i,
    {
        assert(all.take(i + 1).drop_last() == all.take(i as int));
        assert(all.take(i + 1).last() == all[i as int]);
        let token = tokens[i];
        let overlaps = kept.len() > 0 && kept[kept.len() - 1].line == token.line && token.start
            < kept[kept.len() - 1].end;
        if !overlaps {
            kept.push(token);
        }
        i += 1;
    }
    assert(all.take(i as int) == all);
    kept
}

/// A token as it is sent: its line and its start counted from those of the token before it.
#[derive(Debug, Clone, Copy, PartialEq, Eq, Structural)]
pub struct SemanticToken {
    pub delta_line: u32,
    pub delta_start: u32,
    pub length: u32,
    pub token_type: u32,
    pub modifiers: u32,
}

/// A token as it is sent behind a token with a line and a start.
pub open spec fn relative(line: u32, start: u32, token: PositionedToken) -> SemanticToken {
    SemanticToken {
        delta_line: (token.line - line) as u32,
        delta_start: if token.line == line {
            (token.start - start) as u32
        } else {
            token.start
        },
        length: (token.end - token.start) as u32,
        token_type: token.token_type,
        modifiers: token.modifiers,
    }
}

/// Tokens as they are sent.
pub open spec fn deltas(tokens: Seq<PositionedToken>) -> Seq<SemanticToken> {
    Seq::new(
        tokens.len(),
        |i: int|
            if i == 0 {
                relative(0, 0, tokens[0])
            } else {
                relative(tokens[i - 1].line, tokens[i - 1].start, tokens[i])
            },
    )
}

/// Whether tokens are on their lines in order and do not overlap.
pub open spec fn in_sequence(tokens: Seq<PositionedToken>) -> bool {
    &&& forall|i: int| 0 <= i < tokens.len() ==> (#[trigger] tokens[i]).start < tokens[i].end
    &&& forall|i: int, j: int|
        0 <= i < j < tokens.len() ==> (#[trigger] tokens[i]).line < (#[trigger] tokens[j]).line || (
        tokens[i].line == tokens[j].line && tokens[i].end <= tokens[j].start)
}

proof fn lemma_placed(text: Seq<char>, tokens: Seq<RawToken>)
    ensures
        forall|i: int|
            0 <= i < placed_tokens(text, tokens).len() ==> (#[trigger] placed_tokens(text, tokens)[i]).start
                < placed_tokens(text, tokens)[i].end,
        forall|i: int|
            0 <= i < placed_tokens(text, tokens).len() ==> exists|k: int|
                0 <= k < tokens.len() && placed(text, #[trigger] tokens[k]) == Some(
                    #[trigger] placed_tokens(text, tokens)[i],
                ),
    decreases tokens.len(),
{
    if tokens.len() > 0 {
        let init = tokens.drop_last();
        lemma_placed(text, init);
        let front = placed_tokens(text, init);
        let all = placed_tokens(text, tokens);
        assert forall|i: int| 0 <= i < all.len() implies exists|k: int|
            0 <= k < tokens.len() && placed(text, #[trigger] tokens[k]) == Some(
                #[trigger] all[i],
            ) by {
            if i < front.len() {
                assert(all[i] == front[i]);
                let k = choose|k: int|
                    0 <= k < init.len() && placed(text, #[trigger] init[k]) == Some(front[i]);
                assert(tokens[k] == init[k]);
            } else {
                assert(placed(text, tokens[tokens.len() - 1]) == Some(all[i]));
            }
        }
        assert forall|i: int| 0 <= i < all.len() implies (#[trigger] all[i]).start < all[i].end by {
            if i < front.len() {
                assert(all[i] == front[i]);
            }
        }
    }
}

proof fn lemma_apart(tokens: Seq<PositionedToken>)
    requires
        in_order(tokens),
        forall|i: int| 0 <= i < tokens.len() ==> (#[trigger] tokens[i]).start < tokens[i].end,
    ensures
        in_sequence(apart(tokens)),
        forall|i: int| 0 <= i < apart(tokens).len() ==> tokens.contains(#[trigger] apart(tokens)[i]),
    decreases tokens.len(),
{
    if tokens.len() > 0 {
        let init = tokens.drop_last();
        let last = tokens.last();
        let front = apart(init);
        let all = apart(tokens);
        assert(in_order(init)) by {
            assert forall|i: int, j: int| 0 <= i < j < init.len() implies !(
            #[trigger] init[j]).before(#[trigger] init[i]) by {
                assert(init[i] == tokens[i] && init[j] == tokens[j]);
            }
        }
        lemma_apart(init);
        assert forall|i: int| 0 <= i < all.len() implies tokens.contains(#[trigger] all[i]) by {
            if i < front.len() {
                assert(all[i] == front[i]);
                assert(init.contains(front[i]));
                let k = choose|k: int| 0 <= k < init.len() && init[k] == front[i];
                assert(tokens[k] == all[i]);
            } else {
                assert(tokens[tokens.len() - 1] == all[i]);
            }
        }
        if front.len() > 0 && !overlaps_last(front, last) {
            assert(init.contains(front.last()));
            let k = choose|k: int| 0 <= k < init.len() && init[k] == front.last();
            assert(!tokens[tokens.len() - 1].before(tokens[k]));
            assert forall|i: int, j: int| 0 <= i < j < all.len() implies (#[trigger] all[i]).line
                < (#[trigger] all[j]).line || (all[i].line == all[j].line && all[i].end
                <= all[j].start) by {
                if j < front.len() {
                    assert(all[i] == front[i] && all[j] == front[j]);
                } else if i < front.len() - 1 {
                    assert(all[i] == front[i]);
                    assert(front[i].line < front[front.len() - 1].line || front[i].end
                        <= front[front.len() - 1].start);
                }
            }
        }
    }
}

/// The tokens of a text in order and apart from each other.
pub open spec fn arranged_tokens(text: Seq<char>, tokens: Seq<RawToken>) -> Seq<PositionedToken> {
    apart(sorted(placed_tokens(text, tokens)))
}

/// The tokens that are sent are in order and do not overlap, and each is the place in the text of
/// a token that was found.
pub proof fn law_tokens_apart(text: Seq<char>, tokens: Seq<RawToken>)
    ensures
        in_sequence(arranged_tokens(text, tokens)),
        forall|i: int|
            0 <= i < arranged_tokens(text, tokens).len() ==> exists|k: int|
                0 <= k < tokens.len() && placed(text, #[trigger] tokens[k]) == Some(
                    #[trigger] arranged_tokens(text, tokens)[i],
                ),
{
    broadcast use vstd::seq_lib::group_to_multiset_ensures;

    let found = placed_tokens(text, tokens);
    let ordered = sorted(found);
    let all = arranged_tokens(text, tokens);
    lemma_placed(text, tokens);
    law_sorted(found);
    assert forall|i: int| 0 <= i < ordered.len() implies found.contains(#[trigger] ordered[i]) by {
        assert(ordered.to_multiset().count(ordered[i]) > 0);
    }
    assert forall|i: int| 0 <= i < ordered.len() implies (#[trigger] ordered[i]).start
        < ordered[i].end by {
        assert(found.contains(ordered[i]));
        let k = choose|k: int| 0 <= k < found.len() && found[k] == ordered[i];
        assert(found[k].start < found[k].end);
    }
    lemma_apart(ordered);
    assert forall|i: int| 0 <= i < all.len() implies exists|k: int|
        0 <= k < tokens.len() && placed(text, #[trigger] tokens[k]) == Some(#[trigger] all[i]) by {
        assert(ordered.contains(all[i]));
        let m = choose|m: int| 0 <= m < ordered.len() && ordered[m] == all[i];
        assert(found.contains(ordered[m]));
        let n = choose|n: int| 0 <= n < found.len() && found[n] == ordered[m];
        let k = choose|k: int|
            0 <= k < tokens.len() && placed(text, #[trigger] tokens[k]) == Some(found[n]);
        assert(placed(text, tokens[k]) == Some(all[i]));
    }
}

/// The tokens that are sent for those of a text.
pub open spec fn encoded(text: Seq<char>, tokens: Seq<RawToken>) -> Seq<SemanticToken> {
    deltas(arranged_tokens(text, tokens))
}

fn encode_deltas(tokens: &Vec<PositionedToken>) -> (data: Vec<SemanticToken>)
    requires
        in_sequence(tokens@),
    ensures
        data@ == deltas(tokens@),
{
    let mut data: Vec<SemanticToken> = Vec::new();
    let mut line: u32 = 0;
    let mut start: u32 = 0;
    let mut i: usize = 0;
    while i < tokens.len()
        invariant
            i <= tokens@.len(),
            in_sequence(tokens@),
            i == 0 ==> line == 0 && start == 0,
            i > 0 ==> line == tokens@[i - 1].line && start == tokens@[i - 1].start,
            data@.len() == i,
            forall|k: int| 0 <= k < i ==> #[trigger] data@[k] == deltas(tokens@)[k],
        decreases tokens@.len() - i,
    {
        let token = tokens[i];
        proof {
            assert(token == tokens@[i as int]);
            if i > 0 {
                assert(tokens@[i - 1].line < tokens@[i as int].line || tokens@[i - 1].end
                    <= tokens@[i as int].start);
                assert(tokens@[i - 1].start < tokens@[i - 1].end);
            }
        }
        let delta_start: u32 = if token.line == line {
            token.start - start
        } else {
            token.start
        };
        data.push(
            SemanticToken {
                delta_line: token.line - line,
                delta_start,
                length: token.end - token.start,
                token_type: token.token_type,
                modifiers: token.modifiers,
            },
        );
        line = token.line;
        start = token.start;
        i += 1;
    }
    assert(data@ == deltas(tokens@));
    data
}

/// Puts the tokens of a text in the form in which they are sent.
pub fn encode_tokens(index: &LineIndexExt, tokens: &Vec<RawToken>) -> (data: Vec<SemanticToken>)
    ensures
        data@ == encoded(index@, tokens@),
{
    proof {
        law_tokens_apart(index@, tokens@);
    }
    encode_deltas(&drop_overlaps(&sort(place_tokens(index, tokens))))
}

/// Computes full-document semantic tokens for one source document.
pub fn handle_semantic_tokens_full(world: &WorldState, analysis: &Analysis, uri: &Url) -> (tokens: Option<
    Vec<SemanticToken>,
>)
    ensures
        match (
            tokens,
            module_facts(world@, analysis.files@, uri@),
            known_text(world@, uri@),
        ) {
            (Some(tokens), Some(facts), Some(text)) => tokens@ == encoded(text, raw_tokens(facts)),
            (Some(_), _, _) => false,
            (None, Some(_), Some(_)) => false,
            (None, _, _) => true,
        },
{
    match (module_for_uri(world, &analysis.files, uri), world.line_index(uri)) {
        (Some(facts), Some(index)) => Some(encode_tokens(index, &collect_tokens(facts))),
        _ => None,
    }
}

/// The lines and characters that a client finds the tokens at.
pub open spec fn decoded(data: Seq<SemanticToken>) -> Seq<PositionedToken>
    decreases data.len(),
{
    if data.len() == 0 {
        Seq::empty()
    } else {
        let front = decoded(data.drop_last());
        let token = data.last();
        let line = if front.len() == 0 {
            token.delta_line as int
        } else {
            front.last().line + token.delta_line
        };
        let start = if front.len() == 0 || token.delta_line != 0 {
            token.delta_start as int
        } else {
            front.last().start + token.delta_start
        };
        front.push(
            PositionedToken {
                line: line as u32,
                start: start as u32,
                end: (start + token.length) as u32,
                token_type: token.token_type,
                modifiers: token.modifiers,
            },
        )
    }
}

proof fn lemma_decoded(tokens: Seq<PositionedToken>)
    requires
        in_sequence(tokens),
    ensures
        decoded(deltas(tokens)) == tokens,
    decreases tokens.len(),
{
    let data = deltas(tokens);
    if tokens.len() == 0 {
        assert(decoded(data) == tokens);
    } else {
        let init = tokens.drop_last();
        assert(in_sequence(init)) by {
            assert forall|i: int| 0 <= i < init.len() implies (#[trigger] init[i]).start
                < init[i].end by {
                assert(init[i] == tokens[i]);
            }
            assert forall|i: int, j: int| 0 <= i < j < init.len() implies (#[trigger] init[i]).line
                < (#[trigger] init[j]).line || (init[i].line == init[j].line && init[i].end
                <= init[j].start) by {
                assert(init[i] == tokens[i] && init[j] == tokens[j]);
            }
        }
        lemma_decoded(init);
        assert(data.drop_last() == deltas(init));
        let last = tokens.last();
        assert(last.start < last.end);
        if init.len() > 0 {
            let previous = tokens[tokens.len() - 2];
            assert(init.last() == previous);
            assert(previous.start < previous.end);
            assert(previous.line < tokens[tokens.len() - 1].line || previous.end
                <= tokens[tokens.len() - 1].start);
            assert(data.last() == relative(previous.line, previous.start, last));
        } else {
            assert(data.last() == relative(0, 0, last));
        }
        assert(decoded(data) == init.push(last));
        assert(init.push(last) == tokens);
    }
}

/// A client finds the tokens that were sent at the places that they were found at.
pub proof fn law_tokens_decode(text: Seq<char>, tokens: Seq<RawToken>)
    ensures
        decoded(encoded(text, tokens)) == arranged_tokens(text, tokens),
{
    law_tokens_apart(text, tokens);
    lemma_decoded(arranged_tokens(text, tokens));
}

/// Whether the legend has the type and the modifiers of all tokens of a list.
pub open spec fn in_legend(tokens: Seq<RawToken>) -> bool {
    forall|i: int|
        0 <= i < tokens.len() ==> (#[trigger] tokens[i]).token_type < legend_types().len()
            && tokens[i].modifiers <= declaration()
}

proof fn lemma_legend_found<T>(items: Seq<T>, f: spec_fn(T) -> Option<RawToken>)
    requires
        forall|x: T| in_legend(listed(#[trigger] f(x))),
    ensures
        in_legend(filter_map(items, f)),
    decreases items.len(),
{
    if items.len() > 0 {
        lemma_legend_found(items.drop_last(), f);
        let token = f(items.last());
        assert(in_legend(listed(token)));
        if token is Some {
            assert(listed(token)[0] == token->0);
        }
    }
}

proof fn lemma_legend_gathered<T>(items: Seq<T>, f: spec_fn(T) -> Seq<RawToken>)
    requires
        forall|x: T| in_legend(#[trigger] f(x)),
    ensures
        in_legend(concat_map(items, f)),
    decreases items.len(),
{
    if items.len() > 0 {
        lemma_legend_gathered(items.drop_last(), f);
        assert(in_legend(f(items.last())));
    }
}

proof fn lemma_legend_signature(file: u32, sig: FuncSig)
    ensures
        in_legend(signature_tokens(file, sig)),
{
    lemma_legend_found(
        sig.type_vars@,
        |var: Name| token_for(file, var.span, TokenKind::Type, declaration()),
    );
    lemma_legend_found(sig.params@, |param: FuncParam| param_token(file, param));
}

proof fn lemma_legend_alias(file: u32, alias: TypeAlias)
    ensures
        in_legend(alias_tokens(file, alias)),
{
    lemma_legend_found(
        alias.params@,
        |var: Name| token_for(file, var.span, TokenKind::Type, declaration()),
    );
}

proof fn lemma_legend_adt(file: u32, adt: AdtDef)
    ensures
        in_legend(adt_tokens(file, adt)),
{
    lemma_legend_found(
        adt.params@,
        |var: Name| token_for(file, var.span, TokenKind::Type, declaration()),
    );
    lemma_legend_found(
        adt.ctors@,
        |ctor: AdtCtor| token_for(file, ctor.name.span, TokenKind::EnumMember, declaration()),
    );
}

proof fn lemma_legend_contract_item(file: u32, item: ContractItem)
    ensures
        in_legend(contract_item_tokens(file, item)),
{
    match item {
        ContractItem::FunctionDef(function) => lemma_legend_signature(file, function.sig),
        ContractItem::TypeAlias(alias) => lemma_legend_alias(file, alias),
        ContractItem::AdtDef(adt) => lemma_legend_adt(file, adt),
        ContractItem::Error { .. } => {},
    }
}

proof fn lemma_legend_item(file: u32, item: Item)
    ensures
        in_legend(item_tokens(file, item)),
{
    match item {
        Item::FunctionDef(function) => lemma_legend_signature(file, function.sig),
        Item::TypeAlias(alias) => lemma_legend_alias(file, alias),
        Item::AdtDef(adt) => lemma_legend_adt(file, adt),
        Item::ClassDef(class) => {
            lemma_legend_found(
                class.type_vars@,
                |var: Name| token_for(file, var.span, TokenKind::Type, declaration()),
            );
            let f = |method: ClassMethod| signature_tokens(file, method.sig);
            assert forall|method: ClassMethod| in_legend(#[trigger] f(method)) by {
                lemma_legend_signature(file, method.sig);
            }
            lemma_legend_gathered(class.methods@, f);
        },
        Item::InstanceDef(instance) => {
            lemma_legend_found(
                instance.type_vars@,
                |var: Name| token_for(file, var.span, TokenKind::Type, declaration()),
            );
            let f = |method: FunctionDef| signature_tokens(file, method.sig);
            assert forall|method: FunctionDef| in_legend(#[trigger] f(method)) by {
                lemma_legend_signature(file, method.sig);
            }
            lemma_legend_gathered(instance.methods@, f);
        },
        Item::ContractDef(contract) => {
            lemma_legend_found(
                contract.params@,
                |var: Name| token_for(file, var.span, TokenKind::Type, declaration()),
            );
            lemma_legend_found(
                contract.fields@,
                |field: FieldDef|
                    token_for(file, field.name.span, TokenKind::Property, declaration()),
            );
            let f = |item: ContractItem| contract_item_tokens(file, item);
            assert forall|item: ContractItem| in_legend(#[trigger] f(item)) by {
                lemma_legend_contract_item(file, item);
            }
            lemma_legend_gathered(contract.items@, f);
        },
        _ => {},
    }
}

proof fn lemma_legend_types(file: u32, types: Seq<TypeEntry>, preds: Seq<PredEntry>)
    ensures
        in_legend(type_tokens(file, types, preds)),
{
    lemma_legend_found(types, |entry: TypeEntry| type_token(file, entry));
    lemma_legend_found(preds, |entry: PredEntry| pred_token(file, entry));
}

proof fn lemma_legend_map(facts: SourceFacts, bodies: Option<BodyFacts>)
    ensures
        in_legend(map_tokens(facts, bodies)),
{
    if let Some(bodies) = bodies {
        lemma_legend_found(bodies.map.exprs@, |entry: ExprEntry| expr_token(facts, entry));
        lemma_legend_found(bodies.map.stmt_bindings@, |entry: StmtEntry| let_token(facts, entry));
        lemma_legend_found(bodies.map.pats@, |entry: PatEntry| pattern_token(facts, entry));
        lemma_legend_types(facts.file, bodies.map.types@, bodies.map.preds@);
    }
}

proof fn lemma_legend_lambdas(file: u32, body: FuncBody)
    ensures
        in_legend(lambda_tokens(file, body)),
    decreases body, 0nat,
{
    lemma_legend_lambdas_in(file, body.exprs@, body.exprs@.len());
}

proof fn lemma_legend_lambdas_in(file: u32, exprs: Seq<Expr>, count: nat)
    ensures
        in_legend(lambda_tokens_in(file, exprs, count)),
    decreases exprs, count,
{
    if 0 < count <= exprs.len() {
        lemma_legend_lambdas_in(file, exprs, (count - 1) as nat);
        lemma_legend_lambda(file, exprs[count - 1]);
    }
}

proof fn lemma_legend_lambda(file: u32, expr: Expr)
    ensures
        in_legend(lambda_tokens_of(file, expr)),
    decreases expr, 0nat,
{
    match expr.kind {
        ExprKind::Lambda { params, body } => {
            lemma_legend_found(params@, |param: FuncParam| param_token(file, param));
            lemma_legend_lambdas(file, body);
        },
        _ => {},
    }
}

/// The tokens that are sent for a file have types and modifiers that the legend has.
pub proof fn law_tokens_in_legend(text: Seq<char>, facts: SourceFacts)
    ensures
        forall|i: int|
            0 <= i < encoded(text, raw_tokens(facts)).len() ==> (#[trigger] encoded(
                text,
                raw_tokens(facts),
            )[i]).token_type < legend_types().len() && encoded(
                text,
                raw_tokens(facts),
            )[i].modifiers <= declaration(),
{
    let tokens = raw_tokens(facts);
    let f = |item: Item| item_tokens(facts.file, item);
    assert forall|item: Item| in_legend(#[trigger] f(item)) by {
        lemma_legend_item(facts.file, item);
    }
    lemma_legend_gathered(facts.module.items@, f);
    lemma_legend_types(facts.file, facts.item_facts.types@, facts.item_facts.preds@);
    let g = |context: FunctionAtOffset<'_>| function_tokens(facts, context);
    assert forall|context: FunctionAtOffset<'_>| in_legend(#[trigger] g(context)) by {
        lemma_legend_map(facts, map_of(facts, context.root_body.id));
        lemma_legend_lambdas(facts.file, *context.root_body);
    }
    lemma_legend_gathered(contexts(&facts.module, facts.module.items@.len()), g);
    assert(in_legend(tokens));
    law_tokens_apart(text, tokens);
    let all = arranged_tokens(text, tokens);
    let data = encoded(text, tokens);
    assert forall|i: int| 0 <= i < data.len() implies (#[trigger] data[i]).token_type
        < legend_types().len() && data[i].modifiers <= declaration() by {
        let k = choose|k: int|
            0 <= k < tokens.len() && placed(text, #[trigger] tokens[k]) == Some(all[i]);
        assert(tokens[k].token_type < legend_types().len());
    }
}

} // verus!
