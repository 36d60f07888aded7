//! Completion support.
use vstd::prelude::*;
use vstd::utf8::is_char_boundary;

use crate::analysis::{
    body_resolution_map, find_pat, find_stmt, known_text, locate_request, map_of, pat_of, requested,
    stmt_of,
};
use crate::hir::{
    Analysis, BodyFacts, BuiltinKind, ContractItem, ContractScope, DefId, DefResolutionKind,
    FieldEntry, FuncParam, ImportedName, Item, ItemScopeFacts, LocalBinding, Module, ModuleEnv,
    Name, Namespace, PatEntry, PatKind, Resolution, ScopeEntry, SourceFacts, StmtEntry, StmtKind,
};
use crate::line_index::{char_index, cut};
use crate::protocol::{CompletionItem, CompletionItemKind, CompletionParts, Position};
use crate::rank::{in_rank, law_ranked, rank, ranked, Ranked};
use crate::resolve::{function_owning_offset, owner_at, FunctionAtOffset};
use crate::seqs::{
    any, collect, filter_map, find, find_map, first, first_where, has_any, join, or_else, pointee,
    seen, views,
};
use crate::state::WorldState;
use crate::text::{
    alphabetic, alphanumeric, from_chars, has_prefix, parts_between, split_chars, starts_with, str_eq,
    text_less, text_lt, to_chars, utf8,
};
use crate::text::{lemma_text_lt_irreflexive, lemma_text_lt_total, lemma_text_lt_transitive};
use crate::url::Url;

verus! {

/// The words of the language.
pub open spec fn keywords() -> Seq<Seq<char>> {
    seq![
        "contract"@,
        "import"@,
        "export"@,
        "as"@,
        "let"@,
        "data"@,
        "class"@,
        "forall"@,
        "instance"@,
        "if"@,
        "else"@,
        "for"@,
        "switch"@,
        "type"@,
        "case"@,
        "default"@,
        "match"@,
        "public"@,
        "payable"@,
        "function"@,
        "constructor"@,
        "fallback"@,
        "return"@,
        "leave"@,
        "continue"@,
        "break"@,
        "lam"@,
        "assembly"@,
        "pragma"@,
        "true"@,
        "false"@,
    ]
}

fn keyword_list() -> (words: Vec<&'static str>)
    ensures
        views(words@) == keywords(),
{
    let words: Vec<&'static str> = vec![
        "contract",
        "import",
        "export",
        "as",
        "let",
        "data",
        "class",
        "forall",
        "instance",
        "if",
        "else",
        "for",
        "switch",
        "type",
        "case",
        "default",
        "match",
        "public",
        "payable",
        "function",
        "constructor",
        "fallback",
        "return",
        "leave",
        "continue",
        "break",
        "lam",
        "assembly",
        "pragma",
        "true",
        "false",
    ];
    assert(views(words@) == keywords());
    words
}

/// A path that is being written: the names in front of its last dot, and the beginning of the
/// name behind it.
pub struct QualifiedCompletionContext {
    pub qualifier: String,
    pub member_prefix: String,
}

pub struct ContextParts {
    pub qualifier: Seq<char>,
    pub member_prefix: Seq<char>,
}

impl View for QualifiedCompletionContext {
    type V = ContextParts;

    open spec fn view(&self) -> ContextParts {
        ContextParts { qualifier: self.qualifier@, member_prefix: self.member_prefix@ }
    }
}

/// Whether a character can stand in a path.
pub open spec fn path_char(c: char) -> bool {
    c == '.' || c == '-' || c == '_' || alphanumeric(c)
}

pub fn is_qualified_path_char(c: char) -> (found: bool)
    ensures
        found == path_char(c),
{
    c == '.' || c == '-' || c == '_' || c.is_alphanumeric()
}

/// Whether a text is a letter followed by letters, digits and underscores.
pub open spec fn identifier_chunk(text: Seq<char>) -> bool {
    text.len() > 0 && alphabetic(text[0]) && forall|i: int|
        1 <= i < text.len() ==> #[trigger] text[i] == '_' || alphanumeric(text[i])
}

pub fn is_identifier_chunk(text: &str) -> (found: bool)
    ensures
        found == identifier_chunk(text@),
{
    let chars = to_chars(text);
    if chars.len() == 0 || !chars[0].is_alphabetic() {
        return false;
    }
    let mut i: usize = 1;
    while i < chars.len()
        invariant
            1 <= i <= chars@.len(),
            chars@ == text@,
            forall|k: int| 1 <= k < i ==> #[trigger] chars@[k] == '_' || alphanumeric(chars@[k]),
        decreases chars@.len() - i,
    {
        if chars[i] != '_' && !chars[i].is_alphanumeric() {
            assert(!(text@[i as int] == '_' || alphanumeric(text@[i as int])));
            return false;
        }
        i += 1;
    }
    true
}

/// Whether a text is an identifier: chunks joined by hyphens.
pub open spec fn identifier(text: Seq<char>) -> bool {
    forall|i: int|
        0 <= i < parts_between(text, '-').len() ==> identifier_chunk(
            #[trigger] parts_between(text, '-')[i],
        )
}

pub fn is_identifier(text: &str) -> (found: bool)
    ensures
        found == identifier(text@),
{
    let chars = to_chars(text);
    let parts = split_chars(chars.as_slice(), 0, '-');
    assert(chars@.skip(0) == text@);
    let mut i: usize = 0;
    while i < parts.len()
        invariant
            i <= parts@.len(),
            parts@.len() == parts_between(text@, '-').len(),
            forall|k: int| 0 <= k < parts@.len() ==> (#[trigger] parts@[k])@ == parts_between(text@, '-')[k],
            forall|k: int| 0 <= k < i ==> identifier_chunk(#[trigger] parts_between(text@, '-')[k]),
        decreases parts@.len() - i,
    {
        if !is_identifier_chunk(parts[i].as_str()) {
            assert(!identifier_chunk(parts_between(text@, '-')[i as int]));
            return false;
        }
        i += 1;
    }
    true
}

/// Whether a text is identifiers joined by dots.
pub open spec fn identifier_path(text: Seq<char>) -> bool {
    forall|i: int|
        0 <= i < parts_between(text, '.').len() ==> identifier(
            #[trigger] parts_between(text, '.')[i],
        )
}

fn is_identifier_path(text: &str) -> (found: bool)
    ensures
        found == identifier_path(text@),
{
    let chars = to_chars(text);
    let parts = split_chars(chars.as_slice(), 0, '.');
    assert(chars@.skip(0) == text@);
    let mut i: usize = 0;
    while i < parts.len()
        invariant
            i <= parts@.len(),
            parts@.len() == parts_between(text@, '.').len(),
            forall|k: int| 0 <= k < parts@.len() ==> (#[trigger] parts@[k])@ == parts_between(text@, '.')[k],
            forall|k: int| 0 <= k < i ==> identifier(#[trigger] parts_between(text@, '.')[k]),
        decreases parts@.len() - i,
    {
        if !is_identifier(parts[i].as_str()) {
            assert(!identifier(parts_between(text@, '.')[i as int]));
            return false;
        }
        i += 1;
    }
    true
}

/// The index at which the path that ends at an index begins.
pub open spec fn path_start(text: Seq<char>, k: int) -> int
    decreases k,
{
    if 0 < k <= text.len() && path_char(text[k - 1]) {
        path_start(text, k - 1)
    } else {
        k
    }
}

/// The index of the last dot in front of an index.
pub open spec fn last_dot(text: Seq<char>, start: int, k: int) -> Option<int>
    decreases k,
{
    if 0 <= start < k <= text.len() {
        if text[k - 1] == '.' {
            Some(k - 1)
        } else {
            last_dot(text, start, k - 1)
        }
    } else {
        None
    }
}

/// The path in front of an index.
pub open spec fn path_before(text: Seq<char>, k: int) -> Option<ContextParts> {
    match last_dot(text, path_start(text, k), k) {
        Some(dot) => {
            let qualifier = text.subrange(path_start(text, k), dot);
            let member_prefix = text.subrange(dot + 1, k);
            if qualifier.len() > 0 && identifier_path(qualifier) && (member_prefix.len() == 0
                || identifier(member_prefix)) {
                Some(ContextParts { qualifier, member_prefix })
            } else {
                None
            }
        },
        None => None,
    }
}

/// The path in front of an offset.
pub open spec fn path_context(text: Seq<char>, offset: u32) -> Option<ContextParts> {
    if offset > utf8(text).len() || !is_char_boundary(utf8(text), offset as int) {
        None
    } else {
        path_before(text, char_index(text, offset as int))
    }
}

/// Returns the path that is being written in front of an offset.
pub fn qualified_completion_context(text: &str, offset: u32) -> (context: Option<
    QualifiedCompletionContext,
>)
    ensures
        seen(context) == path_context(text@, offset),
{
    if offset as usize > text.as_bytes().len() || !text.is_char_boundary(offset as usize) {
        return None;
    }
    let (before, _, _) = cut(text, offset, offset);
    let chars = to_chars(text);
    let k: usize = to_chars(before).len();
    assert(k == char_index(text@, offset as int));
    let mut start: usize = k;
    while start > 0 && is_qualified_path_char(chars[start - 1])
        invariant
            start <= k <= chars@.len(),
            path_start(chars@, start as int) == path_start(chars@, k as int),
        decreases start,
    {
        start -= 1;
    }
    let mut dot: usize = k;
    while dot > start && chars[dot - 1] != '.'
        invariant
            start <= dot <= k <= chars@.len(),
            last_dot(chars@, start as int, dot as int) == last_dot(
                chars@,
                start as int,
                k as int,
            ),
        decreases dot,
    {
        dot -= 1;
    }
    if dot <= start || dot - start == 1 {
        return None;
    }
    let qualifier = from_chars(chars.as_slice(), start, dot - 1);
    let member_prefix = from_chars(chars.as_slice(), dot, k);
    if is_identifier_path(qualifier.as_str()) && (dot == k || is_identifier(
        member_prefix.as_str(),
    )) {
        Some(QualifiedCompletionContext { qualifier, member_prefix })
    } else {
        None
    }
}

/// The name behind a qualifier, where it begins as it is being written.
pub open spec fn member_of(name: Seq<char>, context: ContextParts) -> Option<Seq<char>> {
    let skipped = context.qualifier.len() as int + 1;
    if has_prefix(name, context.qualifier.push('.')) {
        let rest = name.skip(skipped);
        if rest.len() > 0 && !rest.contains('.') && has_prefix(rest, context.member_prefix) {
            Some(rest)
        } else {
            None
        }
    } else {
        None
    }
}

pub fn direct_qualified_member(name: &str, context: &QualifiedCompletionContext) -> (member: Option<
    String,
>)
    ensures
        seen(member) == member_of(name@, context@),
{
    let chars = to_chars(name);
    let mut head = to_chars(context.qualifier.as_str());
    head.push('.');
    let first: usize = head.len();
    if !starts_with(chars.as_slice(), head.as_slice()) || first >= chars.len() {
        return None;
    }
    let ghost rest = name@.skip(first as int);
    let mut i: usize = first;
    while i < chars.len()
        invariant
            first <= i <= chars@.len(),
            chars@ == name@,
            first == context.qualifier@.len() + 1,
            rest == name@.skip(first as int),
            forall|k: int| first <= k < i ==> chars@[k] != '.',
        decreases chars@.len() - i,
    {
        if chars[i] == '.' {
            assert(rest[i - first] == '.');
            assert(rest.contains('.'));
            return None;
        }
        i += 1;
    }
    assert(!rest.contains('.')) by {
        if rest.contains('.') {
            let k = choose|k: int| 0 <= k < rest.len() && rest[k] == '.';
            assert(chars@[k + first] == '.');
        }
    }
    let member = from_chars(chars.as_slice(), first, chars.len());
    assert(member@ == rest);
    let tail = to_chars(member.as_str());
    let prefix = to_chars(context.member_prefix.as_str());
    if starts_with(tail.as_slice(), prefix.as_slice()) {
        Some(member)
    } else {
        None
    }
}

pub open spec fn kind_of_namespace(namespace: Namespace) -> CompletionItemKind {
    match namespace {
        Namespace::Type => CompletionItemKind::Struct,
        Namespace::Term => CompletionItemKind::Value,
        Namespace::Field => CompletionItemKind::Field,
        Namespace::Module => CompletionItemKind::Module,
    }
}

fn completion_kind_for_namespace(namespace: Namespace) -> (kind: CompletionItemKind)
    ensures
        kind == kind_of_namespace(namespace),
{
    match namespace {
        Namespace::Type => CompletionItemKind::Struct,
        Namespace::Term => CompletionItemKind::Value,
        Namespace::Field => CompletionItemKind::Field,
        Namespace::Module => CompletionItemKind::Module,
    }
}

pub open spec fn detail_of_namespace(namespace: Namespace) -> Seq<char> {
    match namespace {
        Namespace::Type => "type"@,
        Namespace::Term => "term"@,
        Namespace::Field => "field"@,
        Namespace::Module => "module"@,
    }
}

fn detail_for_namespace(namespace: Namespace) -> (detail: &'static str)
    ensures
        detail@ == detail_of_namespace(namespace),
{
    match namespace {
        Namespace::Type => "type",
        Namespace::Term => "term",
        Namespace::Field => "field",
        Namespace::Module => "module",
    }
}

pub open spec fn kind_of_resolution(resolution: Resolution) -> CompletionItemKind {
    match resolution {
        Resolution::Def { kind, .. } => match kind {
            DefResolutionKind::Function => CompletionItemKind::Function,
            DefResolutionKind::Contract => CompletionItemKind::Class,
            DefResolutionKind::Adt => CompletionItemKind::Enum,
            DefResolutionKind::TypeAlias => CompletionItemKind::Struct,
            DefResolutionKind::Class => CompletionItemKind::Interface,
            DefResolutionKind::Instance => CompletionItemKind::Class,
        },
        Resolution::Ctor { .. } => CompletionItemKind::Constructor,
        Resolution::Local(LocalBinding::TypeVar { .. }) => CompletionItemKind::TypeParameter,
        Resolution::Local(_) => CompletionItemKind::Variable,
        Resolution::Param(_) => CompletionItemKind::Variable,
        Resolution::Field(_) => CompletionItemKind::Field,
        Resolution::ClassMethod { .. } => CompletionItemKind::Method,
        Resolution::Module { .. } => CompletionItemKind::Module,
        Resolution::Builtin(kind) => match kind {
            BuiltinKind::Type => CompletionItemKind::Struct,
            BuiltinKind::Class => CompletionItemKind::Interface,
            BuiltinKind::Constructor(_) => CompletionItemKind::Constructor,
            BuiltinKind::Function(_) => CompletionItemKind::Function,
            BuiltinKind::ClassMethod(_) => CompletionItemKind::Method,
        },
        Resolution::DotCtorDeferred => CompletionItemKind::Text,
        Resolution::Unresolved => CompletionItemKind::Text,
    }
}

pub fn completion_kind_for_resolution(resolution: &Resolution) -> (kind: CompletionItemKind)
    ensures
        kind == kind_of_resolution(*resolution),
{
    match resolution {
        Resolution::Def { def: _, kind } => match kind {
            DefResolutionKind::Function => CompletionItemKind::Function,
            DefResolutionKind::Contract => CompletionItemKind::Class,
            DefResolutionKind::Adt => CompletionItemKind::Enum,
            DefResolutionKind::TypeAlias => CompletionItemKind::Struct,
            DefResolutionKind::Class => CompletionItemKind::Interface,
            DefResolutionKind::Instance => CompletionItemKind::Class,
        },
        Resolution::Ctor { .. } => CompletionItemKind::Constructor,
        Resolution::Local(LocalBinding::TypeVar { .. }) => CompletionItemKind::TypeParameter,
        Resolution::Local(_) => CompletionItemKind::Variable,
        Resolution::Param(_) => CompletionItemKind::Variable,
        Resolution::Field(_) => CompletionItemKind::Field,
        Resolution::ClassMethod { .. } => CompletionItemKind::Method,
        Resolution::Module { .. } => CompletionItemKind::Module,
        Resolution::Builtin(kind) => match kind {
            BuiltinKind::Type => CompletionItemKind::Struct,
            BuiltinKind::Class => CompletionItemKind::Interface,
            BuiltinKind::Constructor(_) => CompletionItemKind::Constructor,
            BuiltinKind::Function(_) => CompletionItemKind::Function,
            BuiltinKind::ClassMethod(_) => CompletionItemKind::Method,
        },
        Resolution::DotCtorDeferred => CompletionItemKind::Text,
        Resolution::Unresolved => CompletionItemKind::Text,
    }
}

pub open spec fn detail_of_resolution(resolution: Resolution) -> Seq<char> {
    match resolution {
        Resolution::Def { kind, .. } => match kind {
            DefResolutionKind::Function => "function"@,
            DefResolutionKind::Contract => "contract"@,
            DefResolutionKind::Adt => "data"@,
            DefResolutionKind::TypeAlias => "type alias"@,
            DefResolutionKind::Class => "class"@,
            DefResolutionKind::Instance => "instance"@,
        },
        Resolution::Ctor { .. } => "constructor"@,
        Resolution::Local(LocalBinding::TypeVar { .. }) => "type parameter"@,
        Resolution::Local(_) => "local"@,
        Resolution::Param(_) => "parameter"@,
        Resolution::Field(_) => "field"@,
        Resolution::ClassMethod { .. } => "class method"@,
        Resolution::Module { .. } => "module"@,
        Resolution::Builtin(kind) => match kind {
            BuiltinKind::Type => "builtin type"@,
            BuiltinKind::Class => "builtin class"@,
            BuiltinKind::Constructor(_) => "builtin constructor"@,
            BuiltinKind::Function(_) => "builtin function"@,
            BuiltinKind::ClassMethod(_) => "builtin class method"@,
        },
        Resolution::DotCtorDeferred => "constructor"@,
        Resolution::Unresolved => "unresolved"@,
    }
}

pub fn detail_for_resolution(resolution: &Resolution) -> (detail: &'static str)
    ensures
        detail@ == detail_of_resolution(*resolution),
{
    match resolution {
        Resolution::Def { def: _, kind } => match kind {
            DefResolutionKind::Function => "function",
            DefResolutionKind::Contract => "contract",
            DefResolutionKind::Adt => "data",
            DefResolutionKind::TypeAlias => "type alias",
            DefResolutionKind::Class => "class",
            DefResolutionKind::Instance => "instance",
        },
        Resolution::Ctor { .. } => "constructor",
        Resolution::Local(LocalBinding::TypeVar { .. }) => "type parameter",
        Resolution::Local(_) => "local",
        Resolution::Param(_) => "parameter",
        Resolution::Field(_) => "field",
        Resolution::ClassMethod { .. } => "class method",
        Resolution::Module { .. } => "module",
        Resolution::Builtin(kind) => match kind {
            BuiltinKind::Type => "builtin type",
            BuiltinKind::Class => "builtin class",
            BuiltinKind::Constructor(_) => "builtin constructor",
            BuiltinKind::Function(_) => "builtin function",
            BuiltinKind::ClassMethod(_) => "builtin class method",
        },
        Resolution::DotCtorDeferred => "constructor",
        Resolution::Unresolved => "unresolved",
    }
}

/// The place of a kind among the items with one label.
pub open spec fn rank_of(kind: CompletionItemKind) -> int {
    match kind {
        CompletionItemKind::Keyword => 0,
        CompletionItemKind::Function => 1,
        CompletionItemKind::Method => 2,
        CompletionItemKind::Constructor => 3,
        CompletionItemKind::Variable => 4,
        CompletionItemKind::Field => 5,
        CompletionItemKind::Enum => 6,
        CompletionItemKind::Struct => 7,
        CompletionItemKind::Class => 8,
        CompletionItemKind::Interface => 9,
        CompletionItemKind::Module => 10,
        CompletionItemKind::TypeParameter => 11,
        CompletionItemKind::Text => 100,
        CompletionItemKind::Value => 100,
    }
}

pub fn kind_rank(kind: CompletionItemKind) -> (rank: u8)
    ensures
        rank == rank_of(kind),
{
    match kind {
        CompletionItemKind::Keyword => 0,
        CompletionItemKind::Function => 1,
        CompletionItemKind::Method => 2,
        CompletionItemKind::Constructor => 3,
        CompletionItemKind::Variable => 4,
        CompletionItemKind::Field => 5,
        CompletionItemKind::Enum => 6,
        CompletionItemKind::Struct => 7,
        CompletionItemKind::Class => 8,
        CompletionItemKind::Interface => 9,
        CompletionItemKind::Module => 10,
        CompletionItemKind::TypeParameter => 11,
        CompletionItemKind::Text => 100,
        CompletionItemKind::Value => 100,
    }
}

/// Whether an item is listed before another: by its label, then by its kind.
pub open spec fn completion_before(a: CompletionParts, b: CompletionParts) -> bool {
    text_lt(a.label, b.label) || (a.label == b.label && rank_of(a.kind) < rank_of(b.kind))
}

impl Ranked for CompletionItem {
    open spec fn before(a: CompletionParts, b: CompletionParts) -> bool {
        completion_before(a, b)
    }

    fn is_before(&self, other: &Self) -> (before: bool) {
        text_less(self.label.as_str(), other.label.as_str()) || (str_eq(
            self.label.as_str(),
            other.label.as_str(),
        ) && kind_rank(self.kind) < kind_rank(other.kind))
    }

    proof fn lemma_asymmetric(a: CompletionParts, b: CompletionParts) {
        lemma_text_lt_irreflexive(a.label);
        if text_lt(a.label, b.label) && text_lt(b.label, a.label) {
            lemma_text_lt_transitive(a.label, b.label, a.label);
        }
    }

    proof fn lemma_not_behind(a: CompletionParts, b: CompletionParts, c: CompletionParts) {
        lemma_text_lt_irreflexive(a.label);
        lemma_text_lt_total(a.label, b.label);
        lemma_text_lt_total(b.label, c.label);
        lemma_text_lt_total(a.label, c.label);
        if text_lt(a.label, b.label) && text_lt(b.label, c.label) {
            lemma_text_lt_transitive(a.label, b.label, c.label);
        }
        if text_lt(c.label, a.label) && text_lt(a.label, b.label) {
            lemma_text_lt_transitive(c.label, a.label, b.label);
            lemma_text_lt_irreflexive(b.label);
        }
        if text_lt(c.label, a.label) && text_lt(b.label, c.label) {
            lemma_text_lt_transitive(b.label, c.label, a.label);
        }
    }
}

/// Whether two items have one label and one kind.
pub open spec fn same_completion(a: CompletionParts, b: CompletionParts) -> bool {
    a.label == b.label && a.kind == b.kind
}

/// Whether a list has an item with the label and the kind of an item.
pub open spec fn has_completion(list: Seq<CompletionParts>, item: CompletionParts) -> bool {
    exists|i: int| 0 <= i < list.len() && same_completion(#[trigger] list[i], item)
}

/// A list with the first of the items that have one label and one kind.
pub open spec fn without_repeats(list: Seq<CompletionParts>) -> Seq<CompletionParts>
    decreases list.len(),
{
    if list.len() == 0 {
        list
    } else {
        let front = without_repeats(list.drop_last());
        if has_completion(front, list.last()) {
            front
        } else {
            front.push(list.last())
        }
    }
}

fn add_completion(items: &mut Vec<CompletionItem>, item: CompletionItem)
    ensures
        views(final(items)@) == if has_completion(views(old(items)@), item@) {
            views(old(items)@)
        } else {
            views(old(items)@).push(item@)
        },
{
    let ghost before = views(items@);
    let same = |other: &CompletionItem| -> (same: bool)
        ensures
            same == same_completion(other@, item@),
    {
        other.kind == item.kind && str_eq(other.label.as_str(), item.label.as_str())
    };
    let found = has_any(
        items,
        same,
        Ghost(|other: CompletionItem| same_completion(other@, item@)),
    );
    assert(found == has_completion(before, item@)) by {
        if found {
            let i = choose|i: int| 0 <= i < items@.len() && same_completion(items@[i]@, item@);
            assert(same_completion(before[i], item@));
        }
        if has_completion(before, item@) {
            let i = choose|i: int| 0 <= i < before.len() && same_completion(before[i], item@);
            assert(same_completion(items@[i]@, item@));
        }
    }
    if !found {
        let ghost model = item@;
        items.push(item);
        assert(views(items@) == before.push(model));
    }
}

/// The items in order, without repeated ones.
pub open spec fn arranged(list: Seq<CompletionParts>) -> Seq<CompletionParts> {
    ranked::<CompletionItem>(without_repeats(list))
}

fn copy_item(item: &CompletionItem) -> (copy: CompletionItem)
    ensures
        copy@ == item@,
{
    CompletionItem { label: item.label.clone(), kind: item.kind, detail: item.detail.clone() }
}

/// Arranges the items that were found.
pub fn finish(list: &Vec<CompletionItem>) -> (items: Vec<CompletionItem>)
    ensures
        views(items@) == arranged(views(list@)),
{
    let ghost all = views(list@);
    let mut items: Vec<CompletionItem> = Vec::new();
    let mut i: usize = 0;
    assert(views(items@) == Seq::<CompletionParts>::empty());
    assert(all.take(0) == Seq::<CompletionParts>::empty());
    while i < list.len()
        invariant
            i <= list@.len(),
            all == views(list@),
            views(items@) == without_repeats(all.take(i as int)),
        decreases list@.len() - i,
    {
        assert(all.take(i + 1).drop_last() == all.take(i as int));
        assert(all.take(i + 1).last() == list@[i as int]@);
        add_completion(&mut items, copy_item(&list[i]));
        i += 1;
    }
    assert(all.take(i as int) == all);
    rank(items)
}

fn new_item(label: &str, kind: CompletionItemKind, detail: &str) -> (item: CompletionItem)
    ensures
        item@ == (CompletionParts { label: label@, kind, detail: detail@ }),
{
    CompletionItem { label: label.to_owned(), kind, detail: detail.to_owned() }
}

pub open spec fn keyword_item(word: Seq<char>) -> CompletionParts {
    CompletionParts { label: word, kind: CompletionItemKind::Keyword, detail: "keyword"@ }
}

pub open spec fn keyword_items() -> Seq<CompletionParts> {
    filter_map(keywords(), |word: Seq<char>| Some(keyword_item(word)))
}

fn keyword_completions() -> (items: Vec<CompletionItem>)
    ensures
        views(items@) == keyword_items(),
{
    let words = keyword_list();
    let ghost all = keywords();
    let ghost f = |word: Seq<char>| Some(keyword_item(word));
    let mut items: Vec<CompletionItem> = Vec::new();
    let mut i: usize = 0;
    assert(views(items@) == Seq::<CompletionParts>::empty());
    assert(all.take(0) == Seq::<Seq<char>>::empty());
    while i < words.len()
        invariant
            i <= words@.len(),
            views(words@) == all,
            f == |word: Seq<char>| Some(keyword_item(word)),
            views(items@) == filter_map(all.take(i as int), f),
        decreases words@.len() - i,
    {
        let ghost before = views(items@);
        assert(all.take(i + 1).drop_last() == all.take(i as int));
        assert(all.take(i + 1).last() == words@[i as int]@);
        items.push(new_item(words[i], CompletionItemKind::Keyword, "keyword"));
        assert(views(items@) == before.push(keyword_item(all[i as int])));
        i += 1;
    }
    assert(all.take(i as int) == all);
    items
}

/// The item of a name that a scope declares.
pub open spec fn entry_item(entry: ScopeEntry) -> CompletionParts {
    CompletionParts {
        label: entry.name@,
        kind: kind_of_resolution(entry.resolution),
        detail: detail_of_resolution(entry.resolution),
    }
}

pub open spec fn entry_items(entries: Seq<ScopeEntry>) -> Seq<CompletionParts> {
    filter_map(entries, |entry: ScopeEntry| Some(entry_item(entry)))
}

fn scope_entry_completions(entries: &Vec<ScopeEntry>) -> (items: Vec<CompletionItem>)
    ensures
        views(items@) == entry_items(entries@),
{
    let item = |entry: &ScopeEntry| -> (item: Option<CompletionItem>)
        ensures
            seen(item) == Some(entry_item(*entry)),
    {
        Some(
            new_item(
                entry.name.as_str(),
                completion_kind_for_resolution(&entry.resolution),
                detail_for_resolution(&entry.resolution),
            ),
        )
    };
    collect(entries, item, Ghost(|entry: ScopeEntry| Some(entry_item(entry))))
}

/// The items of what a module declares.
pub open spec fn scope_items(scope: ItemScopeFacts) -> Seq<CompletionParts> {
    entry_items(scope.terms@) + entry_items(scope.types@) + entry_items(scope.modules@)
}

fn item_scope_completions(scope: &ItemScopeFacts) -> (items: Vec<CompletionItem>)
    ensures
        views(items@) == scope_items(*scope),
{
    let terms = scope_entry_completions(&scope.terms);
    let types = scope_entry_completions(&scope.types);
    let modules = scope_entry_completions(&scope.modules);
    join(join(terms, types), modules)
}

/// The item of an imported name, shown by a label.
pub open spec fn imported_item(imported: ImportedName, label: Seq<char>) -> CompletionParts {
    match imported.resolution {
        Some(resolution) => CompletionParts {
            label,
            kind: kind_of_resolution(resolution),
            detail: detail_of_resolution(resolution),
        },
        None => CompletionParts {
            label,
            kind: kind_of_namespace(imported.namespace),
            detail: detail_of_namespace(imported.namespace),
        },
    }
}

fn imported_completion(imported: &ImportedName, label: &str) -> (item: CompletionItem)
    ensures
        item@ == imported_item(*imported, label@),
{
    match &imported.resolution {
        Some(resolution) => new_item(
            label,
            completion_kind_for_resolution(resolution),
            detail_for_resolution(resolution),
        ),
        None => new_item(
            label,
            completion_kind_for_namespace(imported.namespace),
            detail_for_namespace(imported.namespace),
        ),
    }
}

pub open spec fn imported_in(imported: ImportedName, namespace: Namespace) -> Option<CompletionParts> {
    if imported.namespace == namespace {
        Some(imported_item(imported, imported.name@))
    } else {
        None
    }
}

/// The items of the imported names of a namespace.
pub open spec fn namespace_items(env: ModuleEnv, namespace: Namespace) -> Seq<CompletionParts> {
    filter_map(env.names@, |imported: ImportedName| imported_in(imported, namespace))
}

fn namespace_completions(env: &ModuleEnv, namespace: Namespace) -> (items: Vec<CompletionItem>)
    ensures
        views(items@) == namespace_items(*env, namespace),
{
    let item = |imported: &ImportedName| -> (item: Option<CompletionItem>)
        ensures
            seen(item) == imported_in(*imported, namespace),
    {
        if imported.namespace == namespace {
            Some(imported_completion(imported, imported.name.as_str()))
        } else {
            None
        }
    };
    collect(
        &env.names,
        item,
        Ghost(|imported: ImportedName| imported_in(imported, namespace)),
    )
}

/// The items of what a module imports.
pub open spec fn import_items(env: ModuleEnv) -> Seq<CompletionParts> {
    namespace_items(env, Namespace::Term) + namespace_items(env, Namespace::Type)
        + namespace_items(env, Namespace::Module)
}

fn imported_completions(env: &ModuleEnv) -> (items: Vec<CompletionItem>)
    ensures
        views(items@) == import_items(*env),
{
    let terms = namespace_completions(env, Namespace::Term);
    let types = namespace_completions(env, Namespace::Type);
    let modules = namespace_completions(env, Namespace::Module);
    join(join(terms, types), modules)
}

/// The item of a name of a scope that is the member being written.
pub open spec fn entry_member(entry: ScopeEntry, context: ContextParts) -> Option<CompletionParts> {
    match member_of(entry.name@, context) {
        Some(label) => Some(
            CompletionParts {
                label,
                kind: kind_of_resolution(entry.resolution),
                detail: detail_of_resolution(entry.resolution),
            },
        ),
        None => None,
    }
}

pub open spec fn entry_members(entries: Seq<ScopeEntry>, context: ContextParts) -> Seq<CompletionParts> {
    filter_map(entries, |entry: ScopeEntry| entry_member(entry, context))
}

fn qualified_scope_entries(entries: &Vec<ScopeEntry>, context: &QualifiedCompletionContext) -> (items:
    Vec<CompletionItem>)
    ensures
        views(items@) == entry_members(entries@, context@),
{
    let item = |entry: &ScopeEntry| -> (item: Option<CompletionItem>)
        ensures
            seen(item) == entry_member(*entry, context@),
    {
        match direct_qualified_member(entry.name.as_str(), context) {
            Some(label) => Some(
                new_item(
                    label.as_str(),
                    completion_kind_for_resolution(&entry.resolution),
                    detail_for_resolution(&entry.resolution),
                ),
            ),
            None => None,
        }
    };
    collect(entries, item, Ghost(|entry: ScopeEntry| entry_member(entry, context@)))
}

/// The item of an imported name that is the member being written.
pub open spec fn imported_member(
    imported: ImportedName,
    namespace: Namespace,
    context: ContextParts,
) -> Option<CompletionParts> {
    match member_of(imported.name@, context) {
        Some(label) => if imported.namespace == namespace {
            Some(imported_item(imported, label))
        } else {
            None
        },
        None => None,
    }
}

pub open spec fn imported_members(env: ModuleEnv, namespace: Namespace, context: ContextParts) -> Seq<
    CompletionParts,
> {
    filter_map(
        env.names@,
        |imported: ImportedName| imported_member(imported, namespace, context),
    )
}

fn qualified_imports(
    env: &ModuleEnv,
    namespace: Namespace,
    context: &QualifiedCompletionContext,
) -> (items: Vec<CompletionItem>)
    ensures
        views(items@) == imported_members(*env, namespace, context@),
{
    let item = |imported: &ImportedName| -> (item: Option<CompletionItem>)
        ensures
            seen(item) == imported_member(*imported, namespace, context@),
    {
        if imported.namespace != namespace {
            return None;
        }
        match direct_qualified_member(imported.name.as_str(), context) {
            Some(label) => Some(imported_completion(imported, label.as_str())),
            None => None,
        }
    };
    collect(
        &env.names,
        item,
        Ghost(|imported: ImportedName| imported_member(imported, namespace, context@)),
    )
}

/// The names that a contract declares.
pub open spec fn scope_of_contract(scope: ItemScopeFacts, contract: Option<DefId>) -> Option<
    ContractScope,
> {
    match contract {
        Some(def) => find(scope.contracts@, |contract: ContractScope| contract.contract == def),
        None => None,
    }
}

fn contract_scope(scope: &ItemScopeFacts, contract: Option<DefId>) -> (found: Option<
    &ContractScope,
>)
    ensures
        pointee(found) == scope_of_contract(*scope, contract),
{
    let def = match contract {
        Some(def) => def,
        None => return None,
    };
    let same = |contract: &ContractScope| -> (same: bool)
        ensures
            same == (contract.contract == def),
    {
        contract.contract == def
    };
    first_where(
        &scope.contracts,
        same,
        Ghost(|contract: ContractScope| contract.contract == def),
    )
}

/// The items of the members of a qualifier.
pub open spec fn member_items(
    scope: ItemScopeFacts,
    contract: Option<DefId>,
    env: ModuleEnv,
    context: ContextParts,
) -> Seq<CompletionParts> {
    let inner = match scope_of_contract(scope, contract) {
        Some(found) => entry_members(found.terms@, context) + entry_members(found.types@, context),
        None => Seq::empty(),
    };
    entry_members(scope.terms@, context) + entry_members(scope.types@, context) + entry_members(
        scope.modules@,
        context,
    ) + inner + imported_members(env, Namespace::Term, context) + imported_members(
        env,
        Namespace::Type,
        context,
    ) + imported_members(env, Namespace::Module, context)
}

fn qualified_completions(
    scope: &ItemScopeFacts,
    contract: Option<DefId>,
    env: &ModuleEnv,
    context: &QualifiedCompletionContext,
) -> (items: Vec<CompletionItem>)
    ensures
        views(items@) == member_items(*scope, contract, *env, context@),
{
    let terms = qualified_scope_entries(&scope.terms, context);
    let types = qualified_scope_entries(&scope.types, context);
    let modules = qualified_scope_entries(&scope.modules, context);
    let declared = join(join(terms, types), modules);
    let inner: Vec<CompletionItem> = match contract_scope(scope, contract) {
        Some(found) => join(
            qualified_scope_entries(&found.terms, context),
            qualified_scope_entries(&found.types, context),
        ),
        None => {
            let none: Vec<CompletionItem> = Vec::new();
            assert(views(none@) == Seq::<CompletionParts>::empty());
            none
        },
    };
    let imported_terms = qualified_imports(env, Namespace::Term, context);
    let imported_types = qualified_imports(env, Namespace::Type, context);
    let imported_modules = qualified_imports(env, Namespace::Module, context);
    join(join(join(join(declared, inner), imported_terms), imported_types), imported_modules)
}

/// Whether the body of a function of a contract is at an offset, its end included.
pub open spec fn body_at(item: ContractItem, file: u32, offset: u32) -> bool {
    match item {
        ContractItem::FunctionDef(function) => match function.body {
            Some(body) => body.span.file == file && body.span.start <= offset <= body.span.end,
            None => false,
        },
        _ => false,
    }
}

pub open spec fn contract_with_body(item: Item, file: u32, offset: u32) -> Option<DefId> {
    match item {
        Item::ContractDef(contract) => if any(
            contract.items@,
            |item: ContractItem| body_at(item, file, offset),
        ) {
            Some(contract.def)
        } else {
            None
        },
        _ => None,
    }
}

/// The contract with a function whose body is at an offset.
pub open spec fn contract_at(module: Module, file: u32, offset: u32) -> Option<DefId> {
    find_map(module.items@, |item: Item| contract_with_body(item, file, offset))
}

pub fn contract_at_offset(module: &Module, file: u32, offset: u32) -> (contract: Option<DefId>)
    ensures
        contract == contract_at(*module, file, offset),
{
    let of_item = |item: &Item| -> (contract: Option<DefId>)
        ensures
            contract == contract_with_body(*item, file, offset),
    {
        match item {
            Item::ContractDef(contract) => {
                let test = |item: &ContractItem| -> (found: bool)
                    ensures
                        found == body_at(*item, file, offset),
                {
                    match item {
                        ContractItem::FunctionDef(function) => match &function.body {
                            Some(body) => body.span.file == file && body.span.start <= offset
                                && offset <= body.span.end,
                            None => false,
                        },
                        _ => false,
                    }
                };
                if has_any(
                    &contract.items,
                    test,
                    Ghost(|item: ContractItem| body_at(item, file, offset)),
                ) {
                    Some(contract.def)
                } else {
                    None
                }
            },
            _ => None,
        }
    };
    first(
        &module.items,
        of_item,
        Ghost(|item: Item| contract_with_body(item, file, offset)),
    )
}

/// The item of a parameter.
pub open spec fn param_item(param: FuncParam) -> Option<CompletionParts> {
    match param {
        FuncParam::Typed { name, .. } => Some(
            CompletionParts {
                label: name.text@,
                kind: CompletionItemKind::Variable,
                detail: "parameter"@,
            },
        ),
        FuncParam::Untyped { name, .. } => Some(
            CompletionParts {
                label: name.text@,
                kind: CompletionItemKind::Variable,
                detail: "parameter"@,
            },
        ),
        FuncParam::Error { .. } => None,
    }
}

pub open spec fn type_var_item(name: Name) -> Option<CompletionParts> {
    Some(
        CompletionParts {
            label: name.text@,
            kind: CompletionItemKind::TypeParameter,
            detail: "type parameter"@,
        },
    )
}

pub open spec fn field_item(field: FieldEntry) -> Option<CompletionParts> {
    Some(
        CompletionParts {
            label: field.name@,
            kind: CompletionItemKind::Field,
            detail: "field"@,
        },
    )
}

/// The item of a local name that was bound before an offset.
pub open spec fn local_item(name: Name, file: u32, offset: u32) -> Option<CompletionParts> {
    if name.span.file == file && name.span.end <= offset {
        Some(
            CompletionParts {
                label: name.text@,
                kind: CompletionItemKind::Variable,
                detail: "local"@,
            },
        )
    } else {
        None
    }
}

fn local_completion(name: &Name, file: u32, offset: u32) -> (item: Option<CompletionItem>)
    ensures
        seen(item) == local_item(*name, file, offset),
{
    if name.span.file == file && name.span.end <= offset {
        Some(new_item(name.text.as_str(), CompletionItemKind::Variable, "local"))
    } else {
        None
    }
}

/// The item of a name that a `let` binds.
pub open spec fn let_item(module: Module, entry: StmtEntry, file: u32, offset: u32) -> Option<
    CompletionParts,
> {
    match entry.resolution {
        Resolution::Local(LocalBinding::Let { .. }) => match stmt_of(
            module,
            entry.body,
            entry.stmt,
        ) {
            Some(stmt) => match stmt.kind {
                StmtKind::Let { name, .. } => local_item(name, file, offset),
                _ => None,
            },
            None => None,
        },
        _ => None,
    }
}

/// The item of a name that a pattern binds.
pub open spec fn pattern_item(module: Module, entry: PatEntry, file: u32, offset: u32) -> Option<
    CompletionParts,
> {
    match entry.resolution {
        Resolution::Local(LocalBinding::Pattern { .. }) => match pat_of(
            module,
            entry.body,
            entry.pat,
        ) {
            Some(pat) => match pat.kind {
                PatKind::Var { name } => local_item(name, file, offset),
                _ => None,
            },
            None => None,
        },
        _ => None,
    }
}

/// The items of the names that are bound in the bodies of a function before an offset.
pub open spec fn local_items(facts: SourceFacts, bodies: Option<BodyFacts>, offset: u32) -> Seq<
    CompletionParts,
> {
    match bodies {
        Some(bodies) => filter_map(
            bodies.map.stmt_bindings@,
            |entry: StmtEntry| let_item(facts.module, entry, facts.file, offset),
        ) + filter_map(
            bodies.map.pats@,
            |entry: PatEntry| pattern_item(facts.module, entry, facts.file, offset),
        ),
        None => Seq::empty(),
    }
}

fn local_completions(facts: &SourceFacts, bodies: Option<&BodyFacts>, offset: u32) -> (items: Vec<
    CompletionItem,
>)
    ensures
        views(items@) == local_items(*facts, pointee(bodies), offset),
{
    let bodies = match bodies {
        Some(bodies) => bodies,
        None => {
            let none: Vec<CompletionItem> = Vec::new();
            assert(views(none@) == Seq::<CompletionParts>::empty());
            return none;
        },
    };
    let of_let = |entry: &StmtEntry| -> (item: Option<CompletionItem>)
        ensures
            seen(item) == let_item(facts.module, *entry, facts.file, offset),
    {
        match &entry.resolution {
            Resolution::Local(LocalBinding::Let { .. }) => match find_stmt(
                &facts.module,
                entry.body,
                entry.stmt,
            ) {
                Some(stmt) => match &stmt.kind {
                    StmtKind::Let { comptime: _, name, ty: _ } => local_completion(
                        name,
                        facts.file,
                        offset,
                    ),
                    _ => None,
                },
                None => None,
            },
            _ => None,
        }
    };
    let lets = collect(
        &bodies.map.stmt_bindings,
        of_let,
        Ghost(|entry: StmtEntry| let_item(facts.module, entry, facts.file, offset)),
    );
    let of_pattern = |entry: &PatEntry| -> (item: Option<CompletionItem>)
        ensures
            seen(item) == pattern_item(facts.module, *entry, facts.file, offset),
    {
        match &entry.resolution {
            Resolution::Local(LocalBinding::Pattern { .. }) => match find_pat(
                &facts.module,
                entry.body,
                entry.pat,
            ) {
                Some(pat) => match &pat.kind {
                    PatKind::Var { name } => local_completion(name, facts.file, offset),
                    _ => None,
                },
                None => None,
            },
            _ => None,
        }
    };
    let patterns = collect(
        &bodies.map.pats,
        of_pattern,
        Ghost(|entry: PatEntry| pattern_item(facts.module, entry, facts.file, offset)),
    );
    join(lets, patterns)
}

/// The items of some type variables.
pub open spec fn type_var_items(names: Seq<Name>) -> Seq<CompletionParts> {
    filter_map(names, |name: Name| type_var_item(name))
}

fn type_var_completions(names: &Vec<Name>) -> (items: Vec<CompletionItem>)
    ensures
        views(items@) == type_var_items(names@),
{
    let item = |name: &Name| -> (item: Option<CompletionItem>)
        ensures
            seen(item) == type_var_item(*name),
    {
        Some(new_item(name.text.as_str(), CompletionItemKind::TypeParameter, "type parameter"))
    };
    collect(names, item, Ghost(|name: Name| type_var_item(name)))
}

/// The items of what a contract declares.
pub open spec fn contract_items(scope: Option<ContractScope>) -> Seq<CompletionParts> {
    match scope {
        Some(found) => entry_items(found.terms@) + entry_items(found.types@) + filter_map(
            found.fields@,
            |field: FieldEntry| field_item(field),
        ),
        None => Seq::empty(),
    }
}

fn contract_completions(scope: Option<&ContractScope>) -> (items: Vec<CompletionItem>)
    ensures
        views(items@) == contract_items(pointee(scope)),
{
    let found = match scope {
        Some(found) => found,
        None => {
            let none: Vec<CompletionItem> = Vec::new();
            assert(views(none@) == Seq::<CompletionParts>::empty());
            return none;
        },
    };
    let item = |field: &FieldEntry| -> (item: Option<CompletionItem>)
        ensures
            seen(item) == field_item(*field),
    {
        Some(new_item(field.name.as_str(), CompletionItemKind::Field, "field"))
    };
    let fields = collect(&found.fields, item, Ghost(|field: FieldEntry| field_item(field)));
    join(
        join(scope_entry_completions(&found.terms), scope_entry_completions(&found.types)),
        fields,
    )
}

/// The items of the type variables that a function inherits.
pub open spec fn inherited_items(inherited: Option<(DefId, &Vec<Name>)>) -> Seq<CompletionParts> {
    match inherited {
        Some((_, names)) => type_var_items(names@),
        None => Seq::empty(),
    }
}

/// The items of what can be named in the body of a function: its parameters, its type variables,
/// what its contract declares, and what was bound before the offset.
pub open spec fn body_items(facts: SourceFacts, owner: FunctionAtOffset<'_>, offset: u32) -> Seq<
    CompletionParts,
> {
    filter_map(owner.function.sig.params@, |param: FuncParam| param_item(param)) + inherited_items(
        owner.inherited_type_vars,
    ) + type_var_items(owner.function.sig.type_vars@) + contract_items(
        scope_of_contract(facts.scope, owner.enclosing_contract),
    ) + local_items(facts, map_of(facts, owner.root_body.id), offset)
}

fn body_completions(facts: &SourceFacts, owner: FunctionAtOffset<'_>, offset: u32) -> (items: Vec<
    CompletionItem,
>)
    ensures
        views(items@) == body_items(*facts, owner, offset),
{
    let of_param = |param: &FuncParam| -> (item: Option<CompletionItem>)
        ensures
            seen(item) == param_item(*param),
    {
        match param {
            FuncParam::Typed { comptime: _, name, ty: _ } => Some(
                new_item(name.text.as_str(), CompletionItemKind::Variable, "parameter"),
            ),
            FuncParam::Untyped { comptime: _, name } => Some(
                new_item(name.text.as_str(), CompletionItemKind::Variable, "parameter"),
            ),
            FuncParam::Error { .. } => None,
        }
    };
    let params = collect(
        &owner.function.sig.params,
        of_param,
        Ghost(|param: FuncParam| param_item(param)),
    );
    let inherited = match owner.inherited_type_vars {
        Some((_, names)) => type_var_completions(names),
        None => {
            let none: Vec<CompletionItem> = Vec::new();
            assert(views(none@) == Seq::<CompletionParts>::empty());
            none
        },
    };
    let own = type_var_completions(&owner.function.sig.type_vars);
    let members = contract_completions(contract_scope(&facts.scope, owner.enclosing_contract));
    let locals = local_completions(
        facts,
        body_resolution_map(facts, owner.root_body.id),
        offset,
    );
    join(join(join(join(params, inherited), own), members), locals)
}

/// The items of everything that can be named at an offset.
pub open spec fn plain_items(facts: SourceFacts, offset: u32) -> Seq<CompletionParts> {
    let everywhere = keyword_items() + scope_items(facts.scope) + import_items(facts.env);
    match owner_at(&facts.module, facts.file, offset) {
        Some(owner) => everywhere + body_items(facts, owner, offset),
        None => everywhere,
    }
}

/// The contract that an offset is in.
pub open spec fn contract_around(facts: SourceFacts, offset: u32) -> Option<DefId> {
    let own = match owner_at(&facts.module, facts.file, offset) {
        Some(owner) => owner.enclosing_contract,
        None => None,
    };
    or_else(own, contract_at(facts.module, facts.file, offset))
}

/// The completion items at an offset of a file: the members of the path that is being written
/// there, else everything that can be named there.
pub open spec fn completions_in_file(text: Seq<char>, facts: SourceFacts, offset: u32) -> Seq<
    CompletionParts,
> {
    match path_context(text, offset) {
        Some(context) => arranged(
            member_items(facts.scope, contract_around(facts, offset), facts.env, context),
        ),
        None => arranged(plain_items(facts, offset)),
    }
}

fn completions_at(text: &str, facts: &SourceFacts, offset: u32) -> (items: Vec<CompletionItem>)
    ensures
        views(items@) == completions_in_file(text@, *facts, offset),
{
    let owner = function_owning_offset(&facts.module, facts.file, offset);
    if let Some(context) = qualified_completion_context(text, offset) {
        let own = match owner {
            Some(owner) => owner.enclosing_contract,
            None => None,
        };
        let contract = match own {
            Some(contract) => Some(contract),
            None => contract_at_offset(&facts.module, facts.file, offset),
        };
        return finish(&qualified_completions(&facts.scope, contract, &facts.env, &context));
    }
    let everywhere = join(
        join(keyword_completions(), item_scope_completions(&facts.scope)),
        imported_completions(&facts.env),
    );
    match owner {
        Some(owner) => finish(&join(everywhere, body_completions(facts, owner, offset))),
        None => finish(&everywhere),
    }
}

/// Computes completion items at a source position.
pub fn handle_completion(world: &WorldState, analysis: &Analysis, uri: &Url, position: Position) -> (items:
    Option<Vec<CompletionItem>>)
    ensures
        match (
            items,
            requested(world@, analysis.files@, uri@, position),
            known_text(world@, uri@),
        ) {
            (Some(items), Some((facts, offset)), Some(text)) => views(items@)
                == completions_in_file(text, facts, offset),
            (Some(_), _, _) => false,
            (None, Some(_), Some(_)) => false,
            (None, _, _) => true,
        },
{
    let (facts, offset) = match locate_request(world, &analysis.files, uri, position) {
        Some(found) => found,
        None => return None,
    };
    match world.line_index(uri) {
        Some(index) => Some(completions_at(index.text(), facts, offset)),
        None => None,
    }
}

/// Whether no two items of a list have one label and one kind.
pub open spec fn no_repeats(list: Seq<CompletionParts>) -> bool {
    forall|i: int, j: int|
        0 <= i < j < list.len() ==> !same_completion(#[trigger] list[i], #[trigger] list[j])
}

/// Whether an item is the first one of a list with its label and its kind.
pub open spec fn is_first(list: Seq<CompletionParts>, item: CompletionParts) -> bool {
    exists|k: int|
        0 <= k < list.len() && #[trigger] list[k] == item && forall|j: int|
            0 <= j < k ==> !same_completion(#[trigger] list[j], item)
}

proof fn lemma_without_repeats(list: Seq<CompletionParts>)
    ensures
        forall|i: int|
            0 <= i < without_repeats(list).len() ==> is_first(
                list,
                #[trigger] without_repeats(list)[i],
            ),
        no_repeats(without_repeats(list)),
        forall|i: int| 0 <= i < list.len() ==> has_completion(without_repeats(list), #[trigger] list[i]),
        forall|i: int|
            0 <= i < without_repeats(list).len() ==> list.contains(
                #[trigger] without_repeats(list)[i],
            ),
    decreases list.len(),
{
    if list.len() > 0 {
        let init = list.drop_last();
        let front = without_repeats(init);
        let all = without_repeats(list);
        lemma_without_repeats(init);
        if !has_completion(front, list.last()) {
            assert(same_completion(all[front.len() as int], list.last()));
        }
        assert forall|i: int| 0 <= i < list.len() implies has_completion(all, #[trigger] list[i]) by {
            if i < init.len() {
                assert(has_completion(front, init[i]));
                let k = choose|k: int| 0 <= k < front.len() && same_completion(front[k], init[i]);
                assert(all[k] == front[k]);
            }
        }
        assert forall|i: int| 0 <= i < all.len() implies is_first(list, #[trigger] all[i]) by {
            if i < front.len() {
                assert(all[i] == front[i]);
                assert(is_first(init, front[i]));
                let k = choose|k: int|
                    0 <= k < init.len() && #[trigger] init[k] == front[i] && forall|j: int|
                        0 <= j < k ==> !same_completion(#[trigger] init[j], front[i]);
                assert(list[k] == all[i]);
                assert forall|j: int| 0 <= j < k implies !same_completion(
                    #[trigger] list[j],
                    all[i],
                ) by {
                    assert(init[j] == list[j]);
                }
            } else {
                let k = list.len() - 1;
                assert(list[k] == all[i]);
                assert forall|j: int| 0 <= j < k implies !same_completion(
                    #[trigger] list[j],
                    all[i],
                ) by {
                    assert(init[j] == list[j]);
                    assert(has_completion(front, init[j]));
                    let m = choose|m: int|
                        0 <= m < front.len() && same_completion(front[m], init[j]);
                    assert(!same_completion(front[m], list.last()));
                }
            }
        }
        assert forall|i: int| 0 <= i < all.len() implies list.contains(#[trigger] all[i]) by {
            if i < front.len() {
                assert(all[i] == front[i]);
                assert(init.contains(front[i]));
                let k = choose|k: int| 0 <= k < init.len() && init[k] == front[i];
                assert(list[k] == all[i]);
            } else {
                assert(list[list.len() - 1] == all[i]);
            }
        }
    }
}

/// The items of a completion are in order of their labels and kinds, no two of them have one
/// label and one kind, everything that was found is among them, and nothing else is. Each is the
/// first that was found with its label and its kind.
pub proof fn law_completions(list: Seq<CompletionParts>)
    ensures
        in_rank::<CompletionItem>(arranged(list)),
        no_repeats(arranged(list)),
        forall|i: int| 0 <= i < list.len() ==> has_completion(arranged(list), #[trigger] list[i]),
        forall|i: int| 0 <= i < arranged(list).len() ==> list.contains(#[trigger] arranged(list)[i]),
        forall|i: int|
            0 <= i < arranged(list).len() ==> is_first(list, #[trigger] arranged(list)[i]),
{
    broadcast use vstd::seq_lib::group_to_multiset_ensures;

    let kept = without_repeats(list);
    let all = arranged(list);
    lemma_without_repeats(list);
    law_ranked::<CompletionItem>(kept);
    assert(all.to_multiset() == kept.to_multiset());
    assert(kept.no_duplicates()) by {
        assert forall|i: int, j: int| 0 <= i < kept.len() && 0 <= j < kept.len() && i != j implies kept[i]
            != kept[j] by {
            if i < j {
                assert(!same_completion(kept[i], kept[j]));
            } else {
                assert(!same_completion(kept[j], kept[i]));
            }
        }
    }
    kept.lemma_multiset_has_no_duplicates();
    all.lemma_multiset_has_no_duplicates_conv();
    assert forall|i: int| 0 <= i < all.len() implies kept.contains(#[trigger] all[i]) by {
        assert(all.to_multiset().count(all[i]) > 0);
    }
    assert forall|i: int, j: int| 0 <= i < j < all.len() implies !same_completion(
        #[trigger] all[i],
        #[trigger] all[j],
    ) by {
        assert(all[i] != all[j]);
        assert(kept.contains(all[i]) && kept.contains(all[j]));
        let a = choose|k: int| 0 <= k < kept.len() && kept[k] == all[i];
        let b = choose|k: int| 0 <= k < kept.len() && kept[k] == all[j];
        if a < b {
            assert(!same_completion(kept[a], kept[b]));
        } else {
            assert(!same_completion(kept[b], kept[a]));
        }
    }
    assert forall|i: int| 0 <= i < list.len() implies has_completion(all, #[trigger] list[i]) by {
        let k = choose|k: int| 0 <= k < kept.len() && same_completion(kept[k], list[i]);
        assert(kept.to_multiset().count(kept[k]) > 0);
        assert(all.contains(kept[k]));
        let m = choose|m: int| 0 <= m < all.len() && all[m] == kept[k];
        assert(same_completion(all[m], list[i]));
    }
    assert forall|i: int| 0 <= i < all.len() implies list.contains(#[trigger] all[i]) by {
        assert(kept.contains(all[i]));
        let k = choose|k: int| 0 <= k < kept.len() && kept[k] == all[i];
        assert(list.contains(kept[k]));
    }
    assert forall|i: int| 0 <= i < all.len() implies is_first(list, #[trigger] all[i]) by {
        assert(kept.contains(all[i]));
        let k = choose|k: int| 0 <= k < kept.len() && kept[k] == all[i];
        assert(is_first(list, kept[k]));
    }
}

} // verus!
