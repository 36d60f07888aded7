//! Workspace symbol support.
use vstd::prelude::*;

use crate::analysis::{facts_at, known_text, source_file};
use crate::hir::{
    Analysis, ContractDef, ContractItem, ContractKind, FieldDef, Item, SourceFacts, Span,
};
use crate::line_index::LineIndexExt;
use crate::protocol::{Location, LocationParts, SymbolKind};
use crate::rank::{in_rank, law_ranked, rank, ranked, Ranked};
use crate::references::location_before;
use crate::seqs::{
    collect, concat_map, filter_map, gather, gather_by_view, join, seen, views,
};
use crate::state::{document_urls, known_path, sorted_urls, WorldModel, WorldState};
use crate::symbols::{function_kind, instance_name, member_kind, span_range};
use crate::text::{
    lemma_text_lt_irreflexive, lemma_text_lt_total, lemma_text_lt_transitive, str_eq, text_less,
    text_lt, to_chars,
};
use crate::url::{text_of, Url, UrlParts};

verus! {

/// The largest number of symbols in a response.
pub const MAX_WORKSPACE_SYMBOLS: usize = 256;

/// A symbol of a document of the workspace, and the name of the contract around it.
pub struct SymbolInformation {
    pub name: String,
    pub kind: SymbolKind,
    pub location: Location,
    pub container_name: Option<String>,
}

pub struct InformationParts {
    pub name: Seq<char>,
    pub kind: SymbolKind,
    pub location: LocationParts,
    pub container_name: Option<Seq<char>>,
}

impl View for SymbolInformation {
    type V = InformationParts;

    open spec fn view(&self) -> InformationParts {
        InformationParts {
            name: self.name@,
            kind: self.kind,
            location: self.location@,
            container_name: text_of(self.container_name),
        }
    }
}

/// A document with its text.
pub struct Place<'a> {
    pub uri: &'a Url,
    pub index: &'a LineIndexExt,
}

pub open spec fn information(
    uri: UrlParts,
    text: Seq<char>,
    name: Seq<char>,
    kind: SymbolKind,
    span: Span,
    container: Option<Seq<char>>,
) -> InformationParts {
    InformationParts {
        name,
        kind,
        location: LocationParts { uri, range: span_range(text, span) },
        container_name: container,
    }
}

fn copied(text: Option<&str>) -> (copy: Option<String>)
    ensures
        text_of(copy) == match text {
            Some(text) => Some(text@),
            None => None,
        },
{
    match text {
        Some(text) => Some(text.to_owned()),
        None => None,
    }
}

pub open spec fn view_of(text: Option<&str>) -> Option<Seq<char>> {
    match text {
        Some(text) => Some(text@),
        None => None,
    }
}

fn symbol_information(
    place: &Place<'_>,
    name: String,
    kind: SymbolKind,
    span: Span,
    container: Option<&str>,
) -> (symbol: SymbolInformation)
    ensures
        symbol@ == information(
            place.uri@,
            place.index@,
            name@,
            kind,
            span,
            view_of(container),
        ),
{
    SymbolInformation {
        name,
        kind,
        location: Location { uri: place.uri.clone(), range: place.index.range(span.start, span.end) },
        container_name: copied(container),
    }
}

pub open spec fn contract_kind_of(kind: ContractKind) -> SymbolKind {
    match kind {
        ContractKind::Contract => SymbolKind::Class,
        ContractKind::Interface => SymbolKind::Interface,
        ContractKind::Library => SymbolKind::Module,
    }
}

fn contract_symbol_kind(kind: ContractKind) -> (symbol_kind: SymbolKind)
    ensures
        symbol_kind == contract_kind_of(kind),
{
    match kind {
        ContractKind::Contract => SymbolKind::Class,
        ContractKind::Interface => SymbolKind::Interface,
        ContractKind::Library => SymbolKind::Module,
    }
}

/// The symbol of an item of a contract.
pub open spec fn member_information(
    uri: UrlParts,
    text: Seq<char>,
    container: Seq<char>,
    item: ContractItem,
) -> Option<InformationParts> {
    match item {
        ContractItem::FunctionDef(function) => Some(
            information(
                uri,
                text,
                function.sig.name.text@,
                function_kind(function.kind),
                function.sig.name.span,
                Some(container),
            ),
        ),
        ContractItem::TypeAlias(alias) => Some(
            information(
                uri,
                text,
                alias.name.text@,
                SymbolKind::Class,
                alias.name.span,
                Some(container),
            ),
        ),
        ContractItem::AdtDef(adt) => Some(
            information(
                uri,
                text,
                adt.name.text@,
                SymbolKind::Enum,
                adt.name.span,
                Some(container),
            ),
        ),
        ContractItem::Error { .. } => None,
    }
}

fn contract_item_information(place: &Place<'_>, container: &str, item: &ContractItem) -> (symbol: Option<
    SymbolInformation,
>)
    ensures
        seen(symbol) == member_information(place.uri@, place.index@, container@, *item),
{
    match item {
        ContractItem::FunctionDef(function) => Some(
            symbol_information(
                place,
                function.sig.name.text.clone(),
                member_kind(function.kind),
                function.sig.name.span,
                Some(container),
            ),
        ),
        ContractItem::TypeAlias(alias) => Some(
            symbol_information(
                place,
                alias.name.text.clone(),
                SymbolKind::Class,
                alias.name.span,
                Some(container),
            ),
        ),
        ContractItem::AdtDef(adt) => Some(
            symbol_information(
                place,
                adt.name.text.clone(),
                SymbolKind::Enum,
                adt.name.span,
                Some(container),
            ),
        ),
        ContractItem::Error { .. } => None,
    }
}

pub open spec fn field_information(
    uri: UrlParts,
    text: Seq<char>,
    container: Seq<char>,
    field: FieldDef,
) -> Option<InformationParts> {
    Some(
        information(
            uri,
            text,
            field.name.text@,
            SymbolKind::Field,
            field.name.span,
            Some(container),
        ),
    )
}

/// The symbols of a contract: its own, those of its fields, those of its items.
pub open spec fn contract_information(uri: UrlParts, text: Seq<char>, contract: ContractDef) -> Seq<
    InformationParts,
> {
    let name = contract.name.text@;
    seq![
        information(
            uri,
            text,
            name,
            contract_kind_of(contract.kind),
            contract.name.span,
            None,
        ),
    ] + filter_map(
        contract.fields@,
        |field: FieldDef| field_information(uri, text, name, field),
    ) + filter_map(
        contract.items@,
        |item: ContractItem| member_information(uri, text, name, item),
    )
}

fn collect_contract_symbols(place: &Place<'_>, contract: &ContractDef) -> (symbols: Vec<
    SymbolInformation,
>)
    ensures
        views(symbols@) == contract_information(place.uri@, place.index@, *contract),
{
    let name = contract.name.text.as_str();
    let own = symbol_information(
        place,
        contract.name.text.clone(),
        contract_symbol_kind(contract.kind),
        contract.name.span,
        None,
    );
    let of_field = |field: &FieldDef| -> (symbol: Option<SymbolInformation>)
        ensures
            seen(symbol) == field_information(place.uri@, place.index@, name@, *field),
    {
        Some(
            symbol_information(
                place,
                field.name.text.clone(),
                SymbolKind::Field,
                field.name.span,
                Some(name),
            ),
        )
    };
    let fields = collect(
        &contract.fields,
        of_field,
        Ghost(|field: FieldDef| field_information(place.uri@, place.index@, name@, field)),
    );
    let of_item = |item: &ContractItem| -> (symbol: Option<SymbolInformation>)
        ensures
            seen(symbol) == member_information(place.uri@, place.index@, name@, *item),
    {
        contract_item_information(place, name, item)
    };
    let items = collect(
        &contract.items,
        of_item,
        Ghost(|item: ContractItem| member_information(place.uri@, place.index@, name@, item)),
    );
    join(join(single(own), fields), items)
}

fn single(symbol: SymbolInformation) -> (symbols: Vec<SymbolInformation>)
    ensures
        views(symbols@) == seq![symbol@],
{
    let ghost model = symbol@;
    let mut symbols: Vec<SymbolInformation> = Vec::new();
    symbols.push(symbol);
    assert(views(symbols@) == seq![model]);
    symbols
}

/// The symbols of an item.
pub open spec fn item_information(uri: UrlParts, text: Seq<char>, item: Item) -> Seq<InformationParts> {
    match item {
        Item::FunctionDef(function) => seq![
            information(
                uri,
                text,
                function.sig.name.text@,
                SymbolKind::Function,
                function.sig.name.span,
                None,
            ),
        ],
        Item::TypeAlias(alias) => seq![
            information(uri, text, alias.name.text@, SymbolKind::Class, alias.name.span, None),
        ],
        Item::AdtDef(adt) => seq![
            information(uri, text, adt.name.text@, SymbolKind::Enum, adt.name.span, None),
        ],
        Item::ClassDef(class) => seq![
            information(
                uri,
                text,
                class.head.class.text@,
                SymbolKind::Interface,
                class.head.class.span,
                None,
            ),
        ],
        Item::InstanceDef(instance) => seq![
            information(
                uri,
                text,
                "impl "@ + instance.head.class.text@,
                SymbolKind::Object,
                instance.head.class.span,
                None,
            ),
        ],
        Item::ContractDef(contract) => contract_information(uri, text, contract),
        _ => Seq::empty(),
    }
}

fn collect_item_symbols(place: &Place<'_>, item: &Item) -> (symbols: Vec<SymbolInformation>)
    ensures
        views(symbols@) == item_information(place.uri@, place.index@, *item),
{
    match item {
        Item::FunctionDef(function) => single(
            symbol_information(
                place,
                function.sig.name.text.clone(),
                SymbolKind::Function,
                function.sig.name.span,
                None,
            ),
        ),
        Item::TypeAlias(alias) => single(
            symbol_information(
                place,
                alias.name.text.clone(),
                SymbolKind::Class,
                alias.name.span,
                None,
            ),
        ),
        Item::AdtDef(adt) => single(
            symbol_information(place, adt.name.text.clone(), SymbolKind::Enum, adt.name.span, None),
        ),
        Item::ClassDef(class) => single(
            symbol_information(
                place,
                class.head.class.text.clone(),
                SymbolKind::Interface,
                class.head.class.span,
                None,
            ),
        ),
        Item::InstanceDef(instance) => single(
            symbol_information(
                place,
                instance_name(&instance.head.class),
                SymbolKind::Object,
                instance.head.class.span,
                None,
            ),
        ),
        Item::ContractDef(contract) => collect_contract_symbols(place, contract),
        _ => {
            let none: Vec<SymbolInformation> = Vec::new();
            assert(views(none@) == Seq::<InformationParts>::empty());
            none
        },
    }
}

/// The symbols of a document.
pub open spec fn document_information(world: WorldModel, files: Seq<SourceFacts>, uri: UrlParts) -> Seq<
    InformationParts,
> {
    match (known_path(world, uri), known_text(world, uri)) {
        (Some(path), Some(text)) => match facts_at(files, path) {
            Some(facts) => concat_map(
                facts.module.items@,
                |item: Item| item_information(uri, text, item),
            ),
            None => Seq::empty(),
        },
        _ => Seq::empty(),
    }
}

fn collect_document_symbols(world: &WorldState, files: &Vec<SourceFacts>, uri: &Url) -> (symbols: Vec<
    SymbolInformation,
>)
    ensures
        views(symbols@) == document_information(world@, files@, uri@),
{
    let none: Vec<SymbolInformation> = Vec::new();
    assert(views(none@) == Seq::<InformationParts>::empty());
    let path = match world.vfs_path_for_uri(uri) {
        Some(path) => path,
        None => return none,
    };
    let facts = match source_file(files, path.as_str()) {
        Some(facts) => facts,
        None => return none,
    };
    let index = match world.line_index(uri) {
        Some(index) => index,
        None => return none,
    };
    let place = Place { uri, index };
    let of_item = |item: &Item| -> (symbols: Vec<SymbolInformation>)
        ensures
            views(symbols@) == item_information(uri@, index@, *item),
    {
        collect_item_symbols(&place, item)
    };
    gather(
        &facts.module.items,
        of_item,
        Ghost(|item: Item| item_information(uri@, index@, item)),
    )
}

/// The symbols of all known documents.
pub open spec fn workspace_information(world: WorldModel, files: Seq<SourceFacts>) -> Seq<
    InformationParts,
> {
    concat_map(
        sorted_urls(document_urls(world), |u: UrlParts| true),
        |uri: UrlParts| document_information(world, files, uri),
    )
}

/// The text that `str::to_lowercase` gives for a text.
pub uninterp spec fn lowercase(text: Seq<char>) -> Seq<char>;

/// `str::to_lowercase` gives the lowercase equivalent of a text, which depends on the text
/// alone.
pub assume_specification[ str::to_lowercase ](text: &str) -> (lower: String)
    ensures
        lower@ == lowercase(text@),
;

/// Whether a text holds another one.
pub open spec fn holds_text(text: Seq<char>, part: Seq<char>) -> bool {
    exists|i: int| #[trigger] text_at(text, part, i)
}

/// Whether a part of a text begins at an index.
pub open spec fn text_at(text: Seq<char>, part: Seq<char>, i: int) -> bool {
    0 <= i && i + part.len() <= text.len() && text.subrange(i, i + part.len()) == part
}

/// Returns whether a text holds another one.
pub fn contains_text(text: &str, part: &str) -> (found: bool)
    ensures
        found == holds_text(text@, part@),
{
    let chars = to_chars(text);
    let wanted = to_chars(part);
    if wanted.len() > chars.len() {
        return false;
    }
    let count: usize = chars.len();
    let last: usize = count - wanted.len();
    let mut i: usize = 0;
    while i <= last
        invariant
            chars@ == text@,
            wanted@ == part@,
            count == chars@.len(),
            last == count - wanted@.len(),
            i <= last + 1,
            forall|j: int| 0 <= j < i ==> !text_at(text@, part@, j),
        decreases last + 1 - i,
    {
        let mut k: usize = 0;
        while k < wanted.len() && chars[i + k] == wanted[k]
            invariant
                chars@ == text@,
                wanted@ == part@,
                count == chars@.len(),
                last == count - wanted@.len(),
                i <= last,
                k <= wanted@.len(),
                forall|j: int| 0 <= j < k ==> chars@[i + j] == wanted@[j],
            decreases wanted@.len() - k,
        {
            k += 1;
        }
        if k == wanted.len() {
            assert(text@.subrange(i as int, i + part@.len()) == part@);
            assert(text_at(text@, part@, i as int));
            return true;
        }
        assert(!text_at(text@, part@, i as int)) by {
            if text_at(text@, part@, i as int) {
                assert(text@.subrange(i as int, i + part@.len())[k as int] == part@[k as int]);
            }
        }
        if i == last {
            return false;
        }
        i += 1;
    }
    false
}

/// Whether the name of a symbol holds a query, case left aside. An empty query is held by all.
pub open spec fn matches_query(symbol: InformationParts, query: Seq<char>) -> bool {
    query.len() == 0 || holds_text(lowercase(symbol.name), query)
}

pub open spec fn matching(symbol: InformationParts, query: Seq<char>) -> Option<InformationParts> {
    if matches_query(symbol, query) {
        Some(symbol)
    } else {
        None
    }
}

/// Symbols are ordered by name, then by location.
pub open spec fn symbol_before(a: InformationParts, b: InformationParts) -> bool {
    text_lt(a.name, b.name) || (a.name == b.name && location_before(a.location, b.location))
}

impl Ranked for SymbolInformation {
    open spec fn before(a: InformationParts, b: InformationParts) -> bool {
        symbol_before(a, b)
    }

    fn is_before(&self, other: &SymbolInformation) -> (before: bool) {
        text_less(self.name.as_str(), other.name.as_str()) || (str_eq(
            self.name.as_str(),
            other.name.as_str(),
        ) && self.location.is_before(&other.location))
    }

    proof fn lemma_asymmetric(a: InformationParts, b: InformationParts) {
        if text_lt(a.name, b.name) && text_lt(b.name, a.name) {
            lemma_text_lt_transitive(a.name, b.name, a.name);
        }
        lemma_text_lt_irreflexive(a.name);
        Location::lemma_asymmetric(a.location, b.location);
    }

    proof fn lemma_not_behind(a: InformationParts, b: InformationParts, c: InformationParts) {
        lemma_text_lt_total(a.name, b.name);
        lemma_text_lt_total(b.name, c.name);
        lemma_text_lt_irreflexive(a.name);
        if text_lt(c.name, a.name) {
            if text_lt(a.name, b.name) {
                lemma_text_lt_transitive(c.name, a.name, b.name);
            }
        }
        if text_lt(a.name, b.name) && text_lt(b.name, c.name) {
            lemma_text_lt_transitive(a.name, b.name, c.name);
        }
        if a.name == b.name && b.name == c.name {
            Location::lemma_not_behind(a.location, b.location, c.location);
        }
    }
}

/// The first of some symbols, as many as a response may hold.
pub open spec fn bounded(symbols: Seq<InformationParts>) -> Seq<InformationParts> {
    if symbols.len() > MAX_WORKSPACE_SYMBOLS {
        symbols.take(MAX_WORKSPACE_SYMBOLS as int)
    } else {
        symbols
    }
}

/// The symbols whose names hold a query.
pub open spec fn kept_symbols(symbols: Seq<InformationParts>, query: Seq<char>) -> Seq<
    InformationParts,
> {
    filter_map(symbols, |symbol: InformationParts| matching(symbol, query))
}

/// The symbols that answer a query: those whose names hold it, in order, as many as a response
/// may hold. The query is in lower case.
pub open spec fn answering(symbols: Seq<InformationParts>, query: Seq<char>) -> Seq<InformationParts> {
    bounded(ranked::<SymbolInformation>(kept_symbols(symbols, query)))
}

/// Selects the symbols that answer a query in lower case.
pub fn select_symbols(symbols: Vec<SymbolInformation>, query: &str) -> (selected: Vec<
    SymbolInformation,
>)
    ensures
        views(selected@) == answering(views(symbols@), query@),
{
    let ghost all = views(symbols@);
    let ghost g = |symbol: InformationParts| matching(symbol, query@);
    let everything = to_chars(query).len() == 0;
    let mut kept: Vec<SymbolInformation> = Vec::new();
    assert(all.take(0) == Seq::<InformationParts>::empty());
    assert(views(kept@) == Seq::<InformationParts>::empty());
    for symbol in iter: symbols
        invariant
            views(iter.seq()) == all,
            g == |symbol: InformationParts| matching(symbol, query@),
            everything == (query@.len() == 0),
            views(kept@) == filter_map(all.take(iter.index() as int), g),
    {
        let ghost before = kept@;
        let ghost model = symbol@;
        let ghost at = iter.index() as int;
        assert(all.take(at + 1).drop_last() == all.take(at));
        assert(all.take(at + 1).last() == model);
        if everything || contains_text(symbol.name.to_lowercase().as_str(), query) {
            kept.push(symbol);
            assert(views(kept@) == views(before).push(model));
        }
    }
    assert(all.take(all.len() as int) == all);
    let mut selected = rank(kept);
    let ghost ordered = selected@;
    if selected.len() > MAX_WORKSPACE_SYMBOLS {
        selected.truncate(MAX_WORKSPACE_SYMBOLS);
        assert(views(selected@) == views(ordered).take(MAX_WORKSPACE_SYMBOLS as int));
    }
    selected
}

/// Computes flat workspace symbols for every source document loaded in the workspace.
pub fn handle_workspace_symbol(world: &WorldState, analysis: &Analysis, query: &str) -> (symbols: Option<
    Vec<SymbolInformation>,
>)
    ensures
        symbols is Some,
        views(symbols->0@) == answering(
            workspace_information(world@, analysis.files@),
            lowercase(query@),
        ),
{
    let files = &analysis.files;
    let uris = world.workspace_document_uris();
    let of_uri = |uri: &Url| -> (symbols: Vec<SymbolInformation>)
        ensures
            views(symbols@) == document_information(world@, files@, uri@),
    {
        collect_document_symbols(world, files, uri)
    };
    let symbols = gather_by_view(
        &uris,
        of_uri,
        Ghost(|uri: UrlParts| document_information(world@, files@, uri)),
    );
    let lower = query.to_lowercase();
    Some(select_symbols(symbols, lower.as_str()))
}

/// A response holds no more symbols than it may, in order, and each of them answers the query.
pub proof fn law_workspace_symbols(symbols: Seq<InformationParts>, query: Seq<char>)
    ensures
        answering(symbols, query).len() <= MAX_WORKSPACE_SYMBOLS,
        in_rank::<SymbolInformation>(answering(symbols, query)),
        forall|i: int|
            0 <= i < answering(symbols, query).len() ==> matches_query(
                #[trigger] answering(symbols, query)[i],
                query,
            ),
{
    broadcast use vstd::seq_lib::group_to_multiset_ensures;

    let kept = kept_symbols(symbols, query);
    law_ranked::<SymbolInformation>(kept);
    lemma_kept(symbols, query);
    let all = ranked::<SymbolInformation>(kept);
    assert forall|i: int| 0 <= i < answering(symbols, query).len() implies matches_query(
        #[trigger] answering(symbols, query)[i],
        query,
    ) by {
        assert(all.contains(all[i]));
        assert(all.to_multiset().count(all[i]) > 0);
        assert(kept.contains(all[i]));
    }
}

proof fn lemma_kept(symbols: Seq<InformationParts>, query: Seq<char>)
    ensures
        forall|symbol: InformationParts| #[trigger]
            kept_symbols(symbols, query).contains(symbol) ==> matches_query(symbol, query),
    decreases symbols.len(),
{
    if symbols.len() > 0 {
        lemma_kept(symbols.drop_last(), query);
        let front = kept_symbols(symbols.drop_last(), query);
        let all = kept_symbols(symbols, query);
        assert forall|symbol: InformationParts| #[trigger] all.contains(symbol) implies matches_query(
            symbol,
            query,
        ) by {
            let m = choose|m: int| 0 <= m < all.len() && all[m] == symbol;
            if m < front.len() {
                assert(front[m] == symbol);
                assert(front.contains(symbol));
            }
        }
    }
}

} // verus!
