//! What holds of the symbols that are listed for a document and for the workspace, and of the
//! places that are highlighted.
use vstd::prelude::*;

use crate::analysis::{facts_at, known_text};
use crate::document_highlight::{highlight_of, highlights_of};
use crate::hir::{
    ContractDef, ContractItem, ContractKind, FieldDef, FuncKind, Item, SourceFacts, Span,
};
use crate::line_index::range_at;
use crate::order::law_sorted;
use crate::protocol::{DocumentHighlight, LocationParts, SymbolKind};
use crate::rank::{law_ranked, ranked, Ranked};
use crate::seqs::{filter_map, law_concat_map, law_filter_map, law_filter_map_in_order, law_joined};
use crate::state::{document_urls, known_path, sorted_urls, WorldModel};
use crate::symbols::{
    contract_children, contract_item_symbol, document_symbols, field_symbol_of, item_symbol,
    DocumentSymbolParts, SymbolParts,
};
use crate::url::UrlParts;
use crate::workspace_symbols::{
    answering, contract_information, document_information, field_information, item_information,
    kept_symbols, matches_query, matching, member_information, symbol_before, workspace_information,
    InformationParts, MAX_WORKSPACE_SYMBOLS, SymbolInformation,
};
use crate::world_laws::law_sorted_urls;

verus! {

/// Whether a symbol has a name, a kind, the range of a whole and the range of its name.
pub open spec fn is_symbol(
    text: Seq<char>,
    symbol: SymbolParts,
    name: Seq<char>,
    kind: SymbolKind,
    whole: Span,
    selection: Span,
) -> bool {
    symbol.name == name && symbol.kind == kind && symbol.range == range_at(
        text,
        whole.start as int,
        whole.end as int,
    ) && symbol.selection_range == range_at(text, selection.start as int, selection.end as int)
}

/// Whether a symbol stands for a member of a contract.
pub open spec fn is_member_symbol(text: Seq<char>, item: ContractItem, symbol: SymbolParts) -> bool {
    match item {
        ContractItem::FunctionDef(function) => is_symbol(
            text,
            symbol,
            function.sig.name.text@,
            if function.kind == FuncKind::Constructor {
                SymbolKind::Constructor
            } else {
                SymbolKind::Method
            },
            function.span,
            function.sig.name.span,
        ),
        ContractItem::TypeAlias(alias) => is_symbol(
            text,
            symbol,
            alias.name.text@,
            SymbolKind::Class,
            alias.span,
            alias.name.span,
        ),
        ContractItem::AdtDef(adt) => is_symbol(
            text,
            symbol,
            adt.name.text@,
            SymbolKind::Enum,
            adt.span,
            adt.name.span,
        ),
        ContractItem::Error { .. } => false,
    }
}

/// Whether a symbol stands for a field of a contract.
pub open spec fn is_field_symbol(text: Seq<char>, field: FieldDef, symbol: SymbolParts) -> bool {
    is_symbol(text, symbol, field.name.text@, SymbolKind::Field, field.span, field.name.span)
}

/// Under a contract its fields are listed, then its functions, type aliases and data types, and
/// nothing else.
pub proof fn law_contract_children(text: Seq<char>, contract: ContractDef, symbol: SymbolParts)
    ensures
        contract_children(text, contract.fields@, contract.items@).contains(symbol) <==> (exists|
            k: int,
        |
            0 <= k < contract.fields@.len() && is_field_symbol(
                text,
                #[trigger] contract.fields@[k],
                symbol,
            )) || (exists|k: int|
            0 <= k < contract.items@.len() && is_member_symbol(
                text,
                #[trigger] contract.items@[k],
                symbol,
            )),
{
    let f = |field: FieldDef| Some(field_symbol_of(text, field));
    let g = |item: ContractItem| contract_item_symbol(text, item);
    let fields = filter_map(contract.fields@, f);
    let items = filter_map(contract.items@, g);
    law_filter_map(contract.fields@, f);
    law_filter_map(contract.items@, g);
    law_joined(fields, items);
    assert(contract_children(text, contract.fields@, contract.items@) == fields + items);
    if fields.contains(symbol) {
        let k = choose|k: int|
            0 <= k < contract.fields@.len() && f(#[trigger] contract.fields@[k]) == Some(symbol);
        assert(is_field_symbol(text, contract.fields@[k], symbol));
    }
    if items.contains(symbol) {
        let k = choose|k: int|
            0 <= k < contract.items@.len() && g(#[trigger] contract.items@[k]) == Some(symbol);
        assert(is_member_symbol(text, contract.items@[k], symbol));
    }
    if exists|k: int|
        0 <= k < contract.fields@.len() && is_field_symbol(
            text,
            #[trigger] contract.fields@[k],
            symbol,
        ) {
        let k = choose|k: int|
            0 <= k < contract.fields@.len() && is_field_symbol(
                text,
                #[trigger] contract.fields@[k],
                symbol,
            );
        assert(f(contract.fields@[k]) == Some(symbol));
    }
    if exists|k: int|
        0 <= k < contract.items@.len() && is_member_symbol(
            text,
            #[trigger] contract.items@[k],
            symbol,
        ) {
        let k = choose|k: int|
            0 <= k < contract.items@.len() && is_member_symbol(
                text,
                #[trigger] contract.items@[k],
                symbol,
            );
        assert(g(contract.items@[k]) == Some(symbol));
    }
}

/// Each declaration of a module has a symbol of its own kind, by its own name and at its own
/// place. Imports, exports and pragmas have none.
pub proof fn law_item_symbol(text: Seq<char>, item: Item)
    ensures
        match item {
            Item::FunctionDef(function) => item_symbol(text, item) matches Some(found)
                && found.children is None && is_symbol(
                text,
                found.symbol,
                function.sig.name.text@,
                SymbolKind::Function,
                function.span,
                function.sig.name.span,
            ),
            Item::TypeAlias(alias) => item_symbol(text, item) matches Some(found)
                && found.children is None && is_symbol(
                text,
                found.symbol,
                alias.name.text@,
                SymbolKind::Class,
                alias.span,
                alias.name.span,
            ),
            Item::AdtDef(adt) => item_symbol(text, item) matches Some(found)
                && found.children is None && is_symbol(
                text,
                found.symbol,
                adt.name.text@,
                SymbolKind::Enum,
                adt.span,
                adt.name.span,
            ),
            Item::ClassDef(class) => item_symbol(text, item) matches Some(found)
                && found.children is None && is_symbol(
                text,
                found.symbol,
                class.head.class.text@,
                SymbolKind::Interface,
                class.span,
                class.head.class.span,
            ),
            Item::InstanceDef(instance) => item_symbol(text, item) matches Some(found)
                && found.children is None && is_symbol(
                text,
                found.symbol,
                "impl "@ + instance.head.class.text@,
                SymbolKind::Object,
                instance.span,
                instance.head.class.span,
            ),
            Item::ContractDef(contract) => item_symbol(text, item) matches Some(found) && is_symbol(
                text,
                found.symbol,
                contract.name.text@,
                SymbolKind::Class,
                contract.span,
                contract.name.span,
            ) && match found.children {
                Some(children) => children.len() > 0 && children == contract_children(
                    text,
                    contract.fields@,
                    contract.items@,
                ),
                None => contract_children(text, contract.fields@, contract.items@).len() == 0,
            },
            Item::Import(_) => item_symbol(text, item) is None,
            Item::Export(_) => item_symbol(text, item) is None,
            Item::Pragma { .. } => item_symbol(text, item) is None,
            Item::Error { .. } => item_symbol(text, item) is None,
        },
{
}

/// The symbols of a document are those of its items: none is left out and none is added.
pub proof fn law_document_symbols(
    world: WorldModel,
    files: Seq<SourceFacts>,
    uri: UrlParts,
    path: Seq<char>,
    text: Seq<char>,
    facts: SourceFacts,
)
    requires
        known_path(world, uri) == Some(path),
        known_text(world, uri) == Some(text),
        facts_at(files, path) == Some(facts),
    ensures
        document_symbols(world, files, uri) is Some,
        forall|found: DocumentSymbolParts| #[trigger]
            document_symbols(world, files, uri)->0.contains(found) <==> exists|k: int|
                0 <= k < facts.module.items@.len() && item_symbol(
                    text,
                    #[trigger] facts.module.items@[k],
                ) == Some(found),
{
    let f = |item: Item| item_symbol(text, item);
    law_filter_map(facts.module.items@, f);
    let all = document_symbols(world, files, uri)->0;
    assert forall|found: DocumentSymbolParts| #[trigger] all.contains(found) <==> exists|k: int|
        0 <= k < facts.module.items@.len() && item_symbol(text, #[trigger] facts.module.items@[k])
            == Some(found) by {
        if exists|k: int|
            0 <= k < facts.module.items@.len() && item_symbol(
                text,
                #[trigger] facts.module.items@[k],
            ) == Some(found) {
            let k = choose|k: int|
                0 <= k < facts.module.items@.len() && item_symbol(
                    text,
                    #[trigger] facts.module.items@[k],
                ) == Some(found);
            assert(f(facts.module.items@[k]) == Some(found));
        }
    }
}

/// The symbols of a document come in the order of its items.
pub proof fn law_document_symbols_in_order(
    world: WorldModel,
    files: Seq<SourceFacts>,
    uri: UrlParts,
    path: Seq<char>,
    text: Seq<char>,
    facts: SourceFacts,
    i: int,
    j: int,
) -> (at: (int, int))
    requires
        known_path(world, uri) == Some(path),
        known_text(world, uri) == Some(text),
        facts_at(files, path) == Some(facts),
        0 <= i < j < facts.module.items@.len(),
        item_symbol(text, facts.module.items@[i]) is Some,
        item_symbol(text, facts.module.items@[j]) is Some,
    ensures
        document_symbols(world, files, uri) is Some,
        0 <= at.0 < at.1 < document_symbols(world, files, uri)->0.len(),
        item_symbol(text, facts.module.items@[i]) == Some(
            document_symbols(world, files, uri)->0[at.0],
        ),
        item_symbol(text, facts.module.items@[j]) == Some(
            document_symbols(world, files, uri)->0[at.1],
        ),
{
    law_filter_map_in_order(facts.module.items@, |item: Item| item_symbol(text, item), i, j)
}

/// Whether an entry of the workspace's symbols has a name, a kind, the place of its name and a
/// container.
pub open spec fn is_entry(
    uri: UrlParts,
    text: Seq<char>,
    entry: InformationParts,
    name: Seq<char>,
    kind: SymbolKind,
    span: Span,
    container: Option<Seq<char>>,
) -> bool {
    entry.name == name && entry.kind == kind && entry.location.uri == uri && entry.location.range
        == range_at(text, span.start as int, span.end as int) && entry.container_name == container
}

/// Whether an entry stands for a member of a contract.
pub open spec fn is_member_entry(
    uri: UrlParts,
    text: Seq<char>,
    contract: ContractDef,
    entry: InformationParts,
) -> bool {
    (exists|k: int|
        0 <= k < contract.fields@.len() && is_entry(
            uri,
            text,
            entry,
            (#[trigger] contract.fields@[k]).name.text@,
            SymbolKind::Field,
            contract.fields@[k].name.span,
            Some(contract.name.text@),
        )) || (exists|k: int|
        0 <= k < contract.items@.len() && is_inner_entry(
            uri,
            text,
            contract.name.text@,
            #[trigger] contract.items@[k],
            entry,
        ))
}

pub open spec fn is_inner_entry(
    uri: UrlParts,
    text: Seq<char>,
    container: Seq<char>,
    item: ContractItem,
    entry: InformationParts,
) -> bool {
    match item {
        ContractItem::FunctionDef(function) => is_entry(
            uri,
            text,
            entry,
            function.sig.name.text@,
            if function.kind == FuncKind::Constructor {
                SymbolKind::Constructor
            } else {
                SymbolKind::Method
            },
            function.sig.name.span,
            Some(container),
        ),
        ContractItem::TypeAlias(alias) => is_entry(
            uri,
            text,
            entry,
            alias.name.text@,
            SymbolKind::Class,
            alias.name.span,
            Some(container),
        ),
        ContractItem::AdtDef(adt) => is_entry(
            uri,
            text,
            entry,
            adt.name.text@,
            SymbolKind::Enum,
            adt.name.span,
            Some(container),
        ),
        ContractItem::Error { .. } => false,
    }
}

/// Whether an entry stands for an item of a module or for one that stands in it.
pub open spec fn is_item_entry(uri: UrlParts, text: Seq<char>, item: Item, entry: InformationParts) -> bool {
    match item {
        Item::FunctionDef(function) => is_entry(
            uri,
            text,
            entry,
            function.sig.name.text@,
            SymbolKind::Function,
            function.sig.name.span,
            None,
        ),
        Item::TypeAlias(alias) => is_entry(
            uri,
            text,
            entry,
            alias.name.text@,
            SymbolKind::Class,
            alias.name.span,
            None,
        ),
        Item::AdtDef(adt) => is_entry(
            uri,
            text,
            entry,
            adt.name.text@,
            SymbolKind::Enum,
            adt.name.span,
            None,
        ),
        Item::ClassDef(class) => is_entry(
            uri,
            text,
            entry,
            class.head.class.text@,
            SymbolKind::Interface,
            class.head.class.span,
            None,
        ),
        Item::InstanceDef(instance) => is_entry(
            uri,
            text,
            entry,
            "impl "@ + instance.head.class.text@,
            SymbolKind::Object,
            instance.head.class.span,
            None,
        ),
        Item::ContractDef(contract) => is_entry(
            uri,
            text,
            entry,
            contract.name.text@,
            match contract.kind {
                ContractKind::Contract => SymbolKind::Class,
                ContractKind::Interface => SymbolKind::Interface,
                ContractKind::Library => SymbolKind::Module,
            },
            contract.name.span,
            None,
        ) || is_member_entry(uri, text, contract, entry),
        _ => false,
    }
}

proof fn lemma_contract_information(
    uri: UrlParts,
    text: Seq<char>,
    contract: ContractDef,
    entry: InformationParts,
)
    ensures
        contract_information(uri, text, contract).contains(entry) <==> is_item_entry(
            uri,
            text,
            Item::ContractDef(contract),
            entry,
        ),
{
    let name = contract.name.text@;
    let f = |field: FieldDef| field_information(uri, text, name, field);
    let g = |item: ContractItem| member_information(uri, text, name, item);
    let fields = filter_map(contract.fields@, f);
    let items = filter_map(contract.items@, g);
    let all = contract_information(uri, text, contract);
    let own = all[0];
    law_filter_map(contract.fields@, f);
    law_filter_map(contract.items@, g);
    law_joined(seq![own], fields);
    law_joined(seq![own] + fields, items);
    assert(all == seq![own] + fields + items);
    assert(seq![own].contains(entry) <==> own == entry) by {
        assert(seq![own][0] == own);
    }
    if fields.contains(entry) {
        let k = choose|k: int|
            0 <= k < contract.fields@.len() && f(#[trigger] contract.fields@[k]) == Some(entry);
        assert(is_entry(
            uri,
            text,
            entry,
            contract.fields@[k].name.text@,
            SymbolKind::Field,
            contract.fields@[k].name.span,
            Some(name),
        ));
    }
    if items.contains(entry) {
        let k = choose|k: int|
            0 <= k < contract.items@.len() && g(#[trigger] contract.items@[k]) == Some(entry);
        assert(is_inner_entry(uri, text, name, contract.items@[k], entry));
    }
    if exists|k: int|
        0 <= k < contract.fields@.len() && is_entry(
            uri,
            text,
            entry,
            (#[trigger] contract.fields@[k]).name.text@,
            SymbolKind::Field,
            contract.fields@[k].name.span,
            Some(name),
        ) {
        let k = choose|k: int|
            0 <= k < contract.fields@.len() && is_entry(
                uri,
                text,
                entry,
                (#[trigger] contract.fields@[k]).name.text@,
                SymbolKind::Field,
                contract.fields@[k].name.span,
                Some(name),
            );
        assert(f(contract.fields@[k]) == Some(entry));
    }
    if exists|k: int|
        0 <= k < contract.items@.len() && is_inner_entry(
            uri,
            text,
            name,
            #[trigger] contract.items@[k],
            entry,
        ) {
        let k = choose|k: int|
            0 <= k < contract.items@.len() && is_inner_entry(
                uri,
                text,
                name,
                #[trigger] contract.items@[k],
                entry,
            );
        assert(g(contract.items@[k]) == Some(entry));
    }
}

proof fn lemma_item_information(uri: UrlParts, text: Seq<char>, item: Item, entry: InformationParts)
    ensures
        item_information(uri, text, item).contains(entry) <==> is_item_entry(
            uri,
            text,
            item,
            entry,
        ),
{
    match item {
        Item::ContractDef(contract) => lemma_contract_information(uri, text, contract, entry),
        _ => {
            let all = item_information(uri, text, item);
            if all.len() > 0 {
                assert(all.contains(entry) <==> all[0] == entry);
            }
        },
    }
}

/// The symbols of a document are those of all its declarations and of the members of its
/// contracts, which name their contract as the container. Nothing else is among them.
pub proof fn law_document_information(
    world: WorldModel,
    files: Seq<SourceFacts>,
    uri: UrlParts,
    path: Seq<char>,
    text: Seq<char>,
    facts: SourceFacts,
    entry: InformationParts,
)
    requires
        known_path(world, uri) == Some(path),
        known_text(world, uri) == Some(text),
        facts_at(files, path) == Some(facts),
    ensures
        document_information(world, files, uri).contains(entry) <==> exists|i: int|
            0 <= i < facts.module.items@.len() && is_item_entry(
                uri,
                text,
                #[trigger] facts.module.items@[i],
                entry,
            ),
{
    let items = facts.module.items@;
    let f = |item: Item| item_information(uri, text, item);
    law_concat_map(items, f);
    assert forall|i: int| 0 <= i < items.len() implies (f(#[trigger] items[i]).contains(entry)
        <==> is_item_entry(uri, text, items[i], entry)) by {
        lemma_item_information(uri, text, items[i], entry);
    }
}

/// The symbols of the workspace are those of all known documents.
pub proof fn law_workspace_information(
    world: WorldModel,
    files: Seq<SourceFacts>,
    entry: InformationParts,
)
    ensures
        workspace_information(world, files).contains(entry) <==> exists|uri: UrlParts|
            document_urls(world).contains(uri) && #[trigger] document_information(
                world,
                files,
                uri,
            ).contains(entry),
{
    let urls = sorted_urls(document_urls(world), |u: UrlParts| true);
    let f = |uri: UrlParts| document_information(world, files, uri);
    law_concat_map(urls, f);
    if workspace_information(world, files).contains(entry) {
        let i = choose|i: int| 0 <= i < urls.len() && f(#[trigger] urls[i]).contains(entry);
        assert(urls.contains(urls[i]));
        law_sorted_urls(document_urls(world), |u: UrlParts| true, urls[i]);
        assert(document_information(world, files, urls[i]).contains(entry));
    }
    if exists|uri: UrlParts|
        document_urls(world).contains(uri) && #[trigger] document_information(
            world,
            files,
            uri,
        ).contains(entry) {
        let uri = choose|uri: UrlParts|
            document_urls(world).contains(uri) && #[trigger] document_information(
                world,
                files,
                uri,
            ).contains(entry);
        law_sorted_urls(document_urls(world), |u: UrlParts| true, uri);
        let i = choose|i: int| 0 <= i < urls.len() && urls[i] == uri;
        assert(f(urls[i]).contains(entry));
    }
}

/// A query is answered with every symbol that matches it, as long as no more match than are shown.
/// Where more do, those that are left out come behind those that are shown.
pub proof fn law_query_answered(symbols: Seq<InformationParts>, query: Seq<char>)
    ensures
        forall|symbol: InformationParts| #[trigger]
            answering(symbols, query).contains(symbol) ==> symbols.contains(symbol)
                && matches_query(symbol, query),
        forall|symbol: InformationParts|
            symbols.contains(symbol) && #[trigger] matches_query(symbol, query) ==> answering(
                symbols,
                query,
            ).contains(symbol) || (answering(symbols, query).len() == MAX_WORKSPACE_SYMBOLS
                && forall|i: int|
                0 <= i < answering(symbols, query).len() ==> !symbol_before(
                    symbol,
                    #[trigger] answering(symbols, query)[i],
                )),
{
    broadcast use vstd::seq_lib::group_to_multiset_ensures;

    let f = |symbol: InformationParts| matching(symbol, query);
    let kept = kept_symbols(symbols, query);
    let all = ranked::<SymbolInformation>(kept);
    let shown = answering(symbols, query);
    law_filter_map(symbols, f);
    law_ranked::<SymbolInformation>(kept);
    assert forall|symbol: InformationParts| all.contains(symbol) == #[trigger] kept.contains(
        symbol,
    ) by {
        assert(all.contains(symbol) <==> all.to_multiset().count(symbol) > 0);
        assert(kept.contains(symbol) <==> kept.to_multiset().count(symbol) > 0);
    }
    assert forall|symbol: InformationParts| #[trigger] shown.contains(symbol) implies symbols.contains(
        symbol,
    ) && matches_query(symbol, query) by {
        let i = choose|i: int| 0 <= i < shown.len() && shown[i] == symbol;
        assert(all[i] == symbol);
        assert(all.contains(symbol));
        assert(kept.contains(symbol));
        let k = choose|k: int| 0 <= k < symbols.len() && f(#[trigger] symbols[k]) == Some(symbol);
        assert(symbols[k] == symbol);
    }
    assert forall|symbol: InformationParts|
        symbols.contains(symbol) && #[trigger] matches_query(symbol, query) implies shown.contains(
        symbol,
    ) || (shown.len() == MAX_WORKSPACE_SYMBOLS && forall|i: int|
        0 <= i < shown.len() ==> !symbol_before(symbol, #[trigger] shown[i])) by {
        let k = choose|k: int| 0 <= k < symbols.len() && symbols[k] == symbol;
        assert(f(symbols[k]) == Some(symbol));
        assert(kept.contains(symbol));
        assert(all.contains(symbol));
        let j = choose|j: int| 0 <= j < all.len() && all[j] == symbol;
        if j < shown.len() {
            assert(shown[j] == symbol);
        } else {
            assert forall|i: int| 0 <= i < shown.len() implies !symbol_before(
                symbol,
                #[trigger] shown[i],
            ) by {
                assert(all[i] == shown[i]);
                assert(!SymbolInformation::before(all[j], all[i]));
            }
        }
    }
}

/// The places of a symbol that are highlighted in a document are those of its references that are
/// in the document, and no others.
pub proof fn law_highlights(locations: Seq<LocationParts>, uri: UrlParts)
    ensures
        forall|i: int|
            0 <= i < locations.len() && (#[trigger] locations[i]).uri.text == uri.text ==> exists|
                k: int,
            |
                0 <= k < highlights_of(locations, uri).len() && (#[trigger] highlights_of(
                    locations,
                    uri,
                )[k]).range == locations[i].range,
        forall|k: int|
            0 <= k < highlights_of(locations, uri).len() ==> exists|i: int|
                0 <= i < locations.len() && (#[trigger] locations[i]).uri.text == uri.text
                    && locations[i].range == (#[trigger] highlights_of(locations, uri)[k]).range,
{
    broadcast use vstd::seq_lib::group_to_multiset_ensures;

    let f = |location: LocationParts| highlight_of(location, uri);
    let kept = filter_map(locations, f);
    let all = highlights_of(locations, uri);
    law_filter_map(locations, f);
    law_sorted(kept);
    assert forall|found: DocumentHighlight| all.contains(found) == #[trigger] kept.contains(
        found,
    ) by {
        assert(all.contains(found) <==> all.to_multiset().count(found) > 0);
        assert(kept.contains(found) <==> kept.to_multiset().count(found) > 0);
    }
    assert forall|i: int|
        0 <= i < locations.len() && (#[trigger] locations[i]).uri.text == uri.text implies exists|
        k: int,
    |
        0 <= k < all.len() && (#[trigger] all[k]).range == locations[i].range by {
        let found = f(locations[i])->0;
        assert(kept.contains(found));
        assert(all.contains(found));
        let k = choose|k: int| 0 <= k < all.len() && all[k] == found;
        assert(all[k].range == locations[i].range);
    }
    assert forall|k: int| 0 <= k < all.len() implies exists|i: int|
        0 <= i < locations.len() && (#[trigger] locations[i]).uri.text == uri.text
            && locations[i].range == (#[trigger] all[k]).range by {
        assert(all.contains(all[k]));
        assert(kept.contains(all[k]));
        let i = choose|i: int| 0 <= i < locations.len() && f(#[trigger] locations[i]) == Some(all[k]);
        assert(locations[i].uri.text == uri.text);
    }
}

} // verus!
