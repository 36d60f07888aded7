//! Document symbol support.
use vstd::prelude::*;

use crate::analysis::{facts_at, known_text, source_file};
use crate::hir::{Analysis, ContractItem, FieldDef, FuncKind, Item, Name, SourceFacts, Span};
use crate::line_index::{range_at, LineIndexExt};
use crate::protocol::{Range, SymbolKind};
use crate::seqs::{collect, filter_map, join, seen, views};
use crate::state::{known_path, WorldModel, WorldState};
use crate::url::{Url, UrlParts};

verus! {

/// A named part of a document.
pub struct Symbol {
    pub name: String,
    pub kind: SymbolKind,
    pub range: Range,
    pub selection_range: Range,
}

pub struct SymbolParts {
    pub name: Seq<char>,
    pub kind: SymbolKind,
    pub range: Range,
    pub selection_range: Range,
}

impl View for Symbol {
    type V = SymbolParts;

    open spec fn view(&self) -> SymbolParts {
        SymbolParts {
            name: self.name@,
            kind: self.kind,
            range: self.range,
            selection_range: self.selection_range,
        }
    }
}

/// A symbol with those inside of it, where there are any.
pub struct DocumentSymbol {
    pub symbol: Symbol,
    pub children: Option<Vec<Symbol>>,
}

pub struct DocumentSymbolParts {
    pub symbol: SymbolParts,
    pub children: Option<Seq<SymbolParts>>,
}

impl View for DocumentSymbol {
    type V = DocumentSymbolParts;

    open spec fn view(&self) -> DocumentSymbolParts {
        DocumentSymbolParts {
            symbol: self.symbol@,
            children: match self.children {
                Some(children) => Some(views(children@)),
                None => None,
            },
        }
    }
}

pub open spec fn span_range(text: Seq<char>, span: Span) -> Range {
    range_at(text, span.start as int, span.end as int)
}

fn lsp_range(index: &LineIndexExt, span: Span) -> (range: Range)
    ensures
        range == span_range(index@, span),
{
    index.range(span.start, span.end)
}

/// A symbol with the place of all of it and that of its name.
pub open spec fn symbol_parts(
    text: Seq<char>,
    name: Seq<char>,
    kind: SymbolKind,
    whole: Span,
    selection: Span,
) -> SymbolParts {
    SymbolParts {
        name,
        kind,
        range: span_range(text, whole),
        selection_range: span_range(text, selection),
    }
}

fn make_symbol(
    index: &LineIndexExt,
    name: String,
    kind: SymbolKind,
    whole: Span,
    selection: Span,
) -> (symbol: Symbol)
    ensures
        symbol@ == symbol_parts(index@, name@, kind, whole, selection),
{
    Symbol {
        name,
        kind,
        range: lsp_range(index, whole),
        selection_range: lsp_range(index, selection),
    }
}

pub open spec fn named_symbol(text: Seq<char>, name: Name, kind: SymbolKind, whole: Span) -> SymbolParts {
    symbol_parts(text, name.text@, kind, whole, name.span)
}

fn make_named_symbol(index: &LineIndexExt, name: &Name, kind: SymbolKind, whole: Span) -> (symbol: Symbol)
    ensures
        symbol@ == named_symbol(index@, *name, kind, whole),
{
    make_symbol(index, name.text.clone(), kind, whole, name.span)
}

pub open spec fn function_kind(kind: FuncKind) -> SymbolKind {
    match kind {
        FuncKind::Constructor => SymbolKind::Constructor,
        FuncKind::Function => SymbolKind::Method,
        FuncKind::Fallback => SymbolKind::Method,
    }
}

pub fn member_kind(kind: FuncKind) -> (symbol_kind: SymbolKind)
    ensures
        symbol_kind == function_kind(kind),
{
    match kind {
        FuncKind::Constructor => SymbolKind::Constructor,
        FuncKind::Function => SymbolKind::Method,
        FuncKind::Fallback => SymbolKind::Method,
    }
}

/// The symbol of an item of a contract.
pub open spec fn contract_item_symbol(text: Seq<char>, item: ContractItem) -> Option<SymbolParts> {
    match item {
        ContractItem::FunctionDef(function) => Some(
            named_symbol(text, function.sig.name, function_kind(function.kind), function.span),
        ),
        ContractItem::TypeAlias(alias) => Some(
            named_symbol(text, alias.name, SymbolKind::Class, alias.span),
        ),
        ContractItem::AdtDef(adt) => Some(
            named_symbol(text, adt.name, SymbolKind::Enum, adt.span),
        ),
        ContractItem::Error { .. } => None,
    }
}

fn symbol_for_contract_item(index: &LineIndexExt, item: &ContractItem) -> (symbol: Option<Symbol>)
    ensures
        seen(symbol) == contract_item_symbol(index@, *item),
{
    match item {
        ContractItem::FunctionDef(function) => Some(
            make_named_symbol(
                index,
                &function.sig.name,
                member_kind(function.kind),
                function.span,
            ),
        ),
        ContractItem::TypeAlias(alias) => Some(
            make_named_symbol(index, &alias.name, SymbolKind::Class, alias.span),
        ),
        ContractItem::AdtDef(adt) => Some(
            make_named_symbol(index, &adt.name, SymbolKind::Enum, adt.span),
        ),
        ContractItem::Error { .. } => None,
    }
}

/// The symbol of a contract field.
pub open spec fn field_symbol_of(text: Seq<char>, field: FieldDef) -> SymbolParts {
    named_symbol(text, field.name, SymbolKind::Field, field.span)
}

fn field_symbol(index: &LineIndexExt, field: &FieldDef) -> (symbol: Symbol)
    ensures
        symbol@ == field_symbol_of(index@, *field),
{
    make_named_symbol(index, &field.name, SymbolKind::Field, field.span)
}

/// A symbol with nothing inside.
pub open spec fn leaf(symbol: SymbolParts) -> Option<DocumentSymbolParts> {
    Some(DocumentSymbolParts { symbol, children: None })
}

/// The symbols inside a contract: its fields, then its items.
pub open spec fn contract_children(text: Seq<char>, fields: Seq<FieldDef>, items: Seq<ContractItem>) -> Seq<
    SymbolParts,
> {
    filter_map(fields, |field: FieldDef| Some(field_symbol_of(text, field))) + filter_map(
        items,
        |item: ContractItem| contract_item_symbol(text, item),
    )
}

/// The symbol of an item.
pub open spec fn item_symbol(text: Seq<char>, item: Item) -> Option<DocumentSymbolParts> {
    match item {
        Item::FunctionDef(function) => leaf(
            named_symbol(text, function.sig.name, SymbolKind::Function, function.span),
        ),
        Item::TypeAlias(alias) => leaf(
            named_symbol(text, alias.name, SymbolKind::Class, alias.span),
        ),
        Item::AdtDef(adt) => leaf(named_symbol(text, adt.name, SymbolKind::Enum, adt.span)),
        Item::ClassDef(class) => leaf(
            named_symbol(text, class.head.class, SymbolKind::Interface, class.span),
        ),
        Item::InstanceDef(instance) => leaf(
            symbol_parts(
                text,
                "impl "@ + instance.head.class.text@,
                SymbolKind::Object,
                instance.span,
                instance.head.class.span,
            ),
        ),
        Item::ContractDef(contract) => {
            let children = contract_children(text, contract.fields@, contract.items@);
            Some(
                DocumentSymbolParts {
                    symbol: named_symbol(text, contract.name, SymbolKind::Class, contract.span),
                    children: if children.len() > 0 {
                        Some(children)
                    } else {
                        None
                    },
                },
            )
        },
        _ => None,
    }
}

fn alone(symbol: Symbol) -> (found: Option<DocumentSymbol>)
    ensures
        seen(found) == leaf(symbol@),
{
    Some(DocumentSymbol { symbol, children: None })
}

/// The name under which an instance is shown.
pub fn instance_name(class: &Name) -> (name: String)
    ensures
        name@ == "impl "@ + class.text@,
{
    let mut name = "impl ".to_owned();
    name.append(class.text.as_str());
    name
}

fn symbol_for_item(index: &LineIndexExt, item: &Item) -> (symbol: Option<DocumentSymbol>)
    ensures
        seen(symbol) == item_symbol(index@, *item),
{
    match item {
        Item::FunctionDef(function) => alone(
            make_named_symbol(index, &function.sig.name, SymbolKind::Function, function.span),
        ),
        Item::TypeAlias(alias) => alone(
            make_named_symbol(index, &alias.name, SymbolKind::Class, alias.span),
        ),
        Item::AdtDef(adt) => alone(
            make_named_symbol(index, &adt.name, SymbolKind::Enum, adt.span),
        ),
        Item::ClassDef(class) => alone(
            make_named_symbol(index, &class.head.class, SymbolKind::Interface, class.span),
        ),
        Item::InstanceDef(instance) => alone(
            make_symbol(
                index,
                instance_name(&instance.head.class),
                SymbolKind::Object,
                instance.span,
                instance.head.class.span,
            ),
        ),
        Item::ContractDef(contract) => {
            let of_field = |field: &FieldDef| -> (symbol: Option<Symbol>)
                ensures
                    seen(symbol) == Some(field_symbol_of(index@, *field)),
            {
                Some(field_symbol(index, field))
            };
            let fields = collect(
                &contract.fields,
                of_field,
                Ghost(|field: FieldDef| Some(field_symbol_of(index@, field))),
            );
            let of_item = |item: &ContractItem| -> (symbol: Option<Symbol>)
                ensures
                    seen(symbol) == contract_item_symbol(index@, *item),
            {
                symbol_for_contract_item(index, item)
            };
            let items = collect(
                &contract.items,
                of_item,
                Ghost(|item: ContractItem| contract_item_symbol(index@, item)),
            );
            let children = join(fields, items);
            Some(
                DocumentSymbol {
                    symbol: make_named_symbol(
                        index,
                        &contract.name,
                        SymbolKind::Class,
                        contract.span,
                    ),
                    children: if children.len() > 0 {
                        Some(children)
                    } else {
                        None
                    },
                },
            )
        },
        _ => None,
    }
}

/// The symbols of a document.
pub open spec fn document_symbols(world: WorldModel, files: Seq<SourceFacts>, uri: UrlParts) -> Option<
    Seq<DocumentSymbolParts>,
> {
    match (known_path(world, uri), known_text(world, uri)) {
        (Some(path), Some(text)) => match facts_at(files, path) {
            Some(facts) => Some(
                filter_map(facts.module.items@, |item: Item| item_symbol(text, item)),
            ),
            None => None,
        },
        _ => None,
    }
}

/// Computes hierarchical symbols for one open source document.
pub fn handle_document_symbol(world: &WorldState, analysis: &Analysis, uri: &Url) -> (symbols: Option<
    Vec<DocumentSymbol>,
>)
    ensures
        match symbols {
            Some(symbols) => document_symbols(world@, analysis.files@, uri@) == Some(
                views(symbols@),
            ),
            None => document_symbols(world@, analysis.files@, uri@) is None,
        },
{
    let path = match world.vfs_path_for_uri(uri) {
        Some(path) => path,
        None => return None,
    };
    let facts = match source_file(&analysis.files, path.as_str()) {
        Some(facts) => facts,
        None => return None,
    };
    let index = match world.line_index(uri) {
        Some(index) => index,
        None => return None,
    };
    let of_item = |item: &Item| -> (symbol: Option<DocumentSymbol>)
        ensures
            seen(symbol) == item_symbol(index@, *item),
    {
        symbol_for_item(index, item)
    };
    Some(collect(&facts.module.items, of_item, Ghost(|item: Item| item_symbol(index@, item))))
}

} // verus!
