//! What holds of the ranges that a selection grows over.
use vstd::prelude::*;

use crate::folding::line_start;
use crate::hir::{
    contract_item_span, item_span, ClassMethod, ContractItem, Expr, FieldDef, FuncBody, FunctionDef,
    Item, Module, Pat, Span, Stmt,
};
use crate::order::{in_order, law_sorted, sorted, Ordered};
use crate::scan::{line_end, scanned, ByteRange};
use crate::selection_range::{
    body_spans, candidates_at, chain_of, contract_item_spans, delimiter_ranges, field_spans,
    function_spans, holding, item_spans, leaf_at, line_at, module_spans, nodes_around, ranges_of,
    selection_chain,
};
use crate::seqs::{concat_map, law_concat_map, law_joined};
use crate::text::utf8;

verus! {

/// Whether a span is that of a body, or of a statement, an expression or a pattern in it.
pub open spec fn is_node_of_body(body: FuncBody, span: Span) -> bool {
    body.span == span || (exists|i: int|
        0 <= i < body.stmts@.len() && (#[trigger] body.stmts@[i]).span == span) || (exists|i: int|
        0 <= i < body.exprs@.len() && (#[trigger] body.exprs@[i]).span == span) || (exists|i: int|
        0 <= i < body.pats@.len() && (#[trigger] body.pats@[i]).span == span)
}

/// Whether a span is that of a function's signature, or of a node of its body.
pub open spec fn is_node_of_function(function: FunctionDef, span: Span) -> bool {
    function.sig.span == span || (function.body matches Some(body) && is_node_of_body(body, span))
}

/// Whether a span is that of a field, of its first value or of an expression in that.
pub open spec fn is_node_of_field(field: FieldDef, span: Span) -> bool {
    field.span == span || (field.init matches Some(init) && (init.span == span
        || init.exprs@.contains(span)))
}

/// Whether a span is that of an item, of one of its members, or of a node in one of them.
pub open spec fn is_node_of_item(item: Item, span: Span) -> bool {
    item_span(item) == span || match item {
        Item::FunctionDef(function) => is_node_of_function(function, span),
        Item::ClassDef(class) => exists|k: int|
            0 <= k < class.methods@.len() && (#[trigger] class.methods@[k]).sig.span == span,
        Item::InstanceDef(instance) => exists|k: int|
            0 <= k < instance.methods@.len() && is_node_of_function(
                #[trigger] instance.methods@[k],
                span,
            ),
        Item::ContractDef(contract) => (exists|k: int|
            0 <= k < contract.fields@.len() && is_node_of_field(
                #[trigger] contract.fields@[k],
                span,
            )) || (exists|k: int|
            0 <= k < contract.items@.len() && (contract_item_span(#[trigger] contract.items@[k])
                == span || (contract.items@[k] matches ContractItem::FunctionDef(function)
                && is_node_of_function(function, span)))),
        _ => false,
    }
}

proof fn lemma_mapped<T>(s: Seq<T>, f: spec_fn(T) -> Span, span: Span)
    ensures
        s.map_values(f).contains(span) <==> exists|i: int|
            0 <= i < s.len() && f(#[trigger] s[i]) == span,
{
    let mapped = s.map_values(f);
    if mapped.contains(span) {
        let i = choose|i: int| 0 <= i < mapped.len() && mapped[i] == span;
        assert(f(s[i]) == span);
    }
    if exists|i: int| 0 <= i < s.len() && f(#[trigger] s[i]) == span {
        let i = choose|i: int| 0 <= i < s.len() && f(#[trigger] s[i]) == span;
        assert(mapped[i] == span);
    }
}

proof fn lemma_first(first: Span, rest: Seq<Span>, span: Span)
    ensures
        (seq![first] + rest).contains(span) <==> first == span || rest.contains(span),
{
    law_joined(seq![first], rest);
    assert(seq![first][0] == first);
    assert(seq![first].contains(span) <==> first == span);
}

proof fn lemma_body_nodes(body: FuncBody, span: Span)
    ensures
        body_spans(body).contains(span) <==> is_node_of_body(body, span),
{
    let f = |stmt: Stmt| stmt.span;
    let g = |expr: Expr| expr.span;
    let h = |pat: Pat| pat.span;
    let a = body.stmts@.map_values(f);
    let b = body.exprs@.map_values(g);
    let c = body.pats@.map_values(h);
    lemma_mapped(body.stmts@, f, span);
    lemma_mapped(body.exprs@, g, span);
    lemma_mapped(body.pats@, h, span);
    lemma_first(body.span, a, span);
    law_joined(seq![body.span] + a, b);
    law_joined(seq![body.span] + a + b, c);
    assert(body_spans(body) == seq![body.span] + a + b + c);
    assert(a.contains(span) <==> exists|i: int|
        0 <= i < body.stmts@.len() && (#[trigger] body.stmts@[i]).span == span);
    assert(b.contains(span) <==> exists|i: int|
        0 <= i < body.exprs@.len() && (#[trigger] body.exprs@[i]).span == span);
    assert(c.contains(span) <==> exists|i: int|
        0 <= i < body.pats@.len() && (#[trigger] body.pats@[i]).span == span);
}

proof fn lemma_function_nodes(function: FunctionDef, span: Span)
    ensures
        function_spans(function).contains(span) <==> is_node_of_function(function, span),
{
    match function.body {
        Some(body) => {
            lemma_body_nodes(body, span);
            lemma_first(function.sig.span, body_spans(body), span);
        },
        None => lemma_first(function.sig.span, Seq::empty(), span),
    }
}

proof fn lemma_field_nodes(field: FieldDef, span: Span)
    ensures
        field_spans(field).contains(span) <==> is_node_of_field(field, span),
{
    match field.init {
        Some(init) => {
            lemma_first(init.span, init.exprs@, span);
            lemma_first(field.span, seq![init.span] + init.exprs@, span);
        },
        None => lemma_first(field.span, Seq::empty(), span),
    }
}

proof fn lemma_contract_item_nodes(item: ContractItem, span: Span)
    ensures
        contract_item_spans(item).contains(span) <==> contract_item_span(item) == span || (
        item matches ContractItem::FunctionDef(function) && is_node_of_function(function, span)),
{
    match item {
        ContractItem::FunctionDef(function) => {
            lemma_function_nodes(function, span);
            lemma_first(contract_item_span(item), function_spans(function), span);
        },
        _ => lemma_first(contract_item_span(item), Seq::empty(), span),
    }
}

/// What can be selected of an item is the item, its members, and the nodes in them.
pub proof fn law_nodes_of_item(item: Item, span: Span)
    ensures
        item_spans(item).contains(span) <==> is_node_of_item(item, span),
{
    match item {
        Item::FunctionDef(function) => {
            lemma_function_nodes(function, span);
            lemma_first(item_span(item), function_spans(function), span);
        },
        Item::ClassDef(class) => {
            let f = |method: ClassMethod| method.sig.span;
            lemma_mapped(class.methods@, f, span);
            lemma_first(item_span(item), class.methods@.map_values(f), span);
            assert(class.methods@.map_values(f).contains(span) <==> exists|k: int|
                0 <= k < class.methods@.len() && (#[trigger] class.methods@[k]).sig.span == span);
        },
        Item::InstanceDef(instance) => {
            let f = |method: FunctionDef| function_spans(method);
            let all = concat_map(instance.methods@, f);
            law_concat_map(instance.methods@, f);
            lemma_first(item_span(item), all, span);
            assert forall|k: int| 0 <= k < instance.methods@.len() implies (f(
                #[trigger] instance.methods@[k],
            ).contains(span) <==> is_node_of_function(instance.methods@[k], span)) by {
                lemma_function_nodes(instance.methods@[k], span);
            }
        },
        Item::ContractDef(contract) => {
            let f = |field: FieldDef| field_spans(field);
            let g = |item: ContractItem| contract_item_spans(item);
            let fields = concat_map(contract.fields@, f);
            let items = concat_map(contract.items@, g);
            law_concat_map(contract.fields@, f);
            law_concat_map(contract.items@, g);
            law_joined(fields, items);
            lemma_first(item_span(item), fields + items, span);
            assert forall|k: int| 0 <= k < contract.fields@.len() implies (f(
                #[trigger] contract.fields@[k],
            ).contains(span) <==> is_node_of_field(contract.fields@[k], span)) by {
                lemma_field_nodes(contract.fields@[k], span);
            }
            assert forall|k: int| 0 <= k < contract.items@.len() implies (g(
                #[trigger] contract.items@[k],
            ).contains(span) <==> contract_item_span(contract.items@[k]) == span || (
            contract.items@[k] matches ContractItem::FunctionDef(function) && is_node_of_function(
                function,
                span,
            ))) by {
                lemma_contract_item_nodes(contract.items@[k], span);
            }
        },
        _ => lemma_first(item_span(item), Seq::empty(), span),
    }
}

proof fn lemma_ranges(spans: Seq<Span>, source_len: nat, span: Span)
    requires
        spans.contains(span),
        span.start < span.end <= source_len,
    ensures
        ranges_of(spans, source_len).contains(
            (ByteRange { start: span.start as usize, end: span.end as usize }),
        ),
    decreases spans.len(),
{
    let front = spans.drop_last();
    let range = ByteRange { start: span.start as usize, end: span.end as usize };
    let before = ranges_of(front, source_len);
    let all = ranges_of(spans, source_len);
    if spans.last() == span {
        assert(all[all.len() - 1] == range);
    } else {
        let i = choose|i: int| 0 <= i < spans.len() && spans[i] == span;
        assert(front[i] == span);
        lemma_ranges(front, source_len, span);
        let k = choose|k: int| 0 <= k < before.len() && before[k] == range;
        assert(all[k] == range);
    }
}

proof fn lemma_holding(ranges: Seq<ByteRange>, offset: int, range: ByteRange)
    requires
        ranges.contains(range),
        range.start <= offset <= range.end,
    ensures
        holding(ranges, offset).contains(range),
    decreases ranges.len(),
{
    let front = ranges.drop_last();
    let before = holding(front, offset);
    let all = holding(ranges, offset);
    if ranges.last() == range {
        assert(all[all.len() - 1] == range);
    } else {
        let i = choose|i: int| 0 <= i < ranges.len() && ranges[i] == range;
        assert(front[i] == range);
        lemma_holding(front, offset, range);
        let k = choose|k: int| 0 <= k < before.len() && before[k] == range;
        assert(all[k] == range);
    }
}

/// Whether a range is that of the token, of a pair of delimiters, of a comment or of a syntax node
/// at an offset.
pub open spec fn is_around(
    text: Seq<char>,
    module: Module,
    offset: int,
    range: ByteRange,
) -> bool {
    leaf_at(text, offset) == Some(range) || (range.start <= offset <= range.end && ((exists|k: int|
        0 <= k < scanned(text).delimiters.len() && (#[trigger] scanned(text).delimiters[k]).range
            == range) || scanned(text).block_comments.contains(range) || (exists|i: int, span: Span|
        0 <= i < module.items@.len() && #[trigger] is_node_of_item(module.items@[i], span)
            && range.start == span.start < span.end == range.end <= utf8(text).len())))
}

proof fn lemma_around(text: Seq<char>, module: Module, offset: int, range: ByteRange)
    requires
        is_around(text, module, offset, range),
    ensures
        nodes_around(text, Some(&module), offset).contains(range),
{
    let leaf = match leaf_at(text, offset) {
        Some(leaf) => seq![leaf],
        None => Seq::empty(),
    };
    let delimiters = delimiter_ranges(scanned(text).delimiters);
    let spans = module_spans(Some(&module));
    let ranges = ranges_of(spans, utf8(text).len());
    let a = holding(delimiters, offset);
    let b = holding(scanned(text).block_comments, offset);
    let c = holding(ranges, offset);
    law_joined(leaf, a);
    law_joined(leaf + a, b);
    law_joined(leaf + a + b, c);
    assert(nodes_around(text, Some(&module), offset) == leaf + a + b + c);
    if leaf_at(text, offset) == Some(range) {
        assert(leaf[0] == range);
        assert(leaf.contains(range));
    } else if exists|k: int|
        0 <= k < scanned(text).delimiters.len() && (#[trigger] scanned(text).delimiters[k]).range
            == range {
        let k = choose|k: int|
            0 <= k < scanned(text).delimiters.len() && (
            #[trigger] scanned(text).delimiters[k]).range == range;
        assert(delimiters[k] == range);
        lemma_holding(delimiters, offset, range);
    } else if scanned(text).block_comments.contains(range) {
        lemma_holding(scanned(text).block_comments, offset, range);
    } else {
        let (i, span) = choose|i: int, span: Span|
            0 <= i < module.items@.len() && #[trigger] is_node_of_item(module.items@[i], span)
                && range.start == span.start < span.end == range.end <= utf8(text).len();
        let f = |item: Item| item_spans(item);
        law_concat_map(module.items@, f);
        law_nodes_of_item(module.items@[i], span);
        assert(f(module.items@[i]).contains(span));
        assert(spans == concat_map(module.items@, f));
        lemma_ranges(spans, utf8(text).len(), span);
        lemma_holding(ranges, offset, range);
    }
}

/// Whether one of two ranges contains the other.
pub open spec fn in_line(a: ByteRange, b: ByteRange) -> bool {
    (a.start <= b.start && b.end <= a.end) || (b.start <= a.start && a.end <= b.end)
}

proof fn lemma_chain_from(ranges: Seq<ByteRange>)
    ensures
        forall|k: int|
            0 <= k < chain_of(ranges).len() ==> ranges.contains(#[trigger] chain_of(ranges)[k]),
    decreases ranges.len(),
{
    if ranges.len() > 0 {
        let front = ranges.drop_last();
        lemma_chain_from(front);
        assert forall|k: int| 0 <= k < chain_of(ranges).len() implies ranges.contains(
            #[trigger] chain_of(ranges)[k],
        ) by {
            if k < chain_of(front).len() {
                assert(front.contains(chain_of(front)[k]));
                let m = choose|m: int| 0 <= m < front.len() && front[m] == chain_of(front)[k];
                assert(ranges[m] == chain_of(ranges)[k]);
            } else {
                assert(ranges[ranges.len() - 1] == chain_of(ranges)[k]);
            }
        }
    }
}

proof fn lemma_chain_keeps(ranges: Seq<ByteRange>, range: ByteRange)
    requires
        in_order(ranges),
        ranges.contains(range),
        forall|i: int|
            0 <= i < ranges.len() ==> in_line(#[trigger] ranges[i], range) && ranges[i].start
                <= ranges[i].end,
    ensures
        chain_of(ranges).contains(range),
    decreases ranges.len(),
{
    let front = ranges.drop_last();
    let before = chain_of(front);
    let all = chain_of(ranges);
    assert forall|i: int| 0 <= i < front.len() implies #[trigger] front[i] == ranges[i] by {}
    if front.contains(range) {
        assert(in_order(front)) by {
            assert forall|i: int, j: int| 0 <= i < j < front.len() implies !(
            #[trigger] front[j]).before(#[trigger] front[i]) by {
                assert(!ranges[j].before(ranges[i]));
            }
        }
        lemma_chain_keeps(front, range);
        let k = choose|k: int| 0 <= k < before.len() && before[k] == range;
        assert(all[k] == range);
    } else {
        let at = choose|at: int| 0 <= at < ranges.len() && ranges[at] == range;
        if at < front.len() {
            assert(front[at] == range);
        }
        if ranges.len() > 1 {
            assert(front[ranges.len() - 2] == ranges[ranges.len() - 2]);
            assert(front.contains(ranges[ranges.len() - 2]));
        }
        if before.len() > 0 {
            lemma_chain_from(front);
            let last = before[before.len() - 1];
            assert(front.contains(last));
            let m = choose|m: int| 0 <= m < front.len() && front[m] == last;
            assert(!ranges[ranges.len() - 1].before(ranges[m]));
            assert(in_line(ranges[m], range));
        }
        assert(all[all.len() - 1] == range);
    }
}

/// The token, the delimiters, the comments and the syntax nodes around an offset are all selected
/// on the way out, but for one that another range at the offset cuts.
pub proof fn law_nodes_selected(
    text: Seq<char>,
    module: Module,
    offset: int,
    range: ByteRange,
)
    requires
        is_around(text, module, offset, range),
        forall|i: int|
            0 <= i < candidates_at(text, Some(&module), offset).len() ==> in_line(
                #[trigger] candidates_at(text, Some(&module), offset)[i],
                range,
            ) && candidates_at(text, Some(&module), offset)[i].start <= candidates_at(
                text,
                Some(&module),
                offset,
            )[i].end,
    ensures
        selection_chain(text, Some(&module), offset).contains(range),
{
    broadcast use vstd::seq_lib::group_to_multiset_ensures;

    let candidates = candidates_at(text, Some(&module), offset);
    let nodes = nodes_around(text, Some(&module), offset);
    let ordered = sorted(candidates);
    lemma_around(text, module, offset, range);
    let k = choose|k: int| 0 <= k < nodes.len() && nodes[k] == range;
    assert(candidates[k] == range);
    assert(candidates.contains(range));
    law_sorted(candidates);
    assert(ordered.to_multiset().count(range) > 0);
    assert(ordered.contains(range));
    assert forall|i: int| 0 <= i < ordered.len() implies in_line(#[trigger] ordered[i], range)
        && ordered[i].start <= ordered[i].end by {
        assert(ordered.to_multiset().count(ordered[i]) > 0);
        assert(candidates.contains(ordered[i]));
        let m = choose|m: int| 0 <= m < candidates.len() && candidates[m] == ordered[i];
        assert(in_line(candidates[m], range));
    }
    lemma_chain_keeps(ordered, range);
}

proof fn lemma_line_start_bounds(bytes: Seq<u8>, offset: int)
    requires
        0 <= offset <= bytes.len(),
    ensures
        0 <= line_start(bytes, offset) <= offset,
        line_start(bytes, offset) == 0 || bytes[line_start(bytes, offset) - 1] == 0x0a,
        forall|i: int| line_start(bytes, offset) <= i < offset ==> #[trigger] bytes[i] != 0x0a,
    decreases offset,
{
    if offset > 0 && bytes[offset - 1] != 0x0a {
        lemma_line_start_bounds(bytes, offset - 1);
    }
}

proof fn lemma_line_end_bounds(bytes: Seq<u8>, offset: int)
    requires
        0 <= offset <= bytes.len(),
    ensures
        offset <= line_end(bytes, offset) <= bytes.len(),
        line_end(bytes, offset) == bytes.len() || bytes[line_end(bytes, offset)] == 0x0a,
        forall|i: int| offset <= i < line_end(bytes, offset) ==> #[trigger] bytes[i] != 0x0a,
    decreases bytes.len() - offset,
{
    if offset < bytes.len() && bytes[offset] != 0x0a {
        lemma_line_end_bounds(bytes, offset + 1);
    }
}

/// The line of an offset begins behind the line ending before it and goes up to the next one, and
/// no line ending is in it.
pub proof fn law_line_around(text: Seq<char>, offset: int)
    requires
        utf8(text).len() < u32::MAX,
        0 <= offset <= utf8(text).len(),
    ensures
        ({
            let line = line_at(text, offset);
            let bytes = utf8(text);
            &&& line.start <= offset
            &&& line.start == 0 || bytes[line.start - 1] == 0x0a
            &&& forall|i: int| line.start <= i < line.end ==> #[trigger] bytes[i] != 0x0a
            &&& line.end == bytes.len() || bytes[line.end as int] == 0x0a || (bytes[line.end as int]
                == 0x0d && (line.end + 1 == bytes.len() || bytes[line.end + 1] == 0x0a))
            &&& offset <= line.end || (offset == line.end + 1 && bytes[line.end as int] == 0x0d)
        }),
{
    lemma_line_start_bounds(utf8(text), offset);
    lemma_line_end_bounds(utf8(text), offset);
}

} // verus!
