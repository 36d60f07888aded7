//! Hierarchical smart-selection ranges.
//!
//! Each requested position receives an innermost token followed by containing lexical
//! delimiters, syntax nodes, its source line, enclosing items, and finally the full module. The
//! lexical layers keep selection useful while the parser is recovering from incomplete edits.
use vstd::prelude::*;
use vstd::slice::slice_subrange;
use vstd::utf8::{
    encode_scalar, encode_utf8, encode_utf8_valid_utf8, is_char_boundary,
    is_char_boundary_start_end_of_seq,
};

use crate::folding::{
    delimiter_ok, law_scanned, lemma_line_start, line_start, line_start_offset,
};
use crate::hir::{
    contract_item_span, item_span, ClassMethod, ContractDef, ContractItem, Expr, FieldDef,
    FuncBody, FunctionDef, Item, Module, Pat, Span, Stmt,
};
use crate::line_index::{
    byte_at, char_index, lemma_ascii_boundary, lemma_boundary_iff, lemma_chars_before,
    lemma_chars_before_prefix, lemma_cut, lemma_shape_bytes, lemma_utf8_concat, range_at, shape,
    LineIndexExt,
};
use crate::order::{in_order, law_sorted, sort, sorted, Ordered};
use crate::protocol::{Position, SelectionRange};
use crate::scan::{
    block_end, find_comment_end, find_line_end, find_string_end, has_pair, is_opening,
    lemma_comment_end, lemma_line_end, lemma_string_end, line_end, no_scan, opening_of, pair_at,
    scan_from, scan_source, scanned, string_end, ByteRange, DelimiterRange, Scan,
};
use crate::seqs::{concat_map, lemma_concat_step};
use crate::state::WorldState;
use crate::table::lookup;
use crate::text::{alphabetic, alphanumeric, to_chars, utf8, white_space};
use crate::url::Url;

verus! {

/// The byte offset at which a character begins.
pub open spec fn byte_offset(text: Seq<char>, k: int) -> int {
    utf8(text.take(k)).len() as int
}

pub proof fn lemma_byte_offset(text: Seq<char>, k: int)
    requires
        0 <= k <= text.len(),
    ensures
        byte_offset(text, k) <= utf8(text).len(),
        is_char_boundary(utf8(text), byte_offset(text, k)),
        char_index(text, byte_offset(text, k)) == k,
        k < text.len() ==> byte_offset(text, k + 1) == byte_offset(text, k) + encode_scalar(
            text[k] as u32,
        ).len() && encode_scalar(text[k] as u32).len() >= 1,
        byte_offset(text, text.len() as int) == utf8(text).len(),
        byte_offset(text, 0) == 0,
{
    assert(text == text.take(k) + text.skip(k));
    lemma_utf8_concat(text.take(k), text.skip(k));
    assert(shape(text.take(k)) == shape(text).take(k));
    lemma_shape_bytes(text.take(k));
    lemma_chars_before_prefix(shape(text), k);
    lemma_boundary_iff(text, byte_offset(text, k));
    assert(text.take(text.len() as int) == text);
    assert(text.take(0) == Seq::<char>::empty());
    if k < text.len() {
        assert(text.take(k + 1) == text.take(k) + seq![text[k]]);
        lemma_utf8_concat(text.take(k), seq![text[k]]);
        reveal_with_fuel(encode_utf8, 2);
        assert(seq![text[k]].drop_first() == Seq::<char>::empty());
        assert(utf8(seq![text[k]]) == encode_scalar(text[k] as u32));
    }
}

/// ASCII white space as far as tokens are parted by it.
pub open spec fn ascii_space(byte: u8) -> bool {
    byte == 0x20 || byte == 0x09 || byte == 0x0a || byte == 0x0c || byte == 0x0d
}

pub open spec fn ascii_digit(byte: u8) -> bool {
    0x30 <= byte <= 0x39
}

pub open spec fn ascii_hex_digit(byte: u8) -> bool {
    ascii_digit(byte) || 0x41 <= byte <= 0x46 || 0x61 <= byte <= 0x66
}

/// The index behind a run of digits.
pub open spec fn digits_end(bytes: Seq<u8>, i: int, hex: bool) -> int
    decreases bytes.len() - i,
{
    if i < bytes.len() && (if hex {
        ascii_hex_digit(bytes[i])
    } else {
        ascii_digit(bytes[i])
    }) {
        digits_end(bytes, i + 1, hex)
    } else {
        i
    }
}

proof fn lemma_digits_end(bytes: Seq<u8>, i: int, hex: bool)
    requires
        0 <= i <= bytes.len(),
    ensures
        i <= digits_end(bytes, i, hex) <= bytes.len(),
        i < digits_end(bytes, i, hex) ==> bytes[digits_end(bytes, i, hex) - 1] < 0x80,
    decreases bytes.len() - i,
{
    if i < bytes.len() && (if hex {
        ascii_hex_digit(bytes[i])
    } else {
        ascii_digit(bytes[i])
    }) {
        lemma_digits_end(bytes, i + 1, hex);
    }
}

/// The index of the character behind an identifier whose first characters lie before `k`.
/// Hyphens stand only between identifier segments, not in an ordinary subtraction.
pub open spec fn identifier_end(text: Seq<char>, k: int) -> int
    decreases text.len() - k,
{
    if k >= text.len() {
        k
    } else if alphanumeric(text[k]) || text[k] == '_' {
        identifier_end(text, k + 1)
    } else if text[k] == '-' && k + 1 < text.len() && alphabetic(text[k + 1]) {
        identifier_end(text, k + 1)
    } else {
        k
    }
}

proof fn lemma_identifier_end(text: Seq<char>, k: int)
    requires
        0 <= k <= text.len(),
    ensures
        k <= identifier_end(text, k) <= text.len(),
    decreases text.len() - k,
{
    if k < text.len() && (alphanumeric(text[k]) || text[k] == '_' || (text[k] == '-' && k + 1
        < text.len() && alphabetic(text[k + 1]))) {
        lemma_identifier_end(text, k + 1);
    }
}

/// Whether two bytes are an operator.
pub open spec fn two_byte_operator(first: u8, second: u8) -> bool {
    ||| (second == 0x3d && (first == 0x3a || first == 0x3d || first == 0x21 || first == 0x3e
        || first == 0x3c || first == 0x2b || first == 0x2d || first == 0x5e || first == 0x26
        || first == 0x7c || first == 0x25))
    ||| (first == 0x3d && second == 0x3e)
    ||| (first == 0x26 && second == 0x26)
    ||| (first == 0x7c && second == 0x7c)
}

/// Whether the bytes are one of the operators `:=`, `=>`, `==`, `!=`, `>=`, `<=`, `&&`, `||`,
/// `+=`, `-=`, `^=`, `&=`, `|=` and `%=`.
pub fn is_two_byte_operator(bytes: Option<&[u8]>) -> (found: bool)
    ensures
        found == (bytes matches Some(bytes) && bytes@.len() == 2 && two_byte_operator(
            bytes@[0],
            bytes@[1],
        )),
{
    let bytes = match bytes {
        Some(bytes) => bytes,
        None => return false,
    };
    if bytes.len() != 2 {
        return false;
    }
    let first: u8 = bytes[0];
    let second: u8 = bytes[1];
    (second == 0x3d && (first == 0x3a || first == 0x3d || first == 0x21 || first == 0x3e || first
        == 0x3c || first == 0x2b || first == 0x2d || first == 0x5e || first == 0x26 || first == 0x7c
        || first == 0x25)) || (first == 0x3d && second == 0x3e) || (first == 0x26 && second == 0x26)
        || (first == 0x7c && second == 0x7c)
}

/// The index behind the token that begins at `i`, which is no white space.
pub open spec fn token_end(text: Seq<char>, i: int) -> int {
    let bytes = utf8(text);
    if pair_at(bytes, i, 0x2f, 0x2f) {
        line_end(bytes, i + 2)
    } else if pair_at(bytes, i, 0x2f, 0x2a) {
        block_end(bytes, i)
    } else if bytes[i] == 0x22 {
        string_end(bytes, i + 1)
    } else if ascii_digit(bytes[i]) {
        if pair_at(bytes, i, 0x30, 0x78) && i + 2 < bytes.len() && ascii_hex_digit(bytes[i + 2]) {
            digits_end(bytes, i + 2, true)
        } else {
            digits_end(bytes, i + 1, false)
        }
    } else {
        let k = char_index(text, i);
        if alphabetic(text[k]) {
            byte_offset(text, identifier_end(text, k + 1))
        } else if i + 1 < bytes.len() && two_byte_operator(bytes[i], bytes[i + 1]) {
            i + 2
        } else {
            byte_offset(text, k + 1)
        }
    }
}

pub proof fn lemma_offsets_grow(text: Seq<char>, j: int, k: int)
    requires
        0 <= j <= k <= text.len(),
    ensures
        byte_offset(text, j) + (k - j) <= byte_offset(text, k),
    decreases k - j,
{
    if j < k {
        lemma_offsets_grow(text, j, k - 1);
        lemma_byte_offset(text, k - 1);
    }
}

pub proof fn lemma_token_end(text: Seq<char>, i: int)
    requires
        0 <= i < utf8(text).len(),
    ensures
        i < token_end(text, i) <= utf8(text).len(),
        is_char_boundary(utf8(text), i) ==> is_char_boundary(utf8(text), token_end(text, i)),
{
    let bytes = utf8(text);
    let end = token_end(text, i);
    encode_utf8_valid_utf8(text);
    is_char_boundary_start_end_of_seq(bytes);
    if pair_at(bytes, i, 0x2f, 0x2f) {
        lemma_line_end(bytes, i + 2);
        if end < bytes.len() {
            lemma_ascii_boundary(text, end);
        }
    } else if pair_at(bytes, i, 0x2f, 0x2a) {
        lemma_comment_end(bytes, i + 2, 1);
        if end < bytes.len() {
            lemma_ascii_boundary(text, end - 1);
        }
    } else if bytes[i] == 0x22 {
        lemma_string_end(bytes, i + 1);
        if end < bytes.len() {
            lemma_ascii_boundary(text, end - 1);
        }
    } else if ascii_digit(bytes[i]) {
        if pair_at(bytes, i, 0x30, 0x78) && i + 2 < bytes.len() && ascii_hex_digit(bytes[i + 2]) {
            lemma_digits_end(bytes, i + 2, true);
            lemma_ascii_boundary(text, end - 1);
        } else {
            lemma_digits_end(bytes, i + 1, false);
            lemma_ascii_boundary(text, end - 1);
        }
    } else {
        let k = char_index(text, i);
        lemma_chars_before(shape(text), i);
        lemma_shape_bytes(text);
        assert(shape(text.take(k + 1)) == shape(text).take(k + 1));
        lemma_shape_bytes(text.take(k + 1));
        lemma_byte_offset(text, k + 1);
        if alphabetic(text[k]) {
            let last = identifier_end(text, k + 1);
            lemma_identifier_end(text, k + 1);
            lemma_byte_offset(text, last);
            lemma_offsets_grow(text, k + 1, last);
        } else if i + 1 < bytes.len() && two_byte_operator(bytes[i], bytes[i + 1]) {
            lemma_ascii_boundary(text, i + 1);
        }
    }
}

/// The token that ends at an offset is taken where the text ends or white space follows.
pub open spec fn taken_before(text: Seq<char>, offset: int, previous: Option<ByteRange>) -> Option<
    ByteRange,
> {
    if offset == utf8(text).len() || (offset < utf8(text).len() && white_space(
        text[char_index(text, offset)],
    )) {
        previous
    } else {
        None
    }
}

/// The token at an offset, looked for from `i` on. `previous` is the token that ends at the
/// offset, where it has been seen.
pub open spec fn leaf_from(text: Seq<char>, i: int, offset: int, previous: Option<ByteRange>) -> Option<
    ByteRange,
>
    decreases utf8(text).len() - i,
{
    if i < 0 || i >= utf8(text).len() {
        taken_before(text, offset, previous)
    } else if ascii_space(utf8(text)[i]) {
        leaf_from(text, i + 1, offset, previous)
    } else {
        proof {
            lemma_token_end(text, i);
        }
        let end = token_end(text, i);
        let range = ByteRange { start: i as usize, end: end as usize };
        let last = if end == offset {
            Some(range)
        } else {
            previous
        };
        if i <= offset < end {
            Some(range)
        } else if i > offset {
            taken_before(text, offset, last)
        } else {
            leaf_from(text, end, offset, last)
        }
    }
}

/// The token at an offset.
pub open spec fn leaf_at(text: Seq<char>, offset: int) -> Option<ByteRange> {
    leaf_from(text, 0, offset, None)
}

fn utf8_width(c: char) -> (width: usize)
    ensures
        width == encode_scalar(c as u32).len(),
{
    let code: u32 = c as u32;
    if code <= 0x7f {
        1
    } else if code <= 0x7ff {
        2
    } else if code <= 0xffff {
        3
    } else {
        4
    }
}

/// The characters of a text and the byte offsets at which they begin, with the end of the text.
struct CharTable {
    chars: Vec<char>,
    offsets: Vec<usize>,
}

spec fn tabulates(table: CharTable, text: Seq<char>) -> bool {
    &&& table.chars@ == text
    &&& table.offsets@.len() == text.len() + 1
    &&& forall|k: int| 0 <= k <= text.len() ==> #[trigger] table.offsets@[k] == byte_offset(text, k)
}

fn tabulate(source: &str) -> (table: CharTable)
    ensures
        tabulates(table, source@),
{
    let ghost text = source@;
    let bytes = source.as_bytes();
    let chars = to_chars(source);
    let limit: usize = bytes.len();
    let mut offsets: Vec<usize> = Vec::new();
    offsets.push(0);
    let mut k: usize = 0;
    proof {
        lemma_byte_offset(text, 0);
    }
    while k < chars.len()
        invariant
            k <= chars@.len(),
            chars@ == text,
            limit == utf8(text).len(),
            offsets@.len() == k + 1,
            forall|j: int| 0 <= j <= k ==> #[trigger] offsets@[j] == byte_offset(text, j),
        decreases chars@.len() - k,
    {
        proof {
            lemma_byte_offset(text, k as int);
            lemma_byte_offset(text, k + 1);
            assert(offsets@[k as int] == byte_offset(text, k as int));
        }
        let next: usize = offsets[k] + utf8_width(chars[k]);
        offsets.push(next);
        k += 1;
    }
    CharTable { chars, offsets }
}

/// Finds the end of an identifier.
fn find_identifier_end(table: &CharTable, start: usize, Ghost(text): Ghost<Seq<char>>) -> (end: usize)
    requires
        tabulates(*table, text),
        start <= text.len(),
    ensures
        end == identifier_end(text, start as int),
        start <= end <= text.len(),
{
    let mut k: usize = start;
    while k < table.chars.len() && (table.chars[k].is_alphanumeric() || table.chars[k] == '_' || (
    table.chars[k] == '-' && table.chars.len() - k > 1 && table.chars[k + 1].is_alphabetic()))
        invariant
            tabulates(*table, text),
            start <= k <= text.len(),
            identifier_end(text, k as int) == identifier_end(text, start as int),
        decreases text.len() - k,
    {
        k += 1;
    }
    k
}

fn find_digits_end(bytes: &[u8], start: usize, hex: bool) -> (end: usize)
    requires
        start <= bytes@.len(),
    ensures
        end == digits_end(bytes@, start as int, hex),
        start <= end <= bytes@.len(),
{
    let mut i: usize = start;
    while i < bytes.len() && ((0x30 <= bytes[i] && bytes[i] <= 0x39) || (hex && ((0x41 <= bytes[i]
        && bytes[i] <= 0x46) || (0x61 <= bytes[i] && bytes[i] <= 0x66))))
        invariant
            start <= i <= bytes@.len(),
            digits_end(bytes@, i as int, hex) == digits_end(bytes@, start as int, hex),
        decreases bytes@.len() - i,
    {
        i += 1;
    }
    i
}

/// Finds the end of the token that begins at a byte, which is the start of character `k`.
fn find_token_end(bytes: &[u8], table: &CharTable, i: usize, k: usize, Ghost(text): Ghost<
    Seq<char>,
>) -> (end: usize)
    requires
        bytes@ == utf8(text),
        tabulates(*table, text),
        i < bytes@.len(),
        k < text.len(),
        i == byte_offset(text, k as int),
        !ascii_space(bytes@[i as int]),
    ensures
        end == token_end(text, i as int),
        i < end <= bytes@.len(),
{
    proof {
        lemma_token_end(text, i as int);
        lemma_byte_offset(text, k as int);
        if pair_at(bytes@, i as int, 0x2f, 0x2a) {
            lemma_comment_end(bytes@, i + 2, 1);
        }
    }
    let count: usize = table.chars.len();
    let limit: usize = bytes.len();
    if has_pair(bytes, i, 0x2f, 0x2f) {
        find_line_end(bytes, i + 2)
    } else if has_pair(bytes, i, 0x2f, 0x2a) {
        match find_comment_end(bytes, i + 2) {
            Some(end) => end,
            None => bytes.len(),
        }
    } else if bytes[i] == 0x22 {
        find_string_end(bytes, i + 1)
    } else if 0x30 <= bytes[i] && bytes[i] <= 0x39 {
        if has_pair(bytes, i, 0x30, 0x78) && bytes.len() - i > 2 && ((0x30 <= bytes[i + 2]
            && bytes[i + 2] <= 0x39) || (0x41 <= bytes[i + 2] && bytes[i + 2] <= 0x46) || (0x61
            <= bytes[i + 2] && bytes[i + 2] <= 0x66)) {
            find_digits_end(bytes, i + 2, true)
        } else {
            find_digits_end(bytes, i + 1, false)
        }
    } else if table.chars[k].is_alphabetic() {
        let last = find_identifier_end(table, k + 1, Ghost(text));
        table.offsets[last]
    } else {
        let pair = if bytes.len() - i > 1 {
            Some(slice_subrange(bytes, i, i + 2))
        } else {
            None
        };
        if is_two_byte_operator(pair) {
            i + 2
        } else {
            table.offsets[k + 1]
        }
    }
}

/// Finds the token at an offset.
pub fn leaf_range_at(source: &str, offset: usize) -> (leaf: Option<ByteRange>)
    ensures
        leaf == leaf_at(source@, offset as int),
{
    let ghost text = source@;
    let bytes = source.as_bytes();
    let table = tabulate(source);
    let count: usize = table.chars.len();
    let mut i: usize = 0;
    let mut k: usize = 0;
    let mut previous: Option<ByteRange> = None;
    proof {
        lemma_byte_offset(text, 0);
        lemma_byte_offset(text, text.len() as int);
    }
    while i < bytes.len()
        invariant_except_break
            leaf_from(text, i as int, offset as int, previous) == leaf_at(text, offset as int),
        invariant
            text == source@,
            bytes@ == utf8(text),
            tabulates(table, text),
            count == text.len(),
            i <= bytes@.len(),
            k <= text.len(),
            i == byte_offset(text, k as int),
            byte_offset(text, text.len() as int) == bytes@.len(),
            previous is Some ==> offset <= bytes@.len() && is_char_boundary(bytes@, offset as int),
        ensures
            taken_before(text, offset as int, previous) == leaf_at(text, offset as int),
        decreases bytes@.len() - i,
    {
        let ghost before_i = i;
        proof {
            assert(k < text.len());
            lemma_byte_offset(text, k as int);
            lemma_byte_offset(text, k + 1);
        }
        if bytes[i] == 0x20 || bytes[i] == 0x09 || bytes[i] == 0x0a || bytes[i] == 0x0c || bytes[i]
            == 0x0d {
            proof {
                lemma_ascii_boundary(text, i as int);
                lemma_cut(text, i + 1);
            }
            i += 1;
            k += 1;
        } else {
            let end = find_token_end(bytes, &table, i, k, Ghost(text));
            let range = ByteRange { start: i, end };
            proof {
                lemma_token_end(text, i as int);
                lemma_cut(text, end as int);
            }
            if i <= offset && offset < end {
                return Some(range);
            }
            if end == offset {
                previous = Some(range);
            }
            if i > offset {
                break;
            }
            let ghost goal = char_index(text, end as int);
            proof {
                if goal <= k {
                    lemma_offsets_grow(text, goal, k as int);
                }
            }
            while table.offsets[k] < end
                invariant
                    tabulates(table, text),
                    count == text.len(),
                    k <= goal <= text.len(),
                    byte_offset(text, goal) == end,
                decreases goal - k,
            {
                proof {
                    if k == goal {
                        assert(table.offsets@[k as int] == byte_offset(text, k as int));
                    }
                }
                k += 1;
            }
            proof {
                if k < goal {
                    lemma_offsets_grow(text, k as int, goal);
                }
            }
            i = end;
        }
    }
    if offset == bytes.len() || previous.is_none() {
        return previous;
    }
    proof {
        lemma_cut(text, offset as int);
        lemma_boundary_iff(text, offset as int);
    }
    let mut at: usize = 0;
    while table.offsets[at] < offset
        invariant
            tabulates(table, text),
            at <= char_index(text, offset as int) < text.len(),
            byte_offset(text, char_index(text, offset as int)) == offset,
        decreases text.len() - at,
    {
        proof {
            if at == char_index(text, offset as int) {
                assert(table.offsets@[at as int] == byte_offset(text, at as int));
            }
        }
        at += 1;
    }
    proof {
        if at < char_index(text, offset as int) {
            lemma_offsets_grow(text, at as int, char_index(text, offset as int));
        }
    }
    if table.chars[at].is_whitespace() {
        previous
    } else {
        None
    }
}

/// The line of an offset without its line ending.
pub open spec fn line_at(text: Seq<char>, offset: int) -> ByteRange {
    let bytes = utf8(text);
    let start = line_start(bytes, offset);
    let end = line_end(bytes, offset);
    ByteRange {
        start: start as usize,
        end: if end > start && bytes[end - 1] == 0x0d {
            (end - 1) as usize
        } else {
            end as usize
        },
    }
}

/// Finds the line of an offset.
pub fn line_range(source: &str, offset: usize) -> (line: ByteRange)
    requires
        offset <= utf8(source@).len(),
    ensures
        line == line_at(source@, offset as int),
{
    let bytes = source.as_bytes();
    let start = line_start_offset(source, offset);
    let mut end: usize = find_line_end(bytes, offset);
    if end > start && bytes[end - 1] == 0x0d {
        end -= 1;
    }
    ByteRange { start, end }
}

pub open spec fn body_spans(body: FuncBody) -> Seq<Span> {
    seq![body.span] + body.stmts@.map_values(|stmt: Stmt| stmt.span)
        + body.exprs@.map_values(|expr: Expr| expr.span) + body.pats@.map_values(
        |pat: Pat| pat.span,
    )
}

pub open spec fn function_spans(function: FunctionDef) -> Seq<Span> {
    seq![function.sig.span] + match function.body {
        Some(body) => body_spans(body),
        None => Seq::empty(),
    }
}

pub open spec fn field_spans(field: FieldDef) -> Seq<Span> {
    seq![field.span] + match field.init {
        Some(init) => seq![init.span] + init.exprs@,
        None => Seq::empty(),
    }
}

pub open spec fn contract_item_spans(item: ContractItem) -> Seq<Span> {
    seq![contract_item_span(item)] + match item {
        ContractItem::FunctionDef(function) => function_spans(function),
        _ => Seq::empty(),
    }
}

/// The syntax nodes of an item that can be selected: the item, its members, their signatures and
/// the statements, expressions and patterns of their bodies.
pub open spec fn item_spans(item: Item) -> Seq<Span> {
    seq![item_span(item)] + match item {
        Item::FunctionDef(function) => function_spans(function),
        Item::ClassDef(class) => class.methods@.map_values(
            |method: ClassMethod| method.sig.span,
        ),
        Item::InstanceDef(instance) => concat_map(
            instance.methods@,
            |method: FunctionDef| function_spans(method),
        ),
        Item::ContractDef(contract) => concat_map(
            contract.fields@,
            |field: FieldDef| field_spans(field),
        ) + concat_map(contract.items@, |item: ContractItem| contract_item_spans(item)),
        _ => Seq::empty(),
    }
}

/// The byte ranges of the spans that are not empty and lie in the text.
pub open spec fn ranges_of(spans: Seq<Span>, source_len: nat) -> Seq<ByteRange>
    decreases spans.len(),
{
    if spans.len() == 0 {
        Seq::empty()
    } else {
        let before = ranges_of(spans.drop_last(), source_len);
        let span = spans.last();
        if span.start < span.end && span.end <= source_len {
            before.push(ByteRange { start: span.start as usize, end: span.end as usize })
        } else {
            before
        }
    }
}

pub open spec fn module_spans(module: Option<&Module>) -> Seq<Span> {
    match module {
        Some(module) => concat_map(module.items@, |item: Item| item_spans(item)),
        None => Seq::empty(),
    }
}

fn push_spans_of_body(body: &FuncBody, spans: &mut Vec<Span>)
    ensures
        final(spans)@ == old(spans)@ + body_spans(*body),
{
    let ghost first = spans@;
    spans.push(body.span);
    let ghost stmts = body.stmts@.map_values(|stmt: Stmt| stmt.span);
    let ghost exprs = body.exprs@.map_values(|expr: Expr| expr.span);
    let ghost pats = body.pats@.map_values(|pat: Pat| pat.span);
    let mut i: usize = 0;
    let ghost one = first + seq![body.span];
    assert(spans@ == one + stmts.take(0));
    while i < body.stmts.len()
        invariant
            i <= body.stmts@.len(),
            stmts == body.stmts@.map_values(|stmt: Stmt| stmt.span),
            spans@ == one + stmts.take(i as int),
        decreases body.stmts@.len() - i,
    {
        spans.push(body.stmts[i].span);
        assert(stmts.take(i + 1) == stmts.take(i as int).push(stmts[i as int]));
        i += 1;
        assert(spans@ == one + stmts.take(i as int));
    }
    let ghost two = spans@;
    assert(stmts.take(i as int) == stmts);
    let mut k: usize = 0;
    assert(spans@ == two + exprs.take(0));
    while k < body.exprs.len()
        invariant
            k <= body.exprs@.len(),
            exprs == body.exprs@.map_values(|expr: Expr| expr.span),
            spans@ == two + exprs.take(k as int),
        decreases body.exprs@.len() - k,
    {
        spans.push(body.exprs[k].span);
        assert(exprs.take(k + 1) == exprs.take(k as int).push(exprs[k as int]));
        k += 1;
        assert(spans@ == two + exprs.take(k as int));
    }
    let ghost three = spans@;
    assert(exprs.take(k as int) == exprs);
    let mut m: usize = 0;
    assert(spans@ == three + pats.take(0));
    while m < body.pats.len()
        invariant
            m <= body.pats@.len(),
            pats == body.pats@.map_values(|pat: Pat| pat.span),
            spans@ == three + pats.take(m as int),
        decreases body.pats@.len() - m,
    {
        spans.push(body.pats[m].span);
        assert(pats.take(m + 1) == pats.take(m as int).push(pats[m as int]));
        m += 1;
        assert(spans@ == three + pats.take(m as int));
    }
    assert(pats.take(m as int) == pats);
    assert(spans@ == first + body_spans(*body));
}

fn collect_function_spans(function: &FunctionDef, spans: &mut Vec<Span>)
    ensures
        final(spans)@ == old(spans)@ + function_spans(*function),
{
    let ghost first = spans@;
    spans.push(function.sig.span);
    if let Some(body) = &function.body {
        push_spans_of_body(body, spans);
    }
    assert(spans@ == first + function_spans(*function));
}

fn collect_field_spans(field: &FieldDef, spans: &mut Vec<Span>)
    ensures
        final(spans)@ == old(spans)@ + field_spans(*field),
{
    let ghost first = spans@;
    spans.push(field.span);
    if let Some(init) = &field.init {
        spans.push(init.span);
        let ghost head = spans@;
        let mut i: usize = 0;
        assert(spans@ == head + init.exprs@.take(0));
        while i < init.exprs.len()
            invariant
                i <= init.exprs@.len(),
                spans@ == head + init.exprs@.take(i as int),
            decreases init.exprs@.len() - i,
        {
            spans.push(init.exprs[i]);
            assert(init.exprs@.take(i + 1) == init.exprs@.take(i as int).push(
                init.exprs@[i as int],
            ));
            i += 1;
            assert(spans@ == head + init.exprs@.take(i as int));
        }
        assert(init.exprs@.take(i as int) == init.exprs@);
    }
    assert(spans@ == first + field_spans(*field));
}

fn collect_contract_spans(contract: &ContractDef, spans: &mut Vec<Span>)
    ensures
        final(spans)@ == old(spans)@ + (concat_map(
            contract.fields@,
            |field: FieldDef| field_spans(field),
        ) + concat_map(contract.items@, |item: ContractItem| contract_item_spans(item))),
{
    let ghost first = spans@;
    let ghost of_field = |field: FieldDef| field_spans(field);
    let ghost of_item = |item: ContractItem| contract_item_spans(item);
    let mut i: usize = 0;
    assert(contract.fields@.take(0) == Seq::<FieldDef>::empty());
    assert(first + Seq::<Span>::empty() == first);
    while i < contract.fields.len()
        invariant
            i <= contract.fields@.len(),
            of_field == |field: FieldDef| field_spans(field),
            spans@ == first + concat_map(contract.fields@.take(i as int), of_field),
        decreases contract.fields@.len() - i,
    {
        proof {
            lemma_concat_step(contract.fields@, of_field, i as int);
        }
        let ghost before = spans@;
        collect_field_spans(&contract.fields[i], spans);
        i += 1;
        assert(spans@ == first + concat_map(contract.fields@.take(i as int), of_field));
    }
    assert(contract.fields@.take(i as int) == contract.fields@);
    let ghost fields = spans@;
    let mut k: usize = 0;
    assert(contract.items@.take(0) == Seq::<ContractItem>::empty());
    assert(fields + Seq::<Span>::empty() == fields);
    while k < contract.items.len()
        invariant
            k <= contract.items@.len(),
            of_item == |item: ContractItem| contract_item_spans(item),
            spans@ == fields + concat_map(contract.items@.take(k as int), of_item),
        decreases contract.items@.len() - k,
    {
        proof {
            lemma_concat_step(contract.items@, of_item, k as int);
        }
        let ghost before = spans@;
        spans.push(contract.items[k].span());
        if let ContractItem::FunctionDef(function) = &contract.items[k] {
            collect_function_spans(function, spans);
        }
        assert(spans@ == before + contract_item_spans(contract.items@[k as int]));
        k += 1;
        assert(spans@ == fields + concat_map(contract.items@.take(k as int), of_item));
    }
    assert(contract.items@.take(k as int) == contract.items@);
    assert(spans@ == first + (concat_map(contract.fields@, of_field) + concat_map(
        contract.items@,
        of_item,
    )));
}

fn collect_item_spans(item: &Item, spans: &mut Vec<Span>)
    ensures
        final(spans)@ == old(spans)@ + item_spans(*item),
{
    let ghost first = spans@;
    spans.push(item.span());
    let ghost head = spans@;
    match item {
        Item::FunctionDef(function) => collect_function_spans(function, spans),
        Item::ClassDef(class) => {
            let ghost methods = class.methods@.map_values(
                |method: ClassMethod| method.sig.span,
            );
            let mut i: usize = 0;
            assert(spans@ == head + methods.take(0));
            while i < class.methods.len()
                invariant
                    i <= class.methods@.len(),
                    methods == class.methods@.map_values(
                        |method: ClassMethod| method.sig.span,
                    ),
                    spans@ == head + methods.take(i as int),
                decreases class.methods@.len() - i,
            {
                spans.push(class.methods[i].sig.span);
                assert(methods.take(i + 1) == methods.take(i as int).push(methods[i as int]));
                i += 1;
                assert(spans@ == head + methods.take(i as int));
            }
            assert(methods.take(i as int) == methods);
        },
        Item::InstanceDef(instance) => {
            let ghost of_method = |method: FunctionDef| function_spans(method);
            let mut i: usize = 0;
            assert(instance.methods@.take(0) == Seq::<FunctionDef>::empty());
            assert(head + Seq::<Span>::empty() == head);
            while i < instance.methods.len()
                invariant
                    i <= instance.methods@.len(),
                    of_method == |method: FunctionDef| function_spans(method),
                    spans@ == head + concat_map(instance.methods@.take(i as int), of_method),
                decreases instance.methods@.len() - i,
            {
                proof {
                    lemma_concat_step(instance.methods@, of_method, i as int);
                }
                collect_function_spans(&instance.methods[i], spans);
                i += 1;
                assert(spans@ == head + concat_map(instance.methods@.take(i as int), of_method));
            }
            assert(instance.methods@.take(i as int) == instance.methods@);
        },
        Item::ContractDef(contract) => collect_contract_spans(contract, spans),
        _ => {},
    }
    assert(spans@ == first + item_spans(*item));
}

/// Byte ranges of the syntax nodes that can be selected.
pub fn hir_selection_ranges(module: Option<&Module>, source_len: usize) -> (ranges: Vec<ByteRange>)
    ensures
        ranges@ == ranges_of(module_spans(module), source_len as nat),
{
    let mut ranges: Vec<ByteRange> = Vec::new();
    let module = match module {
        Some(module) => module,
        None => return ranges,
    };
    let mut spans: Vec<Span> = Vec::new();
    let ghost of_item = |item: Item| item_spans(item);
    let mut i: usize = 0;
    assert(module.items@.take(0) == Seq::<Item>::empty());
    while i < module.items.len()
        invariant
            i <= module.items@.len(),
            of_item == |item: Item| item_spans(item),
            spans@ == concat_map(module.items@.take(i as int), of_item),
        decreases module.items@.len() - i,
    {
        proof {
            lemma_concat_step(module.items@, of_item, i as int);
        }
        collect_item_spans(&module.items[i], &mut spans);
        i += 1;
    }
    assert(module.items@.take(i as int) == module.items@);
    let ghost all = spans@;
    let mut k: usize = 0;
    assert(all.take(0) == Seq::<Span>::empty());
    while k < spans.len()
        invariant
            k <= spans@.len(),
            all == spans@,
            ranges@ == ranges_of(all.take(k as int), source_len as nat),
        decreases spans@.len() - k,
    {
        assert(all.take(k + 1).drop_last() == all.take(k as int));
        let span = spans[k];
        if span.start < span.end && span.end as usize <= source_len {
            ranges.push(ByteRange { start: span.start as usize, end: span.end as usize });
        }
        k += 1;
    }
    assert(all.take(k as int) == all);
    ranges
}

impl Ordered for ByteRange {
    /// Shorter ranges first; of equally long ones the later.
    open spec fn before(self, other: ByteRange) -> bool {
        if self.spec_len() != other.spec_len() {
            self.spec_len() < other.spec_len()
        } else if self.start != other.start {
            self.start > other.start
        } else {
            self.end < other.end
        }
    }

    fn is_before(&self, other: &ByteRange) -> (before: bool) {
        if self.len() != other.len() {
            self.len() < other.len()
        } else if self.start != other.start {
            self.start > other.start
        } else {
            self.end < other.end
        }
    }

    proof fn lemma_asymmetric(a: ByteRange, b: ByteRange) {
    }

    proof fn lemma_not_behind(a: ByteRange, b: ByteRange, c: ByteRange) {
    }
}

/// The ranges that hold an offset.
pub open spec fn holding(ranges: Seq<ByteRange>, offset: int) -> Seq<ByteRange>
    decreases ranges.len(),
{
    if ranges.len() == 0 {
        Seq::empty()
    } else {
        let before = holding(ranges.drop_last(), offset);
        if ranges.last().spec_contains_offset(offset) {
            before.push(ranges.last())
        } else {
            before
        }
    }
}

pub open spec fn delimiter_ranges(delimiters: Seq<DelimiterRange>) -> Seq<ByteRange> {
    delimiters.map_values(|delimiter: DelimiterRange| delimiter.range)
}

/// Whether a line contains, or is contained in, each of some ranges.
pub open spec fn line_fits(line: ByteRange, ranges: Seq<ByteRange>) -> bool {
    forall|i: int|
        0 <= i < ranges.len() ==> line.spec_contains_range(#[trigger] ranges[i])
            || ranges[i].spec_contains_range(line)
}

/// The tokens, delimiters, comments and syntax nodes around an offset.
pub open spec fn nodes_around(text: Seq<char>, module: Option<&Module>, offset: int) -> Seq<
    ByteRange,
> {
    (match leaf_at(text, offset) {
        Some(leaf) => seq![leaf],
        None => Seq::empty(),
    }) + holding(delimiter_ranges(scanned(text).delimiters), offset) + holding(
        scanned(text).block_comments,
        offset,
    ) + holding(ranges_of(module_spans(module), utf8(text).len()), offset)
}

/// All ranges around an offset: its line is one where it fits the others, the whole text is the
/// last.
pub open spec fn candidates_at(text: Seq<char>, module: Option<&Module>, offset: int) -> Seq<
    ByteRange,
> {
    let nodes = nodes_around(text, module, offset);
    let line = line_at(text, offset);
    let whole = ByteRange { start: 0, end: utf8(text).len() as usize };
    if line_fits(line, nodes) {
        nodes.push(line).push(whole)
    } else {
        nodes.push(whole)
    }
}

/// The ranges of a list that contain the last one kept before them, each once.
pub open spec fn chain_of(ranges: Seq<ByteRange>) -> Seq<ByteRange>
    decreases ranges.len(),
{
    if ranges.len() == 0 {
        Seq::empty()
    } else {
        let before = chain_of(ranges.drop_last());
        let repeated = ranges.len() > 1 && ranges[ranges.len() - 2] == ranges.last();
        if !repeated && (before.len() == 0 || ranges.last().spec_contains_range(before.last())) {
            before.push(ranges.last())
        } else {
            before
        }
    }
}

/// The chain of ranges around an offset, from the innermost to the whole text.
pub open spec fn selection_chain(text: Seq<char>, module: Option<&Module>, offset: int) -> Seq<
    ByteRange,
> {
    chain_of(sorted(candidates_at(text, module, offset)))
}

/// A chain of ranges as nested selections.
pub open spec fn nested(text: Seq<char>, chain: Seq<ByteRange>) -> Option<Box<SelectionRange>>
    decreases chain.len(),
{
    if chain.len() == 0 {
        None
    } else {
        Some(
            Box::new(
                SelectionRange {
                    range: range_at(
                        text,
                        (chain[0].start as u32) as int,
                        (chain[0].end as u32) as int,
                    ),
                    parent: nested(text, chain.drop_first()),
                },
            ),
        )
    }
}

fn push_holding(ranges: &Vec<ByteRange>, offset: usize, candidates: &mut Vec<ByteRange>)
    ensures
        final(candidates)@ == old(candidates)@ + holding(ranges@, offset as int),
{
    let ghost first = candidates@;
    let mut i: usize = 0;
    assert(ranges@.take(0) == Seq::<ByteRange>::empty());
    assert(first + Seq::<ByteRange>::empty() == first);
    while i < ranges.len()
        invariant
            i <= ranges@.len(),
            candidates@ == first + holding(ranges@.take(i as int), offset as int),
        decreases ranges@.len() - i,
    {
        assert(ranges@.take(i + 1).drop_last() == ranges@.take(i as int));
        let ghost before = holding(ranges@.take(i as int), offset as int);
        if ranges[i].contains_offset(offset) {
            candidates.push(ranges[i]);
            assert((first + before).push(ranges@[i as int]) == first + before.push(
                ranges@[i as int],
            ));
        }
        i += 1;
    }
    assert(ranges@.take(i as int) == ranges@);
}

fn fits_line(line: ByteRange, ranges: &Vec<ByteRange>) -> (fits: bool)
    ensures
        fits == line_fits(line, ranges@),
{
    let mut i: usize = 0;
    while i < ranges.len()
        invariant
            i <= ranges@.len(),
            forall|j: int|
                0 <= j < i ==> line.spec_contains_range(#[trigger] ranges@[j])
                    || ranges@[j].spec_contains_range(line),
        decreases ranges@.len() - i,
    {
        if !line.contains_range(ranges[i]) && !ranges[i].contains_range(line) {
            return false;
        }
        i += 1;
    }
    true
}

/// The chain of ranges of one offset.
fn build_chain(ordered: &Vec<ByteRange>) -> (chain: Vec<ByteRange>)
    ensures
        chain@ == chain_of(ordered@),
{
    let mut chain: Vec<ByteRange> = Vec::new();
    let mut i: usize = 0;
    assert(ordered@.take(0) == Seq::<ByteRange>::empty());
    while i < ordered.len()
        invariant
            i <= ordered@.len(),
            chain@ == chain_of(ordered@.take(i as int)),
        decreases ordered@.len() - i,
    {
        assert(ordered@.take(i + 1).drop_last() == ordered@.take(i as int));
        let candidate = ordered[i];
        let repeated = i > 0 && ordered[i - 1] == candidate;
        if !repeated && (chain.len() == 0 || candidate.contains_range(chain[chain.len() - 1])) {
            chain.push(candidate);
        }
        i += 1;
    }
    assert(ordered@.take(i as int) == ordered@);
    chain
}

fn nest(line_index: &LineIndexExt, chain: &Vec<ByteRange>) -> (selection: Option<
    Box<SelectionRange>,
>)
    ensures
        selection == nested(line_index@, chain@),
{
    let mut parent: Option<Box<SelectionRange>> = None;
    let mut i: usize = chain.len();
    assert(chain@.skip(i as int) == Seq::<ByteRange>::empty());
    while i > 0
        invariant
            i <= chain@.len(),
            parent == nested(line_index@, chain@.skip(i as int)),
        decreases i,
    {
        i -= 1;
        assert(chain@.skip(i as int).drop_first() == chain@.skip(i + 1));
        let range = line_index.range(chain[i].start as u32, chain[i].end as u32);
        parent = Some(Box::new(SelectionRange { range, parent }));
    }
    assert(chain@.skip(0) == chain@);
    parent
}

/// Whether selections are the chains around some positions of a text.
pub open spec fn selects(
    text: Seq<char>,
    module: Option<&Module>,
    positions: Seq<Position>,
    selections: Seq<SelectionRange>,
) -> bool {
    selections.len() == positions.len() && forall|i: int|
        0 <= i < positions.len() ==> byte_at(text, #[trigger] positions[i]) is Some && Some(
            Box::new(selections[i]),
        ) == nested(
            text,
            selection_chain(text, module, byte_at(text, positions[i])->0 as int),
        )
}

/// Computes one containment chain for every requested position, preserving request order.
///
/// The protocol requires a result for each input position, so an invalid UTF-16 position
/// invalidates the request and returns `None` rather than returning a shorter, misaligned result
/// array. The parsed module is missing where the compiler does not know the document.
pub fn handle_selection_range(
    world: &WorldState,
    uri: &Url,
    positions: &[Position],
    module: Option<&Module>,
) -> (selections: Option<Vec<SelectionRange>>)
    ensures
        match (selections, lookup(world@.documents, uri@.text)) {
            (Some(selections), Some(document)) => selects(
                document.1,
                module,
                positions@,
                selections@,
            ),
            (None, Some(document)) => exists|i: int|
                0 <= i < positions@.len() && byte_at(
                    document.1,
                    #[trigger] positions@[i],
                ) is None,
            (Some(_), None) => false,
            (None, None) => true,
        },
{
    let line_index = match world.line_index(uri) {
        Some(line_index) => line_index,
        None => return None,
    };
    let ghost text = line_index@;
    let source = line_index.text();
    let source_len: usize = source.as_bytes().len();
    let lexical = scan_source(source);
    let hir_ranges = hir_selection_ranges(module, source_len);
    let mut delimiters: Vec<ByteRange> = Vec::new();
    let mut d: usize = 0;
    while d < lexical.delimiters.len()
        invariant
            d <= lexical.delimiters@.len(),
            delimiters@ == delimiter_ranges(lexical.delimiters@).take(d as int),
        decreases lexical.delimiters@.len() - d,
    {
        delimiters.push(lexical.delimiters[d].range);
        d += 1;
        assert(delimiters@ == delimiter_ranges(lexical.delimiters@).take(d as int));
    }
    assert(delimiters@ == delimiter_ranges(scanned(text).delimiters));
    let mut selections: Vec<SelectionRange> = Vec::new();
    let mut i: usize = 0;
    while i < positions.len()
        invariant
            i <= positions@.len(),
            text == line_index@,
            text == source@,
            utf8(text).len() < u32::MAX,
            source_len == utf8(text).len(),
            lookup(world@.documents, uri@.text) matches Some(document) && document.1 == text,
            delimiters@ == delimiter_ranges(scanned(text).delimiters),
            lexical.block_comments@ == scanned(text).block_comments,
            hir_ranges@ == ranges_of(module_spans(module), utf8(text).len()),
            selects(text, module, positions@.take(i as int), selections@),
        decreases positions@.len() - i,
    {
        let offset: usize = match line_index.position_to_byte(positions[i]) {
            Some(offset) => offset as usize,
            None => return None,
        };
        let mut candidates: Vec<ByteRange> = Vec::new();
        if let Some(leaf) = leaf_range_at(source, offset) {
            candidates.push(leaf);
        }
        push_holding(&delimiters, offset, &mut candidates);
        push_holding(&lexical.block_comments, offset, &mut candidates);
        push_holding(&hir_ranges, offset, &mut candidates);
        assert(candidates@ == nodes_around(text, module, offset as int));
        let line = line_range(source, offset);
        if fits_line(line, &candidates) {
            candidates.push(line);
        }
        candidates.push(ByteRange { start: 0, end: source_len });
        let ordered = sort(candidates);
        let chain = build_chain(&ordered);
        proof {
            law_sorted(candidates@);
            lemma_chain_nonempty(ordered@);
        }
        match nest(line_index, &chain) {
            Some(selection) => {
                selections.push(*selection);
                proof {
                    assert forall|j: int| 0 <= j < i + 1 implies byte_at(
                        text,
                        #[trigger] positions@.take(i + 1)[j],
                    ) is Some && Some(Box::new(selections@[j])) == nested(
                        text,
                        selection_chain(
                            text,
                            module,
                            byte_at(text, positions@.take(i + 1)[j])->0 as int,
                        ),
                    ) by {
                        if j < i {
                            assert(positions@.take(i as int)[j] == positions@.take(i + 1)[j]);
                        }
                    }
                }
            },
            None => {},
        }
        i += 1;
    }
    assert(positions@.take(i as int) == positions@);
    Some(selections)
}

proof fn lemma_chain_nonempty(ranges: Seq<ByteRange>)
    requires
        ranges.len() > 0,
    ensures
        chain_of(ranges).len() > 0,
    decreases ranges.len(),
{
    if ranges.len() > 1 {
        lemma_chain_nonempty(ranges.drop_last());
    }
}

/// Whether each range of a chain contains the one before it and is another one.
pub open spec fn is_nested(chain: Seq<ByteRange>) -> bool {
    forall|i: int|
        0 <= i < chain.len() - 1 ==> (#[trigger] chain[i + 1]).spec_contains_range(chain[i])
            && chain[i + 1] != chain[i]
}

proof fn lemma_chain_nested(ranges: Seq<ByteRange>)
    requires
        in_order(ranges),
    ensures
        is_nested(chain_of(ranges)),
        ranges.len() > 0 ==> forall|k: int|
            0 <= k < chain_of(ranges).len() ==> ranges.contains(#[trigger] chain_of(ranges)[k]),
    decreases ranges.len(),
{
    if ranges.len() > 0 {
        let init = ranges.drop_last();
        assert forall|i: int, j: int| 0 <= i < j < init.len() implies !(
        #[trigger] init[j]).before(#[trigger] init[i]) by {
            assert(ranges[i] == init[i] && ranges[j] == init[j]);
        }
        lemma_chain_nested(init);
        let before = chain_of(init);
        let chain = chain_of(ranges);
        assert(ranges[ranges.len() - 1] == ranges.last());
        assert forall|k: int| 0 <= k < chain.len() implies ranges.contains(
            #[trigger] chain[k],
        ) by {
            if k < before.len() {
                assert(chain[k] == before[k]);
                assert(init.contains(before[k]));
                let m = choose|m: int| 0 <= m < init.len() && init[m] == before[k];
                assert(ranges[m] == before[k]);
            }
        }
        assert forall|i: int| 0 <= i < chain.len() - 1 implies (
        #[trigger] chain[i + 1]).spec_contains_range(chain[i]) && chain[i + 1] != chain[i] by {
            if i + 1 < before.len() {
                assert(before[i + 1].spec_contains_range(before[i]));
            } else if chain[i + 1] == chain[i] {
                assert(init.contains(before[i]));
                let m = choose|m: int| 0 <= m < init.len() && init[m] == before[i];
                assert(ranges[m] == ranges.last());
                if m < ranges.len() - 2 {
                    assert(!ranges[ranges.len() - 2].before(ranges[m]));
                    assert(!ranges[ranges.len() - 1].before(ranges[ranges.len() - 2]));
                }
            }
        }
    }
}

/// The chain around an offset begins at the smallest range, each range contains the one before
/// it and is larger, and the last is the whole text.
pub proof fn law_selection_chain(text: Seq<char>, module: Option<&Module>, offset: int)
    requires
        utf8(text).len() < u32::MAX,
        0 <= offset <= utf8(text).len(),
        is_char_boundary(utf8(text), offset),
    ensures
        ({
            let chain = selection_chain(text, module, offset);
            &&& chain.len() > 0
            &&& is_nested(chain)
            &&& chain.last() == (ByteRange { start: 0, end: utf8(text).len() as usize })
        }),
{
    broadcast use vstd::seq_lib::group_to_multiset_ensures;

    let candidates = candidates_at(text, module, offset);
    let ordered = sorted(candidates);
    let whole = ByteRange { start: 0, end: utf8(text).len() as usize };
    law_sorted(candidates);
    lemma_chain_nested(ordered);
    assert(candidates[candidates.len() - 1] == whole);
    assert(candidates.contains(whole));
    assert(ordered.to_multiset().count(whole) > 0);
    assert(ordered.contains(whole));
    lemma_candidates_inside(text, module, offset);
    assert forall|i: int| 0 <= i < ordered.len() implies whole.spec_contains_range(
        #[trigger] ordered[i],
    ) && ordered[i].start <= ordered[i].end by {
        assert(ordered.to_multiset().count(ordered[i]) > 0);
        assert(candidates.contains(ordered[i]));
    }
    let at = choose|at: int| 0 <= at < ordered.len() && ordered[at] == whole;
    let last = ordered[ordered.len() - 1];
    assert(last == whole) by {
        if at < ordered.len() - 1 {
            assert(!last.before(ordered[at]));
        }
    }
    lemma_chain_last(ordered, whole);
}

proof fn lemma_chain_last(ranges: Seq<ByteRange>, whole: ByteRange)
    requires
        in_order(ranges),
        ranges.len() > 0,
        ranges.last() == whole,
        forall|i: int| 0 <= i < ranges.len() ==> whole.spec_contains_range(#[trigger] ranges[i]),
    ensures
        chain_of(ranges).len() > 0,
        chain_of(ranges).last() == whole,
    decreases ranges.len(),
{
    let init = ranges.drop_last();
    let before = chain_of(init);
    assert forall|i: int, j: int| 0 <= i < j < init.len() implies !(#[trigger] init[j]).before(
        #[trigger] init[i],
    ) by {
        assert(ranges[i] == init[i] && ranges[j] == init[j]);
    }
    if ranges.len() > 1 && ranges[ranges.len() - 2] == whole {
        assert forall|i: int| 0 <= i < init.len() implies whole.spec_contains_range(
            #[trigger] init[i],
        ) by {
            assert(ranges[i] == init[i]);
        }
        lemma_chain_last(init, whole);
    } else {
        lemma_chain_nested(init);
        if before.len() > 0 {
            assert(init.contains(before[before.len() - 1]));
            let m = choose|m: int| 0 <= m < init.len() && init[m] == before.last();
            assert(ranges[m] == before.last());
        }
    }
}

spec fn inside(ranges: Seq<ByteRange>, len: nat) -> bool {
    forall|i: int|
        0 <= i < ranges.len() ==> (#[trigger] ranges[i]).start <= ranges[i].end <= len
}

proof fn lemma_holding_inside(ranges: Seq<ByteRange>, offset: int, len: nat)
    requires
        inside(ranges, len),
    ensures
        inside(holding(ranges, offset), len),
    decreases ranges.len(),
{
    if ranges.len() > 0 {
        let init = ranges.drop_last();
        assert forall|i: int| 0 <= i < init.len() implies (#[trigger] init[i]).start <= init[i].end
            <= len by {
            assert(ranges[i] == init[i]);
        }
        assert(ranges[ranges.len() - 1] == ranges.last());
        lemma_holding_inside(init, offset, len);
    }
}

proof fn lemma_ranges_inside(spans: Seq<Span>, len: nat)
    ensures
        inside(ranges_of(spans, len), len),
    decreases spans.len(),
{
    if spans.len() > 0 {
        lemma_ranges_inside(spans.drop_last(), len);
    }
}

proof fn lemma_leaf_inside(text: Seq<char>, i: int, offset: int, previous: Option<ByteRange>)
    requires
        utf8(text).len() < u32::MAX,
        0 <= i <= utf8(text).len(),
        previous is Some ==> previous->0.start <= previous->0.end <= utf8(text).len(),
    ensures
        leaf_from(text, i, offset, previous) matches Some(leaf) ==> leaf.start <= leaf.end
            <= utf8(text).len(),
    decreases utf8(text).len() - i,
{
    if i < utf8(text).len() {
        if ascii_space(utf8(text)[i]) {
            lemma_leaf_inside(text, i + 1, offset, previous);
        } else {
            lemma_token_end(text, i);
            let end = token_end(text, i);
            let range = ByteRange { start: i as usize, end: end as usize };
            let last = if end == offset {
                Some(range)
            } else {
                previous
            };
            lemma_leaf_inside(text, end, offset, last);
        }
    }
}

proof fn lemma_candidates_inside(text: Seq<char>, module: Option<&Module>, offset: int)
    requires
        utf8(text).len() < u32::MAX,
        0 <= offset <= utf8(text).len(),
    ensures
        inside(candidates_at(text, module, offset), utf8(text).len()),
{
    let len = utf8(text).len();
    law_scanned(text);
    let scan = scanned(text);
    assert(inside(delimiter_ranges(scan.delimiters), len)) by {
        assert forall|i: int| 0 <= i < scan.delimiters.len() implies (
        #[trigger] delimiter_ranges(scan.delimiters)[i]).start
            <= delimiter_ranges(scan.delimiters)[i].end <= len by {
            assert(delimiter_ok(utf8(text), len as int, scan.delimiters[i]));
        }
    }
    lemma_holding_inside(delimiter_ranges(scan.delimiters), offset, len);
    lemma_holding_inside(scan.block_comments, offset, len);
    lemma_ranges_inside(module_spans(module), len);
    lemma_holding_inside(ranges_of(module_spans(module), len), offset, len);
    lemma_leaf_inside(text, 0, offset, None);
    lemma_line_start(utf8(text), offset);
    lemma_line_end(utf8(text), offset);
}

/// Whether a token begins at an index, looked for from `i` on.
pub open spec fn token_from(text: Seq<char>, i: int, start: int) -> bool
    decreases utf8(text).len() - i,
{
    if i < 0 || i >= utf8(text).len() {
        false
    } else if ascii_space(utf8(text)[i]) {
        token_from(text, i + 1, start)
    } else {
        proof {
            lemma_token_end(text, i);
        }
        i == start || token_from(text, token_end(text, i), start)
    }
}

/// Whether a range is a token of a text.
pub open spec fn is_token(text: Seq<char>, range: ByteRange) -> bool {
    token_from(text, 0, range.start as int) && token_end(text, range.start as int) == range.end
}

proof fn lemma_token_from(text: Seq<char>, i: int, start: int)
    requires
        0 <= i,
        token_from(text, i, start),
    ensures
        i <= start < utf8(text).len(),
        is_char_boundary(utf8(text), i) ==> is_char_boundary(utf8(text), start),
    decreases utf8(text).len() - i,
{
    if ascii_space(utf8(text)[i]) {
        if is_char_boundary(utf8(text), i) {
            lemma_ascii_boundary(text, i);
        }
        lemma_token_from(text, i + 1, start);
    } else if i != start {
        lemma_token_end(text, i);
        lemma_token_from(text, token_end(text, i), start);
    }
}

/// An offset inside of a token gets that token.
proof fn lemma_leaf_of_token(
    text: Seq<char>,
    i: int,
    start: int,
    offset: int,
    previous: Option<ByteRange>,
)
    requires
        0 <= i,
        token_from(text, i, start),
        start <= offset < token_end(text, start),
    ensures
        leaf_from(text, i, offset, previous) == Some(
            ByteRange { start: start as usize, end: token_end(text, start) as usize },
        ),
    decreases utf8(text).len() - i,
{
    if ascii_space(utf8(text)[i]) {
        lemma_token_from(text, i + 1, start);
        lemma_leaf_of_token(text, i + 1, start, offset, previous);
    } else if i != start {
        lemma_token_end(text, i);
        let end = token_end(text, i);
        lemma_token_from(text, end, start);
        let range = ByteRange { start: i as usize, end: end as usize };
        let last = if end == offset {
            Some(range)
        } else {
            previous
        };
        lemma_leaf_of_token(text, end, start, offset, last);
    }
}

/// What is found at an offset is a token.
proof fn lemma_leaf_is_token(text: Seq<char>, i: int, offset: int, previous: Option<ByteRange>)
    requires
        utf8(text).len() <= usize::MAX,
        0 <= i <= utf8(text).len(),
        forall|start: int| #[trigger] token_from(text, i, start) ==> token_from(text, 0, start),
        previous matches Some(range) ==> is_token(text, range) && range.end == offset,
    ensures
        leaf_from(text, i, offset, previous) matches Some(leaf) ==> {
            &&& is_token(text, leaf)
            &&& leaf.start <= offset < leaf.end || (leaf.end == offset && (offset == utf8(
                text,
            ).len() || white_space(text[char_index(text, offset)])))
        },
    decreases utf8(text).len() - i,
{
    if i < utf8(text).len() {
        if ascii_space(utf8(text)[i]) {
            assert forall|start: int| #[trigger] token_from(text, i + 1, start) implies token_from(
                text,
                0,
                start,
            ) by {
                assert(token_from(text, i, start));
            }
            lemma_leaf_is_token(text, i + 1, offset, previous);
        } else {
            lemma_token_end(text, i);
            let end = token_end(text, i);
            let range = ByteRange { start: i as usize, end: end as usize };
            let last = if end == offset {
                Some(range)
            } else {
                previous
            };
            assert(token_from(text, i, i));
            assert(is_token(text, range));
            assert forall|start: int| #[trigger] token_from(text, end, start) implies token_from(
                text,
                0,
                start,
            ) by {
                assert(token_from(text, i, start));
            }
            lemma_leaf_is_token(text, end, offset, last);
        }
    }
}

/// The token at an offset is a token of the text between two characters. It holds the offset, or
/// it ends there and the text ends there or white space follows.
pub proof fn law_leaf(text: Seq<char>, offset: int)
    requires
        utf8(text).len() <= usize::MAX,
    ensures
        leaf_at(text, offset) matches Some(leaf) ==> {
            &&& is_token(text, leaf)
            &&& leaf.start < leaf.end <= utf8(text).len()
            &&& leaf.start <= offset <= leaf.end
            &&& is_char_boundary(utf8(text), leaf.start as int)
            &&& is_char_boundary(utf8(text), leaf.end as int)
            &&& offset == leaf.end ==> offset == utf8(text).len() || white_space(
                text[char_index(text, offset)],
            )
        },
{
    lemma_leaf_is_token(text, 0, offset, None);
    if let Some(leaf) = leaf_at(text, offset) {
        encode_utf8_valid_utf8(text);
        is_char_boundary_start_end_of_seq(utf8(text));
        lemma_token_from(text, 0, leaf.start as int);
        lemma_token_end(text, leaf.start as int);
    }
}

/// Every offset inside of a token gets that token.
pub proof fn law_token_is_leaf(text: Seq<char>, token: ByteRange, offset: int)
    requires
        utf8(text).len() <= usize::MAX,
        is_token(text, token),
        token.start <= offset < token.end,
    ensures
        leaf_at(text, offset) == Some(token),
{
    lemma_leaf_of_token(text, 0, token.start as int, offset, None);
}

/// All offsets inside of the token at an offset get the same token.
pub proof fn law_leaf_shared(text: Seq<char>, offset: int, other: int)
    requires
        utf8(text).len() <= usize::MAX,
        leaf_at(text, offset) matches Some(leaf) && leaf.start <= other < leaf.end,
    ensures
        leaf_at(text, other) == leaf_at(text, offset),
{
    law_leaf(text, offset);
    law_token_is_leaf(text, leaf_at(text, offset)->0, other);
}

/// A scan passes over bytes that begin neither a string nor a comment without finding comments.
proof fn lemma_plain_bytes(bytes: Seq<u8>, i: int, end: int, found: Scan) -> (next: Scan)
    requires
        0 <= i <= end <= bytes.len(),
        forall|k: int|
            i <= k < end ==> #[trigger] bytes[k] != 0x22 && !pair_at(bytes, k, 0x2f, 0x2f)
                && !pair_at(bytes, k, 0x2f, 0x2a),
    ensures
        scan_from(bytes, i, found) == scan_from(bytes, end, next),
        next.line_comments == found.line_comments,
        next.block_comments == found.block_comments,
    decreases end - i,
{
    if i < end {
        assert(bytes[i] != 0x22);
        if is_opening(bytes[i]) {
            lemma_plain_bytes(
                bytes,
                i + 1,
                end,
                Scan { open: found.open.push((bytes[i], i as usize)), ..found },
            )
        } else if opening_of(bytes[i]) is Some && found.open.len() > 0 && found.open.last().0
            == opening_of(bytes[i])->0 {
            lemma_plain_bytes(
                bytes,
                i + 1,
                end,
                Scan {
                    open: found.open.drop_last(),
                    delimiters: found.delimiters.push(
                        DelimiterRange {
                            opening: found.open.last().0,
                            range: ByteRange { start: found.open.last().1, end: (i + 1) as usize },
                        },
                    ),
                    ..found
                },
            )
        } else {
            lemma_plain_bytes(bytes, i + 1, end, found)
        }
    } else {
        found
    }
}

/// The byte of an ASCII character is the character.
proof fn lemma_char_bytes(text: Seq<char>, k: int, at: int)
    requires
        0 <= k < text.len(),
        byte_offset(text, k) <= at < byte_offset(text, k + 1),
    ensures
        at < utf8(text).len(),
        utf8(text)[at] < 0x80 ==> text[k] as u32 == utf8(text)[at] as u32,
{
    lemma_byte_offset(text, k + 1);
    if utf8(text)[at] < 0x80 {
        lemma_ascii_boundary(text, at);
        lemma_cut(text, at);
        let found = char_index(text, at);
        if found < k {
            lemma_offsets_grow(text, found, k);
        } else if found > k {
            lemma_offsets_grow(text, k + 1, found);
        }
    }
}

/// The characters of an identifier are letters, digits, underscores and hyphens.
proof fn lemma_identifier_chars(text: Seq<char>, k: int, at: int)
    requires
        0 <= k <= at < identifier_end(text, k),
        k <= text.len(),
    ensures
        at < text.len(),
        alphanumeric(text[at]) || text[at] == '_' || text[at] == '-',
    decreases text.len() - k,
{
    if k < at {
        lemma_identifier_chars(text, k + 1, at);
    }
}

proof fn lemma_digit_bytes(bytes: Seq<u8>, i: int, hex: bool, at: int)
    requires
        0 <= i <= at < digits_end(bytes, i, hex),
        i <= bytes.len(),
    ensures
        at < bytes.len(),
        ascii_hex_digit(bytes[at]),
    decreases bytes.len() - i,
{
    if i < at {
        lemma_digit_bytes(bytes, i + 1, hex, at);
    }
}

/// Behind its first byte a token other than a string or a comment holds no quote and no slash.
proof fn lemma_token_bytes(text: Seq<char>, i: int, at: int)
    requires
        0 <= i < at < token_end(text, i),
        i < utf8(text).len(),
        is_char_boundary(utf8(text), i),
        utf8(text)[i] != 0x22,
        !pair_at(utf8(text), i, 0x2f, 0x2f),
        !pair_at(utf8(text), i, 0x2f, 0x2a),
    ensures
        utf8(text)[at] != 0x22,
        utf8(text)[at] != 0x2f,
{
    let bytes = utf8(text);
    lemma_token_end(text, i);
    if ascii_digit(bytes[i]) {
        if pair_at(bytes, i, 0x30, 0x78) && i + 2 < bytes.len() && ascii_hex_digit(bytes[i + 2]) {
            if at >= i + 2 {
                lemma_digit_bytes(bytes, i + 2, true, at);
            }
        } else {
            lemma_digit_bytes(bytes, i + 1, false, at);
        }
    } else {
        let k = char_index(text, i);
        lemma_cut(text, i);
        lemma_boundary_iff(text, i);
        lemma_chars_before(shape(text), i);
        lemma_shape_bytes(text);
        lemma_byte_offset(text, k);
        lemma_byte_offset(text, k + 1);
        if at < byte_offset(text, k + 1) {
            lemma_char_bytes(text, k, at);
            if bytes[at] < 0x80 {
                lemma_ascii_boundary(text, at);
                lemma_cut(text, at);
                let found = char_index(text, at);
                if found <= k {
                    lemma_offsets_grow(text, found, k);
                } else {
                    lemma_offsets_grow(text, k + 1, found);
                }
            }
        } else if alphabetic(text[k]) {
            let last = identifier_end(text, k + 1);
            lemma_identifier_end(text, k + 1);
            if bytes[at] < 0x80 {
                lemma_ascii_boundary(text, at);
                lemma_cut(text, at);
                let found = char_index(text, at);
                if found < k + 1 {
                    lemma_offsets_grow(text, found, k + 1);
                } else if found >= last {
                    lemma_offsets_grow(text, last, found);
                }
                lemma_identifier_chars(text, k + 1, found);
            }
        }
    }
}

/// Whether comments that are not among some others are tokens, found from `i` on.
spec fn comments_are_tokens(
    text: Seq<char>,
    i: int,
    comments: Seq<ByteRange>,
    others: Seq<ByteRange>,
) -> bool {
    forall|c: int|
        0 <= c < comments.len() ==> others.contains(#[trigger] comments[c]) || (token_from(
            text,
            i,
            comments[c].start as int,
        ) && token_end(text, comments[c].start as int) == comments[c].end)
}

proof fn lemma_comments_are_tokens(text: Seq<char>, i: int, found: Scan)
    requires
        utf8(text).len() <= usize::MAX,
        0 <= i <= utf8(text).len(),
        is_char_boundary(utf8(text), i),
    ensures
        ({
            let all = scan_from(utf8(text), i, found);
            &&& comments_are_tokens(text, i, all.line_comments, found.line_comments)
            &&& comments_are_tokens(text, i, all.block_comments, found.block_comments)
        }),
    decreases utf8(text).len() - i,
{
    let bytes = utf8(text);
    let all = scan_from(bytes, i, found);
    if i < bytes.len() {
        if ascii_space(bytes[i]) {
            lemma_ascii_boundary(text, i);
            lemma_comments_are_tokens(text, i + 1, found);
        } else {
            lemma_token_end(text, i);
            let end = token_end(text, i);
            let range = ByteRange { start: i as usize, end: end as usize };
            assert(token_from(text, i, i));
            if bytes[i] == 0x22 {
                lemma_comments_are_tokens(text, end, found);
            } else if pair_at(bytes, i, 0x2f, 0x2f) {
                let next = Scan { line_comments: found.line_comments.push(range), ..found };
                lemma_comments_are_tokens(text, end, next);
                assert forall|c: int| 0 <= c < all.line_comments.len() implies (
                found.line_comments.contains(#[trigger] all.line_comments[c]) || (token_from(
                    text,
                    i,
                    all.line_comments[c].start as int,
                ) && token_end(text, all.line_comments[c].start as int)
                    == all.line_comments[c].end)) by {
                    lemma_pushed(found.line_comments, range, all.line_comments[c]);
                }
            } else if pair_at(bytes, i, 0x2f, 0x2a) {
                let next = Scan { block_comments: found.block_comments.push(range), ..found };
                lemma_comments_are_tokens(text, end, next);
                assert forall|c: int| 0 <= c < all.block_comments.len() implies (
                found.block_comments.contains(#[trigger] all.block_comments[c]) || (token_from(
                    text,
                    i,
                    all.block_comments[c].start as int,
                ) && token_end(text, all.block_comments[c].start as int)
                    == all.block_comments[c].end)) by {
                    lemma_pushed(found.block_comments, range, all.block_comments[c]);
                }
            } else {
                assert forall|k: int| i <= k < end implies #[trigger] bytes[k] != 0x22 && !pair_at(
                    bytes,
                    k,
                    0x2f,
                    0x2f,
                ) && !pair_at(bytes, k, 0x2f, 0x2a) by {
                    if k > i {
                        lemma_token_bytes(text, i, k);
                    }
                }
                let next = lemma_plain_bytes(bytes, i, end, found);
                lemma_comments_are_tokens(text, end, next);
            }
        }
    }
}

proof fn lemma_pushed(s: Seq<ByteRange>, last: ByteRange, value: ByteRange)
    ensures
        s.push(last).contains(value) ==> s.contains(value) || value == last,
{
    if s.push(last).contains(value) {
        let i = choose|i: int| 0 <= i < s.len() + 1 && s.push(last)[i] == value;
        if i < s.len() {
            assert(s[i] == value);
        }
    }
}

/// Each comment of a text, with the comments inside of it, is one token, which every offset
/// inside of it gets.
pub proof fn law_comment_is_leaf(text: Seq<char>, comment: ByteRange, offset: int)
    requires
        utf8(text).len() <= usize::MAX,
        scanned(text).line_comments.contains(comment) || scanned(text).block_comments.contains(
            comment,
        ),
        comment.start <= offset < comment.end,
    ensures
        leaf_at(text, offset) == Some(comment),
{
    encode_utf8_valid_utf8(text);
    is_char_boundary_start_end_of_seq(utf8(text));
    lemma_comments_are_tokens(text, 0, no_scan());
    assert(is_token(text, comment));
    law_token_is_leaf(text, comment, offset);
}

} // verus!
