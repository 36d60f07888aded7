//! UTF-8 byte offset to UTF-16 position mapping.
//!
//! Compiler spans use UTF-8 byte offsets while protocol positions count UTF-16 code units.
//! This module wraps the `line-index` crate so that all handlers share the same conversion
//! rules.
use vstd::prelude::*;
use vstd::utf8::{
    decode_utf8, decode_utf8_encode_utf8, decode_utf8_split, encode_scalar, encode_utf8,
    encode_utf8_decode_utf8, encode_utf8_first_scalar, encode_utf8_valid_utf8, is_char_boundary,
    is_char_boundary_iff_not_is_continuation_byte, is_char_boundary_start_end_of_seq,
    pop_first_scalar, valid_utf8_split,
};

use crate::protocol::{Position, Range};
use crate::text::{lemma_boundary_in_tail, lemma_utf8_injective, to_chars, utf8};

verus! {

/// Zero-based line and UTF-8 byte column.
#[derive(Debug, Clone, Copy, PartialEq, Eq, Structural)]
pub struct LineCol {
    pub line: u32,
    pub col: u32,
}

/// What the mapping needs to know of one character: zero for a line feed, the number of its
/// UTF-8 bytes for any other.
pub open spec fn char_shape(c: char) -> nat {
    if c == '\n' {
        0
    } else {
        encode_scalar(c as u32).len()
    }
}

/// The shapes of the characters of a text.
pub open spec fn shape(text: Seq<char>) -> Seq<nat> {
    Seq::new(text.len(), |i: int| char_shape(text[i]))
}

/// UTF-8 bytes of one character.
pub open spec fn byte_width(character: nat) -> nat {
    if character == 0 {
        1
    } else {
        character
    }
}

/// UTF-16 code units of one character.
pub open spec fn unit_width(character: nat) -> nat {
    if character == 4 {
        2
    } else {
        1
    }
}

/// UTF-8 bytes of a text.
pub open spec fn byte_len(s: Seq<nat>) -> nat
    decreases s.len(),
{
    if s.len() == 0 {
        0
    } else {
        byte_len(s.drop_last()) + byte_width(s.last())
    }
}

/// Line reached after reading a text: its number of line feeds.
pub open spec fn line_of(s: Seq<nat>) -> nat
    decreases s.len(),
{
    if s.len() == 0 {
        0
    } else if s.last() == 0 {
        line_of(s.drop_last()) + 1
    } else {
        line_of(s.drop_last())
    }
}

/// Byte column reached after reading a text: the bytes behind its last line feed.
pub open spec fn byte_col(s: Seq<nat>) -> nat
    decreases s.len(),
{
    if s.len() == 0 || s.last() == 0 {
        0
    } else {
        byte_col(s.drop_last()) + byte_width(s.last())
    }
}

/// UTF-16 column reached after reading a text.
pub open spec fn unit_col(s: Seq<nat>) -> nat
    decreases s.len(),
{
    if s.len() == 0 || s.last() == 0 {
        0
    } else {
        unit_col(s.drop_last()) + unit_width(s.last())
    }
}

/// Number of characters that end at or before a byte offset.
pub open spec fn chars_before(s: Seq<nat>, offset: int) -> nat
    decreases s.len(),
{
    if s.len() == 0 {
        0
    } else if byte_len(s) <= offset {
        s.len()
    } else {
        chars_before(s.drop_last(), offset)
    }
}

/// The whole characters before a byte offset.
pub open spec fn text_before(s: Seq<nat>, offset: int) -> Seq<nat> {
    s.take(chars_before(s, offset) as int)
}

/// Line and byte column of an offset between two characters, none for any other offset.
pub open spec fn line_col_at(s: Seq<nat>, offset: int) -> Option<(u32, u32)> {
    let before = text_before(s, offset);
    if byte_len(before) == offset {
        Some((line_of(before) as u32, byte_col(before) as u32))
    } else {
        None
    }
}

/// Position of a byte offset. An offset inside a character counts bytes in its column.
pub open spec fn position_at(text: Seq<char>, offset: int) -> Position {
    let before = text_before(shape(text), offset);
    Position {
        line: line_of(before) as u32,
        character: if byte_len(before) == offset {
            unit_col(before) as u32
        } else {
            (byte_col(before) + (offset - byte_len(before))) as u32
        },
    }
}

/// An offset moved back to the end of the text where it lies behind it.
pub open spec fn clamped(text: Seq<char>, offset: int) -> int {
    if offset < utf8(text).len() {
        offset
    } else {
        utf8(text).len() as int
    }
}

#[verifier::external_type_specification]
#[verifier::external_body]
pub struct ExLineIndex(line_index::LineIndex);

/// The shapes of the characters that an index describes. An index holds where each line of a
/// text begins, where each multi-byte character lies and how long the text is, which fixes the
/// shapes and nothing else of the text.
pub uninterp spec fn indexed_shape(index: line_index::LineIndex) -> Seq<nat>;

/// Calls `line_index::LineIndex::new`, which panics on a text of `u32::MAX` bytes or more. The
/// index describes the text that it was built from.
#[verifier::external_body]
fn build_index(text: &str) -> (index: line_index::LineIndex)
    requires
        utf8(text@).len() < u32::MAX,
    ensures
        indexed_shape(index) == shape(text@),
{
    line_index::LineIndex::new(text)
}

/// Calls `line_index::LineIndex::try_line_col`: line and byte column of an offset, none where
/// the offset lies behind the text or inside a character.
#[verifier::external_body]
fn index_line_col(index: &line_index::LineIndex, offset: u32) -> (found: Option<(u32, u32)>)
    ensures
        found == line_col_at(indexed_shape(*index), offset as int),
{
    let offset = line_index::TextSize::new(offset);
    index.try_line_col(offset).map(|found| (found.line, found.col))
}

/// Calls `line_index::LineIndex::to_wide` for UTF-16. For the line and byte column of an offset
/// between two characters the result is its UTF-16 column. Of other columns nothing is stated.
#[verifier::external_body]
fn index_to_wide(index: &line_index::LineIndex, line: u32, col: u32) -> (wide: Option<u32>)
    ensures
        forall|k: int|
            0 <= k <= indexed_shape(*index).len() && line_of(
                #[trigger] indexed_shape(*index).take(k),
            ) == line && byte_col(indexed_shape(*index).take(k)) == col ==> wide == Some(
                unit_col(indexed_shape(*index).take(k)) as u32,
            ),
{
    let line_col = line_index::LineCol { line, col };
    index.to_wide(line_index::WideEncoding::Utf16, line_col).map(|wide| wide.col)
}

/// Calls `line_index::LineIndex::to_utf8` for UTF-16. For the line and UTF-16 column of an
/// offset between two characters the result is its byte column. Of other columns nothing is
/// stated.
#[verifier::external_body]
fn index_to_utf8(index: &line_index::LineIndex, line: u32, col: u32) -> (narrow: Option<u32>)
    ensures
        forall|k: int|
            0 <= k <= indexed_shape(*index).len() && line_of(
                #[trigger] indexed_shape(*index).take(k),
            ) == line && unit_col(indexed_shape(*index).take(k)) == col ==> narrow == Some(
                byte_col(indexed_shape(*index).take(k)) as u32,
            ),
{
    let wide = line_index::WideLineCol { line, col };
    index.to_utf8(line_index::WideEncoding::Utf16, wide).map(|narrow| narrow.col)
}

/// Calls `line_index::LineIndex::offset` for the first column of a line: the offset at which the
/// line begins, none for a line that the text does not have.
#[verifier::external_body]
fn index_line_start(index: &line_index::LineIndex, line: u32) -> (start: Option<u32>)
    ensures
        forall|k: int|
            0 <= k <= indexed_shape(*index).len() && line_of(
                #[trigger] indexed_shape(*index).take(k),
            ) == line && byte_col(indexed_shape(*index).take(k)) == 0 ==> start == Some(
                byte_len(indexed_shape(*index).take(k)) as u32,
            ),
        line_of(indexed_shape(*index)) < line ==> start is None,
{
    index.offset(line_index::LineCol { line, col: 0 }).map(u32::from)
}

proof fn lemma_prefix_step(s: Seq<nat>, k: int)
    requires
        0 <= k < s.len(),
    ensures
        s.take(k + 1).drop_last() == s.take(k),
        s.take(k + 1).last() == s[k],
{
}

proof fn lemma_bounds(s: Seq<nat>)
    ensures
        line_of(s) <= byte_len(s),
        byte_col(s) <= byte_len(s),
        unit_col(s) <= byte_col(s),
        s.len() <= byte_len(s),
    decreases s.len(),
{
    if s.len() > 0 {
        lemma_bounds(s.drop_last());
    }
}

proof fn lemma_prefix_bytes(s: Seq<nat>, j: int, k: int)
    requires
        0 <= j <= k <= s.len(),
    ensures
        byte_len(s.take(j)) + (k - j) <= byte_len(s.take(k)),
        line_of(s.take(j)) <= line_of(s.take(k)),
    decreases k - j,
{
    if j < k {
        lemma_prefix_bytes(s, j, k - 1);
        lemma_prefix_step(s, k - 1);
    }
}

/// The characters before the offset at which a prefix ends are that prefix.
pub proof fn lemma_chars_before_prefix(s: Seq<nat>, k: int)
    requires
        0 <= k <= s.len(),
    ensures
        chars_before(s, byte_len(s.take(k)) as int) == k,
    decreases s.len(),
{
    assert(s.take(s.len() as int) == s);
    if k < s.len() {
        lemma_prefix_bytes(s, k, s.len() as int);
        lemma_chars_before_prefix(s.drop_last(), k);
        assert(s.drop_last().take(k) == s.take(k));
    }
}

pub proof fn lemma_chars_before(s: Seq<nat>, offset: int)
    requires
        0 <= offset,
    ensures
        chars_before(s, offset) <= s.len(),
        byte_len(text_before(s, offset)) <= offset,
        offset < byte_len(s) ==> chars_before(s, offset) < s.len() && offset < byte_len(
            s.take(chars_before(s, offset) as int + 1),
        ),
    decreases s.len(),
{
    assert(s.take(s.len() as int) == s);
    if s.len() > 0 && byte_len(s) > offset {
        let shorter = s.drop_last();
        lemma_chars_before(shorter, offset);
        let k = chars_before(shorter, offset) as int;
        assert(s.take(k) == shorter.take(k));
        if k < shorter.len() {
            assert(s.take(k + 1) == shorter.take(k + 1));
        } else {
            assert(shorter.take(k) == shorter);
        }
    }
}

/// Each line that a prefix reaches has a first column, from which its byte column is counted.
proof fn lemma_line_start(s: Seq<nat>, k: int) -> (start: int)
    requires
        0 <= k <= s.len(),
    ensures
        0 <= start <= k,
        line_of(s.take(start)) == line_of(s.take(k)),
        byte_col(s.take(start)) == 0,
        byte_len(s.take(start)) + byte_col(s.take(k)) == byte_len(s.take(k)),
    decreases k,
{
    if k == 0 || s[k - 1] == 0 {
        if k > 0 {
            lemma_prefix_step(s, k - 1);
        }
        k
    } else {
        lemma_prefix_step(s, k - 1);
        lemma_line_start(s, k - 1)
    }
}

/// Positions grow strictly from one prefix to a longer one.
proof fn lemma_positions_grow(s: Seq<nat>, j: int, k: int)
    requires
        0 <= j < k <= s.len(),
    ensures
        line_of(s.take(j)) < line_of(s.take(k)) || (line_of(s.take(j)) == line_of(s.take(k))
            && unit_col(s.take(j)) < unit_col(s.take(k)) && byte_col(s.take(j)) < byte_col(
            s.take(k),
        )),
    decreases k - j,
{
    lemma_prefix_step(s, k - 1);
    if j < k - 1 {
        lemma_positions_grow(s, j, k - 1);
    }
}

/// The bytes of two texts in a row are the bytes of both.
pub proof fn lemma_utf8_concat(a: Seq<char>, b: Seq<char>)
    ensures
        utf8(a + b) == utf8(a) + utf8(b),
    decreases a.len(),
{
    if a.len() == 0 {
        assert(a + b == b);
        assert(utf8(a) + utf8(b) == utf8(b));
    } else {
        lemma_utf8_concat(a.drop_first(), b);
        assert((a + b).drop_first() == a.drop_first() + b);
        assert(utf8(a + b) == utf8(a) + utf8(b));
    }
}

/// The shapes of a text count its bytes.
pub proof fn lemma_shape_bytes(text: Seq<char>)
    ensures
        byte_len(shape(text)) == utf8(text).len(),
    decreases text.len(),
{
    if text.len() > 0 {
        let init = text.drop_last();
        lemma_shape_bytes(init);
        assert(shape(text).drop_last() == shape(init));
        assert(text == init + seq![text.last()]);
        lemma_utf8_concat(init, seq![text.last()]);
        reveal_with_fuel(encode_utf8, 2);
        assert(seq![text.last()].drop_first() == Seq::<char>::empty());
        assert(encode_utf8(seq![text.last()]) == encode_scalar(text.last() as u32));
    }
}

proof fn lemma_boundary_after(a: Seq<char>, b: Seq<char>)
    ensures
        is_char_boundary(utf8(a + b), utf8(a).len() as int),
    decreases a.len(),
{
    encode_utf8_valid_utf8(a + b);
    if a.len() > 0 {
        let all = utf8(a + b);
        encode_utf8_first_scalar(a + b);
        assert((a + b).drop_first() == a.drop_first() + b);
        assert(pop_first_scalar(all) == utf8(a.drop_first() + b));
        lemma_boundary_after(a.drop_first(), b);
        lemma_utf8_concat(a, b);
    }
}

/// The character boundaries of a text are the ends of its prefixes.
pub proof fn lemma_boundary_iff(text: Seq<char>, offset: int)
    requires
        0 <= offset <= utf8(text).len(),
    ensures
        is_char_boundary(utf8(text), offset) <==> byte_len(text_before(shape(text), offset))
            == offset,
{
    let s = shape(text);
    let bytes = utf8(text);
    encode_utf8_valid_utf8(text);
    encode_utf8_decode_utf8(text);
    lemma_chars_before(s, offset);
    let k = chars_before(s, offset) as int;
    let before = text.take(k);
    assert(shape(before) == s.take(k));
    lemma_shape_bytes(before);
    if byte_len(s.take(k)) == offset {
        assert(text == before + text.skip(k));
        lemma_boundary_after(before, text.skip(k));
    }
    if is_char_boundary(bytes, offset) {
        valid_utf8_split(bytes, offset);
        decode_utf8_split(bytes, offset);
        let head = decode_utf8(bytes.subrange(0, offset));
        decode_utf8_encode_utf8(bytes.subrange(0, offset));
        assert(text.take(head.len() as int) == head);
        assert(shape(head) == s.take(head.len() as int));
        lemma_shape_bytes(head);
        lemma_chars_before_prefix(s, head.len() as int);
    }
}

/// Per-document position mapper.
pub struct LineIndexExt {
    index: line_index::LineIndex,
    len: u32,
    text: String,
}

impl View for LineIndexExt {
    type V = Seq<char>;

    closed spec fn view(&self) -> Seq<char> {
        self.text@
    }
}

impl LineIndexExt {
    #[verifier::type_invariant]
    spec fn indexes_its_text(self) -> bool {
        &&& indexed_shape(self.index) == shape(self.text@)
        &&& self.len == utf8(self.text@).len()
        &&& self.len < u32::MAX
    }

    /// Builds a line index for `text`.
    pub fn new(text: &str) -> (index: LineIndexExt)
        requires
            utf8(text@).len() < u32::MAX,
        ensures
            index@ == text@,
    {
        let len: u32 = text.len() as u32;
        LineIndexExt { index: build_index(text), len, text: text.to_owned() }
    }

    /// Returns the document text this index was built from.
    pub fn text(&self) -> (text: &str)
        ensures
            text@ == self@,
            utf8(text@).len() < u32::MAX,
    {
        proof {
            use_type_invariant(self);
        }
        self.text.as_str()
    }

    /// Converts a UTF-8 byte offset to a UTF-16 position.
    ///
    /// Offsets are clamped to the document length. An offset inside a character falls back to
    /// the byte column.
    pub fn byte_to_position(&self, offset: u32) -> (position: Position)
        ensures
            position == position_at(self@, clamped(self@, offset as int)),
    {
        proof {
            use_type_invariant(self);
            lemma_shape_bytes(self@);
        }
        let ghost s = shape(self@);
        let offset: u32 = if offset < self.len { offset } else { self.len };
        let ghost k = chars_before(s, offset as int) as int;
        proof {
            lemma_chars_before(s, offset as int);
            lemma_bounds(s.take(k));
        }
        match index_line_col(&self.index, offset) {
            Some((line, col)) => {
                match index_to_wide(&self.index, line, col) {
                    Some(character) => Position { line, character },
                    None => Position { line, character: col },
                }
            },
            None => {
                proof {
                    lemma_boundary_iff(self@, offset as int);
                }
                self.inside_character(offset)
            },
        }
    }

    /// Byte-counting position of an offset that lies inside a character.
    fn inside_character(&self, offset: u32) -> (position: Position)
        requires
            offset <= utf8(self@).len(),
            !is_char_boundary(utf8(self@), offset as int),
        ensures
            position == position_at(self@, offset as int),
    {
        proof {
            use_type_invariant(self);
            encode_utf8_valid_utf8(self@);
            is_char_boundary_start_end_of_seq(utf8(self@));
        }
        let mut start: u32 = offset;
        while !self.text.as_str().is_char_boundary(start as usize)
            invariant
                start <= offset <= utf8(self@).len(),
                is_char_boundary(utf8(self@), 0),
                self.text@ == self@,
                forall|o: int| start < o <= offset ==> !is_char_boundary(utf8(self@), o),
            decreases start,
        {
            start -= 1;
        }
        let ghost s = shape(self@);
        let ghost j = chars_before(s, start as int) as int;
        let ghost k = chars_before(s, offset as int) as int;
        proof {
            lemma_shape_bytes(self@);
            lemma_boundary_iff(self@, start as int);
            lemma_boundary_iff(self@, offset as int);
            lemma_chars_before(s, start as int);
            lemma_chars_before(s, offset as int);
            let reached = byte_len(s.take(k)) as int;
            lemma_chars_before_prefix(s, k);
            lemma_boundary_iff(self@, reached);
            if j < k {
                lemma_prefix_bytes(s, j, k);
            }
            if k < j {
                lemma_prefix_bytes(s, k + 1, j);
            }
            lemma_bounds(s.take(k));
        }
        match index_line_col(&self.index, start) {
            Some((line, col)) => Position { line, character: col + (offset - start) },
            None => Position { line: 0, character: offset },
        }
    }

    /// Converts a UTF-16 position to a UTF-8 byte offset.
    ///
    /// Returns `None` when the position is out of range or lands inside a character (the middle
    /// of a UTF-16 surrogate pair), so callers never receive an offset that is not a character
    /// boundary.
    pub fn position_to_byte(&self, position: Position) -> (offset: Option<u32>)
        ensures
            offset == byte_at(self@, position),
            match offset {
                Some(offset) => offset <= utf8(self@).len() && is_char_boundary(
                    utf8(self@),
                    offset as int,
                ) && position_at(self@, offset as int) == position,
                None => forall|o: int|
                    0 <= o <= utf8(self@).len() && is_char_boundary(utf8(self@), o)
                        ==> #[trigger] position_at(self@, o) != position,
            },
    {
        proof {
            use_type_invariant(self);
            lemma_shape_bytes(self@);
        }
        let ghost s = shape(self@);
        let offset = self.locate(position);
        proof {
            if offset is None {
                assert forall|o: int|
                    0 <= o <= utf8(self@).len() && is_char_boundary(
                        utf8(self@),
                        o,
                    ) implies #[trigger] position_at(self@, o) != position by {
                    lemma_boundary_iff(self@, o);
                    lemma_chars_before(s, o);
                    let k = chars_before(s, o) as int;
                    lemma_bounds(s.take(k));
                    assert(position_at(self@, o) == prefix_position(s, k));
                }
            } else {
                law_position_round_trip(self@, offset->0 as int);
            }
        }
        offset
    }

    fn locate(&self, position: Position) -> (offset: Option<u32>)
        ensures
            match offset {
                Some(offset) => offset <= utf8(self@).len() && is_char_boundary(
                    utf8(self@),
                    offset as int,
                ) && position_at(self@, offset as int) == position,
                None => forall|k: int|
                    0 <= k <= self@.len() ==> #[trigger] prefix_position(shape(self@), k)
                        != position,
            },
    {
        proof {
            use_type_invariant(self);
            lemma_shape_bytes(self@);
            let s = shape(self@);
            assert forall|k: int| 0 <= k <= self@.len() implies {
                &&& #[trigger] byte_len(s.take(k)) <= byte_len(s)
                &&& line_of(s.take(k)) <= u32::MAX
                &&& byte_col(s.take(k)) <= byte_len(s.take(k))
                &&& unit_col(s.take(k)) <= u32::MAX
            } by {
                assert(s.take(s.len() as int) == s);
                lemma_prefix_bytes(s, k, s.len() as int);
                lemma_bounds(s.take(k));
            }
            assert forall|k: int|
                #![trigger s.take(k)]
                0 <= k <= self@.len() implies exists|j: int|
                {
                    &&& 0 <= j <= k
                    &&& line_of(#[trigger] s.take(j)) == line_of(s.take(k))
                    &&& byte_col(s.take(j)) == 0
                    &&& byte_len(s.take(j)) + byte_col(s.take(k)) == byte_len(s.take(k))
                } by {
                let j = lemma_line_start(s, k);
            }
            assert forall|k: int| 0 <= k <= self@.len() implies chars_before(
                s,
                #[trigger] byte_len(s.take(k)) as int,
            ) == k by {
                lemma_chars_before_prefix(s, k);
            }
        }
        let ghost s = shape(self@);
        let narrow = match index_to_utf8(&self.index, position.line, position.character) {
            Some(narrow) => narrow,
            None => return None,
        };
        let start = match index_line_start(&self.index, position.line) {
            Some(start) => start,
            None => return None,
        };
        let offset = match start.checked_add(narrow) {
            Some(offset) => offset,
            None => return None,
        };
        let found = match index_line_col(&self.index, offset) {
            Some(found) => found,
            None => return None,
        };
        if found.0 != position.line || found.1 != narrow {
            return None;
        }
        proof {
            lemma_chars_before(s, offset as int);
            assert(s.take(s.len() as int) == s);
            lemma_prefix_bytes(s, chars_before(s, offset as int) as int, s.len() as int);
            lemma_boundary_iff(self@, offset as int);
        }
        match index_to_wide(&self.index, position.line, narrow) {
            Some(character) => if character == position.character {
                Some(offset)
            } else {
                None
            },
            None => None,
        }
    }

    /// Converts a UTF-8 byte range to a UTF-16 range.
    pub fn range(&self, start: u32, end: u32) -> (range: Range)
        ensures
            range == range_at(self@, start as int, end as int),
    {
        Range { start: self.byte_to_position(start), end: self.byte_to_position(end) }
    }

    /// Returns the UTF-8 line and column of an offset between two characters.
    pub fn line_col(&self, offset: u32) -> (line_col: LineCol)
        requires
            is_char_boundary(utf8(self@), clamped(self@, offset as int)),
        ensures
            line_col_at(shape(self@), clamped(self@, offset as int)) == Some(
                (line_col.line, line_col.col),
            ),
    {
        proof {
            use_type_invariant(self);
            lemma_shape_bytes(self@);
            lemma_boundary_iff(self@, clamped(self@, offset as int));
        }
        let offset: u32 = if offset < self.len { offset } else { self.len };
        match index_line_col(&self.index, offset) {
            Some((line, col)) => LineCol { line, col },
            None => LineCol { line: 0, col: 0 },
        }
    }
}

/// Position of the end of the first `k` characters.
pub open spec fn prefix_position(s: Seq<nat>, k: int) -> Position {
    Position { line: line_of(s.take(k)) as u32, character: unit_col(s.take(k)) as u32 }
}

/// Whether a byte offset is a character boundary of a text with the given position.
pub open spec fn is_byte_at(text: Seq<char>, position: Position, offset: int) -> bool {
    &&& 0 <= offset <= utf8(text).len()
    &&& is_char_boundary(utf8(text), offset)
    &&& position_at(text, offset) == position
}

/// The character boundary that has a position, none where no boundary of the text has it.
pub open spec fn byte_at(text: Seq<char>, position: Position) -> Option<u32> {
    if exists|offset: int| is_byte_at(text, position, offset) {
        Some((choose|offset: int| is_byte_at(text, position, offset)) as u32)
    } else {
        None
    }
}

/// Range between the positions of two byte offsets, each clamped to the text.
pub open spec fn range_at(text: Seq<char>, start: int, end: int) -> Range {
    Range {
        start: position_at(text, clamped(text, start)),
        end: position_at(text, clamped(text, end)),
    }
}

/// Different character boundaries of a text have different positions, in the order of the
/// boundaries: a later offset lies on a later line or in a later column.
pub proof fn law_positions_follow_offsets(text: Seq<char>, first: int, second: int)
    requires
        utf8(text).len() < u32::MAX,
        0 <= first < second <= utf8(text).len(),
        is_char_boundary(utf8(text), first),
        is_char_boundary(utf8(text), second),
    ensures
        position_at(text, first) != position_at(text, second),
        position_at(text, first).at_or_before(position_at(text, second)),
{
    let s = shape(text);
    lemma_shape_bytes(text);
    lemma_boundary_iff(text, first);
    lemma_boundary_iff(text, second);
    lemma_chars_before(s, first);
    lemma_chars_before(s, second);
    let j = chars_before(s, first) as int;
    let k = chars_before(s, second) as int;
    if k <= j {
        lemma_prefix_bytes(s, k, j);
    }
    assert(s.take(s.len() as int) == s);
    lemma_prefix_bytes(s, j, s.len() as int);
    lemma_prefix_bytes(s, k, s.len() as int);
    lemma_bounds(s.take(j));
    lemma_bounds(s.take(k));
    lemma_positions_grow(s, j, k);
}

/// The position of a character boundary leads back to that boundary.
pub proof fn law_position_round_trip(text: Seq<char>, offset: int)
    requires
        utf8(text).len() < u32::MAX,
        0 <= offset <= utf8(text).len(),
        is_char_boundary(utf8(text), offset),
    ensures
        byte_at(text, position_at(text, offset)) == Some(offset as u32),
{
    let position = position_at(text, offset);
    assert(is_byte_at(text, position, offset));
    let found = choose|o: int| is_byte_at(text, position, o);
    assert(is_byte_at(text, position, found));
    if found < offset {
        law_positions_follow_offsets(text, found, offset);
    } else if offset < found {
        law_positions_follow_offsets(text, offset, found);
    }
}

/// A position that maps to an offset is the position of that offset, which is a character
/// boundary of the text.
pub proof fn law_offset_round_trip(text: Seq<char>, position: Position)
    requires
        utf8(text).len() < u32::MAX,
        byte_at(text, position) is Some,
    ensures
        is_char_boundary(utf8(text), byte_at(text, position)->0 as int),
        byte_at(text, position)->0 <= utf8(text).len(),
        position_at(text, byte_at(text, position)->0 as int) == position,
{
    let found = choose|o: int| is_byte_at(text, position, o);
    assert(is_byte_at(text, position, found));
}

/// Index of the character at a character boundary.
pub open spec fn char_index(text: Seq<char>, offset: int) -> int {
    chars_before(shape(text), offset) as int
}

/// A character boundary parts a text into the characters before it and those behind it.
pub proof fn lemma_cut(text: Seq<char>, offset: int)
    requires
        0 <= offset <= utf8(text).len(),
        is_char_boundary(utf8(text), offset),
    ensures
        0 <= char_index(text, offset) <= text.len(),
        utf8(text.take(char_index(text, offset))) == utf8(text).subrange(0, offset),
        utf8(text.skip(char_index(text, offset))) == utf8(text).subrange(
            offset,
            utf8(text).len() as int,
        ),
{
    let k = char_index(text, offset);
    lemma_boundary_iff(text, offset);
    lemma_chars_before(shape(text), offset);
    assert(shape(text.take(k)) == shape(text).take(k));
    lemma_shape_bytes(text.take(k));
    lemma_utf8_concat(text.take(k), text.skip(k));
    assert(text == text.take(k) + text.skip(k));
    assert(utf8(text.take(k)) == utf8(text).subrange(0, offset));
    assert(utf8(text.skip(k)) == utf8(text).subrange(offset, utf8(text).len() as int));
}

/// Character indices follow the order of the boundaries.
pub proof fn lemma_char_index_order(text: Seq<char>, first: int, second: int)
    requires
        0 <= first <= second <= utf8(text).len(),
        is_char_boundary(utf8(text), first),
        is_char_boundary(utf8(text), second),
    ensures
        char_index(text, first) <= char_index(text, second),
{
    let s = shape(text);
    lemma_boundary_iff(text, first);
    lemma_boundary_iff(text, second);
    lemma_chars_before(s, first);
    lemma_chars_before(s, second);
    let j = char_index(text, first);
    let k = char_index(text, second);
    if k < j {
        lemma_prefix_bytes(s, k, j);
    }
}

/// The text before, between and behind two character boundaries.
pub fn cut(text: &str, start: u32, end: u32) -> (parts: (&str, &str, &str))
    requires
        start <= end <= utf8(text@).len(),
        is_char_boundary(utf8(text@), start as int),
        is_char_boundary(utf8(text@), end as int),
    ensures
        0 <= char_index(text@, start as int) <= char_index(text@, end as int) <= text@.len(),
        parts.0@ == text@.take(char_index(text@, start as int)),
        parts.1@ == text@.subrange(
            char_index(text@, start as int),
            char_index(text@, end as int),
        ),
        parts.2@ == text@.skip(char_index(text@, end as int)),
{
    proof {
        encode_utf8_valid_utf8(text@);
        lemma_boundary_in_tail(utf8(text@), start as int, end as int);
        lemma_cut(text@, start as int);
        lemma_cut(text@, end as int);
        lemma_char_index_order(text@, start as int, end as int);
    }
    let ghost i = char_index(text@, start as int);
    let ghost j = char_index(text@, end as int);
    let (head, rest) = text.split_at(start as usize);
    let (middle, tail) = rest.split_at((end - start) as usize);
    proof {
        lemma_utf8_injective(head@, text@.take(i));
        assert(utf8(tail@) == utf8(text@).subrange(end as int, utf8(text@).len() as int));
        lemma_utf8_injective(tail@, text@.skip(j));
        assert(text@.take(j) == text@.take(i) + text@.subrange(i, j));
        lemma_utf8_concat(text@.take(i), text@.subrange(i, j));
        assert(utf8(middle@) == utf8(text@).subrange(start as int, end as int));
        let whole = utf8(text@.take(j));
        let front = utf8(text@.take(i));
        let between = utf8(text@.subrange(i, j));
        assert(whole == front + between);
        assert(front.len() == start && whole.len() == end);
        assert((front + between).subrange(start as int, end as int) == between);
        assert(utf8(text@.subrange(i, j)) == utf8(text@).subrange(start as int, end as int));
        lemma_utf8_injective(middle@, text@.subrange(i, j));
    }
    (head, middle, tail)
}

/// UTF-16 code units of a text.
pub open spec fn utf16_len(text: Seq<char>) -> nat
    decreases text.len(),
{
    if text.len() == 0 {
        0
    } else {
        utf16_len(text.drop_last()) + if text.last() as u32 >= 0x1_0000 {
            2nat
        } else {
            1nat
        }
    }
}

/// Counts the UTF-16 code units of a text.
pub fn count_utf16(text: &str) -> (units: u64)
    requires
        utf8(text@).len() < u32::MAX,
    ensures
        units == utf16_len(text@),
{
    let chars = to_chars(text);
    let mut units: u64 = 0;
    let mut i: usize = 0;
    proof {
        lemma_bounds(shape(text@));
        lemma_shape_bytes(text@);
        assert(text@.take(0) == Seq::<char>::empty());
    }
    while i < chars.len()
        invariant
            chars@ == text@,
            i <= chars@.len(),
            chars@.len() < u32::MAX,
            units == utf16_len(text@.take(i as int)),
            units <= 2 * i,
        decreases chars@.len() - i,
    {
        assert(text@.take(i + 1).drop_last() == text@.take(i as int));
        if chars[i] as u32 >= 0x1_0000 {
            units += 2;
        } else {
            units += 1;
        }
        i += 1;
    }
    assert(text@.take(i as int) == text@);
    units
}

/// An ASCII byte of a text is a character of its own.
pub proof fn lemma_ascii_boundary(text: Seq<char>, i: int)
    requires
        0 <= i < utf8(text).len(),
        utf8(text)[i] < 0x80,
    ensures
        is_char_boundary(utf8(text), i),
        is_char_boundary(utf8(text), i + 1),
        char_index(text, i + 1) == char_index(text, i) + 1,
        0 <= char_index(text, i) < text.len(),
        text[char_index(text, i)] as u32 == utf8(text)[i] as u32,
{
    let bytes = utf8(text);
    encode_utf8_valid_utf8(text);
    is_char_boundary_iff_not_is_continuation_byte(bytes, i);
    lemma_cut(text, i);
    let k = char_index(text, i);
    let rest = text.skip(k);
    assert(rest.len() > 0) by {
        if rest.len() == 0 {
            assert(utf8(rest).len() == 0);
        }
    }
    encode_utf8_first_scalar(rest);
    assert(utf8(rest)[0] == bytes[i]);
    let byte = bytes[i];
    assert(byte < 0x80 ==> (byte & 0x7f) == byte) by (bit_vector);
    assert(encode_scalar(rest[0] as u32).len() == 1);
    assert(rest[0] == text[k]);
    let head = text.take(k + 1);
    assert(head == text.take(k) + seq![text[k]]);
    lemma_utf8_concat(text.take(k), seq![text[k]]);
    reveal_with_fuel(encode_utf8, 2);
    assert(seq![text[k]].drop_first() == Seq::<char>::empty());
    assert(utf8(seq![text[k]]).len() == 1);
    assert(utf8(head).len() == i + 1);
    assert(text == head + text.skip(k + 1));
    lemma_boundary_after(head, text.skip(k + 1));
    assert(shape(head) == shape(text).take(k + 1));
    lemma_shape_bytes(head);
    lemma_chars_before_prefix(shape(text), k + 1);
}

} // verus!
