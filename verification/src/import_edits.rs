//! Source edit planning for missing-import quick fixes.
//!
//! This module deliberately stops at byte edits. The code-action layer owns URI mapping and the
//! conversion to ranges of the protocol, while this planner owns the syntax-sensitive choice
//! between extending a selective import and inserting a new declaration.
//!
//! Which words are identifiers of the language is for the front end to say: the planners take
//! the list of those that it accepts.
use vstd::prelude::*;
use vstd::slice::slice_subrange;
use vstd::utf8::{is_char_boundary, is_char_boundary_start_end_of_seq};

use crate::hir::{Import, ImportSelector, Item, Module, Name, ParsedFile, SelectedName};
use crate::line_index::lemma_ascii_boundary;
use crate::scan::{
    comment_end, find_comment_end, find_line_end, has_pair, lemma_comment_end, line_end,
    pair_at,
};
use crate::selection_range::ascii_space;
use crate::seqs::{find_map, lemma_find_step};
use crate::text::{from_chars, parts_between, split_chars, str_eq, to_chars, utf8};

verus! {

/// One replacement over UTF-8 source byte offsets.
///
/// Import edits are currently insertions, so `start == end`. Keeping both bounds makes the
/// result directly adaptable to compiler and protocol text edits.
pub struct ImportEdit {
    /// Inclusive byte offset at which replacement starts.
    pub start: u32,
    /// Exclusive byte offset at which replacement ends.
    pub end: u32,
    /// Source text to insert or replace.
    pub replacement: String,
}

/// The model of an import edit.
pub struct EditParts {
    pub start: int,
    pub end: int,
    pub replacement: Seq<char>,
}

impl View for ImportEdit {
    type V = EditParts;

    open spec fn view(&self) -> EditParts {
        EditParts {
            start: self.start as int,
            end: self.end as int,
            replacement: self.replacement@,
        }
    }
}

pub open spec fn edit_of(edit: Option<ImportEdit>) -> Option<EditParts> {
    match edit {
        Some(edit) => Some(edit@),
        None => None,
    }
}

/// The insertion of a text at an offset.
pub open spec fn inserted(offset: int, replacement: Seq<char>) -> EditParts {
    EditParts { start: offset, end: offset, replacement }
}

pub fn insertion(offset: u32, replacement: String) -> (edit: ImportEdit)
    ensures
        edit@ == inserted(offset as int, replacement@),
{
    ImportEdit { start: offset, end: offset, replacement }
}

/// The first index from `i` on that holds a carriage return or a line feed, the end of the text
/// where there is none.
pub open spec fn line_break(bytes: Seq<u8>, i: int) -> int
    decreases bytes.len() - i,
{
    if i >= bytes.len() || bytes[i] == 0x0d || bytes[i] == 0x0a {
        i
    } else {
        line_break(bytes, i + 1)
    }
}

pub proof fn lemma_line_break(bytes: Seq<u8>, i: int)
    requires
        0 <= i <= bytes.len(),
    ensures
        i <= line_break(bytes, i) <= bytes.len(),
        line_break(bytes, i) < bytes.len() ==> bytes[line_break(bytes, i)] == 0x0d
            || bytes[line_break(bytes, i)] == 0x0a,
    decreases bytes.len() - i,
{
    if i < bytes.len() && bytes[i] != 0x0d && bytes[i] != 0x0a {
        lemma_line_break(bytes, i + 1);
    }
}

pub fn skip_line_comment(bytes: &[u8], start: usize) -> (end: usize)
    requires
        start <= bytes@.len(),
    ensures
        end == line_break(bytes@, start as int),
        start <= end <= bytes@.len(),
{
    let mut i: usize = start;
    while i < bytes.len() && bytes[i] != 0x0d && bytes[i] != 0x0a
        invariant
            start <= i <= bytes@.len(),
            line_break(bytes@, i as int) == line_break(bytes@, start as int),
        decreases bytes@.len() - i,
    {
        i += 1;
    }
    i
}

/// The index behind the block comment that begins at an index, none where none begins there or
/// the comment does not end.
pub open spec fn behind_comment(bytes: Seq<u8>, start: int) -> Option<int> {
    if pair_at(bytes, start, 0x2f, 0x2a) {
        comment_end(bytes, start + 2, 1)
    } else {
        None
    }
}

pub proof fn lemma_behind_comment(bytes: Seq<u8>, start: int)
    ensures
        behind_comment(bytes, start) matches Some(end) ==> start + 2 < end <= bytes.len()
            && bytes[end - 1] < 0x80,
{
    if pair_at(bytes, start, 0x2f, 0x2a) {
        lemma_comment_end(bytes, start + 2, 1);
    }
}

pub fn skip_block_comment(bytes: &[u8], start: usize) -> (end: Option<usize>)
    ensures
        match end {
            Some(end) => behind_comment(bytes@, start as int) == Some(end as int) && start < end
                <= bytes@.len(),
            None => behind_comment(bytes@, start as int) is None,
        },
{
    let count: usize = bytes.len();
    if count < 2 || start > count - 2 || !has_pair(bytes, start, 0x2f, 0x2a) {
        return None;
    }
    proof {
        lemma_behind_comment(bytes@, start as int);
    }
    find_comment_end(bytes, start + 2)
}

/// The index of the brace that closes the first braces of a declaration, comments left out.
/// `depth` is the number of open braces.
pub open spec fn close_from(bytes: Seq<u8>, i: int, depth: nat) -> Option<int>
    decreases bytes.len() - i,
{
    if i < 0 || i >= bytes.len() {
        None
    } else if pair_at(bytes, i, 0x2f, 0x2f) {
        proof {
            lemma_line_break(bytes, i + 2);
            assert(line_break(bytes, i) == line_break(bytes, i + 1));
            assert(line_break(bytes, i + 1) == line_break(bytes, i + 2));
        }
        close_from(bytes, line_break(bytes, i), depth)
    } else if pair_at(bytes, i, 0x2f, 0x2a) {
        proof {
            lemma_behind_comment(bytes, i);
        }
        match behind_comment(bytes, i) {
            Some(end) => close_from(bytes, end, depth),
            None => None,
        }
    } else if bytes[i] == 0x7b {
        close_from(bytes, i + 1, depth + 1)
    } else if bytes[i] == 0x7d && depth == 1 {
        Some(i)
    } else if bytes[i] == 0x7d && depth > 1 {
        close_from(bytes, i + 1, (depth - 1) as nat)
    } else {
        close_from(bytes, i + 1, depth)
    }
}

/// The offset of the brace that closes the selector of an import, which spans the bytes from
/// `start` to `end`.
pub open spec fn selector_close(text: Seq<char>, start: int, end: int) -> Option<int> {
    if start > end || end > utf8(text).len() || !is_char_boundary(utf8(text), start)
        || !is_char_boundary(utf8(text), end) {
        None
    } else {
        match close_from(utf8(text).subrange(start, end), 0, 0) {
            Some(index) => Some(start + index),
            None => None,
        }
    }
}

proof fn lemma_close_from(bytes: Seq<u8>, i: int, depth: nat)
    requires
        0 <= i <= bytes.len(),
    ensures
        close_from(bytes, i, depth) matches Some(close) ==> i <= close < bytes.len()
            && bytes[close] == 0x7d,
    decreases bytes.len() - i,
{
    if i < bytes.len() {
        if pair_at(bytes, i, 0x2f, 0x2f) {
            lemma_line_break(bytes, i + 2);
            assert(line_break(bytes, i) == line_break(bytes, i + 1));
            assert(line_break(bytes, i + 1) == line_break(bytes, i + 2));
            lemma_close_from(bytes, line_break(bytes, i), depth);
        } else if pair_at(bytes, i, 0x2f, 0x2a) {
            lemma_behind_comment(bytes, i);
            if let Some(end) = behind_comment(bytes, i) {
                lemma_close_from(bytes, end, depth);
            }
        } else if bytes[i] == 0x7b {
            lemma_close_from(bytes, i + 1, depth + 1);
        } else if bytes[i] == 0x7d && depth > 1 {
            lemma_close_from(bytes, i + 1, (depth - 1) as nat);
        } else if bytes[i] != 0x7d || depth != 1 {
            lemma_close_from(bytes, i + 1, depth);
        }
    }
}

pub fn matching_selector_close(source: &str, start: usize, end: usize) -> (close: Option<usize>)
    ensures
        match close {
            Some(close) => selector_close(source@, start as int, end as int) == Some(close as int)
                && start <= close < end,
            None => selector_close(source@, start as int, end as int) is None,
        },
{
    let all = source.as_bytes();
    if start > end || end > all.len() || !source.is_char_boundary(start)
        || !source.is_char_boundary(end) {
        return None;
    }
    let bytes = slice_subrange(all, start, end);
    let count: usize = bytes.len();
    proof {
        lemma_close_from(bytes@, 0, 0);
    }
    let mut index: usize = 0;
    let mut depth: usize = 0;
    while index < bytes.len()
        invariant
            index <= bytes@.len(),
            count == bytes@.len(),
            start + count == end,
            depth <= index,
            bytes@ == utf8(source@).subrange(start as int, end as int),
            close_from(bytes@, index as int, depth as nat) == close_from(bytes@, 0, 0),
            start <= end <= utf8(source@).len(),
            is_char_boundary(utf8(source@), start as int),
            is_char_boundary(utf8(source@), end as int),
        decreases bytes@.len() - index,
    {
        if has_pair(bytes, index, 0x2f, 0x2f) {
            proof {
                lemma_line_break(bytes@, index + 2);
                assert(line_break(bytes@, index as int) == line_break(bytes@, index + 1));
                assert(line_break(bytes@, index + 1) == line_break(bytes@, index + 2));
            }
            index = skip_line_comment(bytes, index);
        } else if has_pair(bytes, index, 0x2f, 0x2a) {
            match skip_block_comment(bytes, index) {
                Some(next) => {
                    index = next;
                },
                None => return None,
            }
        } else if bytes[index] == 0x7b {
            depth += 1;
            index += 1;
        } else if bytes[index] == 0x7d && depth == 1 {
            return Some(start + index);
        } else if bytes[index] == 0x7d && depth > 1 {
            depth -= 1;
            index += 1;
        } else {
            index += 1;
        }
    }
    None
}

/// Whether only white space and comments stand from an index on.
pub open spec fn trivia_from(bytes: Seq<u8>, i: int) -> bool
    decreases bytes.len() - i,
{
    if i < 0 || i >= bytes.len() {
        true
    } else if ascii_space(bytes[i]) {
        trivia_from(bytes, i + 1)
    } else if pair_at(bytes, i, 0x2f, 0x2f) {
        proof {
            lemma_line_break(bytes, i + 2);
            assert(line_break(bytes, i) == line_break(bytes, i + 1));
            assert(line_break(bytes, i + 1) == line_break(bytes, i + 2));
        }
        trivia_from(bytes, line_break(bytes, i))
    } else {
        proof {
            lemma_behind_comment(bytes, i);
        }
        match behind_comment(bytes, i) {
            Some(end) => trivia_from(bytes, end),
            None => false,
        }
    }
}

fn is_ascii_space(byte: u8) -> (found: bool)
    ensures
        found == ascii_space(byte),
{
    byte == 0x20 || byte == 0x09 || byte == 0x0a || byte == 0x0c || byte == 0x0d
}

pub fn contains_only_trivia(bytes: &[u8]) -> (only: bool)
    ensures
        only == trivia_from(bytes@, 0),
{
    let mut index: usize = 0;
    while index < bytes.len()
        invariant
            index <= bytes@.len(),
            trivia_from(bytes@, index as int) == trivia_from(bytes@, 0),
        decreases bytes@.len() - index,
    {
        if is_ascii_space(bytes[index]) {
            index += 1;
        } else if has_pair(bytes, index, 0x2f, 0x2f) {
            proof {
                lemma_line_break(bytes@, index + 2);
                assert(line_break(bytes@, index as int) == line_break(bytes@, index + 1));
                assert(line_break(bytes@, index + 1) == line_break(bytes@, index + 2));
            }
            index = skip_line_comment(bytes, index);
        } else {
            match skip_block_comment(bytes, index) {
                Some(next) => {
                    index = next;
                },
                None => return false,
            }
        }
    }
    true
}

/// The place behind a declaration at which another one can be put.
#[derive(Clone, Copy, Debug, PartialEq, Eq, Structural)]
pub enum LineInsertion {
    AtNextLine(usize),
    AtEndOfFile(usize),
    BeforeSameLineCode(usize),
}

pub open spec fn is_blank_byte(byte: u8) -> bool {
    byte == 0x20 || byte == 0x09 || byte == 0x0c
}

/// The place behind same-line trailing comments, never inside a block comment; none where a
/// block comment does not end. Comments on the next line stay in place.
pub open spec fn line_insertion(bytes: Seq<u8>, i: int) -> Option<LineInsertion>
    decreases bytes.len() - i,
{
    if i < 0 || i >= bytes.len() {
        Some(LineInsertion::AtEndOfFile(bytes.len() as usize))
    } else if is_blank_byte(bytes[i]) {
        line_insertion(bytes, i + 1)
    } else if pair_at(bytes, i, 0x2f, 0x2f) {
        Some(end_of_line(bytes, line_break(bytes, i)))
    } else if pair_at(bytes, i, 0x2f, 0x2a) {
        proof {
            lemma_behind_comment(bytes, i);
        }
        match behind_comment(bytes, i) {
            Some(end) => line_insertion(bytes, end),
            None => None,
        }
    } else {
        Some(end_of_line(bytes, i))
    }
}

/// The place at an index where a line ends or code stands.
pub open spec fn end_of_line(bytes: Seq<u8>, i: int) -> LineInsertion {
    if i >= bytes.len() {
        LineInsertion::AtEndOfFile(bytes.len() as usize)
    } else if pair_at(bytes, i, 0x0d, 0x0a) {
        LineInsertion::AtNextLine((i + 2) as usize)
    } else if bytes[i] == 0x0d || bytes[i] == 0x0a {
        LineInsertion::AtNextLine((i + 1) as usize)
    } else {
        LineInsertion::BeforeSameLineCode(i as usize)
    }
}

/// Finds a point after same-line trailing comments, never inside a block comment. Once the
/// terminating line break is consumed, comments on the next line remain in place (they may
/// document the following declaration).
pub fn safe_end_of_line(bytes: &[u8], start: usize) -> (place: Option<LineInsertion>)
    requires
        start <= bytes@.len(),
    ensures
        place == line_insertion(bytes@, start as int),
{
    let count: usize = bytes.len();
    let mut index: usize = start;
    while index < bytes.len()
        invariant
            index <= bytes@.len(),
            count == bytes@.len(),
            line_insertion(bytes@, index as int) == line_insertion(bytes@, start as int),
        decreases bytes@.len() - index,
    {
        if bytes[index] == 0x20 || bytes[index] == 0x09 || bytes[index] == 0x0c {
            index += 1;
        } else if has_pair(bytes, index, 0x2f, 0x2a) {
            match skip_block_comment(bytes, index) {
                Some(next) => {
                    index = next;
                },
                None => return None,
            }
        } else {
            if has_pair(bytes, index, 0x2f, 0x2f) {
                index = skip_line_comment(bytes, index);
            }
            if index == bytes.len() {
                return Some(LineInsertion::AtEndOfFile(index));
            }
            if has_pair(bytes, index, 0x0d, 0x0a) {
                return Some(LineInsertion::AtNextLine(index + 2));
            }
            if bytes[index] == 0x0d || bytes[index] == 0x0a {
                return Some(LineInsertion::AtNextLine(index + 1));
            }
            return Some(LineInsertion::BeforeSameLineCode(index));
        }
    }
    Some(LineInsertion::AtEndOfFile(index))
}

/// The end of the last of the comments that begin a text; `last` is that of those before the
/// index. None where there is no comment or a block comment does not end.
pub open spec fn header_end(bytes: Seq<u8>, i: int, last: Option<int>) -> Option<int>
    decreases bytes.len() - i,
{
    if i < 0 || i >= bytes.len() {
        last
    } else if ascii_space(bytes[i]) {
        header_end(bytes, i + 1, last)
    } else if pair_at(bytes, i, 0x2f, 0x2f) {
        proof {
            lemma_line_break(bytes, i + 2);
            assert(line_break(bytes, i) == line_break(bytes, i + 1));
            assert(line_break(bytes, i + 1) == line_break(bytes, i + 2));
        }
        header_end(bytes, line_break(bytes, i), Some(line_break(bytes, i)))
    } else if pair_at(bytes, i, 0x2f, 0x2a) {
        proof {
            lemma_behind_comment(bytes, i);
        }
        match behind_comment(bytes, i) {
            Some(end) => header_end(bytes, end, Some(end)),
            None => None,
        }
    } else {
        last
    }
}

pub open spec fn same_place(place: Option<usize>, spot: Option<int>) -> bool {
    match place {
        Some(place) => spot == Some(place as int),
        None => spot is None,
    }
}

pub fn leading_header_comment_end(bytes: &[u8]) -> (end: Option<usize>)
    ensures
        same_place(end, header_end(bytes@, 0, None)),
        end matches Some(end) ==> end <= bytes@.len(),
{
    let mut index: usize = 0;
    let mut last: Option<usize> = None;
    while index < bytes.len()
        invariant
            index <= bytes@.len(),
            last matches Some(end) ==> end <= bytes@.len(),
            header_end(
                bytes@,
                index as int,
                match last {
                    Some(end) => Some(end as int),
                    None => None,
                },
            ) == header_end(bytes@, 0, None),
        decreases bytes@.len() - index,
    {
        if is_ascii_space(bytes[index]) {
            index += 1;
        } else if has_pair(bytes, index, 0x2f, 0x2f) {
            proof {
                lemma_line_break(bytes@, index + 2);
                assert(line_break(bytes@, index as int) == line_break(bytes@, index + 1));
                assert(line_break(bytes@, index + 1) == line_break(bytes@, index + 2));
            }
            index = skip_line_comment(bytes, index);
            last = Some(index);
        } else if has_pair(bytes, index, 0x2f, 0x2a) {
            match skip_block_comment(bytes, index) {
                Some(next) => {
                    index = next;
                    last = Some(next);
                },
                None => return None,
            }
        } else {
            return last;
        }
    }
    last
}

/// The line ending of the first line of a text.
pub open spec fn first_line_ending(bytes: Seq<u8>) -> Seq<char> {
    if 0 < line_end(bytes, 0) < bytes.len() && bytes[line_end(bytes, 0) - 1] == 0x0d {
        "\r\n"@
    } else {
        "\n"@
    }
}

pub fn preferred_line_ending(bytes: &[u8]) -> (ending: &'static str)
    ensures
        ending@ == first_line_ending(bytes@),
{
    let end = find_line_end(bytes, 0);
    if 0 < end && end < bytes.len() && bytes[end - 1] == 0x0d {
        "\r\n"
    } else {
        "\n"
    }
}

/// A declaration on a line of its own behind the declaration or comment that ends at an offset.
pub open spec fn inserted_after(text: Seq<char>, end: int, declaration: Seq<char>) -> Option<
    EditParts,
> {
    let bytes = utf8(text);
    let ending = first_line_ending(bytes);
    if end > bytes.len() || !is_char_boundary(bytes, end) {
        None
    } else {
        match line_insertion(bytes, end) {
            Some(LineInsertion::AtNextLine(offset)) => Some(
                inserted(offset as int, declaration + ending),
            ),
            Some(LineInsertion::AtEndOfFile(offset)) => Some(
                inserted(offset as int, ending + declaration),
            ),
            Some(LineInsertion::BeforeSameLineCode(offset)) => Some(
                inserted(offset as int, ending + declaration + ending),
            ),
            None => None,
        }
    }
}

proof fn lemma_line_insertion(bytes: Seq<u8>, i: int)
    requires
        0 <= i <= bytes.len() <= usize::MAX,
    ensures
        match line_insertion(bytes, i) {
            Some(LineInsertion::AtNextLine(offset)) => 0 < offset <= bytes.len() && bytes[offset - 1]
                < 0x80,
            Some(LineInsertion::AtEndOfFile(offset)) => offset == bytes.len(),
            Some(LineInsertion::BeforeSameLineCode(offset)) => i <= offset < bytes.len() && (offset == i
                || bytes[offset - 1] < 0x80),
            None => true,
        },
    decreases bytes.len() - i,
{
    if i < bytes.len() {
        if is_blank_byte(bytes[i]) {
            lemma_line_insertion(bytes, i + 1);
        } else if pair_at(bytes, i, 0x2f, 0x2f) {
            lemma_line_break(bytes, i);
        } else if pair_at(bytes, i, 0x2f, 0x2a) {
            lemma_behind_comment(bytes, i);
            if let Some(end) = behind_comment(bytes, i) {
                lemma_line_insertion(bytes, end);
            }
        }
    }
}

/// Whether an edit of a text is an insertion between two of its characters.
pub open spec fn is_insertion(text: Seq<char>, edit: Option<EditParts>) -> bool {
    edit matches Some(edit) ==> 0 <= edit.start == edit.end && edit.end <= utf8(text).len()
        && is_char_boundary(utf8(text), edit.start)
}

proof fn lemma_inserted_after(text: Seq<char>, end: int, declaration: Seq<char>)
    requires
        0 <= end,
        utf8(text).len() <= usize::MAX,
    ensures
        is_insertion(text, inserted_after(text, end, declaration)),
{
    let bytes = utf8(text);
    if end <= bytes.len() && is_char_boundary(bytes, end) {
        lemma_line_insertion(bytes, end);
        vstd::utf8::encode_utf8_valid_utf8(text);
        is_char_boundary_start_end_of_seq(bytes);
        match line_insertion(bytes, end) {
            Some(LineInsertion::AtNextLine(offset)) => {
                lemma_ascii_boundary(text, offset - 1);
            },
            Some(LineInsertion::BeforeSameLineCode(offset)) => {
                if offset != end {
                    lemma_ascii_boundary(text, offset - 1);
                }
            },
            _ => {},
        }
    }
}

fn concat(first: &str, second: &str) -> (text: String)
    ensures
        text@ == first@ + second@,
{
    let mut text = first.to_owned();
    text.append(second);
    text
}

pub fn insert_after_declaration_line(source: &str, declaration_end: usize, declaration: &str) -> (edit:
    Option<ImportEdit>)
    requires
        utf8(source@).len() <= u32::MAX,
    ensures
        edit_of(edit) == inserted_after(source@, declaration_end as int, declaration@),
{
    let bytes = source.as_bytes();
    if declaration_end > bytes.len() || !source.is_char_boundary(declaration_end) {
        return None;
    }
    let ending = preferred_line_ending(bytes);
    proof {
        lemma_line_insertion(bytes@, declaration_end as int);
    }
    match safe_end_of_line(bytes, declaration_end) {
        Some(LineInsertion::AtNextLine(offset)) => Some(
            insertion(offset as u32, concat(declaration, ending)),
        ),
        Some(LineInsertion::AtEndOfFile(offset)) => Some(
            insertion(offset as u32, concat(ending, declaration)),
        ),
        Some(LineInsertion::BeforeSameLineCode(offset)) => Some(
            insertion(offset as u32, concat(concat(ending, declaration).as_str(), ending)),
        ),
        None => None,
    }
}

/// Some names with dots between them.
pub open spec fn dotted(names: Seq<Name>) -> Seq<char>
    decreases names.len(),
{
    if names.len() == 0 {
        Seq::empty()
    } else if names.len() == 1 {
        names[0].text@
    } else {
        dotted(names.drop_last()) + seq!['.'] + names.last().text@
    }
}

/// The path of an import as written, none for an import without one.
pub open spec fn path_of(import: Import) -> Option<Seq<char>> {
    if import.path@.len() == 0 {
        None
    } else if import.external {
        Some(seq!['@'] + dotted(import.path@))
    } else {
        Some(dotted(import.path@))
    }
}

pub fn import_path_text(import: &Import) -> (path: Option<String>)
    ensures
        match path {
            Some(path) => path_of(*import) == Some(path@),
            None => path_of(*import) is None,
        },
{
    if import.path.len() == 0 {
        return None;
    }
    let mut path = String::new();
    if import.external {
        path.push('@');
    }
    let ghost head = path@;
    let ghost names = import.path@;
    let mut i: usize = 0;
    assert(names.take(0) == Seq::<Name>::empty());
    while i < import.path.len()
        invariant
            i <= names.len(),
            names == import.path@,
            path@ == head + dotted(names.take(i as int)),
        decreases names.len() - i,
    {
        assert(names.take(i + 1).drop_last() == names.take(i as int));
        assert(names.take(i + 1).last() == names[i as int]);
        if i > 0 {
            path.push('.');
        }
        path.append(import.path[i].text.as_str());
        i += 1;
        assert(path@ == head + dotted(names.take(i as int)));
    }
    assert(names.take(i as int) == names);
    assert(import.external ==> head == seq!['@']);
    assert(!import.external ==> head + dotted(names) == dotted(names));
    Some(path)
}

/// Whether a word is in a list of words.
pub open spec fn accepts(words: Seq<String>, word: Seq<char>) -> bool {
    exists|i: int| 0 <= i < words.len() && (#[trigger] words[i])@ == word
}

pub fn is_accepted(words: &[String], word: &str) -> (found: bool)
    ensures
        found == accepts(words@, word@),
{
    let mut i: usize = 0;
    while i < words.len()
        invariant
            i <= words@.len(),
            forall|j: int| 0 <= j < i ==> (#[trigger] words@[j])@ != word@,
        decreases words@.len() - i,
    {
        if str_eq(words[i].as_str(), word) {
            assert(words@[i as int]@ == word@);
            return true;
        }
        i += 1;
    }
    false
}

/// A path without the mark of an external module.
pub open spec fn inner_path(path: Seq<char>) -> Seq<char> {
    if path.len() > 0 && path[0] == '@' {
        path.skip(1)
    } else {
        path
    }
}

/// Whether a path can be written in an import: it is not empty and all its parts are words that
/// the front end accepts.
pub open spec fn valid_path(path: Seq<char>, identifiers: Seq<String>) -> bool {
    let inner = inner_path(path);
    inner.len() > 0 && forall|i: int|
        0 <= i < parts_between(inner, '.').len() ==> accepts(
            identifiers,
            #[trigger] parts_between(inner, '.')[i],
        )
}

/// The parts of an import path that have to be identifiers.
pub fn import_path_parts(path: &str) -> (parts: Vec<String>)
    ensures
        parts@.len() == parts_between(inner_path(path@), '.').len(),
        forall|i: int|
            0 <= i < parts@.len() ==> (#[trigger] parts@[i])@ == parts_between(inner_path(path@), '.')[i],
{
    let chars = to_chars(path);
    let first: usize = if chars.len() > 0 && chars[0] == '@' {
        1
    } else {
        0
    };
    assert(inner_path(path@) == chars@.skip(first as int));
    split_chars(chars.as_slice(), first, '.')
}

pub fn is_valid_import_path(path: &str, identifiers: &[String]) -> (valid: bool)
    ensures
        valid == valid_path(path@, identifiers@),
{
    let chars = to_chars(path);
    let ghost inner = inner_path(path@);
    if chars.len() == 0 || (chars.len() == 1 && chars[0] == '@') {
        assert(inner.len() == 0);
        return false;
    }
    let parts = import_path_parts(path);
    let mut i: usize = 0;
    while i < parts.len()
        invariant
            i <= parts@.len(),
            parts@.len() == parts_between(inner, '.').len(),
            inner == inner_path(path@),
            forall|k: int| 0 <= k < parts@.len() ==> (#[trigger] parts@[k])@ == parts_between(inner, '.')[k],
            forall|k: int| 0 <= k < i ==> accepts(identifiers@, #[trigger] parts_between(inner, '.')[k]),
        decreases parts@.len() - i,
    {
        if !is_accepted(identifiers, parts[i].as_str()) {
            assert(!accepts(identifiers@, parts_between(inner, '.')[i as int]));
            return false;
        }
        i += 1;
    }
    true
}

/// Whether parse results belong to a text.
pub open spec fn matches_source(parsed: ParsedFile, text: Seq<char>) -> bool {
    parsed.module.span.start == 0 && parsed.module.span.end == utf8(text).len()
        && parsed.content is Some && parsed.content->0@ == text
}

fn metadata_matches_source(parsed: &ParsedFile, source: &str, source_len: u32) -> (same: bool)
    requires
        source_len == utf8(source@).len(),
    ensures
        same == matches_source(*parsed, source@),
{
    if parsed.module.span.start != 0 || parsed.module.span.end != source_len {
        return false;
    }
    match &parsed.content {
        Some(content) => str_eq(content.as_str(), source),
        None => false,
    }
}

/// Whether a text can be edited on the strength of its parse results: they belong to it, it was
/// parsed without an error, and its offsets can be expressed.
pub open spec fn is_editable(parsed: ParsedFile, text: Seq<char>) -> bool {
    utf8(text).len() <= u32::MAX && parsed.clean && matches_source(parsed, text)
}

fn can_edit(parsed: &ParsedFile, source: &str) -> (editable: bool)
    ensures
        editable == is_editable(*parsed, source@),
{
    let len: usize = source.as_bytes().len();
    if len > 0xffff_ffff {
        return false;
    }
    parsed.clean && metadata_matches_source(parsed, source, len as u32)
}

/// The end of the last import of some items.
pub open spec fn last_import_end(items: Seq<Item>) -> Option<u32>
    decreases items.len(),
{
    if items.len() == 0 {
        None
    } else {
        match items.last() {
            Item::Import(import) => Some(import.span.end),
            _ => last_import_end(items.drop_last()),
        }
    }
}

/// Whether some items are pragmas.
pub open spec fn all_pragmas(items: Seq<Item>) -> bool {
    forall|i: int| 0 <= i < items.len() ==> (#[trigger] items[i]) is Pragma
}

/// The end of the last of the pragmas that begin a list of items.
pub open spec fn pragmas_end(items: Seq<Item>) -> Option<u32>
    decreases items.len(),
{
    if items.len() == 0 {
        None
    } else {
        match items.last() {
            Item::Pragma { span } => if all_pragmas(items) {
                Some(span.end)
            } else {
                pragmas_end(items.drop_last())
            },
            _ => pragmas_end(items.drop_last()),
        }
    }
}

fn find_last_import_end(items: &Vec<Item>) -> (end: Option<u32>)
    ensures
        end == last_import_end(items@),
{
    let mut i: usize = items.len();
    assert(items@.take(i as int) == items@);
    while i > 0
        invariant
            i <= items@.len(),
            last_import_end(items@.take(i as int)) == last_import_end(items@),
        decreases i,
    {
        i -= 1;
        assert(items@.take(i + 1).drop_last() == items@.take(i as int));
        assert(items@.take(i + 1).last() == items@[i as int]);
        if let Item::Import(import) = &items[i] {
            return Some(import.span.end);
        }
    }
    None
}

fn find_pragmas_end(items: &Vec<Item>) -> (end: Option<u32>)
    ensures
        end == pragmas_end(items@),
{
    let mut end: Option<u32> = None;
    let mut pragmas = true;
    let mut i: usize = 0;
    assert(items@.take(0) == Seq::<Item>::empty());
    while i < items.len()
        invariant
            i <= items@.len(),
            pragmas == all_pragmas(items@.take(i as int)),
            end == pragmas_end(items@.take(i as int)),
        decreases items@.len() - i,
    {
        let ghost before = items@.take(i as int);
        let ghost after = items@.take(i + 1);
        assert(after.drop_last() == before);
        assert(after.last() == items@[i as int]);
        assert(all_pragmas(after) == (all_pragmas(before) && items@[i as int] is Pragma)) by {
            assert forall|k: int| 0 <= k < before.len() implies before[k] == after[k] by {}
            if all_pragmas(after) {
                assert(after[i as int] is Pragma);
                assert forall|k: int| 0 <= k < before.len() implies (#[trigger] before[k]) is Pragma by {
                    assert(after[k] is Pragma);
                }
            }
            if all_pragmas(before) && items@[i as int] is Pragma {
                assert forall|k: int| 0 <= k < after.len() implies (#[trigger] after[k]) is Pragma by {
                    if k < before.len() {
                        assert(before[k] is Pragma);
                    }
                }
            }
        }
        match &items[i] {
            Item::Pragma { span } => {
                if pragmas {
                    end = Some(span.end);
                }
            },
            _ => {
                pragmas = false;
            },
        }
        i += 1;
    }
    assert(items@.take(i as int) == items@);
    end
}

/// A new import declaration: behind the last import, else behind the leading pragmas, else behind
/// the header comments, else at the start.
pub open spec fn new_declaration(text: Seq<char>, items: Seq<Item>, declaration: Seq<char>) -> Option<
    EditParts,
> {
    match last_import_end(items) {
        Some(end) => inserted_after(text, end as int, declaration),
        None => match pragmas_end(items) {
            Some(end) => inserted_after(text, end as int, declaration),
            None => match header_end(utf8(text), 0, None) {
                Some(end) => inserted_after(text, end, declaration),
                None => Some(inserted(0, declaration + first_line_ending(utf8(text)))),
            },
        },
    }
}

fn plan_new_import_declaration(source: &str, module: &Module, declaration: &str) -> (edit: Option<
    ImportEdit,
>)
    requires
        utf8(source@).len() <= u32::MAX,
    ensures
        edit_of(edit) == new_declaration(source@, module.items@, declaration@),
{
    if let Some(end) = find_last_import_end(&module.items) {
        return insert_after_declaration_line(source, end as usize, declaration);
    }
    if let Some(end) = find_pragmas_end(&module.items) {
        return insert_after_declaration_line(source, end as usize, declaration);
    }
    let bytes = source.as_bytes();
    if let Some(end) = leading_header_comment_end(bytes) {
        return insert_after_declaration_line(source, end, declaration);
    }
    Some(insertion(0, concat(declaration, preferred_line_ending(bytes))))
}

/// The offset behind the last name of a selector, none where something else than white space and
/// comments stands between it and the closing brace.
pub open spec fn append_offset(text: Seq<char>, import: Import, names: Seq<SelectedName>) -> Option<
    u32,
> {
    if names.len() == 0 {
        None
    } else {
        let last = match names.last().alias {
            Some(alias) => alias.span,
            None => names.last().name.span,
        };
        let span = import.span;
        if last.file != span.file || span.start > last.end || last.end > span.end || span.end > utf8(
            text,
        ).len() || !is_char_boundary(utf8(text), last.end as int) {
            None
        } else {
            match selector_close(text, span.start as int, span.end as int) {
                Some(close) => if last.end <= close && trivia_from(
                    utf8(text).subrange(last.end as int, close),
                    0,
                ) {
                    Some(last.end)
                } else {
                    None
                },
                None => None,
            }
        }
    }
}

fn selector_append_offset(source: &str, import: &Import, names: &Vec<SelectedName>) -> (offset:
    Option<u32>)
    ensures
        offset == append_offset(source@, *import, names@),
{
    if names.len() == 0 {
        return None;
    }
    let selected = &names[names.len() - 1];
    let last = match &selected.alias {
        Some(alias) => alias.span,
        None => selected.name.span,
    };
    let bytes = source.as_bytes();
    let span = import.span;
    if last.file != span.file || span.start > last.end || last.end > span.end || span.end as usize
        > bytes.len() || !source.is_char_boundary(last.end as usize) {
        return None;
    }
    match matching_selector_close(source, span.start as usize, span.end as usize) {
        Some(close) => if last.end as usize <= close && contains_only_trivia(
            slice_subrange(bytes, last.end as usize, close),
        ) {
            Some(last.end)
        } else {
            None
        },
        None => None,
    }
}

/// Whether an import hides a name.
pub open spec fn hides(import: Import, name: Seq<char>) -> bool {
    exists|i: int| 0 <= i < import.hiding@.len() && (#[trigger] import.hiding@[i]).text@ == name
}

fn is_hidden(import: &Import, name: &str) -> (hidden: bool)
    ensures
        hidden == hides(*import, name@),
{
    let mut i: usize = 0;
    while i < import.hiding.len()
        invariant
            i <= import.hiding@.len(),
            forall|j: int| 0 <= j < i ==> (#[trigger] import.hiding@[j]).text@ != name@,
        decreases import.hiding@.len() - i,
    {
        if str_eq(import.hiding[i].text.as_str(), name) {
            assert(import.hiding@[i as int].text@ == name@);
            return true;
        }
        i += 1;
    }
    false
}

/// Whether a selected name is given another name.
pub open spec fn renamed_to(selected: SelectedName, name: Seq<char>) -> bool {
    selected.alias matches Some(alias) && alias.text@ == name
}

/// Whether a selected name, not hidden, brings a name into scope.
pub open spec fn binds(import: Import, selected: SelectedName, name: Seq<char>) -> bool {
    !hides(import, selected.name.text@) && (renamed_to(selected, name) || (selected.name.text@ == name
        && selected.alias is None))
}

/// Whether a selected name stands in the way of a name without bringing it into scope.
pub open spec fn blocks(import: Import, selected: SelectedName, name: Seq<char>) -> bool {
    selected.name.text@ == name || (hides(import, selected.name.text@) && renamed_to(selected, name))
}

/// What an import that selects names of the target means for a name to be imported.
#[derive(Clone, Copy, Debug, PartialEq, Eq, Structural)]
pub enum Fit {
    /// The name is in scope already, or another one under it.
    Bound,
    /// The import stays untouched.
    Skipped,
    /// The name can be added.
    Extended,
}

/// What an import with a selector means for a name. Hidden selections bind nothing, so they
/// neither suppress the quick fix nor make the new selector ambiguous. An import with a hidden
/// spelling that would otherwise collide is left untouched.
pub open spec fn fit_of(import: Import, names: Seq<SelectedName>, name: Seq<char>) -> Fit {
    if exists|i: int| 0 <= i < names.len() && binds(import, #[trigger] names[i], name) {
        Fit::Bound
    } else if (exists|i: int| 0 <= i < names.len() && blocks(import, #[trigger] names[i], name))
        || hides(import, name) {
        Fit::Skipped
    } else {
        Fit::Extended
    }
}

fn import_fit(import: &Import, names: &Vec<SelectedName>, name: &str) -> (fit: Fit)
    ensures
        fit == fit_of(*import, names@, name@),
{
    let mut blocked = is_hidden(import, name);
    let mut i: usize = 0;
    while i < names.len()
        invariant
            i <= names@.len(),
            forall|j: int| 0 <= j < i ==> !binds(*import, #[trigger] names@[j], name@),
            blocked == (hides(*import, name@) || exists|j: int|
                0 <= j < i && blocks(*import, #[trigger] names@[j], name@)),
        decreases names@.len() - i,
    {
        let selected = &names[i];
        let hidden = is_hidden(import, selected.name.text.as_str());
        let same = str_eq(selected.name.text.as_str(), name);
        let renamed = match &selected.alias {
            Some(alias) => str_eq(alias.text.as_str(), name),
            None => false,
        };
        if !hidden && (renamed || (same && selected.alias.is_none())) {
            assert(binds(*import, names@[i as int], name@));
            return Fit::Bound;
        }
        if same || (hidden && renamed) {
            assert(blocks(*import, names@[i as int], name@));
            blocked = true;
        }
        i += 1;
    }
    if blocked {
        Fit::Skipped
    } else {
        Fit::Extended
    }
}

/// The selected names of an item that imports some names of a target.
pub open spec fn selection_of(item: Item, target: Seq<char>) -> Option<(Import, Seq<SelectedName>)> {
    match item {
        Item::Import(import) => if path_of(import) == Some(target) {
            match import.selector {
                Some(ImportSelector::Names(names)) => Some((import, names@)),
                _ => None,
            }
        } else {
            None
        },
        _ => None,
    }
}

/// Whether an item brings a name of a target, or another one under it, into scope.
pub open spec fn item_binds(item: Item, target: Seq<char>, name: Seq<char>) -> bool {
    match selection_of(item, target) {
        Some((import, names)) => fit_of(import, names, name) == Fit::Bound,
        None => false,
    }
}

/// The offset in an item at which a name of a target can be added.
pub open spec fn item_offset(text: Seq<char>, item: Item, target: Seq<char>, name: Seq<char>) -> Option<
    u32,
> {
    match selection_of(item, target) {
        Some((import, names)) => if fit_of(import, names, name) == Fit::Extended {
            append_offset(text, import, names)
        } else {
            None
        },
        None => None,
    }
}

/// The edit that brings a name of a target into scope. Where no import can be extended it writes a
/// declaration of its own.
pub open spec fn name_import_edit(
    text: Seq<char>,
    parsed: ParsedFile,
    target: Seq<char>,
    name: Seq<char>,
    identifiers: Seq<String>,
    declaration: Seq<char>,
) -> Option<EditParts> {
    let items = parsed.module.items@;
    if !is_editable(parsed, text) || !accepts(identifiers, name) || !valid_path(target, identifiers)
        || (exists|i: int| 0 <= i < items.len() && item_binds(#[trigger] items[i], target, name)) {
        None
    } else {
        match find_map(items, |item: Item| item_offset(text, item, target, name)) {
            Some(offset) => Some(inserted(offset as int, ", "@ + name)),
            None => new_declaration(text, items, declaration),
        }
    }
}

/// The edit that brings a name of a target into scope, with the path in front of the name.
pub open spec fn import_edit(
    text: Seq<char>,
    parsed: ParsedFile,
    target: Seq<char>,
    name: Seq<char>,
    identifiers: Seq<String>,
) -> Option<EditParts> {
    name_import_edit(
        text,
        parsed,
        target,
        name,
        identifiers,
        "import "@ + target + ".{"@ + name + "};"@,
    )
}

/// The edit of a quick fix that brings a name of a target into scope, with the name in front of
/// the path.
pub open spec fn import_fix(
    text: Seq<char>,
    parsed: ParsedFile,
    target: Seq<char>,
    name: Seq<char>,
    identifiers: Seq<String>,
) -> Option<EditParts> {
    name_import_edit(
        text,
        parsed,
        target,
        name,
        identifiers,
        "import {"@ + name + "} from "@ + target + ";"@,
    )
}

/// Plans one deterministic edit that brings `public_name` into scope.
///
/// When the target already has a safe explicit `.{...}` import, the name is appended to that
/// selector. Otherwise a separate selective import is placed after the existing import block, or
/// after leading pragmas/header comments. Malformed source, stale parse metadata, and text that
/// cannot be represented safely as import syntax produce no edit.
pub fn plan_import_edit(
    source: &str,
    parsed: &ParsedFile,
    target_import_path: &str,
    public_name: &str,
    identifiers: &[String],
) -> (edit: Option<ImportEdit>)
    ensures
        edit_of(edit) == import_edit(
            source@,
            *parsed,
            target_import_path@,
            public_name@,
            identifiers@,
        ),
{
    let mut declaration = concat("import ", target_import_path);
    declaration.append(".{");
    declaration.append(public_name);
    declaration.append("};");
    plan_name_import(
        source,
        parsed,
        target_import_path,
        public_name,
        identifiers,
        declaration.as_str(),
    )
}

/// Plans the edit of a quick fix that brings `public_name` into scope.
///
/// It extends an import and is placed as that of [`plan_import_edit`] is. A declaration of its own
/// is written like `import {value} from lib.math;`.
pub fn plan_import_fix(
    source: &str,
    parsed: &ParsedFile,
    target_import_path: &str,
    public_name: &str,
    identifiers: &[String],
) -> (edit: Option<ImportEdit>)
    ensures
        edit_of(edit) == import_fix(
            source@,
            *parsed,
            target_import_path@,
            public_name@,
            identifiers@,
        ),
{
    let mut declaration = concat("import {", public_name);
    declaration.append("} from ");
    declaration.append(target_import_path);
    declaration.append(";");
    plan_name_import(
        source,
        parsed,
        target_import_path,
        public_name,
        identifiers,
        declaration.as_str(),
    )
}

fn plan_name_import(
    source: &str,
    parsed: &ParsedFile,
    target_import_path: &str,
    public_name: &str,
    identifiers: &[String],
    declaration: &str,
) -> (edit: Option<ImportEdit>)
    ensures
        edit_of(edit) == name_import_edit(
            source@,
            *parsed,
            target_import_path@,
            public_name@,
            identifiers@,
            declaration@,
        ),
{
    if !can_edit(parsed, source) || !is_accepted(identifiers, public_name) || !is_valid_import_path(
        target_import_path,
        identifiers,
    ) {
        return None;
    }
    let ghost items = parsed.module.items@;
    let ghost text = source@;
    let ghost target = target_import_path@;
    let ghost name = public_name@;
    let ghost f = |item: Item| item_offset(text, item, target, name);
    let mut append_target: Option<u32> = None;
    let mut i: usize = 0;
    assert(items.take(0) == Seq::<Item>::empty());
    while i < parsed.module.items.len()
        invariant
            i <= items.len(),
            items == parsed.module.items@,
            text == source@,
            target == target_import_path@,
            name == public_name@,
            f == |item: Item| item_offset(text, item, target, name),
            forall|j: int| 0 <= j < i ==> !item_binds(#[trigger] items[j], target, name),
            append_target == find_map(items.take(i as int), f),
        decreases items.len() - i,
    {
        assert(items.take(i + 1).drop_last() == items.take(i as int));
        assert(items.take(i + 1).last() == items[i as int]);
        assert(f(items[i as int]) == item_offset(text, items[i as int], target, name));
        if let Item::Import(import) = &parsed.module.items[i] {
            let path = import_path_text(import);
            let matching = match &path {
                Some(path) => str_eq(path.as_str(), target_import_path),
                None => false,
            };
            if matching {
                if let Some(ImportSelector::Names(names)) = &import.selector {
                    let fit = import_fit(import, names, public_name);
                    if fit == Fit::Bound {
                        assert(item_binds(items[i as int], target, name));
                        return None;
                    }
                    if fit == Fit::Extended && append_target.is_none() {
                        append_target = selector_append_offset(source, import, names);
                    }
                }
            }
        }
        i += 1;
    }
    assert(items.take(i as int) == items);
    if let Some(offset) = append_target {
        return Some(insertion(offset, concat(", ", public_name)));
    }
    plan_new_import_declaration(source, &parsed.module, declaration)
}

/// What an item means for a wildcard import of a target: the offset at which the wildcard can be
/// added to it, if that is safe; none where the item has nothing to do with it.
pub open spec fn wildcard_offset(text: Seq<char>, item: Item, target: Seq<char>) -> Option<
    Option<u32>,
> {
    match item {
        Item::Import(import) => if path_of(import) == Some(target) {
            match import.selector {
                Some(ImportSelector::Wildcard) => Some(None),
                Some(ImportSelector::Names(names)) => if import.alias is None
                    && import.hiding@.len() == 0 {
                    Some(append_offset(text, import, names@))
                } else {
                    None
                },
                None => None,
            }
        } else {
            None
        },
        _ => None,
    }
}

/// The edit that brings all names of a target into scope.
pub open spec fn wildcard_import_edit(
    text: Seq<char>,
    parsed: ParsedFile,
    target: Seq<char>,
    identifiers: Seq<String>,
) -> Option<EditParts> {
    let items = parsed.module.items@;
    if !is_editable(parsed, text) || !valid_path(target, identifiers) {
        None
    } else {
        match find_map(items, |item: Item| wildcard_offset(text, item, target)) {
            Some(Some(offset)) => Some(inserted(offset as int, ", *"@)),
            Some(None) => None,
            None => new_declaration(text, items, "import "@ + target + ".{*};"@),
        }
    }
}

/// Plans an import that exposes every public name from `target_import_path`.
///
/// When a selective import for the same target already exists, `*` is appended to its selector.
/// The parser treats a selector containing `*` as a wildcard, which preserves comments and
/// formatting inside the existing declaration. Otherwise a new `import path.{*};` declaration is
/// inserted.
pub fn plan_wildcard_import_edit(
    source: &str,
    parsed: &ParsedFile,
    target_import_path: &str,
    identifiers: &[String],
) -> (edit: Option<ImportEdit>)
    ensures
        edit_of(edit) == wildcard_import_edit(
            source@,
            *parsed,
            target_import_path@,
            identifiers@,
        ),
{
    if !can_edit(parsed, source) || !is_valid_import_path(target_import_path, identifiers) {
        return None;
    }
    let ghost items = parsed.module.items@;
    let ghost text = source@;
    let ghost target = target_import_path@;
    let ghost f = |item: Item| wildcard_offset(text, item, target);
    let mut i: usize = 0;
    assert(items.take(0) == Seq::<Item>::empty());
    while i < parsed.module.items.len()
        invariant
            i <= items.len(),
            items == parsed.module.items@,
            text == source@,
            target == target_import_path@,
            f == |item: Item| wildcard_offset(text, item, target),
            find_map(items.take(i as int), f) is None,
            is_editable(*parsed, text),
            valid_path(target, identifiers@),
        decreases items.len() - i,
    {
        proof {
            lemma_find_step(items, f, i as int);
        }
        if let Item::Import(import) = &parsed.module.items[i] {
            let path = import_path_text(import);
            let matching = match &path {
                Some(path) => str_eq(path.as_str(), target_import_path),
                None => false,
            };
            if matching {
                match &import.selector {
                    Some(ImportSelector::Wildcard) => {
                        assert(f(items[i as int]) == Some(None::<u32>));
                        return None;
                    },
                    Some(ImportSelector::Names(names)) => {
                        if import.alias.is_none() && import.hiding.len() == 0 {
                            assert(f(items[i as int]) == Some(
                                append_offset(text, *import, names@),
                            ));
                            return match selector_append_offset(source, import, names) {
                                Some(offset) => Some(insertion(offset, ", *".to_owned())),
                                None => None,
                            };
                        }
                    },
                    None => {},
                }
            }
        }
        i += 1;
    }
    assert(items.take(i as int) == items);
    let declaration = concat(concat("import ", target_import_path).as_str(), ".{*};");
    plan_new_import_declaration(source, &parsed.module, declaration.as_str())
}

/// Whether an item is a plain import of a target.
pub open spec fn is_plain_import(item: Item, target: Seq<char>) -> bool {
    item matches Item::Import(import) && path_of(import) == Some(target) && import.selector is None
        && import.alias is None && import.hiding@.len() == 0
}

/// The last name of a path.
pub open spec fn last_segment(path: Seq<char>) -> Seq<char>
    decreases path.len(),
{
    if path.len() == 0 || path.last() == '.' || path.last() == '@' {
        Seq::empty()
    } else {
        last_segment(path.drop_last()).push(path.last())
    }
}

fn find_last_segment(path: &str) -> (segment: String)
    ensures
        segment@ == last_segment(path@),
{
    let chars = to_chars(path);
    let ghost all = chars@;
    let mut start: usize = chars.len();
    assert(all.take(start as int) == all);
    assert(all.skip(start as int) == Seq::<char>::empty());
    while start > 0 && chars[start - 1] != '.' && chars[start - 1] != '@'
        invariant
            start <= all.len(),
            all == chars@,
            last_segment(all) == last_segment(all.take(start as int)) + all.skip(start as int),
        decreases start,
    {
        let ghost front = all.take(start as int);
        assert(front.drop_last() == all.take(start - 1));
        assert(all.skip(start - 1) == seq![front.last()] + all.skip(start as int));
        start -= 1;
        assert(last_segment(all) == last_segment(all.take(start as int)) + all.skip(start as int));
    }
    assert(last_segment(all.take(start as int)) == Seq::<char>::empty());
    from_chars(chars.as_slice(), start, chars.len())
}

/// The edit that imports a module by a declaration.
pub open spec fn whole_import_edit(
    text: Seq<char>,
    parsed: ParsedFile,
    target: Seq<char>,
    identifiers: Seq<String>,
    declaration: Seq<char>,
) -> Option<EditParts> {
    let items = parsed.module.items@;
    if !is_editable(parsed, text) || !valid_path(target, identifiers) || (exists|i: int|
        0 <= i < items.len() && is_plain_import(#[trigger] items[i], target)) {
        None
    } else {
        new_declaration(text, items, declaration)
    }
}

/// The edit that imports a module plainly.
pub open spec fn module_import_edit(
    text: Seq<char>,
    parsed: ParsedFile,
    target: Seq<char>,
    identifiers: Seq<String>,
) -> Option<EditParts> {
    whole_import_edit(text, parsed, target, identifiers, "import "@ + target + ";"@)
}

/// The edit of a quick fix that imports a module under the last name of its path.
pub open spec fn module_import_fix(
    text: Seq<char>,
    parsed: ParsedFile,
    target: Seq<char>,
    identifiers: Seq<String>,
) -> Option<EditParts> {
    whole_import_edit(
        text,
        parsed,
        target,
        identifiers,
        "import * as "@ + last_segment(target) + " from "@ + target + ";"@,
    )
}

/// Plans a deterministic plain module import such as `import lib.math;`.
///
/// Plain imports are never merged with selective, wildcard, aliased, or hiding imports. An
/// identical plain import already present in the source needs no edit. Validation, stale-source
/// rejection, and insertion placement are shared with [`plan_import_edit`].
pub fn plan_module_import_edit(
    source: &str,
    parsed: &ParsedFile,
    target_import_path: &str,
    identifiers: &[String],
) -> (edit: Option<ImportEdit>)
    ensures
        edit_of(edit) == module_import_edit(
            source@,
            *parsed,
            target_import_path@,
            identifiers@,
        ),
{
    let declaration = concat(concat("import ", target_import_path).as_str(), ";");
    plan_whole_import(source, parsed, target_import_path, identifiers, declaration.as_str())
}

/// Plans the edit of a quick fix that imports a module, written like
/// `import * as math from lib.math;`. It is placed as that of [`plan_module_import_edit`] is.
pub fn plan_module_import_fix(
    source: &str,
    parsed: &ParsedFile,
    target_import_path: &str,
    identifiers: &[String],
) -> (edit: Option<ImportEdit>)
    ensures
        edit_of(edit) == module_import_fix(
            source@,
            *parsed,
            target_import_path@,
            identifiers@,
        ),
{
    let mut declaration = concat("import * as ", find_last_segment(target_import_path).as_str());
    declaration.append(" from ");
    declaration.append(target_import_path);
    declaration.append(";");
    plan_whole_import(source, parsed, target_import_path, identifiers, declaration.as_str())
}

fn plan_whole_import(
    source: &str,
    parsed: &ParsedFile,
    target_import_path: &str,
    identifiers: &[String],
    declaration: &str,
) -> (edit: Option<ImportEdit>)
    ensures
        edit_of(edit) == whole_import_edit(
            source@,
            *parsed,
            target_import_path@,
            identifiers@,
            declaration@,
        ),
{
    if !can_edit(parsed, source) || !is_valid_import_path(target_import_path, identifiers) {
        return None;
    }
    let ghost items = parsed.module.items@;
    let mut i: usize = 0;
    while i < parsed.module.items.len()
        invariant
            i <= items.len(),
            items == parsed.module.items@,
            forall|j: int|
                0 <= j < i ==> !is_plain_import(#[trigger] items[j], target_import_path@),
        decreases items.len() - i,
    {
        if let Item::Import(import) = &parsed.module.items[i] {
            let path = import_path_text(import);
            let matching = match &path {
                Some(path) => str_eq(path.as_str(), target_import_path),
                None => false,
            };
            if matching && import.selector.is_none() && import.alias.is_none()
                && import.hiding.len() == 0 {
                assert(is_plain_import(items[i as int], target_import_path@));
                return None;
            }
        }
        i += 1;
    }
    plan_new_import_declaration(source, &parsed.module, declaration)
}

proof fn lemma_header_end(bytes: Seq<u8>, i: int, last: Option<int>)
    requires
        last matches Some(end) ==> 0 <= end,
    ensures
        header_end(bytes, i, last) matches Some(end) ==> 0 <= end,
    decreases bytes.len() - i,
{
    if 0 <= i < bytes.len() {
        if ascii_space(bytes[i]) {
            lemma_header_end(bytes, i + 1, last);
        } else if pair_at(bytes, i, 0x2f, 0x2f) {
            lemma_line_break(bytes, i + 2);
            assert(line_break(bytes, i) == line_break(bytes, i + 1));
            assert(line_break(bytes, i + 1) == line_break(bytes, i + 2));
            lemma_header_end(bytes, line_break(bytes, i), Some(line_break(bytes, i)));
        } else if pair_at(bytes, i, 0x2f, 0x2a) {
            lemma_behind_comment(bytes, i);
            if let Some(end) = behind_comment(bytes, i) {
                lemma_header_end(bytes, end, Some(end));
            }
        }
    }
}

proof fn lemma_new_declaration(text: Seq<char>, items: Seq<Item>, declaration: Seq<char>)
    requires
        utf8(text).len() <= usize::MAX,
    ensures
        is_insertion(text, new_declaration(text, items, declaration)),
{
    lemma_header_end(utf8(text), 0, None);
    match last_import_end(items) {
        Some(end) => {
            lemma_inserted_after(text, end as int, declaration);
        },
        None => match pragmas_end(items) {
            Some(end) => {
                lemma_inserted_after(text, end as int, declaration);
            },
            None => match header_end(utf8(text), 0, None) {
                Some(end) => {
                    lemma_inserted_after(text, end, declaration);
                },
                None => {
                    vstd::utf8::encode_utf8_valid_utf8(text);
                    is_char_boundary_start_end_of_seq(utf8(text));
                },
            },
        },
    }
}

proof fn lemma_found_offset(text: Seq<char>, items: Seq<Item>, target: Seq<char>, name: Seq<char>)
    ensures
        find_map(items, |item: Item| item_offset(text, item, target, name)) matches Some(offset)
            ==> offset <= utf8(text).len() && is_char_boundary(utf8(text), offset as int),
    decreases items.len(),
{
    if items.len() > 0 {
        lemma_found_offset(text, items.drop_last(), target, name);
    }
}

proof fn lemma_found_wildcard(text: Seq<char>, items: Seq<Item>, target: Seq<char>)
    ensures
        find_map(items, |item: Item| wildcard_offset(text, item, target)) matches Some(found)
            ==> (found matches Some(offset) ==> offset <= utf8(text).len() && is_char_boundary(
            utf8(text),
            offset as int,
        )),
    decreases items.len(),
{
    if items.len() > 0 {
        lemma_found_wildcard(text, items.drop_last(), target);
    }
}

/// Import edits are insertions between two characters of the text that was parsed, and there are
/// none for a text that was not parsed cleanly or has changed since.
pub proof fn law_import_edits_insert(
    text: Seq<char>,
    parsed: ParsedFile,
    target: Seq<char>,
    name: Seq<char>,
    identifiers: Seq<String>,
)
    ensures
        is_insertion(text, import_edit(text, parsed, target, name, identifiers)),
        is_insertion(text, wildcard_import_edit(text, parsed, target, identifiers)),
        is_insertion(text, module_import_edit(text, parsed, target, identifiers)),
        is_insertion(text, import_fix(text, parsed, target, name, identifiers)),
        is_insertion(text, module_import_fix(text, parsed, target, identifiers)),
        !parsed.clean || !matches_source(parsed, text) ==> {
            &&& import_edit(text, parsed, target, name, identifiers) is None
            &&& wildcard_import_edit(text, parsed, target, identifiers) is None
            &&& module_import_edit(text, parsed, target, identifiers) is None
            &&& import_fix(text, parsed, target, name, identifiers) is None
            &&& module_import_fix(text, parsed, target, identifiers) is None
        },
{
    let items = parsed.module.items@;
    if is_editable(parsed, text) {
        lemma_found_offset(text, items, target, name);
        lemma_found_wildcard(text, items, target);
        lemma_new_declaration(text, items, "import "@ + target + ".{"@ + name + "};"@);
        lemma_new_declaration(text, items, "import "@ + target + ".{*};"@);
        lemma_new_declaration(text, items, "import "@ + target + ";"@);
        lemma_new_declaration(text, items, "import {"@ + name + "} from "@ + target + ";"@);
        lemma_new_declaration(
            text,
            items,
            "import * as "@ + last_segment(target) + " from "@ + target + ";"@,
        );
    }
}

/// Whether a selected name is a name under which it is in scope.
pub open spec fn selects_plainly(selected: SelectedName, name: Seq<char>) -> bool {
    selected.name.text@ == name && selected.alias is None
}

/// Whether an item is a declaration of its own that imports a name of a target.
pub open spec fn declares_import(item: Item, target: Seq<char>, name: Seq<char>) -> bool {
    match selection_of(item, target) {
        Some((import, names)) => import.hiding@.len() == 0 && names.len() == 1 && selects_plainly(
            names[0],
            name,
        ),
        None => false,
    }
}

/// Whether an item is an item of the text before with one more name of a target at the end of its
/// selector.
pub open spec fn extends_import(item: Item, before: Item, target: Seq<char>, name: Seq<char>) -> bool {
    match (selection_of(item, target), selection_of(before, target)) {
        (Some((import, names)), Some((old_import, old_names))) => fit_of(
            old_import,
            old_names,
            name,
        ) == Fit::Extended && import.hiding@ == old_import.hiding@ && names.len() == old_names.len()
            + 1 && selects_plainly(names.last(), name),
        _ => false,
    }
}

/// Whether the parse of an edited text reads the import that the edit has put there: a declaration
/// of its own, or one more name in the selector of an item.
pub open spec fn reads_import(
    before: ParsedFile,
    after: ParsedFile,
    target: Seq<char>,
    name: Seq<char>,
) -> bool {
    exists|k: int|
        0 <= k < after.module.items@.len() && (declares_import(
            #[trigger] after.module.items@[k],
            target,
            name,
        ) || exists|j: int|
            0 <= j < before.module.items@.len() && extends_import(
                after.module.items@[k],
                #[trigger] before.module.items@[j],
                target,
                name,
            ))
}

/// A name is not imported twice. Once the parse of an edited text reads the import that the edit
/// has put there, no more edit is planned for the name.
pub proof fn law_imported_once(
    text: Seq<char>,
    before: ParsedFile,
    after: ParsedFile,
    target: Seq<char>,
    name: Seq<char>,
    identifiers: Seq<String>,
)
    requires
        reads_import(before, after, target, name),
    ensures
        import_edit(text, after, target, name, identifiers) is None,
        import_fix(text, after, target, name, identifiers) is None,
{
    let items = after.module.items@;
    let olds = before.module.items@;
    let k = choose|k: int|
        0 <= k < items.len() && (declares_import(#[trigger] items[k], target, name) || exists|j: int|
            0 <= j < olds.len() && extends_import(items[k], #[trigger] olds[j], target, name));
    let (import, names) = selection_of(items[k], target)->0;
    let last = names.len() - 1;
    if !declares_import(items[k], target, name) {
        let j = choose|j: int|
            0 <= j < olds.len() && extends_import(items[k], #[trigger] olds[j], target, name);
        let (old_import, old_names) = selection_of(olds[j], target)->0;
        assert(!hides(old_import, name));
        assert(!hides(import, name)) by {
            if hides(import, name) {
                let h = choose|h: int|
                    0 <= h < import.hiding@.len() && (#[trigger] import.hiding@[h]).text@ == name;
                assert(old_import.hiding@[h].text@ == name);
            }
        }
    }
    assert(binds(import, names[last], name));
    assert(item_binds(items[k], target, name));
}

/// A module is not imported twice. Once the parse of a text reads a plain import of it, no edit is
/// planned for it.
pub proof fn law_module_imported_once(
    text: Seq<char>,
    parsed: ParsedFile,
    target: Seq<char>,
    identifiers: Seq<String>,
    k: int,
)
    requires
        0 <= k < parsed.module.items@.len(),
        is_plain_import(parsed.module.items@[k], target),
    ensures
        module_import_edit(text, parsed, target, identifiers) is None,
        module_import_fix(text, parsed, target, identifiers) is None,
{
}

} // verus!
