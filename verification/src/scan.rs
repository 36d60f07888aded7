//! Lexical structure of source text: strings, comments and balanced delimiters.
//!
//! Scanning does not need a successful parse, so it stays useful while a document is
//! syntactically incomplete.
use vstd::prelude::*;

use crate::text::utf8;

verus! {

/// A range of bytes in a source text.
#[derive(Debug, Clone, Copy, PartialEq, Eq, Structural)]
pub struct ByteRange {
    pub start: usize,
    pub end: usize,
}

impl ByteRange {
    pub open spec fn spec_contains_offset(self, offset: int) -> bool {
        self.start <= offset <= self.end
    }

    pub open spec fn spec_contains_range(self, other: ByteRange) -> bool {
        self.start <= other.start && other.end <= self.end
    }

    pub open spec fn spec_len(self) -> nat {
        if self.start <= self.end {
            (self.end - self.start) as nat
        } else {
            0
        }
    }

    pub fn contains_offset(self, offset: usize) -> (inside: bool)
        ensures
            inside == self.spec_contains_offset(offset as int),
    {
        self.start <= offset && offset <= self.end
    }

    pub fn contains_range(self, other: ByteRange) -> (inside: bool)
        ensures
            inside == self.spec_contains_range(other),
    {
        self.start <= other.start && other.end <= self.end
    }

    pub fn len(self) -> (len: usize)
        ensures
            len == self.spec_len(),
    {
        if self.start <= self.end {
            self.end - self.start
        } else {
            0
        }
    }
}

/// A pair of delimiters, from the opening one to behind the closing one.
#[derive(Debug, Clone, Copy, PartialEq, Eq, Structural)]
pub struct DelimiterRange {
    pub opening: u8,
    pub range: ByteRange,
}

/// The lexical structure of a source text.
pub struct LexicalStructure {
    pub delimiters: Vec<DelimiterRange>,
    pub block_comments: Vec<ByteRange>,
    pub line_comments: Vec<ByteRange>,
}

/// Whether two bytes stand at an index.
pub open spec fn pair_at(bytes: Seq<u8>, i: int, first: u8, second: u8) -> bool {
    0 <= i && i + 1 < bytes.len() && bytes[i] == first && bytes[i + 1] == second
}

pub fn has_pair(bytes: &[u8], i: usize, first: u8, second: u8) -> (found: bool)
    ensures
        found == pair_at(bytes@, i as int, first, second),
{
    i < bytes.len() && bytes.len() - i > 1 && bytes[i] == first && bytes[i + 1] == second
}

/// The first index from `i` on that holds a line feed, the end of the text where there is none.
pub open spec fn line_end(bytes: Seq<u8>, i: int) -> int
    decreases bytes.len() - i,
{
    if i >= bytes.len() || bytes[i] == 0x0a {
        i
    } else {
        line_end(bytes, i + 1)
    }
}

/// The index behind the end of nested block comments that are open at `i`, none where the text
/// ends before all of them do.
pub open spec fn comment_end(bytes: Seq<u8>, i: int, depth: nat) -> Option<int>
    decreases bytes.len() - i,
{
    if depth == 0 {
        Some(i)
    } else if i + 1 >= bytes.len() {
        None
    } else if pair_at(bytes, i, 0x2f, 0x2a) {
        comment_end(bytes, i + 2, depth + 1)
    } else if pair_at(bytes, i, 0x2a, 0x2f) {
        comment_end(bytes, i + 2, (depth - 1) as nat)
    } else {
        comment_end(bytes, i + 1, depth)
    }
}

/// The index behind a block comment that begins at `start`; the end of the text where the
/// comment does not end.
pub open spec fn block_end(bytes: Seq<u8>, start: int) -> int {
    match comment_end(bytes, start + 2, 1) {
        Some(end) => end,
        None => bytes.len() as int,
    }
}

/// The index behind the closing quote of a string that is open at `i`; the end of the text where
/// the string does not end. A backslash takes away the meaning of what follows it.
pub open spec fn string_end(bytes: Seq<u8>, i: int) -> int
    decreases bytes.len() - i,
{
    if i >= bytes.len() {
        bytes.len() as int
    } else if bytes[i] == 0x5c {
        if i + 2 < bytes.len() {
            string_end(bytes, i + 2)
        } else {
            bytes.len() as int
        }
    } else if bytes[i] == 0x22 {
        i + 1
    } else {
        string_end(bytes, i + 1)
    }
}

pub proof fn lemma_line_end(bytes: Seq<u8>, i: int)
    requires
        0 <= i <= bytes.len(),
    ensures
        i <= line_end(bytes, i) <= bytes.len(),
        line_end(bytes, i) < bytes.len() ==> bytes[line_end(bytes, i)] == 0x0a,
        forall|k: int| i <= k < line_end(bytes, i) ==> bytes[k] != 0x0a,
    decreases bytes.len() - i,
{
    if i < bytes.len() && bytes[i] != 0x0a {
        lemma_line_end(bytes, i + 1);
    }
}

pub proof fn lemma_comment_end(bytes: Seq<u8>, i: int, depth: nat)
    requires
        0 <= i <= bytes.len(),
    ensures
        comment_end(bytes, i, depth) is Some ==> i <= comment_end(bytes, i, depth)->0
            <= bytes.len(),
        depth > 0 && comment_end(bytes, i, depth) is Some ==> comment_end(bytes, i, depth)->0 >= i
            + 2 && bytes[comment_end(bytes, i, depth)->0 - 1] == 0x2f && bytes[comment_end(
            bytes,
            i,
            depth,
        )->0 - 2] == 0x2a,
    decreases bytes.len() - i,
{
    if depth > 0 && i + 1 < bytes.len() {
        if pair_at(bytes, i, 0x2f, 0x2a) {
            lemma_comment_end(bytes, i + 2, depth + 1);
        } else if pair_at(bytes, i, 0x2a, 0x2f) {
            lemma_comment_end(bytes, i + 2, (depth - 1) as nat);
        } else {
            lemma_comment_end(bytes, i + 1, depth);
        }
    }
}

pub proof fn lemma_string_end(bytes: Seq<u8>, i: int)
    requires
        0 <= i,
    ensures
        string_end(bytes, i) <= bytes.len(),
        i <= bytes.len() ==> i <= string_end(bytes, i),
        i < bytes.len() ==> i < string_end(bytes, i),
        string_end(bytes, i) < bytes.len() ==> string_end(bytes, i) >= 1 && bytes[string_end(
            bytes,
            i,
        ) - 1] == 0x22,
    decreases bytes.len() - i,
{
    if i < bytes.len() {
        if bytes[i] == 0x5c {
            if i + 2 < bytes.len() {
                lemma_string_end(bytes, i + 2);
            }
        } else if bytes[i] != 0x22 {
            lemma_string_end(bytes, i + 1);
        }
    }
}

/// Finds the end of the line.
pub fn find_line_end(bytes: &[u8], start: usize) -> (end: usize)
    requires
        start <= bytes@.len(),
    ensures
        end == line_end(bytes@, start as int),
        start <= end <= bytes@.len(),
{
    let mut i: usize = start;
    while i < bytes.len() && bytes[i] != 0x0a
        invariant
            start <= i <= bytes@.len(),
            line_end(bytes@, i as int) == line_end(bytes@, start as int),
        decreases bytes@.len() - i,
    {
        i += 1;
    }
    i
}

/// Finds the end of a block comment behind its opening.
pub fn find_comment_end(bytes: &[u8], start: usize) -> (end: Option<usize>)
    requires
        start <= bytes@.len(),
    ensures
        match end {
            Some(end) => comment_end(bytes@, start as int, 1) == Some(end as int) && start <= end
                <= bytes@.len(),
            None => comment_end(bytes@, start as int, 1) is None,
        },
{
    let mut i: usize = start;
    let mut depth: usize = 1;
    proof {
        lemma_comment_end(bytes@, start as int, 1);
    }
    while depth > 0 && i < bytes.len() && bytes.len() - i > 1
        invariant
            start <= i <= bytes@.len(),
            depth <= i - start + 1,
            comment_end(bytes@, i as int, depth as nat) == comment_end(bytes@, start as int, 1),
        decreases bytes@.len() - i,
    {
        if has_pair(bytes, i, 0x2f, 0x2a) {
            depth += 1;
            i += 2;
        } else if has_pair(bytes, i, 0x2a, 0x2f) {
            depth -= 1;
            i += 2;
        } else {
            i += 1;
        }
    }
    if depth == 0 {
        Some(i)
    } else {
        None
    }
}

/// Finds the end of a string.
pub fn find_string_end(bytes: &[u8], start: usize) -> (end: usize)
    requires
        start <= bytes@.len(),
    ensures
        end == string_end(bytes@, start as int),
        start <= end <= bytes@.len(),
{
    let mut i: usize = start;
    proof {
        lemma_string_end(bytes@, start as int);
    }
    while i < bytes.len()
        invariant
            start <= i <= bytes@.len(),
            string_end(bytes@, i as int) == string_end(bytes@, start as int),
            string_end(bytes@, start as int) <= bytes@.len(),
        decreases bytes@.len() - i,
    {
        if bytes[i] == 0x5c {
            if bytes.len() - i > 2 {
                i += 2;
            } else {
                i = bytes.len();
            }
        } else if bytes[i] == 0x22 {
            return i + 1;
        } else {
            i += 1;
        }
    }
    i
}

/// Whether a byte opens a pair of delimiters.
pub open spec fn is_opening(byte: u8) -> bool {
    byte == 0x7b || byte == 0x28 || byte == 0x5b
}

/// The opening delimiter of a closing one.
pub open spec fn opening_of(byte: u8) -> Option<u8> {
    if byte == 0x7d {
        Some(0x7b)
    } else if byte == 0x29 {
        Some(0x28)
    } else if byte == 0x5d {
        Some(0x5b)
    } else {
        None
    }
}

/// What a scan has found, with the delimiters that are open.
#[verifier::ext_equal]
pub struct Scan {
    pub open: Seq<(u8, usize)>,
    pub delimiters: Seq<DelimiterRange>,
    pub block_comments: Seq<ByteRange>,
    pub line_comments: Seq<ByteRange>,
}

/// The scan of a text from an index on. Delimiters in strings and comments are passed over. A
/// closing delimiter that does not fit the innermost open one is passed over.
pub open spec fn scan_from(bytes: Seq<u8>, i: int, found: Scan) -> Scan
    decreases bytes.len() - i,
{
    if i < 0 || i >= bytes.len() {
        found
    } else if bytes[i] == 0x22 {
        proof {
            lemma_string_end(bytes, i + 1);
        }
        scan_from(bytes, string_end(bytes, i + 1), found)
    } else if pair_at(bytes, i, 0x2f, 0x2f) {
        proof {
            lemma_line_end(bytes, i + 2);
        }
        let end = line_end(bytes, i + 2);
        scan_from(
            bytes,
            end,
            Scan {
                line_comments: found.line_comments.push(
                    ByteRange { start: i as usize, end: end as usize },
                ),
                ..found
            },
        )
    } else if pair_at(bytes, i, 0x2f, 0x2a) {
        proof {
            lemma_comment_end(bytes, i + 2, 1);
        }
        let end = block_end(bytes, i);
        scan_from(
            bytes,
            end,
            Scan {
                block_comments: found.block_comments.push(
                    ByteRange { start: i as usize, end: end as usize },
                ),
                ..found
            },
        )
    } else if is_opening(bytes[i]) {
        scan_from(bytes, i + 1, Scan { open: found.open.push((bytes[i], i as usize)), ..found })
    } else if opening_of(bytes[i]) is Some && found.open.len() > 0 && found.open.last().0
        == opening_of(bytes[i])->0 {
        scan_from(
            bytes,
            i + 1,
            Scan {
                open: found.open.drop_last(),
                delimiters: found.delimiters.push(
                    DelimiterRange {
                        opening: found.open.last().0,
                        range: ByteRange { start: found.open.last().1, end: (i + 1) as usize },
                    },
                ),
                ..found
            },
        )
    } else {
        scan_from(bytes, i + 1, found)
    }
}

/// A scan that has found nothing.
pub open spec fn no_scan() -> Scan {
    Scan {
        open: Seq::empty(),
        delimiters: Seq::empty(),
        block_comments: Seq::empty(),
        line_comments: Seq::empty(),
    }
}

/// The lexical structure of a text.
pub open spec fn scanned(text: Seq<char>) -> Scan {
    scan_from(utf8(text), 0, no_scan())
}

/// Scans balanced delimiters and comments without requiring a successful parse. Delimiters in
/// comments and string literals are ignored.
pub fn scan_source(source: &str) -> (found: LexicalStructure)
    ensures
        found.delimiters@ == scanned(source@).delimiters,
        found.block_comments@ == scanned(source@).block_comments,
        found.line_comments@ == scanned(source@).line_comments,
{
    let bytes = source.as_bytes();
    let mut open: Vec<(u8, usize)> = Vec::new();
    let mut delimiters: Vec<DelimiterRange> = Vec::new();
    let mut block_comments: Vec<ByteRange> = Vec::new();
    let mut line_comments: Vec<ByteRange> = Vec::new();
    let ghost mut state = no_scan();
    let mut i: usize = 0;
    while i < bytes.len()
        invariant
            i <= bytes@.len(),
            state.open == open@,
            state.delimiters == delimiters@,
            state.block_comments == block_comments@,
            state.line_comments == line_comments@,
            scan_from(bytes@, i as int, state) == scan_from(bytes@, 0, no_scan()),
        decreases bytes@.len() - i,
    {
        let byte = bytes[i];
        if byte == 0x22 {
            let end = find_string_end(bytes, i + 1);
            i = end;
        } else if has_pair(bytes, i, 0x2f, 0x2f) {
            let end = find_line_end(bytes, i + 2);
            let range = ByteRange { start: i, end };
            proof {
                state = Scan { line_comments: state.line_comments.push(range), ..state };
            }
            line_comments.push(range);
            i = end;
        } else if has_pair(bytes, i, 0x2f, 0x2a) {
            let end: usize = match find_comment_end(bytes, i + 2) {
                Some(end) => end,
                None => bytes.len(),
            };
            let range = ByteRange { start: i, end };
            proof {
                state = Scan { block_comments: state.block_comments.push(range), ..state };
            }
            block_comments.push(range);
            i = end;
        } else if byte == 0x7b || byte == 0x28 || byte == 0x5b {
            proof {
                state = Scan { open: state.open.push((byte, i)), ..state };
            }
            open.push((byte, i));
            i += 1;
        } else if byte == 0x7d || byte == 0x29 || byte == 0x5d {
            let expected: u8 = if byte == 0x7d {
                0x7b
            } else if byte == 0x29 {
                0x28
            } else {
                0x5b
            };
            if open.len() > 0 && open[open.len() - 1].0 == expected {
                let ghost before = open@;
                if let Some((opening, start)) = open.pop() {
                    let found = DelimiterRange { opening, range: ByteRange { start, end: i + 1 } };
                    proof {
                        assert(before.drop_last() == open@);
                        state = Scan {
                            open: state.open.drop_last(),
                            delimiters: state.delimiters.push(found),
                            ..state
                        };
                    }
                    delimiters.push(found);
                }
            }
            i += 1;
        } else {
            i += 1;
        }
    }
    LexicalStructure { delimiters, block_comments, line_comments }
}

/// Whether a byte stands outside of strings and comments, looked for from `i` on.
pub open spec fn code_from(bytes: Seq<u8>, i: int, at: int) -> bool
    decreases bytes.len() - i,
{
    if i < 0 || i >= bytes.len() {
        false
    } else if bytes[i] == 0x22 {
        proof {
            lemma_string_end(bytes, i + 1);
        }
        code_from(bytes, string_end(bytes, i + 1), at)
    } else if pair_at(bytes, i, 0x2f, 0x2f) {
        proof {
            lemma_line_end(bytes, i + 2);
        }
        code_from(bytes, line_end(bytes, i + 2), at)
    } else if pair_at(bytes, i, 0x2f, 0x2a) {
        proof {
            lemma_comment_end(bytes, i + 2, 1);
        }
        code_from(bytes, block_end(bytes, i), at)
    } else {
        i == at || code_from(bytes, i + 1, at)
    }
}

/// Whether a byte stands outside of strings and comments.
pub open spec fn is_code(bytes: Seq<u8>, at: int) -> bool {
    code_from(bytes, 0, at)
}

proof fn lemma_code_from(bytes: Seq<u8>, i: int, at: int)
    requires
        0 <= i,
        code_from(bytes, i, at),
    ensures
        i <= at < bytes.len(),
    decreases bytes.len() - i,
{
    if bytes[i] == 0x22 {
        lemma_string_end(bytes, i + 1);
        lemma_code_from(bytes, string_end(bytes, i + 1), at);
    } else if pair_at(bytes, i, 0x2f, 0x2f) {
        lemma_line_end(bytes, i + 2);
        lemma_code_from(bytes, line_end(bytes, i + 2), at);
    } else if pair_at(bytes, i, 0x2f, 0x2a) {
        lemma_comment_end(bytes, i + 2, 1);
        lemma_code_from(bytes, block_end(bytes, i), at);
    } else if i != at {
        lemma_code_from(bytes, i + 1, at);
    }
}

/// Whether comments lie before an index, one behind the other, without code inside of them.
pub open spec fn comments_apart(bytes: Seq<u8>, i: int, comments: Seq<ByteRange>) -> bool {
    &&& forall|k: int|
        0 <= k < comments.len() ==> (#[trigger] comments[k]).start < comments[k].end <= i
    &&& forall|j: int, k: int|
        0 <= j < k < comments.len() ==> (#[trigger] comments[j]).end <= (
        #[trigger] comments[k]).start
    &&& forall|k: int, at: int|
        0 <= k < comments.len() && (#[trigger] comments[k]).start <= at < comments[k].end
            ==> !#[trigger] is_code(bytes, at)
}

/// Whether both ends of a pair of delimiters stand outside of strings and comments.
pub open spec fn pair_in_code(bytes: Seq<u8>, pair: DelimiterRange) -> bool {
    is_code(bytes, pair.range.start as int) && is_code(bytes, pair.range.end - 1)
}

/// Whether pairs of delimiters before an index end one behind the other, with both ends outside
/// of strings and comments.
pub open spec fn pairs_in_code(bytes: Seq<u8>, i: int, pairs: Seq<DelimiterRange>) -> bool {
    &&& forall|k: int|
        0 <= k < pairs.len() ==> (#[trigger] pairs[k]).range.end <= i && pair_in_code(
            bytes,
            pairs[k],
        )
    &&& forall|j: int, k: int|
        0 <= j < k < pairs.len() ==> (#[trigger] pairs[j]).range.end < (
        #[trigger] pairs[k]).range.end
}

/// Whether the line comments and the block comments of a text have no byte in common.
pub open spec fn kinds_apart(lines: Seq<ByteRange>, blocks: Seq<ByteRange>) -> bool {
    forall|j: int, k: int|
        0 <= j < lines.len() && 0 <= k < blocks.len() ==> (#[trigger] lines[j]).end <= (
        #[trigger] blocks[k]).start || blocks[k].end <= lines[j].start
}

spec fn scan_apart(bytes: Seq<u8>, i: int, found: Scan) -> bool {
    &&& forall|k: int|
        0 <= k < found.open.len() ==> is_code(bytes, (#[trigger] found.open[k]).1 as int)
    &&& pairs_in_code(bytes, i, found.delimiters)
    &&& comments_apart(bytes, i, found.line_comments)
    &&& comments_apart(bytes, i, found.block_comments)
    &&& kinds_apart(found.line_comments, found.block_comments)
}

/// Whether the bytes from an index on are code where the search from that index says so.
spec fn code_agrees(bytes: Seq<u8>, i: int) -> bool {
    forall|at: int| i <= at ==> #[trigger] is_code(bytes, at) == code_from(bytes, i, at)
}

proof fn lemma_comment_added(bytes: Seq<u8>, i: int, end: int, comments: Seq<ByteRange>)
    requires
        bytes.len() <= usize::MAX,
        0 <= i < end <= bytes.len(),
        comments_apart(bytes, i, comments),
        code_agrees(bytes, i),
        forall|at: int| #[trigger] code_from(bytes, i, at) == code_from(bytes, end, at),
    ensures
        comments_apart(
            bytes,
            end,
            comments.push(ByteRange { start: i as usize, end: end as usize }),
        ),
{
    let range = ByteRange { start: i as usize, end: end as usize };
    let all = comments.push(range);
    assert forall|k: int, at: int|
        0 <= k < all.len() && (#[trigger] all[k]).start <= at < all[k].end implies !#[trigger] is_code(
        bytes,
        at,
    ) by {
        if k < comments.len() {
            assert(all[k] == comments[k]);
        } else if is_code(bytes, at) {
            assert(code_from(bytes, i, at));
            lemma_code_from(bytes, end, at);
        }
    }
}

proof fn lemma_code_agrees(bytes: Seq<u8>, i: int, end: int)
    requires
        0 <= i <= end,
        code_agrees(bytes, i),
        forall|at: int|
            end <= at ==> #[trigger] code_from(bytes, i, at) == code_from(bytes, end, at),
    ensures
        code_agrees(bytes, end),
{
    assert forall|at: int| end <= at implies #[trigger] is_code(bytes, at) == code_from(
        bytes,
        end,
        at,
    ) by {
        assert(code_from(bytes, i, at) == code_from(bytes, end, at));
    }
}

proof fn lemma_scan_apart(bytes: Seq<u8>, i: int, found: Scan)
    requires
        bytes.len() <= usize::MAX,
        0 <= i <= bytes.len(),
        scan_apart(bytes, i, found),
        code_agrees(bytes, i),
    ensures
        scan_apart(bytes, bytes.len() as int, scan_from(bytes, i, found)),
    decreases bytes.len() - i,
{
    if i >= bytes.len() {
    } else if bytes[i] == 0x22 {
        lemma_string_end(bytes, i + 1);
        let end = string_end(bytes, i + 1);
        lemma_code_agrees(bytes, i, end);
        lemma_scan_apart(bytes, end, found);
    } else if pair_at(bytes, i, 0x2f, 0x2f) {
        lemma_line_end(bytes, i + 2);
        let end = line_end(bytes, i + 2);
        lemma_comment_added(bytes, i, end, found.line_comments);
        lemma_code_agrees(bytes, i, end);
        let next = Scan {
            line_comments: found.line_comments.push(
                ByteRange { start: i as usize, end: end as usize },
            ),
            ..found
        };
        lemma_scan_apart(bytes, end, next);
    } else if pair_at(bytes, i, 0x2f, 0x2a) {
        lemma_comment_end(bytes, i + 2, 1);
        let end = block_end(bytes, i);
        lemma_comment_added(bytes, i, end, found.block_comments);
        lemma_code_agrees(bytes, i, end);
        let next = Scan {
            block_comments: found.block_comments.push(
                ByteRange { start: i as usize, end: end as usize },
            ),
            ..found
        };
        lemma_scan_apart(bytes, end, next);
    } else {
        assert(code_from(bytes, i, i));
        assert(is_code(bytes, i));
        lemma_code_agrees(bytes, i, i + 1);
        if is_opening(bytes[i]) {
            lemma_scan_apart(
                bytes,
                i + 1,
                Scan { open: found.open.push((bytes[i], i as usize)), ..found },
            );
        } else if opening_of(bytes[i]) is Some && found.open.len() > 0 && found.open.last().0
            == opening_of(bytes[i])->0 {
            let last = found.open.last();
            assert(found.open[found.open.len() - 1] == last);
            let added = DelimiterRange {
                opening: last.0,
                range: ByteRange { start: last.1, end: (i + 1) as usize },
            };
            assert(pair_in_code(bytes, added));
            let next = Scan {
                open: found.open.drop_last(),
                delimiters: found.delimiters.push(added),
                ..found
            };
            assert forall|k: int| 0 <= k < next.open.len() implies #[trigger] next.open[k]
                == found.open[k] by {}
            lemma_scan_apart(bytes, i + 1, next);
        } else {
            lemma_scan_apart(bytes, i + 1, found);
        }
    }
}

/// The comments of a text come one behind the other, without code inside of them, and no two
/// have a byte in common. Pairs of delimiters end one behind the other, and both ends of each
/// stand outside of strings and comments.
pub proof fn law_scan_apart(text: Seq<char>)
    requires
        utf8(text).len() <= usize::MAX,
    ensures
        pairs_in_code(utf8(text), utf8(text).len() as int, scanned(text).delimiters),
        comments_apart(utf8(text), utf8(text).len() as int, scanned(text).line_comments),
        comments_apart(utf8(text), utf8(text).len() as int, scanned(text).block_comments),
        kinds_apart(scanned(text).line_comments, scanned(text).block_comments),
{
    lemma_scan_apart(utf8(text), 0, no_scan());
}

} // verus!
