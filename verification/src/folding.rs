//! Folding ranges for declarations, imports, comments, and lexical blocks.
//!
//! Structural delimiter scanning intentionally remains useful while a document is syntactically
//! incomplete. Parsed item spans supplement that lexical view for declaration-level folds.
use vstd::prelude::*;

use crate::hir::{item_span, Item, Module};
use crate::line_index::{
    char_index, clamped, cut, lemma_ascii_boundary, position_at, LineIndexExt,
};
use crate::order::{in_order, law_sorted, sort, sorted, Ordered};
use crate::protocol::{FoldingRange, FoldingRangeKind, Position};
use crate::scan::{
    block_end, is_opening, lemma_comment_end, lemma_line_end, lemma_string_end, line_end,
    no_scan, opening_of, pair_at, scan_from, scan_source, scanned, string_end, ByteRange,
    DelimiterRange, LexicalStructure, Scan,
};
use crate::state::WorldState;
use crate::table::lookup;
use crate::text::{blank, is_blank, utf8};
use crate::url::Url;

verus! {

/// The position of the start or end of a byte range.
pub open spec fn place(text: Seq<char>, offset: usize) -> Position {
    position_at(text, clamped(text, (offset as u32) as int))
}

/// The fold of a byte range, none where the range begins and ends on one line.
pub open spec fn fold_of(text: Seq<char>, range: ByteRange, kind: Option<FoldingRangeKind>) -> Option<
    FoldingRange,
> {
    let start = place(text, range.start);
    let end = place(text, range.end);
    if start.line < end.line {
        Some(
            FoldingRange {
                start_line: start.line,
                start_character: Some(start.character),
                end_line: end.line,
                end_character: Some(end.character),
                kind,
            },
        )
    } else {
        None
    }
}

/// The folds of some byte ranges.
pub open spec fn folds_of(
    text: Seq<char>,
    ranges: Seq<ByteRange>,
    kind: Option<FoldingRangeKind>,
) -> Seq<FoldingRange>
    decreases ranges.len(),
{
    if ranges.len() == 0 {
        Seq::empty()
    } else {
        let before = folds_of(text, ranges.drop_last(), kind);
        match fold_of(text, ranges.last(), kind) {
            Some(fold) => before.push(fold),
            None => before,
        }
    }
}

fn folding_range(
    line_index: &LineIndexExt,
    range: ByteRange,
    kind: Option<FoldingRangeKind>,
) -> (fold: Option<FoldingRange>)
    ensures
        fold == fold_of(line_index@, range, kind),
{
    let start = line_index.byte_to_position(range.start as u32);
    let end = line_index.byte_to_position(range.end as u32);
    if start.line < end.line {
        Some(
            FoldingRange {
                start_line: start.line,
                start_character: Some(start.character),
                end_line: end.line,
                end_character: Some(end.character),
                kind,
            },
        )
    } else {
        None
    }
}

fn push_folds(
    line_index: &LineIndexExt,
    ranges: &Vec<ByteRange>,
    kind: Option<FoldingRangeKind>,
    folds: &mut Vec<FoldingRange>,
)
    ensures
        final(folds)@ == old(folds)@ + folds_of(line_index@, ranges@, kind),
{
    let ghost first = folds@;
    let mut i: usize = 0;
    assert(ranges@.take(0) == Seq::<ByteRange>::empty());
    assert(first + Seq::<FoldingRange>::empty() == first);
    while i < ranges.len()
        invariant
            i <= ranges@.len(),
            folds@ == first + folds_of(line_index@, ranges@.take(i as int), kind),
        decreases ranges@.len() - i,
    {
        assert(ranges@.take(i + 1).drop_last() == ranges@.take(i as int));
        let ghost before = folds_of(line_index@, ranges@.take(i as int), kind);
        match folding_range(line_index, ranges[i], kind) {
            Some(fold) => {
                folds.push(fold);
                assert((first + before).push(fold) == first + before.push(fold));
            },
            None => {},
        }
        i += 1;
    }
    assert(ranges@.take(i as int) == ranges@);
}

/// The offset at which the line of an offset begins.
pub open spec fn line_start(bytes: Seq<u8>, offset: int) -> int
    decreases offset,
{
    if offset <= 0 || bytes[offset - 1] == 0x0a {
        offset
    } else {
        line_start(bytes, offset - 1)
    }
}

pub proof fn lemma_line_start(bytes: Seq<u8>, offset: int)
    requires
        0 <= offset <= bytes.len(),
    ensures
        0 <= line_start(bytes, offset) <= offset,
        line_start(bytes, offset) > 0 ==> bytes[line_start(bytes, offset) - 1] == 0x0a,
    decreases offset,
{
    if offset > 0 && bytes[offset - 1] != 0x0a {
        lemma_line_start(bytes, offset - 1);
    }
}

/// Finds the offset at which the line of an offset begins.
pub fn line_start_offset(source: &str, offset: usize) -> (start: usize)
    requires
        offset <= utf8(source@).len(),
    ensures
        start == line_start(utf8(source@), offset as int),
        start <= offset,
{
    let bytes = source.as_bytes();
    let mut start: usize = offset;
    while start > 0 && bytes[start - 1] != 0x0a
        invariant
            start <= offset <= bytes@.len(),
            line_start(bytes@, start as int) == line_start(bytes@, offset as int),
        decreases start,
    {
        start -= 1;
    }
    start
}

/// Whether only white space stands before an offset on its line.
pub open spec fn begins_line(text: Seq<char>, offset: int) -> bool {
    blank(
        text.subrange(
            char_index(text, line_start(utf8(text), offset)),
            char_index(text, offset),
        ),
    )
}

/// A comment with the line on which it begins, or a run of comments with the line on which the
/// last of them begins.
#[derive(Clone, Copy)]
pub struct CommentLine {
    pub range: ByteRange,
    pub line: u32,
}

impl Ordered for CommentLine {
    open spec fn before(self, other: CommentLine) -> bool {
        self.line < other.line
    }

    fn is_before(&self, other: &CommentLine) -> (before: bool) {
        self.line < other.line
    }

    proof fn lemma_asymmetric(a: CommentLine, b: CommentLine) {
    }

    proof fn lemma_not_behind(a: CommentLine, b: CommentLine, c: CommentLine) {
    }
}

/// The line comments that stand on lines of their own.
pub open spec fn own_lines(text: Seq<char>, comments: Seq<ByteRange>) -> Seq<CommentLine>
    decreases comments.len(),
{
    if comments.len() == 0 {
        Seq::empty()
    } else {
        let before = own_lines(text, comments.drop_last());
        let range = comments.last();
        if begins_line(text, range.start as int) {
            before.push(CommentLine { range, line: place(text, range.start).line })
        } else {
            before
        }
    }
}

/// Comments on consecutive lines joined to runs.
pub open spec fn comment_runs(comments: Seq<CommentLine>) -> Seq<CommentLine>
    decreases comments.len(),
{
    if comments.len() == 0 {
        Seq::empty()
    } else {
        let runs = comment_runs(comments.drop_last());
        let comment = comments.last();
        if runs.len() > 0 && comment.line == runs.last().line + 1 {
            runs.drop_last().push(
                CommentLine {
                    range: ByteRange { start: runs.last().range.start, end: comment.range.end },
                    line: comment.line,
                },
            )
        } else {
            runs.push(comment)
        }
    }
}

/// The folds of the runs of more than one line.
pub open spec fn run_folds(text: Seq<char>, runs: Seq<CommentLine>) -> Seq<FoldingRange>
    decreases runs.len(),
{
    if runs.len() == 0 {
        Seq::empty()
    } else {
        let before = run_folds(text, runs.drop_last());
        let run = runs.last();
        let fold = fold_of(text, run.range, Some(FoldingRangeKind::Comment));
        if run.line > place(text, run.range.start).line && fold is Some {
            before.push(fold->0)
        } else {
            before
        }
    }
}

pub open spec fn comment_folds_of(text: Seq<char>) -> Seq<FoldingRange> {
    folds_of(text, scanned(text).block_comments, Some(FoldingRangeKind::Comment)) + run_folds(
        text,
        comment_runs(sorted(own_lines(text, scanned(text).line_comments))),
    )
}

/// Whether what a scan has found lies in the text before an index: comments and delimiters in
/// their bounds, pairs of delimiters disjoint or one inside the other.
pub open spec fn scan_ok(bytes: Seq<u8>, i: int, found: Scan) -> bool {
    &&& forall|k: int|
        0 <= k < found.open.len() ==> (#[trigger] found.open[k]).1 < i
            && bytes[found.open[k].1 as int] == found.open[k].0 && is_opening(found.open[k].0)
    &&& forall|j: int, k: int|
        0 <= j < k < found.open.len() ==> (#[trigger] found.open[j]).1 < (
        #[trigger] found.open[k]).1
    &&& forall|k: int|
        0 <= k < found.delimiters.len() ==> delimiter_ok(bytes, i, #[trigger] found.delimiters[k])
    &&& forall|j: int, k: int|
        0 <= j < found.delimiters.len() && 0 <= k < found.open.len() ==> (
        #[trigger] found.open[k]).1 < (#[trigger] found.delimiters[j]).range.start
            || found.delimiters[j].range.end <= found.open[k].1
    &&& forall|j: int, k: int|
        0 <= j < k < found.delimiters.len() ==> apart_or_inside(
            (#[trigger] found.delimiters[j]).range,
            (#[trigger] found.delimiters[k]).range,
        )
    &&& forall|k: int|
        0 <= k < found.block_comments.len() ==> (#[trigger] found.block_comments[k]).start
            < found.block_comments[k].end <= i && bytes[found.block_comments[k].start as int]
            == 0x2f
    &&& forall|k: int|
        0 <= k < found.line_comments.len() ==> (#[trigger] found.line_comments[k]).start
            < found.line_comments[k].end <= i && bytes[found.line_comments[k].start as int] == 0x2f
}

/// Whether a pair of delimiters lies in the text before an index, with fitting bytes at its
/// ends.
pub open spec fn delimiter_ok(bytes: Seq<u8>, i: int, pair: DelimiterRange) -> bool {
    &&& pair.range.start < pair.range.end <= i
    &&& bytes[pair.range.start as int] == pair.opening
    &&& is_opening(pair.opening)
    &&& opening_of(bytes[pair.range.end - 1]) == Some(pair.opening)
}

/// Whether a range lies before another, or inside of it.
pub open spec fn apart_or_inside(inner: ByteRange, outer: ByteRange) -> bool {
    inner.end <= outer.start || (outer.start < inner.start && inner.end < outer.end)
}

proof fn lemma_scan_from(bytes: Seq<u8>, i: int, found: Scan)
    requires
        bytes.len() <= usize::MAX,
        0 <= i <= bytes.len(),
        scan_ok(bytes, i, found),
    ensures
        scan_ok(bytes, bytes.len() as int, scan_from(bytes, i, found)),
    decreases bytes.len() - i,
{
    if i >= bytes.len() {
    } else if bytes[i] == 0x22 {
        lemma_string_end(bytes, i + 1);
        lemma_scan_from(bytes, string_end(bytes, i + 1), found);
    } else if pair_at(bytes, i, 0x2f, 0x2f) {
        lemma_line_end(bytes, i + 2);
        let end = line_end(bytes, i + 2);
        lemma_scan_from(
            bytes,
            end,
            Scan {
                line_comments: found.line_comments.push(
                    ByteRange { start: i as usize, end: end as usize },
                ),
                ..found
            },
        );
    } else if pair_at(bytes, i, 0x2f, 0x2a) {
        lemma_comment_end(bytes, i + 2, 1);
        let end = block_end(bytes, i);
        lemma_scan_from(
            bytes,
            end,
            Scan {
                block_comments: found.block_comments.push(
                    ByteRange { start: i as usize, end: end as usize },
                ),
                ..found
            },
        );
    } else if is_opening(bytes[i]) {
        lemma_scan_from(
            bytes,
            i + 1,
            Scan { open: found.open.push((bytes[i], i as usize)), ..found },
        );
    } else if opening_of(bytes[i]) is Some && found.open.len() > 0 && found.open.last().0
        == opening_of(bytes[i])->0 {
        let last = found.open.last();
        assert(found.open[found.open.len() - 1] == last);
        let added = DelimiterRange {
            opening: last.0,
            range: ByteRange { start: last.1, end: (i + 1) as usize },
        };
        let next = Scan {
            open: found.open.drop_last(),
            delimiters: found.delimiters.push(added),
            ..found
        };
        assert forall|k: int| 0 <= k < next.open.len() implies #[trigger] next.open[k]
            == found.open[k] by {}
        assert forall|j: int, k: int| 0 <= j < k < next.delimiters.len() implies apart_or_inside(
            (#[trigger] next.delimiters[j]).range,
            (#[trigger] next.delimiters[k]).range,
        ) by {
            assert(next.delimiters[j] == found.delimiters[j]);
            if k == found.delimiters.len() {
                assert(delimiter_ok(bytes, i, found.delimiters[j]));
                assert(last.1 < found.delimiters[j].range.start || found.delimiters[j].range.end
                    <= last.1);
            }
        }
        lemma_scan_from(bytes, i + 1, next);
    } else {
        lemma_scan_from(bytes, i + 1, found);
    }
}

/// Scanning finds comments and pairs of delimiters inside the text. Of two pairs of delimiters
/// either one lies before the other, or inside of it.
pub proof fn law_scanned(text: Seq<char>)
    requires
        utf8(text).len() <= usize::MAX,
    ensures
        scan_ok(utf8(text), utf8(text).len() as int, scanned(text)),
{
    lemma_scan_from(utf8(text), 0, no_scan());
}

/// Comments and runs of comments of a source text.
fn comment_folds(line_index: &LineIndexExt, lexical: &LexicalStructure) -> (folds: Vec<
    FoldingRange,
>)
    requires
        lexical.block_comments@ == scanned(line_index@).block_comments,
        lexical.line_comments@ == scanned(line_index@).line_comments,
    ensures
        folds@ == comment_folds_of(line_index@),
{
    let ghost text = line_index@;
    let mut folds: Vec<FoldingRange> = Vec::new();
    push_folds(line_index, &lexical.block_comments, Some(FoldingRangeKind::Comment), &mut folds);
    let ghost blocks = folds_of(
        text,
        scanned(text).block_comments,
        Some(FoldingRangeKind::Comment),
    );
    assert(folds@ == blocks);
    let comments = lines_of_comments(line_index, &lexical.line_comments);
    let ordered = sort(comments);
    let ghost all = ordered@;
    let mut runs: Vec<CommentLine> = Vec::new();
    let mut i: usize = 0;
    assert(all.take(0) == Seq::<CommentLine>::empty());
    while i < ordered.len()
        invariant
            i <= ordered@.len(),
            all == ordered@,
            runs@ == comment_runs(all.take(i as int)),
        decreases ordered@.len() - i,
    {
        assert(all.take(i + 1).drop_last() == all.take(i as int));
        let comment = ordered[i];
        let ghost before = runs@;
        let joined = runs.len() > 0 && comment.line > runs[runs.len() - 1].line && comment.line
            - runs[runs.len() - 1].line == 1;
        if joined {
            if let Some(run) = runs.pop() {
                assert(runs@ == before.drop_last());
                runs.push(
                    CommentLine {
                        range: ByteRange { start: run.range.start, end: comment.range.end },
                        line: comment.line,
                    },
                );
            }
        } else {
            runs.push(comment);
        }
        i += 1;
    }
    assert(all.take(i as int) == all);
    let ghost shown = runs@;
    let mut k: usize = 0;
    assert(shown.take(0) == Seq::<CommentLine>::empty());
    assert(blocks + Seq::<FoldingRange>::empty() == blocks);
    while k < runs.len()
        invariant
            k <= runs@.len(),
            shown == runs@,
            text == line_index@,
            folds@ == blocks + run_folds(text, shown.take(k as int)),
        decreases runs@.len() - k,
    {
        assert(shown.take(k + 1).drop_last() == shown.take(k as int));
        let ghost before = run_folds(text, shown.take(k as int));
        let run = runs[k];
        let first_line: u32 = line_index.byte_to_position(run.range.start as u32).line;
        if run.line > first_line {
            if let Some(fold) = folding_range(
                line_index,
                run.range,
                Some(FoldingRangeKind::Comment),
            ) {
                folds.push(fold);
                assert((blocks + before).push(fold) == blocks + before.push(fold));
            }
        }
        k += 1;
    }
    assert(shown.take(k as int) == shown);
    folds
}

fn lines_of_comments(line_index: &LineIndexExt, ranges: &Vec<ByteRange>) -> (comments: Vec<
    CommentLine,
>)
    requires
        ranges@ == scanned(line_index@).line_comments,
    ensures
        comments@ == own_lines(line_index@, ranges@),
{
    let ghost text = line_index@;
    let source = line_index.text();
    let mut comments: Vec<CommentLine> = Vec::new();
    let mut i: usize = 0;
    assert(ranges@.take(0) == Seq::<ByteRange>::empty());
    while i < ranges.len()
        invariant
            i <= ranges@.len(),
            text == line_index@,
            source@ == text,
            utf8(text).len() < u32::MAX,
            ranges@ == scanned(text).line_comments,
            comments@ == own_lines(text, ranges@.take(i as int)),
        decreases ranges@.len() - i,
    {
        assert(ranges@.take(i + 1).drop_last() == ranges@.take(i as int));
        let range = ranges[i];
        proof {
            law_scanned(text);
            assert(scanned(text).line_comments[i as int] == range);
            lemma_line_start(utf8(text), range.start as int);
            lemma_ascii_boundary(text, range.start as int);
            let from = line_start(utf8(text), range.start as int);
            if from > 0 {
                lemma_ascii_boundary(text, from - 1);
            } else {
                vstd::utf8::encode_utf8_valid_utf8(text);
                vstd::utf8::is_char_boundary_start_end_of_seq(utf8(text));
            }
        }
        let from = line_start_offset(source, range.start);
        let (_, gap, _) = cut(source, from as u32, range.start as u32);
        if is_blank(gap) {
            let line: u32 = line_index.byte_to_position(range.start as u32).line;
            comments.push(CommentLine { range, line });
        }
        i += 1;
    }
    assert(ranges@.take(i as int) == ranges@);
    comments
}

/// An import at its place.
#[derive(Clone, Copy)]
pub struct ImportRange {
    pub range: ByteRange,
}

impl Ordered for ImportRange {
    open spec fn before(self, other: ImportRange) -> bool {
        self.range.start < other.range.start
    }

    fn is_before(&self, other: &ImportRange) -> (before: bool) {
        self.range.start < other.range.start
    }

    proof fn lemma_asymmetric(a: ImportRange, b: ImportRange) {
    }

    proof fn lemma_not_behind(a: ImportRange, b: ImportRange, c: ImportRange) {
    }
}

/// Imports without an empty line between them joined to groups.
pub open spec fn import_groups(text: Seq<char>, imports: Seq<ImportRange>) -> Seq<ByteRange>
    decreases imports.len(),
{
    if imports.len() == 0 {
        Seq::empty()
    } else {
        let groups = import_groups(text, imports.drop_last());
        let import = imports.last().range;
        if groups.len() > 0 && place(text, import.start).line <= place(text, groups.last().end).line
            + 1 {
            groups.drop_last().push(ByteRange { start: groups.last().start, end: import.end })
        } else {
            groups.push(import)
        }
    }
}

pub open spec fn import_folds_of(text: Seq<char>, imports: Seq<ImportRange>) -> Seq<FoldingRange> {
    folds_of(text, import_groups(text, sorted(imports)), Some(FoldingRangeKind::Imports))
}

fn import_folds(line_index: &LineIndexExt, imports: Vec<ImportRange>, folds: &mut Vec<FoldingRange>)
    ensures
        final(folds)@ == old(folds)@ + import_folds_of(line_index@, imports@),
{
    let ordered = sort(imports);
    let ghost all = ordered@;
    let ghost text = line_index@;
    let mut groups: Vec<ByteRange> = Vec::new();
    let mut i: usize = 0;
    assert(all.take(0) == Seq::<ImportRange>::empty());
    while i < ordered.len()
        invariant
            i <= ordered@.len(),
            all == ordered@,
            text == line_index@,
            groups@ == import_groups(text, all.take(i as int)),
        decreases ordered@.len() - i,
    {
        assert(all.take(i + 1).drop_last() == all.take(i as int));
        let import = ordered[i].range;
        let ghost before = groups@;
        let joined = if groups.len() > 0 {
            let group_end: u32 = line_index.byte_to_position(
                groups[groups.len() - 1].end as u32,
            ).line;
            let import_start: u32 = line_index.byte_to_position(import.start as u32).line;
            import_start <= group_end || import_start - group_end <= 1
        } else {
            false
        };
        if joined {
            if let Some(group) = groups.pop() {
                assert(groups@ == before.drop_last());
                groups.push(ByteRange { start: group.start, end: import.end });
            }
        } else {
            groups.push(import);
        }
        i += 1;
    }
    assert(all.take(i as int) == all);
    push_folds(line_index, &groups, Some(FoldingRangeKind::Imports), folds);
}

/// The byte range of an item that lies in the text, none for one that does not.
pub open spec fn item_range(item: Item, source_len: nat) -> Option<ByteRange> {
    let span = item_span(item);
    if span.start > span.end || span.end > source_len {
        None
    } else {
        Some(ByteRange { start: span.start as usize, end: span.end as usize })
    }
}

/// The ranges of the items that are no imports.
pub open spec fn item_ranges(items: Seq<Item>, source_len: nat) -> Seq<ByteRange>
    decreases items.len(),
{
    if items.len() == 0 {
        Seq::empty()
    } else {
        let before = item_ranges(items.drop_last(), source_len);
        match item_range(items.last(), source_len) {
            Some(range) => if items.last() is Import {
                before
            } else {
                before.push(range)
            },
            None => before,
        }
    }
}

/// The ranges of the imports.
pub open spec fn import_ranges(items: Seq<Item>, source_len: nat) -> Seq<ImportRange>
    decreases items.len(),
{
    if items.len() == 0 {
        Seq::empty()
    } else {
        let before = import_ranges(items.drop_last(), source_len);
        match item_range(items.last(), source_len) {
            Some(range) => if items.last() is Import {
                before.push(ImportRange { range })
            } else {
                before
            },
            None => before,
        }
    }
}

/// The items of a module, none where there is no module.
pub open spec fn module_items(module: Option<&Module>) -> Seq<Item> {
    match module {
        Some(module) => module.items@,
        None => Seq::empty(),
    }
}

fn hir_item_ranges(module: Option<&Module>, source_len: usize) -> (ranges: (
    Vec<ByteRange>,
    Vec<ImportRange>,
))
    ensures
        ranges.0@ == item_ranges(module_items(module), source_len as nat),
        ranges.1@ == import_ranges(module_items(module), source_len as nat),
{
    let mut items: Vec<ByteRange> = Vec::new();
    let mut imports: Vec<ImportRange> = Vec::new();
    let module = match module {
        Some(module) => module,
        None => return (items, imports),
    };
    let ghost all = module.items@;
    let mut i: usize = 0;
    assert(all.take(0) == Seq::<Item>::empty());
    while i < module.items.len()
        invariant
            i <= all.len(),
            all == module.items@,
            items@ == item_ranges(all.take(i as int), source_len as nat),
            imports@ == import_ranges(all.take(i as int), source_len as nat),
        decreases all.len() - i,
    {
        assert(all.take(i + 1).drop_last() == all.take(i as int));
        let span = module.items[i].span();
        if span.start <= span.end && span.end as usize <= source_len {
            let range = ByteRange { start: span.start as usize, end: span.end as usize };
            match &module.items[i] {
                Item::Import(_) => imports.push(ImportRange { range }),
                _ => items.push(range),
            }
        }
        i += 1;
    }
    assert(all.take(i as int) == all);
    (items, imports)
}

/// Whether a block ends where an item ends that begins on the line of the block.
pub open spec fn is_item_block(text: Seq<char>, block: ByteRange, items: Seq<ByteRange>) -> bool {
    exists|i: int|
        0 <= i < items.len() && (#[trigger] items[i]).end == block.end && place(
            text,
            items[i].start,
        ).line == place(text, block.start).line
}

/// The blocks in curly braces that are not the blocks of items.
pub open spec fn inner_blocks(
    text: Seq<char>,
    delimiters: Seq<DelimiterRange>,
    items: Seq<ByteRange>,
) -> Seq<ByteRange>
    decreases delimiters.len(),
{
    if delimiters.len() == 0 {
        Seq::empty()
    } else {
        let before = inner_blocks(text, delimiters.drop_last(), items);
        let last = delimiters.last();
        if last.opening == 0x7b && !is_item_block(text, last.range, items) {
            before.push(last.range)
        } else {
            before
        }
    }
}

fn closes_item(line_index: &LineIndexExt, block: ByteRange, items: &Vec<ByteRange>) -> (closes: bool)
    ensures
        closes == is_item_block(line_index@, block, items@),
{
    let block_line: u32 = line_index.byte_to_position(block.start as u32).line;
    let mut i: usize = 0;
    while i < items.len()
        invariant
            i <= items@.len(),
            block_line == place(line_index@, block.start).line,
            forall|j: int|
                0 <= j < i ==> !((#[trigger] items@[j]).end == block.end && place(
                    line_index@,
                    items@[j].start,
                ).line == block_line),
        decreases items@.len() - i,
    {
        if items[i].end == block.end && line_index.byte_to_position(items[i].start as u32).line
            == block_line {
            return true;
        }
        i += 1;
    }
    false
}

/// Blocks that are folded for themselves.
fn lexical_blocks(
    line_index: &LineIndexExt,
    delimiters: &Vec<DelimiterRange>,
    items: &Vec<ByteRange>,
) -> (blocks: Vec<ByteRange>)
    ensures
        blocks@ == inner_blocks(line_index@, delimiters@, items@),
{
    let mut blocks: Vec<ByteRange> = Vec::new();
    let mut i: usize = 0;
    assert(delimiters@.take(0) == Seq::<DelimiterRange>::empty());
    while i < delimiters.len()
        invariant
            i <= delimiters@.len(),
            blocks@ == inner_blocks(line_index@, delimiters@.take(i as int), items@),
        decreases delimiters@.len() - i,
    {
        assert(delimiters@.take(i + 1).drop_last() == delimiters@.take(i as int));
        if delimiters[i].opening == 0x7b && !closes_item(line_index, delimiters[i].range, items) {
            blocks.push(delimiters[i].range);
        }
        i += 1;
    }
    assert(delimiters@.take(i as int) == delimiters@);
    blocks
}

/// Whether two folds span the same text.
pub open spec fn same_extent(a: FoldingRange, b: FoldingRange) -> bool {
    a.start_line == b.start_line && a.start_character == b.start_character && a.end_line
        == b.end_line && a.end_character == b.end_character
}

pub open spec fn extent_among(folds: Seq<FoldingRange>, fold: FoldingRange) -> bool {
    exists|i: int| 0 <= i < folds.len() && same_extent(#[trigger] folds[i], fold)
}

/// Folds without those that span the same text as an earlier one.
pub open spec fn distinct_folds(folds: Seq<FoldingRange>) -> Seq<FoldingRange>
    decreases folds.len(),
{
    if folds.len() == 0 {
        folds
    } else {
        let before = distinct_folds(folds.drop_last());
        if extent_among(before, folds.last()) {
            before
        } else {
            before.push(folds.last())
        }
    }
}

fn option_eq(a: Option<u32>, b: Option<u32>) -> (same: bool)
    ensures
        same == (a == b),
{
    match (a, b) {
        (Some(a), Some(b)) => a == b,
        (None, None) => true,
        _ => false,
    }
}

fn retain_distinct(folds: Vec<FoldingRange>) -> (kept: Vec<FoldingRange>)
    ensures
        kept@ == distinct_folds(folds@),
{
    let mut kept: Vec<FoldingRange> = Vec::new();
    let mut i: usize = 0;
    assert(folds@.take(0) == Seq::<FoldingRange>::empty());
    while i < folds.len()
        invariant
            i <= folds@.len(),
            kept@ == distinct_folds(folds@.take(i as int)),
        decreases folds@.len() - i,
    {
        assert(folds@.take(i + 1).drop_last() == folds@.take(i as int));
        let fold = folds[i];
        let mut seen = false;
        let mut k: usize = 0;
        while k < kept.len()
            invariant
                k <= kept@.len(),
                seen == exists|j: int| 0 <= j < k && same_extent(#[trigger] kept@[j], fold),
            decreases kept@.len() - k,
        {
            if kept[k].start_line == fold.start_line && kept[k].end_line == fold.end_line
                && option_eq(kept[k].start_character, fold.start_character) && option_eq(
                kept[k].end_character,
                fold.end_character,
            ) {
                assert(same_extent(kept@[k as int], fold));
                seen = true;
            }
            k += 1;
        }
        if !seen {
            kept.push(fold);
        }
        i += 1;
    }
    assert(folds@.take(i as int) == folds@);
    kept
}

pub open spec fn column(character: Option<u32>) -> u32 {
    match character {
        Some(character) => character,
        None => 0,
    }
}

fn column_of(character: Option<u32>) -> (found: u32)
    ensures
        found == column(character),
{
    match character {
        Some(character) => character,
        None => 0,
    }
}

impl Ordered for FoldingRange {
    /// Folds by their starts, longer ones first.
    open spec fn before(self, other: FoldingRange) -> bool {
        if self.start_line != other.start_line {
            self.start_line < other.start_line
        } else if column(self.start_character) != column(other.start_character) {
            column(self.start_character) < column(other.start_character)
        } else if self.end_line != other.end_line {
            self.end_line > other.end_line
        } else {
            column(self.end_character) > column(other.end_character)
        }
    }

    fn is_before(&self, other: &FoldingRange) -> (before: bool) {
        if self.start_line != other.start_line {
            self.start_line < other.start_line
        } else if column_of(self.start_character) != column_of(other.start_character) {
            column_of(self.start_character) < column_of(other.start_character)
        } else if self.end_line != other.end_line {
            self.end_line > other.end_line
        } else {
            column_of(self.end_character) > column_of(other.end_character)
        }
    }

    proof fn lemma_asymmetric(a: FoldingRange, b: FoldingRange) {
    }

    proof fn lemma_not_behind(a: FoldingRange, b: FoldingRange, c: FoldingRange) {
    }
}

/// All folds of a document before equal ones are dropped: comments, imports, items, then blocks.
pub open spec fn raw_folds(text: Seq<char>, module: Option<&Module>) -> Seq<FoldingRange> {
    let source_len = utf8(text).len();
    let items = item_ranges(module_items(module), source_len);
    comment_folds_of(text) + import_folds_of(text, import_ranges(module_items(module), source_len))
        + folds_of(text, items, None) + folds_of(
        text,
        inner_blocks(text, scanned(text).delimiters, items),
        None,
    )
}

/// The folds of a document.
pub open spec fn document_folds(text: Seq<char>, module: Option<&Module>) -> Seq<FoldingRange> {
    sorted(distinct_folds(raw_folds(text, module)))
}

/// Computes deterministic folding ranges for any known document. The parsed module is missing
/// where the compiler does not know the document.
pub fn handle_folding_range(world: &WorldState, uri: &Url, module: Option<&Module>) -> (folds: Option<
    Vec<FoldingRange>,
>)
    ensures
        match lookup(world@.documents, uri@.text) {
            Some(document) => folds is Some && folds->0@ == document_folds(document.1, module),
            None => folds is None,
        },
{
    let line_index = match world.line_index(uri) {
        Some(line_index) => line_index,
        None => return None,
    };
    let source = line_index.text();
    let source_len: usize = source.as_bytes().len();
    let lexical = scan_source(source);
    let (items, imports) = hir_item_ranges(module, source_len);
    let mut folds = comment_folds(line_index, &lexical);
    import_folds(line_index, imports, &mut folds);
    push_folds(line_index, &items, None, &mut folds);
    let blocks = lexical_blocks(line_index, &lexical.delimiters, &items);
    push_folds(line_index, &blocks, None, &mut folds);
    let kept = retain_distinct(folds);
    Some(sort(kept))
}

/// Every fold spans more than one line. No two folds of a document span the same text, and they
/// stand in the order of their starts, longer ones first.
pub proof fn law_document_folds(text: Seq<char>, module: Option<&Module>)
    ensures
        ({
            let folds = document_folds(text, module);
            &&& forall|i: int|
                0 <= i < folds.len() ==> (#[trigger] folds[i]).start_line < folds[i].end_line
            &&& forall|i: int, j: int|
                0 <= i < j < folds.len() ==> !same_extent(#[trigger] folds[i], #[trigger] folds[j])
            &&& in_order(folds)
        }),
{
    broadcast use vstd::seq_lib::group_to_multiset_ensures;

    let raw = raw_folds(text, module);
    let kept = distinct_folds(raw);
    let folds = sorted(kept);
    lemma_raw_folds(text, module);
    lemma_distinct(raw);
    law_sorted(kept);
    assert forall|i: int| 0 <= i < folds.len() implies (#[trigger] folds[i]).start_line
        < folds[i].end_line by {
        assert(folds.to_multiset().count(folds[i]) > 0);
        assert(kept.contains(folds[i]));
    }
    assert forall|i: int, j: int| 0 <= i < j < folds.len() implies !same_extent(
        #[trigger] folds[i],
        #[trigger] folds[j],
    ) by {
        if same_extent(folds[i], folds[j]) {
            assert(folds.contains(folds[i]) && folds.contains(folds[j]));
            assert(folds.to_multiset().count(folds[i]) > 0);
            assert(folds.to_multiset().count(folds[j]) > 0);
            assert(kept.contains(folds[i]) && kept.contains(folds[j]));
            let a = choose|a: int| 0 <= a < kept.len() && kept[a] == folds[i];
            let b = choose|b: int| 0 <= b < kept.len() && kept[b] == folds[j];
            assert(a == b);
            lemma_twice(folds, i, j);
            lemma_once(kept, a);
        }
    }
}

/// A value that stands at two places of a list is counted twice.
proof fn lemma_twice(s: Seq<FoldingRange>, i: int, j: int)
    requires
        0 <= i < j < s.len(),
        s[i] == s[j],
    ensures
        s.to_multiset().count(s[i]) >= 2,
{
    broadcast use vstd::seq_lib::group_to_multiset_ensures;

    let rest = s.remove(j);
    assert(s == rest.insert(j, s[j]));
    assert(rest[i] == s[i]);
    assert(rest.contains(s[i]));
    assert(rest.to_multiset().count(s[i]) > 0);
    vstd::seq_lib::to_multiset_insert(rest, j, s[j]);
}

/// A value that stands at one place of a list is counted once.
proof fn lemma_once(s: Seq<FoldingRange>, i: int)
    requires
        0 <= i < s.len(),
        forall|a: int, b: int|
            0 <= a < b < s.len() ==> !same_extent(#[trigger] s[a], #[trigger] s[b]),
    ensures
        s.to_multiset().count(s[i]) == 1,
{
    broadcast use vstd::seq_lib::group_to_multiset_ensures;

    let rest = s.remove(i);
    assert(s == rest.insert(i, s[i]));
    vstd::seq_lib::to_multiset_insert(rest, i, s[i]);
    if rest.to_multiset().count(s[i]) > 0 {
        assert(rest.contains(s[i]));
        let k = choose|k: int| 0 <= k < rest.len() && rest[k] == s[i];
        if k < i {
            assert(s[k] == s[i]);
            assert(same_extent(s[k], s[i]));
        } else {
            assert(s[k + 1] == s[i]);
            assert(same_extent(s[i], s[k + 1]));
        }
    }
}

spec fn spans_lines(folds: Seq<FoldingRange>) -> bool {
    forall|i: int| 0 <= i < folds.len() ==> (#[trigger] folds[i]).start_line < folds[i].end_line
}

proof fn lemma_folds_of(text: Seq<char>, ranges: Seq<ByteRange>, kind: Option<FoldingRangeKind>)
    ensures
        spans_lines(folds_of(text, ranges, kind)),
    decreases ranges.len(),
{
    if ranges.len() > 0 {
        lemma_folds_of(text, ranges.drop_last(), kind);
    }
}

proof fn lemma_run_folds(text: Seq<char>, runs: Seq<CommentLine>)
    ensures
        spans_lines(run_folds(text, runs)),
    decreases runs.len(),
{
    if runs.len() > 0 {
        lemma_run_folds(text, runs.drop_last());
    }
}

proof fn lemma_raw_folds(text: Seq<char>, module: Option<&Module>)
    ensures
        spans_lines(raw_folds(text, module)),
{
    let source_len = utf8(text).len();
    let items = item_ranges(module_items(module), source_len);
    lemma_folds_of(text, scanned(text).block_comments, Some(FoldingRangeKind::Comment));
    lemma_run_folds(text, comment_runs(sorted(own_lines(text, scanned(text).line_comments))));
    lemma_folds_of(
        text,
        import_groups(text, sorted(import_ranges(module_items(module), source_len))),
        Some(FoldingRangeKind::Imports),
    );
    lemma_folds_of(text, items, None);
    lemma_folds_of(text, inner_blocks(text, scanned(text).delimiters, items), None);
}

proof fn lemma_distinct(folds: Seq<FoldingRange>)
    requires
        spans_lines(folds),
    ensures
        spans_lines(distinct_folds(folds)),
        forall|a: int, b: int|
            0 <= a < b < distinct_folds(folds).len() ==> !same_extent(
                #[trigger] distinct_folds(folds)[a],
                #[trigger] distinct_folds(folds)[b],
            ),
    decreases folds.len(),
{
    if folds.len() > 0 {
        let init = folds.drop_last();
        assert forall|i: int| 0 <= i < init.len() implies (#[trigger] init[i]).start_line
            < init[i].end_line by {
            assert(folds[i] == init[i]);
        }
        lemma_distinct(init);
        assert(folds[folds.len() - 1] == folds.last());
    }
}

} // verus!
