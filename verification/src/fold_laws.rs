//! What holds of the parts of a document that can be folded.
use vstd::prelude::*;

use crate::folding::{
    begins_line, comment_folds_of, comment_runs, distinct_folds, document_folds, extent_among, fold_of, folds_of,
    import_folds_of, import_groups, import_ranges, inner_blocks, is_item_block, item_ranges,
    module_items, own_lines, place, raw_folds, run_folds, same_extent, CommentLine, ImportRange,
};
use crate::hir::{item_span, Item, Module};
use crate::order::{law_sorted, sorted};
use crate::protocol::{FoldingRange, FoldingRangeKind};
use crate::scan::{scanned, ByteRange, DelimiterRange};
use crate::seqs::law_joined;
use crate::text::utf8;

verus! {

/// Whether a document can be folded from one offset of its text to another.
pub open spec fn folds_over(text: Seq<char>, module: Option<&Module>, start: usize, end: usize) -> bool {
    exists|i: int|
        0 <= i < document_folds(text, module).len() && is_fold_over(
            text,
            #[trigger] document_folds(text, module)[i],
            start,
            end,
        )
}

pub open spec fn is_fold_over(text: Seq<char>, fold: FoldingRange, start: usize, end: usize) -> bool {
    fold.start_line == place(text, start).line && fold.start_character == Some(
        place(text, start).character,
    ) && fold.end_line == place(text, end).line && fold.end_character == Some(
        place(text, end).character,
    )
}

/// Whether two offsets are on different lines, the first on the earlier one.
pub open spec fn spans_lines_of(text: Seq<char>, start: usize, end: usize) -> bool {
    place(text, start).line < place(text, end).line
}

proof fn lemma_distinct_folds(folds: Seq<FoldingRange>)
    ensures
        forall|i: int|
            0 <= i < folds.len() ==> extent_among(distinct_folds(folds), #[trigger] folds[i]),
        forall|fold: FoldingRange| #[trigger]
            distinct_folds(folds).contains(fold) ==> folds.contains(fold),
    decreases folds.len(),
{
    if folds.len() > 0 {
        let front = folds.drop_last();
        let before = distinct_folds(front);
        let all = distinct_folds(folds);
        lemma_distinct_folds(front);
        assert forall|i: int| 0 <= i < folds.len() implies extent_among(all, #[trigger] folds[i]) by {
            if i < front.len() {
                assert(extent_among(before, front[i]));
                let k = choose|k: int|
                    0 <= k < before.len() && same_extent(#[trigger] before[k], front[i]);
                assert(all[k] == before[k]);
            } else if extent_among(before, folds.last()) {
            } else {
                assert(same_extent(all[all.len() - 1], folds[i]));
            }
        }
        assert forall|fold: FoldingRange| #[trigger] all.contains(fold) implies folds.contains(
            fold,
        ) by {
            let k = choose|k: int| 0 <= k < all.len() && all[k] == fold;
            if k < before.len() {
                assert(before[k] == fold);
                assert(before.contains(fold));
                let n = choose|n: int| 0 <= n < front.len() && front[n] == fold;
                assert(folds[n] == fold);
            } else {
                assert(folds[folds.len() - 1] == fold);
            }
        }
    }
}

proof fn lemma_folds_of(text: Seq<char>, ranges: Seq<ByteRange>, kind: Option<FoldingRangeKind>, k: int)
    requires
        0 <= k < ranges.len(),
        spans_lines_of(text, ranges[k].start, ranges[k].end),
    ensures
        fold_of(text, ranges[k], kind) is Some,
        folds_of(text, ranges, kind).contains(fold_of(text, ranges[k], kind)->0),
    decreases ranges.len(),
{
    let front = ranges.drop_last();
    let all = folds_of(text, ranges, kind);
    if k == front.len() {
        assert(all[all.len() - 1] == fold_of(text, ranges[k], kind)->0);
    } else {
        assert(front[k] == ranges[k]);
        lemma_folds_of(text, front, kind, k);
        let before = folds_of(text, front, kind);
        let n = choose|n: int|
            0 <= n < before.len() && before[n] == fold_of(text, ranges[k], kind)->0;
        assert(all[n] == before[n]);
    }
}

proof fn lemma_shown(text: Seq<char>, module: Option<&Module>, fold: FoldingRange, start: usize, end: usize)
    requires
        raw_folds(text, module).contains(fold),
        is_fold_over(text, fold, start, end),
    ensures
        folds_over(text, module, start, end),
{
    broadcast use vstd::seq_lib::group_to_multiset_ensures;

    let raw = raw_folds(text, module);
    let distinct = distinct_folds(raw);
    let all = document_folds(text, module);
    lemma_distinct_folds(raw);
    law_sorted(distinct);
    let k = choose|k: int| 0 <= k < raw.len() && raw[k] == fold;
    assert(extent_among(distinct, raw[k]));
    let n = choose|n: int| 0 <= n < distinct.len() && same_extent(#[trigger] distinct[n], fold);
    assert(distinct.contains(distinct[n]));
    assert(all.to_multiset().count(distinct[n]) > 0);
    let i = choose|i: int| 0 <= i < all.len() && all[i] == distinct[n];
    assert(is_fold_over(text, all[i], start, end));
}

proof fn lemma_parts(text: Seq<char>, module: Option<&Module>, fold: FoldingRange)
    ensures
        ({
            let len = utf8(text).len();
            let items = item_ranges(module_items(module), len);
            comment_folds_of(text).contains(fold) || import_folds_of(
                text,
                import_ranges(module_items(module), len),
            ).contains(fold) || folds_of(text, items, None).contains(fold) || folds_of(
                text,
                inner_blocks(text, scanned(text).delimiters, items),
                None,
            ).contains(fold) <==> raw_folds(text, module).contains(fold)
        }),
{
    let len = utf8(text).len();
    let items = item_ranges(module_items(module), len);
    let a = comment_folds_of(text);
    let b = import_folds_of(text, import_ranges(module_items(module), len));
    let c = folds_of(text, items, None);
    let d = folds_of(text, inner_blocks(text, scanned(text).delimiters, items), None);
    law_joined(a, b);
    law_joined(a + b, c);
    law_joined(a + b + c, d);
    assert(raw_folds(text, module) == a + b + c + d);
    assert((a + b).contains(fold) <==> a.contains(fold) || b.contains(fold));
    assert((a + b + c).contains(fold) <==> (a + b).contains(fold) || c.contains(fold));
}

/// A comment between its delimiters that goes over several lines can be folded.
pub proof fn law_block_comment_folds(text: Seq<char>, module: Option<&Module>, k: int)
    requires
        0 <= k < scanned(text).block_comments.len(),
        spans_lines_of(
            text,
            scanned(text).block_comments[k].start,
            scanned(text).block_comments[k].end,
        ),
    ensures
        folds_over(
            text,
            module,
            scanned(text).block_comments[k].start,
            scanned(text).block_comments[k].end,
        ),
{
    let range = scanned(text).block_comments[k];
    let kind = Some(FoldingRangeKind::Comment);
    let fold = fold_of(text, range, kind)->0;
    lemma_folds_of(text, scanned(text).block_comments, kind, k);
    let first = folds_of(text, scanned(text).block_comments, kind);
    let all = comment_folds_of(text);
    let n = choose|n: int| 0 <= n < first.len() && first[n] == fold;
    assert(all[n] == fold);
    lemma_parts(text, module, fold);
    lemma_shown(text, module, fold, range.start, range.end);
}

proof fn lemma_item_ranges(items: Seq<Item>, len: nat, i: int) -> (k: int)
    requires
        0 <= i < items.len(),
        !(items[i] is Import),
        item_span(items[i]).start <= item_span(items[i]).end <= len,
    ensures
        0 <= k < item_ranges(items, len).len(),
        item_ranges(items, len)[k].start == item_span(items[i]).start,
        item_ranges(items, len)[k].end == item_span(items[i]).end,
    decreases items.len(),
{
    let front = items.drop_last();
    if i == front.len() {
        item_ranges(items, len).len() - 1
    } else {
        assert(front[i] == items[i]);
        lemma_item_ranges(front, len, i)
    }
}

/// An item that goes over several lines can be folded.
pub proof fn law_item_folds(text: Seq<char>, module: Module, i: int)
    requires
        0 <= i < module.items@.len(),
        !(module.items@[i] is Import),
        item_span(module.items@[i]).start <= item_span(module.items@[i]).end <= utf8(text).len(),
        spans_lines_of(
            text,
            item_span(module.items@[i]).start as usize,
            item_span(module.items@[i]).end as usize,
        ),
    ensures
        folds_over(
            text,
            Some(&module),
            item_span(module.items@[i]).start as usize,
            item_span(module.items@[i]).end as usize,
        ),
{
    let len = utf8(text).len();
    let ranges = item_ranges(module.items@, len);
    let k = lemma_item_ranges(module.items@, len, i);
    lemma_folds_of(text, ranges, None, k);
    let fold = fold_of(text, ranges[k], None)->0;
    lemma_parts(text, Some(&module), fold);
    lemma_shown(text, Some(&module), fold, ranges[k].start, ranges[k].end);
}

proof fn lemma_inner_blocks(
    text: Seq<char>,
    delimiters: Seq<DelimiterRange>,
    items: Seq<ByteRange>,
    i: int,
) -> (k: int)
    requires
        0 <= i < delimiters.len(),
        delimiters[i].opening == 0x7b,
        !is_item_block(text, delimiters[i].range, items),
    ensures
        0 <= k < inner_blocks(text, delimiters, items).len(),
        inner_blocks(text, delimiters, items)[k] == delimiters[i].range,
    decreases delimiters.len(),
{
    let front = delimiters.drop_last();
    if i == front.len() {
        inner_blocks(text, delimiters, items).len() - 1
    } else {
        assert(front[i] == delimiters[i]);
        lemma_inner_blocks(text, front, items, i)
    }
}

/// A block in curly braces that goes over several lines can be folded, unless it ends an item that
/// begins on its line, which is folded instead.
pub proof fn law_block_folds(text: Seq<char>, module: Option<&Module>, i: int)
    requires
        0 <= i < scanned(text).delimiters.len(),
        scanned(text).delimiters[i].opening == 0x7b,
        spans_lines_of(
            text,
            scanned(text).delimiters[i].range.start,
            scanned(text).delimiters[i].range.end,
        ),
    ensures
        folds_over(
            text,
            module,
            scanned(text).delimiters[i].range.start,
            scanned(text).delimiters[i].range.end,
        ) || is_item_block(
            text,
            scanned(text).delimiters[i].range,
            item_ranges(module_items(module), utf8(text).len()),
        ),
{
    let range = scanned(text).delimiters[i].range;
    let items = item_ranges(module_items(module), utf8(text).len());
    if !is_item_block(text, range, items) {
        let blocks = inner_blocks(text, scanned(text).delimiters, items);
        let k = lemma_inner_blocks(text, scanned(text).delimiters, items, i);
        lemma_folds_of(text, blocks, None, k);
        let fold = fold_of(text, blocks[k], None)->0;
        lemma_parts(text, module, fold);
        lemma_shown(text, module, fold, range.start, range.end);
    }
}

/// Imports on neighbouring lines are folded together: one that starts no more than a line behind
/// the end of the group before it joins that group, and only then.
pub proof fn law_import_groups(text: Seq<char>, imports: Seq<ImportRange>)
    requires
        imports.len() > 0,
    ensures
        import_groups(text, imports).len() > 0,
        import_groups(text, imports).last().end == imports.last().range.end,
        imports.len() > 1 ==> ({
            let before = import_groups(text, imports.drop_last());
            let joins = place(text, imports.last().range.start).line <= place(
                text,
                before.last().end,
            ).line + 1;
            &&& joins ==> import_groups(text, imports).len() == before.len() && import_groups(
                text,
                imports,
            ).last().start == before.last().start
            &&& !joins ==> import_groups(text, imports).len() == before.len() + 1 && import_groups(
                text,
                imports,
            ).last().start == imports.last().range.start
        }),
    decreases imports.len(),
{
    if imports.len() > 1 {
        law_import_groups(text, imports.drop_last());
    } else {
        assert(imports.drop_last().len() == 0);
        assert(import_groups(text, imports.drop_last()).len() == 0);
    }
}

/// A group of imports that goes over several lines can be folded.
pub proof fn law_import_folds(text: Seq<char>, module: Option<&Module>, k: int)
    requires
        ({
            let imports = sorted(import_ranges(module_items(module), utf8(text).len()));
            let groups = import_groups(text, imports);
            0 <= k < groups.len() && spans_lines_of(text, groups[k].start, groups[k].end)
        }),
    ensures
        ({
            let imports = sorted(import_ranges(module_items(module), utf8(text).len()));
            let groups = import_groups(text, imports);
            folds_over(text, module, groups[k].start, groups[k].end)
        }),
{
    let imports = sorted(import_ranges(module_items(module), utf8(text).len()));
    let groups = import_groups(text, imports);
    let kind = Some(FoldingRangeKind::Imports);
    lemma_folds_of(text, groups, kind, k);
    let fold = fold_of(text, groups[k], kind)->0;
    lemma_parts(text, module, fold);
    lemma_shown(text, module, fold, groups[k].start, groups[k].end);
}

/// The comments that can be folded together are the line comments with nothing but blanks before
/// them on their lines.
pub proof fn law_own_lines(text: Seq<char>, comments: Seq<ByteRange>, comment: CommentLine)
    ensures
        own_lines(text, comments).contains(comment) <==> comments.contains(comment.range)
            && begins_line(text, comment.range.start as int) && comment.line == place(
            text,
            comment.range.start,
        ).line,
    decreases comments.len(),
{
    if comments.len() > 0 {
        let front = comments.drop_last();
        let last = comments.last();
        law_own_lines(text, front, comment);
        law_joined(front, seq![last]);
        assert(comments == front + seq![last]);
        assert(seq![last][0] == last);
        let own = CommentLine { range: last, line: place(text, last.start).line };
        law_joined(own_lines(text, front), seq![own]);
        assert(seq![own][0] == own);
        if begins_line(text, last.start as int) {
            assert(own_lines(text, comments) == own_lines(text, front) + seq![own]);
        }
    }
}

proof fn lemma_last_run(comments: Seq<CommentLine>, start: int)
    requires
        0 <= start < comments.len(),
        start > 0 ==> comments[start].line != comments[start - 1].line + 1,
        forall|t: int|
            start < t < comments.len() ==> (#[trigger] comments[t]).line == comments[t - 1].line + 1,
    ensures
        comment_runs(comments).len() > 0,
        comment_runs(comments).last() == (CommentLine {
            range: ByteRange { start: comments[start].range.start, end: comments.last().range.end },
            line: comments.last().line,
        }),
    decreases comments.len(),
{
    let front = comments.drop_last();
    assert forall|t: int| 0 <= t < front.len() implies #[trigger] front[t] == comments[t] by {}
    if start < front.len() {
        lemma_last_run(front, start);
        assert(comments[comments.len() - 1].line == comments[comments.len() - 2].line + 1);
    } else if front.len() > 0 {
        lemma_last_line(front);
        assert(front.last() == comments[start - 1]);
    } else {
        assert(comment_runs(front).len() == 0);
    }
    assert(comments.last() == comments[comments.len() - 1]);
}

proof fn lemma_last_line(comments: Seq<CommentLine>)
    requires
        comments.len() > 0,
    ensures
        comment_runs(comments).len() > 0,
        comment_runs(comments).last().line == comments.last().line,
{
}

proof fn lemma_run_kept(comments: Seq<CommentLine>, end: int)
    requires
        0 < end < comments.len(),
        comments[end].line != comments[end - 1].line + 1,
    ensures
        comment_runs(comments.take(end)).len() > 0,
        comment_runs(comments).len() > comment_runs(comments.take(end)).len(),
        comment_runs(comments)[comment_runs(comments.take(end)).len() - 1] == comment_runs(
            comments.take(end),
        ).last(),
    decreases comments.len(),
{
    let front = comments.drop_last();
    lemma_last_line(comments.take(end));
    if end < front.len() {
        assert(front.take(end) == comments.take(end));
        lemma_run_kept(front, end);
    } else {
        assert(front == comments.take(end));
    }
}

proof fn lemma_run_listed(comments: Seq<CommentLine>, start: int, end: int)
    requires
        0 <= start < end <= comments.len(),
        start > 0 ==> comments[start].line != comments[start - 1].line + 1,
        end < comments.len() ==> comments[end].line != comments[end - 1].line + 1,
        forall|t: int|
            start < t < end ==> (#[trigger] comments[t]).line == comments[t - 1].line + 1,
    ensures
        comment_runs(comments).contains(
            (CommentLine {
                range: ByteRange {
                    start: comments[start].range.start,
                    end: comments[end - 1].range.end,
                },
                line: comments[end - 1].line,
            }),
        ),
{
    let part = comments.take(end);
    let runs = comment_runs(comments);
    assert forall|t: int| 0 <= t < part.len() implies #[trigger] part[t] == comments[t] by {}
    assert forall|t: int| start < t < part.len() implies (#[trigger] part[t]).line == part[t - 1].line
        + 1 by {
        assert(comments[t].line == comments[t - 1].line + 1);
    }
    lemma_last_run(part, start);
    if end < comments.len() {
        lemma_run_kept(comments, end);
    } else {
        assert(part == comments);
    }
    assert(part.last() == comments[end - 1]);
    assert(runs[comment_runs(part).len() - 1] == comment_runs(part).last());
}

/// Line comments that follow each other line by line, alone on their lines, can be folded together,
/// from the first of them up to the last. A comment on a line before or behind them with a gap is
/// not taken in.
pub proof fn law_line_comments_fold(
    text: Seq<char>,
    module: Option<&Module>,
    start: int,
    end: int,
)
    requires
        ({
            let comments = sorted(own_lines(text, scanned(text).line_comments));
            &&& 0 <= start < end - 1 < comments.len()
            &&& start > 0 ==> comments[start].line != comments[start - 1].line + 1
            &&& end < comments.len() ==> comments[end].line != comments[end - 1].line + 1
            &&& forall|t: int|
                start < t < end ==> (#[trigger] comments[t]).line == comments[t - 1].line + 1
            &&& spans_lines_of(text, comments[start].range.start, comments[end - 1].range.end)
        }),
    ensures
        ({
            let comments = sorted(own_lines(text, scanned(text).line_comments));
            folds_over(text, module, comments[start].range.start, comments[end - 1].range.end)
        }),
{
    let own = own_lines(text, scanned(text).line_comments);
    let comments = sorted(own);
    let runs = comment_runs(comments);
    let run = CommentLine {
        range: ByteRange {
            start: comments[start].range.start,
            end: comments[end - 1].range.end,
        },
        line: comments[end - 1].line,
    };
    lemma_run_listed(comments, start, end);
    assert(own.contains(comments[start])) by {
        broadcast use vstd::seq_lib::group_to_multiset_ensures;

        law_sorted(own);
        assert(comments.to_multiset().count(comments[start]) > 0);
    }
    law_own_lines(text, scanned(text).line_comments, comments[start]);
    lemma_lines_grow(comments, start, end - 1);
    let k = choose|k: int| 0 <= k < runs.len() && runs[k] == run;
    lemma_run_folds(text, runs, k);
    let fold = fold_of(text, run.range, Some(FoldingRangeKind::Comment))->0;
    law_joined(
        folds_of(text, scanned(text).block_comments, Some(FoldingRangeKind::Comment)),
        run_folds(text, runs),
    );
    lemma_parts(text, module, fold);
    lemma_shown(text, module, fold, run.range.start, run.range.end);
}

proof fn lemma_lines_grow(comments: Seq<CommentLine>, start: int, end: int)
    requires
        0 <= start < end < comments.len(),
        forall|t: int|
            start < t <= end ==> (#[trigger] comments[t]).line == comments[t - 1].line + 1,
    ensures
        comments[start].line < comments[end].line,
    decreases end - start,
{
    assert(comments[end].line == comments[end - 1].line + 1);
    if start < end - 1 {
        lemma_lines_grow(comments, start, end - 1);
    }
}

proof fn lemma_run_folds(text: Seq<char>, runs: Seq<CommentLine>, k: int)
    requires
        0 <= k < runs.len(),
        runs[k].line > place(text, runs[k].range.start).line,
        fold_of(text, runs[k].range, Some(FoldingRangeKind::Comment)) is Some,
    ensures
        run_folds(text, runs).contains(
            fold_of(text, runs[k].range, Some(FoldingRangeKind::Comment))->0,
        ),
    decreases runs.len(),
{
    let front = runs.drop_last();
    let fold = fold_of(text, runs[k].range, Some(FoldingRangeKind::Comment))->0;
    let all = run_folds(text, runs);
    let before = run_folds(text, front);
    if k == front.len() {
        assert(all[all.len() - 1] == fold);
    } else {
        assert(front[k] == runs[k]);
        lemma_run_folds(text, front, k);
        let n = choose|n: int| 0 <= n < before.len() && before[n] == fold;
        assert(all[n] == fold);
    }
}

} // verus!
