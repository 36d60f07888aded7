//! Documentation in comments.
use vstd::prelude::*;

use crate::display::{join_texts, joined_by};
use crate::formatting::{lemma_newline_from, line_parts, newline_from};
use crate::seqs::views;
use crate::text::{blank, from_chars, is_blank, to_chars, white_space};
use crate::url::text_of;

verus! {

/// A text without the white space at its start.
pub open spec fn front_trimmed(text: Seq<char>) -> Seq<char>
    decreases text.len(),
{
    if text.len() > 0 && white_space(text[0]) {
        front_trimmed(text.drop_first())
    } else {
        text
    }
}

/// A text without the white space at its end.
pub open spec fn end_trimmed(text: Seq<char>) -> Seq<char>
    decreases text.len(),
{
    if text.len() > 0 && white_space(text.last()) {
        end_trimmed(text.drop_last())
    } else {
        text
    }
}

/// A text without the stars at its start.
pub open spec fn without_stars(text: Seq<char>) -> Seq<char>
    decreases text.len(),
{
    if text.len() > 0 && text[0] == '*' {
        without_stars(text.drop_first())
    } else {
        text
    }
}

/// A line of a comment without what sets it off.
pub open spec fn comment_line(line: Seq<char>) -> Seq<char> {
    front_trimmed(without_stars(end_trimmed(front_trimmed(line))))
}

fn clean_line(chars: &[char], start: usize, end: usize) -> (line: String)
    requires
        start <= end <= chars@.len(),
    ensures
        line@ == comment_line(chars@.subrange(start as int, end as int)),
{
    let ghost whole = chars@.subrange(start as int, end as int);
    let mut from: usize = start;
    while from < end && chars[from].is_whitespace()
        invariant
            start <= from <= end <= chars@.len(),
            front_trimmed(chars@.subrange(from as int, end as int)) == front_trimmed(whole),
        decreases end - from,
    {
        assert(chars@.subrange(from as int, end as int).drop_first() == chars@.subrange(
            from + 1,
            end as int,
        ));
        from += 1;
    }
    let ghost front = chars@.subrange(from as int, end as int);
    assert(front == front_trimmed(whole));
    let mut to: usize = end;
    while to > from && chars[to - 1].is_whitespace()
        invariant
            start <= from <= to <= end <= chars@.len(),
            end_trimmed(chars@.subrange(from as int, to as int)) == end_trimmed(front),
        decreases to - from,
    {
        assert(chars@.subrange(from as int, to as int).drop_last() == chars@.subrange(
            from as int,
            to - 1,
        ));
        to -= 1;
    }
    let ghost trimmed = chars@.subrange(from as int, to as int);
    assert(trimmed == end_trimmed(front));
    let mut bare: usize = from;
    while bare < to && chars[bare] == '*'
        invariant
            start <= from <= bare <= to <= end <= chars@.len(),
            without_stars(chars@.subrange(bare as int, to as int)) == without_stars(trimmed),
        decreases to - bare,
    {
        assert(chars@.subrange(bare as int, to as int).drop_first() == chars@.subrange(
            bare + 1,
            to as int,
        ));
        bare += 1;
    }
    let ghost starless = chars@.subrange(bare as int, to as int);
    assert(starless == without_stars(trimmed));
    let mut first: usize = bare;
    while first < to && chars[first].is_whitespace()
        invariant
            start <= bare <= first <= to <= end <= chars@.len(),
            front_trimmed(chars@.subrange(first as int, to as int)) == front_trimmed(starless),
        decreases to - first,
    {
        assert(chars@.subrange(first as int, to as int).drop_first() == chars@.subrange(
            first + 1,
            to as int,
        ));
        first += 1;
    }
    from_chars(chars, first, to)
}

/// The lines of a comment from an index on.
pub open spec fn comment_lines(text: Seq<char>, start: int) -> Seq<Seq<char>>
    decreases text.len() - start,
{
    if start < 0 || start >= text.len() {
        Seq::empty()
    } else {
        proof {
            lemma_newline_from(text, start);
        }
        let line = line_parts(text, start);
        seq![comment_line(line.segment)] + comment_lines(text, line.next)
    }
}

/// The text of a comment.
pub open spec fn comment_text(text: Seq<char>) -> Seq<char> {
    joined_by(comment_lines(text, 0), "\n"@)
}

fn clean_comment(comment: &str) -> (text: String)
    ensures
        text@ == comment_text(comment@),
{
    let chars = to_chars(comment);
    let count: usize = chars.len();
    let ghost all = comment@;
    let mut lines: Vec<String> = Vec::new();
    let mut start: usize = 0;
    assert(views(lines@) + comment_lines(all, 0) == comment_lines(all, 0));
    while start < chars.len()
        invariant
            start <= chars@.len(),
            chars@ == all,
            count == all.len(),
            views(lines@) + comment_lines(all, start as int) == comment_lines(all, 0),
        decreases chars@.len() - start,
    {
        let ghost before = views(lines@);
        let ghost parts = line_parts(all, start as int);
        let mut end: usize = start;
        while end < chars.len() && chars[end] != '\n'
            invariant
                start <= end <= chars@.len(),
                chars@ == all,
                newline_from(all, end as int) == newline_from(all, start as int),
            decreases chars@.len() - end,
        {
            end += 1;
        }
        let last: usize = if end < chars.len() && end > start && chars[end - 1] == '\r' {
            end - 1
        } else {
            end
        };
        assert(parts.segment == all.subrange(start as int, last as int));
        lines.push(clean_line(chars.as_slice(), start, last));
        assert(views(lines@) == before.push(comment_line(parts.segment)));
        start = if end < chars.len() {
            end + 1
        } else {
            end
        };
        assert(start == parts.next);
        assert(views(lines@) + comment_lines(all, start as int) == before + (seq![
            comment_line(parts.segment),
        ] + comment_lines(all, parts.next)));
    }
    assert(views(lines@) + comment_lines(all, start as int) == views(lines@));
    join_texts(&lines, "\n")
}

/// The texts of some comments.
pub open spec fn comment_texts(comments: Seq<String>) -> Seq<Seq<char>> {
    Seq::new(comments.len(), |i: int| comment_text(comments[i]@))
}

/// The documentation in some comments, none where they say nothing.
pub open spec fn documentation(comments: Seq<String>) -> Option<Seq<char>> {
    let text = joined_by(comment_texts(comments), "\n"@);
    if blank(text) {
        None
    } else {
        Some(text)
    }
}

/// Returns the documentation in some comments.
pub fn comments_markdown(comments: &Vec<String>) -> (text: Option<String>)
    ensures
        text_of(text) == documentation(comments@),
{
    let mut texts: Vec<String> = Vec::new();
    let mut i: usize = 0;
    while i < comments.len()
        invariant
            i <= comments@.len(),
            texts@.len() == i,
            forall|k: int|
                0 <= k < i ==> (#[trigger] texts@[k])@ == comment_text(comments@[k]@),
        decreases comments@.len() - i,
    {
        texts.push(clean_comment(comments[i].as_str()));
        i += 1;
    }
    assert(views(texts@) == comment_texts(comments@));
    let text = join_texts(&texts, "\n");
    if is_blank(text.as_str()) {
        None
    } else {
        Some(text)
    }
}

proof fn lemma_front_trimmed(text: Seq<char>)
    ensures
        ({
            let n = text.len() - front_trimmed(text).len();
            &&& 0 <= n <= text.len()
            &&& front_trimmed(text) == text.skip(n)
            &&& forall|i: int| 0 <= i < n ==> white_space(#[trigger] text[i])
            &&& n < text.len() ==> !white_space(text[n])
        }),
    decreases text.len(),
{
    if text.len() > 0 && white_space(text[0]) {
        let rest = text.drop_first();
        lemma_front_trimmed(rest);
        let n = rest.len() - front_trimmed(rest).len();
        assert(rest.skip(n) == text.skip(n + 1));
        assert forall|i: int| 0 <= i < n + 1 implies white_space(#[trigger] text[i]) by {
            if i > 0 {
                assert(rest[i - 1] == text[i]);
            }
        }
    } else {
        assert(text.skip(0) == text);
    }
}

proof fn lemma_end_trimmed(text: Seq<char>)
    ensures
        ({
            let n = end_trimmed(text).len();
            &&& n <= text.len()
            &&& end_trimmed(text) == text.take(n as int)
            &&& forall|i: int| n <= i < text.len() ==> white_space(#[trigger] text[i])
            &&& n > 0 ==> !white_space(text[n - 1])
        }),
    decreases text.len(),
{
    if text.len() > 0 && white_space(text.last()) {
        let rest = text.drop_last();
        lemma_end_trimmed(rest);
        let n = end_trimmed(rest).len();
        assert(rest.take(n as int) == text.take(n as int));
        assert forall|i: int| n <= i < text.len() implies white_space(#[trigger] text[i]) by {
            if i < rest.len() {
                assert(rest[i] == text[i]);
            }
        }
    } else {
        assert(text.take(text.len() as int) == text);
    }
}

proof fn lemma_without_stars(text: Seq<char>)
    ensures
        ({
            let n = text.len() - without_stars(text).len();
            &&& 0 <= n <= text.len()
            &&& without_stars(text) == text.skip(n)
            &&& forall|i: int| 0 <= i < n ==> #[trigger] text[i] == '*'
            &&& n < text.len() ==> text[n] != '*'
        }),
    decreases text.len(),
{
    if text.len() > 0 && text[0] == '*' {
        let rest = text.drop_first();
        lemma_without_stars(rest);
        let n = rest.len() - without_stars(rest).len();
        assert(rest.skip(n) == text.skip(n + 1));
        assert forall|i: int| 0 <= i < n + 1 implies #[trigger] text[i] == '*' by {
            if i > 0 {
                assert(rest[i - 1] == text[i]);
            }
        }
    } else {
        assert(text.skip(0) == text);
    }
}

/// What is shown of a line of a comment is a part of the line. Before it there is nothing but
/// white space and stars, behind it nothing but white space, and it neither starts nor ends with
/// white space.
pub proof fn law_comment_line(line: Seq<char>) -> (at: (int, int))
    ensures
        0 <= at.0 <= at.1 <= line.len(),
        comment_line(line) == line.subrange(at.0, at.1),
        forall|i: int| 0 <= i < at.0 ==> (white_space(#[trigger] line[i]) || line[i] == '*'),
        forall|i: int| at.1 <= i < line.len() ==> white_space(#[trigger] line[i]),
        at.0 < at.1 ==> !white_space(line[at.0]) && !white_space(line[at.1 - 1]),
{
    let a = front_trimmed(line);
    let b = end_trimmed(a);
    let c = without_stars(b);
    let d = front_trimmed(c);
    lemma_front_trimmed(line);
    lemma_end_trimmed(a);
    lemma_without_stars(b);
    lemma_front_trimmed(c);
    let first = line.len() - a.len();
    let stars = b.len() - c.len();
    let blanks = c.len() - d.len();
    let start = first + stars + blanks;
    let end = first + b.len();
    assert(d == line.subrange(start, end)) by {
        assert forall|i: int| 0 <= i < d.len() implies d[i] == #[trigger] line.subrange(start, end)[i] by {
            assert(d[i] == c[blanks + i]);
            assert(c[blanks + i] == b[stars + blanks + i]);
            assert(b[stars + blanks + i] == a[stars + blanks + i]);
            assert(a[stars + blanks + i] == line[start + i]);
        }
    }
    assert forall|i: int| 0 <= i < start implies (white_space(#[trigger] line[i]) || line[i] == '*') by {
        if i >= first {
            assert(a[i - first] == line[i]);
            assert(b[i - first] == a[i - first]);
            if i >= first + stars {
                assert(c[i - first - stars] == b[i - first]);
                assert(white_space(c[i - first - stars]));
            } else {
                assert(b[i - first] == '*');
            }
        }
    }
    assert forall|i: int| end <= i < line.len() implies white_space(#[trigger] line[i]) by {
        assert(a[i - first] == line[i]);
    }
    if start < end {
        assert(c[blanks] == line[start]);
        assert(a[b.len() - 1] == line[end - 1]);
    }
    (start, end)
}

} // verus!
