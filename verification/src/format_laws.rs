//! What holds of the indentation of formatted text.
use vstd::prelude::*;

use crate::formatting::{
    ascii_blank, format_from, indent_unit, layout_from, lemma_newline_from, line_content,
    line_layout, line_parts, minus, no_layout, repeated, LineLayout, Mode,
};
use crate::protocol::FormattingOptions;

verus! {

/// How often a character occurs in a text.
pub open spec fn occurrences(text: Seq<char>, c: char) -> nat
    decreases text.len(),
{
    if text.len() == 0 {
        0
    } else {
        occurrences(text.drop_last(), c) + if text.last() == c {
            1nat
        } else {
            0nat
        }
    }
}

/// Whether a text holds neither a quote nor a slash, so that all of it is code.
pub open spec fn is_plain(text: Seq<char>) -> bool {
    forall|i: int| 0 <= i < text.len() ==> #[trigger] text[i] != '"' && text[i] != '/'
}

proof fn lemma_layout_from(line: Seq<char>, i: int, code: bool, layout: LineLayout)
    requires
        is_plain(line),
        0 <= i <= line.len() <= usize::MAX,
        layout.opening_braces == occurrences(line.take(i), '{'),
        layout.closing_braces == occurrences(line.take(i), '}'),
        layout.leading_closing_braces <= i,
        code ==> exists|k: int|
            0 <= k < i && #[trigger] is_first_code(line, k, layout.leading_closing_braces as nat),
        !code ==> layout.leading_closing_braces == layout.closing_braces && forall|k: int|
            0 <= k < i ==> (#[trigger] line[k] == '}' || ascii_blank(line[k])),
    ensures
        ({
            let (mode, found) = layout_from(line, i, Mode::Code, code, layout);
            &&& mode is Code
            &&& found.opening_braces == occurrences(line, '{')
            &&& found.closing_braces == occurrences(line, '}')
            &&& (exists|k: int|
                0 <= k < line.len() && #[trigger] is_first_code(
                    line,
                    k,
                    found.leading_closing_braces as nat,
                )) || (found.leading_closing_braces == found.closing_braces && forall|k: int|
                0 <= k < line.len() ==> (#[trigger] line[k] == '}' || ascii_blank(line[k])))
        }),
    decreases line.len() - i,
{
    if i < line.len() {
        assert(line[i] != '"' && line[i] != '/');
        let next = line.take(i + 1);
        assert(next.drop_last() == line.take(i));
        assert(next.last() == line[i]);
        lemma_occurrences_bound(line.take(i), '{');
        lemma_occurrences_bound(line.take(i), '}');
        if line[i] == '{' {
            if !code {
                assert(is_first_code(line, i, layout.leading_closing_braces as nat));
            }
            lemma_layout_from(
                line,
                i + 1,
                true,
                LineLayout { opening_braces: (layout.opening_braces + 1) as usize, ..layout },
            );
        } else if line[i] == '}' {
            lemma_layout_from(
                line,
                i + 1,
                code,
                LineLayout {
                    closing_braces: (layout.closing_braces + 1) as usize,
                    leading_closing_braces: if code {
                        layout.leading_closing_braces
                    } else {
                        (layout.leading_closing_braces + 1) as usize
                    },
                    ..layout
                },
            );
        } else {
            if !code && !ascii_blank(line[i]) {
                assert(is_first_code(line, i, layout.leading_closing_braces as nat));
            }
            lemma_layout_from(line, i + 1, code || !ascii_blank(line[i]), layout);
        }
    } else {
        assert(line.take(i) == line);
    }
}

proof fn lemma_occurrences_bound(text: Seq<char>, c: char)
    ensures
        occurrences(text, c) <= text.len(),
    decreases text.len(),
{
    if text.len() > 0 {
        lemma_occurrences_bound(text.drop_last(), c);
    }
}

/// Whether the character at an index is the first of a line that is neither blank nor a closing
/// brace, behind so many closing braces.
pub open spec fn is_first_code(line: Seq<char>, k: int, closing: nat) -> bool {
    0 <= k < line.len() && line[k] != '}' && !ascii_blank(line[k]) && occurrences(line.take(k), '}')
        == closing && forall|j: int|
        0 <= j < k ==> (#[trigger] line[j] == '}' || ascii_blank(line[j]))
}

/// In a line without quotes and comments all braces count. Those that close before any other code
/// are told apart.
pub proof fn law_braces_counted(line: Seq<char>)
    requires
        is_plain(line),
        line.len() <= usize::MAX,
    ensures
        line_layout(line, Mode::Code).0 is Code,
        line_layout(line, Mode::Code).1.opening_braces == occurrences(line, '{'),
        line_layout(line, Mode::Code).1.closing_braces == occurrences(line, '}'),
        forall|k: int, closing: nat| #[trigger]
            is_first_code(line, k, closing) ==> line_layout(
                line,
                Mode::Code,
            ).1.leading_closing_braces == closing,
{
    assert(line.take(0) == Seq::<char>::empty());
    lemma_layout_from(line, 0, false, no_layout());
    let found = line_layout(line, Mode::Code).1;
    assert forall|k: int, closing: nat| #[trigger]
        is_first_code(line, k, closing) implies found.leading_closing_braces == closing by {
        if exists|j: int|
            0 <= j < line.len() && #[trigger] is_first_code(
                line,
                j,
                found.leading_closing_braces as nat,
            ) {
            let j = choose|j: int|
                0 <= j < line.len() && #[trigger] is_first_code(
                    line,
                    j,
                    found.leading_closing_braces as nat,
                );
            if j < k {
                assert(line[j] == '}' || ascii_blank(line[j]));
            } else if k < j {
                assert(line[k] == '}' || ascii_blank(line[k]));
            }
        } else {
            assert(line[k] == '}' || ascii_blank(line[k]));
        }
    }
}

proof fn lemma_repeated(unit: Seq<char>, count: nat, c: char)
    requires
        forall|i: int| 0 <= i < unit.len() ==> #[trigger] unit[i] == c,
    ensures
        forall|i: int|
            0 <= i < repeated(unit, count).len() ==> #[trigger] repeated(unit, count)[i] == c,
        repeated(unit, count).len() == count * unit.len(),
    decreases count,
{
    if count > 0 {
        let rest = (count - 1) as nat;
        lemma_repeated(unit, rest, c);
        assert(rest * unit.len() + unit.len() == count * unit.len()) by (nonlinear_arith)
            requires
                rest == count - 1,
                count > 0,
        ;
    } else {
        assert(0 * unit.len() == 0) by (nonlinear_arith);
    }
}

/// An indentation is made of as many spaces for each step as were asked for, and of one tab for
/// each step where tabs were.
pub proof fn law_indentation(options: FormattingOptions, steps: nat)
    ensures
        !options.insert_spaces ==> repeated(indent_unit(options), steps).len() == steps && forall|
            i: int,
        |
            0 <= i < steps ==> #[trigger] repeated(indent_unit(options), steps)[i] == '\t',
        options.insert_spaces && 1 <= options.tab_size <= 16 ==> repeated(
            indent_unit(options),
            steps,
        ).len() == steps * options.tab_size && forall|i: int|
            0 <= i < steps * options.tab_size ==> #[trigger] repeated(
                indent_unit(options),
                steps,
            )[i] == ' ',
{
    if options.insert_spaces {
        if 1 <= options.tab_size <= 16 {
            lemma_repeated(seq![' '], options.tab_size as nat, ' ');
            assert(options.tab_size as nat * 1 == options.tab_size) by (nonlinear_arith);
            lemma_repeated(indent_unit(options), steps, ' ');
        }
    } else {
        lemma_repeated(seq!['\t'], steps, '\t');
        assert(steps * 1 == steps) by (nonlinear_arith);
    }
}

proof fn lemma_written(
    text: Seq<char>,
    start: int,
    mode: Mode,
    depth: nat,
    options: FormattingOptions,
    written: Seq<char>,
)
    ensures
        format_from(text, start, mode, depth, options, written) == written + format_from(
            text,
            start,
            mode,
            depth,
            options,
            Seq::empty(),
        ),
    decreases text.len() - start,
{
    let none = Seq::<char>::empty();
    if start < 0 || start >= text.len() {
        assert(written + none == written);
    } else {
        lemma_newline_from(text, start);
        let line = line_parts(text, start);
        let content = line_content(line.segment, options);
        let (after, layout) = line_layout(content, mode);
        if content.len() > 0 {
            let line_depth = minus(depth, layout.leading_closing_braces as nat);
            let steps = if line_depth > 256 {
                256
            } else {
                line_depth
            };
            let next = minus(depth + layout.opening_braces as nat, layout.closing_braces as nat);
            let own = repeated(indent_unit(options), steps) + content + line.ending;
            let rest = format_from(text, line.next, after, next, options, none);
            lemma_written(text, line.next, after, next, options, written + repeated(
                indent_unit(options),
                steps,
            ) + content + line.ending);
            lemma_written(text, line.next, after, next, options, none + repeated(
                indent_unit(options),
                steps,
            ) + content + line.ending);
            assert(written + repeated(indent_unit(options), steps) + content + line.ending + rest
                == written + (none + repeated(indent_unit(options), steps) + content + line.ending
                + rest));
        } else if options.trim_trailing_whitespace == Some(true) {
            let rest = format_from(text, line.next, after, depth, options, none);
            lemma_written(text, line.next, after, depth, options, written + line.ending);
            lemma_written(text, line.next, after, depth, options, none + line.ending);
            assert(written + line.ending + rest == written + (none + line.ending + rest));
        } else {
            let rest = format_from(text, line.next, after, depth, options, none);
            lemma_written(
                text,
                line.next,
                after,
                depth,
                options,
                written + line.segment + line.ending,
            );
            lemma_written(text, line.next, after, depth, options, none + line.segment + line.ending);
            assert(written + line.segment + line.ending + rest == written + (none + line.segment
                + line.ending + rest));
        }
    }
}

/// A line of code is indented by one step for each block that is open before it, but for those
/// that the line closes first. The lines behind it are indented by the blocks that are open behind
/// it.
pub proof fn law_line_indented(
    text: Seq<char>,
    start: int,
    depth: nat,
    options: FormattingOptions,
    k: int,
    closing: nat,
)
    requires
        0 <= start < text.len() <= usize::MAX,
        is_plain(line_content(line_parts(text, start).segment, options)),
        line_content(line_parts(text, start).segment, options).len() <= usize::MAX,
        is_first_code(line_content(line_parts(text, start).segment, options), k, closing),
        closing <= depth <= closing + 256,
    ensures
        ({
            let line = line_parts(text, start);
            let content = line_content(line.segment, options);
            let opened = occurrences(content, '{');
            let closed = occurrences(content, '}');
            closed <= depth + opened ==> format_from(
                text,
                start,
                Mode::Code,
                depth,
                options,
                Seq::empty(),
            ) == repeated(indent_unit(options), (depth - closing) as nat) + content + line.ending
                + format_from(
                text,
                line.next,
                Mode::Code,
                (depth + opened - closed) as nat,
                options,
                Seq::empty(),
            )
        }),
{
    let none = Seq::<char>::empty();
    let line = line_parts(text, start);
    let content = line_content(line.segment, options);
    let (after, layout) = line_layout(content, Mode::Code);
    law_braces_counted(content);
    assert(layout.leading_closing_braces == closing);
    let steps = (depth - closing) as nat;
    let next = minus(depth + layout.opening_braces as nat, layout.closing_braces as nat);
    lemma_newline_from(text, start);
    lemma_written(text, line.next, after, next, options, none + repeated(
        indent_unit(options),
        steps,
    ) + content + line.ending);
    assert(none + repeated(indent_unit(options), steps) == repeated(indent_unit(options), steps));
}

} // verus!
