//! Deterministic whole-document formatting.
//!
//! The formatter deliberately limits itself to layout-only changes: it normalizes indentation
//! from structural braces and removes trailing whitespace while preserving tokens, comments,
//! blank lines, and line-ending style. That makes it safe to run on partially written or
//! malformed source.
use vstd::prelude::*;
use vstd::slice::slice_subrange;

use crate::line_index::range_at;
use crate::protocol::{FormattingOptions, TextEdit};
use crate::state::{open_text, WorldState};
use crate::text::{from_chars, str_eq, to_chars, utf8};
use crate::url::Url;

verus! {

/// Where a scan of source text stands: in code, in a line comment, in nested block comments or in
/// a string.
#[derive(Clone, Copy, PartialEq, Eq, Structural)]
pub enum Mode {
    Code,
    LineComment,
    BlockComment { depth: usize },
    Text { escaped: bool },
}

/// Whether two characters stand at an index.
pub open spec fn chars_at(text: Seq<char>, i: int, first: char, second: char) -> bool {
    0 <= i && i + 1 < text.len() && text[i] == first && text[i + 1] == second
}

fn has_chars(text: &[char], i: usize, first: char, second: char) -> (found: bool)
    ensures
        found == chars_at(text@, i as int, first, second),
{
    i < text.len() && text.len() - i > 1 && text[i] == first && text[i + 1] == second
}

/// One step of a scan: the next index and where the scan stands there.
pub open spec fn next_mode(text: Seq<char>, i: int, mode: Mode) -> (int, Mode) {
    match mode {
        Mode::LineComment => if text[i] == '\n' {
            (i + 1, Mode::Code)
        } else {
            (i + 1, mode)
        },
        Mode::BlockComment { depth } => if chars_at(text, i, '/', '*') {
            (i + 2, Mode::BlockComment { depth: (depth + 1) as usize })
        } else if chars_at(text, i, '*', '/') {
            (
                i + 2,
                if depth <= 1 {
                    Mode::Code
                } else {
                    Mode::BlockComment { depth: (depth - 1) as usize }
                },
            )
        } else {
            (i + 1, mode)
        },
        Mode::Text { escaped } => if escaped {
            (i + 1, Mode::Text { escaped: false })
        } else if text[i] == '\\' {
            (i + 1, Mode::Text { escaped: true })
        } else if text[i] == '"' {
            (i + 1, Mode::Code)
        } else {
            (i + 1, mode)
        },
        Mode::Code => if chars_at(text, i, '/', '/') {
            (i + 2, Mode::LineComment)
        } else if chars_at(text, i, '/', '*') {
            (i + 2, Mode::BlockComment { depth: 1 })
        } else if text[i] == '"' {
            (i + 1, Mode::Text { escaped: false })
        } else {
            (i + 1, mode)
        },
    }
}

/// One step of a scan that began inside `base` block comments.
fn step(text: &[char], i: usize, mode: Mode, Ghost(base): Ghost<int>) -> (next: (usize, Mode))
    requires
        i < text@.len(),
        base >= 0,
        base + text@.len() <= usize::MAX,
        mode matches Mode::BlockComment { depth } ==> depth <= base + i,
    ensures
        (next.0 as int, next.1) == next_mode(text@, i as int, mode),
        i < next.0 <= text@.len(),
        next.1 matches Mode::BlockComment { depth } ==> depth <= base + next.0,
{
    match mode {
        Mode::LineComment => if text[i] == '\n' {
            (i + 1, Mode::Code)
        } else {
            (i + 1, mode)
        },
        Mode::BlockComment { depth } => if has_chars(text, i, '/', '*') {
            (i + 2, Mode::BlockComment { depth: depth + 1 })
        } else if has_chars(text, i, '*', '/') {
            (
                i + 2,
                if depth <= 1 {
                    Mode::Code
                } else {
                    Mode::BlockComment { depth: depth - 1 }
                },
            )
        } else {
            (i + 1, mode)
        },
        Mode::Text { escaped } => if escaped {
            (i + 1, Mode::Text { escaped: false })
        } else if text[i] == '\\' {
            (i + 1, Mode::Text { escaped: true })
        } else if text[i] == '"' {
            (i + 1, Mode::Code)
        } else {
            (i + 1, mode)
        },
        Mode::Code => if has_chars(text, i, '/', '/') {
            (i + 2, Mode::LineComment)
        } else if has_chars(text, i, '/', '*') {
            (i + 2, Mode::BlockComment { depth: 1 })
        } else if text[i] == '"' {
            (i + 1, Mode::Text { escaped: false })
        } else {
            (i + 1, mode)
        },
    }
}

/// Whether a string or block comment that is open at an index, or begins behind it, goes over a
/// line ending or the end of the text.
pub open spec fn sensitive_from(text: Seq<char>, i: int, mode: Mode) -> bool
    decreases text.len() - i,
{
    let inside = mode is Text || mode is BlockComment;
    if i >= text.len() {
        inside
    } else if inside && text[i] == '\n' {
        true
    } else {
        let (next, after) = next_mode(text, i, mode);
        sensitive_from(text, next, after)
    }
}

/// Whether the layout of a text is part of a string or block comment of more than one line.
pub open spec fn layout_sensitive(text: Seq<char>) -> bool {
    sensitive_from(text, 0, Mode::Code)
}

pub fn contains_layout_sensitive_multiline_region(source: &str) -> (found: bool)
    ensures
        found == layout_sensitive(source@),
{
    let chars = to_chars(source);
    let count: usize = chars.len();
    let mut mode = Mode::Code;
    let mut i: usize = 0;
    while i < chars.len()
        invariant
            i <= chars@.len(),
            count == chars@.len(),
            chars@ == source@,
            mode matches Mode::BlockComment { depth } ==> depth <= i,
            sensitive_from(source@, i as int, mode) == layout_sensitive(source@),
        decreases chars@.len() - i,
    {
        let inside = matches!(mode, Mode::Text { .. } | Mode::BlockComment { .. });
        if inside && chars[i] == '\n' {
            return true;
        }
        let (next, after) = step(chars.as_slice(), i, mode, Ghost(0));
        i = next;
        mode = after;
    }
    matches!(mode, Mode::Text { .. } | Mode::BlockComment { .. })
}

/// The braces of a line that stand in code: opening ones, closing ones, and the closing ones
/// that stand before any other code.
#[derive(Clone, Copy, PartialEq, Eq, Structural)]
pub struct LineLayout {
    pub opening_braces: usize,
    pub closing_braces: usize,
    pub leading_closing_braces: usize,
}

/// Where the scan of the lines stands.
#[derive(Clone, Copy, PartialEq, Eq, Structural)]
pub struct LayoutScan {
    pub mode: Mode,
}

pub open spec fn ascii_blank(c: char) -> bool {
    c == ' ' || c == '\t' || c == '\n' || c == '\r' || c == '\x0c'
}

/// The layout of a line from an index on. `code` is whether code has been seen on the line.
pub open spec fn layout_from(line: Seq<char>, i: int, mode: Mode, code: bool, layout: LineLayout) -> (
    Mode,
    LineLayout,
)
    decreases line.len() - i,
{
    if i >= line.len() || (mode is Code && chars_at(line, i, '/', '/')) {
        (mode, layout)
    } else {
        let (next, after) = next_mode(line, i, mode);
        if !(mode is Code) {
            layout_from(line, next, after, code, layout)
        } else if line[i] == '{' {
            layout_from(
                line,
                next,
                after,
                true,
                LineLayout { opening_braces: (layout.opening_braces + 1) as usize, ..layout },
            )
        } else if line[i] == '}' {
            layout_from(
                line,
                next,
                after,
                code,
                LineLayout {
                    closing_braces: (layout.closing_braces + 1) as usize,
                    leading_closing_braces: if code {
                        layout.leading_closing_braces
                    } else {
                        (layout.leading_closing_braces + 1) as usize
                    },
                    ..layout
                },
            )
        } else {
            layout_from(line, next, after, code || !ascii_blank(line[i]), layout)
        }
    }
}

pub open spec fn no_layout() -> LineLayout {
    LineLayout { opening_braces: 0, closing_braces: 0, leading_closing_braces: 0 }
}

/// The layout of a line, and where the scan stands behind it.
pub open spec fn line_layout(line: Seq<char>, mode: Mode) -> (Mode, LineLayout) {
    layout_from(line, 0, mode, !(mode is Code), no_layout())
}

/// The number of open block comments.
pub open spec fn comment_depth(mode: Mode) -> int {
    match mode {
        Mode::BlockComment { depth } => depth as int,
        _ => 0,
    }
}

impl LayoutScan {
    /// Finds the braces of a line, and moves the scan behind it.
    pub fn analyze_line(&mut self, line: &[char]) -> (layout: LineLayout)
        requires
            comment_depth(old(self).mode) + line@.len() <= usize::MAX,
        ensures
            (final(self).mode, layout) == line_layout(line@, old(self).mode),
            layout.opening_braces <= line@.len(),
            layout.closing_braces <= line@.len(),
            layout.leading_closing_braces <= layout.closing_braces,
            comment_depth(final(self).mode) <= comment_depth(old(self).mode) + line@.len(),
    {
        let ghost first = self.mode;
        let ghost base: int = comment_depth(first);
        let count: usize = line.len();
        let mut mode = self.mode;
        let mut layout = LineLayout {
            opening_braces: 0,
            closing_braces: 0,
            leading_closing_braces: 0,
        };
        let mut code = !matches!(mode, Mode::Code);
        let mut i: usize = 0;
        while i < line.len() && !(matches!(mode, Mode::Code) && has_chars(line, i, '/', '/'))
            invariant
                i <= line@.len(),
                layout.opening_braces <= i,
                layout.closing_braces <= i,
                layout.leading_closing_braces <= layout.closing_braces,
                base + line@.len() <= usize::MAX,
                base >= 0,
                mode matches Mode::BlockComment { depth } ==> depth <= base + i,
                layout_from(line@, i as int, mode, code, layout) == line_layout(line@, first),
            decreases line@.len() - i,
        {
            let ghost before = mode;
            let (next, after) = step(line, i, mode, Ghost(base));
            if matches!(mode, Mode::Code) {
                if line[i] == '{' {
                    code = true;
                    layout.opening_braces = layout.opening_braces + 1;
                } else if line[i] == '}' {
                    if !code {
                        layout.leading_closing_braces = layout.leading_closing_braces + 1;
                    }
                    layout.closing_braces = layout.closing_braces + 1;
                } else if !(line[i] == ' ' || line[i] == '\t' || line[i] == '\n' || line[i] == '\r'
                    || line[i] == '\x0c') {
                    code = true;
                }
            }
            i = next;
            mode = after;
        }
        self.mode = mode;
        layout
    }
}

pub open spec fn is_indent(c: char) -> bool {
    c == ' ' || c == '\t'
}

/// A text without the spaces and tabs at its start.
pub open spec fn without_indent(text: Seq<char>) -> Seq<char>
    decreases text.len(),
{
    if text.len() > 0 && is_indent(text[0]) {
        without_indent(text.drop_first())
    } else {
        text
    }
}

/// A text without the spaces and tabs at its end.
pub open spec fn without_trailing(text: Seq<char>) -> Seq<char>
    decreases text.len(),
{
    if text.len() > 0 && is_indent(text.last()) {
        without_trailing(text.drop_last())
    } else {
        text
    }
}

/// The index of the first line feed from an index on, the end of the text where there is none.
pub open spec fn newline_from(text: Seq<char>, i: int) -> int
    decreases text.len() - i,
{
    if i >= text.len() || text[i] == '\n' {
        i
    } else {
        newline_from(text, i + 1)
    }
}

pub proof fn lemma_newline_from(text: Seq<char>, i: int)
    requires
        0 <= i <= text.len(),
    ensures
        i <= newline_from(text, i) <= text.len(),
        newline_from(text, i) < text.len() ==> text[newline_from(text, i)] == '\n',
    decreases text.len() - i,
{
    if i < text.len() && text[i] != '\n' {
        lemma_newline_from(text, i + 1);
    }
}

/// A text some times in a row.
pub open spec fn repeated(unit: Seq<char>, count: nat) -> Seq<char>
    decreases count,
{
    if count == 0 {
        Seq::empty()
    } else {
        repeated(unit, (count - 1) as nat) + unit
    }
}

/// One step of indentation: as many spaces as the client asks for, one to sixteen, or a tab.
pub open spec fn indent_unit(options: FormattingOptions) -> Seq<char> {
    if options.insert_spaces {
        repeated(
            seq![' '],
            if options.tab_size < 1 {
                1
            } else if options.tab_size > 16 {
                16
            } else {
                options.tab_size as nat
            },
        )
    } else {
        seq!['\t']
    }
}

/// One line of a text: its characters without the line ending, the ending, and the index behind
/// the line.
pub struct LineParts {
    pub segment: Seq<char>,
    pub ending: Seq<char>,
    pub next: int,
}

pub open spec fn line_parts(text: Seq<char>, start: int) -> LineParts {
    let newline = newline_from(text, start);
    if newline >= text.len() {
        LineParts { segment: text.skip(start), ending: Seq::empty(), next: text.len() as int }
    } else if newline > start && text[newline - 1] == '\r' {
        LineParts {
            segment: text.subrange(start, newline - 1),
            ending: seq!['\r', '\n'],
            next: newline + 1,
        }
    } else {
        LineParts {
            segment: text.subrange(start, newline),
            ending: seq!['\n'],
            next: newline + 1,
        }
    }
}

pub open spec fn minus(a: nat, b: nat) -> nat {
    if a > b {
        (a - b) as nat
    } else {
        0
    }
}

/// The content of a line that is kept.
pub open spec fn line_content(segment: Seq<char>, options: FormattingOptions) -> Seq<char> {
    if options.trim_trailing_whitespace == Some(true) {
        without_trailing(without_indent(segment))
    } else {
        without_indent(segment)
    }
}

/// The lines of a text from an index on, behind what has been written. `depth` is the number of
/// open braces.
pub open spec fn format_from(
    text: Seq<char>,
    start: int,
    mode: Mode,
    depth: nat,
    options: FormattingOptions,
    written: Seq<char>,
) -> Seq<char>
    decreases text.len() - start,
{
    if start < 0 || start >= text.len() {
        written
    } else {
        proof {
            lemma_newline_from(text, start);
        }
        let line = line_parts(text, start);
        let content = line_content(line.segment, options);
        let (after, layout) = line_layout(content, mode);
        if content.len() > 0 {
            let line_depth = minus(depth, layout.leading_closing_braces as nat);
            let steps = if line_depth > 256 {
                256
            } else {
                line_depth
            };
            format_from(
                text,
                line.next,
                after,
                minus(depth + layout.opening_braces as nat, layout.closing_braces as nat),
                options,
                written + repeated(indent_unit(options), steps) + content + line.ending,
            )
        } else if options.trim_trailing_whitespace == Some(true) {
            format_from(text, line.next, after, depth, options, written + line.ending)
        } else {
            format_from(
                text,
                line.next,
                after,
                depth,
                options,
                written + line.segment + line.ending,
            )
        }
    }
}

/// A text without the line endings at its end.
pub open spec fn without_final_newlines(text: Seq<char>) -> Seq<char>
    decreases text.len(),
{
    if text.len() > 0 && text.last() == '\n' {
        if text.len() > 1 && text[text.len() - 2] == '\r' {
            without_final_newlines(text.take(text.len() - 2))
        } else {
            without_final_newlines(text.drop_last())
        }
    } else {
        text
    }
}

/// Whether a text holds a carriage return before a line feed.
pub open spec fn uses_crlf(text: Seq<char>) -> bool {
    exists|i: int| chars_at(text, i, '\r', '\n')
}

pub open spec fn preferred_newline(text: Seq<char>) -> Seq<char> {
    if uses_crlf(text) {
        seq!['\r', '\n']
    } else {
        seq!['\n']
    }
}

pub open spec fn ends_with_newline(text: Seq<char>) -> bool {
    text.len() > 0 && text.last() == '\n'
}

/// The end of a formatted text as the client wants it.
pub open spec fn with_final_newline(
    written: Seq<char>,
    newline: Seq<char>,
    options: FormattingOptions,
) -> Seq<char> {
    if options.trim_final_newlines == Some(true) {
        if ends_with_newline(written) || options.insert_final_newline == Some(true) {
            without_final_newlines(written) + newline
        } else {
            without_final_newlines(written)
        }
    } else if options.insert_final_newline == Some(true) && !ends_with_newline(written) {
        written + newline
    } else {
        written
    }
}

/// A formatted text. A text whose layout is part of a string or a block comment stays as it is.
pub open spec fn formatted(text: Seq<char>, options: FormattingOptions) -> Seq<char> {
    if layout_sensitive(text) {
        text
    } else {
        with_final_newline(
            format_from(text, 0, Mode::Code, 0, options, Seq::empty()),
            preferred_newline(text),
            options,
        )
    }
}

fn is_true(option: Option<bool>) -> (found: bool)
    ensures
        found == (option == Some(true)),
{
    match option {
        Some(value) => value,
        None => false,
    }
}

fn push_chars(buffer: &mut Vec<char>, chars: &[char], start: usize, end: usize)
    requires
        start <= end <= chars@.len(),
    ensures
        final(buffer)@ == old(buffer)@ + chars@.subrange(start as int, end as int),
{
    let ghost first = buffer@;
    let mut i: usize = start;
    while i < end
        invariant
            start <= i <= end <= chars@.len(),
            buffer@ == first + chars@.subrange(start as int, i as int),
        decreases end - i,
    {
        buffer.push(chars[i]);
        i += 1;
        assert(chars@.subrange(start as int, i as int) == chars@.subrange(
            start as int,
            i - 1,
        ).push(chars@[i - 1]));
    }
}

fn push_indent(buffer: &mut Vec<char>, options: &FormattingOptions, steps: usize)
    requires
        steps <= 256,
    ensures
        final(buffer)@ == old(buffer)@ + repeated(indent_unit(*options), steps as nat),
{
    let ghost first = buffer@;
    let width: u32 = if options.tab_size < 1 {
        1
    } else if options.tab_size > 16 {
        16
    } else {
        options.tab_size
    };
    let mut i: usize = 0;
    while i < steps
        invariant
            i <= steps,
            width == if options.tab_size < 1 {
                1
            } else if options.tab_size > 16 {
                16
            } else {
                options.tab_size
            },
            buffer@ == first + repeated(indent_unit(*options), i as nat),
        decreases steps - i,
    {
        let ghost before = buffer@;
        if options.insert_spaces {
            let mut k: u32 = 0;
            while k < width
                invariant
                    k <= width,
                    buffer@ == before + repeated(seq![' '], k as nat),
                decreases width - k,
            {
                let ghost sofar = repeated(seq![' '], k as nat);
                buffer.push(' ');
                k += 1;
                assert(buffer@ == before + (sofar + seq![' ']));
            }
        } else {
            buffer.push('\t');
            assert(buffer@ == before + seq!['\t']);
        }
        assert(buffer@ == before + indent_unit(*options));
        i += 1;
        assert(buffer@ == first + repeated(indent_unit(*options), i as nat)) by {
            assert(repeated(indent_unit(*options), i as nat) == repeated(
                indent_unit(*options),
                (i - 1) as nat,
            ) + indent_unit(*options));
        }
    }
}

/// The bounds of the content of a line that is kept.
fn content_bounds(chars: &[char], start: usize, end: usize, trim: bool) -> (bounds: (usize, usize))
    requires
        start <= end <= chars@.len(),
    ensures
        start <= bounds.0 <= bounds.1 <= end,
        chars@.subrange(bounds.0 as int, bounds.1 as int) == if trim {
            without_trailing(without_indent(chars@.subrange(start as int, end as int)))
        } else {
            without_indent(chars@.subrange(start as int, end as int))
        },
{
    let mut from: usize = start;
    while from < end && (chars[from] == ' ' || chars[from] == '\t')
        invariant
            start <= from <= end <= chars@.len(),
            without_indent(chars@.subrange(from as int, end as int)) == without_indent(
                chars@.subrange(start as int, end as int),
            ),
        decreases end - from,
    {
        assert(chars@.subrange(from as int, end as int).drop_first() == chars@.subrange(
            from + 1,
            end as int,
        ));
        from += 1;
    }
    let ghost kept = chars@.subrange(from as int, end as int);
    assert(kept == without_indent(chars@.subrange(start as int, end as int)));
    let mut to: usize = end;
    if trim {
        while to > from && (chars[to - 1] == ' ' || chars[to - 1] == '\t')
            invariant
                start <= from <= to <= end <= chars@.len(),
                without_trailing(chars@.subrange(from as int, to as int)) == without_trailing(kept),
            decreases to - from,
        {
            assert(chars@.subrange(from as int, to as int).drop_last() == chars@.subrange(
                from as int,
                to - 1,
            ));
            to -= 1;
        }
    }
    (from, to)
}

fn find_newline(chars: &[char], start: usize) -> (newline: usize)
    requires
        start <= chars@.len(),
    ensures
        newline == newline_from(chars@, start as int),
        start <= newline <= chars@.len(),
{
    let mut i: usize = start;
    while i < chars.len() && chars[i] != '\n'
        invariant
            start <= i <= chars@.len(),
            newline_from(chars@, i as int) == newline_from(chars@, start as int),
        decreases chars@.len() - i,
    {
        i += 1;
    }
    i
}

fn has_crlf(chars: &[char]) -> (found: bool)
    ensures
        found == uses_crlf(chars@),
{
    let mut i: usize = 0;
    while i < chars.len()
        invariant
            i <= chars@.len(),
            forall|j: int| 0 <= j < i ==> !chars_at(chars@, j, '\r', '\n'),
        decreases chars@.len() - i,
    {
        if has_chars(chars, i, '\r', '\n') {
            return true;
        }
        i += 1;
    }
    false
}

fn push_newline(buffer: &mut Vec<char>, crlf: bool)
    ensures
        final(buffer)@ == old(buffer)@ + if crlf {
            seq!['\r', '\n']
        } else {
            seq!['\n']
        },
{
    let ghost first = buffer@;
    if crlf {
        buffer.push('\r');
        buffer.push('\n');
        assert(buffer@ == first + seq!['\r', '\n']);
    } else {
        buffer.push('\n');
        assert(buffer@ == first + seq!['\n']);
    }
}

fn finish_newlines(buffer: &mut Vec<char>, crlf: bool, options: &FormattingOptions)
    ensures
        final(buffer)@ == with_final_newline(
            old(buffer)@,
            if crlf {
                seq!['\r', '\n']
            } else {
                seq!['\n']
            },
            *options,
        ),
{
    let ghost first = buffer@;
    let ended = buffer.len() > 0 && buffer[buffer.len() - 1] == '\n';
    if is_true(options.trim_final_newlines) {
        while buffer.len() > 0 && buffer[buffer.len() - 1] == '\n'
            invariant
                without_final_newlines(buffer@) == without_final_newlines(first),
            decreases buffer@.len(),
        {
            let ghost before = buffer@;
            let len = buffer.len();
            if len > 1 && buffer[len - 2] == '\r' {
                buffer.truncate(len - 2);
                assert(buffer@ == before.take(before.len() - 2));
            } else {
                buffer.truncate(len - 1);
                assert(buffer@ == before.drop_last());
            }
        }
        if ended || is_true(options.insert_final_newline) {
            push_newline(buffer, crlf);
        }
    } else if is_true(options.insert_final_newline) && !ended {
        push_newline(buffer, crlf);
    }
}

/// Formats a whole document.
pub fn format_document(source: &str, options: &FormattingOptions) -> (result: String)
    ensures
        result@ == formatted(source@, *options),
{
    // Leading and trailing whitespace is part of multiline string and block-comment contents.
    // Such documents stay as they are rather than altering literal or comment payloads.
    if contains_layout_sensitive_multiline_region(source) {
        return source.to_owned();
    }
    let ghost text = source@;
    let chars = to_chars(source);
    let count: usize = chars.len();
    let crlf = has_crlf(chars.as_slice());
    let trim = is_true(options.trim_trailing_whitespace);
    let mut written: Vec<char> = Vec::new();
    let mut scan = LayoutScan { mode: Mode::Code };
    let mut depth: usize = 0;
    let mut cursor: usize = 0;
    while cursor < chars.len()
        invariant
            cursor <= chars@.len(),
            chars@ == text,
            count == text.len(),
            depth <= cursor,
            comment_depth(scan.mode) <= cursor,
            trim == (options.trim_trailing_whitespace == Some(true)),
            format_from(text, cursor as int, scan.mode, depth as nat, *options, written@)
                == format_from(text, 0, Mode::Code, 0, *options, Seq::empty()),
        decreases chars@.len() - cursor,
    {
        let ghost before = written@;
        let ghost line = line_parts(text, cursor as int);
        let newline = find_newline(chars.as_slice(), cursor);
        let ended = newline < chars.len();
        let returned = ended && newline > cursor && chars[newline - 1] == '\r';
        let content_end: usize = if returned {
            newline - 1
        } else {
            newline
        };
        assert(line.segment == text.subrange(cursor as int, content_end as int));
        let (from, to) = content_bounds(chars.as_slice(), cursor, content_end, trim);
        let content = slice_subrange(chars.as_slice(), from, to);
        assert(content@ == line_content(line.segment, *options));
        let layout = scan.analyze_line(content);
        if from < to {
            let line_depth: usize = if depth > layout.leading_closing_braces {
                depth - layout.leading_closing_braces
            } else {
                0
            };
            let steps: usize = if line_depth > 256 {
                256
            } else {
                line_depth
            };
            push_indent(&mut written, options, steps);
            push_chars(&mut written, chars.as_slice(), from, to);
            let opened: usize = depth + layout.opening_braces;
            depth = if opened > layout.closing_braces {
                opened - layout.closing_braces
            } else {
                0
            };
        } else if !trim {
            push_chars(&mut written, chars.as_slice(), cursor, content_end);
        }
        let ghost body = written@;
        if ended {
            push_newline(&mut written, returned);
            cursor = newline + 1;
        } else {
            assert(body + line.ending == body);
            cursor = newline;
        }
        assert(written@ == body + line.ending);
        assert(cursor == line.next);
    }
    finish_newlines(&mut written, crlf, options);
    assert(written@.subrange(0, written@.len() as int) == written@);
    from_chars(written.as_slice(), 0, written.len())
}

/// Computes a single whole-document edit using the client's indentation preferences.
///
/// An unchanged document produces an empty edit list. A document that is not open produces
/// `None`.
pub fn handle_formatting(world: &WorldState, uri: &Url, options: &FormattingOptions) -> (edits: Option<
    Vec<TextEdit>,
>)
    ensures
        match open_text(world@, uri@) {
            Some(text) => edits is Some && if formatted(text, *options) == text {
                edits->0@.len() == 0
            } else {
                edits->0@.len() == 1 && edits->0@[0].range == range_at(
                    text,
                    0,
                    utf8(text).len() as int,
                ) && edits->0@[0].new_text@ == formatted(text, *options)
            },
            None => edits is None,
        },
{
    let text = match world.document_text(uri) {
        Some(text) => text,
        None => return None,
    };
    let text_len: u32 = text.as_bytes().len() as u32;
    let formatted_text = format_document(text, options);
    let mut edits: Vec<TextEdit> = Vec::new();
    if str_eq(formatted_text.as_str(), text) {
        return Some(edits);
    }
    let line_index = match world.line_index(uri) {
        Some(line_index) => line_index,
        None => return None,
    };
    edits.push(TextEdit { range: line_index.range(0, text_len), new_text: formatted_text });
    Some(edits)
}

/// Whether a character is neither a space, a tab nor part of a line ending.
pub open spec fn is_visible(c: char) -> bool {
    c != ' ' && c != '\t' && c != '\r' && c != '\n'
}

/// The characters of a text that are not layout.
pub open spec fn visible(text: Seq<char>) -> Seq<char>
    decreases text.len(),
{
    if text.len() == 0 {
        text
    } else if is_visible(text.last()) {
        visible(text.drop_last()).push(text.last())
    } else {
        visible(text.drop_last())
    }
}

proof fn lemma_visible_concat(a: Seq<char>, b: Seq<char>)
    ensures
        visible(a + b) == visible(a) + visible(b),
    decreases b.len(),
{
    if b.len() == 0 {
        assert(a + b == a);
        assert(visible(a) + visible(b) == visible(a));
    } else {
        assert((a + b).drop_last() == a + b.drop_last());
        lemma_visible_concat(a, b.drop_last());
        assert(visible(a + b) == visible(a) + visible(b));
    }
}

proof fn lemma_invisible(text: Seq<char>)
    requires
        forall|i: int| 0 <= i < text.len() ==> !is_visible(#[trigger] text[i]),
    ensures
        visible(text) == Seq::<char>::empty(),
    decreases text.len(),
{
    if text.len() > 0 {
        assert(!is_visible(text[text.len() - 1]));
        assert forall|i: int| 0 <= i < text.drop_last().len() implies !is_visible(
            #[trigger] text.drop_last()[i],
        ) by {
            assert(text[i] == text.drop_last()[i]);
        }
        lemma_invisible(text.drop_last());
    }
}

proof fn lemma_repeated_invisible(unit: Seq<char>, count: nat)
    requires
        forall|i: int| 0 <= i < unit.len() ==> is_indent(#[trigger] unit[i]),
    ensures
        forall|i: int| 0 <= i < repeated(unit, count).len() ==> is_indent(
            #[trigger] repeated(unit, count)[i],
        ),
    decreases count,
{
    if count > 0 {
        lemma_repeated_invisible(unit, (count - 1) as nat);
        let front = repeated(unit, (count - 1) as nat);
        assert forall|i: int| 0 <= i < repeated(unit, count).len() implies is_indent(
            #[trigger] repeated(unit, count)[i],
        ) by {
            if i < front.len() {
                assert(repeated(unit, count)[i] == front[i]);
            } else {
                assert(repeated(unit, count)[i] == unit[i - front.len()]);
            }
        }
    }
}

proof fn lemma_indent_unit(options: FormattingOptions, steps: nat)
    ensures
        forall|i: int|
            0 <= i < repeated(indent_unit(options), steps).len() ==> is_indent(
                #[trigger] repeated(indent_unit(options), steps)[i],
            ),
{
    lemma_repeated_invisible(
        seq![' '],
        if options.tab_size < 1 {
            1
        } else if options.tab_size > 16 {
            16
        } else {
            options.tab_size as nat
        },
    );
    lemma_repeated_invisible(indent_unit(options), steps);
}

proof fn lemma_indent_invisible(options: FormattingOptions, steps: nat)
    ensures
        visible(repeated(indent_unit(options), steps)) == Seq::<char>::empty(),
{
    lemma_indent_unit(options, steps);
    lemma_invisible(repeated(indent_unit(options), steps));
}

proof fn lemma_content_visible(segment: Seq<char>, options: FormattingOptions)
    ensures
        visible(line_content(segment, options)) == visible(segment),
{
    lemma_indent_visible(segment);
    lemma_trailing_visible(without_indent(segment));
}

proof fn lemma_indent_visible(text: Seq<char>)
    ensures
        visible(without_indent(text)) == visible(text),
    decreases text.len(),
{
    if text.len() > 0 && is_indent(text[0]) {
        lemma_indent_visible(text.drop_first());
        assert(text == seq![text[0]] + text.drop_first());
        lemma_visible_concat(seq![text[0]], text.drop_first());
        lemma_invisible(seq![text[0]]);
        assert(Seq::<char>::empty() + visible(text.drop_first()) == visible(text.drop_first()));
    }
}

proof fn lemma_trailing_visible(text: Seq<char>)
    ensures
        visible(without_trailing(text)) == visible(text),
    decreases text.len(),
{
    if text.len() > 0 && is_indent(text.last()) {
        lemma_trailing_visible(text.drop_last());
    }
}

proof fn lemma_final_visible(text: Seq<char>)
    ensures
        visible(without_final_newlines(text)) == visible(text),
    decreases text.len(),
{
    if text.len() > 0 && text.last() == '\n' {
        if text.len() > 1 && text[text.len() - 2] == '\r' {
            let front = text.take(text.len() - 2);
            lemma_final_visible(front);
            assert(text.drop_last().drop_last() == front);
            assert(text.drop_last().last() == '\r');
            assert(visible(text.drop_last()) == visible(front));
        } else {
            lemma_final_visible(text.drop_last());
        }
    }
}

proof fn lemma_format_visible(
    text: Seq<char>,
    start: int,
    mode: Mode,
    depth: nat,
    options: FormattingOptions,
    written: Seq<char>,
)
    requires
        0 <= start <= text.len(),
    ensures
        visible(format_from(text, start, mode, depth, options, written)) == visible(written)
            + visible(text.skip(start)),
    decreases text.len() - start,
{
    if start >= text.len() {
        assert(text.skip(start) == Seq::<char>::empty());
        assert(visible(written) + Seq::<char>::empty() == visible(written));
    } else {
        lemma_newline_from(text, start);
        let line = line_parts(text, start);
        let content = line_content(line.segment, options);
        let (after, layout) = line_layout(content, mode);
        lemma_content_visible(line.segment, options);
        lemma_invisible(line.ending);
        assert(text.skip(start) == line.segment + line.ending + text.skip(line.next));
        lemma_visible_concat(line.segment + line.ending, text.skip(line.next));
        lemma_visible_concat(line.segment, line.ending);
        let kept = visible(line.segment);
        assert(kept + Seq::<char>::empty() == kept);
        if content.len() > 0 {
            let line_depth = minus(depth, layout.leading_closing_braces as nat);
            let steps = if line_depth > 256 {
                256
            } else {
                line_depth
            };
            let indent = repeated(indent_unit(options), steps);
            let grown = written + indent + content + line.ending;
            lemma_indent_invisible(options, steps);
            lemma_visible_concat(written, indent);
            lemma_visible_concat(written + indent, content);
            lemma_visible_concat(written + indent + content, line.ending);
            assert(visible(grown) == visible(written) + kept);
            lemma_format_visible(
                text,
                line.next,
                after,
                minus(depth + layout.opening_braces as nat, layout.closing_braces as nat),
                options,
                grown,
            );
        } else if options.trim_trailing_whitespace == Some(true) {
            lemma_visible_concat(written, line.ending);
            assert(visible(written + line.ending) == visible(written) + kept);
            lemma_format_visible(
                text,
                line.next,
                after,
                depth,
                options,
                written + line.ending,
            );
        } else {
            let grown = written + line.segment + line.ending;
            lemma_visible_concat(written, line.segment);
            lemma_visible_concat(written + line.segment, line.ending);
            assert(visible(grown) == visible(written) + kept);
            lemma_format_visible(text, line.next, after, depth, options, grown);
        }
        assert(visible(written) + kept + visible(text.skip(line.next)) == visible(written) + visible(
            text.skip(start),
        ));
    }
}

/// Formatting changes layout only: all characters but spaces, tabs and line endings stay, in
/// their order.
pub proof fn law_formatting_keeps_content(text: Seq<char>, options: FormattingOptions)
    ensures
        visible(formatted(text, options)) == visible(text),
        layout_sensitive(text) ==> formatted(text, options) == text,
{
    if !layout_sensitive(text) {
        let written = format_from(text, 0, Mode::Code, 0, options, Seq::empty());
        lemma_format_visible(text, 0, Mode::Code, 0, options, Seq::empty());
        assert(text.skip(0) == text);
        assert(visible(Seq::<char>::empty()) + visible(text) == visible(text));
        let newline = preferred_newline(text);
        lemma_invisible(newline);
        lemma_final_visible(written);
        lemma_visible_concat(without_final_newlines(written), newline);
        lemma_visible_concat(written, newline);
        assert(visible(written) + Seq::<char>::empty() == visible(written));
    }
}

/// The lines of a text from an index on.
pub open spec fn lines_from(text: Seq<char>, start: int) -> Seq<LineParts>
    decreases text.len() - start,
{
    if start < 0 || start >= text.len() {
        Seq::empty()
    } else {
        proof {
            lemma_newline_from(text, start);
        }
        let line = line_parts(text, start);
        seq![line] + lines_from(text, line.next)
    }
}

/// Some texts one behind the other.
pub open spec fn glued(pieces: Seq<Seq<char>>) -> Seq<char>
    decreases pieces.len(),
{
    if pieces.len() == 0 {
        Seq::empty()
    } else {
        pieces.first() + glued(pieces.drop_first())
    }
}

/// A text without the spaces and tabs at its ends.
pub open spec fn inner_text(text: Seq<char>) -> Seq<char> {
    without_trailing(without_indent(text))
}

/// Whether a text is a line with other spaces and tabs at its ends: what stands between them and
/// the line ending are the same.
pub open spec fn same_line(piece: Seq<char>, line: LineParts) -> bool {
    let body = piece.len() - line.ending.len();
    body >= 0 && piece.skip(body) == line.ending && inner_text(piece.take(body)) == inner_text(
        line.segment,
    )
}

/// Whether texts are the lines of a text, one by one, but for spaces and tabs at their ends.
pub open spec fn same_lines(pieces: Seq<Seq<char>>, lines: Seq<LineParts>) -> bool {
    pieces.len() == lines.len() && forall|i: int|
        0 <= i < lines.len() ==> same_line(#[trigger] pieces[i], lines[i])
}

/// A line as it is written where a number of braces is open, without its ending.
pub open spec fn laid_body(
    segment: Seq<char>,
    mode: Mode,
    depth: nat,
    options: FormattingOptions,
) -> Seq<char> {
    let content = line_content(segment, options);
    let layout = line_layout(content, mode).1;
    if content.len() > 0 {
        let line_depth = minus(depth, layout.leading_closing_braces as nat);
        let steps = if line_depth > 256 {
            256
        } else {
            line_depth
        };
        repeated(indent_unit(options), steps) + content
    } else if options.trim_trailing_whitespace == Some(true) {
        Seq::empty()
    } else {
        segment
    }
}

/// A line as it is written where a number of braces is open.
pub open spec fn laid_line(
    line: LineParts,
    mode: Mode,
    depth: nat,
    options: FormattingOptions,
) -> Seq<char> {
    laid_body(line.segment, mode, depth, options) + line.ending
}

/// The number of braces that are open behind a line.
pub open spec fn depth_behind(
    line: LineParts,
    mode: Mode,
    depth: nat,
    options: FormattingOptions,
) -> nat {
    let content = line_content(line.segment, options);
    let layout = line_layout(content, mode).1;
    if content.len() > 0 {
        minus(depth + layout.opening_braces as nat, layout.closing_braces as nat)
    } else {
        depth
    }
}

/// The lines of a text from an index on as they are written.
pub open spec fn laid_lines(
    text: Seq<char>,
    start: int,
    mode: Mode,
    depth: nat,
    options: FormattingOptions,
) -> Seq<Seq<char>>
    decreases text.len() - start,
{
    if start < 0 || start >= text.len() {
        Seq::empty()
    } else {
        proof {
            lemma_newline_from(text, start);
        }
        let line = line_parts(text, start);
        seq![laid_line(line, mode, depth, options)] + laid_lines(
            text,
            line.next,
            line_layout(line_content(line.segment, options), mode).0,
            depth_behind(line, mode, depth, options),
            options,
        )
    }
}

proof fn lemma_indented(lead: Seq<char>, text: Seq<char>)
    requires
        forall|i: int| 0 <= i < lead.len() ==> is_indent(#[trigger] lead[i]),
    ensures
        without_indent(lead + text) == without_indent(text),
    decreases lead.len(),
{
    if lead.len() == 0 {
        assert(lead + text == text);
    } else {
        assert(is_indent(lead[0]));
        assert((lead + text).drop_first() == lead.drop_first() + text);
        lemma_indented(lead.drop_first(), text);
    }
}

proof fn lemma_trailing_twice(text: Seq<char>)
    ensures
        without_trailing(without_trailing(text)) == without_trailing(text),
    decreases text.len(),
{
    if text.len() > 0 && is_indent(text.last()) {
        lemma_trailing_twice(text.drop_last());
    }
}

proof fn lemma_indent_twice(text: Seq<char>)
    ensures
        without_indent(without_indent(text)) == without_indent(text),
    decreases text.len(),
{
    if text.len() > 0 && is_indent(text[0]) {
        lemma_indent_twice(text.drop_first());
    }
}

/// Spaces and tabs at the end do not matter for those at the start, unless there is nothing else.
proof fn lemma_trailing_starts(text: Seq<char>)
    requires
        text.len() > 0 ==> !is_indent(text[0]),
    ensures
        without_indent(without_trailing(text)) == without_trailing(text),
        text.len() > 0 ==> without_trailing(text).len() > 0 && without_trailing(text)[0] == text[0],
    decreases text.len(),
{
    if text.len() > 0 && is_indent(text.last()) {
        assert(text.drop_last()[0] == text[0]);
        lemma_trailing_starts(text.drop_last());
    }
}

proof fn lemma_indent_starts(text: Seq<char>)
    ensures
        without_indent(text).len() > 0 ==> !is_indent(without_indent(text)[0]),
    decreases text.len(),
{
    if text.len() > 0 && is_indent(text[0]) {
        lemma_indent_starts(text.drop_first());
    }
}

/// The content of a line has the inner text of the line.
proof fn lemma_content_inner(segment: Seq<char>, options: FormattingOptions)
    ensures
        inner_text(line_content(segment, options)) == inner_text(segment),
        line_content(segment, options).len() == 0 ==> inner_text(segment).len() == 0,
{
    let bare = without_indent(segment);
    lemma_indent_starts(segment);
    lemma_indent_twice(segment);
    lemma_trailing_starts(bare);
    lemma_trailing_twice(bare);
}

proof fn lemma_laid_line(line: LineParts, mode: Mode, depth: nat, options: FormattingOptions)
    ensures
        same_line(laid_line(line, mode, depth, options), line),
{
    let piece = laid_line(line, mode, depth, options);
    let content = line_content(line.segment, options);
    let layout = line_layout(content, mode).1;
    lemma_content_inner(line.segment, options);
    if content.len() > 0 {
        let line_depth = minus(depth, layout.leading_closing_braces as nat);
        let steps = if line_depth > 256 {
            256
        } else {
            line_depth
        };
        let indent = repeated(indent_unit(options), steps);
        lemma_indent_unit(options, steps);
        lemma_indented(indent, content);
        assert(piece.take(piece.len() - line.ending.len()) == indent + content);
        assert(piece.skip(piece.len() - line.ending.len()) == line.ending);
    } else if options.trim_trailing_whitespace == Some(true) {
        assert(piece.take(0) == content);
        assert(piece.skip(0) == line.ending);
    } else {
        assert(piece.take(piece.len() - line.ending.len()) == line.segment);
        assert(piece.skip(piece.len() - line.ending.len()) == line.ending);
    }
}

proof fn lemma_laid_lines(
    text: Seq<char>,
    start: int,
    mode: Mode,
    depth: nat,
    options: FormattingOptions,
    written: Seq<char>,
)
    requires
        0 <= start <= text.len(),
    ensures
        format_from(text, start, mode, depth, options, written) == written + glued(
            laid_lines(text, start, mode, depth, options),
        ),
        same_lines(laid_lines(text, start, mode, depth, options), lines_from(text, start)),
    decreases text.len() - start,
{
    let pieces = laid_lines(text, start, mode, depth, options);
    if start >= text.len() {
        assert(written + glued(pieces) == written);
    } else {
        lemma_newline_from(text, start);
        let line = line_parts(text, start);
        let piece = laid_line(line, mode, depth, options);
        let after = line_layout(line_content(line.segment, options), mode).0;
        let behind = depth_behind(line, mode, depth, options);
        let rest = laid_lines(text, line.next, after, behind, options);
        lemma_laid_line(line, mode, depth, options);
        lemma_laid_lines(text, line.next, after, behind, options, written + piece);
        assert(pieces.first() == piece);
        assert(pieces.drop_first() == rest);
        assert(written + piece + glued(rest) == written + glued(pieces));
        let content = line_content(line.segment, options);
        if content.len() > 0 {
            assert(format_from(text, start, mode, depth, options, written) == format_from(
                text,
                line.next,
                after,
                behind,
                options,
                written + piece,
            )) by {
                let layout = line_layout(content, mode).1;
                let line_depth = minus(depth, layout.leading_closing_braces as nat);
                let steps = if line_depth > 256 {
                    256
                } else {
                    line_depth
                };
                assert(written + repeated(indent_unit(options), steps) + content + line.ending
                    == written + piece);
            }
        } else {
            assert(written + line.segment + line.ending == written + (line.segment + line.ending));
        }
        let lines = lines_from(text, start);
        let others = lines_from(text, line.next);
        assert forall|i: int| 0 <= i < lines.len() implies same_line(
            #[trigger] pieces[i],
            lines[i],
        ) by {
            if i > 0 {
                assert(pieces[i] == rest[i - 1]);
                assert(lines[i] == others[i - 1]);
            }
        }
    }
}

/// Formatting changes indentation and trailing spaces only. A formatted text is made of the lines
/// of the text, each with its own content and line ending and blank where it was blank, up to the
/// line endings at the very end, which the client decides on.
pub proof fn law_formatting_keeps_lines(text: Seq<char>, options: FormattingOptions)
    ensures
        !layout_sensitive(text) ==> exists|pieces: Seq<Seq<char>>|
            #[trigger] same_lines(pieces, lines_from(text, 0)) && formatted(text, options)
                == with_final_newline(glued(pieces), preferred_newline(text), options),
{
    if !layout_sensitive(text) {
        let pieces = laid_lines(text, 0, Mode::Code, 0, options);
        lemma_laid_lines(text, 0, Mode::Code, 0, options, Seq::empty());
        assert(Seq::<char>::empty() + glued(pieces) == glued(pieces));
        assert(same_lines(pieces, lines_from(text, 0)));
    }
}

/// Whether no line of a text ends in a carriage return of its own, spaces and tabs aside.
pub open spec fn no_stray_return(lines: Seq<LineParts>) -> bool {
    forall|i: int|
        0 <= i < lines.len() ==> (inner_text((#[trigger] lines[i]).segment).len() > 0
            ==> inner_text(lines[i].segment).last() != '\r')
}

/// Whether a text stands in one line.
spec fn one_line(text: Seq<char>) -> bool {
    forall|i: int| 0 <= i < text.len() ==> #[trigger] text[i] != '\n'
}

/// Whether no carriage return stands before a line feed or at the end.
spec fn calm(text: Seq<char>) -> bool {
    forall|i: int|
        0 <= i < text.len() && #[trigger] text[i] == '\r' ==> i + 1 < text.len() && text[i + 1]
            != '\n'
}

proof fn lemma_newline_at(text: Seq<char>, i: int, newline: int)
    requires
        0 <= i <= newline <= text.len(),
        forall|k: int| i <= k < newline ==> #[trigger] text[k] != '\n',
        newline < text.len() ==> text[newline] == '\n',
    ensures
        newline_from(text, i) == newline,
    decreases newline - i,
{
    if i < newline {
        lemma_newline_at(text, i + 1, newline);
    }
}

proof fn lemma_before_newline(text: Seq<char>, i: int)
    requires
        0 <= i <= text.len(),
    ensures
        forall|k: int| i <= k < newline_from(text, i) ==> #[trigger] text[k] != '\n',
    decreases text.len() - i,
{
    if i < text.len() && text[i] != '\n' {
        lemma_before_newline(text, i + 1);
    }
}

/// The lines of a text stand in one line each.
proof fn lemma_segment(text: Seq<char>, start: int)
    requires
        0 <= start < text.len(),
    ensures
        one_line(line_parts(text, start).segment),
        start < line_parts(text, start).next <= text.len(),
        line_parts(text, start).ending.len() == 0 ==> line_parts(text, start).next == text.len(),
        line_parts(text, start).ending == seq!['\r', '\n'] ==> uses_crlf(text),
{
    lemma_newline_from(text, start);
    lemma_before_newline(text, start);
    let newline = newline_from(text, start);
    if newline < text.len() && newline > start && text[newline - 1] == '\r' {
        assert(chars_at(text, newline - 1, '\r', '\n'));
    } else {
        assert(line_parts(text, start).ending.len() < 2);
    }
}

/// A line that has been put together is found again.
proof fn lemma_found_line(
    text: Seq<char>,
    done: Seq<char>,
    body: Seq<char>,
    ending: Seq<char>,
    rest: Seq<char>,
)
    requires
        text == done + (body + ending + rest),
        one_line(body),
        ending == seq!['\n'] || ending == seq!['\r', '\n'] || ending.len() == 0 && rest.len() == 0,
        body.len() > 0 ==> body.last() != '\r',
    ensures
        line_parts(text, done.len() as int) == (LineParts {
            segment: body,
            ending,
            next: (done.len() + body.len() + ending.len()) as int,
        }),
{
    let start = done.len() as int;
    let end = start + body.len();
    assert(forall|k: int| start <= k < end ==> #[trigger] text[k] == body[k - start]);
    let found = line_parts(text, start);
    if ending.len() == 0 {
        lemma_newline_at(text, start, end);
        assert(found.segment =~= body);
        assert(found.ending =~= ending);
    } else if ending == seq!['\n'] {
        lemma_newline_at(text, start, end);
        assert(found.segment =~= body);
        assert(found.ending =~= ending);
    } else {
        assert(text[end] == '\r' && text[end + 1] == '\n');
        lemma_newline_at(text, start, end + 1);
        assert(found.segment =~= body);
        assert(found.ending =~= ending);
    }
}

proof fn lemma_without_indent(text: Seq<char>)
    ensures
        one_line(text) ==> one_line(without_indent(text)),
        without_indent(text).len() > 0 ==> without_indent(text).last() == text.last(),
        without_indent(text).len() == 0 && text.len() > 0 ==> is_indent(text.last()),
    decreases text.len(),
{
    if text.len() > 0 && is_indent(text[0]) {
        let rest = text.drop_first();
        assert(forall|i: int| 0 <= i < rest.len() ==> #[trigger] rest[i] == text[i + 1]);
        lemma_without_indent(rest);
    }
}

proof fn lemma_without_trailing(text: Seq<char>)
    ensures
        one_line(text) ==> one_line(without_trailing(text)),
    decreases text.len(),
{
    if text.len() > 0 && is_indent(text.last()) {
        let rest = text.drop_last();
        assert(forall|i: int| 0 <= i < rest.len() ==> #[trigger] rest[i] == text[i]);
        lemma_without_trailing(rest);
    }
}

/// A line that has been written is written the same again.
proof fn lemma_laid_body(segment: Seq<char>, mode: Mode, depth: nat, options: FormattingOptions)
    requires
        one_line(segment),
        inner_text(segment).len() > 0 ==> inner_text(segment).last() != '\r',
    ensures
        one_line(laid_body(segment, mode, depth, options)),
        laid_body(segment, mode, depth, options).len() > 0 ==> laid_body(
            segment,
            mode,
            depth,
            options,
        ).last() != '\r',
        line_content(laid_body(segment, mode, depth, options), options) == line_content(
            segment,
            options,
        ),
{
    let content = line_content(segment, options);
    let layout = line_layout(content, mode).1;
    let bare = without_indent(segment);
    lemma_without_indent(segment);
    lemma_without_trailing(bare);
    lemma_indent_starts(segment);
    lemma_trailing_starts(bare);
    lemma_trailing_twice(bare);
    if content.len() > 0 {
        let line_depth = minus(depth, layout.leading_closing_braces as nat);
        let steps = if line_depth > 256 {
            256
        } else {
            line_depth
        };
        let indent = repeated(indent_unit(options), steps);
        lemma_indent_unit(options, steps);
        lemma_indented(indent, content);
        assert(without_indent(content) == content);
    }
}

/// What has been written is written the same again.
proof fn lemma_laid_again(
    text: Seq<char>,
    start: int,
    mode: Mode,
    depth: nat,
    options: FormattingOptions,
    done: Seq<char>,
)
    requires
        0 <= start <= text.len(),
        no_stray_return(lines_from(text, start)),
    ensures
        ({
            let rest = glued(laid_lines(text, start, mode, depth, options));
            glued(laid_lines(done + rest, done.len() as int, mode, depth, options)) == rest
        }),
    decreases text.len() - start,
{
    let pieces = laid_lines(text, start, mode, depth, options);
    let whole = done + glued(pieces);
    if start < text.len() {
        lemma_segment(text, start);
        let line = line_parts(text, start);
        let body = laid_body(line.segment, mode, depth, options);
        let piece = laid_line(line, mode, depth, options);
        let after = line_layout(line_content(line.segment, options), mode).0;
        let behind = depth_behind(line, mode, depth, options);
        let others = laid_lines(text, line.next, after, behind, options);
        let lines = lines_from(text, start);
        assert(lines[0] == line);
        assert(lines.drop_first() == lines_from(text, line.next));
        assert forall|i: int| 0 <= i < lines.len() - 1 implies #[trigger] lines.drop_first()[i]
            == lines[i + 1] by {}
        lemma_laid_body(line.segment, mode, depth, options);
        lemma_laid_again(text, line.next, after, behind, options, done + piece);
        assert(pieces.first() == piece);
        assert(pieces.drop_first() == others);
        assert(whole == done + (body + line.ending + glued(others)));
        assert(whole == done + piece + glued(others));
        if piece.len() > 0 {
            lemma_found_line(whole, done, body, line.ending, glued(others));
            let found = line_parts(whole, done.len() as int);
            let again = laid_lines(whole, done.len() as int, mode, depth, options);
            assert(laid_line(found, mode, depth, options) == piece);
            assert(again.first() == piece);
            assert(again.drop_first() == laid_lines(whole, found.next, after, behind, options));
        }
    }
}

/// A line ending behind the last line of a text adds itself to what is written.
proof fn lemma_laid_last(
    text: Seq<char>,
    ending: Seq<char>,
    start: int,
    mode: Mode,
    depth: nat,
    options: FormattingOptions,
)
    requires
        0 <= start <= text.len(),
        newline_from(text, start) == text.len(),
        ending == seq!['\r', '\n'] || ending == seq!['\n'] && (text.len() > 0 ==> text.last()
            != '\r'),
    ensures
        glued(laid_lines(text + ending, start, mode, depth, options)) == glued(
            laid_lines(text, start, mode, depth, options),
        ) + ending,
{
    let whole = text + ending;
    let segment = text.skip(start);
    let pieces = laid_lines(text, start, mode, depth, options);
    let ended = laid_lines(whole, start, mode, depth, options);
    let body = laid_body(segment, mode, depth, options);
    lemma_before_newline(text, start);
    let found = line_parts(whole, start);
    if ending == seq!['\r', '\n'] {
        assert(whole[text.len() as int] == '\r' && whole[text.len() as int + 1] == '\n');
        assert(forall|k: int| start <= k < text.len() ==> #[trigger] whole[k] == text[k]);
        lemma_newline_at(whole, start, text.len() as int + 1);
    } else {
        assert(whole[text.len() as int] == '\n');
        assert(forall|k: int| start <= k < text.len() ==> #[trigger] whole[k] == text[k]);
        lemma_newline_at(whole, start, text.len() as int);
        assert(start < text.len() ==> whole[text.len() - 1] != '\r');
    }
    assert(found.segment == segment);
    assert(found.ending == ending);
    assert(found.next == whole.len());
    let after = line_layout(line_content(segment, options), mode).0;
    let behind = depth_behind(found, mode, depth, options);
    let beyond = laid_lines(whole, whole.len() as int, after, behind, options);
    assert(beyond == Seq::<Seq<char>>::empty());
    assert(ended == seq![body + ending] + beyond);
    assert(ended.first() == body + ending);
    assert(ended.drop_first() == Seq::<Seq<char>>::empty());
    assert(glued(ended.drop_first()) == Seq::<char>::empty());
    assert(glued(ended) == body + ending);
    if start < text.len() {
        let line = line_parts(text, start);
        assert(line.ending == Seq::<char>::empty());
        assert(body + line.ending == body);
        let none = laid_lines(text, text.len() as int, after, behind, options);
        assert(none == Seq::<Seq<char>>::empty());
        assert(pieces == seq![body] + none);
        assert(pieces.first() == body);
        assert(pieces.drop_first() == Seq::<Seq<char>>::empty());
        assert(glued(pieces.drop_first()) == Seq::<char>::empty());
        assert(glued(pieces) == body);
    } else {
        assert(segment == Seq::<char>::empty());
        assert(without_indent(segment) == segment);
        assert(body == Seq::<char>::empty());
        assert(glued(pieces) == Seq::<char>::empty());
    }
}

/// A line ending behind a text adds itself to what is written.
proof fn lemma_laid_ending(
    text: Seq<char>,
    ending: Seq<char>,
    start: int,
    mode: Mode,
    depth: nat,
    options: FormattingOptions,
)
    requires
        0 <= start <= text.len(),
        ending == seq!['\r', '\n'] || ending == seq!['\n'] && (text.len() > 0 ==> text.last()
            != '\r'),
    ensures
        glued(laid_lines(text + ending, start, mode, depth, options)) == glued(
            laid_lines(text, start, mode, depth, options),
        ) + ending,
    decreases text.len() - start,
{
    let whole = text + ending;
    let pieces = laid_lines(text, start, mode, depth, options);
    let ended = laid_lines(whole, start, mode, depth, options);
    lemma_newline_from(text, start);
    lemma_before_newline(text, start);
    let newline = newline_from(text, start);
    let found = line_parts(whole, start);
    if newline < text.len() {
        lemma_newline_at(whole, start, newline);
        let line = line_parts(text, start);
        assert(found.segment =~= line.segment);
        let after = line_layout(line_content(line.segment, options), mode).0;
        let behind = depth_behind(line, mode, depth, options);
        let others = laid_lines(text, line.next, after, behind, options);
        lemma_laid_ending(text, ending, line.next, after, behind, options);
        assert(ended.first() == pieces.first());
        assert(pieces.drop_first() == others);
        assert(ended.drop_first() == laid_lines(whole, line.next, after, behind, options));
        assert(glued(ended) == glued(pieces) + ending);
    } else {
        lemma_laid_last(text, ending, start, mode, depth, options);
    }
}

/// Whether the lines of a text are written as they stand.
spec fn laid_out(text: Seq<char>, options: FormattingOptions) -> bool {
    glued(laid_lines(text, 0, Mode::Code, 0, options)) == text
}

proof fn lemma_final_laid_out(text: Seq<char>, options: FormattingOptions)
    requires
        laid_out(text, options),
    ensures
        laid_out(without_final_newlines(text), options),
        !ends_with_newline(without_final_newlines(text)),
        calm(text) ==> calm(without_final_newlines(text)),
    decreases text.len(),
{
    if text.len() > 0 && text.last() == '\n' {
        let crlf = text.len() > 1 && text[text.len() - 2] == '\r';
        let ending = if crlf {
            seq!['\r', '\n']
        } else {
            seq!['\n']
        };
        let rest = text.take(text.len() - ending.len());
        let written = glued(laid_lines(rest, 0, Mode::Code, 0, options));
        assert(text == rest + ending);
        assert(!crlf ==> rest == text.drop_last());
        lemma_laid_ending(rest, ending, 0, Mode::Code, 0, options);
        assert(written.len() == rest.len());
        assert forall|i: int| 0 <= i < rest.len() implies written[i] == rest[i] by {
            assert((written + ending)[i] == text[i]);
        }
        assert(written == rest);
        assert(forall|i: int| 0 <= i < rest.len() ==> #[trigger] rest[i] == text[i]);
        lemma_final_laid_out(rest, options);
    }
}

/// A text without a carriage return before a line feed gets none.
proof fn lemma_laid_calm(
    text: Seq<char>,
    start: int,
    mode: Mode,
    depth: nat,
    options: FormattingOptions,
)
    requires
        0 <= start <= text.len(),
        no_stray_return(lines_from(text, start)),
        !uses_crlf(text),
    ensures
        calm(glued(laid_lines(text, start, mode, depth, options))),
    decreases text.len() - start,
{
    if start < text.len() {
        let pieces = laid_lines(text, start, mode, depth, options);
        lemma_segment(text, start);
        let line = line_parts(text, start);
        let body = laid_body(line.segment, mode, depth, options);
        let piece = laid_line(line, mode, depth, options);
        let after = line_layout(line_content(line.segment, options), mode).0;
        let behind = depth_behind(line, mode, depth, options);
        let lines = lines_from(text, start);
        assert(lines[0] == line);
        assert(lines.drop_first() == lines_from(text, line.next));
        assert forall|i: int| 0 <= i < lines.len() - 1 implies #[trigger] lines.drop_first()[i]
            == lines[i + 1] by {}
        lemma_laid_body(line.segment, mode, depth, options);
        lemma_laid_calm(text, line.next, after, behind, options);
        let rest = glued(laid_lines(text, line.next, after, behind, options));
        assert(pieces.drop_first() == laid_lines(text, line.next, after, behind, options));
        assert(pieces.first() == piece);
        let whole = piece + rest;
        assert forall|i: int| 0 <= i < whole.len() && #[trigger] whole[i] == '\r' implies i + 1
            < whole.len() && whole[i + 1] != '\n' by {
            if i < body.len() {
                assert(body[i] == '\r');
                assert(i + 1 < body.len());
                assert(whole[i + 1] == body[i + 1]);
            } else if i >= piece.len() {
                assert(rest[i - piece.len()] == '\r');
                assert(whole[i + 1] == rest[i + 1 - piece.len()]);
            }
        }
    }
}

/// Formatting twice is formatting once, for a text in which no line ends in a carriage return of
/// its own. Where one does, cutting the spaces behind it can make a line ending of it.
pub proof fn law_formatting_settles(text: Seq<char>, options: FormattingOptions)
    requires
        no_stray_return(lines_from(text, 0)),
    ensures
        formatted(formatted(text, options), options) == formatted(text, options),
{
    let done = formatted(text, options);
    if !layout_sensitive(text) && !layout_sensitive(done) {
        let nothing = Seq::<char>::empty();
        let written = glued(laid_lines(text, 0, Mode::Code, 0, options));
        let newline = preferred_newline(text);
        lemma_laid_lines(text, 0, Mode::Code, 0, options, nothing);
        assert(nothing + written == written);
        lemma_laid_again(text, 0, Mode::Code, 0, options, nothing);
        assert(laid_out(written, options));
        lemma_final_laid_out(written, options);
        let kept = if options.trim_final_newlines == Some(true) {
            without_final_newlines(written)
        } else {
            written
        };
        if !uses_crlf(text) {
            lemma_laid_calm(text, 0, Mode::Code, 0, options);
            assert(kept.len() > 0 ==> kept.last() != '\r') by {
                if kept.len() > 0 {
                    assert(calm(kept));
                    assert(kept[kept.len() - 1] == kept.last());
                }
            }
        }
        let ended = kept + newline;
        lemma_laid_ending(kept, newline, 0, Mode::Code, 0, options);
        assert(laid_out(ended, options));
        assert(laid_out(done, options));
        lemma_laid_lines(done, 0, Mode::Code, 0, options, nothing);
        assert(nothing + done == done);
        if options.trim_final_newlines == Some(true) && done == ended {
            lemma_ended(kept, newline);
            if uses_crlf(text) {
                assert(chars_at(ended, kept.len() as int, '\r', '\n'));
            } else {
                assert forall|i: int| !chars_at(ended, i, '\r', '\n') by {
                    if chars_at(ended, i, '\r', '\n') {
                        assert(i < kept.len());
                        assert(kept[i] == '\r');
                        assert(ended[i + 1] == kept[i + 1]);
                    }
                }
            }
            assert(preferred_newline(done) == newline);
        }
    }
}

/// The line ending behind a text without one is what is taken off.
proof fn lemma_ended(text: Seq<char>, ending: Seq<char>)
    requires
        !ends_with_newline(text),
        ending == seq!['\r', '\n'] || ending == seq!['\n'] && (text.len() > 0 ==> text.last()
            != '\r'),
    ensures
        without_final_newlines(text + ending) == text,
        ends_with_newline(text + ending),
{
    let whole = text + ending;
    assert(whole.last() == '\n');
    assert(without_final_newlines(text) == text);
    if ending == seq!['\r', '\n'] {
        assert(whole[whole.len() - 2] == '\r');
        assert(whole.take(whole.len() - 2) == text);
    } else {
        assert(text.len() > 0 ==> whole[whole.len() - 2] == text.last());
        assert(whole.drop_last() == text);
    }
}

} // verus!
