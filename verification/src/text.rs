//! Byte-level helpers on UTF-8 text.
use vstd::prelude::*;
use vstd::utf8::{
    encode_utf8, encode_utf8_decode_utf8, is_char_boundary,
    is_char_boundary_iff_not_is_continuation_byte, is_char_boundary_start_end_of_seq, valid_utf8,
    valid_utf8_split,
};

verus! {

/// The UTF-8 bytes of a character sequence.
pub open spec fn utf8(text: Seq<char>) -> Seq<u8> {
    encode_utf8(text)
}

/// Two texts with the same UTF-8 bytes are the same text.
pub proof fn lemma_utf8_injective(a: Seq<char>, b: Seq<char>)
    requires
        utf8(a) == utf8(b),
    ensures
        a == b,
{
    encode_utf8_decode_utf8(a);
    encode_utf8_decode_utf8(b);
}

/// Whether `a` and `b` hold the same characters.
pub fn str_eq(a: &str, b: &str) -> (same: bool)
    ensures
        same == (a@ == b@),
{
    let left = a.as_bytes();
    let right = b.as_bytes();
    if left.len() != right.len() {
        return false;
    }
    let mut i: usize = 0;
    while i < left.len()
        invariant
            left@ == utf8(a@),
            right@ == utf8(b@),
            left@.len() == right@.len(),
            i <= left@.len(),
            left@.take(i as int) == right@.take(i as int),
        decreases left@.len() - i,
    {
        if left[i] != right[i] {
            assert(left@[i as int] != right@[i as int]);
            return false;
        }
        assert(left@.take(i + 1) == left@.take(i as int).push(left@[i as int]));
        assert(right@.take(i + 1) == right@.take(i as int).push(right@[i as int]));
        i += 1;
    }
    proof {
        assert(left@.take(i as int) == left@);
        assert(right@.take(i as int) == right@);
        lemma_utf8_injective(a@, b@);
    }
    true
}

/// A boundary of a whole text that lies in its tail is a boundary of the tail.
pub proof fn lemma_boundary_in_tail(bytes: Seq<u8>, start: int, end: int)
    requires
        valid_utf8(bytes),
        is_char_boundary(bytes, start),
        is_char_boundary(bytes, end),
        0 <= start <= end <= bytes.len(),
    ensures
        valid_utf8(bytes.subrange(start, bytes.len() as int)),
        is_char_boundary(bytes.subrange(start, bytes.len() as int), end - start),
{
    let tail = bytes.subrange(start, bytes.len() as int);
    valid_utf8_split(bytes, start);
    if end == bytes.len() {
        is_char_boundary_start_end_of_seq(tail);
    } else {
        assert(tail[end - start] == bytes[end]);
        is_char_boundary_iff_not_is_continuation_byte(bytes, end);
        is_char_boundary_iff_not_is_continuation_byte(tail, end - start);
    }
}

/// `String::push` appends one character.
pub assume_specification[ String::push ](text: &mut String, c: char)
    ensures
        final(text)@ == old(text)@.push(c),
;

/// The characters of a text.
pub fn to_chars(text: &str) -> (chars: Vec<char>)
    ensures
        chars@ == text@,
{
    let mut chars: Vec<char> = Vec::new();
    for c in iter: text.chars()
        invariant
            iter.seq() == text@,
            chars@ == text@.take(iter.index() as int),
    {
        assert(text@.take(iter.index() as int + 1) == text@.take(iter.index() as int).push(c));
        chars.push(c);
    }
    assert(text@.take(text@.len() as int) == text@);
    chars
}

/// The text of a run of characters.
pub fn from_chars(chars: &[char], start: usize, end: usize) -> (text: String)
    requires
        start <= end <= chars@.len(),
    ensures
        text@ == chars@.subrange(start as int, end as int),
{
    let mut text = String::new();
    let mut i: usize = start;
    while i < end
        invariant
            start <= i <= end <= chars@.len(),
            text@ == chars@.subrange(start as int, i as int),
        decreases end - i,
    {
        text.push(chars[i]);
        i += 1;
        assert(chars@.subrange(start as int, i as int) == chars@.subrange(
            start as int,
            i - 1,
        ).push(chars@[i - 1]));
    }
    text
}

/// The parts of a text between its marks.
pub open spec fn parts_between(text: Seq<char>, mark: char) -> Seq<Seq<char>>
    decreases text.len(),
{
    if text.len() == 0 {
        seq![Seq::empty()]
    } else {
        let front = parts_between(text.drop_last(), mark);
        if text.last() == mark {
            front.push(Seq::empty())
        } else {
            front.drop_last().push(front.last().push(text.last()))
        }
    }
}

/// Splits the characters from an index on at their marks.
pub fn split_chars(chars: &[char], first: usize, mark: char) -> (parts: Vec<String>)
    requires
        first <= chars@.len(),
    ensures
        parts@.len() == parts_between(chars@.skip(first as int), mark).len(),
        forall|i: int|
            0 <= i < parts@.len() ==> (#[trigger] parts@[i])@ == parts_between(
                chars@.skip(first as int),
                mark,
            )[i],
{
    let ghost inner = chars@.skip(first as int);
    let mut parts: Vec<String> = Vec::new();
    let mut part = String::new();
    let mut i: usize = first;
    assert(inner.take(0) == Seq::<char>::empty());
    assert(part@ == Seq::<char>::empty());
    while i < chars.len()
        invariant
            first <= i <= chars@.len(),
            inner == chars@.skip(first as int),
            parts@.len() + 1 == parts_between(inner.take(i - first), mark).len(),
            forall|k: int|
                0 <= k < parts@.len() ==> (#[trigger] parts@[k])@ == parts_between(
                    inner.take(i - first),
                    mark,
                )[k],
            part@ == parts_between(inner.take(i - first), mark).last(),
        decreases chars@.len() - i,
    {
        let ghost before = inner.take(i - first);
        let ghost after = inner.take(i - first + 1);
        assert(after.drop_last() == before);
        assert(after.last() == chars@[i as int]);
        if chars[i] == mark {
            parts.push(part);
            part = String::new();
            assert(part@ == Seq::<char>::empty());
        } else {
            part.push(chars[i]);
        }
        i += 1;
    }
    assert(inner.take(i - first) == inner);
    parts.push(part);
    parts
}

/// Whether `text` begins with `prefix`.
pub open spec fn has_prefix(text: Seq<char>, prefix: Seq<char>) -> bool {
    prefix.len() <= text.len() && text.take(prefix.len() as int) == prefix
}

pub fn starts_with(text: &[char], prefix: &[char]) -> (found: bool)
    ensures
        found == has_prefix(text@, prefix@),
{
    if prefix.len() > text.len() {
        return false;
    }
    let mut i: usize = 0;
    while i < prefix.len()
        invariant
            prefix@.len() <= text@.len(),
            i <= prefix@.len(),
            forall|j: int| 0 <= j < i ==> text@[j] == prefix@[j],
        decreases prefix@.len() - i,
    {
        if text[i] != prefix[i] {
            assert(text@.take(prefix@.len() as int)[i as int] != prefix@[i as int]);
            return false;
        }
        i += 1;
    }
    assert(text@.take(prefix@.len() as int) == prefix@);
    true
}

pub fn str_starts_with(text: &str, prefix: &str) -> (found: bool)
    ensures
        found == has_prefix(text@, prefix@),
{
    let text_chars = to_chars(text);
    let prefix_chars = to_chars(prefix);
    starts_with(text_chars.as_slice(), prefix_chars.as_slice())
}

/// Lexicographic order by code point, which is the order of the UTF-8 bytes.
pub open spec fn text_lt(a: Seq<char>, b: Seq<char>) -> bool
    decreases a.len(),
{
    if b.len() == 0 {
        false
    } else if a.len() == 0 {
        true
    } else {
        a[0] < b[0] || (a[0] == b[0] && text_lt(a.drop_first(), b.drop_first()))
    }
}

/// Whether `a` comes before `b` in lexicographic order.
pub fn text_less(a: &str, b: &str) -> (less: bool)
    ensures
        less == text_lt(a@, b@),
{
    let left = to_chars(a);
    let right = to_chars(b);
    let mut i: usize = 0;
    assert(left@.skip(0) == left@);
    assert(right@.skip(0) == right@);
    while i < left.len() && i < right.len()
        invariant
            left@ == a@,
            right@ == b@,
            i <= left@.len(),
            i <= right@.len(),
            text_lt(a@, b@) == text_lt(left@.skip(i as int), right@.skip(i as int)),
        decreases left@.len() - i,
    {
        if left[i] < right[i] {
            return true;
        }
        if left[i] != right[i] {
            return false;
        }
        assert(left@.skip(i as int).drop_first() == left@.skip(i + 1));
        assert(right@.skip(i as int).drop_first() == right@.skip(i + 1));
        i += 1;
    }
    i < right.len()
}

/// No text comes before itself.
pub proof fn lemma_text_lt_irreflexive(a: Seq<char>)
    ensures
        !text_lt(a, a),
    decreases a.len(),
{
    if a.len() > 0 {
        lemma_text_lt_irreflexive(a.drop_first());
    }
}

/// The order of texts is asymmetric and total.
pub proof fn lemma_text_lt_total(a: Seq<char>, b: Seq<char>)
    ensures
        text_lt(a, b) ==> !text_lt(b, a),
        text_lt(a, b) || text_lt(b, a) || a == b,
    decreases a.len() + b.len(),
{
    if a.len() > 0 && b.len() > 0 {
        lemma_text_lt_total(a.drop_first(), b.drop_first());
        if a[0] == b[0] && a.drop_first() == b.drop_first() {
            assert(a == seq![a[0]] + a.drop_first());
            assert(b == seq![b[0]] + b.drop_first());
        }
    }
}

/// The order of texts is transitive.
pub proof fn lemma_text_lt_transitive(a: Seq<char>, b: Seq<char>, c: Seq<char>)
    requires
        text_lt(a, b),
        text_lt(b, c),
    ensures
        text_lt(a, c),
    decreases a.len(),
{
    if a.len() > 0 && a[0] == b[0] && b[0] == c[0] {
        lemma_text_lt_transitive(a.drop_first(), b.drop_first(), c.drop_first());
    }
}

/// The decimal digit of a number below ten.
pub open spec fn decimal_digit(value: int) -> char {
    if value == 0 {
        '0'
    } else if value == 1 {
        '1'
    } else if value == 2 {
        '2'
    } else if value == 3 {
        '3'
    } else if value == 4 {
        '4'
    } else if value == 5 {
        '5'
    } else if value == 6 {
        '6'
    } else if value == 7 {
        '7'
    } else if value == 8 {
        '8'
    } else {
        '9'
    }
}

/// The decimal notation of a number.
pub open spec fn decimal(value: nat) -> Seq<char>
    decreases value,
{
    if value < 10 {
        seq![decimal_digit(value as int)]
    } else {
        decimal(value / 10).push(decimal_digit((value % 10) as int))
    }
}

fn digit(value: u64) -> (c: char)
    requires
        value < 10,
    ensures
        c == decimal_digit(value as int),
{
    match value {
        0 => '0',
        1 => '1',
        2 => '2',
        3 => '3',
        4 => '4',
        5 => '5',
        6 => '6',
        7 => '7',
        8 => '8',
        _ => '9',
    }
}

/// Writes a number in decimal notation.
pub fn decimal_text(value: u64) -> (text: String)
    ensures
        text@ == decimal(value as nat),
    decreases value,
{
    if value < 10 {
        let mut text = String::new();
        text.push(digit(value));
        assert(text@ == seq![decimal_digit(value as int)]);
        text
    } else {
        let mut text = decimal_text(value / 10);
        text.push(digit(value % 10));
        text
    }
}

/// The result of `char::is_whitespace` beyond ASCII: the Unicode property White_Space.
pub uninterp spec fn wide_white_space(c: char) -> bool;

/// The result of `char::is_alphabetic` beyond ASCII: the Unicode property Alphabetic.
pub uninterp spec fn wide_alphabetic(c: char) -> bool;

/// The result of `char::is_alphanumeric` beyond ASCII: the Unicode property Alphabetic or a
/// numeric general category.
pub uninterp spec fn wide_alphanumeric(c: char) -> bool;

/// Whether a character is an ASCII character.
pub open spec fn is_ascii(c: char) -> bool {
    c as u32 <= 0x7f
}

/// Whether a character is an ASCII letter.
pub open spec fn ascii_letter(c: char) -> bool {
    'a' <= c <= 'z' || 'A' <= c <= 'Z'
}

/// Whether a character is white space.
pub open spec fn white_space(c: char) -> bool {
    if is_ascii(c) {
        c == ' ' || '\t' <= c <= '\r'
    } else {
        wide_white_space(c)
    }
}

/// Whether a character is a letter.
pub open spec fn alphabetic(c: char) -> bool {
    if is_ascii(c) {
        ascii_letter(c)
    } else {
        wide_alphabetic(c)
    }
}

/// Whether a character is a letter or a digit.
pub open spec fn alphanumeric(c: char) -> bool {
    if is_ascii(c) {
        ascii_letter(c) || '0' <= c <= '9'
    } else {
        wide_alphanumeric(c)
    }
}

/// `char::is_whitespace`, the Unicode property White_Space. Of the ASCII characters the space and
/// those from the tab to the carriage return have it.
pub assume_specification[ char::is_whitespace ](c: char) -> (found: bool)
    ensures
        is_ascii(c) ==> found == (c == ' ' || '\t' <= c <= '\r'),
        !is_ascii(c) ==> found == wide_white_space(c),
;

/// `char::is_alphabetic`, the Unicode property Alphabetic. Of the ASCII characters the letters
/// have it.
pub assume_specification[ char::is_alphabetic ](c: char) -> (found: bool)
    ensures
        is_ascii(c) ==> found == ascii_letter(c),
        !is_ascii(c) ==> found == wide_alphabetic(c),
;

/// `char::is_alphanumeric`, the Unicode property Alphabetic or a numeric general category. Of the
/// ASCII characters the letters and the digits have one of them.
pub assume_specification[ char::is_alphanumeric ](c: char) -> (found: bool)
    ensures
        is_ascii(c) ==> found == (ascii_letter(c) || '0' <= c <= '9'),
        !is_ascii(c) ==> found == wide_alphanumeric(c),
;

/// Whether all characters of a text are white space.
pub open spec fn blank(text: Seq<char>) -> bool {
    forall|i: int| 0 <= i < text.len() ==> white_space(#[trigger] text[i])
}

pub fn is_blank(text: &str) -> (found: bool)
    ensures
        found == blank(text@),
{
    let chars = to_chars(text);
    let mut i: usize = 0;
    while i < chars.len()
        invariant
            i <= chars@.len(),
            chars@ == text@,
            forall|j: int| 0 <= j < i ==> white_space(#[trigger] text@[j]),
        decreases chars@.len() - i,
    {
        if !chars[i].is_whitespace() {
            return false;
        }
        i += 1;
    }
    true
}

} // verus!
