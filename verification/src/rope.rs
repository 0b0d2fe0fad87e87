use ropey::Rope;
use vstd::prelude::*;

use crate::text::utf8_len;

verus! {

#[verifier::external_type_specification]
#[verifier::external_body]
pub struct ExRope(Rope);

/// The characters that a rope holds.
pub uninterp spec fn rope_text(r: Rope) -> Seq<char>;

/// A line break ends just before position `i` of `t`: a line feed, or a
/// carriage return that no line feed follows.
pub open spec fn break_ends_at(t: Seq<char>, i: int) -> bool {
    1 <= i <= t.len() && (t[i - 1] == '\n' || (t[i - 1] == '\r' && (i == t.len() || t[i] != '\n')))
}

/// The number of line breaks that end at or before position `i`.
pub open spec fn breaks_upto(t: Seq<char>, i: int) -> nat
    decreases i,
{
    if i <= 0 {
        0
    } else {
        breaks_upto(t, i - 1) + if break_ends_at(t, i) {
            1nat
        } else {
            0nat
        }
    }
}

/// The number of lines of `t`: one more than its line breaks.
pub open spec fn line_count(t: Seq<char>) -> nat {
    breaks_upto(t, t.len() as int) + 1
}

/// The position at which line `l` starts; one past the last line, the end.
pub open spec fn line_start(t: Seq<char>, l: int) -> int {
    if l <= 0 {
        0
    } else if l < line_count(t) {
        choose|i: int| break_ends_at(t, i) && breaks_upto(t, i) == l
    } else {
        t.len() as int
    }
}

/// The characters of line `l`, with its line break.
pub open spec fn line_text(t: Seq<char>, l: int) -> Seq<char> {
    t.subrange(line_start(t, l), line_start(t, l + 1))
}

/// The number of characters that end at or before byte `b`.
pub open spec fn chars_within(t: Seq<char>, b: int) -> nat
    decreases t.len(),
{
    if t.len() == 0 {
        0
    } else if utf8_len(t) <= b {
        t.len()
    } else {
        chars_within(t.drop_last(), b)
    }
}

/// An empty rope.
#[verifier::external_body]
pub(crate) fn rope_new() -> (r: Rope)
    ensures
        rope_text(r) == Seq::<char>::empty(),
{
    Rope::new()
}

/// A rope holding `s`.
#[verifier::external_body]
pub(crate) fn rope_from_str(s: &str) -> (r: Rope)
    ensures
        rope_text(r) == s@,
{
    Rope::from_str(s)
}

/// A copy of a rope.
#[verifier::external_body]
pub(crate) fn rope_clone(r: &Rope) -> (c: Rope)
    ensures
        rope_text(c) == rope_text(*r),
{
    r.clone()
}

/// The length of a rope in bytes.
#[verifier::external_body]
pub(crate) fn rope_len_bytes(r: &Rope) -> (n: usize)
    ensures
        n == utf8_len(rope_text(*r)),
{
    r.len_bytes()
}

/// The length of a rope in characters.
#[verifier::external_body]
pub(crate) fn rope_len_chars(r: &Rope) -> (n: usize)
    ensures
        n == rope_text(*r).len(),
{
    r.len_chars()
}

/// The number of lines of a rope.
#[verifier::external_body]
pub(crate) fn rope_len_lines(r: &Rope) -> (n: usize)
    ensures
        n == line_count(rope_text(*r)),
{
    r.len_lines()
}

/// The byte at which a line starts; one past the last line, the end.
#[verifier::external_body]
pub(crate) fn rope_line_to_byte(r: &Rope, line_idx: usize) -> (b: usize)
    requires
        line_idx <= line_count(rope_text(*r)),
    ensures
        b == utf8_len(rope_text(*r).take(line_start(rope_text(*r), line_idx as int))),
{
    r.line_to_byte(line_idx)
}

/// The line of a byte: the number of line breaks before the character that
/// holds it.
#[verifier::external_body]
pub(crate) fn rope_byte_to_line(r: &Rope, byte_idx: usize) -> (l: usize)
    requires
        byte_idx <= utf8_len(rope_text(*r)),
    ensures
        l == breaks_upto(rope_text(*r), chars_within(rope_text(*r), byte_idx as int) as int),
{
    r.byte_to_line(byte_idx)
}

/// The character that holds a byte, or the end.
#[verifier::external_body]
pub(crate) fn rope_byte_to_char(r: &Rope, byte_idx: usize) -> (c: usize)
    requires
        byte_idx <= utf8_len(rope_text(*r)),
    ensures
        c == chars_within(rope_text(*r), byte_idx as int),
{
    r.byte_to_char(byte_idx)
}

/// The text of a line, with its line break.
#[verifier::external_body]
pub(crate) fn rope_line_string(r: &Rope, line_idx: usize) -> (s: String)
    requires
        line_idx < line_count(rope_text(*r)),
    ensures
        s@ == line_text(rope_text(*r), line_idx as int),
{
    r.line(line_idx).to_string()
}

/// The text between two character positions.
#[verifier::external_body]
pub(crate) fn rope_slice_string(r: &Rope, start: usize, end: usize) -> (s: String)
    requires
        start <= end <= rope_text(*r).len(),
    ensures
        s@ == rope_text(*r).subrange(start as int, end as int),
{
    r.slice(start..end).to_string()
}

/// Inserts text at a character position.
#[verifier::external_body]
pub(crate) fn rope_insert(r: &mut Rope, char_idx: usize, text: &str)
    requires
        char_idx <= rope_text(*old(r)).len(),
    ensures
        rope_text(*final(r)) == rope_text(*old(r)).take(char_idx as int) + text@ + rope_text(
            *old(r),
        ).skip(char_idx as int),
{
    r.insert(char_idx, text)
}

/// Removes the text between two character positions.
#[verifier::external_body]
pub(crate) fn rope_remove(r: &mut Rope, start: usize, end: usize)
    requires
        start <= end <= rope_text(*old(r)).len(),
    ensures
        rope_text(*final(r)) == rope_text(*old(r)).take(start as int) + rope_text(*old(r)).skip(
            end as int,
        ),
{
    r.remove(start..end)
}

} // verus!
