//! Strings as sequences of characters.

use crate::std_specs::{char_is_whitespace, is_scalar_value};
use vstd::prelude::*;
use vstd::string::{StrSliceExecFns, StringExecFns};

verus! {

/// Copies the characters of a string into a vector, so that each can be had
/// by its place.
pub fn chars_of(text: &str) -> (chars: Vec<char>)
    ensures
        chars@ == text@,
{
    let mut chars: Vec<char> = Vec::new();
    for c in it: text.chars()
        invariant
            chars@ == text@.take(it.index() as int),
            it.seq() == text@,
    {
        chars.push(c);
    }
    chars
}

/// Tells whether two strings hold the same characters.
pub fn same_text(left: &str, right: &str) -> (same: bool)
    ensures
        same == (left@ == right@),
{
    let left_chars = chars_of(left);
    let right_chars = chars_of(right);
    if left_chars.len() != right_chars.len() {
        return false;
    }
    let mut i: usize = 0;
    while i < left_chars.len()
        invariant
            i <= left_chars.len(),
            left_chars.len() == right_chars.len(),
            left_chars@ == left@,
            right_chars@ == right@,
            forall|j: int| 0 <= j < i ==> left@[j] == right@[j],
        decreases left_chars.len() - i,
    {
        if left_chars[i] != right_chars[i] {
            return false;
        }
        i += 1;
    }
    assert(left@ == right@);
    true
}

/// `pattern` stands in `text` at the place `at`.
pub open spec fn occurs_at(text: Seq<char>, at: int, pattern: Seq<char>) -> bool {
    0 <= at && at + pattern.len() <= text.len() && text.subrange(at, at + pattern.len())
        == pattern
}

/// What follows the place `from` in `text`, with `with` in the place of each
/// occurrence of `pattern`. The occurrences are taken from left to right, and
/// none overlaps the one before it.
pub open spec fn replaced_from(text: Seq<char>, from: int, pattern: Seq<char>, with: Seq<char>)
    -> Seq<char>
    decreases text.len() - from,
{
    if from < 0 || from >= text.len() {
        Seq::empty()
    } else if pattern.len() > 0 && occurs_at(text, from, pattern) {
        with + replaced_from(text, from + pattern.len(), pattern, with)
    } else {
        seq![text[from]] + replaced_from(text, from + 1, pattern, with)
    }
}

/// `text` with `with` in the place of each occurrence of `pattern`.
pub open spec fn replaced(text: Seq<char>, pattern: Seq<char>, with: Seq<char>) -> Seq<char> {
    replaced_from(text, 0, pattern, with)
}

/// Tells whether `pattern` stands in `text` at the place `at`.
fn matches_at(text: &Vec<char>, at: usize, pattern: &Vec<char>) -> (found: bool)
    requires
        at <= text.len(),
    ensures
        found == occurs_at(text@, at as int, pattern@),
{
    if pattern.len() > text.len() - at {
        return false;
    }
    let mut i: usize = 0;
    while i < pattern.len()
        invariant
            i <= pattern.len(),
            at + pattern.len() <= text.len(),
            forall|j: int| 0 <= j < i ==> text@[at + j] == pattern@[j],
        decreases pattern.len() - i,
    {
        if text[at + i] != pattern[i] {
            assert(text@.subrange(at as int, at + pattern.len())[i as int] != pattern@[i as int]);
            return false;
        }
        i += 1;
    }
    assert(text@.subrange(at as int, at + pattern.len()) == pattern@);
    true
}

/// Writes `text` anew, with `with` in the place of each occurrence of
/// `pattern`, from left to right.
pub fn replace_all(text: &str, pattern: &str, with: &str) -> (out: String)
    requires
        pattern@.len() > 0,
    ensures
        out@ == replaced(text@, pattern@, with@),
{
    let chars = chars_of(text);
    let wanted = chars_of(pattern);
    let mut out = String::new();
    let mut i: usize = 0;
    while i < chars.len()
        invariant
            i <= chars.len(),
            chars@ == text@,
            wanted@ == pattern@,
            wanted.len() > 0,
            out@ + replaced_from(text@, i as int, pattern@, with@) == replaced(
                text@,
                pattern@,
                with@,
            ),
        decreases chars.len() - i,
    {
        let ghost before = out@;
        if matches_at(&chars, i, &wanted) {
            out.append(with);
            assert(before + (with@ + replaced_from(text@, i + wanted.len(), pattern@, with@))
                == (before + with@) + replaced_from(text@, i + wanted.len(), pattern@, with@));
            i += wanted.len();
        } else {
            out.push(chars[i]);
            assert(before + (seq![text@[i as int]] + replaced_from(
                text@,
                i + 1,
                pattern@,
                with@,
            )) == before.push(text@[i as int]) + replaced_from(text@, i + 1, pattern@, with@));
            i += 1;
        }
    }
    assert(out@ + Seq::<char>::empty() == out@);
    out
}

/// The place of the first character of `text`, at or after `from`, that is no
/// whitespace; the length of `text` if there is none.
pub open spec fn text_start(text: Seq<char>, from: int) -> int
    decreases text.len() - from,
{
    if 0 <= from < text.len() && char_is_whitespace(text[from]) {
        text_start(text, from + 1)
    } else {
        from
    }
}

/// The place after the last character of `text`, before `to`, that is no
/// whitespace; `low` if there is none from `low` on.
pub open spec fn text_end(text: Seq<char>, low: int, to: int) -> int
    decreases to - low,
{
    if low < to <= text.len() && 0 <= low && char_is_whitespace(text[to - 1]) {
        text_end(text, low, to - 1)
    } else {
        to
    }
}

/// `text` without the whitespace at its start and at its end.
pub open spec fn trimmed(text: Seq<char>) -> Seq<char> {
    let start = text_start(text, 0);
    text.subrange(start, text_end(text, start, text.len() as int))
}

/// Gives the part of `text` between the whitespace at its start and the
/// whitespace at its end.
pub fn trim(text: &str) -> (inner: &str)
    ensures
        inner@ == trimmed(text@),
{
    let chars = chars_of(text);
    let mut start: usize = 0;
    while start < chars.len() && chars[start].is_whitespace()
        invariant
            start <= chars.len(),
            text_start(chars@, start as int) == text_start(chars@, 0),
        decreases chars.len() - start,
    {
        start += 1;
    }
    let mut end: usize = chars.len();
    while start < end && chars[end - 1].is_whitespace()
        invariant
            start <= end <= chars.len(),
            text_end(chars@, start as int, end as int) == text_end(
                chars@,
                start as int,
                chars.len() as int,
            ),
        decreases end - start,
    {
        end -= 1;
    }
    text.substring_char(start, end)
}

/// The character of a decimal digit.
pub open spec fn digit_char(digit: nat) -> char
    recommends
        digit < 10,
{
    ('0' as u32 + digit) as char
}

/// The decimal numeral of `n`, without leading zeros.
pub open spec fn decimal(n: nat) -> Seq<char>
    decreases n,
{
    if n < 10 {
        seq![digit_char(n)]
    } else {
        decimal(n / 10).push(digit_char(n % 10))
    }
}

/// Appends the decimal numeral of `n`.
pub fn write_decimal(text: &mut String, n: usize)
    ensures
        final(text)@ == old(text)@ + decimal(n as nat),
    decreases n,
{
    if n >= 10 {
        write_decimal(text, n / 10);
    }
    let digit: u32 = (n % 10) as u32;
    assert(is_scalar_value((48 + digit) as u32));
    let c = char::from_u32(48 + digit).unwrap();
    let ghost before = text@;
    text.push(c);
    assert(c == digit_char((n % 10) as nat));
    if n >= 10 {
        assert(text@ == old(text)@ + decimal((n / 10) as nat).push(c));
    } else {
        assert(text@ == old(text)@ + seq![c]);
    }
}

} // verus!
