//! Ranges of chapters, written as `N-M`.

use crate::text::chars_of;
use vstd::prelude::*;

verus! {

/// `c` is an ASCII digit.
pub open spec fn is_digit(c: char) -> bool {
    '0' <= c <= '9'
}

/// `text` is made of ASCII digits, one at least.
pub open spec fn is_number(text: Seq<char>) -> bool {
    text.len() > 0 && forall|i: int| 0 <= i < text.len() ==> is_digit(#[trigger] text[i])
}

/// The number that the digits of `text` write in decimal.
pub open spec fn number_value(text: Seq<char>) -> nat
    decreases text.len(),
{
    if text.len() == 0 {
        0
    } else {
        (number_value(text.drop_last()) * 10 + (text.last() as u32 - '0' as u32)) as nat
    }
}

/// The place of the first `-` of `text` at or after `from`; the length of
/// `text` if there is none.
pub open spec fn dash_place(text: Seq<char>, from: int) -> int
    decreases text.len() - from,
{
    if 0 <= from < text.len() && text[from] != '-' {
        dash_place(text, from + 1)
    } else {
        from
    }
}

/// The two numbers of a range `N-M`: a number, a dash and a number, with
/// nothing before, between or after. `None` for every other text.
pub open spec fn number_range(text: Seq<char>) -> Option<(nat, nat)> {
    let dash = dash_place(text, 0);
    if 0 <= dash < text.len() && is_number(text.take(dash)) && is_number(text.skip(dash + 1)) {
        Some((number_value(text.take(dash)), number_value(text.skip(dash + 1))))
    } else {
        None
    }
}

/// Why a text is no range of chapters.
#[derive(Clone, Copy, Debug, PartialEq, Eq, Structural)]
pub enum RangeError {
    /// The text is not of the form `N-M`.
    Format,
    /// A number of the range is larger than the machine can hold.
    TooLarge,
    /// The range starts at zero, or starts after its end.
    Order,
}

/// What `validate_number_range` gives for a text.
pub open spec fn validated_range(text: Seq<char>) -> Result<(usize, usize), RangeError> {
    match number_range(text) {
        None => Err(RangeError::Format),
        Some((start, end)) => if start > usize::MAX || end > usize::MAX {
            Err(RangeError::TooLarge)
        } else if start > end || start < 1 {
            Err(RangeError::Order)
        } else {
            Ok((start as usize, end as usize))
        },
    }
}

/// The number of the first digits of a text is no larger than that of all.
proof fn lemma_number_value_grows(text: Seq<char>, len: int)
    requires
        is_number(text),
        0 <= len <= text.len(),
    ensures
        number_value(text.take(len)) <= number_value(text),
    decreases text.len() - len,
{
    if len < text.len() {
        lemma_number_value_grows(text, len + 1);
        assert(text.take(len + 1).drop_last() == text.take(len));
        assert(is_digit(text[len]));
    } else {
        assert(text.take(len) == text);
    }
}

/// Tells whether the characters from `from` up to `to` are digits, one at
/// least.
fn is_number_between(text: &Vec<char>, from: usize, to: usize) -> (number: bool)
    requires
        from <= to <= text.len(),
    ensures
        number == is_number(text@.subrange(from as int, to as int)),
{
    if from == to {
        return false;
    }
    let mut i: usize = from;
    while i < to
        invariant
            from <= i <= to <= text.len(),
            forall|j: int| from <= j < i ==> is_digit(#[trigger] text@[j]),
        decreases to - i,
    {
        if !(text[i] >= '0' && text[i] <= '9') {
            assert(!is_digit(text@.subrange(from as int, to as int)[i - from]));
            return false;
        }
        i += 1;
    }
    assert forall|j: int| 0 <= j < to - from implies is_digit(
        #[trigger] text@.subrange(from as int, to as int)[j],
    ) by {
        assert(is_digit(text@[from + j]));
    }
    true
}

/// Reads the number that the digits from `from` up to `to` write; `None`
/// where it is larger than the machine can hold.
fn read_number(text: &Vec<char>, from: usize, to: usize) -> (value: Option<usize>)
    requires
        from <= to <= text.len(),
        is_number(text@.subrange(from as int, to as int)),
    ensures
        match value {
            Some(value) => value == number_value(text@.subrange(from as int, to as int)),
            None => number_value(text@.subrange(from as int, to as int)) > usize::MAX,
        },
{
    let ghost digits = text@.subrange(from as int, to as int);
    let mut value: usize = 0;
    let mut i: usize = from;
    assert(digits.take(0) == Seq::<char>::empty());
    while i < to
        invariant
            from <= i <= to <= text.len(),
            digits == text@.subrange(from as int, to as int),
            is_number(digits),
            value == number_value(digits.take(i - from)),
        decreases to - i,
    {
        assert(is_digit(digits[i - from]));
        let digit: usize = (text[i] as u32 - '0' as u32) as usize;
        proof {
            assert(digits.take(i + 1 - from).drop_last() == digits.take(i - from));
            lemma_number_value_grows(digits, i + 1 - from);
        }
        if value > (usize::MAX - digit) / 10 {
            return None;
        }
        value = value * 10 + digit;
        i += 1;
    }
    assert(digits.take(to - from) == digits);
    Some(value)
}

/// Reads a range of chapters and checks it: the text must be of the form
/// `N-M`, both numbers must fit the machine, and the range must start at one
/// or later and not after its end.
pub fn validate_number_range(text: &str) -> (range: Result<(usize, usize), RangeError>)
    ensures
        range == validated_range(text@),
{
    let chars = chars_of(text);
    let mut dash: usize = 0;
    while dash < chars.len() && chars[dash] != '-'
        invariant
            dash <= chars.len(),
            dash_place(chars@, dash as int) == dash_place(chars@, 0),
        decreases chars.len() - dash,
    {
        dash += 1;
    }
    if dash >= chars.len() {
        return Err(RangeError::Format);
    }
    assert(chars@.take(dash as int) == chars@.subrange(0, dash as int));
    assert(chars@.skip(dash + 1) == chars@.subrange(dash + 1, chars.len() as int));
    if !is_number_between(&chars, 0, dash) || !is_number_between(&chars, dash + 1, chars.len()) {
        return Err(RangeError::Format);
    }
    let start = read_number(&chars, 0, dash);
    let end = read_number(&chars, dash + 1, chars.len());
    match (start, end) {
        (Some(start), Some(end)) => {
            if start > end || start < 1 {
                Err(RangeError::Order)
            } else {
                Ok((start, end))
            }
        },
        _ => Err(RangeError::TooLarge),
    }
}

/// The volumes to make, as the places of the first and after the last,
/// counted from zero: the one volume asked for, or all of them. `None` where
/// the book has no volume of the number asked for.
pub open spec fn selected_volumes(wanted: Option<usize>, volumes: usize) -> Option<(usize, usize)> {
    match wanted {
        Some(number) => if 1 <= number <= volumes {
            Some(((number - 1) as usize, number))
        } else {
            None
        },
        None => Some((0, volumes)),
    }
}

/// Picks the volumes to make out of the `volumes` of a book: the one with
/// the number `wanted`, counted from one, or all where none is asked for.
pub fn select_volumes(wanted: Option<usize>, volumes: usize) -> (span: Option<(usize, usize)>)
    ensures
        span == selected_volumes(wanted, volumes),
{
    match wanted {
        Some(number) => {
            if number < 1 || number > volumes {
                None
            } else {
                Some((number - 1, number))
            }
        },
        None => Some((0, volumes)),
    }
}

/// The chapters to take, as the places of the first and after the last,
/// counted from zero: those of the range, or all of them. `None` where the
/// range ends after the last chapter.
pub open spec fn selected_chapters(range: Option<(usize, usize)>, chapters: usize) -> Option<
    (usize, usize),
> {
    match range {
        Some((start, end)) => if end > chapters {
            None
        } else {
            Some(((start - 1) as usize, end))
        },
        None => Some((0, chapters)),
    }
}

/// Picks the chapters to take out of the `chapters` of a volume: those of the
/// range, counted from one and with both ends, or all where there is no
/// range. The range must start at one or later, as a validated range does.
pub fn select_chapters(range: Option<(usize, usize)>, chapters: usize) -> (span: Option<
    (usize, usize),
>)
    requires
        range matches Some((start, _)) ==> start >= 1,
    ensures
        span == selected_chapters(range, chapters),
{
    match range {
        Some((start, end)) => {
            if end > chapters {
                None
            } else {
                Some((start - 1, end))
            }
        },
        None => Some((0, chapters)),
    }
}

/// Reads the two numbers of a range `N-M`. The text must be such a range,
/// with numbers that fit the machine; `validate_number_range` tells whether
/// it is.
pub fn parse_number_range(text: &str) -> (range: (usize, usize))
    requires
        number_range(text@) matches Some((start, end)) && start <= usize::MAX && end
            <= usize::MAX,
    ensures
        number_range(text@) == Some((range.0 as nat, range.1 as nat)),
{
    let chars = chars_of(text);
    let mut dash: usize = 0;
    while dash < chars.len() && chars[dash] != '-'
        invariant
            dash <= chars.len(),
            dash_place(chars@, dash as int) == dash_place(chars@, 0),
        decreases chars.len() - dash,
    {
        dash += 1;
    }
    assert(chars@.take(dash as int) == chars@.subrange(0, dash as int));
    assert(chars@.skip(dash + 1) == chars@.subrange(dash + 1, chars.len() as int));
    let start = read_number(&chars, 0, dash);
    let end = read_number(&chars, dash + 1, chars.len());
    (start.unwrap(), end.unwrap())
}

} // verus!
