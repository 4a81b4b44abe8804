//! Specifications for the few functions of `std` that the crate calls and
//! that `vstd` leaves without one. Nothing here is proved: each item states
//! what the documentation of `std` says.

use vstd::prelude::*;

verus! {

/// True for the integers that are Unicode scalar values: every code point but
/// the surrogates.
pub open spec fn is_scalar_value(i: u32) -> bool {
    i <= 0xD7FF || 0xE000 <= i <= 0x10FFFF
}

/// `char::from_u32` gives the character with the code point `i`, or `None`
/// where `i` is no Unicode scalar value.
pub assume_specification[ char::from_u32 ](i: u32) -> (r: Option<char>)
    ensures
        r == if is_scalar_value(i) {
            Some(i as char)
        } else {
            None::<char>
        },
;

/// `String::push` appends the character to the end of the string.
pub assume_specification[ String::push ](s: &mut String, ch: char)
    ensures
        final(s)@ == old(s)@.push(ch),
;

/// Whether Unicode puts `c` into one of its general categories for numbers
/// (decimal digits, letter numbers, other numbers), as `char::is_numeric`
/// reports it.
pub uninterp spec fn char_is_numeric(c: char) -> bool;

/// `char::is_numeric` looks the character up in the tables of Unicode that
/// `std` carries; the result is a function of the character alone.
pub assume_specification[ char::is_numeric ](c: char) -> (r: bool)
    ensures
        r == char_is_numeric(c),
;

/// Whether `c` has the Unicode property `White_Space`, as
/// `char::is_whitespace` reports it.
pub uninterp spec fn char_is_whitespace(c: char) -> bool;

/// `char::is_whitespace` looks the character up in the tables of Unicode that
/// `std` carries; the result is a function of the character alone.
pub assume_specification[ char::is_whitespace ](c: char) -> (r: bool)
    ensures
        r == char_is_whitespace(c),
;

} // verus!
