//! Character classes used by the literal scanners.

use vstd::prelude::*;

verus! {

/// `c` is an ASCII letter or an underscore: what may start an identifier.
pub open spec fn is_alpha_spec(c: char) -> bool {
    (97 <= c as u32 && c as u32 <= 122) || (65 <= c as u32 && c as u32 <= 90) || c == '_'
}

/// `c` is an ASCII decimal digit.
pub open spec fn is_digit_spec(c: char) -> bool {
    48 <= c as u32 && c as u32 <= 57
}

/// `c` may continue an identifier: letter, underscore or digit.
pub open spec fn is_alnum_spec(c: char) -> bool {
    is_alpha_spec(c) || is_digit_spec(c)
}

/// The numeric value of a digit character ('0' maps to 0, ... '9' to 9).
pub open spec fn digit_value(c: char) -> nat
    recommends
        is_digit_spec(c),
{
    (c as u32 - 48) as nat
}

pub fn is_alpha(c: char) -> (r: bool)
    ensures
        r == is_alpha_spec(c),
{
    let u = c as u32;
    (97 <= u && u <= 122) || (65 <= u && u <= 90) || c == '_'
}

pub fn is_digit(c: char) -> (r: bool)
    ensures
        r == is_digit_spec(c),
{
    let u = c as u32;
    48 <= u && u <= 57
}

pub fn is_alnum(c: char) -> (r: bool)
    ensures
        r == is_alnum_spec(c),
{
    is_alpha(c) || is_digit(c)
}

} // verus!
