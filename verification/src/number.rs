//! How the text of a number reads.

use vstd::prelude::*;
use crate::chars::{char_digit_value, digit_value, is_digit};

verus! {

/// The number that a sequence of decimal digits reads as.
pub open spec fn decimal_value(digits: Seq<char>) -> nat
    decreases digits.len(),
{
    if digits.len() == 0 {
        0
    } else {
        10 * decimal_value(digits.drop_last()) + digit_value(digits.last())
    }
}

/// Whether `text` is a digit followed by digits among which exactly one `.`
/// stands.
pub open spec fn is_decimal_text(text: Seq<char>) -> bool {
    exists|dot: int|
        0 < dot < text.len() && #[trigger] text[dot] == '.' && forall|i: int|
            0 <= i < text.len() && i != dot ==> is_digit(#[trigger] text[i])
}

/// `n` as a `usize`, where it is one.
pub open spec fn in_range(n: nat) -> Option<usize> {
    if n <= usize::MAX {
        Some(n as usize)
    } else {
        None
    }
}

/// Reading one more digit makes the number no smaller.
pub proof fn lemma_decimal_value_push(digits: Seq<char>, c: char)
    ensures
        decimal_value(digits.push(c)) == 10 * decimal_value(digits) + digit_value(c),
        decimal_value(digits.push(c)) >= decimal_value(digits),
{
    assert(digits.push(c).drop_last() =~= digits);
}

/// The number read so far, with the digit `c` read after it: `None` as soon
/// as the number no longer fits in `usize`.
pub(crate) fn push_digit(value: Option<usize>, c: char) -> (r: Option<usize>)
    requires
        is_digit(c),
    ensures
        r == match value {
            Some(v) => in_range((10 * v + digit_value(c)) as nat),
            None => None,
        },
{
    match value {
        Some(v) => match v.checked_mul(10) {
            Some(tens) => tens.checked_add(char_digit_value(c)),
            None => None,
        },
        None => None,
    }
}

} // verus!
