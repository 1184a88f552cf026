//! Building and reading strings one scalar value at a time.

use vstd::prelude::*;
use vstd::std_specs::iter::IteratorSpec;

verus! {

/// `String::push` of the standard library, taken on trust: it appends the
/// given scalar value to the end of the string and changes nothing else of
/// it.
pub assume_specification[ std::string::String::push ](s: &mut std::string::String, c: char)
    ensures
        final(s)@ == old(s)@.push(c),
;

/// The scalar values of `text`, in order.
pub fn scalar_values(text: &str) -> (values: Vec<char>)
    ensures
        values@ == text@,
{
    let mut values: Vec<char> = Vec::new();
    let mut rest = text.chars();
    loop
        invariant
            values@ + rest.remaining() == text@,
            rest.decrease() is Some,
        decreases rest.decrease()->0,
    {
        match rest.next() {
            Some(c) => {
                values.push(c);
            },
            None => {
                return values;
            },
        }
    }
}

} // verus!
