//! What the library takes on trust about the standard library's strings.

use vstd::prelude::*;

verus! {

/// `String::push` appends one character at the end of the string and
/// leaves the characters before it as they were.
pub assume_specification[ String::push ](s: &mut String, ch: char)
    ensures
        final(s)@ == old(s)@.push(ch),
;

} // verus!
