//! What the library takes from the standard library's strings.

use vstd::prelude::*;

verus! {

/// `String::push` of the standard library: not verified here, it is taken to
/// append the one character to the end of the string.
pub assume_specification[ String::push ](s: &mut String, c: char)
    ensures
        final(s)@ == old(s)@.push(c),
;

} // verus!
