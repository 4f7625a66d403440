//! Character classes of the Unicode standard, as the standard library reports them.
//!
//! The tables behind these classes are large and change with the Unicode version
//! that the standard library was built with, so each class is a name here and
//! nothing more is claimed of it.

use vstd::prelude::*;

verus! {

/// Whether `c` has the Unicode property `Alphabetic`.
pub uninterp spec fn alphabetic(c: char) -> bool;

/// Whether `c` is alphabetic or numeric in the sense of Unicode.
pub uninterp spec fn alphanumeric(c: char) -> bool;

/// Whether `c` has the Unicode property `White_Space`.
pub uninterp spec fn whitespace(c: char) -> bool;

/// `char::is_alphabetic` of the standard library: not verified here, its answer
/// is taken to be the class `alphabetic`.
pub assume_specification[ char::is_alphabetic ](c: char) -> (b: bool)
    ensures
        b == alphabetic(c),
;

/// `char::is_alphanumeric` of the standard library: not verified here, its answer
/// is taken to be the class `alphanumeric`.
pub assume_specification[ char::is_alphanumeric ](c: char) -> (b: bool)
    ensures
        b == alphanumeric(c),
;

/// `char::is_whitespace` of the standard library: not verified here, its answer
/// is taken to be the class `whitespace`.
pub assume_specification[ char::is_whitespace ](c: char) -> (b: bool)
    ensures
        b == whitespace(c),
;

} // verus!
