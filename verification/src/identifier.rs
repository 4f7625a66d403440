//! Identifiers and the characters they are made of.

use vstd::prelude::*;
use vstd::string::*;
use crate::unicode::{alphabetic, alphanumeric};

verus! {

/// Whether `c` may open an identifier: a letter or an underscore.
pub open spec fn valid_first_char(c: char) -> bool {
    c == '_' || alphabetic(c)
}

/// Whether `c` may stand inside an identifier, after its first character:
/// a letter, a digit or an underscore.
pub open spec fn valid_char(c: char) -> bool {
    c == '_' || alphanumeric(c)
}

/// Whether `name` is a well-formed identifier: not empty, opened by a valid
/// first character, and continued by valid characters only.
pub open spec fn valid_name(name: Seq<char>) -> bool {
    &&& name.len() > 0
    &&& valid_first_char(name[0])
    &&& forall|i: int| 1 <= i < name.len() ==> valid_char(#[trigger] name[i])
}

/// Checks whether a character is a valid first character for an identifier.
pub fn is_valid_first_char(c: char) -> (b: bool)
    ensures
        b == valid_first_char(c),
{
    c == '_' || c.is_alphabetic()
}

/// Checks whether a character is allowed inside an identifier (not counting
/// the first character).
pub fn is_valid_char(c: char) -> (b: bool)
    ensures
        b == valid_char(c),
{
    c == '_' || c.is_alphanumeric()
}

/// An identifier: a name that is known to be well formed.
#[derive(Debug)]
pub struct Identifier {
    name: String,
}

impl View for Identifier {
    type V = Seq<char>;

    closed spec fn view(&self) -> Seq<char> {
        self.name@
    }
}

impl Clone for Identifier {
    fn clone(&self) -> (identifier: Identifier)
        ensures
            identifier == *self,
    {
        proof {
            use_type_invariant(self);
        }
        Identifier { name: self.name.clone() }
    }
}

impl Identifier {
    #[verifier::type_invariant]
    spec fn well_formed(&self) -> bool {
        valid_name(self.name@)
    }

    /// Creates a new identifier from a name.
    /// Returns `None` if `name` is not a well-formed identifier.
    pub fn from_name(name: String) -> (ident: Option<Identifier>)
        ensures
            ident is Some <==> valid_name(name@),
            ident matches Some(id) ==> id@ == name@,
    {
        let text = name.as_str();
        let len = text.unicode_len();
        if len == 0 {
            return None;
        }
        if !is_valid_first_char(text.get_char(0)) {
            return None;
        }
        let mut i: usize = 1;
        while i < len
            invariant
                1 <= i <= len,
                len == text@.len(),
                text@ == name@,
                forall|j: int| 1 <= j < i ==> valid_char(#[trigger] text@[j]),
            decreases len - i,
        {
            if !is_valid_char(text.get_char(i)) {
                return None;
            }
            i += 1;
        }
        Some(Identifier { name })
    }

    /// The identifier's text.
    pub fn name(&self) -> (text: &str)
        ensures
            text@ == self@,
            valid_name(text@),
    {
        proof {
            use_type_invariant(self);
        }
        self.name.as_str()
    }
}

} // verus!
