//! Character properties that come from the Unicode tables.
//!
//! The grammar asks of a character whether it is a letter, and the
//! items it builds hold words in upper and lower case. The tables behind
//! these three questions are not part of this library, so each answer has
//! a name here and the contracts speak of that name.

use vstd::prelude::*;

verus! {

/// Whether `c` has the Unicode property Alphabetic, as `nom` decides it
/// for a `char`.
pub uninterp spec fn alphabetic(c: char) -> bool;

/// The upper-case form of a text, as `str::to_uppercase` gives it.
pub uninterp spec fn uppercased(s: Seq<char>) -> Seq<char>;

/// The lower-case form of a text, as `str::to_lowercase` gives it.
pub uninterp spec fn lowercased(s: Seq<char>) -> Seq<char>;

/// Calls `nom::AsChar::is_alpha` on a `char`, which answers with
/// `char::is_alphabetic`. The contract claims only that the answer is a
/// function of the character.
#[verifier::external_body]
pub(crate) fn is_alpha(c: char) -> (b: bool)
    ensures
        b == alphabetic(c),
{
    nom::AsChar::is_alpha(c)
}

/// Calls `str::to_uppercase`. The contract claims only that the result is
/// a function of the text.
#[verifier::external_body]
pub(crate) fn to_upper(s: &str) -> (out: String)
    ensures
        out@ == uppercased(s@),
{
    s.to_uppercase()
}

/// Calls `str::to_lowercase`. The contract claims only that the result is
/// a function of the text.
#[verifier::external_body]
pub(crate) fn to_lower(s: &str) -> (out: String)
    ensures
        out@ == lowercased(s@),
{
    s.to_lowercase()
}

/// `String::push` appends one character to the text.
pub assume_specification[ std::string::String::push ](s: &mut std::string::String, c: char)
    ensures
        final(s)@ == old(s)@.push(c),
;

} // verus!
