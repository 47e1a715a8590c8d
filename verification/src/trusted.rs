//! What this crate takes on trust from the standard library.
//!
//! Three functions consult the Unicode character tables, which Verus cannot
//! look into. Each table is given a name here, and the function that
//! consults it is assumed to return exactly what the name stands for;
//! nothing is assumed of what the tables hold. The fourth item is the
//! meaning of `String::push`. Everything else in the crate is proved.

use vstd::prelude::*;

verus! {

/// Whether `c` has the Unicode `White_Space` property.
pub uninterp spec fn unicode_whitespace(c: char) -> bool;

/// Whether `c` is alphabetic or numeric in the sense of Unicode.
pub uninterp spec fn unicode_alphanumeric(c: char) -> bool;

/// The lowercase mapping of `c`: the characters that `c` turns into, in
/// order, without regard to context or language.
pub uninterp spec fn unicode_lowercase(c: char) -> Seq<char>;

/// Assumed of `char::is_whitespace`: it answers by the `White_Space` table
/// and by nothing else.
pub assume_specification[ char::is_whitespace ](c: char) -> (r: bool)
    ensures
        r == unicode_whitespace(c),
;

/// Assumed of `char::is_alphanumeric`: it answers by the alphabetic and
/// numeric tables and by nothing else.
pub assume_specification[ char::is_alphanumeric ](c: char) -> (r: bool)
    ensures
        r == unicode_alphanumeric(c),
;

/// Assumed of `String::push`: the character is appended at the end and the
/// rest of the string stays as it was.
pub assume_specification[ String::push ](s: &mut String, c: char)
    ensures
        final(s)@ == old(s)@.push(c),
;

/// Collects what `char::to_lowercase` yields. Assumed: the iterator yields
/// the lowercase mapping of `c`, which depends on `c` alone.
#[verifier::external_body]
pub(crate) fn lowercase_chars(c: char) -> (lower: Vec<char>)
    ensures
        lower@ == unicode_lowercase(c),
{
    c.to_lowercase().collect()
}

} // verus!
