//! The few places where the library leans on code Verus does not read:
//! Unicode case mapping and the white-space property from std, and the
//! regex engine. Each outside result that depends on its arguments alone
//! is given a name, and the contracts of the callers speak of that name.

use vstd::prelude::*;

verus! {

/// The lower-case form `str::to_lowercase` returns; a function of the
/// characters alone.
pub uninterp spec fn lower_of(s: Seq<char>) -> Seq<char>;

/// The upper-case form `str::to_uppercase` returns; a function of the
/// characters alone.
pub uninterp spec fn upper_of(s: Seq<char>) -> Seq<char>;

/// Whether the character has the Unicode white-space property, as
/// `char::is_whitespace` decides it.
pub uninterp spec fn is_white(c: char) -> bool;

/// Whether `regex::Regex::new` accepts the pattern; a function of the
/// pattern text alone.
pub uninterp spec fn regex_compiles(pattern: Seq<char>) -> bool;

/// Whether the pattern matches somewhere in the text, as
/// `regex::Regex::is_match` decides it; a function of pattern and text
/// alone.
pub uninterp spec fn regex_matches(pattern: Seq<char>, text: Seq<char>) -> bool;

/// Relies on `str::to_lowercase`: the result is determined by the
/// characters of the receiver.
#[verifier::external_body]
pub fn lowercase(s: &str) -> (r: String)
    ensures
        r@ == lower_of(s@),
{
    s.to_lowercase()
}

/// Relies on `str::to_uppercase`: the result is determined by the
/// characters of the receiver.
#[verifier::external_body]
pub fn uppercase(s: &str) -> (r: String)
    ensures
        r@ == upper_of(s@),
{
    s.to_uppercase()
}

/// Relies on `char::is_whitespace`: a property of the character alone.
#[verifier::external_body]
pub fn white_char(c: char) -> (r: bool)
    ensures
        r == is_white(c),
{
    c.is_whitespace()
}

/// Relies on `regex::Regex::new`, which accepts or rejects a pattern by
/// its text alone, and on `regex::Regex::is_match`, which decides by the
/// compiled pattern and the haystack alone. `None` reports a pattern the
/// engine rejects.
#[verifier::external_body]
pub fn regex_is_match(pattern: &str, text: &str) -> (r: Option<bool>)
    ensures
        r is Some <==> regex_compiles(pattern@),
        r matches Some(b) ==> b == regex_matches(pattern@, text@),
{
    match regex::Regex::new(pattern) {
        Ok(re) => Some(re.is_match(text)),
        Err(_) => None,
    }
}

} // verus!
