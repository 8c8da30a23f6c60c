//! Searchers from outside this crate, consulted as references.
//!
//! Nothing here is proved: each function hands a question to code that
//! this crate does not verify. Their answers are therefore never taken on
//! trust by the searchers; they are only compared with them.

use vstd::prelude::*;
use crate::window::occurs;

verus! {

/// The position that the Boyer-Moore-MagicLen byte searcher reports as the
/// first match of `pattern` in `text`, or `None` where it reports no match.
///
/// This names the answer of `boyer_moore_magiclen::BMByte::find_first_in`
/// on a searcher built by `BMByte::from` from the pattern. The answer
/// depends on the two byte sequences alone. Whether it is the right answer
/// is not assumed anywhere.
pub uninterp spec fn magiclen_first_match(pattern: Seq<u8>, text: Seq<u8>) -> Option<usize>;

/// Asks the Boyer-Moore-MagicLen byte searcher for the first match of
/// `pattern` in `text`.
///
/// Calls `boyer_moore_magiclen::BMByte::from` and then
/// `BMByte::find_first_in`. `BMByte::from` returns `None` for an empty
/// pattern and for nothing else, so a non-empty pattern is required. The
/// contract only gives the answer its name.
#[verifier::external_body]
pub(crate) fn magiclen_find_first(pattern: &[u8], text: &[u8]) -> (position: Option<usize>)
    requires
        pattern@.len() > 0,
    ensures
        position == magiclen_first_match(pattern@, text@),
{
    boyer_moore_magiclen::BMByte::from(pattern.to_vec()).unwrap().find_first_in(text.to_vec())
}

/// Asks the standard library whether `needle` is a substring of `haystack`.
///
/// Calls `str::contains` with a string pattern, which is documented to
/// return true exactly if the pattern matches a sub-slice of the string.
/// The contract states that over the characters of the two strings.
#[verifier::external_body]
pub(crate) fn str_contains(haystack: &str, needle: &str) -> (found: bool)
    ensures
        found == occurs(haystack@, needle@),
{
    haystack.contains(needle)
}

} // verus!
