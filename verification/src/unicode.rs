//! Grapheme segmentation and whitespace classification, provided by the
//! `unicode_segmentation` crate and `str::trim` behind trusted contracts.

use unicode_segmentation::UnicodeSegmentation;
use vstd::prelude::*;

verus! {

/// The extended grapheme clusters of a character sequence, in order.
pub uninterp spec fn grapheme_split(s: Seq<char>) -> Seq<Seq<char>>;

/// Whether a character sequence consists entirely of whitespace.
pub uninterp spec fn blank_of(s: Seq<char>) -> bool;

/// Relies on `UnicodeSegmentation::graphemes` (extended grapheme clusters):
/// the clusters are nonempty substrings of the input whose concatenation
/// is the input itself, and they depend on the characters alone.
#[verifier::external_body]
pub(crate) fn graphemes_of(s: &str) -> (r: Vec<String>)
    ensures
        r@.map_values(|g: String| g@) == grapheme_split(s@),
        r@.map_values(|g: String| g@).flatten() == s@,
        forall|i: int| 0 <= i < r@.len() ==> #[trigger] r@[i]@.len() > 0,
{
    s.graphemes(true).map(|g| g.to_string()).collect()
}

/// Relies on `str::trim`: it removes exactly the leading and trailing
/// whitespace, so the trimmed string is empty exactly when the whole
/// string is whitespace.
#[verifier::external_body]
pub(crate) fn is_blank(g: &str) -> (r: bool)
    ensures
        r == blank_of(g@),
{
    g.trim().is_empty()
}

} // verus!
