//! Grapheme-cluster segmentation of text, as computed by `unicode_segmentation`.

use unicode_segmentation::UnicodeSegmentation;
use vstd::prelude::*;

verus! {

/// The extended grapheme clusters of a string, in order, as
/// `UnicodeSegmentation::graphemes(s, true)` hands them out.
pub uninterp spec fn grapheme_clusters(s: Seq<char>) -> Seq<Seq<char>>;

/// Number of extended grapheme clusters of `s`.
pub open spec fn grapheme_len(s: Seq<char>) -> nat {
    grapheme_clusters(s).len()
}

/// Splits `s` into its extended grapheme clusters.
///
/// Calls `UnicodeSegmentation::graphemes(s, true)`. The result is named by
/// `grapheme_clusters`; beside the name, the contract states what the crate's
/// iterator shows: it hands out consecutive non-empty slices of `s` from its
/// first byte to its last, so the clusters concatenate back to `s`.
#[verifier::external_body]
pub(crate) fn graphemes(s: &str) -> (r: Vec<String>)
    ensures
        r@.map_values(|g: String| g@) == grapheme_clusters(s@),
        r@.map_values(|g: String| g@).flatten() == s@,
        forall|i: int| 0 <= i < r@.len() ==> #[trigger] r@[i]@.len() > 0,
{
    s.graphemes(true).map(|g| g.to_string()).collect()
}

} // verus!
