//! Extended grapheme clusters, as segmented by `unicode-segmentation`.

use vstd::prelude::*;
use unicode_segmentation::UnicodeSegmentation;

use crate::strs::{concat_all, string_views};

verus! {

/// The extended grapheme clusters of `s`, in order.
pub uninterp spec fn graphemes(s: Seq<char>) -> Seq<Seq<char>>;

/// Calls `UnicodeSegmentation::graphemes(s, true)`: the extended grapheme
/// clusters of `s`; being a segmentation of `s`, they are non-empty and
/// concatenate to `s`.
#[verifier::external_body]
pub fn grapheme_strings(s: &str) -> (r: Vec<String>)
    ensures
        string_views(r@) == graphemes(s@),
        concat_all(string_views(r@)) == s@,
        forall|i: int| 0 <= i < r@.len() ==> (#[trigger] r@[i])@.len() > 0,
{
    s.graphemes(true).map(String::from).collect()
}

} // verus!
