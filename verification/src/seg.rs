//! Grapheme-cluster segmentation.
//!
//! The whole language counts positions in grapheme clusters, never in bytes,
//! so every stage first splits its text into a vector of graphemes and works
//! on plain indices from then on.

use vstd::prelude::*;

verus! {

/// The sequence of grapheme clusters of a text, in order. What a grapheme
/// cluster is takes the full segmentation rules to state, and depends on the
/// characters alone, so the result is only named here; `split_graphemes`
/// relates it to the value the segmenter returns.
pub uninterp spec fn graphemes_of(s: Seq<char>) -> Seq<Seq<char>>;

/// Relies on unicode_segmentation's `UnicodeSegmentation::graphemes` (with
/// extended clusters): the iterator yields consecutive non-empty subslices of
/// the text that together cover it exactly, each one grapheme cluster. There
/// are fewer clusters than `usize::MAX`, since each takes at least one byte
/// of a slice no longer than `isize::MAX`.
#[verifier::external_body]
pub fn split_graphemes(s: &str) -> (r: Vec<String>)
    ensures
        r.deep_view() == graphemes_of(s@),
        r.deep_view().flatten() == s@,
        forall|i: int| 0 <= i < r.deep_view().len() ==> r.deep_view()[i].len() > 0,
        r.deep_view().len() < usize::MAX,
{
    unicode_segmentation::UnicodeSegmentation::graphemes(s, true)
        .map(|g| g.to_string())
        .collect()
}

/// The text of the grapheme span `[a, b)`.
pub open spec fn text_of(gs: Seq<Seq<char>>, a: int, b: int) -> Seq<char>
    recommends
        0 <= a <= b <= gs.len(),
{
    gs.subrange(a, b).flatten()
}

/// Concatenates the graphemes `gs[a..b]` into one string.
pub fn concat_range(gs: &Vec<String>, a: usize, b: usize) -> (r: String)
    requires
        a <= b <= gs.len(),
    ensures
        r@ == text_of(gs.deep_view(), a as int, b as int),
{
    let ghost all = gs.deep_view();
    let mut out = String::new();
    proof {
        assert(all.subrange(a as int, a as int) =~= Seq::<Seq<char>>::empty());
        assert(out@ =~= all.subrange(a as int, a as int).flatten());
    }
    let mut i = a;
    while i < b
        invariant
            a <= i <= b <= gs.len(),
            all == gs.deep_view(),
            out@ == all.subrange(a as int, i as int).flatten(),
        decreases b - i,
    {
        out.append(gs[i].as_str());
        proof {
            broadcast use Seq::lemma_flatten_push;

            assert(all.subrange(a as int, i + 1 as int) =~= all.subrange(
                a as int,
                i as int,
            ).push(all[i as int]));
        }
        i += 1;
    }
    out
}

} // verus!
