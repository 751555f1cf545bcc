//! Word boundaries over a sequence of grapheme clusters: a word is a run of
//! clusters that are not entirely white space.

use crate::strings::all_white_space;
use vstd::prelude::*;

verus! {

/// From `p`, steps back over clusters that are all white space.
pub open spec fn skip_blank_back(gs: Seq<Seq<char>>, p: int) -> int
    decreases p,
{
    if p > 0 && all_white_space(gs[p - 1]) {
        skip_blank_back(gs, p - 1)
    } else {
        p
    }
}

/// From `p`, steps back over clusters that are not all white space.
pub open spec fn skip_word_back(gs: Seq<Seq<char>>, p: int) -> int
    decreases p,
{
    if p > 0 && !all_white_space(gs[p - 1]) {
        skip_word_back(gs, p - 1)
    } else {
        p
    }
}

/// From `p`, steps forward (below `bound`) over clusters that are not all white space.
pub open spec fn skip_word_fwd(gs: Seq<Seq<char>>, p: int, bound: int) -> int
    decreases bound - p,
{
    if p < bound && !all_white_space(gs[p]) {
        skip_word_fwd(gs, p + 1, bound)
    } else {
        p
    }
}

/// From `p`, steps forward (below `bound`) over clusters that are all white space.
pub open spec fn skip_blank_fwd(gs: Seq<Seq<char>>, p: int, bound: int) -> int
    decreases bound - p,
{
    if p < bound && all_white_space(gs[p]) {
        skip_blank_fwd(gs, p + 1, bound)
    } else {
        p
    }
}

/// Start of the word before `p`: back over white space, then over the word.
pub open spec fn word_left(gs: Seq<Seq<char>>, p: int) -> int {
    skip_word_back(gs, skip_blank_back(gs, p))
}

/// Start of the word after `p`: forward over the word, then over white space.
pub open spec fn word_right(gs: Seq<Seq<char>>, p: int, bound: int) -> int {
    skip_blank_fwd(gs, skip_word_fwd(gs, p, bound), bound)
}

/// Backward scans stay in `0..=p`.
pub proof fn lemma_skip_back_bounds(gs: Seq<Seq<char>>, p: int)
    requires
        p >= 0,
    ensures
        0 <= skip_blank_back(gs, p) <= p,
        0 <= skip_word_back(gs, p) <= p,
    decreases p,
{
    if p > 0 {
        lemma_skip_back_bounds(gs, p - 1);
    }
}

/// Forward scans stay in `p..=bound` (or at `p` past the bound).
pub proof fn lemma_skip_fwd_bounds(gs: Seq<Seq<char>>, p: int, bound: int)
    ensures
        p <= skip_word_fwd(gs, p, bound),
        p <= skip_blank_fwd(gs, p, bound),
        p <= bound ==> skip_word_fwd(gs, p, bound) <= bound,
        p <= bound ==> skip_blank_fwd(gs, p, bound) <= bound,
    decreases bound - p,
{
    if p < bound {
        lemma_skip_fwd_bounds(gs, p + 1, bound);
    }
}

/// From a positive position the word to the left starts strictly before it.
pub proof fn lemma_word_left_moves(gs: Seq<Seq<char>>, p: int)
    requires
        p > 0,
    ensures
        0 <= word_left(gs, p) < p,
{
    lemma_skip_back_bounds(gs, p);
    let q = skip_blank_back(gs, p);
    lemma_skip_back_bounds(gs, q);
    if q == p {
        lemma_skip_back_bounds(gs, p - 1);
    }
}

/// Below the bound the word to the right starts strictly after the position.
pub proof fn lemma_word_right_moves(gs: Seq<Seq<char>>, p: int, bound: int)
    requires
        p < bound,
    ensures
        p < word_right(gs, p, bound) <= bound,
{
    lemma_skip_fwd_bounds(gs, p, bound);
    let q = skip_word_fwd(gs, p, bound);
    lemma_skip_fwd_bounds(gs, q, bound);
    if q == p {
        lemma_skip_fwd_bounds(gs, p + 1, bound);
    }
}

} // verus!
