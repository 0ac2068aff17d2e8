//! Finding the first position at which something holds.

use vstd::prelude::*;

verus! {

/// The position of the first `true` in `hits` at or after `from`.
pub open spec fn first_hit(hits: Seq<bool>, from: int) -> Option<int>
    decreases hits.len() - from,
{
    if from < 0 || from >= hits.len() {
        None
    } else if hits[from] {
        Some(from)
    } else {
        first_hit(hits, from + 1)
    }
}

/// A first hit lies in range, is a hit, and has no hit before it.
pub proof fn lemma_first_hit_found(hits: Seq<bool>, from: int, at: int)
    requires
        first_hit(hits, from) == Some(at),
    ensures
        0 <= from <= at < hits.len(),
        hits[at],
        forall|j: int| from <= j < at ==> !#[trigger] hits[j],
    decreases hits.len() - from,
{
    if 0 <= from < hits.len() && !hits[from] {
        lemma_first_hit_found(hits, from + 1, at);
    }
}

/// Where there is no first hit there is no hit.
pub proof fn lemma_first_hit_missing(hits: Seq<bool>, from: int)
    requires
        0 <= from,
        first_hit(hits, from) is None,
    ensures
        forall|j: int| from <= j < hits.len() ==> !#[trigger] hits[j],
    decreases hits.len() - from,
{
    if from < hits.len() {
        lemma_first_hit_missing(hits, from + 1);
    }
}

/// A hit with no hit before it is the first hit.
pub proof fn lemma_first_hit_at(hits: Seq<bool>, from: int, at: int)
    requires
        0 <= from <= at < hits.len(),
        hits[at],
        forall|j: int| from <= j < at ==> !#[trigger] hits[j],
    ensures
        first_hit(hits, from) == Some(at),
    decreases at - from,
{
    if from < at {
        assert(!hits[from]);
        lemma_first_hit_at(hits, from + 1, at);
    }
}

/// Where nothing is a hit there is no first hit.
pub proof fn lemma_first_hit_none(hits: Seq<bool>, from: int)
    requires
        forall|j: int| from <= j < hits.len() ==> !#[trigger] hits[j],
    ensures
        first_hit(hits, from) is None,
    decreases hits.len() - from,
{
    if 0 <= from < hits.len() {
        assert(!hits[from]);
        lemma_first_hit_none(hits, from + 1);
    }
}

} // verus!
