//! A short list of layer indices, kept in a `smallvec::SmallVec` so that the
//! usual one or two layers of a session need no allocation.

use vstd::prelude::*;

verus! {

/// Indices into the layers of a compositor, in blending order. The list
/// is a `smallvec::SmallVec`, of which nothing is known but through
/// `picked`.
#[verifier::external_body]
pub struct LayerPicks {
    inner: smallvec::SmallVec<[usize; 4]>,
}

/// The indices that a list holds, first to last.
pub uninterp spec fn picked(picks: LayerPicks) -> Seq<usize>;

/// Calls `SmallVec::new`. Trusted: the new list is empty.
#[verifier::external_body]
pub(crate) fn picks_new() -> (picks: LayerPicks)
    ensures
        picked(picks) == Seq::<usize>::empty(),
{
    LayerPicks { inner: smallvec::SmallVec::new() }
}

/// Calls `SmallVec::push`. Trusted: the index is appended.
#[verifier::external_body]
pub(crate) fn picks_push(picks: &mut LayerPicks, index: usize)
    requires
        picked(*old(picks)).len() < usize::MAX,
    ensures
        picked(*final(picks)) == picked(*old(picks)).push(index),
{
    picks.inner.push(index)
}

/// Calls `SmallVec::len`. Trusted: it counts the indices held.
#[verifier::external_body]
pub(crate) fn picks_len(picks: &LayerPicks) -> (len: usize)
    ensures
        len == picked(*picks).len(),
{
    picks.inner.len()
}

/// Indexes the `SmallVec` as a slice. Trusted: position `at` holds the
/// index that was pushed there.
#[verifier::external_body]
pub(crate) fn picks_get(picks: &LayerPicks, at: usize) -> (index: usize)
    requires
        at < picked(*picks).len(),
    ensures
        index == picked(*picks)[at as int],
{
    picks.inner[at]
}

impl LayerPicks {
    /// How many layers were picked.
    pub fn len(&self) -> (len: usize)
        ensures
            len == picked(*self).len(),
    {
        picks_len(self)
    }

    /// The picked indices as a vector.
    pub fn to_vec(&self) -> (out: Vec<usize>)
        ensures
            out@ == picked(*self),
    {
        let mut out: Vec<usize> = Vec::new();
        let n = picks_len(self);
        let mut i: usize = 0;
        while i < n
            invariant
                n == picked(*self).len(),
                i <= n,
                out@ == picked(*self).take(i as int),
            decreases n - i,
        {
            out.push(picks_get(self, i));
            assert(out@ =~= picked(*self).take(i as int + 1));
            i += 1;
        }
        assert(out@ =~= picked(*self));
        out
    }
}

} // verus!
