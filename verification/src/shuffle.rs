use vstd::prelude::*;

use crate::addr::PeerAddr;
use rand::seq::SliceRandom;

verus! {

/// Relies on rand's SliceRandom::shuffle: an in-place Fisher-Yates
/// permutation; the elements are rearranged and none is added or lost.
#[verifier::external_body]
pub fn shuffle_addrs(v: &mut Vec<PeerAddr>)
    ensures
        final(v)@.len() == old(v)@.len(),
        final(v)@.to_multiset() == old(v)@.to_multiset(),
{
    v.shuffle(&mut rand::thread_rng());
}

} // verus!
