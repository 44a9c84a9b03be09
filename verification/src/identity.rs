//! The id by which this side is known to peers and trackers.
use vstd::prelude::*;

use crate::text::is_alphanumeric;

verus! {

/// Calls `rand::Rng::sample` on the thread's generator with the distribution
/// `Alphanumeric`, which gives an ASCII letter or digit. Which one is a matter
/// of chance.
#[verifier::external_body]
fn random_alphanumeric() -> (byte: u8)
    ensures
        is_alphanumeric(byte),
{
    rand::Rng::sample(&mut rand::thread_rng(), &rand::distributions::Alphanumeric)
}

/// An id of twenty letters and digits, each chosen at random.
pub fn generate_peer_id() -> (peer_id: [u8; 20])
    ensures
        forall|i: int| 0 <= i < 20 ==> is_alphanumeric(#[trigger] peer_id@[i]),
{
    let mut peer_id: [u8; 20] = [0u8; 20];
    let mut i: usize = 0;
    while i < 20
        invariant
            i <= 20,
            peer_id@.len() == 20,
            forall|j: int| 0 <= j < i ==> is_alphanumeric(#[trigger] peer_id@[j]),
        decreases 20 - i,
    {
        peer_id[i] = random_alphanumeric();
        i += 1;
    }
    peer_id
}

} // verus!
