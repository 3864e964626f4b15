//! The durable checkpoint layout: an 8-byte little-endian recurrence state
//! followed by a 16-byte little-endian iteration counter.  A reader must
//! recognise a corrupt or partial snapshot instead of trusting it, so the
//! decoder accepts exactly 24 bytes and nothing else.

use vstd::prelude::*;
use vstd::bytes::{
    lemma_auto_spec_u128_to_from_le_bytes, lemma_auto_spec_u64_to_from_le_bytes,
    spec_u128_from_le_bytes, spec_u128_to_le_bytes, spec_u64_from_le_bytes, spec_u64_to_le_bytes,
    u128_from_le_bytes, u128_to_le_bytes, u64_from_le_bytes, u64_to_le_bytes,
};
use vstd::slice::slice_subrange;

verus! {

/// The 24 bytes that a snapshot of (state, iteration) persists as.
pub open spec fn spec_checkpoint_bytes(state: u64, iteration: u128) -> Seq<u8> {
    spec_u64_to_le_bytes(state) + spec_u128_to_le_bytes(iteration)
}

/// What a reader recovers from a byte string: the snapshot it encodes, or
/// nothing when the length betrays corruption or truncation.
pub open spec fn spec_decode_checkpoint(bytes: Seq<u8>) -> Option<(u64, u128)> {
    if bytes.len() == 24 {
        Some(
            (
                spec_u64_from_le_bytes(bytes.subrange(0, 8)),
                spec_u128_from_le_bytes(bytes.subrange(8, 24)),
            ),
        )
    } else {
        None
    }
}

/// Serialise a snapshot into the checkpoint layout.
pub fn encode_checkpoint(state: u64, iteration: u128) -> (r: Vec<u8>)
    ensures
        r@ == spec_checkpoint_bytes(state, iteration),
        r@.len() == 24,
{
    let mut out = u64_to_le_bytes(state);
    let mut tail = u128_to_le_bytes(iteration);
    out.append(&mut tail);
    proof {
        lemma_auto_spec_u128_to_from_le_bytes();
    }
    out
}

/// Recover a snapshot from bytes read back from storage, rejecting any
/// string that is not exactly one well-formed checkpoint.
pub fn decode_checkpoint(bytes: &[u8]) -> (r: Option<(u64, u128)>)
    ensures
        r == spec_decode_checkpoint(bytes@),
{
    if bytes.len() != 24 {
        return None;
    }
    let state = u64_from_le_bytes(slice_subrange(bytes, 0, 8));
    let iteration = u128_from_le_bytes(slice_subrange(bytes, 8, 24));
    Some((state, iteration))
}

/// Decoding is the inverse of encoding: a snapshot written and read back is
/// recovered unchanged.
pub proof fn lemma_checkpoint_round_trip(state: u64, iteration: u128)
    ensures
        spec_decode_checkpoint(spec_checkpoint_bytes(state, iteration)) == Some(
            (state, iteration),
        ),
{
    lemma_auto_spec_u64_to_from_le_bytes();
    lemma_auto_spec_u128_to_from_le_bytes();
    let b = spec_checkpoint_bytes(state, iteration);
    assert(b.subrange(0, 8) =~= spec_u64_to_le_bytes(state));
    assert(b.subrange(8, 24) =~= spec_u128_to_le_bytes(iteration));
}

} // verus!
