//! The broker's one cryptographic primitive: a 256-bit digest, used to
//! fingerprint request inputs, to derive request ids, and to condense
//! dispute evidence.
use vstd::prelude::*;

verus! {

/// The digest that `keccak256` computes for the given bytes. The
/// function is deterministic: the digest depends on the bytes alone.
pub uninterp spec fn keccak_of(data: Seq<u8>) -> Seq<u8>;

/// Relies on `alloy_primitives::keccak256`: a 32-byte Keccak-256 digest
/// determined by the input bytes alone.
#[verifier::external_body]
pub(crate) fn keccak256_bytes(data: &Vec<u8>) -> (r: Vec<u8>)
    ensures
        r@ == keccak_of(data@),
        r@.len() == 32,
{
    alloy_primitives::keccak256(data.as_slice()).to_vec()
}

/// The big-endian byte encoding of a 64-bit value.
pub open spec fn u64_be_bytes(n: u64) -> Seq<u8> {
    seq![
        (n >> 56) as u8,
        (n >> 48) as u8,
        (n >> 40) as u8,
        (n >> 32) as u8,
        (n >> 24) as u8,
        (n >> 16) as u8,
        (n >> 8) as u8,
        n as u8,
    ]
}

/// The preimage from which a request id is derived: the big-endian
/// encodings of the ledger height, the current timestamp, and the
/// caller identity, concatenated in that order.
pub open spec fn id_preimage(height: u64, now: u64, caller: u64) -> Seq<u8> {
    u64_be_bytes(height) + u64_be_bytes(now) + u64_be_bytes(caller)
}

fn push_u64_be(out: &mut Vec<u8>, n: u64)
    ensures
        final(out)@ == old(out)@ + u64_be_bytes(n),
{
    out.push((n >> 56) as u8);
    out.push((n >> 48) as u8);
    out.push((n >> 40) as u8);
    out.push((n >> 32) as u8);
    out.push((n >> 24) as u8);
    out.push((n >> 16) as u8);
    out.push((n >> 8) as u8);
    out.push(n as u8);
    assert(final(out)@ =~= old(out)@ + u64_be_bytes(n));
}

/// The content fingerprint of an input payload: its Keccak-256 digest.
pub fn fingerprint_of(input: &Vec<u8>) -> (r: Vec<u8>)
    ensures
        r@ == keccak_of(input@),
        r@.len() == 32,
{
    keccak256_bytes(input)
}

/// Derives a fresh 256-bit request id from the ledger height, the
/// current timestamp and the caller identity.
pub fn derive_id(height: u64, now: u64, caller: u64) -> (r: Vec<u8>)
    ensures
        r@ == keccak_of(id_preimage(height, now, caller)),
        r@.len() == 32,
{
    let mut data: Vec<u8> = Vec::new();
    push_u64_be(&mut data, height);
    push_u64_be(&mut data, now);
    push_u64_be(&mut data, caller);
    assert(data@ =~= id_preimage(height, now, caller));
    keccak256_bytes(&data)
}

} // verus!
