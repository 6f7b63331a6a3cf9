//! Genome engine: the 16-byte genome type, byte-wise genome combination,
//! and the pseudo-random draw that seeds fresh genomes and selectors.

use blake2::Digest;
use vstd::prelude::*;

verus! {

/// A kitty: an asset's immutable 16-byte genome.
#[derive(Clone, Copy, Debug)]
pub struct Kitty(pub [u8; 16]);

/// One byte of a bred genome: each selector bit picks the corresponding bit
/// of `dna1` (bit set) or of `dna2` (bit clear).
pub open spec fn spec_combine_dna(dna1: u8, dna2: u8, selector: u8) -> u8 {
    (selector & dna1) | (!selector & dna2)
}

/// Combine one byte of two parent genomes under a selector byte.
pub fn combine_dna(dna1: u8, dna2: u8, selector: u8) -> (r: u8)
    ensures
        r == spec_combine_dna(dna1, dna2, selector),
{
    (selector & dna1) | (!selector & dna2)
}

/// Byte-wise combination of two parent genomes under a selector, one
/// `combine_dna` per index.
pub fn combine_genome(g1: &[u8; 16], g2: &[u8; 16], selector: &[u8; 16]) -> (r: [u8; 16])
    ensures
        forall|i: int|
            0 <= i < 16 ==> r@[i] == spec_combine_dna(g1@[i], g2@[i], selector@[i]),
{
    let mut r = [0u8; 16];
    let mut i: usize = 0;
    while i < 16
        invariant
            i <= 16,
            forall|j: int| 0 <= j < i ==> r@[j] == spec_combine_dna(g1@[j], g2@[j], selector@[j]),
        decreases 16 - i,
    {
        r[i] = combine_dna(g1[i], g2[i], selector[i]);
        i += 1;
    }
    r
}

/// The 16-byte BLAKE2b digest of a byte string. The digest itself is not
/// stated here; the trusted wrapper below returns it.
pub uninterp spec fn blake2_128_of(data: Seq<u8>) -> Seq<u8>;

/// Relies on blake2's `Blake2b128` (BLAKE2b with a 16-byte digest) through
/// `Digest::digest`: the digest is a function of the input bytes alone.
#[verifier::external_body]
fn blake2_128(data: &Vec<u8>) -> (r: [u8; 16])
    ensures
        r@ == blake2_128_of(data@),
{
    blake2::Blake2b128::digest(data.as_slice()).into()
}

/// Append `src` to `dst`.
fn append_bytes(dst: &mut Vec<u8>, src: &[u8])
    ensures
        final(dst)@ == old(dst)@ + src@,
{
    proof {
        assert(dst@ =~= dst@ + src@.subrange(0, 0));
    }
    let mut i: usize = 0;
    while i < src.len()
        invariant
            i <= src@.len(),
            dst@ == old(dst)@ + src@.subrange(0, i as int),
        decreases src@.len() - i,
    {
        dst.push(src[i]);
        proof {
            assert(dst@ =~= old(dst)@ + src@.subrange(0, i + 1));
        }
        i += 1;
    }
    proof {
        assert(dst@ =~= old(dst)@ + src@);
    }
}

/// The byte string hashed for a pseudo-random draw: the block's random seed,
/// then the caller's identity and the index of the current call within the
/// block, both little-endian.
pub open spec fn random_payload(seed: Seq<u8>, sender: u64, extrinsic_index: u32) -> Seq<u8> {
    seed + vstd::bytes::spec_u64_to_le_bytes(sender)
        + vstd::bytes::spec_u32_to_le_bytes(extrinsic_index)
}

/// Derive the per-call pseudo-random 16-byte value for `sender` from the
/// block seed and the call index. Deterministic in its inputs: adequate as a
/// tie-breaker, not as cryptographic entropy against a caller who can
/// influence call ordering within a block.
pub fn random_value(sender: u64, seed: &[u8; 32], extrinsic_index: u32) -> (r: [u8; 16])
    ensures
        r@ == blake2_128_of(random_payload(seed@, sender, extrinsic_index)),
{
    let mut payload: Vec<u8> = Vec::new();
    append_bytes(&mut payload, seed.as_slice());
    let sender_bytes = vstd::bytes::u64_to_le_bytes(sender);
    append_bytes(&mut payload, sender_bytes.as_slice());
    let index_bytes = vstd::bytes::u32_to_le_bytes(extrinsic_index);
    append_bytes(&mut payload, index_bytes.as_slice());
    proof {
        assert(payload@ =~= random_payload(seed@, sender, extrinsic_index));
    }
    blake2_128(&payload)
}

} // verus!
