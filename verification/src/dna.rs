//! Kitty DNA: how it is drawn from randomness and how two parents' DNA mix.
use vstd::prelude::*;

use parity_scale_codec::Encode;

verus! {

/// A kitty is nothing more than its 16 bytes of DNA.
#[derive(Clone, Copy, Debug, PartialEq, Eq)]
pub struct Kitty(pub [u8; 16]);

/// The byte that `combine_dna` produces: the bits of `dna1` where the selector is
/// set, and the bits of `dna2` where it is clear.
pub open spec fn spec_combine_dna(dna1: u8, dna2: u8, selector: u8) -> u8 {
    (selector & dna1) | (!selector & dna2)
}

/// Mixes one byte of each parent's DNA under a random selector byte.
pub fn combine_dna(dna1: u8, dna2: u8, selector: u8) -> (r: u8)
    ensures
        r == spec_combine_dna(dna1, dna2, selector),
{
    (selector & dna1) | (!selector & dna2)
}

/// The DNA of a child: every byte combined from the parents' bytes at the same
/// position under the selector byte at that position.
pub open spec fn spec_child_dna(dna1: Seq<u8>, dna2: Seq<u8>, selector: Seq<u8>) -> Seq<u8> {
    Seq::new(16, |i: int| spec_combine_dna(dna1[i], dna2[i], selector[i]))
}

/// A child's DNA has 16 bytes, and its byte `i` has the bits of the first
/// parent's byte `i` where selector byte `i` is set and the bits of the second
/// parent's byte `i` where it is clear, for every position, the last included.
pub proof fn lemma_child_dna_bytes(dna1: Seq<u8>, dna2: Seq<u8>, selector: Seq<u8>)
    requires
        dna1.len() == 16,
        dna2.len() == 16,
        selector.len() == 16,
    ensures
        spec_child_dna(dna1, dna2, selector).len() == 16,
        forall|i: int|
            0 <= i < 16 ==> #[trigger] spec_child_dna(dna1, dna2, selector)[i] == (selector[i]
                & dna1[i]) | (!selector[i] & dna2[i]),
{
}

/// Combines two parents' DNA byte by byte under the selector.
pub fn child_dna(dna1: &[u8; 16], dna2: &[u8; 16], selector: &[u8; 16]) -> (r: [u8; 16])
    ensures
        r@ == spec_child_dna(dna1@, dna2@, selector@),
        forall|i: int|
            0 <= i < 16 ==> #[trigger] r[i] == (selector[i] & dna1[i]) | (!selector[i] & dna2[i]),
{
    let mut new_dna = [0u8; 16];
    let mut i: usize = 0;
    while i < 16
        invariant
            0 <= i <= 16,
            new_dna@.len() == 16,
            forall|j: int| 0 <= j < i ==> new_dna@[j] == spec_combine_dna(dna1[j], dna2[j], selector[j]),
        decreases 16 - i,
    {
        new_dna[i] = combine_dna(dna1[i], dna2[i], selector[i]);
        i = i + 1;
    }
    assert(new_dna@ =~= spec_child_dna(dna1@, dna2@, selector@));
    new_dna
}

/// The first `n` digits of `x` in base 256, least significant first.
pub open spec fn le_bytes(x: nat, n: nat) -> Seq<u8>
    decreases n,
{
    if n == 0 {
        Seq::empty()
    } else {
        seq![(x % 256) as u8] + le_bytes(x / 256, (n - 1) as nat)
    }
}

/// The SCALE encoding of an optional `u32`: a zero byte, or a one byte followed by
/// the value in four little-endian bytes.
pub open spec fn scale_option_u32(o: Option<u32>) -> Seq<u8> {
    match o {
        None => seq![0u8],
        Some(v) => seq![1u8] + le_bytes(v as nat, 4),
    }
}

/// The SCALE encoding of the payload that a kitty's randomness is hashed from:
/// the random seed's 32 bytes, the account in eight little-endian bytes, and the
/// optional extrinsic index.
pub open spec fn seed_payload(seed: Seq<u8>, sender: u64, extrinsic_index: Option<u32>) -> Seq<u8> {
    seed + le_bytes(sender as nat, 8) + scale_option_u32(extrinsic_index)
}

/// The 128-bit Blake2 hash of a byte sequence.
pub uninterp spec fn blake2_128(data: Seq<u8>) -> Seq<u8>;

/// Calls `Encode::encode` of parity-scale-codec on the tuple
/// `(seed, sender, extrinsic_index)`. The contract states the SCALE encoding that
/// the crate documents for it: a fixed-size array is its elements in order, an
/// integer is its little-endian bytes, an `Option` is a tag byte (0 or 1) followed
/// by the value, and a tuple is its fields one after another.
#[verifier::external_body]
fn encode_seed_payload(seed: &[u8; 32], sender: u64, extrinsic_index: Option<u32>) -> (r: Vec<u8>)
    ensures
        r@ == seed_payload(seed@, sender, extrinsic_index),
{
    (seed, sender, extrinsic_index).encode()
}

/// Calls `sp_io::hashing::blake2_128`. The contract only names the result: it is
/// the 128-bit Blake2 hash of the data, a function of the data alone.
#[verifier::external_body]
fn hash_blake2_128(data: &[u8]) -> (r: [u8; 16])
    ensures
        r@ == blake2_128(data@),
{
    sp_io::hashing::blake2_128(data)
}

/// The 16 random bytes drawn for `sender`: the Blake2-128 hash of the SCALE-encoded
/// random seed, sender and extrinsic index.
pub fn random_value(seed: &[u8; 32], sender: u64, extrinsic_index: Option<u32>) -> (r: [u8; 16])
    ensures
        r@ == blake2_128(seed_payload(seed@, sender, extrinsic_index)),
{
    let payload = encode_seed_payload(seed, sender, extrinsic_index);
    hash_blake2_128(payload.as_slice())
}

} // verus!
