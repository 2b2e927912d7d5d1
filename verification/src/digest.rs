//! Digests of byte strings, computed by BLAKE3.

use vstd::prelude::*;

verus! {

/// The BLAKE3 hash of `input`, as the `blake3` crate computes it in its
/// default mode: a function of the input bytes alone.
pub uninterp spec fn blake3_hash(input: Seq<u8>) -> [u8; 32];

/// The incremental hasher of the `blake3` crate, carried as an opaque value.
#[verifier::external_type_specification]
#[verifier::external_body]
pub struct ExHasher(blake3::Hasher);

/// The bytes that a hasher has been fed so far, in the order they came.
pub uninterp spec fn hasher_input(hasher: blake3::Hasher) -> Seq<u8>;

/// Hashes `input` in one call of `blake3::hash` and hands out the 32 bytes of
/// the result. Trusted: the result is the BLAKE3 hash of the input.
#[verifier::external_body]
pub(crate) fn hash_bytes(input: &[u8]) -> (out: [u8; 32])
    ensures
        out == blake3_hash(input@),
{
    blake3::hash(input).into()
}

/// Makes a hasher for the default mode with `blake3::Hasher::new`. Trusted:
/// a new hasher has been fed nothing.
#[verifier::external_body]
pub(crate) fn hasher_new() -> (hasher: blake3::Hasher)
    ensures
        hasher_input(hasher) == Seq::<u8>::empty(),
{
    blake3::Hasher::new()
}

/// Feeds `input` to the hasher with `blake3::Hasher::update`. Trusted: the
/// bytes are added behind those fed before.
#[verifier::external_body]
pub(crate) fn hasher_update(hasher: &mut blake3::Hasher, input: &[u8])
    ensures
        hasher_input(*final(hasher)) == hasher_input(*old(hasher)) + input@,
{
    hasher.update(input);
}

/// Reads the hash out with `blake3::Hasher::finalize`. Trusted: feeding a
/// hasher piece by piece gives the hash of the pieces joined, as hashing them
/// in one call does.
#[verifier::external_body]
pub(crate) fn hasher_finalize(hasher: &blake3::Hasher) -> (out: [u8; 32])
    ensures
        out == blake3_hash(hasher_input(*hasher)),
{
    hasher.finalize().into()
}

/// Compares two digests through `blake3::Hash`, whose `==` takes the same
/// time whatever the bytes are. Trusted: it tells whether the bytes are equal.
#[verifier::external_body]
pub(crate) fn hash_eq(a: &[u8; 32], b: &[u8; 32]) -> (same: bool)
    ensures
        same == (a@ == b@),
{
    blake3::Hash::from(*a) == blake3::Hash::from(*b)
}

/// The digest of a payload.
pub fn digest(input: &[u8]) -> (out: [u8; 32])
    ensures
        out == blake3_hash(input@),
{
    hash_bytes(input)
}

/// The digest that a pair node stores: the hash of the left child's digest
/// followed by the right child's.
pub open spec fn pair_hash(left: [u8; 32], right: [u8; 32]) -> [u8; 32] {
    blake3_hash(left@ + right@)
}

/// Hashes two digests into the digest of their parent.
pub fn hash_lr(left: &[u8; 32], right: &[u8; 32]) -> (out: [u8; 32])
    ensures
        out == pair_hash(*left, *right),
{
    let mut hasher = hasher_new();
    hasher_update(&mut hasher, left.as_slice());
    hasher_update(&mut hasher, right.as_slice());
    proof {
        assert(hasher_input(hasher) =~= left@ + right@);
    }
    hasher_finalize(&hasher)
}

/// Tells whether two digests are the same, in constant time.
pub fn digest_eq(a: &[u8; 32], b: &[u8; 32]) -> (same: bool)
    ensures
        same == (*a == *b),
{
    let same = hash_eq(a, b);
    proof {
        assert((*a =~= *b) <==> (a@ == b@));
    }
    same
}

} // verus!
