//! Key derivation: the SHA-256 digest of `base || seed || owner`.

use sha2::{Digest, Sha256};
use vstd::prelude::*;

verus! {

/// Number of bytes in a key.
pub const KEY_LEN: usize = 32;

/// SHA-256 is defined for messages shorter than 2^61 bytes.
pub const SHA256_INPUT_LIMIT: u64 = 0x2000_0000_0000_0000;

/// A running SHA-256 computation: a `sha2::Sha256`, kept so that one context
/// can serve many derivations. Its state is opaque; contracts speak of it
/// through [`absorbed`].
#[verifier::external_body]
pub struct Hasher {
    inner: Sha256,
}

/// The bytes a hasher has taken in since it was created or last reset.
pub uninterp spec fn absorbed(hasher: Hasher) -> Seq<u8>;

/// The SHA-256 digest of a message.
pub uninterp spec fn sha256_digest(message: Seq<u8>) -> Seq<u8>;

/// The message that is hashed for one candidate.
pub open spec fn derivation_input(base: Seq<u8>, seed: Seq<u8>, owner: Seq<u8>) -> Seq<u8> {
    base + seed + owner
}

/// The candidate key derived from a base key, a seed and an owner key.
pub open spec fn derived_key(base: Seq<u8>, seed: Seq<u8>, owner: Seq<u8>) -> Seq<u8> {
    sha256_digest(derivation_input(base, seed, owner))
}

/// Derivation is a function of its three inputs: equal inputs give equal
/// keys.
pub proof fn lemma_derivation_deterministic(
    base: Seq<u8>,
    seed: Seq<u8>,
    owner: Seq<u8>,
    first: Seq<u8>,
    second: Seq<u8>,
)
    requires
        first == derived_key(base, seed, owner),
        second == derived_key(base, seed, owner),
    ensures
        first == second,
{
}

/// Inputs of the fixed lengths that differ anywhere are hashed as different
/// messages: the message determines each of its three parts.
pub proof fn lemma_derivation_input_injective(
    base1: Seq<u8>,
    seed1: Seq<u8>,
    owner1: Seq<u8>,
    base2: Seq<u8>,
    seed2: Seq<u8>,
    owner2: Seq<u8>,
)
    requires
        base1.len() == 32 && base2.len() == 32,
        seed1.len() == 16 && seed2.len() == 16,
        owner1.len() == 32 && owner2.len() == 32,
        derivation_input(base1, seed1, owner1) == derivation_input(base2, seed2, owner2),
    ensures
        base1 == base2,
        seed1 == seed2,
        owner1 == owner2,
{
    let m1 = derivation_input(base1, seed1, owner1);
    let m2 = derivation_input(base2, seed2, owner2);
    assert(base1 =~= m1.subrange(0, 32));
    assert(base2 =~= m2.subrange(0, 32));
    assert(seed1 =~= m1.subrange(32, 48));
    assert(seed2 =~= m2.subrange(32, 48));
    assert(owner1 =~= m1.subrange(48, 80));
    assert(owner2 =~= m2.subrange(48, 80));
}

/// `sha2::Digest::new` for `Sha256`: a context that has taken in nothing.
#[verifier::external_body]
pub(crate) fn hasher_new() -> (hasher: Hasher)
    ensures
        absorbed(hasher) == Seq::<u8>::empty(),
{
    Hasher { inner: Sha256::new() }
}

/// `sha2::Digest::update`: the context takes in `data` after what it already
/// holds. It does not panic.
#[verifier::external_body]
fn hasher_update(hasher: &mut Hasher, data: &[u8])
    requires
        absorbed(*old(hasher)).len() + data@.len() < SHA256_INPUT_LIMIT,
    ensures
        absorbed(*final(hasher)) == absorbed(*old(hasher)) + data@,
    no_unwind
{
    hasher.inner.update(data);
}

/// `sha2::Digest::finalize_reset`: returns the SHA-256 digest of everything
/// taken in and leaves the context as a new one. It does not panic on a
/// message below the limit.
#[verifier::external_body]
fn hasher_finalize_reset(hasher: &mut Hasher) -> (digest: [u8; 32])
    requires
        absorbed(*old(hasher)).len() < SHA256_INPUT_LIMIT,
    ensures
        digest@ == sha256_digest(absorbed(*old(hasher))),
        absorbed(*final(hasher)) == Seq::<u8>::empty(),
    no_unwind
{
    hasher.inner.finalize_reset().into()
}

/// Derives a candidate key with a context that has taken in nothing, and
/// leaves the context ready for the next derivation.
pub(crate) fn derive_with(
    hasher: &mut Hasher,
    base: &[u8],
    seed: &[u8],
    owner: &[u8],
) -> (key: [u8; 32])
    requires
        absorbed(*old(hasher)) == Seq::<u8>::empty(),
        base@.len() + seed@.len() + owner@.len() < SHA256_INPUT_LIMIT,
    ensures
        key@ == derived_key(base@, seed@, owner@),
        absorbed(*final(hasher)) == Seq::<u8>::empty(),
    no_unwind
{
    hasher_update(hasher, base);
    hasher_update(hasher, seed);
    hasher_update(hasher, owner);
    assert(absorbed(*hasher) =~= derivation_input(base@, seed@, owner@));
    hasher_finalize_reset(hasher)
}

/// Derives the candidate key for `(base, seed, owner)`.
pub fn derive_key(base: &[u8; 32], seed: &[u8; 16], owner: &[u8; 32]) -> (key: [u8; 32])
    ensures
        key@ == derived_key(base@, seed@, owner@),
{
    let mut hasher = hasher_new();
    derive_with(&mut hasher, base.as_slice(), seed.as_slice(), owner.as_slice())
}

} // verus!
