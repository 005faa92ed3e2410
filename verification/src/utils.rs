//! Commitment and nullifier bookkeeping, and the note hashes.
//!
//! Both sets are append-only vectors of 32-byte values with duplicate
//! rejection: once recorded, an entry is present forever.

use vstd::prelude::*;

use sha3::{Digest, Keccak256};

use crate::error::TornadoError;

verus! {

/// Whether some entry of `s` holds exactly the bytes `x`.
pub open spec fn contains_bytes32(s: Seq<[u8; 32]>, x: Seq<u8>) -> bool {
    exists|i: int| 0 <= i < s.len() && #[trigger] s[i]@ == x
}

/// Byte equality of two 32-byte values.
pub(crate) fn eq32(a: &[u8; 32], b: &[u8; 32]) -> (r: bool)
    ensures
        r == (a@ == b@),
{
    let mut i: usize = 0;
    while i < 32
        invariant
            i <= 32,
            forall|k: int| 0 <= k < i ==> a@[k] == b@[k],
        decreases 32 - i,
    {
        if a[i] != b[i] {
            return false;
        }
        i = i + 1;
    }
    proof {
        assert(a@ =~= b@);
    }
    true
}

/// Whether a commitment is already recorded.
pub fn commitment_exists(commitments: &Vec<[u8; 32]>, commitment: &[u8; 32]) -> (r: bool)
    ensures
        r == contains_bytes32(commitments@, commitment@),
{
    let mut i: usize = 0;
    while i < commitments.len()
        invariant
            i <= commitments@.len(),
            forall|k: int| 0 <= k < i ==> #[trigger] commitments@[k]@ != commitment@,
        decreases commitments@.len() - i,
    {
        if eq32(&commitments[i], commitment) {
            proof {
                assert(commitments@[i as int]@ == commitment@);
            }
            return true;
        }
        i = i + 1;
    }
    false
}

/// Whether a nullifier hash is already recorded as spent.
pub fn nullifier_hash_exists(nullifier_hashes: &Vec<[u8; 32]>, nullifier_hash: &[u8; 32]) -> (r:
    bool)
    ensures
        r == contains_bytes32(nullifier_hashes@, nullifier_hash@),
{
    let mut i: usize = 0;
    while i < nullifier_hashes.len()
        invariant
            i <= nullifier_hashes@.len(),
            forall|k: int| 0 <= k < i ==> #[trigger] nullifier_hashes@[k]@ != nullifier_hash@,
        decreases nullifier_hashes@.len() - i,
    {
        if eq32(&nullifier_hashes[i], nullifier_hash) {
            proof {
                assert(nullifier_hashes@[i as int]@ == nullifier_hash@);
            }
            return true;
        }
        i = i + 1;
    }
    false
}

/// Record a commitment, rejecting duplicates. The set only ever grows.
pub fn add_commitment(commitments: &mut Vec<[u8; 32]>, commitment: &[u8; 32]) -> (r: Result<
    (),
    TornadoError,
>)
    ensures
        r is Ok <==> !contains_bytes32(old(commitments)@, commitment@),
        r is Ok ==> final(commitments)@ == old(commitments)@.push(*commitment),
        r is Err ==> *final(commitments) == *old(commitments) && r == Err::<(), TornadoError>(
            TornadoError::CommitmentAlreadyExists,
        ),
{
    if commitment_exists(commitments, commitment) {
        return Err(TornadoError::CommitmentAlreadyExists);
    }
    commitments.push(*commitment);
    Ok(())
}

/// Record a spent nullifier hash, rejecting duplicates. The set only ever
/// grows: a nullifier hash, once present, stays present.
pub fn add_nullifier_hash(nullifier_hashes: &mut Vec<[u8; 32]>, nullifier_hash: &[u8; 32]) -> (r:
    Result<(), TornadoError>)
    ensures
        r is Ok <==> !contains_bytes32(old(nullifier_hashes)@, nullifier_hash@),
        r is Ok ==> final(nullifier_hashes)@ == old(nullifier_hashes)@.push(*nullifier_hash),
        r is Err ==> *final(nullifier_hashes) == *old(nullifier_hashes) && r == Err::<
            (),
            TornadoError,
        >(TornadoError::NullifierAlreadySpent),
{
    if nullifier_hash_exists(nullifier_hashes, nullifier_hash) {
        return Err(TornadoError::NullifierAlreadySpent);
    }
    nullifier_hashes.push(*nullifier_hash);
    Ok(())
}

/// What Keccak-256 returns on a byte string. The digest is a function of the
/// bytes alone; its definition is the reference permutation, not restated
/// here.
pub uninterp spec fn keccak256_of(data: Seq<u8>) -> Seq<u8>;

/// Relies on sha3's `Keccak256` (`Digest::update` / `finalize`): the
/// Keccak-256 digest of `data`, which is always 32 bytes.
#[verifier::external_body]
fn keccak256(data: &[u8]) -> (r: [u8; 32])
    ensures
        r@ == keccak256_of(data@),
{
    let mut hasher = Keccak256::new();
    hasher.update(data);
    hasher.finalize().into()
}

/// The commitment of a note: the one-way image of its nullifier and secret.
pub fn compute_commitment(nullifier: &[u8; 32], secret: &[u8; 32]) -> (r: [u8; 32])
    ensures
        r@ == keccak256_of(nullifier@ + secret@),
{
    let mut data: Vec<u8> = Vec::new();
    let mut i: usize = 0;
    while i < 32
        invariant
            i <= 32,
            data@ == nullifier@.subrange(0, i as int),
        decreases 32 - i,
    {
        data.push(nullifier[i]);
        i = i + 1;
    }
    let mut j: usize = 0;
    while j < 32
        invariant
            j <= 32,
            data@ == nullifier@.subrange(0, 32) + secret@.subrange(0, j as int),
        decreases 32 - j,
    {
        data.push(secret[j]);
        j = j + 1;
    }
    proof {
        assert(data@ =~= nullifier@ + secret@);
    }
    keccak256(data.as_slice())
}

/// The nullifier hash of a note: the one-way image of its nullifier alone,
/// revealed on withdrawal to prevent double-spending.
pub fn compute_nullifier_hash(nullifier: &[u8; 32]) -> (r: [u8; 32])
    ensures
        r@ == keccak256_of(nullifier@),
{
    let mut data: Vec<u8> = Vec::new();
    let mut i: usize = 0;
    while i < 32
        invariant
            i <= 32,
            data@ == nullifier@.subrange(0, i as int),
        decreases 32 - i,
    {
        data.push(nullifier[i]);
        i = i + 1;
    }
    proof {
        assert(data@ =~= nullifier@);
    }
    keccak256(data.as_slice())
}

} // verus!
