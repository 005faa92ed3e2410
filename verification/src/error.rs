//! Failure reasons surfaced by the pool's instructions.

use vstd::prelude::*;

verus! {

/// Everything an instruction can fail with.
///
/// Each variant maps to a stable numeric "custom" error code through
/// [`TornadoError::code`]; hosts report the number, off-chain tooling maps it
/// back.
#[derive(Clone, Copy, Debug, PartialEq, Eq, Structural)]
pub enum TornadoError {
    /// The instruction payload could not be decoded, or carried parameters
    /// outside their allowed range.
    InvalidInstructionData,
    /// A state record handed to the processor does not belong to the pool.
    InvalidAccountData,
    /// The pool has not been initialised yet.
    AccountNotInitialized,
    /// The pool was already initialised and may not be initialised again.
    AccountAlreadyInitialized,
    /// The Merkle tree already holds its maximum number of leaves.
    MerkleTreeFull,
    /// A commitment (or Merkle node) is not a canonical field element.
    InvalidCommitment,
    /// The commitment was already deposited.
    CommitmentAlreadyExists,
    /// The nullifier hash is not a canonical field element.
    InvalidNullifierHash,
    /// The nullifier hash was already spent.
    NullifierAlreadySpent,
    /// The claimed root is not in the ring buffer of recent roots.
    InvalidMerkleRoot,
    /// The proof was malformed or the pairing check failed.
    InvalidProof,
    /// The fee exceeds the pool's denomination.
    InvalidFee,
    /// The recipient is not the account the withdrawal names, or cannot be a
    /// public input.
    InvalidRecipient,
    /// The relayer is not the account the withdrawal names, or cannot be a
    /// public input.
    InvalidRelayer,
    /// The refund must be zero for a native-coin pool.
    InvalidAmount,
    /// The payer (or the pool) does not hold the required amount.
    InsufficientFunds,
}

impl TornadoError {
    /// The numeric code of this error, as persisted and reported by hosts.
    pub open spec fn spec_code(self) -> u32 {
        match self {
            TornadoError::InvalidInstructionData => 0,
            TornadoError::InvalidAccountData => 1,
            TornadoError::AccountNotInitialized => 2,
            TornadoError::AccountAlreadyInitialized => 3,
            TornadoError::MerkleTreeFull => 4,
            TornadoError::InvalidCommitment => 5,
            TornadoError::CommitmentAlreadyExists => 6,
            TornadoError::InvalidNullifierHash => 7,
            TornadoError::NullifierAlreadySpent => 8,
            TornadoError::InvalidMerkleRoot => 9,
            TornadoError::InvalidProof => 10,
            TornadoError::InvalidFee => 11,
            TornadoError::InvalidRecipient => 12,
            TornadoError::InvalidRelayer => 13,
            TornadoError::InvalidAmount => 14,
            TornadoError::InsufficientFunds => 15,
        }
    }

    /// The numeric code of this error.
    pub fn code(self) -> (r: u32)
        ensures
            r == self.spec_code(),
    {
        match self {
            TornadoError::InvalidInstructionData => 0,
            TornadoError::InvalidAccountData => 1,
            TornadoError::AccountNotInitialized => 2,
            TornadoError::AccountAlreadyInitialized => 3,
            TornadoError::MerkleTreeFull => 4,
            TornadoError::InvalidCommitment => 5,
            TornadoError::CommitmentAlreadyExists => 6,
            TornadoError::InvalidNullifierHash => 7,
            TornadoError::NullifierAlreadySpent => 8,
            TornadoError::InvalidMerkleRoot => 9,
            TornadoError::InvalidProof => 10,
            TornadoError::InvalidFee => 11,
            TornadoError::InvalidRecipient => 12,
            TornadoError::InvalidRelayer => 13,
            TornadoError::InvalidAmount => 14,
            TornadoError::InsufficientFunds => 15,
        }
    }
}

} // verus!
