//! A non-custodial, fixed-denomination privacy pool for a native-coin ledger.
//!
//! Depositors lock a fixed amount together with a commitment; anyone holding
//! the commitment's pre-image can later withdraw that amount to any address by
//! submitting a zero-knowledge proof that the pre-image matches some
//! commitment previously inserted, without revealing which one.
//!
//! The crate is organised leaves-first:
//!
//! * [`error`]: the failure reasons an instruction can surface
//! * [`field`]: arithmetic in the scalar field of the pairing-friendly curve
//! * [`merkle_tree`]: the append-only incremental Merkle tree with its ring
//!   buffer of historical roots
//! * [`state`]: the pool configuration and tree state records
//! * [`utils`]: commitment / nullifier bookkeeping and the commitment hashes
//! * [`instruction`]: the wire format of the three instructions
//! * [`groth16`]: the Groth16 proof check over six public inputs
//! * [`processor`]: the transaction processor driving all of the above

pub mod error;
pub mod field;
pub mod instruction;
pub mod merkle_tree;
pub mod processor;
pub mod state;
pub mod utils;
pub mod groth16;
