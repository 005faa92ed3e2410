//! End-to-end tests of the transaction processor: initialisation, deposits,
//! withdrawals, and each failure the pool can report.

use tornado_svm::error::TornadoError;
use tornado_svm::field::FIELD_SIZE;
use tornado_svm::instruction::TornadoInstruction;
use tornado_svm::merkle_tree::get_last_root;
use tornado_svm::processor::{AccountKeys, Balances, Processor};
use tornado_svm::state::{MerkleTree, TornadoInstance, ROOT_HISTORY_SIZE};

fn empty_instance() -> TornadoInstance {
    TornadoInstance {
        is_initialized: false,
        denomination: 0,
        merkle_tree_height: 0,
        merkle_tree: [0u8; 32],
        verifier: [0u8; 32],
    }
}

fn empty_tree() -> MerkleTree {
    MerkleTree {
        is_initialized: false,
        height: 0,
        next_index: 0,
        current_root_index: 0,
        roots: Vec::new(),
        filled_subtrees: Vec::new(),
        nullifier_hashes: Vec::new(),
        commitments: Vec::new(),
    }
}

fn test_keys() -> AccountKeys {
    AccountKeys {
        merkle_tree: [11u8; 32],
        verifier: [12u8; 32],
        recipient: [13u8; 32],
        relayer: [14u8; 32],
    }
}

fn fresh_pool(denomination: u64, height: u8) -> (TornadoInstance, MerkleTree) {
    let mut instance = empty_instance();
    let mut tree = empty_tree();
    Processor::process_initialize(&mut instance, &mut tree, &test_keys(), denomination, height)
        .unwrap();
    (instance, tree)
}

fn balances() -> Balances {
    Balances { payer: 1_000_000_000, pool: 0, recipient: 0, relayer: 0 }
}

/// The fixed commitment of the deposit scenarios: one 0x01 byte, 31 zeros.
fn commitment_one() -> [u8; 32] {
    let mut c = [0u8; 32];
    c[0] = 1;
    c
}

#[test]
fn initialize_fresh_pool() {
    let mut instance = empty_instance();
    let mut tree = empty_tree();
    let result = Processor::process_initialize(
        &mut instance,
        &mut tree,
        &test_keys(),
        100_000_000,
        20,
    );
    assert!(result.is_ok());
    assert!(instance.is_initialized);
    assert_eq!(instance.denomination, 100_000_000);
    assert_eq!(instance.merkle_tree_height, 20);
    assert_eq!(tree.next_index, 0);
    assert_eq!(tree.current_root_index, 0);
    assert_eq!(tree.roots.len(), ROOT_HISTORY_SIZE);
    assert!(tree.roots.iter().all(|r| r.iter().all(|&b| b == 0)));

    // A follow-up initialise on the same pool fails.
    let again = Processor::process_initialize(
        &mut instance,
        &mut tree,
        &test_keys(),
        100_000_000,
        20,
    );
    assert_eq!(again.unwrap_err(), TornadoError::AccountAlreadyInitialized);
    assert_eq!(TornadoError::AccountAlreadyInitialized.code(), 3);
}

#[test]
fn initialize_rejects_bad_parameters() {
    let mut instance = empty_instance();
    let mut tree = empty_tree();
    let r = Processor::process_initialize(&mut instance, &mut tree, &test_keys(), 0, 20);
    assert_eq!(r.unwrap_err(), TornadoError::InvalidInstructionData);
    let r = Processor::process_initialize(&mut instance, &mut tree, &test_keys(), 1, 0);
    assert_eq!(r.unwrap_err(), TornadoError::InvalidInstructionData);
    let r = Processor::process_initialize(&mut instance, &mut tree, &test_keys(), 1, 33);
    assert_eq!(r.unwrap_err(), TornadoError::InvalidInstructionData);
    assert!(!instance.is_initialized);
}

#[test]
fn deposit_then_duplicate() {
    let (instance, mut tree) = fresh_pool(100_000_000, 20);
    let mut bal = balances();
    let commitment = commitment_one();

    let result =
        Processor::process_deposit(&instance, &mut tree, &test_keys(), &commitment, &mut bal);
    assert!(result.is_ok());
    assert_eq!(tree.next_index, 1);
    assert_eq!(bal.pool, 100_000_000);
    assert_eq!(bal.payer, 900_000_000);
    // the newest root is non-zero and sits one past the sentinel slot
    assert_eq!(tree.current_root_index, 1);
    assert!(!tree.roots[1].iter().all(|&b| b == 0));

    // Repeat with the identical commitment: duplicate, state unchanged.
    let before_tree = tree.clone();
    let before_bal = bal;
    let result =
        Processor::process_deposit(&instance, &mut tree, &test_keys(), &commitment, &mut bal);
    assert_eq!(result.unwrap_err(), TornadoError::CommitmentAlreadyExists);
    assert_eq!(TornadoError::CommitmentAlreadyExists.code(), 6);
    assert_eq!(tree, before_tree);
    assert_eq!(bal, before_bal);
}

#[test]
fn deposit_rejects_non_canonical_commitment() {
    // A commitment equal to the field modulus is not canonical: rejected,
    // and no funds move.
    let (instance, mut tree) = fresh_pool(100_000_000, 20);
    let mut bal = balances();
    let result =
        Processor::process_deposit(&instance, &mut tree, &test_keys(), &FIELD_SIZE, &mut bal);
    assert_eq!(result.unwrap_err(), TornadoError::InvalidCommitment);
    assert_eq!(TornadoError::InvalidCommitment.code(), 5);
    assert_eq!(bal, balances());
    assert_eq!(tree.next_index, 0);
}

/// Sets up a pool with one deposit; returns everything a withdrawal needs.
fn pool_after_deposit(height: u8) -> (TornadoInstance, MerkleTree, Balances, [u8; 32]) {
    let (instance, mut tree) = fresh_pool(100_000_000, height);
    let mut bal = balances();
    Processor::process_deposit(&instance, &mut tree, &test_keys(), &commitment_one(), &mut bal)
        .unwrap();
    let root = get_last_root(&tree.roots, tree.current_root_index);
    (instance, tree, bal, root)
}

#[test]
fn withdraw_happy_path() {
    let (instance, mut tree, mut bal, root) = pool_after_deposit(8);
    let keys = test_keys();
    let nullifier_hash = [3u8; 32];
    let result = Processor::process_withdraw_checked(
        &instance,
        &mut tree,
        &keys,
        true,
        &root,
        &nullifier_hash,
        &keys.recipient,
        &keys.relayer,
        1_000_000,
        0,
        &mut bal,
    );
    assert!(result.is_ok());
    assert_eq!(bal.recipient, 99_000_000);
    assert_eq!(bal.relayer, 1_000_000);
    assert_eq!(bal.pool, 0);
    assert!(tree.nullifier_hashes.contains(&nullifier_hash));
}

#[test]
fn withdraw_double_spend_rejected() {
    let (instance, mut tree, mut bal, root) = pool_after_deposit(8);
    let keys = test_keys();
    let nullifier_hash = [3u8; 32];
    // Fund the pool for a hypothetical second withdrawal.
    bal.pool += 100_000_000;
    Processor::process_withdraw_checked(
        &instance,
        &mut tree,
        &keys,
        true,
        &root,
        &nullifier_hash,
        &keys.recipient,
        &keys.relayer,
        1_000_000,
        0,
        &mut bal,
    )
    .unwrap();
    let before_bal = bal;
    let before_tree = tree.clone();

    // Re-submit the same withdrawal: the nullifier is spent; no transfer.
    let result = Processor::process_withdraw_checked(
        &instance,
        &mut tree,
        &keys,
        true,
        &root,
        &nullifier_hash,
        &keys.recipient,
        &keys.relayer,
        1_000_000,
        0,
        &mut bal,
    );
    assert_eq!(result.unwrap_err(), TornadoError::NullifierAlreadySpent);
    assert_eq!(TornadoError::NullifierAlreadySpent.code(), 8);
    assert_eq!(bal, before_bal);
    assert_eq!(tree, before_tree);
}

#[test]
fn withdraw_stale_root_rejected() {
    // After a withdrawal, rotate the ring buffer past its root with thirty
    // more deposits; the old root is then refused.
    let (instance, mut tree, mut bal, old_root) = pool_after_deposit(6);
    let keys = test_keys();
    Processor::process_withdraw_checked(
        &instance,
        &mut tree,
        &keys,
        true,
        &old_root,
        &[3u8; 32],
        &keys.recipient,
        &keys.relayer,
        1_000_000,
        0,
        &mut bal,
    )
    .unwrap();

    bal.payer = 100_000_000 * 31;
    for i in 0..ROOT_HISTORY_SIZE {
        let mut commitment = [0u8; 32];
        commitment[0] = (i + 2) as u8;
        Processor::process_deposit(&instance, &mut tree, &keys, &commitment, &mut bal).unwrap();
    }

    bal.pool += 100_000_000;
    let result = Processor::process_withdraw_checked(
        &instance,
        &mut tree,
        &keys,
        true,
        &old_root,
        &[4u8; 32],
        &keys.recipient,
        &keys.relayer,
        1_000_000,
        0,
        &mut bal,
    );
    assert_eq!(result.unwrap_err(), TornadoError::InvalidMerkleRoot);
    assert_eq!(TornadoError::InvalidMerkleRoot.code(), 9);
}

#[test]
fn withdraw_invalid_fee_rejected() {
    // A fee above the denomination fails before any proof verification: the
    // garbage proof and empty verifying key are never consulted.
    let (instance, mut tree, mut bal, root) = pool_after_deposit(8);
    let keys = test_keys();
    let result = Processor::process_withdraw(
        &instance,
        &mut tree,
        &keys,
        &[],
        &[0u8; 256],
        &root,
        &[3u8; 32],
        &keys.recipient,
        &keys.relayer,
        100_000_001,
        0,
        &mut bal,
    );
    assert_eq!(result.unwrap_err(), TornadoError::InvalidFee);
    assert_eq!(TornadoError::InvalidFee.code(), 11);
    assert_eq!(bal.recipient, 0);
    assert_eq!(bal.relayer, 0);
}

#[test]
fn deposit_tree_full_rejected() {
    // With height 2 the tree holds four leaves; the fifth deposit fails.
    let (instance, mut tree) = fresh_pool(100_000_000, 2);
    let mut bal = Balances { payer: 1_000_000_000, pool: 0, recipient: 0, relayer: 0 };
    for i in 0..4u8 {
        let mut commitment = [0u8; 32];
        commitment[0] = i + 1;
        Processor::process_deposit(&instance, &mut tree, &test_keys(), &commitment, &mut bal)
            .unwrap();
    }
    let mut fifth = [0u8; 32];
    fifth[0] = 5;
    let result =
        Processor::process_deposit(&instance, &mut tree, &test_keys(), &fifth, &mut bal);
    assert_eq!(result.unwrap_err(), TornadoError::MerkleTreeFull);
    assert_eq!(bal.pool, 400_000_000);
    assert_eq!(tree.next_index, 4);
}

#[test]
fn test_refund_and_relayer_checks() {
    let (instance, mut tree, mut bal, root) = pool_after_deposit(8);
    let keys = test_keys();
    // Non-zero refund is reserved for token pools and rejected here.
    let result = Processor::process_withdraw_checked(
        &instance,
        &mut tree,
        &keys,
        true,
        &root,
        &[3u8; 32],
        &keys.recipient,
        &keys.relayer,
        0,
        1,
        &mut bal,
    );
    assert_eq!(result.unwrap_err(), TornadoError::InvalidAmount);
    assert_eq!(TornadoError::InvalidAmount.code(), 14);

    // A recipient that is not the named account is refused.
    let result = Processor::process_withdraw_checked(
        &instance,
        &mut tree,
        &keys,
        true,
        &root,
        &[3u8; 32],
        &[9u8; 32],
        &keys.relayer,
        0,
        0,
        &mut bal,
    );
    assert_eq!(result.unwrap_err(), TornadoError::InvalidRecipient);

    // A relayer that is not the named account is refused.
    let result = Processor::process_withdraw_checked(
        &instance,
        &mut tree,
        &keys,
        true,
        &root,
        &[3u8; 32],
        &keys.recipient,
        &[9u8; 32],
        0,
        0,
        &mut bal,
    );
    assert_eq!(result.unwrap_err(), TornadoError::InvalidRelayer);

    // A non-canonical nullifier hash is malformed.
    let result = Processor::process_withdraw_checked(
        &instance,
        &mut tree,
        &keys,
        true,
        &root,
        &FIELD_SIZE,
        &keys.recipient,
        &keys.relayer,
        0,
        0,
        &mut bal,
    );
    assert_eq!(result.unwrap_err(), TornadoError::InvalidNullifierHash);
    assert_eq!(TornadoError::InvalidNullifierHash.code(), 7);
}

#[test]
fn test_insufficient_funds() {
    let (instance, mut tree) = fresh_pool(100_000_000, 8);
    let mut bal = Balances { payer: 50, pool: 0, recipient: 0, relayer: 0 };
    let result = Processor::process_deposit(
        &instance,
        &mut tree,
        &test_keys(),
        &commitment_one(),
        &mut bal,
    );
    assert_eq!(result.unwrap_err(), TornadoError::InsufficientFunds);
    assert_eq!(TornadoError::InsufficientFunds.code(), 15);
}

#[test]
fn test_process_initialize() {
    // Dispatch an encoded Initialize through the processor entry point.
    let mut instance = empty_instance();
    let mut tree = empty_tree();
    let mut bal = balances();
    let denomination = 100000;
    let merkle_tree_height = 20;
    let data = TornadoInstruction::Initialize { denomination, merkle_tree_height }.encode();
    let result =
        Processor::process(&mut instance, &mut tree, &test_keys(), &[], &mut bal, &data);
    assert!(result.is_ok());
    assert!(instance.is_initialized);
    assert_eq!(instance.denomination, denomination);
    assert_eq!(instance.merkle_tree_height, merkle_tree_height);
}

#[test]
fn test_process_deposit() {
    // Dispatch an encoded Deposit; the pure core performs the transfer on
    // the modelled balances and records the leaf.
    let (mut instance, mut tree) = fresh_pool(100000, 8);
    let mut bal = balances();
    let data = TornadoInstruction::Deposit { commitment: commitment_one() }.encode();
    let result =
        Processor::process(&mut instance, &mut tree, &test_keys(), &[], &mut bal, &data);
    assert!(result.is_ok());
    assert_eq!(tree.next_index, 1);
    assert_eq!(bal.pool, 100000);
    assert!(tree.commitments.contains(&commitment_one()));
}

#[test]
fn test_process_withdraw() {
    // A withdrawal with a dummy proof fails verification; nothing moves.
    let (mut instance, mut tree) = fresh_pool(100000, 8);
    let mut bal = balances();
    let keys = test_keys();
    let deposit = TornadoInstruction::Deposit { commitment: commitment_one() }.encode();
    Processor::process(&mut instance, &mut tree, &keys, &[], &mut bal, &deposit).unwrap();
    let root = get_last_root(&tree.roots, tree.current_root_index);

    let withdraw = TornadoInstruction::Withdraw {
        proof: vec![0u8; 256],
        root,
        nullifier_hash: [3u8; 32],
        recipient: keys.recipient,
        relayer: keys.relayer,
        fee: 1000,
        refund: 0,
    }
    .encode();
    let before_bal = bal;
    let result =
        Processor::process(&mut instance, &mut tree, &keys, &[], &mut bal, &withdraw);
    assert_eq!(result.unwrap_err(), TornadoError::InvalidProof);
    assert_eq!(TornadoError::InvalidProof.code(), 10);
    assert_eq!(bal, before_bal);
    assert!(tree.nullifier_hashes.is_empty());
}

#[test]
fn test_process_rejects_garbage() {
    let mut instance = empty_instance();
    let mut tree = empty_tree();
    let mut bal = balances();
    let result = Processor::process(
        &mut instance,
        &mut tree,
        &test_keys(),
        &[],
        &mut bal,
        &[42u8, 1, 2, 3],
    );
    assert_eq!(result.unwrap_err(), TornadoError::InvalidInstructionData);
}

#[test]
fn test_error_codes() {
    assert_eq!(TornadoError::InvalidInstructionData.code(), 0);
    assert_eq!(TornadoError::InvalidAccountData.code(), 1);
    assert_eq!(TornadoError::AccountNotInitialized.code(), 2);
    assert_eq!(TornadoError::AccountAlreadyInitialized.code(), 3);
    assert_eq!(TornadoError::MerkleTreeFull.code(), 4);
    assert_eq!(TornadoError::InvalidCommitment.code(), 5);
    assert_eq!(TornadoError::CommitmentAlreadyExists.code(), 6);
    assert_eq!(TornadoError::InvalidNullifierHash.code(), 7);
    assert_eq!(TornadoError::NullifierAlreadySpent.code(), 8);
    assert_eq!(TornadoError::InvalidMerkleRoot.code(), 9);
    assert_eq!(TornadoError::InvalidProof.code(), 10);
    assert_eq!(TornadoError::InvalidFee.code(), 11);
    assert_eq!(TornadoError::InvalidRecipient.code(), 12);
    assert_eq!(TornadoError::InvalidRelayer.code(), 13);
    assert_eq!(TornadoError::InvalidAmount.code(), 14);
    assert_eq!(TornadoError::InsufficientFunds.code(), 15);
}
