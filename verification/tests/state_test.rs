//! Tests for the persisted record forms: layout and round trips.

use tornado_svm::error::TornadoError;
use tornado_svm::field::FIELD_SIZE;
use tornado_svm::state::{MerkleTree, TornadoInstance, ROOT_HISTORY_SIZE};

fn sample_instance() -> TornadoInstance {
    TornadoInstance {
        is_initialized: true,
        denomination: 100_000_000,
        merkle_tree_height: 20,
        merkle_tree: [7u8; 32],
        verifier: [9u8; 32],
    }
}

fn sample_tree() -> MerkleTree {
    let mut roots = vec![[0u8; 32]; ROOT_HISTORY_SIZE];
    roots[1] = [5u8; 32];
    MerkleTree {
        is_initialized: true,
        height: 3,
        next_index: 2,
        current_root_index: 1,
        roots,
        filled_subtrees: vec![[1u8; 32], [2u8; 32], [3u8; 32]],
        nullifier_hashes: vec![[4u8; 32]],
        commitments: vec![[6u8; 32], [8u8; 32]],
    }
}

#[test]
fn test_instance_pack_layout() {
    let ins = sample_instance();
    let bytes = ins.pack();
    assert_eq!(bytes.len(), 74);
    assert_eq!(bytes[0], 1);
    assert_eq!(&bytes[1..9], &100_000_000u64.to_le_bytes());
    assert_eq!(bytes[9], 20);
    assert_eq!(&bytes[10..42], &[7u8; 32]);
    assert_eq!(&bytes[42..74], &[9u8; 32]);
}

#[test]
fn test_instance_roundtrip() {
    let ins = sample_instance();
    assert_eq!(TornadoInstance::unpack(&ins.pack()).unwrap(), ins);

    // Anything but an exact record is rejected.
    assert_eq!(
        TornadoInstance::unpack(&[0u8; 10]).unwrap_err(),
        TornadoError::InvalidAccountData
    );
    let mut bad = ins.pack();
    bad[0] = 2;
    assert_eq!(TornadoInstance::unpack(&bad).unwrap_err(), TornadoError::InvalidAccountData);
}

#[test]
fn test_tree_roundtrip() {
    let tree = sample_tree();
    let bytes = tree.pack();
    assert_eq!(bytes.len(), 979 + 32 * 3 + 32 * 1 + 32 * 2);
    // After a restart — unpacking what was packed — the whole state is back,
    // the nullifier set included.
    let restored = MerkleTree::unpack(&bytes).unwrap();
    assert_eq!(restored, tree);
    assert!(restored.nullifier_hashes.contains(&[4u8; 32]));

    // A truncated region is rejected.
    assert_eq!(
        MerkleTree::unpack(&bytes[..bytes.len() - 1]).unwrap_err(),
        TornadoError::InvalidAccountData
    );
}

#[test]
fn test_tree_unpack_validates_invariant() {
    // A stored waiting sibling that is not canonical is rejected: the
    // stored-element invariant is checked on restore.
    let mut corrupted = sample_tree();
    corrupted.filled_subtrees[1] = FIELD_SIZE;
    let bytes = corrupted.pack();
    assert_eq!(MerkleTree::unpack(&bytes).unwrap_err(), TornadoError::InvalidAccountData);

    // A leaf count beyond the tree's capacity is rejected.
    let mut oversized = sample_tree();
    oversized.next_index = 9; // 2^3 == 8
    let bytes = oversized.pack();
    assert_eq!(MerkleTree::unpack(&bytes).unwrap_err(), TornadoError::InvalidAccountData);
}

#[test]
fn test_get_account_size() {
    // Fixed parts (the 11-byte header and the 960-byte root ring, plus two
    // 4-byte length prefixes), one sibling per level, and room for 2^height
    // entries in each of the two sets.
    assert_eq!(MerkleTree::get_account_size(1), 971 + 32 + 8 + 64 * 2);
    assert_eq!(MerkleTree::get_account_size(20), 971 + 32 * 20 + 8 + 64 * (1 << 20));

    // The region holds the packed record of a full tree exactly.
    let height: u8 = 2;
    let mut tree = MerkleTree {
        is_initialized: true,
        height,
        next_index: 4,
        current_root_index: 4,
        roots: vec![[1u8; 32]; ROOT_HISTORY_SIZE],
        filled_subtrees: vec![[1u8; 32]; height as usize],
        nullifier_hashes: vec![[1u8; 32]; 4],
        commitments: vec![[2u8; 32]; 4],
    };
    assert_eq!(tree.pack().len() as u64, MerkleTree::get_account_size(height));
    tree.nullifier_hashes.pop();
    assert!((tree.pack().len() as u64) < MerkleTree::get_account_size(height));
}
