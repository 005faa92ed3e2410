//! Tests for the Merkle tree: hashing, canonicity, inserts and the root ring.

use tornado_svm::error::TornadoError;
use tornado_svm::field::{is_within_field, mod_field_size, FIELD_SIZE};
use tornado_svm::merkle_tree::{
    get_last_root, get_zero_value, hash_left_right, insert_leaf, is_known_root, ZERO_VALUE,
};
use tornado_svm::state::ROOT_HISTORY_SIZE;

#[test]
fn test_hash_left_right() {
    // Test with valid inputs
    let left = [1u8; 32];
    let right = [2u8; 32];
    let result = hash_left_right(&left, &right).unwrap();

    // Ensure result is not zero and is within field
    assert!(!result.iter().all(|&x| x == 0));
    assert!(is_within_field(&result));

    // Test with inputs at field boundary
    let boundary = FIELD_SIZE;
    let result = hash_left_right(&boundary, &right);
    assert!(result.is_err());

    // Test with zero values
    let zero = [0u8; 32];
    let result = hash_left_right(&zero, &zero).unwrap();
    assert!(is_within_field(&result));

    // Test determinism
    let result = hash_left_right(&left, &right).unwrap();
    let result2 = hash_left_right(&left, &right).unwrap();
    assert_eq!(result, result2);

    // Test different inputs produce different outputs
    let left2 = [3u8; 32];
    let result3 = hash_left_right(&left2, &right).unwrap();
    assert!(result != result3);
}

#[test]
fn test_is_within_field() {
    // Test with value below field size
    let below = [0u8; 32];
    assert!(is_within_field(&below));

    // Test with value equal to field size: the modulus itself is not a
    // field element — membership is strict.
    let equal = FIELD_SIZE;
    assert!(!is_within_field(&equal));

    // Test with value above field size
    let mut above = FIELD_SIZE;
    above[31] += 1;
    assert!(!is_within_field(&above));
}

#[test]
fn test_mod_field_size() {
    // Test with value below field size
    let below = [1u8; 32];
    let result = mod_field_size(&below);
    assert_eq!(result, below);

    // Test with value above field size
    let mut above = FIELD_SIZE;
    above[31] += 10;
    let result = mod_field_size(&above);
    assert!(is_within_field(&result));
    assert!(result != above);
}

#[test]
fn test_get_zero_value() {
    // Test level 0
    let level0 = get_zero_value(0);
    assert_eq!(level0, ZERO_VALUE);

    // Test level 1
    let level1 = get_zero_value(1);
    assert!(level1 != ZERO_VALUE);

    // Test level 2
    let level2 = get_zero_value(2);
    assert!(level2 != level1);

    // Test high level (should default to level 0)
    let high_level = get_zero_value(100);
    assert_eq!(high_level, ZERO_VALUE);
}

#[test]
fn test_insert_leaf() {
    // Create a test Merkle tree
    let height: u8 = 3;
    let mut filled_subtrees = vec![[0u8; 32]; height as usize];
    let mut roots = vec![[0u8; 32]; ROOT_HISTORY_SIZE];
    let mut current_root_index: u8 = 0;

    // Insert first leaf
    let leaf1 = [1u8; 32];
    let result = insert_leaf(
        &leaf1,
        0,
        height,
        &mut filled_subtrees,
        &mut roots,
        &mut current_root_index,
    );
    assert!(result.is_ok());
    assert_eq!(result.unwrap(), 0);
    assert_eq!(current_root_index, 1);

    // Insert second leaf
    let leaf2 = [2u8; 32];
    let result = insert_leaf(
        &leaf2,
        1,
        height,
        &mut filled_subtrees,
        &mut roots,
        &mut current_root_index,
    );
    assert!(result.is_ok());
    assert_eq!(result.unwrap(), 1);
    assert_eq!(current_root_index, 2);

    // Try to insert when tree is full
    let result = insert_leaf(
        &[3u8; 32],
        8, // 2^3 = 8, so tree is full
        height,
        &mut filled_subtrees,
        &mut roots,
        &mut current_root_index,
    );
    assert!(result.is_err());
    let err = result.unwrap_err();
    assert_eq!(err, TornadoError::MerkleTreeFull);
    assert_eq!(err.code(), 4); // the tree-full custom error number
}

#[test]
fn test_is_known_root() {
    // Create a test root history
    let mut roots = vec![[0u8; 32]; ROOT_HISTORY_SIZE];
    let root1 = [1u8; 32];
    let root2 = [2u8; 32];

    roots[0] = root1;
    roots[1] = root2;

    let current_root_index = 1;

    // Test with known root
    assert!(is_known_root(&root1, &roots, current_root_index));
    assert!(is_known_root(&root2, &roots, current_root_index));

    // Test with unknown root
    let unknown_root = [3u8; 32];
    assert!(!is_known_root(&unknown_root, &roots, current_root_index));

    // Test with zero root
    let zero_root = [0u8; 32];
    assert!(!is_known_root(&zero_root, &roots, current_root_index));
}

#[test]
fn test_get_last_root() {
    // Create a test root history
    let mut roots = vec![[0u8; 32]; ROOT_HISTORY_SIZE];
    let root1 = [1u8; 32];
    let root2 = [2u8; 32];

    roots[0] = root1;
    roots[1] = root2;

    // Test with current_root_index = 0
    assert_eq!(get_last_root(&roots, 0), root1);

    // Test with current_root_index = 1
    assert_eq!(get_last_root(&roots, 1), root2);
}

#[test]
fn test_zero_value_is_canonical() {
    assert!(tornado_svm::field::is_canonical(&ZERO_VALUE));
}

#[test]
fn test_insert_changes_root() {
    // Two different leaf sequences give different roots; the same sequence
    // gives the same root.
    let height: u8 = 2;
    let mut filled_a = vec![[0u8; 32]; 2];
    let mut roots_a = vec![[0u8; 32]; ROOT_HISTORY_SIZE];
    let mut cri_a: u8 = 0;
    insert_leaf(&[1u8; 32], 0, height, &mut filled_a, &mut roots_a, &mut cri_a).unwrap();
    let root_a = get_last_root(&roots_a, cri_a);

    let mut filled_b = vec![[0u8; 32]; 2];
    let mut roots_b = vec![[0u8; 32]; ROOT_HISTORY_SIZE];
    let mut cri_b: u8 = 0;
    insert_leaf(&[2u8; 32], 0, height, &mut filled_b, &mut roots_b, &mut cri_b).unwrap();
    let root_b = get_last_root(&roots_b, cri_b);
    assert!(root_a != root_b);

    let mut filled_c = vec![[0u8; 32]; 2];
    let mut roots_c = vec![[0u8; 32]; ROOT_HISTORY_SIZE];
    let mut cri_c: u8 = 0;
    insert_leaf(&[1u8; 32], 0, height, &mut filled_c, &mut roots_c, &mut cri_c).unwrap();
    let root_c = get_last_root(&roots_c, cri_c);
    assert_eq!(root_a, root_c);
}
