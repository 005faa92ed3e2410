//! Tests for the proof verifier's byte-level validation and input assembly.

use tornado_svm::error::TornadoError;
use tornado_svm::field::FIELD_SIZE;
use tornado_svm::groth16::{assemble_public_inputs, verify_tornado_proof};

/// A syntactically sized, semantically meaningless proof blob.
fn dummy_proof() -> Vec<u8> {
    let mut proof = vec![0u8; 256];
    for i in 0..8 {
        proof[i * 32] = 1;
    }
    proof
}

fn dummy_public_inputs() -> [u8; 192] {
    let mut inputs = [0u8; 192];
    for i in 0..6 {
        inputs[i * 32] = (i + 1) as u8;
    }
    inputs
}

#[test]
fn test_verify_tornado_proof() {
    let proof_data = dummy_proof();
    let public_inputs = dummy_public_inputs();

    // A dummy proof cannot deserialise into curve points: rejected.
    let result = verify_tornado_proof(&[], &proof_data, &public_inputs);
    assert_eq!(result.unwrap_err(), TornadoError::InvalidProof);

    // Test with invalid proof data length
    let invalid_proof = vec![0u8; 128];
    let result = verify_tornado_proof(&[], &invalid_proof, &public_inputs);
    assert_eq!(result.unwrap_err(), TornadoError::InvalidProof);
}

#[test]
fn test_verify_rejects_non_canonical_input() {
    // A public input at or above the field modulus must be rejected rather
    // than silently reduced.
    let proof_data = dummy_proof();
    let mut inputs = dummy_public_inputs();
    inputs[64..96].copy_from_slice(&FIELD_SIZE);
    let result = verify_tornado_proof(&[], &proof_data, &inputs);
    assert_eq!(result.unwrap_err(), TornadoError::InvalidProof);
}

#[test]
fn test_assemble_public_inputs() {
    let root = [1u8; 32];
    let nullifier_hash = [2u8; 32];
    let recipient = [3u8; 32];
    let relayer = [4u8; 32];
    let fee: u64 = 0x0102030405060708;
    let refund: u64 = 9;
    let assembled = assemble_public_inputs(&root, &nullifier_hash, &recipient, &relayer, fee,
        refund);
    assert_eq!(&assembled[0..32], &root);
    assert_eq!(&assembled[32..64], &nullifier_hash);
    assert_eq!(&assembled[64..96], &recipient);
    assert_eq!(&assembled[96..128], &relayer);
    // fee, little-endian, zero-padded to 32 bytes
    assert_eq!(&assembled[128..136], &[8, 7, 6, 5, 4, 3, 2, 1]);
    assert!(assembled[136..160].iter().all(|&b| b == 0));
    // refund likewise
    assert_eq!(assembled[160], 9);
    assert!(assembled[161..192].iter().all(|&b| b == 0));
}
