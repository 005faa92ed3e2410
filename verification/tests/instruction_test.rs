//! Tests for the instruction wire format.

use tornado_svm::error::TornadoError;
use tornado_svm::instruction::{parse_instruction, TornadoInstruction};

#[test]
fn test_parse_initialize() {
    let ins = TornadoInstruction::Initialize { denomination: 100_000_000, merkle_tree_height: 20 };
    let bytes = ins.encode();
    assert_eq!(bytes.len(), 10);
    assert_eq!(bytes[0], 0);
    assert_eq!(parse_instruction(&bytes).unwrap(), ins);
}

#[test]
fn test_parse_deposit() {
    let mut commitment = [0u8; 32];
    commitment[0] = 1;
    let ins = TornadoInstruction::Deposit { commitment };
    let bytes = ins.encode();
    assert_eq!(bytes.len(), 33);
    assert_eq!(bytes[0], 1);
    assert_eq!(parse_instruction(&bytes).unwrap(), ins);
}

#[test]
fn test_parse_withdraw() {
    let ins = TornadoInstruction::Withdraw {
        proof: vec![9u8; 256],
        root: [1u8; 32],
        nullifier_hash: [2u8; 32],
        recipient: [3u8; 32],
        relayer: [4u8; 32],
        fee: 1_000_000,
        refund: 0,
    };
    let bytes = ins.encode();
    assert_eq!(bytes.len(), 405);
    assert_eq!(bytes[0], 2);
    // 4-byte little-endian proof length prefix of 256
    assert_eq!(&bytes[1..5], &[0, 1, 0, 0]);
    assert_eq!(parse_instruction(&bytes).unwrap(), ins);
}

#[test]
fn test_parse_rejects_malformed() {
    // Empty data
    assert_eq!(parse_instruction(&[]).unwrap_err(), TornadoError::InvalidInstructionData);

    // Unknown tag
    assert_eq!(parse_instruction(&[7u8]).unwrap_err(), TornadoError::InvalidInstructionData);

    // Wrong length for the tag
    assert_eq!(parse_instruction(&[0u8; 5]).unwrap_err(), TornadoError::InvalidInstructionData);
    assert_eq!(parse_instruction(&[1u8; 10]).unwrap_err(), TornadoError::InvalidInstructionData);

    // A withdraw whose proof-length prefix is not 256
    let good = TornadoInstruction::Withdraw {
        proof: vec![0u8; 256],
        root: [0u8; 32],
        nullifier_hash: [0u8; 32],
        recipient: [0u8; 32],
        relayer: [0u8; 32],
        fee: 0,
        refund: 0,
    }
    .encode();
    let mut bad = good.clone();
    bad[1] = 0xff;
    let err = parse_instruction(&bad).unwrap_err();
    assert_eq!(err, TornadoError::InvalidInstructionData);
    assert_eq!(err.code(), 0);
}
