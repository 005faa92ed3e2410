//! Tests for the scalar-field arithmetic and the 32-byte codec.

use tornado_svm::error::TornadoError;
use tornado_svm::field::{
    bytes_to_field_element, field_add, field_cube, field_element_to_bytes, field_mod, field_mul,
    is_canonical, FIELD_SIZE,
};

/// The limbs of `p - 1`.
fn p_minus_one() -> [u64; 4] {
    [0x43e1f593f0000000, 0x2833e84879b97091, 0xb85045b68181585d, 0x30644e72e131a029]
}

fn small(v: u64) -> [u64; 4] {
    [v, 0, 0, 0]
}

#[test]
fn test_codec_roundtrip() {
    // Decoding a canonical encoding and re-encoding returns the same bytes.
    let mut bytes = [0u8; 32];
    bytes[0] = 0x2a;
    bytes[13] = 0x07;
    bytes[31] = 0x01;
    let fe = bytes_to_field_element(&bytes).unwrap();
    assert_eq!(field_element_to_bytes(fe), bytes);

    // A small value decodes to the expected limbs.
    let mut five = [0u8; 32];
    five[0] = 5;
    assert_eq!(bytes_to_field_element(&five).unwrap(), small(5));
}

#[test]
fn test_decode_rejects_non_canonical() {
    // The modulus itself is not canonical; one below it is.
    let result = bytes_to_field_element(&FIELD_SIZE);
    assert_eq!(result.unwrap_err(), TornadoError::InvalidCommitment);
    assert!(!is_canonical(&FIELD_SIZE));

    let mut below = FIELD_SIZE;
    below[0] -= 1;
    assert!(is_canonical(&below));
    assert!(bytes_to_field_element(&below).is_ok());
}

#[test]
fn test_field_add_exact() {
    assert_eq!(field_add(small(2), small(3)), small(5));

    // Wrap-around at the modulus: (p - 1) + 2 == 1.
    assert_eq!(field_add(p_minus_one(), small(2)), small(1));
}

#[test]
fn test_field_mul_exact() {
    assert_eq!(field_mul(small(3), small(5)).unwrap(), small(15));
    assert_eq!(field_mul(small(0), p_minus_one()).unwrap(), small(0));

    // (p - 1)^2 == p^2 - 2p + 1 == 1 (mod p).
    assert_eq!(field_mul(p_minus_one(), p_minus_one()).unwrap(), small(1));
}

#[test]
fn test_field_cube_exact() {
    assert_eq!(field_cube(small(3)).unwrap(), small(27));

    // (p - 1)^3 == -1 == p - 1 (mod p).
    assert_eq!(field_cube(p_minus_one()).unwrap(), p_minus_one());
}

#[test]
fn test_field_mod_exact() {
    // p itself reduces to zero.
    let p_limbs = [0x43e1f593f0000001, 0x2833e84879b97091, 0xb85045b68181585d, 0x30644e72e131a029];
    assert_eq!(field_mod(p_limbs), small(0));

    // The all-ones word vector reduces to something canonical and stays put
    // when reduced again.
    let big = [u64::MAX; 4];
    let reduced = field_mod(big);
    assert_eq!(field_mod(reduced), reduced);
}
