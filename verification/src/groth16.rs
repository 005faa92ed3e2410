//! Groth16 proof verification over six public inputs.
//!
//! A proof is 256 bytes: a 64-byte G1 point, a 128-byte G2 point and another
//! 64-byte G1 point, every coordinate a 32-byte little-endian field element
//! (G2 coordinates as the two components of the quadratic extension). The
//! public-input vector is 192 bytes: `root ‖ nullifier_hash ‖ recipient ‖
//! relayer ‖ fee ‖ refund`, each 32 bytes, integers little-endian and
//! zero-padded; each of the six must be a canonical scalar. The verifying
//! key is an opaque artefact of the trusted setup, handed in serialised; it
//! is fixed when a pool is deployed and never comes from user input.

use vstd::prelude::*;

use ark_bn254::Bn254;
use ark_serialize::CanonicalDeserialize;

use crate::error::TornadoError;
use crate::field::{is_canonical, is_canonical_bytes, u64_le};

verus! {

/// What the Groth16 verifier decides for a verifying key, a proof and a
/// public-input vector, each given as bytes. The outcome is a function of
/// the three byte strings alone.
pub uninterp spec fn groth16_accepts(vk: Seq<u8>, proof: Seq<u8>, inputs: Seq<u8>) -> bool;

/// Relies on `ark_groth16::Groth16::verify_proof` over the BN254 pairing,
/// with `ark_serialize`'s validated, uncompressed deserialisation of the key
/// and the proof, and `ark_bn254` scalar decoding of the inputs. The check
/// is deterministic in the three byte strings: a malformed component (wrong
/// length, coordinate out of range, point off the curve or outside the
/// prime-order subgroup) makes it false, as does a failing pairing equation.
#[verifier::external_body]
fn groth16_pairing_check(vk: &[u8], proof: &[u8], inputs: &[u8]) -> (r: bool)
    ensures
        r == groth16_accepts(vk@, proof@, inputs@),
{
    let key = match ark_groth16::VerifyingKey::<Bn254>::deserialize_uncompressed(vk) {
        Ok(k) => k,
        Err(_) => return false,
    };
    let prepared = ark_groth16::prepare_verifying_key(&key);
    let points = match ark_groth16::Proof::<Bn254>::deserialize_uncompressed(proof) {
        Ok(p) => p,
        Err(_) => return false,
    };
    let scalars: Vec<ark_bn254::Fr> = inputs.chunks(32).map(
        <ark_bn254::Fr as ark_ff::PrimeField>::from_le_bytes_mod_order,
    ).collect();
    ark_groth16::Groth16::<Bn254>::verify_proof(&prepared, &points, &scalars).unwrap_or(false)
}

/// Whether all six 32-byte public inputs are canonical scalars.
pub open spec fn public_inputs_canonical(d: Seq<u8>) -> bool {
    forall|i: int| 0 <= i < 6 ==> is_canonical_bytes(#[trigger] d.subrange(32 * i, 32 * i + 32))
}

/// Copy 32 bytes of the public-input vector into an owned value.
fn input_chunk(data: &[u8; 192], offset: usize) -> (r: [u8; 32])
    requires
        offset + 32 <= 192,
    ensures
        r@ == data@.subrange(offset as int, offset as int + 32),
{
    let mut out: [u8; 32] = [0u8; 32];
    let mut i: usize = 0;
    while i < 32
        invariant
            i <= 32,
            offset + 32 <= 192,
            data@.len() == 192,
            forall|k: int| 0 <= k < i ==> out@[k] == data@[offset + k],
        decreases 32 - i,
    {
        out[i] = data[offset + i];
        i = i + 1;
    }
    proof {
        assert(out@ =~= data@.subrange(offset as int, offset as int + 32));
    }
    out
}

/// `256^i`, for byte positions within a little-endian 64-bit integer.
pub open spec fn pow256_8(i: int) -> nat {
    if i == 0 {
        1
    } else if i == 1 {
        0x100
    } else if i == 2 {
        0x10000
    } else if i == 3 {
        0x1000000
    } else if i == 4 {
        0x100000000
    } else if i == 5 {
        0x10000000000
    } else if i == 6 {
        0x1000000000000
    } else if i == 7 {
        0x100000000000000
    } else {
        0
    }
}

/// Byte `i` of the 32-byte little-endian, zero-padded encoding of `v`.
pub open spec fn u64_pad32_byte(v: u64, i: int) -> u8 {
    if 0 <= i < 8 {
        ((v as nat / pow256_8(i)) % 256) as u8
    } else {
        0
    }
}

/// The 192-byte public-input vector of a withdrawal:
/// `root ‖ nullifier_hash ‖ recipient ‖ relayer ‖ fee ‖ refund`.
pub open spec fn spec_public_inputs(
    root: Seq<u8>,
    nullifier_hash: Seq<u8>,
    recipient: Seq<u8>,
    relayer: Seq<u8>,
    fee: u64,
    refund: u64,
) -> Seq<u8> {
    root + nullifier_hash + recipient + relayer + Seq::new(32, |i: int| u64_pad32_byte(fee, i))
        + Seq::new(32, |i: int| u64_pad32_byte(refund, i))
}

/// Write 32 bytes into the public-input vector at `off`.
fn write_chunk(out: &mut [u8; 192], off: usize, src: &[u8; 32])
    requires
        off + 32 <= 192,
    ensures
        forall|k: int| 0 <= k < 32 ==> final(out)@[off + k] == src@[k],
        forall|k: int| 0 <= k < 192 && !(off <= k < off + 32) ==> final(out)@[k] == old(out)@[k],
{
    let mut i: usize = 0;
    while i < 32
        invariant
            i <= 32,
            off + 32 <= 192,
            forall|k: int| 0 <= k < i ==> out@[off + k] == src@[k],
            forall|k: int| 0 <= k < 192 && !(off <= k < off + i) ==> out@[k] == old(out)@[k],
        decreases 32 - i,
    {
        out[off + i] = src[i];
        i = i + 1;
    }
}

/// Write the 32-byte little-endian, zero-padded encoding of `v` at `off`,
/// assuming the 24 padding bytes are already zero.
fn write_u64_pad32(out: &mut [u8; 192], off: usize, v: u64)
    requires
        off + 32 <= 192,
        forall|k: int| off + 8 <= k < off + 32 ==> old(out)@[k] == 0,
    ensures
        forall|k: int| 0 <= k < 32 ==> final(out)@[off + k] == u64_pad32_byte(v, k),
        forall|k: int| 0 <= k < 192 && !(off <= k < off + 32) ==> final(out)@[k] == old(out)@[k],
{
    let mut x: u64 = v;
    let mut i: usize = 0;
    proof {
        assert(x as nat == v as nat / pow256_8(0));
    }
    while i < 8
        invariant
            i <= 8,
            off + 32 <= 192,
            i < 8 ==> x as nat == v as nat / pow256_8(i as int),
            forall|k: int| off + 8 <= k < off + 32 ==> old(out)@[k] == 0,
            forall|k: int| 0 <= k < i ==> out@[off + k] == u64_pad32_byte(v, k),
            forall|k: int| 0 <= k < 192 && !(off <= k < off + i) ==> out@[k] == old(out)@[k],
        decreases 8 - i,
    {
        out[off + i] = (x % 256) as u8;
        proof {
            if i < 7 {
                assert(x as nat / 256 == v as nat / pow256_8(i as int + 1)) by {
                    vstd::arithmetic::div_mod::lemma_div_denominator(
                        v as int,
                        pow256_8(i as int) as int,
                        256,
                    );
                }
            }
        }
        x = x / 256;
        i = i + 1;
    }
}

/// Build the 192-byte public-input vector from a withdrawal's arguments.
pub fn assemble_public_inputs(
    root: &[u8; 32],
    nullifier_hash: &[u8; 32],
    recipient: &[u8; 32],
    relayer: &[u8; 32],
    fee: u64,
    refund: u64,
) -> (r: [u8; 192])
    ensures
        r@ == spec_public_inputs(root@, nullifier_hash@, recipient@, relayer@, fee, refund),
{
    let mut out: [u8; 192] = [0u8; 192];
    write_chunk(&mut out, 0, root);
    write_chunk(&mut out, 32, nullifier_hash);
    write_chunk(&mut out, 64, recipient);
    write_chunk(&mut out, 96, relayer);
    write_u64_pad32(&mut out, 128, fee);
    write_u64_pad32(&mut out, 160, refund);
    proof {
        let s: Seq<u8> = spec_public_inputs(root@, nullifier_hash@, recipient@, relayer@, fee,
            refund);
        assert(s.len() == 192);
        assert forall|k: int| 0 <= k < 192 implies out@[k] == s[k] by {
            if k < 32 {
                assert(s[k] == root@[k]);
            } else if k < 64 {
                assert(s[k] == nullifier_hash@[k - 32]);
            } else if k < 96 {
                assert(s[k] == recipient@[k - 64]);
            } else if k < 128 {
                assert(s[k] == relayer@[k - 96]);
            } else if k < 160 {
                assert(s[k] == u64_pad32_byte(fee, k - 128));
            } else {
                assert(s[k] == u64_pad32_byte(refund, k - 160));
            }
        }
        assert(out@ =~= s);
    }
    out
}

/// A 64-bit integer is recovered from its eight little-endian bytes.
proof fn lemma_u64_pad_bytes_recover(v: u64)
    ensures
        v as nat == u64_pad32_byte(v, 0) as nat + u64_pad32_byte(v, 1) as nat * 0x100
            + u64_pad32_byte(v, 2) as nat * 0x10000 + u64_pad32_byte(v, 3) as nat * 0x1000000
            + u64_pad32_byte(v, 4) as nat * 0x100000000 + u64_pad32_byte(v, 5) as nat
            * 0x10000000000 + u64_pad32_byte(v, 6) as nat * 0x1000000000000 + u64_pad32_byte(
            v,
            7,
        ) as nat * 0x100000000000000,
{
    vstd::arithmetic::div_mod::lemma_div_denominator(v as int, 0x100, 0x100);
    vstd::arithmetic::div_mod::lemma_div_denominator(v as int, 0x10000, 0x100);
    vstd::arithmetic::div_mod::lemma_div_denominator(v as int, 0x1000000, 0x100);
    vstd::arithmetic::div_mod::lemma_div_denominator(v as int, 0x100000000, 0x100);
    vstd::arithmetic::div_mod::lemma_div_denominator(v as int, 0x10000000000, 0x100);
    vstd::arithmetic::div_mod::lemma_div_denominator(v as int, 0x1000000000000, 0x100);
    assert((v as nat / 0x100000000000000) % 0x100 == v as nat / 0x100000000000000);
}

/// The public-input vector binds the withdrawal's arguments: two argument
/// lists that assemble to the same 192 bytes agree on every field. Together
/// with the verifier deciding on the byte vector alone, a proof accepted for
/// one argument list cannot be replayed with any other.
pub proof fn lemma_public_inputs_binding(
    root1: Seq<u8>,
    nh1: Seq<u8>,
    rec1: Seq<u8>,
    rel1: Seq<u8>,
    fee1: u64,
    refund1: u64,
    root2: Seq<u8>,
    nh2: Seq<u8>,
    rec2: Seq<u8>,
    rel2: Seq<u8>,
    fee2: u64,
    refund2: u64,
)
    requires
        root1.len() == 32 && nh1.len() == 32 && rec1.len() == 32 && rel1.len() == 32,
        root2.len() == 32 && nh2.len() == 32 && rec2.len() == 32 && rel2.len() == 32,
        spec_public_inputs(root1, nh1, rec1, rel1, fee1, refund1) == spec_public_inputs(
            root2,
            nh2,
            rec2,
            rel2,
            fee2,
            refund2,
        ),
    ensures
        root1 == root2,
        nh1 == nh2,
        rec1 == rec2,
        rel1 == rel2,
        fee1 == fee2,
        refund1 == refund2,
{
    let s1 = spec_public_inputs(root1, nh1, rec1, rel1, fee1, refund1);
    let s2 = spec_public_inputs(root2, nh2, rec2, rel2, fee2, refund2);
    assert forall|k: int| 0 <= k < 32 implies root1[k] == root2[k] && nh1[k] == nh2[k] && rec1[k]
        == rec2[k] && rel1[k] == rel2[k] by {
        assert(s1[k] == root1[k] && s2[k] == root2[k]);
        assert(s1[k + 32] == nh1[k] && s2[k + 32] == nh2[k]);
        assert(s1[k + 64] == rec1[k] && s2[k + 64] == rec2[k]);
        assert(s1[k + 96] == rel1[k] && s2[k + 96] == rel2[k]);
        assert(s1[k] == s2[k] && s1[k + 32] == s2[k + 32] && s1[k + 64] == s2[k + 64] && s1[k + 96]
            == s2[k + 96]);
    }
    assert(root1 =~= root2);
    assert(nh1 =~= nh2);
    assert(rec1 =~= rec2);
    assert(rel1 =~= rel2);
    assert forall|j: int| 0 <= j < 8 implies u64_pad32_byte(fee1, j) == u64_pad32_byte(fee2, j)
        && u64_pad32_byte(refund1, j) == u64_pad32_byte(refund2, j) by {
        assert(s1[128 + j] == u64_pad32_byte(fee1, j) && s2[128 + j] == u64_pad32_byte(fee2, j));
        assert(s1[160 + j] == u64_pad32_byte(refund1, j) && s2[160 + j] == u64_pad32_byte(
            refund2,
            j,
        ));
        assert(s1[128 + j] == s2[128 + j] && s1[160 + j] == s2[160 + j]);
    }
    lemma_u64_pad_bytes_recover(fee1);
    lemma_u64_pad_bytes_recover(fee2);
    lemma_u64_pad_bytes_recover(refund1);
    lemma_u64_pad_bytes_recover(refund2);
}

/// Verify a withdrawal proof against the six public inputs.
///
/// Succeeds — returning `Ok(true)` — exactly when the proof blob is 256
/// bytes, every public input is a canonical scalar, and the Groth16 check
/// over the supplied verifying key accepts. Anything else is an invalid
/// proof; out-of-range inputs are rejected here rather than silently reduced.
pub fn verify_tornado_proof(vk_bytes: &[u8], proof_data: &[u8], public_inputs: &[u8; 192]) -> (r:
    Result<bool, TornadoError>)
    ensures
        r is Ok <==> (proof_data@.len() == 256 && public_inputs_canonical(public_inputs@)
            && groth16_accepts(vk_bytes@, proof_data@, public_inputs@)),
        r matches Ok(b) ==> b == true,
        r is Err ==> r == Err::<bool, TornadoError>(TornadoError::InvalidProof),
{
    if proof_data.len() != 256 {
        return Err(TornadoError::InvalidProof);
    }
    let mut i: usize = 0;
    while i < 6
        invariant
            i <= 6,
            forall|k: int|
                0 <= k < i ==> is_canonical_bytes(
                    #[trigger] public_inputs@.subrange(32 * k, 32 * k + 32),
                ),
        decreases 6 - i,
    {
        let chunk = input_chunk(public_inputs, 32 * i);
        if !is_canonical(&chunk) {
            proof {
                assert(!is_canonical_bytes(
                    public_inputs@.subrange(32 * (i as int), 32 * (i as int) + 32),
                ));
            }
            return Err(TornadoError::InvalidProof);
        }
        i = i + 1;
    }
    if groth16_pairing_check(vk_bytes, proof_data, public_inputs) {
        Ok(true)
    } else {
        Err(TornadoError::InvalidProof)
    }
}

} // verus!
