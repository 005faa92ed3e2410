//! The wire format of the pool's three instructions.
//!
//! One tag byte selects the operation; payload fields follow little-endian.
//! Vectors are length-prefixed with a 4-byte little-endian length; the
//! withdrawal proof must be exactly 256 bytes.

use vstd::prelude::*;

use crate::error::TornadoError;
use crate::field::u64_le;

verus! {

/// The tag byte of an Initialize instruction.
pub const TAG_INITIALIZE: u8 = 0;

/// The tag byte of a Deposit instruction.
pub const TAG_DEPOSIT: u8 = 1;

/// The tag byte of a Withdraw instruction.
pub const TAG_WITHDRAW: u8 = 2;

/// The byte length of a serialised proof.
pub const PROOF_LEN: usize = 256;

/// Instructions the pool accepts.
#[derive(Clone, Debug, PartialEq, Eq)]
pub enum TornadoInstruction {
    /// Create the pool: fix its denomination and tree height.
    Initialize {
        /// The fixed amount of every deposit and withdrawal.
        denomination: u64,
        /// The height of the Merkle tree.
        merkle_tree_height: u8,
    },
    /// Lock one denomination together with a commitment.
    Deposit {
        /// The commitment to insert as a leaf.
        commitment: [u8; 32],
    },
    /// Withdraw one denomination against a zero-knowledge proof.
    Withdraw {
        /// The serialised proof, 256 bytes.
        proof: Vec<u8>,
        /// The Merkle root the proof was generated against.
        root: [u8; 32],
        /// The nullifier hash revealed to prevent double-spending.
        nullifier_hash: [u8; 32],
        /// The recipient address.
        recipient: [u8; 32],
        /// The relayer address.
        relayer: [u8; 32],
        /// The fee paid to the relayer, in native-coin units.
        fee: u64,
        /// The refund amount; must be zero for native-coin pools.
        refund: u64,
    },
}

/// The value of a 4-byte little-endian unsigned integer.
pub open spec fn u32_le(s: Seq<u8>) -> nat
    recommends
        s.len() == 4,
{
    s[0] as nat + s[1] as nat * 0x100 + s[2] as nat * 0x10000 + s[3] as nat * 0x1000000
}

/// The byte length of a serialised Withdraw instruction.
pub open spec fn withdraw_len() -> int {
    405
}

/// Whether a byte string is a well-formed instruction encoding.
pub open spec fn wf_instruction_bytes(d: Seq<u8>) -> bool {
    d.len() >= 1 && ((d[0] == TAG_INITIALIZE && d.len() == 10) || (d[0] == TAG_DEPOSIT && d.len()
        == 33) || (d[0] == TAG_WITHDRAW && d.len() == withdraw_len() && u32_le(d.subrange(1, 5))
        == PROOF_LEN as nat))
}

/// Whether an instruction value is what a byte string encodes.
pub open spec fn instruction_matches_bytes(i: TornadoInstruction, d: Seq<u8>) -> bool {
    match i {
        TornadoInstruction::Initialize { denomination, merkle_tree_height } => {
            &&& d.len() == 10
            &&& d[0] == TAG_INITIALIZE
            &&& denomination as nat == u64_le(d.subrange(1, 9))
            &&& merkle_tree_height == d[9]
        },
        TornadoInstruction::Deposit { commitment } => {
            &&& d.len() == 33
            &&& d[0] == TAG_DEPOSIT
            &&& commitment@ == d.subrange(1, 33)
        },
        TornadoInstruction::Withdraw {
            proof,
            root,
            nullifier_hash,
            recipient,
            relayer,
            fee,
            refund,
        } => {
            &&& d.len() == withdraw_len()
            &&& d[0] == TAG_WITHDRAW
            &&& u32_le(d.subrange(1, 5)) == PROOF_LEN as nat
            &&& proof@ == d.subrange(5, 261)
            &&& root@ == d.subrange(261, 293)
            &&& nullifier_hash@ == d.subrange(293, 325)
            &&& recipient@ == d.subrange(325, 357)
            &&& relayer@ == d.subrange(357, 389)
            &&& fee as nat == u64_le(d.subrange(389, 397))
            &&& refund as nat == u64_le(d.subrange(397, 405))
        },
    }
}

/// Whether two instruction values are interchangeable: the same variant
/// with the same field contents.
pub open spec fn instructions_equivalent(i1: TornadoInstruction, i2: TornadoInstruction) -> bool {
    match (i1, i2) {
        (
            TornadoInstruction::Initialize { denomination: d1, merkle_tree_height: h1 },
            TornadoInstruction::Initialize { denomination: d2, merkle_tree_height: h2 },
        ) => d1 == d2 && h1 == h2,
        (
            TornadoInstruction::Deposit { commitment: c1 },
            TornadoInstruction::Deposit { commitment: c2 },
        ) => c1@ == c2@,
        (
            TornadoInstruction::Withdraw {
                proof: p1,
                root: r1,
                nullifier_hash: n1,
                recipient: re1,
                relayer: rl1,
                fee: f1,
                refund: u1,
            },
            TornadoInstruction::Withdraw {
                proof: p2,
                root: r2,
                nullifier_hash: n2,
                recipient: re2,
                relayer: rl2,
                fee: f2,
                refund: u2,
            },
        ) => p1@ == p2@ && r1@ == r2@ && n1@ == n2@ && re1@ == re2@ && rl1@ == rl2@ && f1 == f2
            && u1 == u2,
        _ => false,
    }
}

/// The wire format is unambiguous: two instructions encoded by the same
/// byte string carry the same operation with the same contents. Together
/// with the encoder's and decoder's contracts, decoding an encoding gives
/// the instruction back.
pub proof fn lemma_encoding_unambiguous(i1: TornadoInstruction, i2: TornadoInstruction, d: Seq<u8>)
    requires
        instruction_matches_bytes(i1, d),
        instruction_matches_bytes(i2, d),
    ensures
        instructions_equivalent(i1, i2),
{
}

/// Read an 8-byte little-endian integer at `offset`.
pub(crate) fn read_u64_le(data: &[u8], offset: usize) -> (r: u64)
    requires
        offset + 8 <= data@.len(),
    ensures
        r as nat == u64_le(data@.subrange(offset as int, offset as int + 8)),
{
    let r: u64 = data[offset] as u64 + data[offset + 1] as u64 * 0x100 + data[offset + 2] as u64
        * 0x10000 + data[offset + 3] as u64 * 0x1000000 + data[offset + 4] as u64 * 0x100000000
        + data[offset + 5] as u64 * 0x10000000000 + data[offset + 6] as u64 * 0x1000000000000
        + data[offset + 7] as u64 * 0x100000000000000;
    proof {
        assert(u64_le(data@.subrange(offset as int, offset as int + 8)) == r as nat);
    }
    r
}

/// Read a 4-byte little-endian integer at `offset`.
pub(crate) fn read_u32_le(data: &[u8], offset: usize) -> (r: u32)
    requires
        offset + 4 <= data@.len(),
    ensures
        r as nat == u32_le(data@.subrange(offset as int, offset as int + 4)),
{
    let r: u32 = data[offset] as u32 + data[offset + 1] as u32 * 0x100 + data[offset + 2] as u32
        * 0x10000 + data[offset + 3] as u32 * 0x1000000;
    proof {
        assert(u32_le(data@.subrange(offset as int, offset as int + 4)) == r as nat);
    }
    r
}

/// Copy 32 bytes at `offset` into an owned value.
pub(crate) fn read_bytes32(data: &[u8], offset: usize) -> (r: [u8; 32])
    requires
        offset + 32 <= data@.len(),
    ensures
        r@ == data@.subrange(offset as int, offset as int + 32),
{
    let data_len: usize = data.len();
    let mut out: [u8; 32] = [0u8; 32];
    let mut i: usize = 0;
    while i < 32
        invariant
            i <= 32,
            offset + 32 <= data@.len(),
            data@.len() == data_len as nat,
            forall|k: int| 0 <= k < i ==> out@[k] == data@[offset + k],
        decreases 32 - i,
    {
        out[i] = data[offset + i];
        i = i + 1;
    }
    proof {
        assert(out@ =~= data@.subrange(offset as int, offset as int + 32));
    }
    out
}

/// Copy a byte range into an owned vector.
pub(crate) fn read_bytes_vec(data: &[u8], offset: usize, len: usize) -> (r: Vec<u8>)
    requires
        offset + len <= data@.len(),
    ensures
        r@ == data@.subrange(offset as int, offset as int + len as int),
{
    let data_len: usize = data.len();
    let mut out: Vec<u8> = Vec::new();
    let mut i: usize = 0;
    while i < len
        invariant
            i <= len,
            offset + len <= data@.len(),
            data@.len() == data_len as nat,
            out@ == data@.subrange(offset as int, offset as int + i as int),
        decreases len - i,
    {
        out.push(data[offset + i]);
        proof {
            assert(out@ =~= data@.subrange(offset as int, offset as int + i + 1));
        }
        i = i + 1;
    }
    out
}

/// Decode an instruction from its wire form.
///
/// Succeeds exactly on well-formed encodings; anything else — an unknown
/// tag, a wrong length, a proof length other than 256 — is rejected as
/// invalid instruction data.
pub fn parse_instruction(data: &[u8]) -> (r: Result<TornadoInstruction, TornadoError>)
    ensures
        r is Ok <==> wf_instruction_bytes(data@),
        r matches Ok(i) ==> instruction_matches_bytes(i, data@),
        r is Err ==> r == Err::<TornadoInstruction, TornadoError>(
            TornadoError::InvalidInstructionData,
        ),
{
    if data.len() < 1 {
        return Err(TornadoError::InvalidInstructionData);
    }
    let tag: u8 = data[0];
    if tag == TAG_INITIALIZE {
        if data.len() != 10 {
            return Err(TornadoError::InvalidInstructionData);
        }
        let denomination: u64 = read_u64_le(data, 1);
        let merkle_tree_height: u8 = data[9];
        Ok(TornadoInstruction::Initialize { denomination, merkle_tree_height })
    } else if tag == TAG_DEPOSIT {
        if data.len() != 33 {
            return Err(TornadoError::InvalidInstructionData);
        }
        let commitment = read_bytes32(data, 1);
        Ok(TornadoInstruction::Deposit { commitment })
    } else if tag == TAG_WITHDRAW {
        if data.len() != 405 {
            return Err(TornadoError::InvalidInstructionData);
        }
        let proof_len: u32 = read_u32_le(data, 1);
        if proof_len != 256 {
            return Err(TornadoError::InvalidInstructionData);
        }
        let proof = read_bytes_vec(data, 5, 256);
        let root = read_bytes32(data, 261);
        let nullifier_hash = read_bytes32(data, 293);
        let recipient = read_bytes32(data, 325);
        let relayer = read_bytes32(data, 357);
        let fee: u64 = read_u64_le(data, 389);
        let refund: u64 = read_u64_le(data, 397);
        Ok(
            TornadoInstruction::Withdraw {
                proof,
                root,
                nullifier_hash,
                recipient,
                relayer,
                fee,
                refund,
            },
        )
    } else {
        Err(TornadoError::InvalidInstructionData)
    }
}

/// Append the 8 little-endian bytes of `v`.
pub(crate) fn push_u64_le(out: &mut Vec<u8>, v: u64)
    ensures
        final(out)@.len() == old(out)@.len() + 8,
        final(out)@.subrange(0, old(out)@.len() as int) == old(out)@,
        u64_le(final(out)@.subrange(old(out)@.len() as int, old(out)@.len() as int + 8))
            == v as nat,
{
    let ghost base: int = out@.len() as int;
    let b0: u8 = (v % 256) as u8;
    let x1: u64 = v / 256;
    let b1: u8 = (x1 % 256) as u8;
    let x2: u64 = x1 / 256;
    let b2: u8 = (x2 % 256) as u8;
    let x3: u64 = x2 / 256;
    let b3: u8 = (x3 % 256) as u8;
    let x4: u64 = x3 / 256;
    let b4: u8 = (x4 % 256) as u8;
    let x5: u64 = x4 / 256;
    let b5: u8 = (x5 % 256) as u8;
    let x6: u64 = x5 / 256;
    let b6: u8 = (x6 % 256) as u8;
    let x7: u64 = x6 / 256;
    let b7: u8 = (x7 % 256) as u8;
    out.push(b0);
    out.push(b1);
    out.push(b2);
    out.push(b3);
    out.push(b4);
    out.push(b5);
    out.push(b6);
    out.push(b7);
    proof {
        assert(out@.subrange(0, base) =~= old(out)@);
        assert(u64_le(out@.subrange(base, base + 8)) == v as nat);
    }
}

/// Append 32 bytes.
pub(crate) fn push_bytes32(out: &mut Vec<u8>, src: &[u8; 32])
    ensures
        final(out)@.len() == old(out)@.len() + 32,
        final(out)@.subrange(0, old(out)@.len() as int) == old(out)@,
        final(out)@.subrange(old(out)@.len() as int, old(out)@.len() as int + 32) == src@,
{
    let ghost base: int = out@.len() as int;
    let mut i: usize = 0;
    while i < 32
        invariant
            i <= 32,
            out@.len() == base + i,
            0 <= base,
            out@.subrange(0, base) == old(out)@,
            out@.subrange(base, base + i as int) == src@.subrange(0, i as int),
        decreases 32 - i,
    {
        out.push(src[i]);
        proof {
            assert(out@.subrange(0, base) =~= old(out)@);
            assert(out@.subrange(base, base + i + 1) =~= src@.subrange(0, i + 1));
        }
        i = i + 1;
    }
    proof {
        assert(out@.subrange(base, base + 32) =~= src@);
    }
}

/// Append a whole byte vector.
pub(crate) fn push_bytes_vec(out: &mut Vec<u8>, src: &Vec<u8>)
    ensures
        final(out)@.len() == old(out)@.len() + src@.len(),
        final(out)@.subrange(0, old(out)@.len() as int) == old(out)@,
        final(out)@.subrange(old(out)@.len() as int, old(out)@.len() as int + src@.len() as int)
            == src@,
{
    let ghost base: int = out@.len() as int;
    let mut i: usize = 0;
    while i < src.len()
        invariant
            i <= src@.len(),
            out@.len() == base + i,
            0 <= base,
            out@.subrange(0, base) == old(out)@,
            out@.subrange(base, base + i as int) == src@.subrange(0, i as int),
        decreases src@.len() - i,
    {
        out.push(src[i]);
        proof {
            assert(out@.subrange(0, base) =~= old(out)@);
            assert(out@.subrange(base, base + i + 1) =~= src@.subrange(0, i + 1));
        }
        i = i + 1;
    }
    proof {
        assert(out@.subrange(base, base + src@.len() as int) =~= src@);
    }
}

impl TornadoInstruction {
    /// Encode the instruction into its wire form. A withdrawal must carry a
    /// 256-byte proof; the other instructions are always encodable.
    pub fn encode(&self) -> (r: Vec<u8>)
        requires
            self matches TornadoInstruction::Withdraw { proof, .. } ==> proof@.len() == 256,
        ensures
            wf_instruction_bytes(r@),
            instruction_matches_bytes(*self, r@),
    {
        let mut out: Vec<u8> = Vec::new();
        match self {
            TornadoInstruction::Initialize { denomination, merkle_tree_height } => {
                out.push(TAG_INITIALIZE);
                let ghost s1: Seq<u8> = out@;
                push_u64_le(&mut out, *denomination);
                let ghost s9: Seq<u8> = out@;
                out.push(*merkle_tree_height);
                proof {
                    let d: Seq<u8> = out@;
                    assert(d.len() == 10);
                    assert forall|k: int| 0 <= k < 9 implies d[k] == s9[k] by {}
                    assert forall|k: int| 0 <= k < 1 implies s9[k] == s1[k] by {
                        assert(s9.subrange(0, 1)[k] == s1[k]);
                    }
                    assert(d[0] == TAG_INITIALIZE);
                    assert(d[9] == *merkle_tree_height);
                    assert(u64_le(d.subrange(1, 9)) == *denomination as nat) by {
                        assert forall|k: int| 0 <= k < 8 implies d.subrange(1, 9)[k]
                            == s9.subrange(1, 9)[k] by {
                            assert(s9.subrange(1, 9)[k] == s9[1 + k]);
                        }
                        assert(d.subrange(1, 9) =~= s9.subrange(1, 9));
                    }
                }
            },
            TornadoInstruction::Deposit { commitment } => {
                out.push(TAG_DEPOSIT);
                let ghost s1: Seq<u8> = out@;
                push_bytes32(&mut out, commitment);
                proof {
                    let d: Seq<u8> = out@;
                    assert(d.len() == 33);
                    assert forall|k: int| 0 <= k < 1 implies d[k] == s1[k] by {
                        assert(d.subrange(0, 1)[k] == s1[k]);
                    }
                    assert(d[0] == TAG_DEPOSIT);
                    assert(commitment@ == d.subrange(1, 33));
                }
            },
            TornadoInstruction::Withdraw {
                proof,
                root,
                nullifier_hash,
                recipient,
                relayer,
                fee,
                refund,
            } => {
                out.push(TAG_WITHDRAW);
                out.push(0u8);
                out.push(1u8);
                out.push(0u8);
                out.push(0u8);
                let ghost d5: Seq<u8> = out@;
                push_bytes_vec(&mut out, proof);
                let ghost d261: Seq<u8> = out@;
                push_bytes32(&mut out, root);
                let ghost d293: Seq<u8> = out@;
                push_bytes32(&mut out, nullifier_hash);
                let ghost d325: Seq<u8> = out@;
                push_bytes32(&mut out, recipient);
                let ghost d357: Seq<u8> = out@;
                push_bytes32(&mut out, relayer);
                let ghost d389: Seq<u8> = out@;
                push_u64_le(&mut out, *fee);
                let ghost d397: Seq<u8> = out@;
                push_u64_le(&mut out, *refund);
                proof {
                    let d: Seq<u8> = out@;
                    assert(d.len() == 405);
                    assert forall|k: int| 0 <= k < 397 implies d[k] == d397[k] by {
                        assert(d.subrange(0, 397)[k] == d397[k]);
                    }
                    assert forall|k: int| 0 <= k < 389 implies d397[k] == d389[k] by {
                        assert(d397.subrange(0, 389)[k] == d389[k]);
                    }
                    assert forall|k: int| 0 <= k < 357 implies d389[k] == d357[k] by {
                        assert(d389.subrange(0, 357)[k] == d357[k]);
                    }
                    assert forall|k: int| 0 <= k < 325 implies d357[k] == d325[k] by {
                        assert(d357.subrange(0, 325)[k] == d325[k]);
                    }
                    assert forall|k: int| 0 <= k < 293 implies d325[k] == d293[k] by {
                        assert(d325.subrange(0, 293)[k] == d293[k]);
                    }
                    assert forall|k: int| 0 <= k < 261 implies d293[k] == d261[k] by {
                        assert(d293.subrange(0, 261)[k] == d261[k]);
                    }
                    assert forall|k: int| 0 <= k < 5 implies d261[k] == d5[k] by {
                        assert(d261.subrange(0, 5)[k] == d5[k]);
                    }
                    assert(u32_le(d.subrange(1, 5)) == 256) by {
                        assert(d[1] == d5[1] && d[2] == d5[2] && d[3] == d5[3] && d[4] == d5[4]);
                    }
                    assert(proof@ =~= d.subrange(5, 261)) by {
                        assert forall|k: int| 0 <= k < 256 implies d.subrange(5, 261)[k]
                            == proof@[k] by {
                            assert(d261.subrange(5, 261)[k] == proof@[k]);
                            assert(d261.subrange(5, 261)[k] == d261[5 + k]);
                        }
                    }
                    assert(root@ =~= d.subrange(261, 293)) by {
                        assert forall|k: int| 0 <= k < 32 implies d.subrange(261, 293)[k]
                            == root@[k] by {
                            assert(d293.subrange(261, 293)[k] == root@[k]);
                            assert(d293.subrange(261, 293)[k] == d293[261 + k]);
                        }
                    }
                    assert(nullifier_hash@ =~= d.subrange(293, 325)) by {
                        assert forall|k: int| 0 <= k < 32 implies d.subrange(293, 325)[k]
                            == nullifier_hash@[k] by {
                            assert(d325.subrange(293, 325)[k] == nullifier_hash@[k]);
                            assert(d325.subrange(293, 325)[k] == d325[293 + k]);
                        }
                    }
                    assert(recipient@ =~= d.subrange(325, 357)) by {
                        assert forall|k: int| 0 <= k < 32 implies d.subrange(325, 357)[k]
                            == recipient@[k] by {
                            assert(d357.subrange(325, 357)[k] == recipient@[k]);
                            assert(d357.subrange(325, 357)[k] == d357[325 + k]);
                        }
                    }
                    assert(relayer@ =~= d.subrange(357, 389)) by {
                        assert forall|k: int| 0 <= k < 32 implies d.subrange(357, 389)[k]
                            == relayer@[k] by {
                            assert(d389.subrange(357, 389)[k] == relayer@[k]);
                            assert(d389.subrange(357, 389)[k] == d389[357 + k]);
                        }
                    }
                    assert(u64_le(d.subrange(389, 397)) == *fee as nat) by {
                        assert forall|k: int| 0 <= k < 8 implies d.subrange(389, 397)[k]
                            == d397.subrange(389, 397)[k] by {
                            assert(d397.subrange(389, 397)[k] == d397[389 + k]);
                        }
                        assert(d.subrange(389, 397) =~= d397.subrange(389, 397));
                    }
                }
            },
        }
        out
    }
}

} // verus!
