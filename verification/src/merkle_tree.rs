//! The append-only incremental Merkle tree and its SNARK-friendly node hash.
//!
//! Nodes are combined with a MiMC-style permutation: the compression of a
//! left and right child is field-algebraic (additions and cubings modulo the
//! scalar-field prime), so an off-chain prover can express the very same
//! function inside an arithmetic circuit. The concrete permutation — the
//! round count and the round constants below — is part of the pool's
//! definition: the off-chain circuit must match it bit for bit.
//!
//! The tree itself is never materialised. An insert keeps, per level, only
//! the left sibling still waiting for its right partner (`filled_subtrees`),
//! plus a ring buffer of the last [`crate::state::ROOT_HISTORY_SIZE`] roots.

use vstd::prelude::*;

use crate::error::TornadoError;
use crate::field::{
    bytes_to_field_element, bytes32_value, fadd, fcube, fe_value, field_add, field_cube,
    field_element_to_bytes, field_mod, is_canonical_bytes, is_canonical_fe, le_bytes_to_limbs,
    p_value, u64_le,
};
use crate::state::ROOT_HISTORY_SIZE;
use vstd::arithmetic::power2::{
    lemma_pow2_adds, lemma_pow2_strictly_increases, lemma2_to64, pow2,
};
use vstd::arithmetic::div_mod::{
    lemma_fundamental_div_mod_converse, lemma_mod_multiples_vanish, lemma_small_mod,
};
use vstd::assert_seqs_equal;

verus! {

/// Number of rounds of the node permutation.
pub const MIMC_ROUNDS: usize = 20;

/// The designated zero leaf, little-endian: the value an empty leaf slot
/// stands for. A fixed, domain-separated field element.
pub const ZERO_VALUE: [u8; 32] = [
    0x6c,
    0xaf,
    0x99,
    0x48,
    0xed,
    0x85,
    0x96,
    0x24,
    0xe2,
    0x41,
    0xe7,
    0x76,
    0x0f,
    0x34,
    0x1b,
    0x82,
    0xb4,
    0x5d,
    0xa1,
    0xeb,
    0xb6,
    0x35,
    0x3a,
    0x34,
    0xf3,
    0xab,
    0xac,
    0xd3,
    0x60,
    0x4c,
    0xe5,
    0x2f,
];

/// The integer the zero leaf denotes.
pub open spec fn zero_leaf_value() -> nat {
    0x2fe54c60d3acabf3343a35b6eba15db4821b340f76e741e2249685ed4899af6cnat
}

/// The zero leaf is a canonical encoding of [`zero_leaf_value`].
pub proof fn lemma_zero_value_canonical()
    ensures
        is_canonical_bytes(ZERO_VALUE@),
        bytes32_value(ZERO_VALUE@) == zero_leaf_value(),
{
    assert(u64_le(ZERO_VALUE@.subrange(0, 8)) == 0x249685ed4899af6cnat);
    assert(u64_le(ZERO_VALUE@.subrange(8, 16)) == 0x821b340f76e741e2nat);
    assert(u64_le(ZERO_VALUE@.subrange(16, 24)) == 0x343a35b6eba15db4nat);
    assert(u64_le(ZERO_VALUE@.subrange(24, 32)) == 0x2fe54c60d3acabf3nat);
}

/// The unreduced round constant of round `i` of the permutation.
pub open spec fn mimc_round_constant_value(i: int) -> nat {
    if i == 0 {
        0x082efa98ec4e6c89a4093822299f31d013198a2e03707344243f6a8885a308d3nat
    } else if i == 1 {
        0x3f84d5b5b5470917c0ac29b7c97c50ddbe5466cf34e90c6c452821e638d01377nat
    } else if i == 2 {
        0xb8e1afed6a267e962ffd72dbd01adfb7d1310ba698dfb5ac9216d5d98979fb1bnat
    } else if i == 3 {
        0x636920d871574e690801f2e2858efc1624a19947b3916cf7ba7c9045f12c7f99nat
    } else if i == 4 {
        0x7b54a41dc25a59b5718bcd5882154aee0d95748f728eb658a458fea3f4933d7enat
    } else if i == 5 {
        0x8e79dcb0603a180eca417918b8db38efc5d1b023286085f09c30d5392af26013nat
    } else if i == 6 {
        0xe65525f3aa55ab9478af2fda55605c60d71577c1bd314b276c9e0e8bb01e8a3enat
    } else if i == 7 {
        0x55aa55aa55aa55aaaa55ab94aaaa555555aa55aa55aa55aaaa55ab94aaaa5555nat
    } else if i == 8 {
        0xa55aa55aa55aa55a5aa55aa55aa55aa5a55aa55aa55aa55a5aa55aa55aa55aa5nat
    } else if i == 9 {
        0xaaaaaaaaaaaaaaaaaaaaaaaaaaaaaaaaaaaaaaaaaaaaaaaaaaaaaaaaaaaaaaaanat
    } else if i == 10 {
        0x5555555555555555555555555555555555555555555555555555555555555555nat
    } else if i == 11 {
        0x5555555555555555aaaaaaaaaaaaaaaa5555555555555555aaaaaaaaaaaaaaaanat
    } else if i == 12 {
        0xaaaaaaaaaaaaaaaa5555555555555555aaaaaaaaaaaaaaaa5555555555555555nat
    } else if i == 13 {
        0x4444444444444444333333333333333322222222222222221111111111111111nat
    } else if i == 14 {
        0x8888888888888888777777777777777766666666666666665555555555555555nat
    } else if i == 15 {
        0xccccccccccccccccbbbbbbbbbbbbbbbbaaaaaaaaaaaaaaaa9999999999999999nat
    } else if i == 16 {
        0x0000000000000000ffffffffffffffffeeeeeeeeeeeeeeeeddddddddddddddddnat
    } else if i == 17 {
        0xfedcba09876543211234567890abcdeffedcba09876543211234567890abcdefnat
    } else if i == 18 {
        0xfedcba98765432100123456789abcdeffedcba98765432100123456789abcdefnat
    } else {
        0nat
    }
}

/// The unreduced round constant of round `i`, as four little-endian limbs.
fn mimc_round_constant(i: usize) -> (r: [u64; 4])
    requires
        i < MIMC_ROUNDS,
    ensures
        fe_value(r@) == mimc_round_constant_value(i as int),
{
    match i {
        0 => [0x243f6a8885a308d3, 0x13198a2e03707344, 0xa4093822299f31d0, 0x082efa98ec4e6c89],
        1 => [0x452821e638d01377, 0xbe5466cf34e90c6c, 0xc0ac29b7c97c50dd, 0x3f84d5b5b5470917],
        2 => [0x9216d5d98979fb1b, 0xd1310ba698dfb5ac, 0x2ffd72dbd01adfb7, 0xb8e1afed6a267e96],
        3 => [0xba7c9045f12c7f99, 0x24a19947b3916cf7, 0x0801f2e2858efc16, 0x636920d871574e69],
        4 => [0xa458fea3f4933d7e, 0x0d95748f728eb658, 0x718bcd5882154aee, 0x7b54a41dc25a59b5],
        5 => [0x9c30d5392af26013, 0xc5d1b023286085f0, 0xca417918b8db38ef, 0x8e79dcb0603a180e],
        6 => [0x6c9e0e8bb01e8a3e, 0xd71577c1bd314b27, 0x78af2fda55605c60, 0xe65525f3aa55ab94],
        7 => [0xaa55ab94aaaa5555, 0x55aa55aa55aa55aa, 0xaa55ab94aaaa5555, 0x55aa55aa55aa55aa],
        8 => [0x5aa55aa55aa55aa5, 0xa55aa55aa55aa55a, 0x5aa55aa55aa55aa5, 0xa55aa55aa55aa55a],
        9 => [0xaaaaaaaaaaaaaaaa, 0xaaaaaaaaaaaaaaaa, 0xaaaaaaaaaaaaaaaa, 0xaaaaaaaaaaaaaaaa],
        10 => [0x5555555555555555, 0x5555555555555555, 0x5555555555555555, 0x5555555555555555],
        11 => [0xaaaaaaaaaaaaaaaa, 0x5555555555555555, 0xaaaaaaaaaaaaaaaa, 0x5555555555555555],
        12 => [0x5555555555555555, 0xaaaaaaaaaaaaaaaa, 0x5555555555555555, 0xaaaaaaaaaaaaaaaa],
        13 => [0x1111111111111111, 0x2222222222222222, 0x3333333333333333, 0x4444444444444444],
        14 => [0x5555555555555555, 0x6666666666666666, 0x7777777777777777, 0x8888888888888888],
        15 => [0x9999999999999999, 0xaaaaaaaaaaaaaaaa, 0xbbbbbbbbbbbbbbbb, 0xcccccccccccccccc],
        16 => [0xdddddddddddddddd, 0xeeeeeeeeeeeeeeee, 0xffffffffffffffff, 0x0000000000000000],
        17 => [0x1234567890abcdef, 0xfedcba0987654321, 0x1234567890abcdef, 0xfedcba0987654321],
        18 => [0x0123456789abcdef, 0xfedcba9876543210, 0x0123456789abcdef, 0xfedcba9876543210],
        _ => [0x0000000000000000, 0x0000000000000000, 0x0000000000000000, 0x0000000000000000],
    }
}

/// One round of the permutation: add the (reduced) round constant, then cube.
pub open spec fn mimc_round_step(s: nat, i: int) -> nat {
    fcube(fadd(s, mimc_round_constant_value(i) % p_value()))
}

/// The permutation from round `i` on, applied to state `s`.
pub open spec fn mimc_rounds_from(s: nat, i: int) -> nat
    decreases MIMC_ROUNDS - i,
{
    if i < 0 || i >= MIMC_ROUNDS {
        s
    } else {
        mimc_rounds_from(mimc_round_step(s, i), i + 1)
    }
}

/// The 2-to-1 node hash at the value level: a keyed permutation of the sum,
/// with the right input folded in once more at the end.
pub open spec fn mimc_value(l: nat, r: nat) -> nat {
    fadd(mimc_rounds_from(fadd(l, r), 0), r)
}

/// The MiMC-style 2-to-1 hash over field elements.
///
/// Succeeds on all canonical inputs; the result is again canonical.
pub fn mimc_hash(left: [u64; 4], right: [u64; 4]) -> (r: Result<[u64; 4], TornadoError>)
    requires
        is_canonical_fe(left@),
        is_canonical_fe(right@),
    ensures
        r is Ok,
        r matches Ok(v) ==> is_canonical_fe(v@) && fe_value(v@) == mimc_value(
            fe_value(left@),
            fe_value(right@),
        ),
{
    let ghost start: nat = fadd(fe_value(left@), fe_value(right@));
    let mut state: [u64; 4] = field_add(left, right);
    let mut i: usize = 0;
    while i < MIMC_ROUNDS
        invariant
            i <= MIMC_ROUNDS,
            is_canonical_fe(state@),
            is_canonical_fe(right@),
            mimc_rounds_from(fe_value(state@), i as int) == mimc_rounds_from(start, 0),
        decreases MIMC_ROUNDS - i,
    {
        let ghost pre: nat = fe_value(state@);
        let constant = mimc_round_constant(i);
        let reduced = field_mod(constant);
        state = field_add(state, reduced);
        state = field_cube(state)?;
        proof {
            assert(fe_value(state@) == mimc_round_step(pre, i as int));
        }
        i = i + 1;
    }
    let out = field_add(state, right);
    Ok(out)
}

/// Hash two 32-byte little-endian nodes into their parent node.
///
/// Both inputs must be canonical encodings; the result is the canonical
/// encoding of [`mimc_value`] of their values.
pub fn hash_left_right(left: &[u8; 32], right: &[u8; 32]) -> (r: Result<[u8; 32], TornadoError>)
    ensures
        r is Ok <==> is_canonical_bytes(left@) && is_canonical_bytes(right@),
        r matches Ok(h) ==> is_canonical_bytes(h@) && bytes32_value(h@) == mimc_value(
            bytes32_value(left@),
            bytes32_value(right@),
        ),
        r matches Err(e) ==> e == TornadoError::InvalidCommitment,
{
    let left_fe = bytes_to_field_element(left)?;
    let right_fe = bytes_to_field_element(right)?;
    let result_fe = mimc_hash(left_fe, right_fe)?;
    Ok(field_element_to_bytes(result_fe))
}

/// The value of an all-empty subtree of height `i`.
pub open spec fn zeros_value(i: int) -> nat
    decreases i,
{
    if i <= 0 {
        zero_leaf_value()
    } else {
        mimc_value(zeros_value(i - 1), zeros_value(i - 1))
    }
}

/// Every entry of a node vector is a canonical encoding.
pub open spec fn all_canonical(s: Seq<[u8; 32]>) -> bool {
    forall|i: int| 0 <= i < s.len() ==> is_canonical_bytes(#[trigger] s[i]@)
}

/// The values a node vector denotes, entry by entry.
pub open spec fn node_values(s: Seq<[u8; 32]>) -> Seq<nat> {
    Seq::new(s.len(), |i: int| bytes32_value(s[i]@))
}

/// A byte sequence of all zero bytes.
pub open spec fn is_zero_bytes(s: Seq<u8>) -> bool {
    forall|i: int| 0 <= i < s.len() ==> s[i] == 0
}

/// Whether `root` counts as known against a ring buffer: it is not the
/// all-zero sentinel and sits in some slot.
pub open spec fn known_root_in(roots: Seq<[u8; 32]>, root: Seq<u8>) -> bool {
    !is_zero_bytes(root) && exists|i: int|
        0 <= i < roots.len() && #[trigger] roots[i]@ == root
}

/// The all-zero encoding is never a known root, whatever the ring holds.
pub proof fn lemma_zero_root_never_known(roots: Seq<[u8; 32]>, root: Seq<u8>)
    requires
        is_zero_bytes(root),
    ensures
        !known_root_in(roots, root),
{
}

/// The running node value entering level `lvl` while inserting the leaf with
/// value `leaf_v` at position `idx`, with `fv` the values of the waiting left
/// siblings before the insert.
pub open spec fn level_value(fv: Seq<nat>, idx: nat, leaf_v: nat, lvl: int) -> nat
    decreases lvl,
{
    if lvl <= 0 {
        leaf_v
    } else {
        let below = level_value(fv, idx, leaf_v, lvl - 1);
        if (idx / pow2((lvl - 1) as nat)) % 2 == 0 {
            mimc_value(below, zeros_value(lvl - 1))
        } else {
            mimc_value(fv[lvl - 1], below)
        }
    }
}

/// The root produced by inserting the leaf with value `leaf_v` at position
/// `idx` into a tree of height `h` whose waiting siblings have values `fv`.
pub open spec fn insert_root_value(fv: Seq<nat>, idx: nat, leaf_v: nat, h: int) -> nat {
    level_value(fv, idx, leaf_v, h)
}

/// `2^height` as a machine word; the leaf capacity of a tree.
pub fn tree_capacity(height: u8) -> (r: u64)
    requires
        height <= 32,
    ensures
        r as nat == pow2(height as nat),
{
    let mut result: u64 = 1;
    let mut i: u8 = 0;
    proof {
        lemma2_to64();
    }
    while i < height
        invariant
            i <= height,
            height <= 32,
            result as nat == pow2(i as nat),
        decreases height - i,
    {
        proof {
            lemma2_to64();
            lemma_pow2_adds(i as nat, 1);
            if (i as nat) + 1 < 32 {
                lemma_pow2_strictly_increases(i as nat + 1, 32);
            }
        }
        result = result * 2;
        i = i + 1;
    }
    result
}

/// Byte equality of two 32-byte values.
fn bytes32_eq(a: &[u8; 32], b: &[u8; 32]) -> (r: bool)
    ensures
        r == (a@ == b@),
{
    let mut i: usize = 0;
    while i < 32
        invariant
            i <= 32,
            forall|k: int| 0 <= k < i ==> a@[k] == b@[k],
        decreases 32 - i,
    {
        if a[i] != b[i] {
            return false;
        }
        i = i + 1;
    }
    proof {
        assert(a@ =~= b@);
    }
    true
}

/// Whether all 32 bytes are zero.
fn bytes32_is_zero(a: &[u8; 32]) -> (r: bool)
    ensures
        r == is_zero_bytes(a@),
{
    let mut i: usize = 0;
    while i < 32
        invariant
            i <= 32,
            forall|k: int| 0 <= k < i ==> a@[k] == 0,
        decreases 32 - i,
    {
        if a[i] != 0 {
            return false;
        }
        i = i + 1;
    }
    true
}

/// Unfolding of [`level_value`] one level up, for use in loop proofs.
proof fn lemma_level_value_unfold(fv: Seq<nat>, idx: nat, leaf_v: nat, lvl: int)
    requires
        lvl >= 0,
    ensures
        (idx / pow2(lvl as nat)) % 2 == 0 ==> level_value(fv, idx, leaf_v, lvl + 1) == mimc_value(
            level_value(fv, idx, leaf_v, lvl),
            zeros_value(lvl),
        ),
        (idx / pow2(lvl as nat)) % 2 != 0 ==> level_value(fv, idx, leaf_v, lvl + 1) == mimc_value(
            fv[lvl],
            level_value(fv, idx, leaf_v, lvl),
        ),
{
}

/// Insert a leaf into the incremental Merkle tree.
///
/// On success the returned index is the position the leaf was inserted at
/// (`next_index`; the caller advances its own copy), the waiting-sibling
/// vector is updated along the insertion path, and the new root is written
/// into the ring buffer one past the previous newest slot. A full tree or a
/// non-canonical leaf is rejected with nothing changed.
/// One level of an insert: hash the running node with its sibling, storing
/// the running node as the new waiting left sibling when it sits on the left.
fn insert_level(
    filled_subtrees: &mut Vec<[u8; 32]>,
    i: usize,
    even: bool,
    cur: &[u8; 32],
) -> (r: [u8; 32])
    requires
        i < old(filled_subtrees)@.len(),
        old(filled_subtrees)@.len() <= 32,
        all_canonical(old(filled_subtrees)@),
        is_canonical_bytes(cur@),
    ensures
        final(filled_subtrees)@.len() == old(filled_subtrees)@.len(),
        all_canonical(final(filled_subtrees)@),
        is_canonical_bytes(r@),
        even ==> final(filled_subtrees)@ == old(filled_subtrees)@.update(i as int, *cur)
            && bytes32_value(r@) == mimc_value(bytes32_value(cur@), zeros_value(i as int)),
        !even ==> *final(filled_subtrees) == *old(filled_subtrees) && bytes32_value(r@)
            == mimc_value(bytes32_value(old(filled_subtrees)@[i as int]@), bytes32_value(cur@)),
{
    let left: [u8; 32];
    let right: [u8; 32];
    if even {
        left = *cur;
        right = get_zero_value(i);
        filled_subtrees.set(i, *cur);
    } else {
        left = filled_subtrees[i];
        right = *cur;
    }
    match hash_left_right(&left, &right) {
        Ok(v) => v,
        Err(_) => {
            // unreachable: both inputs are canonical
            proof {
                assert(false);
            }
            left
        },
    }
}

#[verifier::rlimit(100)]
pub fn insert_leaf(
    leaf: &[u8; 32],
    next_index: u32,
    height: u8,
    filled_subtrees: &mut Vec<[u8; 32]>,
    roots: &mut Vec<[u8; 32]>,
    current_root_index: &mut u8,
) -> (r: Result<u32, TornadoError>)
    requires
        1 <= height <= 32,
        old(filled_subtrees)@.len() == height as int,
        old(roots)@.len() == ROOT_HISTORY_SIZE as int,
        (*old(current_root_index) as int) < ROOT_HISTORY_SIZE as int,
        all_canonical(old(filled_subtrees)@),
    ensures
        r is Err <==> (next_index as nat >= pow2(height as nat) || !is_canonical_bytes(leaf@)),
        next_index as nat >= pow2(height as nat) ==> r == Err::<u32, TornadoError>(
            TornadoError::MerkleTreeFull,
        ),
        (((next_index as nat) < pow2(height as nat)) && !is_canonical_bytes(leaf@)) ==> r
            == Err::<u32, TornadoError>(TornadoError::InvalidCommitment),
        r is Err ==> *final(filled_subtrees) == *old(filled_subtrees) && *final(roots) == *old(
            roots,
        ) && *final(current_root_index) == *old(current_root_index),
        r is Ok ==> r == Ok::<u32, TornadoError>(next_index),
        r is Ok ==> (*final(current_root_index) as int) == ((*old(current_root_index) as int + 1)
            % (ROOT_HISTORY_SIZE as int)),
        r is Ok ==> final(roots)@.len() == ROOT_HISTORY_SIZE as int && (forall|t: int|
            0 <= t < ROOT_HISTORY_SIZE as int && t != (*final(current_root_index) as int)
                ==> final(roots)@[t] == old(roots)@[t]),
        r is Ok ==> is_canonical_bytes(final(roots)@[*final(current_root_index) as int]@)
            && bytes32_value(final(roots)@[*final(current_root_index) as int]@)
            == insert_root_value(
            node_values(old(filled_subtrees)@),
            next_index as nat,
            bytes32_value(leaf@),
            height as int,
        ),
        r is Ok ==> final(filled_subtrees)@.len() == height as int && all_canonical(
            final(filled_subtrees)@,
        ),
        r is Ok ==> (forall|t: int|
            0 <= t < height as int ==> if (next_index as nat / pow2(t as nat)) % 2 == 0 {
                bytes32_value(#[trigger] final(filled_subtrees)@[t]@) == level_value(
                    node_values(old(filled_subtrees)@),
                    next_index as nat,
                    bytes32_value(leaf@),
                    t,
                )
            } else {
                final(filled_subtrees)@[t] == old(filled_subtrees)@[t]
            }),
{
    let capacity: u64 = tree_capacity(height);
    if next_index as u64 >= capacity {
        return Err(TornadoError::MerkleTreeFull);
    }
    if !crate::field::is_canonical(leaf) {
        return Err(TornadoError::InvalidCommitment);
    }
    let ghost fv0: Seq<nat> = node_values(old(filled_subtrees)@);
    let ghost leaf_v: nat = bytes32_value(leaf@);
    let mut current_idx: u32 = next_index;
    let mut cur: [u8; 32] = *leaf;
    proof {
        lemma2_to64();
        assert(current_idx as nat == next_index as nat / pow2(0)) by {
            vstd::arithmetic::div_mod::lemma_div_basics(next_index as int);
        }
    }
    let mut i: usize = 0;
    while i < height as usize
        invariant
            i <= height as int,
            1 <= height <= 32,
            current_idx as nat == next_index as nat / pow2(i as nat),
            is_canonical_bytes(cur@),
            bytes32_value(cur@) == level_value(fv0, next_index as nat, leaf_v, i as int),
            filled_subtrees@.len() == height as int,
            all_canonical(filled_subtrees@),
            old(filled_subtrees)@.len() == height as int,
            all_canonical(old(filled_subtrees)@),
            (*old(current_root_index) as int) < ROOT_HISTORY_SIZE as int,
            roots@ == old(roots)@,
            roots@.len() == ROOT_HISTORY_SIZE as int,
            fv0 == node_values(old(filled_subtrees)@),
            leaf_v == bytes32_value(leaf@),
            (next_index as nat) < pow2(height as nat),
            is_canonical_bytes(leaf@),
            forall|t: int| i as int <= t < height as int ==> filled_subtrees@[t] == old(
                filled_subtrees,
            )@[t],
            forall|t: int|
                0 <= t < i as int ==> if (next_index as nat / pow2(t as nat)) % 2 == 0 {
                    bytes32_value(#[trigger] filled_subtrees@[t]@) == level_value(
                        fv0,
                        next_index as nat,
                        leaf_v,
                        t,
                    )
                } else {
                    filled_subtrees@[t] == old(filled_subtrees)@[t]
                },
        decreases height as int - i,
    {
        let ghost pre_val: nat = bytes32_value(cur@);
        let ghost pre_cur: [u8; 32] = cur;
        let ghost pre_filled: Seq<[u8; 32]> = filled_subtrees@;
        let even: bool = current_idx % 2 == 0;
        proof {
            if !even {
                assert(filled_subtrees@[i as int] == old(filled_subtrees)@[i as int]);
                assert(fv0[i as int] == bytes32_value(old(filled_subtrees)@[i as int]@));
            }
        }
        let hashed = insert_level(filled_subtrees, i, even, &cur);
        cur = hashed;
        proof {
            lemma_level_value_unfold(fv0, next_index as nat, leaf_v, i as int);
            assert(bytes32_value(cur@) == level_value(fv0, next_index as nat, leaf_v, i as int
                + 1));
            if even {
                assert(filled_subtrees@ == pre_filled.update(i as int, pre_cur));
            }
            lemma_pow2_adds(i as nat, 1);
            lemma2_to64();
            vstd::arithmetic::power2::lemma_pow2_pos(i as nat);
            vstd::arithmetic::div_mod::lemma_div_denominator(
                next_index as int,
                pow2(i as nat) as int,
                2,
            );
        }
        current_idx = current_idx / 2;
        i = i + 1;
    }
    let new_root_index: usize = (*current_root_index as usize + 1) % ROOT_HISTORY_SIZE;
    *current_root_index = new_root_index as u8;
    roots.set(new_root_index, cur);
    Ok(next_index)
}

/// Whether `root` is one of the retained historical roots.
///
/// The all-zero encoding is never a known root: it is the sentinel that fills
/// unused ring slots before enough inserts have happened. Every slot of the
/// ring is examined; `current_root_index` marks where the newest root sits
/// but does not affect the answer.
pub fn is_known_root(root: &[u8; 32], roots: &Vec<[u8; 32]>, current_root_index: u8) -> (r: bool)
    requires
        roots@.len() == ROOT_HISTORY_SIZE as int,
    ensures
        r == known_root_in(roots@, root@),
{
    if bytes32_is_zero(root) {
        return false;
    }
    let mut i: usize = 0;
    while i < ROOT_HISTORY_SIZE
        invariant
            i <= ROOT_HISTORY_SIZE as int,
            roots@.len() == ROOT_HISTORY_SIZE as int,
            !is_zero_bytes(root@),
            forall|k: int| 0 <= k < i ==> #[trigger] roots@[k]@ != root@,
        decreases ROOT_HISTORY_SIZE as int - i,
    {
        if bytes32_eq(&roots[i], root) {
            proof {
                assert(roots@[i as int]@ == root@);
            }
            return true;
        }
        i = i + 1;
    }
    false
}

/// The newest root: the ring entry at `current_root_index`.
pub fn get_last_root(roots: &Vec<[u8; 32]>, current_root_index: u8) -> (r: [u8; 32])
    requires
        roots@.len() == ROOT_HISTORY_SIZE as int,
        (current_root_index as int) < ROOT_HISTORY_SIZE as int,
    ensures
        r == roots@[current_root_index as int],
{
    roots[current_root_index as usize]
}

/// The 32 zero bytes: the sentinel filling unused ring slots.
pub open spec fn zero32s() -> Seq<u8> {
    Seq::new(32, |i: int| 0u8)
}

/// The ring buffer, at the view level, after the given roots have been
/// produced in order: thirty all-zero slots to begin with, each new root
/// written one slot past the previous newest. This is exactly how
/// [`insert_leaf`] advances the ring: the newest root of the `n`-th insert
/// sits at slot `n % 30`.
pub open spec fn ring_after(produced: Seq<Seq<u8>>) -> Seq<Seq<u8>>
    decreases produced.len(),
{
    if produced.len() == 0 {
        Seq::new(ROOT_HISTORY_SIZE as nat, |i: int| zero32s())
    } else {
        ring_after(produced.drop_last()).update(
            (produced.len() as int) % (ROOT_HISTORY_SIZE as int),
            produced.last(),
        )
    }
}

/// A ring of 32-byte roots, seen at the view level.
pub open spec fn roots_views(s: Seq<[u8; 32]>) -> Seq<Seq<u8>> {
    Seq::new(s.len(), |i: int| s[i]@)
}

/// The insert whose root a ring slot still holds after `n` inserts: the
/// latest `j` with `(j + 1) % 30 == slot`, or a negative number when the
/// slot was never written.
pub open spec fn slot_source(n: int, slot: int) -> int {
    n - 1 - ((n - slot) % (ROOT_HISTORY_SIZE as int))
}

/// What each ring slot holds after a sequence of inserts: the root of the
/// slot's source insert, or the zero sentinel if it was never written.
proof fn lemma_ring_after_characterisation(produced: Seq<Seq<u8>>)
    ensures
        ring_after(produced).len() == ROOT_HISTORY_SIZE as int,
        forall|slot: int|
            0 <= slot < ROOT_HISTORY_SIZE as int ==> #[trigger] ring_after(produced)[slot] == (
            if slot_source(produced.len() as int, slot) >= 0 {
                produced[slot_source(produced.len() as int, slot)]
            } else {
                zero32s()
            }),
    decreases produced.len(),
{
    let n = produced.len() as int;
    if n == 0 {
    } else {
        let prev = produced.drop_last();
        lemma_ring_after_characterisation(prev);
        assert forall|slot: int|
            0 <= slot < ROOT_HISTORY_SIZE as int implies #[trigger] ring_after(produced)[slot] == (
        if slot_source(n, slot) >= 0 {
            produced[slot_source(n, slot)]
        } else {
            zero32s()
        }) by {
            if slot == n % 30 {
                assert((n - slot) % 30 == 0) by {
                    lemma_mod_multiples_vanish(-(n / 30), n, 30);
                    assert(n == 30 * (n / 30) + n % 30);
                    assert(n - slot == 30 * (n / 30));
                }
                assert(slot_source(n, slot) == n - 1);
            } else {
                assert((n - slot) % 30 != 0) by {
                    if (n - slot) % 30 == 0 {
                        let q = (n - slot) / 30;
                        assert(n - slot == 30 * q);
                        lemma_mod_multiples_vanish(q, slot, 30);
                        assert(n % 30 == slot % 30);
                        lemma_small_mod(slot as nat, 30nat);
                    }
                }
                assert((n - slot) % 30 == (n - 1 - slot) % 30 + 1) by {
                    let m = (n - 1 - slot) % 30;
                    let q = (n - 1 - slot) / 30;
                    assert(n - 1 - slot == 30 * q + m);
                    if m < 29 {
                        lemma_fundamental_div_mod_converse(n - slot, 30, q, m + 1);
                    } else {
                        lemma_fundamental_div_mod_converse(n - slot, 30, q + 1, 0);
                    }
                }
                assert(slot_source(n, slot) == slot_source(n - 1, slot));
                assert(ring_after(produced)[slot] == ring_after(prev)[slot]);
                if slot_source(n - 1, slot) >= 0 {
                    assert(prev[slot_source(n - 1, slot)] == produced[slot_source(n - 1, slot)]);
                }
            }
        }
    }
}

/// Ring-buffer completeness: after the given roots have been produced, a
/// value counts as a known root exactly when it equals one of the last
/// `min(m, 30)` roots produced — provided no produced root is the all-zero
/// sentinel (an all-zero root would be indistinguishable from an unused
/// slot and is refused by the lookup).
pub proof fn lemma_ring_buffer_completeness(produced: Seq<Seq<u8>>, r: Seq<u8>)
    requires
        forall|j: int| 0 <= j < produced.len() ==> !is_zero_bytes(#[trigger] produced[j]),
    ensures
        ({
            let n = produced.len() as int;
            (!is_zero_bytes(r) && exists|i: int|
                0 <= i < ROOT_HISTORY_SIZE as int && #[trigger] ring_after(produced)[i] == r)
                <==> (exists|j: int| n - 30 <= j < n && 0 <= j && #[trigger] produced[j] == r)
        }),
{
    let n = produced.len() as int;
    lemma_ring_after_characterisation(produced);
    assert(is_zero_bytes(zero32s()));
    if !is_zero_bytes(r) && exists|i: int|
        0 <= i < ROOT_HISTORY_SIZE as int && #[trigger] ring_after(produced)[i] == r {
        let i = choose|i: int|
            0 <= i < ROOT_HISTORY_SIZE as int && #[trigger] ring_after(produced)[i] == r;
        assert(0 <= (n - i) % 30 < 30);
        if slot_source(n, i) >= 0 {
            let j = slot_source(n, i);
            assert(n - 30 <= j < n && 0 <= j && produced[j] == r);
        } else {
            assert(r == zero32s());
        }
    }
    if exists|j: int| n - 30 <= j < n && 0 <= j && #[trigger] produced[j] == r {
        let j = choose|j: int| n - 30 <= j < n && 0 <= j && #[trigger] produced[j] == r;
        let slot = (j + 1) % 30;
        assert(0 <= slot < 30);
        assert(slot_source(n, slot) == j) by {
            let q = (j + 1) / 30;
            assert(j + 1 == 30 * q + slot);
            assert(n - slot == n - (j + 1) + 30 * q);
            lemma_mod_multiples_vanish(q, n - (j + 1), 30);
            assert((n - slot) % 30 == (n - (j + 1)) % 30);
            lemma_small_mod((n - (j + 1)) as nat, 30nat);
        }
        assert(ring_after(produced)[slot] == r);
        assert(!is_zero_bytes(r));
    }
}

/// `2^i` as a mathematical integer, for index arithmetic.
pub open spec fn p2(i: int) -> int {
    pow2(i as nat) as int
}

/// The root of a sparse Merkle subtree of height `h`: the given leaf values
/// sit left-aligned, every empty slot counts as the zero subtree.
pub open spec fn root_of(leaves: Seq<nat>, h: int) -> nat
    decreases h,
{
    if leaves.len() == 0 {
        zeros_value(h)
    } else if h <= 0 {
        leaves[0]
    } else if leaves.len() <= p2(h - 1) {
        mimc_value(root_of(leaves, h - 1), zeros_value(h - 1))
    } else {
        mimc_value(
            root_of(leaves.subrange(0, p2(h - 1)), h - 1),
            root_of(leaves.subrange(p2(h - 1), leaves.len() as int), h - 1),
        )
    }
}

/// The waiting-sibling invariant: wherever bit `i` of the leaf count is set,
/// the level-`i` sibling holds the root of the last completed block of `2^i`
/// leaves at that level.
pub open spec fn filled_ok(fv: Seq<nat>, leaves: Seq<nat>, h: int) -> bool {
    &&& fv.len() == h
    &&& forall|i: int|
        0 <= i < h && (leaves.len() as int / p2(i)) % 2 == 1 ==> #[trigger] fv[i] == root_of(
            leaves.subrange(
                (leaves.len() as int / p2(i) - 1) * p2(i),
                (leaves.len() as int / p2(i)) * p2(i),
            ),
            i,
        )
}

/// Dividing the leaf count by one more power of two.
proof fn lemma_idx_halves(k: int, i: int)
    requires
        k >= 0,
        i >= 0,
    ensures
        (k / p2(i)) / 2 == k / p2(i + 1),
        p2(i + 1) == 2 * p2(i),
        p2(i) >= 1,
{
    vstd::arithmetic::power2::lemma_pow2_pos(i as nat);
    lemma_pow2_adds(i as nat, 1);
    lemma2_to64();
    vstd::arithmetic::div_mod::lemma_div_denominator(k, p2(i), 2);
}

/// The running node at level `i` of an insert is the root of the (partial)
/// block of leaves the new leaf completes at that level.
proof fn lemma_level_value_root(fv: Seq<nat>, leaves: Seq<nat>, x: nat, h: int, i: int)
    requires
        0 <= i <= h,
        filled_ok(fv, leaves, h),
        (leaves.len() as int) < p2(h),
    ensures
        level_value(fv, leaves.len() as nat, x, i) == root_of(
            leaves.push(x).subrange(
                (leaves.len() as int / p2(i)) * p2(i),
                leaves.len() as int + 1,
            ),
            i,
        ),
    decreases i,
{
    let k = leaves.len() as int;
    let full = leaves.push(x);
    if i == 0 {
        lemma2_to64();
        assert(k / p2(0) == k) by {
            vstd::arithmetic::div_mod::lemma_div_basics(k);
        }
        assert(full.subrange(k, k + 1) =~= seq![x]);
        assert(root_of(seq![x], 0) == x);
    } else {
        lemma_level_value_root(fv, leaves, x, h, i - 1);
        lemma_idx_halves(k, i - 1);
        let ki1 = k / p2(i - 1);
        let ki = k / p2(i);
        assert(ki == ki1 / 2);
        let below = level_value(fv, k as nat, x, i - 1);
        let block_lo = ki1 * p2(i - 1);
        assert(below == root_of(full.subrange(block_lo, k + 1), i - 1));
        // bounds of the level-(i-1) block
        assert(0 <= block_lo <= k) by {
            vstd::arithmetic::div_mod::lemma_fundamental_div_mod(k, p2(i - 1));
            vstd::arithmetic::div_mod::lemma_mod_bound(k, p2(i - 1));
        }
        assert(k - block_lo < p2(i - 1)) by {
            vstd::arithmetic::div_mod::lemma_fundamental_div_mod(k, p2(i - 1));
            vstd::arithmetic::div_mod::lemma_mod_bound(k, p2(i - 1));
        }
        assert((k as nat / pow2((i - 1) as nat)) % 2 == (ki1 % 2)) by {
            assert(k as nat / pow2((i - 1) as nat) == ki1);
        }
        if ki1 % 2 == 0 {
            assert(level_value(fv, k as nat, x, i) == mimc_value(below, zeros_value(i - 1)));
            assert(ki * p2(i) == block_lo) by (nonlinear_arith)
                requires
                    ki1 == 2 * ki,
                    p2(i) == 2 * p2(i - 1),
                    block_lo == ki1 * p2(i - 1),
            ;
            let block = full.subrange(block_lo, k + 1);
            assert(block.len() == k + 1 - block_lo);
            assert(block.len() <= p2(i - 1));
            assert(block.len() > 0);
            assert(root_of(block, i) == mimc_value(root_of(block, i - 1), zeros_value(i - 1)));
        } else {
            assert(level_value(fv, k as nat, x, i) == mimc_value(fv[i - 1], below));
            let m = ki;
            assert(ki1 == 2 * m + 1);
            assert(m * p2(i) == (ki1 - 1) * p2(i - 1)) by (nonlinear_arith)
                requires
                    ki1 == 2 * m + 1,
                    p2(i) == 2 * p2(i - 1),
            ;
            let lo = m * p2(i);
            assert(lo + p2(i - 1) == block_lo) by (nonlinear_arith)
                requires
                    lo == (ki1 - 1) * p2(i - 1),
                    block_lo == ki1 * p2(i - 1),
            ;
            assert(0 <= lo);
            let block = full.subrange(lo, k + 1);
            assert(block.len() == k + 1 - lo);
            assert(block.len() > p2(i - 1));
            // left half: the completed sibling block, already in `leaves`
            assert(block.subrange(0, p2(i - 1)) =~= leaves.subrange(lo, block_lo));
            // right half: the block the new leaf extends
            assert(block.subrange(p2(i - 1), block.len() as int) =~= full.subrange(
                block_lo,
                k + 1,
            ));
            assert(fv[i - 1] == root_of(leaves.subrange(lo, block_lo), i - 1));
            assert(root_of(block, i) == mimc_value(
                root_of(block.subrange(0, p2(i - 1)), i - 1),
                root_of(block.subrange(p2(i - 1), block.len() as int), i - 1),
            ));
        }
    }
}

/// Inserting one leaf produces exactly the sparse-tree root of all leaves so
/// far.
proof fn lemma_insert_matches_root(fv: Seq<nat>, leaves: Seq<nat>, x: nat, h: int)
    requires
        1 <= h,
        filled_ok(fv, leaves, h),
        (leaves.len() as int) < p2(h),
    ensures
        insert_root_value(fv, leaves.len() as nat, x, h) == root_of(leaves.push(x), h),
{
    let k = leaves.len() as int;
    lemma_level_value_root(fv, leaves, x, h, h);
    assert(k / p2(h) == 0) by {
        vstd::arithmetic::power2::lemma_pow2_pos(h as nat);
        vstd::arithmetic::div_mod::lemma_basic_div(k, p2(h));
    }
    assert((k / p2(h)) * p2(h) == 0) by (nonlinear_arith)
        requires
            k / p2(h) == 0,
    ;
    assert(leaves.push(x).subrange(0, k + 1) =~= leaves.push(x));
    assert(level_value(fv, leaves.len() as nat, x, h) == root_of(
        leaves.push(x).subrange((k / p2(h)) * p2(h), k + 1),
        h,
    ));
}

/// The waiting siblings after an insert, level by level: updated along the
/// insertion path wherever the leaf sat on the left, kept everywhere else.
/// This is exactly what [`insert_leaf`] does to `filled_subtrees`.
pub open spec fn updated_filled(fv: Seq<nat>, k: nat, x: nat, h: int) -> Seq<nat> {
    Seq::new(
        h as nat,
        |i: int|
            if (k as int / p2(i)) % 2 == 0 {
                level_value(fv, k, x, i)
            } else {
                fv[i]
            },
    )
}

/// One insert preserves the waiting-sibling invariant.
proof fn lemma_filled_ok_step(fv: Seq<nat>, leaves: Seq<nat>, x: nat, h: int)
    requires
        1 <= h,
        filled_ok(fv, leaves, h),
        (leaves.len() as int) < p2(h),
    ensures
        filled_ok(updated_filled(fv, leaves.len() as nat, x, h), leaves.push(x), h),
{
    let k = leaves.len() as int;
    let full = leaves.push(x);
    let nfv = updated_filled(fv, leaves.len() as nat, x, h);
    assert forall|i: int|
        0 <= i < h && ((full.len() as int / p2(i)) % 2 == 1) implies #[trigger] nfv[i] == root_of(
        full.subrange(
            (full.len() as int / p2(i) - 1) * p2(i),
            (full.len() as int / p2(i)) * p2(i),
        ),
        i,
    ) by {
        vstd::arithmetic::power2::lemma_pow2_pos(i as nat);
        let ki = k / p2(i);
        let ki2 = (k + 1) / p2(i);
        vstd::arithmetic::div_mod::lemma_fundamental_div_mod(k, p2(i));
        vstd::arithmetic::div_mod::lemma_mod_bound(k, p2(i));
        assert(k == p2(i) * ki + k % p2(i));
        assert((ki + 1) * p2(i) == p2(i) * ki + p2(i)) by (nonlinear_arith);
        assert(ki * p2(i) == p2(i) * ki) by (nonlinear_arith);
        assert(ki >= 0) by (nonlinear_arith)
            requires
                k == p2(i) * ki + k % p2(i),
                0 <= k % p2(i) < p2(i),
                k >= 0,
                p2(i) >= 1,
        ;
        if k % p2(i) == p2(i) - 1 {
            lemma_fundamental_div_mod_converse(k + 1, p2(i), ki + 1, 0);
        } else {
            lemma_fundamental_div_mod_converse(k + 1, p2(i), ki, k % p2(i) + 1);
        }
        if ki % 2 == 0 {
            // the insert wrote this level; the new block is now complete
            assert(ki2 == ki + 1);
            assert(k + 1 == (ki + 1) * p2(i));
            lemma_level_value_root(fv, leaves, x, h, i);
            assert(nfv[i] == root_of(full.subrange(ki * p2(i), k + 1), i));
            assert((ki2 - 1) * p2(i) == ki * p2(i));
            assert(ki2 * p2(i) == k + 1);
        } else {
            // untouched level: the same completed block as before
            assert(ki2 == ki);
            assert(nfv[i] == fv[i]);
            assert((leaves.len() as int / p2(i)) % 2 == 1);
            assert(fv[i] == root_of(
                leaves.subrange(
                    (leaves.len() as int / p2(i) - 1) * p2(i),
                    (leaves.len() as int / p2(i)) * p2(i),
                ),
                i,
            ));
            assert((leaves.len() as int / p2(i) - 1) * p2(i) == (ki - 1) * p2(i));
            assert((leaves.len() as int / p2(i)) * p2(i) == ki * p2(i));
            assert(ki * p2(i) <= k) by (nonlinear_arith)
                requires
                    k == p2(i) * ki + k % p2(i),
                    k % p2(i) >= 0,
            ;
            assert(0 <= (ki - 1) * p2(i)) by (nonlinear_arith)
                requires
                    ki >= 1,
                    p2(i) >= 1,
            ;
            let lo: int = (ki - 1) * p2(i);
            let hi: int = ki * p2(i);
            assert(lo <= hi) by (nonlinear_arith)
                requires
                    ki >= 1,
                    p2(i) >= 1,
                    lo == (ki - 1) * p2(i),
                    hi == ki * p2(i),
            ;
            assert_seqs_equal!(leaves.subrange(lo, hi) == full.subrange(lo, hi), j => {
                assert(leaves.subrange(lo, hi)[j] == leaves[lo + j]);
                assert(full.subrange(lo, hi)[j] == full[lo + j]);
                assert(full[lo + j] == leaves[lo + j]);
            });
        }
    }
}

/// The waiting siblings after inserting the given leaves in order, starting
/// from the empty tree.
pub open spec fn filled_after(leaves: Seq<nat>, h: int) -> Seq<nat>
    decreases leaves.len(),
{
    if leaves.len() == 0 {
        Seq::new(h as nat, |i: int| 0nat)
    } else {
        updated_filled(
            filled_after(leaves.drop_last(), h),
            (leaves.len() - 1) as nat,
            leaves.last(),
            h,
        )
    }
}

/// The fold of inserts keeps the waiting-sibling invariant from the start.
proof fn lemma_filled_after_ok(leaves: Seq<nat>, h: int)
    requires
        1 <= h,
        leaves.len() as int <= p2(h),
    ensures
        filled_ok(filled_after(leaves, h), leaves, h),
    decreases leaves.len(),
{
    if leaves.len() == 0 {
        assert forall|i: int| 0 <= i < h implies !((leaves.len() as int / p2(i)) % 2 == 1) by {
            vstd::arithmetic::power2::lemma_pow2_pos(i as nat);
        }
    } else {
        let prev = leaves.drop_last();
        lemma_filled_after_ok(prev, h);
        assert((prev.len() as int) < p2(h));
        lemma_filled_ok_step(filled_after(prev, h), prev, leaves.last(), h);
        assert(prev.push(leaves.last()) =~= leaves);
    }
}

/// Insertion determinism: for any sequence of leaf values that fits the
/// tree, the root the final insert produces equals the root of the sparse
/// Merkle tree holding exactly those leaves over the zero fill — it depends
/// on the sequence alone. [`insert_leaf`]'s contract ties each executable
/// insert to [`insert_root_value`] and [`updated_filled`], so the fold here
/// mirrors what the running tree computes.
pub proof fn lemma_insertion_determinism(leaves: Seq<nat>, h: int)
    requires
        1 <= h,
        leaves.len() > 0,
        leaves.len() as int <= p2(h),
    ensures
        insert_root_value(
            filled_after(leaves.drop_last(), h),
            (leaves.len() - 1) as nat,
            leaves.last(),
            h,
        ) == root_of(leaves, h),
{
    let prev = leaves.drop_last();
    lemma_filled_after_ok(prev, h);
    lemma_insert_matches_root(filled_after(prev, h), prev, leaves.last(), h);
    assert(prev.push(leaves.last()) =~= leaves);
}

/// The zero-subtree value at a given level: the node a fully empty subtree of
/// that height hashes to. Levels above the maximum tree height fall back to
/// the zero leaf.
pub fn get_zero_value(level: usize) -> (r: [u8; 32])
    ensures
        level <= 32 ==> is_canonical_bytes(r@) && bytes32_value(r@) == zeros_value(level as int),
        level > 32 ==> r == ZERO_VALUE,
{
    if level == 0 || level > 32 {
        proof {
            lemma_zero_value_canonical();
        }
        return ZERO_VALUE;
    }
    let mut cur: [u64; 4] = le_bytes_to_limbs(&ZERO_VALUE);
    proof {
        lemma_zero_value_canonical();
    }
    let mut i: usize = 0;
    while i < level
        invariant
            i <= level,
            level <= 32,
            is_canonical_fe(cur@),
            fe_value(cur@) == zeros_value(i as int),
        decreases level - i,
    {
        cur = match mimc_hash(cur, cur) {
            Ok(v) => v,
            Err(_) => cur,  // unreachable: the hash succeeds on canonical inputs
        };
        i = i + 1;
    }
    field_element_to_bytes(cur)
}

} // verus!
