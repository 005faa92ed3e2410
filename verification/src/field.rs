//! Arithmetic in the scalar field of the pairing-friendly curve.
//!
//! A field element is an integer in `[0, p)` where `p` is the scalar-field
//! prime (about 254 bits). On the wire an element is 32 bytes, little-endian;
//! an encoding is *canonical* iff the integer it denotes is strictly below
//! `p`. Internally an element is four little-endian 64-bit limbs.

use vstd::prelude::*;
use vstd::arithmetic::div_mod::{
    lemma_add_mod_noop, lemma_fundamental_div_mod_converse, lemma_mod_multiples_vanish,
    lemma_mul_mod_noop_right, lemma_small_mod,
};
use vstd::arithmetic::mul::{lemma_mul_is_distributive_add, lemma_mul_is_associative};
use vstd::arithmetic::power2::{lemma_pow2_adds, lemma2_to64, lemma2_to64_rest, pow2};

use crate::error::TornadoError;

verus! {

/// The value of an 8-byte little-endian unsigned integer.
pub open spec fn u64_le(s: Seq<u8>) -> nat
    recommends
        s.len() == 8,
{
    s[0] as nat + s[1] as nat * 0x100 + s[2] as nat * 0x10000 + s[3] as nat * 0x1000000
        + s[4] as nat * 0x100000000 + s[5] as nat * 0x10000000000 + s[6] as nat * 0x1000000000000
        + s[7] as nat * 0x100000000000000
}

/// The value of a 32-byte little-endian unsigned integer.
pub open spec fn bytes32_value(s: Seq<u8>) -> nat
    recommends
        s.len() == 32,
{
    u64_le(s.subrange(0, 8)) + u64_le(s.subrange(8, 16)) * 0x10000000000000000nat + u64_le(
        s.subrange(16, 24),
    ) * 0x100000000000000000000000000000000nat + u64_le(s.subrange(24, 32))
        * 0x1000000000000000000000000000000000000000000000000nat
}

/// The value of four little-endian 64-bit limbs.
pub open spec fn fe_value(l: Seq<u64>) -> nat
    recommends
        l.len() == 4,
{
    l[0] as nat + l[1] as nat * 0x10000000000000000nat + l[2] as nat
        * 0x100000000000000000000000000000000nat + l[3] as nat
        * 0x1000000000000000000000000000000000000000000000000nat
}

/// The scalar-field prime `p`.
pub open spec fn p_value() -> nat {
    0x30644e72e131a029b85045b68181585d2833e84879b9709143e1f593f0000001nat
}

/// A 32-byte encoding is canonical iff it denotes an integer strictly below `p`.
pub open spec fn is_canonical_bytes(s: Seq<u8>) -> bool {
    s.len() == 32 && bytes32_value(s) < p_value()
}

/// A limb vector is canonical iff it denotes an integer strictly below `p`.
pub open spec fn is_canonical_fe(l: Seq<u64>) -> bool {
    l.len() == 4 && fe_value(l) < p_value()
}

/// The prime `p`, encoded as 32 little-endian bytes.
pub const FIELD_SIZE: [u8; 32] = [
    0x01,
    0x00,
    0x00,
    0xf0,
    0x93,
    0xf5,
    0xe1,
    0x43,
    0x91,
    0x70,
    0xb9,
    0x79,
    0x48,
    0xe8,
    0x33,
    0x28,
    0x5d,
    0x58,
    0x81,
    0x81,
    0xb6,
    0x45,
    0x50,
    0xb8,
    0x29,
    0xa0,
    0x31,
    0xe1,
    0x72,
    0x4e,
    0x64,
    0x30,
];

/// Limb 0 (least significant) of `p`.
const P_LIMB_0: u64 = 0x43e1f593f0000001;

/// Limb 1 of `p`.
const P_LIMB_1: u64 = 0x2833e84879b97091;

/// Limb 2 of `p`.
const P_LIMB_2: u64 = 0xb85045b68181585d;

/// Limb 3 (most significant) of `p`.
const P_LIMB_3: u64 = 0x30644e72e131a029;

/// The limbs of `p` denote exactly `p_value()`.
proof fn lemma_p_limbs()
    ensures
        P_LIMB_0 as nat + P_LIMB_1 as nat * 0x10000000000000000nat + P_LIMB_2 as nat
            * 0x100000000000000000000000000000000nat + P_LIMB_3 as nat
            * 0x1000000000000000000000000000000000000000000000000nat == p_value(),
{
}

/// Pack 32 little-endian bytes into four little-endian limbs.
pub fn le_bytes_to_limbs(b: &[u8; 32]) -> (r: [u64; 4])
    ensures
        fe_value(r@) == bytes32_value(b@),
{
    let l0: u64 = b[0] as u64 + b[1] as u64 * 0x100 + b[2] as u64 * 0x10000 + b[3] as u64
        * 0x1000000 + b[4] as u64 * 0x100000000 + b[5] as u64 * 0x10000000000 + b[6] as u64
        * 0x1000000000000 + b[7] as u64 * 0x100000000000000;
    let l1: u64 = b[8] as u64 + b[9] as u64 * 0x100 + b[10] as u64 * 0x10000 + b[11] as u64
        * 0x1000000 + b[12] as u64 * 0x100000000 + b[13] as u64 * 0x10000000000 + b[14] as u64
        * 0x1000000000000 + b[15] as u64 * 0x100000000000000;
    let l2: u64 = b[16] as u64 + b[17] as u64 * 0x100 + b[18] as u64 * 0x10000 + b[19] as u64
        * 0x1000000 + b[20] as u64 * 0x100000000 + b[21] as u64 * 0x10000000000 + b[22] as u64
        * 0x1000000000000 + b[23] as u64 * 0x100000000000000;
    let l3: u64 = b[24] as u64 + b[25] as u64 * 0x100 + b[26] as u64 * 0x10000 + b[27] as u64
        * 0x1000000 + b[28] as u64 * 0x100000000 + b[29] as u64 * 0x10000000000 + b[30] as u64
        * 0x1000000000000 + b[31] as u64 * 0x100000000000000;
    let r = [l0, l1, l2, l3];
    proof {
        assert(u64_le(b@.subrange(0, 8)) == l0 as nat);
        assert(u64_le(b@.subrange(8, 16)) == l1 as nat);
        assert(u64_le(b@.subrange(16, 24)) == l2 as nat);
        assert(u64_le(b@.subrange(24, 32)) == l3 as nat);
    }
    r
}

/// Unpack four little-endian limbs into 32 little-endian bytes.
pub fn limbs_to_le_bytes(l: &[u64; 4]) -> (r: [u8; 32])
    ensures
        r@.len() == 32,
        bytes32_value(r@) == fe_value(l@),
{
    let mut out: [u8; 32] = [0u8; 32];
    let mut x: u64 = l[0];
    out[0] = (x % 256) as u8;
    x = x / 256;
    out[1] = (x % 256) as u8;
    x = x / 256;
    out[2] = (x % 256) as u8;
    x = x / 256;
    out[3] = (x % 256) as u8;
    x = x / 256;
    out[4] = (x % 256) as u8;
    x = x / 256;
    out[5] = (x % 256) as u8;
    x = x / 256;
    out[6] = (x % 256) as u8;
    x = x / 256;
    out[7] = (x % 256) as u8;
    let mut y: u64 = l[1];
    out[8] = (y % 256) as u8;
    y = y / 256;
    out[9] = (y % 256) as u8;
    y = y / 256;
    out[10] = (y % 256) as u8;
    y = y / 256;
    out[11] = (y % 256) as u8;
    y = y / 256;
    out[12] = (y % 256) as u8;
    y = y / 256;
    out[13] = (y % 256) as u8;
    y = y / 256;
    out[14] = (y % 256) as u8;
    y = y / 256;
    out[15] = (y % 256) as u8;
    let mut z: u64 = l[2];
    out[16] = (z % 256) as u8;
    z = z / 256;
    out[17] = (z % 256) as u8;
    z = z / 256;
    out[18] = (z % 256) as u8;
    z = z / 256;
    out[19] = (z % 256) as u8;
    z = z / 256;
    out[20] = (z % 256) as u8;
    z = z / 256;
    out[21] = (z % 256) as u8;
    z = z / 256;
    out[22] = (z % 256) as u8;
    z = z / 256;
    out[23] = (z % 256) as u8;
    let mut w: u64 = l[3];
    out[24] = (w % 256) as u8;
    w = w / 256;
    out[25] = (w % 256) as u8;
    w = w / 256;
    out[26] = (w % 256) as u8;
    w = w / 256;
    out[27] = (w % 256) as u8;
    w = w / 256;
    out[28] = (w % 256) as u8;
    w = w / 256;
    out[29] = (w % 256) as u8;
    w = w / 256;
    out[30] = (w % 256) as u8;
    w = w / 256;
    out[31] = (w % 256) as u8;
    proof {
        assert(u64_le(out@.subrange(0, 8)) == l@[0] as nat);
        assert(u64_le(out@.subrange(8, 16)) == l@[1] as nat);
        assert(u64_le(out@.subrange(16, 24)) == l@[2] as nat);
        assert(u64_le(out@.subrange(24, 32)) == l@[3] as nat);
    }
    out
}

/// Whether the limbs denote an integer strictly below `p`.
fn fe_lt_p(l: &[u64; 4]) -> (r: bool)
    ensures
        r == (fe_value(l@) < p_value()),
{
    proof {
        lemma_p_limbs();
    }
    if l[3] != P_LIMB_3 {
        l[3] < P_LIMB_3
    } else if l[2] != P_LIMB_2 {
        l[2] < P_LIMB_2
    } else if l[1] != P_LIMB_1 {
        l[1] < P_LIMB_1
    } else {
        l[0] < P_LIMB_0
    }
}

/// Check whether a 32-byte little-endian value lies within the field:
/// true iff the value is strictly below the modulus `p`, which is also
/// exactly when the encoding is canonical.
pub fn is_within_field(value: &[u8; 32]) -> (r: bool)
    ensures
        r == (bytes32_value(value@) < p_value()),
{
    let l = le_bytes_to_limbs(value);
    fe_lt_p(&l)
}

/// Whether a 32-byte little-endian encoding is canonical (strictly below `p`).
pub fn is_canonical(value: &[u8; 32]) -> (r: bool)
    ensures
        r == is_canonical_bytes(value@),
{
    let l = le_bytes_to_limbs(value);
    fe_lt_p(&l)
}

/// The sum of two field elements, at the value level.
pub open spec fn fadd(a: nat, b: nat) -> nat {
    (a + b) % p_value()
}

/// The product of two field elements, at the value level.
pub open spec fn fmul(a: nat, b: nat) -> nat {
    (a * b) % p_value()
}

/// The cube of a field element, at the value level.
pub open spec fn fcube(a: nat) -> nat {
    (a * a * a) % p_value()
}

/// One limb's worth of `2^64`, for carry and borrow chains.
const TWO_64: u128 = 0x10000000000000000;

/// Subtract `p` from a limb vector that is at least `p`.
fn sub_p(l: &[u64; 4]) -> (r: [u64; 4])
    requires
        fe_value(l@) >= p_value(),
    ensures
        fe_value(r@) == fe_value(l@) - p_value(),
{
    proof {
        lemma_p_limbs();
    }
    let t0: u128 = l[0] as u128 + TWO_64 - P_LIMB_0 as u128;
    let d0: u64 = (t0 % TWO_64) as u64;
    let c0: u128 = t0 / TWO_64;
    let t1: u128 = l[1] as u128 + TWO_64 - P_LIMB_1 as u128 - (1 - c0);
    let d1: u64 = (t1 % TWO_64) as u64;
    let c1: u128 = t1 / TWO_64;
    let t2: u128 = l[2] as u128 + TWO_64 - P_LIMB_2 as u128 - (1 - c1);
    let d2: u64 = (t2 % TWO_64) as u64;
    let c2: u128 = t2 / TWO_64;
    let t3: u128 = l[3] as u128 + TWO_64 - P_LIMB_3 as u128 - (1 - c2);
    let d3: u64 = (t3 % TWO_64) as u64;
    let c3: u128 = t3 / TWO_64;
    let r = [d0, d1, d2, d3];
    proof {
        assert(fe_value(r@) + (1 - c3) * 0x10000000000000000000000000000000000000000000000000000000000000000nat
            == fe_value(l@) - p_value());
        assert(c3 == 1);
    }
    r
}

/// Add two canonical field elements modulo `p`.
pub fn field_add(a: [u64; 4], b: [u64; 4]) -> (r: [u64; 4])
    requires
        is_canonical_fe(a@),
        is_canonical_fe(b@),
    ensures
        is_canonical_fe(r@),
        fe_value(r@) == fadd(fe_value(a@), fe_value(b@)),
{
    let s0: u128 = a[0] as u128 + b[0] as u128;
    let r0: u64 = (s0 % TWO_64) as u64;
    let c0: u128 = s0 / TWO_64;
    let s1: u128 = a[1] as u128 + b[1] as u128 + c0;
    let r1: u64 = (s1 % TWO_64) as u64;
    let c1: u128 = s1 / TWO_64;
    let s2: u128 = a[2] as u128 + b[2] as u128 + c1;
    let r2: u64 = (s2 % TWO_64) as u64;
    let c2: u128 = s2 / TWO_64;
    let s3: u128 = a[3] as u128 + b[3] as u128 + c2;
    let r3: u64 = (s3 % TWO_64) as u64;
    let c3: u128 = s3 / TWO_64;
    let sum = [r0, r1, r2, r3];
    proof {
        lemma_p_limbs();
        assert(fe_value(sum@) + c3 * 0x10000000000000000000000000000000000000000000000000000000000000000nat
            == fe_value(a@) + fe_value(b@));
        assert(c3 == 0);
    }
    if fe_lt_p(&sum) {
        proof {
            lemma_small_mod(fe_value(sum@), p_value());
        }
        sum
    } else {
        let reduced = sub_p(&sum);
        proof {
            lemma_fundamental_div_mod_converse(
                (fe_value(a@) + fe_value(b@)) as int,
                p_value() as int,
                1,
                fe_value(reduced@) as int,
            );
        }
        reduced
    }
}

/// Reduce an arbitrary limb vector modulo `p`.
pub fn field_mod(a: [u64; 4]) -> (r: [u64; 4])
    ensures
        is_canonical_fe(r@),
        fe_value(r@) == fe_value(a@) % p_value(),
{
    let mut cur: [u64; 4] = a;
    loop
        invariant
            cur@.len() == 4,
            fe_value(cur@) % p_value() == fe_value(a@) % p_value(),
        ensures
            fe_value(cur@) < p_value(),
            fe_value(cur@) % p_value() == fe_value(a@) % p_value(),
        decreases fe_value(cur@),
    {
        if fe_lt_p(&cur) {
            break;
        }
        proof {
            lemma_mod_multiples_vanish(-1, fe_value(cur@) as int, p_value() as int);
        }
        cur = sub_p(&cur);
    }
    proof {
        lemma_small_mod(fe_value(cur@), p_value());
    }
    cur
}

/// Reduce a 32-byte little-endian value modulo the field size.
pub fn mod_field_size(value: &[u8; 32]) -> (r: [u8; 32])
    ensures
        is_canonical_bytes(r@),
        bytes32_value(r@) == bytes32_value(value@) % p_value(),
{
    let l = le_bytes_to_limbs(value);
    let reduced = field_mod(l);
    limbs_to_le_bytes(&reduced)
}

/// Decode a 32-byte little-endian encoding into a field element.
///
/// Decoding succeeds exactly on canonical encodings; out-of-range encodings
/// are rejected, never silently reduced.
pub fn bytes_to_field_element(bytes: &[u8; 32]) -> (r: Result<[u64; 4], TornadoError>)
    ensures
        r is Ok <==> is_canonical_bytes(bytes@),
        r matches Ok(fe) ==> is_canonical_fe(fe@) && fe_value(fe@) == bytes32_value(bytes@),
        r matches Err(e) ==> e == TornadoError::InvalidCommitment,
{
    let l = le_bytes_to_limbs(bytes);
    if fe_lt_p(&l) {
        Ok(l)
    } else {
        Err(TornadoError::InvalidCommitment)
    }
}

/// Encode a field element as 32 little-endian bytes.
pub fn field_element_to_bytes(fe: [u64; 4]) -> (r: [u8; 32])
    ensures
        r@.len() == 32,
        bytes32_value(r@) == fe_value(fe@),
{
    limbs_to_le_bytes(&fe)
}

/// One limb's worth of a double-and-add product.
///
/// Given an accumulator holding `a_val * low (mod p)` and a running power
/// holding `a_val * 2^base (mod p)`, folds in the 64 bits of `limb`: the new
/// accumulator holds `a_val * (low + limb * 2^base) (mod p)` and the new
/// running power holds `a_val * 2^(base + 64) (mod p)`.
fn mul_add_limb(
    acc: [u64; 4],
    shift: [u64; 4],
    limb: u64,
    Ghost(a_val): Ghost<nat>,
    Ghost(low): Ghost<nat>,
    Ghost(base): Ghost<nat>,
) -> (r: ([u64; 4], [u64; 4]))
    requires
        is_canonical_fe(acc@),
        is_canonical_fe(shift@),
        a_val < p_value(),
        fe_value(acc@) == (a_val * low) % p_value(),
        fe_value(shift@) == (a_val * pow2(base)) % p_value(),
    ensures
        is_canonical_fe(r.0@),
        is_canonical_fe(r.1@),
        fe_value(r.0@) == (a_val * (low + limb as nat * pow2(base))) % p_value(),
        fe_value(r.1@) == (a_val * pow2(base + 64)) % p_value(),
{
    let ghost p: nat = p_value();
    let mut new_acc: [u64; 4] = acc;
    let mut new_shift: [u64; 4] = shift;
    let mut cur: u64 = limb;
    let ghost mut lo: nat = low;
    proof {
        lemma2_to64();
        assert(cur as nat == limb as nat / pow2(0));
    }
    let mut j: usize = 0;
    while j < 64
        invariant
            j <= 64,
            a_val < p,
            p == p_value(),
            is_canonical_fe(new_acc@),
            is_canonical_fe(new_shift@),
            cur as nat == limb as nat / pow2(j as nat),
            lo + cur as nat * pow2(base + j as nat) == low + limb as nat * pow2(base),
            fe_value(new_acc@) == (a_val * lo) % p,
            fe_value(new_shift@) == (a_val * pow2(base + j as nat)) % p,
        decreases 64 - j,
    {
        let ghost k: nat = base + j as nat;
        let bit: u64 = cur % 2;
        proof {
            lemma_pow2_adds(k, 1);
            lemma_pow2_adds(j as nat, 1);
            lemma2_to64();
            assert(lo + bit as nat * pow2(k) + (cur as nat / 2) * pow2(k + 1) == lo + cur as nat
                * pow2(k)) by (nonlinear_arith)
                requires
                    pow2(k + 1) == pow2(k) * pow2(1),
                    pow2(1) == 2,
                    cur as nat == 2 * (cur as nat / 2) + bit as nat,
            ;
            assert(cur as nat / 2 == limb as nat / pow2((j + 1) as nat)) by {
                vstd::arithmetic::power2::lemma_pow2_pos(j as nat);
                vstd::arithmetic::div_mod::lemma_div_denominator(
                    limb as int,
                    pow2(j as nat) as int,
                    2,
                );
                assert(pow2((j + 1) as nat) == pow2(j as nat) * 2);
            }
        }
        if bit == 1 {
            new_acc = field_add(new_acc, new_shift);
            proof {
                lemma_add_mod_noop((a_val * lo) as int, (a_val * pow2(k)) as int, p as int);
                lemma_mul_is_distributive_add(a_val as int, lo as int, pow2(k) as int);
                assert(fe_value(new_acc@) == (a_val * (lo + pow2(k))) % p);
            }
        }
        proof {
            if bit == 1 {
                assert(bit as nat * pow2(k) == pow2(k)) by (nonlinear_arith)
                    requires
                        bit == 1,
                ;
            } else {
                assert(bit as nat * pow2(k) == 0) by (nonlinear_arith)
                    requires
                        bit == 0,
                ;
            }
            lo = lo + bit as nat * pow2(k);
        }
        new_shift = field_add(new_shift, new_shift);
        proof {
            lemma_add_mod_noop((a_val * pow2(k)) as int, (a_val * pow2(k)) as int, p as int);
            assert(a_val * pow2(k) + a_val * pow2(k) == a_val * (pow2(k) + pow2(k)))
                by (nonlinear_arith);
            assert(pow2(k) + pow2(k) == pow2(k + 1)) by {
                lemma_pow2_adds(k, 1);
                lemma2_to64();
            }
            assert(fe_value(new_shift@) == (a_val * pow2(k + 1)) % p);
        }
        cur = cur / 2;
        j = j + 1;
    }
    proof {
        lemma2_to64();
        assert(cur as nat == 0) by {
            vstd::arithmetic::div_mod::lemma_basic_div(limb as int, pow2(64) as int);
        }
        assert(lo == low + limb as nat * pow2(base));
    }
    (new_acc, new_shift)
}

/// Multiply two canonical field elements modulo `p`, by binary
/// double-and-add over the bits of the right operand.
pub fn field_mul(a: [u64; 4], b: [u64; 4]) -> (r: Result<[u64; 4], TornadoError>)
    requires
        is_canonical_fe(a@),
        is_canonical_fe(b@),
    ensures
        r is Ok,
        r matches Ok(v) ==> is_canonical_fe(v@) && fe_value(v@) == fmul(
            fe_value(a@),
            fe_value(b@),
        ),
{
    let ghost a_val: nat = fe_value(a@);
    let acc0: [u64; 4] = [0, 0, 0, 0];
    proof {
        lemma2_to64();
        lemma_small_mod(0nat, p_value());
        lemma_small_mod(a_val, p_value());
        assert(fe_value(acc0@) == (a_val * 0) % p_value());
        assert(fe_value(a@) == (a_val * pow2(0)) % p_value());
    }
    let (acc1, shift1) = mul_add_limb(acc0, a, b[0], Ghost(a_val), Ghost(0nat), Ghost(0nat));
    let ghost low1: nat = b@[0] as nat;
    proof {
        assert(0 + b@[0] as nat * pow2(0) == low1);
    }
    let (acc2, shift2) = mul_add_limb(acc1, shift1, b[1], Ghost(a_val), Ghost(low1), Ghost(64nat));
    let ghost low2: nat = low1 + b@[1] as nat * 0x10000000000000000nat;
    proof {
        assert(low1 + b@[1] as nat * pow2(64) == low2);
    }
    let (acc3, shift3) = mul_add_limb(acc2, shift2, b[2], Ghost(a_val), Ghost(low2), Ghost(128nat));
    let ghost low3: nat = low2 + b@[2] as nat * 0x100000000000000000000000000000000nat;
    proof {
        lemma_pow2_adds(64, 64);
        assert(low2 + b@[2] as nat * pow2(128) == low3);
    }
    let (acc4, _) = mul_add_limb(acc3, shift3, b[3], Ghost(a_val), Ghost(low3), Ghost(192nat));
    proof {
        lemma_pow2_adds(128, 64);
        assert(low3 + b@[3] as nat * pow2(192) == fe_value(b@));
    }
    Ok(acc4)
}

/// An 8-byte little-endian value is below `2^64`.
proof fn lemma_u64_le_bound(s: Seq<u8>)
    requires
        s.len() == 8,
    ensures
        u64_le(s) < 0x10000000000000000nat,
{
}

/// Two 8-byte strings with the same little-endian value are equal.
proof fn lemma_u64_le_inj(s: Seq<u8>, t: Seq<u8>)
    requires
        s.len() == 8,
        t.len() == 8,
        u64_le(s) == u64_le(t),
    ensures
        s == t,
{
    let v = u64_le(s);
    let ks0 = s[1] as nat + s[2] as nat * 0x100 + s[3] as nat * 0x10000 + s[4] as nat * 0x1000000
        + s[5] as nat * 0x100000000 + s[6] as nat * 0x10000000000 + s[7] as nat * 0x1000000000000;
    let kt0 = t[1] as nat + t[2] as nat * 0x100 + t[3] as nat * 0x10000 + t[4] as nat * 0x1000000
        + t[5] as nat * 0x100000000 + t[6] as nat * 0x10000000000 + t[7] as nat * 0x1000000000000;
    lemma_fundamental_div_mod_converse(v as int, 0x100, ks0 as int, s[0] as int);
    lemma_fundamental_div_mod_converse(v as int, 0x100, kt0 as int, t[0] as int);
    assert(s[0] == t[0] && ks0 == kt0);
    let ks1 = s[2] as nat + s[3] as nat * 0x100 + s[4] as nat * 0x10000 + s[5] as nat * 0x1000000
        + s[6] as nat * 0x100000000 + s[7] as nat * 0x10000000000;
    let kt1 = t[2] as nat + t[3] as nat * 0x100 + t[4] as nat * 0x10000 + t[5] as nat * 0x1000000
        + t[6] as nat * 0x100000000 + t[7] as nat * 0x10000000000;
    lemma_fundamental_div_mod_converse(ks0 as int, 0x100, ks1 as int, s[1] as int);
    lemma_fundamental_div_mod_converse(kt0 as int, 0x100, kt1 as int, t[1] as int);
    assert(s[1] == t[1] && ks1 == kt1);
    let ks2 = s[3] as nat + s[4] as nat * 0x100 + s[5] as nat * 0x10000 + s[6] as nat * 0x1000000
        + s[7] as nat * 0x100000000;
    let kt2 = t[3] as nat + t[4] as nat * 0x100 + t[5] as nat * 0x10000 + t[6] as nat * 0x1000000
        + t[7] as nat * 0x100000000;
    lemma_fundamental_div_mod_converse(ks1 as int, 0x100, ks2 as int, s[2] as int);
    lemma_fundamental_div_mod_converse(kt1 as int, 0x100, kt2 as int, t[2] as int);
    assert(s[2] == t[2] && ks2 == kt2);
    let ks3 = s[4] as nat + s[5] as nat * 0x100 + s[6] as nat * 0x10000 + s[7] as nat * 0x1000000;
    let kt3 = t[4] as nat + t[5] as nat * 0x100 + t[6] as nat * 0x10000 + t[7] as nat * 0x1000000;
    lemma_fundamental_div_mod_converse(ks2 as int, 0x100, ks3 as int, s[3] as int);
    lemma_fundamental_div_mod_converse(kt2 as int, 0x100, kt3 as int, t[3] as int);
    assert(s[3] == t[3] && ks3 == kt3);
    let ks4 = s[5] as nat + s[6] as nat * 0x100 + s[7] as nat * 0x10000;
    let kt4 = t[5] as nat + t[6] as nat * 0x100 + t[7] as nat * 0x10000;
    lemma_fundamental_div_mod_converse(ks3 as int, 0x100, ks4 as int, s[4] as int);
    lemma_fundamental_div_mod_converse(kt3 as int, 0x100, kt4 as int, t[4] as int);
    assert(s[4] == t[4] && ks4 == kt4);
    let ks5 = s[6] as nat + s[7] as nat * 0x100;
    let kt5 = t[6] as nat + t[7] as nat * 0x100;
    lemma_fundamental_div_mod_converse(ks4 as int, 0x100, ks5 as int, s[5] as int);
    lemma_fundamental_div_mod_converse(kt4 as int, 0x100, kt5 as int, t[5] as int);
    assert(s[5] == t[5] && ks5 == kt5);
    lemma_fundamental_div_mod_converse(ks5 as int, 0x100, s[7] as int, s[6] as int);
    lemma_fundamental_div_mod_converse(kt5 as int, 0x100, t[7] as int, t[6] as int);
    assert(s[6] == t[6] && s[7] == t[7]);
    assert(s =~= t);
}

/// Two 32-byte strings with the same little-endian value are equal: the
/// encoding of a field element is unique.
pub proof fn lemma_bytes32_value_injective(s: Seq<u8>, t: Seq<u8>)
    requires
        s.len() == 32,
        t.len() == 32,
        bytes32_value(s) == bytes32_value(t),
    ensures
        s == t,
{
    let v = bytes32_value(s);
    lemma_u64_le_bound(s.subrange(0, 8));
    lemma_u64_le_bound(s.subrange(8, 16));
    lemma_u64_le_bound(s.subrange(16, 24));
    lemma_u64_le_bound(s.subrange(24, 32));
    lemma_u64_le_bound(t.subrange(0, 8));
    lemma_u64_le_bound(t.subrange(8, 16));
    lemma_u64_le_bound(t.subrange(16, 24));
    lemma_u64_le_bound(t.subrange(24, 32));
    let ks0 = u64_le(s.subrange(8, 16)) + u64_le(s.subrange(16, 24)) * 0x10000000000000000nat
        + u64_le(s.subrange(24, 32)) * 0x100000000000000000000000000000000nat;
    let kt0 = u64_le(t.subrange(8, 16)) + u64_le(t.subrange(16, 24)) * 0x10000000000000000nat
        + u64_le(t.subrange(24, 32)) * 0x100000000000000000000000000000000nat;
    lemma_fundamental_div_mod_converse(
        v as int,
        0x10000000000000000,
        ks0 as int,
        u64_le(s.subrange(0, 8)) as int,
    );
    lemma_fundamental_div_mod_converse(
        v as int,
        0x10000000000000000,
        kt0 as int,
        u64_le(t.subrange(0, 8)) as int,
    );
    assert(u64_le(s.subrange(0, 8)) == u64_le(t.subrange(0, 8)) && ks0 == kt0);
    let ks1 = u64_le(s.subrange(16, 24)) + u64_le(s.subrange(24, 32)) * 0x10000000000000000nat;
    let kt1 = u64_le(t.subrange(16, 24)) + u64_le(t.subrange(24, 32)) * 0x10000000000000000nat;
    lemma_fundamental_div_mod_converse(
        ks0 as int,
        0x10000000000000000,
        ks1 as int,
        u64_le(s.subrange(8, 16)) as int,
    );
    lemma_fundamental_div_mod_converse(
        kt0 as int,
        0x10000000000000000,
        kt1 as int,
        u64_le(t.subrange(8, 16)) as int,
    );
    assert(u64_le(s.subrange(8, 16)) == u64_le(t.subrange(8, 16)) && ks1 == kt1);
    lemma_fundamental_div_mod_converse(
        ks1 as int,
        0x10000000000000000,
        u64_le(s.subrange(24, 32)) as int,
        u64_le(s.subrange(16, 24)) as int,
    );
    lemma_fundamental_div_mod_converse(
        kt1 as int,
        0x10000000000000000,
        u64_le(t.subrange(24, 32)) as int,
        u64_le(t.subrange(16, 24)) as int,
    );
    assert(u64_le(s.subrange(16, 24)) == u64_le(t.subrange(16, 24)) && u64_le(s.subrange(24, 32))
        == u64_le(t.subrange(24, 32)));
    lemma_u64_le_inj(s.subrange(0, 8), t.subrange(0, 8));
    lemma_u64_le_inj(s.subrange(8, 16), t.subrange(8, 16));
    lemma_u64_le_inj(s.subrange(16, 24), t.subrange(16, 24));
    lemma_u64_le_inj(s.subrange(24, 32), t.subrange(24, 32));
    assert forall|k: int| 0 <= k < 32 implies s[k] == t[k] by {
        if k < 8 {
            assert(s.subrange(0, 8)[k] == t.subrange(0, 8)[k]);
        } else if k < 16 {
            assert(s.subrange(8, 16)[k - 8] == t.subrange(8, 16)[k - 8]);
        } else if k < 24 {
            assert(s.subrange(16, 24)[k - 16] == t.subrange(16, 24)[k - 16]);
        } else {
            assert(s.subrange(24, 32)[k - 24] == t.subrange(24, 32)[k - 24]);
        }
    }
    assert(s =~= t);
}

/// Idempotence of the canonicity check and codec: decoding a canonical
/// encoding yields the one field element with that value, and re-encoding
/// that element yields the original bytes again.
pub proof fn lemma_codec_roundtrip(b: Seq<u8>, fe: Seq<u64>, b2: Seq<u8>)
    requires
        b.len() == 32,
        b2.len() == 32,
        fe.len() == 4,
        fe_value(fe) == bytes32_value(b),
        bytes32_value(b2) == fe_value(fe),
    ensures
        b2 == b,
{
    lemma_bytes32_value_injective(b2, b);
}

/// Cube a canonical field element modulo `p`.
pub fn field_cube(a: [u64; 4]) -> (r: Result<[u64; 4], TornadoError>)
    requires
        is_canonical_fe(a@),
    ensures
        r is Ok,
        r matches Ok(v) ==> is_canonical_fe(v@) && fe_value(v@) == fcube(fe_value(a@)),
{
    let squared = field_mul(a, a)?;
    let cubed = field_mul(a, squared)?;
    proof {
        lemma_mul_mod_noop_right(
            fe_value(a@) as int,
            (fe_value(a@) * fe_value(a@)) as int,
            p_value() as int,
        );
        lemma_mul_is_associative(
            fe_value(a@) as int,
            fe_value(a@) as int,
            fe_value(a@) as int,
        );
    }
    Ok(cubed)
}

} // verus!
