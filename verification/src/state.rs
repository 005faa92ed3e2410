//! Per-pool configuration and tree state records.

use vstd::prelude::*;

use vstd::arithmetic::power2::pow2;

use crate::error::TornadoError;
use crate::field::{is_canonical_bytes, u64_le};
use crate::instruction::{push_bytes32, push_u64_le, read_bytes32, read_u32_le, read_u64_le, u32_le};
use crate::merkle_tree::all_canonical;

verus! {

/// How many historical roots the ring buffer retains.
pub const ROOT_HISTORY_SIZE: usize = 30;

/// A pool's configuration. Written once at initialisation, immutable after.
#[derive(Clone, Debug, PartialEq, Eq)]
pub struct TornadoInstance {
    /// Whether the pool has been initialised.
    pub is_initialized: bool,
    /// The fixed amount, in native-coin units, of every deposit and every
    /// withdrawal of this pool.
    pub denomination: u64,
    /// The height of the pool's Merkle tree.
    pub merkle_tree_height: u8,
    /// The identity of the pool's tree state.
    pub merkle_tree: [u8; 32],
    /// The identity of the pool's verifier parameters.
    pub verifier: [u8; 32],
}

/// Whether a pool record is what a persisted byte string holds: the flag,
/// the denomination, the height, and the two identities, in order.
pub open spec fn instance_matches_bytes(ins: TornadoInstance, d: Seq<u8>) -> bool {
    &&& d.len() == 74
    &&& d[0] == (if ins.is_initialized {
        1u8
    } else {
        0u8
    })
    &&& ins.denomination as nat == u64_le(d.subrange(1, 9))
    &&& ins.merkle_tree_height == d[9]
    &&& ins.merkle_tree@ == d.subrange(10, 42)
    &&& ins.verifier@ == d.subrange(42, 74)
}

impl TornadoInstance {
    /// Configuration validity: a positive denomination and a usable height.
    pub open spec fn well_formed(self) -> bool {
        self.denomination > 0 && 1 <= self.merkle_tree_height <= 32
    }

    /// Persist the configuration record in its byte form.
    pub fn pack(&self) -> (r: Vec<u8>)
        ensures
            instance_matches_bytes(*self, r@),
    {
        let mut out: Vec<u8> = Vec::new();
        out.push(if self.is_initialized {
            1u8
        } else {
            0u8
        });
        let ghost s1: Seq<u8> = out@;
        push_u64_le(&mut out, self.denomination);
        let ghost s9: Seq<u8> = out@;
        out.push(self.merkle_tree_height);
        let ghost s10: Seq<u8> = out@;
        push_bytes32(&mut out, &self.merkle_tree);
        let ghost s42: Seq<u8> = out@;
        push_bytes32(&mut out, &self.verifier);
        proof {
            let d: Seq<u8> = out@;
            assert(d.len() == 74);
            assert forall|k: int| 0 <= k < 42 implies d[k] == s42[k] by {
                assert(d.subrange(0, 42)[k] == s42[k]);
            }
            assert forall|k: int| 0 <= k < 10 implies s42[k] == s10[k] by {
                assert(s42.subrange(0, 10)[k] == s10[k]);
            }
            assert forall|k: int| 0 <= k < 1 implies s9[k] == s1[k] by {
                assert(s9.subrange(0, 1)[k] == s1[k]);
            }
            assert(u64_le(d.subrange(1, 9)) == self.denomination as nat) by {
                assert forall|k: int| 0 <= k < 8 implies d.subrange(1, 9)[k] == s9.subrange(
                    1,
                    9,
                )[k] by {
                    assert(s9.subrange(1, 9)[k] == s9[1 + k]);
                }
                assert(d.subrange(1, 9) =~= s9.subrange(1, 9));
            }
            assert(self.merkle_tree@ =~= d.subrange(10, 42)) by {
                assert forall|k: int| 0 <= k < 32 implies d.subrange(10, 42)[k]
                    == self.merkle_tree@[k] by {
                    assert(s42.subrange(10, 42)[k] == self.merkle_tree@[k]);
                    assert(s42.subrange(10, 42)[k] == s42[10 + k]);
                }
            }
            assert(self.verifier@ == d.subrange(42, 74));
        }
        out
    }

    /// Restore a configuration record from its byte form; anything but an
    /// exact record is rejected.
    pub fn unpack(data: &[u8]) -> (r: Result<TornadoInstance, TornadoError>)
        ensures
            r is Ok <==> (data@.len() == 74 && (data@[0] == 0 || data@[0] == 1)),
            r matches Ok(ins) ==> instance_matches_bytes(ins, data@),
            r is Err ==> r == Err::<TornadoInstance, TornadoError>(
                TornadoError::InvalidAccountData,
            ),
    {
        if data.len() != 74 {
            return Err(TornadoError::InvalidAccountData);
        }
        let flag: u8 = data[0];
        if flag > 1 {
            return Err(TornadoError::InvalidAccountData);
        }
        Ok(
            TornadoInstance {
                is_initialized: flag == 1,
                denomination: read_u64_le(data, 1),
                merkle_tree_height: data[9],
                merkle_tree: read_bytes32(data, 10),
                verifier: read_bytes32(data, 42),
            },
        )
    }
}

/// A configuration record survives persistence: any two records read back
/// from the same bytes agree on every field.
pub proof fn lemma_instance_roundtrip(i1: TornadoInstance, i2: TornadoInstance, d: Seq<u8>)
    requires
        instance_matches_bytes(i1, d),
        instance_matches_bytes(i2, d),
    ensures
        i1.is_initialized == i2.is_initialized,
        i1.denomination == i2.denomination,
        i1.merkle_tree_height == i2.merkle_tree_height,
        i1.merkle_tree@ == i2.merkle_tree@,
        i1.verifier@ == i2.verifier@,
{
}

/// A later stage of a byte buffer keeps every subrange of an earlier stage.
proof fn lemma_prefix_subrange(pre: Seq<u8>, post: Seq<u8>, a: int, b: int)
    requires
        0 <= a <= b <= pre.len(),
        post.len() >= pre.len(),
        post.subrange(0, pre.len() as int) == pre,
    ensures
        post.subrange(a, b) == pre.subrange(a, b),
{
    assert forall|m: int| 0 <= m < b - a implies post.subrange(a, b)[m] == pre.subrange(
        a,
        b,
    )[m] by {
        assert(post.subrange(0, pre.len() as int)[a + m] == pre[a + m]);
        assert(post.subrange(a, b)[m] == post[a + m]);
        assert(pre.subrange(a, b)[m] == pre[a + m]);
    }
    assert(post.subrange(a, b) =~= pre.subrange(a, b));
}

/// Append the 4 little-endian bytes of `v`.
fn push_u32_le(out: &mut Vec<u8>, v: u32)
    ensures
        final(out)@.len() == old(out)@.len() + 4,
        final(out)@.subrange(0, old(out)@.len() as int) == old(out)@,
        u32_le(final(out)@.subrange(old(out)@.len() as int, old(out)@.len() as int + 4))
            == v as nat,
{
    let ghost base: int = out@.len() as int;
    let b0: u8 = (v % 256) as u8;
    let x1: u32 = v / 256;
    let b1: u8 = (x1 % 256) as u8;
    let x2: u32 = x1 / 256;
    let b2: u8 = (x2 % 256) as u8;
    let x3: u32 = x2 / 256;
    let b3: u8 = (x3 % 256) as u8;
    out.push(b0);
    out.push(b1);
    out.push(b2);
    out.push(b3);
    proof {
        assert(out@.subrange(0, base) =~= old(out)@);
        assert(u32_le(out@.subrange(base, base + 4)) == v as nat);
    }
}

/// Append a vector of 32-byte nodes back to back.
fn push_nodes(out: &mut Vec<u8>, src: &Vec<[u8; 32]>)
    ensures
        final(out)@.len() == old(out)@.len() + 32 * src@.len(),
        final(out)@.subrange(0, old(out)@.len() as int) == old(out)@,
        forall|i: int|
            0 <= i < src@.len() ==> #[trigger] src@[i]@ == final(out)@.subrange(
                old(out)@.len() + 32 * i,
                old(out)@.len() + 32 * i + 32,
            ),
{
    let ghost base: int = out@.len() as int;
    let n: usize = src.len();
    let mut i: usize = 0;
    while i < n
        invariant
            i <= n,
            n == src@.len(),
            out@.len() == base + 32 * i,
            0 <= base,
            out@.subrange(0, base) == old(out)@,
            forall|j: int|
                0 <= j < i ==> #[trigger] src@[j]@ == out@.subrange(
                    base + 32 * j,
                    base + 32 * j + 32,
                ),
        decreases n - i,
    {
        let ghost pre: Seq<u8> = out@;
        push_bytes32(out, &src[i]);
        proof {
            lemma_prefix_subrange(pre, out@, 0, base);
            assert(out@.subrange(0, base) == old(out)@);
            assert forall|j: int|
                0 <= j < i implies #[trigger] src@[j]@ == out@.subrange(
                base + 32 * j,
                base + 32 * j + 32,
            ) by {
                lemma_prefix_subrange(pre, out@, base + 32 * j, base + 32 * j + 32);
            }
        }
        i = i + 1;
    }
}

/// Copy `n` 32-byte nodes out of a byte string.
fn read_nodes(data: &[u8], offset: usize, n: usize) -> (r: Vec<[u8; 32]>)
    requires
        offset + 32 * n <= data@.len(),
    ensures
        r@.len() == n as int,
        forall|i: int|
            0 <= i < n as int ==> #[trigger] r@[i]@ == data@.subrange(
                offset + 32 * i,
                offset + 32 * i + 32,
            ),
{
    let data_len: usize = data.len();
    let mut out: Vec<[u8; 32]> = Vec::new();
    let mut i: usize = 0;
    while i < n
        invariant
            i <= n,
            offset + 32 * n <= data@.len(),
            data@.len() == data_len as nat,
            out@.len() == i as int,
            forall|j: int|
                0 <= j < i ==> #[trigger] out@[j]@ == data@.subrange(
                    offset + 32 * j,
                    offset + 32 * j + 32,
                ),
        decreases n - i,
    {
        let node = read_bytes32(data, offset + 32 * i);
        out.push(node);
        i = i + 1;
    }
    out
}

/// Whether a tree record is what a persisted byte string holds: the flag,
/// the height, the leaf count, the newest-root slot, the root ring, one
/// waiting sibling per level, and the two length-prefixed sets, in order.
pub open spec fn tree_matches_bytes(t: MerkleTree, d: Seq<u8>) -> bool {
    let h = t.height as int;
    let nn = t.nullifier_hashes@.len() as int;
    let nc = t.commitments@.len() as int;
    &&& t.roots@.len() == ROOT_HISTORY_SIZE as int
    &&& t.filled_subtrees@.len() == h
    &&& d.len() == 979 + 32 * h + 32 * nn + 32 * nc
    &&& d[0] == (if t.is_initialized {
        1u8
    } else {
        0u8
    })
    &&& d[1] == t.height
    &&& t.next_index as nat == u64_le(d.subrange(2, 10))
    &&& d[10] == t.current_root_index
    &&& (forall|i: int|
        0 <= i < ROOT_HISTORY_SIZE as int ==> #[trigger] t.roots@[i]@ == d.subrange(
            11 + 32 * i,
            11 + 32 * i + 32,
        ))
    &&& (forall|i: int|
        0 <= i < h ==> #[trigger] t.filled_subtrees@[i]@ == d.subrange(
            971 + 32 * i,
            971 + 32 * i + 32,
        ))
    &&& nn as nat == u32_le(d.subrange(971 + 32 * h, 975 + 32 * h))
    &&& (forall|i: int|
        0 <= i < nn ==> #[trigger] t.nullifier_hashes@[i]@ == d.subrange(
            975 + 32 * h + 32 * i,
            975 + 32 * h + 32 * i + 32,
        ))
    &&& nc as nat == u32_le(d.subrange(975 + 32 * h + 32 * nn, 979 + 32 * h + 32 * nn))
    &&& (forall|i: int|
        0 <= i < nc ==> #[trigger] t.commitments@[i]@ == d.subrange(
            979 + 32 * h + 32 * nn + 32 * i,
            979 + 32 * h + 32 * nn + 32 * i + 32,
        ))
}

/// Whether a byte string is a consistent tree record: the header, counts
/// and total length line up, the leaf count fits the height, and every
/// stored node — waiting sibling, nullifier hash or commitment — is a
/// canonical encoding, as the stored-element invariant demands.
pub open spec fn wf_tree_bytes(d: Seq<u8>) -> bool {
    &&& d.len() >= 11
    &&& (d[0] == 0 || d[0] == 1)
    &&& 1 <= d[1] <= 32
    &&& (d[10] as int) < ROOT_HISTORY_SIZE as int
    &&& d.len() >= 975 + 32 * (d[1] as int)
    &&& ({
        let h = d[1] as int;
        let nn = u32_le(d.subrange(971 + 32 * h, 975 + 32 * h)) as int;
        &&& d.len() >= 979 + 32 * h + 32 * nn
        &&& d.len() == 979 + 32 * h + 32 * nn + 32 * (u32_le(
            d.subrange(975 + 32 * h + 32 * nn, 979 + 32 * h + 32 * nn),
        ) as int)
        &&& u64_le(d.subrange(2, 10)) <= pow2(d[1] as nat)
        &&& (forall|i: int|
            0 <= i < h ==> is_canonical_bytes(
                #[trigger] d.subrange(971 + 32 * i, 971 + 32 * i + 32),
            ))
        &&& (forall|i: int|
            0 <= i < nn ==> is_canonical_bytes(
                #[trigger] d.subrange(975 + 32 * h + 32 * i, 975 + 32 * h + 32 * i + 32),
            ))
        &&& (forall|i: int|
            0 <= i < (u32_le(d.subrange(975 + 32 * h + 32 * nn, 979 + 32 * h + 32 * nn)) as int)
                ==> is_canonical_bytes(
                #[trigger] d.subrange(
                    979 + 32 * h + 32 * nn + 32 * i,
                    979 + 32 * h + 32 * nn + 32 * i + 32,
                ),
            ))
    })
}

/// Nodes read out of a byte string carry their canonicity over to the
/// subranges they came from.
proof fn lemma_nodes_canonical(d: Seq<u8>, offset: int, nodes: Seq<[u8; 32]>)
    requires
        all_canonical(nodes),
        forall|i: int|
            0 <= i < nodes.len() ==> #[trigger] nodes[i]@ == d.subrange(
                offset + 32 * i,
                offset + 32 * i + 32,
            ),
    ensures
        forall|i: int|
            0 <= i < nodes.len() ==> is_canonical_bytes(
                #[trigger] d.subrange(offset + 32 * i, offset + 32 * i + 32),
            ),
{
    assert forall|i: int|
        0 <= i < nodes.len() implies is_canonical_bytes(
        #[trigger] d.subrange(offset + 32 * i, offset + 32 * i + 32),
    ) by {
        assert(nodes[i]@ == d.subrange(offset + 32 * i, offset + 32 * i + 32));
        assert(is_canonical_bytes(nodes[i]@));
    }
}

/// And conversely: a non-canonical node read out of a byte string refutes
/// canonicity of the subrange it came from.
proof fn lemma_nodes_not_canonical(d: Seq<u8>, offset: int, nodes: Seq<[u8; 32]>)
    requires
        !all_canonical(nodes),
        forall|i: int|
            0 <= i < nodes.len() ==> #[trigger] nodes[i]@ == d.subrange(
                offset + 32 * i,
                offset + 32 * i + 32,
            ),
    ensures
        !(forall|i: int|
            0 <= i < nodes.len() ==> is_canonical_bytes(
                #[trigger] d.subrange(offset + 32 * i, offset + 32 * i + 32),
            )),
{
    assert(exists|j: int| 0 <= j < nodes.len() && !is_canonical_bytes(#[trigger] nodes[j]@));
    let j = choose|j: int| 0 <= j < nodes.len() && !is_canonical_bytes(#[trigger] nodes[j]@);
    assert(d.subrange(offset + 32 * j, offset + 32 * j + 32) == nodes[j]@);
    assert(!is_canonical_bytes(d.subrange(offset + 32 * j, offset + 32 * j + 32)));
}

/// Whether every node of a vector is a canonical encoding.
fn vec_all_canonical(v: &Vec<[u8; 32]>) -> (r: bool)
    ensures
        r == all_canonical(v@),
{
    let mut i: usize = 0;
    while i < v.len()
        invariant
            i <= v@.len(),
            forall|k: int| 0 <= k < i ==> is_canonical_bytes(#[trigger] v@[k]@),
        decreases v@.len() - i,
    {
        if !crate::field::is_canonical(&v[i]) {
            proof {
                assert(!is_canonical_bytes(v@[i as int]@));
            }
            return false;
        }
        i = i + 1;
    }
    true
}

/// A tree record survives persistence: any two records read back from the
/// same bytes agree on every scalar and hold the same entries. In
/// particular, the nullifier set is exactly as it was written.
pub proof fn lemma_tree_survives_restart(t1: MerkleTree, t2: MerkleTree, d: Seq<u8>)
    requires
        tree_matches_bytes(t1, d),
        tree_matches_bytes(t2, d),
    ensures
        t1.is_initialized == t2.is_initialized,
        t1.height == t2.height,
        t1.next_index == t2.next_index,
        t1.current_root_index == t2.current_root_index,
        t1.roots@.len() == t2.roots@.len(),
        forall|i: int| 0 <= i < t1.roots@.len() ==> #[trigger] t1.roots@[i]@ == t2.roots@[i]@,
        t1.filled_subtrees@.len() == t2.filled_subtrees@.len(),
        forall|i: int|
            0 <= i < t1.filled_subtrees@.len() ==> #[trigger] t1.filled_subtrees@[i]@
                == t2.filled_subtrees@[i]@,
        t1.nullifier_hashes@.len() == t2.nullifier_hashes@.len(),
        forall|i: int|
            0 <= i < t1.nullifier_hashes@.len() ==> #[trigger] t1.nullifier_hashes@[i]@
                == t2.nullifier_hashes@[i]@,
        t1.commitments@.len() == t2.commitments@.len(),
        forall|i: int|
            0 <= i < t1.commitments@.len() ==> #[trigger] t1.commitments@[i]@
                == t2.commitments@[i]@,
{
    assert(t1.height == d[1] && t2.height == d[1]);
    let h = t1.height as int;
    assert(t1.nullifier_hashes@.len() as nat == u32_le(d.subrange(971 + 32 * h, 975 + 32 * h)));
    assert(t2.nullifier_hashes@.len() as nat == u32_le(d.subrange(971 + 32 * h, 975 + 32 * h)));
}

/// The state of a pool's Merkle tree, nullifier set and commitment set.
#[derive(Clone, Debug, PartialEq, Eq)]
pub struct MerkleTree {
    /// Whether the tree has been initialised.
    pub is_initialized: bool,
    /// The height of the tree; fixed at creation.
    pub height: u8,
    /// The number of leaves inserted so far, which is also the position the
    /// next leaf will take. Wide enough to hold `2^height` even for the
    /// tallest tree.
    pub next_index: u64,
    /// The ring-buffer slot of the newest root.
    pub current_root_index: u8,
    /// The ring buffer of the last [`ROOT_HISTORY_SIZE`] roots.
    pub roots: Vec<[u8; 32]>,
    /// Per level, the left child still waiting for its right partner.
    pub filled_subtrees: Vec<[u8; 32]>,
    /// The nullifier hashes spent so far.
    pub nullifier_hashes: Vec<[u8; 32]>,
    /// The commitments inserted so far.
    pub commitments: Vec<[u8; 32]>,
}

impl MerkleTree {
    /// The structural invariant every reachable tree state satisfies.
    pub open spec fn well_formed(self) -> bool {
        &&& 1 <= self.height <= 32
        &&& self.roots@.len() == ROOT_HISTORY_SIZE as int
        &&& (self.current_root_index as int) < ROOT_HISTORY_SIZE as int
        &&& self.filled_subtrees@.len() == self.height as int
        &&& self.next_index as nat <= pow2(self.height as nat)
        &&& all_canonical(self.filled_subtrees@)
        &&& all_canonical(self.commitments@)
        &&& all_canonical(self.nullifier_hashes@)
    }

    /// Persist the tree record in its byte form.
    pub fn pack(&self) -> (r: Vec<u8>)
        requires
            self.roots@.len() == ROOT_HISTORY_SIZE as int,
            self.filled_subtrees@.len() == self.height as int,
            self.nullifier_hashes@.len() <= 0xffffffff,
            self.commitments@.len() <= 0xffffffff,
        ensures
            tree_matches_bytes(*self, r@),
    {
        let ghost h: int = self.height as int;
        let ghost nn: int = self.nullifier_hashes@.len() as int;
        let ghost nc: int = self.commitments@.len() as int;
        let mut out: Vec<u8> = Vec::new();
        out.push(if self.is_initialized {
            1u8
        } else {
            0u8
        });
        out.push(self.height);
        let ghost s2: Seq<u8> = out@;
        push_u64_le(&mut out, self.next_index);
        let ghost s10: Seq<u8> = out@;
        out.push(self.current_root_index);
        let ghost s11: Seq<u8> = out@;
        push_nodes(&mut out, &self.roots);
        let ghost s_roots: Seq<u8> = out@;
        push_nodes(&mut out, &self.filled_subtrees);
        let ghost s_filled: Seq<u8> = out@;
        push_u32_le(&mut out, self.nullifier_hashes.len() as u32);
        let ghost s_ncount: Seq<u8> = out@;
        push_nodes(&mut out, &self.nullifier_hashes);
        let ghost s_nulls: Seq<u8> = out@;
        push_u32_le(&mut out, self.commitments.len() as u32);
        let ghost s_ccount: Seq<u8> = out@;
        push_nodes(&mut out, &self.commitments);
        proof {
            let d: Seq<u8> = out@;
            assert(d.len() == 979 + 32 * h + 32 * nn + 32 * nc);
            // walk every stage's prefix back from the final buffer
            assert(d.subrange(0, s_ccount.len() as int) == s_ccount);
            assert(d.subrange(0, s_nulls.len() as int) == s_nulls) by {
                lemma_prefix_subrange(s_ccount, d, 0, s_nulls.len() as int);
            }
            assert(d.subrange(0, s_ncount.len() as int) == s_ncount) by {
                lemma_prefix_subrange(s_nulls, d, 0, s_ncount.len() as int);
            }
            assert(d.subrange(0, s_filled.len() as int) == s_filled) by {
                lemma_prefix_subrange(s_ncount, d, 0, s_filled.len() as int);
            }
            assert(d.subrange(0, s_roots.len() as int) == s_roots) by {
                lemma_prefix_subrange(s_filled, d, 0, s_roots.len() as int);
            }
            assert(d.subrange(0, 11) == s11) by {
                lemma_prefix_subrange(s_roots, d, 0, 11);
            }
            assert(d.subrange(0, 10) == s10) by {
                lemma_prefix_subrange(s11, d, 0, 10);
            }
            assert(d.subrange(0, 2) == s2) by {
                lemma_prefix_subrange(s10, d, 0, 2);
            }
            // header fields
            assert(d[0] == s2[0] && d[1] == s2[1]) by {
                assert(d.subrange(0, 2)[0] == s2[0]);
                assert(d.subrange(0, 2)[1] == s2[1]);
            }
            assert(u64_le(d.subrange(2, 10)) == self.next_index as nat) by {
                lemma_prefix_subrange(s10, d, 2, 10);
            }
            assert(d[10] == self.current_root_index) by {
                assert(d.subrange(0, 11)[10] == s11[10]);
            }
            // the root ring
            assert forall|i: int|
                0 <= i < ROOT_HISTORY_SIZE as int implies #[trigger] self.roots@[i]@ == d.subrange(
                11 + 32 * i,
                11 + 32 * i + 32,
            ) by {
                lemma_prefix_subrange(s_roots, d, 11 + 32 * i, 11 + 32 * i + 32);
            }
            // the waiting siblings
            assert forall|i: int|
                0 <= i < h implies #[trigger] self.filled_subtrees@[i]@ == d.subrange(
                971 + 32 * i,
                971 + 32 * i + 32,
            ) by {
                lemma_prefix_subrange(s_filled, d, 971 + 32 * i, 971 + 32 * i + 32);
            }
            // the nullifier set and its count
            assert(u32_le(d.subrange(971 + 32 * h, 975 + 32 * h)) == nn as nat) by {
                lemma_prefix_subrange(s_ncount, d, 971 + 32 * h, 975 + 32 * h);
            }
            assert forall|i: int|
                0 <= i < nn implies #[trigger] self.nullifier_hashes@[i]@ == d.subrange(
                975 + 32 * h + 32 * i,
                975 + 32 * h + 32 * i + 32,
            ) by {
                lemma_prefix_subrange(s_nulls, d, 975 + 32 * h + 32 * i,
                    975 + 32 * h + 32 * i + 32);
            }
            // the commitment set and its count
            assert(u32_le(d.subrange(975 + 32 * h + 32 * nn, 979 + 32 * h + 32 * nn))
                == nc as nat) by {
                lemma_prefix_subrange(s_ccount, d, 975 + 32 * h + 32 * nn,
                    979 + 32 * h + 32 * nn);
            }
        }
        out
    }

    /// Restore a tree record from its byte form. Succeeds exactly on
    /// consistent records — header, counts and total length line up, the
    /// leaf count fits the height, and every stored node is canonical — so a
    /// restored record always satisfies [`MerkleTree::well_formed`].
    pub fn unpack(data: &[u8]) -> (r: Result<MerkleTree, TornadoError>)
        ensures
            r is Ok <==> wf_tree_bytes(data@),
            r matches Ok(t) ==> tree_matches_bytes(t, data@) && t.well_formed(),
            r is Err ==> r == Err::<MerkleTree, TornadoError>(TornadoError::InvalidAccountData),
    {
        let data_len: usize = data.len();
        if data_len < 11 {
            return Err(TornadoError::InvalidAccountData);
        }
        let flag: u8 = data[0];
        if flag > 1 {
            return Err(TornadoError::InvalidAccountData);
        }
        let height: u8 = data[1];
        if height < 1 || height > 32 {
            return Err(TornadoError::InvalidAccountData);
        }
        let current_root_index: u8 = data[10];
        if current_root_index as usize >= ROOT_HISTORY_SIZE {
            return Err(TornadoError::InvalidAccountData);
        }
        let h: usize = height as usize;
        if data_len < 975 + 32 * h {
            return Err(TornadoError::InvalidAccountData);
        }
        let next_index: u64 = read_u64_le(data, 2);
        if next_index > crate::merkle_tree::tree_capacity(height) {
            return Err(TornadoError::InvalidAccountData);
        }
        let roots = read_nodes(data, 11, ROOT_HISTORY_SIZE);
        let filled_subtrees = read_nodes(data, 971, h);
        if !vec_all_canonical(&filled_subtrees) {
            proof {
                lemma_nodes_not_canonical(data@, 971, filled_subtrees@);
            }
            return Err(TornadoError::InvalidAccountData);
        }
        let nn: u32 = read_u32_le(data, 971 + 32 * h);
        if (data_len as u64) < 979 + 32 * (h as u64) + 32 * (nn as u64) {
            return Err(TornadoError::InvalidAccountData);
        }
        let nullifier_hashes = read_nodes(data, 975 + 32 * h, nn as usize);
        if !vec_all_canonical(&nullifier_hashes) {
            proof {
                lemma_nodes_not_canonical(data@, 975 + 32 * (h as int), nullifier_hashes@);
            }
            return Err(TornadoError::InvalidAccountData);
        }
        let nc: u32 = read_u32_le(data, 975 + 32 * h + 32 * (nn as usize));
        if (data_len as u64) != 979 + 32 * (h as u64) + 32 * (nn as u64) + 32 * (nc as u64) {
            return Err(TornadoError::InvalidAccountData);
        }
        let commitments = read_nodes(data, 979 + 32 * h + 32 * (nn as usize), nc as usize);
        if !vec_all_canonical(&commitments) {
            proof {
                lemma_nodes_not_canonical(
                    data@,
                    979 + 32 * (h as int) + 32 * (nn as int),
                    commitments@,
                );
            }
            return Err(TornadoError::InvalidAccountData);
        }
        proof {
            lemma_nodes_canonical(data@, 971, filled_subtrees@);
            lemma_nodes_canonical(data@, 975 + 32 * (h as int), nullifier_hashes@);
            lemma_nodes_canonical(
                data@,
                979 + 32 * (h as int) + 32 * (nn as int),
                commitments@,
            );
        }
        Ok(
            MerkleTree {
                is_initialized: flag == 1,
                height,
                next_index,
                current_root_index,
                roots,
                filled_subtrees,
                nullifier_hashes,
                commitments,
            },
        )
    }

    /// The persisted size, in bytes, of a tree region able to hold a full
    /// tree of the given height: the 11-byte header and the root ring, one
    /// waiting sibling per level, and two length-prefixed vectors sized for
    /// `2^height` entries of 32 bytes each — exactly what [`MerkleTree::pack`]
    /// occupies when both sets are full.
    pub fn get_account_size(height: u8) -> (r: u64)
        requires
            1 <= height <= 32,
        ensures
            r as nat == 971 + 32 * height as nat + 8 + 64 * pow2(height as nat),
    {
        let max_leaves: u64 = crate::merkle_tree::tree_capacity(height);
        proof {
            vstd::arithmetic::power2::lemma2_to64();
            vstd::arithmetic::power2::lemma2_to64_rest();
            vstd::arithmetic::power2::lemma_pow2_strictly_increases(height as nat, 33);
        }
        971 + 32 * (height as u64) + 8 + 64 * max_leaves
    }
}

} // verus!
