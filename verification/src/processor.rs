//! The transaction processor: decodes instructions, validates their
//! preconditions, drives the tree, the nullifier set and the proof check,
//! and accounts for the fund movements each instruction requires.
//!
//! The processor is pure state logic. The host adapter reads the pool's
//! records and the relevant account balances, hands them in as plain values,
//! runs the processor, and — on success — persists the records and performs
//! the native-coin transfers the updated balances call for. Every operation
//! is atomic: on any error the records and the balances are unchanged.

use vstd::prelude::*;

use vstd::arithmetic::power2::pow2;

use crate::error::TornadoError;
use crate::field::{bytes32_value, is_canonical, is_canonical_bytes, u64_le};
use crate::groth16::{
    groth16_accepts, public_inputs_canonical, spec_public_inputs, assemble_public_inputs,
    verify_tornado_proof,
};
use crate::instruction::{
    parse_instruction, wf_instruction_bytes, TornadoInstruction, TAG_DEPOSIT, TAG_INITIALIZE,
    TAG_WITHDRAW,
};
use crate::merkle_tree::{
    all_canonical, insert_leaf, insert_root_value, is_known_root, is_zero_bytes, known_root_in,
    level_value, node_values, tree_capacity, updated_filled,
};
use crate::state::{MerkleTree, TornadoInstance, ROOT_HISTORY_SIZE};
use crate::utils::{
    add_commitment, add_nullifier_hash, commitment_exists, contains_bytes32, eq32,
    nullifier_hash_exists,
};

verus! {

/// The native-coin balances a transaction touches, in base units.
#[derive(Clone, Copy, Debug, PartialEq, Eq, Structural)]
pub struct Balances {
    /// The account paying a deposit in.
    pub payer: u64,
    /// The pool's custody account.
    pub pool: u64,
    /// The withdrawal recipient.
    pub recipient: u64,
    /// The withdrawal relayer.
    pub relayer: u64,
}

/// The identities of the accounts a transaction names, as handed in by the
/// host adapter.
#[derive(Clone, Copy, Debug)]
pub struct AccountKeys {
    /// The tree-state account the transaction was submitted with.
    pub merkle_tree: [u8; 32],
    /// The verifier-parameters identity.
    pub verifier: [u8; 32],
    /// The recipient account the transaction was submitted with.
    pub recipient: [u8; 32],
    /// The relayer account the transaction was submitted with.
    pub relayer: [u8; 32],
}

/// Appending exactly one 32-byte entry with the given bytes.
pub open spec fn pushed_bytes32(pre: Seq<[u8; 32]>, post: Seq<[u8; 32]>, x: Seq<u8>) -> bool {
    &&& post.len() == pre.len() + 1
    &&& post.subrange(0, pre.len() as int) == pre
    &&& post[pre.len() as int]@ == x
}

/// The relation between a tree state before and after one leaf insert.
pub open spec fn tree_insert_rel(t0: MerkleTree, t1: MerkleTree, leaf: Seq<u8>) -> bool {
    &&& t1.is_initialized == t0.is_initialized
    &&& t1.height == t0.height
    &&& t1.next_index == t0.next_index + 1
    &&& (t1.current_root_index as int) == ((t0.current_root_index as int + 1) % (
    ROOT_HISTORY_SIZE as int))
    &&& t1.roots@.len() == ROOT_HISTORY_SIZE as int
    &&& (forall|t: int|
        0 <= t < ROOT_HISTORY_SIZE as int && t != (t1.current_root_index as int)
            ==> t1.roots@[t] == t0.roots@[t])
    &&& is_canonical_bytes(t1.roots@[t1.current_root_index as int]@)
    &&& bytes32_value(t1.roots@[t1.current_root_index as int]@) == insert_root_value(
        node_values(t0.filled_subtrees@),
        t0.next_index as nat,
        bytes32_value(leaf),
        t0.height as int,
    )
    &&& t1.filled_subtrees@.len() == t0.height as int
    &&& (forall|t: int|
        0 <= t < t0.height as int ==> if (t0.next_index as nat / pow2(t as nat)) % 2 == 0 {
            bytes32_value(#[trigger] t1.filled_subtrees@[t]@) == level_value(
                node_values(t0.filled_subtrees@),
                t0.next_index as nat,
                bytes32_value(leaf),
                t,
            )
        } else {
            t1.filled_subtrees@[t]@ == t0.filled_subtrees@[t]@
        })
}

/// The first precondition an Initialize violates, if any.
pub open spec fn initialize_error(
    instance: TornadoInstance,
    tree: MerkleTree,
    denomination: u64,
    merkle_tree_height: u8,
) -> Option<TornadoError> {
    if instance.is_initialized || tree.is_initialized {
        Some(TornadoError::AccountAlreadyInitialized)
    } else if denomination == 0 || merkle_tree_height < 1 || merkle_tree_height > 32 {
        Some(TornadoError::InvalidInstructionData)
    } else {
        None
    }
}

/// What a freshly initialised pool looks like.
pub open spec fn initialize_ok_post(
    keys: AccountKeys,
    denomination: u64,
    merkle_tree_height: u8,
    ins: TornadoInstance,
    tree: MerkleTree,
) -> bool {
    &&& ins.is_initialized == true
    &&& ins.denomination == denomination
    &&& ins.merkle_tree_height == merkle_tree_height
    &&& ins.merkle_tree@ == keys.merkle_tree@
    &&& ins.verifier@ == keys.verifier@
    &&& tree.is_initialized == true
    &&& tree.height == merkle_tree_height
    &&& tree.next_index == 0
    &&& tree.current_root_index == 0
    &&& tree.roots@.len() == ROOT_HISTORY_SIZE as int
    &&& (forall|i: int|
        0 <= i < ROOT_HISTORY_SIZE as int ==> is_zero_bytes(#[trigger] tree.roots@[i]@))
    &&& tree.filled_subtrees@.len() == merkle_tree_height as int
    &&& (forall|i: int|
        0 <= i < merkle_tree_height as int ==> is_zero_bytes(
            #[trigger] tree.filled_subtrees@[i]@,
        ))
    &&& tree.nullifier_hashes@.len() == 0
    &&& tree.commitments@.len() == 0
    &&& tree.well_formed()
}

/// The first precondition a Deposit violates, if any.
pub open spec fn deposit_error(
    instance: TornadoInstance,
    tree: MerkleTree,
    keys: AccountKeys,
    commitment: Seq<u8>,
    balances: Balances,
) -> Option<TornadoError> {
    if !instance.is_initialized {
        Some(TornadoError::AccountNotInitialized)
    } else if instance.merkle_tree@ != keys.merkle_tree@ {
        Some(TornadoError::InvalidAccountData)
    } else if !is_canonical_bytes(commitment) {
        Some(TornadoError::InvalidCommitment)
    } else if contains_bytes32(tree.commitments@, commitment) {
        Some(TornadoError::CommitmentAlreadyExists)
    } else if tree.next_index as nat >= pow2(tree.height as nat) {
        Some(TornadoError::MerkleTreeFull)
    } else if balances.payer < instance.denomination {
        Some(TornadoError::InsufficientFunds)
    } else {
        None
    }
}

/// The state change of a successful Deposit: one denomination moves from the
/// payer into custody, the leaf goes into the tree, the commitment is
/// recorded, and nothing else moves.
pub open spec fn deposit_ok_post(
    ins: TornadoInstance,
    t0: MerkleTree,
    t1: MerkleTree,
    b0: Balances,
    b1: Balances,
    commitment: Seq<u8>,
) -> bool {
    &&& tree_insert_rel(t0, t1, commitment)
    &&& pushed_bytes32(t0.commitments@, t1.commitments@, commitment)
    &&& t1.nullifier_hashes@ == t0.nullifier_hashes@
    &&& b1.payer == b0.payer - ins.denomination
    &&& b1.pool == b0.pool + ins.denomination
    &&& b1.recipient == b0.recipient
    &&& b1.relayer == b0.relayer
    &&& t1.well_formed()
}

/// The first precondition a Withdraw violates, if any, with the proof check
/// abstracted into the boolean `proof_accepted`.
pub open spec fn withdraw_error(
    instance: TornadoInstance,
    tree: MerkleTree,
    keys: AccountKeys,
    root: Seq<u8>,
    nullifier_hash: Seq<u8>,
    recipient: Seq<u8>,
    relayer: Seq<u8>,
    fee: u64,
    refund: u64,
    balances: Balances,
    proof_accepted: bool,
) -> Option<TornadoError> {
    if !instance.is_initialized {
        Some(TornadoError::AccountNotInitialized)
    } else if instance.merkle_tree@ != keys.merkle_tree@ {
        Some(TornadoError::InvalidAccountData)
    } else if recipient != keys.recipient@ {
        Some(TornadoError::InvalidRecipient)
    } else if relayer != keys.relayer@ {
        Some(TornadoError::InvalidRelayer)
    } else if fee > instance.denomination {
        Some(TornadoError::InvalidFee)
    } else if refund != 0 {
        Some(TornadoError::InvalidAmount)
    } else if !is_canonical_bytes(nullifier_hash) {
        Some(TornadoError::InvalidNullifierHash)
    } else if contains_bytes32(tree.nullifier_hashes@, nullifier_hash) {
        Some(TornadoError::NullifierAlreadySpent)
    } else if !known_root_in(tree.roots@, root) {
        Some(TornadoError::InvalidMerkleRoot)
    } else if !proof_accepted {
        Some(TornadoError::InvalidProof)
    } else if balances.pool < instance.denomination {
        Some(TornadoError::InsufficientFunds)
    } else {
        None
    }
}

/// The state change of a successful Withdraw: the nullifier hash is recorded
/// first, then exactly one denomination leaves custody, split between the
/// recipient and the relayer. The tree itself does not change.
pub open spec fn withdraw_ok_post(
    ins: TornadoInstance,
    t0: MerkleTree,
    t1: MerkleTree,
    b0: Balances,
    b1: Balances,
    nullifier_hash: Seq<u8>,
    fee: u64,
) -> bool {
    &&& pushed_bytes32(t0.nullifier_hashes@, t1.nullifier_hashes@, nullifier_hash)
    &&& t1.commitments@ == t0.commitments@
    &&& t1.roots@ == t0.roots@
    &&& t1.filled_subtrees@ == t0.filled_subtrees@
    &&& t1.next_index == t0.next_index
    &&& t1.current_root_index == t0.current_root_index
    &&& t1.height == t0.height
    &&& t1.is_initialized == t0.is_initialized
    &&& b1.pool == b0.pool - ins.denomination
    &&& b1.recipient == b0.recipient + (ins.denomination - fee)
    &&& b1.relayer == b0.relayer + fee
    &&& b1.payer == b0.payer
    &&& t1.well_formed()
}

/// Whether the verifier accepts a withdrawal, as a function of the verifying
/// key, the proof bytes and the withdrawal's public arguments.
pub open spec fn withdraw_proof_ok(
    vk: Seq<u8>,
    proof: Seq<u8>,
    root: Seq<u8>,
    nullifier_hash: Seq<u8>,
    recipient: Seq<u8>,
    relayer: Seq<u8>,
    fee: u64,
    refund: u64,
) -> bool {
    &&& proof.len() == 256
    &&& public_inputs_canonical(
        spec_public_inputs(root, nullifier_hash, recipient, relayer, fee, refund),
    )
    &&& groth16_accepts(
        vk,
        proof,
        spec_public_inputs(root, nullifier_hash, recipient, relayer, fee, refund),
    )
}

/// The transaction processor.
pub struct Processor;

impl Processor {
    /// Decode one instruction and run it against the pool's records.
    ///
    /// Undecodable bytes are rejected as invalid instruction data; otherwise
    /// the decoded operation runs with its own contract. Any failure leaves
    /// every record and every balance exactly as it was.
    pub fn process(
        instance: &mut TornadoInstance,
        tree: &mut MerkleTree,
        keys: &AccountKeys,
        vk_bytes: &[u8],
        balances: &mut Balances,
        instruction_data: &[u8],
    ) -> (r: Result<(), TornadoError>)
        requires
            old(instance).is_initialized ==> old(tree).well_formed(),
            old(balances).pool as nat + old(instance).denomination as nat <= u64::MAX as nat,
            old(balances).recipient as nat + old(instance).denomination as nat <= u64::MAX as nat,
            old(balances).relayer as nat + old(instance).denomination as nat <= u64::MAX as nat,
        ensures
            r is Err ==> *final(instance) == *old(instance) && *final(tree) == *old(tree)
                && *final(balances) == *old(balances),
            !wf_instruction_bytes(instruction_data@) ==> r == Err::<(), TornadoError>(
                TornadoError::InvalidInstructionData,
            ),
            r is Ok ==> wf_instruction_bytes(instruction_data@),
            (wf_instruction_bytes(instruction_data@) && instruction_data@[0] == TAG_INITIALIZE)
                ==> ({
                let denomination = u64_le(instruction_data@.subrange(1, 9)) as u64;
                let height = instruction_data@[9];
                &&& (r is Ok <==> initialize_error(
                    *old(instance),
                    *old(tree),
                    denomination,
                    height,
                ) is None)
                &&& (r is Err ==> r == Err::<(), TornadoError>(
                    initialize_error(*old(instance), *old(tree), denomination, height).unwrap(),
                ))
                &&& (r is Ok ==> initialize_ok_post(
                    *keys,
                    denomination,
                    height,
                    *final(instance),
                    *final(tree),
                ) && *final(balances) == *old(balances))
            }),
            (wf_instruction_bytes(instruction_data@) && instruction_data@[0] == TAG_DEPOSIT) ==> ({
                let c = instruction_data@.subrange(1, 33);
                &&& (r is Ok <==> deposit_error(
                    *old(instance),
                    *old(tree),
                    *keys,
                    c,
                    *old(balances),
                ) is None)
                &&& (r is Err ==> r == Err::<(), TornadoError>(
                    deposit_error(*old(instance), *old(tree), *keys, c, *old(balances)).unwrap(),
                ))
                &&& (r is Ok ==> deposit_ok_post(
                    *old(instance),
                    *old(tree),
                    *final(tree),
                    *old(balances),
                    *final(balances),
                    c,
                ) && *final(instance) == *old(instance))
            }),
            (wf_instruction_bytes(instruction_data@) && instruction_data@[0] == TAG_WITHDRAW)
                ==> ({
                let d = instruction_data@;
                let proof_bytes = d.subrange(5, 261);
                let root = d.subrange(261, 293);
                let nullifier_hash = d.subrange(293, 325);
                let recipient = d.subrange(325, 357);
                let relayer = d.subrange(357, 389);
                let fee = u64_le(d.subrange(389, 397)) as u64;
                let refund = u64_le(d.subrange(397, 405)) as u64;
                let accepted = withdraw_proof_ok(
                    vk_bytes@,
                    proof_bytes,
                    root,
                    nullifier_hash,
                    recipient,
                    relayer,
                    fee,
                    refund,
                );
                &&& (r is Ok <==> withdraw_error(
                    *old(instance),
                    *old(tree),
                    *keys,
                    root,
                    nullifier_hash,
                    recipient,
                    relayer,
                    fee,
                    refund,
                    *old(balances),
                    accepted,
                ) is None)
                &&& (r is Err ==> r == Err::<(), TornadoError>(
                    withdraw_error(
                        *old(instance),
                        *old(tree),
                        *keys,
                        root,
                        nullifier_hash,
                        recipient,
                        relayer,
                        fee,
                        refund,
                        *old(balances),
                        accepted,
                    ).unwrap(),
                ))
                &&& (r is Ok ==> withdraw_ok_post(
                    *old(instance),
                    *old(tree),
                    *final(tree),
                    *old(balances),
                    *final(balances),
                    nullifier_hash,
                    fee,
                ) && *final(instance) == *old(instance))
            }),
    {
        let parsed = match parse_instruction(instruction_data) {
            Ok(i) => i,
            Err(e) => {
                return Err(e);
            },
        };
        match parsed {
            TornadoInstruction::Initialize { denomination, merkle_tree_height } => {
                proof {
                    lemma_u64_le_fits(instruction_data@.subrange(1, 9));
                }
                Self::process_initialize(instance, tree, keys, denomination, merkle_tree_height)
            },
            TornadoInstruction::Deposit { commitment } => {
                let r = Self::process_deposit(instance, tree, keys, &commitment, balances);
                r
            },
            TornadoInstruction::Withdraw {
                proof,
                root,
                nullifier_hash,
                recipient,
                relayer,
                fee,
                refund,
            } => {
                proof {
                    lemma_u64_le_fits(instruction_data@.subrange(389, 397));
                    lemma_u64_le_fits(instruction_data@.subrange(397, 405));
                }
                let r = Self::process_withdraw(
                    instance,
                    tree,
                    keys,
                    vk_bytes,
                    proof.as_slice(),
                    &root,
                    &nullifier_hash,
                    &recipient,
                    &relayer,
                    fee,
                    refund,
                    balances,
                );
                r
            },
        }
    }
    /// Create the pool: write the configuration record and an empty tree.
    ///
    /// Fails if either record is already occupied, or if the parameters are
    /// out of range; on failure nothing is written.
    pub fn process_initialize(
        instance: &mut TornadoInstance,
        tree: &mut MerkleTree,
        keys: &AccountKeys,
        denomination: u64,
        merkle_tree_height: u8,
    ) -> (r: Result<(), TornadoError>)
        ensures
            r is Ok <==> initialize_error(
                *old(instance),
                *old(tree),
                denomination,
                merkle_tree_height,
            ) is None,
            r is Err ==> r == Err::<(), TornadoError>(
                initialize_error(
                    *old(instance),
                    *old(tree),
                    denomination,
                    merkle_tree_height,
                ).unwrap(),
            ) && *final(instance) == *old(instance) && *final(tree) == *old(tree),
            r is Ok ==> initialize_ok_post(
                *keys,
                denomination,
                merkle_tree_height,
                *final(instance),
                *final(tree),
            ),
    {
        if instance.is_initialized || tree.is_initialized {
            return Err(TornadoError::AccountAlreadyInitialized);
        }
        if denomination == 0 || merkle_tree_height < 1 || merkle_tree_height > 32 {
            return Err(TornadoError::InvalidInstructionData);
        }
        let roots = zero_nodes(ROOT_HISTORY_SIZE);
        let filled = zero_nodes(merkle_tree_height as usize);
        *instance = TornadoInstance {
            is_initialized: true,
            denomination,
            merkle_tree_height,
            merkle_tree: keys.merkle_tree,
            verifier: keys.verifier,
        };
        *tree = MerkleTree {
            is_initialized: true,
            height: merkle_tree_height,
            next_index: 0,
            current_root_index: 0,
            roots,
            filled_subtrees: filled,
            nullifier_hashes: Vec::new(),
            commitments: Vec::new(),
        };
        Ok(())
    }

    /// Lock one denomination together with a commitment: move the amount
    /// from the payer into custody and insert the commitment as a leaf.
    ///
    /// On any error nothing moves and nothing is recorded.
    pub fn process_deposit(
        instance: &TornadoInstance,
        tree: &mut MerkleTree,
        keys: &AccountKeys,
        commitment: &[u8; 32],
        balances: &mut Balances,
    ) -> (r: Result<(), TornadoError>)
        requires
            instance.is_initialized ==> old(tree).well_formed(),
            old(balances).pool as nat + instance.denomination as nat <= u64::MAX as nat,
        ensures
            r is Ok <==> deposit_error(
                *instance,
                *old(tree),
                *keys,
                commitment@,
                *old(balances),
            ) is None,
            r is Err ==> r == Err::<(), TornadoError>(
                deposit_error(*instance, *old(tree), *keys, commitment@, *old(balances)).unwrap(),
            ) && *final(tree) == *old(tree) && *final(balances) == *old(balances),
            r is Ok ==> deposit_ok_post(
                *instance,
                *old(tree),
                *final(tree),
                *old(balances),
                *final(balances),
                commitment@,
            ),
    {
        if !instance.is_initialized {
            return Err(TornadoError::AccountNotInitialized);
        }
        if !eq32(&instance.merkle_tree, &keys.merkle_tree) {
            return Err(TornadoError::InvalidAccountData);
        }
        if !is_canonical(commitment) {
            return Err(TornadoError::InvalidCommitment);
        }
        if commitment_exists(&tree.commitments, commitment) {
            return Err(TornadoError::CommitmentAlreadyExists);
        }
        let capacity: u64 = tree_capacity(tree.height);
        if tree.next_index >= capacity {
            return Err(TornadoError::MerkleTreeFull);
        }
        if balances.payer < instance.denomination {
            return Err(TornadoError::InsufficientFunds);
        }
        balances.payer = balances.payer - instance.denomination;
        balances.pool = balances.pool + instance.denomination;
        proof {
            vstd::arithmetic::power2::lemma2_to64();
            vstd::arithmetic::power2::lemma2_to64_rest();
            if (tree.height as nat) < 33 {
                vstd::arithmetic::power2::lemma_pow2_strictly_increases(tree.height as nat, 33);
            }
        }
        let next_index_small: u32 = tree.next_index as u32;
        let inserted = insert_leaf(
            commitment,
            next_index_small,
            tree.height,
            &mut tree.filled_subtrees,
            &mut tree.roots,
            &mut tree.current_root_index,
        );
        match inserted {
            Ok(_) => (),
            Err(_) => {
                // unreachable: capacity and canonicity were checked above
                proof {
                    assert(false);
                }
                return Err(TornadoError::InvalidCommitment);
            },
        }
        tree.next_index = tree.next_index + 1;
        match add_commitment(&mut tree.commitments, commitment) {
            Ok(_) => (),
            Err(_) => {
                // unreachable: the duplicate check was done above
                proof {
                    assert(false);
                }
                return Err(TornadoError::CommitmentAlreadyExists);
            },
        }
        proof {
            assert(tree.commitments@.subrange(0, old(tree).commitments@.len() as int)
                =~= old(tree).commitments@);
            assert(pushed_bytes32(old(tree).commitments@, tree.commitments@, commitment@));
            assert(all_canonical(tree.commitments@)) by {
                assert forall|k: int| 0 <= k < tree.commitments@.len() implies is_canonical_bytes(
                    #[trigger] tree.commitments@[k]@,
                ) by {
                    if k < old(tree).commitments@.len() {
                        assert(tree.commitments@[k] == old(tree).commitments@[k]);
                    }
                }
            }
            assert(tree.well_formed());
        }
        Ok(())
    }

    /// Apply a withdrawal whose proof check already has an outcome.
    ///
    /// This is the decision-and-effect half of a withdrawal: all policy
    /// checks, then — only if `proof_valid` — the nullifier insert and the
    /// two payouts. [`Processor::process_withdraw`] passes it the verifier's
    /// verdict; tests and alternative verifiers can drive it directly.
    pub fn process_withdraw_checked(
        instance: &TornadoInstance,
        tree: &mut MerkleTree,
        keys: &AccountKeys,
        proof_valid: bool,
        root: &[u8; 32],
        nullifier_hash: &[u8; 32],
        recipient: &[u8; 32],
        relayer: &[u8; 32],
        fee: u64,
        refund: u64,
        balances: &mut Balances,
    ) -> (r: Result<(), TornadoError>)
        requires
            instance.is_initialized ==> old(tree).well_formed(),
            old(balances).recipient as nat + instance.denomination as nat <= u64::MAX as nat,
            old(balances).relayer as nat + instance.denomination as nat <= u64::MAX as nat,
        ensures
            r is Ok <==> withdraw_error(
                *instance,
                *old(tree),
                *keys,
                root@,
                nullifier_hash@,
                recipient@,
                relayer@,
                fee,
                refund,
                *old(balances),
                proof_valid,
            ) is None,
            r is Err ==> r == Err::<(), TornadoError>(
                withdraw_error(
                    *instance,
                    *old(tree),
                    *keys,
                    root@,
                    nullifier_hash@,
                    recipient@,
                    relayer@,
                    fee,
                    refund,
                    *old(balances),
                    proof_valid,
                ).unwrap(),
            ) && *final(tree) == *old(tree) && *final(balances) == *old(balances),
            r is Ok ==> withdraw_ok_post(
                *instance,
                *old(tree),
                *final(tree),
                *old(balances),
                *final(balances),
                nullifier_hash@,
                fee,
            ),
    {
        if !instance.is_initialized {
            return Err(TornadoError::AccountNotInitialized);
        }
        if !eq32(&instance.merkle_tree, &keys.merkle_tree) {
            return Err(TornadoError::InvalidAccountData);
        }
        if !eq32(recipient, &keys.recipient) {
            return Err(TornadoError::InvalidRecipient);
        }
        if !eq32(relayer, &keys.relayer) {
            return Err(TornadoError::InvalidRelayer);
        }
        if fee > instance.denomination {
            return Err(TornadoError::InvalidFee);
        }
        if refund != 0 {
            return Err(TornadoError::InvalidAmount);
        }
        if !is_canonical(nullifier_hash) {
            return Err(TornadoError::InvalidNullifierHash);
        }
        if nullifier_hash_exists(&tree.nullifier_hashes, nullifier_hash) {
            return Err(TornadoError::NullifierAlreadySpent);
        }
        if !is_known_root(root, &tree.roots, tree.current_root_index) {
            return Err(TornadoError::InvalidMerkleRoot);
        }
        if !proof_valid {
            return Err(TornadoError::InvalidProof);
        }
        if balances.pool < instance.denomination {
            return Err(TornadoError::InsufficientFunds);
        }
        match add_nullifier_hash(&mut tree.nullifier_hashes, nullifier_hash) {
            Ok(_) => (),
            Err(_) => {
                // unreachable: the spent check was done above
                proof {
                    assert(false);
                }
                return Err(TornadoError::NullifierAlreadySpent);
            },
        }
        balances.pool = balances.pool - instance.denomination;
        balances.recipient = balances.recipient + (instance.denomination - fee);
        balances.relayer = balances.relayer + fee;
        proof {
            assert(tree.nullifier_hashes@.subrange(0, old(tree).nullifier_hashes@.len() as int)
                =~= old(tree).nullifier_hashes@);
            assert(pushed_bytes32(
                old(tree).nullifier_hashes@,
                tree.nullifier_hashes@,
                nullifier_hash@,
            ));
            assert(all_canonical(tree.nullifier_hashes@)) by {
                assert forall|k: int|
                    0 <= k < tree.nullifier_hashes@.len() implies is_canonical_bytes(
                    #[trigger] tree.nullifier_hashes@[k]@,
                ) by {
                    if k < old(tree).nullifier_hashes@.len() {
                        assert(tree.nullifier_hashes@[k] == old(tree).nullifier_hashes@[k]);
                    }
                }
            }
            assert(tree.well_formed());
        }
        Ok(())
    }

    /// Withdraw one denomination against a zero-knowledge proof.
    ///
    /// Runs every policy check, then the Groth16 check over the supplied
    /// verifying key and the public inputs assembled from the withdrawal's
    /// own arguments, then the effects — in that order, all-or-nothing.
    pub fn process_withdraw(
        instance: &TornadoInstance,
        tree: &mut MerkleTree,
        keys: &AccountKeys,
        vk_bytes: &[u8],
        proof: &[u8],
        root: &[u8; 32],
        nullifier_hash: &[u8; 32],
        recipient: &[u8; 32],
        relayer: &[u8; 32],
        fee: u64,
        refund: u64,
        balances: &mut Balances,
    ) -> (r: Result<(), TornadoError>)
        requires
            instance.is_initialized ==> old(tree).well_formed(),
            old(balances).recipient as nat + instance.denomination as nat <= u64::MAX as nat,
            old(balances).relayer as nat + instance.denomination as nat <= u64::MAX as nat,
        ensures
            r is Ok <==> withdraw_error(
                *instance,
                *old(tree),
                *keys,
                root@,
                nullifier_hash@,
                recipient@,
                relayer@,
                fee,
                refund,
                *old(balances),
                withdraw_proof_ok(
                    vk_bytes@,
                    proof@,
                    root@,
                    nullifier_hash@,
                    recipient@,
                    relayer@,
                    fee,
                    refund,
                ),
            ) is None,
            r is Err ==> r == Err::<(), TornadoError>(
                withdraw_error(
                    *instance,
                    *old(tree),
                    *keys,
                    root@,
                    nullifier_hash@,
                    recipient@,
                    relayer@,
                    fee,
                    refund,
                    *old(balances),
                    withdraw_proof_ok(
                        vk_bytes@,
                        proof@,
                        root@,
                        nullifier_hash@,
                        recipient@,
                        relayer@,
                        fee,
                        refund,
                    ),
                ).unwrap(),
            ) && *final(tree) == *old(tree) && *final(balances) == *old(balances),
            r is Ok ==> withdraw_ok_post(
                *instance,
                *old(tree),
                *final(tree),
                *old(balances),
                *final(balances),
                nullifier_hash@,
                fee,
            ),
    {
        // Run the policy checks first, with the proof verdict pinned to
        // false: any failure they report takes precedence, and the verifier
        // is consulted only once they all pass.
        let precheck = Self::process_withdraw_checked(
            instance,
            tree,
            keys,
            false,
            root,
            nullifier_hash,
            recipient,
            relayer,
            fee,
            refund,
            balances,
        );
        match precheck {
            Ok(_) => {
                // unreachable: with the verdict pinned false nothing succeeds
                proof {
                    assert(false);
                }
                return Ok(());
            },
            Err(TornadoError::InvalidProof) => (),
            Err(e) => {
                return Err(e);
            },
        }
        let inputs = assemble_public_inputs(root, nullifier_hash, recipient, relayer, fee, refund);
        let proof_valid: bool = match verify_tornado_proof(vk_bytes, proof, &inputs) {
            Ok(_) => true,
            Err(_) => false,
        };
        Self::process_withdraw_checked(
            instance,
            tree,
            keys,
            proof_valid,
            root,
            nullifier_hash,
            recipient,
            relayer,
            fee,
            refund,
            balances,
        )
    }
}

/// One accepted deposit advances the waiting siblings exactly as the
/// model fold does: the values after the insert are [`updated_filled`] of
/// the values before, and the new root is [`insert_root_value`] over them.
/// Chained over a whole deposit history this is the executable side of
/// [`crate::merkle_tree::lemma_insertion_determinism`]: the newest root is
/// the sparse Merkle root of the commitments inserted so far.
pub proof fn lemma_deposit_advances_tree(t0: MerkleTree, t1: MerkleTree, leaf: Seq<u8>)
    requires
        tree_insert_rel(t0, t1, leaf),
        t0.filled_subtrees@.len() == t0.height as int,
    ensures
        node_values(t1.filled_subtrees@) == updated_filled(
            node_values(t0.filled_subtrees@),
            t0.next_index as nat,
            bytes32_value(leaf),
            t0.height as int,
        ),
        bytes32_value(t1.roots@[t1.current_root_index as int]@) == insert_root_value(
            node_values(t0.filled_subtrees@),
            t0.next_index as nat,
            bytes32_value(leaf),
            t0.height as int,
        ),
{
    let fv0 = node_values(t0.filled_subtrees@);
    let nf = updated_filled(fv0, t0.next_index as nat, bytes32_value(leaf), t0.height as int);
    assert forall|i: int|
        0 <= i < t0.height as int implies node_values(t1.filled_subtrees@)[i] == nf[i] by {
        assert((t0.next_index as nat / pow2(i as nat)) as int == (t0.next_index as nat) as int
            / crate::merkle_tree::p2(i));
        assert(fv0[i] == bytes32_value(t0.filled_subtrees@[i]@));
        if (t0.next_index as nat / pow2(i as nat)) % 2 == 0 {
            assert(bytes32_value(t1.filled_subtrees@[i]@) == level_value(
                fv0,
                t0.next_index as nat,
                bytes32_value(leaf),
                i,
            ));
        } else {
            assert(t1.filled_subtrees@[i]@ == t0.filled_subtrees@[i]@);
        }
    }
    assert(node_values(t1.filled_subtrees@) =~= nf);
}

/// One accepted deposit advances the root ring exactly as the model fold
/// does: if the ring held the last produced roots before, it holds them plus
/// the new one after, with the newest-root slot one further along. Chained
/// over a deposit history this is the executable side of
/// [`crate::merkle_tree::lemma_ring_buffer_completeness`].
pub proof fn lemma_deposit_advances_ring(
    t0: MerkleTree,
    t1: MerkleTree,
    leaf: Seq<u8>,
    produced: Seq<Seq<u8>>,
)
    requires
        tree_insert_rel(t0, t1, leaf),
        t0.roots@.len() == ROOT_HISTORY_SIZE as int,
        crate::merkle_tree::roots_views(t0.roots@) == crate::merkle_tree::ring_after(produced),
        t0.current_root_index as int == (produced.len() as int) % (ROOT_HISTORY_SIZE as int),
    ensures
        crate::merkle_tree::roots_views(t1.roots@) == crate::merkle_tree::ring_after(
            produced.push(t1.roots@[t1.current_root_index as int]@),
        ),
        t1.current_root_index as int == (produced.len() as int + 1) % (ROOT_HISTORY_SIZE as int),
{
    let n = produced.len() as int;
    let new_root = t1.roots@[t1.current_root_index as int]@;
    let grown = produced.push(new_root);
    assert(grown.drop_last() =~= produced);
    assert(crate::merkle_tree::ring_after(grown) == crate::merkle_tree::ring_after(
        produced,
    ).update((n + 1) % 30, new_root));
    assert((n % 30 + 1) % 30 == (n + 1) % 30) by {
        let q = n / 30;
        assert(n == 30 * q + n % 30);
        vstd::arithmetic::div_mod::lemma_mod_multiples_vanish(q, n % 30 + 1, 30);
    }
    assert forall|s: int|
        0 <= s < ROOT_HISTORY_SIZE as int implies crate::merkle_tree::roots_views(t1.roots@)[s]
        == crate::merkle_tree::ring_after(grown)[s] by {
        if s != t1.current_root_index as int {
            assert(t1.roots@[s] == t0.roots@[s]);
            assert(crate::merkle_tree::roots_views(t0.roots@)[s] == t0.roots@[s]@);
        }
    }
    assert(crate::merkle_tree::roots_views(t1.roots@) =~= crate::merkle_tree::ring_after(grown));
}

/// Nullifier monotonicity: a successful withdrawal only ever extends the
/// nullifier set. Every nullifier hash known before is still known after,
/// the spent one is now known, and nothing was removed.
pub proof fn lemma_nullifier_monotonic(
    ins: TornadoInstance,
    t0: MerkleTree,
    t1: MerkleTree,
    b0: Balances,
    b1: Balances,
    nullifier_hash: Seq<u8>,
    fee: u64,
)
    requires
        withdraw_ok_post(ins, t0, t1, b0, b1, nullifier_hash, fee),
    ensures
        t1.nullifier_hashes@.len() == t0.nullifier_hashes@.len() + 1,
        forall|i: int|
            0 <= i < t0.nullifier_hashes@.len() ==> #[trigger] t1.nullifier_hashes@[i]
                == t0.nullifier_hashes@[i],
        contains_bytes32(t1.nullifier_hashes@, nullifier_hash),
        forall|x: Seq<u8>|
            #[trigger] contains_bytes32(t0.nullifier_hashes@, x) ==> contains_bytes32(
                t1.nullifier_hashes@,
                x,
            ),
{
    let pre = t0.nullifier_hashes@;
    let post = t1.nullifier_hashes@;
    assert forall|i: int| 0 <= i < pre.len() implies #[trigger] post[i] == pre[i] by {
        assert(post.subrange(0, pre.len() as int)[i] == pre[i]);
    }
    assert(post[pre.len() as int]@ == nullifier_hash);
    assert forall|x: Seq<u8>| #[trigger] contains_bytes32(pre, x) implies contains_bytes32(
        post,
        x,
    ) by {
        let i = choose|i: int| 0 <= i < pre.len() && #[trigger] pre[i]@ == x;
        assert(post[i]@ == x);
    }
}

/// Double-spend rejection: once a withdrawal has spent a nullifier hash, no
/// later withdrawal with the same nullifier hash can succeed, whatever its
/// other arguments, balances or proof verdict.
pub proof fn lemma_double_spend_rejected(
    ins: TornadoInstance,
    t0: MerkleTree,
    t1: MerkleTree,
    b0: Balances,
    b1: Balances,
    nullifier_hash: Seq<u8>,
    fee: u64,
)
    requires
        withdraw_ok_post(ins, t0, t1, b0, b1, nullifier_hash, fee),
    ensures
        forall|keys: AccountKeys, root2: Seq<u8>, rec2: Seq<u8>, rel2: Seq<u8>, fee2: u64, refund2: u64, b2: Balances, ok2: bool|
            #[trigger] withdraw_error(
                    ins,
                    t1,
                    keys,
                    root2,
                    nullifier_hash,
                    rec2,
                    rel2,
                    fee2,
                    refund2,
                    b2,
                    ok2,
                ) is Some,
{
    lemma_nullifier_monotonic(ins, t0, t1, b0, b1, nullifier_hash, fee);
    assert(contains_bytes32(t1.nullifier_hashes@, nullifier_hash));
}

/// Double-spend rejection survives restarts: persist the tree after a
/// withdrawal, read it back, and a withdrawal with the same nullifier hash
/// still can never succeed.
pub proof fn lemma_double_spend_rejected_across_restart(
    ins: TornadoInstance,
    t0: MerkleTree,
    t1: MerkleTree,
    b0: Balances,
    b1: Balances,
    nullifier_hash: Seq<u8>,
    fee: u64,
    d: Seq<u8>,
    restored: MerkleTree,
)
    requires
        withdraw_ok_post(ins, t0, t1, b0, b1, nullifier_hash, fee),
        crate::state::tree_matches_bytes(t1, d),
        crate::state::tree_matches_bytes(restored, d),
    ensures
        forall|keys: AccountKeys, root2: Seq<u8>, rec2: Seq<u8>, rel2: Seq<u8>, fee2: u64, refund2: u64, b2: Balances, ok2: bool|
            #[trigger] withdraw_error(
                ins,
                restored,
                keys,
                root2,
                nullifier_hash,
                rec2,
                rel2,
                fee2,
                refund2,
                b2,
                ok2,
            ) is Some,
{
    lemma_nullifier_monotonic(ins, t0, t1, b0, b1, nullifier_hash, fee);
    crate::state::lemma_tree_survives_restart(t1, restored, d);
    let i = choose|i: int|
        0 <= i < t1.nullifier_hashes@.len() && #[trigger] t1.nullifier_hashes@[i]@
            == nullifier_hash;
    assert(restored.nullifier_hashes@[i]@ == nullifier_hash);
    assert(contains_bytes32(restored.nullifier_hashes@, nullifier_hash));
}

/// Conservation: a successful withdrawal moves exactly one denomination out
/// of custody, split as `denomination - fee` to the recipient and `fee` to
/// the relayer; the payer is untouched.
pub proof fn lemma_conservation(
    ins: TornadoInstance,
    t0: MerkleTree,
    t1: MerkleTree,
    b0: Balances,
    b1: Balances,
    nullifier_hash: Seq<u8>,
    fee: u64,
)
    requires
        withdraw_ok_post(ins, t0, t1, b0, b1, nullifier_hash, fee),
        fee <= ins.denomination,
    ensures
        b0.pool - b1.pool == ins.denomination,
        (b1.recipient - b0.recipient) + (b1.relayer - b0.relayer) == ins.denomination,
        b1.payer == b0.payer,
{
}

/// An 8-byte little-endian integer fits a 64-bit word.
proof fn lemma_u64_le_fits(s: Seq<u8>)
    requires
        s.len() == 8,
    ensures
        u64_le(s) < 0x10000000000000000nat,
{
}

/// A vector of `n` all-zero nodes.
fn zero_nodes(n: usize) -> (r: Vec<[u8; 32]>)
    ensures
        r@.len() == n as int,
        forall|i: int| 0 <= i < n as int ==> is_zero_bytes(#[trigger] r@[i]@),
        all_canonical(r@),
{
    let zero: [u8; 32] = [0u8; 32];
    proof {
        assert(bytes32_value(zero@) == 0) by {
            assert(u64_le(zero@.subrange(0, 8)) == 0);
            assert(u64_le(zero@.subrange(8, 16)) == 0);
            assert(u64_le(zero@.subrange(16, 24)) == 0);
            assert(u64_le(zero@.subrange(24, 32)) == 0);
        }
    }
    let mut out: Vec<[u8; 32]> = Vec::new();
    let mut i: usize = 0;
    while i < n
        invariant
            i <= n,
            out@.len() == i as int,
            is_canonical_bytes(zero@),
            is_zero_bytes(zero@),
            forall|k: int| 0 <= k < i as int ==> out@[k] == zero,
        decreases n - i,
    {
        out.push(zero);
        i = i + 1;
    }
    out
}

} // verus!
