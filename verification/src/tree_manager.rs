//! What is done to an authority's accumulator while it is held for one
//! caller alone: the steps of the cache that involve no waiting.
//!
//! Looking the authority up, loading and saving its accumulator, and
//! holding it exclusively are the caller's part.

use crate::hash::DIGEST_LEN;
use crate::merkle::{all_digests, fold_proof, proof_of, root_of, MerkleTree, TreeView};
use vstd::prelude::*;

verus! {

/// Depth of the accumulator made for an authority that has none yet.
pub const DEFAULT_MAX_DEPTH: u32 = 14;

/// The accumulator to keep in memory for an authority that had none
/// there: the one that storage returned, or an empty one of depth
/// `max_depth` where storage had nothing.
pub fn restore_or_create(stored: Option<MerkleTree>, max_depth: u32) -> (tree: MerkleTree)
    ensures
        match stored {
            Some(persisted) => tree == persisted,
            None => tree@ == TreeView::empty(max_depth),
        },
{
    match stored {
        Some(persisted) => persisted,
        None => MerkleTree::new(max_depth),
    }
}

/// Inserts a leaf and computes the root that follows from it. The caller
/// persists the accumulator afterwards. An insertion that is refused
/// leaves the accumulator as it was.
pub fn insert_leaf(tree: &mut MerkleTree, leaf_data: &[u8]) -> (res: Result<
    (u32, Vec<u8>),
    &'static str,
>)
    ensures
        final(tree)@ == old(tree)@.insert(leaf_data@),
        old(tree)@.wf() ==> final(tree)@.wf(),
        all_digests(old(tree)@.leaves) ==> (res matches Ok(pair) ==> pair.1@.len() == DIGEST_LEN),
        match res {
            Ok((index, root)) => old(tree)@.next_index() == Some(index as nat) && root@
                == root_of(final(tree)@.leaves),
            Err(reason) => old(tree)@.next_index() is None && reason@ == "Tree is full"@,
        },
{
    match tree.insert(leaf_data) {
        Ok(index) => {
            let root: Vec<u8> = tree.get_root();
            Ok((index, root))
        },
        Err(reason) => Err(reason),
    }
}

/// Checks `leaf_hash` against the accumulator: whether the proof for
/// position `index` leads from it to the current root.
pub fn verify_leaf(tree: &MerkleTree, leaf_hash: &[u8], index: u32) -> (res: Result<
    bool,
    &'static str,
>)
    ensures
        match res {
            Ok(valid) => index < tree@.leaves.len() && valid == (fold_proof(
                leaf_hash@,
                proof_of(tree@.leaves, tree.max_depth as nat, index as nat),
                index as nat,
            ) == root_of(tree@.leaves)),
            Err(reason) => index >= tree@.leaves.len() && reason@ == "Index out of bounds"@,
        },
{
    match tree.get_proof(index) {
        Ok(proof) => {
            let root: Vec<u8> = tree.get_root();
            Ok(MerkleTree::verify_proof(root.as_slice(), leaf_hash, proof.as_slice(), index))
        },
        Err(reason) => Err(reason),
    }
}

} // verus!
