//! The append-only hash accumulator: insertion, root, inclusion proofs and
//! their verification.
//!
//! Two readings of the tree live side by side and are kept apart on
//! purpose. The root pairs adjacent digests level by level and carries a
//! lone last digest up unchanged. A proof walks the same levels, but where
//! a position has no sibling it records the all-zero digest, and
//! verification hashes that digest in. The two agree for a leaf whose path
//! meets a sibling at every level, as every path of a full tree does; where
//! a level ends before the sibling they part.

use crate::hash::{
    bytes_equal, copy_bytes, empty_node, hash_pair, hash_two, keccak, keccak256, zero_digest,
    DIGEST_LEN,
};
use crate::node_store::NodeStore;
use vstd::arithmetic::power2::{
    lemma2_to64, lemma_pow2_strictly_increases, lemma_pow2_unfold, pow2,
};
use vstd::bits::lemma_u64_shl_is_mul;
use vstd::prelude::*;

verus! {

/// Deepest tree whose leaves a 32-bit leaf index can still tell apart.
pub const INDEX_BITS: u32 = 32;

/// The byte strings held by a vector of digests.
pub open spec fn digests(v: Seq<Vec<u8>>) -> Seq<Seq<u8>> {
    Seq::new(v.len(), |i: int| v[i]@)
}

/// Whether every entry of a level has the length of a digest.
pub open spec fn all_digests(level: Seq<Seq<u8>>) -> bool {
    forall|i: int| 0 <= i < level.len() ==> (#[trigger] level[i]).len() == DIGEST_LEN
}

/// Number of leaves that a tree of the given depth can take: two to the
/// power `max_depth`, and no more than the leaf index can count.
pub open spec fn capacity(max_depth: u32) -> nat {
    if max_depth >= INDEX_BITS {
        pow2(INDEX_BITS as nat)
    } else {
        pow2(max_depth as nat)
    }
}

/// The level above `level`: adjacent digests hashed in pairs, a lone last
/// digest carried up as it is.
pub open spec fn next_level(level: Seq<Seq<u8>>) -> Seq<Seq<u8>> {
    Seq::new(
        ((level.len() + 1) / 2) as nat,
        |j: int|
            if 2 * j + 1 < level.len() {
                hash_pair(level[2 * j], level[2 * j + 1])
            } else {
                level[2 * j]
            },
    )
}

/// The single digest that repeated pairing reduces a non-empty level to.
pub open spec fn reduce(level: Seq<Seq<u8>>) -> Seq<u8>
    decreases level.len(),
{
    if level.len() <= 1 {
        level[0]
    } else {
        reduce(next_level(level))
    }
}

/// The root over the given leaf digests: the empty node if there are none.
pub open spec fn root_of(leaves: Seq<Seq<u8>>) -> Seq<u8> {
    if leaves.len() == 0 {
        empty_node()
    } else {
        reduce(leaves)
    }
}

/// The position next to `index` in its pair: the low bit flipped.
pub open spec fn sibling_index(index: nat) -> nat {
    if index % 2 == 0 {
        index + 1
    } else {
        (index - 1) as nat
    }
}

/// The digest next to position `index` of `level`, or the empty node where
/// the level ends before it.
pub open spec fn sibling_digest(level: Seq<Seq<u8>>, index: nat) -> Seq<u8> {
    if sibling_index(index) < level.len() {
        level[sibling_index(index) as int]
    } else {
        empty_node()
    }
}

/// The digest one level up from `current` at position `index`, given the
/// digest next to it: the even position stands on the left.
pub open spec fn combine(current: Seq<u8>, sibling: Seq<u8>, index: nat) -> Seq<u8> {
    if index % 2 == 0 {
        hash_pair(current, sibling)
    } else {
        hash_pair(sibling, current)
    }
}

/// The `depth` sibling digests on the way up from position `index` of
/// `level`, lowest first.
pub open spec fn proof_of(level: Seq<Seq<u8>>, depth: nat, index: nat) -> Seq<Seq<u8>>
    decreases depth,
{
    if depth == 0 {
        Seq::empty()
    } else {
        seq![sibling_digest(level, index)] + proof_of(
            next_level(level),
            (depth - 1) as nat,
            index / 2,
        )
    }
}

/// The digest reached from `current` at position `index` by combining it
/// with each sibling of `proof` in turn.
pub open spec fn fold_proof(current: Seq<u8>, proof: Seq<Seq<u8>>, index: nat) -> Seq<u8>
    decreases proof.len(),
{
    if proof.len() == 0 {
        current
    } else {
        fold_proof(combine(current, proof[0], index), proof.drop_first(), index / 2)
    }
}

/// What a tree holds, as plain values.
pub struct TreeView {
    pub max_depth: u32,
    pub leaves: Seq<Seq<u8>>,
    pub nodes: Map<Seq<u8>, Seq<u8>>,
}

impl TreeView {
    /// The tree of depth `max_depth` with no leaf.
    pub open spec fn empty(max_depth: u32) -> TreeView {
        TreeView { max_depth, leaves: Seq::empty(), nodes: Map::empty() }
    }

    /// Whether no further leaf fits.
    pub open spec fn is_full(self) -> bool {
        self.leaves.len() >= capacity(self.max_depth)
    }

    /// The index that the next insertion returns, or `None` where it is
    /// refused because the tree is full.
    pub open spec fn next_index(self) -> Option<nat> {
        if self.is_full() {
            None
        } else {
            Some(self.leaves.len())
        }
    }

    /// The tree after an attempt to insert `payload`: one leaf longer, with
    /// the payload on record under its digest, unless the tree is full.
    pub open spec fn insert(self, payload: Seq<u8>) -> TreeView {
        if self.is_full() {
            self
        } else {
            TreeView {
                max_depth: self.max_depth,
                leaves: self.leaves.push(keccak256(payload)),
                nodes: self.nodes.insert(keccak256(payload), payload),
            }
        }
    }

    /// The tree after an attempt to insert each of `payloads` in turn.
    pub open spec fn insert_all(self, payloads: Seq<Seq<u8>>) -> TreeView
        decreases payloads.len(),
    {
        if payloads.len() == 0 {
            self
        } else {
            self.insert_all(payloads.drop_last()).insert(payloads.last())
        }
    }

    /// How many of the attempts to insert each of `payloads` in turn
    /// succeed.
    pub open spec fn successes(self, payloads: Seq<Seq<u8>>) -> nat
        decreases payloads.len(),
    {
        if payloads.len() == 0 {
            0
        } else {
            let earlier = self.successes(payloads.drop_last());
            if self.insert_all(payloads.drop_last()).is_full() {
                earlier
            } else {
                earlier + 1
            }
        }
    }

    /// The invariant of a tree: it holds no more leaves than fit, and each
    /// leaf is a digest.
    pub open spec fn wf(self) -> bool {
        &&& self.leaves.len() <= capacity(self.max_depth)
        &&& all_digests(self.leaves)
    }
}

/// An append-only binary hash tree over raw leaf payloads.
///
/// `leaves` holds the digest of each inserted payload in insertion order;
/// `nodes` keeps the payloads themselves, looked up by digest, and plays
/// no part in roots or proofs.
#[derive(Debug)]
pub struct MerkleTree {
    pub max_depth: u32,
    pub nodes: NodeStore,
    pub leaves: Vec<Vec<u8>>,
}

impl View for MerkleTree {
    type V = TreeView;

    open spec fn view(&self) -> TreeView {
        TreeView { max_depth: self.max_depth, leaves: digests(self.leaves@), nodes: self.nodes@ }
    }
}

/// The level above `level`.
fn pair_up(level: &Vec<Vec<u8>>) -> (next: Vec<Vec<u8>>)
    ensures
        digests(next@) == next_level(digests(level@)),
        next@.len() == (level@.len() + 1) / 2,
        all_digests(digests(level@)) ==> all_digests(digests(next@)),
{
    let count: usize = level.len();
    let pairs: usize = count / 2;
    let mut next: Vec<Vec<u8>> = Vec::new();
    let mut j: usize = 0;
    while j < pairs
        invariant
            count == level@.len(),
            pairs == count / 2,
            j <= pairs,
            next@.len() == j,
            forall|k: int|
                0 <= k < j ==> (#[trigger] next@[k])@ == next_level(digests(level@))[k],
            forall|k: int| 0 <= k < j ==> (#[trigger] next@[k])@.len() == DIGEST_LEN,
        decreases pairs - j,
    {
        let digest = hash_two(level[2 * j].as_slice(), level[2 * j + 1].as_slice());
        next.push(digest);
        j += 1;
    }
    if count % 2 == 1 {
        assert(digests(level@)[count - 1] == level@[count - 1]@);
        next.push(copy_bytes(level[count - 1].as_slice()));
    }
    next
}

/// An owned copy of a level.
fn copy_level(level: &Vec<Vec<u8>>) -> (copy: Vec<Vec<u8>>)
    ensures
        digests(copy@) == digests(level@),
        copy@.len() == level@.len(),
{
    let mut copy: Vec<Vec<u8>> = Vec::new();
    let mut i: usize = 0;
    while i < level.len()
        invariant
            i <= level@.len(),
            copy@.len() == i,
            forall|k: int| 0 <= k < i ==> (#[trigger] copy@[k])@ == level@[k]@,
        decreases level@.len() - i,
    {
        copy.push(copy_bytes(level[i].as_slice()));
        i += 1;
    }
    copy
}

impl MerkleTree {
    /// An empty tree that takes up to two to the power `max_depth` leaves.
    pub fn new(max_depth: u32) -> (tree: Self)
        ensures
            tree@ == TreeView::empty(max_depth),
            tree@.wf(),
    {
        let tree = MerkleTree { max_depth, nodes: NodeStore::new(), leaves: Vec::new() };
        assert(tree@.leaves =~= Seq::<Seq<u8>>::empty());
        tree
    }

    /// Whether no further leaf fits.
    fn is_full(&self) -> (full: bool)
        ensures
            full == self@.is_full(),
    {
        let count: u64 = self.leaves.len() as u64;
        let depth: u64 = if self.max_depth >= INDEX_BITS {
            INDEX_BITS as u64
        } else {
            self.max_depth as u64
        };
        proof {
            lemma2_to64();
            if depth < 32 {
                lemma_pow2_strictly_increases(depth as nat, 32);
            }
            lemma_u64_shl_is_mul(1u64, depth);
        }
        count >= (1u64 << depth)
    }

    /// Appends the digest of `leaf_data` as the next leaf, records the
    /// payload under that digest, and returns the new leaf's index. A full
    /// tree is left as it was and the insertion is refused.
    pub fn insert(&mut self, leaf_data: &[u8]) -> (res: Result<u32, &'static str>)
        ensures
            final(self)@ == old(self)@.insert(leaf_data@),
            old(self)@.wf() ==> final(self)@.wf(),
            all_digests(old(self)@.leaves) ==> all_digests(final(self)@.leaves),
            match res {
                Ok(index) => old(self)@.next_index() == Some(index as nat),
                Err(reason) => old(self)@.next_index() is None && reason@ == "Tree is full"@,
            },
    {
        if self.is_full() {
            return Err("Tree is full");
        }
        proof {
            lemma2_to64();
            if self.max_depth < 32 {
                lemma_pow2_strictly_increases(self.max_depth as nat, 32);
            }
        }
        let ghost before = self@;
        let index: u32 = self.leaves.len() as u32;
        let leaf_hash: Vec<u8> = keccak(leaf_data);
        self.leaves.push(copy_bytes(leaf_hash.as_slice()));
        self.nodes.insert(leaf_hash, copy_bytes(leaf_data));
        proof {
            assert(self@.leaves =~= before.leaves.push(keccak256(leaf_data@)));
        }
        Ok(index)
    }

    /// The sibling digests on the way up from leaf `index`, one for each of
    /// the tree's `max_depth` levels, lowest first. Each is taken from the
    /// level as the root computation builds it; where the level ends
    /// before the sibling's position, the all-zero digest stands in. Where
    /// the leaves are digests, so is every sibling.
    pub fn get_proof(&self, index: u32) -> (res: Result<Vec<Vec<u8>>, &'static str>)
        ensures
            all_digests(self@.leaves) ==> (res matches Ok(proof) ==> forall|k: int|
                0 <= k < proof@.len() ==> (#[trigger] proof@[k])@.len() == DIGEST_LEN),
            match res {
                Ok(proof) => index < self@.leaves.len() && proof@.len() == self.max_depth
                    && digests(proof@) == proof_of(
                    self@.leaves,
                    self.max_depth as nat,
                    index as nat,
                ),
                Err(reason) => index >= self@.leaves.len() && reason@ == "Index out of bounds"@,
            },
    {
        if index as usize >= self.leaves.len() {
            return Err("Index out of bounds");
        }
        let mut proof: Vec<Vec<u8>> = Vec::new();
        let mut level: Vec<Vec<u8>> = copy_level(&self.leaves);
        let mut position: usize = index as usize;
        let mut height: u32 = 0;
        while height < self.max_depth
            invariant
                height <= self.max_depth,
                proof@.len() == height,
                position < level@.len(),
                all_digests(self@.leaves) ==> all_digests(digests(level@)),
                all_digests(self@.leaves) ==> forall|k: int|
                    0 <= k < proof@.len() ==> (#[trigger] proof@[k])@.len() == DIGEST_LEN,
                digests(proof@) + proof_of(
                    digests(level@),
                    (self.max_depth - height) as nat,
                    position as nat,
                ) == proof_of(self@.leaves, self.max_depth as nat, index as nat),
            decreases self.max_depth - height,
        {
            let sibling: usize = if position % 2 == 0 {
                position + 1
            } else {
                position - 1
            };
            let digest: Vec<u8> = if sibling < level.len() {
                copy_bytes(level[sibling].as_slice())
            } else {
                zero_digest()
            };
            proof.push(digest);
            level = pair_up(&level);
            position = position / 2;
            height += 1;
        }
        Ok(proof)
    }

    /// Whether combining `leaf_hash` at position `index` with each sibling
    /// of `proof` in turn arrives at `root`.
    pub fn verify_proof(root: &[u8], leaf_hash: &[u8], proof: &[Vec<u8>], index: u32) -> (valid:
        bool)
        ensures
            valid == (fold_proof(leaf_hash@, digests(proof@), index as nat) == root@),
    {
        let mut current: Vec<u8> = copy_bytes(leaf_hash);
        let mut position: u32 = index;
        let mut i: usize = 0;
        assert(digests(proof@).skip(0) =~= digests(proof@));
        while i < proof.len()
            invariant
                i <= proof@.len(),
                fold_proof(current@, digests(proof@).skip(i as int), position as nat)
                    == fold_proof(leaf_hash@, digests(proof@), index as nat),
            decreases proof@.len() - i,
        {
            let ghost rest = digests(proof@).skip(i as int);
            assert(rest.drop_first() =~= digests(proof@).skip(i + 1));
            current =
            if position % 2 == 0 {
                hash_two(current.as_slice(), proof[i].as_slice())
            } else {
                hash_two(proof[i].as_slice(), current.as_slice())
            };
            position = position / 2;
            i += 1;
        }
        bytes_equal(current.as_slice(), root)
    }

    /// The root digest: 32 zero bytes for a tree without leaves; otherwise
    /// the one digest left after pairing adjacent digests level by level,
    /// a lone last digest moving up unchanged. Where the leaves are
    /// digests, the root is 32 bytes long.
    pub fn get_root(&self) -> (root: Vec<u8>)
        ensures
            root@ == root_of(self@.leaves),
            all_digests(self@.leaves) ==> root@.len() == DIGEST_LEN,
    {
        if self.leaves.len() == 0 {
            return zero_digest();
        }
        if self.leaves.len() == 1 {
            return copy_bytes(self.leaves[0].as_slice());
        }
        let mut level: Vec<Vec<u8>> = pair_up(&self.leaves);
        while level.len() > 1
            invariant
                level@.len() >= 1,
                reduce(digests(level@)) == reduce(self@.leaves),
                all_digests(self@.leaves) ==> all_digests(digests(level@)),
            decreases level@.len(),
        {
            level = pair_up(&level);
        }
        copy_bytes(level[0].as_slice())
    }
}

/// Inserting into an empty tree fills it in order: after any run of
/// insertions the leaves are the digests of the first payloads, as many as
/// fit, each at the index of its payload. So the insertion that follows
/// `k` earlier ones returns `k` while `k` is below the capacity, and is
/// refused from then on.
pub proof fn lemma_inserts_fill_in_order(max_depth: u32, payloads: Seq<Seq<u8>>)
    ensures
        ({
            let tree = TreeView::empty(max_depth).insert_all(payloads);
            &&& tree.max_depth == max_depth
            &&& tree.leaves.len() == if payloads.len() < capacity(max_depth) {
                payloads.len()
            } else {
                capacity(max_depth)
            }
            &&& forall|i: int|
                0 <= i < tree.leaves.len() ==> #[trigger] tree.leaves[i] == keccak256(payloads[i])
            &&& tree.next_index() == if payloads.len() < capacity(max_depth) {
                Some(payloads.len())
            } else {
                None
            }
        }),
    decreases payloads.len(),
{
    if payloads.len() > 0 {
        lemma_inserts_fill_in_order(max_depth, payloads.drop_last());
    }
}

/// No insertion is lost and none is counted twice: after any run of
/// attempts the tree has grown by exactly as many leaves as attempts
/// succeeded.
pub proof fn lemma_leaf_count_counts_successes(tree: TreeView, payloads: Seq<Seq<u8>>)
    ensures
        tree.insert_all(payloads).leaves.len() == tree.leaves.len() + tree.successes(payloads),
        tree.insert_all(payloads).max_depth == tree.max_depth,
    decreases payloads.len(),
{
    if payloads.len() > 0 {
        lemma_leaf_count_counts_successes(tree, payloads.drop_last());
    }
}

/// Whether the path up from position `index` of `level` meets a sibling at
/// each of `depth` levels and ends at the only digest of the level it
/// arrives at.
pub open spec fn path_is_paired(level: Seq<Seq<u8>>, depth: nat, index: nat) -> bool
    decreases depth,
{
    if depth == 0 {
        level.len() == 1
    } else {
        sibling_index(index) < level.len() && path_is_paired(
            next_level(level),
            (depth - 1) as nat,
            index / 2,
        )
    }
}

/// Where the path of a leaf meets a sibling at every level, its proof
/// verifies against the root: folding the leaf's digest with the siblings
/// of the proof arrives at the root.
pub proof fn lemma_paired_path_verifies(leaves: Seq<Seq<u8>>, depth: nat, index: nat)
    requires
        index < leaves.len(),
        path_is_paired(leaves, depth, index),
    ensures
        fold_proof(leaves[index as int], proof_of(leaves, depth, index), index) == root_of(leaves),
    decreases depth,
{
    if depth > 0 {
        let above = next_level(leaves);
        let path = proof_of(leaves, depth, index);
        let rest = proof_of(above, (depth - 1) as nat, index / 2);
        assert(path.drop_first() =~= rest);
        lemma_paired_path_verifies(above, (depth - 1) as nat, index / 2);
    }
}

/// In a full tree every path meets a sibling at every level.
pub proof fn lemma_full_tree_is_paired(leaves: Seq<Seq<u8>>, depth: nat, index: nat)
    requires
        leaves.len() == pow2(depth),
        index < leaves.len(),
    ensures
        path_is_paired(leaves, depth, index),
    decreases depth,
{
    lemma2_to64();
    if depth > 0 {
        lemma_pow2_unfold(depth);
        lemma_full_tree_is_paired(next_level(leaves), (depth - 1) as nat, index / 2);
    }
}

/// On a full tree every proof verifies against the root: for each leaf,
/// folding its digest with the siblings of its proof arrives at the root.
pub proof fn lemma_full_tree_proof_verifies(leaves: Seq<Seq<u8>>, depth: nat, index: nat)
    requires
        leaves.len() == pow2(depth),
        index < leaves.len(),
    ensures
        fold_proof(leaves[index as int], proof_of(leaves, depth, index), index) == root_of(leaves),
{
    lemma_full_tree_is_paired(leaves, depth, index);
    lemma_paired_path_verifies(leaves, depth, index);
}

/// A tree filled to capacity by insertions proves each of its payloads:
/// for every payload, folding its digest with the siblings of the proof
/// for its index arrives at the root.
pub proof fn lemma_filled_tree_verifies(max_depth: u32, payloads: Seq<Seq<u8>>, index: nat)
    requires
        max_depth <= INDEX_BITS,
        payloads.len() == pow2(max_depth as nat),
        index < payloads.len(),
    ensures
        ({
            let tree = TreeView::empty(max_depth).insert_all(payloads);
            fold_proof(
                keccak256(payloads[index as int]),
                proof_of(tree.leaves, tree.max_depth as nat, index),
                index,
            ) == root_of(tree.leaves)
        }),
{
    lemma_inserts_fill_in_order(max_depth, payloads);
    let tree = TreeView::empty(max_depth).insert_all(payloads);
    lemma_full_tree_proof_verifies(tree.leaves, max_depth as nat, index);
}

/// The roots of the smallest trees: 32 zero bytes for no leaf, the leaf
/// itself for one, the hash of the pair for two, and for three the hash
/// of the first pair's hash with the third leaf carried up unchanged.
pub proof fn lemma_small_roots(a: Seq<u8>, b: Seq<u8>, c: Seq<u8>)
    ensures
        root_of(Seq::empty()) == empty_node(),
        empty_node().len() == 32,
        forall|i: int| 0 <= i < 32 ==> empty_node()[i] == 0u8,
        root_of(seq![a]) == a,
        root_of(seq![a, b]) == hash_pair(a, b),
        root_of(seq![a, b, c]) == hash_pair(hash_pair(a, b), c),
{
    reveal_with_fuel(reduce, 3);
}

} // verus!
