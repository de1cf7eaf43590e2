use bubblegum_nif::merkle::MerkleTree;
use bubblegum_nif::tree_manager::{insert_leaf, restore_or_create, verify_leaf, DEFAULT_MAX_DEPTH};
use solana_program::keccak;

#[test]
fn default_depth_is_fourteen() {
    assert_eq!(DEFAULT_MAX_DEPTH, 14);
}

#[test]
fn nothing_stored_gives_an_empty_tree() {
    let tree = restore_or_create(None, 7);
    assert_eq!(tree.max_depth, 7);
    assert!(tree.leaves.is_empty());
    assert_eq!(tree.nodes.len(), 0);
}

#[test]
fn stored_tree_wins_over_the_requested_depth() {
    let mut stored = MerkleTree::new(3);
    stored.insert(b"kept").unwrap();
    let leaves = stored.leaves.clone();
    let tree = restore_or_create(Some(stored), 14);
    assert_eq!(tree.max_depth, 3);
    assert_eq!(tree.leaves, leaves);
    assert_eq!(tree.nodes.get(&leaves[0]), Some(&b"kept".to_vec()));
}

#[test]
fn insert_leaf_returns_index_and_new_root() {
    let mut tree = restore_or_create(None, DEFAULT_MAX_DEPTH);
    let leaf_hash = keccak::hash(b"test leaf").to_bytes().to_vec();
    let (index, root) = insert_leaf(&mut tree, b"test leaf").unwrap();
    assert_eq!(index, 0);
    assert_eq!(root, leaf_hash);
    assert_eq!(root, tree.get_root());
    let (index, root) = insert_leaf(&mut tree, b"second leaf").unwrap();
    assert_eq!(index, 1);
    assert_eq!(root, tree.get_root());
    let mut joined = leaf_hash.clone();
    joined.extend_from_slice(keccak::hash(b"second leaf").as_ref());
    assert_eq!(root, keccak::hash(&joined).to_bytes().to_vec());
}

#[test]
fn insert_leaf_into_full_tree_is_refused() {
    let mut tree = restore_or_create(None, 1);
    insert_leaf(&mut tree, b"one").unwrap();
    insert_leaf(&mut tree, b"two").unwrap();
    let root = tree.get_root();
    assert_eq!(insert_leaf(&mut tree, b"three"), Err("Tree is full"));
    assert_eq!(tree.leaves.len(), 2);
    assert_eq!(tree.get_root(), root);
}

#[test]
fn leaf_count_equals_successful_inserts() {
    let mut tree = restore_or_create(None, 3);
    let mut successes = 0;
    for i in 0..20u32 {
        if insert_leaf(&mut tree, &i.to_be_bytes()).is_ok() {
            successes += 1;
        }
    }
    assert_eq!(successes, 8);
    assert_eq!(tree.leaves.len(), successes);
}

#[test]
fn verify_leaf_accepts_the_leaves_of_a_full_tree() {
    let mut tree = restore_or_create(None, 2);
    let payloads: [&[u8]; 4] = [b"a", b"b", b"c", b"d"];
    for payload in payloads {
        insert_leaf(&mut tree, payload).unwrap();
    }
    for (index, payload) in payloads.iter().enumerate() {
        let leaf_hash = keccak::hash(payload).to_bytes();
        assert_eq!(verify_leaf(&tree, &leaf_hash, index as u32), Ok(true));
    }
    let other = keccak::hash(b"e").to_bytes();
    assert_eq!(verify_leaf(&tree, &other, 0), Ok(false));
    let first = keccak::hash(b"a").to_bytes();
    assert_eq!(verify_leaf(&tree, &first, 1), Ok(false));
}

#[test]
fn verify_leaf_of_unknown_index_is_refused() {
    let mut tree = restore_or_create(None, DEFAULT_MAX_DEPTH);
    insert_leaf(&mut tree, b"test leaf").unwrap();
    let leaf_hash = keccak::hash(b"test leaf").to_bytes();
    assert_eq!(verify_leaf(&tree, &leaf_hash, 1), Err("Index out of bounds"));
}

#[test]
fn verify_leaf_rejects_the_only_leaf_of_a_deep_tree() {
    let mut tree = restore_or_create(None, DEFAULT_MAX_DEPTH);
    let (index, root) = insert_leaf(&mut tree, b"test leaf").unwrap();
    let leaf_hash = keccak::hash(b"test leaf").to_bytes();
    assert_eq!(root, leaf_hash.to_vec());
    assert_eq!(verify_leaf(&tree, &leaf_hash, index), Ok(false));
}
