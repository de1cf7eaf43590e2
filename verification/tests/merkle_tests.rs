use bubblegum_nif::merkle::MerkleTree;
use solana_program::keccak;

fn digest(data: &[u8]) -> Vec<u8> {
    keccak::hash(data).to_bytes().to_vec()
}

fn digest_pair(left: &[u8], right: &[u8]) -> Vec<u8> {
    let mut joined = left.to_vec();
    joined.extend_from_slice(right);
    digest(&joined)
}

fn from_hex(text: &str) -> Vec<u8> {
    let digits: Vec<u32> = text.chars().map(|c| c.to_digit(16).unwrap()).collect();
    digits.chunks(2).map(|pair| (pair[0] * 16 + pair[1]) as u8).collect()
}

fn filled(max_depth: u32, count: usize) -> MerkleTree {
    let mut tree = MerkleTree::new(max_depth);
    for i in 0..count {
        let payload = format!("payload {}", i);
        assert_eq!(tree.insert(payload.as_bytes()), Ok(i as u32));
    }
    tree
}

#[test]
fn new_tree_is_empty() {
    let tree = MerkleTree::new(14);
    assert_eq!(tree.max_depth, 14);
    assert!(tree.leaves.is_empty());
    assert_eq!(tree.nodes.len(), 0);
}

#[test]
fn empty_tree_has_zero_root() {
    let tree = MerkleTree::new(3);
    assert_eq!(tree.get_root(), vec![0u8; 32]);
}

#[test]
fn leaf_is_keccak_of_payload() {
    let mut tree = MerkleTree::new(2);
    assert_eq!(tree.insert(b""), Ok(0));
    assert_eq!(tree.insert(b"abc"), Ok(1));
    assert_eq!(
        tree.leaves[0],
        from_hex("c5d2460186f7233c927e7db2dcc703c0e500b653ca82273b7bfad8045d85a470")
    );
    assert_eq!(
        tree.leaves[1],
        from_hex("4e03657aea45a94fc7d47ba826c8d667c0d1e6e33a64a036ec44f58fa12d6c45")
    );
}

#[test]
fn insert_records_payload_under_its_digest() {
    let mut tree = MerkleTree::new(2);
    tree.insert(b"test leaf").unwrap();
    let key = digest(b"test leaf");
    assert_eq!(tree.nodes.get(&key), Some(&b"test leaf".to_vec()));
    assert_eq!(tree.nodes.get(&[0u8; 32]), None);
    assert_eq!(tree.leaves, vec![key]);
}

#[test]
fn inserts_return_indices_in_order_until_full() {
    for depth in 0..5u32 {
        let mut tree = MerkleTree::new(depth);
        let capacity = 1u32 << depth;
        for i in 0..capacity {
            assert_eq!(tree.insert(&i.to_le_bytes()), Ok(i));
        }
        assert_eq!(tree.insert(b"one too many"), Err("Tree is full"));
        assert_eq!(tree.insert(b"and another"), Err("Tree is full"));
        assert_eq!(tree.leaves.len(), capacity as usize);
    }
}

#[test]
fn refused_insert_changes_nothing() {
    let mut tree = filled(1, 2);
    let leaves = tree.leaves.clone();
    let root = tree.get_root();
    assert_eq!(tree.insert(b"extra"), Err("Tree is full"));
    assert_eq!(tree.leaves, leaves);
    assert_eq!(tree.get_root(), root);
    assert_eq!(tree.nodes.len(), 2);
    assert_eq!(tree.nodes.get(&digest(b"extra")), None);
}

#[test]
fn depth_zero_tree_takes_one_leaf() {
    let mut tree = MerkleTree::new(0);
    assert_eq!(tree.insert(b"only"), Ok(0));
    assert_eq!(tree.insert(b"second"), Err("Tree is full"));
    assert_eq!(tree.get_root(), digest(b"only"));
    assert_eq!(tree.get_proof(0), Ok(vec![]));
    assert!(MerkleTree::verify_proof(&tree.get_root(), &digest(b"only"), &[], 0));
}

#[test]
fn deep_tree_is_not_full_after_a_few_leaves() {
    let mut tree = MerkleTree::new(40);
    for i in 0..10u32 {
        assert_eq!(tree.insert(&[i as u8]), Ok(i));
    }
    let proof = tree.get_proof(3).unwrap();
    assert_eq!(proof.len(), 40);
}

#[test]
fn root_of_one_leaf_is_the_leaf() {
    let mut tree = MerkleTree::new(3);
    tree.insert(b"A").unwrap();
    assert_eq!(tree.get_root(), digest(b"A"));
}

#[test]
fn root_of_two_leaves_is_hash_of_pair() {
    let mut tree = MerkleTree::new(3);
    tree.insert(b"A").unwrap();
    tree.insert(b"B").unwrap();
    assert_eq!(tree.get_root(), digest_pair(&digest(b"A"), &digest(b"B")));
}

#[test]
fn root_of_three_leaves_carries_the_third_up() {
    let mut tree = MerkleTree::new(3);
    tree.insert(b"A").unwrap();
    tree.insert(b"B").unwrap();
    tree.insert(b"C").unwrap();
    let pair = digest_pair(&digest(b"A"), &digest(b"B"));
    assert_eq!(tree.get_root(), digest_pair(&pair, &digest(b"C")));
}

#[test]
fn root_of_five_leaves_carries_the_lone_digest_twice() {
    let mut tree = MerkleTree::new(3);
    let names: [&[u8]; 5] = [b"A", b"B", b"C", b"D", b"E"];
    for name in names {
        tree.insert(name).unwrap();
    }
    let ab = digest_pair(&digest(b"A"), &digest(b"B"));
    let cd = digest_pair(&digest(b"C"), &digest(b"D"));
    let abcd = digest_pair(&ab, &cd);
    assert_eq!(tree.get_root(), digest_pair(&abcd, &digest(b"E")));
}

#[test]
fn root_is_a_32_byte_digest_whatever_the_leaf_count() {
    for count in 0..=9usize {
        let tree = filled(5, count);
        assert_eq!(tree.get_root().len(), 32);
    }
}

#[test]
fn proof_has_one_sibling_per_level() {
    for depth in [0u32, 1, 2, 5, 14] {
        let limit = std::cmp::min(1usize << depth, 9);
        for count in 1..=limit {
            let tree = filled(depth, count);
            for index in 0..count {
                let proof = tree.get_proof(index as u32).unwrap();
                assert_eq!(proof.len(), depth as usize);
                for sibling in &proof {
                    assert_eq!(sibling.len(), 32);
                }
            }
        }
    }
}

#[test]
fn proof_of_unknown_index_is_refused() {
    let tree = filled(3, 3);
    assert_eq!(tree.get_proof(3), Err("Index out of bounds"));
    assert_eq!(tree.get_proof(u32::MAX), Err("Index out of bounds"));
    let empty = MerkleTree::new(3);
    assert_eq!(empty.get_proof(0), Err("Index out of bounds"));
}

#[test]
fn proof_lists_the_siblings_of_each_level() {
    let mut tree = MerkleTree::new(2);
    let names: [&[u8]; 4] = [b"A", b"B", b"C", b"D"];
    for name in names {
        tree.insert(name).unwrap();
    }
    let (a, b, c, d) = (digest(b"A"), digest(b"B"), digest(b"C"), digest(b"D"));
    let ab = digest_pair(&a, &b);
    let cd = digest_pair(&c, &d);
    assert_eq!(tree.get_proof(0), Ok(vec![b.clone(), cd.clone()]));
    assert_eq!(tree.get_proof(1), Ok(vec![a.clone(), cd.clone()]));
    assert_eq!(tree.get_proof(2), Ok(vec![d.clone(), ab.clone()]));
    assert_eq!(tree.get_proof(3), Ok(vec![c.clone(), ab.clone()]));
}

#[test]
fn proof_puts_zeros_where_a_level_has_no_sibling() {
    let mut tree = MerkleTree::new(3);
    let names: [&[u8]; 3] = [b"A", b"B", b"C"];
    for name in names {
        tree.insert(name).unwrap();
    }
    let (a, b, c) = (digest(b"A"), digest(b"B"), digest(b"C"));
    let ab = digest_pair(&a, &b);
    let zeros = vec![0u8; 32];
    assert_eq!(tree.get_proof(0), Ok(vec![b.clone(), c.clone(), zeros.clone()]));
    assert_eq!(tree.get_proof(1), Ok(vec![a.clone(), c.clone(), zeros.clone()]));
    assert_eq!(tree.get_proof(2), Ok(vec![zeros.clone(), ab.clone(), zeros.clone()]));
}

#[test]
fn every_proof_of_a_full_tree_verifies() {
    for depth in 0..6u32 {
        let count = 1usize << depth;
        let tree = filled(depth, count);
        let root = tree.get_root();
        for index in 0..count {
            let payload = format!("payload {}", index);
            let leaf = digest(payload.as_bytes());
            let proof = tree.get_proof(index as u32).unwrap();
            assert!(MerkleTree::verify_proof(&root, &leaf, &proof, index as u32));
        }
    }
}

#[test]
fn proof_fails_for_another_leaf_position_or_root() {
    let tree = filled(3, 8);
    let root = tree.get_root();
    let leaf = digest(b"payload 5");
    let proof = tree.get_proof(5).unwrap();
    assert!(MerkleTree::verify_proof(&root, &leaf, &proof, 5));
    assert!(!MerkleTree::verify_proof(&root, &digest(b"payload 4"), &proof, 5));
    assert!(!MerkleTree::verify_proof(&root, &leaf, &proof, 4));
    assert!(!MerkleTree::verify_proof(&[0u8; 32], &leaf, &proof, 5));
    assert!(!MerkleTree::verify_proof(&root[..31], &leaf, &proof, 5));
    assert!(!MerkleTree::verify_proof(&root, &leaf, &proof[..2], 5));
}

#[test]
fn verify_folds_siblings_left_or_right_by_position() {
    let leaf = digest(b"leaf");
    let sibling = digest(b"sibling");
    let uncle = digest(b"uncle");
    let proof = vec![sibling.clone(), uncle.clone()];
    let even = digest_pair(&digest_pair(&leaf, &sibling), &uncle);
    assert!(MerkleTree::verify_proof(&even, &leaf, &proof, 0));
    let odd = digest_pair(&digest_pair(&sibling, &leaf), &uncle);
    assert!(MerkleTree::verify_proof(&odd, &leaf, &proof, 1));
    let upper = digest_pair(&uncle, &digest_pair(&leaf, &sibling));
    assert!(MerkleTree::verify_proof(&upper, &leaf, &proof, 2));
    assert!(!MerkleTree::verify_proof(&even, &leaf, &proof, 1));
    assert!(MerkleTree::verify_proof(&leaf, &leaf, &[], 7));
}

#[test]
fn proof_verifies_where_the_path_meets_a_sibling_at_every_level() {
    let tree = filled(2, 3);
    let root = tree.get_root();
    for index in 0..2u32 {
        let payload = format!("payload {}", index);
        let leaf = digest(payload.as_bytes());
        let proof = tree.get_proof(index).unwrap();
        assert!(MerkleTree::verify_proof(&root, &leaf, &proof, index));
    }
}

#[test]
fn root_and_proof_disagree_where_a_level_ends_before_the_sibling() {
    let tree = filled(2, 3);
    let root = tree.get_root();
    let leaf = digest(b"payload 2");
    let proof = tree.get_proof(2).unwrap();
    assert_eq!(proof[0], vec![0u8; 32]);
    assert!(!MerkleTree::verify_proof(&root, &leaf, &proof, 2));
    let expected = digest_pair(
        &digest_pair(&digest(b"payload 0"), &digest(b"payload 1")),
        &digest_pair(&leaf, &[0u8; 32]),
    );
    assert!(MerkleTree::verify_proof(&expected, &leaf, &proof, 2));

    let single = filled(14, 1);
    let leaf = digest(b"payload 0");
    assert_eq!(single.get_root(), leaf);
    let proof = single.get_proof(0).unwrap();
    assert_eq!(proof, vec![vec![0u8; 32]; 14]);
    assert!(!MerkleTree::verify_proof(&single.get_root(), &leaf, &proof, 0));

    let half = filled(3, 4);
    let leaf = digest(b"payload 1");
    let proof = half.get_proof(1).unwrap();
    assert_eq!(proof[2], vec![0u8; 32]);
    assert!(!MerkleTree::verify_proof(&half.get_root(), &leaf, &proof, 1));
}
