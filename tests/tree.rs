use batch_settle::hash::{compress, empty_leaf_hash, empty_subtree_hash, hash_bytes, keccak256};
use batch_settle::inclusion::MerkleInfoForExecute;
use batch_settle::merkle::{MiniMerkleTree, PathSide};

fn leaf(i: u8) -> [u8; 32] {
    hash_bytes(&[i])
}

fn naive_root(leaves: &[[u8; 32]]) -> [u8; 32] {
    let mut size = 1usize;
    while size < leaves.len() {
        size *= 2;
    }
    let mut level: Vec<[u8; 32]> = leaves.to_vec();
    while level.len() < size {
        level.push(empty_leaf_hash());
    }
    while level.len() > 1 {
        level = level.chunks(2).map(|p| compress(&p[0], &p[1])).collect();
    }
    level[0]
}

fn climb(leaf: [u8; 32], mut index: usize, path: &[[u8; 32]]) -> [u8; 32] {
    let mut cur = leaf;
    for sib in path {
        cur = if index % 2 == 0 { compress(&cur, sib) } else { compress(sib, &cur) };
        index /= 2;
    }
    cur
}

#[test]
fn keccak_of_empty_input_is_known_digest() {
    let expected =
        hex::decode("c5d2460186f7233c927e7db2dcc703c0e500b653ca82273b7bfad8045d85a470").unwrap();
    assert_eq!(keccak256(&[]).to_vec(), expected);
    assert_eq!(empty_leaf_hash().to_vec(), expected);
}

#[test]
fn compress_hashes_the_concatenation() {
    let a = leaf(1);
    let b = leaf(2);
    let mut cat = a.to_vec();
    cat.extend_from_slice(&b);
    assert_eq!(compress(&a, &b), keccak256(&cat));
    assert_ne!(compress(&a, &b), compress(&b, &a));
}

#[test]
fn empty_subtree_hashes_chain_by_compression() {
    let e0 = empty_leaf_hash();
    let e1 = compress(&e0, &e0);
    let e2 = compress(&e1, &e1);
    assert_eq!(empty_subtree_hash(0), e0);
    assert_eq!(empty_subtree_hash(1), e1);
    assert_eq!(empty_subtree_hash(2), e2);
}

#[test]
fn single_leaf_tree_has_leaf_as_root_and_empty_paths() {
    let h1 = hash_bytes(&[]);
    let mut tree = MiniMerkleTree::new();
    tree.push_hash(h1);
    assert_eq!(tree.root(), h1);
    for side in [PathSide::LeftBoundary, PathSide::RightBoundary, PathSide::FullPath] {
        let (root, path) = tree.compute_merkle_root_and_path(0, side);
        assert_eq!(root, h1);
        assert!(path.is_empty());
    }
}

#[test]
fn root_after_each_append_matches_naive_rebuild() {
    let mut tree = MiniMerkleTree::new();
    let mut leaves = Vec::new();
    for i in 0..13u8 {
        tree.push_hash(leaf(i));
        leaves.push(leaf(i));
        assert_eq!(tree.root(), naive_root(&leaves));
        assert_eq!(tree.len(), leaves.len());
    }
}

#[test]
fn full_paths_recombine_to_root() {
    let mut tree = MiniMerkleTree::new();
    let leaves: Vec<[u8; 32]> = (0..6u8).map(leaf).collect();
    for l in &leaves {
        tree.push_hash(*l);
    }
    let root = tree.root();
    for (i, l) in leaves.iter().enumerate() {
        let (r, path) = tree.compute_merkle_root_and_path(i, PathSide::FullPath);
        assert_eq!(r, root);
        assert_eq!(path.len(), 3);
        let path: Vec<[u8; 32]> = path.into_iter().map(|p| p.unwrap()).collect();
        assert_eq!(climb(*l, i, &path), root);
    }
}

#[test]
fn boundary_paths_leave_out_the_edge_siblings() {
    let mut tree = MiniMerkleTree::new();
    for i in 0..3u8 {
        tree.push_hash(leaf(i));
    }
    let (_, left) = tree.compute_merkle_root_and_path(2, PathSide::LeftBoundary);
    assert_eq!(left[0], None);
    assert_eq!(left[1], Some(compress(&leaf(0), &leaf(1))));
    let (_, right) = tree.compute_merkle_root_and_path(2, PathSide::RightBoundary);
    assert_eq!(right[0], Some(empty_leaf_hash()));
    assert_eq!(right[1], None);
    let (_, right1) = tree.compute_merkle_root_and_path(1, PathSide::RightBoundary);
    assert_eq!(right1[0], None);
    assert_eq!(right1[1], Some(compress(&leaf(2), &empty_leaf_hash())));
}

#[test]
fn two_batches_with_one_transaction_each() {
    let l1 = leaf(1);
    let l2 = leaf(2);
    let info = MerkleInfoForExecute::init(&vec![(1, vec![l1]), (2, vec![l2])]);
    let (root, left, right) = info.get_merkle_path_for_l1_tx_in_block(2);
    assert_eq!(left, vec![l1]);
    assert_eq!(right, vec![l1]);
    assert_eq!(root, compress(&l1, &l2));
    assert_eq!(climb(l2, 1, &left), root);
    let (root1, left1, right1) = info.get_merkle_path_for_l1_tx_in_block(1);
    assert_eq!(root1, root);
    assert_eq!(left1, vec![l2]);
    assert_eq!(right1, vec![l2]);
}

#[test]
fn block_range_paths_cover_first_and_last_leaf() {
    let mut info = MerkleInfoForExecute::new();
    info.add_block_l1_txs(1, vec![leaf(0), leaf(1)]);
    info.add_block_l1_txs(3, vec![]);
    info.add_block_l1_txs(4, vec![leaf(2), leaf(3), leaf(4)]);
    let leaves: Vec<[u8; 32]> = (0..5u8).map(leaf).collect();
    let (root, left, right) = info.get_merkle_path_for_l1_tx_in_block(4);
    assert_eq!(root, naive_root(&leaves));
    assert_eq!(left.len(), 3);
    assert_eq!(climb(leaf(2), 2, &left), root);
    assert_eq!(climb(leaf(4), 4, &right), root);
}

#[test]
fn single_leaf_index_has_leaf_as_root_and_empty_paths() {
    let h1 = hash_bytes(&[]);
    let info = MerkleInfoForExecute::init(&vec![(1, vec![h1])]);
    let (root, left, right) = info.get_merkle_path_for_l1_tx_in_block(1);
    assert_eq!(root, h1);
    assert!(left.is_empty());
    assert!(right.is_empty());
}

#[test]
fn first_block_may_be_zero_and_index_grows_after_init() {
    let mut info = MerkleInfoForExecute::init(&vec![(0, vec![leaf(0)]), (2, vec![])]);
    info.add_block_l1_txs(3, vec![leaf(1), leaf(2)]);
    let (root, left, right) = info.get_merkle_path_for_l1_tx_in_block(3);
    assert_eq!(root, naive_root(&[leaf(0), leaf(1), leaf(2)]));
    assert_eq!(left.len(), 2);
    assert_eq!(climb(leaf(1), 1, &left), root);
    assert_eq!(climb(leaf(2), 2, &right), root);
    let (root0, left0, _) = info.get_merkle_path_for_l1_tx_in_block(0);
    assert_eq!(root0, root);
    assert_eq!(climb(leaf(0), 0, &left0), root);
}

#[test]
fn empty_tree_root_is_empty_leaf_hash() {
    let tree = MiniMerkleTree::new();
    assert_eq!(tree.len(), 0);
    assert_eq!(tree.root(), empty_leaf_hash());
}
