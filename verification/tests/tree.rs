//! The Merkle tree and its proofs.
use lightweight_shred::error::Error;
use lightweight_shred::merkle_tree::{get_merkle_root, get_merkle_tree_size, join_nodes, MerkleTree};

fn unhex(s: &str) -> Vec<u8> {
    (0..s.len() / 2).map(|i| u8::from_str_radix(&s[2 * i..2 * i + 2], 16).unwrap()).collect()
}

fn leaf(i: usize) -> [u8; 32] {
    let mut leaf = [0u8; 32];
    for (k, byte) in leaf.iter_mut().enumerate() {
        *byte = (i * 31 + k * 7) as u8;
    }
    leaf
}

fn tree(n: usize) -> MerkleTree {
    MerkleTree::try_new((0..n).map(|i| Ok(leaf(i))).collect()).unwrap()
}

#[test]
fn tree_sizes() {
    let sizes: Vec<usize> = (0..10).map(get_merkle_tree_size).collect();
    assert_eq!(sizes, [0, 1, 3, 6, 7, 11, 12, 14, 15, 20]);
    assert_eq!(get_merkle_tree_size(64), 127);
}

#[test]
fn root_of_three_leaves() {
    let leaves = [[1u8; 32], [2u8; 32], [3u8; 32]];
    let tree = MerkleTree::try_new(leaves.iter().map(|leaf| Ok(*leaf)).collect()).unwrap();
    let left = join_nodes(&leaves[0], &leaves[1]);
    let right = join_nodes(&leaves[2], &leaves[2]);
    assert_eq!(
        left.to_vec(),
        unhex("3e8fc943a41dc85a243b6b17941d820596afcf27fca1410c492b99cbc78f9ca1")
    );
    assert_eq!(
        right.to_vec(),
        unhex("01cf52f2c9930e10d8ebca03fa12e8ad003832776a754ddd28892b843d0cdf69")
    );
    assert_eq!(
        tree.root().to_vec(),
        unhex("316012fa3d6b9e1bd1f98c3ccd2ae204e27c771acb0a9bb7819e8f82e0cae373")
    );
}

#[test]
fn only_twenty_bytes_of_a_node_count() {
    let mut other = [5u8; 32];
    other[20..].copy_from_slice(&[6u8; 12]);
    assert_eq!(join_nodes(&[5u8; 32], &[1u8; 32]), join_nodes(&other, &[1u8; 20]));
    assert_ne!(join_nodes(&[5u8; 32], &[1u8; 32]), join_nodes(&[1u8; 32], &[5u8; 32]));
}

#[test]
fn one_leaf_is_its_own_root() {
    let tree = tree(1);
    assert_eq!(*tree.root(), leaf(0));
    let branch = tree.make_merkle_proof(0, 1).unwrap();
    assert!(branch.is_empty());
    assert_eq!(get_merkle_root(0, leaf(0), &branch).unwrap(), leaf(0));
}

#[test]
fn every_proof_leads_to_the_root() {
    for n in 1..70 {
        let tree = tree(n);
        for i in 0..n {
            let branch = tree.make_merkle_proof(i, n).unwrap();
            let depth = (0..).find(|d| n <= 1usize << d).unwrap();
            assert_eq!(branch.len(), depth as usize);
            assert_eq!(get_merkle_root(i, leaf(i), &branch).unwrap(), *tree.root());
            if n > 1 {
                assert_ne!(
                    get_merkle_root(i, leaf(i + 1), &branch).unwrap(),
                    *tree.root()
                );
            }
        }
    }
}

#[test]
fn proofs_that_are_too_short_for_the_index() {
    let tree = tree(8);
    let branch = tree.make_merkle_proof(7, 8).unwrap();
    assert!(matches!(
        get_merkle_root(7, leaf(7), &branch[..2]),
        Err(Error::InvalidMerkleProof)
    ));
    assert!(matches!(get_merkle_root(1, leaf(1), &[]), Err(Error::InvalidMerkleProof)));
    assert!(get_merkle_root(0, leaf(0), &[]).is_ok());
}

#[test]
fn proofs_of_no_leaf_or_of_another_size() {
    let tree = tree(5);
    assert!(matches!(tree.make_merkle_proof(5, 5), Err(Error::InvalidMerkleProof)));
    assert!(matches!(tree.make_merkle_proof(0, 0), Err(Error::InvalidMerkleProof)));
    assert!(matches!(tree.make_merkle_proof(0, 4), Err(Error::InvalidMerkleProof)));
    assert!(matches!(tree.make_merkle_proof(0, 100), Err(Error::InvalidMerkleProof)));
    assert!(tree.make_merkle_proof(4, 5).is_ok());
    for (index, size) in [
        (usize::MAX, usize::MAX),
        (usize::MAX - 1, usize::MAX),
        (7, usize::MAX / 2 + 1),
        (1, usize::MAX - 1),
        (0, 3 << 62),
    ] {
        assert!(matches!(tree.make_merkle_proof(index, size), Err(Error::InvalidMerkleProof)));
    }
}

#[test]
fn trees_of_nothing_or_of_errors() {
    assert!(matches!(MerkleTree::try_new(vec![]), Err(Error::EmptyIterator)));
    let nodes = vec![
        Ok(leaf(0)),
        Err(Error::InvalidPayloadSize(3)),
        Err(Error::InvalidRecoveredShred),
        Ok(leaf(1)),
    ];
    assert!(matches!(MerkleTree::try_new(nodes), Err(Error::InvalidPayloadSize(3))));
}
