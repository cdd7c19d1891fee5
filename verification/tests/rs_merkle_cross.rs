//! Cross-checks the library's commitment tree against the rs_merkle
//! crate driving the same hash: roots must agree for every leaf count,
//! since both hash pairs left-then-right and promote an unpaired last
//! node unchanged.

use poh_chain::merkle::{Empty, MerkleTree};
use rs_merkle::{Hasher, MerkleTree as RsMerkleTree};

#[derive(Clone)]
struct TestHasher;

impl Hasher for TestHasher {
    type Hash = [u8; 32];

    fn hash(data: &[u8]) -> [u8; 32] {
        *blake3::hash(data).as_bytes()
    }
}

fn sample_data(count: usize) -> Vec<Vec<u8>> {
    (0..count).map(|i| format!("payload {}", i).into_bytes()).collect()
}

#[test]
fn roots_agree_with_rs_merkle() {
    for count in 1..=9usize {
        let data = sample_data(count);

        let ours = MerkleTree::<Empty>::new()
            .hash_leaves(&data)
            .expect("leaves")
            .construct_tree()
            .verify_root()
            .expect("root");

        let rs_leaves: Vec<[u8; 32]> = data.iter().map(|d| TestHasher::hash(d)).collect();
        let rs_tree = RsMerkleTree::<TestHasher>::from_leaves(&rs_leaves);
        let rs_root = rs_tree.root().expect("rs_merkle root");

        assert_eq!(ours.root().as_slice(), &rs_root, "leaf count {}", count);
    }
}

#[test]
fn rs_merkle_proofs_accept_the_same_leaves() {
    let count = 6usize;
    let data = sample_data(count);

    let ours = MerkleTree::<Empty>::new()
        .hash_leaves(&data)
        .expect("leaves")
        .construct_tree()
        .verify_root()
        .expect("root");
    let our_root = ours.root();

    let rs_leaves: Vec<[u8; 32]> = data.iter().map(|d| TestHasher::hash(d)).collect();
    let rs_tree = RsMerkleTree::<TestHasher>::from_leaves(&rs_leaves);

    for i in 0..count {
        let rs_proof = rs_tree.proof(&[i]);
        let mut root = [0u8; 32];
        root.copy_from_slice(&our_root);
        assert!(
            rs_proof.verify(root, &[i], &[rs_leaves[i]], count),
            "rs_merkle proof for index {} against the library's root",
            i
        );
    }
}
