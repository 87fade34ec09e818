use plasma_chamber::block::{BlockGenerator, BlockHeader};
use plasma_chamber::error::ErrorKind;
use plasma_chamber::merkle::{SumMerkleNode, SumMerkleTree};
use plasma_chamber::predicate::OwnershipPredicate;
use plasma_chamber::primitives::{Address, H256};
use plasma_chamber::transaction::{Transaction, Witness};

fn create_transaction(start: u64, end: u64) -> Transaction {
    Transaction::new(
        Address::zero(),
        start,
        end,
        Transaction::create_method_id(&b"send(address)"[..]),
        &OwnershipPredicate::make_parameters(
            Address::zero(),
            Address::from_slice(&[8u8; 20]),
            10,
            20,
        ),
        &Witness::new(H256::zero(), H256::zero(), 0),
    )
}

// A block over an empty batch is refused.
#[test]
fn empty_batch_refused() {
    let r = BlockGenerator::generate(&[]);
    assert_eq!(r.err().unwrap().kind(), ErrorKind::NoTransactions);
}

// The block root commits to one leaf per transaction, keyed by its end.
#[test]
fn block_root_matches_manual_tree() {
    let tx1 = create_transaction(0, 100);
    let tx2 = create_transaction(100, 300);
    let block = BlockGenerator::generate(&[tx1.clone(), tx2.clone()]).unwrap();
    assert_eq!(block.get_transactions().len(), 2);

    let leaves = [
        SumMerkleNode::create_leaf(100, &tx1.to_abi()),
        SumMerkleNode::create_leaf(300, &tx2.to_abi()),
    ];
    let tree = SumMerkleTree::generate(&leaves).unwrap();
    assert_eq!(block.get_root().as_bytes(), tree.get_root().as_slice());
}

// A gap between transactions becomes an empty leaf, so the tree covers
// the whole keyspace.
#[test]
fn block_gap_becomes_empty_leaf() {
    let tx1 = create_transaction(0, 100);
    let tx2 = create_transaction(200, 300);
    let block = BlockGenerator::generate(&[tx1.clone(), tx2.clone()]).unwrap();

    let leaves = [
        SumMerkleNode::create_leaf(100, &tx1.to_abi()),
        SumMerkleNode::create_empty_leaf(200),
        SumMerkleNode::create_leaf(300, &tx2.to_abi()),
    ];
    let tree = SumMerkleTree::generate(&leaves).unwrap();
    assert_eq!(block.get_root().as_bytes(), tree.get_root().as_slice());
}

// A proof drawn from a generated block's tree verifies a transaction leaf
// against the block root.
#[test]
fn block_leaf_verifies_against_root() {
    let tx1 = create_transaction(0, 100);
    let tx2 = create_transaction(100, 300);
    let leaves = [
        SumMerkleNode::create_leaf(100, &tx1.to_abi()),
        SumMerkleNode::create_leaf(300, &tx2.to_abi()),
    ];
    let tree = SumMerkleTree::generate(&leaves).unwrap();
    let block = BlockGenerator::generate(&[tx1, tx2]).unwrap();
    let proof = tree.get_inclusion_proof(1, 2);
    let bounds =
        SumMerkleTree::verify(&leaves[1].clone(), 1, proof, block.get_root().as_bytes()).unwrap();
    assert_eq!(bounds.get_implicit_start(), 100);
    assert_eq!(bounds.get_implicit_end(), u64::MAX);
}

#[test]
fn block_header_holds_fields() {
    let header = BlockHeader::new(7, String::from("root"));
    assert_eq!(header.block_number, 7);
    assert_eq!(header.value, "root");
}
