use vstd::prelude::*;
use crate::error::{Error, ErrorKind};
use crate::merkle::{
    NodeData, SumMerkleNode, SumMerkleTree, node_views, node_hash, spec_generate,
    spec_parent_level, spec_empty_hash,
};
use crate::primitives::H256;
use crate::transaction::{Transaction, TransactionData, spec_tx_encode, tx_wf};

verus! {

/// A stored block header: the block number and its committed value.
pub struct BlockHeader {
    pub block_number: u32,
    pub value: String,
}

impl BlockHeader {
    pub fn new(block_number: u32, value: String) -> (r: BlockHeader)
        ensures
            r.block_number == block_number,
            r.value@ == value@,
    {
        BlockHeader { block_number, value }
    }
}

/// The views of a sequence of transactions.
pub open spec fn tx_views(s: Seq<Transaction>) -> Seq<TransactionData> {
    s.map_values(|t: Transaction| t@)
}

/// A block: an ordered transaction batch and the root committing to it.
pub struct Block {
    transactions: Vec<Transaction>,
    root: H256,
}

impl Block {
    pub fn new(transactions: &[Transaction], root: H256) -> (r: Block)
        ensures
            tx_views(r.transactions()) == tx_views(transactions@),
            r.spec_root() == root@,
    {
        let mut txs: Vec<Transaction> = Vec::new();
        let n = transactions.len();
        let mut i: usize = 0;
        while i < n
            invariant
                n == transactions@.len(),
                i <= n,
                txs@.len() == i,
                forall|t: int| 0 <= t < i ==> (#[trigger] txs@[t])@ == transactions@[t]@,
            decreases n - i,
        {
            txs.push(vstd::slice::slice_index_get(transactions, i).clone());
            i += 1;
        }
        proof {
            assert(tx_views(txs@) =~= tx_views(transactions@));
        }
        Block { transactions: txs, root }
    }

    pub closed spec fn transactions(&self) -> Seq<Transaction> {
        self.transactions@
    }

    pub closed spec fn spec_root(&self) -> Seq<u8> {
        self.root@
    }

    pub fn get_transactions(&self) -> (r: &[Transaction])
        ensures
            r@ == self.transactions(),
    {
        self.transactions.as_slice()
    }

    pub fn get_root(&self) -> (r: &H256)
        ensures
            r@ == self.spec_root(),
    {
        &self.root
    }
}

/// The sum-Merkle leaves of a transaction batch walked in order: an empty
/// leaf closes each gap between the previous end (starting at `prev`) and
/// the next transaction's start, and each transaction becomes a leaf
/// keyed by its own end, carrying its canonical encoding.
pub open spec fn spec_block_leaves(txs: Seq<TransactionData>, i: int, prev: u64) -> Seq<NodeData>
    decreases txs.len() - i,
{
    if i < 0 || i >= txs.len() {
        Seq::empty()
    } else {
        let tx = txs[i];
        let gap: Seq<NodeData> = if tx.start > prev {
            seq![NodeData::Leaf { end: tx.start, data: spec_empty_hash() }]
        } else {
            Seq::empty()
        };
        gap + seq![NodeData::Leaf { end: tx.end, data: spec_tx_encode(tx) }]
            + spec_block_leaves(txs, i + 1, tx.end)
    }
}

/// The tree grown from non-empty, non-detached nodes never has a detached
/// stand-in at its root.
pub proof fn lemma_generate_not_proof_node(l: Seq<NodeData>)
    requires
        l.len() >= 1,
        forall|t: int| 0 <= t < l.len() ==> !((#[trigger] l[t]) is ProofNode),
    ensures
        !(spec_generate(l) is ProofNode),
    decreases l.len(),
{
    if l.len() > 1 {
        let p = spec_parent_level(l);
        assert(forall|t: int| 0 <= t < p.len() ==> !((#[trigger] p[t]) is ProofNode));
        lemma_generate_not_proof_node(p);
    }
}

/// Builds a block from an ordered transaction batch: leaves with gap
/// filling, the sum Merkle tree over them, and the root in the header.
pub struct BlockGenerator {}

impl BlockGenerator {
    /// Fails with `NoTransactions` on an empty batch; otherwise commits
    /// the batch under the root of the tree over its leaves.
    pub fn generate(transactions: &[Transaction]) -> (r: Result<Block, Error>)
        requires
            forall|t: int| 0 <= t < transactions@.len() ==> (#[trigger] transactions@[t]).wf(),
            forall|t1: int, t2: int|
                0 <= t1 <= t2 < transactions@.len() ==> (#[trigger] transactions@[t1])@.start <= (
                #[trigger] transactions@[t2])@.start,
        ensures
            transactions@.len() == 0 ==> (r matches Err(e) && e.spec_kind()
                == ErrorKind::NoTransactions),
            transactions@.len() > 0 ==> (r matches Ok(b) && tx_views(b.transactions()) == tx_views(
                transactions@,
            ) && b.spec_root() == node_hash(
                spec_generate(spec_block_leaves(tx_views(transactions@), 0, 0)),
            )),
    {
        let n = transactions.len();
        if n == 0 {
            return Err(Error::from_kind(ErrorKind::NoTransactions));
        }
        let ghost txv = tx_views(transactions@);
        let mut leaves: Vec<SumMerkleNode> = Vec::new();
        let mut prev: u64 = 0;
        let mut i: usize = 0;
        proof {
            assert(node_views(leaves@) + spec_block_leaves(txv, 0, 0) =~= spec_block_leaves(
                txv, 0, 0));
        }
        while i < n
            invariant
                n == transactions@.len(),
                txv == tx_views(transactions@),
                forall|t: int| 0 <= t < n ==> (#[trigger] transactions@[t]).wf(),
                i <= n,
                i > 0 ==> leaves@.len() > 0,
                forall|t: int| 0 <= t < leaves@.len() ==> (#[trigger] node_views(leaves@)[t])
                    is Leaf,
                node_views(leaves@) + spec_block_leaves(txv, i as int, prev) == spec_block_leaves(
                    txv, 0, 0),
            decreases n - i,
        {
            let tx = vstd::slice::slice_index_get(transactions, i);
            let ghost pre = leaves@;
            if tx.get_start() > prev {
                leaves.push(SumMerkleNode::create_empty_leaf(tx.get_start()));
            }
            let ghost mid = leaves@;
            let body = tx.to_abi();
            leaves.push(SumMerkleNode::create_leaf(tx.get_end(), body.as_slice()));
            proof {
                let gap: Seq<NodeData> = if txv[i as int].start > prev {
                    seq![NodeData::Leaf { end: txv[i as int].start, data: spec_empty_hash() }]
                } else {
                    Seq::empty()
                };
                assert(node_views(mid) =~= node_views(pre) + gap);
                assert(node_views(leaves@) =~= node_views(pre) + gap + seq![
                    NodeData::Leaf {
                        end: txv[i as int].end,
                        data: spec_tx_encode(txv[i as int]),
                    },
                ]);
                assert(node_views(leaves@) + spec_block_leaves(txv, i as int + 1, txv[
                    i as int].end) =~= node_views(pre) + spec_block_leaves(txv, i as int, prev));
            }
            prev = tx.get_end();
            i += 1;
        }
        proof {
            assert(node_views(leaves@) + spec_block_leaves(txv, n as int, prev) =~= node_views(
                leaves@));
        }
        let tree = match SumMerkleTree::generate(leaves.as_slice()) {
            Ok(t) => t,
            Err(e) => {
                proof {
                    assert(false);
                }
                return Err(e);
            },
        };
        let root = tree.get_root();
        proof {
            lemma_generate_not_proof_node(node_views(leaves@));
        }
        Ok(Block::new(transactions, H256::from_vec(root)))
    }
}

} // verus!
