use vstd::prelude::*;
use crate::error::{Error, ErrorKind};
use crate::hashing::{keccak256, keccak256_of};

verus! {

/// Two to the power `k`.
pub open spec fn two_pow(k: nat) -> nat
    decreases k,
{
    if k == 0 {
        1
    } else {
        2 * two_pow((k - 1) as nat)
    }
}

/// The little-endian 8-byte encoding of a 64-bit integer.
pub open spec fn le8(x: u64) -> Seq<u8> {
    Seq::new(8, |i: int| (((x >> ((8 * i) as u64)) & 0xff) as u8))
}

/// Writes a 64-bit integer as 8 little-endian bytes.
pub fn u64_to_le_bytes(x: u64) -> (r: Vec<u8>)
    ensures
        r@ == le8(x),
{
    let mut r: Vec<u8> = Vec::new();
    let mut i: usize = 0;
    while i < 8
        invariant
            i <= 8,
            r@.len() == i,
            forall|j: int| 0 <= j < i ==> r@[j] == le8(x)[j],
        decreases 8 - i,
    {
        let sh: u64 = (8 * i) as u64;
        let masked: u64 = (x >> sh) & 0xff;
        proof {
            assert((x >> sh) & 0xff < 256) by (bit_vector);
        }
        r.push(masked as u8);
        i += 1;
    }
    proof {
        assert(r@ =~= le8(x));
    }
    r
}

/// Mathematical model of a sum-Merkle node.
pub ghost enum NodeData {
    Leaf { end: u64, data: Seq<u8> },
    Node { end: u64, left: Box<NodeData>, right: Box<NodeData> },
    ProofNode { end: u64, data: Seq<u8> },
}

/// The cumulative `end` bound a node carries.
pub open spec fn node_end(n: NodeData) -> u64 {
    match n {
        NodeData::Leaf { end, .. } => end,
        NodeData::Node { end, .. } => end,
        NodeData::ProofNode { end, .. } => end,
    }
}

/// The bytes hashed for one child slot: the child's `end` bound in
/// little-endian followed by the child's hash.
pub open spec fn spec_compute_node(end: u64, data: Seq<u8>) -> Seq<u8> {
    keccak256_of(le8(end) + data)
}

/// The hash of a node: a leaf hashes its data; an inner node hashes the
/// concatenation of both children's bound-and-hash digests; a proof node
/// carries a hash verbatim.
pub open spec fn node_hash(n: NodeData) -> Seq<u8>
    decreases n,
{
    match n {
        NodeData::Leaf { data, .. } => keccak256_of(data),
        NodeData::Node { left, right, .. } => keccak256_of(
            spec_compute_node(node_end(*left), node_hash(*left)) + spec_compute_node(
                node_end(*right),
                node_hash(*right),
            ),
        ),
        NodeData::ProofNode { data, .. } => data,
    }
}

/// The detached stand-in for a node inside a proof: its bound and hash.
pub open spec fn proof_node_of(n: NodeData) -> NodeData {
    NodeData::ProofNode { end: node_end(n), data: node_hash(n) }
}

/// The parent of two sibling nodes takes the right child's bound.
pub open spec fn spec_parent(l: NodeData, r: NodeData) -> NodeData {
    NodeData::Node { end: node_end(r), left: Box::new(l), right: Box::new(r) }
}

/// The hash marking an empty leaf.
pub open spec fn spec_empty_hash() -> Seq<u8> {
    keccak256_of(seq![0u8])
}

/// The padding leaf appended when a tree level has an odd node count.
pub open spec fn spec_empty_node() -> NodeData {
    NodeData::Leaf { end: u64::MAX, data: spec_empty_hash() }
}

/// A node in the sum Merkle tree: a leaf carrying data, an inner node
/// owning two children, or a detached hash-only stand-in used in proofs.
pub enum SumMerkleNode {
    Leaf { end: u64, data: Vec<u8> },
    Node { end: u64, left: Box<SumMerkleNode>, right: Box<SumMerkleNode> },
    ProofNode { end: u64, data: Vec<u8> },
}

pub open spec fn node_view(n: SumMerkleNode) -> NodeData
    decreases n,
{
    match n {
        SumMerkleNode::Leaf { end, data } => NodeData::Leaf { end, data: data@ },
        SumMerkleNode::Node { end, left, right } => NodeData::Node {
            end,
            left: Box::new(node_view(*left)),
            right: Box::new(node_view(*right)),
        },
        SumMerkleNode::ProofNode { end, data } => NodeData::ProofNode { end, data: data@ },
    }
}

impl View for SumMerkleNode {
    type V = NodeData;

    open spec fn view(&self) -> NodeData {
        node_view(*self)
    }
}

/// The views of a sequence of nodes.
pub open spec fn node_views(s: Seq<SumMerkleNode>) -> Seq<NodeData> {
    s.map_values(|n: SumMerkleNode| n@)
}

impl Clone for SumMerkleNode {
    fn clone(&self) -> (r: Self)
        ensures
            r@ == self@,
        decreases self,
    {
        match self {
            SumMerkleNode::Leaf { end, data } => SumMerkleNode::Leaf {
                end: *end,
                data: data.clone(),
            },
            SumMerkleNode::Node { end, left, right } => SumMerkleNode::Node {
                end: *end,
                left: Box::new((**left).clone()),
                right: Box::new((**right).clone()),
            },
            SumMerkleNode::ProofNode { end, data } => SumMerkleNode::ProofNode {
                end: *end,
                data: data.clone(),
            },
        }
    }
}

/// Hashes one child slot: the child's bound in little-endian, then its hash.
fn compute_node(end: u64, data: &[u8]) -> (r: Vec<u8>)
    ensures
        r@ == spec_compute_node(end, data@),
{
    let mut buf = u64_to_le_bytes(end);
    buf.extend_from_slice(data);
    proof {
        assert(buf@ =~= le8(end) + data@);
    }
    keccak256(buf.as_slice())
}

impl SumMerkleNode {
    /// Hash of this node.
    pub fn hash(&self) -> (r: Vec<u8>)
        ensures
            r@ == node_hash(self@),
            !(self@ is ProofNode) ==> r@.len() == 32,
        decreases self,
    {
        match self {
            SumMerkleNode::Leaf { data, .. } => keccak256(data.as_slice()),
            SumMerkleNode::Node { left, right, .. } => {
                let lh = left.hash();
                let rh = right.hash();
                let mut buf = compute_node(left.get_end(), lh.as_slice());
                let mut rbuf = compute_node(right.get_end(), rh.as_slice());
                buf.append(&mut rbuf);
                proof {
                    assert(buf@ =~= spec_compute_node(node_end(left@), node_hash(left@))
                        + spec_compute_node(node_end(right@), node_hash(right@)));
                }
                keccak256(buf.as_slice())
            },
            SumMerkleNode::ProofNode { data, .. } => data.clone(),
        }
    }

    /// The cumulative `end` bound this node carries.
    pub fn get_end(&self) -> (r: u64)
        ensures
            r == node_end(self@),
    {
        match self {
            SumMerkleNode::Leaf { end, .. } => *end,
            SumMerkleNode::Node { end, .. } => *end,
            SumMerkleNode::ProofNode { end, .. } => *end,
        }
    }

    /// A detached hash-only stand-in for the given node.
    pub fn create_proof_node(node: &SumMerkleNode) -> (r: Self)
        ensures
            r@ == proof_node_of(node@),
    {
        SumMerkleNode::ProofNode { end: node.get_end(), data: node.hash() }
    }

    /// The padding leaf: the largest bound, marked with the empty hash.
    pub fn create_empty() -> (r: Self)
        ensures
            r@ == spec_empty_node(),
    {
        let zero: Vec<u8> = vec![0u8];
        proof {
            assert(zero@ =~= seq![0u8]);
        }
        SumMerkleNode::Leaf { end: u64::MAX, data: keccak256(zero.as_slice()) }
    }

    /// An empty leaf at a given bound, covering an uncovered sub-range.
    pub fn create_empty_leaf(end: u64) -> (r: Self)
        ensures
            r@ == (NodeData::Leaf { end, data: spec_empty_hash() }),
    {
        let zero: Vec<u8> = vec![0u8];
        proof {
            assert(zero@ =~= seq![0u8]);
        }
        SumMerkleNode::Leaf { end, data: keccak256(zero.as_slice()) }
    }

    /// A leaf at a given bound carrying the given data.
    pub fn create_leaf(end: u64, data: &[u8]) -> (r: Self)
        ensures
            r@ == (NodeData::Leaf { end, data: data@ }),
    {
        SumMerkleNode::Leaf { end, data: vstd::slice::slice_to_vec(data) }
    }

    /// An inner node over clones of the two children.
    pub fn create_node(end: u64, left: &SumMerkleNode, right: &SumMerkleNode) -> (r: Self)
        ensures
            r@ == (NodeData::Node {
                end,
                left: Box::new(left@),
                right: Box::new(right@),
            }),
    {
        SumMerkleNode::Node { end, left: Box::new(left.clone()), right: Box::new(right.clone()) }
    }

    /// The parent of two siblings, keyed by the right child's bound.
    pub fn compute_parent(left: &SumMerkleNode, right: &SumMerkleNode) -> (r: Self)
        ensures
            r@ == spec_parent(left@, right@),
    {
        SumMerkleNode::create_node(right.get_end(), left, right)
    }
}

/// One level of bottom-up construction: nodes are paired left to right,
/// and an unpaired final node is paired with the padding leaf.
pub open spec fn spec_parent_level(l: Seq<NodeData>) -> Seq<NodeData> {
    Seq::new(((l.len() + 1) / 2) as nat, |k: int|
        if 2 * k + 1 < l.len() {
            spec_parent(l[2 * k], l[2 * k + 1])
        } else {
            spec_parent(l[2 * k], spec_empty_node())
        })
}

/// The tree grown from a non-empty sequence of nodes, level by level.
pub open spec fn spec_generate(l: Seq<NodeData>) -> NodeData
    decreases l.len(),
{
    if l.len() <= 1 {
        l[0]
    } else {
        spec_generate(spec_parent_level(l))
    }
}

/// The least power of two at or above `n` (and 1 for `n <= 1`).
pub open spec fn spec_next_pow2(n: int) -> int
    decreases n,
{
    if n <= 1 {
        1
    } else {
        2 * spec_next_pow2((n + 1) / 2)
    }
}

/// The least power of two at or above `n` is at least `n`.
pub proof fn lemma_np2_ge(n: int)
    requires
        n >= 1,
    ensures
        spec_next_pow2(n) >= n,
        spec_next_pow2(n) >= 1,
    decreases n,
{
    if n >= 2 {
        lemma_np2_ge((n + 1) / 2);
    }
}

/// For `n >= 2` the least power of two at or above `n` stays below `2n`.
pub proof fn lemma_np2_upper(n: int)
    requires
        n >= 2,
    ensures
        spec_next_pow2(n) <= 2 * n - 2,
    decreases n,
{
    let m = (n + 1) / 2;
    if m >= 2 {
        lemma_np2_upper(m);
        assert(2 * m <= n + 1);
    } else {
        assert(n == 2);
        assert(spec_next_pow2(2) == 2 * spec_next_pow2(1));
    }
}

/// The least power of two at or above a power of two is that power itself.
pub proof fn lemma_np2_exact(k: nat)
    ensures
        spec_next_pow2(two_pow(k) as int) == two_pow(k),
    decreases k,
{
    if k == 0 {
    } else {
        assert(two_pow(k) == 2 * two_pow((k - 1) as nat));
        lemma_two_pow_pos((k - 1) as nat);
        lemma_np2_exact((k - 1) as nat);
        assert((two_pow(k) + 1) as int / 2 == two_pow((k - 1) as nat)) by {
            let p = two_pow((k - 1) as nat) as int;
            assert((2 * p + 1) / 2 == p) by {
                vstd::arithmetic::div_mod::lemma_div_multiples_vanish_fancy(p, 1, 2);
            }
        }
    }
}

/// The concrete values of the powers of two near the machine-word limit.
pub proof fn lemma_two_pow_63()
    ensures
        two_pow(62) == 0x4000_0000_0000_0000,
        two_pow(63) == 0x8000_0000_0000_0000,
{
    reveal_with_fuel(two_pow, 64);
}

/// Powers of two are positive.
pub proof fn lemma_two_pow_pos(k: nat)
    ensures
        two_pow(k) >= 1,
    decreases k,
{
    if k > 0 {
        lemma_two_pow_pos((k - 1) as nat);
    }
}

/// Powers of two grow with the exponent.
pub proof fn lemma_two_pow_mono(j: nat, k: nat)
    requires
        j <= k,
    ensures
        two_pow(j) <= two_pow(k),
    decreases k,
{
    if j < k {
        lemma_two_pow_mono(j, (k - 1) as nat);
        lemma_two_pow_pos((k - 1) as nat);
    }
}

/// The least power of two at or above `n`, computed as the definition reads.
pub fn next_pow2(n: usize) -> (r: usize)
    requires
        n as int <= usize::MAX as int / 2 + 1,
    ensures
        r == spec_next_pow2(n as int),
    decreases n,
{
    if n <= 1 {
        1
    } else {
        let m = n / 2 + (n % 2);
        proof {
            assert(m == (n + 1) as int / 2);
            lemma_np2_ge(m as int);
            lemma_np2_upper(n as int);
        }
        let half = next_pow2(m);
        2 * half
    }
}

/// Sibling nodes recorded while walking from the given node down to the
/// leaf slot `idx`, assuming `count` leaves below the node; ordered from
/// the lowest tree level to the highest.
pub open spec fn spec_inclusion_proof(tree: NodeData, idx: int, count: int) -> Seq<NodeData>
    decreases tree,
{
    match tree {
        NodeData::Node { left, right, .. } => {
            let left_count = spec_next_pow2(count) / 2;
            if idx < left_count {
                spec_inclusion_proof(*left, idx, left_count).push(proof_node_of(*right))
            } else {
                spec_inclusion_proof(*right, idx - left_count, count - left_count).push(
                    proof_node_of(*left),
                )
            }
        },
        _ => Seq::empty(),
    }
}

/// Bit `j` of a leaf index: true when, at height `j`, the walk to the
/// leaf goes through a right child.
pub open spec fn spec_path(idx: int, depth: nat) -> Seq<bool> {
    Seq::new(depth, |j: int| (idx / two_pow(j as nat) as int) % 2 == 1)
}

/// The index of the first set bit of a path, or the path's length when
/// every bit is clear.
pub open spec fn first_true_idx(path: Seq<bool>) -> int
    decreases path.len(),
{
    if path.len() == 0 {
        0
    } else if path[0] {
        0
    } else {
        1 + first_true_idx(path.subrange(1, path.len() as int))
    }
}

/// Recomputing parents bottom-up along a proof: at each level the proof
/// node joins as left or right sibling as the path bit says, and the
/// bounds must be ordered; `None` marks an ordering violation.
pub open spec fn spec_verify_fold(
    computed: NodeData,
    proof: Seq<NodeData>,
    path: Seq<bool>,
    i: int,
) -> Option<NodeData>
    decreases proof.len() - i,
{
    if i < 0 || i >= proof.len() {
        Some(computed)
    } else {
        let item = proof[i];
        if path[i] {
            if node_end(item) > node_end(computed) {
                None
            } else {
                spec_verify_fold(spec_parent(item, computed), proof, path, i + 1)
            }
        } else {
            if node_end(computed) > node_end(item) {
                None
            } else {
                spec_verify_fold(spec_parent(computed, item), proof, path, i + 1)
            }
        }
    }
}

/// The provable gap around a verified leaf: no other leaf exists with a
/// key inside `(implicit_start, implicit_end]`.
pub ghost struct BoundsData {
    pub implicit_start: u64,
    pub implicit_end: u64,
}

/// What verification of a leaf against a root yields: the implicit bounds
/// on success, nothing when a bound order or the root hash fails.
pub open spec fn spec_verify(
    leaf: NodeData,
    idx: int,
    proof: Seq<NodeData>,
    root: Seq<u8>,
) -> Option<BoundsData> {
    let path = spec_path(idx, proof.len());
    let fti = first_true_idx(path);
    let first_left_end: u64 = if fti < path.len() {
        node_end(proof[fti])
    } else {
        0
    };
    match spec_verify_fold(leaf, proof, path, 0) {
        Option::None => Option::None,
        Option::Some(computed) => if node_hash(computed) == root {
            Option::Some(
                BoundsData {
                    implicit_start: first_left_end,
                    implicit_end: if idx == two_pow(proof.len()) - 1 {
                        u64::MAX
                    } else {
                        node_end(leaf)
                    },
                },
            )
        } else {
            Option::None
        },
    }
}

/// The implicit bounds returned by a successful verification.
#[derive(Clone, Copy, Debug, PartialEq, Eq, Structural)]
pub struct ImplicitBounds {
    implicit_start: u64,
    implicit_end: u64,
}

impl View for ImplicitBounds {
    type V = BoundsData;

    closed spec fn view(&self) -> BoundsData {
        BoundsData { implicit_start: self.implicit_start, implicit_end: self.implicit_end }
    }
}

impl ImplicitBounds {
    pub fn new(implicit_start: u64, implicit_end: u64) -> (r: Self)
        ensures
            r@ == (BoundsData { implicit_start, implicit_end }),
    {
        ImplicitBounds { implicit_start, implicit_end }
    }

    pub fn get_implicit_start(&self) -> (r: u64)
        ensures
            r == self@.implicit_start,
    {
        self.implicit_start
    }

    pub fn get_implicit_end(&self) -> (r: u64)
        ensures
            r == self@.implicit_end,
    {
        self.implicit_end
    }
}

/// A sum Merkle tree: one root node built once from a leaf sequence.
pub struct SumMerkleTree {
    tree: SumMerkleNode,
}

impl View for SumMerkleTree {
    type V = NodeData;

    closed spec fn view(&self) -> NodeData {
        self.tree@
    }
}

impl SumMerkleTree {
    /// Builds the tree bottom-up from the given leaves, pairing them left
    /// to right and padding an odd level with the empty leaf; fails only
    /// on an empty leaf sequence.
    pub fn generate(leaves: &[SumMerkleNode]) -> (r: Result<SumMerkleTree, Error>)
        ensures
            leaves@.len() == 0 ==> (r matches Err(e) && e.spec_kind() == ErrorKind::NoTransactions),
            leaves@.len() > 0 ==> (r matches Ok(t) && t@ == spec_generate(node_views(leaves@))),
        decreases leaves@.len(),
    {
        let n = leaves.len();
        if n == 0 {
            return Err(Error::from_kind(ErrorKind::NoTransactions));
        }
        if n == 1 {
            let root = vstd::slice::slice_index_get(leaves, 0).clone();
            return Ok(SumMerkleTree { tree: root });
        }
        let ghost full = node_views(leaves@);
        let np = n / 2 + n % 2;
        let mut parents: Vec<SumMerkleNode> = Vec::new();
        let mut k: usize = 0;
        proof {
            assert(node_views(parents@) =~= spec_parent_level(full).subrange(0, 0));
        }
        while k < np
            invariant
                n == leaves@.len(),
                full == node_views(leaves@),
                n >= 2,
                np == n / 2 + n % 2,
                k <= np,
                parents@.len() == k,
                node_views(parents@) == spec_parent_level(full).subrange(0, k as int),
            decreases np - k,
        {
            let i = 2 * k;
            let ghost pre = parents@;
            if i + 1 < n {
                parents.push(
                    SumMerkleNode::compute_parent(
                        vstd::slice::slice_index_get(leaves, i),
                        vstd::slice::slice_index_get(leaves, i + 1),
                    ),
                );
            } else {
                let empty = SumMerkleNode::create_empty();
                parents.push(
                    SumMerkleNode::compute_parent(vstd::slice::slice_index_get(leaves, i), &empty),
                );
            }
            proof {
                assert(node_views(parents@) =~= spec_parent_level(full).subrange(
                    0, k as int + 1));
            }
            k += 1;
        }
        proof {
            assert((n as int + 1) / 2 == n as int / 2 + (n as int % 2));
            assert(spec_parent_level(full).subrange(0, np as int) =~= spec_parent_level(full));
        }
        Self::generate(parents.as_slice())
    }

    /// The root commitment.
    pub fn get_root(&self) -> (r: Vec<u8>)
        ensures
            r@ == node_hash(self@),
            !(self@ is ProofNode) ==> r@.len() == 32,
    {
        self.tree.hash()
    }

    /// The inclusion proof for the leaf at `idx` of a tree over `count`
    /// leaves: sibling stand-ins from the lowest level to the highest.
    pub fn get_inclusion_proof(&self, idx: usize, count: usize) -> (r: Vec<SumMerkleNode>)
        requires
            count as int <= usize::MAX as int / 2 + 1,
        ensures
            node_views(r@) == spec_inclusion_proof(self@, idx as int, count as int),
    {
        Self::get_inclusion_proof_of_tree(&self.tree, idx, count)
    }

    fn get_inclusion_proof_of_tree(tree: &SumMerkleNode, idx: usize, count: usize) -> (r: Vec<
        SumMerkleNode,
    >)
        requires
            count as int <= usize::MAX as int / 2 + 1,
        ensures
            node_views(r@) == spec_inclusion_proof(tree@, idx as int, count as int),
        decreases tree,
    {
        match tree {
            SumMerkleNode::Node { left, right, .. } => {
                let left_count = next_pow2(count) / 2;
                proof {
                    if count as int >= 2 {
                        lemma_np2_upper(count as int);
                        lemma_np2_ge(count as int);
                    }
                }
                if idx < left_count {
                    let mut proofs = Self::get_inclusion_proof_of_tree(left, idx, left_count);
                    let ghost pre = proofs@;
                    proofs.push(SumMerkleNode::create_proof_node(right));
                    proof {
                        assert(node_views(proofs@) =~= node_views(pre).push(
                            proof_node_of(right@)));
                    }
                    proofs
                } else {
                    let mut proofs = Self::get_inclusion_proof_of_tree(
                        right,
                        idx - left_count,
                        count - left_count,
                    );
                    let ghost pre = proofs@;
                    proofs.push(SumMerkleNode::create_proof_node(left));
                    proof {
                        assert(node_views(proofs@) =~= node_views(pre).push(proof_node_of(left@)));
                    }
                    proofs
                }
            },
            _ => {
                let r: Vec<SumMerkleNode> = Vec::new();
                proof {
                    assert(node_views(r@) =~= spec_inclusion_proof(tree@, idx as int, count as int));
                }
                r
            },
        }
    }

    /// The path bits of a leaf index, least-significant first: bit `j`
    /// says the walked node is a right child at height `j`.
    fn get_path(idx: usize, depth: usize) -> (r: Vec<bool>)
        ensures
            r@ == spec_path(idx as int, depth as nat),
    {
        let mut path: Vec<bool> = Vec::new();
        let mut cur = idx;
        let mut i: usize = 0;
        proof {
            assert(two_pow(0) == 1);
            assert(idx as int / 1int == idx as int);
        }
        while i < depth
            invariant
                i <= depth,
                path@.len() == i,
                cur == idx as int / two_pow(i as nat) as int,
                forall|j: int| 0 <= j < i ==> path@[j] == spec_path(
                    idx as int, depth as nat)[j],
            decreases depth - i,
        {
            path.push(cur % 2 == 1);
            proof {
                lemma_two_pow_pos(i as nat);
                vstd::arithmetic::div_mod::lemma_div_denominator(
                    idx as int,
                    two_pow(i as nat) as int,
                    2,
                );
                assert(two_pow((i + 1) as nat) == 2 * two_pow(i as nat));
            }
            cur = cur / 2;
            i += 1;
        }
        proof {
            assert(path@ =~= spec_path(idx as int, depth as nat));
        }
        path
    }

    /// Joins a recomputed node with a proof sibling, requiring the bounds
    /// to be ordered.
    fn verify_and_get_parent(left: &SumMerkleNode, right: &SumMerkleNode) -> (r: Result<
        SumMerkleNode,
        Error,
    >)
        ensures
            node_end(left@) > node_end(right@) ==> (r matches Err(e) && e.spec_kind()
                == ErrorKind::VerifyError),
            node_end(left@) <= node_end(right@) ==> (r matches Ok(p) && p@ == spec_parent(
                left@, right@)),
    {
        if left.get_end() > right.get_end() {
            return Err(Error::from_kind(ErrorKind::VerifyError));
        }
        Ok(SumMerkleNode::compute_parent(left, right))
    }

    /// Verifies that `leaf` stands at slot `idx` of the tree committed to
    /// by `root`, and returns the implicit bounds around it: no other leaf
    /// can exist with a key inside the returned gap.
    pub fn verify(
        leaf: &SumMerkleNode,
        idx: usize,
        inclusion_proof: Vec<SumMerkleNode>,
        root: &[u8],
    ) -> (r: Result<ImplicitBounds, Error>)
        requires
            inclusion_proof@.len() < 64,
        ensures
            (match r {
                Ok(b) => spec_verify(leaf@, idx as int, node_views(inclusion_proof@), root@)
                    == Some(b@),
                Err(e) => spec_verify(leaf@, idx as int, node_views(inclusion_proof@), root@)
                    is None && e.spec_kind() == ErrorKind::VerifyError,
            }),
    {
        let depth = inclusion_proof.len();
        let ghost pviews = node_views(inclusion_proof@);
        let path = Self::get_path(idx, depth);
        // the end bound of the first left sibling along the path
        let mut pos: usize = 0;
        while pos < depth
            invariant_except_break
                pos <= depth,
                depth == path@.len(),
                path@ == spec_path(idx as int, depth as nat),
                forall|j: int| 0 <= j < pos ==> !path@[j],
            ensures
                pos <= depth,
                depth == path@.len(),
                path@ == spec_path(idx as int, depth as nat),
                forall|j: int| 0 <= j < pos ==> !path@[j],
                pos < depth ==> path@[pos as int],
            decreases depth - pos,
        {
            if path[pos] {
                break;
            }
            pos += 1;
        }
        proof {
            lemma_first_true_char(path@, pos as int);
        }
        let first_left_end: u64 = if pos < depth {
            inclusion_proof[pos].get_end()
        } else {
            0
        };
        // recompute the root bottom-up along the path
        let mut computed = leaf.clone();
        let mut i: usize = 0;
        while i < depth
            invariant
                i <= depth,
                depth == path@.len(),
                depth == inclusion_proof@.len(),
                pviews == node_views(inclusion_proof@),
                path@ == spec_path(idx as int, depth as nat),
                spec_verify_fold(leaf@, pviews, path@, 0) == spec_verify_fold(
                    computed@, pviews, path@, i as int),
            decreases depth - i,
        {
            let item = &inclusion_proof[i];
            let joined = if path[i] {
                Self::verify_and_get_parent(item, &computed)
            } else {
                Self::verify_and_get_parent(&computed, item)
            };
            match joined {
                Ok(next) => {
                    computed = next;
                },
                Err(e) => {
                    return Err(e);
                },
            }
            i += 1;
        }
        // the last possible slot at this depth
        let mut p: u64 = 1;
        let mut j: usize = 0;
        proof {
            assert(two_pow(0) == 1);
        }
        while j < depth
            invariant
                j <= depth,
                depth < 64,
                p == two_pow(j as nat),
                p <= 0x8000_0000_0000_0000,
            decreases depth - j,
        {
            proof {
                lemma_two_pow_mono((j + 1) as nat, 63);
                lemma_two_pow_63();
            }
            p = p * 2;
            j += 1;
        }
        proof {
            lemma_two_pow_pos(depth as nat);
        }
        let is_last_leaf = (idx as u64) == p - 1;
        let rh = computed.hash();
        if bytes_eq(rh.as_slice(), root) {
            Ok(ImplicitBounds::new(first_left_end, if is_last_leaf {
                u64::MAX
            } else {
                leaf.get_end()
            }))
        } else {
            Err(Error::from_kind(ErrorKind::VerifyError))
        }
    }
}

/// Whether two byte strings hold the same bytes.
pub fn bytes_eq(a: &[u8], b: &[u8]) -> (r: bool)
    ensures
        r == (a@ == b@),
{
    if a.len() != b.len() {
        return false;
    }
    let n = a.len();
    let mut i: usize = 0;
    while i < n
        invariant
            n == a@.len() == b@.len(),
            i <= n,
            forall|j: int| 0 <= j < i ==> a@[j] == b@[j],
        decreases n - i,
    {
        if *vstd::slice::slice_index_get(a, i) != *vstd::slice::slice_index_get(b, i) {
            return false;
        }
        i += 1;
    }
    proof {
        assert(a@ =~= b@);
    }
    true
}

/// A scan that finds the first set bit finds the index the recursive
/// definition names.
pub proof fn lemma_first_true_char(path: Seq<bool>, pos: int)
    requires
        0 <= pos <= path.len(),
        forall|j: int| 0 <= j < pos ==> !path[j],
        pos < path.len() ==> path[pos],
    ensures
        first_true_idx(path) == pos,
    decreases path.len(),
{
    if path.len() == 0 {
    } else if path[0] {
        assert(pos == 0);
    } else {
        let tail = path.subrange(1, path.len() as int);
        assert(forall|j: int| 0 <= j < pos - 1 ==> !tail[j]);
        lemma_first_true_char(tail, pos - 1);
    }
}

} // verus!
