use vstd::prelude::*;
use crate::merkle::{
    two_pow, NodeData, node_end, node_hash, spec_parent, spec_parent_level, spec_generate,
    spec_next_pow2, spec_inclusion_proof, spec_path, first_true_idx, spec_verify_fold,
    spec_verify, proof_node_of, BoundsData, lemma_two_pow_pos, lemma_np2_exact,
};

verus! {

/// Powers of two multiply when exponents add.
pub proof fn lemma_two_pow_adds(a: nat, b: nat)
    ensures
        two_pow(a + b) == two_pow(a) * two_pow(b),
    decreases a,
{
    if a == 0 {
    } else {
        lemma_two_pow_adds((a - 1) as nat, b);
        assert(two_pow(a + b) == 2 * two_pow((a + b - 1) as nat));
        assert((a - 1) + b == a + b - 1);
        vstd::arithmetic::mul::lemma_mul_is_associative(
            2,
            two_pow((a - 1) as nat) as int,
            two_pow(b) as int,
        );
    }
}

/// The same tree, built top-down by halving: the reference shape for a
/// leaf count that is a power of two.
pub open spec fn spec_build(l: Seq<NodeData>) -> NodeData
    decreases l.len(),
{
    if l.len() <= 1 {
        l[0]
    } else {
        let h = l.len() as int / 2;
        spec_parent(spec_build(l.subrange(0, h)), spec_build(l.subrange(h, l.len() as int)))
    }
}

/// Pairing a level commutes with splitting the level in even halves.
proof fn lemma_parent_level_split(l: Seq<NodeData>, h: int)
    requires
        0 <= 2 * h <= l.len(),
        l.len() % 2 == 0,
    ensures
        spec_parent_level(l).subrange(0, h) =~= spec_parent_level(l.subrange(0, 2 * h)),
        spec_parent_level(l).subrange(h, l.len() as int / 2) =~= spec_parent_level(
            l.subrange(2 * h, l.len() as int),
        ),
{
    assert(spec_parent_level(l).len() == (l.len() + 1) as int / 2);
    assert((l.len() + 1) as int / 2 == l.len() as int / 2);
}

/// For a power-of-two leaf count, one level of bottom-up pairing keeps
/// the top-down shape.
proof fn lemma_build_level(l: Seq<NodeData>, k: nat)
    requires
        k >= 1,
        l.len() == two_pow(k),
    ensures
        spec_build(l) == spec_build(spec_parent_level(l)),
    decreases k,
{
    let n = l.len() as int;
    assert(two_pow(k) == 2 * two_pow((k - 1) as nat));
    lemma_two_pow_pos((k - 1) as nat);
    let half = two_pow((k - 1) as nat) as int;
    assert(n == 2 * half);
    assert(n / 2 == half);
    let lh = l.subrange(0, half);
    let rh = l.subrange(half, n);
    if k == 1 {
        assert(n == 2);
        let p = spec_parent_level(l);
        assert(p.len() == 1);
        assert(p[0] == spec_parent(l[0], l[1]));
        assert(spec_build(p) == p[0]);
        assert(spec_build(lh) == lh[0] && lh[0] == l[0]);
        assert(spec_build(rh) == rh[0] && rh[0] == l[1]);
    } else {
        assert(two_pow((k - 1) as nat) == 2 * two_pow((k - 2) as nat));
        lemma_two_pow_pos((k - 2) as nat);
        let quarter = two_pow((k - 2) as nat) as int;
        let p = spec_parent_level(l);
        assert(p.len() == half);
        lemma_parent_level_split(l, quarter);
        assert(p.subrange(0, quarter) =~= spec_parent_level(lh));
        assert(p.subrange(quarter, half) =~= spec_parent_level(rh));
        lemma_build_level(lh, (k - 1) as nat);
        lemma_build_level(rh, (k - 1) as nat);
        assert(spec_build(p) == spec_parent(
            spec_build(p.subrange(0, quarter)),
            spec_build(p.subrange(quarter, half)),
        ));
        assert(spec_build(l) == spec_parent(spec_build(lh), spec_build(rh)));
    }
}

/// For a power-of-two leaf count the level-by-level construction builds
/// exactly the top-down halved tree.
pub proof fn lemma_generate_eq_build(l: Seq<NodeData>, k: nat)
    requires
        l.len() == two_pow(k),
    ensures
        spec_generate(l) == spec_build(l),
    decreases k,
{
    if k == 0 {
        assert(l.len() == 1);
    } else {
        assert(two_pow(k) == 2 * two_pow((k - 1) as nat));
        lemma_two_pow_pos((k - 1) as nat);
        let p = spec_parent_level(l);
        assert(p.len() == two_pow((k - 1) as nat));
        lemma_generate_eq_build(p, (k - 1) as nat);
        lemma_build_level(l, k);
    }
}

/// The root of a halved build carries the last leaf's bound.
pub proof fn lemma_build_end(l: Seq<NodeData>, k: nat)
    requires
        l.len() == two_pow(k),
    ensures
        node_end(spec_build(l)) == node_end(l.last()),
    decreases k,
{
    if k == 0 {
    } else {
        assert(two_pow(k) == 2 * two_pow((k - 1) as nat));
        lemma_two_pow_pos((k - 1) as nat);
        let n = l.len() as int;
        let half = n / 2;
        let rh = l.subrange(half, n);
        lemma_build_end(rh, (k - 1) as nat);
        assert(rh.last() == l.last());
    }
}

/// Folding over a proof extended by one sibling performs the fold over
/// the shorter proof and then one more join.
pub proof fn lemma_fold_push(
    x: NodeData,
    pf: Seq<NodeData>,
    pth: Seq<bool>,
    it: NodeData,
    bit: bool,
    j: int,
)
    requires
        pf.len() == pth.len(),
        0 <= j <= pf.len(),
    ensures
        spec_verify_fold(x, pf.push(it), pth.push(bit), j) == (match spec_verify_fold(
            x, pf, pth, j,
        ) {
            Option::None => Option::<NodeData>::None,
            Option::Some(c) => if bit {
                if node_end(it) > node_end(c) {
                    Option::<NodeData>::None
                } else {
                    Option::Some(spec_parent(it, c))
                }
            } else {
                if node_end(c) > node_end(it) {
                    Option::<NodeData>::None
                } else {
                    Option::Some(spec_parent(c, it))
                }
            },
        }),
    decreases pf.len() - j,
{
    if j == pf.len() {
        assert(spec_verify_fold(x, pf, pth, j) == Some(x));
        assert(pf.push(it)[j] == it);
        assert(pth.push(bit)[j] == bit);
        if bit {
            if node_end(it) <= node_end(x) {
                assert(spec_verify_fold(x, pf.push(it), pth.push(bit), j)
                    == spec_verify_fold(spec_parent(it, x), pf.push(it), pth.push(bit), j + 1));
                assert(spec_verify_fold(spec_parent(it, x), pf.push(it), pth.push(bit), j + 1)
                    == Some(spec_parent(it, x)));
            }
        } else {
            if node_end(x) <= node_end(it) {
                assert(spec_verify_fold(x, pf.push(it), pth.push(bit), j)
                    == spec_verify_fold(spec_parent(x, it), pf.push(it), pth.push(bit), j + 1));
                assert(spec_verify_fold(spec_parent(x, it), pf.push(it), pth.push(bit), j + 1)
                    == Some(spec_parent(x, it)));
            }
        }
    } else {
        assert(pf.push(it)[j] == pf[j]);
        assert(pth.push(bit)[j] == pth[j]);
        if pth[j] {
            if node_end(pf[j]) > node_end(x) {
            } else {
                lemma_fold_push(spec_parent(pf[j], x), pf, pth, it, bit, j + 1);
            }
        } else {
            if node_end(x) > node_end(pf[j]) {
            } else {
                lemma_fold_push(spec_parent(x, pf[j]), pf, pth, it, bit, j + 1);
            }
        }
    }
}

/// Adding a multiple of the divisor shifts the quotient by that multiple.
proof fn lemma_div_add_multiple(a: int, b: int, d: int)
    requires
        0 <= a,
        0 <= b,
        0 < d,
    ensures
        (a + b * d) / d == a / d + b,
{
    vstd::arithmetic::div_mod::lemma_fundamental_div_mod(a, d);
    assert(a + b * d == (a / d + b) * d + a % d) by {
        vstd::arithmetic::mul::lemma_mul_is_distributive_add_other_way(d, a / d, b);
        vstd::arithmetic::mul::lemma_mul_is_commutative(b, d);
        vstd::arithmetic::mul::lemma_mul_is_commutative(a / d, d);
    }
    vstd::arithmetic::div_mod::lemma_fundamental_div_mod_converse(
        a + b * d,
        d,
        a / d + b,
        a % d,
    );
}

/// A dividend below the divisor has quotient zero.
proof fn lemma_div_small(a: int, d: int)
    requires
        0 <= a < d,
    ensures
        a / d == 0,
{
    vstd::arithmetic::div_mod::lemma_fundamental_div_mod_converse(a, d, 0, a);
}

/// Bit `j` of an index is unchanged by adding a higher power of two.
proof fn lemma_bit_plus_high(i: int, m: nat, j: nat)
    requires
        0 <= i,
        j < m,
    ensures
        ((i + two_pow(m)) / two_pow(j) as int) % 2 == (i / two_pow(j) as int) % 2,
{
    lemma_two_pow_pos(j);
    lemma_two_pow_pos(m);
    let d = two_pow(j) as int;
    let e = two_pow((m - j) as nat) as int;
    lemma_two_pow_adds(j, (m - j) as nat);
    assert(two_pow(m) == two_pow(j) * two_pow((m - j) as nat));
    lemma_div_add_multiple(i, e, d);
    assert((i + two_pow(m)) / d == i / d + e) by {
        assert(two_pow(m) as int == e * d) by {
            vstd::arithmetic::mul::lemma_mul_is_commutative(d, e);
        }
    }
    // the added term is even, so the parity of the quotient is unchanged
    lemma_two_pow_pos((m - j) as nat);
    assert(e % 2 == 0) by {
        assert(two_pow((m - j) as nat) == 2 * two_pow((m - j - 1) as nat));
        vstd::arithmetic::div_mod::lemma_mod_multiples_basic(
            two_pow((m - j - 1) as nat) as int,
            2,
        );
        vstd::arithmetic::mul::lemma_mul_is_commutative(2, two_pow((m - j - 1) as nat) as int);
    }
    vstd::arithmetic::div_mod::lemma_add_mod_noop(i / d, e, 2);
    assert((i / d + e) % 2 == ((i / d) % 2 + e % 2) % 2);
    vstd::arithmetic::div_mod::lemma_mod_mod(i / d, 2, 1);
    assert(((i / d) % 2) % 2 == (i / d) % 2);
}

/// The path of an index in the right half drops to the path of the
/// reduced index one level down, with the top bit set; in the left half
/// the top bit is clear.
pub proof fn lemma_path_step(i: int, k: nat)
    requires
        k >= 1,
        0 <= i < two_pow(k),
    ensures
        i < two_pow((k - 1) as nat) ==> spec_path(i, k) == spec_path(i, (k - 1) as nat).push(
            false,
        ),
        i >= two_pow((k - 1) as nat) ==> spec_path(i, k) == spec_path(
            i - two_pow((k - 1) as nat),
            (k - 1) as nat,
        ).push(true),
{
    let half = two_pow((k - 1) as nat) as int;
    lemma_two_pow_pos((k - 1) as nat);
    assert(two_pow(k) == 2 * two_pow((k - 1) as nat));
    if i < half {
        assert forall|j: int| 0 <= j < k implies spec_path(i, k)[j] == spec_path(
            i, (k - 1) as nat).push(false)[j] by {
            if j == k - 1 {
                crate::merkle::lemma_two_pow_mono(j as nat, (k - 1) as nat);
                lemma_div_small(i, half);
            }
        }
        assert(spec_path(i, k) =~= spec_path(i, (k - 1) as nat).push(false));
    } else {
        let i2 = i - half;
        assert forall|j: int| 0 <= j < k implies spec_path(i, k)[j] == spec_path(
            i2, (k - 1) as nat).push(true)[j] by {
            if j == k - 1 {
                lemma_div_small(i2, half);
                lemma_div_add_multiple(i2, 1, half);
                assert(i / half == i2 / half + 1);
            } else {
                lemma_bit_plus_high(i2, (k - 1) as nat, j as nat);
            }
        }
        assert(spec_path(i, k) =~= spec_path(i2, (k - 1) as nat).push(true));
    }
}

/// Where the first set bit of a path stands: at or after `pos` bits known
/// to be clear, and exactly at `pos` when `pos` carries a set bit.
pub proof fn lemma_fti_char(path: Seq<bool>, pos: int)
    requires
        0 <= pos <= path.len(),
        forall|j: int| 0 <= j < pos ==> !path[j],
        pos < path.len() ==> path[pos],
    ensures
        first_true_idx(path) == pos,
    decreases path.len(),
{
    if path.len() == 0 {
    } else if path[0] {
        assert(pos == 0);
    } else {
        let tail = path.subrange(1, path.len() as int);
        assert(forall|j: int| 0 <= j < pos - 1 ==> !tail[j]);
        lemma_fti_char(tail, pos - 1);
    }
}

/// The first set bit named by `first_true_idx` really is the first.
pub proof fn lemma_fti_props(path: Seq<bool>)
    ensures
        0 <= first_true_idx(path) <= path.len(),
        first_true_idx(path) < path.len() ==> path[first_true_idx(path)],
        forall|j: int| 0 <= j < first_true_idx(path) ==> !path[j],
    decreases path.len(),
{
    if path.len() > 0 && !path[0] {
        let tail = path.subrange(1, path.len() as int);
        lemma_fti_props(tail);
        assert(forall|j: int| 0 <= j < tail.len() ==> tail[j] == path[j + 1]);
        assert(first_true_idx(path) == 1 + first_true_idx(tail));
        assert forall|j: int| 0 <= j < first_true_idx(path) implies !path[j] by {
            if j >= 1 {
                assert(!tail[j - 1]);
            }
        }
    }
}

/// All leaves of a sequence are `Leaf` nodes with non-decreasing bounds.
pub open spec fn sorted_leaves(l: Seq<NodeData>) -> bool {
    &&& forall|t: int| 0 <= t < l.len() ==> (#[trigger] l[t]) is Leaf
    &&& forall|t1: int, t2: int|
        0 <= t1 <= t2 < l.len() ==> node_end(#[trigger] l[t1]) <= node_end(#[trigger] l[t2])
}

/// Folding a leaf's inclusion proof bottom-up reproduces the bound and
/// the hash of the tree built over a power-of-two count of sorted leaves.
pub proof fn lemma_fold_correct(l: Seq<NodeData>, i: int, k: nat)
    requires
        l.len() == two_pow(k),
        sorted_leaves(l),
        0 <= i < l.len(),
    ensures
        ({
            let tree = spec_build(l);
            let pf = spec_inclusion_proof(tree, i, l.len() as int);
            &&& pf.len() == k
            &&& (spec_verify_fold(l[i], pf, spec_path(i, k), 0) matches Some(c)
                && node_end(c) == node_end(tree) && node_hash(c) == node_hash(tree))
        }),
    decreases k,
{
    lemma_two_pow_pos(k);
    let n = l.len() as int;
    let tree = spec_build(l);
    if k == 0 {
        assert(n == 1 && i == 0);
        assert(tree == l[0]);
        let pf = spec_inclusion_proof(tree, i, n);
        assert(pf =~= Seq::<NodeData>::empty());
        assert(spec_path(i, 0).len() == 0);
        assert(spec_verify_fold(l[i], pf, spec_path(i, 0), 0) == Some(l[0]));
    } else {
        assert(two_pow(k) == 2 * two_pow((k - 1) as nat));
        lemma_two_pow_pos((k - 1) as nat);
        let half = two_pow((k - 1) as nat) as int;
        let lh = l.subrange(0, half);
        let rh = l.subrange(half, n);
        assert(sorted_leaves(lh));
        assert(sorted_leaves(rh));
        let ltree = spec_build(lh);
        let rtree = spec_build(rh);
        assert(n / 2 == half);
        assert(tree == spec_parent(ltree, rtree));
        lemma_np2_exact(k);
        assert(spec_next_pow2(n) == n);
        lemma_build_end(lh, (k - 1) as nat);
        lemma_build_end(rh, (k - 1) as nat);
        assert(node_end(ltree) == node_end(l[half - 1]));
        assert(node_end(rtree) == node_end(l[n - 1]));
        lemma_path_step(i, k);
        let pf = spec_inclusion_proof(tree, i, n);
        if i < half {
            lemma_fold_correct(lh, i, (k - 1) as nat);
            let pf_in = spec_inclusion_proof(ltree, i, half);
            assert(pf == pf_in.push(proof_node_of(rtree)));
            assert(lh[i] == l[i]);
            let pth_in = spec_path(i, (k - 1) as nat);
            let c = spec_verify_fold(l[i], pf_in, pth_in, 0)->Some_0;
            lemma_fold_push(l[i], pf_in, pth_in, proof_node_of(rtree), false, 0);
            assert(node_end(c) == node_end(ltree));
            assert(node_end(proof_node_of(rtree)) == node_end(rtree));
            assert(node_end(c) <= node_end(proof_node_of(rtree)));
            let c2 = spec_parent(c, proof_node_of(rtree));
            assert(spec_verify_fold(l[i], pf, spec_path(i, k), 0) == Some(c2));
            assert(node_end(c2) == node_end(tree));
            assert(node_hash(proof_node_of(rtree)) == node_hash(rtree));
            assert(node_hash(c2) == node_hash(tree));
        } else {
            let i2 = i - half;
            lemma_fold_correct(rh, i2, (k - 1) as nat);
            let pf_in = spec_inclusion_proof(rtree, i2, half);
            assert(n - half == half);
            assert(pf == pf_in.push(proof_node_of(ltree)));
            assert(rh[i2] == l[i]);
            let pth_in = spec_path(i2, (k - 1) as nat);
            let c = spec_verify_fold(l[i], pf_in, pth_in, 0)->Some_0;
            lemma_fold_push(l[i], pf_in, pth_in, proof_node_of(ltree), true, 0);
            assert(node_end(c) == node_end(rtree));
            assert(node_end(proof_node_of(ltree)) == node_end(ltree));
            assert(node_end(proof_node_of(ltree)) <= node_end(c));
            let c2 = spec_parent(proof_node_of(ltree), c);
            assert(spec_verify_fold(l[i], pf, spec_path(i, k), 0) == Some(c2));
            assert(node_end(c2) == node_end(tree));
            assert(node_hash(proof_node_of(ltree)) == node_hash(ltree));
            assert(node_hash(c2) == node_hash(tree));
        }
    }
}

/// The first left sibling recorded along a proof path carries the bound
/// of the leaf just before the proven one.
pub proof fn lemma_first_left(l: Seq<NodeData>, i: int, k: nat)
    requires
        l.len() == two_pow(k),
        sorted_leaves(l),
        1 <= i < l.len(),
    ensures
        ({
            let pf = spec_inclusion_proof(spec_build(l), i, l.len() as int);
            let pth = spec_path(i, k);
            &&& pf.len() == k
            &&& 0 <= first_true_idx(pth) < k
            &&& node_end(pf[first_true_idx(pth)]) == node_end(l[i - 1])
        }),
    decreases k,
{
    lemma_two_pow_pos(k);
    lemma_fold_correct(l, i, k);
    let n = l.len() as int;
    let tree = spec_build(l);
    let pf = spec_inclusion_proof(tree, i, n);
    let pth = spec_path(i, k);
    assert(k >= 1) by {
        if k == 0 {
            assert(n == 1);
        }
    }
    assert(two_pow(k) == 2 * two_pow((k - 1) as nat));
    lemma_two_pow_pos((k - 1) as nat);
    let half = two_pow((k - 1) as nat) as int;
    let lh = l.subrange(0, half);
    let rh = l.subrange(half, n);
    assert(sorted_leaves(lh));
    assert(sorted_leaves(rh));
    let ltree = spec_build(lh);
    let rtree = spec_build(rh);
    assert(n / 2 == half);
    assert(tree == spec_parent(ltree, rtree));
    lemma_np2_exact(k);
    assert(spec_next_pow2(n) == n);
    lemma_path_step(i, k);
    if i < half {
        lemma_first_left(lh, i, (k - 1) as nat);
        let pf_in = spec_inclusion_proof(ltree, i, half);
        let pth_in = spec_path(i, (k - 1) as nat);
        assert(pf == pf_in.push(proof_node_of(rtree)));
        assert(pth == pth_in.push(false));
        let fi = first_true_idx(pth_in);
        lemma_fti_props(pth_in);
        assert(forall|j: int| 0 <= j < fi ==> !pth[j]);
        assert(pth[fi]);
        lemma_fti_char(pth, fi);
        assert(pf[fi] == pf_in[fi]);
        assert(lh[i - 1] == l[i - 1]);
    } else if i == half {
        lemma_fold_correct(rh, 0, (k - 1) as nat);
        let pf_in = spec_inclusion_proof(rtree, 0, half);
        let pth_in = spec_path(0, (k - 1) as nat);
        assert(n - half == half);
        assert(pf == pf_in.push(proof_node_of(ltree)));
        assert(pth == pth_in.push(true));
        assert forall|j: int| 0 <= j < k - 1 implies !pth[j] by {
            lemma_two_pow_pos(j as nat);
            lemma_div_small(0, two_pow(j as nat) as int);
            assert(!pth_in[j]);
        }
        assert(pth[k - 1]);
        lemma_fti_char(pth, k - 1);
        assert(pf[k - 1] == proof_node_of(ltree));
        lemma_build_end(lh, (k - 1) as nat);
        assert(node_end(proof_node_of(ltree)) == node_end(l[half - 1]));
    } else {
        let i2 = i - half;
        lemma_first_left(rh, i2, (k - 1) as nat);
        let pf_in = spec_inclusion_proof(rtree, i2, half);
        let pth_in = spec_path(i2, (k - 1) as nat);
        assert(n - half == half);
        assert(pf == pf_in.push(proof_node_of(ltree)));
        assert(pth == pth_in.push(true));
        let fi = first_true_idx(pth_in);
        lemma_fti_props(pth_in);
        assert(forall|j: int| 0 <= j < fi ==> !pth[j]);
        assert(pth[fi]);
        lemma_fti_char(pth, fi);
        assert(pf[fi] == pf_in[fi]);
        assert(rh[i2 - 1] == l[i - 1]);
    }
}

/// Merkle round trip with implicit bounds: over any power-of-two count of
/// leaves with non-decreasing bounds, verifying leaf `i` against the
/// generated tree's own proof and root succeeds, and yields as implicit
/// bounds the previous leaf's bound (or 0 for the first leaf) and the
/// leaf's own bound (or the largest bound for the last slot).
pub proof fn lemma_merkle_round_trip(l: Seq<NodeData>, i: int, k: nat)
    requires
        l.len() == two_pow(k),
        sorted_leaves(l),
        0 <= i < l.len(),
    ensures
        ({
            let tree = spec_generate(l);
            let pf = spec_inclusion_proof(tree, i, l.len() as int);
            spec_verify(l[i], i, pf, node_hash(tree)) == Some(
                BoundsData {
                    implicit_start: if i == 0 {
                        0u64
                    } else {
                        node_end(l[i - 1])
                    },
                    implicit_end: if i == l.len() - 1 {
                        u64::MAX
                    } else {
                        node_end(l[i])
                    },
                },
            )
        }),
{
    lemma_generate_eq_build(l, k);
    lemma_fold_correct(l, i, k);
    lemma_build_end(l, k);
    let tree = spec_build(l);
    let pf = spec_inclusion_proof(tree, i, l.len() as int);
    let pth = spec_path(i, k);
    assert(pf.len() == k);
    if i == 0 {
        assert forall|j: int| 0 <= j < k implies !pth[j] by {
            lemma_two_pow_pos(j as nat);
            lemma_div_small(0, two_pow(j as nat) as int);
        }
        lemma_fti_char(pth, k as int);
    } else {
        lemma_first_left(l, i, k);
    }
}

/// Tamper detection at the root: a proof that verifies against one root
/// fails against any other root.
pub proof fn lemma_root_tamper(
    leaf: NodeData,
    idx: int,
    proof: Seq<NodeData>,
    root: Seq<u8>,
    tampered: Seq<u8>,
)
    requires
        spec_verify(leaf, idx, proof, root) is Some,
        tampered != root,
    ensures
        spec_verify(leaf, idx, proof, tampered) is None,
{
}

} // verus!
