//! What holds of every tree, proved from the definitions.

use crate::hasher::{all_digests, collide, sha256, DIGEST_LEN};
use crate::model::{
    leaf_level, lemma_levels_above_shape, merkle_nodes, merkle_root, node_input, trees_collide,
    verifies,
};
use vstd::arithmetic::power2::is_pow2;
use vstd::prelude::*;

verus! {

/// A tree over `n` leaves has `2n - 1` nodes.
pub proof fn lemma_node_count(leaves: Seq<Seq<u8>>)
    requires
        is_pow2(leaves.len() as int),
    ensures
        merkle_nodes(leaves).len() == 2 * leaves.len() - 1,
{
    lemma_levels_above_shape(leaf_level(leaves));
}

/// Every node is a digest: the last `n` nodes are the digests of the `n`
/// leaves, in their order, and each node before them is the digest of its
/// two children, which are the nodes `2i + 1` and `2i + 2`.
pub proof fn lemma_node_is_digest(leaves: Seq<Seq<u8>>, i: int)
    requires
        is_pow2(leaves.len() as int),
        0 <= i < 2 * leaves.len() - 1,
    ensures
        merkle_nodes(leaves)[i] == sha256(node_input(leaves, i)),
{
    lemma_levels_above_shape(leaf_level(leaves));
}

/// The root of a built tree verifies against the leaves it was built from.
pub proof fn lemma_round_trip(leaves: Seq<Seq<u8>>)
    requires
        is_pow2(leaves.len() as int),
    ensures
        verifies(merkle_nodes(leaves)[0], leaves),
{
}

/// The tree over a single leaf has one node, the digest of that leaf, which
/// is its root as well.
pub proof fn lemma_single_leaf(leaf: Seq<u8>)
    ensures
        merkle_nodes(seq![leaf]) == seq![sha256(leaf)],
        merkle_root(seq![leaf]) == sha256(leaf),
{
    assert(leaf_level(seq![leaf]) =~= seq![sha256(leaf)]);
}

/// Two trees with one root, over as many leaves, agree in every node and in
/// what every node is the digest of, unless they collide somewhere.
pub proof fn lemma_nodes_agree(a: Seq<Seq<u8>>, b: Seq<Seq<u8>>, i: int)
    requires
        is_pow2(a.len() as int),
        b.len() == a.len(),
        all_digests(merkle_nodes(a)),
        all_digests(merkle_nodes(b)),
        merkle_root(a) == merkle_root(b),
        !trees_collide(a, b),
        0 <= i < 2 * a.len() - 1,
    ensures
        merkle_nodes(a)[i] == merkle_nodes(b)[i],
        node_input(a, i) == node_input(b, i),
    decreases i,
{
    let na = merkle_nodes(a);
    let nb = merkle_nodes(b);
    lemma_node_count(a);
    lemma_node_count(b);
    if i > 0 {
        let p = (i - 1) / 2;
        lemma_nodes_agree(a, b, p);
        let left = 2 * p + 1;
        let right = 2 * p + 2;
        let ja = na[left] + na[right];
        let jb = nb[left] + nb[right];
        assert(ja == jb);
        assert(na[left].len() == DIGEST_LEN && nb[left].len() == DIGEST_LEN);
        assert(na[left] =~= ja.subrange(0, DIGEST_LEN as int));
        assert(nb[left] =~= jb.subrange(0, DIGEST_LEN as int));
        assert(na[right] =~= ja.subrange(DIGEST_LEN as int, ja.len() as int));
        assert(nb[right] =~= jb.subrange(DIGEST_LEN as int, jb.len() as int));
    }
    lemma_node_is_digest(a, i);
    lemma_node_is_digest(b, i);
    assert(!collide(node_input(a, i), node_input(b, i)));
}

/// Different leaf sequences of one length have different roots, unless
/// their trees collide somewhere.
pub proof fn lemma_roots_differ(a: Seq<Seq<u8>>, b: Seq<Seq<u8>>)
    requires
        is_pow2(a.len() as int),
        b.len() == a.len(),
        a != b,
        all_digests(merkle_nodes(a)),
        all_digests(merkle_nodes(b)),
        !trees_collide(a, b),
    ensures
        merkle_root(a) != merkle_root(b),
{
    if merkle_root(a) == merkle_root(b) {
        if forall|j: int| 0 <= j < a.len() ==> a[j] == b[j] {
            assert(a =~= b);
        } else {
            let j = choose|j: int| 0 <= j < a.len() && a[j] != b[j];
            lemma_nodes_agree(a, b, a.len() - 1 + j);
        }
    }
}

/// With one byte of one leaf altered, the leaves no longer verify against
/// the root of the tree over the unaltered ones, unless the two trees
/// collide somewhere.
pub proof fn lemma_altered_byte_rejected(leaves: Seq<Seq<u8>>, i: int, k: int, byte: u8)
    requires
        is_pow2(leaves.len() as int),
        0 <= i < leaves.len(),
        0 <= k < leaves[i].len(),
        byte != leaves[i][k],
        all_digests(merkle_nodes(leaves)),
        all_digests(merkle_nodes(leaves.update(i, leaves[i].update(k, byte)))),
        !trees_collide(leaves, leaves.update(i, leaves[i].update(k, byte))),
    ensures
        !verifies(merkle_root(leaves), leaves.update(i, leaves[i].update(k, byte))),
{
    let altered = leaves.update(i, leaves[i].update(k, byte));
    assert(altered[i][k] != leaves[i][k]);
    lemma_roots_differ(leaves, altered);
}

/// With two different leaves exchanged, the leaves no longer verify against
/// the root of the tree over them in their first order, unless the two
/// trees collide somewhere.
pub proof fn lemma_swapped_leaves_rejected(leaves: Seq<Seq<u8>>, i: int, j: int)
    requires
        is_pow2(leaves.len() as int),
        0 <= i < leaves.len(),
        0 <= j < leaves.len(),
        leaves[i] != leaves[j],
        all_digests(merkle_nodes(leaves)),
        all_digests(merkle_nodes(leaves.update(i, leaves[j]).update(j, leaves[i]))),
        !trees_collide(leaves, leaves.update(i, leaves[j]).update(j, leaves[i])),
    ensures
        !verifies(merkle_root(leaves), leaves.update(i, leaves[j]).update(j, leaves[i])),
{
    let swapped = leaves.update(i, leaves[j]).update(j, leaves[i]);
    assert(swapped[i] != leaves[i]);
    lemma_roots_differ(leaves, swapped);
}

} // verus!
