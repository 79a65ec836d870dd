//! What a tree is, as mathematics: the node sequence that a leaf sequence
//! determines, and its root.

use crate::hasher::{all_digests, collide, hash_pair, sha256};
use crate::util::lemma_pow2_half;
use vstd::arithmetic::power2::is_pow2;
use vstd::prelude::*;

verus! {

/// The deepest level of the tree: the digest of each leaf, in the order of
/// the leaves.
pub open spec fn leaf_level(leaves: Seq<Seq<u8>>) -> Seq<Seq<u8>> {
    Seq::new(leaves.len(), |i: int| sha256(leaves[i]))
}

/// The level above `level`: member `i` is the digest of members `2i` and
/// `2i + 1` of `level`, left before right.
pub open spec fn parent_level(level: Seq<Seq<u8>>) -> Seq<Seq<u8>> {
    Seq::new((level.len() / 2) as nat, |i: int| hash_pair(level[2 * i], level[2 * i + 1]))
}

/// `level` with all the levels above it, the topmost first and `level`
/// itself last.
pub open spec fn levels_above(level: Seq<Seq<u8>>) -> Seq<Seq<u8>>
    decreases level.len(),
{
    if level.len() <= 1 {
        level
    } else {
        levels_above(parent_level(level)) + level
    }
}

/// The nodes of the tree over `leaves`, root first.
pub open spec fn merkle_nodes(leaves: Seq<Seq<u8>>) -> Seq<Seq<u8>> {
    levels_above(leaf_level(leaves))
}

/// The root of the tree over `leaves`.
pub open spec fn merkle_root(leaves: Seq<Seq<u8>>) -> Seq<u8> {
    merkle_nodes(leaves)[0]
}

/// Whether `root` is the root of the tree over `leaves`.
pub open spec fn verifies(root: Seq<u8>, leaves: Seq<Seq<u8>>) -> bool {
    root == merkle_root(leaves)
}

/// The number of leaves under `nodes`, where they are a whole tree.
pub open spec fn leaf_count(nodes: Seq<Seq<u8>>) -> nat {
    (nodes.len() + 1) / 2
}

/// `nodes` is a whole tree: `2n - 1` digests for a power of two `n`, of
/// which each of the first `n - 1` is the digest of its two children. The
/// children of node `i` are the nodes `2i + 1` and `2i + 2`; the last `n`
/// nodes, which have no children, are the leaf level.
pub open spec fn is_tree(nodes: Seq<Seq<u8>>) -> bool {
    &&& is_pow2(leaf_count(nodes) as int)
    &&& nodes.len() == 2 * leaf_count(nodes) - 1
    &&& all_digests(nodes)
    &&& forall|i: int|
        0 <= i < leaf_count(nodes) - 1 ==> #[trigger] nodes[i] == hash_pair(
            nodes[2 * i + 1],
            nodes[2 * i + 2],
        )
}

/// The bytes of which node `i` of the tree over `leaves` is the digest: a
/// leaf, for a node of the deepest level; for any other node, its two
/// children laid end to end.
pub open spec fn node_input(leaves: Seq<Seq<u8>>, i: int) -> Seq<u8> {
    let nodes = merkle_nodes(leaves);
    if i < leaves.len() - 1 {
        nodes[2 * i + 1] + nodes[2 * i + 2]
    } else {
        leaves[i - (leaves.len() - 1)]
    }
}

/// At some place the trees over `a` and `b` digest different bytes to the
/// same value.
pub open spec fn trees_collide(a: Seq<Seq<u8>>, b: Seq<Seq<u8>>) -> bool {
    exists|i: int|
        0 <= i < 2 * a.len() - 1 && collide(#[trigger] node_input(a, i), node_input(b, i))
}

/// `levels` laid end to end, the last of them first.
pub open spec fn concat_rev(levels: Seq<Seq<Seq<u8>>>) -> Seq<Seq<u8>>
    decreases levels.len(),
{
    if levels.len() == 0 {
        Seq::empty()
    } else {
        levels.last() + concat_rev(levels.drop_last())
    }
}

/// The deep view of a vector of byte vectors holds the view of each.
pub proof fn lemma_deep_view(v: Vec<Vec<u8>>)
    ensures
        v.deep_view().len() == v@.len(),
        forall|i: int| 0 <= i < v@.len() ==> #[trigger] v.deep_view()[i] == v@[i]@,
{
    assert forall|i: int| 0 <= i < v@.len() implies #[trigger] v.deep_view()[i] == v@[i]@ by {
        assert(v@[i].deep_view() =~= v@[i]@);
    }
}

/// Laying one more level under `levels` puts it in front.
pub proof fn lemma_concat_rev_push(levels: Seq<Seq<Seq<u8>>>, level: Seq<Seq<u8>>)
    ensures
        concat_rev(levels.push(level)) == level + concat_rev(levels),
{
    assert(levels.push(level).drop_last() =~= levels);
}

/// Over a level of `n` members, `n` a power of two, stand `2n - 1` nodes in
/// all. The level itself comes last, and every node before it is the digest
/// of its two children, the nodes `2i + 1` and `2i + 2`.
pub proof fn lemma_levels_above_shape(level: Seq<Seq<u8>>)
    requires
        is_pow2(level.len() as int),
    ensures
        levels_above(level).len() == 2 * level.len() - 1,
        forall|j: int|
            0 <= j < level.len() ==> #[trigger] levels_above(level)[level.len() - 1 + j]
                == level[j],
        forall|i: int|
            0 <= i < level.len() - 1 ==> #[trigger] levels_above(level)[i] == hash_pair(
                levels_above(level)[2 * i + 1],
                levels_above(level)[2 * i + 2],
            ),
    decreases level.len(),
{
    lemma_pow2_half(level.len() as int);
    if level.len() > 1 {
        let n = level.len() as int;
        let upper = parent_level(level);
        let above = levels_above(upper);
        let all = levels_above(level);
        lemma_levels_above_shape(upper);
        assert(all == above + level);
        assert forall|i: int| 0 <= i < n - 1 implies #[trigger] all[i] == hash_pair(
            all[2 * i + 1],
            all[2 * i + 2],
        ) by {
            if i < n / 2 - 1 {
                assert(above[i] == hash_pair(above[2 * i + 1], above[2 * i + 2]));
            } else {
                let j = i - (n / 2 - 1);
                assert(above[upper.len() - 1 + j] == upper[j]);
                assert(all[2 * i + 1] == level[2 * j]);
                assert(all[2 * i + 2] == level[2 * j + 1]);
            }
        }
    }
}

} // verus!
