//! The tree: construction, root access and verification.

use crate::hasher::{all_digests, hash_pair, lemma_all_digests_concat, sha256, DIGEST_LEN};
use crate::model::{
    concat_rev, leaf_level, lemma_concat_rev_push, lemma_deep_view, lemma_levels_above_shape,
    is_tree, levels_above, merkle_nodes, parent_level, verifies,
};
use crate::util::lemma_pow2_half;
use sha2::Digest;
use vstd::arithmetic::power2::is_pow2;
use vstd::prelude::*;

verus! {

/// A block of input bytes, of any length.
pub type Block = Vec<u8>;

/// A digest: `DIGEST_LEN` bytes.
pub type Hash = Vec<u8>;

/// All nodes of a balanced hash tree in one sequence, root first.
#[derive(Debug)]
pub struct MerkleTree {
    nodes: Vec<Hash>,
}

impl View for MerkleTree {
    type V = Seq<Seq<u8>>;

    /// The digests of all nodes, root first.
    closed spec fn view(&self) -> Seq<Seq<u8>> {
        self.nodes.deep_view()
    }
}

impl MerkleTree {
    /// Every value of the type is a whole tree.
    #[verifier::type_invariant]
    spec fn well_formed(self) -> bool {
        is_tree(self.nodes.deep_view())
    }

    /// Whether `root` is the root of the tree over `leaves`, compared byte
    /// for byte. The tree is built anew on every call.
    ///
    /// The number of leaves must be a power of two, as for `build`.
    pub fn verify(root: &Hash, leaves: Vec<Block>) -> (ok: bool)
        requires
            is_pow2(leaves@.len() as int),
        ensures
            ok == verifies(root@, leaves.deep_view()),
    {
        let tree = Self::build(leaves);
        let built = tree.root();
        let ok = *built == *root;
        assert(ok == (built@ =~= root@));
        ok
    }

    /// Builds the tree over `leaves`: the digest of every leaf, then level
    /// upon level of pair digests up to the root, stored root first.
    ///
    /// The number of leaves must be a power of two; one leaf gives a tree
    /// of one node.
    pub fn build(leaves: Vec<Block>) -> (tree: MerkleTree)
        requires
            is_pow2(leaves@.len() as int),
        ensures
            tree@ == merkle_nodes(leaves.deep_view()),
            tree@.len() == 2 * leaves@.len() - 1,
            is_tree(tree@),
    {
        let ghost blocks = leaves.deep_view();
        let mut level: Vec<Hash> = Vec::new();
        let mut i: usize = 0;
        while i < leaves.len()
            invariant
                i <= leaves.len(),
                blocks == leaves.deep_view(),
                level@.len() == i,
                forall|k: int| 0 <= k < i ==> (#[trigger] level@[k])@ == sha256(blocks[k]),
                forall|k: int| 0 <= k < i ==> (#[trigger] level@[k])@.len() == DIGEST_LEN,
            decreases leaves.len() - i,
        {
            let digest = Self::hash_leaf(&leaves[i]);
            proof {
                lemma_deep_view(leaves);
            }
            level.push(digest);
            i += 1;
        }
        proof {
            lemma_deep_view(level);
            assert(level.deep_view() =~= leaf_level(blocks));
        }

        let mut levels: Vec<Vec<Hash>> = Vec::new();
        assert(concat_rev(levels.deep_view()) =~= Seq::<Seq<u8>>::empty());
        while level.len() > 1
            invariant
                is_pow2(level@.len() as int),
                all_digests(level.deep_view()),
                all_digests(concat_rev(levels.deep_view())),
                merkle_nodes(blocks) == levels_above(level.deep_view()) + concat_rev(
                    levels.deep_view(),
                ),
            decreases level@.len(),
        {
            let parents = Self::hash_level(&level);
            let ghost below = levels.deep_view();
            let ghost lower = level.deep_view();
            levels.push(level);
            proof {
                assert(levels.deep_view() =~= below.push(lower));
                lemma_concat_rev_push(below, lower);
                lemma_all_digests_concat(lower, concat_rev(below));
                assert(parents.deep_view().len() == lower.len() / 2);
                lemma_pow2_half(lower.len() as int);
                assert(levels_above(parents.deep_view()) + (lower + concat_rev(below))
                    =~= levels_above(lower) + concat_rev(below));
            }
            level = parents;
        }

        let mut nodes: Vec<Hash> = level;
        while levels.len() > 0
            invariant
                all_digests(nodes.deep_view()),
                all_digests(concat_rev(levels.deep_view())),
                merkle_nodes(blocks) == nodes.deep_view() + concat_rev(levels.deep_view()),
            decreases levels@.len(),
        {
            let ghost below = levels.deep_view();
            let ghost upper = nodes.deep_view();
            let mut lower = levels.pop().unwrap();
            let ghost next = lower.deep_view();
            nodes.append(&mut lower);
            proof {
                assert(next == below.last());
                assert(levels.deep_view() =~= below.drop_last());
                assert(nodes.deep_view() =~= upper + next);
                lemma_all_digests_concat(next, concat_rev(levels.deep_view()));
                lemma_all_digests_concat(upper, next);
                assert(upper + (next + concat_rev(levels.deep_view())) =~= (upper + next)
                    + concat_rev(levels.deep_view()));
            }
        }
        proof {
            lemma_levels_above_shape(leaf_level(blocks));
        }
        MerkleTree { nodes }
    }

    /// The root digest: the first node.
    pub fn root(&self) -> (root: &Hash)
        ensures
            is_tree(self@),
            root@ == self@[0],
    {
        proof {
            use_type_invariant(self);
            lemma_deep_view(self.nodes);
        }
        &self.nodes[0]
    }

    /// All nodes, root first.
    pub fn nodes(&self) -> (nodes: &Vec<Hash>)
        ensures
            is_tree(self@),
            nodes.deep_view() == self@,
    {
        proof {
            use_type_invariant(self);
        }
        &self.nodes
    }

    /// The level above `level`: the digest of each pair of neighbours.
    fn hash_level(level: &Vec<Hash>) -> (parents: Vec<Hash>)
        requires
            is_pow2(level@.len() as int),
            level@.len() >= 2,
        ensures
            parents.deep_view() == parent_level(level.deep_view()),
            all_digests(parents.deep_view()),
    {
        let half: usize = level.len() / 2;
        let mut parents: Vec<Hash> = Vec::new();
        let mut i: usize = 0;
        while i < half
            invariant
                half == level.len() / 2,
                i <= half,
                parents@.len() == i,
                forall|k: int|
                    0 <= k < i ==> (#[trigger] parents@[k])@ == hash_pair(
                        level@[2 * k]@,
                        level@[2 * k + 1]@,
                    ),
                forall|k: int| 0 <= k < i ==> (#[trigger] parents@[k])@.len() == DIGEST_LEN,
            decreases half - i,
        {
            let parent = Self::hash_concat(&level[2 * i], &level[2 * i + 1]);
            parents.push(parent);
            i += 1;
        }
        proof {
            lemma_deep_view(*level);
            lemma_deep_view(parents);
            assert(parents.deep_view() =~= parent_level(level.deep_view()));
        }
        parents
    }

    /// Calls `sha2::Sha256::digest` on the bytes of `leaf` and copies the
    /// output into a vector. Trusted: the result is the SHA-256 digest of
    /// the input, a function of the input alone, and has 32 bytes, the
    /// output size that `sha2` fixes for `Sha256`.
    #[verifier::external_body]
    fn hash_leaf(leaf: &Block) -> (digest: Hash)
        ensures
            digest@ == sha256(leaf@),
            digest@.len() == DIGEST_LEN,
    {
        sha2::Sha256::digest(leaf).to_vec()
    }

    /// The digest of `a` followed by `b`.
    fn hash_concat(a: &Hash, b: &Hash) -> (digest: Hash)
        ensures
            digest@ == hash_pair(a@, b@),
            digest@.len() == DIGEST_LEN,
    {
        let mut joined: Vec<u8> = Vec::new();
        let mut i: usize = 0;
        while i < a.len()
            invariant
                i <= a.len(),
                joined@ == a@.subrange(0, i as int),
            decreases a.len() - i,
        {
            joined.push(a[i]);
            i += 1;
        }
        let mut j: usize = 0;
        while j < b.len()
            invariant
                j <= b.len(),
                joined@ == a@ + b@.subrange(0, j as int),
            decreases b.len() - j,
        {
            joined.push(b[j]);
            j += 1;
        }
        assert(joined@ == a@ + b@);
        Self::hash_leaf(&joined)
    }
}

} // verus!
