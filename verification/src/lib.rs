//! A balanced Merkle hash tree over a power-of-two number of byte blocks.
//!
//! The tree is stored as one flat sequence of SHA-256 digests, root first:
//! the root, then its two children, and so on down to the hashed leaves.
//! [`MerkleTree::build`] computes every node, [`MerkleTree::root`] hands out
//! the root digest, and [`MerkleTree::verify`] rebuilds a tree from a leaf
//! set and compares its root with a claimed one.

pub mod hasher;
pub mod laws;
pub mod model;
pub mod tree;
pub mod util;

pub use tree::MerkleTree;
