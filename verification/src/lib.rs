//! Merkle commitments over ordered sequences of text leaves, with inclusion
//! proofs, and a small binary search tree.

pub mod error;
pub mod hasher;
pub mod levels;
pub mod inclusion;
pub mod merkle_tree_vec;
pub mod merkle_tree;
pub mod binary_tree;
pub mod text;
