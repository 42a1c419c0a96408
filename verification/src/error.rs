//! The failures that the trees report.

use vstd::prelude::*;

verus! {

/// Why an operation on a Merkle tree failed.
#[derive(Clone, Copy, Debug, PartialEq, Eq, Structural)]
pub enum MerkleError {
    /// A tree was to be built from no leaves.
    EmptyInput,
    /// The requested item is not among the leaves.
    ItemNotFound,
    /// A proof does not have one digest per level of the tree.
    MalformedProof,
}

/// What each failure is called in words.
pub open spec fn message_text(error: MerkleError) -> Seq<char> {
    match error {
        MerkleError::EmptyInput => "No leaves to build from"@,
        MerkleError::ItemNotFound => "Item not found"@,
        MerkleError::MalformedProof => "Malformed proof"@,
    }
}

impl MerkleError {
    /// The failure in words.
    pub fn message(&self) -> (out: String)
        ensures
            out@ == message_text(*self),
    {
        match self {
            MerkleError::EmptyInput => String::from_str("No leaves to build from"),
            MerkleError::ItemNotFound => String::from_str("Item not found"),
            MerkleError::MalformedProof => String::from_str("Malformed proof"),
        }
    }
}

} // verus!
