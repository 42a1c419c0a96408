//! A Merkle tree that keeps its leaves and its root, and rebuilds every
//! level from the leaves whenever it needs one.

use crate::error::MerkleError;
use crate::hasher::Hasher;
use crate::inclusion::{
    climb, generate_proof, lemma_merkle_path_len, lemma_path_leads_to_root, merkle_path,
    path_length, proof_length, verify_proof,
};
use crate::levels::{build, merkle_root};
use vstd::prelude::*;

verus! {

/// Whether `i` is the first position at which `item` stands in `leaves`.
pub open spec fn is_first_position(leaves: Seq<Seq<char>>, item: Seq<char>, i: int) -> bool {
    &&& 0 <= i < leaves.len()
    &&& leaves[i] == item
    &&& forall|j: int| 0 <= j < i ==> leaves[j] != item
}

/// The first position at which `item` stands in `leaves`, where it stands
/// there at all.
pub open spec fn first_position(leaves: Seq<Seq<char>>, item: Seq<char>) -> int {
    choose|i: int| is_first_position(leaves, item, i)
}

/// A first position is the only one.
pub proof fn lemma_first_position_unique(leaves: Seq<Seq<char>>, item: Seq<char>, i: int)
    requires
        is_first_position(leaves, item, i),
    ensures
        first_position(leaves, item) == i,
{
    let j = first_position(leaves, item);
    assert(is_first_position(leaves, item, j));
}

/// The leaves of a Merkle tree, its root, and the hasher it was built with.
pub struct MerkleTreeVec<'a, H: Hasher> {
    /// The root commitment.
    pub root: String,
    /// The leaves, in their order.
    pub initial_leaves: Vec<String>,
    /// The hasher that the tree was built with.
    pub hash_fn: &'a H,
}

/// Two well-formed trees over the same leaves, built with the same hasher,
/// have the same root.
pub proof fn lemma_same_leaves_same_root<H: Hasher>(a: MerkleTreeVec<H>, b: MerkleTreeVec<H>)
    requires
        a.wf(),
        b.wf(),
        a.hash_fn == b.hash_fn,
        a.leaves() == b.leaves(),
    ensures
        a.root@ == b.root@,
{
}

/// In a well-formed tree, the inclusion proof of any item among
/// the leaves has one digest per level, and the climb along it from the
/// item's digest, at the item's first position, ends at the tree's root.
pub proof fn lemma_own_proof_verifies<H: Hasher>(tree: MerkleTreeVec<H>, item: Seq<char>)
    requires
        tree.wf(),
        tree.leaves().contains(item),
    ensures
        merkle_path(tree.hash_fn, tree.leaves(), first_position(tree.leaves(), item)).len()
            == path_length(tree.initial_leaves.len() as nat),
        climb(
            tree.hash_fn,
            tree.hash_fn.digest(item),
            first_position(tree.leaves(), item),
            merkle_path(tree.hash_fn, tree.leaves(), first_position(tree.leaves(), item)),
        ) == tree.root@,
{
    let leaves = tree.leaves();
    let at = choose|i: int| 0 <= i < leaves.len() && leaves[i] == item;
    lemma_first_position_exists(leaves, item, at);
    let first = first_position(leaves, item);
    lemma_merkle_path_len(tree.hash_fn, leaves, first);
    lemma_path_leads_to_root(tree.hash_fn, leaves, first);
}

/// An item that stands at some position has a first position.
pub proof fn lemma_first_position_exists(leaves: Seq<Seq<char>>, item: Seq<char>, at: int)
    requires
        0 <= at < leaves.len(),
        leaves[at] == item,
    ensures
        is_first_position(leaves, item, first_position(leaves, item)),
        first_position(leaves, item) <= at,
    decreases at,
{
    if exists|j: int| 0 <= j < at && leaves[j] == item {
        let j = choose|j: int| 0 <= j < at && leaves[j] == item;
        lemma_first_position_exists(leaves, item, j);
    } else {
        assert(is_first_position(leaves, item, at));
        lemma_first_position_unique(leaves, item, at);
    }
}

/// Copies a slice of leaves into a vector.
pub fn clone_leaves(leaves: &[String]) -> (out: Vec<String>)
    ensures
        out@ == leaves@,
{
    let mut out: Vec<String> = Vec::new();
    let mut i: usize = 0;
    while i < leaves.len()
        invariant
            i <= leaves.len(),
            out@ == leaves@.subrange(0, i as int),
        decreases leaves.len() - i,
    {
        out.push(leaves[i].clone());
        i += 1;
        assert(out@ =~= leaves@.subrange(0, i as int));
    }
    assert(out@ =~= leaves@);
    out
}

impl<'a, H: Hasher> MerkleTreeVec<'a, H> {
    /// The leaves as texts.
    pub open spec fn leaves(&self) -> Seq<Seq<char>> {
        self.initial_leaves.deep_view()
    }

    /// A tree is well formed when it has a leaf and its root is the root of
    /// the tree over its leaves.
    pub open spec fn wf(&self) -> bool {
        &&& self.initial_leaves.len() > 0
        &&& self.root@ == merkle_root(self.hash_fn, self.leaves())
    }

    /// Builds the tree over `initial_leaves`. There must be at least one.
    pub fn new(initial_leaves: &[String], hash_fn: &'a H) -> (res: Result<Self, MerkleError>)
        ensures
            initial_leaves.len() == 0 ==> res is Err && res->Err_0 == MerkleError::EmptyInput,
            initial_leaves.len() > 0 ==> res is Ok && res->Ok_0.wf() && res->Ok_0.hash_fn
                == hash_fn && res->Ok_0.initial_leaves@ == initial_leaves@,
    {
        match build(hash_fn, initial_leaves) {
            Ok(root) => {
                let kept = clone_leaves(initial_leaves);
                assert(kept.deep_view() =~= initial_leaves.deep_view());
                Ok(MerkleTreeVec { root, initial_leaves: kept, hash_fn })
            },
            Err(e) => Err(e),
        }
    }

    /// Moves `new_leaves` behind the leaves of the tree and rebuilds it from
    /// all of them. Fails, and changes nothing, where that leaves no leaf.
    pub fn push_to_initial(&mut self, new_leaves: &mut Vec<String>) -> (res: Result<
        (),
        MerkleError,
    >)
        ensures
            final(self).hash_fn == old(self).hash_fn,
            final(new_leaves)@.len() == 0,
            old(self).initial_leaves.len() + old(new_leaves).len() > 0 ==> {
                &&& res is Ok
                &&& final(self).wf()
                &&& final(self).initial_leaves@ == old(self).initial_leaves@ + old(new_leaves)@
            },
            old(self).initial_leaves.len() + old(new_leaves).len() == 0 ==> {
                &&& res is Err
                &&& res->Err_0 == MerkleError::EmptyInput
                &&& *final(self) == *old(self)
            },
    {
        let mut all = clone_leaves(self.initial_leaves.as_slice());
        all.append(new_leaves);
        match MerkleTreeVec::new(all.as_slice(), self.hash_fn) {
            Ok(tree) => {
                *self = tree;
                Ok(())
            },
            Err(e) => Err(e),
        }
    }

    /// Finds the first position of `item` among the leaves.
    pub fn get_index(&self, item: &str) -> (res: Result<usize, MerkleError>)
        ensures
            match res {
                Ok(i) => is_first_position(self.leaves(), item@, i as int),
                Err(e) => e == MerkleError::ItemNotFound && !self.leaves().contains(item@),
            },
    {
        let needle = String::from_str(item);
        let mut i: usize = 0;
        while i < self.initial_leaves.len()
            invariant
                i <= self.initial_leaves.len(),
                needle@ == item@,
                forall|j: int| 0 <= j < i ==> self.leaves()[j] != item@,
            decreases self.initial_leaves.len() - i,
        {
            assert(self.leaves()[i as int] == self.initial_leaves[i as int]@);
            if self.initial_leaves[i] == needle {
                return Ok(i);
            }
            i += 1;
        }
        Err(MerkleError::ItemNotFound)
    }

    /// Computes the inclusion proof of the first leaf equal to `item`.
    pub fn get_proof(&self, item: &str) -> (res: Result<Vec<String>, MerkleError>)
        ensures
            match res {
                Ok(proof) => self.leaves().contains(item@) && proof.deep_view() == merkle_path(
                    self.hash_fn,
                    self.leaves(),
                    first_position(self.leaves(), item@),
                ),
                Err(e) => e == MerkleError::ItemNotFound && !self.leaves().contains(item@),
            },
    {
        match self.get_index(item) {
            Ok(index) => {
                proof {
                    lemma_first_position_unique(self.leaves(), item@, index as int);
                }
                generate_proof(self.hash_fn, self.initial_leaves.as_slice(), index)
            },
            Err(e) => Err(e),
        }
    }

    /// Checks `proof` as an inclusion proof of the first leaf equal to
    /// `item` against the root of the tree. A proof that does not have one
    /// digest per level is refused as malformed.
    pub fn verify(&self, proof: Vec<String>, item: &str) -> (res: Result<bool, MerkleError>)
        ensures
            match res {
                Ok(valid) => {
                    &&& self.leaves().contains(item@)
                    &&& proof.len() == path_length(self.initial_leaves.len() as nat)
                    &&& valid == (climb(
                        self.hash_fn,
                        self.hash_fn.digest(item@),
                        first_position(self.leaves(), item@),
                        proof.deep_view(),
                    ) == self.root@)
                },
                Err(e) => {
                    ||| e == MerkleError::ItemNotFound && !self.leaves().contains(item@)
                    ||| e == MerkleError::MalformedProof && self.leaves().contains(item@)
                        && proof.len() != path_length(self.initial_leaves.len() as nat)
                },
            },
    {
        match self.get_index(item) {
            Ok(index) => {
                proof {
                    lemma_first_position_unique(self.leaves(), item@, index as int);
                }
                if proof.len() != proof_length(self.initial_leaves.len()) {
                    return Err(MerkleError::MalformedProof);
                }
                Ok(verify_proof(self.hash_fn, &proof, item, index, self.root.as_str()))
            },
            Err(e) => Err(e),
        }
    }
}

} // verus!
