//! The levels of a Merkle tree: from the hashed leaves up to the root.
//!
//! Every level is a sequence of digests. The level above pairs them up from
//! the left and combines each pair; a last digest without a partner is
//! paired with itself.

use crate::error::MerkleError;
use crate::hasher::{combine, combine_digests, Hasher};
use vstd::prelude::*;

verus! {

/// Level 0: the digest of each leaf, in the order of the leaves.
pub open spec fn hash_leaves<H: Hasher>(h: &H, leaves: Seq<Seq<char>>) -> Seq<Seq<char>> {
    Seq::new(leaves.len(), |i: int| h.digest(leaves[i]))
}

/// The right member of pair `k` of `level`: the digest at `2k + 1`, or the
/// left one again where the level ends before it.
pub open spec fn right_of(level: Seq<Seq<char>>, k: int) -> Seq<char> {
    if 2 * k + 1 < level.len() {
        level[2 * k + 1]
    } else {
        level[2 * k]
    }
}

/// The level above `level`: one combined digest per pair.
pub open spec fn next_level<H: Hasher>(h: &H, level: Seq<Seq<char>>) -> Seq<Seq<char>> {
    Seq::new(
        ((level.len() + 1) / 2) as nat,
        |k: int| combine(h, level[2 * k], right_of(level, k)),
    )
}

/// What `level` collapses to when levels are built until one digest is left.
pub open spec fn reduce<H: Hasher>(h: &H, level: Seq<Seq<char>>) -> Seq<char>
    decreases level.len(),
{
    if level.len() <= 1 {
        level[0]
    } else {
        reduce(h, next_level(h, level))
    }
}

/// The root of the tree over `leaves`. The hashed leaves are paired at least
/// once, so a single leaf is combined with itself.
pub open spec fn merkle_root<H: Hasher>(h: &H, leaves: Seq<Seq<char>>) -> Seq<char> {
    reduce(h, next_level(h, hash_leaves(h, leaves)))
}

/// A tree over a single leaf has as its root the leaf's digest combined
/// with itself.
pub proof fn lemma_single_leaf_root<H: Hasher>(h: &H, leaf: Seq<char>)
    ensures
        merkle_root(h, seq![leaf]) == combine(h, h.digest(leaf), h.digest(leaf)),
{
    let level = hash_leaves(h, seq![leaf]);
    assert(next_level(h, level).len() == 1);
}

/// A tree over two leaves has as its root their two digests combined, the
/// first leaf's on the left.
pub proof fn lemma_two_leaves_root<H: Hasher>(h: &H, first: Seq<char>, second: Seq<char>)
    ensures
        merkle_root(h, seq![first, second]) == combine(h, h.digest(first), h.digest(second)),
{
    let level = hash_leaves(h, seq![first, second]);
    assert(next_level(h, level).len() == 1);
}

/// Hashes every leaf.
pub fn hash_all<H: Hasher>(h: &H, leaves: &[String]) -> (out: Vec<String>)
    ensures
        out.len() == leaves.len(),
        out.deep_view() == hash_leaves(h, leaves.deep_view()),
{
    let mut out: Vec<String> = Vec::new();
    let mut i: usize = 0;
    while i < leaves.len()
        invariant
            i <= leaves.len(),
            out.len() == i,
            forall|k: int| 0 <= k < i ==> out[k]@ == h.digest(#[trigger] leaves[k]@),
        decreases leaves.len() - i,
    {
        let digest = h.hash(leaves[i].as_str());
        out.push(digest);
        i += 1;
    }
    assert(out.deep_view() =~= hash_leaves(h, leaves.deep_view()));
    out
}

/// Builds the level above `level`.
pub fn build_next_level<H: Hasher>(h: &H, level: &Vec<String>) -> (up: Vec<String>)
    ensures
        up.len() == (level.len() + 1) / 2,
        up.deep_view() == next_level(h, level.deep_view()),
{
    let n: usize = level.len();
    let pairs: usize = n / 2 + n % 2;
    let mut up: Vec<String> = Vec::new();
    let mut k: usize = 0;
    while k < pairs
        invariant
            n == level.len(),
            pairs == (n + 1) / 2,
            k <= pairs,
            up.len() == k,
            forall|j: int|
                0 <= j < k ==> #[trigger] up[j]@ == combine(
                    h,
                    level[2 * j]@,
                    right_of(level.deep_view(), j),
                ),
        decreases pairs - k,
    {
        let left: usize = 2 * k;
        let right: usize = if left + 1 < n {
            left + 1
        } else {
            left
        };
        let parent = combine_digests(h, level[left].as_str(), level[right].as_str());
        up.push(parent);
        k += 1;
    }
    assert(up.deep_view() =~= next_level(h, level.deep_view()));
    up
}

/// Computes the root of the tree over `leaves`, which must not be empty.
pub fn build<H: Hasher>(h: &H, leaves: &[String]) -> (res: Result<String, MerkleError>)
    ensures
        leaves.len() == 0 ==> res == Err::<String, MerkleError>(MerkleError::EmptyInput),
        leaves.len() > 0 ==> res is Ok && res->Ok_0@ == merkle_root(h, leaves.deep_view()),
{
    if leaves.len() == 0 {
        return Err(MerkleError::EmptyInput);
    }
    let hashed = hash_all(h, leaves);
    let mut level = build_next_level(h, &hashed);
    while level.len() > 1
        invariant
            level.len() >= 1,
            reduce(h, level.deep_view()) == merkle_root(h, leaves.deep_view()),
        decreases level.len(),
    {
        level = build_next_level(h, &level);
    }
    let root = level.pop();
    Ok(root.unwrap())
}

} // verus!
