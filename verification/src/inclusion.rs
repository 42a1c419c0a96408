//! Inclusion proofs: the siblings met on the way from a leaf to the root,
//! and the climb that rebuilds the root from a leaf and such a path.
//!
//! A path lists one sibling digest per level, lowest level first. It does not
//! say on which side each sibling stands: that follows from the leaf's
//! index, halved at every level.

use crate::error::MerkleError;
use crate::hasher::{collision_free, combine, combine_digests, Hasher};
use crate::levels::{
    build_next_level, hash_all, hash_leaves, lemma_two_leaves_root, merkle_root, next_level, reduce,
    right_of,
};
use vstd::prelude::*;

verus! {

/// The digest paired with the one at `idx` in `level`: its right neighbour
/// for an even index (itself where the level ends there), its left
/// neighbour for an odd one.
pub open spec fn sibling(level: Seq<Seq<char>>, idx: int) -> Seq<char> {
    if idx % 2 == 0 {
        right_of(level, idx / 2)
    } else {
        level[idx - 1]
    }
}

/// The siblings met from position `idx` of `level` up to the root, where
/// levels are built until one digest is left.
pub open spec fn path_above<H: Hasher>(h: &H, level: Seq<Seq<char>>, idx: int) -> Seq<Seq<char>>
    decreases level.len(),
{
    if level.len() <= 1 {
        Seq::empty()
    } else {
        seq![sibling(level, idx)] + path_above(h, next_level(h, level), idx / 2)
    }
}

/// The inclusion proof of leaf `idx` in the tree over `leaves`. Its first
/// entry is the sibling among the hashed leaves, which a single leaf is to
/// itself.
pub open spec fn merkle_path<H: Hasher>(h: &H, leaves: Seq<Seq<char>>, idx: int) -> Seq<Seq<char>> {
    let level = hash_leaves(h, leaves);
    seq![sibling(level, idx)] + path_above(h, next_level(h, level), idx / 2)
}

/// One step up: `current` stands left of its sibling where `idx` is even,
/// right of it where `idx` is odd.
pub open spec fn step<H: Hasher>(h: &H, current: Seq<char>, idx: int, sib: Seq<char>) -> Seq<char> {
    if idx % 2 == 0 {
        combine(h, current, sib)
    } else {
        combine(h, sib, current)
    }
}

/// The digest reached from `current` at position `idx` by stepping up once
/// for every entry of `path`, halving the index each time.
pub open spec fn climb<H: Hasher>(h: &H, current: Seq<char>, idx: int, path: Seq<Seq<char>>) -> Seq<
    char,
>
    decreases path.len(),
{
    if path.len() == 0 {
        current
    } else {
        climb(h, step(h, current, idx, path[0]), idx / 2, path.drop_first())
    }
}

/// The number of levels that are built over a level of `width` digests
/// until one digest is left.
pub open spec fn levels_above(width: nat) -> nat
    decreases width,
{
    if width <= 1 {
        0
    } else {
        1 + levels_above((width + 1) / 2)
    }
}

/// The number of digests in an inclusion proof for a tree of `n` leaves.
pub open spec fn path_length(n: nat) -> nat {
    1 + levels_above((n + 1) / 2)
}

/// Stepping up from a position of `level` with its sibling gives the digest
/// above it in the next level.
pub proof fn lemma_step_reaches_parent<H: Hasher>(h: &H, level: Seq<Seq<char>>, idx: int)
    requires
        0 <= idx < level.len(),
    ensures
        idx / 2 < next_level(h, level).len(),
        step(h, level[idx], idx, sibling(level, idx)) == next_level(h, level)[idx / 2],
{
}

/// Climbing from any position of `level` along its path ends at the digest
/// that the level collapses to.
pub proof fn lemma_climb_path_above<H: Hasher>(h: &H, level: Seq<Seq<char>>, idx: int)
    requires
        0 <= idx < level.len(),
    ensures
        climb(h, level[idx], idx, path_above(h, level, idx)) == reduce(h, level),
    decreases level.len(),
{
    if level.len() > 1 {
        let up = next_level(h, level);
        let path = path_above(h, level, idx);
        lemma_step_reaches_parent(h, level, idx);
        assert(path.drop_first() =~= path_above(h, up, idx / 2));
        lemma_climb_path_above(h, up, idx / 2);
    }
}

/// For every leaf of a tree, climbing from the leaf's digest
/// along the leaf's inclusion proof ends at the root of the tree.
pub proof fn lemma_path_leads_to_root<H: Hasher>(h: &H, leaves: Seq<Seq<char>>, idx: int)
    requires
        0 <= idx < leaves.len(),
    ensures
        climb(h, h.digest(leaves[idx]), idx, merkle_path(h, leaves, idx)) == merkle_root(
            h,
            leaves,
        ),
{
    let level = hash_leaves(h, leaves);
    let up = next_level(h, level);
    let path = merkle_path(h, leaves, idx);
    lemma_step_reaches_parent(h, level, idx);
    assert(path.drop_first() =~= path_above(h, up, idx / 2));
    lemma_climb_path_above(h, up, idx / 2);
}

/// The path from a position of `level` has one entry per level built above.
pub proof fn lemma_path_above_len<H: Hasher>(h: &H, level: Seq<Seq<char>>, idx: int)
    ensures
        path_above(h, level, idx).len() == levels_above(level.len()),
    decreases level.len(),
{
    if level.len() > 1 {
        lemma_path_above_len(h, next_level(h, level), idx / 2);
    }
}

/// Every inclusion proof of a tree of `n` leaves has `path_length(n)`
/// entries, whichever leaf it is for.
pub proof fn lemma_merkle_path_len<H: Hasher>(h: &H, leaves: Seq<Seq<char>>, idx: int)
    ensures
        merkle_path(h, leaves, idx).len() == path_length(leaves.len()),
{
    lemma_path_above_len(h, next_level(h, hash_leaves(h, leaves)), idx / 2);
}

/// Fewer levels are built over a level than it has digests.
pub proof fn lemma_levels_above_bound(width: nat)
    requires
        width >= 1,
    ensures
        levels_above(width) < width,
    decreases width,
{
    if width > 1 {
        lemma_levels_above_bound((width + 1) / 2);
    }
}

/// An inclusion proof for `n` leaves has at least one digest and at most
/// half of `n`, rounded up.
pub proof fn lemma_path_length_bound(n: nat)
    requires
        n >= 1,
    ensures
        1 <= path_length(n) <= (n + 1) / 2,
{
    lemma_levels_above_bound((n + 1) / 2);
}

/// Two texts that differ still differ with the same text put after them,
/// and with the same text put before them.
pub proof fn lemma_joined_texts_differ(a: Seq<char>, b: Seq<char>, other: Seq<char>)
    requires
        a != b,
    ensures
        a + other != b + other,
        other + a != other + b,
{
    if a + other == b + other {
        assert((a + other).len() == (b + other).len());
        assert((a + other).subrange(0, a.len() as int) =~= a);
        assert((b + other).subrange(0, b.len() as int) =~= b);
        assert(false);
    }
    if other + a == other + b {
        assert((other + a).subrange(other.len() as int, (other + a).len() as int) =~= a);
        assert((other + b).subrange(other.len() as int, (other + b).len() as int) =~= b);
        assert(false);
    }
}

/// With a hasher free of collisions, climbs that start from different
/// digests along the same path end at different digests.
pub proof fn lemma_climb_keeps_apart<H: Hasher>(
    h: &H,
    a: Seq<char>,
    b: Seq<char>,
    idx: int,
    path: Seq<Seq<char>>,
)
    requires
        collision_free(h),
        a != b,
    ensures
        climb(h, a, idx, path) != climb(h, b, idx, path),
    decreases path.len(),
{
    if path.len() > 0 {
        lemma_joined_texts_differ(a, b, path[0]);
        lemma_climb_keeps_apart(
            h,
            step(h, a, idx, path[0]),
            step(h, b, idx, path[0]),
            idx / 2,
            path.drop_first(),
        );
    }
}

/// With a hasher free of collisions, replacing one digest of a path by
/// another one changes the digest that the climb ends at.
pub proof fn lemma_replaced_digest_changes_climb<H: Hasher>(
    h: &H,
    start: Seq<char>,
    idx: int,
    path: Seq<Seq<char>>,
    k: int,
    digest: Seq<char>,
)
    requires
        collision_free(h),
        0 <= k < path.len(),
        digest != path[k],
    ensures
        climb(h, start, idx, path.update(k, digest)) != climb(h, start, idx, path),
    decreases path.len(),
{
    let changed = path.update(k, digest);
    if k == 0 {
        assert(changed.drop_first() =~= path.drop_first());
        lemma_joined_texts_differ(digest, path[0], start);
        lemma_climb_keeps_apart(
            h,
            step(h, start, idx, digest),
            step(h, start, idx, path[0]),
            idx / 2,
            path.drop_first(),
        );
    } else {
        assert(changed.drop_first() =~= path.drop_first().update(k - 1, digest));
        lemma_replaced_digest_changes_climb(
            h,
            step(h, start, idx, path[0]),
            idx / 2,
            path.drop_first(),
            k - 1,
            digest,
        );
    }
}

/// With a hasher free of collisions, a proof that leads
/// from a leaf to `root` no longer does so once any single digest in it is
/// replaced by a different one.
pub proof fn lemma_perturbed_proof_fails<H: Hasher>(
    h: &H,
    leaf: Seq<char>,
    idx: int,
    path: Seq<Seq<char>>,
    root: Seq<char>,
    k: int,
    digest: Seq<char>,
)
    requires
        collision_free(h),
        climb(h, h.digest(leaf), idx, path) == root,
        0 <= k < path.len(),
        digest != path[k],
    ensures
        climb(h, h.digest(leaf), idx, path.update(k, digest)) != root,
{
    lemma_replaced_digest_changes_climb(h, h.digest(leaf), idx, path, k, digest);
}

/// With a hasher free of collisions, two different
/// leaves whose digests are equally long give different roots in their two
/// orders.
pub proof fn lemma_order_changes_root<H: Hasher>(h: &H, first: Seq<char>, second: Seq<char>)
    requires
        collision_free(h),
        first != second,
        h.digest(first).len() == h.digest(second).len(),
    ensures
        merkle_root(h, seq![first, second]) != merkle_root(h, seq![second, first]),
{
    let a = h.digest(first);
    let b = h.digest(second);
    lemma_two_leaves_root(h, first, second);
    lemma_two_leaves_root(h, second, first);
    if a + b == b + a {
        assert((a + b).subrange(0, a.len() as int) =~= a);
        assert((b + a).subrange(0, b.len() as int) =~= b);
        assert(false);
    }
}

/// Clones the sibling of position `idx` out of `level`.
pub fn sibling_of(level: &Vec<String>, idx: usize) -> (out: String)
    requires
        idx < level.len(),
    ensures
        out@ == sibling(level.deep_view(), idx as int),
{
    if idx % 2 == 0 {
        if idx + 1 < level.len() {
            level[idx + 1].clone()
        } else {
            level[idx].clone()
        }
    } else {
        level[idx - 1].clone()
    }
}

/// Computes the inclusion proof of the leaf at `target_index`: the sibling
/// at every level, lowest level first. An index past the last leaf is
/// answered with `ItemNotFound`.
pub fn generate_proof<H: Hasher>(h: &H, leaves: &[String], target_index: usize) -> (res: Result<
    Vec<String>,
    MerkleError,
>)
    ensures
        target_index >= leaves.len() ==> res == Err::<Vec<String>, MerkleError>(
            MerkleError::ItemNotFound,
        ),
        target_index < leaves.len() ==> res is Ok && res->Ok_0.deep_view() == merkle_path(
            h,
            leaves.deep_view(),
            target_index as int,
        ),
{
    if target_index >= leaves.len() {
        return Err(MerkleError::ItemNotFound);
    }
    let hashed = hash_all(h, leaves);
    let mut proof: Vec<String> = Vec::new();
    proof.push(sibling_of(&hashed, target_index));
    let mut level = build_next_level(h, &hashed);
    let mut idx: usize = target_index / 2;
    assert(proof.deep_view() =~= seq![sibling(hashed.deep_view(), target_index as int)]);
    while level.len() > 1
        invariant
            idx < level.len(),
            proof.deep_view() + path_above(h, level.deep_view(), idx as int) == merkle_path(
                h,
                leaves.deep_view(),
                target_index as int,
            ),
        decreases level.len(),
    {
        let ghost before = proof.deep_view();
        let ghost below = level.deep_view();
        let ghost at = idx as int;
        proof.push(sibling_of(&level, idx));
        level = build_next_level(h, &level);
        idx = idx / 2;
        proof {
            let rest = path_above(h, level.deep_view(), idx as int);
            assert(proof.deep_view() =~= before + seq![sibling(below, at)]);
            assert(proof.deep_view() + rest =~= before + path_above(h, below, at));
        }
    }
    assert(proof.deep_view() + Seq::<Seq<char>>::empty() =~= proof.deep_view());
    Ok(proof)
}

/// Checks an inclusion proof: climbs from the digest of `leaf_value` at
/// position `leaf_index` along `proof` and compares what is reached with
/// `expected_root`.
pub fn verify_proof<H: Hasher>(
    h: &H,
    proof: &Vec<String>,
    leaf_value: &str,
    leaf_index: usize,
    expected_root: &str,
) -> (valid: bool)
    ensures
        valid == (climb(h, h.digest(leaf_value@), leaf_index as int, proof.deep_view())
            == expected_root@),
{
    let mut current = h.hash(leaf_value);
    let mut idx: usize = leaf_index;
    let mut i: usize = 0;
    assert(proof.deep_view().skip(0) =~= proof.deep_view());
    while i < proof.len()
        invariant
            i <= proof.len(),
            climb(h, current@, idx as int, proof.deep_view().skip(i as int)) == climb(
                h,
                h.digest(leaf_value@),
                leaf_index as int,
                proof.deep_view(),
            ),
        decreases proof.len() - i,
    {
        let ghost rest = proof.deep_view().skip(i as int);
        assert(rest.drop_first() =~= proof.deep_view().skip(i + 1));
        assert(rest[0] == proof[i as int]@);
        current = if idx % 2 == 0 {
            combine_digests(h, current.as_str(), proof[i].as_str())
        } else {
            combine_digests(h, proof[i].as_str(), current.as_str())
        };
        idx = idx / 2;
        i += 1;
    }
    let expected = String::from_str(expected_root);
    current == expected
}

/// Computes the number of digests in an inclusion proof for `n` leaves.
pub fn proof_length(n: usize) -> (len: usize)
    ensures
        len == path_length(n as nat),
{
    let mut len: usize = 1;
    let mut width: usize = n / 2 + n % 2;
    while width > 1
        invariant
            len + levels_above(width as nat) == path_length(n as nat),
            len + width <= n + 1,
        decreases width,
    {
        len += 1;
        width = width / 2 + width % 2;
    }
    len
}

} // verus!
