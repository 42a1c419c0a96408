//! A Merkle tree kept as linked nodes: every node holds its digest and,
//! above the hashed leaves, the two nodes it was combined from.

use crate::error::MerkleError;
use crate::hasher::{combine, combine_digests, Hasher, Keccak256};
use crate::inclusion::{lemma_path_length_bound, levels_above, path_length};
use crate::levels::{hash_all, hash_leaves, merkle_root, next_level, reduce};
use crate::text::{dir_name, dir_text, first_chars, indent, indentation, prefix, Dir};
use vstd::prelude::*;

verus! {

/// A node of the tree: a digest and up to two children.
#[derive(Debug)]
pub struct Node {
    /// The digest of this node.
    pub hash: String,
    /// The left child, absent in a hashed leaf.
    pub left_node: Option<Box<Node>>,
    /// The right child, absent in a hashed leaf.
    pub right_node: Option<Box<Node>>,
}

/// What a node is to the contracts: its digest as a text, over the same
/// shape.
pub struct NodeView {
    pub hash: Seq<char>,
    pub left: Option<Box<NodeView>>,
    pub right: Option<Box<NodeView>>,
}

/// The view of a node, child by child.
pub open spec fn view_of(node: Node) -> NodeView
    decreases node,
{
    NodeView {
        hash: node.hash@,
        left: match node.left_node {
            Some(child) => Some(Box::new(view_of(*child))),
            None => None,
        },
        right: match node.right_node {
            Some(child) => Some(Box::new(view_of(*child))),
            None => None,
        },
    }
}

impl View for Node {
    type V = NodeView;

    open spec fn view(&self) -> NodeView {
        view_of(*self)
    }
}

impl Clone for Node {
    fn clone(&self) -> (out: Self)
        ensures
            out@ == self@,
        decreases self,
    {
        let left = match &self.left_node {
            Some(child) => Some(Box::new((**child).clone())),
            None => None,
        };
        let right = match &self.right_node {
            Some(child) => Some(Box::new((**child).clone())),
            None => None,
        };
        Node { hash: self.hash.clone(), left_node: left, right_node: right }
    }
}

/// A Merkle tree over Keccak-256 digests, held by its root node.
#[derive(Debug)]
pub struct MerkleTree {
    /// The root node; `None` only in a tree that was not built.
    pub root: Option<Box<Node>>,
}

/// The node of a hashed leaf: a digest without children.
pub open spec fn leaf_node(hash: Seq<char>) -> NodeView {
    NodeView { hash, left: None, right: None }
}

/// The parent of two nodes: their digests combined, over the two of them.
pub open spec fn parent_node<H: Hasher>(h: &H, left: NodeView, right: NodeView) -> NodeView {
    NodeView {
        hash: combine(h, left.hash, right.hash),
        left: Some(Box::new(left)),
        right: Some(Box::new(right)),
    }
}

/// The nodes of the hashed leaves, in the order of the leaves.
pub open spec fn leaf_nodes<H: Hasher>(h: &H, leaves: Seq<Seq<char>>) -> Seq<NodeView> {
    Seq::new(leaves.len(), |i: int| leaf_node(h.digest(leaves[i])))
}

/// The right member of pair `k` of a level of nodes: the node at `2k + 1`,
/// or the left one again where the level ends before it.
pub open spec fn right_node_of(level: Seq<NodeView>, k: int) -> NodeView {
    if 2 * k + 1 < level.len() {
        level[2 * k + 1]
    } else {
        level[2 * k]
    }
}

/// The level of nodes above `level`: one parent per pair.
pub open spec fn next_nodes<H: Hasher>(h: &H, level: Seq<NodeView>) -> Seq<NodeView> {
    Seq::new(
        ((level.len() + 1) / 2) as nat,
        |k: int| parent_node(h, level[2 * k], right_node_of(level, k)),
    )
}

/// The node that `level` collapses to when levels are built until one node
/// is left.
pub open spec fn reduce_nodes<H: Hasher>(h: &H, level: Seq<NodeView>) -> NodeView
    decreases level.len(),
{
    if level.len() <= 1 {
        level[0]
    } else {
        reduce_nodes(h, next_nodes(h, level))
    }
}

/// The root node of the tree over `leaves`. The nodes of the hashed leaves
/// are paired at least once.
pub open spec fn merkle_nodes<H: Hasher>(h: &H, leaves: Seq<Seq<char>>) -> NodeView {
    reduce_nodes(h, next_nodes(h, leaf_nodes(h, leaves)))
}

/// The views of a sequence of nodes.
pub open spec fn node_views(nodes: Seq<Node>) -> Seq<NodeView> {
    Seq::new(nodes.len(), |i: int| nodes[i]@)
}

/// The digests of a level of nodes.
pub open spec fn node_hashes(level: Seq<NodeView>) -> Seq<Seq<char>> {
    Seq::new(level.len(), |i: int| level[i].hash)
}

/// Whether every node with children has two of them and holds their
/// digests combined.
pub open spec fn is_hash_tree<H: Hasher>(h: &H, node: NodeView) -> bool
    decreases node,
{
    match (node.left, node.right) {
        (None, None) => true,
        (Some(left), Some(right)) => {
            &&& node.hash == combine(h, left.hash, right.hash)
            &&& is_hash_tree(h, *left)
            &&& is_hash_tree(h, *right)
        },
        _ => false,
    }
}

/// The number of nodes on the longest way down from `node`, itself counted.
pub open spec fn depth(node: NodeView) -> nat
    decreases node,
{
    let left = match node.left {
        Some(child) => depth(*child),
        None => 0,
    };
    let right = match node.right {
        Some(child) => depth(*child),
        None => 0,
    };
    if left >= right {
        1 + left
    } else {
        1 + right
    }
}

/// The line of a node itself: its direction and the first five characters
/// of its digest.
pub open spec fn own_text(hash: Seq<char>, level: nat, dir: Dir) -> Seq<char> {
    indent(level) + " "@ + dir_text(dir) + "- "@ + prefix(hash, 5) + "\n"@
}

/// The line of a missing child of a node at `level`.
pub open spec fn missing_text(level: nat, dir: Dir) -> Seq<char> {
    indent(level + 1) + dir_text(dir) + "- None\n"@
}

/// The lines of a node at `level` and of everything below it: the node's
/// own line, then its left side, then its right side.
pub open spec fn node_text(node: NodeView, level: nat, dir: Dir) -> Seq<char>
    decreases node,
{
    own_text(node.hash, level, dir) + side_text(node.left, level, Dir::Left) + side_text(
        node.right,
        level,
        Dir::Right,
    )
}

/// The lines of one side of a node at `level`: those of the child there,
/// or the line of a missing child.
pub open spec fn side_text(link: Option<Box<NodeView>>, level: nat, dir: Dir) -> Seq<char>
    decreases link,
{
    match link {
        Some(child) => node_text(*child, level + 1, dir),
        None => missing_text(level, dir),
    }
}

/// The text of a tree: a heading and the lines of its nodes, or a note
/// that it is empty.
pub open spec fn tree_text(root: Option<NodeView>) -> Seq<char> {
    match root {
        Some(node) => "Merkle Tree:\n"@ + node_text(node, 0, Dir::Root),
        None => "Empty Merkle Tree"@,
    }
}

/// The digests of the level above a level of nodes are the level above
/// that level's digests.
pub proof fn lemma_next_nodes_hashes<H: Hasher>(h: &H, level: Seq<NodeView>)
    ensures
        node_hashes(next_nodes(h, level)) == next_level(h, node_hashes(level)),
{
    assert(node_hashes(next_nodes(h, level)) =~= next_level(h, node_hashes(level)));
}

/// The node that a level of nodes collapses to holds the digest that the
/// level's digests collapse to.
pub proof fn lemma_reduce_nodes_hash<H: Hasher>(h: &H, level: Seq<NodeView>)
    requires
        level.len() > 0,
    ensures
        reduce_nodes(h, level).hash == reduce(h, node_hashes(level)),
    decreases level.len(),
{
    if level.len() > 1 {
        lemma_next_nodes_hashes(h, level);
        lemma_reduce_nodes_hash(h, next_nodes(h, level));
    }
}

/// The root node of the tree over `leaves` holds the root of the tree over
/// `leaves`.
pub proof fn lemma_root_node_holds_root<H: Hasher>(h: &H, leaves: Seq<Seq<char>>)
    requires
        leaves.len() > 0,
    ensures
        merkle_nodes(h, leaves).hash == merkle_root(h, leaves),
{
    let bottom = leaf_nodes(h, leaves);
    assert(node_hashes(bottom) =~= hash_leaves(h, leaves));
    lemma_next_nodes_hashes(h, bottom);
    lemma_reduce_nodes_hash(h, next_nodes(h, bottom));
}

/// A level of hash trees collapses to a hash tree.
pub proof fn lemma_reduce_nodes_is_hash_tree<H: Hasher>(h: &H, level: Seq<NodeView>)
    requires
        level.len() > 0,
        forall|i: int| 0 <= i < level.len() ==> is_hash_tree(h, #[trigger] level[i]),
    ensures
        is_hash_tree(h, reduce_nodes(h, level)),
    decreases level.len(),
{
    if level.len() > 1 {
        let up = next_nodes(h, level);
        assert forall|k: int| 0 <= k < up.len() implies is_hash_tree(h, #[trigger] up[k]) by {
            assert(is_hash_tree(h, level[2 * k]));
            assert(is_hash_tree(h, right_node_of(level, k)));
        }
        lemma_reduce_nodes_is_hash_tree(h, up);
    }
}

/// In the tree over `leaves`, every node with children has two and holds
/// their digests combined.
pub proof fn lemma_merkle_nodes_is_hash_tree<H: Hasher>(h: &H, leaves: Seq<Seq<char>>)
    requires
        leaves.len() > 0,
    ensures
        is_hash_tree(h, merkle_nodes(h, leaves)),
{
    let bottom = leaf_nodes(h, leaves);
    let up = next_nodes(h, bottom);
    assert forall|k: int| 0 <= k < up.len() implies is_hash_tree(h, #[trigger] up[k]) by {
        assert(is_hash_tree(h, bottom[2 * k]));
        assert(is_hash_tree(h, right_node_of(bottom, k)));
    }
    lemma_reduce_nodes_is_hash_tree(h, up);
}

/// A level of nodes that are all `d` deep collapses to a node that is
/// deeper by the number of levels built.
pub proof fn lemma_reduce_nodes_depth<H: Hasher>(h: &H, level: Seq<NodeView>, d: nat)
    requires
        level.len() > 0,
        forall|i: int| 0 <= i < level.len() ==> depth(#[trigger] level[i]) == d,
    ensures
        depth(reduce_nodes(h, level)) == d + levels_above(level.len()),
    decreases level.len(),
{
    if level.len() > 1 {
        let up = next_nodes(h, level);
        assert forall|k: int| 0 <= k < up.len() implies depth(#[trigger] up[k]) == d + 1 by {
            assert(depth(level[2 * k]) == d);
            assert(depth(right_node_of(level, k)) == d);
        }
        lemma_reduce_nodes_depth(h, up, d + 1);
    }
}

/// The tree over `n` leaves is one node deeper than its inclusion proofs
/// are long, which is no deeper than `n` where it has three leaves or more.
pub proof fn lemma_merkle_nodes_depth<H: Hasher>(h: &H, leaves: Seq<Seq<char>>)
    requires
        leaves.len() > 0,
    ensures
        depth(merkle_nodes(h, leaves)) == 1 + path_length(leaves.len()),
        depth(merkle_nodes(h, leaves)) <= leaves.len() + 1,
        leaves.len() >= 3 ==> depth(merkle_nodes(h, leaves)) <= leaves.len(),
{
    let bottom = leaf_nodes(h, leaves);
    let up = next_nodes(h, bottom);
    assert forall|k: int| 0 <= k < up.len() implies depth(#[trigger] up[k]) == 2 by {
        assert(depth(bottom[2 * k]) == 1);
        assert(depth(right_node_of(bottom, k)) == 1);
    }
    lemma_reduce_nodes_depth(h, up, 2);
    lemma_path_length_bound(leaves.len());
}

/// Makes the node of every hashed leaf.
pub fn make_leaf_nodes(hashed: &Vec<String>) -> (nodes: Vec<Node>)
    ensures
        nodes.len() == hashed.len(),
        node_views(nodes@) == Seq::new(hashed.len() as nat, |i: int| leaf_node(hashed[i]@)),
{
    let mut nodes: Vec<Node> = Vec::new();
    let mut i: usize = 0;
    while i < hashed.len()
        invariant
            i <= hashed.len(),
            nodes.len() == i,
            forall|j: int| 0 <= j < i ==> (#[trigger] nodes[j])@ == leaf_node(hashed[j]@),
        decreases hashed.len() - i,
    {
        nodes.push(Node { hash: hashed[i].clone(), left_node: None, right_node: None });
        i += 1;
    }
    assert(node_views(nodes@) =~= Seq::new(hashed.len() as nat, |i: int| leaf_node(hashed[i]@)));
    nodes
}

/// Builds the level of nodes above `level`: each parent holds copies of the
/// two nodes of its pair.
pub fn join_nodes<H: Hasher>(h: &H, level: &Vec<Node>) -> (up: Vec<Node>)
    ensures
        up.len() == (level.len() + 1) / 2,
        node_views(up@) == next_nodes(h, node_views(level@)),
{
    let n: usize = level.len();
    let pairs: usize = n / 2 + n % 2;
    let mut up: Vec<Node> = Vec::new();
    let mut k: usize = 0;
    while k < pairs
        invariant
            n == level.len(),
            pairs == (n + 1) / 2,
            k <= pairs,
            up.len() == k,
            forall|j: int|
                0 <= j < k ==> (#[trigger] up[j])@ == parent_node(
                    h,
                    level[2 * j]@,
                    right_node_of(node_views(level@), j),
                ),
        decreases pairs - k,
    {
        let left: usize = 2 * k;
        let right: usize = if left + 1 < n {
            left + 1
        } else {
            left
        };
        let hash = combine_digests(h, level[left].hash.as_str(), level[right].hash.as_str());
        let parent = Node {
            hash,
            left_node: Some(Box::new(level[left].clone())),
            right_node: Some(Box::new(level[right].clone())),
        };
        up.push(parent);
        k += 1;
    }
    assert(node_views(up@) =~= next_nodes(h, node_views(level@)));
    up
}

impl MerkleTree {
    /// The root node as the contracts see it.
    pub open spec fn root_view(&self) -> Option<NodeView> {
        match self.root {
            Some(node) => Some(node@),
            None => None,
        }
    }

    /// Appends the line of a missing child of a node at `level`.
    fn print_missing(out: &mut String, level: usize, dir: Dir)
        requires
            level < usize::MAX,
        ensures
            final(out)@ == old(out)@ + missing_text(level as nat, dir),
    {
        let pad = indentation(level + 1);
        out.append(pad.as_str());
        out.append(dir_name(dir));
        out.append("- None\n");
        assert(out@ =~= old(out)@ + missing_text(level as nat, dir));
    }

    /// Appends the lines of `node`, which stands at `level`, and of
    /// everything below it.
    pub fn print_node(out: &mut String, node: &Node, level: usize, left_right: Dir)
        requires
            level + depth(node@) <= usize::MAX,
        ensures
            final(out)@ == old(out)@ + node_text(node@, level as nat, left_right),
        decreases node,
    {
        let pad = indentation(level);
        let head = first_chars(node.hash.as_str(), 5);
        out.append(pad.as_str());
        out.append(" ");
        out.append(dir_name(left_right));
        out.append("- ");
        out.append(head.as_str());
        out.append("\n");
        let ghost own = own_text(node.hash@, level as nat, left_right);
        assert(out@ =~= old(out)@ + own);
        match &node.left_node {
            Some(child) => {
                MerkleTree::print_node(out, child, level + 1, Dir::Left);
            },
            None => {
                MerkleTree::print_missing(out, level, Dir::Left);
            },
        }
        let ghost left = side_text(node@.left, level as nat, Dir::Left);
        assert(out@ =~= old(out)@ + own + left);
        match &node.right_node {
            Some(child) => {
                MerkleTree::print_node(out, child, level + 1, Dir::Right);
            },
            None => {
                MerkleTree::print_missing(out, level, Dir::Right);
            },
        }
        let ghost right = side_text(node@.right, level as nat, Dir::Right);
        assert(out@ =~= old(out)@ + (own + left + right));
    }

    /// Renders the tree as text, one line per node and per missing child.
    pub fn render(&self) -> (out: String)
        requires
            self.root_view() matches Some(node) ==> depth(node) <= usize::MAX,
        ensures
            out@ == tree_text(self.root_view()),
    {
        match &self.root {
            Some(node) => {
                let mut out = String::from_str("Merkle Tree:\n");
                MerkleTree::print_node(&mut out, node, 0, Dir::Root);
                out
            },
            None => String::from_str("Empty Merkle Tree"),
        }
    }

    /// Builds the tree over `initial_leaves` with Keccak-256. There must be
    /// at least one leaf.
    pub fn new(initial_leaves: Vec<String>) -> (res: Result<MerkleTree, MerkleError>)
        ensures
            initial_leaves.len() == 0 ==> res is Err && res->Err_0 == MerkleError::EmptyInput,
            initial_leaves.len() > 0 ==> {
                &&& res is Ok
                &&& res->Ok_0.root is Some
                &&& res->Ok_0.root->Some_0@ == merkle_nodes(
                    &Keccak256,
                    initial_leaves.deep_view(),
                )
                &&& res->Ok_0.root->Some_0.hash@ == merkle_root(
                    &Keccak256,
                    initial_leaves.deep_view(),
                )
                &&& depth(res->Ok_0.root->Some_0@) <= usize::MAX
            },
    {
        if initial_leaves.len() == 0 {
            return Err(MerkleError::EmptyInput);
        }
        let h = Keccak256;
        let hashed = hash_all(&h, initial_leaves.as_slice());
        let bottom = make_leaf_nodes(&hashed);
        assert forall|i: int| 0 <= i < hashed.len() implies hashed[i]@ == h.digest(
            #[trigger] initial_leaves.deep_view()[i],
        ) by {
            assert(hashed.deep_view()[i] == hashed[i]@);
        }
        assert(node_views(bottom@) =~= leaf_nodes(&h, initial_leaves.deep_view()));
        let mut level = join_nodes(&h, &bottom);
        while level.len() > 1
            invariant
                level.len() >= 1,
                reduce_nodes(&h, node_views(level@)) == merkle_nodes(
                    &h,
                    initial_leaves.deep_view(),
                ),
            decreases level.len(),
        {
            level = join_nodes(&h, &level);
        }
        proof {
            lemma_merkle_nodes_depth(&h, initial_leaves.deep_view());
            lemma_root_node_holds_root(&h, initial_leaves.deep_view());
        }
        let top = level.pop();
        Ok(MerkleTree { root: Some(Box::new(top.unwrap())) })
    }
}

} // verus!
