//! A binary search tree of integers. A value goes left of every node it is
//! smaller than on its way down, and right of the others, so equal values
//! gather on the right.

use crate::text::{decimal, decimal_text, dir_name, dir_text, indent, indentation, Dir};
use vstd::prelude::*;

verus! {

/// A node: a value and up to two subtrees.
pub struct Node {
    pub item: i32,
    pub left: Option<Box<Node>>,
    pub right: Option<Box<Node>>,
}

/// A binary search tree, held by its root.
pub struct Tree {
    pub root: Option<Box<Node>>,
}

/// The subtree `link` with `value` inserted: a new node where the walk from
/// the top, left of larger items and right of the others, leaves the tree.
pub open spec fn inserted(link: Option<Box<Node>>, value: i32) -> Option<Box<Node>>
    decreases link,
{
    match link {
        None => Some(Box::new(Node { item: value, left: None, right: None })),
        Some(node) => if value < node.item {
            Some(
                Box::new(
                    Node { item: node.item, left: inserted(node.left, value), right: node.right },
                ),
            )
        } else {
            Some(
                Box::new(
                    Node { item: node.item, left: node.left, right: inserted(node.right, value) },
                ),
            )
        },
    }
}

/// The values of a subtree from left to right.
pub open spec fn values(link: Option<Box<Node>>) -> Seq<i32>
    decreases link,
{
    match link {
        None => Seq::empty(),
        Some(node) => values(node.left) + seq![node.item] + values(node.right),
    }
}

/// Whether every node's left subtree holds smaller values only and its
/// right subtree none that is smaller.
pub open spec fn is_search_tree(link: Option<Box<Node>>) -> bool
    decreases link,
{
    match link {
        None => true,
        Some(node) => {
            &&& is_search_tree(node.left)
            &&& is_search_tree(node.right)
            &&& forall|i: int| 0 <= i < values(node.left).len() ==> values(node.left)[i] < node.item
            &&& forall|i: int|
                0 <= i < values(node.right).len() ==> values(node.right)[i] >= node.item
        },
    }
}

/// The place among the values of `link`, from left to right, that `value`
/// takes when it is inserted.
pub open spec fn slot(link: Option<Box<Node>>, value: i32) -> int
    decreases link,
{
    match link {
        None => 0,
        Some(node) => if value < node.item {
            slot(node.left, value)
        } else {
            values(node.left).len() + 1 + slot(node.right, value)
        },
    }
}

/// Inserting a value changes the values from left to right by that value
/// alone, which takes its slot among them.
pub proof fn lemma_inserted_values(link: Option<Box<Node>>, value: i32)
    ensures
        0 <= slot(link, value) <= values(link).len(),
        values(inserted(link, value)) == values(link).insert(slot(link, value), value),
    decreases link,
{
    match link {
        None => {
            assert(values(inserted(link, value)) =~= seq![value]);
            assert(values(link).insert(0, value) =~= seq![value]);
        },
        Some(node) => {
            lemma_inserted_values(node.left, value);
            lemma_inserted_values(node.right, value);
            assert(values(inserted(link, value)) =~= values(link).insert(
                slot(link, value),
                value,
            ));
        },
    }
}

/// Inserting a value into a search tree gives a search tree.
pub proof fn lemma_inserted_is_search_tree(link: Option<Box<Node>>, value: i32)
    requires
        is_search_tree(link),
    ensures
        is_search_tree(inserted(link, value)),
    decreases link,
{
    match link {
        None => {
            assert(values(None) =~= Seq::<i32>::empty());
        },
        Some(node) => {
            lemma_inserted_values(node.left, value);
            lemma_inserted_values(node.right, value);
            if value < node.item {
                lemma_inserted_is_search_tree(node.left, value);
            } else {
                lemma_inserted_is_search_tree(node.right, value);
            }
        },
    }
}

/// The values of a search tree stand in ascending order from left to right.
pub proof fn lemma_search_tree_is_sorted(link: Option<Box<Node>>)
    requires
        is_search_tree(link),
    ensures
        forall|i: int, j: int|
            0 <= i <= j < values(link).len() ==> values(link)[i] <= values(link)[j],
    decreases link,
{
    match link {
        None => {},
        Some(node) => {
            lemma_search_tree_is_sorted(node.left);
            lemma_search_tree_is_sorted(node.right);
        },
    }
}

/// The number of nodes on the longest way down from `link`.
pub open spec fn height(link: Option<Box<Node>>) -> nat
    decreases link,
{
    match link {
        None => 0,
        Some(node) => if height(node.left) >= height(node.right) {
            1 + height(node.left)
        } else {
            1 + height(node.right)
        },
    }
}

/// Inserting a value makes a tree at most one node higher.
pub proof fn lemma_inserted_height(link: Option<Box<Node>>, value: i32)
    ensures
        height(link) <= height(inserted(link, value)) <= height(link) + 1,
    decreases link,
{
    match link {
        None => {
            assert(height(inserted(link, value)) == 1);
        },
        Some(node) => {
            lemma_inserted_height(node.left, value);
            lemma_inserted_height(node.right, value);
        },
    }
}

/// The mark before the direction of a line: an arrow below the top level,
/// nothing at the top.
pub open spec fn arrow(level: nat) -> Seq<char> {
    if level > 0 {
        "└──>"@
    } else {
        Seq::empty()
    }
}

/// The line of a missing child of a node at `level`.
pub open spec fn missing_text(level: nat, dir: Dir) -> Seq<char> {
    indent(level + 1) + arrow(level) + dir_text(dir) + "-None\n"@
}

/// The lines of a node at `level` and of everything below it: the node's
/// own line, then its left side, then its right side.
pub open spec fn node_text(node: Node, level: nat, dir: Dir) -> Seq<char>
    decreases node,
{
    own_text(node.item, level, dir) + side_text(node.left, level, Dir::Left) + side_text(
        node.right,
        level,
        Dir::Right,
    )
}

/// The line of a node itself.
pub open spec fn own_text(item: i32, level: nat, dir: Dir) -> Seq<char> {
    indent(level) + arrow(level) + dir_text(dir) + "-"@ + decimal(item as int) + "\n"@
}

/// The lines of one side of a node at `level`: those of the child there,
/// or the line of a missing child.
pub open spec fn side_text(link: Option<Box<Node>>, level: nat, dir: Dir) -> Seq<char>
    decreases link,
{
    match link {
        Some(child) => node_text(*child, level + 1, dir),
        None => missing_text(level, dir),
    }
}

/// The text of a tree: a heading and the lines of its nodes, or a note
/// that it is empty.
pub open spec fn tree_text(tree: Tree) -> Seq<char> {
    match tree.root {
        Some(node) => "Tree:\n"@ + node_text(*node, 0, Dir::Root),
        None => "Empty Tree"@,
    }
}

impl Node {
    /// A node that holds `item` and has no subtrees.
    pub fn new(item: i32) -> (node: Self)
        ensures
            node == (Node { item, left: None, right: None }),
    {
        Node { item, left: None, right: None }
    }
}

impl Tree {
    /// The empty tree.
    pub fn new() -> (tree: Self)
        ensures
            tree.root is None,
            is_search_tree(tree.root),
            height(tree.root) == 0,
    {
        Tree { root: None }
    }

    /// Inserts `value` where the walk from the root leaves the tree. A
    /// search tree stays one, and the tree grows by one level at most.
    pub fn insert(&mut self, value: i32)
        ensures
            final(self).root == inserted(old(self).root, value),
            is_search_tree(old(self).root) ==> is_search_tree(final(self).root),
            height(final(self).root) <= height(old(self).root) + 1,
    {
        proof {
            lemma_inserted_height(self.root, value);
            if is_search_tree(self.root) {
                lemma_inserted_is_search_tree(self.root, value);
            }
        }
        self.insert_iterative(value)
    }

    /// Inserts `value` by walking down with a cursor, without recursion.
    pub fn insert_iterative(&mut self, value: i32)
        ensures
            final(self).root == inserted(old(self).root, value),
    {
        let ghost start = self.root;
        let mut cur = &mut self.root;
        loop
            invariant
                *final(cur) == inserted(*cur, value) ==> after_borrow(self.root) == inserted(
                    start,
                    value,
                ),
            ensures
                *cur is None,
            decreases *cur,
        {
            match cur {
                None => {
                    break ;
                },
                Some(node) => {
                    if value < node.item {
                        cur = &mut node.left;
                    } else {
                        cur = &mut node.right;
                    }
                },
            }
        }
        *cur = Some(Box::new(Node::new(value)));
    }

    /// The mark before the direction of a line at `level`.
    pub fn get_arrow(level: usize) -> (out: String)
        ensures
            out@ == arrow(level as nat),
    {
        if level > 0 {
            String::from_str("└──>")
        } else {
            String::new()
        }
    }

    /// Appends the line of a missing child of a node at `level`.
    fn print_missing(out: &mut String, level: usize, dir: Dir)
        requires
            level < usize::MAX,
        ensures
            final(out)@ == old(out)@ + missing_text(level as nat, dir),
    {
        let pad = indentation(level + 1);
        let mark = Tree::get_arrow(level);
        out.append(pad.as_str());
        out.append(mark.as_str());
        out.append(dir_name(dir));
        out.append("-None\n");
        assert(out@ =~= old(out)@ + missing_text(level as nat, dir));
    }

    /// Appends the lines of `node`, which stands at `level`, and of
    /// everything below it.
    pub fn print_node(out: &mut String, node: &Node, level: usize, left_right: Dir)
        requires
            level + height(Some(Box::new(*node))) <= usize::MAX,
        ensures
            final(out)@ == old(out)@ + node_text(*node, level as nat, left_right),
        decreases node,
    {
        let pad = indentation(level);
        let mark = Tree::get_arrow(level);
        let number = decimal_text(node.item);
        out.append(pad.as_str());
        out.append(mark.as_str());
        out.append(dir_name(left_right));
        out.append("-");
        out.append(number.as_str());
        out.append("\n");
        let ghost own = own_text(node.item, level as nat, left_right);
        assert(out@ =~= old(out)@ + own);
        match &node.left {
            Some(child) => {
                Tree::print_node(out, child, level + 1, Dir::Left);
            },
            None => {
                Tree::print_missing(out, level, Dir::Left);
            },
        }
        let ghost left = side_text(node.left, level as nat, Dir::Left);
        assert(out@ =~= old(out)@ + own + left);
        match &node.right {
            Some(child) => {
                Tree::print_node(out, child, level + 1, Dir::Right);
            },
            None => {
                Tree::print_missing(out, level, Dir::Right);
            },
        }
        let ghost right = side_text(node.right, level as nat, Dir::Right);
        assert(out@ =~= old(out)@ + (own + left + right));
    }

    /// Renders the tree as text, one line per node and per missing child.
    pub fn render(&self) -> (out: String)
        requires
            height(self.root) <= usize::MAX,
        ensures
            out@ == tree_text(*self),
    {
        match &self.root {
            Some(node) => {
                let mut out = String::from_str("Tree:\n");
                Tree::print_node(&mut out, node, 0, Dir::Root);
                out
            },
            None => String::from_str("Empty Tree"),
        }
    }

    /// Inserts `value` below `node` by descending one call per level.
    pub fn insert_recursive(node: &mut Box<Node>, value: i32)
        ensures
            Some(*final(node)) == inserted(Some(*old(node)), value),
        decreases *old(node),
    {
        assert(inserted(None, value) == Some(
            Box::new(Node { item: value, left: None, right: None }),
        ));
        if value < node.item {
            match &mut node.left {
                None => {
                    node.left = Some(Box::new(Node::new(value)));
                },
                Some(child) => {
                    Tree::insert_recursive(child, value);
                },
            }
        } else {
            match &mut node.right {
                None => {
                    node.right = Some(Box::new(Node::new(value)));
                },
                Some(child) => {
                    Tree::insert_recursive(child, value);
                },
            }
        }
    }
}

} // verus!
