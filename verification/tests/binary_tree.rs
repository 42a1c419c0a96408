use merkle_tree::binary_tree::{Node, Tree};

#[test]
fn test_binary_tree() {
    let mut tree = Tree::new();
    tree.insert(8);
    tree.insert(10);
    tree.insert(3);
    tree.insert(7);
    tree.insert(2);
    println!("{}", tree.render());
}

#[test]
fn render_lists_every_node_and_missing_child() {
    let mut tree = Tree::new();
    tree.insert(8);
    tree.insert(10);
    tree.insert(3);
    tree.insert(7);
    tree.insert(2);
    let expected = "Tree:\n\
root-8\n\
\u{20}   └──>left-3\n\
\u{20}       └──>left-2\n\
\u{20}           └──>left-None\n\
\u{20}           └──>right-None\n\
\u{20}       └──>right-7\n\
\u{20}           └──>left-None\n\
\u{20}           └──>right-None\n\
\u{20}   └──>right-10\n\
\u{20}       └──>left-None\n\
\u{20}       └──>right-None\n";
    assert_eq!(tree.render(), expected);
}

#[test]
fn render_of_single_node_has_no_arrow_before_missing_children() {
    let mut tree = Tree::new();
    tree.insert(-5);
    assert_eq!(tree.render(), "Tree:\nroot--5\n    left-None\n    right-None\n");
}

#[test]
fn render_of_empty_tree() {
    assert_eq!(Tree::new().render(), "Empty Tree");
}

#[test]
fn render_writes_extreme_values_in_decimal() {
    let mut tree = Tree::new();
    tree.insert(0);
    tree.insert(i32::MIN);
    tree.insert(i32::MAX);
    assert_eq!(
        tree.render(),
        "Tree:\nroot-0\n    └──>left--2147483648\n        └──>left-None\n        └──>right-None\n    └──>right-2147483647\n        └──>left-None\n        └──>right-None\n"
    );
}

#[test]
fn insert_puts_smaller_left_and_others_right() {
    let mut tree = Tree::new();
    tree.insert(8);
    tree.insert(10);
    tree.insert(3);
    tree.insert(8);
    let root = tree.root.as_ref().unwrap();
    assert_eq!(root.item, 8);
    assert_eq!(root.left.as_ref().unwrap().item, 3);
    let right = root.right.as_ref().unwrap();
    assert_eq!(right.item, 10);
    assert_eq!(right.left.as_ref().unwrap().item, 8);
    assert!(right.right.is_none());
}

#[test]
fn insert_recursive_agrees_with_insert() {
    let mut by_loop = Tree::new();
    let mut by_calls = Box::new(Node::new(5));
    by_loop.insert(5);
    for v in [3, 9, 5, 1, 4, 7] {
        by_loop.insert(v);
        Tree::insert_recursive(&mut by_calls, v);
    }
    let other = Tree { root: Some(by_calls) };
    assert_eq!(by_loop.render(), other.render());
}

#[test]
fn get_arrow_only_below_the_top() {
    assert_eq!(Tree::get_arrow(0), "");
    assert_eq!(Tree::get_arrow(1), "└──>");
    assert_eq!(Tree::get_arrow(7), "└──>");
}
