use crypto::digest::Digest;
use crypto::sha3::Sha3;
use merkle_tree::error::MerkleError;
use merkle_tree::hasher::Keccak256;
use merkle_tree::merkle_tree::{MerkleTree, Node};
use merkle_tree::merkle_tree_vec::MerkleTreeVec;

#[test]
fn merkle_tree_test_new_no_duplication() {
    let d = "D".to_string();
    let e = "E".to_string();

    let d_hash = {
        let mut sha3 = Sha3::keccak256();
        sha3.input_str(&d.clone());
        sha3.result_str()
    };
    let e_hash = {
        let mut sha3 = Sha3::keccak256();
        sha3.input_str(&e.clone());
        sha3.result_str()
    };

    let mut sha3 = Sha3::keccak256();
    sha3.input_str(&format!("{}{}", d_hash, e_hash));

    let mtree = MerkleTree::new(vec![d, e]).unwrap();

    assert_eq!(mtree.root.unwrap().hash, sha3.result_str());
}

#[test]
fn merkle_tree_test_new_with_duplication() {
    let d = "D".to_string();

    let d_hash = {
        let mut sha3 = Sha3::keccak256();
        sha3.input_str(&d.clone());
        sha3.result_str()
    };

    let mut sha3 = Sha3::keccak256();
    sha3.input_str(&format!("{}{}", d_hash, d_hash));

    let mtree = MerkleTree::new(vec![d]).unwrap();

    assert_eq!(mtree.root.unwrap().hash, sha3.result_str());
}

fn keccak(text: &str) -> String {
    let mut sha3 = Sha3::keccak256();
    sha3.input_str(text);
    sha3.result_str()
}

#[test]
fn new_of_no_leaves_fails() {
    assert_eq!(MerkleTree::new(Vec::new()).err(), Some(MerkleError::EmptyInput));
}

#[test]
fn new_hangs_the_hashed_leaves_below_their_parent() {
    let mtree = MerkleTree::new(vec!["D".to_string(), "E".to_string()]).unwrap();
    let root = mtree.root.unwrap();
    let left = root.left_node.as_ref().unwrap();
    let right = root.right_node.as_ref().unwrap();
    assert_eq!(left.hash, keccak("D"));
    assert_eq!(right.hash, keccak("E"));
    assert!(left.left_node.is_none() && left.right_node.is_none());
    assert!(right.left_node.is_none() && right.right_node.is_none());
}

#[test]
fn new_duplicates_a_single_leaf_below_the_root() {
    let mtree = MerkleTree::new(vec!["D".to_string()]).unwrap();
    let root = mtree.root.unwrap();
    assert_eq!(root.left_node.as_ref().unwrap().hash, keccak("D"));
    assert_eq!(root.right_node.as_ref().unwrap().hash, keccak("D"));
}

#[test]
fn new_of_three_leaves_duplicates_the_last_pair() {
    let leaves = vec!["D".to_string(), "E".to_string(), "F".to_string()];
    let mtree = MerkleTree::new(leaves.clone()).unwrap();
    let root = mtree.root.unwrap();
    let de = keccak(&format!("{}{}", keccak("D"), keccak("E")));
    let ff = keccak(&format!("{}{}", keccak("F"), keccak("F")));
    assert_eq!(root.hash, keccak(&format!("{}{}", de, ff)));
    let left = root.left_node.as_ref().unwrap();
    let right = root.right_node.as_ref().unwrap();
    assert_eq!(left.hash, de);
    assert_eq!(right.hash, ff);
    assert_eq!(right.left_node.as_ref().unwrap().hash, keccak("F"));
    assert_eq!(right.right_node.as_ref().unwrap().hash, keccak("F"));
    let vec_tree = MerkleTreeVec::new(&leaves, &Keccak256).unwrap();
    assert_eq!(root.hash, vec_tree.root);
}

#[test]
fn node_tree_and_vector_tree_agree_on_the_root() {
    for n in 1..=10 {
        let leaves: Vec<String> = (0..n).map(|i| format!("leaf-{}", i)).collect();
        let nodes = MerkleTree::new(leaves.clone()).unwrap();
        let flat = MerkleTreeVec::new(&leaves, &Keccak256).unwrap();
        assert_eq!(nodes.root.unwrap().hash, flat.root);
    }
}

#[test]
fn clone_of_a_node_copies_everything_below() {
    let mtree = MerkleTree::new(vec!["D".to_string(), "E".to_string(), "F".to_string()]).unwrap();
    let root = mtree.root.unwrap();
    let copy = (*root).clone();
    assert_eq!(format!("{:?}", copy), format!("{:?}", *root));
}

#[test]
fn render_shows_five_characters_of_every_digest() {
    let mtree = MerkleTree::new(vec!["D".to_string(), "E".to_string()]).unwrap();
    let d = keccak("D");
    let e = keccak("E");
    let root = keccak(&format!("{}{}", d, e));
    let expected = format!(
        " root- {}\n     left- {}\n        left- None\n        right- None\n     right- {}\n        left- None\n        right- None\n",
        &root[..5],
        &d[..5],
        &e[..5]
    );
    assert_eq!(mtree.render(), format!("Merkle Tree:\n{}", expected));
}

#[test]
fn render_of_a_tree_without_root() {
    let mtree = MerkleTree { root: None };
    assert_eq!(mtree.render(), "Empty Merkle Tree");
}

#[test]
fn render_shows_a_short_digest_whole() {
    let node = Node { hash: "abc".to_string(), left_node: None, right_node: None };
    let mtree = MerkleTree { root: Some(Box::new(node)) };
    assert_eq!(mtree.render(), "Merkle Tree:\n root- abc\n    left- None\n    right- None\n");
}
