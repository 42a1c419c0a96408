use merkle_tree::error::MerkleError;
use merkle_tree::hasher::{keccak256, Bracket, Keccak256};
use merkle_tree::levels::{build, build_next_level, hash_all};

fn texts(items: &[&str]) -> Vec<String> {
    items.iter().map(|s| s.to_string()).collect()
}

#[test]
fn hash_all_keeps_the_order() {
    assert_eq!(hash_all(&Bracket, &texts(&["a", "b", "c"])), texts(&["(a)", "(b)", "(c)"]));
    assert_eq!(hash_all(&Bracket, &[]), Vec::<String>::new());
}

#[test]
fn next_level_pairs_from_the_left() {
    let level = texts(&["a", "b", "c", "d"]);
    assert_eq!(build_next_level(&Bracket, &level), texts(&["(ab)", "(cd)"]));
}

#[test]
fn next_level_pairs_a_last_odd_digest_with_itself() {
    let level = texts(&["a", "b", "c"]);
    assert_eq!(build_next_level(&Bracket, &level), texts(&["(ab)", "(cc)"]));
    assert_eq!(build_next_level(&Bracket, &texts(&["a"])), texts(&["(aa)"]));
    assert_eq!(build_next_level(&Bracket, &Vec::new()), Vec::<String>::new());
}

#[test]
fn build_of_one_leaf_combines_it_with_itself_once() {
    assert_eq!(build(&Bracket, &texts(&["D"])), Ok("((D)(D))".to_string()));
    let d = keccak256("D");
    assert_eq!(
        build(&Keccak256, &texts(&["D"])),
        Ok(keccak256(&format!("{}{}", d, d)))
    );
}

#[test]
fn build_of_two_leaves() {
    assert_eq!(build(&Bracket, &texts(&["D", "E"])), Ok("((D)(E))".to_string()));
}

#[test]
fn build_of_three_leaves_duplicates_at_the_first_level() {
    assert_eq!(
        build(&Bracket, &texts(&["a", "b", "c"])),
        Ok("(((a)(b))((c)(c)))".to_string())
    );
}

#[test]
fn build_of_five_leaves_duplicates_at_every_odd_level() {
    // levels: 5 -> 3 -> 2 -> 1
    let l1 = ["((a)(b))", "((c)(d))", "((e)(e))"];
    let l2 = [format!("({}{})", l1[0], l1[1]), format!("({}{})", l1[2], l1[2])];
    let root = format!("({}{})", l2[0], l2[1]);
    assert_eq!(build(&Bracket, &texts(&["a", "b", "c", "d", "e"])), Ok(root));
}

#[test]
fn build_of_no_leaves_fails() {
    assert_eq!(build(&Keccak256, &[]), Err(MerkleError::EmptyInput));
    assert_eq!(build(&Bracket, &[]), Err(MerkleError::EmptyInput));
}

#[test]
fn build_is_deterministic() {
    let leaves = texts(&["D", "E", "F"]);
    assert_eq!(build(&Keccak256, &leaves), build(&Keccak256, &leaves));
    assert_eq!(build(&Keccak256, &leaves), build(&Keccak256, &leaves.clone()));
}

#[test]
fn build_depends_on_the_order_of_the_leaves() {
    let de = build(&Keccak256, &texts(&["D", "E"])).unwrap();
    let ed = build(&Keccak256, &texts(&["E", "D"])).unwrap();
    assert_ne!(de, ed);
    assert_eq!(build(&Bracket, &texts(&["E", "D"])), Ok("((E)(D))".to_string()));
}

#[test]
fn build_tells_a_repeated_last_leaf_from_a_duplicated_one() {
    // Three leaves and four leaves with the last repeated give the same
    // levels: the duplicate stands for the missing partner.
    assert_eq!(
        build(&Bracket, &texts(&["a", "b", "c"])),
        build(&Bracket, &texts(&["a", "b", "c", "c"]))
    );
    assert_ne!(
        build(&Bracket, &texts(&["a", "b", "c"])),
        build(&Bracket, &texts(&["a", "b", "c", "d"]))
    );
}
