use merkle_tree::hasher::{combine_digests, keccak256, Bracket, Hasher, Keccak256};

#[test]
fn keccak256_of_empty_text() {
    assert_eq!(
        keccak256(""),
        "c5d2460186f7233c927e7db2dcc703c0e500b653ca82273b7bfad8045d85a470"
    );
}

#[test]
fn keccak256_of_abc() {
    assert_eq!(
        keccak256("abc"),
        "4e03657aea45a94fc7d47ba826c8d667c0d1e6e33a64a036ec44f58fa12d6c45"
    );
}

#[test]
fn keccak256_has_64_lowercase_hex_digits() {
    for input in ["", "D", "E", "a longer text with spaces", "\u{e9}\u{4e16}"] {
        let digest = keccak256(input);
        assert_eq!(digest.chars().count(), 64);
        assert!(digest.chars().all(|c| c.is_ascii_digit() || ('a'..='f').contains(&c)));
        assert_ne!(digest, input);
    }
}

#[test]
fn keccak256_is_a_function_of_its_input() {
    assert_eq!(keccak256("D"), keccak256("D"));
    assert_ne!(keccak256("D"), keccak256("E"));
}

#[test]
fn keccak_hasher_is_keccak256() {
    assert_eq!(Keccak256.hash("D"), keccak256("D"));
    assert_eq!(Keccak256.hash(""), keccak256(""));
}

#[test]
fn bracket_hasher_encloses_its_input() {
    assert_eq!(Bracket.hash("D"), "(D)");
    assert_eq!(Bracket.hash(""), "()");
    assert_eq!(Bracket.hash("(a)(b)"), "((a)(b))");
}

#[test]
fn combine_hashes_the_joined_digests() {
    let left = keccak256("D");
    let right = keccak256("E");
    assert_eq!(
        combine_digests(&Keccak256, &left, &right),
        keccak256(&format!("{}{}", left, right))
    );
    assert_ne!(
        combine_digests(&Keccak256, &left, &right),
        combine_digests(&Keccak256, &right, &left)
    );
}

#[test]
fn combine_puts_left_first() {
    assert_eq!(combine_digests(&Bracket, "ab", "cd"), "(abcd)");
    assert_eq!(combine_digests(&Bracket, "", "x"), "(x)");
}
