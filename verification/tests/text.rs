use merkle_tree::error::MerkleError;
use merkle_tree::text::{decimal_text, digit_name, dir_name, first_chars, indentation, Dir};

#[test]
fn indentation_is_four_spaces_a_level() {
    assert_eq!(indentation(0), "");
    assert_eq!(indentation(1), "    ");
    assert_eq!(indentation(3), "            ");
}

#[test]
fn directions_have_their_names() {
    assert_eq!(dir_name(Dir::Left), "left");
    assert_eq!(dir_name(Dir::Right), "right");
    assert_eq!(dir_name(Dir::Root), "root");
}

#[test]
fn first_chars_counts_characters_not_bytes() {
    assert_eq!(first_chars("abcdefgh", 5), "abcde");
    assert_eq!(first_chars("abc", 5), "abc");
    assert_eq!(first_chars("abcde", 5), "abcde");
    assert_eq!(first_chars("", 5), "");
    assert_eq!(first_chars("abc", 0), "");
    assert_eq!(first_chars("\u{e9}\u{4e16}\u{754c}xyz", 2), "\u{e9}\u{4e16}");
}

#[test]
fn errors_have_their_messages() {
    assert_eq!(MerkleError::ItemNotFound.message(), "Item not found");
    assert_eq!(MerkleError::EmptyInput.message(), "No leaves to build from");
    assert_eq!(MerkleError::MalformedProof.message(), "Malformed proof");
}

#[test]
fn decimal_text_writes_numerals() {
    assert_eq!(decimal_text(0), "0");
    assert_eq!(decimal_text(7), "7");
    assert_eq!(decimal_text(10), "10");
    assert_eq!(decimal_text(1905), "1905");
    assert_eq!(decimal_text(-1), "-1");
    assert_eq!(decimal_text(-120), "-120");
    assert_eq!(decimal_text(i32::MAX), "2147483647");
    assert_eq!(decimal_text(i32::MIN), "-2147483648");
}

#[test]
fn decimal_text_agrees_with_the_standard_formatting() {
    for value in [-100_000, -99, -10, -9, 0, 9, 10, 11, 99, 100, 101, 65_536, 999_999_999] {
        assert_eq!(decimal_text(value), value.to_string());
    }
}

#[test]
fn digits_have_their_names() {
    let names = ["0", "1", "2", "3", "4", "5", "6", "7", "8", "9"];
    for (d, name) in names.iter().enumerate() {
        assert_eq!(digit_name(d as u32), *name);
    }
}
