use grcov::{to_lowercase_first, to_uppercase_first};

#[test]
fn test_to_lowercase_first() {
    assert_eq!(to_lowercase_first("marco"), "marco");
    assert_eq!(to_lowercase_first("Marco"), "marco");
}

#[test]
fn test_to_uppercase_first() {
    assert_eq!(to_uppercase_first("marco"), "Marco");
    assert_eq!(to_uppercase_first("Marco"), "Marco");
}

#[test]
fn case_of_the_first_character_only_changes() {
    assert_eq!(to_lowercase_first("C:/Users/X"), "c:/Users/X");
    assert_eq!(to_uppercase_first("c:/Users/X"), "C:/Users/X");
    assert_eq!(to_uppercase_first("é"), "É");
}
