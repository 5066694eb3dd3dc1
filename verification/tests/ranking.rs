use troll::ranking::rank;

#[test]
fn equal_strings_rank_zero() {
    assert_eq!(rank("firefox", "firefox"), 0);
    assert_eq!(rank("", ""), 0);
    assert_eq!(rank("a", "a"), 0);
}

#[test]
fn rank_against_empty_is_length() {
    assert_eq!(rank("firefox", ""), 7);
    assert_eq!(rank("", "firefox"), 7);
    assert_eq!(rank("x", ""), 1);
}

#[test]
fn rank_is_edit_distance() {
    assert_eq!(rank("fire", "firefox"), 3);
    assert_eq!(rank("fire", "firefox-esr"), 7);
    assert_eq!(rank("kitten", "sitting"), 3);
    assert_eq!(rank("flaw", "lawn"), 2);
    assert_eq!(rank("abc", "abd"), 1);
}
