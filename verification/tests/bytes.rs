use vibe_terminal::bytes::{bytes_equal, find_byte};
use vibe_terminal::template::replace_all_bytes;

#[test]
fn find_byte_gives_the_first_index() {
    assert_eq!(find_byte(b"a;b;c", 0, b';'), 1);
    assert_eq!(find_byte(b"a;b;c", 1, b';'), 1);
    assert_eq!(find_byte(b"a;b;c", 2, b';'), 3);
    assert_eq!(find_byte(b"a;b;c", 4, b';'), 5);
    assert_eq!(find_byte(b"a;b;c", 5, b';'), 5);
    assert_eq!(find_byte(b"", 0, b';'), 0);
}

#[test]
fn bytes_equal_compares_length_and_content() {
    assert!(bytes_equal(b"", b""));
    assert!(bytes_equal(b"abc", b"abc"));
    assert!(!bytes_equal(b"abc", b"abd"));
    assert!(!bytes_equal(b"abc", b"ab"));
    assert!(!bytes_equal(b"ab", b"abc"));
}

#[test]
fn replace_all_replaces_every_occurrence() {
    assert_eq!(replace_all_bytes(b"a-b-c", b"-", b"+"), b"a+b+c".to_vec());
    assert_eq!(replace_all_bytes(b"{{X}} and {{X}}", b"{{X}}", b"y"), b"y and y".to_vec());
    assert_eq!(replace_all_bytes(b"{{X}}", b"{{X}}", b""), b"".to_vec());
    assert_eq!(replace_all_bytes(b"none here", b"{{X}}", b"y"), b"none here".to_vec());
    assert_eq!(replace_all_bytes(b"", b"{{X}}", b"y"), b"".to_vec());
}

#[test]
fn replace_all_goes_from_left_to_right_without_overlap() {
    assert_eq!(replace_all_bytes(b"aaa", b"aa", b"X"), b"Xa".to_vec());
    assert_eq!(replace_all_bytes(b"aaaa", b"aa", b"X"), b"XX".to_vec());
    assert_eq!(replace_all_bytes(b"ababa", b"aba", b"X"), b"Xba".to_vec());
    assert_eq!(replace_all_bytes(b"aa", b"a", b"aa"), b"aaaa".to_vec());
}

#[test]
fn replace_all_with_odd_patterns() {
    assert_eq!(replace_all_bytes(b"abc", b"", b"X"), b"abc".to_vec());
    assert_eq!(replace_all_bytes(b"ab", b"abc", b"X"), b"ab".to_vec());
    assert_eq!(replace_all_bytes(b"abc", b"abc", b"X"), b"X".to_vec());
    assert_eq!(replace_all_bytes(b"{{X}", b"{{X}}", b"y"), b"{{X}".to_vec());
}
