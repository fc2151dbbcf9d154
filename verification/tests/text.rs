//! Tests of the byte-level text helpers through the library's public API.

use volsync::text::{
    bytes_eq_ignore_ascii_case, bytes_starts_with, split_lines, trim_bytes,
};

#[test]
fn case_insensitive_equality_folds_ascii_only() {
    assert!(bytes_eq_ignore_ascii_case(b"AbC", b"aBc"));
    assert!(bytes_eq_ignore_ascii_case(b"", b""));
    assert!(!bytes_eq_ignore_ascii_case(b"abc", b"abd"));
    assert!(!bytes_eq_ignore_ascii_case(b"abc", b"ab"));
    // Bytes outside the ASCII letters must match exactly.
    assert!(!bytes_eq_ignore_ascii_case(b"a_c", b"a-c"));
}

#[test]
fn prefix_test_matches_exactly() {
    assert!(bytes_starts_with(b"Customer ID: Acme", b"Customer ID:"));
    assert!(!bytes_starts_with(b"customer id: Acme", b"Customer ID:"));
    assert!(!bytes_starts_with(b"Cust", b"Customer ID:"));
    assert!(bytes_starts_with(b"anything", b""));
}

#[test]
fn trimming_removes_edge_whitespace_only() {
    assert_eq!(trim_bytes(b"  a b \t"), b"a b".to_vec());
    assert_eq!(trim_bytes(b"\r\n"), Vec::<u8>::new());
    assert_eq!(trim_bytes(b""), Vec::<u8>::new());
    assert_eq!(trim_bytes(b"solid"), b"solid".to_vec());
}

#[test]
fn line_splitting_follows_text_file_reading() {
    let lines = split_lines(b"one\ntwo\r\nthree");
    assert_eq!(lines, vec![b"one".to_vec(), b"two".to_vec(), b"three".to_vec()]);
    // A trailing newline adds no empty final line; an empty text has none.
    assert_eq!(split_lines(b"one\n"), vec![b"one".to_vec()]);
    assert_eq!(split_lines(b""), Vec::<Vec<u8>>::new());
    // A lone newline is one empty line.
    assert_eq!(split_lines(b"\n"), vec![Vec::<u8>::new()]);
}
