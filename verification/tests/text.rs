//! Byte-text helper tests: trimming, case folding, searching and
//! splitting, and decimal rendering.

use wserver::ascii::{
    bytes_eq, find_byte, lower_bytes, rfind_byte, split_lines, split_on, trim, trim_matching,
    usize_to_decimal,
};

#[test]
fn trim_strips_ascii_whitespace() {
    assert_eq!(trim(b"  abc \t"), b"abc".to_vec());
    assert_eq!(trim(b"abc"), b"abc".to_vec());
    assert_eq!(trim(b" \r\n "), b"".to_vec());
    assert_eq!(trim(b""), b"".to_vec());
}

#[test]
fn trim_matching_strips_every_edge_occurrence() {
    assert_eq!(trim_matching(b"\"\"x\"", b'"'), b"x".to_vec());
    assert_eq!(trim_matching(b"no quotes", b'"'), b"no quotes".to_vec());
}

#[test]
fn lower_bytes_folds_ascii_only() {
    assert_eq!(lower_bytes(b"MiXeD-09!"), b"mixed-09!".to_vec());
}

#[test]
fn bytes_eq_compares_contents() {
    assert!(bytes_eq(b"abc", b"abc"));
    assert!(!bytes_eq(b"abc", b"abd"));
    assert!(!bytes_eq(b"abc", b"ab"));
}

#[test]
fn find_byte_returns_first_hit() {
    assert_eq!(find_byte(b"a:b:c", b':'), Some(1));
    assert_eq!(find_byte(b"abc", b':'), None);
    assert_eq!(rfind_byte(b"a:b:c", b':'), Some(3));
    assert_eq!(rfind_byte(b"abc", b':'), None);
}

#[test]
fn split_lines_handles_terminators() {
    let lines = split_lines(b"a\r\nb\nc");
    assert_eq!(lines, vec![b"a".to_vec(), b"b".to_vec(), b"c".to_vec()]);
    let trailing = split_lines(b"a\r\n");
    assert_eq!(trailing, vec![b"a".to_vec()]);
    assert!(split_lines(b"").is_empty());
}

#[test]
fn split_on_keeps_empty_tokens() {
    let parts = split_on(b"GET  /", b' ');
    assert_eq!(parts, vec![b"GET".to_vec(), b"".to_vec(), b"/".to_vec()]);
    assert_eq!(split_on(b"", b' '), vec![b"".to_vec()]);
}

#[test]
fn decimal_rendering() {
    assert_eq!(usize_to_decimal(0), b"0".to_vec());
    assert_eq!(usize_to_decimal(7), b"7".to_vec());
    assert_eq!(usize_to_decimal(1204), b"1204".to_vec());
}
