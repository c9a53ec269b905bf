use rustywebserver::bytes::{
    append, byte_is_space, copy_range, equal, find_byte, has_infix, has_prefix, literal,
    matches_at, scan, to_vec, trimmed,
};

#[test]
fn whitespace_bytes() {
    for b in [b' ', b'\t', b'\n', 11, 12, b'\r'] {
        assert!(byte_is_space(b));
    }
    for b in [0, 8, 14, b'a', b'0', 0xa0, 255] {
        assert!(!byte_is_space(b));
    }
}

#[test]
fn trimming_cuts_both_ends_only() {
    assert_eq!(trimmed(b"  a b \t\r\n"), b"a b".to_vec());
    assert_eq!(trimmed(b"ab"), b"ab".to_vec());
    assert_eq!(trimmed(b" \t "), Vec::<u8>::new());
    assert_eq!(trimmed(b""), Vec::<u8>::new());
    assert_eq!(trimmed(b"x "), b"x".to_vec());
}

#[test]
fn finding_and_scanning() {
    assert_eq!(find_byte(b"a:b:c", b':', 0), 1);
    assert_eq!(find_byte(b"a:b:c", b':', 2), 3);
    assert_eq!(find_byte(b"a:b:c", b':', 4), 5);
    assert_eq!(find_byte(b"", b':', 0), 0);
    assert_eq!(scan(b"  ab c", false, 0), 2);
    assert_eq!(scan(b"  ab c", true, 2), 4);
    assert_eq!(scan(b"  ab c", true, 5), 6);
}

#[test]
fn searching_for_substrings() {
    assert!(has_infix(b"/srv/forbidden/x", b"forbidden"));
    assert!(has_infix(b"forbidden", b"forbidden"));
    assert!(has_infix(b"abc", b""));
    assert!(has_infix(b"", b""));
    assert!(!has_infix(b"forbidde", b"forbidden"));
    assert!(!has_infix(b"", b"a"));
    assert!(has_prefix(b"/srv/a", b"/srv"));
    assert!(!has_prefix(b"/sr", b"/srv"));
    assert!(matches_at(b"abcabc", b"bc", 4));
    assert!(!matches_at(b"abcabc", b"bc", 5));
    assert!(!matches_at(b"abcabc", b"bc", 9));
}

#[test]
fn copying_and_comparing() {
    assert_eq!(copy_range(b"abcdef", 2, 4), b"cd".to_vec());
    assert_eq!(copy_range(b"abcdef", 3, 3), Vec::<u8>::new());
    assert_eq!(to_vec(b"xyz"), b"xyz".to_vec());
    assert_eq!(literal("caf\u{e9}"), vec![b'c', b'a', b'f', 0xc3, 0xa9]);
    let mut out = b"ab".to_vec();
    append(&mut out, b"cd");
    assert_eq!(out, b"abcd".to_vec());
    assert!(equal(b"same", b"same"));
    assert!(!equal(b"same", b"sama"));
    assert!(!equal(b"same", b"sam"));
}
