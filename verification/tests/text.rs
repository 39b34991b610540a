use webnis::text::{
    bytes_eq, contains_whitespace, join_bytes, parse_i64, parse_number, parse_u32, push_decimal,
    push_signed, split_bytes, split_words, splitn_bytes, to_lower, trim_bytes, trim_end_bytes,
};

fn v(parts: &[&str]) -> Vec<Vec<u8>> {
    parts.iter().map(|p| p.as_bytes().to_vec()).collect()
}

#[test]
fn split_keeps_empty_fields() {
    assert_eq!(split_bytes(b"a:b::c", b':'), v(&["a", "b", "", "c"]));
    assert_eq!(split_bytes(b"", b':'), v(&[""]));
    assert_eq!(split_bytes(b":", b':'), v(&["", ""]));
    assert_eq!(split_bytes(b"abc", b':'), v(&["abc"]));
}

#[test]
fn splitn_leaves_the_rest_in_the_last_field() {
    assert_eq!(splitn_bytes(b"auth u p s r x y", b' ', 5), v(&["auth", "u", "p", "s", "r x y"]));
    assert_eq!(splitn_bytes(b"k=v=w", b'=', 2), v(&["k", "v=w"]));
    assert_eq!(splitn_bytes(b"k", b'=', 2), v(&["k"]));
    assert_eq!(splitn_bytes(b"a b", b' ', 1), v(&["a b"]));
    assert_eq!(splitn_bytes(b"a b", b' ', 0), Vec::<Vec<u8>>::new());
}

#[test]
fn words_skip_runs_of_whitespace() {
    assert_eq!(split_words(b"  Basic\t dG9rZW4=  \n"), v(&["Basic", "dG9rZW4="]));
    assert_eq!(split_words(b" \t "), Vec::<Vec<u8>>::new());
    assert_eq!(split_words(b""), Vec::<Vec<u8>>::new());
}

#[test]
fn join_is_the_inverse_of_split() {
    let parts = v(&["staff", "x", "50", "alice,bob,carol"]);
    let line = join_bytes(&parts, b':');
    assert_eq!(line, b"staff:x:50:alice,bob,carol".to_vec());
    assert_eq!(split_bytes(&line, b':'), parts);
    assert_eq!(join_bytes(&Vec::new(), b':'), Vec::<u8>::new());
}

#[test]
fn unsigned_numbers() {
    assert_eq!(parse_u32(b"1042"), Some(1042));
    assert_eq!(parse_u32(b"+7"), Some(7));
    assert_eq!(parse_u32(b"007"), Some(7));
    assert_eq!(parse_u32(b"4294967295"), Some(4294967295));
    assert_eq!(parse_u32(b"4294967296"), None);
    assert_eq!(parse_u32(b""), None);
    assert_eq!(parse_u32(b"+"), None);
    assert_eq!(parse_u32(b"-1"), None);
    assert_eq!(parse_u32(b"12a"), None);
    assert_eq!(parse_u32(b" 12"), None);
    assert_eq!(parse_number(b"65535", 0xffff), Some(65535));
    assert_eq!(parse_number(b"65536", 0xffff), None);
    assert_eq!(parse_number(b"99999999999999999999999", u64::MAX), None);
}

#[test]
fn signed_numbers() {
    assert_eq!(parse_i64(b"-9223372036854775808"), Some(i64::MIN));
    assert_eq!(parse_i64(b"9223372036854775807"), Some(i64::MAX));
    assert_eq!(parse_i64(b"9223372036854775808"), None);
    assert_eq!(parse_i64(b"-9223372036854775809"), None);
    assert_eq!(parse_i64(b"-"), None);
    assert_eq!(parse_i64(b"-+5"), None);
    assert_eq!(parse_i64(b"+5"), Some(5));
    assert_eq!(parse_i64(b"x"), None);
}

#[test]
fn decimal_forms() {
    let mut out = b"n=".to_vec();
    push_decimal(&mut out, 0);
    push_decimal(&mut out, 1042);
    assert_eq!(out, b"n=01042".to_vec());
    let mut s = Vec::new();
    push_signed(&mut s, -403);
    push_signed(&mut s, i64::MIN);
    assert_eq!(s, b"-403-9223372036854775808".to_vec());
    let mut back = Vec::new();
    push_decimal(&mut back, 4294967295);
    assert_eq!(parse_u32(&back), Some(4294967295));
}

#[test]
fn lower_case_and_trimming() {
    assert_eq!(to_lower(b"GetPwNam_1"), b"getpwnam_1".to_vec());
    assert_eq!(trim_end_bytes(b"200 OK \r\n"), b"200 OK".to_vec());
    assert_eq!(trim_end_bytes(b" \n"), Vec::<u8>::new());
    assert!(bytes_eq(b"abc", b"abc"));
    assert!(!bytes_eq(b"abc", b"abd"));
    assert!(!bytes_eq(b"abc", b"ab"));
}

#[test]
fn whitespace_of_unicode_is_found() {
    assert!(contains_whitespace(b"a b"));
    assert!(contains_whitespace("a\u{a0}b".as_bytes()));
    assert!(contains_whitespace("a\u{2003}b".as_bytes()));
    assert!(contains_whitespace("a\u{3000}".as_bytes()));
    assert!(contains_whitespace("\u{85}".as_bytes()));
    assert!(contains_whitespace("x\u{1680}".as_bytes()));
    assert!(contains_whitespace("x\u{2028}\u{205f}".as_bytes()));
    assert!(!contains_whitespace("truus\u{e9}\u{2010}".as_bytes()));
    assert!(!contains_whitespace(b""));
}

#[test]
fn trimming_at_both_ends() {
    assert_eq!(trim_bytes(b"  a b \t\r\n"), b"a b".to_vec());
    assert_eq!(trim_bytes(b"a"), b"a".to_vec());
    assert_eq!(trim_bytes(b" \t "), Vec::<u8>::new());
    assert_eq!(trim_bytes(b""), Vec::<u8>::new());
    assert_eq!(trim_bytes(b"\x0b\x0cx\x0b"), b"x".to_vec());
    assert_eq!(trim_bytes("\u{a0}x".as_bytes()), "\u{a0}x".as_bytes().to_vec());
}
