use webnis::percent::{
    after_percent_sign, hex_digit, ok_utf8, percent_decode, percent_decode_path,
    percent_decode_utf8, percent_decode_value, percent_encode, EncodeSet, PercentDecoder,
};

#[test]
fn test_percent_decode() {
    let s = "hallo%20daar";
    let d = percent_decode_utf8(s);
    let expected = (Some("hallo daar".to_string()), false);
    assert_eq!(d, expected);
}

#[test]
fn percent_decode_keeps_stray_percent() {
    assert_eq!(percent_decode(b"100%"), b"100%".to_vec());
    assert_eq!(percent_decode(b"%zz%4"), b"%zz%4".to_vec());
    assert_eq!(percent_decode(b"%41%62%2f"), b"Ab/".to_vec());
    assert_eq!(percent_decode_value(b"%41%62%2f%"), b"Ab/%".to_vec());
    assert_eq!(percent_decode_value(b"a+b%20c"), b"a+b c".to_vec());
}

#[test]
fn percent_decode_reports_encoded_slash() {
    assert_eq!(percent_decode_utf8("a%2Fb"), (Some("a/b".to_string()), true));
    assert_eq!(percent_decode_utf8("a/b"), (Some("a/b".to_string()), false));
    assert_eq!(percent_decode_utf8("%ff"), (None, false));
    assert_eq!(percent_decode_path(b"/x%2fy"), (Some(b"/x/y".to_vec()), true));
    assert_eq!(percent_decode_path(b"/x%c3%a9"), (Some("/x\u{e9}".as_bytes().to_vec()), false));
    assert_eq!(percent_decode_path(b"/x%c3"), (None, false));
}

#[test]
fn percent_encode_sets() {
    assert_eq!(percent_encode(b"foo bar?", EncodeSet::Default), b"foo%20bar%3F".to_vec());
    assert_eq!(percent_encode(b"foo bar?", EncodeSet::Query), b"foo%20bar?".to_vec());
    assert_eq!(percent_encode(b"a/b%c", EncodeSet::PathSegment), b"a%2Fb%25c".to_vec());
    assert_eq!(percent_encode(b"p:w d", EncodeSet::Query), b"p:w%20d".to_vec());
    assert_eq!(percent_encode(&[0, 0x7f, 0xff], EncodeSet::Query), b"%00%7F%FF".to_vec());
}

#[test]
fn percent_round_trip_on_password() {
    let pw = b"s3 cr:et% x";
    let enc = percent_encode(pw, EncodeSet::Query);
    assert_eq!(enc, b"s3%20cr:et%%20x".to_vec());
    assert!(!enc.contains(&b' '));
    assert_eq!(percent_decode(&enc), pw.to_vec());
}

#[test]
fn percent_sign_before_hex_digits_does_not_round_trip() {
    let pw = b"a%41";
    let enc = percent_encode(pw, EncodeSet::Query);
    assert_eq!(enc, b"a%41".to_vec());
    assert_eq!(percent_decode(&enc), b"aA".to_vec());
    let safe = percent_encode(pw, EncodeSet::PathSegment);
    assert_eq!(safe, b"a%2541".to_vec());
    assert_eq!(percent_decode(&safe), pw.to_vec());
}

#[test]
fn canonical_text_is_encoded_back_as_it_was() {
    let s = b"a%20b%22c";
    assert_eq!(percent_encode(&percent_decode(s), EncodeSet::Query), s.to_vec());
}

#[test]
fn decoder_steps() {
    let mut d = PercentDecoder::new("a%2Fb%");
    assert_eq!(d.next(), Some((b'a', b'a')));
    assert_eq!(d.next(), Some((b'%', b'/')));
    assert_eq!(d.next(), Some((b'b', b'b')));
    assert_eq!(d.next(), Some((b'%', b'%')));
    assert_eq!(d.next(), None);
    assert_eq!(d.next(), None);
    let mut e = PercentDecoder::from_bytes(b"%4");
    assert_eq!(e.next(), Some((b'%', b'%')));
    assert_eq!(e.next(), Some((b'4', b'4')));
    assert_eq!(e.next(), None);
}

#[test]
fn hex_digits_and_escapes() {
    assert_eq!(hex_digit(b'0'), Some(0));
    assert_eq!(hex_digit(b'a'), Some(10));
    assert_eq!(hex_digit(b'F'), Some(15));
    assert_eq!(hex_digit(b'g'), None);
    assert_eq!(after_percent_sign(b"%7e", 1), Some(0x7e));
    assert_eq!(after_percent_sign(b"%7", 1), None);
    assert_eq!(after_percent_sign(b"%", 1), None);
    assert_eq!(after_percent_sign(b"%x1", 1), None);
}

#[test]
fn utf8_check_of_a_part() {
    let buf = vec![b'a', 0xc3, 0xa9, b'b'];
    assert!(ok_utf8(Some(&buf), 0, 4));
    assert!(ok_utf8(Some(&buf), 1, 3));
    assert!(!ok_utf8(Some(&buf), 1, 2));
    assert!(!ok_utf8(Some(&buf), 2, 4));
    assert!(ok_utf8(Some(&buf), 2, 2));
    assert!(ok_utf8(None, 5, 1));
}
