//! Percent-encoding as URLs and form bodies use it: which bytes each encode
//! set escapes, what an escaped string decodes to, and how the two relate.

use vstd::prelude::*;
use vstd::string::StringSliceAdditionalSpecFns;
use vstd::slice::slice_subrange;
use vstd::utf8::{decode_utf8, valid_utf8};

verus! {

/// The encode sets that the system uses.
#[derive(PartialEq, Eq, Structural, Clone, Copy, Debug)]
pub enum EncodeSet {
    /// Query strings: controls, non-ASCII, space, `"`, `#`, `<`, `>`.
    Query,
    /// Paths: the query set and `` ` ``, `?`, `{`, `}`.
    Default,
    /// Path segments: the default set and `%`, `/`.
    PathSegment,
}

/// Whether an encode set escapes a byte.
pub open spec fn in_set(set: EncodeSet, b: u8) -> bool {
    let simple = b < 0x20 || b > 0x7e;
    let query = simple || b == 0x20 || b == 0x22 || b == 0x23 || b == 0x3c || b == 0x3e;
    let default = query || b == 0x60 || b == 0x3f || b == 0x7b || b == 0x7d;
    match set {
        EncodeSet::Query => query,
        EncodeSet::Default => default,
        EncodeSet::PathSegment => default || b == 0x25 || b == 0x2f,
    }
}

/// The upper-case hexadecimal digit for a value below 16.
pub open spec fn hex_upper(n: int) -> u8 {
    if n < 10 {
        (48 + n) as u8
    } else {
        (55 + n) as u8
    }
}

/// How one byte is written: `%` and two upper-case hexadecimal digits if the
/// set escapes it, the byte itself otherwise.
pub open spec fn encode_byte(set: EncodeSet, b: u8) -> Seq<u8> {
    if in_set(set, b) {
        seq![0x25u8, hex_upper(b as int / 16), hex_upper(b as int % 16)]
    } else {
        seq![b]
    }
}

/// The percent-encoding of a byte string under an encode set.
pub open spec fn percent_encoded(set: EncodeSet, s: Seq<u8>) -> Seq<u8>
    decreases s.len(),
{
    if s.len() == 0 {
        Seq::empty()
    } else {
        encode_byte(set, s[0]) + percent_encoded(set, s.skip(1))
    }
}

/// The value of a hexadecimal digit of either case.
pub open spec fn hex_val(b: u8) -> Option<u8> {
    if 48 <= b && b <= 57 {
        Some((b - 48) as u8)
    } else if 65 <= b && b <= 70 {
        Some((b - 55) as u8)
    } else if 97 <= b && b <= 102 {
        Some((b - 87) as u8)
    } else {
        None
    }
}

/// Whether an escape starts at the front of `s`: `%` and two hexadecimal digits.
pub open spec fn escape_at_start(s: Seq<u8>) -> bool {
    s.len() >= 3 && s[0] == 0x25 && hex_val(s[1]) is Some && hex_val(s[2]) is Some
}

/// The byte that the escape at the front of `s` stands for.
pub open spec fn escape_value(s: Seq<u8>) -> u8 {
    (hex_val(s[1]).unwrap() * 16 + hex_val(s[2]).unwrap()) as u8
}

/// The steps of decoding: for each escape or plain byte of the input, the
/// byte it starts with and the byte it stands for. A `%` that is not followed
/// by two hexadecimal digits stands for itself.
pub open spec fn decode_pairs(s: Seq<u8>) -> Seq<(u8, u8)>
    decreases s.len(),
{
    if s.len() == 0 {
        Seq::empty()
    } else if escape_at_start(s) {
        seq![(s[0], escape_value(s))] + decode_pairs(s.skip(3))
    } else {
        seq![(s[0], s[0])] + decode_pairs(s.skip(1))
    }
}

/// The byte string that a percent-encoded string stands for.
pub open spec fn percent_decoded(s: Seq<u8>) -> Seq<u8> {
    decode_pairs(s).map_values(|p: (u8, u8)| p.1)
}

/// Whether some escape of `s` stands for a `/`.
pub open spec fn has_encoded_slash(s: Seq<u8>) -> bool {
    exists|i: int|
        0 <= i < decode_pairs(s).len() && (#[trigger] decode_pairs(s)[i]).0 != 0x2f && decode_pairs(
            s,
        )[i].1 == 0x2f
}

/// Decoding unfolds one step at a time.
pub proof fn lemma_decoded_unfold(s: Seq<u8>)
    requires
        s.len() > 0,
    ensures
        escape_at_start(s) ==> percent_decoded(s) == seq![escape_value(s)] + percent_decoded(
            s.skip(3),
        ),
        !escape_at_start(s) ==> percent_decoded(s) == seq![s[0]] + percent_decoded(s.skip(1)),
{
    if escape_at_start(s) {
        assert(percent_decoded(s) =~= seq![escape_value(s)] + percent_decoded(s.skip(3)));
    } else {
        assert(percent_decoded(s) =~= seq![s[0]] + percent_decoded(s.skip(1)));
    }
}

/// Whether `s` holds a `%` that is followed by two hexadecimal digits.
pub open spec fn has_escape(s: Seq<u8>) -> bool {
    exists|i: int| 0 <= i < s.len() && #[trigger] escape_at_start(s.skip(i))
}

/// What an encoder writes and nothing else: every `%` starts an escape with
/// upper-case digits for a byte that the set escapes, and no other byte is
/// one that the set escapes.
pub open spec fn canonical(set: EncodeSet, s: Seq<u8>) -> bool
    decreases s.len(),
{
    if s.len() == 0 {
        true
    } else if s[0] == 0x25 {
        &&& escape_at_start(s)
        &&& in_set(set, escape_value(s))
        &&& s[1] == hex_upper(escape_value(s) as int / 16)
        &&& s[2] == hex_upper(escape_value(s) as int % 16)
        &&& canonical(set, s.skip(3))
    } else {
        !in_set(set, s[0]) && canonical(set, s.skip(1))
    }
}

/// The two digits that an encoder writes decode to the byte they were written for.
pub proof fn lemma_hex_round_trip(b: u8)
    ensures
        hex_val(hex_upper(b as int / 16)) == Some((b / 16) as u8),
        hex_val(hex_upper(b as int % 16)) == Some((b % 16) as u8),
        ((b / 16) * 16 + b % 16) as u8 == b,
{
}

/// A text without a byte that the set escapes is encoded as it is.
pub proof fn lemma_encode_plain(set: EncodeSet, s: Seq<u8>)
    requires
        forall|i: int| 0 <= i < s.len() ==> !in_set(set, #[trigger] s[i]),
    ensures
        percent_encoded(set, s) == s,
    decreases s.len(),
{
    if s.len() > 0 {
        assert(!in_set(set, s[0]));
        assert forall|i: int| 0 <= i < s.skip(1).len() implies !in_set(
            set,
            #[trigger] s.skip(1)[i],
        ) by {
            assert(s.skip(1)[i] == s[i + 1]);
        }
        lemma_encode_plain(set, s.skip(1));
        assert(seq![s[0]] + s.skip(1) =~= s);
    }
}

/// Encoding then decoding gives the input back, provided that the set
/// escapes `%` or the input holds no `%` followed by two hexadecimal digits.
pub proof fn lemma_decode_encode(set: EncodeSet, s: Seq<u8>)
    requires
        in_set(set, 0x25) || !has_escape(s),
    ensures
        percent_decoded(percent_encoded(set, s)) == s,
    decreases s.len(),
{
    if s.len() == 0 {
        assert(percent_decoded(Seq::<u8>::empty()) =~= Seq::<u8>::empty());
    } else {
        let rest = s.skip(1);
        let e = percent_encoded(set, s);
        let er = percent_encoded(set, rest);
        if !in_set(set, 0x25) {
            assert forall|i: int| 0 <= i < rest.len() implies !escape_at_start(
                #[trigger] rest.skip(i),
            ) by {
                assert(rest.skip(i) == s.skip(i + 1));
            }
        }
        lemma_decode_encode(set, rest);
        let b = s[0];
        if in_set(set, b) {
            lemma_hex_round_trip(b);
            assert(e =~= seq![0x25u8, hex_upper(b as int / 16), hex_upper(b as int % 16)] + er);
            assert(escape_at_start(e));
            assert(escape_value(e) == b);
            assert(e.skip(3) =~= er);
            lemma_decoded_unfold(e);
            assert(seq![b] + rest =~= s);
        } else {
            assert(e =~= seq![b] + er);
            assert(e.skip(1) =~= er);
            if b == 0x25 {
                assert(s.skip(0) == s);
                assert(!escape_at_start(s));
                if rest.len() > 0 {
                    let c = rest[0];
                    assert(er == encode_byte(set, c) + percent_encoded(set, rest.skip(1)));
                    if in_set(set, c) {
                        assert(e[1] == 0x25);
                    } else {
                        assert(e[1] == c);
                        if rest.len() > 1 {
                            let d = rest[1];
                            let err = percent_encoded(set, rest.skip(1));
                            assert(err == encode_byte(set, d) + percent_encoded(
                                set,
                                rest.skip(1).skip(1),
                            ));
                            if in_set(set, d) {
                                assert(e[2] == 0x25);
                            } else {
                                assert(e[2] == d);
                            }
                        } else {
                            assert(percent_encoded(set, rest.skip(1)) =~= Seq::<u8>::empty());
                            assert(e.len() == 2);
                        }
                    }
                } else {
                    assert(er =~= Seq::<u8>::empty());
                }
                assert(!escape_at_start(e));
            } else {
                assert(!escape_at_start(e));
            }
            lemma_decoded_unfold(e);
            assert(seq![b] + rest =~= s);
        }
    }
}

/// Decoding then encoding gives a canonical string back.
pub proof fn law_encode_decode(set: EncodeSet, s: Seq<u8>)
    requires
        canonical(set, s),
    ensures
        percent_encoded(set, percent_decoded(s)) == s,
    decreases s.len(),
{
    if s.len() == 0 {
        assert(percent_decoded(s) =~= Seq::<u8>::empty());
    } else {
        lemma_decoded_unfold(s);
        if s[0] == 0x25 {
            law_encode_decode(set, s.skip(3));
            let d = percent_decoded(s);
            let b = escape_value(s);
            assert(d[0] == b);
            assert(d.skip(1) =~= percent_decoded(s.skip(3)));
            assert(percent_encoded(set, d) =~= s);
        } else {
            law_encode_decode(set, s.skip(1));
            let d = percent_decoded(s);
            assert(d[0] == s[0]);
            assert(d.skip(1) =~= percent_decoded(s.skip(1)));
            assert(percent_encoded(set, d) =~= s);
        }
    }
}

/// An encoded string holds none of the bytes that its set escapes: in
/// particular no space, no control byte and nothing outside ASCII.
pub proof fn lemma_encoded_clean(set: EncodeSet, s: Seq<u8>, i: int)
    requires
        0 <= i < percent_encoded(set, s).len(),
    ensures
        percent_encoded(set, s)[i] == 0x25 || !in_set(set, percent_encoded(set, s)[i]),
    decreases s.len(),
{
    if s.len() > 0 {
        let head = encode_byte(set, s[0]);
        if i >= head.len() {
            lemma_encoded_clean(set, s.skip(1), i - head.len());
        }
    }
}


#[verifier::external_type_specification]
#[verifier::external_body]
pub struct ExUtf8Error(std::str::Utf8Error);

#[verifier::external_type_specification]
#[verifier::external_body]
pub struct ExFromUtf8Error(std::string::FromUtf8Error);

/// `percent_encoding::percent_encode` with the crate's `QUERY_ENCODE_SET`,
/// collected into bytes. The contract restates the crate's encoder: a byte of
/// the set becomes `%` and two upper-case hexadecimal digits, any other byte
/// is copied.
#[verifier::external_body]
fn encode_with_query_set(input: &[u8]) -> (r: Vec<u8>)
    ensures
        r@ == percent_encoded(EncodeSet::Query, input@),
{
    percent_encoding::percent_encode(input, percent_encoding::QUERY_ENCODE_SET)
        .collect::<String>()
        .into_bytes()
}

/// `percent_encoding::percent_encode` with the crate's `DEFAULT_ENCODE_SET`,
/// collected into bytes; the contract restates the crate's encoder.
#[verifier::external_body]
fn encode_with_default_set(input: &[u8]) -> (r: Vec<u8>)
    ensures
        r@ == percent_encoded(EncodeSet::Default, input@),
{
    percent_encoding::percent_encode(input, percent_encoding::DEFAULT_ENCODE_SET)
        .collect::<String>()
        .into_bytes()
}

/// `percent_encoding::percent_encode` with the crate's
/// `PATH_SEGMENT_ENCODE_SET`, collected into bytes; the contract restates the
/// crate's encoder.
#[verifier::external_body]
fn encode_with_path_segment_set(input: &[u8]) -> (r: Vec<u8>)
    ensures
        r@ == percent_encoded(EncodeSet::PathSegment, input@),
{
    percent_encoding::percent_encode(input, percent_encoding::PATH_SEGMENT_ENCODE_SET)
        .collect::<String>()
        .into_bytes()
}

/// `percent_encoding::percent_decode`, collected into bytes. The contract
/// restates the crate's decoder: `%` and two hexadecimal digits of either
/// case become one byte, everything else is copied.
#[verifier::external_body]
pub(crate) fn decode_with_crate(input: &[u8]) -> (r: Vec<u8>)
    ensures
        r@ == percent_decoded(input@),
{
    percent_encoding::percent_decode(input).collect::<Vec<u8>>()
}

/// `std::str::from_utf8`: succeeds exactly on well-formed UTF-8, and the
/// string it gives has the bytes it was given.
#[verifier::external_body]
pub(crate) fn str_from_utf8(b: &[u8]) -> (r: Result<&str, std::str::Utf8Error>)
    ensures
        r is Ok <==> valid_utf8(b@),
        r matches Ok(s) ==> s.spec_bytes() == b@ && s@ == decode_utf8(b@),
{
    std::str::from_utf8(b)
}

/// `String::from_utf8`: succeeds exactly on well-formed UTF-8, and the string
/// it gives is the text that the bytes encode.
#[verifier::external_body]
fn string_from_utf8(v: Vec<u8>) -> (r: Result<String, std::string::FromUtf8Error>)
    ensures
        r is Ok <==> valid_utf8(v@),
        r matches Ok(s) ==> s@ == decode_utf8(v@),
{
    String::from_utf8(v)
}

/// Percent-encodes `input` under an encode set.
pub fn percent_encode(input: &[u8], set: EncodeSet) -> (r: Vec<u8>)
    ensures
        r@ == percent_encoded(set, input@),
{
    match set {
        EncodeSet::Query => encode_with_query_set(input),
        EncodeSet::Default => encode_with_default_set(input),
        EncodeSet::PathSegment => encode_with_path_segment_set(input),
    }
}

/// Percent-decodes a form value or a password.
pub fn percent_decode_value(input: &[u8]) -> (r: Vec<u8>)
    ensures
        r@ == percent_decoded(input@),
{
    decode_with_crate(input)
}

/// The value of a hexadecimal digit.
pub fn hex_digit(b: u8) -> (r: Option<u8>)
    ensures
        r == hex_val(b),
{
    if 48 <= b && b <= 57 {
        Some(b - 48)
    } else if 65 <= b && b <= 70 {
        Some(b - 55)
    } else if 97 <= b && b <= 102 {
        Some(b - 87)
    } else {
        None
    }
}

/// The byte that the two bytes at `pos` stand for, if both are hexadecimal
/// digits. `pos` is the position after a `%`.
pub fn after_percent_sign(s: &[u8], pos: usize) -> (r: Option<u8>)
    requires
        1 <= pos <= s@.len(),
        s@[pos - 1] == 0x25,
    ensures
        r is Some <==> escape_at_start(s@.skip(pos - 1)),
        r matches Some(b) ==> b == escape_value(s@.skip(pos - 1)),
{
    if s.len() - pos < 2 {
        return None;
    }
    let h = hex_digit(s[pos]);
    let l = hex_digit(s[pos + 1]);
    match (h, l) {
        (Some(h), Some(l)) => Some(h * 0x10 + l),
        _ => None,
    }
}

/// A cursor over a percent-encoded string that yields, for each escape or
/// plain byte, the byte it starts with and the byte it stands for.
#[derive(Debug, PartialEq, Eq)]
pub struct PercentDecoder<'a> {
    bytes: &'a [u8],
    pos: usize,
}

impl<'a> PercentDecoder<'a> {
    /// The input that is still to be decoded.
    pub closed spec fn remaining(&self) -> Seq<u8> {
        if self.pos <= self.bytes@.len() {
            self.bytes@.skip(self.pos as int)
        } else {
            Seq::empty()
        }
    }

    /// A decoder over the bytes of a string.
    pub fn new(input: &'a str) -> (r: PercentDecoder<'a>)
        ensures
            r.remaining() == input.spec_bytes(),
    {
        let bytes = input.as_bytes();
        assert(bytes@.skip(0) == bytes@);
        PercentDecoder { bytes, pos: 0 }
    }

    /// A decoder over a byte string.
    pub fn from_bytes(input: &'a [u8]) -> (r: PercentDecoder<'a>)
        ensures
            r.remaining() == input@,
    {
        assert(input@.skip(0) == input@);
        PercentDecoder { bytes: input, pos: 0 }
    }

    /// The next step of decoding, or `None` at the end of the input.
    pub fn next(&mut self) -> (r: Option<(u8, u8)>)
        ensures
            old(self).remaining().len() == 0 ==> r is None && final(self).remaining().len() == 0,
            old(self).remaining().len() > 0 ==> r == Some(decode_pairs(old(self).remaining())[0])
                && decode_pairs(old(self).remaining()) == seq![r.unwrap()] + decode_pairs(
                final(self).remaining(),
            ) && final(self).remaining().len() < old(self).remaining().len(),
    {
        if self.pos >= self.bytes.len() {
            return None;
        }
        let ghost before = self.remaining();
        let byte = self.bytes[self.pos];
        assert(before[0] == byte);
        if byte == 0x25 {
            match after_percent_sign(self.bytes, self.pos + 1) {
                Some(c) => {
                    self.pos = self.pos + 3;
                    assert(self.remaining() == before.skip(3));
                    Some((byte, c))
                },
                None => {
                    self.pos = self.pos + 1;
                    assert(self.remaining() == before.skip(1));
                    Some((byte, byte))
                },
            }
        } else {
            self.pos = self.pos + 1;
            assert(self.remaining() == before.skip(1));
            Some((byte, byte))
        }
    }
}

/// Whether the part `start..end` of an optional buffer is well-formed UTF-8.
/// Without a buffer there is nothing to check.
pub fn ok_utf8(bufp: Option<&Vec<u8>>, start: usize, end: usize) -> (r: bool)
    requires
        bufp matches Some(b) ==> start <= end <= b@.len(),
    ensures
        r == (match bufp {
            None => true,
            Some(b) => valid_utf8(b@.subrange(start as int, end as int)),
        }),
{
    match bufp {
        None => true,
        Some(b) => {
            let part = slice_subrange(b.as_slice(), start, end);
            match str_from_utf8(part) {
                Ok(_) => true,
                Err(_) => false,
            }
        },
    }
}

/// Decodes a percent-encoded byte string.
pub fn percent_decode(s: &[u8]) -> (r: Vec<u8>)
    ensures
        r@ == percent_decoded(s@),
{
    let (v, _) = decode_steps(s);
    v
}

/// Decodes `s` and tells whether any escape stood for a `/`.
fn decode_steps(s: &[u8]) -> (r: (Vec<u8>, bool))
    ensures
        r.0@ == percent_decoded(s@),
        r.1 == has_encoded_slash(s@),
{
    let mut v: Vec<u8> = Vec::new();
    let mut encoded_slash = false;
    let mut it = PercentDecoder::from_bytes(s);
    let ghost all = decode_pairs(s@);
    let ghost mut done: Seq<(u8, u8)> = Seq::empty();
    loop
        invariant
            all == decode_pairs(s@),
            all == done + decode_pairs(it.remaining()),
            v@ == done.map_values(|p: (u8, u8)| p.1),
            encoded_slash == (exists|i: int|
                0 <= i < done.len() && (#[trigger] done[i]).0 != 0x2f && done[i].1 == 0x2f),
        decreases it.remaining().len(),
    {
        let ghost rem = it.remaining();
        match it.next() {
            None => {
                proof {
                    assert(decode_pairs(rem) =~= Seq::<(u8, u8)>::empty());
                    assert(all =~= done);
                }
                return (v, encoded_slash);
            },
            Some((orig, byte)) => {
                let ghost prev = done;
                proof {
                    done = done.push((orig, byte));
                    assert(all =~= done + decode_pairs(it.remaining()));
                    assert(done.map_values(|p: (u8, u8)| p.1) =~= prev.map_values(
                        |p: (u8, u8)| p.1,
                    ).push(byte));
                }
                if orig != 0x2f && byte == 0x2f {
                    encoded_slash = true;
                    assert(done[done.len() - 1].0 != 0x2f && done[done.len() - 1].1 == 0x2f);
                } else {
                    proof {
                        if exists|i: int|
                            0 <= i < done.len() && (#[trigger] done[i]).0 != 0x2f && done[i].1
                                == 0x2f {
                            let i = choose|i: int|
                                0 <= i < done.len() && (#[trigger] done[i]).0 != 0x2f && done[i].1
                                    == 0x2f;
                            assert(i < prev.len());
                            assert(prev[i] == done[i]);
                        }
                        if encoded_slash {
                            let i = choose|i: int|
                                0 <= i < prev.len() && (#[trigger] prev[i]).0 != 0x2f && prev[i].1
                                    == 0x2f;
                            assert(done[i] == prev[i]);
                        }
                    }
                }
                v.push(byte);
            },
        }
    }
}

/// Decodes a percent-encoded path. The first part of the result is the
/// decoded text if it is well-formed UTF-8; the second tells whether an
/// escape stood for a `/`.
pub fn percent_decode_utf8(s: &str) -> (r: (Option<String>, bool))
    ensures
        r.0 is Some <==> valid_utf8(percent_decoded(s.spec_bytes())),
        r.0 matches Some(t) ==> t@ == decode_utf8(percent_decoded(s.spec_bytes())),
        r.1 == has_encoded_slash(s.spec_bytes()),
{
    let (v, slash) = decode_steps(s.as_bytes());
    match string_from_utf8(v) {
        Ok(t) => (Some(t), slash),
        Err(_) => (None, slash),
    }
}


/// Decodes a percent-encoded path given as bytes. The first part of the
/// result is the decoded path if it is well-formed UTF-8; the second tells
/// whether an escape stood for a `/`.
pub fn percent_decode_path(s: &[u8]) -> (r: (Option<Vec<u8>>, bool))
    ensures
        r.0 is Some <==> valid_utf8(percent_decoded(s@)),
        r.0 matches Some(t) ==> t@ == percent_decoded(s@),
        r.1 == has_encoded_slash(s@),
{
    let (v, slash) = decode_steps(s);
    match str_from_utf8(v.as_slice()) {
        Ok(_) => (Some(v), slash),
        Err(_) => (None, slash),
    }
}


/// Whether a byte is one of the digits that an encoder writes.
pub open spec fn upper_hex(b: u8) -> bool {
    (0x30 <= b && b <= 0x39) || (0x41 <= b && b <= 0x46)
}

/// A byte of an encoded string is a byte of the input, a `%`, or a digit of an escape.
pub proof fn lemma_encoded_bytes(set: EncodeSet, s: Seq<u8>, b: u8)
    requires
        crate::text::has_byte(percent_encoded(set, s), b),
    ensures
        crate::text::has_byte(s, b) || b == 0x25 || upper_hex(b),
    decreases s.len(),
{
    let e = percent_encoded(set, s);
    let i = choose|i: int| 0 <= i < e.len() && e[i] == b;
    if s.len() > 0 {
        let head = encode_byte(set, s[0]);
        if i < head.len() {
            if !in_set(set, s[0]) {
                assert(s[0] == b);
            }
        } else {
            let rest = percent_encoded(set, s.skip(1));
            assert(rest[i - head.len()] == b);
            lemma_encoded_bytes(set, s.skip(1), b);
            if crate::text::has_byte(s.skip(1), b) {
                let k = choose|k: int| 0 <= k < s.skip(1).len() && s.skip(1)[k] == b;
                assert(s[k + 1] == b);
            }
        }
    }
}

/// A string without `%` decodes to itself.
pub proof fn lemma_decode_plain(s: Seq<u8>)
    requires
        !crate::text::has_byte(s, 0x25),
    ensures
        percent_decoded(s) == s,
    decreases s.len(),
{
    if s.len() == 0 {
        assert(percent_decoded(s) =~= s);
    } else {
        assert(s[0] != 0x25);
        assert forall|i: int| 0 <= i < s.skip(1).len() implies s.skip(1)[i] != 0x25 by {
            assert(s.skip(1)[i] == s[i + 1]);
        }
        lemma_decode_plain(s.skip(1));
        lemma_decoded_unfold(s);
        assert(seq![s[0]] + s.skip(1) =~= s);
    }
}

/// A string of ASCII bytes is well-formed UTF-8.
pub proof fn lemma_ascii_is_utf8(s: Seq<u8>)
    requires
        forall|i: int| 0 <= i < s.len() ==> s[i] < 0x80,
    ensures
        valid_utf8(s),
    decreases s.len(),
{
    if s.len() > 0 {
        let b = s[0];
        assert(b < 0x80);
        assert(b & 0x80 == 0) by (bit_vector)
            requires
                b < 0x80,
        ;
        assert(vstd::utf8::is_leading_byte_width_1(b));
        assert(vstd::utf8::length_of_first_codepoint(s) == 1);
        assert(vstd::utf8::valid_first_scalar(s));
        assert(vstd::utf8::pop_first_scalar(s) == s.skip(1));
        assert forall|i: int| 0 <= i < s.skip(1).len() implies s.skip(1)[i] < 0x80 by {
            assert(s.skip(1)[i] == s[i + 1]);
        }
        lemma_ascii_is_utf8(s.skip(1));
    }
}

} // verus!
