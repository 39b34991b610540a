//! Matching of request paths against route patterns with `:param`, `*splat`
//! and `(optional)` parts, and the decoding of queries and bodies.

use vstd::prelude::*;
use vstd::string::StringSliceAdditionalSpecFns;
use vstd::utf8::valid_utf8;
use crate::json::Json;
use crate::percent::{
    decode_pairs, has_encoded_slash, percent_decode, percent_decode_path, percent_decoded,
    PercentDecoder, str_from_utf8,
};
use crate::text::{
    bytes_eq, clone_bytes, clone_opt, clone_pairs, copy_range, decimal, find_in_list, find_key,
    first_some, keys_of, lemma_first_some_stable, lit, lower_seq, opt_view, pairs_view, position,
    push_all, push_decimal, put_bytes, put_pair, split, split_bytes, splitn, splitn_bytes,
    to_lower, views,
};

verus! {

/// Whether a byte has a meaning of its own in a regular expression.
pub open spec fn is_meta(b: u8) -> bool {
    b == 0x5c || b == 0x2e || b == 0x2b || b == 0x2a || b == 0x3f || b == 0x28 || b == 0x29 || b
        == 0x7c || b == 0x5b || b == 0x5d || b == 0x7b || b == 0x7d || b == 0x5e || b == 0x24 || b
        == 0x23 || b == 0x26 || b == 0x2d || b == 0x7e
}

/// A text with a backslash before each byte that has a meaning of its own
/// in a regular expression.
pub open spec fn escaped(s: Seq<u8>) -> Seq<u8>
    decreases s.len(),
{
    if s.len() == 0 {
        Seq::empty()
    } else if is_meta(s[0]) {
        seq![0x5cu8, s[0]] + escaped(s.skip(1))
    } else {
        seq![s[0]] + escaped(s.skip(1))
    }
}

/// What `Regex::replace_all` makes of a text: every match of the pattern
/// replaced, with `$name` in the replacement standing for a group of the
/// match; `None` where the pattern is no regular expression.
pub uninterp spec fn regex_replaced(pattern: Seq<u8>, text: Seq<u8>, rep: Seq<u8>) -> Option<
    Seq<u8>,
>;

/// What `Regex::is_match` says of a pattern and a text; `None` where the
/// pattern is no regular expression.
pub uninterp spec fn regex_matches(pattern: Seq<u8>, text: Seq<u8>) -> Option<bool>;

/// What `Regex::captures` finds in a text: for each group of the pattern,
/// the whole match first, its name if it has one and the part of the text
/// it matched if it took part; `None` where the pattern is no regular
/// expression or does not match.
pub uninterp spec fn regex_captured(pattern: Seq<u8>, text: Seq<u8>) -> Option<
    Seq<(Option<Seq<u8>>, Option<Seq<u8>>)>,
>;

/// The byte sequences of a list of groups.
pub open spec fn groups_view(g: Seq<(Option<Vec<u8>>, Option<Vec<u8>>)>) -> Seq<
    (Option<Seq<u8>>, Option<Seq<u8>>),
> {
    g.map_values(
        |p: (Option<Vec<u8>>, Option<Vec<u8>>)|
            (crate::text::opt_view(p.0), crate::text::opt_view(p.1)),
    )
}

/// `regex::escape`: a backslash before each meta character.
#[verifier::external_body]
fn regex_escape(text: &str) -> (r: Vec<u8>)
    ensures
        r@ == escaped(text.spec_bytes()),
{
    regex::escape(text).into_bytes()
}

/// `Regex::new` and `Regex::replace_all`. The result depends on the
/// pattern, the text and the replacement alone.
#[verifier::external_body]
fn regex_replace_all(pattern: &str, text: &str, rep: &str) -> (r: Option<Vec<u8>>)
    ensures
        match regex_replaced(pattern.spec_bytes(), text.spec_bytes(), rep.spec_bytes()) {
            Some(x) => r matches Some(v) && v@ == x,
            None => r is None,
        },
{
    match regex::Regex::new(pattern) {
        Ok(re) => Some(re.replace_all(text, rep).into_owned().into_bytes()),
        Err(_) => None,
    }
}

/// `Regex::new` and `Regex::is_match`. The result depends on the pattern
/// and the text alone.
#[verifier::external_body]
fn regex_is_match(pattern: &str, text: &str) -> (r: Option<bool>)
    ensures
        r == regex_matches(pattern.spec_bytes(), text.spec_bytes()),
{
    match regex::Regex::new(pattern) {
        Ok(re) => Some(re.is_match(text)),
        Err(_) => None,
    }
}

/// `Regex::new`, `Regex::captures` and `Regex::capture_names`. The result
/// depends on the pattern and the text alone.
#[verifier::external_body]
pub(crate) fn regex_captures(pattern: &str, text: &str) -> (r: Option<
    Vec<(Option<Vec<u8>>, Option<Vec<u8>>)>,
>)
    ensures
        match regex_captured(pattern.spec_bytes(), text.spec_bytes()) {
            Some(x) => r matches Some(v) && groups_view(v@) == x,
            None => r is None,
        },
{
    let re = regex::Regex::new(pattern).ok()?;
    let caps = re.captures(text)?;
    Some(
        re.capture_names()
            .zip(caps.iter())
            .map(|(n, m)| (n.map(|s| s.as_bytes().to_vec()), m.map(|x| x.as_str().as_bytes().to_vec())))
            .collect(),
    )
}

/// A route pattern with its special characters set apart from the text
/// around them: `*`, `(` and `)` become the bytes 1, 2 and 3.
pub open spec fn marked(route: Seq<u8>) -> Seq<u8> {
    route.map_values(
        |b: u8|
            if b == 0x2a {
                1u8
            } else if b == 0x28 {
                2u8
            } else if b == 0x29 {
                3u8
            } else {
                b
            },
    )
}

/// The pattern that makes `(whatever)` optional.
pub open spec fn optional_pattern() -> Seq<u8> {
    lit("\\u{2}([^\\u{2}\\u{3}]*)\\u{3}")
}

/// The pattern for `:label`.
pub open spec fn label_pattern() -> Seq<u8> {
    lit(":([-_0-9a-zA-Z]+)")
}

/// The pattern for `*splat`.
pub open spec fn splat_pattern() -> Seq<u8> {
    lit("\\u{1}([-_0-9a-zA-Z]+)")
}

/// The regular expression for a route pattern: the pattern is escaped,
/// `(whatever)` becomes an optional group, `:label` a named group that
/// takes a path segment, `*splat` a named group that takes anything, and
/// the whole is anchored at both ends. `None` for a route that is not UTF-8
/// text, or where a step of the rewriting gives none.
pub open spec fn route_regex(route: Seq<u8>) -> Option<Seq<u8>> {
    if !valid_utf8(marked(route)) {
        None
    } else {
        let s0 = escaped(marked(route));
        if !valid_utf8(s0) {
            None
        } else {
            match regex_replaced(optional_pattern(), s0, lit("($1)?")) {
                None => None,
                Some(s1) => if !valid_utf8(s1) {
                    None
                } else {
                    match regex_replaced(label_pattern(), s1, lit("(?P<$1>[^/]+)")) {
                        None => None,
                        Some(s2) => if !valid_utf8(s2) {
                            None
                        } else {
                            match regex_replaced(splat_pattern(), s2, lit("(?P<$1>.*)")) {
                                None => None,
                                Some(s3) => Some(lit("^") + s3 + lit("$")),
                            }
                        },
                    }
                },
            }
        }
    }
}

fn replace_in(pattern: &str, text: &[u8], rep: &str) -> (r: Option<Vec<u8>>)
    ensures
        match (if valid_utf8(text@) {
            regex_replaced(lit(pattern), text@, lit(rep))
        } else {
            None
        }) {
            Some(x) => r matches Some(v) && v@ == x,
            None => r is None,
        },
{
    match str_from_utf8(text) {
        Ok(t) => regex_replace_all(pattern, t, rep),
        Err(_) => None,
    }
}

/// Turns a route pattern into a regular expression.
pub fn build_matcher_re(matcher: &[u8]) -> (r: Option<Vec<u8>>)
    ensures
        match route_regex(matcher@) {
            Some(x) => r matches Some(v) && v@ == x,
            None => r is None,
        },
{
    let mut s: Vec<u8> = Vec::new();
    let mut i: usize = 0;
    while i < matcher.len()
        invariant
            i <= matcher@.len(),
            s@ == marked(matcher@.take(i as int)),
        decreases matcher@.len() - i,
    {
        let b = matcher[i];
        let m: u8 = if b == 0x2a {
            1
        } else if b == 0x28 {
            2
        } else if b == 0x29 {
            3
        } else {
            b
        };
        proof {
            assert(matcher@.take(i + 1) == matcher@.take(i as int).push(b));
            assert(marked(matcher@.take(i as int).push(b)) == marked(matcher@.take(i as int)).push(
                m,
            ));
        }
        s.push(m);
        i += 1;
    }
    proof {
        assert(matcher@.take(i as int) == matcher@);
    }
    let s0 = match str_from_utf8(s.as_slice()) {
        Ok(t) => regex_escape(t),
        Err(_) => {
            return None;
        },
    };
    let s1 = match replace_in("\\u{2}([^\\u{2}\\u{3}]*)\\u{3}", s0.as_slice(), "($1)?") {
        Some(x) => x,
        None => {
            return None;
        },
    };
    let s2 = match replace_in(":([-_0-9a-zA-Z]+)", s1.as_slice(), "(?P<$1>[^/]+)") {
        Some(x) => x,
        None => {
            return None;
        },
    };
    let s3 = match replace_in("\\u{1}([-_0-9a-zA-Z]+)", s2.as_slice(), "(?P<$1>.*)") {
        Some(x) => x,
        None => {
            return None;
        },
    };
    let mut r: Vec<u8> = Vec::new();
    push_all(&mut r, "^".as_bytes());
    push_all(&mut r, s3.as_slice());
    push_all(&mut r, "$".as_bytes());
    Some(r)
}


/// The position, among the steps of decoding, of the last `=` that is
/// written as such; -1 if there is none.
pub open spec fn last_equal(pairs: Seq<(u8, u8)>) -> int
    decreases pairs.len(),
{
    if pairs.len() == 0 {
        -1
    } else if pairs.last().0 == 0x3d {
        pairs.len() - 1
    } else {
        last_equal(pairs.drop_last())
    }
}

/// The name and the value of one parameter of a query. The parameter is
/// percent-decoded; it is cut at the last `=` that is written as such,
/// unless that stands at its very start, in which case the whole parameter
/// is the name.
pub open spec fn param_pair(part: Seq<u8>) -> (Seq<u8>, Seq<u8>) {
    let d = percent_decoded(part);
    let e = last_equal(decode_pairs(part));
    if e <= 0 {
        (d, Seq::empty())
    } else {
        (d.take(e), d.skip(e + 1))
    }
}

/// Whether a parameter counts: decoded, it is not empty and is UTF-8 text.
pub open spec fn param_kept(part: Seq<u8>) -> bool {
    percent_decoded(part).len() > 0 && valid_utf8(percent_decoded(part))
}

/// The names and values of the parameters that count among the first `n` parts.
pub open spec fn kept_pairs(parts: Seq<Seq<u8>>, n: int) -> Seq<(Seq<u8>, Seq<u8>)>
    decreases n,
{
    if n <= 0 {
        Seq::empty()
    } else if param_kept(parts[n - 1]) {
        kept_pairs(parts, n - 1).push(param_pair(parts[n - 1]))
    } else {
        kept_pairs(parts, n - 1)
    }
}

/// The names and values of the parameters of a query, in order. The
/// parameters stand between `&`.
pub open spec fn query_pairs(s: Seq<u8>) -> Seq<(Seq<u8>, Seq<u8>)> {
    kept_pairs(split(s, 0x26), split(s, 0x26).len() as int)
}

/// Whether offsets lie within a buffer: start, equal sign and end, in this order.
pub open spec fn offsets_ok(q: Seq<u8>, offsets: Seq<(usize, usize, usize)>) -> bool {
    forall|i: int|
        0 <= i < offsets.len() ==> (#[trigger] offsets[i]).0 <= offsets[i].1 && offsets[i].1
            <= offsets[i].2 && offsets[i].2 <= q.len()
}

/// The name and value that one triple of offsets cuts out of a buffer.
pub open spec fn pair_at(q: Seq<u8>, o: (usize, usize, usize)) -> (Seq<u8>, Seq<u8>) {
    (
        q.subrange(o.0 as int, o.1 as int),
        if o.2 > o.1 + 1 {
            q.subrange(o.1 + 1, o.2 as int)
        } else {
            Seq::empty()
        },
    )
}

/// The names and values that offsets cut out of a buffer.
pub open spec fn pairs_at(q: Seq<u8>, offsets: Seq<(usize, usize, usize)>) -> Seq<
    (Seq<u8>, Seq<u8>),
> {
    offsets.map_values(|o: (usize, usize, usize)| pair_at(q, o))
}

/// Offsets cut the same out of a buffer that has grown at its end.
pub proof fn lemma_pairs_at_prefix(q1: Seq<u8>, q2: Seq<u8>, offsets: Seq<(usize, usize, usize)>)
    requires
        q1.len() <= q2.len(),
        q2.take(q1.len() as int) == q1,
        offsets_ok(q1, offsets),
    ensures
        pairs_at(q2, offsets) == pairs_at(q1, offsets),
        offsets_ok(q2, offsets),
{
    assert forall|i: int| 0 <= i < offsets.len() implies pair_at(q2, offsets[i]) == pair_at(
        q1,
        offsets[i],
    ) by {
        let o = offsets[i];
        assert forall|k: int| 0 <= k < q1.len() implies q2[k] == q1[k] by {
            assert(q2.take(q1.len() as int)[k] == q2[k]);
        }
        assert(q2.subrange(o.0 as int, o.1 as int) =~= q1.subrange(o.0 as int, o.1 as int));
        if o.2 > o.1 + 1 {
            assert(q2.subrange(o.1 + 1, o.2 as int) =~= q1.subrange(o.1 + 1, o.2 as int));
        }
    }
    assert(pairs_at(q2, offsets) =~= pairs_at(q1, offsets));
}

/// Whether offsets and buffer are what the decoding of a query gives:
/// without a query neither, and else a buffer and offsets that cut the
/// names and values of the query's parameters out of it.
pub open spec fn query_decoded(
    q: Option<Seq<u8>>,
    offsets: Option<Vec<(usize, usize, usize)>>,
    buffer: Option<Vec<u8>>,
) -> bool {
    match q {
        None => offsets is None && buffer is None,
        Some(s) => offsets is Some && buffer is Some && offsets_ok(
            buffer.unwrap()@,
            offsets.unwrap()@,
        ) && pairs_at(buffer.unwrap()@, offsets.unwrap()@) == query_pairs(s),
    }
}

/// Decodes one parameter and finds the last `=` that is written as such.
fn decode_param(part: &[u8]) -> (r: (Vec<u8>, Option<usize>))
    ensures
        r.0@ == percent_decoded(part@),
        match r.1 {
            Some(e) => e == last_equal(decode_pairs(part@)),
            None => last_equal(decode_pairs(part@)) == -1,
        },
        r.1 matches Some(e) ==> e < r.0@.len(),
{
    let mut v: Vec<u8> = Vec::new();
    let mut eq: Option<usize> = None;
    let mut it = PercentDecoder::from_bytes(part);
    let ghost all = decode_pairs(part@);
    let ghost mut done: Seq<(u8, u8)> = Seq::empty();
    loop
        invariant
            all == decode_pairs(part@),
            all == done + decode_pairs(it.remaining()),
            v@ == done.map_values(|p: (u8, u8)| p.1),
            match eq {
                Some(e) => e == last_equal(done) && e < done.len(),
                None => last_equal(done) == -1,
            },
        decreases it.remaining().len(),
    {
        let ghost rem = it.remaining();
        match it.next() {
            None => {
                proof {
                    assert(decode_pairs(rem) =~= Seq::<(u8, u8)>::empty());
                    assert(all =~= done);
                }
                return (v, eq);
            },
            Some((orig, byte)) => {
                let ghost prev = done;
                proof {
                    done = done.push((orig, byte));
                    assert(all =~= done + decode_pairs(it.remaining()));
                    assert(done.map_values(|p: (u8, u8)| p.1) =~= prev.map_values(
                        |p: (u8, u8)| p.1,
                    ).push(byte));
                    assert(done.drop_last() == prev);
                }
                if orig == 0x3d {
                    eq = Some(v.len());
                }
                v.push(byte);
            },
        }
    }
}

fn is_utf8(b: &[u8]) -> (r: bool)
    ensures
        r == valid_utf8(b@),
{
    match str_from_utf8(b) {
        Ok(_) => true,
        Err(_) => false,
    }
}

/// Decodes a query into a buffer and notes, for each parameter that counts,
/// where in the buffer it starts, where its name ends and where it ends.
/// Without a query there is neither buffer nor offsets.
pub fn decode_query_get_offsets(s: Option<&[u8]>) -> (r: (
    Option<Vec<(usize, usize, usize)>>,
    Option<Vec<u8>>,
))
    ensures
        query_decoded(
            match s {
                Some(q) => Some(q@),
                None => None,
            },
            r.0,
            r.1,
        ),
{
    let q = match s {
        Some(q) => q,
        None => {
            return (None, None);
        },
    };
    let parts = split_bytes(q, 0x26);
    let ghost ps = split(q@, 0x26);
    let mut buf: Vec<u8> = Vec::new();
    let mut offsets: Vec<(usize, usize, usize)> = Vec::new();
    let mut i: usize = 0;
    assert(pairs_at(buf@, offsets@) =~= Seq::<(Seq<u8>, Seq<u8>)>::empty());
    while i < parts.len()
        invariant
            i <= parts@.len(),
            ps == views(parts@),
            offsets_ok(buf@, offsets@),
            pairs_at(buf@, offsets@) == kept_pairs(ps, i as int),
        decreases parts@.len() - i,
    {
        assert(ps[i as int] == parts@[i as int]@);
        let (d, e) = decode_param(parts[i].as_slice());
        if d.len() > 0 && is_utf8(d.as_slice()) {
            let ghost before = buf@;
            let ghost old_offsets = offsets@;
            let start = buf.len();
            push_all(&mut buf, d.as_slice());
            let end = buf.len();
            let equal = match e {
                Some(x) => if x > 0 {
                    start + x
                } else {
                    end
                },
                None => end,
            };
            buf.push(0x26);
            offsets.push((start, equal, end));
            proof {
                assert(buf@.take(before.len() as int) =~= before);
                lemma_pairs_at_prefix(before, buf@, old_offsets);
                let o = (start, equal, end);
                let le = last_equal(decode_pairs(ps[i as int]));
                if le > 0 {
                    assert(buf@.subrange(start as int, equal as int) =~= d@.take(le));
                    if end > equal + 1 {
                        assert(buf@.subrange(equal + 1, end as int) =~= d@.skip(le + 1));
                    } else {
                        assert(d@.skip(le + 1) =~= Seq::<u8>::empty());
                    }
                } else {
                    assert(buf@.subrange(start as int, end as int) =~= d@);
                }
                assert(pair_at(buf@, o) == param_pair(ps[i as int]));
                assert(pairs_at(buf@, offsets@) =~= pairs_at(buf@, old_offsets).push(
                    pair_at(buf@, o),
                ));
            }
        }
        i += 1;
    }
    (Some(offsets), Some(buf))
}

/// The table that the first `n` pairs of a list give: a later pair takes
/// the place of an earlier one of the same name.
pub open spec fn as_table(pairs: Seq<(Seq<u8>, Seq<u8>)>, n: int) -> Seq<(Seq<u8>, Seq<u8>)>
    decreases n,
{
    if n <= 0 {
        Seq::empty()
    } else {
        put_pair(as_table(pairs, n - 1), pairs[n - 1].0, pairs[n - 1].1)
    }
}

/// The parameters of a query as a table of names and values, from the
/// buffer and the offsets of the decoded query.
pub fn map_query_params(q: &[u8], offsets: &Vec<(usize, usize, usize)>) -> (r: Vec<
    (Vec<u8>, Vec<u8>),
>)
    requires
        offsets_ok(q@, offsets@),
    ensures
        pairs_view(r@) == as_table(pairs_at(q@, offsets@), offsets@.len() as int),
{
    let mut map: Vec<(Vec<u8>, Vec<u8>)> = Vec::new();
    let mut i: usize = 0;
    assert(pairs_view(map@) =~= Seq::<(Seq<u8>, Seq<u8>)>::empty());
    while i < offsets.len()
        invariant
            i <= offsets@.len(),
            offsets_ok(q@, offsets@),
            pairs_view(map@) == as_table(pairs_at(q@, offsets@), i as int),
        decreases offsets@.len() - i,
    {
        let (start, equal, end) = offsets[i];
        assert(offsets@[i as int].0 <= offsets@[i as int].1);
        let key = copy_range(q, start, equal);
        let val = if end - equal > 1 {
            copy_range(q, equal + 1, end)
        } else {
            Vec::new()
        };
        put_bytes(&mut map, key, val);
        i += 1;
    }
    map
}


/// What the matcher remembers of a request it has looked at.
#[derive(Debug, PartialEq, Eq)]
pub struct MatchState {
    pub decoded_path: Vec<u8>,
    pub decoded_query: Option<Vec<u8>>,
    pub query_offsets: Option<Vec<(usize, usize, usize)>>,
    pub route_index: usize,
    pub body_params: Option<Vec<(Vec<u8>, Vec<u8>)>>,
}

/// A request as the matcher sees it: the method, the path and the query as
/// they were sent, the headers, and what the matcher has found out so far.
#[derive(Debug, PartialEq, Eq)]
pub struct Request {
    pub method: Vec<u8>,
    pub path: Vec<u8>,
    pub query: Option<Vec<u8>>,
    pub headers: Vec<(Vec<u8>, Vec<u8>)>,
    pub state: Option<MatchState>,
}

/// A route: the regular expression for its pattern, the methods it is for,
/// if it is not for all, and its label.
#[derive(Debug, PartialEq, Eq)]
pub struct Route {
    pub pattern: Vec<u8>,
    pub methods: Option<Vec<Vec<u8>>>,
    pub label: Option<Vec<u8>>,
}

/// The routes that requests are matched against, in order.
#[derive(Debug, PartialEq, Eq)]
pub struct Matcher {
    pub routes: Vec<Route>,
    pub encoded_slashes_ok: bool,
}

/// A matcher in the making.
#[derive(Debug, PartialEq, Eq)]
pub struct Builder {
    pub inner: Matcher,
}

/// A request that has matched a route.
#[derive(Debug, PartialEq, Eq)]
pub struct Match {
    pub idx: usize,
    pub label: Option<Vec<u8>>,
    /// The groups of the route's expression: the whole match first.
    pub caps: Vec<(Option<Vec<u8>>, Option<Vec<u8>>)>,
    pub query_params: Option<Vec<(Vec<u8>, Vec<u8>)>>,
    pub body_params: Option<Vec<(Vec<u8>, Vec<u8>)>>,
}

impl Builder {
    /// A matcher without routes.
    pub fn new() -> (r: Builder)
        ensures
            r.inner.routes@.len() == 0,
            !r.inner.encoded_slashes_ok,
    {
        Builder { inner: Matcher { routes: Vec::new(), encoded_slashes_ok: false } }
    }

    /// Adds a route for a pattern. Tells whether the pattern could be
    /// turned into a regular expression; if not, nothing is added.
    pub fn add(&mut self, s: &[u8]) -> (r: bool)
        ensures
            r == route_regex(s@) is Some,
            final(self).inner.encoded_slashes_ok == old(self).inner.encoded_slashes_ok,
            !r ==> final(self).inner.routes@ == old(self).inner.routes@,
            r ==> final(self).inner.routes@.len() == old(self).inner.routes@.len() + 1
                && final(self).inner.routes@.drop_last() == old(self).inner.routes@
                && final(self).inner.routes@.last().pattern@ == route_regex(s@).unwrap()
                && final(self).inner.routes@.last().methods is None
                && final(self).inner.routes@.last().label
                is None,
    {
        match build_matcher_re(s) {
            Some(pattern) => {
                self.inner.routes.push(Route { pattern, methods: None, label: None });
                assert(self.inner.routes@.drop_last() =~= old(self).inner.routes@);
                true
            },
            None => false,
        }
    }

    /// Labels the route that was added last.
    pub fn label(&mut self, label: &[u8])
        requires
            old(self).inner.routes@.len() > 0,
        ensures
            final(self).inner.encoded_slashes_ok == old(self).inner.encoded_slashes_ok,
            final(self).inner.routes@.len() == old(self).inner.routes@.len(),
            final(self).inner.routes@.drop_last() == old(self).inner.routes@.drop_last(),
            final(self).inner.routes@.last().pattern == old(self).inner.routes@.last().pattern,
            final(self).inner.routes@.last().methods == old(self).inner.routes@.last().methods,
            opt_view(final(self).inner.routes@.last().label) == Some(label@),
    {
        let mut route = self.inner.routes.pop().unwrap();
        route.label = Some(clone_bytes(label));
        self.inner.routes.push(route);
        assert(self.inner.routes@.drop_last() =~= old(self).inner.routes@.drop_last());
    }

    /// Makes the route that was added last a route for a method. A route
    /// without methods is for all methods.
    pub fn method(&mut self, method: &[u8])
        requires
            old(self).inner.routes@.len() > 0,
        ensures
            final(self).inner.encoded_slashes_ok == old(self).inner.encoded_slashes_ok,
            final(self).inner.routes@.len() == old(self).inner.routes@.len(),
            final(self).inner.routes@.drop_last() == old(self).inner.routes@.drop_last(),
            final(self).inner.routes@.last().pattern == old(self).inner.routes@.last().pattern,
            final(self).inner.routes@.last().label == old(self).inner.routes@.last().label,
            final(self).inner.routes@.last().methods matches Some(l)
                && views(l@) == (match old(self).inner.routes@.last().methods {
                Some(o) => views(o@),
                None => Seq::empty(),
            }).push(method@),
    {
        let mut route = self.inner.routes.pop().unwrap();
        let mut list = match route.methods {
            Some(l) => l,
            None => Vec::new(),
        };
        let ghost before = views(list@);
        list.push(clone_bytes(method));
        assert(views(list@) =~= before.push(method@));
        route.methods = Some(list);
        self.inner.routes.push(route);
        assert(self.inner.routes@.drop_last() =~= old(self).inner.routes@.drop_last());
    }

    /// The finished matcher.
    pub fn compile(self) -> (r: Matcher)
        ensures
            r == self.inner,
    {
        self.inner
    }
}

/// Whether `needle` stands somewhere in `hay`.
pub open spec fn has_sub(hay: Seq<u8>, needle: Seq<u8>) -> bool {
    exists|i: int|
        0 <= i && i + needle.len() <= hay.len() && #[trigger] hay.subrange(i, i + needle.len())
            == needle
}

/// Tests whether `needle` stands somewhere in `hay`.
pub fn contains_sub(hay: &[u8], needle: &[u8]) -> (r: bool)
    ensures
        r == has_sub(hay@, needle@),
{
    if needle.len() > hay.len() {
        return false;
    }
    let last = hay.len() - needle.len();
    let mut i: usize = 0;
    loop
        invariant
            i <= last,
            hay@.len() <= usize::MAX,
            last + needle@.len() == hay@.len(),
            forall|k: int| 0 <= k < i ==> #[trigger] hay@.subrange(k, k + needle@.len()) != needle@,
        decreases last - i,
    {
        let part = copy_range(hay, i, i + needle.len());
        if bytes_eq(part.as_slice(), needle) {
            return true;
        }
        if i == last {
            return false;
        }
        i += 1;
    }
}

/// The value of a header as text: the value itself if it is made of
/// visible ASCII, spaces and tabs, and nothing otherwise.
pub open spec fn header_text(v: Seq<u8>) -> Seq<u8> {
    if forall|i: int| 0 <= i < v.len() ==> ((0x20 <= #[trigger] v[i]
        && v[i] < 0x7f) || v[i] == 0x09) {
        v
    } else {
        Seq::empty()
    }
}

/// The names of a list of headers, in lower case.
pub open spec fn header_names(h: Seq<(Vec<u8>, Vec<u8>)>) -> Seq<Seq<u8>> {
    h.map_values(|p: (Vec<u8>, Vec<u8>)| lower_seq(p.0@))
}

/// The value of the first header of a name, names compared without regard to case.
pub open spec fn header_value(h: Seq<(Vec<u8>, Vec<u8>)>, name: Seq<u8>) -> Option<Seq<u8>> {
    let i = position(header_names(h), name);
    if 0 <= i < h.len() {
        Some(h[i].1@)
    } else {
        None
    }
}

/// Whether a request announces a body.
pub open spec fn announces_body(h: Seq<(Vec<u8>, Vec<u8>)>) -> bool {
    header_value(h, lit("content-length")) is Some || header_value(h, lit("transfer-encoding"))
        is Some
}

/// Whether the content type of a request is one of the two that bodies may have.
pub open spec fn body_type_ok(h: Seq<(Vec<u8>, Vec<u8>)>) -> bool {
    match header_value(h, lit("content-type")) {
        Some(v) => has_sub(header_text(v), lit("application/x-www-form-urlencoded")) || has_sub(
            header_text(v),
            lit("application/json"),
        ),
        None => false,
    }
}

fn find_header<'a>(h: &'a Vec<(Vec<u8>, Vec<u8>)>, name: &str) -> (r: Option<&'a Vec<u8>>)
    ensures
        match header_value(h@, lit(name)) {
            Some(v) => r matches Some(x) && x@ == v,
            None => r is None,
        },
{
    let ghost names = header_names(h@);
    let mut i: usize = 0;
    while i < h.len()
        invariant
            i <= h@.len(),
            names == header_names(h@),
            forall|k: int| 0 <= k < i ==> names[k] != lit(name),
        decreases h@.len() - i,
    {
        let l = to_lower(h[i].0.as_slice());
        if bytes_eq(l.as_slice(), name.as_bytes()) {
            proof {
                crate::text::lemma_position(names, lit(name));
                let r = position(names, lit(name));
                if r < i {
                    assert(names[r] == lit(name));
                }
                if i < r {
                    assert(names[i as int] != lit(name));
                }
            }
            return Some(&h[i].1);
        }
        i += 1;
    }
    proof {
        crate::text::lemma_position(names, lit(name));
        let r = position(names, lit(name));
        if r < names.len() {
            assert(names[r] == lit(name));
        }
    }
    None
}

fn text_of(v: &[u8]) -> (r: Vec<u8>)
    ensures
        r@ == header_text(v@),
{
    let mut i: usize = 0;
    while i < v.len()
        invariant
            i <= v@.len(),
            forall|k: int| 0 <= k < i ==> ((0x20 <= #[trigger] v@[k]
                && v@[k] < 0x7f) || v@[k] == 0x09),
        decreases v@.len() - i,
    {
        if !((0x20 <= v[i] && v[i] < 0x7f) || v[i] == 0x09) {
            return Vec::new();
        }
        i += 1;
    }
    clone_bytes(v)
}

/// Tests whether a request announces a body.
pub fn has_body(req: &Request) -> (r: bool)
    ensures
        r == announces_body(req.headers@),
{
    find_header(&req.headers, "content-length").is_some() || find_header(
        &req.headers,
        "transfer-encoding",
    ).is_some()
}

/// What a route makes of a path and a method.
#[derive(PartialEq, Eq, Structural, Clone, Copy, Debug)]
pub enum Verdict {
    NoMatch,
    WrongMethod,
    Match,
}

/// What a route makes of a decoded path and a method: the expression must
/// match the path, and the route must be for the method.
pub open spec fn route_verdict(route: Route, path: Seq<u8>, method: Seq<u8>) -> Verdict {
    if !valid_utf8(route.pattern@) || !valid_utf8(path) || regex_matches(route.pattern@, path)
        != Some(true) {
        Verdict::NoMatch
    } else {
        match route.methods {
            None => Verdict::Match,
            Some(l) => if position(views(l@), method) < l@.len() {
                Verdict::Match
            } else {
                Verdict::WrongMethod
            },
        }
    }
}

/// For each route, its index if it matches path and method.
pub open spec fn route_hits(routes: Seq<Route>, path: Seq<u8>, method: Seq<u8>) -> Seq<
    Option<int>,
> {
    Seq::new(
        routes.len(),
        |i: int|
            if route_verdict(routes[i], path, method) == Verdict::Match {
                Some(i)
            } else {
                None
            },
    )
}

/// The route that a request goes to: the first that matches path and
/// method. If there is none, the status is 405 where a route matches the
/// path but is for other methods, and 404 otherwise.
pub open spec fn route_choice(routes: Seq<Route>, path: Seq<u8>, method: Seq<u8>) -> Result<
    int,
    u16,
> {
    match first_some(route_hits(routes, path, method), routes.len() as int) {
        Some(i) => Ok(i),
        None => if exists|i: int|
            0 <= i < routes.len() && route_verdict(#[trigger] routes[i], path, method)
                == Verdict::WrongMethod {
            Err(405u16)
        } else {
            Err(404u16)
        },
    }
}

fn judge(route: &Route, path: &[u8], method: &[u8]) -> (r: Verdict)
    ensures
        r == route_verdict(*route, path@, method@),
{
    let p = match str_from_utf8(route.pattern.as_slice()) {
        Ok(p) => p,
        Err(_) => {
            return Verdict::NoMatch;
        },
    };
    let t = match str_from_utf8(path) {
        Ok(t) => t,
        Err(_) => {
            return Verdict::NoMatch;
        },
    };
    match regex_is_match(p, t) {
        Some(true) => {},
        _ => {
            return Verdict::NoMatch;
        },
    }
    match &route.methods {
        None => Verdict::Match,
        Some(l) => {
            if find_in_list(l, method) < l.len() {
                Verdict::Match
            } else {
                Verdict::WrongMethod
            }
        },
    }
}

/// What the first look at a request comes to: the index of the route it
/// goes to, or the status it is refused with. A path that does not decode
/// to UTF-8 text, or that holds an escaped `/` where that is not allowed,
/// is refused with 400; a POST that announces no body with 411; a POST
/// whose content type is neither a form nor JSON with 415.
pub open spec fn preflight_status(m: Matcher, req: Request) -> Result<int, u16> {
    let d = percent_decoded(req.path@);
    if !valid_utf8(d) {
        Err(400u16)
    } else if has_encoded_slash(req.path@) && !m.encoded_slashes_ok {
        Err(400u16)
    } else if req.method@ == lit("POST") && !announces_body(req.headers@) {
        Err(411u16)
    } else if req.method@ == lit("POST") && !body_type_ok(req.headers@) {
        Err(415u16)
    } else {
        route_choice(m.routes@, d, req.method@)
    }
}

impl Matcher {
    /// Picks the route for a decoded path and a method.
    pub fn choose_route(&self, path: &[u8], method: &[u8]) -> (r: Result<usize, u16>)
        ensures
            match route_choice(self.routes@, path@, method@) {
                Ok(i) => r matches Ok(x) && x == i && i < self.routes@.len(),
                Err(c) => r == Err::<usize, u16>(c),
            },
    {
        let ghost hits = route_hits(self.routes@, path@, method@);
        let mut status: u16 = 404;
        let mut i: usize = 0;
        while i < self.routes.len()
            invariant
                i <= self.routes@.len(),
                hits == route_hits(self.routes@, path@, method@),
                first_some(hits, i as int) is None,
                status == 405 || status == 404,
                status == 405 <==> exists|k: int|
                    0 <= k < i && route_verdict(#[trigger] self.routes@[k], path@, method@)
                        == Verdict::WrongMethod,
            decreases self.routes@.len() - i,
        {
            match judge(&self.routes[i], path, method) {
                Verdict::Match => {
                    proof {
                        assert(hits[i as int] == Some(i as int));
                        lemma_first_some_stable(hits, i + 1, self.routes@.len() as int);
                    }
                    return Ok(i);
                },
                Verdict::WrongMethod => {
                    status = 405;
                    assert(hits[i as int] is None);
                },
                Verdict::NoMatch => {
                    assert(hits[i as int] is None);
                    proof {
                        if exists|k: int|
                            0 <= k < i + 1 && route_verdict(
                                #[trigger] self.routes@[k],
                                path@,
                                method@,
                            ) == Verdict::WrongMethod {
                            let k = choose|k: int|
                                0 <= k < i + 1 && route_verdict(
                                    #[trigger] self.routes@[k],
                                    path@,
                                    method@,
                                ) == Verdict::WrongMethod;
                            assert(k < i);
                        }
                    }
                },
            }
            i += 1;
        }
        Err(status)
    }

    /// Takes a first look at a request: checks that it is sound, decodes
    /// path and query, and finds the route it goes to. What is found is
    /// kept in the request, so that a second look has nothing to do.
    pub fn preflight(&self, req: &mut Request) -> (r: Result<(), u16>)
        ensures
            final(req).method == old(req).method,
            final(req).path == old(req).path,
            final(req).query == old(req).query,
            final(req).headers == old(req).headers,
            old(req).state is Some ==> r is Ok && final(req).state == old(req).state,
            old(req).state is None ==> (match preflight_status(*self, *old(req)) {
                Err(c) => r == Err::<(), u16>(c) && final(req).state is None,
                Ok(n) => r is Ok && (final(req).state matches Some(st) && st.route_index == n && n
                    < self.routes@.len() && st.decoded_path@ == percent_decoded(old(req).path@)
                    && st.body_params is None && query_decoded(
                    opt_view(old(req).query),
                    st.query_offsets,
                    st.decoded_query,
                )),
            }),
    {
        if req.state.is_some() {
            return Ok(());
        }
        let path = match percent_decode_path(req.path.as_slice()) {
            (Some(path), slash) => {
                if slash && !self.encoded_slashes_ok {
                    return Err(400);
                }
                path
            },
            (None, _) => {
                return Err(400);
            },
        };
        if bytes_eq(req.method.as_slice(), "POST".as_bytes()) {
            if !has_body(req) {
                return Err(411);
            }
            let type_ok = match find_header(&req.headers, "content-type") {
                Some(h) => {
                    let t = text_of(h.as_slice());
                    contains_sub(t.as_slice(), "application/x-www-form-urlencoded".as_bytes())
                        || contains_sub(t.as_slice(), "application/json".as_bytes())
                },
                None => false,
            };
            if !type_ok {
                return Err(415);
            }
        }
        let (query_offsets, buffer) = decode_query_get_offsets(
            match &req.query {
                Some(q) => Some(q.as_slice()),
                None => None,
            },
        );
        let n = match self.choose_route(path.as_slice(), req.method.as_slice()) {
            Ok(n) => n,
            Err(status) => {
                return Err(status);
            },
        };
        req.state = Some(
            MatchState {
                decoded_path: path,
                decoded_query: buffer,
                query_offsets,
                route_index: n,
                body_params: None,
            },
        );
        Ok(())
    }
}


/// The reason phrase of a status that the matcher answers with; the status
/// in digits for any other.
pub open spec fn reason(status: u16) -> Seq<u8> {
    if status == 400 {
        lit("Bad Request")
    } else if status == 404 {
        lit("Not Found")
    } else if status == 405 {
        lit("Method Not Allowed")
    } else if status == 411 {
        lit("Length Required")
    } else if status == 415 {
        lit("Unsupported Media Type")
    } else if status == 500 {
        lit("Internal Server Error")
    } else {
        decimal(status as nat)
    }
}

/// The answer to a request that matches no route: plain text with the
/// reason phrase of the status. `close` asks for the connection to be
/// closed, because a body may have been sent that nobody is going to read.
#[derive(Debug, PartialEq, Eq)]
pub struct Response {
    pub status: u16,
    pub close: bool,
    pub body: Vec<u8>,
}

fn refusal(status: u16, close: bool) -> (r: Response)
    ensures
        r.status == status,
        r.close == close,
        r.body@ == reason(status),
{
    let body = if status == 400 {
        clone_bytes("Bad Request".as_bytes())
    } else if status == 404 {
        clone_bytes("Not Found".as_bytes())
    } else if status == 405 {
        clone_bytes("Method Not Allowed".as_bytes())
    } else if status == 411 {
        clone_bytes("Length Required".as_bytes())
    } else if status == 415 {
        clone_bytes("Unsupported Media Type".as_bytes())
    } else if status == 500 {
        clone_bytes("Internal Server Error".as_bytes())
    } else {
        let mut b: Vec<u8> = Vec::new();
        push_decimal(&mut b, status as u64);
        b
    };
    Response { status, close, body }
}

/// The value of the first group of a name among the groups of a match.
pub open spec fn group_named(
    caps: Seq<(Option<Seq<u8>>, Option<Seq<u8>>)>,
    name: Seq<u8>,
    n: int,
) -> Option<Seq<u8>>
    decreases n,
{
    if n <= 0 {
        None
    } else {
        match group_named(caps, name, n - 1) {
            Some(v) => Some(v),
            None => if caps[n - 1].0 == Some(name) {
                caps[n - 1].1
            } else {
                None
            },
        }
    }
}

/// The value under a name in a table of names and values.
pub open spec fn table_value(t: Seq<(Vec<u8>, Vec<u8>)>, name: Seq<u8>) -> Option<Seq<u8>> {
    let i = position(keys_of(t), name);
    if 0 <= i < t.len() {
        Some(t[i].1@)
    } else {
        None
    }
}

fn lookup(t: &Vec<(Vec<u8>, Vec<u8>)>, name: &[u8]) -> (r: Option<Vec<u8>>)
    ensures
        opt_view(r) == table_value(t@, name@),
{
    let i = find_key(t, name);
    if i < t.len() {
        Some(clone_bytes(t[i].1.as_slice()))
    } else {
        None
    }
}

impl Match {
    /// The decoded path that was matched.
    pub fn path(&self) -> (r: Vec<u8>)
        ensures
            r@ == (if self.caps@.len() > 0 && self.caps@[0].1 is Some {
                self.caps@[0].1.unwrap()@
            } else {
                Seq::empty()
            }),
    {
        if self.caps.len() > 0 {
            match &self.caps[0].1 {
                Some(v) => clone_bytes(v.as_slice()),
                None => Vec::new(),
            }
        } else {
            Vec::new()
        }
    }

    /// The part of the path that a named part of the route took.
    pub fn route_param(&self, s: &[u8]) -> (r: Option<Vec<u8>>)
        ensures
            opt_view(r) == group_named(groups_view(self.caps@), s@, self.caps@.len() as int),
    {
        let ghost g = groups_view(self.caps@);
        let mut i: usize = 0;
        while i < self.caps.len()
            invariant
                i <= self.caps@.len(),
                g == groups_view(self.caps@),
                group_named(g, s@, i as int) is None,
            decreases self.caps@.len() - i,
        {
            let hit = match &self.caps[i].0 {
                Some(n) => bytes_eq(n.as_slice(), s),
                None => false,
            };
            assert(g[i as int] == (opt_view(self.caps@[i as int].0), opt_view(self.caps@[i as int].1)));
            if hit {
                match &self.caps[i].1 {
                    Some(v) => {
                        let r = Some(clone_bytes(v.as_slice()));
                        proof {
                            lemma_group_stable(g, s@, i + 1, self.caps@.len() as int);
                        }
                        return r;
                    },
                    None => {},
                }
            }
            i += 1;
        }
        None
    }

    /// The value of a parameter of the query.
    pub fn query_param(&self, s: &[u8]) -> (r: Option<Vec<u8>>)
        ensures
            opt_view(r) == (match self.query_params {
                Some(m) => table_value(m@, s@),
                None => None,
            }),
    {
        match &self.query_params {
            Some(m) => lookup(m, s),
            None => None,
        }
    }

    /// The value of a parameter of the body, if it is UTF-8 text.
    pub fn body_param(&self, s: &[u8]) -> (r: Option<Vec<u8>>)
        ensures
            opt_view(r) == (match self.body_params {
                Some(m) => match table_value(m@, s@) {
                    Some(v) => if valid_utf8(v) {
                        Some(v)
                    } else {
                        None
                    },
                    None => None,
                },
                None => None,
            }),
    {
        match &self.body_params {
            Some(m) => match lookup(m, s) {
                Some(v) => {
                    if is_utf8(v.as_slice()) {
                        Some(v)
                    } else {
                        None
                    }
                },
                None => None,
            },
            None => None,
        }
    }

    /// The value of a parameter of the body, as bytes.
    pub fn body_param_bytes(&self, s: &[u8]) -> (r: Option<Vec<u8>>)
        ensures
            opt_view(r) == (match self.body_params {
                Some(m) => table_value(m@, s@),
                None => None,
            }),
    {
        match &self.body_params {
            Some(m) => lookup(m, s),
            None => None,
        }
    }

    /// The label of the route that was matched.
    pub fn label(&self) -> (r: Option<Vec<u8>>)
        ensures
            opt_view(r) == opt_view(self.label),
    {
        clone_opt(&self.label)
    }
}

/// Once a group of a name with a value is found, looking at more groups does not change it.
pub proof fn lemma_group_stable(
    caps: Seq<(Option<Seq<u8>>, Option<Seq<u8>>)>,
    name: Seq<u8>,
    k: int,
    n: int,
)
    requires
        0 <= k <= n,
        group_named(caps, name, k) is Some,
    ensures
        group_named(caps, name, n) == group_named(caps, name, k),
    decreases n - k,
{
    if k < n {
        lemma_group_stable(caps, name, k, n - 1);
    }
}

/// The names and values of a form body. The body is percent-decoded as a
/// whole and then cut at `&`; each part is cut at its first `=`.
pub open spec fn body_table(parts: Seq<Seq<u8>>, n: int) -> Seq<(Seq<u8>, Seq<u8>)>
    decreases n,
{
    if n <= 0 {
        Seq::empty()
    } else {
        let p = splitn(parts[n - 1], 0x3d, 2);
        put_pair(
            body_table(parts, n - 1),
            p[0],
            if p.len() > 1 {
                p[1]
            } else {
                Seq::empty()
            },
        )
    }
}

/// The names and values of a JSON body: the members of an object whose
/// members are all strings.
pub open spec fn json_strings(j: Json) -> Option<Seq<(Seq<u8>, Seq<u8>)>> {
    match j {
        Json::Object(o) => if forall|i: int| 0 <= i < o@.len() ==> (#[trigger] o@[i]).1 is Text {
            Some(Seq::new(o@.len(), |i: int| (o@[i].0@, o@[i].1->Text_0@)))
        } else {
            None
        },
        _ => None,
    }
}

/// What the parameters of a body are, by the content type of the request:
/// those of a form, those of a JSON object of strings, or none for any
/// other content type and for JSON that could not be read or is no such object.
pub open spec fn body_params_of(
    headers: Seq<(Vec<u8>, Vec<u8>)>,
    data: Seq<u8>,
    json: Option<Json>,
) -> Option<Seq<(Seq<u8>, Seq<u8>)>> {
    match header_value(headers, lit("content-type")) {
        None => None,
        Some(v) => if has_sub(header_text(v), lit("application/x-www-form-urlencoded")) {
            Some(
                body_table(
                    split(percent_decoded(data), 0x26),
                    split(percent_decoded(data), 0x26).len() as int,
                ),
            )
        } else if has_sub(header_text(v), lit("application/json")) {
            match json {
                Some(j) => json_strings(j),
                None => None,
            }
        } else {
            None
        },
    }
}

fn form_params(data: &[u8]) -> (r: Vec<(Vec<u8>, Vec<u8>)>)
    ensures
        pairs_view(r@) == body_table(
            split(percent_decoded(data@), 0x26),
            split(percent_decoded(data@), 0x26).len() as int,
        ),
{
    let decoded = percent_decode(data);
    let parts = split_bytes(decoded.as_slice(), 0x26);
    let mut hm: Vec<(Vec<u8>, Vec<u8>)> = Vec::new();
    let mut i: usize = 0;
    assert(pairs_view(hm@) =~= Seq::<(Seq<u8>, Seq<u8>)>::empty());
    while i < parts.len()
        invariant
            i <= parts@.len(),
            pairs_view(hm@) == body_table(views(parts@), i as int),
        decreases parts@.len() - i,
    {
        assert(views(parts@)[i as int] == parts@[i as int]@);
        let mut w = splitn_bytes(parts[i].as_slice(), 0x3d, 2);
        let ghost p = views(w@);
        assert(p.len() >= 1);
        assert(p[0] == w@[0]@);
        let v: Vec<u8> = if w.len() > 1 {
            assert(p[1] == w@[1]@);
            w.remove(1)
        } else {
            Vec::new()
        };
        let k = w.remove(0);
        put_bytes(&mut hm, k, v);
        i += 1;
    }
    hm
}

fn json_params(j: &Json) -> (r: Option<Vec<(Vec<u8>, Vec<u8>)>>)
    ensures
        match json_strings(*j) {
            Some(t) => r matches Some(v) && pairs_view(v@) == t,
            None => r is None,
        },
{
    match j {
        Json::Object(o) => {
            let mut hm: Vec<(Vec<u8>, Vec<u8>)> = Vec::new();
            let mut i: usize = 0;
            while i < o.len()
                invariant
                    i <= o@.len(),
                    *j == Json::Object(*o),
                    hm@.len() == i,
                    forall|k: int|
                        0 <= k < i ==> (#[trigger] o@[k]).1 is Text && hm@[k].0@ == o@[k].0@
                            && hm@[k].1@ == o@[k].1->Text_0@,
                decreases o@.len() - i,
            {
                match &o[i].1 {
                    Json::Text(t) => {
                        hm.push((clone_bytes(o[i].0.as_slice()), clone_bytes(t.as_slice())));
                    },
                    _ => {
                        assert(!(o@[i as int].1 is Text));
                        return None;
                    },
                }
                i += 1;
            }
            assert(pairs_view(hm@) =~= json_strings(*j).unwrap());
            Some(hm)
        },
        _ => None,
    }
}

/// Whether the second look at a request finds a match, given what the
/// first look has kept: the route is one of the matcher's, its expression
/// and the decoded path are UTF-8 text, and the expression takes its groups
/// from the path.
pub open spec fn match_owed(m: Matcher, st: MatchState) -> bool {
    &&& st.route_index < m.routes@.len()
    &&& valid_utf8(m.routes@[st.route_index as int].pattern@)
    &&& valid_utf8(st.decoded_path@)
    &&& regex_captured(m.routes@[st.route_index as int].pattern@, st.decoded_path@) is Some
}

/// The table of the parameters of the query that the first look has kept.
pub open spec fn kept_query(st: MatchState) -> Option<Seq<(Seq<u8>, Seq<u8>)>> {
    match (st.decoded_query, st.query_offsets) {
        (Some(q), Some(off)) => if offsets_ok(q@, off@) {
            Some(as_table(pairs_at(q@, off@), off@.len() as int))
        } else {
            None
        },
        _ => None,
    }
}

/// Whether `x` is the match of a request of which the first look has kept
/// `st`: it names the route and carries its label, the groups that the
/// route's expression takes from the decoded path, and the parameters of
/// query and body.
pub open spec fn matched(m: Matcher, st: MatchState, x: Match) -> bool {
    &&& match_owed(m, st)
    &&& x.idx == st.route_index
    &&& opt_view(x.label) == opt_view(m.routes@[x.idx as int].label)
    &&& Some(groups_view(x.caps@)) == regex_captured(
        m.routes@[x.idx as int].pattern@,
        st.decoded_path@,
    )
    &&& crate::text::opt_pairs_view(x.query_params) == kept_query(st)
    &&& crate::text::opt_pairs_view(x.body_params) == crate::text::opt_pairs_view(st.body_params)
}

/// Whether `st` is what the first look keeps of a request that goes to
/// route `n`.
pub open spec fn kept(req: Request, n: int, st: MatchState) -> bool {
    &&& st.route_index == n
    &&& st.decoded_path@ == percent_decoded(req.path@)
    &&& st.body_params is None
    &&& query_decoded(opt_view(req.query), st.query_offsets, st.decoded_query)
}

impl Matcher {
    /// Takes the second look at a request: finds the groups that the route's
    /// expression takes from the path, and the parameters of the query. A
    /// request that the first look refuses is refused with the same status.
    /// Any other request is matched if the expression of its route takes
    /// its groups from the decoded path, and is answered with 500 if not.
    pub fn match_req(&self, req: &mut Request) -> (r: Result<Match, u16>)
        ensures
            final(req).method == old(req).method,
            final(req).path == old(req).path,
            final(req).query == old(req).query,
            final(req).headers == old(req).headers,
            old(req).state matches Some(st) ==> final(req).state == old(req).state && (r is Ok
                <==> match_owed(*self, st)) && (r matches Err(c) ==> c == 500),
            old(req).state is None ==> (match preflight_status(*self, *old(req)) {
                Err(c) => r == Err::<Match, u16>(c) && final(req).state is None,
                Ok(n) => (final(req).state matches Some(st) && kept(*old(req), n, st)) && n
                    < self.routes@.len() && (r is Ok <==> valid_utf8(self.routes@[n].pattern@)
                    && regex_captured(self.routes@[n].pattern@, percent_decoded(old(req).path@))
                    is Some) && (r matches Err(c) ==> c == 500),
            }),
            r matches Ok(m) ==> (final(req).state matches Some(st) && matched(*self, st, m)),
            old(req).state is None ==> (r matches Ok(m) ==> (match old(req).query {
                Some(q) => m.query_params matches Some(t) && pairs_view(t@) == as_table(
                    query_pairs(q@),
                    query_pairs(q@).len() as int,
                ),
                None => m.query_params is None,
            }) && m.body_params is None && m.idx == preflight_status(*self, *old(req))->Ok_0),
    {
        match self.preflight(req) {
            Ok(_) => {},
            Err(c) => {
                return Err(c);
            },
        }
        let state = match &req.state {
            Some(s) => s,
            None => {
                return Err(500);
            },
        };
        let n = state.route_index;
        if n >= self.routes.len() {
            return Err(500);
        }
        let route = &self.routes[n];
        let p = match str_from_utf8(route.pattern.as_slice()) {
            Ok(p) => p,
            Err(_) => {
                return Err(500);
            },
        };
        let t = match str_from_utf8(state.decoded_path.as_slice()) {
            Ok(t) => t,
            Err(_) => {
                return Err(500);
            },
        };
        let caps = match regex_captures(p, t) {
            Some(c) => c,
            None => {
                return Err(500);
            },
        };
        let query_params = match (&state.decoded_query, &state.query_offsets) {
            (Some(q), Some(off)) => {
                if offsets_fit(q.as_slice(), off) {
                    Some(map_query_params(q.as_slice(), off))
                } else {
                    None
                }
            },
            _ => None,
        };
        let body_params = match &state.body_params {
            Some(b) => Some(clone_pairs(b)),
            None => None,
        };
        Ok(Match { idx: n, label: clone_opt(&route.label), caps, query_params, body_params })
    }

    /// Like `preflight`, but with the answer to send where the request is refused.
    pub fn preflight_resp(&self, req: &mut Request) -> (r: Result<(), Response>)
        ensures
            final(req).method == old(req).method,
            final(req).path == old(req).path,
            final(req).query == old(req).query,
            final(req).headers == old(req).headers,
            old(req).state is Some ==> r is Ok && final(req).state == old(req).state,
            old(req).state is None ==> (match preflight_status(*self, *old(req)) {
                Err(c) => (r matches Err(resp) && resp.status == c && resp.body@ == reason(c)
                    && resp.close == (announces_body(old(req).headers@) || old(req).method@ == lit(
                    "PUT",
                ) || old(req).method@ == lit("POST"))) && final(req).state is None,
                Ok(n) => r is Ok && n < self.routes@.len() && (
                final(req).state matches Some(st) && kept(*old(req), n, st)),
            }),
    {
        let body_maybe = has_body(req) || bytes_eq(req.method.as_slice(), "PUT".as_bytes())
            || bytes_eq(req.method.as_slice(), "POST".as_bytes());
        match self.preflight(req) {
            Ok(_) => Ok(()),
            Err(status) => Err(refusal(status, body_maybe)),
        }
    }

    /// Like `match_req`, but with the answer to send where the request is
    /// refused: the answer of the first look, or status 500 on a connection
    /// that stays open.
    pub fn match_req_resp(&self, req: &mut Request) -> (r: Result<Match, Response>)
        ensures
            final(req).method == old(req).method,
            final(req).path == old(req).path,
            final(req).query == old(req).query,
            final(req).headers == old(req).headers,
            r matches Err(resp) ==> resp.body@ == reason(resp.status),
            old(req).state matches Some(st) ==> final(req).state == old(req).state && (r is Ok
                <==> match_owed(*self, st)) && (r matches Err(resp) ==> resp.status == 500
                && !resp.close),
            old(req).state is None ==> (match preflight_status(*self, *old(req)) {
                Err(c) => (r matches Err(resp) && resp.status == c && resp.close == (
                announces_body(old(req).headers@) || old(req).method@ == lit("PUT")
                    || old(req).method@ == lit("POST"))) && final(req).state is None,
                Ok(n) => (final(req).state matches Some(st) && kept(*old(req), n, st)) && n
                    < self.routes@.len() && (r is Ok <==> valid_utf8(self.routes@[n].pattern@)
                    && regex_captured(self.routes@[n].pattern@, percent_decoded(old(req).path@))
                    is Some) && (r matches Err(resp) ==> resp.status == 500 && !resp.close),
            }),
            r matches Ok(m) ==> (final(req).state matches Some(st) && matched(*self, st, m)),
    {
        match self.preflight_resp(req) {
            Ok(_) => {},
            Err(resp) => {
                return Err(resp);
            },
        }
        match self.match_req(req) {
            Ok(m) => Ok(m),
            Err(status) => Err(refusal(status, false)),
        }
    }

    /// Reads the parameters of a body into a request that has been looked
    /// at. `json` is the body read as JSON, where it could be read.
    pub fn parse_body(&self, req: &mut Request, data: &[u8], json: Option<&Json>) -> (r: Result<
        (),
        (),
    >)
        requires
            old(req).state is Some,
        ensures
            final(req).method == old(req).method,
            final(req).path == old(req).path,
            final(req).query == old(req).query,
            final(req).headers == old(req).headers,
            match body_params_of(
                old(req).headers@,
                data@,
                match json {
                    Some(j) => Some(*j),
                    None => None,
                },
            ) {
                Some(t) => r is Ok && (final(req).state matches Some(st) && (
                st.body_params matches Some(b) && pairs_view(b@) == t)
                    && st.decoded_path == old(req).state.unwrap().decoded_path
                    && st.decoded_query == old(req).state.unwrap().decoded_query
                    && st.query_offsets == old(req).state.unwrap().query_offsets
                    && st.route_index == old(req).state.unwrap().route_index),
                None => r is Err && final(req).state == old(req).state,
            },
    {
        let params = match find_header(&req.headers, "content-type") {
            None => None,
            Some(ct) => {
                let s = text_of(ct.as_slice());
                if contains_sub(s.as_slice(), "application/x-www-form-urlencoded".as_bytes()) {
                    Some(form_params(data))
                } else if contains_sub(s.as_slice(), "application/json".as_bytes()) {
                    match json {
                        Some(j) => json_params(j),
                        None => None,
                    }
                } else {
                    None
                }
            },
        };
        match params {
            Some(hm) => {
                let mut state = req.state.take().unwrap();
                state.body_params = Some(hm);
                req.state = Some(state);
                Ok(())
            },
            None => Err(()),
        }
    }
}

fn offsets_fit(q: &[u8], offsets: &Vec<(usize, usize, usize)>) -> (r: bool)
    ensures
        r == offsets_ok(q@, offsets@),
{
    let mut i: usize = 0;
    while i < offsets.len()
        invariant
            i <= offsets@.len(),
            forall|k: int|
                0 <= k < i ==> (#[trigger] offsets@[k]).0 <= offsets@[k].1 && offsets@[k].1
                    <= offsets@[k].2 && offsets@[k].2 <= q@.len(),
        decreases offsets@.len() - i,
    {
        let (a, b, c) = offsets[i];
        if !(a <= b && b <= c && c <= q.len()) {
            assert(!(offsets@[i as int].0 <= offsets@[i as int].1 && offsets@[i as int].1
                <= offsets@[i as int].2 && offsets@[i as int].2 <= q@.len()));
            return false;
        }
        i += 1;
    }
    true
}

} // verus!
