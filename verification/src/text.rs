//! Byte-string primitives shared by every wire format of the system:
//! splitting on a separator, whitespace-separated words, decimal numbers.

use vstd::prelude::*;
use vstd::string::StringSliceAdditionalSpecFns;

verus! {

/// The byte sequences held by a vector of byte vectors.
pub open spec fn views(v: Seq<Vec<u8>>) -> Seq<Seq<u8>> {
    v.map_values(|x: Vec<u8>| x@)
}

/// Index of the first occurrence of `b` in `s`, or `s.len()` when there is none.
pub open spec fn find_byte(s: Seq<u8>, b: u8) -> int
    decreases s.len(),
{
    if s.len() == 0 {
        0
    } else if s[0] == b {
        0
    } else {
        1 + find_byte(s.skip(1), b)
    }
}

/// `find_byte` is the least index holding `b`, or the length.
pub proof fn lemma_find_byte(s: Seq<u8>, b: u8)
    ensures
        0 <= find_byte(s, b) <= s.len(),
        forall|i: int| 0 <= i < find_byte(s, b) ==> s[i] != b,
        find_byte(s, b) < s.len() ==> s[find_byte(s, b)] == b,
    decreases s.len(),
{
    if s.len() != 0 && s[0] != b {
        lemma_find_byte(s.skip(1), b);
        let r = find_byte(s.skip(1), b);
        assert forall|i: int| 0 <= i < 1 + r implies s[i] != b by {
            if i > 0 {
                assert(s.skip(1)[i - 1] == s[i]);
            }
        }
        if 1 + r < s.len() {
            assert(s.skip(1)[r] == s[1 + r]);
        }
    }
}

/// Any index that holds `b` after a run without `b` is the one `find_byte` names.
pub proof fn lemma_find_byte_is(s: Seq<u8>, b: u8, k: int)
    requires
        0 <= k <= s.len(),
        forall|i: int| 0 <= i < k ==> s[i] != b,
        k < s.len() ==> s[k] == b,
    ensures
        find_byte(s, b) == k,
{
    lemma_find_byte(s, b);
}

/// Whether `b` occurs in `s`.
pub open spec fn has_byte(s: Seq<u8>, b: u8) -> bool {
    exists|i: int| 0 <= i < s.len() && s[i] == b
}

/// The fields of `s` between occurrences of `sep`. An empty input has one
/// empty field; `k` separators give `k + 1` fields.
pub open spec fn split(s: Seq<u8>, sep: u8) -> Seq<Seq<u8>>
    decreases s.len(),
{
    let i = find_byte(s, sep);
    if 0 <= i < s.len() {
        seq![s.take(i)] + split(s.skip(i + 1), sep)
    } else {
        seq![s]
    }
}

/// Like `split`, but stops after `n` fields: the last field holds the rest of
/// the input, separators included. With `n == 0` there are no fields.
pub open spec fn splitn(s: Seq<u8>, sep: u8, n: nat) -> Seq<Seq<u8>>
    decreases n,
{
    if n == 0 {
        Seq::empty()
    } else {
        let i = find_byte(s, sep);
        if n > 1 && 0 <= i < s.len() {
            seq![s.take(i)] + splitn(s.skip(i + 1), sep, (n - 1) as nat)
        } else {
            seq![s]
        }
    }
}

/// No field of a split holds the separator.
pub proof fn lemma_split_fields_clean(s: Seq<u8>, sep: u8)
    ensures
        split(s, sep).len() >= 1,
        forall|k: int| 0 <= k < split(s, sep).len() ==> !has_byte(#[trigger] split(s, sep)[k], sep),
    decreases s.len(),
{
    lemma_find_byte(s, sep);
    let i = find_byte(s, sep);
    if 0 <= i < s.len() {
        lemma_split_fields_clean(s.skip(i + 1), sep);
        let rest = split(s.skip(i + 1), sep);
        assert forall|k: int| 0 <= k < split(s, sep).len() implies !has_byte(
            #[trigger] split(s, sep)[k],
            sep,
        ) by {
            if k == 0 {
                assert(split(s, sep)[0] == s.take(i));
            } else {
                assert(split(s, sep)[k] == rest[k - 1]);
            }
        }
    }
}

/// Copies `s[from..to]` into a fresh vector.
pub fn copy_range(s: &[u8], from: usize, to: usize) -> (r: Vec<u8>)
    requires
        from <= to <= s@.len(),
    ensures
        r@ == s@.subrange(from as int, to as int),
{
    let mut r: Vec<u8> = Vec::new();
    let mut i: usize = from;
    while i < to
        invariant
            from <= i <= to <= s@.len(),
            r@ == s@.subrange(from as int, i as int),
        decreases to - i,
    {
        r.push(s[i]);
        i += 1;
    }
    r
}

/// Position of the first `b` at or after `from`, or the length of `s`.
pub fn find_from(s: &[u8], from: usize, b: u8) -> (r: usize)
    requires
        from <= s@.len(),
    ensures
        r == from + find_byte(s@.skip(from as int), b),
        from <= r <= s@.len(),
{
    let mut i: usize = from;
    while i < s.len() && s[i] != b
        invariant
            from <= i <= s@.len(),
            forall|j: int| from <= j < i ==> s@[j] != b,
        decreases s@.len() - i,
    {
        i += 1;
    }
    proof {
        let t = s@.skip(from as int);
        assert forall|j: int| 0 <= j < i - from implies t[j] != b by {
            assert(t[j] == s@[from + j]);
        }
        if i < s@.len() {
            assert(t[i - from] == s@[i as int]);
        }
        lemma_find_byte_is(t, b, i - from);
    }
    i
}

/// Splits `s` on every `sep`.
pub fn split_bytes(s: &[u8], sep: u8) -> (r: Vec<Vec<u8>>)
    ensures
        views(r@) == split(s@, sep),
{
    let mut r: Vec<Vec<u8>> = Vec::new();
    let mut start: usize = 0;
    proof {
        assert(s@.skip(0) == s@);
        assert(views(r@) + split(s@, sep) == split(s@, sep));
    }
    loop
        invariant
            start <= s@.len(),
            split(s@, sep) == views(r@) + split(s@.skip(start as int), sep),
        decreases s@.len() - start,
    {
        let end = find_from(s, start, sep);
        let field = copy_range(s, start, end);
        proof {
            let t = s@.skip(start as int);
            assert(t.take(end - start) == s@.subrange(start as int, end as int));
            assert(views(r@.push(field)) == views(r@).push(field@));
            if end < s@.len() {
                assert(t.skip(end - start + 1) == s@.skip(end + 1));
            } else {
                assert(t == s@.subrange(start as int, end as int));
            }
        }
        r.push(field);
        if end >= s.len() {
            return r;
        }
        start = end + 1;
    }
}

/// Splits `s` on `sep` into at most `n` fields.
pub fn splitn_bytes(s: &[u8], sep: u8, n: usize) -> (r: Vec<Vec<u8>>)
    ensures
        views(r@) == splitn(s@, sep, n as nat),
{
    let mut r: Vec<Vec<u8>> = Vec::new();
    if n == 0 {
        assert(views(r@) == Seq::<Seq<u8>>::empty());
        return r;
    }
    let mut start: usize = 0;
    let mut left: usize = n;
    proof {
        assert(s@.skip(0) == s@);
        assert(views(r@) + splitn(s@, sep, n as nat) == splitn(s@, sep, n as nat));
    }
    loop
        invariant
            start <= s@.len(),
            1 <= left <= n,
            splitn(s@, sep, n as nat) == views(r@) + splitn(s@.skip(start as int), sep, left as nat),
        decreases s@.len() - start,
    {
        let end = if left > 1 { find_from(s, start, sep) } else { s.len() };
        let field = copy_range(s, start, end);
        proof {
            let t = s@.skip(start as int);
            assert(t.take(end - start) == s@.subrange(start as int, end as int));
            assert(views(r@.push(field)) == views(r@).push(field@));
            if end < s@.len() {
                assert(t.skip(end - start + 1) == s@.skip(end + 1));
            } else {
                assert(t == s@.subrange(start as int, end as int));
            }
        }
        r.push(field);
        if end >= s.len() {
            return r;
        }
        start = end + 1;
        left = left - 1;
    }
}


/// Whether two byte strings are equal.
pub fn bytes_eq(a: &[u8], b: &[u8]) -> (r: bool)
    ensures
        r == (a@ == b@),
{
    if a.len() != b.len() {
        return false;
    }
    let mut i: usize = 0;
    while i < a.len()
        invariant
            a@.len() == b@.len(),
            i <= a@.len(),
            forall|j: int| 0 <= j < i ==> a@[j] == b@[j],
        decreases a@.len() - i,
    {
        if a[i] != b[i] {
            return false;
        }
        i += 1;
    }
    assert(a@ =~= b@);
    true
}

/// Whether `s` begins with `prefix`.
pub open spec fn starts_with(s: Seq<u8>, prefix: Seq<u8>) -> bool {
    prefix.len() <= s.len() && s.take(prefix.len() as int) == prefix
}

/// Tests whether `s` begins with `prefix`.
pub fn has_prefix(s: &[u8], prefix: &[u8]) -> (r: bool)
    ensures
        r == starts_with(s@, prefix@),
{
    if prefix.len() > s.len() {
        return false;
    }
    let mut i: usize = 0;
    while i < prefix.len()
        invariant
            prefix@.len() <= s@.len(),
            i <= prefix@.len(),
            forall|j: int| 0 <= j < i ==> s@[j] == prefix@[j],
        decreases prefix@.len() - i,
    {
        if s[i] != prefix[i] {
            assert(s@.take(prefix@.len() as int)[i as int] != prefix@[i as int]);
            return false;
        }
        i += 1;
    }
    assert(s@.take(prefix@.len() as int) =~= prefix@);
    true
}

/// Tests whether `b` occurs in `s`.
pub fn contains_byte(s: &[u8], b: u8) -> (r: bool)
    ensures
        r == has_byte(s@, b),
{
    let i = find_from(s, 0, b);
    proof {
        assert(s@.skip(0) == s@);
        lemma_find_byte(s@, b);
    }
    i < s.len()
}

/// ASCII whitespace: space, tab, line feed, vertical tab, form feed, carriage return.
pub open spec fn is_space(b: u8) -> bool {
    b == 32 || (9 <= b && b <= 13)
}

/// Tests for ASCII whitespace.
pub fn byte_is_space(b: u8) -> (r: bool)
    ensures
        r == is_space(b),
{
    b == 32 || (9 <= b && b <= 13)
}

/// Number of whitespace bytes at the start of `s`.
pub open spec fn space_run(s: Seq<u8>) -> int
    decreases s.len(),
{
    if s.len() > 0 && is_space(s[0]) {
        1 + space_run(s.skip(1))
    } else {
        0
    }
}

/// Number of bytes at the start of `s` that are not whitespace.
pub open spec fn word_run(s: Seq<u8>) -> int
    decreases s.len(),
{
    if s.len() > 0 && !is_space(s[0]) {
        1 + word_run(s.skip(1))
    } else {
        0
    }
}

/// The maximal runs of bytes that are not whitespace, in order.
pub open spec fn words(s: Seq<u8>) -> Seq<Seq<u8>>
    decreases s.len(),
{
    let a = space_run(s);
    if 0 <= a <= s.len() {
        let t = s.skip(a);
        let k = word_run(t);
        if 0 < k <= t.len() {
            seq![t.take(k)] + words(t.skip(k))
        } else {
            Seq::empty()
        }
    } else {
        Seq::empty()
    }
}

/// `s` without its trailing whitespace.
pub open spec fn trim_end(s: Seq<u8>) -> Seq<u8>
    decreases s.len(),
{
    if s.len() > 0 && is_space(s.last()) {
        trim_end(s.drop_last())
    } else {
        s
    }
}

/// The run of white space at the start of a text ends at its first other byte.
pub proof fn lemma_space_run(s: Seq<u8>)
    ensures
        0 <= space_run(s) <= s.len(),
        forall|i: int| 0 <= i < space_run(s) ==> is_space(s[i]),
        space_run(s) < s.len() ==> !is_space(s[space_run(s)]),
    decreases s.len(),
{
    if s.len() > 0 && is_space(s[0]) {
        lemma_space_run(s.skip(1));
        let r = space_run(s.skip(1));
        assert forall|i: int| 0 <= i < 1 + r implies is_space(s[i]) by {
            if i > 0 {
                assert(s.skip(1)[i - 1] == s[i]);
            }
        }
        if 1 + r < s.len() {
            assert(s.skip(1)[r] == s[1 + r]);
        }
    }
}

/// The word at the start of a text ends at its first byte of white space.
pub proof fn lemma_word_run(s: Seq<u8>)
    ensures
        0 <= word_run(s) <= s.len(),
        forall|i: int| 0 <= i < word_run(s) ==> !is_space(s[i]),
        word_run(s) < s.len() ==> is_space(s[word_run(s)]),
    decreases s.len(),
{
    if s.len() > 0 && !is_space(s[0]) {
        lemma_word_run(s.skip(1));
        let r = word_run(s.skip(1));
        assert forall|i: int| 0 <= i < 1 + r implies !is_space(s[i]) by {
            if i > 0 {
                assert(s.skip(1)[i - 1] == s[i]);
            }
        }
        if 1 + r < s.len() {
            assert(s.skip(1)[r] == s[1 + r]);
        }
    }
}

/// End of the run of whitespace (`want == true`) or of other bytes that starts at `from`.
fn run_end(s: &[u8], from: usize, want: bool) -> (r: usize)
    requires
        from <= s@.len(),
    ensures
        from <= r <= s@.len(),
        want ==> r == from + space_run(s@.skip(from as int)),
        !want ==> r == from + word_run(s@.skip(from as int)),
{
    let mut i: usize = from;
    while i < s.len() && byte_is_space(s[i]) == want
        invariant
            from <= i <= s@.len(),
            forall|j: int| from <= j < i ==> is_space(s@[j]) == want,
        decreases s@.len() - i,
    {
        i += 1;
    }
    proof {
        let t = s@.skip(from as int);
        lemma_space_run(t);
        lemma_word_run(t);
        let k = i - from;
        assert forall|j: int| 0 <= j < k implies is_space(t[j]) == want by {
            assert(t[j] == s@[from + j]);
        }
        if i < s@.len() {
            assert(t[k] == s@[i as int]);
        }
        if want {
            let r = space_run(t);
            if r < k {
                assert(is_space(t[r]));
            }
            if k < r {
                assert(is_space(t[k]));
            }
        } else {
            let r = word_run(t);
            if r < k {
                assert(!is_space(t[r]));
            }
            if k < r {
                assert(!is_space(t[k]));
            }
        }
    }
    i
}

/// Splits `s` into its whitespace-separated words.
pub fn split_words(s: &[u8]) -> (r: Vec<Vec<u8>>)
    ensures
        views(r@) == words(s@),
{
    let mut r: Vec<Vec<u8>> = Vec::new();
    let mut pos: usize = 0;
    proof {
        assert(s@.skip(0) == s@);
        assert(views(r@) + words(s@) == words(s@));
    }
    loop
        invariant
            pos <= s@.len(),
            words(s@) == views(r@) + words(s@.skip(pos as int)),
        decreases s@.len() - pos,
    {
        let start = run_end(s, pos, true);
        let end = run_end(s, start, false);
        proof {
            let u = s@.skip(pos as int);
            assert(u.skip(start - pos) == s@.skip(start as int));
            let t = s@.skip(start as int);
            assert(t.take(end - start) == s@.subrange(start as int, end as int));
            assert(t.skip(end - start) == s@.skip(end as int));
        }
        if end == start {
            assert(views(r@) + Seq::<Seq<u8>>::empty() == views(r@));
            return r;
        }
        let field = copy_range(s, start, end);
        proof {
            assert(views(r@.push(field)) == views(r@).push(field@));
        }
        r.push(field);
        pos = end;
    }
}

/// Drops the whitespace at the end of `s`.
pub fn trim_end_bytes(s: &[u8]) -> (r: Vec<u8>)
    ensures
        r@ == trim_end(s@),
{
    let mut n: usize = s.len();
    proof {
        assert(s@.take(n as int) == s@);
    }
    while n > 0 && byte_is_space(s[n - 1])
        invariant
            n <= s@.len(),
            trim_end(s@) == trim_end(s@.take(n as int)),
        decreases n,
    {
        proof {
            assert(s@.take(n as int).drop_last() == s@.take(n - 1));
        }
        n -= 1;
    }
    proof {
        assert(s@.take(n as int) == s@.subrange(0, n as int));
    }
    copy_range(s, 0, n)
}

/// `s` without the whitespace at its start and at its end.
pub open spec fn trim(s: Seq<u8>) -> Seq<u8> {
    trim_end(s.skip(space_run(s)))
}

/// Counts the whitespace bytes at the start of `s`.
pub fn leading_space(s: &[u8]) -> (r: usize)
    ensures
        r == space_run(s@),
        r <= s@.len(),
{
    let mut a: usize = 0;
    while a < s.len() && byte_is_space(s[a])
        invariant
            a <= s@.len(),
            forall|k: int| 0 <= k < a ==> is_space(s@[k]),
        decreases s@.len() - a,
    {
        a += 1;
    }
    proof {
        lemma_space_run(s@);
        let r = space_run(s@);
        if r < a {
            assert(is_space(s@[r]));
        }
        if a < r {
            assert(is_space(s@[a as int]));
        }
    }
    a
}

/// Drops the whitespace at the start and at the end of `s`.
pub fn trim_bytes(s: &[u8]) -> (r: Vec<u8>)
    ensures
        r@ == trim(s@),
{
    let a = leading_space(s);
    let rest = copy_range(s, a, s.len());
    assert(rest@ == s@.skip(a as int));
    trim_end_bytes(rest.as_slice())
}

/// The lower-case form of an ASCII letter; any other byte is unchanged.
pub open spec fn lower(b: u8) -> u8 {
    if 65 <= b && b <= 90 {
        (b + 32) as u8
    } else {
        b
    }
}

/// `s` with every ASCII upper-case letter made lower-case.
pub open spec fn lower_seq(s: Seq<u8>) -> Seq<u8> {
    s.map_values(|b: u8| lower(b))
}

/// Lower-cases the ASCII letters of `s`.
pub fn to_lower(s: &[u8]) -> (r: Vec<u8>)
    ensures
        r@ == lower_seq(s@),
{
    let mut r: Vec<u8> = Vec::new();
    let mut i: usize = 0;
    while i < s.len()
        invariant
            i <= s@.len(),
            r@ == lower_seq(s@.take(i as int)),
        decreases s@.len() - i,
    {
        let c = s[i];
        let l: u8 = if 65 <= c && c <= 90 { c + 32 } else { c };
        proof {
            assert(s@.take(i + 1) == s@.take(i as int).push(c));
            assert(lower_seq(s@.take(i as int).push(c)) == lower_seq(s@.take(i as int)).push(lower(c)));
        }
        r.push(l);
        i += 1;
    }
    proof {
        assert(s@.take(i as int) == s@);
    }
    r
}


/// `parts` written one after the other with `sep` between neighbours.
pub open spec fn join(parts: Seq<Seq<u8>>, sep: u8) -> Seq<u8>
    decreases parts.len(),
{
    if parts.len() == 0 {
        Seq::empty()
    } else if parts.len() == 1 {
        parts[0]
    } else {
        parts[0].push(sep) + join(parts.skip(1), sep)
    }
}

/// Joining one more part appends the separator and the part.
pub proof fn lemma_join_push(parts: Seq<Seq<u8>>, last: Seq<u8>, sep: u8)
    requires
        parts.len() >= 1,
    ensures
        join(parts.push(last), sep) == join(parts, sep).push(sep) + last,
    decreases parts.len(),
{
    let all = parts.push(last);
    assert(all[0] == parts[0]);
    if parts.len() == 1 {
        assert(all.skip(1) == seq![last]);
        assert(join(all.skip(1), sep) == last);
        assert(join(all, sep) == parts[0].push(sep) + last);
    } else {
        assert(all.skip(1) == parts.skip(1).push(last));
        lemma_join_push(parts.skip(1), last, sep);
        assert(join(all, sep) == parts[0].push(sep) + (join(parts.skip(1), sep).push(sep) + last));
        assert(join(all, sep) =~= join(parts, sep).push(sep) + last);
    }
}

/// Splitting a joined line gives the parts back, as long as no part holds the
/// separator and there is at least one part.
pub proof fn lemma_split_join(parts: Seq<Seq<u8>>, sep: u8)
    requires
        parts.len() >= 1,
        forall|k: int| 0 <= k < parts.len() ==> !has_byte(#[trigger] parts[k], sep),
    ensures
        split(join(parts, sep), sep) == parts,
    decreases parts.len(),
{
    let line = join(parts, sep);
    let head = parts[0];
    assert(!has_byte(head, sep));
    if parts.len() == 1 {
        lemma_find_byte(head, sep);
        assert(split(head, sep) == seq![head]);
        assert(parts =~= seq![head]);
    } else {
        let rest = parts.skip(1);
        assert forall|k: int| 0 <= k < rest.len() implies !has_byte(#[trigger] rest[k], sep) by {
            assert(rest[k] == parts[k + 1]);
        }
        lemma_split_join(rest, sep);
        let n = head.len() as int;
        assert(line == head.push(sep) + join(rest, sep));
        assert forall|i: int| 0 <= i < n implies line[i] != sep by {
            assert(line[i] == head[i]);
        }
        assert(line[n] == sep);
        lemma_find_byte_is(line, sep, n);
        assert(line.take(n) =~= head);
        assert(line.skip(n + 1) =~= join(rest, sep));
        assert(split(line, sep) == seq![head] + rest);
        assert(seq![head] + rest =~= parts);
    }
}

/// Writes the parts with `sep` between neighbours.
pub fn join_bytes(parts: &Vec<Vec<u8>>, sep: u8) -> (r: Vec<u8>)
    ensures
        r@ == join(views(parts@), sep),
{
    let mut r: Vec<u8> = Vec::new();
    let mut i: usize = 0;
    while i < parts.len()
        invariant
            i <= parts@.len(),
            r@ == join(views(parts@).take(i as int), sep),
        decreases parts@.len() - i,
    {
        proof {
            let done = views(parts@).take(i as int);
            assert(views(parts@).take(i + 1) == done.push(parts@[i as int]@));
            if i > 0 {
                lemma_join_push(done, parts@[i as int]@, sep);
            } else {
                assert(join(done.push(parts@[i as int]@), sep) == parts@[i as int]@);
            }
        }
        if i > 0 {
            r.push(sep);
        }
        r.extend_from_slice(parts[i].as_slice());
        i += 1;
    }
    proof {
        assert(views(parts@).take(i as int) == views(parts@));
    }
    r
}

/// An ASCII decimal digit.
pub open spec fn is_digit(b: u8) -> bool {
    48 <= b && b <= 57
}

/// Whether every byte of `s` is a decimal digit.
pub open spec fn all_digits(s: Seq<u8>) -> bool {
    forall|i: int| 0 <= i < s.len() ==> is_digit(#[trigger] s[i])
}

/// The number that the digits of `s` write in base ten; 0 for the empty string.
pub open spec fn digits_value(s: Seq<u8>) -> nat
    decreases s.len(),
{
    if s.len() == 0 {
        0
    } else {
        digits_value(s.drop_last()) * 10 + if is_digit(s.last()) {
            (s.last() - 48) as nat
        } else {
            0
        }
    }
}

/// What an unsigned decimal parser accepts: an optional `+`, then one or more
/// digits whose value is at most `max`. Leading zeros are allowed.
pub open spec fn parse_unsigned(s: Seq<u8>, max: nat) -> Option<nat> {
    let d = if s.len() > 0 && s[0] == 43 {
        s.skip(1)
    } else {
        s
    };
    if d.len() > 0 && all_digits(d) && digits_value(d) <= max {
        Some(digits_value(d))
    } else {
        None
    }
}

/// What a signed 64-bit decimal parser accepts: an optional `+` or `-`, then
/// one or more digits, the value within the range of `i64`.
pub open spec fn parse_signed(s: Seq<u8>) -> Option<int> {
    if s.len() > 0 && s[0] == 45 {
        let d = s.skip(1);
        if d.len() > 0 && all_digits(d) && digits_value(d) <= 0x8000_0000_0000_0000 {
            Some(-(digits_value(d) as int))
        } else {
            None
        }
    } else {
        match parse_unsigned(s, 0x7fff_ffff_ffff_ffff) {
            Some(v) => Some(v as int),
            None => None,
        }
    }
}

/// The value of a string of digits is at least the value of any of its prefixes.
pub proof fn lemma_digits_prefix(s: Seq<u8>, k: int)
    requires
        0 <= k <= s.len(),
    ensures
        digits_value(s.take(k)) <= digits_value(s),
    decreases s.len() - k,
{
    if k == s.len() {
        assert(s.take(k) == s);
    } else {
        lemma_digits_prefix(s.drop_last(), k);
        assert(s.drop_last().take(k) == s.take(k));
    }
}

/// Reads the digits `s[from..]` as a number of at most `max`.
fn parse_digits(s: &[u8], from: usize, max: u64) -> (r: Option<u64>)
    requires
        from <= s@.len(),
    ensures
        r == (if s@.len() > from && all_digits(s@.skip(from as int)) && digits_value(
            s@.skip(from as int),
        ) <= max {
            Some(digits_value(s@.skip(from as int)) as u64)
        } else {
            None
        }),
{
    if from >= s.len() {
        return None;
    }
    let ghost d = s@.skip(from as int);
    let mut acc: u64 = 0;
    let mut i: usize = from;
    proof {
        assert(d.take(0) == Seq::<u8>::empty());
    }
    while i < s.len()
        invariant
            from <= i <= s@.len(),
            d == s@.skip(from as int),
            all_digits(d.take(i - from)),
            acc == digits_value(d.take(i - from)),
            acc <= max,
        decreases s@.len() - i,
    {
        let c = s[i];
        proof {
            assert(d[i - from] == c);
            assert(d.take(i - from + 1).drop_last() == d.take(i - from));
            assert(d.take(i - from + 1).last() == c);
        }
        if c < 48 || c > 57 {
            return None;
        }
        let wide: u128 = (acc as u128) * 10 + ((c - 48) as u128);
        if wide > max as u128 {
            proof {
                lemma_digits_prefix(d, i - from + 1);
            }
            return None;
        }
        acc = wide as u64;
        proof {
            assert forall|j: int| 0 <= j < i - from + 1 implies is_digit(
                #[trigger] d.take(i - from + 1)[j],
            ) by {
                if j < i - from {
                    assert(d.take(i - from)[j] == d.take(i - from + 1)[j]);
                }
            }
        }
        i += 1;
    }
    proof {
        assert(d.take(i - from) == d);
    }
    Some(acc)
}

/// Parses an unsigned decimal number of at most `max`.
pub fn parse_number(s: &[u8], max: u64) -> (r: Option<u64>)
    ensures
        r == (match parse_unsigned(s@, max as nat) {
            Some(v) => Some(v as u64),
            None => None,
        }),
{
    if s.len() > 0 && s[0] == 43 {
        parse_digits(s, 1, max)
    } else {
        proof {
            assert(s@.skip(0) == s@);
        }
        parse_digits(s, 0, max)
    }
}

/// Parses an unsigned 32-bit decimal number.
pub fn parse_u32(s: &[u8]) -> (r: Option<u32>)
    ensures
        r == (match parse_unsigned(s@, 0xffff_ffff) {
            Some(v) => Some(v as u32),
            None => None,
        }),
{
    match parse_number(s, 0xffff_ffff) {
        Some(v) => Some(v as u32),
        None => None,
    }
}

/// Parses a signed 64-bit decimal number.
pub fn parse_i64(s: &[u8]) -> (r: Option<i64>)
    ensures
        r == (match parse_signed(s@) {
            Some(v) => Some(v as i64),
            None => None,
        }),
{
    if s.len() > 0 && s[0] == 45 {
        match parse_digits(s, 1, 0x8000_0000_0000_0000) {
            Some(v) => {
                if v == 0x8000_0000_0000_0000 {
                    Some(i64::MIN)
                } else {
                    Some(-(v as i64))
                }
            },
            None => None,
        }
    } else {
        match parse_number(s, 0x7fff_ffff_ffff_ffff) {
            Some(v) => Some(v as i64),
            None => None,
        }
    }
}

/// The decimal digits of `n`, without leading zeros.
pub open spec fn decimal(n: nat) -> Seq<u8>
    decreases n,
{
    if n < 10 {
        seq![(48 + n) as u8]
    } else {
        decimal(n / 10).push((48 + n % 10) as u8)
    }
}

/// The decimal form of an integer: a `-` for a negative number, then its digits.
pub open spec fn signed_decimal(n: int) -> Seq<u8> {
    if n < 0 {
        seq![45u8] + decimal((-n) as nat)
    } else {
        decimal(n as nat)
    }
}

/// The digits of a number are digits, and they write that number.
pub proof fn lemma_decimal(n: nat)
    ensures
        decimal(n).len() >= 1,
        all_digits(decimal(n)),
        digits_value(decimal(n)) == n,
    decreases n,
{
    if n < 10 {
        let s = decimal(n);
        assert(s.drop_last() == Seq::<u8>::empty());
        assert(s.last() == 48 + n);
        assert(digits_value(s.drop_last()) == 0);
    } else {
        lemma_decimal(n / 10);
        let s = decimal(n);
        assert(s.drop_last() == decimal(n / 10));
        assert(s.last() == 48 + n % 10);
        assert(digits_value(s) == (n / 10) * 10 + n % 10);
        assert forall|i: int| 0 <= i < s.len() implies is_digit(#[trigger] s[i]) by {
            if i < s.len() - 1 {
                assert(s[i] == decimal(n / 10)[i]);
            }
        }
    }
}

/// Parsing the decimal form of a number gives the number back.
pub proof fn lemma_parse_decimal(n: nat, max: nat)
    requires
        n <= max,
    ensures
        parse_unsigned(decimal(n), max) == Some(n),
{
    lemma_decimal(n);
    assert(is_digit(decimal(n)[0]));
}

/// Appends the decimal digits of `n`.
pub fn push_decimal(out: &mut Vec<u8>, n: u64)
    ensures
        final(out)@ == old(out)@ + decimal(n as nat),
    decreases n,
{
    if n >= 10 {
        push_decimal(out, n / 10);
    }
    out.push(48 + (n % 10) as u8);
    proof {
        if n >= 10 {
            assert(final(out)@ =~= old(out)@ + decimal(n as nat));
        } else {
            assert(final(out)@ =~= old(out)@ + decimal(n as nat));
        }
    }
}

/// Appends the decimal form of a signed number.
pub fn push_signed(out: &mut Vec<u8>, n: i64)
    ensures
        final(out)@ == old(out)@ + signed_decimal(n as int),
{
    if n < 0 {
        out.push(45);
        let m: u64 = if n == i64::MIN { 0x8000_0000_0000_0000 } else { (-n) as u64 };
        push_decimal(out, m);
        assert(final(out)@ =~= old(out)@ + signed_decimal(n as int));
    } else {
        push_decimal(out, n as u64);
    }
}

/// Appends `s` to `out`.
pub fn push_all(out: &mut Vec<u8>, s: &[u8])
    ensures
        final(out)@ == old(out)@ + s@,
{
    out.extend_from_slice(s);
}


/// The bytes of a piece of literal text.
pub open spec fn lit(s: &str) -> Seq<u8> {
    s.spec_bytes()
}

/// The byte sequence held by an optional byte vector.
pub open spec fn opt_view(o: Option<Vec<u8>>) -> Option<Seq<u8>> {
    match o {
        Some(v) => Some(v@),
        None => None,
    }
}

/// The pairs of byte sequences held by a list of pairs of byte vectors.
pub open spec fn pairs_view(v: Seq<(Vec<u8>, Vec<u8>)>) -> Seq<(Seq<u8>, Seq<u8>)> {
    v.map_values(|p: (Vec<u8>, Vec<u8>)| (p.0@, p.1@))
}

/// The pairs held by an optional list of pairs.
pub open spec fn opt_pairs_view(o: Option<Vec<(Vec<u8>, Vec<u8>)>>) -> Option<
    Seq<(Seq<u8>, Seq<u8>)>,
> {
    match o {
        Some(v) => Some(pairs_view(v@)),
        None => None,
    }
}

/// A copy of a byte string.
pub fn clone_bytes(s: &[u8]) -> (r: Vec<u8>)
    ensures
        r@ == s@,
{
    let r = copy_range(s, 0, s.len());
    proof {
        assert(s@.subrange(0, s@.len() as int) == s@);
    }
    r
}

/// A copy of an optional byte string.
pub fn clone_opt(o: &Option<Vec<u8>>) -> (r: Option<Vec<u8>>)
    ensures
        opt_view(r) == opt_view(*o),
{
    match o {
        Some(v) => Some(clone_bytes(v.as_slice())),
        None => None,
    }
}

/// A copy of a list of byte strings.
pub fn clone_list(l: &Vec<Vec<u8>>) -> (r: Vec<Vec<u8>>)
    ensures
        views(r@) == views(l@),
{
    let mut r: Vec<Vec<u8>> = Vec::new();
    let mut i: usize = 0;
    while i < l.len()
        invariant
            i <= l@.len(),
            views(r@) == views(l@).take(i as int),
        decreases l@.len() - i,
    {
        let c = clone_bytes(l[i].as_slice());
        proof {
            assert(views(r@.push(c)) == views(r@).push(c@));
            assert(views(l@).take(i + 1) == views(l@).take(i as int).push(l@[i as int]@));
        }
        r.push(c);
        i += 1;
    }
    proof {
        assert(views(l@).take(i as int) == views(l@));
    }
    r
}

/// A copy of a list of pairs of byte strings.
pub fn clone_pairs(l: &Vec<(Vec<u8>, Vec<u8>)>) -> (r: Vec<(Vec<u8>, Vec<u8>)>)
    ensures
        pairs_view(r@) == pairs_view(l@),
{
    let mut r: Vec<(Vec<u8>, Vec<u8>)> = Vec::new();
    let mut i: usize = 0;
    while i < l.len()
        invariant
            i <= l@.len(),
            pairs_view(r@) == pairs_view(l@).take(i as int),
        decreases l@.len() - i,
    {
        let c = (clone_bytes(l[i].0.as_slice()), clone_bytes(l[i].1.as_slice()));
        proof {
            assert(pairs_view(r@.push(c)) == pairs_view(r@).push((c.0@, c.1@)));
            assert(pairs_view(l@).take(i + 1) == pairs_view(l@).take(i as int).push(
                (l@[i as int].0@, l@[i as int].1@),
            ));
        }
        r.push(c);
        i += 1;
    }
    proof {
        assert(pairs_view(l@).take(i as int) == pairs_view(l@));
    }
    r
}

/// A copy of an optional list of pairs.
pub fn clone_opt_pairs(o: &Option<Vec<(Vec<u8>, Vec<u8>)>>) -> (r: Option<Vec<(Vec<u8>, Vec<u8>)>>)
    ensures
        opt_pairs_view(r) == opt_pairs_view(*o),
{
    match o {
        Some(v) => Some(clone_pairs(v)),
        None => None,
    }
}

/// Index of the first entry of `l` equal to `x`, or the length of `l`.
pub open spec fn position(l: Seq<Seq<u8>>, x: Seq<u8>) -> int
    decreases l.len(),
{
    if l.len() == 0 {
        0
    } else if l[0] == x {
        0
    } else {
        1 + position(l.skip(1), x)
    }
}

/// The position of a text in a list is that of its first occurrence, or
/// the length of the list where it does not occur.
pub proof fn lemma_position(l: Seq<Seq<u8>>, x: Seq<u8>)
    ensures
        0 <= position(l, x) <= l.len(),
        forall|i: int| 0 <= i < position(l, x) ==> l[i] != x,
        position(l, x) < l.len() ==> l[position(l, x)] == x,
    decreases l.len(),
{
    if l.len() != 0 && l[0] != x {
        lemma_position(l.skip(1), x);
        let r = position(l.skip(1), x);
        assert forall|i: int| 0 <= i < 1 + r implies l[i] != x by {
            if i > 0 {
                assert(l.skip(1)[i - 1] == l[i]);
            }
        }
        if 1 + r < l.len() {
            assert(l.skip(1)[r] == l[1 + r]);
        }
    }
}

/// Finds the first entry of `l` equal to `x`.
pub fn find_in_list(l: &Vec<Vec<u8>>, x: &[u8]) -> (r: usize)
    ensures
        r == position(views(l@), x@),
        r <= l@.len(),
{
    let mut i: usize = 0;
    while i < l.len()
        invariant
            i <= l@.len(),
            forall|j: int| 0 <= j < i ==> views(l@)[j] != x@,
        decreases l@.len() - i,
    {
        if bytes_eq(l[i].as_slice(), x) {
            proof {
                lemma_position(views(l@), x@);
                let r = position(views(l@), x@);
                if r < i {
                    assert(views(l@)[r] == x@);
                }
                if i < r {
                    assert(views(l@)[i as int] != x@);
                }
            }
            return i;
        }
        i += 1;
    }
    proof {
        lemma_position(views(l@), x@);
        let r = position(views(l@), x@);
        if r < l@.len() {
            assert(views(l@)[r] == x@);
        }
    }
    i
}


/// The first of two optional values that is present.
pub open spec fn or_else<T>(a: Option<T>, b: Option<T>) -> Option<T> {
    if a is Some {
        a
    } else {
        b
    }
}

/// The first value that is present among the first `n` entries of `s`.
pub open spec fn first_some<T>(s: Seq<Option<T>>, n: int) -> Option<T>
    decreases n,
{
    if n <= 0 {
        None
    } else {
        or_else(first_some(s, n - 1), s[n - 1])
    }
}

/// Once a value is found, looking at more entries does not change it.
pub proof fn lemma_first_some_stable<T>(s: Seq<Option<T>>, k: int, n: int)
    requires
        0 <= k <= n,
        first_some(s, k) is Some,
    ensures
        first_some(s, n) == first_some(s, k),
    decreases n - k,
{
    if k < n {
        lemma_first_some_stable(s, k, n - 1);
    }
}

/// The names under which a list of pairs holds its entries.
pub open spec fn keys_of<T>(l: Seq<(Vec<u8>, T)>) -> Seq<Seq<u8>> {
    l.map_values(|p: (Vec<u8>, T)| p.0@)
}

/// Finds the first pair of `l` whose name is `x`; the length of `l` if there is none.
pub fn find_key<T>(l: &Vec<(Vec<u8>, T)>, x: &[u8]) -> (r: usize)
    ensures
        r == position(keys_of(l@), x@),
        r <= l@.len(),
{
    let mut i: usize = 0;
    while i < l.len()
        invariant
            i <= l@.len(),
            forall|j: int| 0 <= j < i ==> keys_of(l@)[j] != x@,
        decreases l@.len() - i,
    {
        if bytes_eq(l[i].0.as_slice(), x) {
            proof {
                lemma_position(keys_of(l@), x@);
                let r = position(keys_of(l@), x@);
                if r < i {
                    assert(keys_of(l@)[r] == x@);
                }
                if i < r {
                    assert(keys_of(l@)[i as int] != x@);
                }
            }
            return i;
        }
        i += 1;
    }
    proof {
        lemma_position(keys_of(l@), x@);
        let r = position(keys_of(l@), x@);
        if r < l@.len() {
            assert(keys_of(l@)[r] == x@);
        }
    }
    i
}


/// Whether a white-space character of Unicode starts at position `i` of a
/// UTF-8 text: the ASCII ones, U+0085, U+00A0, U+1680, U+2000 to U+200A,
/// U+2028, U+2029, U+202F, U+205F and U+3000.
pub open spec fn whitespace_at(s: Seq<u8>, i: int) -> bool {
    ||| is_space(s[i])
    ||| i + 1 < s.len() && s[i] == 0xc2 && (s[i + 1] == 0x85 || s[i + 1] == 0xa0)
    ||| i + 2 < s.len() && s[i] == 0xe1 && s[i + 1] == 0x9a && s[i + 2] == 0x80
    ||| i + 2 < s.len() && s[i] == 0xe2 && s[i + 1] == 0x80 && ((0x80 <= s[i + 2] && s[i + 2]
        <= 0x8a) || s[i + 2] == 0xa8 || s[i + 2] == 0xa9 || s[i + 2] == 0xaf)
    ||| i + 2 < s.len() && s[i] == 0xe2 && s[i + 1] == 0x81 && s[i + 2] == 0x9f
    ||| i + 2 < s.len() && s[i] == 0xe3 && s[i + 1] == 0x80 && s[i + 2] == 0x80
}

/// Whether a UTF-8 text holds a white-space character.
pub open spec fn has_whitespace(s: Seq<u8>) -> bool {
    exists|i: int| 0 <= i < s.len() && whitespace_at(s, i)
}

/// Tests whether a UTF-8 text holds a white-space character.
pub fn contains_whitespace(s: &[u8]) -> (r: bool)
    ensures
        r == has_whitespace(s@),
{
    let n = s.len();
    let mut i: usize = 0;
    while i < n
        invariant
            n == s@.len(),
            i <= n,
            forall|j: int| 0 <= j < i ==> !whitespace_at(s@, j),
        decreases n - i,
    {
        let a = s[i];
        let two = n - i > 1;
        let three = n - i > 2;
        let found = byte_is_space(a) || (two && a == 0xc2 && (s[i + 1] == 0x85 || s[i + 1] == 0xa0))
            || (three && a == 0xe1 && s[i + 1] == 0x9a && s[i + 2] == 0x80) || (three && a == 0xe2
            && s[i + 1] == 0x80 && ((0x80 <= s[i + 2] && s[i + 2] <= 0x8a) || s[i + 2] == 0xa8
            || s[i + 2] == 0xa9 || s[i + 2] == 0xaf)) || (three && a == 0xe2 && s[i + 1] == 0x81
            && s[i + 2] == 0x9f) || (three && a == 0xe3 && s[i + 1] == 0x80 && s[i + 2] == 0x80);
        if found {
            assert(whitespace_at(s@, i as int));
            return true;
        }
        i += 1;
    }
    false
}


/// Joining the fields of a split gives the input back.
pub proof fn lemma_join_split(s: Seq<u8>, sep: u8)
    ensures
        join(split(s, sep), sep) == s,
    decreases s.len(),
{
    lemma_find_byte(s, sep);
    let i = find_byte(s, sep);
    if 0 <= i < s.len() {
        let rest = split(s.skip(i + 1), sep);
        lemma_join_split(s.skip(i + 1), sep);
        lemma_split_fields_clean(s.skip(i + 1), sep);
        let all = seq![s.take(i)] + rest;
        assert(all.skip(1) =~= rest);
        assert(all[0] == s.take(i));
        assert(join(all, sep) == s.take(i).push(sep) + join(rest, sep));
        assert(s.take(i).push(sep) + s.skip(i + 1) =~= s);
    } else {
        assert(split(s, sep) == seq![s]);
    }
}

/// A byte of a field of a split is a byte of the input.
pub proof fn lemma_split_bytes_from(s: Seq<u8>, sep: u8, k: int, b: u8)
    requires
        0 <= k < split(s, sep).len(),
        has_byte(split(s, sep)[k], b),
    ensures
        has_byte(s, b),
    decreases s.len(),
{
    lemma_find_byte(s, sep);
    let i = find_byte(s, sep);
    let field = split(s, sep)[k];
    let j = choose|j: int| 0 <= j < field.len() && field[j] == b;
    if 0 <= i < s.len() {
        if k == 0 {
            assert(field == s.take(i));
            assert(s[j] == b);
        } else {
            let rest = split(s.skip(i + 1), sep);
            assert(field == rest[k - 1]);
            lemma_split_bytes_from(s.skip(i + 1), sep, k - 1, b);
            let t = s.skip(i + 1);
            let m = choose|m: int| 0 <= m < t.len() && t[m] == b;
            assert(s[i + 1 + m] == b);
        }
    } else {
        assert(field == s);
    }
}

/// A byte of a joined line is the separator or a byte of one of the parts.
pub proof fn lemma_join_bytes(parts: Seq<Seq<u8>>, sep: u8, b: u8)
    requires
        has_byte(join(parts, sep), b),
        b != sep,
    ensures
        exists|k: int| 0 <= k < parts.len() && has_byte(#[trigger] parts[k], b),
    decreases parts.len(),
{
    let line = join(parts, sep);
    let j = choose|j: int| 0 <= j < line.len() && line[j] == b;
    if parts.len() == 0 {
    } else if parts.len() == 1 {
        assert(has_byte(parts[0], b));
    } else {
        let head = parts[0];
        let rest = parts.skip(1);
        assert(line == head.push(sep) + join(rest, sep));
        if j < head.len() {
            assert(head[j] == b);
            assert(has_byte(parts[0], b));
        } else {
            assert(j > head.len());
            assert(join(rest, sep)[j - head.len() - 1] == b);
            lemma_join_bytes(rest, sep, b);
            let k = choose|k: int| 0 <= k < rest.len() && has_byte(#[trigger] rest[k], b);
            assert(rest[k] == parts[k + 1]);
            assert(has_byte(parts[k + 1], b));
        }
    }
}

/// The digits of a number hold no byte that is not a digit.
pub proof fn lemma_decimal_bytes(n: nat, b: u8)
    requires
        !is_digit(b),
    ensures
        !has_byte(decimal(n), b),
{
    lemma_decimal(n);
}


/// The names of a list of named values.
pub open spec fn pair_names<T>(t: Seq<(Seq<u8>, T)>) -> Seq<Seq<u8>> {
    t.map_values(|p: (Seq<u8>, T)| p.0)
}

/// A list of named values after a value was put under a name: in the place
/// of the first entry of that name, or at the end when the name is new.
pub open spec fn put_pair<T>(t: Seq<(Seq<u8>, T)>, name: Seq<u8>, value: T) -> Seq<(Seq<u8>, T)> {
    let i = position(pair_names(t), name);
    if 0 <= i < t.len() {
        t.update(i, (name, value))
    } else {
        t.push((name, value))
    }
}

/// Puts a byte string under a name.
pub fn put_bytes(t: &mut Vec<(Vec<u8>, Vec<u8>)>, name: Vec<u8>, value: Vec<u8>)
    ensures
        pairs_view(final(t)@) == put_pair(pairs_view(old(t)@), name@, value@),
{
    proof {
        assert(pair_names(pairs_view(t@)) =~= keys_of(t@));
    }
    let i = find_key(t, name.as_slice());
    let ghost before = pairs_view(t@);
    let ghost e = (name@, value@);
    if i < t.len() {
        t.set(i, (name, value));
        assert(pairs_view(t@) =~= before.update(i as int, e));
    } else {
        t.push((name, value));
        assert(pairs_view(t@) =~= before.push(e));
    }
}


/// A split into at most `n` fields is the full split if that has no more than `n` fields.
pub proof fn lemma_splitn_is_split(s: Seq<u8>, sep: u8, n: nat)
    requires
        split(s, sep).len() <= n,
    ensures
        splitn(s, sep, n) == split(s, sep),
    decreases s.len(),
{
    lemma_find_byte(s, sep);
    let i = find_byte(s, sep);
    if 0 <= i < s.len() {
        lemma_split_fields_clean(s.skip(i + 1), sep);
        lemma_splitn_is_split(s.skip(i + 1), sep, (n - 1) as nat);
    }
}

/// A byte of a concatenation is a byte of one of its parts.
pub proof fn lemma_concat_bytes(x: Seq<u8>, y: Seq<u8>, b: u8)
    ensures
        has_byte(x + y, b) == (has_byte(x, b) || has_byte(y, b)),
{
    let z = x + y;
    if has_byte(z, b) {
        let i = choose|i: int| 0 <= i < z.len() && z[i] == b;
        if i < x.len() {
            assert(x[i] == b);
        } else {
            assert(y[i - x.len()] == b);
        }
    }
    if has_byte(x, b) {
        let i = choose|i: int| 0 <= i < x.len() && x[i] == b;
        assert(z[i] == b);
    }
    if has_byte(y, b) {
        let i = choose|i: int| 0 <= i < y.len() && y[i] == b;
        assert(z[x.len() + i] == b);
    }
}

/// The value under a name in a list of named values: that of the first entry of the name.
pub open spec fn pair_value<T>(t: Seq<(Seq<u8>, T)>, name: Seq<u8>) -> Option<T> {
    let i = position(pair_names(t), name);
    if 0 <= i < t.len() {
        Some(t[i].1)
    } else {
        None
    }
}

/// What is put under a name is found under it, and what stands under other names stays.
pub proof fn lemma_put_pair<T>(t: Seq<(Seq<u8>, T)>, name: Seq<u8>, value: T, other: Seq<u8>)
    ensures
        pair_value(put_pair(t, name, value), name) == Some(value),
        other != name ==> pair_value(put_pair(t, name, value), other) == pair_value(t, other),
{
    let names = pair_names(t);
    let i = position(names, name);
    lemma_position(names, name);
    let u = put_pair(t, name, value);
    let un = pair_names(u);
    lemma_position(un, name);
    lemma_position(un, other);
    lemma_position(names, other);
    if 0 <= i < t.len() {
        assert(un =~= names.update(i, name));
        assert(un[i] == name);
        assert forall|k: int| 0 <= k < i implies un[k] != name by {
            assert(un[k] == names[k]);
        }
        let pu = position(un, name);
        if pu < i {
            assert(un[pu] == name);
        }
        assert(pu == i);
        if other != name {
            let po = position(names, other);
            let qo = position(un, other);
            if po < names.len() {
                assert(po != i);
                assert(un[po] == other);
                if qo < po {
                    assert(un[qo] == other);
                    assert(qo != i);
                    assert(names[qo] == other);
                }
                assert(qo == po);
                assert(u[po] == t[po]);
            } else {
                if qo < un.len() {
                    assert(qo != i);
                    assert(names[qo] == other);
                }
            }
        }
    } else {
        assert(un =~= names.push(name));
        let pu = position(un, name);
        assert(un[t.len() as int] == name);
        if pu < t.len() {
            assert(names[pu] == name);
        }
        assert(pu == t.len());
        if other != name {
            let po = position(names, other);
            let qo = position(un, other);
            if po < names.len() {
                assert(un[po] == other);
                if qo < po {
                    assert(names[qo] == other);
                }
                assert(qo == po);
                assert(u[po] == t[po]);
            } else {
                if qo < un.len() {
                    if qo < names.len() {
                        assert(names[qo] == other);
                    }
                }
            }
        }
    }
}

} // verus!
