//! The name-service adapter's conversation with the daemon: the request
//! line, what a reply line means, when to try again, and how the payload of
//! a reply becomes a record in the caller's buffer.

use vstd::prelude::*;
use crate::buffer::{align_up, Buffer, Group, Passwd, strings_size};
use crate::errors::NssError;
use crate::text::{
    contains_byte, has_byte, parse_number, parse_u32, parse_unsigned, push_all, split, split_bytes,
    splitn, splitn_bytes, trim_end, trim_end_bytes, views,
};

verus! {

/// Time after which a lookup is given up, in milliseconds.
pub const MAX_TIMEOUT_MS: u64 = 2000;

/// Pause before a lookup is tried again, in milliseconds.
pub const RETRY_DELAY_MS: u64 = 500;

/// Time allowed for reading the daemon's reply, in milliseconds.
pub const REQUEST_READ_TIMEOUT_MS: u64 = 1500;

/// Time allowed for writing the request, in milliseconds.
pub const REQUEST_WRITE_TIMEOUT_MS: u64 = 1000;

/// A length of time in milliseconds, from its whole seconds and the
/// milliseconds of its fraction; the greatest number where it does not fit.
pub fn duration_millis(secs: u64, subsec_millis: u32) -> (r: u64)
    ensures
        r == (if secs * 1000 + subsec_millis <= u64::MAX {
            (secs * 1000 + subsec_millis) as u64
        } else {
            u64::MAX
        }),
{
    let wide: u128 = (secs as u128) * 1000 + (subsec_millis as u128);
    if wide > u64::MAX as u128 {
        u64::MAX
    } else {
        wide as u64
    }
}

/// The line that asks the daemon: the command, a space, the argument, a line feed.
pub open spec fn request_line(cmd: Seq<u8>, arg: Seq<u8>) -> Seq<u8> {
    cmd + seq![0x20u8] + arg + seq![0x0au8]
}

/// Builds the line that asks the daemon.
pub fn request(cmd: &[u8], arg: &[u8]) -> (r: Vec<u8>)
    ensures
        r@ == request_line(cmd@, arg@),
{
    let mut r: Vec<u8> = Vec::new();
    push_all(&mut r, cmd);
    r.push(0x20);
    push_all(&mut r, arg);
    r.push(0x0a);
    r
}

/// What a reply code means to the adapter: 200 to 299 is success; 404 is
/// `NotFound`; 401 and 403 are `Unavailable`; any other code from 400 to 499
/// is `TryAgainLater`; everything else is `Unavailable`.
pub open spec fn code_meaning(code: int) -> Option<NssError> {
    if 200 <= code <= 299 {
        None
    } else if code == 404 {
        Some(NssError::NotFound)
    } else if code == 401 || code == 403 {
        Some(NssError::Unavailable)
    } else if 400 <= code <= 499 {
        Some(NssError::TryAgainLater)
    } else {
        Some(NssError::Unavailable)
    }
}

/// What a reply line of the daemon means. The line, without the whitespace
/// at its end, is a code, and after the first space the payload. A code that
/// is no number of 16 bits is `Unavailable`.
pub open spec fn reply_meaning(line: Seq<u8>) -> Result<Seq<u8>, NssError> {
    let parts = splitn(trim_end(line), 0x20, 2);
    let payload = if parts.len() > 1 {
        parts[1]
    } else {
        Seq::empty()
    };
    match parse_unsigned(parts[0], 0xffff) {
        None => Err(NssError::Unavailable),
        Some(code) => match code_meaning(code as int) {
            None => Ok(payload),
            Some(e) => Err(e),
        },
    }
}

/// Reads a reply line of the daemon.
pub fn parse_reply(line: &[u8]) -> (r: Result<Vec<u8>, NssError>)
    ensures
        match reply_meaning(line@) {
            Ok(p) => r matches Ok(v) && v@ == p,
            Err(e) => r == Err::<Vec<u8>, NssError>(e),
        },
{
    let trimmed = trim_end_bytes(line);
    let mut parts = splitn_bytes(trimmed.as_slice(), 0x20, 2);
    let ghost all = views(parts@);
    assert(all.len() >= 1);
    let code = match parse_number(parts[0].as_slice(), 0xffff) {
        Some(c) => c,
        None => {
            return Err(NssError::Unavailable);
        },
    };
    if 200 <= code && code <= 299 {
        if parts.len() > 1 {
            let v = parts.remove(1);
            Ok(v)
        } else {
            Ok(Vec::new())
        }
    } else if code == 404 {
        Err(NssError::NotFound)
    } else if code == 401 || code == 403 {
        Err(NssError::Unavailable)
    } else if 400 <= code && code <= 499 {
        Err(NssError::TryAgainLater)
    } else {
        Err(NssError::Unavailable)
    }
}

/// What follows an exchange with the daemon.
#[derive(Debug, PartialEq, Eq)]
pub enum Step {
    /// The lookup is over, with this outcome.
    Return(Result<Vec<u8>, NssError>),
    /// Try again, after a pause of so many milliseconds.
    Retry { sleep_ms: u64 },
}

/// Whether a lookup that has taken `elapsed_ms` so far is given up before
/// the next exchange. A clock that cannot tell gives up nothing.
pub fn out_of_time(elapsed_ms: Option<u64>) -> (r: bool)
    ensures
        r == (elapsed_ms matches Some(t) && t > MAX_TIMEOUT_MS),
{
    match elapsed_ms {
        Some(t) => t > MAX_TIMEOUT_MS,
        None => false,
    }
}

/// Decides what follows an exchange. A payload with a NUL byte is refused as
/// `Unavailable`. `NotFound`, `TryAgainLater`, `InsufficientBuffer` and
/// `Unavailable` end the lookup. A time-out is tried again at once; a lost
/// connection is tried again after the retry delay, provided that the delay
/// ends before the time allowed.
pub fn after_try(res: Result<Vec<u8>, NssError>, elapsed_ms: Option<u64>) -> (r: Step)
    ensures
        match res {
            Ok(v) => r matches Step::Return(out) && (if has_byte(v@, 0) {
                out == Err::<Vec<u8>, NssError>(NssError::Unavailable)
            } else {
                out == Ok::<Vec<u8>, NssError>(v)
            }),
            Err(NssError::TimedOut) => r == (Step::Retry { sleep_ms: 0 }),
            Err(NssError::TryAgainNow) => r == (Step::Retry {
                sleep_ms: if elapsed_ms matches Some(t) && t + RETRY_DELAY_MS < MAX_TIMEOUT_MS {
                    RETRY_DELAY_MS
                } else {
                    0
                },
            }),
            Err(e) => r == Step::Return(Err(e)),
        },
{
    match res {
        Ok(v) => {
            if contains_byte(v.as_slice(), 0) {
                Step::Return(Err(NssError::Unavailable))
            } else {
                Step::Return(Ok(v))
            }
        },
        Err(NssError::TimedOut) => Step::Retry { sleep_ms: 0 },
        Err(NssError::TryAgainNow) => {
            let pause = match elapsed_ms {
                Some(t) => t < MAX_TIMEOUT_MS - RETRY_DELAY_MS,
                None => false,
            };
            Step::Retry { sleep_ms: if pause { RETRY_DELAY_MS } else { 0 } }
        },
        Err(e) => Step::Return(Err(e)),
    }
}

/// Whether a payload can be a user record: seven fields between colons, the
/// first not empty, the third and fourth unsigned 32-bit numbers.
pub open spec fn passwd_payload_ok(line: Seq<u8>) -> bool {
    let f = split(line, 0x3a);
    &&& f.len() == 7
    &&& f[0].len() > 0
    &&& parse_unsigned(f[2], 0xffff_ffff) is Some
    &&& parse_unsigned(f[3], 0xffff_ffff) is Some
}

/// A string that stood in a buffer stands there after an addition that went well.
pub proof fn lemma_added_keeps(before: Buffer, after: Buffer, item: Seq<u8>, at: int, x: Seq<u8>)
    requires
        before.added(after, item),
        after.res is Ok,
        before.holds(at, x),
        at + x.len() < before.bufpos,
    ensures
        after.holds(at, x),
{
    assert(after.data@.subrange(at, at + x.len()) =~= before.data@.subrange(at, at + x.len()));
}

/// What laying a user record out from a payload does to the record, and
/// with what outcome. A payload that cannot be a user record is
/// `Unavailable` and leaves the record as it is. Otherwise the record is
/// complete exactly if the buffer was sound and has room for the five
/// strings and their closing NUL bytes behind the write position; if not,
/// the outcome is the buffer's earlier failure or `InsufficientBuffer`, and
/// the record is left empty.
pub open spec fn passwd_decoded(
    before: Passwd,
    after: Passwd,
    line: Seq<u8>,
    r: Result<(), NssError>,
) -> bool {
    &&& after.buffer.wf()
    &&& after.buffer.buflen == before.buffer.buflen
    &&& !passwd_payload_ok(line) ==> r == Err::<(), NssError>(NssError::Unavailable) && after
        == before
    &&& passwd_payload_ok(line) ==> {
        let f = split(line, 0x3a);
        &&& r is Ok <==> before.buffer.res is Ok && before.buffer.bufpos + f[0].len() + f[1].len()
            + f[4].len() + f[5].len() + f[6].len() + 5 <= before.buffer.buflen
        &&& r matches Err(e) ==> e == (match before.buffer.res {
            Err(x) => x,
            Ok(_) => NssError::InsufficientBuffer,
        })
        &&& r is Err ==> after.cleared()
        &&& r is Ok ==> {
            &&& after.buffer.holds(after.name as int, f[0])
            &&& after.buffer.holds(after.passwd as int, f[1])
            &&& Some(after.uid as nat) == parse_unsigned(f[2], 0xffff_ffff)
            &&& Some(after.gid as nat) == parse_unsigned(f[3], 0xffff_ffff)
            &&& after.buffer.holds(after.gecos as int, f[4])
            &&& after.buffer.holds(after.dir as int, f[5])
            &&& after.buffer.holds(after.shell as int, f[6])
        }
    }
}

/// Lays a user record out from the payload of a reply.
pub fn decode_passwd(pwd: &mut Passwd, line: &[u8]) -> (r: Result<(), NssError>)
    requires
        old(pwd).buffer.wf(),
    ensures
        passwd_decoded(*old(pwd), *final(pwd), line@, r),
{
    let fields = split_bytes(line, 0x3a);
    if fields.len() != 7 {
        return Err(NssError::Unavailable);
    }
    if fields[0].len() == 0 {
        return Err(NssError::Unavailable);
    }
    let uid = match parse_u32(fields[2].as_slice()) {
        Some(n) => n,
        None => {
            return Err(NssError::Unavailable);
        },
    };
    let gid = match parse_u32(fields[3].as_slice()) {
        Some(n) => n,
        None => {
            return Err(NssError::Unavailable);
        },
    };
    let ghost f = split(line@, 0x3a);
    assert(f == views(fields@));
    let ghost b0 = pwd.buffer;
    pwd.set_name(fields[0].as_slice());
    let ghost b1 = pwd.buffer;
    pwd.set_passwd(fields[1].as_slice());
    let ghost b2 = pwd.buffer;
    pwd.set_uid(uid);
    pwd.set_gid(gid);
    pwd.set_gecos(fields[4].as_slice());
    let ghost b3 = pwd.buffer;
    pwd.set_home(fields[5].as_slice());
    let ghost b4 = pwd.buffer;
    pwd.set_shell(fields[6].as_slice());
    let ghost b5 = pwd.buffer;
    proof {
        assert(f[0] == fields@[0]@ && f[1] == fields@[1]@ && f[4] == fields@[4]@ && f[5]
            == fields@[5]@ && f[6] == fields@[6]@);
        if b5.res is Ok {
            lemma_added_keeps(b1, b2, f[1], b0.bufpos as int, f[0]);
            lemma_added_keeps(b2, b3, f[4], b0.bufpos as int, f[0]);
            lemma_added_keeps(b3, b4, f[5], b0.bufpos as int, f[0]);
            lemma_added_keeps(b4, b5, f[6], b0.bufpos as int, f[0]);
            lemma_added_keeps(b2, b3, f[4], b1.bufpos as int, f[1]);
            lemma_added_keeps(b3, b4, f[5], b1.bufpos as int, f[1]);
            lemma_added_keeps(b4, b5, f[6], b1.bufpos as int, f[1]);
            lemma_added_keeps(b3, b4, f[5], b2.bufpos as int, f[4]);
            lemma_added_keeps(b4, b5, f[6], b2.bufpos as int, f[4]);
            lemma_added_keeps(b4, b5, f[6], b3.bufpos as int, f[5]);
        }
    }
    match pwd.result() {
        Ok(_) => Ok(()),
        Err(e) => {
            pwd.reset();
            Err(e)
        },
    }
}

/// The numbers of a list written with commas between, if each of them is an
/// unsigned 32-bit number.
pub open spec fn gids_of(list: Seq<u8>) -> Option<Seq<u32>> {
    let parts = split(list, 0x2c);
    if forall|i: int| 0 <= i < parts.len() ==> parse_unsigned(#[trigger] parts[i], 0xffff_ffff) is Some {
        Some(Seq::new(parts.len(), |i: int| parse_unsigned(parts[i], 0xffff_ffff).unwrap() as u32))
    } else {
        None
    }
}

/// What the payload of a reply to `getgidlist` means: a name, a colon, and a
/// list of gids.
pub open spec fn gidlist_meaning(line: Seq<u8>) -> Option<Seq<u32>> {
    let f = split(line, 0x3a);
    if f.len() == 2 {
        gids_of(f[1])
    } else {
        None
    }
}

/// Reads the gids from the payload of a reply to `getgidlist`.
pub fn decode_gidlist(line: &[u8]) -> (r: Result<Vec<u32>, NssError>)
    ensures
        match gidlist_meaning(line@) {
            Some(g) => r matches Ok(v) && v@ == g,
            None => r == Err::<Vec<u32>, NssError>(NssError::Unavailable),
        },
{
    let fields = split_bytes(line, 0x3a);
    if fields.len() != 2 {
        return Err(NssError::Unavailable);
    }
    let parts = split_bytes(fields[1].as_slice(), 0x2c);
    let ghost ps = split(split(line@, 0x3a)[1], 0x2c);
    assert(views(fields@)[1] == fields@[1]@);
    assert(ps == views(parts@));
    let mut gids: Vec<u32> = Vec::new();
    let mut i: usize = 0;
    while i < parts.len()
        invariant
            i <= parts@.len(),
            ps == views(parts@),
            split(line@, 0x3a).len() == 2,
            ps == split(split(line@, 0x3a)[1], 0x2c),
            gids@.len() == i,
            forall|k: int|
                0 <= k < i ==> parse_unsigned(#[trigger] ps[k], 0xffff_ffff) == Some(
                    gids@[k] as nat,
                ),
        decreases parts@.len() - i,
    {
        match parse_u32(parts[i].as_slice()) {
            Some(n) => {
                assert(ps[i as int] == parts@[i as int]@);
                gids.push(n);
            },
            None => {
                assert(ps[i as int] == parts@[i as int]@);
                assert(parse_unsigned(ps[i as int], 0xffff_ffff) is None);
                return Err(NssError::Unavailable);
            },
        }
        i += 1;
    }
    assert(gids@ =~= gids_of(split(line@, 0x3a)[1]).unwrap());
    Ok(gids)
}


/// Whether a payload can be a group record: four fields between colons, the
/// first not empty, the third an unsigned 32-bit number.
pub open spec fn group_payload_ok(line: Seq<u8>) -> bool {
    let f = split(line, 0x3a);
    &&& f.len() == 4
    &&& f[0].len() > 0
    &&& parse_unsigned(f[2], 0xffff_ffff) is Some
}

/// What laying a group record out from a payload does to the record, and
/// with what outcome. A payload that cannot be a group record is
/// `Unavailable` and leaves the record as it is. Otherwise the record is
/// complete exactly if the buffer was sound and has room, behind the write
/// position, for name and password, the aligned member array and the
/// members; if not, the outcome is the buffer's earlier failure or
/// `InsufficientBuffer`, and the record is left empty. The members are the
/// parts of the fourth field between commas. They stand behind the member
/// array, whose slots, one for each member and one more that ends the
/// array, are zero.
pub open spec fn group_decoded(
    before: Group,
    after: Group,
    line: Seq<u8>,
    r: Result<(), NssError>,
) -> bool {
    &&& after.buffer.wf()
    &&& after.buffer.buflen == before.buffer.buflen
    &&& !group_payload_ok(line) ==> r == Err::<(), NssError>(NssError::Unavailable) && after
        == before
    &&& group_payload_ok(line) ==> {
        let f = split(line, 0x3a);
        let m = split(f[3], 0x2c);
        &&& r is Ok <==> before.buffer.res is Ok && align_up(
            before.buffer.bufpos + f[0].len() + f[1].len() + 2,
        ) + 8 * (m.len() + 1) + strings_size(m) <= before.buffer.buflen
        &&& r matches Err(e) ==> e == (match before.buffer.res {
            Err(x) => x,
            Ok(_) => NssError::InsufficientBuffer,
        })
        &&& r is Err ==> after.cleared()
        &&& r is Ok ==> {
            &&& after.buffer.holds(after.name as int, f[0])
            &&& after.buffer.holds(after.passwd as int, f[1])
            &&& Some(after.gid as nat) == parse_unsigned(f[2], 0xffff_ffff)
            &&& after.mem == align_up(before.buffer.bufpos + f[0].len() + f[1].len() + 2)
            &&& after.members@.len() == m.len()
            &&& forall|i: int|
                0 <= i < m.len() ==> after.buffer.holds(#[trigger] after.members@[i] as int, m[i])
                    && after.members@[i] >= after.mem + 8 * (m.len() + 1)
            &&& after.buffer.has_array(after.mem as int, m.len() as int)
        }
    }
}

/// Lays a group record out from the payload of a reply.
pub fn decode_group(grp: &mut Group, line: &[u8]) -> (r: Result<(), NssError>)
    requires
        old(grp).buffer.wf(),
    ensures
        group_decoded(*old(grp), *final(grp), line@, r),
{
    let fields = split_bytes(line, 0x3a);
    if fields.len() != 4 {
        return Err(NssError::Unavailable);
    }
    if fields[0].len() == 0 {
        return Err(NssError::Unavailable);
    }
    let gid = match parse_u32(fields[2].as_slice()) {
        Some(n) => n,
        None => {
            return Err(NssError::Unavailable);
        },
    };
    let ghost f = split(line@, 0x3a);
    assert(f == views(fields@));
    assert(f[0] == fields@[0]@ && f[1] == fields@[1]@ && f[3] == fields@[3]@);
    let ghost b0 = grp.buffer;
    grp.set_name(fields[0].as_slice());
    let ghost b1 = grp.buffer;
    grp.set_passwd(fields[1].as_slice());
    let ghost b2 = grp.buffer;
    grp.set_gid(gid);
    let members = split_bytes(fields[3].as_slice(), 0x2c);
    grp.set_members(&members);
    let ghost b3 = grp.buffer;
    proof {
        let m = split(f[3], 0x2c);
        assert(m == views(members@));
        if b3.res is Ok {
            lemma_added_keeps(b1, b2, f[1], b0.bufpos as int, f[0]);
            assert(b3.data@.subrange(b0.bufpos as int, b0.bufpos + f[0].len()) =~= b2.data@.subrange(
                b0.bufpos as int,
                b0.bufpos + f[0].len(),
            ));
            assert(b3.data@.subrange(b1.bufpos as int, b1.bufpos + f[1].len()) =~= b2.data@.subrange(
                b1.bufpos as int,
                b1.bufpos + f[1].len(),
            ));
            assert forall|i: int| 0 <= i < m.len() implies b3.holds(
                #[trigger] grp.members@[i] as int,
                m[i],
            ) by {
                assert(m[i] == members@[i]@);
            }
        }
    }
    match grp.result() {
        Ok(_) => Ok(()),
        Err(e) => {
            grp.reset();
            Err(e)
        },
    }
}

} // verus!
