use webnis::buffer::{Buffer, Group, Passwd};
use webnis::errors::{
    nss_error, nss_result, IoFailure, NssError, EAGAIN, ENOENT, ERANGE, ETIMEDOUT,
    NSS_STATUS_NOTFOUND, NSS_STATUS_SUCCESS, NSS_STATUS_TRYAGAIN, NSS_STATUS_UNAVAIL,
};
use webnis::nss::{initgroups, UidLookup, Webnis};
use webnis::nss_client::{
    after_try, decode_gidlist, decode_group, decode_passwd, duration_millis, out_of_time,
    parse_reply, request, Step,
};

fn cstr(data: &[u8], at: usize) -> &[u8] {
    let end = data[at..].iter().position(|&b| b == 0).unwrap();
    &data[at..at + end]
}

#[test]
fn t_buffer() {
    let mut buf = Buffer::new(1024).unwrap();
    buf.add_string(b"Hello").unwrap();
    buf.add_string(b"World").unwrap();
    assert_eq!(&buf.data[0..20], b"\0\0\0\0\0\0\0\0Hello\0World\0");
}

#[test]
fn t_passwd() {
    let mut pwdb = Passwd::new(1024).unwrap();
    pwdb.set_name(b"mikevs");
    pwdb.set_passwd(b"x");
    pwdb.set_uid(1000);
    pwdb.set_gid(50);
    pwdb.set_gecos(b"gecos");
    pwdb.set_home(b"/home/mikevs");
    pwdb.set_shell(b"/bin/sh");
    let bbuf = &pwdb.buffer.data;
    assert_eq!(&bbuf[0..15], b"\0\0\0\0\0\0\0\0mikevs\0");
    assert_eq!(&bbuf[15..36], b"x\0gecos\0/home/mikevs\0");
    assert_eq!(&bbuf[36..44], b"/bin/sh\0");
    assert_eq!(cstr(bbuf, pwdb.name), b"mikevs");
    assert_eq!(cstr(bbuf, pwdb.passwd), b"x");
    assert_eq!(pwdb.uid, 1000);
    assert_eq!(pwdb.gid, 50);
    assert_eq!(cstr(bbuf, pwdb.gecos), b"gecos");
    assert_eq!(cstr(bbuf, pwdb.dir), b"/home/mikevs");
    assert_eq!(cstr(bbuf, pwdb.shell), b"/bin/sh");
    assert_eq!(pwdb.result(), Ok(()));
}

#[test]
fn t_group() {
    let mut grpb = Group::new(1024).unwrap();
    assert_eq!(grpb.mem, 0);
    assert_eq!(&grpb.buffer.data[0..8], &[0u8; 8]);
    assert_eq!(cstr(&grpb.buffer.data, grpb.name), b"");
    assert_eq!(cstr(&grpb.buffer.data, grpb.passwd), b"");
    grpb.set_name(b"users");
    grpb.set_passwd(b"x");
    grpb.set_gid(50);
    grpb.set_members(&vec![b"piet".to_vec(), b"jan".to_vec(), b"henk".to_vec()]);
    let bbuf = &grpb.buffer.data;
    assert_eq!(&bbuf[0..16], b"\0\0\0\0\0\0\0\0users\0x\0");
    assert_eq!(cstr(bbuf, grpb.name), b"users");
    assert_eq!(cstr(bbuf, grpb.passwd), b"x");
    assert_eq!(grpb.gid, 50);
    assert_eq!(grpb.mem, 16);
    assert_eq!(grpb.members.len(), 3);
    assert_eq!(grpb.members[0], 16 + 4 * 8);
    assert_eq!(cstr(bbuf, grpb.members[0]), b"piet");
    assert_eq!(cstr(bbuf, grpb.members[1]), b"jan");
    assert_eq!(cstr(bbuf, grpb.members[2]), b"henk");
    assert_eq!(&bbuf[16..48], &[0u8; 32]);
    assert_eq!(grpb.result(), Ok(()));
}

#[test]
fn buffer_must_have_24_bytes() {
    assert_eq!(Buffer::new(23), Err(NssError::InsufficientBuffer));
    assert!(Buffer::new(24).is_ok());
    assert_eq!(Passwd::new(0).err(), Some(NssError::InsufficientBuffer));
    assert_eq!(Group::new(8).err(), Some(NssError::InsufficientBuffer));
}

#[test]
fn failure_sticks_until_reset() {
    let mut buf = Buffer::new(24).unwrap();
    assert_eq!(buf.add_string(b"0123456789abcdef"), Err(NssError::InsufficientBuffer));
    assert_eq!(buf.add_string(b"a"), Err(NssError::InsufficientBuffer));
    assert_eq!(buf.result(), Err(NssError::InsufficientBuffer));
    buf.reset();
    assert_eq!(buf.add_string(b"0123456789abcde"), Ok(8));
    assert_eq!(buf.bufpos, 24);
    assert_eq!(buf.add_string(b""), Err(NssError::InsufficientBuffer));
}

#[test]
fn passwd_record_fits_exactly() {
    let line = b"truus:x:1042:42:Truus:/home/truus:/bin/sh";
    let need = 8 + 6 + 2 + 6 + 12 + 8;
    let mut exact = Passwd::new(need).unwrap();
    assert_eq!(decode_passwd(&mut exact, line), Ok(()));
    assert_eq!(exact.buffer.bufpos, need);
    assert_eq!(cstr(&exact.buffer.data, exact.shell), b"/bin/sh");
    assert_eq!((exact.uid, exact.gid), (1042, 42));
    let mut short = Passwd::new(need - 1).unwrap();
    assert_eq!(decode_passwd(&mut short, line), Err(NssError::InsufficientBuffer));
    assert_eq!((short.name, short.passwd, short.gecos, short.dir, short.shell), (0, 0, 0, 0, 0));
    assert_eq!((short.uid, short.gid, short.buffer.bufpos), (0, 0, 8));
    assert!(short.buffer.data.iter().all(|&b| b == 0));
    assert_eq!(decode_passwd(&mut short, b"a:b:1:2:c:d:e"), Ok(()));
    assert_eq!(nss_error(NssError::InsufficientBuffer), (ERANGE, NSS_STATUS_TRYAGAIN));
}

#[test]
fn group_record_fits_exactly() {
    let line = b"staff:x:50:alice,bob,carol";
    let need = 16 + 4 * 8 + 6 + 4 + 6;
    let mut exact = Group::new(need).unwrap();
    assert_eq!(decode_group(&mut exact, line), Ok(()));
    assert_eq!(exact.members.len(), 3);
    assert_eq!(cstr(&exact.buffer.data, exact.members[2]), b"carol");
    assert_eq!(&exact.buffer.data[exact.mem + 24..exact.mem + 32], &[0u8; 8]);
    let mut short = Group::new(need - 1).unwrap();
    assert_eq!(decode_group(&mut short, line), Err(NssError::InsufficientBuffer));
    assert_eq!((short.name, short.passwd, short.mem, short.gid), (0, 0, 0, 0));
    assert!(short.members.is_empty());
    assert!(short.buffer.data.iter().all(|&b| b == 0));
}

#[test]
fn payloads_that_are_no_records() {
    let mut p = Passwd::new(1024).unwrap();
    for bad in ["OK", "a:b:c:d:e:f", ":x:1:2:g:d:s", "u:x:one:2:g:d:s", "u:x:1:two:g:d:s"] {
        assert_eq!(decode_passwd(&mut p, bad.as_bytes()), Err(NssError::Unavailable), "{}", bad);
    }
    assert_eq!(p.buffer.bufpos, 8);
    let mut g = Group::new(1024).unwrap();
    for bad in ["staff:x:50", ":x:50:a", "staff:x:gid:a", "a:b:1:c:d"] {
        assert_eq!(decode_group(&mut g, bad.as_bytes()), Err(NssError::Unavailable), "{}", bad);
    }
    assert_eq!(decode_gidlist(b"truus"), Err(NssError::Unavailable));
    assert_eq!(decode_gidlist(b"truus:1,x"), Err(NssError::Unavailable));
    assert_eq!(decode_gidlist(b"truus:"), Err(NssError::Unavailable));
    assert_eq!(decode_gidlist(b"truus:1:2"), Err(NssError::Unavailable));
    assert_eq!(decode_gidlist(b"truus:42,50,100"), Ok(vec![42, 50, 100]));
}

#[test]
fn reply_lines() {
    assert_eq!(parse_reply(b"200 truus:x:1042:42:Truus:/home/truus:\n"), Ok(b"truus:x:1042:42:Truus:/home/truus:".to_vec()));
    assert_eq!(parse_reply(b"200\n"), Ok(Vec::new()));
    assert_eq!(parse_reply(b"299 a b"), Ok(b"a b".to_vec()));
    assert_eq!(parse_reply(b"404 No such key in map\n"), Err(NssError::NotFound));
    assert_eq!(parse_reply(b"401 x"), Err(NssError::Unavailable));
    assert_eq!(parse_reply(b"403 Forbidden"), Err(NssError::Unavailable));
    assert_eq!(parse_reply(b"400 x"), Err(NssError::TryAgainLater));
    assert_eq!(parse_reply(b"416 x"), Err(NssError::TryAgainLater));
    assert_eq!(parse_reply(b"500 x"), Err(NssError::Unavailable));
    assert_eq!(parse_reply(b"550 x"), Err(NssError::Unavailable));
    assert_eq!(parse_reply(b"300 x"), Err(NssError::Unavailable));
    assert_eq!(parse_reply(b"199 x"), Err(NssError::Unavailable));
    assert_eq!(parse_reply(b"abc x"), Err(NssError::Unavailable));
    assert_eq!(parse_reply(b""), Err(NssError::Unavailable));
    assert_eq!(parse_reply(b"70000 x"), Err(NssError::Unavailable));
}

#[test]
fn request_lines() {
    assert_eq!(request(b"getpwnam", b"truus"), b"getpwnam truus\n".to_vec());
}

#[test]
fn reply_with_nul_byte_is_unavailable() {
    assert_eq!(
        after_try(Ok(b"tr\0us:x:1:2:g:d:s".to_vec()), Some(0)),
        Step::Return(Err(NssError::Unavailable))
    );
    assert_eq!(after_try(Ok(b"ok".to_vec()), None), Step::Return(Ok(b"ok".to_vec())));
}

#[test]
fn retry_policy() {
    for e in [
        NssError::NotFound,
        NssError::Unavailable,
        NssError::InsufficientBuffer,
        NssError::TryAgainLater,
    ] {
        assert_eq!(after_try(Err(e), Some(0)), Step::Return(Err(e)));
    }
    assert_eq!(after_try(Err(NssError::TimedOut), Some(100)), Step::Retry { sleep_ms: 0 });
    assert_eq!(after_try(Err(NssError::TryAgainNow), Some(0)), Step::Retry { sleep_ms: 500 });
    assert_eq!(after_try(Err(NssError::TryAgainNow), Some(1499)), Step::Retry { sleep_ms: 500 });
    assert_eq!(after_try(Err(NssError::TryAgainNow), Some(1500)), Step::Retry { sleep_ms: 0 });
    assert_eq!(after_try(Err(NssError::TryAgainNow), None), Step::Retry { sleep_ms: 0 });
    assert!(!out_of_time(Some(2000)));
    assert!(out_of_time(Some(2001)));
    assert!(!out_of_time(None));
}

#[test]
fn durations() {
    assert_eq!(duration_millis(1, 500), 1500);
    assert_eq!(duration_millis(0, 999), 999);
    assert_eq!(duration_millis(u64::MAX, 1), u64::MAX);
}

#[test]
fn socket_failures() {
    assert_eq!(NssError::from_io(IoFailure::TimedOut), NssError::TimedOut);
    assert_eq!(NssError::from_io(IoFailure::Interrupted), NssError::TimedOut);
    assert_eq!(NssError::from_io(IoFailure::ConnectionRefused), NssError::TryAgainNow);
    assert_eq!(NssError::from_io(IoFailure::UnexpectedEof), NssError::TryAgainNow);
    assert_eq!(NssError::from_io(IoFailure::Other), NssError::Unavailable);
}

#[test]
fn statuses() {
    assert_eq!(nss_error(NssError::NotFound), (ENOENT, NSS_STATUS_NOTFOUND));
    assert_eq!(nss_error(NssError::Unavailable), (EAGAIN, NSS_STATUS_UNAVAIL));
    assert_eq!(nss_error(NssError::TryAgainLater), (EAGAIN, NSS_STATUS_TRYAGAIN));
    assert_eq!(nss_error(NssError::TryAgainNow), (EAGAIN, NSS_STATUS_TRYAGAIN));
    assert_eq!(nss_error(NssError::TimedOut), (ETIMEDOUT, NSS_STATUS_TRYAGAIN));
    assert_eq!(nss_result(Ok(())), (None, NSS_STATUS_SUCCESS));
    assert_eq!(nss_result(Err(NssError::NotFound)), (Some(2), 0));
    assert_eq!((NSS_STATUS_TRYAGAIN, NSS_STATUS_UNAVAIL), (-2, -1));
}

#[test]
fn hash_map_passwd_lookup() {
    let mut w = Webnis::new();
    let mut p = Passwd::new(1024).unwrap();
    let reply = parse_reply(b"200 truus:x:1042:42:Truus:/home/truus:\n");
    assert_eq!(w.getpwnam(&mut p, b"truus", reply), Ok(()));
    assert_eq!(p.uid, 1042);
    assert_eq!(cstr(&p.buffer.data, p.dir), b"/home/truus");
    assert_eq!(cstr(&p.buffer.data, p.shell), b"");
    let l = w.last_uid.as_ref().unwrap();
    assert_eq!((l.uid, l.username.clone()), (1042, b"truus".to_vec()));
}

#[test]
fn uid_lookup_falls_back_to_name() {
    let mut w = Webnis::new();
    let mut p = Passwd::new(1024).unwrap();
    let line = b"200 truus:x:1042:42:Truus:/home/truus:";
    assert_eq!(w.getpwnam(&mut p, b"truus", parse_reply(line)), Ok(()));
    let mut q = Passwd::new(1024).unwrap();
    let direct = parse_reply(b"404 No such key in map");
    assert_eq!(w.getpwuid(&mut q, 1042, direct), UidLookup::ByName(b"truus".to_vec()));
    q.reset();
    assert_eq!(w.getpwnam(&mut q, b"truus", parse_reply(line)), Ok(()));
    assert_eq!(q.uid, 1042);
    assert_eq!(cstr(&q.buffer.data, q.name), b"truus");
    let other = w.getpwuid(&mut q, 1043, Err(NssError::NotFound));
    assert_eq!(other, UidLookup::Done(Err(NssError::NotFound)));
    let fresh = Webnis::new();
    assert_eq!(
        fresh.getpwuid(&mut q, 1042, Err(NssError::TryAgainLater)),
        UidLookup::Done(Err(NssError::TryAgainLater))
    );
    let mut r = Passwd::new(1024).unwrap();
    assert_eq!(w.getpwuid(&mut r, 1042, parse_reply(line)), UidLookup::Done(Ok(())));
}

#[test]
fn failed_lookup_by_name_is_not_remembered() {
    let mut w = Webnis::new();
    let mut p = Passwd::new(24).unwrap();
    let r = w.getpwnam(&mut p, b"truus", Ok(b"truus:x:1042:42:Truus:/home/truus:".to_vec()));
    assert_eq!(r, Err(NssError::InsufficientBuffer));
    assert_eq!(w.last_uid, None);
    assert_eq!(w.getpwnam(&mut p, b"truus", Err(NssError::NotFound)), Err(NssError::NotFound));
}

#[test]
fn group_member_list() {
    let w = Webnis::new();
    let mut g = Group::new(1024).unwrap();
    assert_eq!(w.getgrnam(&mut g, parse_reply(b"200 staff:x:50:alice,bob,carol")), Ok(()));
    assert_eq!(g.members.len(), 3);
    assert!(g.members.iter().all(|&m| m != 0));
    assert_eq!(cstr(&g.buffer.data, g.members[0]), b"alice");
    assert_eq!(cstr(&g.buffer.data, g.members[1]), b"bob");
    assert_eq!(cstr(&g.buffer.data, g.members[2]), b"carol");
    assert_eq!(g.mem % 8, 0);
    assert_eq!(&g.buffer.data[g.mem..g.mem + 32], &[0u8; 32]);
    assert!(g.members.iter().all(|&m| m >= g.mem + 32 && m < 1024));
    let mut h = Group::new(1024).unwrap();
    assert_eq!(w.getgrgid(&mut h, Ok(b"staff:x:50:".to_vec())), Ok(()));
    assert_eq!(h.gid, 50);
    assert_eq!(w.getgidlist(Ok(b"truus:1,2".to_vec())), Ok(vec![1, 2]));
    assert_eq!(w.getgidlist(Err(NssError::NotFound)), Err(NssError::NotFound));
}

#[test]
fn initgroups_growth() {
    let user: Vec<u32> = (100..114).collect();
    let mut array = vec![0u32; 4];
    let start = initgroups(&mut array, 0, 0, &user, 9999);
    assert_eq!(start, 14);
    assert!(array.len() >= 14);
    assert_eq!(&array[0..14], &user[..]);
}

#[test]
fn initgroups_skips_and_stops_at_limit() {
    let user: Vec<u32> = vec![10, 20, 30, 20, 40];
    let mut array = vec![1, 2, 0, 0];
    let start = initgroups(&mut array, 2, 0, &user, 20);
    assert_eq!(start, 5);
    assert_eq!(array, vec![1, 2, 10, 30, 40]);
    let mut array = vec![1, 2, 0, 0];
    let start = initgroups(&mut array, 2, 4, &user, 20);
    assert_eq!(start, 4);
    assert_eq!(array, vec![1, 2, 10, 30]);
    let mut array = vec![1, 2];
    let start = initgroups(&mut array, 2, 3, &user, 0);
    assert_eq!(start, 3);
    assert_eq!(array, vec![1, 2, 10]);
    let mut array = vec![1, 2, 3];
    assert_eq!(initgroups(&mut array, 3, 3, &user, 0), 3);
    assert_eq!(initgroups(&mut array, 3, 2, &user, 0), 3);
    assert_eq!(array, vec![1, 2, 3]);
    assert_eq!(initgroups(&mut array, 1, 0, &vec![7, 7], 7), 1);
    assert_eq!(array, vec![1, 2, 3]);
    let mut big = vec![0u32; 8];
    assert_eq!(initgroups(&mut big, 1, 0, &vec![5], 7), 2);
    assert_eq!(big, vec![0, 5, 0, 0, 0, 0, 0, 0]);
}
