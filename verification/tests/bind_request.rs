use webnis::bind::{complete, concurrency, Config, Context, HttpClient};
use webnis::session::{Session, Work};
use webnis::request::{
    after_failure, authorization, begin_attempt, build_uri, delay_before, describe,
    json_content, line_of,
    on_response, process, servers_line,
    tolower, Action, Cmd, Failure, Next, Request, MAX_TRIES,
};

fn config() -> Config {
    Config {
        domain: b"default".to_vec(),
        server: None,
        servers: vec![b"a".to_vec(), b"b".to_vec(), b"c".to_vec()],
        http_authschema: b"Basic".to_vec(),
        http_authtoken: b"user:pw".to_vec(),
        http_authencoding: Some(b"base64".to_vec()),
        http2_only: None,
        concurrency: None,
        restrict_getpwuid: true,
        restrict_getgrgid: true,
    }
}

fn ctx(uid: u32, gid: u32) -> Context {
    Context { config: config(), uid, gid }
}

fn reply(a: Action) -> String {
    match a {
        Action::Reply(l) => String::from_utf8(l).unwrap(),
        other => panic!("not a reply: {:?}", other),
    }
}

#[test]
fn parse_commands() {
    let r = Request::parse(b"getpwnam truus").unwrap();
    assert_eq!(r.cmd, Cmd::GetPwNam);
    assert_eq!(r.args, vec![b"truus".to_vec()]);
    assert_eq!(r.arg0, 0);
    let r = Request::parse(b"GETPWUID 1042").unwrap();
    assert_eq!(r.cmd, Cmd::GetPwUid);
    assert_eq!(r.arg0, 1042);
    let r = Request::parse(b"Auth alice s3%20cret ssh 10.0.0.1 and more").unwrap();
    assert_eq!(r.cmd, Cmd::Auth);
    assert_eq!(r.args.len(), 4);
    assert_eq!(r.args[3], b"10.0.0.1 and more".to_vec());
    let r = Request::parse(b"servers").unwrap();
    assert_eq!(r.cmd, Cmd::Servers);
    assert_eq!(r.args.len(), 0);
}

#[test]
fn parse_errors() {
    assert_eq!(Request::parse(b"bogus x"), Err(b"unknown command bogus".to_vec()));
    assert_eq!(Request::parse(b""), Err(b"unknown command ".to_vec()));
    assert_eq!(Request::parse(b"getpwnam"), Err(b"getpwnam needs 1 arguments".to_vec()));
    assert_eq!(Request::parse(b"getpwnam a b"), Err(b"getpwnam needs 1 arguments".to_vec()));
    assert_eq!(Request::parse(b"auth alice"), Err(b"auth needs 2-4 arguments".to_vec()));
    assert_eq!(Request::parse(b"servers now"), Err(b"servers needs 0 arguments".to_vec()));
    assert_eq!(Request::parse(b"getgrgid staff"), Err(b"Not a number".to_vec()));
    assert_eq!(Request::parse(b"getpwuid 4294967296"), Err(b"Not a number".to_vec()));
    assert_eq!(
        Request::parse(b"AVERYLONGCOMMANDNAME x"),
        Err(b"unknown command AVERYLONGCOMMANDNAME".to_vec())
    );
}

#[test]
fn verbs_of_up_to_sixteen_bytes_are_lowered() {
    assert_eq!(tolower(b"GetGidList"), b"getgidlist".to_vec());
    assert_eq!(tolower(b"ABCDEFGHIJKLMNOP"), b"abcdefghijklmnop".to_vec());
    assert_eq!(tolower(b"ABCDEFGHIJKLMNOPQ"), b"ABCDEFGHIJKLMNOPQ".to_vec());
}

#[test]
fn unreadable_line_is_answered_with_400() {
    assert_eq!(reply(process(&ctx(0, 0), b"nonsense")), "400 unknown command nonsense");
}

#[test]
fn restricted_getpwuid_is_forbidden() {
    assert_eq!(reply(process(&ctx(1000, 1000), b"getpwuid 1042")), "403 Forbidden");
    assert_eq!(reply(process(&ctx(1000, 1000), b"getpwuid 0")), "403 Forbidden");
    assert!(matches!(process(&ctx(1042, 1000), b"getpwuid 1042"), Action::Fetch { .. }));
    assert!(matches!(process(&ctx(0, 0), b"getpwuid 1042"), Action::Fetch { .. }));
    let mut open = ctx(1000, 1000);
    open.config.restrict_getpwuid = false;
    assert!(matches!(process(&open, b"getpwuid 1042"), Action::Fetch { .. }));
}

#[test]
fn restricted_getgrgid_is_forbidden() {
    assert_eq!(reply(process(&ctx(1000, 2000), b"getgrgid 1500")), "403 Forbidden");
    assert!(matches!(process(&ctx(1000, 2000), b"getgrgid 999"), Action::Fetch { .. }));
    assert!(matches!(process(&ctx(1000, 2000), b"getgrgid 2000"), Action::Fetch { .. }));
    assert!(matches!(process(&ctx(0, 2000), b"getgrgid 1500"), Action::Fetch { .. }));
}

#[test]
fn lookup_becomes_a_get() {
    match process(&ctx(1000, 1000), b"getpwnam tr uus") {
        Action::Reply(l) => assert_eq!(l, b"400 getpwnam needs 1 arguments".to_vec()),
        other => panic!("{:?}", other),
    }
    match process(&ctx(1000, 1000), b"getpwnam tru?us") {
        Action::Fetch { path, authorization, body, try_no } => {
            assert_eq!(
                String::from_utf8(path).unwrap(),
                "/default/map/passwd?username=tru?us&cred_uid=1000"
            );
            assert_eq!(String::from_utf8(authorization).unwrap(), "Basic dXNlcjpwdw==");
            assert_eq!(body, None);
            assert_eq!(try_no, 1);
        }
        other => panic!("{:?}", other),
    }
    match process(&ctx(7, 8), b"getgidlist truus") {
        Action::Fetch { path, .. } => assert_eq!(
            String::from_utf8(path).unwrap(),
            "/default/map/gidlist?username=truus&cred_uid=7"
        ),
        other => panic!("{:?}", other),
    }
    match process(&ctx(0, 0), b"getgrnam staff") {
        Action::Fetch { path, .. } => assert_eq!(
            String::from_utf8(path).unwrap(),
            "/default/map/group?group=staff&cred_uid=0"
        ),
        other => panic!("{:?}", other),
    }
}

#[test]
fn login_becomes_a_post() {
    match process(&ctx(0, 0), b"auth al<ice s3%20cr:et ssh 10.0.0.1") {
        Action::Fetch { path, body, try_no, .. } => {
            assert_eq!(path, b"/default/auth".to_vec());
            assert_eq!(
                String::from_utf8(body.unwrap()).unwrap(),
                "username=al%3Cice&password=s3%20cr:et&service=ssh&remote=10.0.0.1"
            );
            assert_eq!(try_no, 1);
        }
        other => panic!("{:?}", other),
    }
    match process(&ctx(0, 0), b"auth alice pw") {
        Action::Fetch { body, .. } => {
            assert_eq!(body.unwrap(), b"username=alice&password=pw".to_vec())
        }
        other => panic!("{:?}", other),
    }
}

#[test]
fn servers_is_answered_locally() {
    assert_eq!(process(&ctx(5, 5), b"SERVERS"), Action::Servers);
}

#[test]
fn authorization_header() {
    let mut c = config();
    assert_eq!(authorization(&c), b"Basic dXNlcjpwdw==".to_vec());
    c.http_authencoding = None;
    assert_eq!(authorization(&c), b"Basic user:pw".to_vec());
    c.http_authencoding = Some(b"rot13".to_vec());
    c.http_authschema = b"Bearer".to_vec();
    assert_eq!(authorization(&c), b"Bearer user:pw".to_vec());
    c.http_authencoding = Some(b"base64".to_vec());
    c.http_authtoken = b"ab".to_vec();
    assert_eq!(authorization(&c), b"Bearer YWI=".to_vec());
    c.http_authtoken = b"a".to_vec();
    assert_eq!(authorization(&c), b"Bearer YQ==".to_vec());
    c.http_authtoken = vec![0xfb, 0xff, 0xfe];
    assert_eq!(authorization(&c), b"Bearer +//+".to_vec());
}

#[test]
fn addresses() {
    assert_eq!(
        build_uri(b"wn.example.org", b"/default/auth"),
        b"https://wn.example.org/.well-known/webnis/default/auth".to_vec()
    );
    assert_eq!(
        build_uri(b"localhost:3245", b"/d/map/passwd?uid=1"),
        b"http://localhost:3245/.well-known/webnis/d/map/passwd?uid=1".to_vec()
    );
    assert_eq!(
        build_uri(b"localhost", b"/x"),
        b"http://localhost/.well-known/webnis/x".to_vec()
    );
    assert_eq!(
        build_uri(b"localhost.example.org", b"/x"),
        b"https://localhost.example.org/.well-known/webnis/x".to_vec()
    );
    assert_eq!(
        build_uri(b"http://10.0.0.1:8080/webnis///", b"/x"),
        b"http://10.0.0.1:8080/webnis/x".to_vec()
    );
    assert_eq!(build_uri(b"https://h/base", b"/x"), b"https://h/base/x".to_vec());
}

#[test]
fn failures_and_their_codes() {
    assert_eq!(describe(&Failure::Client(b"reset".to_vec())), (550, b"GET error: reset".to_vec()));
    assert_eq!(
        describe(&Failure::Status { status: 200, is_json: false }),
        (416, b"expected application/json".to_vec())
    );
    assert_eq!(describe(&Failure::Status { status: 299, is_json: false }).0, 416);
    assert_eq!(
        describe(&Failure::Status { status: 502, is_json: false }),
        (502, b"HTTP error".to_vec())
    );
    assert_eq!(
        describe(&Failure::Status { status: 500, is_json: true }),
        (500, b"HTTP error".to_vec())
    );
    assert_eq!(describe(&Failure::Status { status: 300, is_json: false }).0, 300);
    assert_eq!(describe(&Failure::Body), (400, b"GET body error".to_vec()));
    assert_eq!(describe(&Failure::Timeout), (408, b"request timeout".to_vec()));
}

#[test]
fn attempt_creates_client_and_moves_on() {
    let mut pool = HttpClient::new(7, 3);
    assert_eq!(pool, HttpClient { has_client: false, seqno: 1 });
    assert_eq!(pool.active(3), None);
    assert_eq!(begin_attempt(&mut pool), (2, true));
    assert_eq!(pool.active(3), Some(2));
    assert_eq!(begin_attempt(&mut pool), (2, false));
}

#[test]
fn failover_moves_to_the_next_server() {
    let mut pool = HttpClient { has_client: true, seqno: 0 };
    let (seqno, created) = begin_attempt(&mut pool);
    assert_eq!((seqno, created), (0, false));
    let next =
        after_failure(&mut pool, seqno, &Failure::Status { status: 503, is_json: true }, false, 1);
    assert_eq!(next, Next::Retry { try_no: 2 });
    assert_eq!(pool, HttpClient { has_client: true, seqno: 1 });
    assert_eq!(pool.active(3), Some(1));
}

#[test]
fn stuck_client_is_dropped_and_recreated() {
    let mut pool = HttpClient { has_client: true, seqno: 0 };
    let (seqno, _) = begin_attempt(&mut pool);
    let next = after_failure(&mut pool, seqno, &Failure::Client(b"RST".to_vec()), false, 1);
    assert_eq!(next, Next::Retry { try_no: 2 });
    assert_eq!(pool, HttpClient { has_client: false, seqno: 0 });
    assert_eq!(begin_attempt(&mut pool), (1, true));
    assert_eq!(pool.active(3), Some(1));
}

#[test]
fn another_session_has_cycled_already() {
    let mut pool = HttpClient { has_client: true, seqno: 5 };
    let next = after_failure(&mut pool, 4, &Failure::Timeout, false, 2);
    assert_eq!(next, Next::Retry { try_no: 3 });
    assert_eq!(pool, HttpClient { has_client: true, seqno: 5 });
}

#[test]
fn final_codes_and_closed_sessions_end_the_request() {
    for status in [401u16, 403, 404] {
        let mut pool = HttpClient { has_client: true, seqno: 5 };
        let next =
            after_failure(&mut pool, 5, &Failure::Status { status, is_json: false }, false, 1);
        assert_eq!(next, Next::Done(format!("{} HTTP error", status).into_bytes()));
        assert_eq!(pool, HttpClient { has_client: true, seqno: 5 });
    }
    let mut pool = HttpClient { has_client: true, seqno: 5 };
    let next = after_failure(&mut pool, 5, &Failure::Timeout, true, 1);
    assert_eq!(next, Next::Done(b"408 request timeout".to_vec()));
    assert_eq!(pool.seqno, 5);
}

#[test]
fn attempts_run_out() {
    for line in [&b"getpwnam truus"[..], b"auth truus pw"] {
        let mut try_no = match process(&ctx(0, 0), line) {
            Action::Fetch { try_no, .. } => try_no,
            other => panic!("{:?}", other),
        };
        assert_eq!(try_no, 1);
        let mut pool = HttpClient { has_client: true, seqno: 0 };
        let mut tried = [0u32; 3];
        let mut delayed = 0;
        loop {
            let (seqno, _) = begin_attempt(&mut pool);
            if delay_before(try_no) {
                delayed += 1;
            }
            tried[seqno % 3] += 1;
            let failure = Failure::Status { status: 500, is_json: false };
            match after_failure(&mut pool, seqno, &failure, false, try_no) {
                Next::Retry { try_no: n } => try_no = n,
                Next::Done(line) => {
                    assert_eq!(line, b"500 HTTP error".to_vec());
                    break;
                }
            }
        }
        assert_eq!(try_no, MAX_TRIES);
        assert_eq!(tried, [3, 3, 2]);
        assert!(tried.iter().all(|&n| n >= MAX_TRIES / 3));
        assert_eq!(tried.iter().sum::<u32>(), MAX_TRIES);
        assert_eq!(delayed, MAX_TRIES - 1);
        assert_eq!(pool.seqno, 7);
    }
}

#[test]
fn every_attempt_but_the_first_waits() {
    assert!(!delay_before(1));
    assert!(delay_before(2));
    assert!(delay_before(8));
}

#[test]
fn settings_are_completed() {
    let mut c = config();
    c.servers = Vec::new();
    assert_eq!(complete(c), None);
    let mut c = config();
    c.server = Some(b"z".to_vec());
    c.domain = Vec::new();
    let done = complete(c).unwrap();
    assert_eq!(done.servers.len(), 4);
    assert_eq!(done.servers[3], b"z".to_vec());
    assert_eq!(done.server, None);
    assert_eq!(done.domain, b"default".to_vec());
    let mut c = config();
    c.domain = b"other".to_vec();
    assert_eq!(complete(c).unwrap().domain, b"other".to_vec());
}

#[test]
fn number_of_sessions() {
    let mut c = config();
    assert_eq!(concurrency(&c), 32);
    c.http2_only = Some(true);
    assert_eq!(concurrency(&c), 100);
    c.concurrency = Some(250);
    assert_eq!(concurrency(&c), 250);
    c.concurrency = Some(8);
    assert_eq!(concurrency(&c), 100);
    c.http2_only = Some(false);
    assert_eq!(concurrency(&c), 8);
}

#[test]
fn responses_are_read_or_not() {
    assert!(json_content(Some(&b"application/json"[..])));
    assert!(!json_content(Some(&b"application/json; charset=utf-8"[..])));
    assert!(!json_content(Some(&b"Application/JSON"[..])));
    assert!(!json_content(Some(&b"text/html"[..])));
    assert!(!json_content(None));
    assert_eq!(on_response(200, true), None);
    assert_eq!(on_response(202, true), None);
    for final_code in [401u16, 403, 404] {
        assert_eq!(on_response(final_code, true), None);
        assert_eq!(
            on_response(final_code, false),
            Some(Failure::Status { status: final_code, is_json: false })
        );
    }
    assert_eq!(on_response(200, false), Some(Failure::Status { status: 200, is_json: false }));
    assert_eq!(on_response(500, true), Some(Failure::Status { status: 500, is_json: true }));
    assert_eq!(on_response(400, true), Some(Failure::Status { status: 400, is_json: true }));
    assert_eq!(on_response(302, false), Some(Failure::Status { status: 302, is_json: false }));
}

#[test]
fn line_ends_are_taken_off() {
    assert_eq!(line_of(b"getpwnam truus\n"), b"getpwnam truus".to_vec());
    assert_eq!(line_of(b"getpwnam truus\r\n"), b"getpwnam truus".to_vec());
    assert_eq!(line_of(b"getpwnam truus"), b"getpwnam truus".to_vec());
    assert_eq!(line_of(b"getpwnam truus\r"), b"getpwnam truus".to_vec());
    assert_eq!(line_of(b"x\n\n"), b"x\n".to_vec());
    assert_eq!(line_of(b"x\r\r\n"), b"x\r".to_vec());
    assert_eq!(line_of(b"x\n\r"), b"x\n".to_vec());
    assert_eq!(line_of(b"\n"), Vec::<u8>::new());
    assert_eq!(line_of(b""), Vec::<u8>::new());
    assert_eq!(servers_line(b"{\"seqno\":1}"), b"200 {\"seqno\":1}".to_vec());
}

#[test]
fn replies_keep_the_order_of_the_lines() {
    let mut s = Session::new(ctx(0, 0));
    assert!(!s.busy);
    let first = s.on_line(b"getpwnam truus\n").unwrap();
    assert_eq!(first.number, 0);
    match &first.action {
        Action::Fetch { path, try_no, .. } => {
            assert_eq!(path, b"/default/map/passwd?username=truus&cred_uid=0");
            assert_eq!(*try_no, 1);
        }
        other => panic!("{:?}", other),
    }
    assert_eq!(s.on_line(b"bogus\r\n"), None);
    assert_eq!(s.on_line(b"servers\n"), None);
    assert_eq!(s.waiting, vec![b"bogus".to_vec(), b"servers".to_vec()]);
    assert!(s.busy);
    assert_eq!(s.answered, 0);

    let (out, next) = s.on_done(b"200 truus:x:1042:42:Truus:/home/truus:");
    assert_eq!(out, b"200 truus:x:1042:42:Truus:/home/truus:\n".to_vec());
    assert_eq!(
        next,
        Some(Work { number: 1, action: Action::Reply(b"400 unknown command bogus".to_vec()) })
    );
    assert_eq!(s.answered, 1);
    let (out, next) = s.on_done(b"400 unknown command bogus");
    assert_eq!(out, b"400 unknown command bogus\n".to_vec());
    assert_eq!(next, Some(Work { number: 2, action: Action::Servers }));
    assert_eq!(s.on_line(b"getgrgid 5\n"), None);
    let (_, next) = s.on_done(b"200 {}");
    assert_eq!(next.map(|w| w.number), Some(3));
    let (out, next) = s.on_done(b"404 Not found");
    assert_eq!(out, b"404 Not found\n".to_vec());
    assert_eq!(next, None);
    assert!(!s.busy);
    assert_eq!(s.answered, 4);
    assert_eq!(s.on_line(b"servers").map(|w| w.number), Some(4));
}
