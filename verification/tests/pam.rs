use webnis::errors::IoFailure;
use webnis::pam::{
    classify, prepare, wnbind_auth, AuthStep, Exchange, PamArgs, PamError, DEBUG, USE_FIRST_PASS,
};

fn args(a: &[&str]) -> Vec<Vec<u8>> {
    a.iter().map(|s| s.as_bytes().to_vec()).collect()
}

#[test]
fn module_arguments() {
    assert_eq!(PamArgs::parse(&args(&[])), 0);
    assert_eq!(PamArgs::parse(&args(&["debug"])), DEBUG);
    assert_eq!(PamArgs::parse(&args(&["use_first_pass", "other"])), USE_FIRST_PASS);
    assert_eq!(PamArgs::parse(&args(&["debug", "use_first_pass", "debug"])), 3);
    assert_eq!(PamArgs::parse(&args(&["Debug"])), 0);
}

#[test]
fn request_line() {
    assert_eq!(
        prepare(Some(&b"alice"[..]), Some(&b"s3 cr:et%"[..]), Some(&b"sshd"[..]), Some(&b"10.0.0.1"[..])),
        Ok(b"auth alice s3%20cr:et%25 sshd 10.0.0.1\n".to_vec())
    );
    assert_eq!(
        prepare(Some(&b"alice"[..]), Some(&b"pw"[..]), Some(&b"login"[..]), None),
        Ok(b"auth alice pw login\n".to_vec())
    );
    assert_eq!(
        prepare(Some(&b"alice"[..]), Some(&b"a\nb\tc"[..]), Some(&b"login"[..]), None),
        Ok(b"auth alice a%0Ab%09c login\n".to_vec())
    );
    assert_eq!(
        prepare(Some(&b"alice"[..]), Some(&b"100%25 a/b"[..]), Some(&b"login"[..]), None),
        Ok(b"auth alice 100%2525%20a%2Fb login\n".to_vec())
    );
}

#[test]
fn what_cannot_be_sent() {
    assert_eq!(prepare(None, Some(&b"pw"[..]), Some(&b"s"[..]), None), Err(PamError::UserUnknown));
    assert_eq!(prepare(Some(&b"al ice"[..]), Some(&b"pw"[..]), Some(&b"s"[..]), None), Err(PamError::AuthErr));
    assert_eq!(prepare(Some(&b"al\tice"[..]), Some(&b"pw"[..]), Some(&b"s"[..]), None), Err(PamError::AuthErr));
    assert_eq!(
        prepare(Some("al\u{a0}ice".as_bytes()), Some(&b"pw"[..]), Some(&b"s"[..]), None),
        Err(PamError::AuthErr)
    );
    assert_eq!(prepare(Some(&[0xffu8][..]), Some(&b"pw"[..]), Some(&b"s"[..]), None), Err(PamError::AuthErr));
    assert_eq!(prepare(Some(&b"alice"[..]), None, Some(&b"s"[..]), None), Err(PamError::AuthErr));
    assert_eq!(prepare(Some(&b"alice"[..]), Some(&b"pw"[..]), None, None), Err(PamError::AuthErr));
    assert_eq!(prepare(Some(&b"alice"[..]), Some(&b"pw"[..]), Some(&b"s s"[..]), None), Err(PamError::AuthErr));
    assert_eq!(
        prepare(Some(&b"alice"[..]), Some(&b"pw"[..]), Some(&b"s"[..]), Some(&b"h h"[..])),
        Err(PamError::AuthErr)
    );
}

#[test]
fn answers() {
    let r = |l: &str| classify(&Exchange::Reply(l.as_bytes().to_vec()));
    assert_eq!(r("200 OK\n"), PamError::Success);
    assert_eq!(r("299 x"), PamError::Success);
    assert_eq!(r("401 Password incorrect\n"), PamError::AuthErr);
    assert_eq!(r("403 Forbidden\n"), PamError::AuthErr);
    assert_eq!(r("404 Not found\n"), PamError::AuthErr);
    assert_eq!(r("400 x\n"), PamError::AuthinfoUnavail);
    assert_eq!(r("500 x\n"), PamError::AuthinfoUnavail);
    assert_eq!(r("garbage\n"), PamError::AuthinfoUnavail);
    assert_eq!(r("404\n"), PamError::AuthinfoUnavail);
    assert_eq!(r(""), PamError::AuthinfoUnavail);
    assert_eq!(classify(&Exchange::Failed(IoFailure::TimedOut)), PamError::AuthinfoUnavail);
    assert_eq!(classify(&Exchange::Failed(IoFailure::ConnectionRefused)), PamError::AuthinfoUnavail);
}

#[test]
fn one_retry() {
    assert_eq!(wnbind_auth(PamError::Success, 0), AuthStep::Return(PamError::Success));
    assert_eq!(wnbind_auth(PamError::AuthErr, 0), AuthStep::Return(PamError::AuthErr));
    assert_eq!(wnbind_auth(PamError::AuthinfoUnavail, 0), AuthStep::Retry { sleep_ms: 2500 });
    assert_eq!(
        wnbind_auth(PamError::AuthinfoUnavail, 1),
        AuthStep::Return(PamError::AuthinfoUnavail)
    );
    assert_eq!(wnbind_auth(PamError::UserUnknown, 1), AuthStep::Return(PamError::AuthinfoUnavail));
    assert_eq!(wnbind_auth(PamError::Success, 1), AuthStep::Return(PamError::Success));
}

#[test]
fn codes_for_the_host() {
    assert_eq!(PamError::Success.code(), 0);
    assert_eq!(PamError::AuthErr.code(), 7);
    assert_eq!(PamError::AuthinfoUnavail.code(), 9);
    assert_eq!(PamError::UserUnknown.code(), 10);
}
