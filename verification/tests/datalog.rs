use webnis::datalog::{
    attr_item, attr_string, attr_xs401, error_iter, sanitize, Datalog, Error, ERROR_COUNT,
};
use webnis::errors::WnError;
use webnis::json::Json;
use webnis::lua::{Request, ScriptValue};

fn s(x: &str) -> Vec<u8> {
    x.as_bytes().to_vec()
}

#[test]
fn reasons_are_numbered() {
    assert_eq!(Error::count(), 29);
    assert_eq!(Error::from_usize(0), Error::RQ_USERNAME);
    assert_eq!(Error::from_usize(7), Error::BAD_PASSWD);
    assert_eq!(Error::from_usize(27), Error::DES_PASSWD);
    assert_eq!(Error::from_usize(28), Error::GENERIC);
    assert_eq!(Error::from_usize(29), Error::GENERIC);
    assert_eq!(Error::from_usize(usize::MAX), Error::GENERIC);
    for n in 0..ERROR_COUNT {
        assert_eq!(Error::from_usize(n).index(), n);
    }
}

#[test]
fn reasons_have_texts() {
    assert_eq!(Error::BAD_PASSWD.as_reply(), b"Login incorrect");
    assert_eq!(Error::BAD_PASSWD.as_log_message(), b"password incorrect");
    assert_eq!(Error::DES_PASSWD.as_reply(), b"Login incorrect");
    assert_eq!(Error::DES_PASSWD.as_log_message(), b"password invalid (DES)");
    assert_eq!(Error::RQ_CHAP.as_reply(), b"CHAP authentication not supported");
    assert_eq!(Error::NO_OTPHOST_SECRET.as_reply(), b"OTP server unavailable");
    assert_eq!(Error::NO_OTPHOST_SECRET.as_log_message(), b"OTP host not in radiushosts");
    assert_eq!(Error::GENERIC.as_reply(), b"Login incorrect");
    assert_eq!(Error::GENERIC.as_log_message(), b"login incorrect");
    assert_eq!(Error::WRONG_APN.as_log_message(), b"Login from invalid APN");
}

#[test]
fn reasons_are_listed() {
    let all = error_iter();
    assert_eq!(all.len(), 29);
    assert_eq!(all[0], (Error::RQ_USERNAME, 0, s("RQ_USERNAME")));
    assert_eq!(all[22], (Error::NO_VLAN, 22, s("NO_VLAN")));
    assert_eq!(all[28], (Error::GENERIC, 28, s("GENERIC")));
    for (e, n, name) in all {
        assert_eq!(e.index(), n);
        assert_eq!(format!("{:?}", e).into_bytes(), name);
    }
}

#[test]
fn texts_are_made_fit() {
    assert_eq!(sanitize(b"truus"), s("truus"));
    assert_eq!(sanitize(b"a b~"), s("a b~"));
    assert_eq!(sanitize(b"a\"b,c"), s("a\\042b\\054c"));
    assert_eq!(sanitize(b"'`()[]\\"), s("\\047\\140\\050\\051\\133\\135\\134"));
    assert_eq!(sanitize(b"\t\n\x7f\0"), s("\\011\\012\\177\\000"));
    assert_eq!(sanitize("caf\u{e9}\u{ff}".as_bytes()), s("caf\\351\\377"));
    assert_eq!(sanitize("\u{100}\u{20ac}\u{1f600}".as_bytes()), s("\\u{100}\\u{20ac}\\u{1f600}"));
    assert_eq!(sanitize(&[b'a', 0xff, 0xc3]), s("a\\377\\303"));
    assert_eq!(sanitize(b""), s(""));
}

#[test]
fn attributes() {
    assert_eq!(attr_item(4, b"194.109.6.66"), s("4:194.109.6.66"));
    assert_eq!(attr_item(15, b"8"), s("15:8"));
    assert_eq!(attr_string(1, b"tru\"us"), s("1:\"tru\\042us\""));
    assert_eq!(attr_xs401(25, b"a:b;c\"d,e"), s("25:\"XS4/401:a.b.c.d.e\""));
}

fn login() -> Datalog {
    Datalog {
        time: Some(1558735200),
        src_ip: s("194.109.6.66"),
        username: s("truus"),
        account: None,
        clientip: None,
        callingsystem: None,
        status: Ok(()),
        message: None,
    }
}

#[test]
fn accepted_login_is_logged() {
    let (request, reply) = login().to_lines();
    assert_eq!(
        String::from_utf8(request).unwrap(),
        "1558735200,194.109.6.66,1,1:\"truus\",2:\"\",4:194.109.6.66"
    );
    assert_eq!(String::from_utf8(reply).unwrap(), "1558735200,194.109.6.66,2,");
}

#[test]
fn rejected_login_is_logged() {
    let mut d = login();
    d.time = None;
    d.account = Some(s("t.ruus"));
    d.clientip = Some(s("10.0.0.1"));
    d.callingsystem = Some(s("vpn"));
    d.status = Err(Error::BAD_PASSWD);
    let (request, reply) = d.to_lines();
    assert_eq!(
        String::from_utf8(request).unwrap(),
        "1558735200,194.109.6.66,1,1:\"truus\",2:\"\",4:194.109.6.66,32:\"vpn\",31:\"10.0.0.1\""
    );
    assert_eq!(
        String::from_utf8(reply).unwrap(),
        "1558735200,194.109.6.66,3,1:\"t.ruus\",25:\"XS4/401:t.ruus\",24:\"password incorrect\",18:\"Login incorrect\""
    );
    d.account = Some(s("truus"));
    d.message = Some(s("locked"));
    let (_, reply) = d.to_lines();
    assert_eq!(
        String::from_utf8(reply).unwrap(),
        "1558735200,194.109.6.66,3,,24:\"locked\",18:\"Login incorrect\""
    );
}

#[test]
fn empty_entries() {
    assert!(Datalog::default().is_empty());
    assert!(!login().is_empty());
    let mut d = Datalog::default();
    d.src_ip = s("::");
    assert!(d.is_empty());
    d.username = s("x");
    assert!(!d.is_empty());
    let mut d = Datalog::default();
    d.time = None;
    assert!(!d.is_empty());
}

#[test]
fn script_outcomes_are_logged() {
    let mut d = login();
    d.set_status(7);
    assert_eq!(d.status, Err(Error::BAD_PASSWD));
    d.set_status(-1);
    assert_eq!(d.status, Err(Error::GENERIC));
    d.set_status(1000);
    assert_eq!(d.status, Err(Error::GENERIC));
    let mut d = login();
    d.finish(&Ok((Json::Text(b"ok".to_vec()), 200)));
    assert_eq!(d.status, Ok(()));
    d.finish(&Ok((Json::Null, 0)));
    assert_eq!(d.status, Err(Error::GENERIC));
    let mut d = login();
    d.finish(&Ok((Json::Bool(true), 403)));
    assert_eq!(d.status, Err(Error::GENERIC));
    let mut d = login();
    d.set_status(27);
    d.finish(&Ok((Json::Null, 0)));
    assert_eq!(d.status, Err(Error::DES_PASSWD));
    assert_eq!(d.message, None);
    d.finish(&Err(WnError::LuaFunctionNotFound));
    assert_eq!(d.status, Err(Error::GENERIC));
    assert_eq!(d.message, Some(s("LuaFunctionNotFound")));
}

#[test]
fn entry_for_a_login() {
    let req = Request {
        domain: s("default"),
        username: Some(s("truus")),
        password: Some(s("pw")),
        map: None,
        key: None,
        keyname: None,
        keyvalue: None,
        extra: vec![
            (s("callingsystem"), Json::Text(s("imap"))),
            (s("clientip"), Json::Text(s("10.1.2.3"))),
        ],
        src_ip: Some(s("194.109.6.66")),
    };
    assert_eq!(
        Datalog::for_login(Some(1558735200), &req, Some(s("10.1.2.3"))),
        Datalog {
            time: Some(1558735200),
            src_ip: s("194.109.6.66"),
            username: s("truus"),
            account: None,
            clientip: Some(s("10.1.2.3")),
            callingsystem: Some(s("imap")),
            status: Ok(()),
            message: None,
        }
    );
    let bare = Request::for_map(s("default"), s("k"), s("v"));
    let d = Datalog::for_login(None, &bare, None);
    assert_eq!(d.src_ip, s("0.0.0.0"));
    assert_eq!(d.username, s(""));
    assert_eq!(d.callingsystem, None);
    assert_eq!(d.time, None);
    let mut odd = Request::for_map(s("default"), s("k"), s("v"));
    odd.extra = vec![(s("callingsystem"), Json::Int(5))];
    assert_eq!(Datalog::for_login(None, &odd, None).callingsystem, None);
}

#[test]
fn scripts_write_to_the_log() {
    let mut d = login();
    assert_eq!(d.assign(b"account", &ScriptValue::Text(s("truus1"))), Ok(()));
    assert_eq!(d.account, Some(s("truus1")));
    assert_eq!(d.status, Ok(()));
    assert_eq!(
        d.assign(b"account", &ScriptValue::Integer(1)),
        Err(s("log.account = val: must be a string"))
    );
    assert_eq!(d.account, Some(s("truus1")));
    assert_eq!(d.assign(b"status", &ScriptValue::Integer(7)), Ok(()));
    assert_eq!(d.status, Err(Error::BAD_PASSWD));
    assert_eq!(d.assign(b"status", &ScriptValue::Integer(-3)), Ok(()));
    assert_eq!(d.status, Err(Error::GENERIC));
    assert_eq!(
        d.assign(b"status", &ScriptValue::Text(s("7"))),
        Err(s("log.status = val: must be a datalog.enum"))
    );
    assert_eq!(d.assign(b"status", &ScriptValue::Other).is_err(), true);
    assert_eq!(d.status, Err(Error::GENERIC));
    assert_eq!(d.assign(b"message", &ScriptValue::Text(s("x"))), Err(s("log.message: unknown key")));
    assert_eq!(d.message, None);
    assert_eq!(d.username, s("truus"));
}
