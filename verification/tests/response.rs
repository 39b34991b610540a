use webnis::json::Json;
use webnis::response::{
    error, Auth, Gidlist, Group, Passwd, Response, ResponseError, ResponseVariants,
};

fn t(s: &str) -> Json {
    Json::Text(s.as_bytes().to_vec())
}

fn obj(members: Vec<(&str, Json)>) -> Json {
    Json::Object(members.into_iter().map(|(k, v)| (k.as_bytes().to_vec(), v)).collect())
}

fn passwd_entry() -> Json {
    obj(vec![
        ("username", t("truus")),
        ("passwd", t("x")),
        ("uid", Json::Int(1042)),
        ("gid", Json::Int(42)),
        ("gecos", t("Truus")),
        ("dir", t("/home/truus")),
        ("shell", t("")),
    ])
}

fn line(j: Json) -> String {
    String::from_utf8(Response::transform(&Ok(j))).unwrap()
}

#[test]
fn error_lines() {
    assert_eq!(error(403, b"Forbidden"), b"403 Forbidden".to_vec());
    assert_eq!(error(-1, b""), b"-1 ".to_vec());
}

#[test]
fn record_lines() {
    let p = Passwd {
        username: b"truus".to_vec(),
        passwd: b"x".to_vec(),
        uid: 1042,
        gid: 42,
        gecos: b"Truus".to_vec(),
        dir: b"/home/truus".to_vec(),
        shell: Vec::new(),
    };
    assert_eq!(p.to_line(), b"200 truus:x:1042:42:Truus:/home/truus:".to_vec());
    let g = Group {
        name: b"staff".to_vec(),
        passwd: b"x".to_vec(),
        gid: 50,
        mem: vec![b"alice".to_vec(), b"bob".to_vec(), b"carol".to_vec()],
    };
    assert_eq!(g.to_line(), b"200 staff:x:50:alice,bob,carol".to_vec());
    let none = Group { name: b"g".to_vec(), passwd: Vec::new(), gid: 0, mem: Vec::new() };
    assert_eq!(none.to_line(), b"200 g::0:".to_vec());
    let l = Gidlist { username: b"truus".to_vec(), gidlist: vec![42, 50, 4294967295] };
    assert_eq!(l.to_line(), b"200 truus:42,50,4294967295".to_vec());
    assert_eq!(Auth {}.to_line(), b"200 OK".to_vec());
}

#[test]
fn passwd_reply_is_reshaped() {
    assert_eq!(
        line(obj(vec![("result", passwd_entry())])),
        "200 truus:x:1042:42:Truus:/home/truus:"
    );
}

#[test]
fn group_and_gidlist_replies_are_reshaped() {
    let g = obj(vec![
        ("mem", Json::List(vec![t("alice"), t("bob"), t("carol")])),
        ("gid", Json::Int(50)),
        ("passwd", t("x")),
        ("name", t("staff")),
    ]);
    assert_eq!(line(obj(vec![("result", g)])), "200 staff:x:50:alice,bob,carol");
    let l = obj(vec![
        ("username", t("truus")),
        ("gidlist", Json::List(vec![Json::Int(1), Json::Int(2)])),
    ]);
    assert_eq!(line(obj(vec![("result", l)])), "200 truus:1,2");
    assert_eq!(line(obj(vec![("result", obj(vec![]))])), "200 OK");
}

#[test]
fn error_reply_is_passed_on() {
    let e = obj(vec![("code", Json::Int(404)), ("message", t("No such key in map"))]);
    assert_eq!(line(obj(vec![("error", e)])), "404 No such key in map");
    let e = obj(vec![("code", Json::Int(401)), ("message", t("Password incorrect")), ("data", Json::Null)]);
    assert_eq!(line(obj(vec![("error", e)])), "401 Password incorrect");
}

#[test]
fn reply_of_another_shape_is_rejected() {
    let mismatch = "400 data did not match any variant of untagged enum Response";
    let mut short = passwd_entry();
    if let Json::Object(o) = &mut short {
        o.pop();
    }
    assert_eq!(line(obj(vec![("result", short)])), mismatch);
    let mut long = passwd_entry();
    if let Json::Object(o) = &mut long {
        o.push((b"extra".to_vec(), t("x")));
    }
    assert_eq!(line(obj(vec![("result", long)])), mismatch);
    let mut wrong = passwd_entry();
    if let Json::Object(o) = &mut wrong {
        o[2].1 = t("1042");
    }
    assert_eq!(line(obj(vec![("result", wrong)])), mismatch);
    let mut big = passwd_entry();
    if let Json::Object(o) = &mut big {
        o[2].1 = Json::Int(4294967296);
    }
    assert_eq!(line(obj(vec![("result", big)])), mismatch);
    assert_eq!(line(passwd_entry()), mismatch);
    assert_eq!(line(Json::Null), mismatch);
    assert_eq!(line(obj(vec![("result", passwd_entry()), ("more", Json::Null)])), mismatch);
    assert_eq!(line(obj(vec![("result", Json::List(vec![]))])), mismatch);
    assert_eq!(line(obj(vec![("error", obj(vec![("code", Json::Int(1))]))])), mismatch);
}

#[test]
fn reply_with_nul_byte_is_rejected() {
    let mut e = passwd_entry();
    if let Json::Object(o) = &mut e {
        o[4].1 = Json::Text(b"Tr\0us".to_vec());
    }
    assert_eq!(line(obj(vec![("result", e)])), "500 reply contains a NUL byte");
    let g = obj(vec![
        ("name", t("staff")),
        ("passwd", t("x")),
        ("gid", Json::Int(50)),
        ("mem", Json::List(vec![t("alice"), Json::Text(vec![0])])),
    ]);
    assert_eq!(line(obj(vec![("result", g)])), "500 reply contains a NUL byte");
}

#[test]
fn unreadable_reply_is_answered_with_400() {
    assert_eq!(
        Response::transform(&Err(b"expected value at line 1 column 1".to_vec())),
        b"400 expected value at line 1 column 1".to_vec()
    );
}

#[test]
fn replies_by_shape() {
    let r = Response::from_json(&obj(vec![("result", passwd_entry())])).unwrap();
    match &r {
        Response::Success { result: ResponseVariants::Passwd(p) } => {
            assert_eq!(p.uid, 1042);
            assert_eq!(p.dir, b"/home/truus".to_vec());
        }
        other => panic!("{:?}", other),
    }
    let e = obj(vec![("code", Json::Int(-5)), ("message", t("m")), ("data", t("d"))]);
    assert_eq!(
        Response::from_json(&obj(vec![("error", e)])),
        Some(Response::Error {
            error: ResponseError { code: -5, message: b"m".to_vec(), data: Some(b"d".to_vec()) }
        })
    );
    assert_eq!(Response::from_json(&Json::Bool(true)), None);
}
