use webnis::errors::WnError;
use webnis::format::{
    line_to_json, parse_placeholder, Adjunct, Fields, Format, Group, KeyValue, LineValue,
    NumOrText, Passwd,
};
use webnis::json::Json;
use webnis::response::Response;

fn t(s: &str) -> Json {
    Json::Text(s.as_bytes().to_vec())
}

fn obj(members: Vec<(&str, Json)>) -> Json {
    Json::Object(members.into_iter().map(|(k, v)| (k.as_bytes().to_vec(), v)).collect())
}

fn pairs(p: &[(&str, &str)]) -> Option<Vec<(Vec<u8>, Vec<u8>)>> {
    Some(p.iter().map(|(k, v)| (k.as_bytes().to_vec(), v.as_bytes().to_vec())).collect())
}

fn entry(line: &str, format: Format, output: &Option<Vec<(Vec<u8>, Vec<u8>)>>) -> Json {
    match line_to_json(line.as_bytes(), &format, output) {
        Ok(LineValue::Entry(j)) => j,
        other => panic!("{:?}", other),
    }
}

#[test]
fn format_names() {
    assert_eq!(Format::from_str(b"passwd"), Ok(Format::Passwd));
    assert_eq!(Format::from_str(b"group"), Ok(Format::Group));
    assert_eq!(Format::from_str(b"adjunct"), Ok(Format::Adjunct));
    assert_eq!(Format::from_str(b"key-value"), Ok(Format::KeyValue));
    assert_eq!(Format::from_str(b"colon-separated"), Ok(Format::ColSep));
    assert_eq!(Format::from_str(b"whitespace-separated"), Ok(Format::WsSep));
    assert_eq!(Format::from_str(b"tab-separated"), Ok(Format::TabSep));
    assert_eq!(Format::from_str(b"line"), Ok(Format::Line));
    assert_eq!(Format::from_str(b"json"), Ok(Format::Json));
    assert_eq!(Format::from_str(b"Passwd"), Err(WnError::UnknownFormat));
    assert_eq!(Format::from_str(b""), Err(WnError::UnknownFormat));
}

#[test]
fn passwd_line() {
    let p = Passwd::from_line(b"truus:x:1042:42:Truus:/home/truus:").unwrap();
    assert_eq!(p.username, b"truus".to_vec());
    assert_eq!((p.uid, p.gid), (1042, 42));
    assert_eq!(p.shell, Vec::<u8>::new());
    assert_eq!(
        p.to_json(),
        obj(vec![
            ("username", t("truus")),
            ("passwd", t("x")),
            ("uid", Json::Int(1042)),
            ("gid", Json::Int(42)),
            ("gecos", t("Truus")),
            ("dir", t("/home/truus")),
            ("shell", t("")),
        ])
    );
}

#[test]
fn passwd_line_is_rejected() {
    for bad in [
        "truus:x:1042:42:Truus:/home/truus",
        "truus:x:1042:42:Truus:/home/truus:/bin/sh:more",
        "truus:x:abc:42:Truus:/home/truus:/bin/sh",
        "truus:x:1042:-1:Truus:/home/truus:/bin/sh",
        "truus:x:1042:4294967296:Truus:/home/truus:/bin/sh",
        "truus:x:1042:42:Tru\0us:/home/truus:/bin/sh",
        "truus:x:1042:42:Truus:/home/truus:/bin/sh\n",
        "",
    ] {
        assert_eq!(Passwd::from_line(bad.as_bytes()), Err(WnError::DeserializeData), "{:?}", bad);
    }
}

#[test]
fn group_line() {
    let g = Group::from_line(b"staff:x:50:alice,bob,carol").unwrap();
    assert_eq!(g.gid, 50);
    assert_eq!(g.mem, vec![b"alice".to_vec(), b"bob".to_vec(), b"carol".to_vec()]);
    let e = Group::from_line(b"empty:x:51:").unwrap();
    assert_eq!(e.mem, vec![Vec::<u8>::new()]);
    assert_eq!(Group::from_line(b"staff:x:50"), Err(WnError::DeserializeData));
    assert_eq!(Group::from_line(b"staff:x:fifty:a"), Err(WnError::DeserializeData));
    assert_eq!(
        g.to_json(),
        obj(vec![
            ("name", t("staff")),
            ("passwd", t("x")),
            ("gid", Json::Int(50)),
            ("mem", Json::List(vec![t("alice"), t("bob"), t("carol")])),
        ])
    );
}

#[test]
fn adjunct_line() {
    let a = Adjunct::from_line(b"truus:$6$salt$hash:rest:of:it").unwrap();
    assert_eq!(a, Adjunct { name: b"truus".to_vec(), passwd: b"$6$salt$hash".to_vec() });
    assert_eq!(Adjunct::from_line(b"truus"), Err(WnError::DeserializeData));
    assert_eq!(a.to_json(), obj(vec![("name", t("truus")), ("passwd", t("$6$salt$hash"))]));
}

#[test]
fn numbers_and_text() {
    assert_eq!(NumOrText::parse(b"42"), NumOrText::Number(42));
    assert_eq!(NumOrText::parse(b"-42"), NumOrText::Number(-42));
    assert_eq!(NumOrText::parse(b"4 2"), NumOrText::Text(b"4 2".to_vec()));
    assert_eq!(NumOrText::parse(b""), NumOrText::Text(Vec::new()));
    assert_eq!(NumOrText::parse(b"9223372036854775808"), NumOrText::Text(b"9223372036854775808".to_vec()));
}

#[test]
fn placeholders() {
    assert_eq!(parse_placeholder(b"{uid}", false), Some(b"uid".to_vec()));
    assert_eq!(parse_placeholder(b"{home-dir_2:s}", false), Some(b"home-dir_2".to_vec()));
    assert_eq!(parse_placeholder(b"{3}", true), Some(b"3".to_vec()));
    assert_eq!(parse_placeholder(b"{3:x}", true), Some(b"3".to_vec()));
    assert_eq!(parse_placeholder(b"{uid}", true), None);
    assert_eq!(parse_placeholder(b"{}", false), None);
    assert_eq!(parse_placeholder(b"{:s}", false), None);
    assert_eq!(parse_placeholder(b"{a:S}", false), None);
    assert_eq!(parse_placeholder(b"{a:bc}", false), None);
    assert_eq!(parse_placeholder(b"x{a}", false), None);
    assert_eq!(parse_placeholder(b"{a}x", false), None);
    assert_eq!(parse_placeholder(b"{a b}", false), None);
    assert_eq!(parse_placeholder(b"", false), None);
}

#[test]
fn key_value_line() {
    let kv = KeyValue::from_line(b"  uid=1042 name=truus flag  uid=7 x=a=b", &None).unwrap();
    assert_eq!(
        kv.0,
        vec![
            (b"uid".to_vec(), NumOrText::Number(7)),
            (b"name".to_vec(), NumOrText::Text(b"truus".to_vec())),
            (b"flag".to_vec(), NumOrText::Text(Vec::new())),
            (b"x".to_vec(), NumOrText::Text(b"a=b".to_vec())),
        ]
    );
}

#[test]
fn key_value_line_with_output() {
    let output = pairs(&[
        ("user", "{name}"),
        ("id", "{uid:n}"),
        ("again", "{uid}"),
        ("missing", "{nothing}"),
        ("kind", "person"),
        ("odd", "{name} x"),
    ]);
    let kv = KeyValue::from_line(b"uid=1042 name=truus", &output).unwrap();
    assert_eq!(
        kv.0,
        vec![
            (b"user".to_vec(), NumOrText::Text(b"truus".to_vec())),
            (b"id".to_vec(), NumOrText::Number(1042)),
            (b"kind".to_vec(), NumOrText::Text(b"person".to_vec())),
            (b"odd".to_vec(), NumOrText::Text(b"{name} x".to_vec())),
        ]
    );
}

#[test]
fn separated_fields() {
    let f = Fields::from_line(b"a:7::b", &None, b":").unwrap();
    assert_eq!(
        f,
        vec![
            (NumOrText::Number(1), NumOrText::Text(b"a".to_vec())),
            (NumOrText::Number(2), NumOrText::Number(7)),
            (NumOrText::Number(3), NumOrText::Text(Vec::new())),
            (NumOrText::Number(4), NumOrText::Text(b"b".to_vec())),
        ]
    );
    let w = Fields::from_line(b"  a \t 7 ", &None, b"").unwrap();
    assert_eq!(w.len(), 2);
    assert_eq!(w[1], (NumOrText::Number(2), NumOrText::Number(7)));
}

#[test]
fn separated_fields_with_output() {
    let output = pairs(&[
        ("first", "{1}"),
        ("third", "{3:x}"),
        ("beyond", "{4}"),
        ("zero", "{0}"),
        ("huge", "{99999999999999999999999}"),
        ("fixed", "12"),
        ("named", "{name}"),
    ]);
    let f = Fields::from_line(b"a\tb\t33", &output, b"\t").unwrap();
    assert_eq!(
        f,
        vec![
            (NumOrText::Text(b"first".to_vec()), NumOrText::Text(b"a".to_vec())),
            (NumOrText::Text(b"third".to_vec()), NumOrText::Number(33)),
            (NumOrText::Text(b"fixed".to_vec()), NumOrText::Number(12)),
            (NumOrText::Text(b"named".to_vec()), NumOrText::Text(b"{name}".to_vec())),
        ]
    );
}

#[test]
fn lines_become_entries() {
    assert_eq!(
        entry("a:b", Format::ColSep, &None),
        obj(vec![("1", t("a")), ("2", t("b"))])
    );
    assert_eq!(entry("a b", Format::WsSep, &None), obj(vec![("1", t("a")), ("2", t("b"))]));
    assert_eq!(entry("a b", Format::Line, &None), obj(vec![("1", t("a b"))]));
    assert_eq!(entry("a\t5", Format::TabSep, &None), obj(vec![("1", t("a")), ("2", Json::Int(5))]));
    assert_eq!(
        entry("k=v n=-3", Format::KeyValue, &None),
        obj(vec![("k", t("v")), ("n", Json::Int(-3))])
    );
    assert_eq!(
        entry("truus:hash", Format::Adjunct, &None),
        obj(vec![("name", t("truus")), ("passwd", t("hash"))])
    );
    assert_eq!(
        line_to_json(b"{\"a\":1}", &Format::Json, &None),
        Ok(LineValue::JsonText(b"{\"a\":1}".to_vec()))
    );
    assert_eq!(
        line_to_json(b"a:b", &Format::Passwd, &None),
        Err(WnError::DeserializeData)
    );
    assert_eq!(line_to_json(b"a:b", &Format::Group, &None), Err(WnError::DeserializeData));
    assert_eq!(line_to_json(b"a", &Format::Adjunct, &None), Err(WnError::DeserializeData));
}

#[test]
fn line_to_entry_to_line_settles() {
    let first = "truus:x:+01042:042:Truus:/home/truus:/bin/sh";
    let e = entry(first, Format::Passwd, &None);
    let l1 = Response::transform(&Ok(obj(vec![("result", e)])));
    assert_eq!(l1, b"200 truus:x:1042:42:Truus:/home/truus:/bin/sh".to_vec());
    let e = entry(std::str::from_utf8(&l1[4..]).unwrap(), Format::Passwd, &None);
    let l2 = Response::transform(&Ok(obj(vec![("result", e)])));
    assert_eq!(l2, l1);
    let e = entry("staff:x:050:alice,,carol", Format::Group, &None);
    let g1 = Response::transform(&Ok(obj(vec![("result", e)])));
    assert_eq!(g1, b"200 staff:x:50:alice,,carol".to_vec());
    let e = entry(std::str::from_utf8(&g1[4..]).unwrap(), Format::Group, &None);
    assert_eq!(Response::transform(&Ok(obj(vec![("result", e)]))), g1);
}
