use webnis::config::{
    assemble, check_map, map_inherit, masklen, merge_maps, Auth, Config, ConfigErrorKind, Domain,
    LuaConfig, MapDef, MapOrMaps, Server,
};
use webnis::db::{check_due, gdbm_check, is_stale, json_lookup, GdbmDb, MapType, Timer};
use webnis::errors::WnError;
use webnis::format::Format;
use webnis::iplist::{is_loopback, parse_ip, peer_admitted, read_securenets, Addr, IpList, Net};
use webnis::json::Json;
use webnis::lua::{
    lookup_lua_map, script_lookup_result, script_status, Field, Request, ScriptValue,
};
use webnis::routematcher::Request as HttpRequest;
use webnis::util::{
    can_verify, check_http_auth, check_token, check_unix_password, decode_post_body,
    http_unauthorized, stringnl, AuthInfo, AuthResult,
};
use webnis::webnis::{
    api_routes, auth_map, auth_reply, endpoint, json_error, json_result, login_body_kind,
    map_reply, script_auth_reply, AuthStep, Backend, Endpoint, Reject, Reply, Step, Webnis,
};

fn b(s: &str) -> Vec<u8> {
    s.as_bytes().to_vec()
}

fn t(s: &str) -> Json {
    Json::Text(b(s))
}

fn obj(members: Vec<(&str, Json)>) -> Json {
    Json::Object(members.into_iter().map(|(k, v)| (b(k), v)).collect())
}

fn map(map_type: MapType) -> MapDef {
    MapDef {
        name: Vec::new(),
        key: None,
        keys: Vec::new(),
        key_alias: Vec::new(),
        lua_function: None,
        map_type,
        map_format: None,
        map_file: None,
        map_output: None,
        submaps: Vec::new(),
    }
}

fn gdbm(key: &str, file: &str, format: Format) -> MapDef {
    let mut m = map(MapType::Gdbm);
    m.key = Some(b(key));
    m.map_file = Some(b(file));
    m.map_format = Some(format);
    m
}

fn domain() -> Domain {
    Domain {
        name: b("default"),
        db_dir: b("/var/lib/webnis"),
        maps: vec![b("passwd"), b("group"), b("scripted"), b("people")],
        auth: Some(b("adjunct")),
        http_authschema: Some(b("Basic")),
        http_authtoken: Some(b("user:pw")),
        http_authencoding: Some(b("base64")),
    }
}

fn config() -> Config {
    let mut scripted = map(MapType::Lua);
    scripted.lua_function = Some(b("lookup"));
    let mut people = map(MapType::Json);
    people.keys = vec![b("name"), b("id")];
    people.key_alias = vec![(b("username"), b("name"))];
    people.map_file = Some(b("people.json"));
    let mut adjunct = gdbm("username", "passwd.adjunct.byname", Format::Adjunct);
    adjunct.keys = vec![b("name")];
    Config {
        server: Server {
            tls: false,
            crt_file: None,
            key_file: None,
            cert_password: Vec::new(),
            securenets: Vec::new(),
            http2_only: false,
            concurrency: None,
            datalog: None,
        },
        domain: vec![domain()],
        map: vec![
            (
                b("passwd"),
                MapOrMaps::Maps(vec![
                    (b("username"), {
                        let mut m = gdbm("username", "passwd.byname", Format::Passwd);
                        m.key = None;
                        m
                    }),
                    (b("uid"), gdbm("uid", "passwd.byuid", Format::Passwd)),
                ]),
            ),
            (b("group"), MapOrMaps::Single(gdbm("group", "group.byname", Format::Group))),
            (b("scripted"), MapOrMaps::Single(scripted)),
            (b("people"), MapOrMaps::Single(people)),
            (b("adjunct"), MapOrMaps::Single(adjunct)),
        ],
        map_: Vec::new(),
        auth: vec![(b("adjunct"), Auth { map: Some(b("adjunct")), key: Some(b("username")), lua_function: None })],
        lua: Some(LuaConfig { script: b("/etc/webnis.lua") }),
        include_maps: None,
    }
}

fn server() -> Webnis {
    Webnis::new(assemble(config()).unwrap(), None)
}

fn problem(c: Config) -> (ConfigErrorKind, String) {
    let e = assemble(c).unwrap_err();
    (e.kind, String::from_utf8(e.message()).unwrap())
}

#[test]
fn configuration_is_assembled() {
    let c = assemble(config()).unwrap();
    assert_eq!(c.map_.len(), 5);
    assert_eq!(c.map_[0].0, b("passwd"));
    assert_eq!(c.map_[0].1.len(), 2);
    assert_eq!(c.map_[0].1[0].name, b("passwd"));
    assert_eq!(c.map_[0].1[0].key, Some(b("username")));
    assert_eq!(c.map_[0].1[1].map_file, Some(b("passwd.byuid")));
    assert_eq!(c.map_[1].1.len(), 1);
    assert_eq!(c.map_[1].1[0].name, b("group"));
    assert_eq!(c.domain, config().domain);
}

#[test]
fn nested_definitions_inherit() {
    let mut base = map(MapType::Gdbm);
    base.map_format = Some(Format::KeyValue);
    base.map_file = Some(b("base.db"));
    base.map_output = Some(vec![(b("k"), b("{v}"))]);
    let mut sub = map(MapType::Unset);
    sub.keys = vec![b("alt")];
    sub.map_file = Some(b("sub.db"));
    let m = map_inherit(b"byname", &sub, &base);
    assert_eq!(m.key, Some(b("byname")));
    assert_eq!(m.keys, vec![b("alt")]);
    assert_eq!(m.map_type, MapType::Gdbm);
    assert_eq!(m.map_format, Some(Format::KeyValue));
    assert_eq!(m.map_file, Some(b("sub.db")));
    assert_eq!(m.map_output, Some(vec![(b("k"), b("{v}"))]));
    assert_eq!(m.name, Vec::<u8>::new());
    base.submaps = vec![(b("byname"), sub), (b("byid"), map(MapType::Json))];
    base.map_format = None;
    base.map_output = None;
    let mut c = config();
    c.map = vec![(b("nested"), MapOrMaps::Single(base))];
    let done = assemble(c).unwrap();
    assert_eq!(done.map_[0].1.len(), 2);
    assert_eq!(done.map_[0].1[0].key, Some(b("byname")));
    assert_eq!(done.map_[0].1[1].map_type, MapType::Json);
    assert_eq!(done.map_[0].1[1].map_file, Some(b("base.db")));
    assert_eq!(done.map_[0].1[1].name, b("nested"));
}

#[test]
fn configuration_is_refused() {
    let with = |name: &str, m: MapDef| {
        let mut c = config();
        c.map = vec![(b(name), MapOrMaps::Single(m))];
        problem(c)
    };
    assert_eq!(
        with("m", map(MapType::Unset)),
        (ConfigErrorKind::MapTypeNotSet, "map m: map_type not set".to_string())
    );
    let mut m = map(MapType::Json);
    m.map_format = Some(Format::Json);
    assert_eq!(
        with("m", m),
        (ConfigErrorKind::FormatNeedsGdbm, "map m: cannot use format with map type Json".to_string())
    );
    assert_eq!(
        with("m", map(MapType::Lua)),
        (ConfigErrorKind::LuaFunctionNotSet, "map m: lua_function not set".to_string())
    );
    let mut m = gdbm("k", "f", Format::Line);
    m.lua_function = Some(b("f"));
    assert_eq!(
        with("m", m),
        (
            ConfigErrorKind::LuaFunctionSet,
            "map m: lua_function set, map_type must be \"lua\"".to_string()
        )
    );
    let mut m = gdbm("k", "f", Format::Line);
    m.key = None;
    assert_eq!(with("m", m), (ConfigErrorKind::NoKey, "map m: no key".to_string()));
    let mut m = gdbm("k", "f", Format::Line);
    m.map_file = None;
    assert_eq!(with("m", m), (ConfigErrorKind::MapFileNotSet, "map m: map file not set".to_string()));
    let mut m = gdbm("k", "f", Format::Passwd);
    m.map_output = Some(Vec::new());
    assert_eq!(
        with("m", m),
        (
            ConfigErrorKind::OutputWithFormat,
            "map m: cannot use output with format Some(Passwd)".to_string()
        )
    );
    let mut m = gdbm("k", "f", Format::KeyValue);
    m.submaps = vec![(b("x"), map(MapType::Unset))];
    assert_eq!(
        with("m", m),
        (ConfigErrorKind::BasemapHasKey, "map m: basemap cannot have a key".to_string())
    );
    let mut m = gdbm("k", "f", Format::KeyValue);
    m.map_output = Some(Vec::new());
    let mut c = config();
    c.map = vec![(b("m"), MapOrMaps::Single(m))];
    assert!(assemble(c).is_ok());
}

#[test]
fn domains_and_tls_are_checked() {
    let mut c = config();
    c.auth = Vec::new();
    assert_eq!(
        problem(c),
        (
            ConfigErrorKind::AuthNotDefined,
            "config: domain default: auth adjunct not defined".to_string()
        )
    );
    let mut c = config();
    c.auth[0].1.key = None;
    assert_eq!(
        problem(c),
        (ConfigErrorKind::AuthKeyNotSet, "config: auth adjunct: 'key' not set".to_string())
    );
    let mut c = config();
    c.auth[0].1.map = None;
    assert_eq!(
        problem(c),
        (ConfigErrorKind::AuthMapNotSet, "config: auth adjunct: 'map' not set".to_string())
    );
    let mut c = config();
    c.auth[0].1 = Auth { map: None, key: None, lua_function: Some(b("f")) };
    assert!(assemble(c).is_ok());
    let mut c = config();
    c.server.tls = true;
    assert_eq!(
        problem(c),
        (
            ConfigErrorKind::TlsNoCertFiles,
            "config: tls enabled but no cert files configured".to_string()
        )
    );
    let mut c = config();
    c.server.tls = true;
    c.server.key_file = Some(b("k"));
    assert_eq!(
        problem(c),
        (
            ConfigErrorKind::TlsIncomplete,
            "config: both the key_file and crt_file must be set".to_string()
        )
    );
    let mut c = config();
    c.server.tls = true;
    c.server.key_file = Some(b("k"));
    c.server.crt_file = Some(b("c"));
    assert!(assemble(c).is_ok());
    let mut c = config();
    c.server.tls = true;
    c.map[1].1 = MapOrMaps::Single(map(MapType::Unset));
    assert_eq!(problem(c).0, ConfigErrorKind::MapTypeNotSet);
}

#[test]
fn single_checks() {
    let mut m = gdbm("k", "f", Format::Group);
    m.name = b("g");
    assert_eq!(check_map(&m), None);
    m.map_type = MapType::Unset;
    assert_eq!(check_map(&m).unwrap().kind, ConfigErrorKind::MapTypeNotSet);
}

#[test]
fn included_maps_replace_by_name() {
    let mut maps = config().map;
    let extra = vec![
        (b("group"), MapOrMaps::Single(gdbm("gid", "group.bygid", Format::Group))),
        (b("hosts"), MapOrMaps::Single(gdbm("name", "hosts", Format::WsSep))),
    ];
    merge_maps(&mut maps, extra);
    assert_eq!(maps.len(), 6);
    assert_eq!(maps[1].0, b("group"));
    assert_eq!(maps[1].1, MapOrMaps::Single(gdbm("gid", "group.bygid", Format::Group)));
    assert_eq!(maps[5].0, b("hosts"));
}

#[test]
fn maps_are_found_by_key() {
    let c = assemble(config()).unwrap();
    let (m, k) = c.find_map(b"passwd", b"uid").unwrap();
    assert_eq!(m.map_file, Some(b("passwd.byuid")));
    assert_eq!(k, b("uid"));
    let (m, k) = c.find_map(b"passwd", b"username").unwrap();
    assert_eq!(m.map_file, Some(b("passwd.byname")));
    assert_eq!(k, b("username"));
    assert_eq!(c.find_map(b"passwd", b"gid"), None);
    assert_eq!(c.find_map(b"nothing", b"uid"), None);
    let (m, k) = c.find_map(b"scripted", b"anything").unwrap();
    assert_eq!(m.map_type, MapType::Lua);
    assert_eq!(k, b("anything"));
    let (_, k) = c.find_map(b"people", b"username").unwrap();
    assert_eq!(k, b("name"));
    let (_, k) = c.find_map(b"people", b"id").unwrap();
    assert_eq!(k, b("id"));
    let (_, k) = c.find_map(b"adjunct", b"name").unwrap();
    assert_eq!(k, b("name"));
    let d = c.find_domain(b"default").unwrap();
    assert!(c.find_allowed_map(d, b"passwd", b"uid").is_some());
    assert_eq!(c.find_allowed_map(d, b"adjunct", b"username"), None);
    assert_eq!(c.find_domain(b"other"), None);
}

#[test]
fn netmasks() {
    assert_eq!(masklen(0xffffffff), 32);
    assert_eq!(masklen(0xfffffff8), 29);
    assert_eq!(masklen(0xffffff00), 24);
    assert_eq!(masklen(0x80000000), 1);
    assert_eq!(masklen(0), 0);
    assert_eq!(masklen(0xff00ff00), 24);
}

#[test]
fn map_types() {
    assert_eq!(MapType::from_str(b"gdbm"), Ok(MapType::Gdbm));
    assert_eq!(MapType::from_str(b"json"), Ok(MapType::Json));
    assert_eq!(MapType::from_str(b"lua"), Ok(MapType::Lua));
    assert_eq!(MapType::from_str(b"GDBM"), Err(WnError::UnknownMapType));
}

#[test]
fn json_array_lookup() {
    let people = || {
        Ok(Json::List(vec![
            obj(vec![("name", t("alice")), ("id", Json::Int(7))]),
            Json::Null,
            obj(vec![("name", t("7")), ("id", Json::Int(8))]),
            obj(vec![("name", t("bob")), ("id", Json::Int(7))]),
        ]))
    };
    assert_eq!(
        json_lookup(people(), b"name", b"bob"),
        Ok(obj(vec![("name", t("bob")), ("id", Json::Int(7))]))
    );
    assert_eq!(
        json_lookup(people(), b"id", b"7"),
        Ok(obj(vec![("name", t("alice")), ("id", Json::Int(7))]))
    );
    assert_eq!(json_lookup(people(), b"name", b"7"), Err(WnError::KeyNotFound));
    assert_eq!(json_lookup(people(), b"id", b"9"), Err(WnError::KeyNotFound));
    assert_eq!(json_lookup(people(), b"nothing", b"x"), Err(WnError::KeyNotFound));
    assert_eq!(json_lookup(Ok(Json::Null), b"id", b"7"), Err(WnError::KeyNotFound));
    assert_eq!(json_lookup(Err(WnError::MapNotFound), b"id", b"7"), Err(WnError::MapNotFound));
    assert_eq!(json_lookup(Err(WnError::DbOther), b"id", b"7"), Err(WnError::DbOther));
}

#[test]
fn cached_handles() {
    assert!(!is_stale(0, 5999));
    assert!(is_stale(0, 6000));
    assert!(!is_stale(7000, 0));
    let mut db = GdbmDb { file_name: b("f"), modified: Some(10), lastcheck: 1000, lastused: 1000 };
    assert!(!check_due(&db, 6999));
    assert!(gdbm_check(&mut db, 6999, Some(Some(11))));
    assert_eq!(db.lastcheck, 1000);
    assert!(check_due(&db, 7000));
    assert!(gdbm_check(&mut db, 7000, Some(Some(10))));
    assert_eq!(db.lastcheck, 7000);
    assert!(!gdbm_check(&mut db, 14000, Some(Some(11))));
    assert_eq!(db.lastcheck, 7000);
    assert!(!gdbm_check(&mut db, 14000, Some(None)));
    assert!(gdbm_check(&mut db, 14000, None));
    assert_eq!(db.lastcheck, 14000);
    db.modified = None;
    assert!(!gdbm_check(&mut db, 30000, Some(None)));
    assert_eq!(
        Timer::interval(&vec![Some(1000), None, Some(7000), Some(994), Some(99999)], 7000),
        vec![false, false, true, false, true]
    );
}

#[test]
fn messages_end_in_a_line_feed() {
    assert_eq!(stringnl(b("abc")), b("abc\n"));
    assert_eq!(stringnl(b("abc\n")), b("abc\n"));
    assert_eq!(stringnl(Vec::new()), b("\n"));
    assert_eq!(http_unauthorized(b"default", Some(&b("Basic"))), Some(b("Basic realm=\"default\"\n")));
    assert_eq!(http_unauthorized(b"default", Some(&b("Bearer"))), Some(b("Bearer\n")));
    assert_eq!(http_unauthorized(b"default", None), None);
}

#[test]
fn form_bodies() {
    assert_eq!(
        decode_post_body(b"username=al%20ice&password=s3%20cret&service=ssh"),
        vec![(b("username"), b("al ice")), (b("password"), b("s3%20cret")), (b("service"), b("ssh"))]
    );
    assert_eq!(
        decode_post_body(b"a=1&password_raw=x&%ff=2&b=%ff&a=3&flag&k=v=w&pass%77ord=%41"),
        vec![(b("a"), b("3")), (b("flag"), b("")), (b("k"), b("v=w")), (b("password"), b("%41"))]
    );
    assert_eq!(decode_post_body(b""), vec![(Vec::new(), Vec::new())]);
}

#[test]
fn login_from_form_and_json() {
    let a = AuthInfo::from_post_body(b"remote=10.0.0.1&password=s3cret&username=alice", false, None).unwrap();
    assert_eq!(a.username, b("alice"));
    assert_eq!(a.password, b("s3cret"));
    assert_eq!(a.extra, vec![(b("remote"), t("10.0.0.1"))]);
    assert_eq!(AuthInfo::from_post_body(b"username=alice", false, None), None);
    assert_eq!(AuthInfo::from_post_body(b"password=x", false, None), None);
    let j = obj(vec![
        ("service", t("ssh")),
        ("password", t("s3 cr/et%")),
        ("password_raw", t("x")),
        ("username", t("alice")),
        ("n", Json::Int(1)),
    ]);
    let a = AuthInfo::from_post_body(b"", true, Some(j)).unwrap();
    assert_eq!(a.username, b("alice"));
    assert_eq!(a.password, b("s3%20cr%2Fet%25"));
    assert_eq!(a.extra, vec![(b("service"), t("ssh")), (b("n"), Json::Int(1))]);
    assert_eq!(AuthInfo::from_post_body(b"username=a&password=b", true, None), None);
    assert_eq!(AuthInfo::from_json(obj(vec![("username", t("a")), ("password", Json::Int(1))])), None);
    assert_eq!(AuthInfo::from_json(obj(vec![("username", t("a"))])), None);
    assert_eq!(AuthInfo::from_json(Json::List(vec![])), None);
}

const SHA512_S3CRET: &str =
    "$6$saltsalt$As4wrv0kZlfch1du9WeH7qhskyLriQWySXrZzynnvi46nFnNxjdpl6ksRegrrKexvhIa/Iny8S8uF3fVWTMuC1";
const SHA512_ODD: &str =
    "$6$saltsalt$VeGYmO3CDdCR45CRTDjtrf9JyfO8VM7kuSMqyF13lVQZX4FL.84S0mgqu9id3hLMqwU/zKO.fOkefriN3bO9t.";
const SHA512_ESCAPE: &str =
    "$6$saltsalt$7T.WFJizxr8vWg0ymXUMSs2HIIMEo5LxNbmZ5zA9AXYqqglAF/7FOShKhIgk.yQX4Pg6ibdadWAuSrGYtVzGu1";

#[test]
fn unix_passwords() {
    assert!(check_unix_password(b"s3cret", SHA512_S3CRET.as_bytes()));
    assert!(!check_unix_password(b"wrong", SHA512_S3CRET.as_bytes()));
    assert!(check_unix_password(b"password", b"$1$5pZSV9va$azfrPr6af3Fc7dLblQXVa0"));
    assert!(check_unix_password(b"pass%77ord", b"$1$5pZSV9va$azfrPr6af3Fc7dLblQXVa0"));
    assert!(!check_unix_password(b"s3cret", b"not a hash at all"));
    assert!(!check_unix_password(b"s3cret", b""));
    assert!(!check_unix_password(b"s3cret", &[b'$', b'6', b'$', 0xff]));
}

#[test]
fn hashes_that_cannot_be_verified_never_match() {
    assert!(!can_verify(b"\t"));
    assert!(!can_verify(b"$1$ab\x1fcd$x"));
    assert!(!can_verify("$6$\u{80}$x".as_bytes()));
    assert!(can_verify("$6$\u{81}$x".as_bytes()));
    assert!(can_verify(SHA512_S3CRET.as_bytes()));
    assert!(can_verify(b""));
    assert!(can_verify(b"\x7f "));
    for hash in [
        &b"\t"[..],
        b"_\t\t\t\tabcd",
        b"$1$\n$x",
        b"$6$rounds=5000$\x01$x",
        b"$2y$05$\x00",
        b"$sha1$1$\r$x",
        "$1$\u{80}$x".as_bytes(),
        "$6$\u{80}$x".as_bytes(),
        "\u{80}\u{80}".as_bytes(),
    ] {
        assert!(!check_unix_password(b"s3cret", hash));
    }
    assert!(!check_unix_password(b"s3cret", "$6$\u{81}$x".as_bytes()));
    assert!(!check_unix_password(b"s3cret", b"ab"));
}

#[test]
fn des_hashes_never_match() {
    assert!(!check_unix_password(b"test", b"aZGJuE6EXrjEE"));
    assert!(!check_unix_password(b"", b"aZGJuE6EXrjEE"));
    assert!(!check_unix_password(b"aZGJuE6EXrjEE", b"aZGJuE6EXrjEE"));
}

#[test]
fn password_survives_the_way_to_the_hash() {
    for (password, hash) in
        [(&b"s3 cr:et% x"[..], SHA512_ODD), (&b"100%25 a/b:c"[..], SHA512_ESCAPE)]
    {
        let line =
            webnis::pam::prepare(Some(&b"alice"[..]), Some(password), Some(&b"ssh"[..]), None)
                .unwrap();
        let line = &line[..line.len() - 1];
        let ctx = webnis::bind::Context {
            config: webnis::bind::Config {
                domain: b("default"),
                server: None,
                servers: vec![b("a")],
                http_authschema: b("Basic"),
                http_authtoken: b("x"),
                http_authencoding: None,
                http2_only: None,
                concurrency: None,
                restrict_getpwuid: false,
                restrict_getgrgid: false,
            },
            uid: 0,
            gid: 0,
        };
        let body = match webnis::request::process(&ctx, line) {
            webnis::request::Action::Fetch { body: Some(body), .. } => body,
            other => panic!("{:?}", other),
        };
        let info = AuthInfo::from_post_body(&body, false, None).unwrap();
        assert_eq!(info.username, b("alice"));
        assert!(check_unix_password(&info.password, hash.as_bytes()));
        let entry = obj(vec![("name", t("alice")), ("passwd", t(hash))]);
        assert_eq!(auth_reply(&Ok(entry), &info.password).status, 200);
    }
}

#[test]
fn http_credentials() {
    let mut d = domain();
    let auth = |d: &Domain, h: Option<&str>| check_http_auth(h.map(|s| s.as_bytes()), d);
    assert_eq!(auth(&d, Some("Basic dXNlcjpwdw==")), AuthResult::AuthOk);
    assert_eq!(auth(&d, Some("  Basic   dXNlcjpwdw==  more")), AuthResult::AuthOk);
    assert_eq!(auth(&d, Some("Basic dXNlcjpwdyE=")), AuthResult::BadAuth);
    assert_eq!(auth(&d, Some("Basic user:pw")), AuthResult::BadAuth);
    assert_eq!(auth(&d, Some("Bearer dXNlcjpwdw==")), AuthResult::NoAuth);
    assert_eq!(auth(&d, Some("Basic")), AuthResult::NoAuth);
    assert_eq!(auth(&d, None), AuthResult::NoAuth);
    d.http_authencoding = None;
    assert_eq!(auth(&d, Some("Basic user:pw")), AuthResult::AuthOk);
    assert_eq!(auth(&d, Some("Basic dXNlcjpwdw==")), AuthResult::BadAuth);
    d.http_authencoding = Some(b("hex"));
    assert_eq!(auth(&d, Some("Basic user:pw")), AuthResult::BadAuth);
    d.http_authtoken = None;
    assert_eq!(auth(&d, Some("Basic user:pw")), AuthResult::BadAuth);
    assert_eq!(auth(&d, None), AuthResult::BadAuth);
    d.http_authschema = None;
    assert_eq!(auth(&d, None), AuthResult::AuthOk);
    assert_eq!(check_token(&Some(b("tok")), b"tok"), AuthResult::AuthOk);
    assert_eq!(check_token(&Some(b("tok")), b"other"), AuthResult::BadAuth);
    assert_eq!(check_token(&Some(vec![0xff]), &[0xff]), AuthResult::BadAuth);
    assert_eq!(check_token(&None, b"tok"), AuthResult::BadAuth);
}

fn error_of(r: &Reply) -> (u16, i128, String) {
    let e = r.body.get(b"error").unwrap();
    let code = match e.get(b"code").unwrap() {
        Json::Int(n) => *n,
        other => panic!("{:?}", other),
    };
    (r.status, code, String::from_utf8(e.get(b"message").unwrap().as_text().unwrap()).unwrap())
}

#[test]
fn replies() {
    assert_eq!(
        json_error(404, None, b"No such map"),
        Reply {
            status: 404,
            body: obj(vec![("error", obj(vec![("code", Json::Int(404)), ("message", t("No such map"))]))]),
        }
    );
    assert_eq!(error_of(&json_error(403, Some(401), b"x")), (403, 401, "x".to_string()));
    assert_eq!(
        json_result(200, Json::Int(5)),
        Reply { status: 200, body: obj(vec![("result", Json::Int(5))]) }
    );
    assert_eq!(map_reply(Ok(Json::Null)).status, 200);
    assert_eq!(
        error_of(&map_reply(Err(WnError::KeyNotFound))),
        (404, 404, "No such key in map".to_string())
    );
    assert_eq!(error_of(&map_reply(Err(WnError::MapNotFound))), (404, 404, "No such map".to_string()));
    assert_eq!(error_of(&map_reply(Err(WnError::DeserializeData))).0, 500);
    assert_eq!(error_of(&map_reply(Err(WnError::UnknownFormat))).0, 500);
    assert_eq!(error_of(&map_reply(Err(WnError::SerializeJson))).0, 500);
    assert_eq!(error_of(&map_reply(Err(WnError::DbOther))).0, 500);
}

#[test]
fn map_requests() {
    let w = server();
    let q = |k: &str, v: &str| vec![(b(k), b(v)), (b("cred_uid"), b("0"))];
    assert_eq!(
        w.handle_map(b"default", b"passwd", &q("username", "truus")),
        Step::Lookup(Backend::Gdbm {
            path: b("/var/lib/webnis/passwd.byname"),
            key: b("truus"),
            format: Format::Passwd,
            output: None,
        })
    );
    assert_eq!(
        w.handle_map(b"default", b"people", &q("username", "alice")),
        Step::Lookup(Backend::Json {
            path: b("/var/lib/webnis/people.json"),
            keyname: b("name"),
            keyval: b("alice"),
        })
    );
    assert_eq!(
        w.handle_map(b"default", b"scripted", &q("k", "v")),
        Step::Lookup(Backend::Lua {
            function: b("lookup"),
            request: Request::for_map(b("default"), b("k"), b("v")),
        })
    );
    let status = |s: Step| match s {
        Step::Reply(r) => error_of(&r),
        other => panic!("{:?}", other),
    };
    assert_eq!(status(w.handle_map(b"other", b"passwd", &q("uid", "1"))).0, 404);
    assert_eq!(
        status(w.handle_map(b"default", b"passwd", &Vec::new())),
        (400, 400, "Query params missing".to_string())
    );
    assert_eq!(status(w.handle_map(b"default", b"adjunct", &Vec::new())).0, 404);
    assert_eq!(
        status(w.handle_map(b"default", b"adjunct", &q("username", "x"))),
        (404, 404, "No such map".to_string())
    );
    assert_eq!(status(w.handle_map(b"default", b"passwd", &q("gid", "1"))).0, 404);
    assert_eq!(status(w.handle_map(b"default", b"nothing", &q("gid", "1"))).0, 404);
}

#[test]
fn auth_reject_vs_accept() {
    let w = server();
    let info = |pw: &str| AuthInfo::from_post_body(format!("username=alice&password={}", pw).as_bytes(), false, None);
    let step = w.handle_auth(b"default", info("s3cret"));
    let (backend, password) = match step {
        AuthStep::Lookup { backend, password } => (backend, password),
        other => panic!("{:?}", other),
    };
    assert_eq!(
        backend,
        Backend::Gdbm {
            path: b("/var/lib/webnis/passwd.adjunct.byname"),
            key: b("alice"),
            format: Format::Adjunct,
            output: None,
        }
    );
    let entry = || Ok(obj(vec![("name", t("alice")), ("passwd", t(SHA512_S3CRET))]));
    let ok = auth_reply(&entry(), &password);
    assert_eq!(ok, Reply { status: 200, body: obj(vec![("result", obj(vec![]))]) });
    assert_eq!(
        error_of(&auth_reply(&entry(), b"wrong")),
        (401, 401, "Password incorrect".to_string())
    );
    assert_eq!(error_of(&auth_reply(&Err(WnError::KeyNotFound), b"s3cret")).0, 404);
    assert_eq!(error_of(&auth_reply(&Err(WnError::MapNotFound), b"s3cret")).0, 404);
    assert_eq!(error_of(&auth_reply(&Err(WnError::DbOther), b"s3cret")).0, 500);
    assert_eq!(error_of(&auth_reply(&Ok(obj(vec![("name", t("alice"))])), b"s3cret")).0, 401);
    assert_eq!(auth_map(&entry(), b"s3cret"), Ok(true));
    assert_eq!(auth_map(&entry(), b"wrong"), Ok(false));
    assert_eq!(auth_map(&Err(WnError::KeyNotFound), b"s3cret"), Ok(false));
    assert_eq!(auth_map(&Err(WnError::DbOther), b"s3cret"), Err(WnError::DbOther));
}

#[test]
fn login_requests() {
    let w = server();
    let info = || AuthInfo::from_post_body(b"username=alice&password=pw&x=y", false, None);
    let status = |s: AuthStep| match s {
        AuthStep::Reply(r) => error_of(&r),
        other => panic!("{:?}", other),
    };
    assert_eq!(status(w.handle_auth(b"other", info())).0, 404);
    assert_eq!(
        status(w.handle_auth(b"default", None)),
        (400, 400, "Body parameters missing".to_string())
    );
    let mut c = config();
    c.domain[0].auth = None;
    let open = Webnis::new(assemble(c).unwrap(), None);
    assert_eq!(
        status(open.handle_auth(b"default", info())),
        (404, 404, "Authentication not enabled".to_string())
    );
    let mut c = config();
    c.auth[0].1 = Auth { map: Some(b("adjunct")), key: None, lua_function: Some(b("check")) };
    let scripted = Webnis::new(assemble(c).unwrap(), None);
    assert_eq!(
        scripted.handle_auth(b"default", info()),
        AuthStep::Script {
            function: b("check"),
            request: Request {
                domain: b("default"),
                username: Some(b("alice")),
                password: Some(b("pw")),
                map: Some(b("adjunct")),
                key: None,
                keyname: None,
                keyvalue: None,
                extra: vec![(b("x"), t("y"))],
                src_ip: None,
            },
        }
    );
    let mut c = config();
    c.auth[0].1.key = Some(b("uid"));
    let wrong = Webnis::new(assemble(c).unwrap(), None);
    assert_eq!(
        status(wrong.handle_auth(b"default", info())),
        (404, 404, "Associated auth map not found".to_string())
    );
}

#[test]
fn scripts() {
    assert_eq!(script_status(&None), Ok(0));
    assert_eq!(script_status(&Some(ScriptValue::Integer(100))), Ok(100));
    assert_eq!(script_status(&Some(ScriptValue::Integer(599))), Ok(599));
    assert_eq!(script_status(&Some(ScriptValue::Integer(99))), Err(WnError::LuaError));
    assert_eq!(script_status(&Some(ScriptValue::Integer(600))), Err(WnError::LuaError));
    assert_eq!(script_status(&Some(ScriptValue::Integer(-1))), Err(WnError::LuaError));
    assert_eq!(script_status(&Some(ScriptValue::Other)), Err(WnError::LuaError));
    assert_eq!(script_status(&Some(ScriptValue::Text(b("200")))), Err(WnError::LuaError));
    assert_eq!(error_of(&script_auth_reply(Ok((Json::Null, 0)))), (401, 401, "Password incorrect".to_string()));
    assert_eq!(error_of(&script_auth_reply(Ok((Json::Null, 403)))).0, 401);
    assert_eq!(
        script_auth_reply(Ok((t("in"), 0))),
        Reply { status: 200, body: obj(vec![("result", t("in"))]) }
    );
    assert_eq!(script_auth_reply(Ok((t("in"), 202))), Reply { status: 202, body: t("in") });
    assert_eq!(error_of(&script_auth_reply(Err(WnError::LuaError))).0, 500);
    assert_eq!(script_lookup_result(Err(WnError::KeyNotFound)), Ok(Json::Null));
    assert_eq!(script_lookup_result(Err(WnError::DbOther)), Err(WnError::DbOther));
    assert_eq!(script_lookup_result(Ok(t("x"))), Ok(t("x")));
    assert_eq!(lookup_lua_map(Ok(Json::Null)), Err(WnError::KeyNotFound));
    assert_eq!(lookup_lua_map(Ok(t("x"))), Ok(t("x")));
    assert_eq!(lookup_lua_map(Err(WnError::LuaError)), Err(WnError::Other));
    let w = server();
    assert_eq!(
        w.lua_map_lookup(b"default", b"passwd", b"uid", b"1042"),
        Ok(Backend::Gdbm { path: b("/var/lib/webnis/passwd.byuid"), key: b("1042"), format: Format::Passwd, output: None })
    );
    assert_eq!(w.lua_map_lookup(b"other", b"passwd", b"uid", b"1"), Err(WnError::DbOther));
    assert_eq!(w.lua_map_lookup(b"default", b"passwd", b"gid", b"1"), Err(WnError::DbOther));
    assert_eq!(w.lua_map_lookup(b"default", b"scripted", b"k", b"v"), Err(WnError::Other));
    assert_eq!(w.lua_map_auth(b"default", b"nothing", b"k", b"alice"), Err(WnError::MapNotFound));
    assert_eq!(w.lua_map_auth(b"other", b"adjunct", b"username", b"alice"), Err(WnError::DbOther));
    assert!(matches!(
        w.lua_map_auth(b"default", b"adjunct", b"username", b"alice"),
        Ok(Backend::Gdbm { .. })
    ));
}

#[test]
fn script_requests() {
    let lookup = Request::for_map(b("default"), b("uid"), b("1042"));
    assert_eq!(lookup.index(b"domain"), Some(Field::Text(&b("default"))));
    assert_eq!(lookup.index(b"keyname"), Some(Field::Text(&b("uid"))));
    assert_eq!(lookup.index(b"mapname"), Some(Field::Text(&b("uid"))));
    assert_eq!(lookup.index(b"keyvalue"), Some(Field::Text(&b("1042"))));
    assert_eq!(lookup.index(b"username"), None);
    assert_eq!(lookup.index(b"password"), None);
    assert_eq!(lookup.index(b"anything"), None);
    assert!(!lookup.checkpass(SHA512_S3CRET.as_bytes()));
    let login = Request {
        domain: b("default"),
        username: Some(b("alice")),
        password: Some(b("s3cret")),
        map: Some(b("adjunct")),
        key: None,
        keyname: None,
        keyvalue: None,
        extra: vec![
            (b("service"), t("imap")),
            (b("tries"), Json::Int(3)),
            (b("username"), t("mallory")),
            (b("log"), t("x")),
            (b("service"), t("pop3")),
        ],
        src_ip: Some(b("194.109.6.66")),
    };
    assert_eq!(login.index(b"username"), Some(Field::Text(&b("alice"))));
    assert_eq!(login.index(b"password"), Some(Field::Text(&b("s3cret"))));
    assert_eq!(login.index(b"map"), Some(Field::Text(&b("adjunct"))));
    assert_eq!(login.index(b"key"), None);
    assert_eq!(login.index(b"keyname"), None);
    assert_eq!(login.index(b"log"), None);
    assert_eq!(login.index(b"service"), Some(Field::Value(&t("imap"))));
    assert_eq!(login.index(b"tries"), Some(Field::Value(&Json::Int(3))));
    assert_eq!(login.index(b"src_ip"), None);
    assert_eq!(
        login.names(),
        vec![b("domain"), b("username"), b("password"), b("map"), b("service"), b("tries"), b("service")]
    );
    assert_eq!(lookup.names(), vec![b("domain"), b("mapname"), b("keyname"), b("keyvalue")]);
    assert_eq!(login.extra_text(b"service"), Some(b("imap")));
    assert_eq!(login.extra_text(b"tries"), None);
    assert_eq!(login.extra_text(b"nothing"), None);
    assert!(login.checkpass(SHA512_S3CRET.as_bytes()));
    assert!(!login.checkpass(b"$6$saltsalt$nothing"));
    assert!(!login.checkpass(b"abJnggxhB/yWI"));
}

fn http(method: &str, path: &str) -> HttpRequest {
    HttpRequest {
        method: b(method),
        path: b(path),
        query: None,
        headers: vec![
            (b("content-length"), b("10")),
            (b("content-type"), b("application/x-www-form-urlencoded")),
        ],
        state: None,
    }
}

#[test]
fn routes_of_the_server() {
    let m = api_routes().unwrap();
    assert_eq!(m.routes.len(), 6);
    assert!(!m.encoded_slashes_ok);
    for prefix in ["/webnis", "/.well-known/webnis"] {
        let mut req = http("GET", &format!("{}/default/map/passwd", prefix));
        req.query = Some(b("username=truus"));
        let hit = m.match_req(&mut req).unwrap();
        assert_eq!(endpoint(&hit), Some(Endpoint::Lookup));
        assert_eq!(hit.route_param(b"domain"), Some(b("default")));
        assert_eq!(hit.route_param(b"map"), Some(b("passwd")));
        assert_eq!(hit.query_param(b"username"), Some(b("truus")));
        let hit = m.match_req(&mut http("POST", &format!("{}/example/auth", prefix))).unwrap();
        assert_eq!(endpoint(&hit), Some(Endpoint::Login));
        assert_eq!(hit.route_param(b"domain"), Some(b("example")));
        let hit = m.match_req(&mut http("GET", &format!("{}/default/info", prefix))).unwrap();
        assert_eq!(endpoint(&hit), Some(Endpoint::Info));
        assert!(m.match_req(&mut http("GET", &format!("{}/default/auth", prefix))).is_err());
        assert!(m.match_req(&mut http("POST", &format!("{}/default/info", prefix))).is_err());
        assert!(m.match_req(&mut http("GET", &format!("{}/default/map", prefix))).is_err());
        assert!(m.match_req(&mut http("GET", &format!("{}/default/map/a/b", prefix))).is_err());
    }
    assert!(m.match_req(&mut http("GET", "/default/info")).is_err());
    assert!(m.match_req(&mut http("GET", "/webnis/default/info/")).is_err());
}

#[test]
fn media_types_of_a_login() {
    assert_eq!(login_body_kind(b"application/x-www-form-urlencoded"), Ok(false));
    assert_eq!(login_body_kind(b" application/x-www-form-urlencoded ; charset=utf-8"), Ok(false));
    assert_eq!(login_body_kind(b"application/json"), Ok(true));
    assert_eq!(login_body_kind(b"application/json;charset=utf-8"), Ok(true));
    assert_eq!(login_body_kind(b"text/json"), Ok(true));
    for other in [&b"text/plain"[..], b"", b"application/jsonx", b"x; application/json", b"Application/JSON"] {
        assert_eq!(
            login_body_kind(other),
            Err(Reject::Status(415, b("content-type must be json or www-form\n")))
        );
    }
}

fn v4(a: u8, b: u8, c: u8, d: u8) -> Addr {
    Addr { v6: false, bits: u32::from_be_bytes([a, b, c, d]) as u128 }
}

#[test]
fn subnets() {
    let words = |w: &[&str]| w.iter().map(|s| b(s)).collect::<Vec<_>>();
    assert_eq!(
        parse_ip(&words(&["255.255.255.248", "194.109.16.0"])),
        Some(Net { addr: v4(194, 109, 16, 0), prefix: 29 })
    );
    assert_eq!(
        parse_ip(&words(&["194.109.16.9/27"])),
        Some(Net { addr: v4(194, 109, 16, 9), prefix: 27 })
    );
    assert_eq!(parse_ip(&words(&["10.1.2.3"])), Some(Net { addr: v4(10, 1, 2, 3), prefix: 32 }));
    assert_eq!(
        parse_ip(&words(&["10.1.2.3", "comment"])),
        Some(Net { addr: v4(10, 1, 2, 3), prefix: 32 })
    );
    assert_eq!(
        parse_ip(&words(&["2001:888:4:42::/64"])),
        Some(Net { addr: Addr { v6: true, bits: 0x2001_0888_0004_0042_0000_0000_0000_0000 }, prefix: 64 })
    );
    assert_eq!(parse_ip(&words(&["::1"])), Some(Net { addr: Addr { v6: true, bits: 1 }, prefix: 128 }));
    assert_eq!(parse_ip(&words(&["010.1.2.3"])), None);
    assert_eq!(parse_ip(&words(&["10.1.2.03"])), None);
    assert_eq!(parse_ip(&words(&["10.0.2.3"])), Some(Net { addr: v4(10, 0, 2, 3), prefix: 32 }));
    assert_eq!(
        parse_ip(&words(&["255.255.255.0", "10.01.2.0"])),
        Some(Net { addr: v4(255, 255, 255, 0), prefix: 32 })
    );
    assert_eq!(parse_ip(&words(&["10.1.2.3/33"])), None);
    assert_eq!(parse_ip(&words(&["10.1.2"])), None);
    assert_eq!(parse_ip(&words(&["host.example.org"])), None);
    assert_eq!(parse_ip(&words(&["::1/129"])), None);
}

#[test]
fn securenets() {
    let mut list = IpList::new();
    read_securenets(
        b"# comment\n255.255.255.248 194.109.16.0\n\n   10.0.0.0/8  \nnonsense\n  # 1.2.3.4\n192.168.1.7\n2001:888:4:42::/64\n",
        &mut list,
    );
    assert_eq!(
        list.list,
        vec![
            Net { addr: v4(10, 0, 0, 0), prefix: 8 },
            Net { addr: v4(194, 109, 16, 0), prefix: 29 },
            Net { addr: Addr { v6: true, bits: 0x2001_0888_0004_0042_0000_0000_0000_0000 }, prefix: 64 },
        ]
    );
    assert_eq!(list.set, vec![v4(192, 168, 1, 7)]);
    assert!(list.contains(v4(194, 109, 16, 7)));
    assert!(!list.contains(v4(194, 109, 16, 8)));
    assert!(list.contains(v4(10, 255, 0, 1)));
    assert!(!list.contains(v4(11, 0, 0, 1)));
    assert!(list.contains(v4(192, 168, 1, 7)));
    assert!(!list.contains(v4(192, 168, 1, 8)));
    assert!(!list.contains(v4(1, 2, 3, 4)));
    assert!(list.contains(Addr { v6: true, bits: 0x2001_0888_0004_0042_0000_0000_0000_0001 }));
    assert!(!list.contains(Addr { v6: true, bits: 0x2001_0888_0004_0043_0000_0000_0000_0001 }));
    assert!(!list.contains(Addr { v6: true, bits: u32::from_be_bytes([10, 0, 0, 1]) as u128 }));
}

#[test]
fn nested_subnets_are_all_seen() {
    let mut list = IpList::new();
    list.add(Net { addr: v4(10, 0, 0, 0), prefix: 8 });
    list.add(Net { addr: v4(10, 1, 77, 0), prefix: 16 });
    list.add(Net { addr: v4(0, 0, 0, 0), prefix: 0 }.trunc());
    assert_eq!(list.list[1], Net { addr: v4(10, 1, 0, 0), prefix: 16 });
    assert!(list.contains(v4(10, 2, 0, 1)));
    assert!(list.contains(v4(200, 2, 0, 1)));
    assert!(!list.contains(Addr { v6: true, bits: 5 }));
}

#[test]
fn subnets_are_put_in_order() {
    let six = |bits: u128, prefix: u8| Net { addr: Addr { v6: true, bits }, prefix };
    let mut list = IpList::new();
    list.add(six(0x2001 << 112, 16));
    list.add(Net { addr: v4(10, 1, 0, 0), prefix: 16 });
    list.add(Net { addr: v4(10, 0, 0, 0), prefix: 16 });
    list.add(Net { addr: v4(10, 0, 0, 0), prefix: 8 });
    list.add(Net { addr: v4(10, 1, 0, 0), prefix: 16 });
    list.add(Net { addr: v4(9, 9, 9, 9), prefix: 32 });
    list.add(six(0, 0));
    list.finalize();
    assert_eq!(
        list.list,
        vec![
            Net { addr: v4(10, 0, 0, 0), prefix: 8 },
            Net { addr: v4(10, 0, 0, 0), prefix: 16 },
            Net { addr: v4(10, 1, 0, 0), prefix: 16 },
            Net { addr: v4(10, 1, 0, 0), prefix: 16 },
            six(0, 0),
            six(0x2001 << 112, 16),
        ]
    );
    assert_eq!(list.set, vec![v4(9, 9, 9, 9)]);
    assert!(list.contains(v4(10, 0, 200, 1)));
    assert!(list.contains(v4(10, 200, 0, 1)));
    assert!(list.contains(v4(9, 9, 9, 9)));
    assert!(!list.contains(v4(9, 9, 9, 8)));
    assert!(list.contains(Addr { v6: true, bits: 77 }));
    let mut empty = IpList::new();
    empty.finalize();
    assert_eq!(empty, IpList::new());
}

#[test]
fn peers() {
    assert!(is_loopback(&v4(127, 0, 0, 1)));
    assert!(is_loopback(&v4(127, 255, 255, 254)));
    assert!(!is_loopback(&v4(128, 0, 0, 1)));
    assert!(is_loopback(&Addr { v6: true, bits: 1 }));
    assert!(!is_loopback(&Addr { v6: true, bits: 2 }));
    assert!(peer_admitted(&None, v4(1, 2, 3, 4)));
    let mut list = IpList::new();
    list.add(Net { addr: v4(10, 0, 0, 0), prefix: 8 });
    let list = Some(list);
    assert!(peer_admitted(&list, v4(10, 2, 3, 4)));
    assert!(peer_admitted(&list, v4(127, 0, 0, 1)));
    assert!(!peer_admitted(&list, v4(1, 2, 3, 4)));
}

#[test]
fn requests_are_let_through() {
    let mut list = IpList::new();
    list.add(Net { addr: v4(10, 0, 0, 0), prefix: 8 });
    let w = Webnis::new(assemble(config()).unwrap(), Some(list));
    let good = Some(&b"Basic dXNlcjpwdw=="[..]);
    assert_eq!(w.check_authorization(b"default", Some(v4(10, 0, 0, 1)), good), Ok(()));
    assert_eq!(w.check_authorization(b"default", Some(v4(127, 0, 0, 1)), good), Ok(()));
    assert_eq!(
        w.check_authorization(b"default", None, good),
        Err(Reject::Status(400, b("no client ip addr\n")))
    );
    assert_eq!(
        w.check_authorization(b"default", Some(v4(11, 0, 0, 1)), good),
        Err(Reject::Status(403, b("access denied\n")))
    );
    assert_eq!(w.check_authorization(b"other", Some(v4(10, 0, 0, 1)), good), Err(Reject::NotFound));
    assert_eq!(
        w.check_authorization(b"default", Some(v4(10, 0, 0, 1)), None),
        Err(Reject::Unauthorized(Some(b("Basic realm=\"default\"\n"))))
    );
    assert_eq!(
        w.check_authorization(b"default", Some(v4(10, 0, 0, 1)), Some(&b"Basic d3Jvbmc="[..])),
        Err(Reject::Unauthorized(Some(b("Basic realm=\"default\"\n"))))
    );
}
