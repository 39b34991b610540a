use webnis::bind::{Config, HttpClient};
use webnis::config::{assemble, Auth, Config as ServerConfig, Domain, MapDef, MapOrMaps, Server};
use webnis::db::MapType;
use webnis::errors::{multiline, WnError};
use webnis::format::Format;
use webnis::json::Json;
use webnis::request::servers_reply;
use webnis::response::Response;
use webnis::webnis::{Refusal, Reject, Webnis};

fn b(s: &str) -> Vec<u8> {
    s.as_bytes().to_vec()
}

fn t(s: &str) -> Json {
    Json::Text(b(s))
}

fn obj(members: Vec<(&str, Json)>) -> Json {
    Json::Object(members.into_iter().map(|(k, v)| (b(k), v)).collect())
}

#[test]
fn lines_of_a_message() {
    assert_eq!(multiline(b"one\n\ntwo\nthree\n"), vec![b("one"), b("two"), b("three")]);
    assert_eq!(multiline(b""), Vec::<Vec<u8>>::new());
    assert_eq!(multiline(b"\n\n"), Vec::<Vec<u8>>::new());
    assert_eq!(multiline(b"x"), vec![b("x")]);
}

#[test]
fn failures_have_texts() {
    assert_eq!(WnError::KeyNotFound.message(), b"No such key in map");
    assert_eq!(WnError::LuaFunctionNotFound.message(), b"Script function not found");
    assert_eq!(WnError::DbOther.debug_bytes(), b"DbOther");
    assert_eq!(format!("{:?}", WnError::UnknownMapType).as_bytes(), WnError::UnknownMapType.debug_bytes());
}

#[test]
fn error_reply_of_a_server() {
    let j = Response::json_error(404, b"No such key in map");
    assert_eq!(
        j,
        obj(vec![("error", obj(vec![("code", Json::Int(404)), ("message", t("No such key in map"))]))])
    );
    assert_eq!(Response::transform(&Ok(j)), b"404 No such key in map".to_vec());
}

#[test]
fn servers_are_reported() {
    let config = Config {
        domain: b("default"),
        server: None,
        servers: vec![b("a"), b("b"), b("c")],
        http_authschema: b("Basic"),
        http_authtoken: b("x"),
        http_authencoding: None,
        http2_only: None,
        concurrency: None,
        restrict_getpwuid: false,
        restrict_getgrgid: false,
    };
    let list = Json::List(vec![t("a"), t("b"), t("c")]);
    assert_eq!(
        servers_reply(&HttpClient { has_client: true, seqno: 7 }, &config),
        obj(vec![("seqno", Json::Int(7)), ("active", t("b")), ("servers", list)])
    );
    let idle = servers_reply(&HttpClient { has_client: false, seqno: 7 }, &config);
    assert_eq!(idle.get(b"active"), Some(&Json::Null));
}

#[test]
fn refusals() {
    assert_eq!(
        Reject::Status(403, b("access denied\n")).handle_rejection(),
        Refusal { status: 403, content_type: b("text/plain"), challenge: None, body: b("access denied\n") }
    );
    assert_eq!(
        Reject::Unauthorized(Some(b("Bearer\n"))).handle_rejection(),
        Refusal {
            status: 401,
            content_type: b("text/plain"),
            challenge: Some(b("Bearer\n")),
            body: b("credentials missing\n"),
        }
    );
    assert_eq!(Reject::Unauthorized(None).handle_rejection().challenge, None);
    assert_eq!(Reject::NotFound.handle_rejection().status, 404);
}

fn map(map_type: MapType, key: Option<&str>, keys: &[&str], alias: &[(&str, &str)]) -> MapDef {
    MapDef {
        name: Vec::new(),
        key: key.map(b),
        keys: keys.iter().map(|k| b(k)).collect(),
        key_alias: alias.iter().map(|(a, k)| (b(a), b(k))).collect(),
        lua_function: if map_type == MapType::Lua { Some(b("f")) } else { None },
        map_type,
        map_format: if map_type == MapType::Gdbm { Some(Format::Passwd) } else { None },
        map_file: if map_type == MapType::Lua { None } else { Some(b("file")) },
        map_output: None,
        submaps: Vec::new(),
    }
}

#[test]
fn info_lists_maps_and_keys() {
    let config = ServerConfig {
        server: Server {
            tls: false,
            crt_file: None,
            key_file: None,
            cert_password: Vec::new(),
            securenets: Vec::new(),
            http2_only: false,
            concurrency: None,
            datalog: None,
        },
        domain: vec![Domain {
            name: b("default"),
            db_dir: b("/db"),
            maps: vec![b("passwd"), b("missing"), b("people"), b("scripted")],
            auth: None,
            http_authschema: None,
            http_authtoken: None,
            http_authencoding: None,
        }],
        map: vec![
            (
                b("passwd"),
                MapOrMaps::Maps(vec![
                    (b("username"), map(MapType::Gdbm, None, &[], &[])),
                    (b("uid"), map(MapType::Gdbm, None, &["number"], &[])),
                ]),
            ),
            (b("people"), MapOrMaps::Single(map(MapType::Json, Some("name"), &["id"], &[("username", "name")]))),
            (b("scripted"), MapOrMaps::Single(map(MapType::Lua, None, &[], &[]))),
            (b("hidden"), MapOrMaps::Single(map(MapType::Json, Some("k"), &[], &[]))),
        ],
        map_: Vec::new(),
        auth: Vec::<(Vec<u8>, Auth)>::new(),
        lua: None,
        include_maps: None,
    };
    let w = Webnis::new(assemble(config).unwrap(), None);
    let keys = |k: &[&str]| obj(vec![("keys", Json::List(k.iter().map(|x| t(x)).collect()))]);
    let r = w.handle_info(b"default");
    assert_eq!(r.status, 200);
    assert_eq!(
        r.body,
        obj(vec![(
            "result",
            obj(vec![(
                "maps",
                obj(vec![
                    ("passwd", keys(&["username", "uid", "number"])),
                    ("people", keys(&["name", "id", "username"])),
                    ("scripted", keys(&[])),
                ])
            )])
        )])
    );
    assert_eq!(w.handle_info(b"other").status, 404);
}
