use webnis::json::Json;
use webnis::routematcher::{
    build_matcher_re, contains_sub, decode_query_get_offsets, has_body, map_query_params, Builder,
    Matcher, Request,
};

fn b(s: &str) -> Vec<u8> {
    s.as_bytes().to_vec()
}

fn request(method: &str, path: &str, query: Option<&str>, headers: &[(&str, &str)]) -> Request {
    Request {
        method: b(method),
        path: b(path),
        query: query.map(b),
        headers: headers.iter().map(|(k, v)| (b(k), b(v))).collect(),
        state: None,
    }
}

fn matcher() -> Matcher {
    let mut builder = Builder::new();
    assert!(builder.add(b"/user/:id"));
    builder.label(b"user");
    builder.method(b"POST");
    builder.method(b"GET");
    assert!(builder.add(b"/files/*rest"));
    builder.label(b"files");
    assert!(builder.add(b"/:domain/map/:map(/)"));
    builder.method(b"GET");
    assert!(builder.add(b"/plain.txt"));
    builder.compile()
}

const FORM: (&str, &str) = ("Content-Type", "application/x-www-form-urlencoded; charset=utf-8");
const LENGTH: (&str, &str) = ("content-length", "12");

#[test]
fn test_match() {
    let mut request = request("POST", "/user/mike", Some("foo=bar"), &[LENGTH, FORM]);
    let mut builder = Builder::new();
    builder.add(b"/user/:id");
    builder.label(b"user");
    builder.method(b"POST");
    builder.method(b"GET");
    let matcher = builder.compile();

    let m = matcher.match_req(&mut request);
    assert!(m.is_ok());

    let m = m.unwrap();
    assert_eq!(m.label, Some(b("user")));
    assert_eq!(m.route_param(b"id"), Some(b("mike")));
    assert_eq!(m.route_param(b"whatever"), None);
    assert_eq!(m.query_param(b"foo"), Some(b("bar")));
    assert_eq!(m.query_param(b"whatever"), None);
    assert_eq!(m.path(), b("/user/mike"));
}

#[test]
fn match_without_a_body() {
    let mut builder = Builder::new();
    builder.add(b"/user/:id");
    builder.label(b"user");
    builder.method(b"POST");
    builder.method(b"GET");
    let matcher = builder.compile();

    let mut get = request("GET", "/user/mike", Some("foo=bar"), &[]);
    let m = matcher.match_req(&mut get).unwrap();
    assert_eq!(m.idx, 0);
    assert_eq!(m.label, Some(b("user")));
    assert_eq!(m.route_param(b"id"), Some(b("mike")));
    assert_eq!(m.route_param(b"whatever"), None);
    assert_eq!(m.query_param(b"foo"), Some(b("bar")));
    assert_eq!(m.query_param(b"whatever"), None);
    assert_eq!(m.path(), b("/user/mike"));
    assert_eq!(m.body_params, None);
    let again = matcher.match_req(&mut get).unwrap();
    assert_eq!(again, m);
    let resp = matcher.match_req_resp(&mut get).unwrap();
    assert_eq!(resp, m);

    let mut bare = request("POST", "/user/mike", Some("foo=bar"), &[]);
    assert_eq!(matcher.match_req(&mut bare), Err(411));
    assert_eq!(bare.state, None);
    let mut typeless = request("POST", "/user/mike", Some("foo=bar"), &[LENGTH]);
    assert_eq!(matcher.match_req(&mut typeless), Err(415));
    let refused = matcher.match_req_resp(&mut typeless).unwrap_err();
    assert_eq!((refused.status, refused.close), (415, true));
    let mut elsewhere = request("GET", "/group/mike", None, &[]);
    assert_eq!(matcher.match_req(&mut elsewhere), Err(404));
    let mut put = request("PUT", "/user/mike", None, &[]);
    assert_eq!(matcher.match_req(&mut put), Err(405));
}

#[test]
fn route_patterns_become_expressions() {
    assert_eq!(build_matcher_re(b"/user/:id"), Some(b("^/user/(?P<id>[^/]+)$")));
    assert_eq!(build_matcher_re(b"/files/*rest"), Some(b("^/files/(?P<rest>.*)$")));
    assert_eq!(build_matcher_re(b"/a(/b)"), Some(b("^/a(/b)?$")));
    assert_eq!(build_matcher_re(b"/plain.txt"), Some(b("^/plain\\.txt$")));
    assert_eq!(build_matcher_re(b"/x/:my_id-2"), Some(b("^/x/(?P<my_id>[^/]+)\\-2$")));
    assert_eq!(build_matcher_re(b""), Some(b("^$")));
    assert_eq!(build_matcher_re(&[b'/', 0xff]), None);
}

#[test]
fn first_route_for_path_and_method_wins() {
    let m = matcher();
    let idx = |method: &str, path: &str| m.choose_route(path.as_bytes(), method.as_bytes());
    assert_eq!(idx("GET", "/user/mike"), Ok(0));
    assert_eq!(idx("PUT", "/user/mike"), Err(405));
    assert_eq!(idx("PUT", "/files/a/b/c"), Ok(1));
    assert_eq!(idx("GET", "/files/"), Ok(1));
    assert_eq!(idx("GET", "/default/map/passwd"), Ok(2));
    assert_eq!(idx("GET", "/default/map/passwd/"), Ok(2));
    assert_eq!(idx("POST", "/default/map/passwd"), Err(405));
    assert_eq!(idx("GET", "/plain.txt"), Ok(3));
    assert_eq!(idx("GET", "/plainxtxt"), Err(404));
    assert_eq!(idx("GET", "/user/mike/more"), Err(404));
    assert_eq!(idx("GET", "/"), Err(404));
}

#[test]
fn requests_are_checked_before_they_are_matched() {
    let m = matcher();
    let run = |mut r: Request| m.preflight(&mut r).map(|_| r.state.unwrap().route_index);
    assert_eq!(run(request("GET", "/user/mi%6be", None, &[])), Ok(0));
    assert_eq!(run(request("GET", "/user/%ff", None, &[])), Err(400));
    assert_eq!(run(request("GET", "/files/a%2Fb", None, &[])), Err(400));
    assert_eq!(run(request("POST", "/user/mike", None, &[])), Err(411));
    assert_eq!(run(request("POST", "/user/mike", None, &[LENGTH])), Err(415));
    assert_eq!(run(request("POST", "/user/mike", None, &[LENGTH, ("content-type", "text/plain")])), Err(415));
    assert_eq!(run(request("POST", "/user/mike", None, &[("Transfer-Encoding", "chunked"), FORM])), Ok(0));
    assert_eq!(
        run(request("POST", "/user/mike", None, &[LENGTH, ("content-type", "application/json")])),
        Ok(0)
    );
    assert_eq!(run(request("DELETE", "/user/mike", None, &[])), Err(405));
    assert_eq!(run(request("GET", "/nothing/here/at/all", None, &[])), Err(404));
    let mut slashes = matcher();
    slashes.encoded_slashes_ok = true;
    let mut r = request("GET", "/files/a%2Fb", None, &[]);
    assert_eq!(slashes.preflight(&mut r), Ok(()));
    assert_eq!(r.state.as_ref().unwrap().decoded_path, b("/files/a/b"));
    assert_eq!(slashes.preflight(&mut r), Ok(()));
}

#[test]
fn refusals_carry_the_reason() {
    let m = matcher();
    let mut r = request("POST", "/user/mike", None, &[]);
    let resp = m.preflight_resp(&mut r).unwrap_err();
    assert_eq!((resp.status, resp.close, resp.body), (411, true, b("Length Required")));
    let mut r = request("GET", "/nothing", None, &[]);
    let resp = m.match_req_resp(&mut r).unwrap_err();
    assert_eq!((resp.status, resp.close, resp.body), (404, false, b("Not Found")));
    let mut r = request("PUT", "/user/mike", None, &[]);
    let resp = m.preflight_resp(&mut r).unwrap_err();
    assert_eq!((resp.status, resp.close, resp.body), (405, true, b("Method Not Allowed")));
    let mut r = request("GET", "/%ff", None, &[LENGTH]);
    let resp = m.match_req_resp(&mut r).unwrap_err();
    assert_eq!((resp.status, resp.close, resp.body), (400, true, b("Bad Request")));
    let mut r = request("GET", "/default/map/passwd", Some("username=truus"), &[]);
    let hit = m.match_req_resp(&mut r).unwrap();
    assert_eq!(hit.idx, 2);
    assert_eq!(hit.label(), None);
    assert_eq!(hit.route_param(b"domain"), Some(b("default")));
    assert_eq!(hit.route_param(b"map"), Some(b("passwd")));
    assert_eq!(hit.query_param(b"username"), Some(b("truus")));
    assert_eq!(hit.body_param(b"username"), None);
}

#[test]
fn queries_are_decoded() {
    let pairs = |q: &str| {
        let (offsets, buffer) = decode_query_get_offsets(Some(q.as_bytes()));
        map_query_params(&buffer.unwrap(), &offsets.unwrap())
    };
    assert_eq!(pairs("foo=bar"), vec![(b("foo"), b("bar"))]);
    assert_eq!(
        pairs("a=1&b=%32&&c&d=&a=3&=e&x=y=z&k%3Dk=v"),
        vec![
            (b("a"), b("3")),
            (b("b"), b("2")),
            (b("c"), b("")),
            (b("d"), b("")),
            (b("=e"), b("")),
            (b("x=y"), b("z")),
            (b("k=k"), b("v")),
        ]
    );
    assert_eq!(pairs("a=%ff&b=%c3%a9"), vec![(b("b"), "\u{e9}".as_bytes().to_vec())]);
    assert_eq!(pairs(""), Vec::<(Vec<u8>, Vec<u8>)>::new());
    assert_eq!(decode_query_get_offsets(None), (None, None));
    let (offsets, buffer) = decode_query_get_offsets(Some(&b"uid=1042&cred_uid=0"[..]));
    assert_eq!(offsets, Some(vec![(0, 3, 8), (9, 17, 19)]));
    assert_eq!(&buffer.unwrap()[0..19], b"uid=1042&cred_uid=0");
}

#[test]
fn bodies_are_decoded() {
    let m = matcher();
    let mut r = request("POST", "/user/mike", None, &[LENGTH, FORM]);
    m.preflight(&mut r).unwrap();
    assert_eq!(m.parse_body(&mut r, b"username=al%20ice&password=a%26b=c&flag", None), Ok(()));
    let hit = m.match_req(&mut r).unwrap();
    assert_eq!(hit.body_param(b"username"), Some(b("al ice")));
    assert_eq!(hit.body_param(b"password"), Some(b("a")));
    assert_eq!(hit.body_param(b"b"), Some(b("c")));
    assert_eq!(hit.body_param(b"flag"), Some(b("")));
    assert_eq!(hit.body_param(b"nothing"), None);
    assert_eq!(hit.body_param_bytes(b"username"), Some(b("al ice")));
    let mut r = request("POST", "/user/mike", None, &[LENGTH, FORM]);
    m.preflight(&mut r).unwrap();
    assert_eq!(m.parse_body(&mut r, b"bin=%ff", None), Ok(()));
    let hit = m.match_req(&mut r).unwrap();
    assert_eq!(hit.body_param(b"bin"), None);
    assert_eq!(hit.body_param_bytes(b"bin"), Some(vec![0xff]));
    let mut r = request("POST", "/user/mike", None, &[LENGTH, ("content-type", "application/json")]);
    m.preflight(&mut r).unwrap();
    let j = Json::Object(vec![(b("username"), Json::Text(b("alice")))]);
    assert_eq!(m.parse_body(&mut r, b"{}", Some(&j)), Ok(()));
    assert_eq!(m.match_req(&mut r).unwrap().body_param(b"username"), Some(b("alice")));
    let bad = Json::Object(vec![(b("n"), Json::Int(1))]);
    assert_eq!(m.parse_body(&mut r, b"{}", Some(&bad)), Err(()));
    assert_eq!(m.parse_body(&mut r, b"{", None), Err(()));
    let mut r = request("GET", "/user/mike", None, &[("content-type", "text/plain")]);
    m.preflight(&mut r).unwrap();
    assert_eq!(m.parse_body(&mut r, b"a=b", None), Err(()));
}

#[test]
fn small_helpers() {
    assert!(contains_sub(b"application/json; charset=utf-8", b"application/json"));
    assert!(contains_sub(b"json", b"json"));
    assert!(contains_sub(b"json", b""));
    assert!(!contains_sub(b"jso", b"json"));
    assert!(!contains_sub(b"application/jso", b"json"));
    assert!(has_body(&request("GET", "/", None, &[("Content-Length", "0")])));
    assert!(!has_body(&request("GET", "/", None, &[("content-type", "x")])));
}
