use reqpipe::claims::{Claims, User};
use reqpipe::http::{bearer_token, Request};
use reqpipe::interceptor::{blacklist_ip, run_after, run_before, AfterHook, Interceptor};
use reqpipe::jwt::JwtAuth;
use reqpipe::logger::Logger;
use reqpipe::pipeline::{run, Handler, Middleware, Pipeline};
use reqpipe::res::Res;
use reqpipe::time::{Date, Timestamp};
use reqpipe::token::TokenCodec;

fn ts(unix_millis: u64, day: u8, hour: u8) -> Timestamp {
    Timestamp {
        unix_millis,
        date: Date { year: 2024, month: 1, day },
        hour,
        minute: 4,
        second: 5,
    }
}

fn request(method: &str, path: &str, peer: Option<&str>, auth: Option<&str>) -> Request {
    let mut headers: Vec<(String, String)> = Vec::new();
    if let Some(v) = auth {
        headers.push((String::from("authorization"), String::from(v)));
    }
    Request {
        method: String::from(method),
        path: String::from(path),
        headers,
        peer: peer.map(String::from),
        claims: None,
        body: String::new(),
    }
}

fn demo_pipeline(secret: &str) -> Pipeline {
    let logger = Logger::new("logs/access/%Y-%m-%d.log", false, false);
    let deny = blacklist_ip(vec![String::from("127.0.0.1")]);
    let auth = JwtAuth::new(vec![String::from("/login")], TokenCodec::new(secret, 3600));
    Pipeline::new(vec![
        Middleware::AccessLog(logger),
        Middleware::Intercept(deny),
        Middleware::Auth(auth.layer()),
    ])
}

fn demo_handler() -> Handler {
    Handler {
        routes: vec![
            (String::from("/login"), 200, String::from("welcome")),
            (String::from("/index"), 200, String::from("hello")),
        ],
        ready: true,
    }
}

#[test]
fn res_constructors_fix_codes() {
    let r = Res::<u64>::new(418, "teapot");
    assert_eq!(r.code, 418);
    assert_eq!(r.msg, "teapot");
    assert!(r.data.is_none());

    let r = Res::new_data(200, "ok", 5u64);
    assert_eq!(r.code, 200);
    assert_eq!(r.data, Some(5));

    assert_eq!(Res::<u64>::created("made").code, 201);
    assert_eq!(Res::ok(1u64).code, 200);
    assert_eq!(Res::ok(1u64).msg, "ok");
    assert_eq!(Res::<u64>::error("bad").code, 400);
    assert_eq!(Res::<u64>::privilege().code, 401);
    assert_eq!(Res::<u64>::internal_error("boom").code, 500);
}

#[test]
fn res_default_messages() {
    let r = Res::<u64>::auth("");
    assert_eq!(r.code, 401);
    assert_eq!(r.msg, "authentication failed");
    assert_eq!(Res::<u64>::auth("why").msg, "why");

    let r = Res::<u64>::reject("");
    assert_eq!(r.code, 403);
    assert_eq!(r.msg, "access denied");

    let r = Res::<u64>::validate_failed("");
    assert_eq!(r.code, 422);
    assert_eq!(r.msg, "validation failed");
    assert_eq!(Res::<u64>::validate_failed_data(7u64).data, Some(7));
}

#[test]
fn res_response_carries_code_and_message() {
    let resp = Res::<u64>::auth("nope").response();
    assert_eq!(resp.status, 401);
    assert_eq!(resp.body, "nope");
}

#[test]
fn bearer_extraction() {
    let req = request("GET", "/", None, Some("Bearer abc.def.ghi"));
    assert_eq!(bearer_token(&req.headers), Some(String::from("abc.def.ghi")));

    let req = request("GET", "/", None, None);
    assert_eq!(bearer_token(&req.headers), None);

    let req = request("GET", "/", None, Some("Basic xyz"));
    assert_eq!(bearer_token(&req.headers), None);
}

#[test]
fn denylist_rejects_listed_peer() {
    let deny = blacklist_ip(vec![String::from("127.0.0.1")]);
    let req = request("GET", "/index", Some("127.0.0.1"), None);
    let resp = run_before(&deny, &req).unwrap();
    assert_eq!(resp.status, 403);
    assert_eq!(resp.body, "access denied");

    let req = request("GET", "/index", Some("10.0.0.1"), None);
    assert!(run_before(&deny, &req).is_none());

    let req = request("GET", "/index", None, None);
    assert!(run_before(&deny, &req).is_none());
}

#[test]
fn after_hook_adds_header_keeps_status() {
    let i = Interceptor::new(
        None,
        Some(AfterHook::AddHeader(String::from("x-served-by"), String::from("edge"))),
    );
    let mut resp = Res::<u64>::ok(1).response();
    run_after(&i, &mut resp);
    assert_eq!(resp.status, 200);
    assert_eq!(resp.headers, vec![(String::from("x-served-by"), String::from("edge"))]);
}

#[test]
fn exempt_path_passes_without_token() {
    // P7: a request to the exempt path with no token reaches the handler
    // and succeeds, and exactly one access record is emitted for it.
    let p = demo_pipeline("s3cr3t");
    let h = demo_handler();
    let req = request("POST", "/login", Some("10.1.2.3"), None);
    let o = run(&p, &h, req, ts(1_700_000_000_000, 2, 3), ts(1_700_000_000_250, 2, 3));
    assert_eq!(o.response.status, 200);
    assert_eq!(o.response.body, "welcome");
    assert_eq!(o.handler_calls, 1);
    assert_eq!(o.records.len(), 1);
    assert_eq!(o.records[0].path, "/login");
    assert_eq!(o.records[0].status, 200);
    assert_eq!(o.records[0].ip, "10.1.2.3");
}

#[test]
fn missing_token_short_circuits_with_record() {
    // P8: without a token a protected path yields 401, the handler never
    // runs, and the access logger still records the short-circuited
    // response because it wraps the authentication layer.
    let p = demo_pipeline("s3cr3t");
    let h = demo_handler();
    let req = request("GET", "/index", Some("10.1.2.3"), None);
    let o = run(&p, &h, req, ts(1_700_000_000_000, 2, 3), ts(1_700_000_000_001, 2, 3));
    assert_eq!(o.response.status, 401);
    assert_eq!(o.response.body, "request missing token");
    assert_eq!(o.handler_calls, 0);
    assert_eq!(o.records.len(), 1);
    assert_eq!(o.records[0].status, 401);
    assert_eq!(o.records[0].path, "/index");
}

#[test]
fn valid_token_reaches_handler_with_claims() {
    let secret = "s3cr3t";
    let p = demo_pipeline(secret);
    let h = demo_handler();
    let codec = TokenCodec::new(secret, 3600);
    let token =
        codec.encode(&Claims::new(User { uid: 8, name: String::from("carol") }, 2_000_000_000));
    let req = request(
        "GET",
        "/index",
        Some("10.1.2.3"),
        Some(&format!("Bearer {token}")),
    );
    let o = run(&p, &h, req, ts(1_700_000_000_000, 2, 3), ts(1_700_000_000_001, 2, 3));
    assert_eq!(o.response.status, 200);
    assert_eq!(o.response.body, "hello");
    assert_eq!(o.handler_calls, 1);
}

#[test]
fn denylisted_peer_never_reaches_inner_layers() {
    // P5: the rejected request produces no handler invocation; the outer
    // access logger still observes the 403.
    let p = demo_pipeline("s3cr3t");
    let h = demo_handler();
    let req = request("GET", "/login", Some("127.0.0.1"), None);
    let o = run(&p, &h, req, ts(1_700_000_000_000, 2, 3), ts(1_700_000_000_001, 2, 3));
    assert_eq!(o.response.status, 403);
    assert_eq!(o.handler_calls, 0);
    assert_eq!(o.records.len(), 1);
    assert_eq!(o.records[0].status, 403);
}

#[test]
fn denylist_alone_emits_nothing() {
    let deny = blacklist_ip(vec![String::from("127.0.0.1")]);
    let p = Pipeline::new(vec![Middleware::Intercept(deny)]);
    let h = demo_handler();
    let req = request("GET", "/login", Some("127.0.0.1"), None);
    let o = run(&p, &h, req, ts(0, 1, 0), ts(1, 1, 0));
    assert_eq!(o.response.status, 403);
    assert_eq!(o.handler_calls, 0);
    assert_eq!(o.records.len(), 0);
}

#[test]
fn unrouted_path_is_404() {
    let p = Pipeline::new(vec![]);
    let h = demo_handler();
    let req = request("GET", "/nowhere", None, None);
    let o = run(&p, &h, req, ts(0, 1, 0), ts(1, 1, 0));
    assert_eq!(o.response.status, 404);
    assert_eq!(o.response.body, "not found");
}

#[test]
fn readiness_follows_handler() {
    let p = demo_pipeline("s");
    let mut h = demo_handler();
    assert!(p.ready(&h));
    h.ready = false;
    assert!(!p.ready(&h));
}
