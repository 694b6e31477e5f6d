use std::cell::Cell;

use dualhost::headers::Headers;
use dualhost::json::JsonValue;
use dualhost::request::{normalize_request, FullRequest};
use dualhost::response::{body_as_bytes, render_response, ApiResponse, ApiResponseType};
use dualhost::routes::dispatch;
use dualhost::server::ServerBuilder;

fn get_request(path: &str) -> FullRequest {
    normalize_request(
        "GET".to_owned(),
        path.to_owned(),
        path.to_owned(),
        None,
        "HTTP/1.1".to_owned(),
        Headers::new(),
        None,
    )
}

fn post_request(path: &str, body: &[u8]) -> FullRequest {
    normalize_request(
        "POST".to_owned(),
        path.to_owned(),
        path.to_owned(),
        None,
        "HTTP/1.1".to_owned(),
        Headers::new(),
        Some(body.to_vec()),
    )
}

fn ok_handler(_req: FullRequest) -> ApiResponse {
    let body = JsonValue::Obj(vec![("ok".to_owned(), JsonValue::Bool(true))]);
    ApiResponse { status_code: 200, resp: ApiResponseType::Json(body), headers: Headers::new() }
}

fn html_handler(_req: FullRequest) -> ApiResponse {
    let mut resp = ApiResponse { status_code: 200, ..Default::default() };
    resp.header("content-type", "text/html");
    resp.body("<html></html>".to_owned());
    resp
}

#[test]
fn get_root_yields_structured_ok_body() {
    let routes = ServerBuilder::default().get("/", 1).route_map;
    let resp = dispatch(&routes, get_request("/"), |_id, req| ok_handler(req));
    assert_eq!(resp.status_code, 200);
    let rendered = render_response(resp);
    assert_eq!(rendered.status, 200);
    let parsed: serde_json::Value = serde_json::from_slice(&rendered.body).expect("client parse");
    let mut map = serde_json::Map::new();
    map.insert("ok".to_owned(), serde_json::Value::Bool(true));
    assert_eq!(parsed, serde_json::Value::Object(map));
}

#[test]
fn get_root_yields_html_text_body() {
    let routes = ServerBuilder::default().get("/", 1).route_map;
    let resp = dispatch(&routes, get_request("/"), |_id, req| html_handler(req));
    let rendered = render_response(resp);
    assert_eq!(rendered.status, 200);
    assert!(rendered
        .headers
        .iter()
        .any(|(k, v)| k == "content-type" && v == "text/html"));
    assert_eq!(rendered.body, "<html></html>".as_bytes().to_vec());
}

#[test]
fn post_when_only_get_registered_misses() {
    let routes = ServerBuilder::default().get("/", 1).route_map;
    let invoked = Cell::new(false);
    let resp = dispatch(&routes, post_request("/", b"{}"), |_id, req| {
        invoked.set(true);
        ok_handler(req)
    });
    assert!(!invoked.get());
    assert!(resp.status_code < 200 || resp.status_code >= 300);
}

#[test]
fn raw_bytes_body_renders_verbatim() {
    let payload: Vec<u8> = vec![0, 159, 146, 150, 255, 10, 13, 34];
    let rendered = body_as_bytes(ApiResponseType::Bytes(payload.clone()));
    assert_eq!(rendered, payload);
}

#[test]
fn handler_sees_the_decoded_request_body() {
    let routes = ServerBuilder::default().post("/echo", 9).route_map;
    let resp = dispatch(&routes, post_request("/echo", b"{\"n\":5}"), |_id, req| {
        ApiResponse { status_code: 200, resp: ApiResponseType::Json(req.body), headers: Headers::new() }
    });
    let rendered = render_response(resp);
    assert_eq!(rendered.body, b"{\"n\":5}".to_vec());
}

#[test]
fn request_fields_carry_over() {
    let mut headers = Headers::new();
    headers.insert("host".to_owned(), "localhost".to_owned());
    let req = normalize_request(
        "GET".to_owned(),
        "/x?q=1".to_owned(),
        "/x".to_owned(),
        Some("q=1".to_owned()),
        "HTTP/1.1".to_owned(),
        headers,
        Some(b"not json".to_vec()),
    );
    assert_eq!(req.method, "GET");
    assert_eq!(req.uri, "/x?q=1");
    assert_eq!(req.path, "/x");
    assert_eq!(req.query, Some("q=1".to_owned()));
    assert_eq!(req.headers.get(&"host".to_owned()), Some("localhost".to_owned()));
    match req.body {
        JsonValue::Str(s) => assert_eq!(s, "not json"),
        _ => panic!("expected text fallback"),
    }
}
