use std::cell::Cell;

use dualhost::headers::Headers;
use dualhost::json::JsonValue;
use dualhost::request::{normalize_request, FullRequest};
use dualhost::response::{ApiResponse, ApiResponseType};
use dualhost::routes::{dispatch, lookup_route, not_found_response, RouteMap};
use dualhost::server::{create_box_dyn_fn, create_box_dyn_fn_convert, create_box_dyn_fn_from,
    ServerBuilder};

fn plain_request(method: &str, path: &str) -> FullRequest {
    normalize_request(
        method.to_owned(),
        path.to_owned(),
        path.to_owned(),
        None,
        "HTTP/1.1".to_owned(),
        Headers::new(),
        None,
    )
}

fn status_response(status: u16) -> ApiResponse {
    ApiResponse { status_code: status, ..Default::default() }
}

#[test]
fn registered_route_invokes_exactly_that_handler_once() {
    let builder = ServerBuilder::default()
        .get("/", 1)
        .get("/other", 2)
        .post("/", 3);
    let routes = builder.route_map;
    let calls = Cell::new(0u32);
    let seen = Cell::new(0u64);
    let resp = dispatch(&routes, plain_request("GET", "/other"), |id, _req| {
        calls.set(calls.get() + 1);
        seen.set(id);
        status_response(200 + id as u16)
    });
    assert_eq!(calls.get(), 1);
    assert_eq!(seen.get(), 2);
    assert_eq!(resp.status_code, 202);
}

#[test]
fn reregistration_replaces_prior_handler() {
    let builder = ServerBuilder::default().get("/", 1).get("/", 2);
    let routes = builder.route_map;
    assert_eq!(lookup_route(&routes, &"GET".to_owned(), &"/".to_owned()), Some(2));
    let resp = dispatch(&routes, plain_request("GET", "/"), |id, _req| {
        assert_eq!(id, 2);
        status_response(200)
    });
    assert_eq!(resp.status_code, 200);
}

#[test]
fn unregistered_route_never_invokes_and_is_non_2xx() {
    let builder = ServerBuilder::default().get("/", 1);
    let routes = builder.route_map;
    let invoked = Cell::new(false);
    let resp = dispatch(&routes, plain_request("GET", "/missing"), |_id, _req| {
        invoked.set(true);
        status_response(200)
    });
    assert!(!invoked.get());
    assert!(resp.status_code < 200 || resp.status_code >= 300);
    assert_eq!(resp.status_code, 404);
}

#[test]
fn unknown_method_is_a_route_miss() {
    let builder = ServerBuilder::default().get("/", 1).post("/", 2);
    let routes = builder.route_map;
    assert_eq!(lookup_route(&routes, &"PUT".to_owned(), &"/".to_owned()), None);
    let invoked = Cell::new(false);
    let resp = dispatch(&routes, plain_request("DELETE", "/"), |_id, _req| {
        invoked.set(true);
        status_response(200)
    });
    assert!(!invoked.get());
    assert_eq!(resp.status_code, 404);
}

#[test]
fn methods_have_independent_mappings() {
    let builder = ServerBuilder::default().get("/a", 1).post("/a", 2);
    let routes = builder.route_map;
    assert_eq!(lookup_route(&routes, &"GET".to_owned(), &"/a".to_owned()), Some(1));
    assert_eq!(lookup_route(&routes, &"POST".to_owned(), &"/a".to_owned()), Some(2));
}

#[test]
fn not_found_response_shape() {
    let resp = not_found_response();
    assert_eq!(resp.status_code, 404);
    assert!(matches!(resp.resp, ApiResponseType::Json(JsonValue::Null)));
}

#[test]
fn builder_defaults_and_configuration() {
    let b = ServerBuilder::default();
    assert_eq!(b.listen_port, 3000);
    assert_eq!(b.bind_ip, [0, 0, 0, 0]);
    let b = b.on_ip([127, 0, 0, 1]).on_port(8080);
    assert_eq!(b.bind_ip, [127, 0, 0, 1]);
    assert_eq!(b.listen_port, 8080);
}

#[test]
fn start_hands_configuration_to_the_entry_point() {
    let b = ServerBuilder::default().on_port(4000).get("/", 7);
    let out = b.start(|ip, port, routes: RouteMap| {
        assert_eq!(ip, [0, 0, 0, 0]);
        assert_eq!(port, 4000);
        lookup_route(&routes, &"GET".to_owned(), &"/".to_owned())
    });
    assert_eq!(out, Some(7));
}

#[test]
fn route_map_drain_order() {
    let b = ServerBuilder::default().get("/a", 1).get("/b", 2);
    let m = &b.route_map.get_map;
    assert_eq!(m.len(), 2);
    assert_eq!(m.entry_at(0), ("/a".to_owned(), 1));
    assert_eq!(m.entry_at(1), ("/b".to_owned(), 2));
}

#[test]
fn response_defaults_and_mutation() {
    let mut resp = ApiResponse::default();
    assert_eq!(resp.status_code, 500);
    assert!(matches!(resp.resp, ApiResponseType::Json(JsonValue::Null)));
    assert_eq!(resp.headers.len(), 0);
    resp.header("x-k", "one");
    resp.header("x-k", "two");
    assert_eq!(resp.headers.get(&"x-k".to_owned()), Some("two".to_owned()));
    assert_eq!(resp.headers.get(&"absent".to_owned()), None);
    resp.body("text".to_owned());
    assert!(matches!(resp.resp, ApiResponseType::Text(_)));
    resp.body(JsonValue::Bool(true));
    assert!(matches!(resp.resp, ApiResponseType::Json(JsonValue::Bool(true))));
    resp.body(vec![1u8, 2u8]);
    assert!(matches!(resp.resp, ApiResponseType::Bytes(_)));
}

#[test]
fn adapter_calls_convert_then_callback() {
    let doubled = create_box_dyn_fn(|x: i64| x * 2, 21);
    assert_eq!(doubled, 42);
    let shown = create_box_dyn_fn_from(|s: String| s.len(), "four");
    assert_eq!(shown, 4);
    let composed = create_box_dyn_fn_convert(|n: i64| n + 1, |s: String| s.len() as i64, "abc".to_owned());
    assert_eq!(composed, 4);
}
