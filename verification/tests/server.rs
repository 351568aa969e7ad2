use std::sync::Arc;

use dashmap::DashMap;
use dino::config::{HttpMethod, ProjectRoute, ProjectRoutes};
use dino::engine::{Req, Res};
use dino::error::AppError;
use dino::router::{AppRouter, AppRouterInner, Params, RouteMatch, SwappableAppRouter};
use dino::server::{
    assemble_req, dispatch, get_router_by_host, route_request, strip_port, AppState, Header,
    Incoming, TenentRouter,
};

fn routes(list: &[(&str, &[(HttpMethod, &str)])]) -> ProjectRoutes {
    list.iter()
        .map(|(path, entries)| {
            (
                path.to_string(),
                entries
                    .iter()
                    .map(|(m, h)| ProjectRoute {
                        method: *m,
                        handler: h.to_string(),
                    })
                    .collect(),
            )
        })
        .collect()
}

const HELLO: &str = "(function(){async function hello(req){return {status:200,body:JSON.stringify(req.params)};}return{hello:hello};})();";

fn localhost() -> AppState {
    let router = SwappableAppRouter::try_new(
        HELLO,
        routes(&[("/api/hello/{id}", &[(HttpMethod::Get, "hello")])]),
    )
    .unwrap();
    AppState::from_tenants(&vec![TenentRouter::new("localhost", router)])
}

fn incoming(method: &str, path: &str) -> Incoming {
    Incoming {
        method: method.to_string(),
        path: path.to_string(),
        url: format!("http://localhost{}", path),
        query: Vec::new(),
        headers: vec![("host".to_string(), Some("localhost".to_string()))],
        body: None,
    }
}

#[test]
fn strip_port_cuts_at_the_first_colon() {
    assert_eq!(strip_port("localhost:3000"), "localhost");
    assert_eq!(strip_port("localhost"), "localhost");
    assert_eq!(strip_port("a:b:c"), "a");
    assert_eq!(strip_port(":80"), "");
    assert_eq!(strip_port(""), "");
}

#[test]
fn simple_get_match() {
    let state = localhost();
    let call = dispatch(&state, "localhost", incoming("GET", "/api/hello/42")).unwrap();
    assert_eq!(call.handler, "hello");
    assert_eq!(call.code, HELLO);
    assert_eq!(call.req.method, "GET");
    assert_eq!(call.req.url, "http://localhost/api/hello/42");
    assert_eq!(call.req.params.get("id"), Some("42"));
    assert_eq!(call.req.params.len(), 1);
    assert_eq!(call.req.headers.get("host"), Some("localhost"));
    assert_eq!(call.req.body, None);
}

#[test]
fn method_mismatch_is_405() {
    let state = localhost();
    let err = dispatch(&state, "localhost:8888", incoming("POST", "/api/hello/42")).unwrap_err();
    assert_eq!(err, AppError::RouteMethodNotAllowed("POST".to_string()));
    assert_eq!(err.status_code(), 405);
    assert_eq!(Res::from_error(&err).status, 405);
}

#[test]
fn unknown_method_is_405() {
    let state = localhost();
    let err = dispatch(&state, "localhost", incoming("BREW", "/api/hello/42")).unwrap_err();
    assert_eq!(err.status_code(), 405);
}

#[test]
fn host_mismatch_is_404_with_body() {
    let state = localhost();
    let err = dispatch(&state, "other.example", incoming("GET", "/api/hello/42")).unwrap_err();
    assert_eq!(err, AppError::HostNotFound("other.example".to_string()));
    let res = Res::from_error(&err);
    assert_eq!(res.status, 404);
    assert_eq!(res.body_text(), "host not found");
    assert_eq!(res.headers.len(), 0);
}

#[test]
fn unknown_path_is_404() {
    let state = localhost();
    let err = dispatch(&state, "localhost", incoming("GET", "/nothing")).unwrap_err();
    assert_eq!(err, AppError::RoutePathNotFound("/nothing".to_string()));
    assert_eq!(err.status_code(), 404);
}

#[test]
fn hot_swap_serves_the_new_route() {
    let router = SwappableAppRouter::try_new(
        "one",
        routes(&[("/a", &[(HttpMethod::Get, "h1")])]),
    )
    .unwrap();
    let state = AppState::from_tenants(&vec![TenentRouter::new("localhost", router.clone())]);
    assert!(dispatch(&state, "localhost", incoming("POST", "/b")).is_err());
    router
        .swap(
            "two",
            routes(&[
                ("/a", &[(HttpMethod::Get, "h1")]),
                ("/b", &[(HttpMethod::Post, "h2")]),
            ]),
        )
        .unwrap();
    let call = dispatch(&state, "localhost", incoming("POST", "/b")).unwrap();
    assert_eq!(call.handler, "h2");
    assert_eq!(call.code, "two");
}

#[test]
fn later_tenant_serves_a_host_named_twice() {
    let first = SwappableAppRouter::try_new("first", Vec::new()).unwrap();
    let second = SwappableAppRouter::try_new("second", Vec::new()).unwrap();
    let state = AppState::from_tenants(&vec![
        TenentRouter::new("h", first),
        TenentRouter::new("h", second),
    ]);
    assert_eq!(get_router_by_host("h:1", &state).unwrap().code(), "second");
    assert!(get_router_by_host("g", &state).is_err());
}

#[test]
fn app_state_from_a_registry() {
    let map = DashMap::new();
    map.insert(
        "t".to_string(),
        SwappableAppRouter::try_new("c", Vec::new()).unwrap(),
    );
    let state = AppState::new(map);
    assert_eq!(get_router_by_host("t", &state).unwrap().code(), "c");
    assert_eq!(
        get_router_by_host("u:1", &state).err(),
        Some(AppError::HostNotFound("u".to_string()))
    );
}

fn matched(pairs: &[(&str, &str)]) -> RouteMatch<'static> {
    RouteMatch {
        value: "h",
        params: Params::new(
            pairs
                .iter()
                .map(|(k, v)| (k.to_string(), v.to_string()))
                .collect(),
        ),
    }
}

#[test]
fn assemble_req_builds_maps_where_the_last_pair_counts() {
    let query = vec![
        ("q".to_string(), "1".to_string()),
        ("q".to_string(), "2".to_string()),
        ("r".to_string(), "3".to_string()),
    ];
    let headers: Vec<Header> = vec![
        ("accept".to_string(), Some("a".to_string())),
        ("accept".to_string(), Some("b".to_string())),
    ];
    let req = assemble_req(
        &matched(&[("id", "7")]),
        "GET",
        "http://h/x?q=1&q=2&r=3",
        &query,
        &headers,
        Some("hello".as_bytes().to_vec()),
    )
    .unwrap();
    assert_eq!(req.query.get("q"), Some("2"));
    assert_eq!(req.query.get("r"), Some("3"));
    assert_eq!(req.query.len(), 2);
    assert_eq!(req.headers.get("accept"), Some("b"));
    assert_eq!(req.params.get("id"), Some("7"));
    assert_eq!(req.body, Some("hello".to_string()));
}

#[test]
fn assemble_req_drops_a_body_that_is_not_text() {
    let req = assemble_req(
        &matched(&[]),
        "POST",
        "http://h/",
        &Vec::new(),
        &Vec::new(),
        Some(vec![0xff, 0xfe, 0x00]),
    )
    .unwrap();
    assert_eq!(req.body, None);
    let req = assemble_req(
        &matched(&[]),
        "POST",
        "http://h/",
        &Vec::new(),
        &Vec::new(),
        Some("h\u{e9}".as_bytes().to_vec()),
    )
    .unwrap();
    assert_eq!(req.body, Some("h\u{e9}".to_string()));
    let req = assemble_req(&matched(&[]), "POST", "http://h/", &Vec::new(), &Vec::new(), None).unwrap();
    assert_eq!(req.body, None);
}

#[test]
fn assemble_req_refuses_a_header_that_is_not_text() {
    let headers: Vec<Header> = vec![
        ("a".to_string(), Some("1".to_string())),
        ("b".to_string(), None),
        ("c".to_string(), None),
    ];
    let r = assemble_req(&matched(&[]), "GET", "http://h/", &Vec::new(), &headers, None);
    assert_eq!(r, Err(AppError::BadRequest("b".to_string())));
    assert_eq!(r.unwrap_err().status_code(), 400);
}

#[test]
fn route_request_uses_one_snapshot() {
    let mut table = matchit::Router::new();
    table
        .insert(
            "/x/{a}/{b}",
            dino::router::MethodRoute {
                put: Some("p".to_string()),
                ..Default::default()
            },
        )
        .unwrap();
    let snapshot = AppRouter(Arc::new(AppRouterInner::new("code", table)));
    let call = route_request(&snapshot, incoming("PUT", "/x/1/2")).unwrap();
    assert_eq!(call.code, "code");
    assert_eq!(call.handler, "p");
    assert_eq!(call.req.params.get("a"), Some("1"));
    assert_eq!(call.req.params.get("b"), Some("2"));
    assert_eq!(call.req, {
        let mut r = Req::new("PUT", "http://localhost/x/1/2");
        r.params.insert("a".to_string(), "1".to_string());
        r.params.insert("b".to_string(), "2".to_string());
        r.headers.insert("host".to_string(), "localhost".to_string());
        r
    });
}
