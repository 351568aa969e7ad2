use std::sync::Arc;

use dino::config::{HttpMethod, ProjectConfig, ProjectRoute, ProjectRoutes};
use dino::error::AppError;
use dino::route_table::{route_captures, RouteRejection};
use dino::router::{
    count_open_braces, AppRouter, AppRouterInner, MethodRoute, Params, RouteFault, RouterError,
    SwappableAppRouter,
};
use matchit::Router;

fn failed(e: AppError) -> anyhow::Error {
    anyhow::Error::msg(e.body())
}

fn rejected(e: RouterError) -> anyhow::Error {
    anyhow::Error::msg(e.path)
}

fn load_config(yaml: &str) -> anyhow::Result<ProjectConfig> {
    let doc: serde_yaml::Value = serde_yaml::from_str(yaml)?;
    let name = doc["name"].as_str().unwrap_or_default().to_string();
    let mut routes = Vec::new();
    if let Some(map) = doc["routes"].as_mapping() {
        for (path, entries) in map {
            let mut raw = Vec::new();
            for entry in entries.as_sequence().into_iter().flatten() {
                raw.push((
                    entry["method"].as_str().unwrap_or_default().to_string(),
                    entry["handler"].as_str().unwrap_or_default().to_string(),
                ));
            }
            routes.push((path.as_str().unwrap_or_default().to_string(), raw));
        }
    }
    ProjectConfig::from_raw(name, &routes).map_err(|e| anyhow::Error::msg(e.method))
}

fn route(method: HttpMethod, handler: &str) -> ProjectRoute {
    ProjectRoute {
        method,
        handler: handler.to_string(),
    }
}

fn routes(list: &[(&str, &[(HttpMethod, &str)])]) -> ProjectRoutes {
    list.iter()
        .map(|(path, entries)| {
            (
                path.to_string(),
                entries.iter().map(|(m, h)| route(*m, h)).collect(),
            )
        })
        .collect()
}

fn app_router(list: &[(&str, &[(HttpMethod, &str)])]) -> AppRouter {
    let router = SwappableAppRouter::get_router(routes(list)).unwrap();
    AppRouter(Arc::new(AppRouterInner::new("", router)))
}

#[test]
fn test_base() -> anyhow::Result<()> {
    let router = app_router(&[
        ("/aaa", &[(HttpMethod::Get, "aaa")]),
        ("/b{id}", &[(HttpMethod::Get, "bbb")]),
    ]);
    let res = router.match_it(HttpMethod::Get, "/baa").map_err(failed)?;
    assert_eq!(res.params.get("id"), Some("aa"));
    let res = router.match_it(HttpMethod::Get, "/aaa").map_err(failed)?;
    assert_eq!(res.value, "aaa");
    Ok(())
}

#[test]
fn test_method_route() -> anyhow::Result<()> {
    let mut router = Router::new();
    let method_route = MethodRoute {
        get: Some("get".to_string()),
        post: Some("post".to_string()),
        ..Default::default()
    };
    router.insert("/aaa", method_route.clone())?;
    router.insert("/bbb/{*id}", method_route.clone())?;
    let res = router.at("/aaa")?;
    assert_eq!(res.value, &method_route);

    Ok(())
}

#[test]
fn test_app_route() -> anyhow::Result<()> {
    let mut router = Router::new();
    let method_route = MethodRoute {
        get: Some("get".to_string()),
        ..Default::default()
    };
    router.insert("/bbb/{*id}", method_route)?;

    let inner = AppRouterInner::new("", router);
    let app_router = AppRouter(Arc::new(inner));
    let res = app_router
        .match_it(HttpMethod::Get, "/bbb/123")
        .map_err(failed)?;
    assert_eq!(res.value, "get");
    assert_eq!((res.params.get("id")), Some("123"));
    Ok(())
}

#[test]
fn app_router_swap_should_work() -> anyhow::Result<()> {
    let config: ProjectConfig = load_config(
        r#"
        name: dino-test
        routes:
          /api/hello/{id}:
            - method: GET
              handler: hello1
        "#,
    )?;

    let router = SwappableAppRouter::try_new("", config.routes).map_err(rejected)?;
    let app_router = router.load();
    let m = app_router
        .match_it(HttpMethod::Get, "/api/hello/123")
        .map_err(failed)?;
    assert_eq!(m.value, "hello1");

    let newconfig: ProjectConfig = load_config(
        r#"
        name: dino-test
        routes:
          /api/hello/{id}:
            - method: GET
              handler: hello1
          /api/goodbye/{id}:
            - method: POST
              handler: handler2
        "#,
    )?;
    router.swap("", newconfig.routes).map_err(rejected)?;
    let app_router = router.load();
    let m = app_router
        .match_it(HttpMethod::Get, "/api/hello/123")
        .map_err(failed)?;
    assert_eq!(m.value, "hello1");
    let m = app_router
        .match_it(HttpMethod::Post, "/api/goodbye/123")
        .map_err(failed)?;
    assert_eq!(m.value, "handler2");
    Ok(())
}

#[test]
fn deserialize_config_should_work() -> anyhow::Result<()> {
    let s = r#"---
name: dino-test
routes:
  /api/hello/id:
    - method: GET
      handler: hello1
    - method: POST
      handler: hello2
  /api/name/id:
    - method: GET
      handler: hello3
    - method: POST
      handler: hello4
"#;
    let config: ProjectConfig = load_config(s)?;
    assert_eq!(config.name, "dino-test");
    let hello = config
        .routes
        .iter()
        .find(|(path, _)| path == "/api/hello/id")
        .map(|(_, entries)| entries.clone());
    assert_eq!(
        hello,
        Some(vec![
            ProjectRoute {
                method: HttpMethod::Get,
                handler: "hello1".to_string()
            },
            ProjectRoute {
                method: HttpMethod::Post,
                handler: "hello2".to_string()
            }
        ])
    );
    Ok(())
}

#[test]
fn a_snapshot_outlives_a_swap() {
    let holder = SwappableAppRouter::try_new(
        "first",
        routes(&[("/a", &[(HttpMethod::Get, "h1")])]),
    )
    .unwrap();
    let before = holder.load();
    holder
        .swap(
            "second",
            routes(&[
                ("/a", &[(HttpMethod::Get, "h1")]),
                ("/b", &[(HttpMethod::Post, "h2")]),
            ]),
        )
        .unwrap();
    let after = holder.load();
    assert_eq!(before.code(), "first");
    assert!(before.match_it(HttpMethod::Post, "/b").is_err());
    assert_eq!(after.code(), "second");
    assert_eq!(after.match_it(HttpMethod::Post, "/b").unwrap().value, "h2");
    let again = holder.clone().load();
    assert_eq!(again.code(), "second");
}

#[test]
fn a_swap_that_fails_keeps_the_snapshot() {
    let holder = SwappableAppRouter::try_new(
        "first",
        routes(&[("/a", &[(HttpMethod::Get, "h1")])]),
    )
    .unwrap();
    let r = holder.swap(
        "second",
        routes(&[("/a/{x}", &[(HttpMethod::Get, "h")]), ("/a/{y}", &[(HttpMethod::Get, "h")])]),
    );
    assert!(r.is_err());
    assert_eq!(holder.load().code(), "first");
}

#[test]
fn match_it_tells_unknown_path_from_missing_method() {
    let router = app_router(&[("/api/hello/{id}", &[(HttpMethod::Get, "hello")])]);
    assert_eq!(
        router.match_it(HttpMethod::Get, "/api/other"),
        Err(AppError::RoutePathNotFound("/api/other".to_string()))
    );
    assert_eq!(
        router.match_it(HttpMethod::Post, "/api/hello/42"),
        Err(AppError::RouteMethodNotAllowed("POST".to_string()))
    );
    let found = router.match_it(HttpMethod::Get, "/api/hello/42").unwrap();
    assert_eq!(found.value, "hello");
    assert_eq!(found.params.get("id"), Some("42"));
    assert_eq!(found.params.get("other"), None);
    assert_eq!(found.params.len(), 1);
}

#[test]
fn match_request_knows_the_nine_methods_only() {
    let router = app_router(&[("/a", &[(HttpMethod::Get, "h")])]);
    assert_eq!(router.match_request("GET", "/a").unwrap().value, "h");
    assert_eq!(
        router.match_request("get", "/a"),
        Err(AppError::RouteMethodNotAllowed("get".to_string()))
    );
    assert_eq!(
        router.match_request("BREW", "/a"),
        Err(AppError::RouteMethodNotAllowed("BREW".to_string()))
    );
    assert_eq!(
        router.match_request("BREW", "/b"),
        Err(AppError::RoutePathNotFound("/b".to_string()))
    );
}

#[test]
fn params_carry_the_names_of_the_matched_pattern() {
    let patterns = [
        "/users/{id}",
        "/users/{id}/posts/{post}",
        "/files/{*rest}",
        "/img/{name}.png",
        "/static",
        "/{{literal}}/{x}",
        "/org/{org}/repo/{repo}/blob/{*path}",
    ];
    let paths = [
        "/users/7",
        "/users/7/posts/9",
        "/files/a/b/c.txt",
        "/img/cat.png",
        "/static",
        "/{literal}/v",
        "/org/o/repo/r/blob/src/main.rs",
    ];
    for (pattern, path) in patterns.iter().zip(paths.iter()) {
        let router = app_router(&[(pattern, &[(HttpMethod::Get, "h")])]);
        let found = router.match_it(HttpMethod::Get, path).unwrap();
        let keys: Vec<String> = found
            .params
            .pairs()
            .iter()
            .map(|(k, _)| k.clone())
            .collect();
        assert_eq!(keys, route_captures(pattern));
    }
}

#[test]
fn route_captures_reads_names() {
    assert_eq!(route_captures("/static"), Vec::<String>::new());
    assert_eq!(route_captures("/a/{id}"), vec!["id".to_string()]);
    assert_eq!(
        route_captures("/a/{id}/b/{*rest}"),
        vec!["id".to_string(), "rest".to_string()]
    );
    assert_eq!(route_captures("/{{a}}"), Vec::<String>::new());
    assert_eq!(route_captures("/{{{a}"), vec!["a".to_string()]);
    assert_eq!(route_captures("/{a{{b}"), vec!["a{b".to_string()]);
    assert_eq!(route_captures("/{a"), Vec::<String>::new());
}

#[test]
fn method_route_from_entries() {
    let entries = vec![route(HttpMethod::Get, "g"), route(HttpMethod::Put, "p")];
    let r = MethodRoute::from_entries(&entries).unwrap();
    assert_eq!(r.handler(HttpMethod::Get), Some("g"));
    assert_eq!(r.handler(HttpMethod::Put), Some("p"));
    assert_eq!(r.handler(HttpMethod::Post), None);
    assert_eq!(
        r,
        MethodRoute {
            get: Some("g".to_string()),
            put: Some("p".to_string()),
            ..Default::default()
        }
    );
    let twice = vec![
        route(HttpMethod::Get, "g"),
        route(HttpMethod::Put, "p"),
        route(HttpMethod::Get, "again"),
    ];
    assert_eq!(MethodRoute::from_entries(&twice), Err(2));
    assert_eq!(MethodRoute::from_entries(&Vec::new()), Ok(MethodRoute::default()));
}

#[test]
fn method_route_set_changes_one_slot() {
    let mut r = MethodRoute::default();
    for m in HttpMethod::all() {
        assert_eq!(r.handler(m), None);
    }
    r.set(HttpMethod::Trace, "t".to_string());
    for m in HttpMethod::all() {
        if m == HttpMethod::Trace {
            assert_eq!(r.handler(m), Some("t"));
        } else {
            assert_eq!(r.handler(m), None);
        }
    }
}

#[test]
fn get_router_reports_the_first_bad_route() {
    let dup = SwappableAppRouter::get_router(routes(&[
        ("/ok", &[(HttpMethod::Get, "h")]),
        ("/dup", &[(HttpMethod::Get, "a"), (HttpMethod::Get, "b")]),
    ]));
    assert_eq!(
        dup.err(),
        Some(RouterError {
            index: 1,
            path: "/dup".to_string(),
            fault: RouteFault::DuplicateMethod(HttpMethod::Get),
        })
    );
    let conflict = SwappableAppRouter::get_router(routes(&[
        ("/a/{x}", &[(HttpMethod::Get, "h")]),
        ("/a/{y}", &[(HttpMethod::Get, "h")]),
    ]));
    assert_eq!(
        conflict.err(),
        Some(RouterError {
            index: 1,
            path: "/a/{y}".to_string(),
            fault: RouteFault::Rejected(RouteRejection::Conflict("/a/{x}".to_string())),
        })
    );
    let invalid = SwappableAppRouter::get_router(routes(&[("/a/{x}{y}", &[(HttpMethod::Get, "h")])]));
    assert_eq!(
        invalid.err().map(|e| e.fault),
        Some(RouteFault::Rejected(RouteRejection::InvalidParamSegment))
    );
    let unnamed = SwappableAppRouter::get_router(routes(&[("/a/{}", &[(HttpMethod::Get, "h")])]));
    assert_eq!(
        unnamed.err().map(|e| e.fault),
        Some(RouteFault::Rejected(RouteRejection::InvalidParam))
    );
    let middle = SwappableAppRouter::get_router(routes(&[("/a/{*x}/b", &[(HttpMethod::Get, "h")])]));
    assert_eq!(
        middle.err().map(|e| e.fault),
        Some(RouteFault::Rejected(RouteRejection::InvalidCatchAll))
    );
}

#[test]
fn get_router_refuses_too_many_braces() {
    let mut long = String::new();
    for i in 0..26 {
        long.push_str(&format!("/{{p{}}}", i));
    }
    assert_eq!(count_open_braces(&long.chars().collect::<Vec<char>>()), 26);
    let r = SwappableAppRouter::get_router(routes(&[(long.as_str(), &[(HttpMethod::Get, "h")])]));
    assert_eq!(
        r.err(),
        Some(RouterError {
            index: 0,
            path: long.clone(),
            fault: RouteFault::TooManyParameters,
        })
    );
    let mut fits = String::new();
    for i in 0..25 {
        fits.push_str(&format!("/{{p{}}}", i));
    }
    assert!(SwappableAppRouter::get_router(routes(&[(fits.as_str(), &[(HttpMethod::Get, "h")])])).is_ok());
}

#[test]
fn get_router_counts_every_opening_brace() {
    let doubled = "/{ab}{{x}".repeat(13);
    assert_eq!(count_open_braces(&doubled.chars().collect::<Vec<char>>()), 39);
    let r = SwappableAppRouter::get_router(routes(&[(doubled.as_str(), &[(HttpMethod::Get, "h")])]));
    assert_eq!(r.err().map(|e| e.fault), Some(RouteFault::TooManyParameters));
    let once = SwappableAppRouter::get_router(routes(&[("/{ab}{{x}", &[(HttpMethod::Get, "h")])]));
    assert!(matches!(once.err().map(|e| e.fault), Some(RouteFault::Rejected(_))));
    let literal = "/{{x}}".repeat(12);
    let router = app_router(&[(literal.as_str(), &[(HttpMethod::Get, "h")])]);
    let path = "/{x}".repeat(12);
    assert_eq!(router.match_it(HttpMethod::Get, &path).unwrap().value, "h");
    let with_tail = format!("{}/{{*rest}}", "/{p}".repeat(25));
    let r = SwappableAppRouter::get_router(routes(&[(with_tail.as_str(), &[(HttpMethod::Get, "h")])]));
    assert_eq!(r.err().map(|e| e.fault), Some(RouteFault::TooManyParameters));
}

#[test]
fn two_builds_of_the_same_routes_end_alike() {
    let colliding: &[(&str, &[(HttpMethod, &str)])] = &[
        ("/a/{id}", &[(HttpMethod::Get, "h1")]),
        ("/a/{name}", &[(HttpMethod::Post, "h2")]),
    ];
    let built = SwappableAppRouter::get_router(routes(colliding)).err();
    let held = SwappableAppRouter::try_new("code", routes(colliding)).err();
    assert!(built.is_some());
    assert_eq!(built, held);
    let fine: &[(&str, &[(HttpMethod, &str)])] = &[("/a/{id}", &[(HttpMethod::Get, "h1")])];
    assert!(SwappableAppRouter::get_router(routes(fine)).is_ok());
    assert!(SwappableAppRouter::try_new("code", routes(fine)).is_ok());
}

#[test]
fn get_router_refuses_the_empty_pattern() {
    let r = SwappableAppRouter::get_router(routes(&[
        ("/a", &[(HttpMethod::Get, "h")]),
        ("", &[(HttpMethod::Get, "h")]),
    ]));
    assert_eq!(
        r.err(),
        Some(RouterError {
            index: 1,
            path: String::new(),
            fault: RouteFault::EmptyPattern,
        })
    );
    let r = SwappableAppRouter::get_router(routes(&[
        ("", &[(HttpMethod::Get, "first")]),
        ("/a", &[(HttpMethod::Get, "second")]),
    ]));
    assert_eq!(r.err().map(|e| (e.index, e.fault)), Some((0, RouteFault::EmptyPattern)));
}

#[test]
fn a_router_holds_its_routes_whatever_their_order() {
    let one = app_router(&[
        ("/a", &[(HttpMethod::Get, "a")]),
        ("/b", &[(HttpMethod::Get, "b")]),
        ("/b/x", &[(HttpMethod::Get, "x")]),
    ]);
    let other = app_router(&[
        ("/b", &[(HttpMethod::Get, "b")]),
        ("/a", &[(HttpMethod::Get, "a")]),
        ("/b/x", &[(HttpMethod::Get, "x")]),
    ]);
    for (path, handler) in [("/a", "a"), ("/b", "b"), ("/b/x", "x")] {
        assert_eq!(one.match_it(HttpMethod::Get, path).unwrap().value, handler);
        assert_eq!(other.match_it(HttpMethod::Get, path).unwrap().value, handler);
    }
}

#[test]
fn params_get_returns_the_first() {
    let p = Params::new(vec![
        ("a".to_string(), "1".to_string()),
        ("b".to_string(), "2".to_string()),
        ("a".to_string(), "3".to_string()),
    ]);
    assert_eq!(p.get("a"), Some("1"));
    assert_eq!(p.get("b"), Some("2"));
    assert_eq!(p.get("c"), None);
    assert_eq!(p.len(), 3);
}
