use dino::config::{parse_entries, to_ascii_upper, HttpMethod, InvalidMethod, ProjectConfig, ProjectRoute};

#[test]
fn method_parse_ignores_letter_case() {
    assert_eq!(HttpMethod::parse("GET"), Some(HttpMethod::Get));
    assert_eq!(HttpMethod::parse("get"), Some(HttpMethod::Get));
    assert_eq!(HttpMethod::parse("Post"), Some(HttpMethod::Post));
    assert_eq!(HttpMethod::parse("put"), Some(HttpMethod::Put));
    assert_eq!(HttpMethod::parse("DELETE"), Some(HttpMethod::Delete));
    assert_eq!(HttpMethod::parse("patch"), Some(HttpMethod::Patch));
    assert_eq!(HttpMethod::parse("HEAD"), Some(HttpMethod::Head));
    assert_eq!(HttpMethod::parse("options"), Some(HttpMethod::Options));
    assert_eq!(HttpMethod::parse("Connect"), Some(HttpMethod::Connect));
    assert_eq!(HttpMethod::parse("TRACE"), Some(HttpMethod::Trace));
}

#[test]
fn method_parse_refuses_what_is_none_of_the_nine() {
    assert_eq!(HttpMethod::parse(""), None);
    assert_eq!(HttpMethod::parse("GETS"), None);
    assert_eq!(HttpMethod::parse(" GET"), None);
    assert_eq!(HttpMethod::parse("BREW"), None);
    assert_eq!(HttpMethod::parse("opt\u{131}ons"), None);
}

#[test]
fn method_from_name_is_exact() {
    assert_eq!(HttpMethod::from_name("GET"), Some(HttpMethod::Get));
    assert_eq!(HttpMethod::from_name("get"), None);
    for m in HttpMethod::all() {
        assert_eq!(HttpMethod::from_name(m.as_str()), Some(m));
        assert_eq!(HttpMethod::parse(&m.as_str().to_lowercase()), Some(m));
    }
}

#[test]
fn ascii_upper_changes_ascii_letters_only() {
    assert_eq!(to_ascii_upper('a'), 'A');
    assert_eq!(to_ascii_upper('z'), 'Z');
    assert_eq!(to_ascii_upper('A'), 'A');
    assert_eq!(to_ascii_upper('1'), '1');
    assert_eq!(to_ascii_upper('{'), '{');
    assert_eq!(to_ascii_upper('\u{e9}'), '\u{e9}');
}

#[test]
fn config_from_raw_reads_methods() {
    let raw = vec![(
        "/a".to_string(),
        vec![
            ("get".to_string(), "h1".to_string()),
            ("POST".to_string(), "h2".to_string()),
        ],
    )];
    let config = ProjectConfig::from_raw("p".to_string(), &raw).unwrap();
    assert_eq!(config.name, "p");
    assert_eq!(
        config.routes,
        vec![(
            "/a".to_string(),
            vec![
                ProjectRoute {
                    method: HttpMethod::Get,
                    handler: "h1".to_string()
                },
                ProjectRoute {
                    method: HttpMethod::Post,
                    handler: "h2".to_string()
                },
            ]
        )]
    );
}

#[test]
fn config_from_raw_names_the_first_unknown_method() {
    let raw = vec![
        ("/a".to_string(), vec![("GET".to_string(), "h".to_string())]),
        (
            "/b".to_string(),
            vec![
                ("GET".to_string(), "h".to_string()),
                ("FETCH".to_string(), "h".to_string()),
                ("NOPE".to_string(), "h".to_string()),
            ],
        ),
        ("/c".to_string(), vec![("ZAP".to_string(), "h".to_string())]),
    ];
    assert_eq!(
        ProjectConfig::from_raw("p".to_string(), &raw),
        Err(InvalidMethod {
            path: "/b".to_string(),
            method: "FETCH".to_string()
        })
    );
    assert_eq!(parse_entries(&raw[1].1), Err(1));
    assert_eq!(parse_entries(&raw[0].1).map(|v| v.len()), Ok(1));
}
