use dino::cli::{
    project_dir, BuildOpts, CmdExecutor, InitOpts, Opts, RunOpts, SubCommand, Task, DEFAULT_PORT,
};
use dino::engine::{Req, Res};
use dino::error::AppError;
use dino::string_map::StringMap;
use dino::text::{
    append, chars_of, find_char, replace_all, starts_with, str_eq, string_of, take_chars,
};

#[test]
fn commands_know_their_task() {
    assert_eq!(InitOpts {}.execute(), Task::Scaffold);
    assert_eq!(BuildOpts {}.execute(), Task::Build);
    assert_eq!(RunOpts { port: 8080 }.execute(), Task::Serve { port: 8080 });
    assert_eq!(RunOpts::default().port, 3000);
    assert_eq!(DEFAULT_PORT, 3000);
    let opts = Opts {
        cmd: SubCommand::Run(RunOpts::default()),
    };
    assert_eq!(opts.cmd.execute(), Task::Serve { port: 3000 });
    assert_eq!(SubCommand::Init(InitOpts {}).execute(), Task::Scaffold);
    assert_eq!(SubCommand::Build(BuildOpts {}).execute(), Task::Build);
}

#[test]
fn a_project_is_laid_out_in_place_or_under_its_name() {
    assert_eq!(project_dir("demo", true), ".");
    assert_eq!(project_dir("demo", false), "./demo");
}

#[test]
fn errors_have_their_status_and_body() {
    let cases = [
        (AppError::HostNotFound("h".to_string()), 404, "host not found"),
        (AppError::RoutePathNotFound("/p".to_string()), 404, "path not found: /p"),
        (
            AppError::RouteMethodNotAllowed("POST".to_string()),
            405,
            "method not allowed: POST",
        ),
        (AppError::BadRequest("x".to_string()), 400, "bad request: x"),
        (AppError::Script("TypeError".to_string()), 500, "TypeError"),
    ];
    for (err, status, body) in cases {
        assert_eq!(err.status_code(), status);
        assert_eq!(err.body(), body);
        let res = Res::from_error(&err);
        assert_eq!(res.status, status);
        assert_eq!(res.body, Some(body.to_string()));
    }
}

#[test]
fn res_body_is_empty_when_absent() {
    let res = Res {
        status: 204,
        headers: StringMap::new(),
        body: None,
    };
    assert_eq!(res.body_text(), "");
    assert!(res.has_valid_status());
    let res = Res {
        status: 99,
        headers: StringMap::new(),
        body: Some("x".to_string()),
    };
    assert_eq!(res.body_text(), "x");
    assert!(!res.has_valid_status());
    assert!(!Res { status: 1000, headers: StringMap::new(), body: None }.has_valid_status());
    assert!(Res { status: 100, headers: StringMap::new(), body: None }.has_valid_status());
    assert!(Res { status: 999, headers: StringMap::new(), body: None }.has_valid_status());
}

#[test]
fn an_answer_is_sent_only_with_a_status_that_can_be() {
    let fine = Res {
        status: 201,
        headers: StringMap::new(),
        body: Some("made".to_string()),
    };
    assert_eq!(fine.clone().checked(), fine);
    let odd = Res {
        status: 42,
        headers: StringMap::new(),
        body: Some("x".to_string()),
    };
    assert_eq!(
        odd.checked(),
        Res {
            status: 500,
            headers: StringMap::new(),
            body: Some("InvalidStatus".to_string()),
        }
    );
}

#[test]
fn req_new_is_bare() {
    let req = Req::new("GET", "https://example.com");
    assert_eq!(req.method, "GET");
    assert_eq!(req.url, "https://example.com");
    assert_eq!(req.query.len(), 0);
    assert_eq!(req.params.len(), 0);
    assert_eq!(req.headers.len(), 0);
    assert_eq!(req.body, None);
}

#[test]
fn string_map_keeps_one_value_for_each_key() {
    let mut m = StringMap::new();
    assert_eq!(m.len(), 0);
    assert_eq!(m.get("a"), None);
    m.insert("a".to_string(), "1".to_string());
    m.insert("b".to_string(), "2".to_string());
    m.insert("a".to_string(), "3".to_string());
    assert_eq!(m.len(), 2);
    assert_eq!(m.get("a"), Some("3"));
    assert_eq!(m.get("b"), Some("2"));
    assert_eq!(m.get("c"), None);
    assert_eq!(
        m.pairs(),
        &vec![
            ("a".to_string(), "3".to_string()),
            ("b".to_string(), "2".to_string())
        ]
    );
    let copy = m.clone();
    assert_eq!(copy, m);
    let from = StringMap::from_pairs(&vec![
        ("a".to_string(), "1".to_string()),
        ("b".to_string(), "2".to_string()),
        ("a".to_string(), "3".to_string()),
    ]);
    assert_eq!(from, m);
}

#[test]
fn text_helpers() {
    let s: Vec<char> = chars_of("h\u{e9}llo");
    assert_eq!(s.len(), 5);
    assert_eq!(string_of(&s), "h\u{e9}llo");
    assert!(starts_with(&s, &chars_of("h\u{e9}")));
    assert!(starts_with(&s, &[]));
    assert!(!starts_with(&s, &chars_of("he")));
    assert!(!starts_with(&chars_of("h"), &s));
    assert!(str_eq("a", "a"));
    assert!(!str_eq("a", "ab"));
    assert_eq!(append("ab", "cd"), "abcd");
    assert_eq!(find_char(&s, 'l'), Some(2));
    assert_eq!(find_char(&s, 'z'), None);
    assert_eq!(take_chars(&s, 2), chars_of("h\u{e9}"));
    assert_eq!(take_chars(&s, 9), s);
    let r = replace_all(&chars_of("aaa"), &chars_of("aa"), &chars_of("b"));
    assert_eq!(string_of(&r), "ba");
    let r = replace_all(&chars_of("abc"), &[], &chars_of("x"));
    assert_eq!(string_of(&r), "abc");
    let r = replace_all(&chars_of("a.mjs.mjs"), &chars_of(".mjs"), &chars_of(".yml"));
    assert_eq!(string_of(&r), "a.yml.yml");
}
