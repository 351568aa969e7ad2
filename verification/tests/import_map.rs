use dino::import_map::ImportMap;
use dino::module::{resolve_import, Resolution};

fn map(entries: &[(&str, &str)]) -> ImportMap {
    ImportMap::new(
        entries
            .iter()
            .map(|(k, v)| (k.to_string(), v.to_string()))
            .collect(),
    )
}

#[test]
fn lookup_rewrites_prefix_with_working_directory() {
    let m = map(&[("@lib/", "./vendor/lib/")]);
    assert_eq!(
        m.lookup("@lib/x.ts", "/work"),
        Some("/work/vendor/lib/x.ts".to_string())
    );
}

#[test]
fn lookup_without_match_is_none() {
    let m = map(&[("@lib/", "./vendor/lib/")]);
    assert_eq!(m.lookup("other/x.ts", "/work"), None);
    assert_eq!(map(&[]).lookup("x", "/work"), None);
}

#[test]
fn lookup_takes_the_first_match_not_the_longest() {
    let m = map(&[("@a", "one"), ("@a/b", "two")]);
    assert_eq!(m.lookup("@a/b/c", "/w"), Some("one/b/c".to_string()));
    let m = map(&[("@a/b", "two"), ("@a", "one")]);
    assert_eq!(m.lookup("@a/b/c", "/w"), Some("two/c".to_string()));
}

#[test]
fn lookup_leaves_a_target_without_dot_slash_alone() {
    let m = map(&[("react", "https://esm.sh/react")]);
    assert_eq!(
        m.lookup("react", "/w"),
        Some("https://esm.sh/react".to_string())
    );
    let m = map(&[("up/", "../lib/")]);
    assert_eq!(m.lookup("up/a", "/w"), Some("../lib/a".to_string()));
}

#[test]
fn lookup_leaves_key_with_own_extension_alone() {
    let m = map(&[("lodash", "./vendor/lodash.js")]);
    assert_eq!(m.lookup("lodash.js", "/w"), None);
    assert_eq!(
        m.lookup("lodash.min.js", "/w"),
        Some("/w/vendor/lodash.js.min.js".to_string())
    );
    assert_eq!(
        m.lookup("lodash", "/w"),
        Some("/w/vendor/lodash.js".to_string())
    );
}

#[test]
fn lookup_with_given_extension() {
    let m = map(&[("a", "b")]);
    assert_eq!(m.lookup_with("a.x", "/w", &Some("x".to_string())), None);
    assert_eq!(
        m.lookup_with("a.x", "/w", &Some("y".to_string())),
        Some("b.x".to_string())
    );
    assert_eq!(m.lookup_with("a.x", "/w", &None), Some("b.x".to_string()));
}

#[test]
fn mapping_twice_changes_nothing_when_no_key_matches_the_result() {
    let m = map(&[("@lib/", "./vendor/lib/"), ("~/", "./src/")]);
    for s in ["@lib/x.ts", "~/main.ts", "@lib/deep/y", "other"] {
        let once = m.lookup(s, "/work").unwrap_or(s.to_string());
        let twice = m.lookup(&once, "/work").unwrap_or(once.clone());
        assert_eq!(once, twice);
    }
}

#[test]
fn import_map_rewrite_leads_to_the_vendored_file() {
    let m = map(&[("@lib/", "./vendor/lib/")]);
    let r = resolve_import(Some("/work/main.ts"), "@lib/x.ts", false, Some(m), "/work");
    assert_eq!(
        r,
        Ok(Resolution::File {
            base: Some("/work/main.ts".to_string()),
            specifier: "/work/vendor/lib/x.ts".to_string(),
        })
    );
}
