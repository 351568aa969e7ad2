use dino::bundle::{bundle_order, missing_imports, run_bundle, BundleError, Module};

fn module(id: &str, imports: &[&str], exports: &[(&str, &str)], source: &str) -> Module {
    Module {
        id: id.to_string(),
        imports: imports.iter().map(|s| s.to_string()).collect(),
        exports: exports
            .iter()
            .map(|(a, b)| (a.to_string(), b.to_string()))
            .collect(),
        source: source.to_string(),
    }
}

fn fixtures() -> Vec<Module> {
    vec![
        module(
            "fixtures/main.ts",
            &["fixtures/lib.ts"],
            &[("default", "main")],
            r#"async function main(){console.log("Executing main");console.log(await execute("world"));}"#,
        ),
        module(
            "fixtures/lib.ts",
            &[],
            &[("execute", "execute")],
            r#"async function execute(name){console.log("Executing lib");return`Hello ${name}!`;}"#,
        ),
    ]
}

#[test]
fn bundle_ts_should_work() -> Result<(), BundleError> {
    let ret = run_bundle("fixtures/main.ts", &fixtures())?;
    assert_eq!(
        ret,
        r#"(function(){async function execute(name){console.log("Executing lib");return`Hello ${name}!`;}async function main(){console.log("Executing main");console.log(await execute("world"));}return{default:main};})();"#
    );
    Ok(())
}

#[test]
fn bundle_is_the_same_every_time() {
    let first = run_bundle("fixtures/main.ts", &fixtures());
    let second = run_bundle("fixtures/main.ts", &fixtures());
    assert_eq!(first, second);
}

#[test]
fn bundle_emits_a_shared_module_once() {
    let modules = vec![
        module("a", &["b", "c"], &[("run", "a")], "A;"),
        module("b", &["d"], &[], "B;"),
        module("c", &["d"], &[], "C;"),
        module("d", &[], &[], "D;"),
    ];
    assert_eq!(bundle_order(&modules, 0), vec![3, 1, 2, 0]);
    assert_eq!(
        run_bundle("a", &modules),
        Ok("(function(){D;B;C;A;return{run:a};})();".to_string())
    );
}

#[test]
fn bundle_emits_each_module_of_a_cycle_once() {
    let modules = vec![
        module("a", &["b"], &[("x", "a"), ("y", "b")], "A;"),
        module("b", &["a"], &[], "B;"),
    ];
    assert_eq!(bundle_order(&modules, 0), vec![1, 0]);
    assert_eq!(bundle_order(&modules, 1), vec![0, 1]);
    assert_eq!(
        run_bundle("a", &modules),
        Ok("(function(){B;A;return{x:a,y:b};})();".to_string())
    );
}

#[test]
fn bundle_leaves_out_what_the_entry_does_not_reach() {
    let modules = vec![
        module("a", &[], &[], "A;"),
        module("b", &["a"], &[], "B;"),
    ];
    assert_eq!(
        run_bundle("a", &modules),
        Ok("(function(){A;return{};})();".to_string())
    );
}

#[test]
fn bundle_fails_on_a_module_that_is_not_loaded() {
    let modules = vec![module("a", &["b", "c"], &[], "A;")];
    assert_eq!(
        run_bundle("a", &modules),
        Err(BundleError::Missing("b".to_string()))
    );
    assert_eq!(
        run_bundle("z", &modules),
        Err(BundleError::Missing("z".to_string()))
    );
}

#[test]
fn missing_imports_lists_each_once() {
    let none: Vec<Module> = Vec::new();
    assert_eq!(missing_imports("a", &none), vec!["a".to_string()]);
    let modules = vec![
        module("a", &["b", "c", "b"], &[], "A;"),
        module("c", &["b", "a"], &[], "C;"),
    ];
    assert_eq!(missing_imports("a", &modules), vec!["b".to_string()]);
    let all = vec![
        module("a", &["b"], &[], "A;"),
        module("b", &[], &[], "B;"),
    ];
    assert!(missing_imports("a", &all).is_empty());
}
