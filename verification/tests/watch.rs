use dino::config::{HttpMethod, ProjectRoute};
use dino::router::SwappableAppRouter;
use dino::watch::{
    apply_rebuild, is_source_change, need_swap, on_report, relevant_change, RebuildError,
    WatchAction, CONFIG_FILE, MONITOR_FS_INTERVAL_SECS,
};

#[test]
fn watch_constants() {
    assert_eq!(MONITOR_FS_INTERVAL_SECS, 2);
    assert_eq!(CONFIG_FILE, "config.yml");
}

#[test]
fn relevant_change_by_parts() {
    assert!(relevant_change(true, &None));
    assert!(relevant_change(false, &Some("ts".to_string())));
    assert!(relevant_change(false, &Some("js".to_string())));
    assert!(!relevant_change(false, &Some("json".to_string())));
    assert!(!relevant_change(false, &Some("TS".to_string())));
    assert!(!relevant_change(false, &None));
}

#[test]
fn source_changes_are_scripts_and_the_configuration() {
    assert!(is_source_change("/proj/main.ts"));
    assert!(is_source_change("/proj/lib/a.js"));
    assert!(is_source_change("/proj/config.yml"));
    assert!(is_source_change("config.yml"));
    assert!(!is_source_change("/proj/myconfig.yml"));
    assert!(!is_source_change("/proj/other.yml"));
    assert!(!is_source_change("/proj/readme.md"));
    assert!(!is_source_change("/proj/ts"));
    assert!(!is_source_change("/proj/.ts"));
}

#[test]
fn a_batch_needs_a_swap_when_one_path_does() {
    assert!(!need_swap(&Vec::new()));
    assert!(!need_swap(&vec!["a.md".to_string(), "b.txt".to_string()]));
    assert!(need_swap(&vec!["a.md".to_string(), "b.ts".to_string()]));
}

#[test]
fn reports_become_actions() {
    assert_eq!(on_report(Ok(vec!["a.ts".to_string()])), WatchAction::Rebuild);
    assert_eq!(on_report(Ok(vec!["a.md".to_string()])), WatchAction::Ignore);
    assert_eq!(on_report(Ok(Vec::new())), WatchAction::Ignore);
    assert_eq!(
        on_report(Err("lost".to_string())),
        WatchAction::Warn("lost".to_string())
    );
}

#[test]
fn a_failed_rebuild_leaves_the_snapshot() {
    let holder = SwappableAppRouter::try_new("old", Vec::new()).unwrap();
    assert_eq!(
        apply_rebuild(&holder, Err("no main.ts".to_string())),
        Err(RebuildError::Build("no main.ts".to_string()))
    );
    assert_eq!(holder.load().code(), "old");
    let twice = vec![(
        "/a".to_string(),
        vec![
            ProjectRoute {
                method: HttpMethod::Get,
                handler: "x".to_string(),
            },
            ProjectRoute {
                method: HttpMethod::Get,
                handler: "y".to_string(),
            },
        ],
    )];
    assert!(matches!(
        apply_rebuild(&holder, Ok(("new".to_string(), twice))),
        Err(RebuildError::Routes(_))
    ));
    assert_eq!(holder.load().code(), "old");
    assert_eq!(apply_rebuild(&holder, Ok(("new".to_string(), Vec::new()))), Ok(()));
    assert_eq!(holder.load().code(), "new");
}
