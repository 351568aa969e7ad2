use dino::builder::{
    artifact_path, build_project, calc_hash_for_files, calc_project_hash, config_path,
    get_files_with_exts, glob_rule, BuildStep, BUILD_DIR, ENTRY_POINT, HASH_LEN,
};

const EMPTY_HASH: &str = "af1349b9f5f9a1a6a0404dea36dcc9499bcb25c9adc112b7cc9a93cae41f3262";

#[test]
fn hash_of_nothing_is_the_hash_of_the_empty_input() {
    assert_eq!(calc_hash_for_files(&Vec::new(), 64), EMPTY_HASH);
    assert_eq!(calc_hash_for_files(&vec![Vec::new(), Vec::new()], 64), EMPTY_HASH);
    assert_eq!(calc_project_hash(&Vec::new()), "af1349b9f5f9a1a6");
    assert_eq!(HASH_LEN, 16);
}

#[test]
fn hash_keeps_at_most_what_there_is() {
    assert_eq!(calc_hash_for_files(&Vec::new(), 0), "");
    assert_eq!(calc_hash_for_files(&Vec::new(), 7), "af1349b");
    assert_eq!(calc_hash_for_files(&Vec::new(), 1000), EMPTY_HASH);
}

#[test]
fn hash_is_of_the_contents_in_order() {
    let ab = vec![b"a".to_vec(), b"b".to_vec()];
    let joined = vec![b"ab".to_vec()];
    let ba = vec![b"b".to_vec(), b"a".to_vec()];
    assert_eq!(calc_project_hash(&ab), calc_project_hash(&joined));
    assert_ne!(calc_project_hash(&ab), calc_project_hash(&ba));
    assert_eq!(
        calc_hash_for_files(&joined, 64),
        blake3::hash(b"ab").to_hex().to_string()
    );
    assert_ne!(calc_project_hash(&ab), calc_project_hash(&Vec::new()));
}

#[test]
fn glob_rules_are_one_per_extension() {
    assert_eq!(glob_rule("proj", "ts"), "proj/**/*.ts");
    assert_eq!(
        get_files_with_exts(".", &vec!["ts", "js", "json"]),
        vec!["./**/*.ts", "./**/*.js", "./**/*.json"]
    );
    assert!(get_files_with_exts(".", &Vec::new()).is_empty());
}

#[test]
fn artifact_and_config_paths() {
    assert_eq!(BUILD_DIR, ".build");
    assert_eq!(artifact_path("af1349b9f5f9a1a6"), ".build/af1349b9f5f9a1a6.mjs");
    assert_eq!(
        config_path(".build/af1349b9f5f9a1a6.mjs"),
        ".build/af1349b9f5f9a1a6.yml"
    );
    assert_eq!(config_path("a.mjs/b.mjs"), "a.yml/b.yml");
    assert_eq!(config_path("nothing"), "nothing");
    assert_eq!(config_path(".mj"), ".mj");
}

#[test]
fn cached_build_is_reused() {
    let files = vec![b"export default 1;".to_vec()];
    let first = build_project(&files, &Vec::new());
    let path = artifact_path(&calc_project_hash(&files));
    assert_eq!(
        first,
        BuildStep::Bundle {
            entry: ENTRY_POINT.to_string(),
            artifact: path.clone()
        }
    );
    let second = build_project(&files, &vec!["other".to_string(), path.clone()]);
    assert_eq!(second, BuildStep::Reuse(path.clone()));
    let third = build_project(&files, &vec![path.clone()]);
    assert_eq!(third, second);
    assert_eq!(ENTRY_POINT, "main.ts");
}

#[test]
fn changed_sources_are_built_anew() {
    let old = vec![b"1".to_vec()];
    let new = vec![b"2".to_vec()];
    let built = vec![artifact_path(&calc_project_hash(&old))];
    assert!(matches!(build_project(&old, &built), BuildStep::Reuse(_)));
    assert!(matches!(build_project(&new, &built), BuildStep::Bundle { .. }));
}

#[test]
fn sources_are_sorted_by_path_and_listed_once() {
    let found: Vec<String> = ["b/x.ts", "a/x.ts", "a-b/x.ts", "a/x.ts", "a//x.ts", "a/b.json"]
        .iter()
        .map(|s| s.to_string())
        .collect();
    assert_eq!(
        dino::builder::sorted_sources(&found),
        vec!["a/b.json", "a/x.ts", "a-b/x.ts", "b/x.ts"]
    );
    assert!(dino::builder::sorted_sources(&Vec::new()).is_empty());
    let mut reversed = found.clone();
    reversed.reverse();
    let again = dino::builder::sorted_sources(&reversed);
    assert_eq!(again.len(), 4);
    assert_eq!(again[0], "a/b.json");
    assert_eq!(again[2], "a-b/x.ts");
    assert_eq!(again[3], "b/x.ts");
}
