use codex_collab::ids::{matches_allow_all_token, normalize_id, normalize_role_id};
use codex_collab::registry::{join_path_text, plugin_search_dirs, resolve_plugin_path, PathError};

#[test]
fn normalize_trims_lowers_and_hyphenates() {
    assert_eq!(normalize_id("  Atlas_Fast \n"), "atlas-fast");
    assert_eq!(normalize_role_id("PRIMARY"), "primary");
    assert_eq!(normalize_id("\u{3000}x_Y\u{a0}"), "x-y");
    assert_eq!(normalize_id("   "), "");
}

#[test]
fn normalize_is_idempotent_on_examples() {
    for raw in ["  A_b ", "already-normal", "\tMiXeD_Case_ID\t", "é_À"] {
        let once = normalize_id(raw);
        assert_eq!(normalize_id(&once), once);
    }
    assert_eq!(normalize_id("a_b"), normalize_id(" A-B "));
}

#[test]
fn allow_all_tokens() {
    assert!(matches_allow_all_token("*"));
    assert!(matches_allow_all_token(" ALL "));
    assert!(matches_allow_all_token("All"));
    assert!(!matches_allow_all_token("alls"));
    assert!(!matches_allow_all_token("**"));
    assert!(!matches_allow_all_token("primary"));
}

#[test]
fn plugin_paths_must_stay_inside() {
    assert_eq!(
        resolve_plugin_path("/home/u/plugins/p", "modes/a.md"),
        Ok("/home/u/plugins/p/modes/a.md".to_string())
    );
    assert_eq!(
        resolve_plugin_path("/home/u/plugins/p", "/etc/passwd"),
        Err(PathError::MustBeRelative("/etc/passwd".to_string()))
    );
    assert_eq!(
        resolve_plugin_path("/home/u/plugins/p", "modes/../../x.md"),
        Err(PathError::ParentDir("modes/../../x.md".to_string()))
    );
    assert_eq!(
        resolve_plugin_path("dir", ".."),
        Err(PathError::ParentDir("..".to_string()))
    );
    assert_eq!(resolve_plugin_path("dir", "a..b/c"), Ok("dir/a..b/c".to_string()));
}

#[test]
fn join_path_adds_one_separator() {
    assert_eq!(join_path_text("a/", "b"), "a/b");
    assert_eq!(join_path_text("a", "b"), "a/b");
    assert_eq!(join_path_text("", "b"), "b");
}

#[test]
fn search_dirs_prefer_project_root_and_drop_duplicates() {
    assert_eq!(
        plugin_search_dirs("/home/u/.coder", Some("/work/repo"), "/work/repo/sub"),
        vec![
            "/home/u/.coder/plugins".to_string(),
            "/work/repo/plugins".to_string()
        ]
    );
    assert_eq!(
        plugin_search_dirs("/work", None, "/work"),
        vec!["/work/plugins".to_string()]
    );
    assert_eq!(
        plugin_search_dirs("/home/u", None, "/tmp/x"),
        vec!["/home/u/plugins".to_string(), "/tmp/x/plugins".to_string()]
    );
}
