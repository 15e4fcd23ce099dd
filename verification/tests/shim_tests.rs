use this_code::db::Session;
use this_code::shim::{
    child_env, is_recursion_guard_active, pick_remote_cli, remote_cli_candidates,
    resolve_shim_lookup_path, shim_route, strip_goto_suffix, strip_own_bin_from_path, ShimRoute,
};

#[test]
fn test_strip_own_bin_removes_entry() {
    let own_bin = "/home/user/.this-code/bin";
    let path_env = "/usr/bin:/home/user/.this-code/bin:/usr/local/bin";
    let result = strip_own_bin_from_path(path_env, own_bin);
    assert_eq!(result, "/usr/bin:/usr/local/bin");
}

#[test]
fn test_strip_own_bin_idempotent() {
    let own_bin = "/home/user/.this-code/bin";
    let path_env = "/usr/bin:/home/user/.this-code/bin:/usr/local/bin";
    let once = strip_own_bin_from_path(path_env, own_bin);
    let twice = strip_own_bin_from_path(&once, own_bin);
    assert_eq!(once, twice);
}

#[test]
fn test_strip_own_bin_leaves_others_untouched() {
    let own_bin = "/home/user/.this-code/bin";
    let path_env = "/usr/bin:/usr/local/bin";
    let result = strip_own_bin_from_path(path_env, own_bin);
    assert_eq!(result, "/usr/bin:/usr/local/bin");
}

#[test]
fn strip_own_bin_compares_as_paths() {
    let own_bin = "/home/user/.this-code/bin";
    let path_env = "/home/user/.this-code/bin/:/usr/bin:/home/user//.this-code/./bin:::/bin";
    assert_eq!(strip_own_bin_from_path(path_env, own_bin), "/usr/bin:::/bin");
}

#[test]
fn strip_own_bin_only_entry_gives_empty() {
    let own_bin = "/home/user/.this-code/bin";
    assert_eq!(strip_own_bin_from_path("/home/user/.this-code/bin", own_bin), "");
    assert_eq!(strip_own_bin_from_path("", own_bin), "");
}

fn args(v: &[&str]) -> Vec<String> {
    v.iter().map(|s| s.to_string()).collect()
}

#[test]
fn test_resolve_shim_lookup_path_positional_arg() {
    let result = resolve_shim_lookup_path(&args(&["/some/path"]), "/cwd");
    assert_eq!(result, "/some/path");
}

#[test]
fn test_resolve_shim_lookup_path_skips_flags() {
    let result = resolve_shim_lookup_path(&args(&["--new-window", "--wait", "/some/path"]), "/cwd");
    assert_eq!(result, "/some/path");
}

#[test]
fn test_resolve_shim_lookup_path_strips_goto_suffix() {
    let result = resolve_shim_lookup_path(&args(&["file.ts:10:5"]), "/cwd");
    assert_eq!(result, "file.ts");
}

#[test]
fn test_resolve_shim_lookup_path_no_colon_unchanged() {
    let result = resolve_shim_lookup_path(&args(&["./src/main.rs"]), "/cwd");
    assert_eq!(result, "./src/main.rs");
}

#[test]
fn test_resolve_shim_lookup_path_no_args_returns_something() {
    let result = resolve_shim_lookup_path(&args(&[]), ".");
    assert!(!result.is_empty());
}

#[test]
fn resolve_shim_lookup_path_all_flags_gives_cwd() {
    let result = resolve_shim_lookup_path(&args(&["-n", "--wait"]), "/work/dir");
    assert_eq!(result, "/work/dir");
}

#[test]
fn test_strip_goto_suffix_line_and_col() {
    assert_eq!(strip_goto_suffix("file.ts:10:5"), "file.ts");
}

#[test]
fn test_strip_goto_suffix_line_only() {
    assert_eq!(strip_goto_suffix("file.ts:10"), "file.ts");
}

#[test]
fn test_strip_goto_suffix_no_suffix() {
    assert_eq!(strip_goto_suffix("file.ts"), "file.ts");
}

#[test]
fn test_strip_goto_suffix_absolute_path_with_suffix() {
    assert_eq!(strip_goto_suffix("/home/user/file.rs:42:1"), "/home/user/file.rs");
}

#[test]
fn test_strip_goto_suffix_windows_drive_letter_preserved() {
    // C: looks like a colon suffix but "C" is not all-digits — must not strip
    assert_eq!(strip_goto_suffix("C:\\Users\\foo\\bar.ts:10:5"), "C:\\Users\\foo\\bar.ts");
}

#[test]
fn test_strip_goto_suffix_colon_in_dir_name_preserved() {
    // "some:dir/file.ts" — "dir/file.ts" is not all-digits, so nothing is stripped
    assert_eq!(strip_goto_suffix("some:dir/file.ts"), "some:dir/file.ts");
}

#[test]
fn test_strip_goto_suffix_empty_string() {
    assert_eq!(strip_goto_suffix(""), "");
}

#[test]
fn strip_goto_suffix_edge_cases() {
    assert_eq!(strip_goto_suffix("file.ts:"), "file.ts:");
    assert_eq!(strip_goto_suffix("a:1:2:3"), "a:1");
    assert_eq!(strip_goto_suffix(":7"), "");
    assert_eq!(strip_goto_suffix("x:a:5"), "x:a");
    assert_eq!(strip_goto_suffix("dir:7/file:3"), "dir:7/file");
}

#[test]
fn recursion_guard_values() {
    assert!(is_recursion_guard_active(Some("1")));
    assert!(!is_recursion_guard_active(Some("0")));
    assert!(!is_recursion_guard_active(Some("11")));
    assert!(!is_recursion_guard_active(Some("")));
    assert!(!is_recursion_guard_active(None));
}

#[test]
fn child_env_sets_guard_and_hook() {
    assert_eq!(
        child_env(None),
        vec![("THIS_CODE_ACTIVE".to_string(), "1".to_string())]
    );
    assert_eq!(
        child_env(Some("/tmp/ipc.sock")),
        vec![
            ("THIS_CODE_ACTIVE".to_string(), "1".to_string()),
            ("VSCODE_IPC_HOOK_CLI".to_string(), "/tmp/ipc.sock".to_string()),
        ]
    );
}

fn remote_session(dir: Option<&str>, hook: Option<&str>) -> Session {
    Session {
        id: 1,
        invoked_at: "2026-04-28T10:00:00.000".to_string(),
        workspace_path: "/home/user/project".to_string(),
        user_data_dir: None,
        profile: None,
        local_ide_path: Some("/usr/bin/code".to_string()),
        remote_name: Some("ssh-remote".to_string()),
        remote_server_path: dir.map(|s| s.to_string()),
        server_commit_hash: None,
        server_bin_path: None,
        open_files: "[]".to_string(),
        ipc_hook_cli: hook.map(|s| s.to_string()),
    }
}

#[test]
fn remote_cli_layouts() {
    let s = remote_session(Some("/home/user/.vscode-server/bin/abc"), Some("/tmp/sock"));
    let c = remote_cli_candidates(&s).expect("server directory recorded");
    assert_eq!(c.current, "/home/user/.vscode-server/bin/abc/server/bin/remote-cli/code");
    assert_eq!(c.legacy, "/home/user/.vscode-server/bin/abc/bin/remote-cli/code");
    assert_eq!(c.ipc_hook_cli.as_deref(), Some("/tmp/sock"));
    assert!(remote_cli_candidates(&remote_session(None, None)).is_none());
}

#[test]
fn remote_cli_prefers_current_layout() {
    let s = remote_session(Some("/srv"), None);
    let both = pick_remote_cli(remote_cli_candidates(&s).unwrap(), true, true);
    assert_eq!(both, Some(("/srv/server/bin/remote-cli/code".to_string(), None)));
    let legacy = pick_remote_cli(remote_cli_candidates(&s).unwrap(), false, true);
    assert_eq!(legacy, Some(("/srv/bin/remote-cli/code".to_string(), None)));
    assert_eq!(pick_remote_cli(remote_cli_candidates(&s).unwrap(), false, false), None);
}

#[test]
fn shim_routes() {
    let remote = Some(("/srv/server/bin/remote-cli/code".to_string(), Some("/tmp/s".to_string())));
    assert!(matches!(shim_route(true, remote.clone()), ShimRoute::RealCode));
    assert!(matches!(shim_route(false, None), ShimRoute::RealCode));
    match shim_route(false, remote) {
        ShimRoute::RemoteCli { binary, ipc_hook_cli } => {
            assert_eq!(binary, "/srv/server/bin/remote-cli/code");
            assert_eq!(ipc_hook_cli.as_deref(), Some("/tmp/s"));
        }
        ShimRoute::RealCode => panic!("expected remote-cli"),
    }
}
