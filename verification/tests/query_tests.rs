use this_code::db::{Session, SessionTable};
use this_code::query::{
    ancestry_paths, dry_run_message, find_session_by_ancestry, format_human, format_human_lines,
    open_files_count, open_files_count_from, query_output, session_to_json, QueryOutput,
    NO_SESSIONS_MESSAGE,
};
use this_code::which::{format_which_human, lookup_workspace};

fn make_test_session() -> Session {
    Session {
        id: 1,
        invoked_at: "2026-04-27T20:00:00.000".to_string(),
        workspace_path: "/home/user/project".to_string(),
        user_data_dir: Some("/home/user/.config/Code".to_string()),
        profile: Some("default".to_string()),
        local_ide_path: Some("/usr/bin/code".to_string()),
        remote_name: None,
        remote_server_path: None,
        server_commit_hash: Some("abc123def456".to_string()),
        server_bin_path: None,
        open_files: "[\"src/main.rs\",\"README.md\"]".to_string(),
        ipc_hook_cli: None,
    }
}

fn row(invoked_at: &str, workspace: &str) -> Session {
    Session {
        id: 1,
        invoked_at: invoked_at.to_string(),
        workspace_path: workspace.to_string(),
        user_data_dir: None,
        profile: None,
        local_ide_path: Some("/usr/bin/code".to_string()),
        remote_name: None,
        remote_server_path: None,
        server_commit_hash: None,
        server_bin_path: None,
        open_files: "[]".to_string(),
        ipc_hook_cli: None,
    }
}

#[test]
fn test_format_human_output() {
    let session = make_test_session();
    assert_eq!(session.workspace_path, "/home/user/project");
    assert_eq!(session.profile.as_deref(), Some("default"));
    assert_eq!(session.user_data_dir.as_deref(), Some("/home/user/.config/Code"));
    assert_eq!(session.server_commit_hash.as_deref(), Some("abc123def456"));
    assert_eq!(session.invoked_at, "2026-04-27T20:00:00.000");
    // Verify open_files count parsing
    let count = open_files_count(&session);
    assert_eq!(count, 2);
}

#[test]
fn format_human_lines_exact() {
    let session = make_test_session();
    let lines = format_human(&session);
    assert_eq!(
        lines,
        vec![
            "workspace:     /home/user/project",
            "profile:       default",
            "user_data_dir: /home/user/.config/Code",
            "server_hash:   abc123def456",
            "open_files:    2",
            "invoked_at:    2026-04-27T20:00:00.000",
        ]
    );
}

#[test]
fn format_human_missing_fields_and_bad_manifest() {
    let mut session = make_test_session();
    session.profile = None;
    session.user_data_dir = None;
    session.server_commit_hash = None;
    session.open_files = "{\"a\": 1}".to_string();
    let lines = format_human(&session);
    assert_eq!(lines[1], "profile:       (none)");
    assert_eq!(lines[2], "user_data_dir: (none)");
    assert_eq!(lines[3], "server_hash:   (none)");
    assert_eq!(lines[4], "open_files:    0");
    session.open_files = "not json".to_string();
    assert_eq!(open_files_count(&session), 0);
}

#[test]
fn format_human_lines_count_in_decimal() {
    let session = make_test_session();
    assert_eq!(format_human_lines(&session, 1234)[4], "open_files:    1234");
    assert_eq!(format_human_lines(&session, 0)[4], "open_files:    0");
    assert_eq!(open_files_count_from(Some(Some(9))), 9);
    assert_eq!(open_files_count_from(Some(None)), 0);
    assert_eq!(open_files_count_from(None), 0);
}

#[test]
fn test_session_to_json_output() {
    let session = make_test_session();
    let value = session_to_json(&session);

    assert_eq!(value.workspace_path, "/home/user/project");
    assert_eq!(value.profile.as_deref(), Some("default"));
    assert_eq!(value.user_data_dir.as_deref(), Some("/home/user/.config/Code"));
    assert_eq!(value.server_commit_hash.as_deref(), Some("abc123def456"));
    assert_eq!(value.invoked_at, "2026-04-27T20:00:00.000");
    assert_eq!(value.id, 1);

    // open_files should be a JSON array, not a string
    let parsed: serde_json::Value = serde_json::from_str(&value.open_files).unwrap();
    let open_files = parsed.as_array().expect("open_files should be an array");
    assert_eq!(open_files.len(), 2);
    assert_eq!(open_files[0], "src/main.rs");
    assert_eq!(open_files[1], "README.md");

    // None fields should be null
    assert!(value.remote_name.is_none());
    assert!(value.remote_server_path.is_none());
}

#[test]
fn test_session_to_json_corrupt_open_files() {
    let mut session = make_test_session();
    session.open_files = "not valid json".to_string();
    let value = session_to_json(&session);
    // Corrupt open_files should fall back to empty array, not panic
    let parsed: serde_json::Value = serde_json::from_str(&value.open_files).unwrap();
    let open_files = parsed.as_array().expect("should be array");
    assert!(open_files.is_empty());
}

fn make_ancestry_db() -> SessionTable {
    let mut table = SessionTable::new();
    table.insert(row("2026-04-28T10:00:00.000", "/home/user/project"));
    table
}

#[test]
fn test_find_session_exact_match() {
    let table = make_ancestry_db();
    let s = find_session_by_ancestry(&table, "/home/user/project");
    assert!(s.is_some());
    assert_eq!(s.unwrap().workspace_path, "/home/user/project");
}

#[test]
fn test_find_session_walks_up_to_workspace() {
    let table = make_ancestry_db();
    let s = find_session_by_ancestry(&table, "/home/user/project/src/main.rs");
    assert!(s.is_some());
    assert_eq!(s.unwrap().workspace_path, "/home/user/project");
}

#[test]
fn test_find_session_unrelated_path_returns_none() {
    let table = make_ancestry_db();
    let s = find_session_by_ancestry(&table, "/tmp/other/file");
    assert!(s.is_none());
}

#[test]
fn find_session_prefers_nearest_ancestor() {
    let mut table = make_ancestry_db();
    table.insert(row("2020-01-01T00:00:00.000", "/home/user/project/sub"));
    table.insert(row("2030-01-01T00:00:00.000", "/home"));
    let s = find_session_by_ancestry(&table, "/home/user/project/sub/x").unwrap();
    assert_eq!(s.workspace_path, "/home/user/project/sub");
    let s = find_session_by_ancestry(&table, "/home/user/other").unwrap();
    assert_eq!(s.workspace_path, "/home");
}

#[test]
fn find_session_probes_exact_texts() {
    let table = make_ancestry_db();
    // Trailing separators are trimmed on the way up.
    let s = find_session_by_ancestry(&table, "/home/user/project/src//").unwrap();
    assert_eq!(s.workspace_path, "/home/user/project");
    // Paths are looked up as written: "/home/user/project/" is not the
    // recorded text, and its parent is "/home/user".
    assert!(find_session_by_ancestry(&table, "/home/user/project/").is_none());
}

#[test]
fn ancestry_paths_of_absolute_and_relative() {
    assert_eq!(
        ancestry_paths("/home/user/project/src/main.rs"),
        vec![
            "/home/user/project/src/main.rs",
            "/home/user/project/src",
            "/home/user/project",
            "/home/user",
            "/home",
            "/",
        ]
    );
    assert_eq!(ancestry_paths("a/b"), vec!["a/b", "a", ""]);
    assert_eq!(ancestry_paths("./x"), vec!["./x", ".", ""]);
    assert_eq!(ancestry_paths(""), vec![""]);
}

#[test]
fn test_lookup_workspace_with_explicit_db_path() {
    let table = make_ancestry_db();
    let result = lookup_workspace(&table, "/home/user/project/src");
    assert_eq!(result.as_deref(), Some("/home/user/project"));
    assert_eq!(lookup_workspace(&table, "/srv"), None);
}

#[test]
fn query_output_modes() {
    assert!(matches!(query_output(true, true), QueryOutput::DryRun));
    assert!(matches!(query_output(false, true), QueryOutput::Json));
    assert!(matches!(query_output(false, false), QueryOutput::Human));
}

#[test]
fn query_messages() {
    assert_eq!(dry_run_message("/usr/bin/code", "/home/user/project"), "would exec: /usr/bin/code /home/user/project");
    assert_eq!(NO_SESSIONS_MESSAGE, "no sessions found");
}

#[test]
fn which_lines() {
    assert_eq!(format_which_human("/usr/bin/code", None), vec!["binary:     /usr/bin/code"]);
    assert_eq!(
        format_which_human("/usr/bin/code", Some("/home/user/project")),
        vec!["binary:     /usr/bin/code", "workspace:  /home/user/project"]
    );
}
