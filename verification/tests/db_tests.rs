use this_code::db::{query_latest_session, Session, SessionTable};
use this_code::query::is_missing_table_error;

fn row(id: i64, invoked_at: &str, workspace: &str, open_files: &str) -> Session {
    Session {
        id,
        invoked_at: invoked_at.to_string(),
        workspace_path: workspace.to_string(),
        user_data_dir: None,
        profile: None,
        local_ide_path: Some("/usr/bin/code".to_string()),
        remote_name: None,
        remote_server_path: None,
        server_commit_hash: None,
        server_bin_path: None,
        open_files: open_files.to_string(),
        ipc_hook_cli: None,
    }
}

#[test]
fn test_query_latest_session_empty_table() {
    let table = SessionTable::new();
    let result = query_latest_session(&table, "/some/path");
    assert!(result.is_none());
}

#[test]
fn test_query_latest_session_returns_most_recent() {
    let mut table = SessionTable::new();
    table.insert(row(1, "2026-04-27T10:00:00.000", "/home/user/project", "[]"));
    table.insert(row(2, "2026-04-27T20:00:00.000", "/home/user/project", "[\"file.rs\"]"));
    let session = query_latest_session(&table, "/home/user/project").expect("should find a session");
    assert_eq!(session.invoked_at, "2026-04-27T20:00:00.000");
}

#[test]
fn test_query_latest_session_workspace_mismatch() {
    let mut table = SessionTable::new();
    table.insert(row(1, "2026-04-27T10:00:00.000", "/home/user/project-a", "[]"));
    let result = query_latest_session(&table, "/home/user/project-b");
    assert!(result.is_none());
}

#[test]
fn test_no_such_table_is_detectable() {
    // Empty DB with no invocations table: the store's error names the
    // missing table, which `query` reports as "no sessions found".
    let conn = rusqlite::Connection::open_in_memory().expect("in-memory DB");
    let result = conn.query_row("SELECT id FROM invocations WHERE workspace_path = ?1", ["/some/path"], |r| {
        r.get::<_, i64>(0)
    });
    assert!(result.is_err());
    let err_msg = result.unwrap_err().to_string();
    assert!(is_missing_table_error(&err_msg), "Expected 'no such table' in error, got: {err_msg}");
}

#[test]
fn latest_session_order_is_text_order_and_first_on_tie() {
    let mut table = SessionTable::new();
    table.insert(row(1, "2026-04-27T20:00:00.000", "/w", "[]"));
    table.insert(row(2, "2026-04-27T09:00:00.000", "/w", "[]"));
    table.insert(row(3, "2026-04-27T20:00:00.000", "/w", "[]"));
    table.insert(row(4, "2027-01-01T00:00:00.000", "/other", "[]"));
    let s = query_latest_session(&table, "/w").unwrap();
    assert_eq!(s.id, 1);
    table.insert(row(5, "2026-04-27T20:00:00.0001", "/w", "[]"));
    assert_eq!(query_latest_session(&table, "/w").unwrap().id, 5);
}

#[test]
fn latest_session_copies_every_field() {
    let mut table = SessionTable::new();
    let mut r = row(7, "t", "/w", "[1]");
    r.profile = Some("p".to_string());
    r.ipc_hook_cli = Some("/tmp/sock".to_string());
    table.insert(r);
    let s = query_latest_session(&table, "/w").unwrap();
    assert_eq!(s.id, 7);
    assert_eq!(s.profile.as_deref(), Some("p"));
    assert_eq!(s.ipc_hook_cli.as_deref(), Some("/tmp/sock"));
    assert_eq!(s.open_files, "[1]");
    assert_eq!(s.local_ide_path.as_deref(), Some("/usr/bin/code"));
}

#[test]
fn missing_table_detection() {
    assert!(is_missing_table_error("no such table: invocations"));
    assert!(is_missing_table_error("error: no such table"));
    assert!(!is_missing_table_error("database is locked"));
    assert!(!is_missing_table_error("no such"));
    assert!(!is_missing_table_error(""));
}
