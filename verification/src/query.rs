//! Finding the session for a path by walking up its ancestry, and what
//! `this-code query` prints for it.

use vstd::prelude::*;
use crate::db::{
    copy_opt_string, lemma_latest_session_found, query_latest_session, spec_latest_session, Session, SessionTable,
};
use crate::json::{json_outline, read_json_outline};
use crate::paths::{lemma_parent_prefix, opt_view, parent_path, spec_parent};
use crate::text::{
    contains_text, decimal, decimal_string, format_labeled, labeled_line, string_views, text_contains,
};

verus! {

/// The session found for `p` by looking up `p`, then each ancestor in turn,
/// up to the root: the first path with a recorded session gives it.
pub open spec fn spec_find_session(rows: Seq<Session>, p: Seq<char>) -> Option<Session>
    decreases p.len(),
{
    match spec_latest_session(rows, p) {
        Some(s) => Some(s),
        None => match spec_parent(p) {
            Some(q) => {
                proof {
                    lemma_parent_prefix(p);
                }
                spec_find_session(rows, q)
            },
            None => None,
        },
    }
}

/// The paths a search from `p` looks up, in order: `p`, its parent, and so
/// on while `Path::parent` gives one.
pub open spec fn ancestry(p: Seq<char>) -> Seq<Seq<char>>
    decreases p.len(),
{
    match spec_parent(p) {
        Some(q) => {
            proof {
                lemma_parent_prefix(p);
            }
            seq![p] + ancestry(q)
        },
        None => seq![p],
    }
}

/// Walk up the directory tree from `start` until a session row is found or
/// the root is passed. Returns `None` when no ancestor matches.
pub fn find_session_by_ancestry(table: &SessionTable, start: &str) -> (r: Option<Session>)
    ensures
        r == spec_find_session(table.rows@, start@),
{
    let mut search: String = start.to_owned();
    loop
        invariant
            spec_find_session(table.rows@, search@) == spec_find_session(table.rows@, start@),
        decreases search@.len(),
    {
        match query_latest_session(table, search.as_str()) {
            Some(s) => {
                return Some(s);
            },
            None => {
                match parent_path(search.as_str()) {
                    Some(q) => {
                        proof {
                            lemma_parent_prefix(search@);
                        }
                        search = q;
                    },
                    None => {
                        return None;
                    },
                }
            },
        }
    }
}

/// The paths the search from `start` looks up, nearest first.
pub fn ancestry_paths(start: &str) -> (r: Vec<String>)
    ensures
        r@.len() == ancestry(start@).len(),
        forall|i: int| 0 <= i < r@.len() ==> (#[trigger] r@[i])@ == ancestry(start@)[i],
{
    let mut out: Vec<String> = Vec::new();
    let mut search: String = start.to_owned();
    loop
        invariant
            out@.len() + ancestry(search@).len() == ancestry(start@).len(),
            forall|i: int| 0 <= i < out@.len() ==> (#[trigger] out@[i])@ == ancestry(start@)[i],
            forall|i: int|
                0 <= i < ancestry(search@).len() ==> ancestry(search@)[i] == ancestry(
                    start@,
                )[out@.len() + i],
        decreases search@.len(),
    {
        let next = parent_path(search.as_str());
        let ghost cur = search@;
        proof {
            lemma_parent_prefix(cur);
            assert(ancestry(cur)[0] == cur);
        }
        out.push(search);
        match next {
            Some(q) => {
                proof {
                    assert(ancestry(cur) == seq![cur] + ancestry(q@));
                    assert forall|i: int| 0 <= i < ancestry(q@).len() implies ancestry(q@)[i]
                        == ancestry(start@)[out@.len() + i] by {
                        assert(ancestry(q@)[i] == ancestry(cur)[i + 1]);
                    }
                }
                search = q;
            },
            None => {
                return out;
            },
        }
    }
}

/// One step of the search: the paths after `p` are those of its parent.
proof fn lemma_ancestry_step(p: Seq<char>, q: Seq<char>)
    requires
        spec_parent(p) == Some(q),
    ensures
        ancestry(p) == seq![p] + ancestry(q),
{
}

/// The search from `p` starts at `p` itself and only ever looks at ever
/// shorter prefixes of it, ending with a path that has no parent.
pub proof fn lemma_ancestry_shrinks(p: Seq<char>)
    ensures
        ancestry(p).len() >= 1,
        ancestry(p)[0] == p,
        forall|i: int|
            0 <= i < ancestry(p).len() ==> p.take((#[trigger] ancestry(p)[i]).len() as int)
                == ancestry(p)[i],
        forall|i: int, j: int|
            #![trigger ancestry(p)[i], ancestry(p)[j]]
            0 <= i < j < ancestry(p).len() ==> ancestry(p)[j].len() < ancestry(p)[i].len(),
        spec_parent(ancestry(p).last()) is None,
    decreases p.len(),
{
    lemma_parent_prefix(p);
    let a = ancestry(p);
    assert(p.take(p.len() as int) =~= p);
    if spec_parent(p) is Some {
        let q = spec_parent(p).unwrap();
        lemma_ancestry_step(p, q);
        lemma_ancestry_shrinks(q);
        let b = ancestry(q);
        assert(a.last() == b.last());
        assert forall|i: int| 0 <= i < a.len() implies p.take((#[trigger] a[i]).len() as int) == a[i] by {
            if i > 0 {
                let x = b[i - 1];
                assert(a[i] == x);
                assert(q.take(x.len() as int) == x);
                assert(p.take(x.len() as int) =~= q.take(x.len() as int));
            }
        }
        assert forall|i: int, j: int| #![trigger a[i], a[j]] 0 <= i < j < a.len() implies a[j].len() < a[i].len() by {
            assert(a[j] == b[j - 1]);
            assert(p.take(a[j].len() as int) == a[j]);
            if i > 0 {
                assert(a[i] == b[i - 1]);
            } else {
                assert(b[j - 1].len() <= q.len());
            }
        }
    } else {
        assert(a =~= seq![p]);
    }
}

/// The session found for `p` is the latest session of the nearest path in
/// `p`'s ancestry that has one; none is found exactly when no path in the
/// ancestry has a session.
pub proof fn lemma_find_is_nearest(rows: Seq<Session>, p: Seq<char>)
    ensures
        spec_find_session(rows, p) is None <==> forall|i: int|
            0 <= i < ancestry(p).len() ==> spec_latest_session(rows, #[trigger] ancestry(p)[i])
                is None,
        spec_find_session(rows, p) matches Some(s) ==> exists|i: int|
            0 <= i < ancestry(p).len() && spec_latest_session(rows, #[trigger] ancestry(p)[i])
                == Some(s) && s.workspace_path@ == ancestry(p)[i] && forall|j: int|
                0 <= j < i ==> spec_latest_session(rows, #[trigger] ancestry(p)[j]) is None,
    decreases p.len(),
{
    lemma_parent_prefix(p);
    let a = ancestry(p);
    assert(a[0] == p);
    lemma_latest_session_found(rows, p);
    match spec_latest_session(rows, p) {
        Some(s) => {},
        None => match spec_parent(p) {
            Some(q) => {
                lemma_find_is_nearest(rows, q);
                let b = ancestry(q);
                assert(a == seq![p] + b);
                assert forall|i: int| 0 <= i < b.len() implies #[trigger] a[i + 1] == b[i] by {}
                if spec_find_session(rows, p) is None {
                    assert forall|i: int| 0 <= i < a.len() implies spec_latest_session(
                        rows,
                        #[trigger] a[i],
                    ) is None by {
                        if i > 0 {
                            assert(a[i] == b[i - 1]);
                        }
                    }
                } else {
                    assert(spec_latest_session(rows, b[0]) is None ==> spec_latest_session(
                        rows,
                        a[1],
                    ) is None);
                }
                if spec_find_session(rows, p) is Some {
                    let s = spec_find_session(rows, p).unwrap();
                    let i = choose|i: int|
                        0 <= i < b.len() && spec_latest_session(rows, #[trigger] b[i]) == Some(s)
                            && s.workspace_path@ == b[i] && forall|j: int|
                            0 <= j < i ==> spec_latest_session(rows, #[trigger] b[j]) is None;
                    assert(a[i + 1] == b[i]);
                    assert forall|j: int| 0 <= j < i + 1 implies spec_latest_session(
                        rows,
                        #[trigger] a[j],
                    ) is None by {
                        if j > 0 {
                            assert(a[j] == b[j - 1]);
                        }
                    }
                } else {
                    assert forall|i: int| 0 <= i < a.len() implies spec_latest_session(
                        rows,
                        #[trigger] a[i],
                    ) is None by {
                        if i > 0 {
                            assert(a[i] == b[i - 1]);
                        }
                    }
                }
            },
            None => {
                assert(a =~= seq![p]);
            },
        },
    }
}


/// Printed when the store has nothing for the path (no database, no table
/// yet, or no matching row).
pub const NO_SESSIONS_MESSAGE: &'static str = "no sessions found";

/// Text that a store error carries when the extension has not created the
/// `invocations` table yet.
pub const MISSING_TABLE_MARKER: &'static str = "no such table";

/// Whether a store error means the table does not exist yet, which `query`
/// reports as "no sessions found" rather than as an error.
pub fn is_missing_table_error(message: &str) -> (r: bool)
    ensures
        r == contains_text(message@, MISSING_TABLE_MARKER@),
{
    text_contains(message, MISSING_TABLE_MARKER)
}

/// What `query --dry-run` prints: the command it would run.
pub fn dry_run_message(real_code: &str, workspace: &str) -> (r: String)
    ensures
        r@ == "would exec: "@ + real_code@ + " "@ + workspace@,
{
    String::from_str("would exec: ").concat(real_code).concat(" ").concat(workspace)
}

/// How `query` reports a session it found.
pub enum QueryOutput {
    /// Print what would be executed.
    DryRun,
    /// Print the session as JSON.
    Json,
    /// Print the session as a table.
    Human,
}

/// `--dry-run` wins over `--json`; without either the table is printed.
pub fn query_output(dry_run: bool, json: bool) -> (r: QueryOutput)
    ensures
        dry_run ==> r is DryRun,
        !dry_run && json ==> r is Json,
        !dry_run && !json ==> r is Human,
{
    if dry_run {
        QueryOutput::DryRun
    } else if json {
        QueryOutput::Json
    } else {
        QueryOutput::Human
    }
}

/// Width of the label column in `query`'s table.
pub const HUMAN_LABEL_WIDTH: usize = 14;

/// The number of open files the table reports for what `serde_json` read
/// from the stored manifest: an array's length, 0 for anything else.
pub open spec fn spec_open_files_count(outline: Option<Option<usize>>) -> nat {
    match outline {
        Some(Some(n)) => n as nat,
        _ => 0,
    }
}

/// Number of open files, given what `serde_json` read from the manifest.
pub fn open_files_count_from(outline: Option<Option<usize>>) -> (r: usize)
    ensures
        r == spec_open_files_count(outline),
{
    match outline {
        Some(Some(n)) => n,
        _ => 0,
    }
}

/// Number of open files in the session's manifest (a JSON array); 0 when the
/// manifest is not an array.
pub fn open_files_count(session: &Session) -> (r: usize)
    ensures
        r == spec_open_files_count(json_outline(session.open_files@)),
{
    let outline = read_json_outline(session.open_files.as_str());
    open_files_count_from(outline)
}

/// The text for an optional field: its value, or `(none)`.
pub open spec fn or_none(o: Option<String>) -> Seq<char> {
    match o {
        Some(s) => s@,
        None => "(none)"@,
    }
}

fn or_none_str(o: &Option<String>) -> (r: &str)
    ensures
        r@ == or_none(*o),
{
    match o {
        Some(s) => s.as_str(),
        None => "(none)",
    }
}

/// The lines of `query`'s table for `s`, with `count` open files.
pub open spec fn spec_human_lines(s: Session, count: nat) -> Seq<Seq<char>> {
    seq![
        labeled_line("workspace:"@, 14, s.workspace_path@),
        labeled_line("profile:"@, 14, or_none(s.profile)),
        labeled_line("user_data_dir:"@, 14, or_none(s.user_data_dir)),
        labeled_line("server_hash:"@, 14, or_none(s.server_commit_hash)),
        labeled_line("open_files:"@, 14, decimal(count)),
        labeled_line("invoked_at:"@, 14, s.invoked_at@),
    ]
}

/// The text of an optional field: its value when present, `(none)` otherwise.
pub open spec fn field_text(o: Option<String>) -> Seq<char> {
    match o {
        Some(v) => v@,
        None => "(none)"@,
    }
}

/// Layout of `query`'s table: six lines, each a label padded to fourteen
/// columns, a space, and the value of that line's own field.
pub proof fn lemma_human_lines_layout(s: Session, count: nat)
    ensures
        spec_human_lines(s, count).len() == 6,
        spec_human_lines(s, count)[0] == "workspace:     "@ + s.workspace_path@,
        spec_human_lines(s, count)[1] == "profile:       "@ + field_text(s.profile),
        spec_human_lines(s, count)[2] == "user_data_dir: "@ + field_text(s.user_data_dir),
        spec_human_lines(s, count)[3] == "server_hash:   "@ + field_text(s.server_commit_hash),
        spec_human_lines(s, count)[4] == "open_files:    "@ + decimal(count),
        spec_human_lines(s, count)[5] == "invoked_at:    "@ + s.invoked_at@,
{
    reveal_strlit("workspace:");
    reveal_strlit("profile:");
    reveal_strlit("user_data_dir:");
    reveal_strlit("server_hash:");
    reveal_strlit("open_files:");
    reveal_strlit("invoked_at:");
    reveal_strlit("workspace:     ");
    reveal_strlit("profile:       ");
    reveal_strlit("user_data_dir: ");
    reveal_strlit("server_hash:   ");
    reveal_strlit("open_files:    ");
    reveal_strlit("invoked_at:    ");
    reveal_strlit("(none)");
    let l = spec_human_lines(s, count);
    assert(labeled_line("workspace:"@, 14, s.workspace_path@) =~= "workspace:     "@ + s.workspace_path@);
    assert(labeled_line("profile:"@, 14, or_none(s.profile)) =~= "profile:       "@ + field_text(s.profile));
    assert(labeled_line("user_data_dir:"@, 14, or_none(s.user_data_dir)) =~= "user_data_dir: "@ + field_text(
        s.user_data_dir,
    ));
    assert(labeled_line("server_hash:"@, 14, or_none(s.server_commit_hash)) =~= "server_hash:   "@
        + field_text(s.server_commit_hash));
    assert(labeled_line("open_files:"@, 14, decimal(count)) =~= "open_files:    "@ + decimal(count));
    assert(labeled_line("invoked_at:"@, 14, s.invoked_at@) =~= "invoked_at:    "@ + s.invoked_at@);
}

/// The table `query` prints for a session with `open_files_count` open files.
pub fn format_human_lines(session: &Session, open_files_count: usize) -> (r: Vec<String>)
    ensures
        string_views(r@) == spec_human_lines(*session, open_files_count as nat),
{
    let mut lines: Vec<String> = Vec::new();
    lines.push(format_labeled("workspace:", HUMAN_LABEL_WIDTH, session.workspace_path.as_str()));
    lines.push(format_labeled("profile:", HUMAN_LABEL_WIDTH, or_none_str(&session.profile)));
    lines.push(
        format_labeled("user_data_dir:", HUMAN_LABEL_WIDTH, or_none_str(&session.user_data_dir)),
    );
    lines.push(
        format_labeled("server_hash:", HUMAN_LABEL_WIDTH, or_none_str(&session.server_commit_hash)),
    );
    let count = decimal_string(open_files_count);
    lines.push(format_labeled("open_files:", HUMAN_LABEL_WIDTH, count.as_str()));
    lines.push(format_labeled("invoked_at:", HUMAN_LABEL_WIDTH, session.invoked_at.as_str()));
    assert(string_views(lines@) =~= spec_human_lines(*session, open_files_count as nat));
    lines
}

/// The table `query` prints for a session.
pub fn format_human(session: &Session) -> (r: Vec<String>)
    ensures
        string_views(r@) == spec_human_lines(
            *session,
            spec_open_files_count(json_outline(session.open_files@)),
        ),
{
    let count = open_files_count(session);
    format_human_lines(session, count)
}

/// The session as `query --json` prints it. `open_files` is JSON text.
#[derive(Debug)]
pub struct SessionJson {
    pub id: i64,
    pub invoked_at: String,
    pub workspace_path: String,
    pub user_data_dir: Option<String>,
    pub profile: Option<String>,
    pub local_ide_path: Option<String>,
    pub remote_name: Option<String>,
    pub remote_server_path: Option<String>,
    pub server_commit_hash: Option<String>,
    pub server_bin_path: Option<String>,
    pub open_files: String,
}

/// The manifest as the JSON output holds it: the stored text when it is
/// JSON, an empty array otherwise.
pub open spec fn spec_open_files_json(text: Seq<char>, outline: Option<Option<usize>>) -> Seq<char> {
    if outline is Some {
        text
    } else {
        "[]"@
    }
}

/// The manifest for the JSON output, given what `serde_json` read from it.
pub fn open_files_json_from(text: &str, outline: Option<Option<usize>>) -> (r: String)
    ensures
        r@ == spec_open_files_json(text@, outline),
{
    if outline.is_some() {
        text.to_owned()
    } else {
        String::from_str("[]")
    }
}

/// The manifest reaches the JSON output unchanged whenever `serde_json`
/// reads it as a JSON value of any kind, array or not; only text that is not
/// JSON is replaced, by an empty array. The table counts the elements of an
/// array and shows 0 for any other manifest.
pub proof fn lemma_manifest_handling(text: Seq<char>, outline: Option<Option<usize>>)
    ensures
        outline is Some ==> spec_open_files_json(text, outline) == text,
        outline is None ==> spec_open_files_json(text, outline) == seq!['[', ']'],
        outline matches Some(Some(n)) ==> spec_open_files_count(outline) == n,
        !(outline matches Some(Some(_))) ==> spec_open_files_count(outline) == 0,
{
    reveal_strlit("[]");
}

/// The session as JSON: every stored column but the IPC hook, with the
/// open-files manifest as JSON (an empty array when it is corrupt).
pub fn session_to_json(session: &Session) -> (r: SessionJson)
    ensures
        r.id == session.id,
        r.invoked_at == session.invoked_at,
        r.workspace_path == session.workspace_path,
        r.user_data_dir == session.user_data_dir,
        r.profile == session.profile,
        r.local_ide_path == session.local_ide_path,
        r.remote_name == session.remote_name,
        r.remote_server_path == session.remote_server_path,
        r.server_commit_hash == session.server_commit_hash,
        r.server_bin_path == session.server_bin_path,
        r.open_files@ == spec_open_files_json(session.open_files@, json_outline(session.open_files@)),
{
    let outline = read_json_outline(session.open_files.as_str());
    SessionJson {
        id: session.id,
        invoked_at: session.invoked_at.clone(),
        workspace_path: session.workspace_path.clone(),
        user_data_dir: copy_opt_string(&session.user_data_dir),
        profile: copy_opt_string(&session.profile),
        local_ide_path: copy_opt_string(&session.local_ide_path),
        remote_name: copy_opt_string(&session.remote_name),
        remote_server_path: copy_opt_string(&session.remote_server_path),
        server_commit_hash: copy_opt_string(&session.server_commit_hash),
        server_bin_path: copy_opt_string(&session.server_bin_path),
        open_files: open_files_json_from(session.open_files.as_str(), outline),
    }
}

} // verus!
