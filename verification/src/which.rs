//! What `this-code which` reports.

use vstd::prelude::*;
use crate::paths::opt_view;
use crate::db::SessionTable;
use crate::query::{find_session_by_ancestry, spec_find_session};
use crate::text::{format_labeled, labeled_line, string_views};

verus! {

/// The workspace of the session found for `start`, if any.
pub fn lookup_workspace(table: &SessionTable, start: &str) -> (r: Option<String>)
    ensures
        opt_view(r) == match spec_find_session(table.rows@, start@) {
            Some(s) => Some(s.workspace_path@),
            None => None,
        },
{
    match find_session_by_ancestry(table, start) {
        Some(s) => Some(s.workspace_path),
        None => None,
    }
}


/// Width of the label column in `which`'s output.
pub const WHICH_LABEL_WIDTH: usize = 11;

/// The lines `which` prints: the binary, then the workspace if one was found.
pub open spec fn spec_which_lines(binary: Seq<char>, workspace: Option<Seq<char>>) -> Seq<Seq<char>> {
    let first = seq![labeled_line("binary:"@, 11, binary)];
    match workspace {
        Some(w) => first.push(labeled_line("workspace:"@, 11, w)),
        None => first,
    }
}

/// Layout of `which`'s output: the binary after a label padded to eleven
/// columns, then the workspace line only when a workspace was found.
pub proof fn lemma_which_lines_layout(binary: Seq<char>, workspace: Option<Seq<char>>)
    ensures
        spec_which_lines(binary, workspace)[0] == "binary:     "@ + binary,
        workspace is None ==> spec_which_lines(binary, workspace).len() == 1,
        workspace matches Some(w) ==> spec_which_lines(binary, workspace).len() == 2
            && spec_which_lines(binary, workspace)[1] == "workspace:  "@ + w,
{
    reveal_strlit("binary:");
    reveal_strlit("workspace:");
    reveal_strlit("binary:     ");
    reveal_strlit("workspace:  ");
    assert(labeled_line("binary:"@, 11, binary) =~= "binary:     "@ + binary);
    match workspace {
        Some(w) => {
            assert(labeled_line("workspace:"@, 11, w) =~= "workspace:  "@ + w);
        },
        None => {},
    }
}

/// What `which` prints (without `--json`).
pub fn format_which_human(binary: &str, workspace: Option<&str>) -> (r: Vec<String>)
    ensures
        string_views(r@) == spec_which_lines(
            binary@,
            match workspace {
                Some(w) => Some(w@),
                None => None,
            },
        ),
{
    let mut lines: Vec<String> = Vec::new();
    lines.push(format_labeled("binary:", WHICH_LABEL_WIDTH, binary));
    match workspace {
        Some(w) => {
            lines.push(format_labeled("workspace:", WHICH_LABEL_WIDTH, w));
        },
        None => {},
    }
    assert(string_views(lines@) =~= spec_which_lines(
        binary@,
        match workspace {
            Some(w) => Some(w@),
            None => None,
        },
    ));
    lines
}

} // verus!
