//! The session store's rows and the rule by which the store answers a lookup
//! of one workspace path: its most recent row.

use vstd::prelude::*;
use crate::paths::chars_equal;
use crate::text::str_chars;

verus! {

/// One row of the `invocations` table.
#[derive(Debug)]
pub struct Session {
    pub id: i64,
    pub invoked_at: String,
    pub workspace_path: String,
    pub user_data_dir: Option<String>,
    pub profile: Option<String>,
    pub local_ide_path: Option<String>,
    pub remote_name: Option<String>,
    pub remote_server_path: Option<String>,
    pub server_commit_hash: Option<String>,
    pub server_bin_path: Option<String>,
    pub open_files: String,
    pub ipc_hook_cli: Option<String>,
}

/// The rows of the `invocations` table that a lookup may consider, in the
/// order the store returned them.
pub struct SessionTable {
    pub rows: Vec<Session>,
}

/// `i` is where `a` and `b` first differ in a way that puts `a` first: `a`
/// ends there while `b` goes on, or `a`'s character there is the smaller.
pub open spec fn text_lt_at(a: Seq<char>, b: Seq<char>, i: int) -> bool {
    &&& 0 <= i <= a.len()
    &&& i <= b.len()
    &&& forall|j: int| 0 <= j < i ==> a[j] == b[j]
    &&& ((i == a.len() && i < b.len()) || (i < a.len() && i < b.len() && a[i] < b[i]))
}

/// `a` sorts before `b` as SQLite's `BINARY` collation orders text (UTF-8
/// byte order, which is code-point order).
pub open spec fn text_lt(a: Seq<char>, b: Seq<char>) -> bool {
    exists|i: int| text_lt_at(a, b, i)
}

pub proof fn lemma_text_lt_irreflexive(a: Seq<char>)
    ensures
        !text_lt(a, a),
{
}

pub proof fn lemma_text_lt_asymmetric(a: Seq<char>, b: Seq<char>)
    ensures
        !(text_lt(a, b) && text_lt(b, a)),
{
    if text_lt(a, b) && text_lt(b, a) {
        let i = choose|i: int| text_lt_at(a, b, i);
        let k = choose|k: int| text_lt_at(b, a, k);
        if i < k {
            assert(b[i] == a[i]);
        } else if k < i {
            assert(a[k] == b[k]);
        }
    }
}

pub proof fn lemma_text_lt_transitive(a: Seq<char>, b: Seq<char>, c: Seq<char>)
    requires
        text_lt(a, b),
        text_lt(b, c),
    ensures
        text_lt(a, c),
{
    let i = choose|i: int| text_lt_at(a, b, i);
    let k = choose|k: int| text_lt_at(b, c, k);
    if i < k {
        assert(c[i] == b[i]);
        assert(text_lt_at(a, c, i));
    } else if k < i {
        assert(a[k] == b[k]);
        assert(text_lt_at(a, c, k));
    } else {
        assert(text_lt_at(a, c, i));
    }
}

proof fn lemma_text_lt_total_from(a: Seq<char>, b: Seq<char>, n: int)
    requires
        0 <= n <= a.len(),
        n <= b.len(),
        forall|j: int| 0 <= j < n ==> a[j] == b[j],
        a != b,
    ensures
        text_lt(a, b) || text_lt(b, a),
    decreases a.len() - n,
{
    if n == a.len() && n == b.len() {
        assert(a =~= b);
    } else if n == a.len() {
        assert(text_lt_at(a, b, n));
    } else if n == b.len() {
        assert(text_lt_at(b, a, n));
    } else if a[n] < b[n] {
        assert(text_lt_at(a, b, n));
    } else if b[n] < a[n] {
        assert(text_lt_at(b, a, n));
    } else {
        lemma_text_lt_total_from(a, b, n + 1);
    }
}

pub proof fn lemma_text_lt_total(a: Seq<char>, b: Seq<char>)
    requires
        a != b,
    ensures
        text_lt(a, b) || text_lt(b, a),
{
    lemma_text_lt_total_from(a, b, 0);
}

/// Whether `a` sorts before `b` as text.
pub fn text_less(a: &Vec<char>, b: &Vec<char>) -> (r: bool)
    ensures
        r == text_lt(a@, b@),
{
    let mut i: usize = 0;
    while i < a.len() && i < b.len() && a[i] == b[i]
        invariant
            i <= a@.len(),
            i <= b@.len(),
            forall|j: int| 0 <= j < i ==> a@[j] == b@[j],
        decreases a@.len() - i,
    {
        i = i + 1;
    }
    if i == a.len() && i < b.len() {
        assert(text_lt_at(a@, b@, i as int));
        true
    } else if i < a.len() && i < b.len() && a[i] < b[i] {
        assert(text_lt_at(a@, b@, i as int));
        true
    } else {
        proof {
            if i == a.len() && i == b.len() {
                assert(a@ =~= b@);
            } else {
                assert(text_lt_at(b@, a@, i as int));
                lemma_text_lt_asymmetric(a@, b@);
            }
        }
        false
    }
}

/// `rows[i]` is the session a lookup of workspace `w` returns: a row of that
/// workspace with the greatest `invoked_at`, the first such row on a tie
/// (`WHERE workspace_path = w ORDER BY invoked_at DESC LIMIT 1`).
pub open spec fn is_latest_index(rows: Seq<Session>, w: Seq<char>, i: int) -> bool {
    &&& 0 <= i < rows.len()
    &&& rows[i].workspace_path@ == w
    &&& forall|j: int|
        #![trigger rows[j]]
        0 <= j < rows.len() && rows[j].workspace_path@ == w ==> !text_lt(
            rows[i].invoked_at@,
            rows[j].invoked_at@,
        )
    &&& forall|j: int|
        #![trigger rows[j]]
        0 <= j < i && rows[j].workspace_path@ == w ==> text_lt(
            rows[j].invoked_at@,
            rows[i].invoked_at@,
        )
}

/// The most recent session recorded for workspace `w`, if any.
pub open spec fn spec_latest_session(rows: Seq<Session>, w: Seq<char>) -> Option<Session> {
    if exists|i: int| is_latest_index(rows, w, i) {
        Some(rows[choose|i: int| is_latest_index(rows, w, i)])
    } else {
        None
    }
}

/// Only one row is the latest of a workspace.
pub proof fn lemma_latest_index_unique(rows: Seq<Session>, w: Seq<char>, i: int, k: int)
    requires
        is_latest_index(rows, w, i),
        is_latest_index(rows, w, k),
    ensures
        i == k,
{
    if i < k {
        assert(text_lt(rows[i].invoked_at@, rows[k].invoked_at@));
        assert(!text_lt(rows[i].invoked_at@, rows[k].invoked_at@));
    } else if k < i {
        assert(text_lt(rows[k].invoked_at@, rows[i].invoked_at@));
        assert(!text_lt(rows[k].invoked_at@, rows[i].invoked_at@));
    }
}

/// A lookup finds a session exactly when a row of the workspace exists, and
/// that session belongs to the workspace.
pub proof fn lemma_latest_session_found(rows: Seq<Session>, w: Seq<char>)
    ensures
        spec_latest_session(rows, w) is Some <==> exists|i: int|
            0 <= i < rows.len() && (#[trigger] rows[i]).workspace_path@ == w,
        spec_latest_session(rows, w) matches Some(s) ==> s.workspace_path@ == w,
{
    if spec_latest_session(rows, w) is Some {
        let i = choose|i: int| is_latest_index(rows, w, i);
        assert(0 <= i < rows.len() && rows[i].workspace_path@ == w);
    }
    if exists|i: int| 0 <= i < rows.len() && (#[trigger] rows[i]).workspace_path@ == w {
        if !exists|i: int| is_latest_index(rows, w, i) {
            let j = choose|i: int| 0 <= i < rows.len() && (#[trigger] rows[i]).workspace_path@ == w;
            lemma_latest_exists(rows, w, j, 0);
        }
    }
}

/// The latest row among those the scan has not passed yet exists once a
/// matching row is known.
proof fn lemma_latest_exists(rows: Seq<Session>, w: Seq<char>, j: int, start: int)
    requires
        0 <= start <= j < rows.len(),
        rows[j].workspace_path@ == w,
        forall|k: int| 0 <= k < start ==> (#[trigger] rows[k]).workspace_path@ != w,
    ensures
        exists|i: int| is_latest_index(rows, w, i),
    decreases rows.len() - start,
{
    // Take the first matching row at or after `start` whose text no matching
    // row exceeds and which exceeds every earlier matching row.
    if rows[start].workspace_path@ != w {
        lemma_latest_exists(rows, w, j, start + 1);
    } else {
        lemma_latest_among(rows, w, start, start + 1);
    }
}

/// Scanning on from `best`, a matching row that nothing seen so far exceeds
/// stays the candidate until a strictly greater one appears.
proof fn lemma_latest_among(rows: Seq<Session>, w: Seq<char>, best: int, next: int)
    requires
        0 <= best < next <= rows.len(),
        rows[best].workspace_path@ == w,
        forall|k: int|
            #![trigger rows[k]]
            0 <= k < next && rows[k].workspace_path@ == w ==> !text_lt(
                rows[best].invoked_at@,
                rows[k].invoked_at@,
            ),
        forall|k: int|
            #![trigger rows[k]]
            0 <= k < best && rows[k].workspace_path@ == w ==> text_lt(
                rows[k].invoked_at@,
                rows[best].invoked_at@,
            ),
    ensures
        exists|i: int| is_latest_index(rows, w, i),
    decreases rows.len() - next,
{
    if next == rows.len() {
        assert(is_latest_index(rows, w, best));
    } else if rows[next].workspace_path@ == w && text_lt(
        rows[best].invoked_at@,
        rows[next].invoked_at@,
    ) {
        let x = rows[next].invoked_at@;
        assert forall|k: int|
            #![trigger rows[k]]
            0 <= k < next + 1 && rows[k].workspace_path@ == w implies !text_lt(
                x,
                rows[k].invoked_at@,
            ) && (k < next ==> text_lt(rows[k].invoked_at@, x)) by {
            if k == next {
                lemma_text_lt_irreflexive(x);
            } else {
                step_below(rows[k].invoked_at@, rows[best].invoked_at@, x);
            }
        }
        lemma_latest_among(rows, w, next, next + 1);
    } else {
        lemma_latest_among(rows, w, best, next + 1);
    }
}

/// What sorts no later than `b`, which sorts before `x`, sorts before `x`.
proof fn step_below(y: Seq<char>, b: Seq<char>, x: Seq<char>)
    requires
        !text_lt(b, y),
        text_lt(b, x),
    ensures
        text_lt(y, x),
        !text_lt(x, y),
{
    if y != b {
        lemma_text_lt_total(y, b);
        lemma_text_lt_transitive(y, b, x);
    }
    lemma_text_lt_asymmetric(y, x);
}

/// A copy of an optional text.
pub fn copy_opt_string(o: &Option<String>) -> (r: Option<String>)
    ensures
        r == *o,
{
    match o {
        Some(s) => Some(s.clone()),
        None => None,
    }
}

impl Session {
    /// A field-by-field copy.
    pub fn copy(&self) -> (r: Session)
        ensures
            r == *self,
    {
        Session {
            id: self.id,
            invoked_at: self.invoked_at.clone(),
            workspace_path: self.workspace_path.clone(),
            user_data_dir: copy_opt_string(&self.user_data_dir),
            profile: copy_opt_string(&self.profile),
            local_ide_path: copy_opt_string(&self.local_ide_path),
            remote_name: copy_opt_string(&self.remote_name),
            remote_server_path: copy_opt_string(&self.remote_server_path),
            server_commit_hash: copy_opt_string(&self.server_commit_hash),
            server_bin_path: copy_opt_string(&self.server_bin_path),
            open_files: self.open_files.clone(),
            ipc_hook_cli: copy_opt_string(&self.ipc_hook_cli),
        }
    }
}

impl SessionTable {
    /// An empty table.
    pub fn new() -> (r: SessionTable)
        ensures
            r.rows@ == Seq::<Session>::empty(),
    {
        SessionTable { rows: Vec::new() }
    }

    /// Add a row after the existing ones.
    pub fn insert(&mut self, row: Session)
        ensures
            final(self).rows@ == old(self).rows@.push(row),
    {
        self.rows.push(row);
    }
}

/// The most recent session (by `invoked_at`) recorded for exactly the
/// workspace path `workspace`.
pub fn query_latest_session(table: &SessionTable, workspace: &str) -> (r: Option<Session>)
    ensures
        r == spec_latest_session(table.rows@, workspace@),
{
    let rows = &table.rows;
    let ghost rs = rows@;
    let w = str_chars(workspace);
    let mut best: Option<usize> = None;
    let mut i: usize = 0;
    while i < rows.len()
        invariant
            i <= rs.len(),
            rs == rows@,
            w@ == workspace@,
            best is None ==> forall|k: int|
                #![trigger rs[k]]
                0 <= k < i ==> rs[k].workspace_path@ != workspace@,
            best matches Some(b) ==> {
                &&& b < i
                &&& rs[b as int].workspace_path@ == workspace@
                &&& forall|k: int|
                    #![trigger rs[k]]
                    0 <= k < i && rs[k].workspace_path@ == workspace@ ==> !text_lt(
                        rs[b as int].invoked_at@,
                        rs[k].invoked_at@,
                    )
                &&& forall|k: int|
                    #![trigger rs[k]]
                    0 <= k < b && rs[k].workspace_path@ == workspace@ ==> text_lt(
                        rs[k].invoked_at@,
                        rs[b as int].invoked_at@,
                    )
            },
        decreases rs.len() - i,
    {
        let wp = str_chars(rows[i].workspace_path.as_str());
        if chars_equal(&wp, &w) {
            match best {
                None => {
                    proof {
                        lemma_text_lt_irreflexive(rs[i as int].invoked_at@);
                    }
                    best = Some(i);
                },
                Some(b) => {
                    let cur = str_chars(rows[b].invoked_at.as_str());
                    let x = str_chars(rows[i].invoked_at.as_str());
                    if text_less(&cur, &x) {
                        proof {
                            let xv = rs[i as int].invoked_at@;
                            assert forall|k: int|
                                #![trigger rs[k]]
                                0 <= k < i + 1 && rs[k].workspace_path@ == workspace@ implies !text_lt(
                                    xv,
                                    rs[k].invoked_at@,
                                ) && (k < i ==> text_lt(rs[k].invoked_at@, xv)) by {
                                if k == i {
                                    lemma_text_lt_irreflexive(xv);
                                } else {
                                    step_below(rs[k].invoked_at@, rs[b as int].invoked_at@, xv);
                                }
                            }
                        }
                        best = Some(i);
                    }
                },
            }
        }
        i = i + 1;
    }
    match best {
        None => {
            proof {
                if exists|k: int| is_latest_index(rs, workspace@, k) {
                    let k = choose|k: int| is_latest_index(rs, workspace@, k);
                    assert(rs[k].workspace_path@ == workspace@);
                }
            }
            None
        },
        Some(b) => {
            proof {
                assert(is_latest_index(rs, workspace@, b as int));
                let k = choose|k: int| is_latest_index(rs, workspace@, k);
                lemma_latest_index_unique(rs, workspace@, b as int, k);
            }
            Some(rows[b].copy())
        },
    }
}

/// Text order puts a text before every longer text that extends it.
pub proof fn lemma_text_lt_proper_prefix(a: Seq<char>, x: Seq<char>)
    requires
        x.len() > 0,
    ensures
        text_lt(a, a + x),
        !text_lt(a + x, a),
{
    assert(text_lt_at(a, a + x, a.len() as int));
    lemma_text_lt_asymmetric(a, a + x);
}

/// Text order compares the first differing characters.
pub proof fn lemma_text_lt_first_difference(a: Seq<char>, b: Seq<char>, i: int)
    requires
        0 <= i < a.len(),
        i < b.len(),
        forall|j: int| 0 <= j < i ==> a[j] == b[j],
        a[i] < b[i],
    ensures
        text_lt(a, b),
        !text_lt(b, a),
{
    assert(text_lt_at(a, b, i));
    lemma_text_lt_asymmetric(a, b);
}

/// The session a lookup returns is one of the workspace's rows, and no row
/// of that workspace was invoked later; rows before it were invoked earlier.
pub proof fn lemma_latest_session_is_greatest(rows: Seq<Session>, w: Seq<char>)
    ensures
        spec_latest_session(rows, w) matches Some(s) ==> exists|i: int|
            #![trigger rows[i]]
            0 <= i < rows.len() && rows[i] == s && s.workspace_path@ == w && (forall|j: int|
                0 <= j < rows.len() && (#[trigger] rows[j]).workspace_path@ == w ==> !text_lt(
                    s.invoked_at@,
                    rows[j].invoked_at@,
                )) && (forall|j: int|
                0 <= j < i && (#[trigger] rows[j]).workspace_path@ == w ==> text_lt(
                    rows[j].invoked_at@,
                    s.invoked_at@,
                )),
{
    if spec_latest_session(rows, w) is Some {
        let i = choose|i: int| is_latest_index(rows, w, i);
        assert(is_latest_index(rows, w, i));
        assert(rows[i] == spec_latest_session(rows, w).unwrap());
    }
}

} // verus!
