//! Argument and `PATH` handling of the `code` shim.

use vstd::prelude::*;
use crate::db::{copy_opt_string, Session};
use crate::paths::{join_path, opt_view, paths_equal, same_path, spec_join_path};
use crate::text::{
    all_digits, all_digits_in, free_of, is_last_index_of, join_chars, join_with, last_index_of, lemma_filter_all,
    lemma_filter_free_of, lemma_filter_passes, lemma_join_split, lemma_split_free_of,
    lemma_split_join, lemma_split_none, rfind_char, split_chars, split_on, str_chars,
    string_from_chars, string_views, views,
};

verus! {

/// What remains of `s` once a trailing `:line` or `:line:col` goto suffix,
/// made of ASCII digits only, is removed.
pub open spec fn spec_strip_goto_suffix(s: Seq<char>) -> Seq<char> {
    match last_index_of(s, ':') {
        None => s,
        Some(k) => if all_digits(s.subrange(k + 1, s.len() as int)) {
            let prefix = s.subrange(0, k);
            match last_index_of(prefix, ':') {
                Some(j) => if all_digits(prefix.subrange(j + 1, k)) {
                    prefix.subrange(0, j)
                } else {
                    prefix
                },
                None => prefix,
            }
        } else {
            s
        },
    }
}

/// Strip a trailing `:N` or `:N:N` goto suffix from a path string.
///
/// VS Code appends `:line` or `:line:col` (both integers) to `--goto`
/// arguments. Only strips when the trailing colon-separated components are
/// all ASCII digits, so Windows drive letters (`C:\...`) and paths with colons
/// in directory names are preserved unchanged.
pub fn strip_goto_suffix<'a>(s: &'a str) -> (r: &'a str)
    ensures
        r@ == spec_strip_goto_suffix(s@),
{
    let v = str_chars(s);
    let n = v.len();
    assert(v@.take(n as int) =~= v@);
    match rfind_char(&v, ':', n) {
        None => s,
        Some(k) => {
            if all_digits_in(&v, k + 1, n) {
                assert(v@.take(k as int) =~= s@.subrange(0, k as int));
                match rfind_char(&v, ':', k) {
                    Some(j) => {
                        assert(v@.subrange(j + 1, k as int) =~= s@.subrange(0, k as int).subrange(
                            j + 1,
                            k as int,
                        ));
                        if all_digits_in(&v, j + 1, k) {
                            assert(s@.subrange(0, k as int).subrange(0, j as int) =~= s@.subrange(
                                0,
                                j as int,
                            ));
                            s.substring_char(0, j)
                        } else {
                            s.substring_char(0, k)
                        }
                    },
                    None => s.substring_char(0, k),
                }
            } else {
                s
            }
        },
    }
}


/// `t` is a goto suffix: `:line` or `:line:col`, digits only.
pub open spec fn is_goto_suffix(t: Seq<char>) -> bool {
    ||| (t.len() > 0 && t[0] == ':' && all_digits(t.drop_first()))
    ||| exists|j: int|
        0 < j < t.len() && t[0] == ':' && #[trigger] t[j] == ':' && all_digits(t.subrange(1, j))
            && all_digits(t.subrange(j + 1, t.len() as int))
}

/// Stripping keeps a prefix of the argument and removes nothing but a goto
/// suffix.
pub proof fn lemma_strip_goto_suffix_removes_only_goto(s: Seq<char>)
    ensures
        spec_strip_goto_suffix(s).len() <= s.len(),
        s.take(spec_strip_goto_suffix(s).len() as int) == spec_strip_goto_suffix(s),
        spec_strip_goto_suffix(s) == s || is_goto_suffix(
            s.skip(spec_strip_goto_suffix(s).len() as int),
        ),
{
    let r = spec_strip_goto_suffix(s);
    match last_index_of(s, ':') {
        None => {
            assert(s.take(s.len() as int) =~= s);
        },
        Some(k) => {
            assert(is_last_index_of(s, ':', k));
            if all_digits(s.subrange(k + 1, s.len() as int)) {
                let prefix = s.subrange(0, k);
                match last_index_of(prefix, ':') {
                    Some(j) => {
                        assert(is_last_index_of(prefix, ':', j));
                        if all_digits(prefix.subrange(j + 1, k)) {
                            let t = s.skip(j);
                            assert(t.subrange(1, k - j) =~= prefix.subrange(j + 1, k));
                            assert(t.subrange(k - j + 1, t.len() as int) =~= s.subrange(
                                k + 1,
                                s.len() as int,
                            ));
                            assert(t[k - j] == ':');
                            assert(s.take(j) =~= r);
                        } else {
                            assert(s.take(k) =~= r);
                            assert(s.skip(k).drop_first() =~= s.subrange(k + 1, s.len() as int));
                        }
                    },
                    None => {
                        assert(s.take(k) =~= r);
                        assert(s.skip(k).drop_first() =~= s.subrange(k + 1, s.len() as int));
                    },
                }
            } else {
                assert(s.take(s.len() as int) =~= s);
            }
        },
    }
}

/// Keeps a `PATH` entry unless it names the same path as `own`.
pub open spec fn keeps_entry(own: Seq<char>) -> spec_fn(Seq<char>) -> bool {
    |entry: Seq<char>| !same_path(entry, own)
}

/// The entries of a colon-separated `PATH` value.
pub open spec fn path_entries(path_env: Seq<char>) -> Seq<Seq<char>> {
    split_on(path_env, ':')
}

/// `path_env` with every entry that names `own` removed, the others kept in
/// order and joined by `:`.
pub open spec fn spec_strip_own_bin(path_env: Seq<char>, own: Seq<char>) -> Seq<char> {
    join_with(path_entries(path_env).filter(keeps_entry(own)), ':')
}

/// Remove `~/.this-code/bin` from a colon-separated PATH string.
///
/// Used before searching `PATH` for the real `code` binary, to prevent the
/// shim from finding itself. Entries are compared as paths, as `Path`'s `==`
/// compares them.
pub fn strip_own_bin_from_path(path_env: &str, own_bin: &str) -> (r: String)
    ensures
        r@ == spec_strip_own_bin(path_env@, own_bin@),
{
    let v = str_chars(path_env);
    let entries = split_chars(&v, ':');
    let ghost es = views(entries@);
    let mut kept: Vec<Vec<char>> = Vec::new();
    let mut i: usize = 0;
    while i < entries.len()
        invariant
            i <= entries@.len(),
            es == views(entries@),
            es == path_entries(path_env@),
            views(kept@) == es.take(i as int).filter(keeps_entry(own_bin@)),
        decreases entries@.len() - i,
    {
        proof {
            reveal_with_fuel(Seq::filter, 1);
            assert(es.take(i + 1).drop_last() =~= es.take(i as int));
            assert(es.take(i + 1).last() == entries@[i as int]@);
        }
        let entry = string_from_chars(entries[i].as_slice());
        if !paths_equal(entry.as_str(), own_bin) {
            let mut copy: Vec<char> = Vec::new();
            crate::text::extend_chars(&mut copy, &entries[i]);
            assert(copy@ =~= entries@[i as int]@);
            kept.push(copy);
            assert(views(kept@) =~= es.take(i as int).filter(keeps_entry(own_bin@)).push(
                entries@[i as int]@,
            ));
        }
        i = i + 1;
    }
    assert(es.take(i as int) =~= es);
    let joined = join_chars(&kept, kept.len(), ':');
    assert(views(kept@).take(kept@.len() as int) =~= views(kept@));
    string_from_chars(joined.as_slice())
}

proof fn lemma_split_empty(c: char)
    ensures
        split_on(Seq::<char>::empty(), c) == seq![Seq::<char>::empty()],
{
    lemma_split_none(Seq::<char>::empty(), c);
}

/// The entries that stripping keeps are the ones it gets back when the
/// result is split again, or the result is empty.
proof fn lemma_strip_resplit(path_env: Seq<char>, own: Seq<char>)
    ensures
        ({
            let f = path_entries(path_env).filter(keeps_entry(own));
            let r = spec_strip_own_bin(path_env, own);
            (f.len() >= 1 ==> path_entries(r) == f) && (f.len() == 0 ==> r == Seq::<char>::empty())
        }),
{
    let f = path_entries(path_env).filter(keeps_entry(own));
    lemma_split_free_of(path_env, ':');
    lemma_filter_free_of(path_entries(path_env), keeps_entry(own), ':');
    if f.len() >= 1 {
        lemma_split_join(f, ':');
    }
}

/// Stripping is idempotent: stripping a stripped `PATH` changes nothing.
pub proof fn lemma_strip_own_bin_idempotent(path_env: Seq<char>, own: Seq<char>)
    ensures
        spec_strip_own_bin(spec_strip_own_bin(path_env, own), own) == spec_strip_own_bin(
            path_env,
            own,
        ),
{
    let f = path_entries(path_env).filter(keeps_entry(own));
    let r = spec_strip_own_bin(path_env, own);
    lemma_strip_resplit(path_env, own);
    lemma_filter_passes(path_entries(path_env), keeps_entry(own));
    if f.len() >= 1 {
        lemma_filter_all(f, keeps_entry(own));
    } else {
        lemma_split_empty(':');
        let e = seq![Seq::<char>::empty()];
        reveal_with_fuel(Seq::filter, 2);
        assert(e.drop_last() =~= Seq::<Seq<char>>::empty());
        let g = e.filter(keeps_entry(own));
        assert(g.len() <= 1);
        if g.len() == 1 {
            assert(g =~= e);
        } else {
            assert(g =~= Seq::<Seq<char>>::empty());
        }
    }
}

/// A `PATH` without the shim's own directory comes back unchanged.
pub proof fn lemma_strip_own_bin_keeps_others(path_env: Seq<char>, own: Seq<char>)
    requires
        forall|i: int|
            0 <= i < path_entries(path_env).len() ==> !same_path(
                #[trigger] path_entries(path_env)[i],
                own,
            ),
    ensures
        spec_strip_own_bin(path_env, own) == path_env,
{
    let es = path_entries(path_env);
    assert forall|i: int| 0 <= i < es.len() implies (keeps_entry(own))(#[trigger] es[i]) by {}
    lemma_filter_all(es, keeps_entry(own));
    lemma_join_split(path_env, ':');
}

/// Stripping keeps every entry that does not name `own`, and what remains
/// (unless nothing does) consists only of such entries of the input.
pub proof fn lemma_strip_own_bin_keeps_the_rest(path_env: Seq<char>, own: Seq<char>)
    ensures
        forall|i: int|
            0 <= i < path_entries(path_env).len() && !same_path(
                #[trigger] path_entries(path_env)[i],
                own,
            ) ==> path_entries(spec_strip_own_bin(path_env, own)).contains(path_entries(path_env)[i]),
        (exists|i: int|
            0 <= i < path_entries(path_env).len() && !same_path(
                #[trigger] path_entries(path_env)[i],
                own,
            )) ==> forall|j: int|
            0 <= j < path_entries(spec_strip_own_bin(path_env, own)).len() ==> path_entries(
                path_env,
            ).contains(#[trigger] path_entries(spec_strip_own_bin(path_env, own))[j]) && !same_path(
                path_entries(spec_strip_own_bin(path_env, own))[j],
                own,
            ),
{
    let e = path_entries(path_env);
    let f = e.filter(keeps_entry(own));
    let r = spec_strip_own_bin(path_env, own);
    lemma_strip_resplit(path_env, own);
    lemma_filter_passes(e, keeps_entry(own));
    assert forall|i: int| 0 <= i < e.len() && !same_path(#[trigger] e[i], own) implies path_entries(r).contains(e[i]) by {
        e.lemma_filter_contains(keeps_entry(own), i);
        assert(f.len() >= 1);
    }
    if exists|i: int| 0 <= i < e.len() && !same_path(#[trigger] e[i], own) {
        let i = choose|i: int| 0 <= i < e.len() && !same_path(#[trigger] e[i], own);
        e.lemma_filter_contains(keeps_entry(own), i);
        assert(f.len() >= 1);
        assert forall|j: int| 0 <= j < path_entries(r).len() implies e.contains(#[trigger] path_entries(r)[j]) && !same_path(path_entries(r)[j], own) by {
            assert(f.contains(f[j]));
            e.lemma_filter_contains_rev(keeps_entry(own), f[j]);
        }
    }
}

/// After stripping, no entry of `PATH` names the shim's own directory (unless
/// that directory is written as a path with no component at all, such as the
/// empty string, which an emptied `PATH` consists of).
pub proof fn lemma_strip_own_bin_removes(path_env: Seq<char>, own: Seq<char>)
    requires
        !same_path(Seq::<char>::empty(), own),
    ensures
        forall|i: int|
            0 <= i < path_entries(spec_strip_own_bin(path_env, own)).len() ==> !same_path(
                #[trigger] path_entries(spec_strip_own_bin(path_env, own))[i],
                own,
            ),
{
    let f = path_entries(path_env).filter(keeps_entry(own));
    lemma_strip_resplit(path_env, own);
    lemma_filter_passes(path_entries(path_env), keeps_entry(own));
    if f.len() == 0 {
        lemma_split_empty(':');
    }
}


/// An argument that is an option rather than a path: it starts with `-`.
pub open spec fn is_flag(arg: Seq<char>) -> bool {
    arg.len() > 0 && arg[0] == '-'
}

/// The path the shim looks sessions up for: the first argument that is not an
/// option, without its goto suffix; `cwd` when every argument is an option.
pub open spec fn spec_lookup_path(args: Seq<Seq<char>>, cwd: Seq<char>) -> Seq<char>
    decreases args.len(),
{
    if args.len() == 0 {
        cwd
    } else if !is_flag(args[0]) {
        spec_strip_goto_suffix(args[0])
    } else {
        spec_lookup_path(args.drop_first(), cwd)
    }
}

/// Extract the lookup path from the shim's arguments.
///
/// Uses the first non-flag argument as the candidate path, with the
/// `:line:col` suffix that VS Code appends for `--goto` navigation stripped.
/// Falls back to `cwd` (the working directory) when no positional argument is
/// present.
pub fn resolve_shim_lookup_path(args: &Vec<String>, cwd: &str) -> (r: String)
    ensures
        r@ == spec_lookup_path(string_views(args@), cwd@),
{
    let ghost all = string_views(args@);
    let mut i: usize = 0;
    assert(all.skip(0) =~= all);
    while i < args.len()
        invariant
            i <= args@.len(),
            all == string_views(args@),
            spec_lookup_path(all.skip(i as int), cwd@) == spec_lookup_path(all, cwd@),
        decreases args@.len() - i,
    {
        let ghost rest = all.skip(i as int);
        assert(rest[0] == args@[i as int]@);
        assert(rest.drop_first() =~= all.skip(i + 1));
        let a = args[i].as_str();
        let v = str_chars(a);
        if !(v.len() > 0 && v[0] == '-') {
            return strip_goto_suffix(a).to_owned();
        }
        i = i + 1;
    }
    assert(all.skip(i as int) =~= Seq::<Seq<char>>::empty());
    cwd.to_owned()
}

/// The value that marks a nested shim invocation.
pub const RECURSION_GUARD_VALUE: &'static str = "1";

/// Whether the recursion guard is set: `THIS_CODE_ACTIVE` holds exactly `1`.
/// `value` is that variable's value, `None` when it is unset (or not valid
/// Unicode).
pub fn is_recursion_guard_active(value: Option<&str>) -> (r: bool)
    ensures
        r == (value matches Some(v) && v@ == RECURSION_GUARD_VALUE@),
{
    match value {
        Some(v) => {
            let a = str_chars(v);
            let b = str_chars(RECURSION_GUARD_VALUE);
            crate::paths::chars_equal(&a, &b)
        },
        None => false,
    }
}

/// Environment variable set on the child to prevent recursion.
pub const RECURSION_GUARD_VAR: &'static str = "THIS_CODE_ACTIVE";

/// Environment variable that tells `remote-cli/code` which running server to
/// talk to.
pub const IPC_HOOK_VAR: &'static str = "VSCODE_IPC_HOOK_CLI";

pub open spec fn pair_views(v: Seq<(String, String)>) -> Seq<(Seq<char>, Seq<char>)> {
    v.map_values(|p: (String, String)| (p.0@, p.1@))
}

/// The variables set on the real `code` process: the recursion guard, and
/// `VSCODE_IPC_HOOK_CLI` when a socket is known.
pub open spec fn spec_child_env(ipc_hook: Option<Seq<char>>) -> Seq<(Seq<char>, Seq<char>)> {
    let guard = seq![(RECURSION_GUARD_VAR@, RECURSION_GUARD_VALUE@)];
    match ipc_hook {
        Some(h) => guard.push((IPC_HOOK_VAR@, h)),
        None => guard,
    }
}

/// The environment variables the shim sets on the process it executes.
pub fn child_env(ipc_hook: Option<&str>) -> (r: Vec<(String, String)>)
    ensures
        pair_views(r@) == spec_child_env(
            match ipc_hook {
                Some(h) => Some(h@),
                None => None,
            },
        ),
{
    let mut env: Vec<(String, String)> = Vec::new();
    env.push((RECURSION_GUARD_VAR.to_owned(), RECURSION_GUARD_VALUE.to_owned()));
    match ipc_hook {
        Some(h) => {
            env.push((IPC_HOOK_VAR.to_owned(), h.to_owned()));
        },
        None => {},
    }
    assert(pair_views(env@) =~= spec_child_env(
        match ipc_hook {
            Some(h) => Some(h@),
            None => None,
        },
    ));
    env
}

/// Where `remote-cli/code` lives under a VS Code Server directory in the
/// current layout.
pub const REMOTE_CLI_CURRENT: &'static str = "server/bin/remote-cli/code";

/// Where `remote-cli/code` lives under a VS Code Server directory in the
/// legacy layout.
pub const REMOTE_CLI_LEGACY: &'static str = "bin/remote-cli/code";

/// The two places a session's `remote-cli/code` may be, and the IPC socket
/// to hand it.
pub struct RemoteCli {
    pub current: String,
    pub legacy: String,
    pub ipc_hook_cli: Option<String>,
}

/// Where to look for the `remote-cli/code` binary of a session: `None` when
/// the session records no server directory.
pub fn remote_cli_candidates(session: &Session) -> (r: Option<RemoteCli>)
    ensures
        session.remote_server_path is None <==> r is None,
        r matches Some(c) ==> {
            &&& c.current@ == spec_join_path(
                session.remote_server_path.unwrap()@,
                REMOTE_CLI_CURRENT@,
            )
            &&& c.legacy@ == spec_join_path(session.remote_server_path.unwrap()@, REMOTE_CLI_LEGACY@)
            &&& c.ipc_hook_cli == session.ipc_hook_cli
        },
{
    match &session.remote_server_path {
        Some(dir) => Some(
            RemoteCli {
                current: join_path(dir.as_str(), REMOTE_CLI_CURRENT),
                legacy: join_path(dir.as_str(), REMOTE_CLI_LEGACY),
                ipc_hook_cli: copy_opt_string(&session.ipc_hook_cli),
            },
        ),
        None => None,
    }
}

/// The `remote-cli/code` to run, given which candidates exist: the current
/// layout first, then the legacy one; `None` when neither exists.
pub fn pick_remote_cli(candidates: RemoteCli, current_exists: bool, legacy_exists: bool) -> (r:
    Option<(String, Option<String>)>)
    ensures
        current_exists ==> r == Some((candidates.current, candidates.ipc_hook_cli)),
        !current_exists && legacy_exists ==> r == Some((candidates.legacy, candidates.ipc_hook_cli)),
        !current_exists && !legacy_exists ==> r is None,
{
    if current_exists {
        Some((candidates.current, candidates.ipc_hook_cli))
    } else if legacy_exists {
        Some((candidates.legacy, candidates.ipc_hook_cli))
    } else {
        None
    }
}

/// Which binary the shim executes.
pub enum ShimRoute {
    /// The real `code` binary (configured, or found on the stripped `PATH`),
    /// with no IPC socket.
    RealCode,
    /// A session's `remote-cli/code`, with its IPC socket if recorded.
    RemoteCli { binary: String, ipc_hook_cli: Option<String> },
}

/// Routing of a shim invocation: inside a nested invocation (recursion guard
/// set) straight to the real binary; otherwise to the session's
/// `remote-cli/code` when one was found; otherwise to the real binary.
pub fn shim_route(guard_active: bool, remote_cli: Option<(String, Option<String>)>) -> (r: ShimRoute)
    ensures
        guard_active ==> r is RealCode,
        !guard_active && remote_cli is None ==> r is RealCode,
        !guard_active ==> (remote_cli matches Some((b, h)) ==> r == (ShimRoute::RemoteCli {
            binary: b,
            ipc_hook_cli: h,
        })),
{
    if guard_active {
        ShimRoute::RealCode
    } else {
        match remote_cli {
            Some((binary, ipc_hook_cli)) => ShimRoute::RemoteCli { binary, ipc_hook_cli },
            None => ShimRoute::RealCode,
        }
    }
}

/// The message when no real `code` binary can be found.
pub const REAL_CODE_NOT_FOUND: &'static str = "Cannot locate real `code` binary after stripping ~/.this-code/bin from PATH.\nSet THIS_CODE_CODE_PATH or add `code_path = \"/path/to/code\"` to ~/.this-code/config.toml";

/// The name searched for on `PATH`.
pub const CODE_BINARY_NAME: &'static str = "code";

/// The shim looks up the first argument that does not start with `-`
/// (without its goto suffix), whatever the arguments after it are.
pub proof fn lemma_lookup_path_first_positional(args: Seq<Seq<char>>, cwd: Seq<char>, i: int)
    requires
        0 <= i < args.len(),
        !(args[i].len() > 0 && args[i][0] == '-'),
        forall|j: int| 0 <= j < i ==> (#[trigger] args[j]).len() > 0 && args[j][0] == '-',
    ensures
        spec_lookup_path(args, cwd) == spec_strip_goto_suffix(args[i]),
    decreases i,
{
    if i > 0 {
        assert(args[0].len() > 0 && args[0][0] == '-');
        let rest = args.drop_first();
        assert forall|j: int| 0 <= j < i - 1 implies (#[trigger] rest[j]).len() > 0 && rest[j][0]
            == '-' by {
            assert(rest[j] == args[j + 1]);
        }
        lemma_lookup_path_first_positional(rest, cwd, i - 1);
    }
}

/// When every argument starts with `-`, the shim looks up `cwd`.
pub proof fn lemma_lookup_path_only_flags(args: Seq<Seq<char>>, cwd: Seq<char>)
    requires
        forall|j: int| 0 <= j < args.len() ==> (#[trigger] args[j]).len() > 0 && args[j][0] == '-',
    ensures
        spec_lookup_path(args, cwd) == cwd,
    decreases args.len(),
{
    if args.len() > 0 {
        assert(args[0].len() > 0 && args[0][0] == '-');
        let rest = args.drop_first();
        assert forall|j: int| 0 <= j < rest.len() implies (#[trigger] rest[j]).len() > 0 && rest[j][0]
            == '-' by {
            assert(rest[j] == args[j + 1]);
        }
        lemma_lookup_path_only_flags(rest, cwd);
    }
}

/// `s[lo..hi]` is a non-empty run of the characters `0` to `9`.
pub open spec fn decimal_run(s: Seq<char>, lo: int, hi: int) -> bool {
    &&& 0 <= lo < hi <= s.len()
    &&& forall|m: int| lo <= m < hi ==> '0' <= #[trigger] s[m] && s[m] <= '9'
}

proof fn lemma_decimal_run_all_digits(s: Seq<char>, lo: int, hi: int)
    requires
        0 <= lo <= hi <= s.len(),
    ensures
        decimal_run(s, lo, hi) <==> all_digits(s.subrange(lo, hi)),
{
    if decimal_run(s, lo, hi) {
        assert forall|i: int| 0 <= i < hi - lo implies crate::text::is_ascii_digit(#[trigger] s.subrange(lo, hi)[i]) by {
            assert(s.subrange(lo, hi)[i] == s[lo + i]);
        }
    }
    if all_digits(s.subrange(lo, hi)) {
        assert forall|m: int| lo <= m < hi implies '0' <= #[trigger] s[m] && s[m] <= '9' by {
            assert(s.subrange(lo, hi)[m - lo] == s[m]);
            assert(crate::text::is_ascii_digit(s.subrange(lo, hi)[m - lo]));
        }
    }
}

/// What stripping does, case by case, with `k` the position of the last `:`:
/// nothing without a `:` or when the text after the last `:` is not a run of
/// digits `0`-`9`; otherwise it cuts at the last `:`, or at the `:` before it
/// when only digits lie between the two.
pub proof fn lemma_strip_goto_suffix_cases(s: Seq<char>)
    ensures
        (forall|i: int| 0 <= i < s.len() ==> s[i] != ':') ==> spec_strip_goto_suffix(s) == s,
        forall|k: int|
            0 <= k < s.len() && #[trigger] s[k] == ':' && (forall|m: int|
                k < m < s.len() ==> s[m] != ':') ==> {
                &&& !decimal_run(s, k + 1, s.len() as int) ==> spec_strip_goto_suffix(s) == s
                &&& decimal_run(s, k + 1, s.len() as int) && (forall|j: int|
                    0 <= j < k ==> s[j] != ':') ==> spec_strip_goto_suffix(s) == s.take(k)
                &&& forall|j: int|
                    0 <= j < k && #[trigger] s[j] == ':' && (forall|m: int|
                        j < m < k ==> s[m] != ':') && decimal_run(s, k + 1, s.len() as int)
                        ==> spec_strip_goto_suffix(s) == if decimal_run(s, j + 1, k) {
                        s.take(j)
                    } else {
                        s.take(k)
                    }
            },
{
    if forall|i: int| 0 <= i < s.len() ==> s[i] != ':' {
        crate::text::lemma_last_index_of_none(s, ':');
    }
    assert forall|k: int|
        0 <= k < s.len() && #[trigger] s[k] == ':' && (forall|m: int| k < m < s.len() ==> s[m] != ':') implies {
        &&& !decimal_run(s, k + 1, s.len() as int) ==> spec_strip_goto_suffix(s) == s
        &&& decimal_run(s, k + 1, s.len() as int) && (forall|j: int| 0 <= j < k ==> s[j] != ':')
            ==> spec_strip_goto_suffix(s) == s.take(k)
        &&& forall|j: int|
            0 <= j < k && #[trigger] s[j] == ':' && (forall|m: int| j < m < k ==> s[m] != ':')
                && decimal_run(s, k + 1, s.len() as int) ==> spec_strip_goto_suffix(s) == if decimal_run(
                s,
                j + 1,
                k,
            ) {
                s.take(j)
            } else {
                s.take(k)
            }
    } by {
        assert(is_last_index_of(s, ':', k));
        crate::text::lemma_last_index_of_is(s, ':', k);
        lemma_decimal_run_all_digits(s, k + 1, s.len() as int);
        let prefix = s.subrange(0, k);
        assert(prefix =~= s.take(k));
        if forall|j: int| 0 <= j < k ==> s[j] != ':' {
            assert forall|j: int| 0 <= j < prefix.len() implies prefix[j] != ':' by {
                assert(prefix[j] == s[j]);
            }
            crate::text::lemma_last_index_of_none(prefix, ':');
        }
        assert forall|j: int|
            0 <= j < k && #[trigger] s[j] == ':' && (forall|m: int| j < m < k ==> s[m] != ':')
                && decimal_run(s, k + 1, s.len() as int) implies spec_strip_goto_suffix(s) == if decimal_run(
                s,
                j + 1,
                k,
            ) {
                s.take(j)
            } else {
                s.take(k)
            } by {
            assert(is_last_index_of(prefix, ':', j));
            crate::text::lemma_last_index_of_is(prefix, ':', j);
            lemma_decimal_run_all_digits(s, j + 1, k);
            assert(prefix.subrange(j + 1, k) =~= s.subrange(j + 1, k));
            assert(prefix.subrange(0, j) =~= s.take(j));
        }
    }
}

} // verus!
