//! Unix path text: components, equality, parent and joining, with the
//! meaning that `std::path::Path` gives them.

use vstd::prelude::*;
use crate::text::{
    extend_chars, first_index_of, free_of, is_first_index_of, join_chars, join_with,
    lemma_join_split, lemma_join_take_prefix, lemma_split_free_of, lemma_split_join,
    lemma_split_none, split_chars, split_on, str_chars, string_from_chars, views,
};

verus! {

/// The path starts at the root directory.
pub open spec fn has_root(p: Seq<char>) -> bool {
    p.len() > 0 && p[0] == '/'
}

/// A relative path that starts with the current directory `.` as its own
/// component (`.` alone, or `./...`).
pub open spec fn has_cur_dir(p: Seq<char>) -> bool {
    &&& !has_root(p)
    &&& p.len() > 0
    &&& p[0] == '.'
    &&& (p.len() == 1 || p[1] == '/')
}

/// Length of the part before the body: the root `/` or the leading `.`.
pub open spec fn body_start(p: Seq<char>) -> int {
    if has_root(p) || has_cur_dir(p) {
        1
    } else {
        0
    }
}

/// The pieces of the body between separators, empty and `.` pieces included.
pub open spec fn body_segments(p: Seq<char>) -> Seq<Seq<char>> {
    split_on(p.skip(body_start(p)), '/')
}

/// A piece that names a component: neither empty nor `.`.
pub open spec fn is_significant(seg: Seq<char>) -> bool {
    seg.len() > 0 && seg != seq!['.']
}

pub open spec fn significant_pred() -> spec_fn(Seq<char>) -> bool {
    |seg: Seq<char>| is_significant(seg)
}

/// The normal (and `..`) components of the path, in order.
pub open spec fn normal_components(p: Seq<char>) -> Seq<Seq<char>> {
    body_segments(p).filter(significant_pred())
}

/// Two paths are equal as `Path`s: same root, same leading `.`, same
/// components (`Path`'s `==` compares components).
pub open spec fn same_path(a: Seq<char>, b: Seq<char>) -> bool {
    &&& has_root(a) == has_root(b)
    &&& has_cur_dir(a) == has_cur_dir(b)
    &&& normal_components(a) == normal_components(b)
}

/// `k` is the index of the last significant piece of `segs`.
pub open spec fn is_last_significant(segs: Seq<Seq<char>>, k: int) -> bool {
    &&& 0 <= k < segs.len()
    &&& is_significant(segs[k])
    &&& forall|j: int| k < j < segs.len() ==> !is_significant(#[trigger] segs[j])
}

pub open spec fn last_significant(segs: Seq<Seq<char>>) -> Option<int> {
    if exists|k: int| is_last_significant(segs, k) {
        Some(choose|k: int| is_last_significant(segs, k))
    } else {
        None
    }
}

/// Number of leading pieces kept by `parent` when the last component is the
/// piece at `k`: everything up to the last significant piece before `k`.
pub open spec fn kept_pieces(segs: Seq<Seq<char>>, k: int) -> int {
    match last_significant(segs.take(k)) {
        Some(j) => j + 1,
        None => 0,
    }
}

/// `Path::parent` on Unix: the path without its final component, trailing
/// separators and `.` pieces trimmed; `None` for the root, the empty path and
/// any path without a component.
#[verifier::opaque]
pub open spec fn spec_parent(p: Seq<char>) -> Option<Seq<char>> {
    let b = body_start(p);
    let segs = body_segments(p);
    match last_significant(segs) {
        Some(k) => Some(p.take(b) + join_with(segs.take(kept_pieces(segs, k)), '/')),
        None => if has_cur_dir(p) {
            Some(seq![])
        } else {
            None
        },
    }
}

/// `PathBuf::join` on Unix: an absolute `rel` replaces `base`; otherwise a
/// separator is put between them unless `base` is empty or ends with one.
pub open spec fn spec_join_path(base: Seq<char>, rel: Seq<char>) -> Seq<char> {
    if has_root(rel) {
        rel
    } else if base.len() > 0 && base.last() != '/' {
        base + seq!['/'] + rel
    } else {
        base + rel
    }
}

pub open spec fn opt_view(o: Option<String>) -> Option<Seq<char>> {
    match o {
        Some(s) => Some(s@),
        None => None,
    }
}

pub proof fn lemma_last_significant_is(segs: Seq<Seq<char>>, k: int)
    requires
        is_last_significant(segs, k),
    ensures
        last_significant(segs) == Some(k),
{
    let j = choose|j: int| is_last_significant(segs, j);
    assert(is_last_significant(segs, j));
    if j < k {
        assert(!is_significant(segs[k]));
    } else if k < j {
        assert(!is_significant(segs[j]));
    }
}

pub proof fn lemma_last_significant_none(segs: Seq<Seq<char>>)
    requires
        forall|j: int| 0 <= j < segs.len() ==> !is_significant(#[trigger] segs[j]),
    ensures
        last_significant(segs) == None::<int>,
{
    if exists|k: int| is_last_significant(segs, k) {
        let k = choose|k: int| is_last_significant(segs, k);
        assert(is_significant(segs[k]));
    }
}

/// The parent of a path is a strict prefix of it.
pub proof fn lemma_parent_prefix(p: Seq<char>)
    ensures
        spec_parent(p) matches Some(q) ==> q.len() < p.len() && p.take(q.len() as int) == q,
{
    reveal(spec_parent);
    let b = body_start(p);
    let body = p.skip(b);
    let segs = body_segments(p);
    match last_significant(segs) {
        Some(k) => {
            assert(is_last_significant(segs, k));
            let m = kept_pieces(segs, k);
            match last_significant(segs.take(k)) {
                Some(j) => {
                    assert(is_last_significant(segs.take(k), j));
                },
                None => {},
            }
            assert(0 <= m <= k);
            lemma_join_split(body, '/');
            assert(segs.take(segs.len() as int) =~= segs);
            lemma_join_take_prefix(segs, '/', m, k);
            lemma_join_take_prefix(segs, '/', k, segs.len() as int);
            let jm = join_with(segs.take(m), '/');
            let jk = join_with(segs.take(k), '/');
            assert(body.take(jk.len() as int) == jk);
            assert(body.take(jm.len() as int) =~= jk.take(jm.len() as int));
            let q = p.take(b) + jm;
            assert(p.take(q.len() as int) =~= q);
        },
        None => {},
    }
}

/// Whether `seg` names a component.
pub fn significant(seg: &Vec<char>) -> (r: bool)
    ensures
        r == is_significant(seg@),
{
    if seg.len() == 0 {
        false
    } else if seg.len() == 1 && seg[0] == '.' {
        assert(seg@ =~= seq!['.']);
        false
    } else {
        assert(seg@.len() != 1 ==> seg@ != seq!['.']);
        true
    }
}

/// Index of the last significant piece among the first `end` of `segs`.
pub fn last_significant_before(segs: &Vec<Vec<char>>, end: usize) -> (r: Option<usize>)
    requires
        end <= segs@.len(),
    ensures
        r matches Some(k) ==> last_significant(views(segs@).take(end as int)) == Some(k as int),
        r is None ==> last_significant(views(segs@).take(end as int)) == None::<int>,
{
    let ghost t = views(segs@).take(end as int);
    let mut i = end;
    while i > 0
        invariant
            i <= end <= segs@.len(),
            t == views(segs@).take(end as int),
            forall|j: int| i <= j < end ==> !is_significant(#[trigger] t[j]),
        decreases i,
    {
        if significant(&segs[i - 1]) {
            proof {
                assert(t[i - 1] == segs@[i - 1]@);
                lemma_last_significant_is(t, i - 1);
            }
            return Some(i - 1);
        }
        assert(t[i - 1] == segs@[i - 1]@);
        i = i - 1;
    }
    proof {
        lemma_last_significant_none(t);
    }
    None
}

/// Root and leading-`.` flags of a path.
pub fn path_layout(v: &Vec<char>) -> (r: (bool, bool))
    ensures
        r.0 == has_root(v@),
        r.1 == has_cur_dir(v@),
{
    let root = v.len() > 0 && v[0] == '/';
    let cur = !root && v.len() > 0 && v[0] == '.' && (v.len() == 1 || v[1] == '/');
    (root, cur)
}

/// The characters of `v` from `b` on.
pub fn skip_chars(v: &Vec<char>, b: usize) -> (r: Vec<char>)
    requires
        b <= v@.len(),
    ensures
        r@ == v@.skip(b as int),
{
    let mut out: Vec<char> = Vec::new();
    let mut i = b;
    while i < v.len()
        invariant
            b <= i <= v@.len(),
            out@ == v@.subrange(b as int, i as int),
        decreases v@.len() - i,
    {
        out.push(v[i]);
        i = i + 1;
        assert(out@ =~= v@.subrange(b as int, i as int));
    }
    out
}

/// The first `n` characters of `v`.
pub fn take_chars(v: &Vec<char>, n: usize) -> (r: Vec<char>)
    requires
        n <= v@.len(),
    ensures
        r@ == v@.take(n as int),
{
    let mut out: Vec<char> = Vec::new();
    let mut i: usize = 0;
    while i < n
        invariant
            i <= n <= v@.len(),
            out@ == v@.take(i as int),
        decreases n - i,
    {
        out.push(v[i]);
        i = i + 1;
        assert(out@ =~= v@.take(i as int));
    }
    out
}

/// The body pieces of a path.
fn segments_of(v: &Vec<char>) -> (r: Vec<Vec<char>>)
    ensures
        views(r@) == body_segments(v@),
{
    let (root, cur) = path_layout(v);
    let b: usize = if root || cur {
        1
    } else {
        0
    };
    let body = skip_chars(v, b);
    split_chars(&body, '/')
}

/// The parent of `p` as `Path::parent` gives it on Unix.
pub fn parent_path(p: &str) -> (r: Option<String>)
    ensures
        opt_view(r) == spec_parent(p@),
{
    reveal(spec_parent);
    let v = str_chars(p);
    let (root, cur) = path_layout(&v);
    let b: usize = if root || cur {
        1
    } else {
        0
    };
    let segs = segments_of(&v);
    let ghost vs = views(segs@);
    assert(vs.take(segs@.len() as int) =~= vs);
    match last_significant_before(&segs, segs.len()) {
        Some(k) => {
            assert(vs.take(k as int) =~= views(segs@).take(k as int));
            let m: usize = match last_significant_before(&segs, k) {
                Some(j) => j + 1,
                None => 0,
            };
            proof {
                match last_significant(vs.take(k as int)) {
                    Some(j) => {
                        assert(is_last_significant(vs.take(k as int), j));
                    },
                    None => {},
                }
            }
            let mut out = take_chars(&v, b);
            let joined = join_chars(&segs, m, '/');
            extend_chars(&mut out, &joined);
            Some(string_from_chars(out.as_slice()))
        },
        None => {
            if cur {
                Some(String::new())
            } else {
                None
            }
        },
    }
}

/// The significant pieces of `segs`, in order.
fn significant_segments(segs: &Vec<Vec<char>>) -> (r: Vec<Vec<char>>)
    ensures
        views(r@) == views(segs@).filter(significant_pred()),
{
    let mut out: Vec<Vec<char>> = Vec::new();
    let mut i: usize = 0;
    let ghost vs = views(segs@);
    while i < segs.len()
        invariant
            i <= segs@.len(),
            vs == views(segs@),
            views(out@) == vs.take(i as int).filter(significant_pred()),
        decreases segs@.len() - i,
    {
        proof {
            reveal_with_fuel(Seq::filter, 1);
            assert(vs.take(i + 1).drop_last() =~= vs.take(i as int));
            assert(vs.take(i + 1).last() == segs@[i as int]@);
        }
        if significant(&segs[i]) {
            let seg = copy_chars(&segs[i]);
            out.push(seg);
            assert(views(out@) =~= vs.take(i as int).filter(significant_pred()).push(segs@[i as int]@));
        }
        i = i + 1;
    }
    assert(vs.take(i as int) =~= vs);
    out
}

/// A copy of `v`.
pub fn copy_chars(v: &Vec<char>) -> (r: Vec<char>)
    ensures
        r@ == v@,
{
    let mut out: Vec<char> = Vec::new();
    extend_chars(&mut out, v);
    assert(out@ =~= v@);
    out
}

/// Whether `a` and `b` hold the same characters.
pub fn chars_equal(a: &Vec<char>, b: &Vec<char>) -> (r: bool)
    ensures
        r == (a@ == b@),
{
    if a.len() != b.len() {
        return false;
    }
    let mut i: usize = 0;
    while i < a.len()
        invariant
            i <= a@.len() == b@.len(),
            forall|j: int| 0 <= j < i ==> a@[j] == b@[j],
        decreases a@.len() - i,
    {
        if a[i] != b[i] {
            return false;
        }
        i = i + 1;
    }
    assert(a@ =~= b@);
    true
}

/// Whether two lists of pieces are equal.
fn pieces_equal(a: &Vec<Vec<char>>, b: &Vec<Vec<char>>) -> (r: bool)
    ensures
        r == (views(a@) == views(b@)),
{
    if a.len() != b.len() {
        assert(views(a@).len() != views(b@).len());
        return false;
    }
    let mut i: usize = 0;
    while i < a.len()
        invariant
            i <= a@.len() == b@.len(),
            forall|j: int| 0 <= j < i ==> a@[j]@ == b@[j]@,
        decreases a@.len() - i,
    {
        if !chars_equal(&a[i], &b[i]) {
            assert(views(a@)[i as int] != views(b@)[i as int]);
            return false;
        }
        i = i + 1;
    }
    assert(views(a@) =~= views(b@));
    true
}

/// Whether two paths are equal as `Path`s (component by component).
pub fn paths_equal(a: &str, b: &str) -> (r: bool)
    ensures
        r == same_path(a@, b@),
{
    let va = str_chars(a);
    let vb = str_chars(b);
    let la = path_layout(&va);
    let lb = path_layout(&vb);
    if la.0 != lb.0 || la.1 != lb.1 {
        return false;
    }
    let ca = significant_segments(&segments_of(&va));
    let cb = significant_segments(&segments_of(&vb));
    pieces_equal(&ca, &cb)
}

/// `base.join(rel)` as `PathBuf::join` gives it on Unix.
pub fn join_path(base: &str, rel: &str) -> (r: String)
    ensures
        r@ == spec_join_path(base@, rel@),
{
    let vb = str_chars(base);
    let vr = str_chars(rel);
    if vr.len() > 0 && vr[0] == '/' {
        return rel.to_owned();
    }
    let mut out = copy_chars(&vb);
    if vb.len() > 0 && vb[vb.len() - 1] != '/' {
        out.push('/');
    }
    extend_chars(&mut out, &vr);
    string_from_chars(out.as_slice())
}

/// The first piece of a split is the text up to the first separator.
proof fn lemma_split_first(s: Seq<char>, c: char)
    ensures
        split_on(s, c).len() >= 1,
        split_on(s, c)[0].len() <= s.len(),
        s.take(split_on(s, c)[0].len() as int) == split_on(s, c)[0],
        split_on(s, c)[0].len() < s.len() ==> s[split_on(s, c)[0].len() as int] == c,
{
    match first_index_of(s, c) {
        None => {
            assert(split_on(s, c) == seq![s]);
            assert(s.take(s.len() as int) =~= s);
        },
        Some(i) => {
            assert(is_first_index_of(s, c, i));
            let rest = split_on(s.skip(i + 1), c);
            assert(split_on(s, c) == seq![s.take(i)] + rest);
            assert((seq![s.take(i)] + rest)[0] == s.take(i));
        },
    }
}

/// The join of the first `m` pieces starts with the first piece, followed by
/// the separator when more pieces follow.
proof fn lemma_join_starts(segs: Seq<Seq<char>>, c: char, m: int)
    requires
        1 <= m <= segs.len(),
    ensures
        join_with(segs.take(m), c).len() >= segs[0].len(),
        join_with(segs.take(m), c).take(segs[0].len() as int) == segs[0],
        m >= 2 ==> join_with(segs.take(m), c).len() > segs[0].len() && join_with(segs.take(m), c)[segs[0].len() as int] == c,
{
    lemma_join_take_prefix(segs, c, 1, m);
    assert(segs.take(1) =~= seq![segs[0]]);
    assert(join_with(seq![segs[0]], c) == segs[0]);
    if m >= 2 {
        lemma_join_take_prefix(segs, c, 2, m);
        let t = segs.take(2);
        assert(t.drop_first() =~= seq![segs[1]]);
        assert(join_with(seq![segs[1]], c) == segs[1]);
        assert(join_with(t, c) == segs[0] + seq![c] + segs[1]);
        let j2 = join_with(t, c);
        let jm = join_with(segs.take(m), c);
        assert(jm.take(j2.len() as int)[segs[0].len() as int] == j2[segs[0].len() as int]);
    }
}

/// Filtering out everything gives nothing.
proof fn lemma_filter_none(s: Seq<Seq<char>>)
    requires
        forall|i: int| 0 <= i < s.len() ==> !is_significant(#[trigger] s[i]),
    ensures
        s.filter(significant_pred()) == Seq::<Seq<char>>::empty(),
    decreases s.len(),
{
    reveal_with_fuel(Seq::filter, 1);
    if s.len() > 0 {
        assert forall|i: int| 0 <= i < s.drop_last().len() implies !is_significant(#[trigger] s.drop_last()[i]) by {
            assert(s.drop_last()[i] == s[i]);
        }
        lemma_filter_none(s.drop_last());
        assert(!is_significant(s[s.len() - 1]));
    }
}

/// A sequence with a significant piece has a last significant piece.
proof fn lemma_last_significant_exists(segs: Seq<Seq<char>>, j: int)
    requires
        0 <= j < segs.len(),
        is_significant(segs[j]),
    ensures
        last_significant(segs) is Some,
    decreases segs.len() - j,
{
    if forall|k: int| j < k < segs.len() ==> !is_significant(#[trigger] segs[k]) {
        assert(is_last_significant(segs, j));
    } else {
        let k = choose|k: int| j < k < segs.len() && is_significant(#[trigger] segs[k]);
        lemma_last_significant_exists(segs, k);
    }
}

/// The normal components of `pre + body` when `pre` is the root or the
/// leading `.`-and-separator, or empty, given the flags of the result.
proof fn lemma_components_of_join(segs: Seq<Seq<char>>, m: int)
    requires
        0 <= m <= segs.len(),
        free_of(segs, '/'),
    ensures
        split_on(join_with(segs.take(m), '/'), '/').filter(significant_pred()) == segs.take(m).filter(
            significant_pred(),
        ),
{
    if m >= 1 {
        assert forall|k: int, j: int|
            0 <= k < segs.take(m).len() && 0 <= j < segs.take(m)[k].len() implies #[trigger] segs.take(m)[k][j] != '/' by {
            assert(segs.take(m)[k] == segs[k]);
            assert(segs[k][j] != '/');
        }
        lemma_split_join(segs.take(m), '/');
    } else {
        assert(join_with(segs.take(0), '/') == Seq::<char>::empty());
        lemma_split_none(Seq::<char>::empty(), '/');
        let e = seq![Seq::<char>::empty()];
        assert forall|i: int| 0 <= i < e.len() implies !is_significant(#[trigger] e[i]) by {}
        lemma_filter_none(e);
        lemma_filter_none(segs.take(0));
    }
}

/// `Path::parent` removes exactly the last component: the parent keeps the
/// root (or leading `.`) and all components but the last, in order.
pub proof fn lemma_parent_drops_last_component(p: Seq<char>)
    requires
        normal_components(p).len() > 0,
    ensures
        spec_parent(p) is Some,
        has_root(spec_parent(p).unwrap()) == has_root(p),
        has_cur_dir(spec_parent(p).unwrap()) == has_cur_dir(p),
        normal_components(spec_parent(p).unwrap()) == normal_components(p).drop_last(),
{
    reveal(spec_parent);
    let b = body_start(p);
    let body = p.skip(b);
    let segs = body_segments(p);
    let f = significant_pred();
    if last_significant(segs) is None {
        lemma_last_significant_none_all(segs);
        lemma_filter_none(segs);
        assert(false);
    }
    let k = last_significant(segs).unwrap();
    assert(is_last_significant(segs, k));
    let m = kept_pieces(segs, k);
    match last_significant(segs.take(k)) {
        Some(j) => {
            assert(is_last_significant(segs.take(k), j));
        },
        None => {
            lemma_last_significant_none_all(segs.take(k));
        },
    }
    assert(0 <= m <= k);
    // Between the kept pieces and the last component, and after it, nothing
    // is significant.
    let mid = segs.subrange(m, k);
    assert forall|i: int| 0 <= i < mid.len() implies !is_significant(#[trigger] mid[i]) by {
        assert(mid[i] == segs.take(k)[m + i]);
    }
    let tail = segs.skip(k + 1);
    assert forall|i: int| 0 <= i < tail.len() implies !is_significant(#[trigger] tail[i]) by {
        assert(tail[i] == segs[k + 1 + i]);
    }
    lemma_filter_none(mid);
    lemma_filter_none(tail);
    let last = seq![segs[k]];
    reveal_with_fuel(Seq::filter, 2);
    assert(last.drop_last() =~= Seq::<Seq<char>>::empty());
    assert(last.filter(f) =~= last);
    assert(segs =~= segs.take(m) + mid + last + tail);
    Seq::filter_distributes_over_add(segs.take(m) + mid + last, tail, f);
    Seq::filter_distributes_over_add(segs.take(m) + mid, last, f);
    Seq::filter_distributes_over_add(segs.take(m), mid, f);
    let fm = segs.take(m).filter(f);
    assert(normal_components(p) =~= fm + last);
    assert(normal_components(p).drop_last() =~= fm);

    // The parent's text.
    let jm = join_with(segs.take(m), '/');
    let q = p.take(b) + jm;
    assert(spec_parent(p) == Some(q));
    lemma_split_free_of(body, '/');
    lemma_components_of_join(segs, m);
    lemma_split_first(body, '/');
    let l0 = segs[0].len();
    if m >= 1 {
        lemma_join_starts(segs, '/', m);
    }
    if has_root(p) {
        assert(q[0] == '/');
        assert(q.skip(1) =~= jm);
    } else if has_cur_dir(p) {
        assert(q[0] == '.');
        // The body starts with a separator, so the first piece is empty.
        assert(p.len() > 1) by {
            if p.len() == 1 {
                assert(body =~= Seq::<char>::empty());
                lemma_split_none(body, '/');
                assert(segs =~= seq![Seq::<char>::empty()]);
            }
        }
        assert(body[0] == '/');
        assert(l0 == 0) by {
            if l0 > 0 {
                assert(body.take(l0 as int)[0] == segs[0][0]);
                assert(segs[0][0] != '/');
            }
        }
        if m >= 2 {
            assert(q[1] == jm[0]);
        } else if m == 1 {
            assert(segs.take(1) =~= seq![segs[0]]);
            assert(jm == segs[0]);
            assert(q =~= seq!['.']);
        } else {
            assert(q =~= seq!['.']);
        }
        assert(q.skip(1) =~= jm);
    } else {
        assert(b == 0);
        assert(body =~= p);
        assert(q =~= jm);
        if m >= 1 {
            assert(p.len() > 0);
            // The first piece is the text before the first separator, and the
            // path does not start with one.
            assert(l0 > 0) by {
                if l0 == 0 {
                    assert(p[0] == '/');
                }
            }
            assert(q[0] == segs[0][0]);
            assert(segs[0][0] == p[0]);
            if p[0] == '.' {
                assert(p.len() > 1 && p[1] != '/');
                if l0 == 1 {
                    assert(p[1] == '/');
                }
                assert(l0 >= 2);
                assert(q[1] == segs[0][1]);
                assert(segs[0][1] == p[1]);
            }
        } else {
            assert(jm == Seq::<char>::empty());
        }
        assert(q.skip(0) =~= q);
    }
}

/// Without a significant piece, the last significant piece is absent and
/// every piece is insignificant.
proof fn lemma_last_significant_none_all(segs: Seq<Seq<char>>)
    requires
        last_significant(segs) is None,
    ensures
        forall|i: int| 0 <= i < segs.len() ==> !is_significant(#[trigger] segs[i]),
{
    assert forall|i: int| 0 <= i < segs.len() implies !is_significant(#[trigger] segs[i]) by {
        if is_significant(segs[i]) {
            lemma_last_significant_exists(segs, i);
        }
    }
}

/// Two paths are the same exactly when they agree on the root, on the
/// leading `.`, and component by component.
pub proof fn lemma_same_path_componentwise(a: Seq<char>, b: Seq<char>)
    ensures
        same_path(a, b) <==> {
            &&& has_root(a) == has_root(b)
            &&& has_cur_dir(a) == has_cur_dir(b)
            &&& normal_components(a).len() == normal_components(b).len()
            &&& forall|i: int|
                0 <= i < normal_components(a).len() ==> #[trigger] normal_components(a)[i]
                    == normal_components(b)[i]
        },
{
    if has_root(a) == has_root(b) && has_cur_dir(a) == has_cur_dir(b) && normal_components(a).len()
        == normal_components(b).len() && forall|i: int|
        0 <= i < normal_components(a).len() ==> #[trigger] normal_components(a)[i]
            == normal_components(b)[i] {
        assert(normal_components(a) =~= normal_components(b));
    }
}

} // verus!
