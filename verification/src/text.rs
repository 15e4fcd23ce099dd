//! Character-sequence helpers shared by the path, session and report logic.

use vstd::prelude::*;

verus! {

/// The characters of `s`, in order (`str::chars`, collected).
#[verifier::external_body]
pub(crate) fn str_chars(s: &str) -> (v: Vec<char>)
    ensures
        v@ == s@,
{
    s.chars().collect()
}

/// A string holding exactly the characters of `v` (`String: FromIterator<char>`).
#[verifier::external_body]
pub(crate) fn string_from_chars(v: &[char]) -> (s: String)
    ensures
        s@ == v@,
{
    v.iter().collect()
}

/// An ASCII decimal digit (`char::is_ascii_digit`).
pub open spec fn is_ascii_digit(c: char) -> bool {
    '0' <= c && c <= '9'
}

/// A non-empty run made only of ASCII decimal digits.
pub open spec fn all_digits(s: Seq<char>) -> bool {
    s.len() > 0 && forall|i: int| 0 <= i < s.len() ==> is_ascii_digit(#[trigger] s[i])
}

/// `i` is the position of the last `c` in `s`.
pub open spec fn is_last_index_of(s: Seq<char>, c: char, i: int) -> bool {
    &&& 0 <= i < s.len()
    &&& s[i] == c
    &&& forall|j: int| i < j < s.len() ==> s[j] != c
}

/// Position of the last `c` in `s` (`str::rfind` with a one-character pattern).
pub open spec fn last_index_of(s: Seq<char>, c: char) -> Option<int> {
    if exists|i: int| is_last_index_of(s, c, i) {
        Some(choose|i: int| is_last_index_of(s, c, i))
    } else {
        None
    }
}

/// `i` is the position of the first `c` in `s`.
pub open spec fn is_first_index_of(s: Seq<char>, c: char, i: int) -> bool {
    &&& 0 <= i < s.len()
    &&& s[i] == c
    &&& forall|j: int| 0 <= j < i ==> s[j] != c
}

/// Position of the first `c` in `s` (`str::find` with a one-character pattern).
pub open spec fn first_index_of(s: Seq<char>, c: char) -> Option<int> {
    if exists|i: int| is_first_index_of(s, c, i) {
        Some(choose|i: int| is_first_index_of(s, c, i))
    } else {
        None
    }
}

pub proof fn lemma_last_index_of_is(s: Seq<char>, c: char, i: int)
    requires
        is_last_index_of(s, c, i),
    ensures
        last_index_of(s, c) == Some(i),
{
    let k = choose|k: int| is_last_index_of(s, c, k);
    assert(is_last_index_of(s, c, k));
    if k < i {
        assert(s[i] != c);
    } else if i < k {
        assert(s[k] != c);
    }
}

pub proof fn lemma_last_index_of_none(s: Seq<char>, c: char)
    requires
        forall|j: int| 0 <= j < s.len() ==> s[j] != c,
    ensures
        last_index_of(s, c) == None::<int>,
{
    if exists|i: int| is_last_index_of(s, c, i) {
        let k = choose|k: int| is_last_index_of(s, c, k);
        assert(s[k] == c);
    }
}

pub proof fn lemma_first_index_of_is(s: Seq<char>, c: char, i: int)
    requires
        is_first_index_of(s, c, i),
    ensures
        first_index_of(s, c) == Some(i),
{
    let k = choose|k: int| is_first_index_of(s, c, k);
    assert(is_first_index_of(s, c, k));
    if k < i {
        assert(s[k] != c);
    } else if i < k {
        assert(s[i] != c);
    }
}

pub proof fn lemma_first_index_of_none(s: Seq<char>, c: char)
    requires
        forall|j: int| 0 <= j < s.len() ==> s[j] != c,
    ensures
        first_index_of(s, c) == None::<int>,
{
    if exists|i: int| is_first_index_of(s, c, i) {
        let k = choose|k: int| is_first_index_of(s, c, k);
        assert(s[k] == c);
    }
}

/// Position of the last `c` among the first `end` characters of `v`.
pub fn rfind_char(v: &Vec<char>, c: char, end: usize) -> (r: Option<usize>)
    requires
        end <= v@.len(),
    ensures
        r matches Some(k) ==> last_index_of(v@.take(end as int), c) == Some(k as int),
        r is None ==> last_index_of(v@.take(end as int), c) == None::<int>,
{
    let ghost t = v@.take(end as int);
    let mut i = end;
    while i > 0
        invariant
            i <= end <= v@.len(),
            t == v@.take(end as int),
            forall|j: int| i <= j < end ==> t[j] != c,
        decreases i,
    {
        if v[i - 1] == c {
            proof {
                lemma_last_index_of_is(t, c, i - 1);
            }
            return Some(i - 1);
        }
        i = i - 1;
    }
    proof {
        lemma_last_index_of_none(t, c);
    }
    None
}

/// Whether `v[lo..hi]` is a non-empty run of ASCII digits.
pub fn all_digits_in(v: &Vec<char>, lo: usize, hi: usize) -> (r: bool)
    requires
        lo <= hi <= v@.len(),
    ensures
        r == all_digits(v@.subrange(lo as int, hi as int)),
{
    if lo == hi {
        return false;
    }
    let mut i = lo;
    while i < hi
        invariant
            lo <= i <= hi <= v@.len(),
            forall|j: int| lo <= j < i ==> is_ascii_digit(v@[j]),
        decreases hi - i,
    {
        if !(v[i] >= '0' && v[i] <= '9') {
            assert(!is_ascii_digit(v@.subrange(lo as int, hi as int)[i - lo]));
            return false;
        }
        i = i + 1;
    }
    assert forall|j: int| 0 <= j < hi - lo implies is_ascii_digit(
        #[trigger] v@.subrange(lo as int, hi as int)[j],
    ) by {
        assert(v@.subrange(lo as int, hi as int)[j] == v@[lo + j]);
    }
    true
}


/// The views of a sequence of strings.
pub open spec fn string_views(v: Seq<String>) -> Seq<Seq<char>> {
    v.map_values(|s: String| s@)
}

/// The views of a sequence of character vectors.
pub open spec fn views(v: Seq<Vec<char>>) -> Seq<Seq<char>> {
    v.map_values(|x: Vec<char>| x@)
}

/// The pieces of `s` between occurrences of `c`, in order (`str::split` with a
/// one-character pattern, or `std::env::split_paths` on Unix for `:`).
pub open spec fn split_on(s: Seq<char>, c: char) -> Seq<Seq<char>>
    decreases s.len(),
{
    match first_index_of(s, c) {
        None => seq![s],
        Some(i) => seq![s.take(i)] + split_on(s.skip(i + 1), c),
    }
}

/// The pieces in `segs` joined by `c` (`[..].join(..)`).
pub open spec fn join_with(segs: Seq<Seq<char>>, c: char) -> Seq<char>
    decreases segs.len(),
{
    if segs.len() == 0 {
        seq![]
    } else if segs.len() == 1 {
        segs[0]
    } else {
        segs[0] + seq![c] + join_with(segs.drop_first(), c)
    }
}

/// No piece in `segs` holds `c`.
pub open spec fn free_of(segs: Seq<Seq<char>>, c: char) -> bool {
    forall|k: int, j: int| 0 <= k < segs.len() && 0 <= j < segs[k].len() ==> #[trigger] segs[k][j] != c
}

pub proof fn lemma_split_step(s: Seq<char>, c: char, i: int)
    requires
        is_first_index_of(s, c, i),
    ensures
        split_on(s, c) == seq![s.take(i)] + split_on(s.skip(i + 1), c),
{
    lemma_first_index_of_is(s, c, i);
}

pub proof fn lemma_split_none(s: Seq<char>, c: char)
    requires
        forall|j: int| 0 <= j < s.len() ==> s[j] != c,
    ensures
        split_on(s, c) == seq![s],
{
    lemma_first_index_of_none(s, c);
}

pub proof fn lemma_split_nonempty(s: Seq<char>, c: char)
    ensures
        split_on(s, c).len() >= 1,
    decreases s.len(),
{
    match first_index_of(s, c) {
        None => {},
        Some(i) => {
            lemma_split_nonempty(s.skip(i + 1), c);
        },
    }
}

/// Joining the pieces of a split gives the text back.
pub proof fn lemma_join_split(s: Seq<char>, c: char)
    ensures
        join_with(split_on(s, c), c) == s,
    decreases s.len(),
{
    match first_index_of(s, c) {
        None => {},
        Some(i) => {
            let rest = split_on(s.skip(i + 1), c);
            lemma_split_nonempty(s.skip(i + 1), c);
            lemma_join_split(s.skip(i + 1), c);
            let all = seq![s.take(i)] + rest;
            assert(all.drop_first() =~= rest);
            assert(all[0] == s.take(i));
            assert(s.take(i) + seq![c] + s.skip(i + 1) =~= s);
        },
    }
}

/// A text holding `c` has a first occurrence of it.
pub proof fn lemma_first_index_exists(s: Seq<char>, c: char, j: int)
    requires
        0 <= j < s.len(),
        s[j] == c,
    ensures
        first_index_of(s, c) is Some,
    decreases j,
{
    if forall|k: int| 0 <= k < j ==> s[k] != c {
        assert(is_first_index_of(s, c, j));
    } else {
        let k = choose|k: int| 0 <= k < j && s[k] == c;
        lemma_first_index_exists(s, c, k);
    }
}

/// No piece of a split holds the separator.
pub proof fn lemma_split_free_of(s: Seq<char>, c: char)
    ensures
        free_of(split_on(s, c), c),
    decreases s.len(),
{
    match first_index_of(s, c) {
        None => {
            assert forall|j: int| 0 <= j < s.len() implies s[j] != c by {
                if s[j] == c {
                    lemma_first_index_exists(s, c, j);
                }
            }
            assert(split_on(s, c) == seq![s]);
        },
        Some(i) => {
            lemma_split_free_of(s.skip(i + 1), c);
            let rest = split_on(s.skip(i + 1), c);
            let all = seq![s.take(i)] + rest;
            assert forall|k: int, j: int| 0 <= k < all.len() && 0 <= j < all[k].len() implies #[trigger] all[k][j] != c by {
                if k == 0 {
                    assert(all[0][j] == s[j]);
                } else {
                    assert(all[k] == rest[k - 1]);
                }
            }
        },
    }
}

/// Splitting the join of separator-free pieces gives the pieces back.
pub proof fn lemma_split_join(segs: Seq<Seq<char>>, c: char)
    requires
        segs.len() >= 1,
        free_of(segs, c),
    ensures
        split_on(join_with(segs, c), c) == segs,
    decreases segs.len(),
{
    if segs.len() == 1 {
        assert forall|j: int| 0 <= j < segs[0].len() implies segs[0][j] != c by {
            assert(segs[0][j] != c);
        }
        lemma_split_none(segs[0], c);
        assert(seq![segs[0]] =~= segs);
    } else {
        let rest = segs.drop_first();
        assert forall|k: int, j: int| 0 <= k < rest.len() && 0 <= j < rest[k].len() implies #[trigger] rest[k][j] != c by {
            assert(rest[k] == segs[k + 1]);
            assert(segs[k + 1][j] != c);
        }
        lemma_split_join(rest, c);
        let s = join_with(segs, c);
        let n = segs[0].len() as int;
        assert(s == segs[0] + seq![c] + join_with(rest, c));
        assert forall|j: int| 0 <= j < n implies s[j] != c by {
            assert(s[j] == segs[0][j]);
            assert(segs[0][j] != c);
        }
        assert(is_first_index_of(s, c, n));
        lemma_split_step(s, c, n);
        assert(s.take(n) =~= segs[0]);
        assert(s.skip(n + 1) =~= join_with(rest, c));
        assert(seq![segs[0]] + rest =~= segs);
    }
}

/// Joining one more piece appends a separator and the piece.
pub proof fn lemma_join_push(segs: Seq<Seq<char>>, x: Seq<char>, c: char)
    ensures
        join_with(segs.push(x), c) == if segs.len() == 0 {
            x
        } else {
            join_with(segs, c) + seq![c] + x
        },
    decreases segs.len(),
{
    if segs.len() == 0 {
        assert(segs.push(x) =~= seq![x]);
        assert(join_with(seq![x], c) == x);
    } else if segs.len() == 1 {
        assert(segs.push(x)[0] == segs[0]);
        assert(segs.push(x).drop_first() =~= seq![x]);
        assert(join_with(seq![x], c) == x);
        assert(join_with(segs, c) == segs[0]);
    } else {
        assert(segs.push(x)[0] == segs[0]);
        assert(segs.push(x).drop_first() =~= segs.drop_first().push(x));
        lemma_join_push(segs.drop_first(), x, c);
        assert(join_with(segs.push(x), c) =~= join_with(segs, c) + seq![c] + x);
    }
}

/// Joining a prefix of the pieces gives a prefix of the joined text, and one
/// more non-empty piece makes it strictly longer.
pub proof fn lemma_join_take_prefix(segs: Seq<Seq<char>>, c: char, i: int, j: int)
    requires
        0 <= i <= j <= segs.len(),
    ensures
        join_with(segs.take(i), c).len() <= join_with(segs.take(j), c).len(),
        join_with(segs.take(j), c).take(join_with(segs.take(i), c).len() as int) == join_with(
            segs.take(i),
            c,
        ),
        i < j && segs[i].len() > 0 ==> join_with(segs.take(i), c).len() < join_with(
            segs.take(j),
            c,
        ).len(),
    decreases j - i,
{
    let a = join_with(segs.take(i), c);
    if i == j {
        assert(a.take(a.len() as int) =~= a);
    } else {
        lemma_join_take_prefix(segs, c, i + 1, j);
        assert(segs.take(i + 1) =~= segs.take(i).push(segs[i]));
        lemma_join_push(segs.take(i), segs[i], c);
        let b = join_with(segs.take(i + 1), c);
        let d = join_with(segs.take(j), c);
        assert(b.take(a.len() as int) =~= a);
        assert(d.take(a.len() as int) =~= b.take(b.len() as int).take(a.len() as int));
    }
}

/// Filtering a sequence whose elements all pass keeps it whole.
pub proof fn lemma_filter_all(s: Seq<Seq<char>>, pred: spec_fn(Seq<char>) -> bool)
    requires
        forall|i: int| 0 <= i < s.len() ==> pred(#[trigger] s[i]),
    ensures
        s.filter(pred) == s,
    decreases s.len(),
{
    reveal_with_fuel(Seq::filter, 1);
    if s.len() > 0 {
        assert forall|i: int| 0 <= i < s.drop_last().len() implies pred(#[trigger] s.drop_last()[i]) by {
            assert(s.drop_last()[i] == s[i]);
        }
        lemma_filter_all(s.drop_last(), pred);
        assert(pred(s[s.len() - 1]));
        assert(s.drop_last().push(s.last()) =~= s);
    }
}

/// Every element kept by a filter passes it.
pub proof fn lemma_filter_passes(s: Seq<Seq<char>>, pred: spec_fn(Seq<char>) -> bool)
    ensures
        forall|i: int| 0 <= i < s.filter(pred).len() ==> pred(#[trigger] s.filter(pred)[i]),
{
    assert forall|i: int| 0 <= i < s.filter(pred).len() implies pred(#[trigger] s.filter(pred)[i]) by {
        s.lemma_filter_pred(pred, i);
    }
}

/// Filtering keeps pieces free of a separator.
pub proof fn lemma_filter_free_of(s: Seq<Seq<char>>, pred: spec_fn(Seq<char>) -> bool, c: char)
    requires
        free_of(s, c),
    ensures
        free_of(s.filter(pred), c),
    decreases s.len(),
{
    reveal_with_fuel(Seq::filter, 1);
    if s.len() > 0 {
        let d = s.drop_last();
        assert forall|k: int, j: int| 0 <= k < d.len() && 0 <= j < d[k].len() implies #[trigger] d[k][j] != c by {
            assert(d[k] == s[k]);
            assert(s[k][j] != c);
        }
        lemma_filter_free_of(d, pred, c);
        let f = d.filter(pred);
        if pred(s.last()) {
            let g = f.push(s.last());
            assert forall|k: int, j: int| 0 <= k < g.len() && 0 <= j < g[k].len() implies #[trigger] g[k][j] != c by {
                if k < f.len() {
                    assert(g[k] == f[k]);
                    assert(f[k][j] != c);
                } else {
                    assert(g[k] == s[s.len() - 1]);
                    assert(s[s.len() - 1][j] != c);
                }
            }
        }
    }
}

/// Split `v` at every `c`.
pub fn split_chars(v: &Vec<char>, c: char) -> (r: Vec<Vec<char>>)
    ensures
        views(r@) == split_on(v@, c),
{
    let mut segs: Vec<Vec<char>> = Vec::new();
    let mut cur: Vec<char> = Vec::new();
    let mut st: usize = 0;
    let mut i: usize = 0;
    assert(v@.skip(0) =~= v@);
    assert(views(segs@) =~= Seq::<Seq<char>>::empty());
    assert(views(segs@) + split_on(v@, c) =~= split_on(v@, c));
    while i < v.len()
        invariant
            st <= i <= v@.len(),
            cur@ == v@.subrange(st as int, i as int),
            views(segs@) + split_on(v@.skip(st as int), c) == split_on(v@, c),
            forall|j: int| st <= j < i ==> v@[j] != c,
        decreases v@.len() - i,
    {
        if v[i] == c {
            proof {
                let t = v@.skip(st as int);
                assert(is_first_index_of(t, c, i - st));
                lemma_split_step(t, c, i - st);
                assert(t.take(i - st) =~= cur@);
                assert(t.skip(i - st + 1) =~= v@.skip(i + 1));
                assert(views(segs@.push(cur)) =~= views(segs@).push(cur@));
                assert(views(segs@).push(cur@) + split_on(v@.skip(i + 1), c) =~= views(segs@) + (
                seq![cur@] + split_on(v@.skip(i + 1), c)));
            }
            segs.push(cur);
            cur = Vec::new();
            st = i + 1;
        } else {
            cur.push(v[i]);
        }
        i = i + 1;
    }
    proof {
        let t = v@.skip(st as int);
        lemma_split_none(t, c);
        assert(t =~= cur@);
        assert(views(segs@.push(cur)) =~= views(segs@).push(cur@));
        assert(views(segs@).push(cur@) =~= views(segs@) + seq![cur@]);
    }
    segs.push(cur);
    segs
}

/// Append the characters of `src` to `out`.
pub fn extend_chars(out: &mut Vec<char>, src: &Vec<char>)
    ensures
        final(out)@ == old(out)@ + src@,
{
    let mut i: usize = 0;
    while i < src.len()
        invariant
            i <= src@.len(),
            out@ == old(out)@ + src@.take(i as int),
        decreases src@.len() - i,
    {
        out.push(src[i]);
        i = i + 1;
        assert(out@ =~= old(out)@ + src@.take(i as int));
    }
    assert(src@.take(i as int) =~= src@);
}

/// The first `m` pieces of `segs` joined by `c`.
pub fn join_chars(segs: &Vec<Vec<char>>, m: usize, c: char) -> (r: Vec<char>)
    requires
        m <= segs@.len(),
    ensures
        r@ == join_with(views(segs@).take(m as int), c),
{
    let mut out: Vec<char> = Vec::new();
    let mut i: usize = 0;
    while i < m
        invariant
            i <= m <= segs@.len(),
            out@ == join_with(views(segs@).take(i as int), c),
        decreases m - i,
    {
        proof {
            let vs = views(segs@);
            assert(vs.take(i + 1) =~= vs.take(i as int).push(vs[i as int]));
            lemma_join_push(vs.take(i as int), vs[i as int], c);
        }
        if i > 0 {
            out.push(c);
        }
        extend_chars(&mut out, &segs[i]);
        i = i + 1;
    }
    out
}


/// `s` padded on the right with spaces to `width` characters (`{:<width}`).
pub open spec fn pad_right(s: Seq<char>, width: nat) -> Seq<char> {
    if s.len() >= width {
        s
    } else {
        s + Seq::new((width - s.len()) as nat, |i: int| ' ')
    }
}

/// `{label:<width} {value}`.
pub open spec fn labeled_line(label: Seq<char>, width: nat, value: Seq<char>) -> Seq<char> {
    pad_right(label, width) + seq![' '] + value
}

/// The line `{label:<width} {value}`.
pub fn format_labeled(label: &str, width: usize, value: &str) -> (r: String)
    ensures
        r@ == labeled_line(label@, width as nat, value@),
{
    let mut out = str_chars(label);
    let n = out.len();
    if n < width {
        let mut k = n;
        while k < width
            invariant
                n <= k <= width,
                n == label@.len(),
                out@ == label@ + Seq::new((k - n) as nat, |i: int| ' '),
            decreases width - k,
        {
            out.push(' ');
            k = k + 1;
            assert(out@ =~= label@ + Seq::new((k - n) as nat, |i: int| ' '));
        }
    }
    out.push(' ');
    let v = str_chars(value);
    extend_chars(&mut out, &v);
    string_from_chars(out.as_slice())
}

/// The decimal digit for `d` (below ten).
pub open spec fn digit_char(d: nat) -> char {
    seq!['0', '1', '2', '3', '4', '5', '6', '7', '8', '9'][d as int]
}

/// The decimal notation of `n`, as `{}` prints an unsigned integer.
pub open spec fn decimal(n: nat) -> Seq<char>
    decreases n,
{
    if n < 10 {
        seq![digit_char(n)]
    } else {
        decimal(n / 10).push(digit_char(n % 10))
    }
}

fn digit(d: usize) -> (c: char)
    requires
        d < 10,
    ensures
        c == digit_char(d as nat),
{
    let digits = ['0', '1', '2', '3', '4', '5', '6', '7', '8', '9'];
    assert(digits@ =~= seq!['0', '1', '2', '3', '4', '5', '6', '7', '8', '9']);
    digits[d]
}

fn decimal_chars(n: usize) -> (r: Vec<char>)
    ensures
        r@ == decimal(n as nat),
    decreases n,
{
    if n < 10 {
        let mut v: Vec<char> = Vec::new();
        v.push(digit(n));
        assert(v@ =~= seq![digit_char(n as nat)]);
        v
    } else {
        let mut v = decimal_chars(n / 10);
        v.push(digit(n % 10));
        v
    }
}

/// `n` in decimal notation.
pub fn decimal_string(n: usize) -> (r: String)
    ensures
        r@ == decimal(n as nat),
{
    let v = decimal_chars(n);
    string_from_chars(v.as_slice())
}

/// `t` occurs in `s` (`str::contains`).
pub open spec fn contains_text(s: Seq<char>, t: Seq<char>) -> bool {
    exists|i: int| 0 <= i && i + t.len() <= s.len() && #[trigger] s.subrange(i, i + t.len()) == t
}

/// Whether `b` occurs in `a` at position `i`.
fn matches_at(a: &Vec<char>, b: &Vec<char>, i: usize) -> (r: bool)
    requires
        i + b@.len() <= a@.len(),
    ensures
        r == (a@.subrange(i as int, i + b@.len()) == b@),
{
    let n = a.len();
    let mut j: usize = 0;
    while j < b.len()
        invariant
            n == a@.len(),
            i + b@.len() <= a@.len(),
            j <= b@.len(),
            forall|m: int| 0 <= m < j ==> a@[i + m] == b@[m],
        decreases b@.len() - j,
    {
        if a[i + j] != b[j] {
            assert(a@.subrange(i as int, i + b@.len())[j as int] != b@[j as int]);
            return false;
        }
        j = j + 1;
    }
    assert(a@.subrange(i as int, i + b@.len()) =~= b@);
    true
}

/// Whether `t` occurs in `s`.
pub fn text_contains(s: &str, t: &str) -> (r: bool)
    ensures
        r == contains_text(s@, t@),
{
    let a = str_chars(s);
    let b = str_chars(t);
    if b.len() > a.len() {
        return false;
    }
    let last = a.len() - b.len();
    let mut i: usize = 0;
    loop
        invariant
            a@ == s@,
            b@ == t@,
            b@.len() <= a@.len(),
            last == a@.len() - b@.len(),
            i <= last,
            forall|k: int| 0 <= k < i ==> #[trigger] a@.subrange(k, k + b@.len()) != b@,
        decreases last - i,
    {
        if matches_at(&a, &b, i) {
            return true;
        }
        if i == last {
            proof {
                if contains_text(s@, t@) {
                    let k = choose|k: int|
                        0 <= k && k + t@.len() <= s@.len() && #[trigger] s@.subrange(k, k + t@.len())
                            == t@;
                    assert(a@.subrange(k, k + b@.len()) != b@);
                }
            }
            return false;
        }
        i = i + 1;
    }
}

} // verus!
