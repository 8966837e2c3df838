//! Laws of the comment stripper, proved over the specifications of the
//! scanner and the engine.
use vstd::prelude::*;

use crate::engine::{
    classify_spec, emitted, fold_lines, in_docstring, is_path_header, strip_lines, triple_double,
    triple_single, ScanState,
};
use crate::scan::scan;
use crate::style::{Flavor, Marks};
use crate::text::{count_from, count_occurrences, is_ws, matches_at, trim, trim_end};

verus! {

/// At position `t` of `s`, in string state `(sq, dq)` outside a block
/// comment, the scanner neither meets an escape, nor toggles a string, nor
/// finds a comment.
pub open spec fn quiet_at(s: Seq<char>, mk: Marks, t: int, sq: bool, dq: bool) -> bool {
    &&& s[t] != '\\'
    &&& !(s[t] == '\'' && !dq)
    &&& !(s[t] == '"' && !sq)
    &&& (!sq && !dq) ==> !matches_at(s, t, mk.0) && !(mk.2.len() > 0 && matches_at(s, t, mk.1))
}

/// Over a quiet stretch `s[a..b]` the scanner keeps every character.
pub proof fn lemma_scan_quiet(s: Seq<char>, mk: Marks, a: int, b: int, sq: bool, dq: bool)
    requires
        0 <= a <= b <= s.len(),
        forall|t: int| a <= t < b ==> quiet_at(s, mk, t, sq, dq),
    ensures
        scan(s, mk.0, mk.1, mk.2, a, false, sq, dq) == (
            s.subrange(a, b) + scan(s, mk.0, mk.1, mk.2, b, false, sq, dq).0,
            scan(s, mk.0, mk.1, mk.2, b, false, sq, dq).1,
        ),
    decreases b - a,
{
    if a == b {
        assert(s.subrange(a, b) + scan(s, mk.0, mk.1, mk.2, b, false, sq, dq).0 =~= scan(
            s,
            mk.0,
            mk.1,
            mk.2,
            b,
            false,
            sq,
            dq,
        ).0);
    } else {
        assert(quiet_at(s, mk, a, sq, dq));
        lemma_scan_quiet(s, mk, a + 1, b, sq, dq);
        assert(s.subrange(a, b) =~= seq![s[a]] + s.subrange(a + 1, b));
    }
}

/// No character of `m` is a double quote.
pub open spec fn free_of_double_quotes(m: Seq<char>) -> bool {
    forall|t: int| 0 <= t < m.len() ==> m[t] != '"'
}

/// Comment markers inside a double-quoted string are not comments (for
/// markers without double quotes): a line `p"q"`, whose code part `p` holds
/// no quote, backslash or comment marker and whose string `q` holds no
/// double quote or backslash, is kept whole, and it leaves no block comment
/// open.
#[verifier::rlimit(40)]
pub proof fn lemma_string_literal_kept(
    p: Seq<char>,
    q: Seq<char>,
    mk: Marks,
    flavor: Flavor,
    st: ScanState,
)
    requires
        free_of_double_quotes(mk.0),
        free_of_double_quotes(mk.1),
        forall|t: int| 0 <= t < p.len() ==> p[t] != '\\' && p[t] != '\'' && p[t] != '"',
        forall|t: int| 0 <= t < q.len() ==> q[t] != '\\' && q[t] != '"',
        forall|t: int| !matches_at(p, t, mk.0),
        mk.2.len() > 0 ==> forall|t: int| !matches_at(p, t, mk.1),
        !st.in_block_comment,
    ensures
        ({
            let line = p + seq!['"'] + q + seq!['"'];
            let c = classify_spec(line, mk, flavor, st);
            emitted(line, c.0) == Some(line) && !c.1.in_block_comment
        }),
{
    let line = p + seq!['"'] + q + seq!['"'];
    let n = p.len() as int;
    let close = line.len() - 1;
    assert forall|t: int| 0 <= t < n implies quiet_at(line, mk, t, false, false) by {
        assert(line[t] == p[t]);
        if matches_at(line, t, mk.0) {
            if t + mk.0.len() <= n {
                assert(p.subrange(t, t + mk.0.len()) =~= line.subrange(t, t + mk.0.len()));
                assert(matches_at(p, t, mk.0));
            } else {
                assert(line.subrange(t, t + mk.0.len())[n - t] == line[n]);
                assert(mk.0[n - t] != '"');
            }
        }
        if mk.2.len() > 0 && matches_at(line, t, mk.1) {
            if t + mk.1.len() <= n {
                assert(p.subrange(t, t + mk.1.len()) =~= line.subrange(t, t + mk.1.len()));
                assert(matches_at(p, t, mk.1));
            } else {
                assert(line.subrange(t, t + mk.1.len())[n - t] == line[n]);
                assert(mk.1[n - t] != '"');
            }
        }
    }
    lemma_scan_quiet(line, mk, 0, n, false, false);
    assert(line[n] == '"');
    assert forall|t: int| n + 1 <= t < close implies quiet_at(line, mk, t, false, true) by {
        assert(line[t] == q[t - n - 1]);
    }
    lemma_scan_quiet(line, mk, n + 1, close, false, true);
    assert(line[close] == '"');
    if matches_at(line, close, mk.0) {
        assert(line.subrange(close, close + mk.0.len())[0] == line[close]);
        assert(mk.0[0] != '"');
    }
    if matches_at(line, close, mk.1) {
        assert(line.subrange(close, close + mk.1.len())[0] == line[close]);
        assert(mk.1[0] != '"');
    }
    assert(close + 1 == line.len());
    let end = scan(line, mk.0, mk.1, mk.2, close + 1, false, false, false);
    assert(end.0 =~= Seq::<char>::empty() && !end.1);
    assert(!matches_at(line, close, mk.0));
    assert(!matches_at(line, close, mk.1));
    let tail = scan(line, mk.0, mk.1, mk.2, close, false, false, true);
    assert(tail.0 == seq!['"'] + end.0);
    assert(tail.0 =~= seq!['"'] && !tail.1);
    let mid = scan(line, mk.0, mk.1, mk.2, n, false, false, false);
    assert(mid.0 =~= seq!['"'] + line.subrange(n + 1, close) + seq!['"'] && !mid.1);
    let r = scan(line, mk.0, mk.1, mk.2, 0, false, false, false);
    assert(r.0 =~= line.subrange(0, n) + mid.0);
    assert(r.0 =~= line);
    assert(!is_ws(line.last()));
    assert(trim_end(r.0) == line);
}

/// Comment markers inside a double-quoted string are not comments, with
/// code and a comment after the string too (for markers without double
/// quotes): a line `p"q"r` that is no path header and lies outside any
/// docstring or block comment, whose code `p` and `r` hold no quote or
/// backslash and `p` no comment marker, and whose string `q` holds no
/// double quote or backslash, keeps `p"q"` and the part of `r` before its
/// first line comment, `r[..k]`, less trailing whitespace.  No block comment
/// opens in `r[..k]`, nor at `k`.
#[verifier::rlimit(60)]
pub proof fn lemma_string_then_code(
    p: Seq<char>,
    q: Seq<char>,
    r: Seq<char>,
    k: int,
    mk: Marks,
    flavor: Flavor,
    st: ScanState,
)
    requires
        free_of_double_quotes(mk.0),
        free_of_double_quotes(mk.1),
        forall|t: int| 0 <= t < p.len() ==> p[t] != '\\' && p[t] != '\'' && p[t] != '"',
        forall|t: int| 0 <= t < q.len() ==> q[t] != '\\' && q[t] != '"',
        forall|t: int| 0 <= t < r.len() ==> r[t] != '\\' && r[t] != '\'' && r[t] != '"',
        forall|t: int| !matches_at(p, t, mk.0),
        mk.2.len() > 0 ==> forall|t: int| !matches_at(p, t, mk.1),
        0 <= k <= r.len(),
        forall|t: int| 0 <= t < k ==> !matches_at(r, t, mk.0),
        mk.2.len() > 0 ==> forall|t: int| 0 <= t <= k ==> !matches_at(r, t, mk.1),
        k < r.len() ==> matches_at(r, k, mk.0),
        !is_path_header(p + seq!['"'] + q + seq!['"'] + r, mk),
        !in_docstring(p + seq!['"'] + q + seq!['"'] + r, flavor, st),
        !st.in_block_comment,
    ensures
        ({
            let line = p + seq!['"'] + q + seq!['"'] + r;
            let c = classify_spec(line, mk, flavor, st);
            &&& c.0 == Some(trim_end(p + seq!['"'] + q + seq!['"'] + r.subrange(0, k)))
            &&& !c.1.in_block_comment
        }),
{
    let line = p + seq!['"'] + q + seq!['"'] + r;
    let n = p.len() as int;
    let close = n + 1 + q.len();
    let base = close + 1;
    assert forall|t: int| 0 <= t < n implies quiet_at(line, mk, t, false, false) by {
        assert(line[t] == p[t]);
        if matches_at(line, t, mk.0) {
            if t + mk.0.len() <= n {
                assert(p.subrange(t, t + mk.0.len()) =~= line.subrange(t, t + mk.0.len()));
                assert(matches_at(p, t, mk.0));
            } else {
                assert(line.subrange(t, t + mk.0.len())[n - t] == line[n]);
                assert(mk.0[n - t] != '"');
            }
        }
        if mk.2.len() > 0 && matches_at(line, t, mk.1) {
            if t + mk.1.len() <= n {
                assert(p.subrange(t, t + mk.1.len()) =~= line.subrange(t, t + mk.1.len()));
                assert(matches_at(p, t, mk.1));
            } else {
                assert(line.subrange(t, t + mk.1.len())[n - t] == line[n]);
                assert(mk.1[n - t] != '"');
            }
        }
    }
    lemma_scan_quiet(line, mk, 0, n, false, false);
    assert(line[n] == '"');
    assert forall|t: int| n + 1 <= t < close implies quiet_at(line, mk, t, false, true) by {
        assert(line[t] == q[t - n - 1]);
    }
    lemma_scan_quiet(line, mk, n + 1, close, false, true);
    assert(line[close] == '"');
    if matches_at(line, close, mk.0) {
        assert(line.subrange(close, close + mk.0.len())[0] == line[close]);
        assert(mk.0[0] != '"');
    }
    if matches_at(line, close, mk.1) {
        assert(line.subrange(close, close + mk.1.len())[0] == line[close]);
        assert(mk.1[0] != '"');
    }
    assert forall|t: int, m: Seq<char>| 0 <= t <= r.len() implies matches_at(line, base + t, m)
        == matches_at(r, t, m) by {
        if base + t + m.len() <= line.len() {
            assert(line.subrange(base + t, base + t + m.len()) =~= r.subrange(t, t + m.len()));
        }
    }
    assert forall|t: int| base <= t < base + k implies quiet_at(line, mk, t, false, false) by {
        assert(line[t] == r[t - base]);
        assert(matches_at(line, base + (t - base), mk.0) == matches_at(r, t - base, mk.0));
        assert(matches_at(line, base + (t - base), mk.1) == matches_at(r, t - base, mk.1));
    }
    lemma_scan_quiet(line, mk, base, base + k, false, false);
    let end = scan(line, mk.0, mk.1, mk.2, base + k, false, false, false);
    if k < r.len() {
        assert(line[base + k] == r[k]);
        assert(matches_at(line, base + k, mk.0) == matches_at(r, k, mk.0));
        assert(matches_at(line, base + k, mk.1) == matches_at(r, k, mk.1));
    }
    assert(end.0 =~= Seq::<char>::empty() && !end.1);
    let tail = scan(line, mk.0, mk.1, mk.2, close, false, false, true);
    assert(!matches_at(line, close, mk.0));
    assert(!matches_at(line, close, mk.1));
    let after = scan(line, mk.0, mk.1, mk.2, base, false, false, false);
    assert(after.0 == line.subrange(base, base + k) + end.0);
    assert(tail.0 == seq!['"'] + after.0);
    let mid = scan(line, mk.0, mk.1, mk.2, n, false, false, false);
    assert(mid.0 == seq!['"'] + line.subrange(n + 1, close) + tail.0);
    let whole = scan(line, mk.0, mk.1, mk.2, 0, false, false, false);
    assert(whole.0 == line.subrange(0, n) + mid.0);
    assert(whole.0 =~= p + seq!['"'] + q + seq!['"'] + r.subrange(0, k));
    assert(!whole.1);
}

/// One more line in the fold over a file.
pub proof fn lemma_fold_step(lines: Seq<Seq<char>>, mk: Marks, flavor: Flavor, j: int)
    requires
        0 <= j < lines.len(),
    ensures
        ({
            let p = fold_lines(lines.subrange(0, j), mk, flavor);
            let c = classify_spec(lines[j], mk, flavor, p.1);
            let f = fold_lines(lines.subrange(0, j + 1), mk, flavor);
            &&& f.1 == c.1
            &&& f.0 == match emitted(lines[j], c.0) {
                Some(x) => p.0.push(x),
                None => p.0,
            }
        }),
{
    let sub = lines.subrange(0, j + 1);
    assert(sub.drop_last() =~= lines.subrange(0, j));
    assert(sub.last() == lines[j]);
}

/// What the fold emits for a prefix of a file begins what it emits for a
/// longer prefix.
pub proof fn lemma_fold_prefix(lines: Seq<Seq<char>>, mk: Marks, flavor: Flavor, c: int, d: int)
    requires
        0 <= c <= d <= lines.len(),
    ensures
        ({
            let a = fold_lines(lines.subrange(0, c), mk, flavor).0;
            let b = fold_lines(lines.subrange(0, d), mk, flavor).0;
            a.len() <= b.len() && b.subrange(0, a.len() as int) == a
        }),
    decreases d - c,
{
    let a = fold_lines(lines.subrange(0, c), mk, flavor).0;
    if c == d {
        assert(a.subrange(0, a.len() as int) =~= a);
    } else {
        lemma_fold_prefix(lines, mk, flavor, c, d - 1);
        lemma_fold_step(lines, mk, flavor, d - 1);
        let m = fold_lines(lines.subrange(0, d - 1), mk, flavor).0;
        let b = fold_lines(lines.subrange(0, d), mk, flavor).0;
        assert(b.subrange(0, m.len() as int) =~= m);
        assert(b.subrange(0, a.len() as int) =~= m.subrange(0, a.len() as int));
    }
}

/// Where a block comment is open at the end of a file, the fold recorded
/// the line that opened it, which began outside any block comment, and the
/// number of lines emitted before it.
pub proof fn lemma_fold_open(lines: Seq<Seq<char>>, mk: Marks, flavor: Flavor)
    ensures
        ({
            let f = fold_lines(lines, mk, flavor);
            f.1.in_block_comment ==> {
                &&& 0 <= f.2 < lines.len()
                &&& f.3 == fold_lines(lines.subrange(0, f.2), mk, flavor).0.len()
                &&& !fold_lines(lines.subrange(0, f.2), mk, flavor).1.in_block_comment
                &&& fold_lines(lines.subrange(0, f.2 + 1), mk, flavor).1.in_block_comment
            }
        }),
    decreases lines.len(),
{
    if lines.len() > 0 {
        let prev = lines.drop_last();
        lemma_fold_open(prev, mk, flavor);
        let p = fold_lines(prev, mk, flavor);
        assert(lines.subrange(0, lines.len() - 1) =~= prev);
        assert(lines.subrange(0, lines.len() as int) =~= lines);
        if p.1.in_block_comment {
            assert(prev.subrange(0, p.2) =~= lines.subrange(0, p.2));
            assert(prev.subrange(0, p.2 + 1) =~= lines.subrange(0, p.2 + 1));
        }
    }
}

/// Where the fold is outside any block comment after a line, the line that
/// opened a block comment still open at the end of the file comes later.
pub proof fn lemma_open_after(lines: Seq<Seq<char>>, mk: Marks, flavor: Flavor, k: int)
    requires
        0 <= k < lines.len(),
        forall|j: int|
            0 <= j <= k + 1 ==> !(#[trigger] fold_lines(
                lines.subrange(0, j),
                mk,
                flavor,
            )).1.in_block_comment,
    ensures
        ({
            let f = fold_lines(lines, mk, flavor);
            f.1.in_block_comment ==> f.3 >= fold_lines(lines.subrange(0, k + 1), mk, flavor).0.len()
        }),
{
    let f = fold_lines(lines, mk, flavor);
    lemma_fold_open(lines, mk, flavor);
    assert(lines.subrange(0, lines.len() as int) =~= lines);
    if f.1.in_block_comment {
        if f.2 <= k {
            assert(!fold_lines(lines.subrange(0, f.2 + 1), mk, flavor).1.in_block_comment);
        } else {
            lemma_fold_prefix(lines, mk, flavor, k + 1, f.2);
        }
    }
}

/// Every character of `l` is whitespace.
pub open spec fn is_blank(l: Seq<char>) -> bool {
    forall|t: int| 0 <= t < l.len() ==> is_ws(#[trigger] l[t])
}

/// A present comment marker does not begin with whitespace.
pub open spec fn marker_ok(m: Seq<char>) -> bool {
    m.len() > 0 ==> !is_ws(m[0])
}

pub proof fn lemma_trim_end_blank(l: Seq<char>)
    requires
        is_blank(l),
    ensures
        trim_end(l).len() == 0,
    decreases l.len(),
{
    if l.len() > 0 {
        assert(is_ws(l[l.len() - 1]));
        lemma_trim_end_blank(l.drop_last());
    }
}

/// A marker that never occurs is counted zero times.
pub proof fn lemma_count_none(s: Seq<char>, m: Seq<char>, i: int)
    requires
        forall|t: int| i <= t ==> !matches_at(s, t, m),
    ensures
        count_from(s, m, i) == 0,
    decreases s.len() - i,
{
    if !(m.len() == 0 || i < 0 || i + m.len() > s.len()) {
        lemma_count_none(s, m, i + 1);
    }
}

/// A blank line read from a fresh state is dropped, and leaves the state
/// fresh.
pub proof fn lemma_blank_line(l: Seq<char>, mk: Marks, flavor: Flavor)
    requires
        is_blank(l),
        marker_ok(mk.0),
        marker_ok(mk.1),
    ensures
        ({
            let c = classify_spec(l, mk, flavor, ScanState::fresh_spec());
            emitted(l, c.0) is None && c.1 == ScanState::fresh_spec()
        }),
{
    lemma_trim_end_blank(l);
    assert(trim(l).len() == 0);
    assert forall|t: int| 0 <= t implies !matches_at(l, t, triple_double()) by {
        if matches_at(l, t, triple_double()) {
            assert(l.subrange(t, t + 3)[0] == l[t]);
        }
    }
    assert forall|t: int| 0 <= t implies !matches_at(l, t, triple_single()) by {
        if matches_at(l, t, triple_single()) {
            assert(l.subrange(t, t + 3)[0] == l[t]);
        }
    }
    lemma_count_none(l, triple_double(), 0);
    lemma_count_none(l, triple_single(), 0);
    assert forall|t: int| 0 <= t < l.len() implies quiet_at(l, mk, t, false, false) by {
        if matches_at(l, t, mk.0) {
            assert(l.subrange(t, t + mk.0.len())[0] == l[t]);
        }
        if matches_at(l, t, mk.1) {
            assert(l.subrange(t, t + mk.1.len())[0] == l[t]);
        }
    }
    lemma_scan_quiet(l, mk, 0, l.len() as int, false, false);
    assert(l.subrange(0, l.len() as int) =~= l);
    assert(scan(l, mk.0, mk.1, mk.2, l.len() as int, false, false, false).0 =~= Seq::<
        char,
    >::empty());
    assert(scan(l, mk.0, mk.1, mk.2, 0, false, false, false).0 =~= l);
}

proof fn lemma_blank_prefix(lines: Seq<Seq<char>>, mk: Marks, flavor: Flavor, j: int)
    requires
        0 <= j <= lines.len(),
        forall|t: int| 0 <= t < j ==> is_blank(#[trigger] lines[t]),
        marker_ok(mk.0),
        marker_ok(mk.1),
    ensures
        fold_lines(lines.subrange(0, j), mk, flavor).0.len() == 0,
        fold_lines(lines.subrange(0, j), mk, flavor).1 == ScanState::fresh_spec(),
    decreases j,
{
    if j > 0 {
        lemma_blank_prefix(lines, mk, flavor, j - 1);
        lemma_fold_step(lines, mk, flavor, j - 1);
        lemma_blank_line(lines[j - 1], mk, flavor);
    }
}

/// A path header that is the first line with content is the first line of
/// the output, unchanged (for comment markers that do not begin with
/// whitespace).
#[verifier::rlimit(40)]
pub proof fn lemma_header_first(lines: Seq<Seq<char>>, mk: Marks, flavor: Flavor, k: int)
    requires
        0 <= k < lines.len(),
        is_path_header(lines[k], mk),
        forall|j: int| 0 <= j < k ==> is_blank(#[trigger] lines[j]),
        marker_ok(mk.0),
        marker_ok(mk.1),
    ensures
        strip_lines(lines, mk, flavor).len() > 0,
        strip_lines(lines, mk, flavor)[0] == lines[k],
{
    lemma_blank_prefix(lines, mk, flavor, k);
    lemma_fold_step(lines, mk, flavor, k);
    let head = fold_lines(lines.subrange(0, k + 1), mk, flavor);
    assert(head.0 =~= seq![lines[k]]);
    assert forall|j: int|
        0 <= j <= k + 1 implies !(#[trigger] fold_lines(
        lines.subrange(0, j),
        mk,
        flavor,
    )).1.in_block_comment by {
        if j <= k {
            lemma_blank_prefix(lines, mk, flavor, j);
        }
    }
    lemma_open_after(lines, mk, flavor, k);
    lemma_fold_prefix(lines, mk, flavor, k + 1, lines.len() as int);
    assert(lines.subrange(0, lines.len() as int) =~= lines);
    let f = fold_lines(lines, mk, flavor);
    assert(f.0.subrange(0, 1)[0] == f.0[0]);
    if f.1.in_block_comment {
        lemma_fold_open(lines, mk, flavor);
        lemma_fold_prefix(lines, mk, flavor, f.2, lines.len() as int);
        let out = f.0.subrange(0, f.3) + lines.subrange(f.2, lines.len() as int);
        assert(out[0] == f.0[0]);
    }
}

/// Without a block opener the scanner never leaves a block comment open.
pub proof fn lemma_scan_no_block(s: Seq<char>, mk: Marks, i: int, sq: bool, dq: bool)
    requires
        mk.1.len() == 0,
    ensures
        !scan(s, mk.0, mk.1, mk.2, i, false, sq, dq).1,
    decreases s.len() - i,
{
    if 0 <= i < s.len() {
        if s[i] == '\\' {
            let n: int = if i + 1 < s.len() {
                2
            } else {
                1
            };
            lemma_scan_no_block(s, mk, i + n, sq, dq);
        } else {
            let c = s[i];
            let sq2 = if c == '\'' && !dq {
                !sq
            } else {
                sq
            };
            let dq2 = if c == '"' && !sq {
                !dq
            } else {
                dq
            };
            lemma_scan_no_block(s, mk, i + 1, sq2, dq2);
        }
    }
}

/// Without a block opener no block comment is open after any line.
pub proof fn lemma_fold_no_block(lines: Seq<Seq<char>>, mk: Marks, flavor: Flavor)
    requires
        mk.1.len() == 0,
    ensures
        !fold_lines(lines, mk, flavor).1.in_block_comment,
    decreases lines.len(),
{
    if lines.len() > 0 {
        lemma_fold_no_block(lines.drop_last(), mk, flavor);
        lemma_scan_no_block(lines.last(), mk, 0, false, false);
    }
}

proof fn lemma_docstring_run(lines: Seq<Seq<char>>, mk: Marks, a: int, b: int, j: int)
    requires
        0 <= a < j <= b <= lines.len(),
        !is_path_header(lines[a], mk),
        !fold_lines(lines.subrange(0, a), mk, Flavor::Python).1.in_triple_double,
        count_occurrences(lines[a], triple_double()) == 1,
        forall|t: int| a < t < b - 1 ==> count_occurrences(#[trigger] lines[t], triple_double()) == 0,
    ensures
        fold_lines(lines.subrange(0, j), mk, Flavor::Python).0 == fold_lines(
            lines.subrange(0, a),
            mk,
            Flavor::Python,
        ).0 + lines.subrange(a, j),
        j < b ==> fold_lines(lines.subrange(0, j), mk, Flavor::Python).1.in_triple_double,
    decreases j - a,
{
    lemma_fold_step(lines, mk, Flavor::Python, j - 1);
    let before = fold_lines(lines.subrange(0, a), mk, Flavor::Python).0;
    if j - 1 == a {
        assert(lines.subrange(a, j) =~= seq![lines[a]]);
    } else {
        lemma_docstring_run(lines, mk, a, b, j - 1);
        assert(lines.subrange(a, j) =~= lines.subrange(a, j - 1).push(lines[j - 1]));
    }
}

/// A docstring is kept whole in a Python file without block comments: where
/// no docstring is open before line `a`, line `a` opens one with a single
/// `"""` and is no path header, and the lines strictly between `a` and
/// `b - 1` hold no `"""`, the lines `a..b` stand unchanged, in order, in the
/// output.
pub proof fn lemma_docstring_kept(lines: Seq<Seq<char>>, mk: Marks, a: int, b: int)
    requires
        0 <= a < b <= lines.len(),
        mk.1.len() == 0,
        !is_path_header(lines[a], mk),
        !fold_lines(lines.subrange(0, a), mk, Flavor::Python).1.in_triple_double,
        count_occurrences(lines[a], triple_double()) == 1,
        forall|t: int| a < t < b - 1 ==> count_occurrences(#[trigger] lines[t], triple_double()) == 0,
    ensures
        ({
            let k = fold_lines(lines.subrange(0, a), mk, Flavor::Python).0.len() as int;
            let out = strip_lines(lines, mk, Flavor::Python);
            k + (b - a) <= out.len() && out.subrange(k, k + (b - a)) == lines.subrange(a, b)
        }),
{
    lemma_docstring_run(lines, mk, a, b, b);
    lemma_fold_prefix(lines, mk, Flavor::Python, b, lines.len() as int);
    lemma_fold_no_block(lines, mk, Flavor::Python);
    assert(lines.subrange(0, lines.len() as int) =~= lines);
    let k = fold_lines(lines.subrange(0, a), mk, Flavor::Python).0.len() as int;
    let upto = fold_lines(lines.subrange(0, b), mk, Flavor::Python).0;
    let out = strip_lines(lines, mk, Flavor::Python);
    assert(out.subrange(0, upto.len() as int) == upto);
    assert(out.subrange(k, k + (b - a)) =~= upto.subrange(k, k + (b - a)));
    assert(upto.subrange(k, k + (b - a)) =~= lines.subrange(a, b));
}

/// A `#` comment line outside any docstring, `w#rest` with `w` blank, is
/// removed from a Python file, and leaves the carry state as it was.
pub proof fn lemma_comment_line_dropped(
    w: Seq<char>,
    rest: Seq<char>,
    mk: Marks,
    st: ScanState,
)
    requires
        is_blank(w),
        mk.0 == seq!['#'],
        mk.1.len() == 0,
        !st.in_block_comment,
        !st.in_triple_double,
        !st.in_triple_single,
        !is_path_header(w + seq!['#'] + rest, mk),
        count_occurrences(w + seq!['#'] + rest, triple_double()) == 0,
        count_occurrences(w + seq!['#'] + rest, triple_single()) == 0,
    ensures
        ({
            let line = w + seq!['#'] + rest;
            let c = classify_spec(line, mk, Flavor::Python, st);
            emitted(line, c.0) is None && c.1 == st
        }),
{
    let line = w + seq!['#'] + rest;
    let n = w.len() as int;
    assert forall|t: int| 0 <= t < n implies quiet_at(line, mk, t, false, false) by {
        assert(line[t] == w[t]);
        if matches_at(line, t, mk.0) {
            assert(line.subrange(t, t + 1)[0] == line[t]);
        }
    }
    lemma_scan_quiet(line, mk, 0, n, false, false);
    assert(line[n] == '#');
    assert(line.subrange(n, n + 1) =~= mk.0);
    assert(line.subrange(0, n) =~= w);
    assert(scan(line, mk.0, mk.1, mk.2, n, false, false, false).0 =~= Seq::<char>::empty());
    assert(scan(line, mk.0, mk.1, mk.2, 0, false, false, false).0 =~= w);
    lemma_trim_end_blank(w);
}

} // verus!
