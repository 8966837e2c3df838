//! What the scanner keeps of a line is kept whole by a second scan, for
//! comment styles in which removing a block comment cannot join two pieces
//! of code into a comment marker.
use vstd::prelude::*;

use crate::engine::{
    kept_code, classify_spec, emitted, fold_lines, header_tag, is_path_header, strip_lines, ScanState,
};
use crate::laws::{lemma_fold_open, lemma_fold_prefix};
use crate::idempotence::{lemma_trim_end_prefix, lemma_trim_start_suffix, plain_marker};
use crate::laws::marker_ok;
use crate::scan::scan;
use crate::style::{Flavor, Marks};
use crate::text::{is_ws, matches_at, starts_with, trim, trim_end};

verus! {

/// Markers of at most two characters, none beginning with a quote or a
/// backslash, such that a character that begins a marker, followed by the
/// first character of the block opener, makes the line marker.  Where a
/// block comment is cut out of a line, what stood before it and what
/// follows it then cannot join into a marker.
pub open spec fn merge_safe(mk: Marks) -> bool {
    &&& mk.0.len() <= 2
    &&& plain_marker(mk.0)
    &&& mk.1.len() <= 2
    &&& plain_marker(mk.1)
    &&& (mk.1.len() > 0 && mk.2.len() > 0) ==> {
        &&& (mk.0.len() == 2 ==> seq![mk.0[0], mk.1[0]] == mk.0)
        &&& (mk.1.len() == 2 ==> seq![mk.1[0], mk.1[0]] == mk.0)
    }
}

/// Scanning after a leading piece `p` is scanning what follows it.
pub proof fn lemma_scan_shift(
    p: Seq<char>,
    s: Seq<char>,
    mk: Marks,
    k: int,
    b: bool,
    sq: bool,
    dq: bool,
)
    requires
        0 <= k,
    ensures
        scan(p + s, mk.0, mk.1, mk.2, p.len() + k, b, sq, dq) == scan(s, mk.0, mk.1, mk.2, k, b, sq, dq),
    decreases s.len() - k,
{
    let t = p + s;
    let j = p.len() + k;
    if k < s.len() {
        assert(t[j] == s[k]);
        assert forall|m: Seq<char>| matches_at(t, j, m) == matches_at(s, k, m) by {
            if j + m.len() <= t.len() {
                assert(t.subrange(j, j + m.len()) =~= s.subrange(k, k + m.len()));
            }
        }
        if b {
            if matches_at(s, k, mk.2) {
                lemma_scan_shift(p, s, mk, k + mk.2.len(), false, false, false);
            }
            lemma_scan_shift(p, s, mk, k + 1, true, false, false);
        } else if s[k] == '\\' {
            if k + 1 < s.len() {
                assert(t.subrange(j, j + 2) =~= s.subrange(k, k + 2));
                lemma_scan_shift(p, s, mk, k + 2, false, sq, dq);
            } else {
                assert(t.subrange(j, j + 1) =~= s.subrange(k, k + 1));
                lemma_scan_shift(p, s, mk, k + 1, false, sq, dq);
            }
        } else {
            let c = s[k];
            let sq2 = if c == '\'' && !dq {
                !sq
            } else {
                sq
            };
            let dq2 = if c == '"' && !sq {
                !dq
            } else {
                dq
            };
            if matches_at(s, k, mk.1) {
                lemma_scan_shift(p, s, mk, k + mk.1.len(), true, false, false);
            }
            lemma_scan_shift(p, s, mk, k + 1, false, sq2, dq2);
        }
    }
}

/// The first character the scanner keeps after position `i` is the one at
/// `i`, unless a block comment opens there.
pub proof fn lemma_first_kept(s: Seq<char>, mk: Marks, i: int, sq: bool, dq: bool)
    requires
        0 <= i,
        scan(s, mk.0, mk.1, mk.2, i, false, sq, dq).0.len() > 0,
    ensures
        i < s.len(),
        scan(s, mk.0, mk.1, mk.2, i, false, sq, dq).0[0] == s[i] || ({
            let c = s[i];
            let sq2 = if c == '\'' && !dq {
                !sq
            } else {
                sq
            };
            let dq2 = if c == '"' && !sq {
                !dq
            } else {
                dq
            };
            c != '\\' && !sq2 && !dq2 && mk.2.len() > 0 && matches_at(s, i, mk.1)
        }),
{
    if i < s.len() && s[i] == '\\' {
        let n: int = if i + 1 < s.len() {
            2
        } else {
            1
        };
        assert(s.subrange(i, i + n)[0] == s[i]);
    }
}

/// A marker does not occur at the head of what the scanner keeps from a
/// character `x[i]` that it kept with no string open after it.
proof fn lemma_no_joined_marker(
    x: Seq<char>,
    mk: Marks,
    i: int,
    sq2: bool,
    dq2: bool,
    m: Seq<char>,
)
    requires
        merge_safe(mk),
        0 <= i < x.len(),
        x[i] != '\\',
        !sq2,
        !dq2,
        m == mk.0 || (m == mk.1 && mk.2.len() > 0),
        !matches_at(x, i, mk.0),
        !(mk.2.len() > 0 && matches_at(x, i, mk.1)),
    ensures
        !matches_at(seq![x[i]] + scan(x, mk.0, mk.1, mk.2, i + 1, false, sq2, dq2).0, 0, m),
{
    let rest = scan(x, mk.0, mk.1, mk.2, i + 1, false, sq2, dq2).0;
    let out = seq![x[i]] + rest;
    if matches_at(out, 0, m) {
        assert(out.subrange(0, m.len() as int)[0] == out[0]);
        if m.len() == 1 {
            assert(x.subrange(i, i + 1) =~= m);
        } else {
            assert(m.len() == 2);
            assert(out.subrange(0, 2)[1] == out[1]);
            lemma_first_kept(x, mk, i + 1, sq2, dq2);
            if rest[0] == x[i + 1] {
                assert(x.subrange(i, i + 2) =~= m);
            } else {
                assert(x.subrange(i + 1, i + 1 + mk.1.len())[0] == x[i + 1]);
                assert(x[i + 1] == mk.1[0]);
                assert(seq![m[0], mk.1[0]] == mk.0);
                assert(x.subrange(i, i + 2) =~= mk.0);
            }
        }
    }
}

/// What the scanner keeps of `x[i..]` is kept whole, with no block comment
/// left open, when it is scanned again from the string state the first scan
/// had at `i`.
pub proof fn lemma_rescan(x: Seq<char>, mk: Marks, i: int, b: bool, sq: bool, dq: bool)
    requires
        merge_safe(mk),
        0 <= i,
        b ==> !sq && !dq,
    ensures
        ({
            let out = scan(x, mk.0, mk.1, mk.2, i, b, sq, dq).0;
            scan(out, mk.0, mk.1, mk.2, 0, false, sq, dq) == (out, false)
        }),
    decreases x.len() - i,
{
    let out = scan(x, mk.0, mk.1, mk.2, i, b, sq, dq).0;
    if i >= x.len() {
        assert(out.len() == 0);
    } else if b {
        if matches_at(x, i, mk.2) {
            lemma_rescan(x, mk, i + mk.2.len(), false, false, false);
        } else {
            lemma_rescan(x, mk, i + 1, true, false, false);
        }
    } else if x[i] == '\\' {
        let n: int = if i + 1 < x.len() {
            2
        } else {
            1
        };
        let rest = scan(x, mk.0, mk.1, mk.2, i + n, false, sq, dq).0;
        lemma_rescan(x, mk, i + n, false, sq, dq);
        let p = x.subrange(i, i + n);
        assert(out == p + rest);
        lemma_scan_shift(p, rest, mk, 0, false, sq, dq);
        assert(out[0] == '\\');
        if n == 1 {
            assert(rest.len() == 0);
        }
        assert(out.subrange(0, n) =~= p);
        assert(p + rest =~= out);
    } else {
        let c = x[i];
        let sq2 = if c == '\'' && !dq {
            !sq
        } else {
            sq
        };
        let dq2 = if c == '"' && !sq {
            !dq
        } else {
            dq
        };
        if !sq2 && !dq2 && mk.2.len() > 0 && matches_at(x, i, mk.1) {
            assert(x.subrange(i, i + mk.1.len())[0] == c);
            lemma_rescan(x, mk, i + mk.1.len(), true, false, false);
        } else if !sq2 && !dq2 && matches_at(x, i, mk.0) {
            assert(out.len() == 0);
        } else {
            let rest = scan(x, mk.0, mk.1, mk.2, i + 1, false, sq2, dq2).0;
            lemma_rescan(x, mk, i + 1, false, sq2, dq2);
            assert(out == seq![c] + rest);
            lemma_scan_shift(seq![c], rest, mk, 0, false, sq2, dq2);
            if !sq2 && !dq2 {
                lemma_no_joined_marker(x, mk, i, sq2, dq2, mk.0);
                if mk.2.len() > 0 {
                    lemma_no_joined_marker(x, mk, i, sq2, dq2, mk.1);
                }
            }
            assert(out[0] == c);
        }
    }
}

/// The scanner keeps no more than what is left of the line.
pub proof fn lemma_scan_len(s: Seq<char>, mk: Marks, i: int, b: bool, sq: bool, dq: bool)
    requires
        0 <= i,
    ensures
        scan(s, mk.0, mk.1, mk.2, i, b, sq, dq).0.len() <= if i < s.len() {
            s.len() - i
        } else {
            0
        },
    decreases s.len() - i,
{
    if i < s.len() {
        if b {
            if matches_at(s, i, mk.2) {
                lemma_scan_len(s, mk, i + mk.2.len(), false, false, false);
            }
            lemma_scan_len(s, mk, i + 1, true, false, false);
        } else if s[i] == '\\' {
            let n: int = if i + 1 < s.len() {
                2
            } else {
                1
            };
            lemma_scan_len(s, mk, i + n, false, sq, dq);
        } else {
            let c = s[i];
            let sq2 = if c == '\'' && !dq {
                !sq
            } else {
                sq
            };
            let dq2 = if c == '"' && !sq {
                !dq
            } else {
                dq
            };
            if matches_at(s, i, mk.1) {
                lemma_scan_len(s, mk, i + mk.1.len(), true, false, false);
            }
            lemma_scan_len(s, mk, i + 1, false, sq2, dq2);
        }
    }
}

/// Where the scanner keeps all of `s[i..]`, it keeps all of `s[i..n]` when
/// the line ends at `n`.
pub proof fn lemma_kept_whole_prefix(s: Seq<char>, mk: Marks, n: int, i: int, sq: bool, dq: bool)
    requires
        0 <= i <= n <= s.len(),
        scan(s, mk.0, mk.1, mk.2, i, false, sq, dq) == (s.subrange(i, s.len() as int), false),
    ensures
        scan(s.subrange(0, n), mk.0, mk.1, mk.2, i, false, sq, dq) == (s.subrange(i, n), false),
    decreases n - i,
{
    let y = s.subrange(0, n);
    if i == n {
        assert(s.subrange(i, n) =~= Seq::<char>::empty());
    } else {
        let whole = s.subrange(i, s.len() as int);
        assert(y[i] == s[i]);
        if s[i] == '\\' {
            let k: int = if i + 1 < s.len() {
                2
            } else {
                1
            };
            let r = scan(s, mk.0, mk.1, mk.2, i + k, false, sq, dq);
            assert(whole == s.subrange(i, i + k) + r.0);
            assert(r.0 =~= whole.subrange(k, whole.len() as int));
            assert(whole.subrange(k, whole.len() as int) =~= s.subrange(i + k, s.len() as int));
            if i + 1 < n {
                assert(y[i + 1] == s[i + 1]);
                lemma_kept_whole_prefix(s, mk, n, i + 2, sq, dq);
                assert(y.subrange(i, i + 2) + s.subrange(i + 2, n) =~= s.subrange(i, n));
            } else {
                assert(scan(y, mk.0, mk.1, mk.2, i + 1, false, sq, dq).0 =~= Seq::<
                    char,
                >::empty());
                assert(y.subrange(i, i + 1) =~= s.subrange(i, n));
            }
        } else {
            let c = s[i];
            let sq2 = if c == '\'' && !dq {
                !sq
            } else {
                sq
            };
            let dq2 = if c == '"' && !sq {
                !dq
            } else {
                dq
            };
            if !sq2 && !dq2 && mk.2.len() > 0 && matches_at(s, i, mk.1) {
                lemma_scan_len(s, mk, i + mk.1.len(), true, false, false);
                assert(false);
            }
            if !sq2 && !dq2 && matches_at(s, i, mk.0) {
                assert(false);
            }
            if !sq2 && !dq2 && mk.2.len() > 0 && matches_at(y, i, mk.1) {
                assert(s.subrange(i, i + mk.1.len()) =~= y.subrange(i, i + mk.1.len()));
            }
            if !sq2 && !dq2 && matches_at(y, i, mk.0) {
                assert(s.subrange(i, i + mk.0.len()) =~= y.subrange(i, i + mk.0.len()));
            }
            let r = scan(s, mk.0, mk.1, mk.2, i + 1, false, sq2, dq2);
            assert(whole == seq![c] + r.0);
            assert(r.0 =~= whole.subrange(1, whole.len() as int));
            assert(whole.subrange(1, whole.len() as int) =~= s.subrange(i + 1, s.len() as int));
            lemma_kept_whole_prefix(s, mk, n, i + 1, sq2, dq2);
            assert(seq![c] + s.subrange(i + 1, n) =~= s.subrange(i, n));
        }
    }
}

/// Where the scanner keeps all of `y` from a fresh start, `y` is no path
/// header.
pub proof fn lemma_kept_whole_no_header(y: Seq<char>, mk: Marks)
    requires
        marker_ok(mk.0),
        marker_ok(mk.1),
        plain_marker(mk.0),
        plain_marker(mk.1),
        mk.1.len() > 0 ==> mk.2.len() > 0,
        y.len() > 0,
        !is_ws(y.last()),
        trim_end(y) == y,
        scan(y, mk.0, mk.1, mk.2, 0, false, false, false) == (y, false),
    ensures
        !is_path_header(y, mk),
{
    let j = lemma_trim_start_suffix(y);
    let n = y.len() as int;
    if j == n {
        assert(is_ws(y[n - 1]));
    }
    assert(trim(y) == y.subrange(j, n));
    assert forall|t: int| 0 <= t <= j implies scan(y, mk.0, mk.1, mk.2, t, false, false, false)
        == (y.subrange(t, n), false) by {
        lemma_ws_run_kept(y, mk, t, j);
    }
    let m0 = mk.0;
    let m1 = mk.1;
    if is_path_header(y, mk) {
        let t = trim(y);
        let m = if m0.len() > 0 && starts_with(t, m0 + header_tag()) {
            m0
        } else {
            m1
        };
        let hp = m + header_tag();
        assert(starts_with(t, hp));
        assert(t.subrange(0, hp.len() as int) == hp);
        assert forall|k: int| 0 <= k < m.len() implies y.subrange(j, j + m.len())[k] == m[k] by {
            assert(t.subrange(0, hp.len() as int)[k] == hp[k]);
            assert(t[k] == y[j + k]);
        }
        assert(y.subrange(j, j + m.len()) =~= m);
        assert(y.subrange(j, j + m.len())[0] == y[j]);
        assert(y[j] != '\\' && y[j] != '\'' && y[j] != '"');
        lemma_scan_len(y, mk, j + m1.len(), true, false, false);
        assert(scan(y, mk.0, mk.1, mk.2, j, false, false, false).0 == y.subrange(j, n));
    }
}

/// Over a run of whitespace that no marker begins with, the scanner of a
/// line it keeps whole stands outside strings.
proof fn lemma_ws_run_kept(y: Seq<char>, mk: Marks, t: int, j: int)
    requires
        marker_ok(mk.0),
        marker_ok(mk.1),
        0 <= t <= j < y.len(),
        forall|u: int| 0 <= u < j ==> is_ws(#[trigger] y[u]),
        scan(y, mk.0, mk.1, mk.2, 0, false, false, false) == (y, false),
    ensures
        scan(y, mk.0, mk.1, mk.2, t, false, false, false) == (
            y.subrange(t, y.len() as int),
            false,
        ),
    decreases t,
{
    if t == 0 {
        assert(y.subrange(0, y.len() as int) =~= y);
    } else {
        lemma_ws_run_kept(y, mk, t - 1, j);
        let u = t - 1;
        assert(is_ws(y[u]));
        assert(y[u] != '\\' && y[u] != '\'' && y[u] != '"');
        if matches_at(y, u, mk.0) {
            assert(y.subrange(u, u + mk.0.len())[0] == y[u]);
        }
        if matches_at(y, u, mk.1) {
            assert(y.subrange(u, u + mk.1.len())[0] == y[u]);
        }
        let r = scan(y, mk.0, mk.1, mk.2, t, false, false, false);
        let w = y.subrange(u, y.len() as int);
        assert(w == seq![y[u]] + r.0);
        assert(r.0 =~= w.subrange(1, w.len() as int));
        assert(w.subrange(1, w.len() as int) =~= y.subrange(t, y.len() as int));
    }
}

/// Comment markers with which stripping a line twice keeps what stripping
/// it once kept: they join no marker across a removed block comment, none
/// begins with whitespace, and a block opener comes with a closer.
pub open spec fn block_style_ok(mk: Marks) -> bool {
    &&& merge_safe(mk)
    &&& marker_ok(mk.0)
    &&& marker_ok(mk.1)
    &&& (mk.1.len() > 0 ==> mk.2.len() > 0)
}

/// `s` with no block comment open.
pub open spec fn outside_block(s: ScanState) -> ScanState {
    ScanState {
        in_block_comment: false,
        in_triple_double: s.in_triple_double,
        in_triple_single: s.in_triple_single,
    }
}

/// A line emitted by the engine comes out of a second pass unchanged, read
/// outside any block comment.
pub proof fn lemma_line_twice_generic(x: Seq<char>, mk: Marks, st: ScanState)
    requires
        block_style_ok(mk),
        emitted(x, classify_spec(x, mk, Flavor::Generic, st).0) is Some,
    ensures
        ({
            let y = emitted(x, classify_spec(x, mk, Flavor::Generic, st).0)->0;
            let cy = classify_spec(y, mk, Flavor::Generic, outside_block(st));
            emitted(y, cy.0) == Some(y) && cy.1 == outside_block(
                classify_spec(x, mk, Flavor::Generic, st).1,
            )
        }),
{
    if !is_path_header(x, mk) {
        let out = scan(x, mk.0, mk.1, mk.2, 0, st.in_block_comment, false, false).0;
        lemma_rescan(x, mk, 0, st.in_block_comment, false, false);
        let te = trim_end(out);
        let n = te.len() as int;
        lemma_trim_end_prefix(out);
        assert(out.subrange(0, out.len() as int) =~= out);
        lemma_kept_whole_prefix(out, mk, n, 0, false, false);
        assert(out.subrange(0, n) == te);
        assert(scan(te, mk.0, mk.1, mk.2, 0, false, false, false) == (te, false));
        let y = kept_code(out, st.in_block_comment);
        if st.in_block_comment {
            let j = lemma_trim_start_suffix(te);
            assert(y == te.subrange(j, n));
            assert(y.len() > 0);
            lemma_ws_run_kept(te, mk, j, j);
            let lead = te.subrange(0, j);
            assert(lead + y =~= te);
            lemma_scan_shift(lead, y, mk, 0, false, false, false);
            assert(y.last() == te.last());
        }
        assert(scan(y, mk.0, mk.1, mk.2, 0, false, false, false) == (y, false));
        assert(trim_end(y) == y);
        lemma_kept_whole_no_header(y, mk);
    }
}

/// Folding the emitted lines of a file again emits them unchanged, and ends
/// in the same state but outside any block comment.
pub proof fn lemma_fold_twice_generic(lines: Seq<Seq<char>>, mk: Marks)
    requires
        block_style_ok(mk),
    ensures
        ({
            let f = fold_lines(lines, mk, Flavor::Generic);
            let g = fold_lines(f.0, mk, Flavor::Generic);
            g.0 == f.0 && g.1 == outside_block(f.1)
        }),
    decreases lines.len(),
{
    if lines.len() > 0 {
        let prev = lines.drop_last();
        let x = lines.last();
        lemma_fold_twice_generic(prev, mk);
        let f = fold_lines(prev, mk, Flavor::Generic);
        let c = classify_spec(x, mk, Flavor::Generic, f.1);
        match emitted(x, c.0) {
            Some(y) => {
                lemma_line_twice_generic(x, mk, f.1);
                let o = f.0.push(y);
                assert(o.drop_last() =~= f.0);
            },
            None => {},
        }
    }
}

/// The fold continued over the lines `r` from the result `acc` of earlier
/// lines, the first line of `r` standing at index `base` of the file.
pub open spec fn fold_rest(
    r: Seq<Seq<char>>,
    mk: Marks,
    flavor: Flavor,
    acc: (Seq<Seq<char>>, ScanState, int, int),
    base: int,
) -> (Seq<Seq<char>>, ScanState, int, int)
    decreases r.len(),
{
    if r.len() == 0 {
        acc
    } else {
        let p = fold_rest(r.drop_last(), mk, flavor, acc, base);
        let c = classify_spec(r.last(), mk, flavor, p.1);
        let out = match emitted(r.last(), c.0) {
            Some(x) => p.0.push(x),
            None => p.0,
        };
        let opens = !p.1.in_block_comment && c.1.in_block_comment;
        (
            out,
            c.1,
            if opens {
                base + r.len() - 1
            } else {
                p.2
            },
            if opens {
                p.0.len() as int
            } else {
                p.3
            },
        )
    }
}

/// Folding `a + r` is folding `a`, then going on over `r`.
pub proof fn lemma_fold_append(a: Seq<Seq<char>>, r: Seq<Seq<char>>, mk: Marks, flavor: Flavor)
    ensures
        fold_lines(a + r, mk, flavor) == fold_rest(r, mk, flavor, fold_lines(a, mk, flavor), a.len() as int),
    decreases r.len(),
{
    if r.len() == 0 {
        assert(a + r =~= a);
    } else {
        lemma_fold_append(a, r.drop_last(), mk, flavor);
        assert((a + r).drop_last() =~= a + r.drop_last());
        assert((a + r).last() == r.last());
    }
}

/// Going on from two results that agree but for where the file starts
/// gives results that agree in the same way.
pub proof fn lemma_fold_rest_shift(
    r: Seq<Seq<char>>,
    mk: Marks,
    flavor: Flavor,
    acc1: (Seq<Seq<char>>, ScanState, int, int),
    base1: int,
    acc2: (Seq<Seq<char>>, ScanState, int, int),
    base2: int,
)
    requires
        acc1.0 == acc2.0,
        acc1.1 == acc2.1,
        acc1.2 - base1 == acc2.2 - base2,
        acc1.3 == acc2.3,
    ensures
        ({
            let f1 = fold_rest(r, mk, flavor, acc1, base1);
            let f2 = fold_rest(r, mk, flavor, acc2, base2);
            f1.0 == f2.0 && f1.1 == f2.1 && f1.2 - base1 == f2.2 - base2 && f1.3 == f2.3
        }),
    decreases r.len(),
{
    if r.len() > 0 {
        lemma_fold_rest_shift(r.drop_last(), mk, flavor, acc1, base1, acc2, base2);
    }
}

/// Stripping twice gives what stripping once gives, for files without
/// docstrings whose comment markers meet `block_style_ok` (the C family:
/// `//` with `/* */`), block comments left open at the end included.
pub proof fn lemma_strip_idempotent_generic(lines: Seq<Seq<char>>, mk: Marks)
    requires
        block_style_ok(mk),
    ensures
        strip_lines(strip_lines(lines, mk, Flavor::Generic), mk, Flavor::Generic) == strip_lines(
            lines,
            mk,
            Flavor::Generic,
        ),
{
    let fl = Flavor::Generic;
    let f = fold_lines(lines, mk, fl);
    lemma_fold_twice_generic(lines, mk);
    if f.1.in_block_comment {
        lemma_fold_open(lines, mk, fl);
        let k = f.2;
        let head = lines.subrange(0, k);
        let rest = lines.subrange(k, lines.len() as int);
        let fh = fold_lines(head, mk, fl);
        let c = fh.0;
        lemma_fold_prefix(lines, mk, fl, k, lines.len() as int);
        assert(lines.subrange(0, lines.len() as int) =~= lines);
        assert(f.0.subrange(0, f.3) == c);
        let once = c + rest;
        assert(strip_lines(lines, mk, fl) == once);
        // the second pass reads the kept lines `c` as the first pass left them
        lemma_fold_twice_generic(head, mk);
        let fc = fold_lines(c, mk, fl);
        assert(fc.0 == c && fc.1 == fh.1);
        // both passes go on from the line that opened the block
        let r1 = rest.drop_first();
        let one = lines.subrange(0, k + 1);
        let two = once.subrange(0, c.len() as int + 1);
        assert(one =~= head.push(rest[0]));
        assert(two =~= c.push(rest[0]));
        assert(one.drop_last() =~= head);
        assert(two.drop_last() =~= c);
        let f_one = fold_lines(one, mk, fl);
        let f_two = fold_lines(two, mk, fl);
        assert(f_one.0 == f_two.0 && f_one.1 == f_two.1 && f_one.3 == f_two.3);
        assert(f_one.1.in_block_comment);
        assert(f_one.2 == k && f_two.2 == c.len());
        assert(one + r1 =~= lines);
        assert(two + r1 =~= once);
        lemma_fold_append(one, r1, mk, fl);
        lemma_fold_append(two, r1, mk, fl);
        lemma_fold_rest_shift(r1, mk, fl, f_one, k + 1, f_two, c.len() as int + 1);
        let g = fold_lines(once, mk, fl);
        assert(g.1.in_block_comment);
        assert(g.2 == c.len());
        assert(g.3 == c.len());
        lemma_fold_prefix(once, mk, fl, c.len() as int, once.len() as int);
        assert(once.subrange(0, c.len() as int) =~= c);
        assert(once.subrange(0, once.len() as int) =~= once);
        assert(g.0.subrange(0, c.len() as int) == c);
        assert(once.subrange(c.len() as int, once.len() as int) =~= rest);
    } else {
        lemma_fold_twice_generic(lines, mk);
    }
}

} // verus!
