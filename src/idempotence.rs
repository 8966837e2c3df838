//! Stripping twice gives what stripping once gives: proved here for comment
//! styles without block comments, and in `rescan` for the C family.
use vstd::prelude::*;

use crate::engine::{
    classify_spec, differs, emitted, fold_lines, in_docstring, is_path_header, strip_lines,
    triple_double, triple_single, header_tag, ScanState,
};
use crate::laws::{lemma_count_none, lemma_fold_no_block, lemma_scan_no_block};
use crate::scan::scan;
use crate::laws::{
    free_of_double_quotes, is_blank, lemma_header_first, lemma_string_literal_kept, marker_ok,
};
use crate::rescan::{block_style_ok, lemma_strip_idempotent_generic};
use crate::style::{family_markers, family_spec, flavor_spec, Family, Flavor, Marks};
use crate::text::{
    count_from, count_occurrences, is_ws, matches_at, starts_with, trim, trim_end, trim_start,
};

verus! {

/// Without block comments the scanner keeps a leading run of the line.
pub proof fn lemma_scan_keeps_prefix(s: Seq<char>, mk: Marks, i: int, sq: bool, dq: bool)
    requires
        mk.1.len() == 0,
        0 <= i <= s.len(),
    ensures
        ({
            let r = scan(s, mk.0, mk.1, mk.2, i, false, sq, dq).0;
            i + r.len() <= s.len() && r == s.subrange(i, i + r.len())
        }),
    decreases s.len() - i,
{
    let r = scan(s, mk.0, mk.1, mk.2, i, false, sq, dq).0;
    if i < s.len() {
        if s[i] == '\\' {
            let n: int = if i + 1 < s.len() {
                2
            } else {
                1
            };
            lemma_scan_keeps_prefix(s, mk, i + n, sq, dq);
            assert(r =~= s.subrange(i, i + r.len()));
        } else {
            let c = s[i];
            let sq2 = if c == '\'' && !dq {
                !sq
            } else {
                sq
            };
            let dq2 = if c == '"' && !sq {
                !dq
            } else {
                dq
            };
            lemma_scan_keeps_prefix(s, mk, i + 1, sq2, dq2);
            if !(!sq2 && !dq2 && matches_at(s, i, mk.0)) {
                assert(r =~= s.subrange(i, i + r.len()));
            }
        }
    } else {
        assert(r =~= s.subrange(i, i + r.len()));
    }
}

/// Scanning a leading run `s[..n]` that the scanner of `s` passes over whole
/// keeps all of it.
pub proof fn lemma_scan_of_prefix(
    s: Seq<char>,
    mk: Marks,
    n: int,
    i: int,
    sq: bool,
    dq: bool,
)
    requires
        mk.1.len() == 0,
        0 <= i <= n <= s.len(),
        scan(s, mk.0, mk.1, mk.2, i, false, sq, dq).0.len() >= n - i,
    ensures
        scan(s.subrange(0, n), mk.0, mk.1, mk.2, i, false, sq, dq) == (
            s.subrange(i, n),
            false,
        ),
    decreases n - i,
{
    let y = s.subrange(0, n);
    if i == n {
        assert(s.subrange(i, n) =~= Seq::<char>::empty());
    } else {
        assert(y[i] == s[i]);
        if s[i] == '\\' {
            if i + 1 < n {
                assert(y[i + 1] == s[i + 1]);
                lemma_scan_of_prefix(s, mk, n, i + 2, sq, dq);
                assert(y.subrange(i, i + 2) + s.subrange(i + 2, n) =~= s.subrange(i, n));
            } else {
                assert(scan(y, mk.0, mk.1, mk.2, i + 1, false, sq, dq).0 =~= Seq::<
                    char,
                >::empty());
                assert(y.subrange(i, i + 1) =~= s.subrange(i, n));
            }
        } else {
            let c = s[i];
            let sq2 = if c == '\'' && !dq {
                !sq
            } else {
                sq
            };
            let dq2 = if c == '"' && !sq {
                !dq
            } else {
                dq
            };
            if !sq2 && !dq2 && matches_at(y, i, mk.0) {
                assert(s.subrange(i, i + mk.0.len()) =~= y.subrange(i, i + mk.0.len()));
                assert(matches_at(s, i, mk.0));
            }
            lemma_scan_of_prefix(s, mk, n, i + 1, sq2, dq2);
            assert(seq![c] + s.subrange(i + 1, n) =~= s.subrange(i, n));
        }
    }
}

/// `trim_end` keeps a leading run of `s` that ends in no whitespace, and
/// trimming twice trims once.
pub proof fn lemma_trim_end_prefix(s: Seq<char>)
    ensures
        trim_end(s).len() <= s.len(),
        trim_end(s) == s.subrange(0, trim_end(s).len() as int),
        trim_end(s).len() > 0 ==> !is_ws(trim_end(s).last()),
        trim_end(trim_end(s)) == trim_end(s),
    decreases s.len(),
{
    if s.len() > 0 && is_ws(s.last()) {
        lemma_trim_end_prefix(s.drop_last());
        let t = trim_end(s.drop_last());
        assert(s.drop_last().subrange(0, t.len() as int) =~= s.subrange(0, t.len() as int));
    } else {
        assert(s.subrange(0, s.len() as int) =~= s);
    }
}

/// `trim_start` drops a leading run of whitespace.
pub proof fn lemma_trim_start_suffix(s: Seq<char>) -> (j: int)
    ensures
        0 <= j <= s.len(),
        trim_start(s) == s.subrange(j, s.len() as int),
        forall|t: int| 0 <= t < j ==> is_ws(#[trigger] s[t]),
        j < s.len() ==> !is_ws(s[j]),
    decreases s.len(),
{
    if s.len() > 0 && is_ws(s[0]) {
        let k = lemma_trim_start_suffix(s.drop_first());
        assert(s.drop_first().subrange(k, s.len() - 1) =~= s.subrange(k + 1, s.len() as int));
        assert forall|t: int| 0 <= t < k + 1 implies is_ws(#[trigger] s[t]) by {
            if t > 0 {
                assert(s[t] == s.drop_first()[t - 1]);
            }
        }
        k + 1
    } else {
        assert(s.subrange(0, s.len() as int) =~= s);
        0
    }
}

/// A marker that does not begin with a backslash or a quote.
pub open spec fn plain_marker(m: Seq<char>) -> bool {
    m.len() > 0 ==> m[0] != '\\' && m[0] != '\'' && m[0] != '"'
}

/// Where the scanner keeps all of `s[i..]`, no marker occurs in the
/// whitespace run `s[i..j]`, nor right after it.
pub proof fn lemma_kept_whole_no_marker(s: Seq<char>, mk: Marks, i: int, j: int)
    requires
        mk.1.len() == 0,
        plain_marker(mk.0),
        0 <= i <= j < s.len(),
        forall|t: int| i <= t < j ==> is_ws(#[trigger] s[t]),
        scan(s, mk.0, mk.1, mk.2, i, false, false, false).0 == s.subrange(i, s.len() as int),
    ensures
        !matches_at(s, j, mk.0),
    decreases j - i,
{
    let whole = s.subrange(i, s.len() as int);
    assert(whole.len() > 0);
    if i < j {
        assert(is_ws(s[i]));
        assert(s[i] != '\\' && s[i] != '\'' && s[i] != '"');
        if matches_at(s, i, mk.0) {
            assert(scan(s, mk.0, mk.1, mk.2, i, false, false, false).0.len() == 0);
        } else {
            assert(whole =~= seq![s[i]] + s.subrange(i + 1, s.len() as int));
            let r1 = scan(s, mk.0, mk.1, mk.2, i + 1, false, false, false).0;
            assert(scan(s, mk.0, mk.1, mk.2, i, false, false, false).0 == seq![s[i]] + r1);
            assert(r1 =~= whole.subrange(1, whole.len() as int));
            assert(scan(s, mk.0, mk.1, mk.2, i + 1, false, false, false).0 == s.subrange(
                i + 1,
                s.len() as int,
            ));
            lemma_kept_whole_no_marker(s, mk, i + 1, j);
        }
    } else {
        if matches_at(s, j, mk.0) {
            assert(s.subrange(j, j + mk.0.len())[0] == s[j]);
            assert(s[j] != '\\' && s[j] != '\'' && s[j] != '"');
            assert(scan(s, mk.0, mk.1, mk.2, i, false, false, false).0.len() == 0);
        }
    }
}

/// A marker counted zero times does not occur.
pub proof fn lemma_count_zero(s: Seq<char>, m: Seq<char>, i: int)
    requires
        0 <= i,
        count_from(s, m, i) == 0,
    ensures
        forall|t: int| i <= t ==> !matches_at(s, t, m),
    decreases s.len() - i,
{
    if !(m.len() == 0 || i + m.len() > s.len()) {
        lemma_count_zero(s, m, i + 1);
    }
}

/// A leading run of a line in which `m` never occurs holds no `m` either.
pub proof fn lemma_count_zero_prefix(s: Seq<char>, m: Seq<char>, n: int)
    requires
        0 <= n <= s.len(),
        count_occurrences(s, m) == 0,
    ensures
        count_occurrences(s.subrange(0, n), m) == 0,
{
    lemma_count_zero(s, m, 0);
    let y = s.subrange(0, n);
    assert forall|t: int| 0 <= t implies !matches_at(y, t, m) by {
        if matches_at(y, t, m) {
            assert(s.subrange(t, t + m.len()) =~= y.subrange(t, t + m.len()));
            assert(matches_at(s, t, m));
        }
    }
    lemma_count_none(y, m, 0);
}

/// A line that the engine emits comes out of a second pass unchanged, and
/// moves the carry state as the line it came from did.
pub proof fn lemma_line_twice(x: Seq<char>, mk: Marks, flavor: Flavor, st: ScanState)
    requires
        mk.1.len() == 0,
        plain_marker(mk.0),
        !st.in_block_comment,
        emitted(x, classify_spec(x, mk, flavor, st).0) is Some,
    ensures
        ({
            let y = emitted(x, classify_spec(x, mk, flavor, st).0)->0;
            let cy = classify_spec(y, mk, flavor, st);
            emitted(y, cy.0) == Some(y) && cy.1 == classify_spec(x, mk, flavor, st).1
        }),
{
    if !is_path_header(x, mk) && !in_docstring(x, flavor, st) {
        let r = scan(x, mk.0, mk.1, mk.2, 0, false, false, false);
        let y = trim_end(r.0);
        let n = y.len() as int;
        lemma_scan_no_block(x, mk, 0, false, false);
        lemma_scan_keeps_prefix(x, mk, 0, false, false);
        lemma_trim_end_prefix(r.0);
        assert(y =~= x.subrange(0, n));
        lemma_scan_of_prefix(x, mk, n, 0, false, false);
        assert(y.subrange(0, n) =~= y);
        assert(scan(y, mk.0, mk.1, mk.2, 0, false, false, false) == (y, false));
        assert(trim(y) == trim_start(y));
        let j = lemma_trim_start_suffix(y);
        if j == n {
            assert(is_ws(y[n - 1]));
        }
        if is_path_header(y, mk) {
            let t = trim(y);
            let hp = mk.0 + header_tag();
            assert(t == y.subrange(j, n));
            assert(starts_with(t, hp));
            assert(t.subrange(0, hp.len() as int) == hp);
            assert forall|k: int| 0 <= k < mk.0.len() implies y.subrange(j, j + mk.0.len())[k]
                == mk.0[k] by {
                assert(t.subrange(0, hp.len() as int)[k] == hp[k]);
                assert(hp[k] == mk.0[k]);
                assert(t[k] == y[j + k]);
            }
            assert(y.subrange(j, j + mk.0.len()) =~= mk.0);
            lemma_kept_whole_no_marker(y, mk, 0, j);
        }
        if flavor == Flavor::Python {
            lemma_count_zero_prefix(x, triple_double(), n);
            lemma_count_zero_prefix(x, triple_single(), n);
        }
    }
}

/// Folding the emitted lines of a file again emits them unchanged, and ends
/// in the same state.
pub proof fn lemma_fold_twice(lines: Seq<Seq<char>>, mk: Marks, flavor: Flavor)
    requires
        mk.1.len() == 0,
        plain_marker(mk.0),
    ensures
        fold_lines(fold_lines(lines, mk, flavor).0, mk, flavor).0 == fold_lines(
            lines,
            mk,
            flavor,
        ).0,
        fold_lines(fold_lines(lines, mk, flavor).0, mk, flavor).1 == fold_lines(
            lines,
            mk,
            flavor,
        ).1,
    decreases lines.len(),
{
    if lines.len() > 0 {
        let prev = lines.drop_last();
        let x = lines.last();
        lemma_fold_twice(prev, mk, flavor);
        lemma_fold_no_block(prev, mk, flavor);
        let f = fold_lines(prev, mk, flavor);
        let c = classify_spec(x, mk, flavor, f.1);
        match emitted(x, c.0) {
            Some(y) => {
                lemma_line_twice(x, mk, flavor, f.1);
                let o = f.0.push(y);
                assert(o.drop_last() =~= f.0);
            },
            None => {
                lemma_scan_no_block(x, mk, 0, false, false);
            },
        }
    }
}

/// Stripping twice gives what stripping once gives, for a comment style
/// without block comments whose line marker does not begin with a quote or
/// a backslash.
pub proof fn lemma_strip_idempotent(lines: Seq<Seq<char>>, mk: Marks, flavor: Flavor)
    requires
        mk.1.len() == 0,
        plain_marker(mk.0),
    ensures
        strip_lines(strip_lines(lines, mk, flavor), mk, flavor) == strip_lines(lines, mk, flavor),
{
    lemma_fold_no_block(lines, mk, flavor);
    lemma_fold_twice(lines, mk, flavor);
    lemma_fold_no_block(fold_lines(lines, mk, flavor).0, mk, flavor);
}

/// The markers of every family meet what the laws ask of markers: none
/// begins with whitespace, a quote or a backslash, and none holds a double
/// quote.
pub proof fn lemma_family_markers_plain(f: Family)
    ensures
        marker_ok(family_markers(f).0),
        marker_ok(family_markers(f).1),
        plain_marker(family_markers(f).0),
        free_of_double_quotes(family_markers(f).0),
        free_of_double_quotes(family_markers(f).1),
{
    reveal_strlit("//");
    reveal_strlit("/*");
    reveal_strlit("*/");
    reveal_strlit("<!--");
    reveal_strlit("-->");
    reveal_strlit("#");
}

/// Stripping a file twice gives what stripping it once gives, and the
/// second run reports no change, for every file but stylesheets and markup:
/// the C family, Python, Ruby, shell scripts, YAML, TOML, and extensions the
/// tool does not know.  (Cutting a block comment out can join a new opener:
/// the stylesheet lines `a//* c */*b` and `d */ e` become `a/*b` and
/// `d */ e`, which a second run strips to `a` and `e`; markup does the same
/// with `a<!-<!-- c -->-`.)
pub proof fn lemma_files_idempotent(lines: Seq<Seq<char>>, ext: Seq<char>)
    requires
        family_spec(ext) != Family::Stylesheet,
        family_spec(ext) != Family::Markup,
    ensures
        ({
            let mk = family_markers(family_spec(ext));
            let once = strip_lines(lines, mk, flavor_spec(ext));
            strip_lines(once, mk, flavor_spec(ext)) == once && !differs(
                strip_lines(once, mk, flavor_spec(ext)),
                once,
            )
        }),
{
    let mk = family_markers(family_spec(ext));
    lemma_family_markers_plain(family_spec(ext));
    if family_spec(ext) == Family::CLike {
        if ext == "py"@ {
            reveal_strlit("py");
            assert(ext[0] == 'p');
            reveal_strlit("ts");
            assert("ts"@[0] != 'p');
            reveal_strlit("js");
            assert("js"@[0] != 'p');
            reveal_strlit("jsx");
            assert("jsx"@[0] != 'p');
            reveal_strlit("tsx");
            assert("tsx"@[0] != 'p');
            reveal_strlit("c");
            assert("c"@[0] != 'p');
            reveal_strlit("cpp");
            assert("cpp"@[0] != 'p');
            reveal_strlit("h");
            assert("h"@[0] != 'p');
            reveal_strlit("hpp");
            assert("hpp"@[0] != 'p');
            reveal_strlit("cs");
            assert("cs"@[0] != 'p');
            reveal_strlit("go");
            assert("go"@[0] != 'p');
            reveal_strlit("java");
            assert("java"@[0] != 'p');
            reveal_strlit("rs");
            assert("rs"@[0] != 'p');
            reveal_strlit("swift");
            assert("swift"@[0] != 'p');
            reveal_strlit("kt");
            assert("kt"@[0] != 'p');
            assert(false);
        }
        assert(flavor_spec(ext) == Flavor::Generic);
        reveal_strlit("//");
        reveal_strlit("/*");
        reveal_strlit("*/");
        assert(seq![mk.0[0], mk.1[0]] =~= mk.0);
        assert(seq![mk.1[0], mk.1[0]] =~= mk.0);
        assert(block_style_ok(mk));
        lemma_strip_idempotent_generic(lines, mk);
    } else {
        lemma_strip_idempotent(lines, mk, flavor_spec(ext));
    }
}

/// For the tool's own comment styles, a path header that is the first
/// line with content is the first line of the output, unchanged, and a
/// double-quoted string keeps the comment markers inside it.
pub proof fn lemma_family_headers_and_strings(
    lines: Seq<Seq<char>>,
    ext: Seq<char>,
    k: int,
    p: Seq<char>,
    q: Seq<char>,
    st: ScanState,
)
    requires
        0 <= k < lines.len(),
        is_path_header(lines[k], family_markers(family_spec(ext))),
        forall|j: int| 0 <= j < k ==> is_blank(#[trigger] lines[j]),
        forall|t: int| 0 <= t < p.len() ==> p[t] != '\\' && p[t] != '\'' && p[t] != '"',
        forall|t: int| 0 <= t < q.len() ==> q[t] != '\\' && q[t] != '"',
        forall|t: int| !matches_at(p, t, family_markers(family_spec(ext)).0),
        forall|t: int| !matches_at(p, t, family_markers(family_spec(ext)).1),
        !st.in_block_comment,
    ensures
        ({
            let mk = family_markers(family_spec(ext));
            let out = strip_lines(lines, mk, flavor_spec(ext));
            out.len() > 0 && out[0] == lines[k]
        }),
        ({
            let mk = family_markers(family_spec(ext));
            let line = p + seq!['"'] + q + seq!['"'];
            emitted(line, classify_spec(line, mk, flavor_spec(ext), st).0) == Some(line)
        }),
{
    let mk = family_markers(family_spec(ext));
    lemma_family_markers_plain(family_spec(ext));
    lemma_header_first(lines, mk, flavor_spec(ext), k);
    lemma_string_literal_kept(p, q, mk, flavor_spec(ext), st);
}

} // verus!
