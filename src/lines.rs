//! Splitting text into lines, joining lines back, and comparing texts up to
//! line endings.
use vstd::prelude::*;

use crate::text::{chars_of, string_of, string_of_range};

verus! {

/// The characters of each string.
pub open spec fn views(v: Seq<String>) -> Seq<Seq<char>> {
    v.map_values(|s: String| s@)
}

/// `l` without one trailing carriage return.
pub open spec fn strip_cr(l: Seq<char>) -> Seq<char> {
    if l.len() > 0 && l.last() == '\r' {
        l.drop_last()
    } else {
        l
    }
}

/// The lines of `s[i..]` when the line under way holds `cur`: lines end at
/// `\n` or `\r\n`, and a last line without a line ending counts only where
/// it is not empty (what `str::lines` gives).
pub open spec fn lines_from(s: Seq<char>, i: int, cur: Seq<char>) -> Seq<Seq<char>>
    decreases s.len() - i,
{
    if i < 0 || i >= s.len() {
        if cur.len() > 0 {
            seq![cur]
        } else {
            Seq::empty()
        }
    } else if s[i] == '\n' {
        seq![strip_cr(cur)] + lines_from(s, i + 1, Seq::empty())
    } else {
        lines_from(s, i + 1, cur.push(s[i]))
    }
}

/// The lines of `s`.
pub open spec fn split_lines_spec(s: Seq<char>) -> Seq<Seq<char>> {
    lines_from(s, 0, Seq::empty())
}

/// The lines joined with `\n` between them.
pub open spec fn join_lines(lines: Seq<Seq<char>>) -> Seq<char>
    decreases lines.len(),
{
    if lines.len() == 0 {
        Seq::empty()
    } else if lines.len() == 1 {
        lines[0]
    } else {
        join_lines(lines.drop_last()) + seq!['\n'] + lines.last()
    }
}

/// `s` with each `\r\n` replaced by `\n`, taken from the left.
pub open spec fn replace_crlf(s: Seq<char>) -> Seq<char>
    decreases s.len(),
{
    if s.len() == 0 {
        s
    } else if s.len() >= 2 && s[0] == '\r' && s[1] == '\n' {
        seq!['\n'] + replace_crlf(s.subrange(2, s.len() as int))
    } else {
        seq![s[0]] + replace_crlf(s.drop_first())
    }
}

/// `s` without its trailing `\n` characters.
pub open spec fn trim_newlines_end(s: Seq<char>) -> Seq<char>
    decreases s.len(),
{
    if s.len() > 0 && s.last() == '\n' {
        trim_newlines_end(s.drop_last())
    } else {
        s
    }
}

/// A text with `\n` line endings and no trailing newline.
pub open spec fn normalized(s: Seq<char>) -> Seq<char> {
    trim_newlines_end(replace_crlf(s))
}

/// The lines of `text`.
pub fn split_lines(text: &str) -> (r: Vec<String>)
    ensures
        views(r@) == split_lines_spec(text@),
{
    let s = chars_of(text);
    let mut out: Vec<String> = Vec::new();
    let mut cur: Vec<char> = Vec::new();
    let mut i: usize = 0;
    while i < s.len()
        invariant
            s@ == text@,
            i <= s.len(),
            split_lines_spec(s@) == views(out@) + lines_from(s@, i as int, cur@),
        decreases s.len() - i,
    {
        if s[i] == '\n' {
            let n = cur.len();
            let e: usize = if n > 0 && cur[n - 1] == '\r' {
                n - 1
            } else {
                n
            };
            let line = string_of_range(&cur, 0, e);
            assert(line@ =~= strip_cr(cur@));
            let ghost prev = out@;
            let ghost rest = lines_from(s@, i + 1, Seq::empty());
            out.push(line);
            assert(views(out@) =~= views(prev) + seq![strip_cr(cur@)]);
            assert(views(out@) + rest =~= views(prev) + (seq![strip_cr(cur@)] + rest));
            cur = Vec::new();
        } else {
            cur.push(s[i]);
        }
        i = i + 1;
    }
    if cur.len() > 0 {
        let ghost prev = out@;
        out.push(string_of(&cur));
        assert(views(out@) =~= views(prev) + seq![cur@]);
    } else {
        assert(views(out@) + Seq::<Seq<char>>::empty() =~= views(out@));
    }
    out
}

/// The characters of `lines` joined with `\n` between them.
pub fn join_chars(lines: &Vec<String>) -> (r: Vec<char>)
    ensures
        r@ == join_lines(views(lines@)),
{
    let mut out: Vec<char> = Vec::new();
    let mut i: usize = 0;
    while i < lines.len()
        invariant
            i <= lines.len(),
            out@ == join_lines(views(lines@).subrange(0, i as int)),
        decreases lines.len() - i,
    {
        let ghost prev = out@;
        if i > 0 {
            out.push('\n');
        }
        let c = chars_of(lines[i].as_str());
        let mut k: usize = 0;
        while k < c.len()
            invariant
                k <= c.len(),
                out@ == (if i > 0 {
                    prev + seq!['\n']
                } else {
                    prev
                }) + c@.subrange(0, k as int),
            decreases c.len() - k,
        {
            out.push(c[k]);
            k = k + 1;
            assert(out@ =~= (if i > 0 {
                prev + seq!['\n']
            } else {
                prev
            }) + c@.subrange(0, k as int));
        }
        let ghost sub = views(lines@).subrange(0, i + 1);
        assert(sub.drop_last() =~= views(lines@).subrange(0, i as int));
        assert(c@.subrange(0, k as int) =~= sub.last());
        if i == 0 {
            assert(prev =~= Seq::<char>::empty());
            assert(out@ =~= sub[0]);
        }
        i = i + 1;
    }
    assert(views(lines@).subrange(0, i as int) =~= views(lines@));
    out
}

/// `s` normalized: `\r\n` becomes `\n`, and trailing newlines go.
pub fn normalize(s: &Vec<char>) -> (r: Vec<char>)
    ensures
        r@ == normalized(s@),
{
    let mut out: Vec<char> = Vec::new();
    let mut i: usize = 0;
    assert(s@.subrange(0, s.len() as int) =~= s@);
    assert(out@ + s@ =~= s@);
    while i < s.len()
        invariant
            i <= s.len(),
            replace_crlf(s@) == out@ + replace_crlf(s@.subrange(i as int, s.len() as int)),
        decreases s.len() - i,
    {
        let ghost rest = s@.subrange(i as int, s.len() as int);
        if s[i] == '\r' && i + 1 < s.len() && s[i + 1] == '\n' {
            out.push('\n');
            assert(rest.subrange(2, rest.len() as int) =~= s@.subrange(i + 2, s.len() as int));
            i = i + 2;
        } else {
            out.push(s[i]);
            assert(rest.drop_first() =~= s@.subrange(i + 1, s.len() as int));
            i = i + 1;
        }
        assert(out@ + replace_crlf(s@.subrange(i as int, s.len() as int)) =~= replace_crlf(s@));
    }
    assert(s@.subrange(i as int, s.len() as int) =~= Seq::<char>::empty());
    assert(out@ + Seq::<char>::empty() =~= out@);
    let mut k: usize = out.len();
    assert(out@.subrange(0, k as int) =~= out@);
    while k > 0 && out[k - 1] == '\n'
        invariant
            k <= out.len(),
            normalized(s@) == trim_newlines_end(out@.subrange(0, k as int)),
        decreases k,
    {
        assert(out@.subrange(0, k as int).drop_last() =~= out@.subrange(0, k - 1));
        k = k - 1;
    }
    out.truncate(k);
    out
}

/// Whether `a` and `b` hold the same characters.
pub fn chars_eq(a: &Vec<char>, b: &Vec<char>) -> (r: bool)
    ensures
        r == (a@ == b@),
{
    if a.len() != b.len() {
        return false;
    }
    let mut k: usize = 0;
    while k < a.len()
        invariant
            a.len() == b.len(),
            k <= a.len(),
            forall|t: int| 0 <= t < k ==> a@[t] == b@[t],
        decreases a.len() - k,
    {
        if a[k] != b[k] {
            assert(a@[k as int] != b@[k as int]);
            return false;
        }
        k = k + 1;
    }
    assert(a@ =~= b@);
    true
}

} // verus!
