//! The line scanner: one left-to-right pass over a line that keeps code,
//! drops comments, and leaves string literals alone.
use vstd::prelude::*;

use crate::text::{matches_at, matches_at_exec};

verus! {

/// What the scanner keeps of `s[i..]`, and whether a block comment is still
/// open at the end of the line.
///
/// `single` is the single-line comment marker, `start` and `end` delimit block
/// comments; an empty marker is absent, and block comments count only where
/// both delimiters are present.  `in_block` says that a block comment is open
/// at `i`; `sq` and `dq` that a single- or double-quoted string is.  A
/// backslash takes the next character with it, a quote of one kind toggles its
/// string only outside a string of the other kind, and markers count only
/// outside strings.
pub open spec fn scan(
    s: Seq<char>,
    single: Seq<char>,
    start: Seq<char>,
    end: Seq<char>,
    i: int,
    in_block: bool,
    sq: bool,
    dq: bool,
) -> (Seq<char>, bool)
    decreases s.len() - i,
{
    if i < 0 || i >= s.len() {
        (Seq::empty(), in_block)
    } else if in_block {
        if matches_at(s, i, end) {
            scan(s, single, start, end, i + end.len(), false, false, false)
        } else {
            scan(s, single, start, end, i + 1, true, false, false)
        }
    } else if s[i] == '\\' {
        let n: int = if i + 1 < s.len() {
            2
        } else {
            1
        };
        let r = scan(s, single, start, end, i + n, false, sq, dq);
        (s.subrange(i, i + n) + r.0, r.1)
    } else {
        let c = s[i];
        let sq2 = if c == '\'' && !dq {
            !sq
        } else {
            sq
        };
        let dq2 = if c == '"' && !sq {
            !dq
        } else {
            dq
        };
        if !sq2 && !dq2 && end.len() > 0 && matches_at(s, i, start) {
            scan(s, single, start, end, i + start.len(), true, false, false)
        } else if !sq2 && !dq2 && matches_at(s, i, single) {
            (Seq::empty(), false)
        } else {
            let r = scan(s, single, start, end, i + 1, false, sq2, dq2);
            (seq![c] + r.0, r.1)
        }
    }
}

/// What the scanner keeps of the whole line `s`, starting outside any string.
pub open spec fn scan_code(
    s: Seq<char>,
    single: Seq<char>,
    start: Seq<char>,
    end: Seq<char>,
    in_block: bool,
) -> (Seq<char>, bool) {
    scan(s, single, start, end, 0, in_block, false, false)
}

/// Runs the scanner over the line `s`: returns the code it keeps and whether
/// a block comment is open at the end of the line.
pub fn scan_line(
    s: &Vec<char>,
    single: &Vec<char>,
    start: &Vec<char>,
    end: &Vec<char>,
    in_block: bool,
) -> (r: (Vec<char>, bool))
    ensures
        r.0@ == scan_code(s@, single@, start@, end@, in_block).0,
        r.1 == scan_code(s@, single@, start@, end@, in_block).1,
{
    let ghost whole = scan_code(s@, single@, start@, end@, in_block);
    let mut out: Vec<char> = Vec::new();
    let mut i: usize = 0;
    let mut b = in_block;
    let mut sq = false;
    let mut dq = false;
    while i < s.len()
        invariant
            i <= s.len(),
            whole == scan_code(s@, single@, start@, end@, in_block),
            whole.0 == out@ + scan(s@, single@, start@, end@, i as int, b, sq, dq).0,
            whole.1 == scan(s@, single@, start@, end@, i as int, b, sq, dq).1,
        decreases s.len() - i,
    {
        let ghost rest = scan(s@, single@, start@, end@, i as int, b, sq, dq);
        assert(rest == scan(s@, single@, start@, end@, i as int, b, sq, dq));
        if b {
            if matches_at_exec(s, i, end) {
                i = i + end.len();
                b = false;
            } else {
                i = i + 1;
            }
            sq = false;
            dq = false;
        } else if s[i] == '\\' {
            let n: usize = if i + 1 < s.len() {
                2
            } else {
                1
            };
            out.push(s[i]);
            if n == 2 {
                out.push(s[i + 1]);
            }
            assert(s@.subrange(i as int, i + n) =~= if n == 2 {
                seq![s@[i as int], s@[i + 1]]
            } else {
                seq![s@[i as int]]
            });
            i = i + n;
            assert(out@ + scan(s@, single@, start@, end@, i as int, b, sq, dq).0 =~= whole.0);
        } else {
            let c = s[i];
            if c == '\'' && !dq {
                sq = !sq;
            } else if c == '"' && !sq {
                dq = !dq;
            }
            if !sq && !dq && end.len() > 0 && matches_at_exec(s, i, start) {
                i = i + start.len();
                b = true;
            } else if !sq && !dq && matches_at_exec(s, i, single) {
                assert(rest.0 =~= Seq::<char>::empty() && rest.1 == false);
                assert(out@ + rest.0 =~= out@);
                return (out, false);
            } else {
                out.push(c);
                i = i + 1;
                assert(out@ + scan(s@, single@, start@, end@, i as int, b, sq, dq).0 =~= whole.0);
            }
        }
    }
    assert(out@ + Seq::<char>::empty() =~= out@);
    (out, b)
}

} // verus!
