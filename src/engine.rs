//! The comment-stripping engine: classifies each line of a file in turn,
//! carrying open block comments and docstrings from one line to the next.
use vstd::prelude::*;

use crate::lines::{
    chars_eq, join_chars, join_lines, normalize, normalized, split_lines, split_lines_spec, views,
};
use crate::scan::{scan_code, scan_line};
use crate::style::{
    family_markers, family_spec, flavor_of, flavor_spec, resolve, CommentStyle, Flavor, Marks,
};
use crate::text::{
    chars_of, count_occurrences, count_occurrences_exec, starts_with, starts_with_at,
    string_of, trim, trim_end, trim_end_len, trim_start_index,
};

verus! {

/// What is open at the boundary between two lines of a file.
#[derive(Clone, Copy, Debug, PartialEq, Eq, Structural)]
pub struct ScanState {
    pub in_block_comment: bool,
    pub in_triple_double: bool,
    pub in_triple_single: bool,
}

impl ScanState {
    pub open spec fn fresh_spec() -> ScanState {
        ScanState { in_block_comment: false, in_triple_double: false, in_triple_single: false }
    }

    /// The state at the start of a file: nothing is open.
    pub fn fresh() -> (r: ScanState)
        ensures
            r == ScanState::fresh_spec(),
    {
        ScanState { in_block_comment: false, in_triple_double: false, in_triple_single: false }
    }
}

/// What becomes of one line.
#[derive(Debug)]
pub enum LineOutcome {
    /// The line is kept as it stands: a path header, or part of a docstring.
    Verbatim,
    /// Nothing of the line is code.
    Dropped,
    /// The code of the line, with comments and trailing whitespace removed.
    Rewritten(String),
}

impl LineOutcome {
    /// `None` for a line kept verbatim, else the code kept of it.
    pub open spec fn code(&self) -> Option<Seq<char>> {
        match self {
            LineOutcome::Verbatim => None,
            LineOutcome::Dropped => Some(Seq::empty()),
            LineOutcome::Rewritten(s) => Some(s@),
        }
    }
}

/// The text that follows the comment marker in a path header.
pub open spec fn header_tag() -> Seq<char> {
    seq![' ', 'P', 'a', 't', 'h', ':']
}

/// The trimmed line begins with a present marker followed by ` Path:`.
/// `mk` holds the single-line marker and the block delimiters, in that order.
pub open spec fn is_path_header(line: Seq<char>, mk: Marks) -> bool {
    ||| (mk.0.len() > 0 && starts_with(trim(line), mk.0 + header_tag()))
    ||| (mk.1.len() > 0 && starts_with(trim(line), mk.1 + header_tag()))
}

pub open spec fn triple_double() -> Seq<char> {
    seq!['"', '"', '"']
}

pub open spec fn triple_single() -> Seq<char> {
    seq!['\'', '\'', '\'']
}

/// The line opens, closes or lies within a docstring.
pub open spec fn in_docstring(line: Seq<char>, flavor: Flavor, st: ScanState) -> bool {
    &&& flavor == Flavor::Python
    &&& (st.in_triple_double || st.in_triple_single || count_occurrences(line, triple_double())
        > 0 || count_occurrences(line, triple_single()) > 0)
}

/// The code kept of a line: without trailing whitespace, and without
/// leading whitespace either where the line began inside a block comment
/// (what followed the closer then stands alone).
pub open spec fn kept_code(code: Seq<char>, began_in_block: bool) -> Seq<char> {
    if began_in_block {
        trim(code)
    } else {
        trim_end(code)
    }
}

/// Classification of one line in state `st`: `None` where the line is kept
/// verbatim, else the code kept of it; and the state after the line.
pub open spec fn classify_spec(
    line: Seq<char>,
    mk: Marks,
    flavor: Flavor,
    st: ScanState,
) -> (Option<Seq<char>>, ScanState) {
    if is_path_header(line, mk) {
        (None, st)
    } else if in_docstring(line, flavor, st) {
        (
            None,
            ScanState {
                in_block_comment: st.in_block_comment,
                in_triple_double: st.in_triple_double != (count_occurrences(
                    line,
                    triple_double(),
                ) % 2 == 1),
                in_triple_single: st.in_triple_single != (count_occurrences(
                    line,
                    triple_single(),
                ) % 2 == 1),
            },
        )
    } else {
        let r = scan_code(line, mk.0, mk.1, mk.2, st.in_block_comment);
        (
            Some(kept_code(r.0, st.in_block_comment)),
            ScanState {
                in_block_comment: r.1,
                in_triple_double: st.in_triple_double,
                in_triple_single: st.in_triple_single,
            },
        )
    }
}

/// The line that goes to the output for a classification, if any: a
/// verbatim line itself, or its code where that is not empty.
pub open spec fn emitted(line: Seq<char>, code: Option<Seq<char>>) -> Option<Seq<char>> {
    match code {
        None => Some(line),
        Some(c) => if c.len() == 0 {
            None
        } else {
            Some(c)
        },
    }
}

/// A file's markers as characters, made once per file.
pub(crate) struct Markers {
    pub single: Vec<char>,
    pub start: Vec<char>,
    pub end: Vec<char>,
    pub single_header: Vec<char>,
    pub start_header: Vec<char>,
    pub triple_double: Vec<char>,
    pub triple_single: Vec<char>,
    pub python: bool,
}

impl Markers {
    pub(crate) open spec fn models(&self, mk: Marks, flavor: Flavor) -> bool {
        &&& self.single@ == mk.0
        &&& self.start@ == mk.1
        &&& self.end@ == mk.2
        &&& self.single_header@ == mk.0 + header_tag()
        &&& self.start_header@ == mk.1 + header_tag()
        &&& self.triple_double@ == triple_double()
        &&& self.triple_single@ == triple_single()
        &&& self.python == (flavor == Flavor::Python)
    }
}

fn marker_chars(m: &Option<String>) -> (r: Vec<char>)
    ensures
        r@ == crate::style::marker_of(*m),
{
    match m {
        Some(s) => chars_of(s.as_str()),
        None => Vec::new(),
    }
}

fn with_header_tag(m: &Vec<char>) -> (r: Vec<char>)
    ensures
        r@ == m@ + header_tag(),
{
    let mut r = m.clone();
    r.push(' ');
    r.push('P');
    r.push('a');
    r.push('t');
    r.push('h');
    r.push(':');
    assert(r@ =~= m@ + header_tag());
    r
}

/// The markers of `style` and `flavor`, as characters.
pub(crate) fn markers_of(style: &CommentStyle, flavor: Flavor) -> (r: Markers)
    ensures
        r.models(style.marks(), flavor),
{
    let single = marker_chars(&style.single_line);
    let start = marker_chars(&style.block_start);
    let end = marker_chars(&style.block_end);
    let single_header = with_header_tag(&single);
    let start_header = with_header_tag(&start);
    let triple_double = vec!['"', '"', '"'];
    let triple_single = vec!['\'', '\'', '\''];
    assert(triple_double@ =~= crate::engine::triple_double());
    assert(triple_single@ =~= crate::engine::triple_single());
    Markers {
        single,
        start,
        end,
        single_header,
        start_header,
        triple_double,
        triple_single,
        python: match flavor {
            Flavor::Python => true,
            Flavor::Generic => false,
        },
    }
}

/// Classifies the line `line` (as characters): `None` where it is kept
/// verbatim, else the code kept of it; updates the carry state.
pub(crate) fn classify_chars(
    line: &Vec<char>,
    m: &Markers,
    Ghost(mk): Ghost<Marks>,
    Ghost(flavor): Ghost<Flavor>,
    state: &mut ScanState,
) -> (r: Option<Vec<char>>)
    requires
        m.models(mk, flavor),
    ensures
        classify_spec(line@, mk, flavor, *old(state)).1 == *final(state),
        classify_spec(line@, mk, flavor, *old(state)).0 == match r {
            Some(v) => Some(v@),
            None => None,
        },
{
    let k = trim_end_len(line);
    let j = trim_start_index(line, k);
    let single_header = m.single.len() > 0 && starts_with_at(line, j, k, &m.single_header);
    let start_header = m.start.len() > 0 && starts_with_at(line, j, k, &m.start_header);
    if single_header || start_header {
        return None;
    }
    if m.python {
        let n2 = count_occurrences_exec(line, &m.triple_double);
        let n1 = count_occurrences_exec(line, &m.triple_single);
        if state.in_triple_double || state.in_triple_single || n2 > 0 || n1 > 0 {
            if n2 % 2 == 1 {
                state.in_triple_double = !state.in_triple_double;
            }
            if n1 % 2 == 1 {
                state.in_triple_single = !state.in_triple_single;
            }
            return None;
        }
    }
    let began_in_block = state.in_block_comment;
    let (mut code, open) = scan_line(line, &m.single, &m.start, &m.end, began_in_block);
    state.in_block_comment = open;
    let t = trim_end_len(&code);
    if began_in_block {
        let f = trim_start_index(&code, t);
        Some(crate::text::chars_range(&code, f, t))
    } else {
        code.truncate(t);
        Some(code)
    }
}

/// Classifies one line of a file in the carry state `state`, and moves the
/// state past the line.
pub fn classify(line: &str, style: &CommentStyle, flavor: Flavor, state: &mut ScanState) -> (r:
    LineOutcome)
    ensures
        classify_spec(line@, style.marks(), flavor, *old(state)).1 == *final(state),
        classify_spec(line@, style.marks(), flavor, *old(state)).0 == r.code(),
        r is Dropped <==> r.code() == Some(Seq::<char>::empty()),
{
    let m = markers_of(style, flavor);
    let chars = chars_of(line);
    match classify_chars(&chars, &m, Ghost(style.marks()), Ghost(flavor), state) {
        None => LineOutcome::Verbatim,
        Some(code) => {
            if code.len() == 0 {
                assert(code@ =~= Seq::<char>::empty());
                LineOutcome::Dropped
            } else {
                LineOutcome::Rewritten(string_of(&code))
            }
        },
    }
}

/// The lines emitted for `lines` from a fresh state; the state after them;
/// and, for the block comment last opened, the line that opened it and the
/// number of lines emitted before that line.
pub open spec fn fold_lines(lines: Seq<Seq<char>>, mk: Marks, flavor: Flavor) -> (
    Seq<Seq<char>>,
    ScanState,
    int,
    int,
)
    decreases lines.len(),
{
    if lines.len() == 0 {
        (Seq::empty(), ScanState::fresh_spec(), 0, 0)
    } else {
        let p = fold_lines(lines.drop_last(), mk, flavor);
        let c = classify_spec(lines.last(), mk, flavor, p.1);
        let out = match emitted(lines.last(), c.0) {
            Some(x) => p.0.push(x),
            None => p.0,
        };
        let opens = !p.1.in_block_comment && c.1.in_block_comment;
        (
            out,
            c.1,
            if opens {
                lines.len() - 1
            } else {
                p.2
            },
            if opens {
                p.0.len() as int
            } else {
                p.3
            },
        )
    }
}

/// The lines of a file once its comments are stripped.  A block comment
/// that is still open at the end of the file is not removed: the line that
/// opened it and all lines after it are kept as they stand.
pub open spec fn strip_lines(lines: Seq<Seq<char>>, mk: Marks, flavor: Flavor) -> Seq<Seq<char>> {
    let f = fold_lines(lines, mk, flavor);
    if f.1.in_block_comment {
        f.0.subrange(0, f.3) + lines.subrange(f.2, lines.len() as int)
    } else {
        f.0
    }
}

/// Whether two texts differ once line endings are normalized and trailing
/// newlines dropped.
pub open spec fn differs(new_lines: Seq<Seq<char>>, old_lines: Seq<Seq<char>>) -> bool {
    normalized(join_lines(new_lines)) != normalized(join_lines(old_lines))
}

/// The stripped lines of a file, and whether they differ from the lines read.
pub struct FileResult {
    pub new_lines: Vec<String>,
    pub changed: bool,
}

/// Strips the comments from the lines of one file, keeping path headers,
/// string literals and docstrings.
pub fn strip_comments(original_lines: &Vec<String>, style: &CommentStyle, flavor: Flavor) -> (r:
    FileResult)
    ensures
        views(r.new_lines@) == strip_lines(views(original_lines@), style.marks(), flavor),
        r.changed == differs(views(r.new_lines@), views(original_lines@)),
{
    let ghost mk = style.marks();
    let ghost all = views(original_lines@);
    let m = markers_of(style, flavor);
    let mut out: Vec<String> = Vec::new();
    let mut state = ScanState::fresh();
    let mut open_line: usize = 0;
    let mut open_out: usize = 0;
    let mut i: usize = 0;
    assert(all.subrange(0, 0) =~= Seq::<Seq<char>>::empty());
    while i < original_lines.len()
        invariant
            m.models(mk, flavor),
            all == views(original_lines@),
            i <= original_lines.len(),
            open_line <= i,
            open_out <= out.len(),
            fold_lines(all.subrange(0, i as int), mk, flavor) == (
                views(out@),
                state,
                open_line as int,
                open_out as int,
            ),
        decreases original_lines.len() - i,
    {
        let ghost sub = all.subrange(0, i + 1);
        assert(sub.drop_last() =~= all.subrange(0, i as int));
        assert(sub.last() == original_lines@[i as int]@);
        let before = state.in_block_comment;
        let line = chars_of(original_lines[i].as_str());
        let out_len = out.len();
        let ghost prev = out@;
        let code = classify_chars(&line, &m, Ghost(mk), Ghost(flavor), &mut state);
        match code {
            None => {
                out.push(original_lines[i].clone());
                assert(views(out@) =~= views(prev).push(line@));
            },
            Some(c) => {
                if c.len() > 0 {
                    out.push(string_of(&c));
                    assert(views(out@) =~= views(prev).push(c@));
                } else {
                    assert(c@ =~= Seq::<char>::empty());
                }
            },
        }
        if !before && state.in_block_comment {
            open_line = i;
            open_out = out_len;
        }
        i = i + 1;
    }
    assert(all.subrange(0, i as int) =~= all);
    if state.in_block_comment {
        let ghost f = fold_lines(all, mk, flavor);
        out.truncate(open_out);
        assert(views(out@) =~= f.0.subrange(0, f.3) + all.subrange(
            open_line as int,
            open_line as int,
        ));
        let mut k: usize = open_line;
        while k < original_lines.len()
            invariant
                all == views(original_lines@),
                open_line <= k <= original_lines.len(),
                0 <= f.3 <= f.0.len(),
                views(out@) == f.0.subrange(0, f.3) + all.subrange(open_line as int, k as int),
            decreases original_lines.len() - k,
        {
            let ghost prev = out@;
            out.push(original_lines[k].clone());
            assert(views(out@) =~= views(prev).push(all[k as int]));
            assert(all.subrange(open_line as int, k + 1) =~= all.subrange(
                open_line as int,
                k as int,
            ).push(all[k as int]));
            assert(views(out@) =~= f.0.subrange(0, f.3) + all.subrange(
                open_line as int,
                k + 1,
            ));
            k = k + 1;
        }
    }
    let new_text = normalize(&join_chars(&out));
    let old_text = normalize(&join_chars(original_lines));
    let same = chars_eq(&new_text, &old_text);
    FileResult { new_lines: out, changed: !same }
}

/// What a file with extension `ext` and text `text` becomes once stripped:
/// `None` where nothing changes, else the new text, with `\n` line endings
/// and one final newline (empty where no line is left).
pub open spec fn cleaned_text(text: Seq<char>, ext: Seq<char>) -> Option<Seq<char>> {
    let lines = split_lines_spec(text);
    let new_lines = strip_lines(lines, family_markers(family_spec(ext)), flavor_spec(ext));
    if !differs(new_lines, lines) {
        None
    } else if normalized(join_lines(new_lines)).len() == 0 {
        Some(Seq::empty())
    } else {
        Some(normalized(join_lines(new_lines)).push('\n'))
    }
}

/// Strips the comments from the text of a file with extension `ext` (empty
/// when it has none): `None` where nothing changes, else the text to write.
pub fn clean_text(text: &str, ext: &str) -> (r: Option<String>)
    ensures
        match r {
            Some(s) => cleaned_text(text@, ext@) == Some(s@),
            None => cleaned_text(text@, ext@) is None,
        },
{
    let lines = split_lines(text);
    let style = resolve(ext);
    let flavor = flavor_of(ext);
    let res = strip_comments(&lines, &style, flavor);
    if !res.changed {
        return None;
    }
    let mut body = normalize(&join_chars(&res.new_lines));
    if body.len() > 0 {
        body.push('\n');
    } else {
        assert(body@ =~= Seq::<char>::empty());
    }
    Some(string_of(&body))
}

} // verus!
