//! Reading an indented listing of files and folders.
use vstd::prelude::*;

use crate::lines::views;
use crate::text::{chars_of, is_whitespace_char, is_ws, string_of_range, trim, trim_start};

verus! {

/// Characters that count as indentation: whitespace and the box-drawing
/// characters of tree listings (`│`, `├`, `└`, `─`).
pub open spec fn is_indent(c: char) -> bool {
    is_ws(c) || c == '\u{2502}' || c == '\u{251c}' || c == '\u{2514}' || c == '\u{2500}'
}

/// The number of indentation characters at the start of `s`.
pub open spec fn indent_len(s: Seq<char>) -> nat
    decreases s.len(),
{
    if s.len() > 0 && is_indent(s[0]) {
        1 + indent_len(s.drop_first())
    } else {
        0
    }
}

/// The level and the name of an entry line, or `None` for a blank line.
pub open spec fn parse_line_spec(line: Seq<char>, indent_width: u32) -> Option<(nat, Seq<char>)> {
    if trim(line).len() == 0 {
        None
    } else {
        let n = indent_len(line);
        Some(((n / (indent_width as nat)) as nat, trim_start(line.subrange(n as int, line.len() as int))))
    }
}

/// Reads one line of a listing: its level (indentation columns divided by
/// `indent_width`) and the name after the indentation; `None` for a blank
/// line.
pub fn parse_line(line: &str, indent_width: u32) -> (r: Option<(usize, String)>)
    requires
        indent_width > 0,
    ensures
        match r {
            None => parse_line_spec(line@, indent_width) is None,
            Some((level, name)) => parse_line_spec(line@, indent_width) == Some(
                (level as nat, name@),
            ),
        },
{
    let s = chars_of(line);
    let k = crate::text::trim_end_len(&s);
    let j = crate::text::trim_start_index(&s, k);
    if j == k {
        return None;
    }
    let mut n: usize = 0;
    assert(s@.subrange(0, s.len() as int) =~= s@);
    while n < s.len() && (is_whitespace_char(s[n]) || s[n] == '\u{2502}' || s[n] == '\u{251c}'
        || s[n] == '\u{2514}' || s[n] == '\u{2500}')
        invariant
            s@ == line@,
            n <= s.len(),
            indent_len(s@) == n + indent_len(s@.subrange(n as int, s.len() as int)),
        decreases s.len() - n,
    {
        assert(s@.subrange(n as int, s.len() as int).drop_first() =~= s@.subrange(
            n + 1,
            s.len() as int,
        ));
        n = n + 1;
    }
    let level = n / (indent_width as usize);
    let mut b: usize = n;
    let ghost rest = s@.subrange(n as int, s.len() as int);
    assert(rest.subrange(0, rest.len() as int) =~= rest);
    while b < s.len() && is_whitespace_char(s[b])
        invariant
            s@ == line@,
            n <= b <= s.len(),
            trim_start(s@.subrange(n as int, s.len() as int)) == trim_start(
                s@.subrange(b as int, s.len() as int),
            ),
        decreases s.len() - b,
    {
        assert(s@.subrange(b as int, s.len() as int).drop_first() =~= s@.subrange(
            b + 1,
            s.len() as int,
        ));
        b = b + 1;
    }
    let name = string_of_range(&s, b, s.len());
    proof {
        let t = s@.subrange(b as int, s.len() as int);
        assert(!(t.len() > 0 && is_ws(t[0])));
    }
    Some((level, name))
}

/// The entries of a listing: the level and the name of each line that is
/// not blank, in order.
pub open spec fn entries_of(lines: Seq<Seq<char>>, indent_width: u32) -> Seq<(usize, Seq<char>)>
    decreases lines.len(),
{
    if lines.len() == 0 {
        Seq::empty()
    } else {
        let p = entries_of(lines.drop_last(), indent_width);
        match parse_line_spec(lines.last(), indent_width) {
            Some((l, n)) => p.push((l as usize, n)),
            None => p,
        }
    }
}

/// `stack` once the entries at or below level `lvl` are taken off its top.
pub open spec fn pop_to(stack: Seq<usize>, es: Seq<(usize, Seq<char>)>, lvl: usize) -> Seq<usize>
    decreases stack.len(),
{
    if stack.len() > 0 && es[stack.last() as int].0 >= lvl {
        pop_to(stack.drop_last(), es, lvl)
    } else {
        stack
    }
}

/// The chain of open entries after the first `i` entries: each entry goes
/// on top once those at its level or deeper are taken off.
pub open spec fn stack_after(es: Seq<(usize, Seq<char>)>, i: nat) -> Seq<usize>
    decreases i,
{
    if i == 0 {
        Seq::empty()
    } else {
        pop_to(stack_after(es, (i - 1) as nat), es, es[i - 1].0).push((i - 1) as usize)
    }
}

/// The entry that entry `i` lies in, `None` for the top level.
pub open spec fn parent_spec(es: Seq<(usize, Seq<char>)>, i: int) -> Option<usize> {
    let s = pop_to(stack_after(es, i as nat), es, es[i].0);
    if s.len() > 0 {
        Some(s.last())
    } else {
        None
    }
}

/// The paths, as lists of names, of the first `k` entries.
pub open spec fn paths_upto(es: Seq<(usize, Seq<char>)>, k: nat) -> Seq<Seq<Seq<char>>>
    decreases k,
{
    if k == 0 {
        Seq::empty()
    } else {
        let p = paths_upto(es, (k - 1) as nat);
        let own = es[k - 1].1;
        p.push(
            match parent_spec(es, k - 1) {
                Some(q) => p[q as int].push(own),
                None => seq![own],
            },
        )
    }
}

pub proof fn lemma_paths_len(es: Seq<(usize, Seq<char>)>, k: nat)
    ensures
        paths_upto(es, k).len() == k,
    decreases k,
{
    if k > 0 {
        lemma_paths_len(es, (k - 1) as nat);
    }
}

/// Entry `i` is a folder: its name ends with `/`, or an entry lies in it.
pub open spec fn is_dir_spec(es: Seq<(usize, Seq<char>)>, i: int) -> bool {
    ||| (es[i].1.len() > 0 && es[i].1.last() == '/')
    ||| exists|j: int| 0 <= j < es.len() && #[trigger] parent_spec(es, j) == Some(i as usize)
}

/// Each entry of a listing: its path, as a list of names, and whether it is
/// a folder.
pub open spec fn listing_tree(lines: Seq<Seq<char>>, indent_width: u32) -> Seq<
    (Seq<Seq<char>>, bool),
> {
    let es = entries_of(lines, indent_width);
    Seq::new(es.len(), |i: int| (paths_upto(es, es.len() as nat)[i], is_dir_spec(es, i)))
}

/// One file or folder to create: its path below the output directory, as a
/// list of names, and whether it is a folder.
#[derive(Debug)]
pub struct Entry {
    pub path: Vec<String>,
    pub is_dir: bool,
}

pub open spec fn entry_views(r: Seq<Entry>) -> Seq<(Seq<Seq<char>>, bool)> {
    r.map_values(|e: Entry| (views(e.path@), e.is_dir))
}

fn copy_strings(v: &Vec<String>) -> (r: Vec<String>)
    ensures
        r@ == v@,
{
    let mut r: Vec<String> = Vec::new();
    let mut i: usize = 0;
    while i < v.len()
        invariant
            i <= v.len(),
            r@ == v@.subrange(0, i as int),
        decreases v.len() - i,
    {
        r.push(v[i].clone());
        i = i + 1;
        assert(r@ =~= v@.subrange(0, i as int));
    }
    assert(v@.subrange(0, i as int) =~= v@);
    r
}

fn ends_with_slash(s: &String) -> (r: bool)
    ensures
        r == (s@.len() > 0 && s@.last() == '/'),
{
    let c = chars_of(s.as_str());
    c.len() > 0 && c[c.len() - 1] == '/'
}

/// Reads an indented listing into the files and folders it describes, in
/// the order of its lines; each entry lies in the closest earlier entry of
/// a smaller level.
pub fn build_tree(lines: &Vec<String>, indent_width: u32) -> (r: Vec<Entry>)
    requires
        indent_width > 0,
    ensures
        entry_views(r@) == listing_tree(views(lines@), indent_width),
{
    let ghost all = views(lines@);
    let mut levels: Vec<usize> = Vec::new();
    let mut names: Vec<String> = Vec::new();
    let mut k: usize = 0;
    while k < lines.len()
        invariant
            all == views(lines@),
            k <= lines.len(),
            indent_width > 0,
            levels.len() == names.len(),
            levels.len() == entries_of(all.subrange(0, k as int), indent_width).len(),
            forall|t: int|
                0 <= t < levels.len() ==> (levels[t], #[trigger] names[t]@) == entries_of(
                    all.subrange(0, k as int),
                    indent_width,
                )[t],
        decreases lines.len() - k,
    {
        let ghost sub = all.subrange(0, k + 1);
        assert(sub.drop_last() =~= all.subrange(0, k as int));
        assert(sub.last() == lines@[k as int]@);
        match parse_line(lines[k].as_str(), indent_width) {
            Some((level, name)) => {
                levels.push(level);
                names.push(name);
            },
            None => {},
        }
        k = k + 1;
    }
    assert(all.subrange(0, k as int) =~= all);
    let ghost es = entries_of(all, indent_width);
    let n = levels.len();
    let mut stack: Vec<usize> = Vec::new();
    let mut parents: Vec<Option<usize>> = Vec::new();
    let mut paths: Vec<Vec<String>> = Vec::new();
    let mut i: usize = 0;
    while i < n
        invariant
            all == views(lines@),
            es == entries_of(all, indent_width),
            n == levels.len() == names.len() == es.len(),
            forall|t: int| 0 <= t < n ==> (levels[t], #[trigger] names[t]@) == es[t],
            i <= n,
            stack@ == stack_after(es, i as nat),
            forall|t: int| 0 <= t < stack.len() ==> #[trigger] stack[t] < i,
            parents.len() == i,
            paths.len() == i,
            forall|t: int| 0 <= t < i ==> match #[trigger] parents[t] {
                Some(q) => q < i,
                None => true,
            },
            forall|t: int| 0 <= t < i ==> #[trigger] parents[t] == parent_spec(es, t as int),
            forall|t: int|
                0 <= t < i ==> views(#[trigger] paths[t]@) == paths_upto(es, i as nat)[t],
        decreases n - i,
    {
        let lvl = levels[i];
        assert((levels[i as int], names[i as int]@) == es[i as int]);
        proof {
            lemma_paths_len(es, i as nat);
            lemma_paths_len(es, (i + 1) as nat);
        }
        let ghost target = pop_to(stack_after(es, i as nat), es, es[i as int].0);
        while stack.len() > 0 && levels[stack[stack.len() - 1]] >= lvl
            invariant
            all == views(lines@),
            es == entries_of(all, indent_width),
                n == levels.len() == es.len(),
                forall|t: int| 0 <= t < n ==> (levels[t], #[trigger] names[t]@) == es[t],
                i < n,
                lvl == es[i as int].0,
                target == pop_to(stack@, es, lvl),
                forall|t: int| 0 <= t < stack.len() ==> #[trigger] stack[t] < i,
            decreases stack.len(),
        {
            let ghost before = stack@;
            let top = stack[stack.len() - 1];
            assert((levels[top as int], names[top as int]@) == es[top as int]);
            stack.pop();
            assert(stack@ =~= before.drop_last());
        }
        if stack.len() > 0 {
            let top = stack[stack.len() - 1];
            assert((levels[top as int], names[top as int]@) == es[top as int]);
        }
        let parent = if stack.len() > 0 {
            Some(stack[stack.len() - 1])
        } else {
            None
        };
        assert(parent == parent_spec(es, i as int));
        let mut path = match parent {
            Some(q) => copy_strings(&paths[q]),
            None => Vec::new(),
        };
        let ghost base = path@;
        path.push(names[i].clone());
        let ghost prev_paths = paths_upto(es, i as nat);
        assert(paths_upto(es, (i + 1) as nat) == prev_paths.push(views(path@))) by {
            assert(views(path@) =~= views(base).push(es[i as int].1));
            match parent {
                Some(q) => {
                    assert(views(base) == prev_paths[q as int]);
                },
                None => {
                    assert(views(path@) =~= seq![es[i as int].1]);
                },
            }
        }
        parents.push(parent);
        paths.push(path);
        let ghost old_stack = stack@;
        stack.push(i);
        assert(stack@ =~= stack_after(es, (i + 1) as nat));
        i = i + 1;
    }
    let mut has_child: Vec<bool> = Vec::new();
    let mut t: usize = 0;
    while t < n
        invariant
            all == views(lines@),
            es == entries_of(all, indent_width),
            n == es.len() == parents.len() == paths.len() == names.len() == levels.len(),
            forall|t: int| 0 <= t < n ==> (levels[t], #[trigger] names[t]@) == es[t],
            forall|t: int|
                0 <= t < n ==> views(#[trigger] paths[t]@) == paths_upto(es, n as nat)[t],
            forall|u: int| 0 <= u < n ==> #[trigger] parents[u] == parent_spec(es, u as int),
            forall|u: int| 0 <= u < n ==> match #[trigger] parents[u] {
                Some(q) => q < n,
                None => true,
            },
            t <= n,
            has_child.len() == t,
            forall|u: int| 0 <= u < t ==> !#[trigger] has_child[u],
        decreases n - t,
    {
        has_child.push(false);
        t = t + 1;
    }
    let mut j: usize = 0;
    while j < n
        invariant
            all == views(lines@),
            es == entries_of(all, indent_width),
            n == es.len() == parents.len() == paths.len() == names.len() == levels.len(),
            forall|t: int| 0 <= t < n ==> (levels[t], #[trigger] names[t]@) == es[t],
            forall|t: int|
                0 <= t < n ==> views(#[trigger] paths[t]@) == paths_upto(es, n as nat)[t],
            forall|u: int| 0 <= u < n ==> #[trigger] parents[u] == parent_spec(es, u as int),
            forall|u: int| 0 <= u < n ==> match #[trigger] parents[u] {
                Some(q) => q < n,
                None => true,
            },
            j <= n,
            has_child.len() == n,
            forall|u: int|
                0 <= u < n ==> #[trigger] has_child[u] == exists|v: int|
                    0 <= v < j && parent_spec(es, v as int) == Some(u as usize),
        decreases n - j,
    {
        match parents[j] {
            Some(q) => {
                has_child.set(q, true);
            },
            None => {},
        }
        assert forall|u: int| 0 <= u < n implies #[trigger] has_child[u] == exists|v: int|
            0 <= v < j + 1 && parent_spec(es, v as int) == Some(u as usize) by {
            if parent_spec(es, j as int) == Some(u as usize) {
                assert(0 <= j < j + 1 && parent_spec(es, j as int) == Some(u as usize));
            }
        }
        j = j + 1;
    }
    let mut out: Vec<Entry> = Vec::new();
    let mut e: usize = 0;
    proof {
        lemma_paths_len(es, n as nat);
    }
    while e < n
        invariant
            all == views(lines@),
            es == entries_of(all, indent_width),
            n == levels.len() == names.len() == es.len() == paths.len() == has_child.len(),
            forall|t: int| 0 <= t < n ==> (levels[t], #[trigger] names[t]@) == es[t],
            forall|t: int|
                0 <= t < n ==> views(#[trigger] paths[t]@) == paths_upto(es, n as nat)[t],
            forall|u: int|
                0 <= u < n ==> #[trigger] has_child[u] == exists|v: int|
                    0 <= v < n && parent_spec(es, v as int) == Some(u as usize),
            e <= n,
            out.len() == e,
            paths_upto(es, n as nat).len() == n,
            forall|t: int|
                0 <= t < e ==> views(#[trigger] out[t].path@) == paths_upto(es, n as nat)[t]
                    && out[t].is_dir == is_dir_spec(es, t),
        decreases n - e,
    {
        assert((levels[e as int], names[e as int]@) == es[e as int]);
        assert(views(paths[e as int]@) == paths_upto(es, n as nat)[e as int]);
        assert(has_child[e as int] == exists|v: int|
            0 <= v < n && parent_spec(es, v as int) == Some(e as usize));
        let is_dir = ends_with_slash(&names[e]) || has_child[e];
        assert(is_dir == is_dir_spec(es, e as int));
        let ghost prev = out@;
        out.push(Entry { path: copy_strings(&paths[e]), is_dir });
        assert(views(out[e as int].path@) == paths_upto(es, n as nat)[e as int]);
        assert forall|t: int| 0 <= t < e implies out[t] == prev[t] by {}
        e = e + 1;
    }
    assert(entry_views(out@) =~= listing_tree(views(lines@), indent_width));
    out
}

} // verus!
