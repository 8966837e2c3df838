//! The path header line itself: making it, finding it, taking it off, and
//! putting several files together under their headers.
use vstd::prelude::*;

use crate::engine::header_tag;
use crate::lines::{join_chars, join_lines, split_lines, split_lines_spec, views};
use crate::text::{
    chars_of, starts_with, starts_with_at, string_of, string_of_range, trim, trim_end_len,
    trim_start_index,
};

verus! {

/// The header for a file shown as `display`: `prefix Path:display` for line
/// comments, `prefix Path: display suffix` where the comment has a closing
/// part; trimmed.
pub open spec fn header_spec(prefix: Seq<char>, suffix: Seq<char>, display: Seq<char>) -> Seq<
    char,
> {
    if suffix.len() == 0 {
        trim(prefix + header_tag() + display)
    } else {
        trim(prefix + header_tag() + seq![' '] + display + seq![' '] + suffix)
    }
}

fn append_chars(v: &mut Vec<char>, s: &str)
    ensures
        final(v)@ == old(v)@ + s@,
{
    let c = chars_of(s);
    let ghost start = v@;
    let mut i: usize = 0;
    while i < c.len()
        invariant
            i <= c.len(),
            v@ == start + c@.subrange(0, i as int),
        decreases c.len() - i,
    {
        v.push(c[i]);
        i = i + 1;
        assert(v@ =~= start + c@.subrange(0, i as int));
    }
    assert(c@.subrange(0, i as int) =~= s@);
}

fn trimmed(v: &Vec<char>) -> (r: String)
    ensures
        r@ == trim(v@),
{
    let k = trim_end_len(v);
    let j = trim_start_index(v, k);
    string_of_range(v, j, k)
}

/// The header line for a file shown as `display`, in a file whose comments
/// open with `prefix` and close with `suffix` (empty for line comments).
pub fn make_header(prefix: &str, suffix: &str, display: &str) -> (r: String)
    ensures
        r@ == header_spec(prefix@, suffix@, display@),
{
    let mut v: Vec<char> = Vec::new();
    append_chars(&mut v, prefix);
    let ghost p = v@;
    v.push(' ');
    v.push('P');
    v.push('a');
    v.push('t');
    v.push('h');
    v.push(':');
    assert(v@ =~= prefix@ + header_tag());
    if suffix.unicode_len() == 0 {
        append_chars(&mut v, display);
        trimmed(&v)
    } else {
        v.push(' ');
        append_chars(&mut v, display);
        v.push(' ');
        append_chars(&mut v, suffix);
        assert(v@ =~= prefix@ + header_tag() + seq![' '] + display@ + seq![' '] + suffix@);
        trimmed(&v)
    }
}

/// Whether `first_line` is a path header for comments that open with
/// `prefix`.
pub fn has_path_header(first_line: &str, prefix: &str) -> (r: bool)
    ensures
        r == starts_with(trim(first_line@), prefix@ + header_tag()),
{
    let s = chars_of(first_line);
    let k = trim_end_len(&s);
    let j = trim_start_index(&s, k);
    let mut p = chars_of(prefix);
    p.push(' ');
    p.push('P');
    p.push('a');
    p.push('t');
    p.push('h');
    p.push(':');
    assert(p@ =~= prefix@ + header_tag());
    starts_with_at(&s, j, k, &p)
}

/// The lines of `content` after its first, joined with `\n`.
pub open spec fn without_first_line(content: Seq<char>) -> Seq<char> {
    let ls = split_lines_spec(content);
    if ls.len() == 0 {
        Seq::empty()
    } else {
        join_lines(ls.subrange(1, ls.len() as int))
    }
}

/// `content` without its first line.
pub fn drop_first_line(content: &str) -> (r: String)
    ensures
        r@ == without_first_line(content@),
{
    let ls = split_lines(content);
    let mut rest: Vec<String> = Vec::new();
    if ls.len() == 0 {
        return String::new();
    }
    let mut i: usize = 1;
    assert(views(rest@) =~= views(ls@).subrange(1, 1));
    while i < ls.len()
        invariant
            1 <= i <= ls.len(),
            views(rest@) == views(ls@).subrange(1, i as int),
        decreases ls.len() - i,
    {
        let ghost prev = rest@;
        let item = ls[i].clone();
        assert(item@ == views(ls@)[i as int]);
        rest.push(item);
        assert(views(rest@) =~= views(prev).push(item@));
        i = i + 1;
        assert(views(rest@) =~= views(ls@).subrange(1, i as int));
    }
    string_of(&join_chars(&rest))
}

/// What a file becomes when a path header is added: `None` where its
/// first line already is a header and `force` is off; else the header line,
/// a newline, and the content, without its old header where it had one.
pub open spec fn header_update_spec(
    first_line: Seq<char>,
    content: Seq<char>,
    prefix: Seq<char>,
    suffix: Seq<char>,
    display: Seq<char>,
    force: bool,
) -> Option<Seq<char>> {
    let has = starts_with(trim(first_line), prefix + header_tag());
    if has && !force {
        None
    } else {
        Some(
            header_spec(prefix, suffix, display) + seq!['\n'] + if has {
                without_first_line(content)
            } else {
                content
            },
        )
    }
}

/// The new text of a file whose first line is `first_line` and whose text
/// is `content`, once the header for `display` is added; `None` where the
/// file keeps its existing header.
pub fn header_update(
    first_line: &str,
    content: &str,
    prefix: &str,
    suffix: &str,
    display: &str,
    force: bool,
) -> (r: Option<String>)
    ensures
        match r {
            Some(s) => header_update_spec(first_line@, content@, prefix@, suffix@, display@, force)
                == Some(s@),
            None => header_update_spec(
                first_line@,
                content@,
                prefix@,
                suffix@,
                display@,
                force,
            ) is None,
        },
{
    let has = has_path_header(first_line, prefix);
    if has && !force {
        return None;
    }
    let mut out = make_header(prefix, suffix, display);
    out.push('\n');
    if has {
        let body = drop_first_line(content);
        out.append(body.as_str());
    } else {
        out.append(content);
    }
    Some(out)
}

/// One file's part in a bundle: its header block, then its content.
pub open spec fn bundle_part(display: Seq<char>, content: Seq<char>) -> Seq<char> {
    "FILE: "@ + display + "\n---\n\n"@ + content
}

/// Files put one after the other under their headers, with a separator
/// between two files.
pub open spec fn bundle_spec(items: Seq<(Seq<char>, Seq<char>)>) -> Seq<char>
    decreases items.len(),
{
    if items.len() == 0 {
        Seq::empty()
    } else if items.len() == 1 {
        bundle_part(items[0].0, items[0].1)
    } else {
        bundle_spec(items.drop_last()) + "\n\n---\n"@ + bundle_part(
            items.last().0,
            items.last().1,
        )
    }
}

pub open spec fn item_views(items: Seq<(String, String)>) -> Seq<(Seq<char>, Seq<char>)> {
    items.map_values(|p: (String, String)| (p.0@, p.1@))
}

/// The files `(display path, content)` as one text: each under a
/// `FILE: path` line and a `---` rule, separated by another rule.
pub fn bundle_files(items: &Vec<(String, String)>) -> (r: String)
    ensures
        r@ == bundle_spec(item_views(items@)),
{
    let mut v: Vec<char> = Vec::new();
    let mut i: usize = 0;
    while i < items.len()
        invariant
            i <= items.len(),
            v@ == bundle_spec(item_views(items@).subrange(0, i as int)),
        decreases items.len() - i,
    {
        let ghost prev = v@;
        let ghost sub = item_views(items@).subrange(0, i + 1);
        assert(sub.drop_last() =~= item_views(items@).subrange(0, i as int));
        if i > 0 {
            append_chars(&mut v, "\n\n---\n");
        }
        let ghost mid = v@;
        append_chars(&mut v, "FILE: ");
        append_chars(&mut v, items[i].0.as_str());
        append_chars(&mut v, "\n---\n\n");
        append_chars(&mut v, items[i].1.as_str());
        assert(v@ =~= mid + bundle_part(items@[i as int].0@, items@[i as int].1@));
        if i == 0 {
            assert(prev =~= Seq::<char>::empty());
            assert(v@ =~= bundle_spec(sub));
        }
        i = i + 1;
    }
    assert(item_views(items@).subrange(0, i as int) =~= item_views(items@));
    string_of(&v)
}

} // verus!
