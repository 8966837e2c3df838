//! The path written into a header: a file's path relative to an ancestor of
//! the target directory.
use vstd::prelude::*;

verus! {

/// What `std::path::Path::parent` gives for the path `p`.
pub uninterp spec fn path_parent(p: Seq<char>) -> Option<Seq<char>>;

/// What `std::path::Path::strip_prefix` gives for the path `p` and the base
/// `base`: `None` where `base` is not a leading run of `p`'s components.
pub uninterp spec fn path_strip_prefix(p: Seq<char>, base: Seq<char>) -> Option<Seq<char>>;

/// Relies on `std::path::Path::parent`: the path without its last
/// component, `None` for a root or an empty path.
#[verifier::external_body]
fn parent_of(p: &str) -> (r: Option<String>)
    ensures
        match r {
            Some(s) => path_parent(p@) == Some(s@),
            None => path_parent(p@) is None,
        },
{
    std::path::Path::new(p).parent().map(|q| q.to_string_lossy().into_owned())
}

/// Relies on `std::path::Path::strip_prefix`: the rest of `p` after the
/// components of `base`.
#[verifier::external_body]
fn strip_prefix_of(p: &str, base: &str) -> (r: Option<String>)
    ensures
        match r {
            Some(s) => path_strip_prefix(p@, base@) == Some(s@),
            None => path_strip_prefix(p@, base@) is None,
        },
{
    std::path::Path::new(p).strip_prefix(base).ok().map(|q| q.to_string_lossy().into_owned())
}

/// `p` with up to `n` trailing components taken off, stopping at the top.
pub open spec fn ancestor(p: Seq<char>, n: nat) -> Seq<char>
    decreases n,
{
    if n == 0 {
        p
    } else {
        match path_parent(p) {
            Some(q) => ancestor(q, (n - 1) as nat),
            None => p,
        }
    }
}

/// The ancestor `n` levels above `p`, or the topmost one.
pub fn ancestor_of(p: &str, n: u32) -> (r: String)
    ensures
        r@ == ancestor(p@, n as nat),
{
    let mut cur = p.to_string();
    let mut k: u32 = 0;
    while k < n
        invariant
            k <= n,
            ancestor(p@, n as nat) == ancestor(cur@, (n - k) as nat),
        decreases n - k,
    {
        match parent_of(cur.as_str()) {
            Some(q) => {
                cur = q;
            },
            None => {
                return cur;
            },
        }
        k = k + 1;
    }
    cur
}

/// The path of `file_path` relative to the directory `up_levels` levels
/// above `target_dir` (or its topmost ancestor); `None` where the file does
/// not lie below that directory.
pub fn display_path_within(file_path: &str, target_dir: &str, up_levels: u32) -> (r: Option<
    String,
>)
    ensures
        match r {
            Some(s) => path_strip_prefix(file_path@, ancestor(target_dir@, up_levels as nat))
                == Some(s@),
            None => path_strip_prefix(file_path@, ancestor(target_dir@, up_levels as nat)) is None,
        },
{
    let base = ancestor_of(target_dir, up_levels);
    strip_prefix_of(file_path, base.as_str())
}

/// The header path of `file_path` for a run on `target_dir`: relative to
/// the parent of `target_dir` (so that the target's own name leads), moved
/// `up_levels` further levels up; `None` where the file does not lie below
/// that directory.
pub fn generate_display_path(file_path: &str, target_dir: &str, up_levels: u32) -> (r: Option<
    String,
>)
    ensures
        ({
            let start = match path_parent(target_dir@) {
                Some(q) => q,
                None => target_dir@,
            };
            match r {
                Some(s) => path_strip_prefix(file_path@, ancestor(start, up_levels as nat))
                    == Some(s@),
                None => path_strip_prefix(file_path@, ancestor(start, up_levels as nat)) is None,
            }
        }),
{
    let start = match parent_of(target_dir) {
        Some(q) => q,
        None => target_dir.to_string(),
    };
    display_path_within(file_path, start.as_str(), up_levels)
}

} // verus!
