//! Which comment markers a file uses, decided by its extension.
use vstd::prelude::*;

use crate::text::str_eq;

verus! {

/// Language families that share one comment syntax.
#[derive(Clone, Copy, Debug, PartialEq, Eq, Structural)]
pub enum Family {
    /// `//` line comments and `/* */` blocks (C, Rust, Go, Java, JavaScript, ...).
    CLike,
    /// `/* */` blocks only (CSS and its dialects).
    Stylesheet,
    /// `<!-- -->` blocks only (HTML, XML, Markdown, ...).
    Markup,
    /// `#` line comments only (Python, Ruby, shells, YAML, TOML, ...).
    Script,
    /// Anything else: `//` line comments only.
    Other,
}

/// How strings are read on top of the comment markers.
#[derive(Clone, Copy, Debug, PartialEq, Eq, Structural)]
pub enum Flavor {
    Generic,
    /// Triple-quoted strings span lines and are kept as code.
    Python,
}

pub open spec fn family_spec(ext: Seq<char>) -> Family {
    if ext == "ts"@ || ext == "js"@ || ext == "jsx"@ || ext == "tsx"@ || ext == "c"@ || ext
        == "cpp"@ || ext == "h"@ || ext == "hpp"@ || ext == "cs"@ || ext == "go"@ || ext
        == "java"@ || ext == "rs"@ || ext == "swift"@ || ext == "kt"@ {
        Family::CLike
    } else if ext == "css"@ || ext == "scss"@ || ext == "less"@ {
        Family::Stylesheet
    } else if ext == "html"@ || ext == "svelte"@ || ext == "vue"@ || ext == "xml"@ || ext
        == "md"@ {
        Family::Markup
    } else if ext == "py"@ || ext == "rb"@ || ext == "sh"@ || ext == "bash"@ || ext == "pl"@
        || ext == "Dockerfile"@ || ext == "yaml"@ || ext == "yml"@ || ext == "toml"@ || ext
        == "ps1"@ {
        Family::Script
    } else {
        Family::Other
    }
}

pub open spec fn flavor_spec(ext: Seq<char>) -> Flavor {
    if ext == "py"@ {
        Flavor::Python
    } else {
        Flavor::Generic
    }
}

/// The family of files with extension `ext` (empty when there is none).
pub fn family_of(ext: &str) -> (r: Family)
    ensures
        r == family_spec(ext@),
{
    if str_eq(ext, "ts") || str_eq(ext, "js") || str_eq(ext, "jsx") || str_eq(ext, "tsx")
        || str_eq(ext, "c") || str_eq(ext, "cpp") || str_eq(ext, "h") || str_eq(ext, "hpp")
        || str_eq(ext, "cs") || str_eq(ext, "go") || str_eq(ext, "java") || str_eq(ext, "rs")
        || str_eq(ext, "swift") || str_eq(ext, "kt") {
        Family::CLike
    } else if str_eq(ext, "css") || str_eq(ext, "scss") || str_eq(ext, "less") {
        Family::Stylesheet
    } else if str_eq(ext, "html") || str_eq(ext, "svelte") || str_eq(ext, "vue") || str_eq(
        ext,
        "xml",
    ) || str_eq(ext, "md") {
        Family::Markup
    } else if str_eq(ext, "py") || str_eq(ext, "rb") || str_eq(ext, "sh") || str_eq(ext, "bash")
        || str_eq(ext, "pl") || str_eq(ext, "Dockerfile") || str_eq(ext, "yaml") || str_eq(
        ext,
        "yml",
    ) || str_eq(ext, "toml") || str_eq(ext, "ps1") {
        Family::Script
    } else {
        Family::Other
    }
}

/// The flavor of files with extension `ext`.
pub fn flavor_of(ext: &str) -> (r: Flavor)
    ensures
        r == flavor_spec(ext@),
{
    if str_eq(ext, "py") {
        Flavor::Python
    } else {
        Flavor::Generic
    }
}

/// The comment markers of one file; `None` where its language has no such
/// marker.
#[derive(Debug)]
pub struct CommentStyle {
    pub single_line: Option<String>,
    pub block_start: Option<String>,
    pub block_end: Option<String>,
}

/// A single-line marker, a block opener and a block closer, in that order;
/// an absent marker is empty.
pub type Marks = (Seq<char>, Seq<char>, Seq<char>);

pub open spec fn marker_of(m: Option<String>) -> Seq<char> {
    match m {
        Some(s) => s@,
        None => Seq::empty(),
    }
}

impl CommentStyle {
    /// The single-line marker, empty when absent.
    pub open spec fn single(&self) -> Seq<char> {
        marker_of(self.single_line)
    }

    /// The block opener, empty when absent.
    pub open spec fn start(&self) -> Seq<char> {
        marker_of(self.block_start)
    }

    /// The block closer, empty when absent.
    pub open spec fn end(&self) -> Seq<char> {
        marker_of(self.block_end)
    }

    /// The single-line marker and the block delimiters, in that order.
    pub open spec fn marks(&self) -> Marks {
        (self.single(), self.start(), self.end())
    }

    /// Present markers are not empty, and a file has a single-line marker or
    /// both block delimiters.
    pub open spec fn wf(&self) -> bool {
        &&& (self.single_line matches Some(s) ==> s@.len() > 0)
        &&& (self.block_start matches Some(s) ==> s@.len() > 0)
        &&& (self.block_end matches Some(s) ==> s@.len() > 0)
        &&& (self.single_line is Some || (self.block_start is Some && self.block_end is Some))
    }
}

/// The markers `(single, start, end)` of a family; an absent one is empty.
pub open spec fn family_markers(f: Family) -> Marks {
    match f {
        Family::CLike => ("//"@, "/*"@, "*/"@),
        Family::Stylesheet => (Seq::empty(), "/*"@, "*/"@),
        Family::Markup => (Seq::empty(), "<!--"@, "-->"@),
        Family::Script => ("#"@, Seq::empty(), Seq::empty()),
        Family::Other => ("//"@, Seq::empty(), Seq::empty()),
    }
}

fn some_string(s: &str) -> (r: Option<String>)
    ensures
        marker_of(r) == s@,
        r is Some,
{
    Some(s.to_string())
}

/// The comment style of files with extension `ext`; unknown extensions get
/// `//` line comments.
pub fn resolve(ext: &str) -> (r: CommentStyle)
    ensures
        r.marks() == family_markers(family_spec(ext@)),
        r.wf(),
{
    proof {
        reveal_strlit("//");
        reveal_strlit("/*");
        reveal_strlit("*/");
        reveal_strlit("<!--");
        reveal_strlit("-->");
        reveal_strlit("#");
    }
    match family_of(ext) {
        Family::CLike => CommentStyle {
            single_line: some_string("//"),
            block_start: some_string("/*"),
            block_end: some_string("*/"),
        },
        Family::Stylesheet => CommentStyle {
            single_line: None,
            block_start: some_string("/*"),
            block_end: some_string("*/"),
        },
        Family::Markup => CommentStyle {
            single_line: None,
            block_start: some_string("<!--"),
            block_end: some_string("-->"),
        },
        Family::Script => CommentStyle {
            single_line: some_string("#"),
            block_start: None,
            block_end: None,
        },
        Family::Other => CommentStyle {
            single_line: some_string("//"),
            block_start: None,
            block_end: None,
        },
    }
}

/// The header markers `(prefix, suffix)` of a family.
pub open spec fn header_markers(f: Family) -> (Seq<char>, Seq<char>) {
    match f {
        Family::CLike => ("//"@, Seq::empty()),
        Family::Stylesheet => ("/*"@, "*/"@),
        Family::Markup => ("<!--"@, "-->"@),
        Family::Script => ("#"@, Seq::empty()),
        Family::Other => ("//"@, Seq::empty()),
    }
}

/// The opening and closing text of a path header in files with extension
/// `ext`; the closing text is empty for line comments.
pub fn get_comment_style(ext: &str) -> (r: (&'static str, &'static str))
    ensures
        (r.0@, r.1@) == header_markers(family_spec(ext@)),
{
    proof {
        reveal_strlit("");
    }
    match family_of(ext) {
        Family::CLike => ("//", ""),
        Family::Stylesheet => ("/*", "*/"),
        Family::Markup => ("<!--", "-->"),
        Family::Script => ("#", ""),
        Family::Other => ("//", ""),
    }
}

} // verus!
