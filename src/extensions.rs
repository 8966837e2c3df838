//! Which file extensions a run processes.
use vstd::prelude::*;

use crate::cli::{Args, ProjectType};
use crate::lines::views;

verus! {

/// Every extension the tool knows.
pub open spec fn supported_extensions() -> Seq<Seq<char>> {
    seq![
        "ts"@, "js"@, "jsx"@, "tsx"@, "svelte"@, "vue"@, "html"@, "css"@, "scss"@,
        "c"@, "cpp"@, "h"@, "hpp"@, "cs"@, "go"@, "java"@, "rs"@, "swift"@, "kt"@,
        "py"@, "rb"@, "sh"@, "bash"@, "pl"@, "ps1"@,
        "md"@, "xml"@, "yaml"@, "yml"@, "toml"@, "Dockerfile"@,
    ]
}

/// The extensions of a project preset.
pub open spec fn project_extensions(p: ProjectType) -> Seq<Seq<char>> {
    match p {
        ProjectType::Rust => seq!["rs"@],
        ProjectType::Python => seq!["py"@],
        ProjectType::Web => seq![
            "ts"@, "js"@, "jsx"@, "tsx"@, "svelte"@, "vue"@, "html"@, "css"@, "scss"@,
        ],
        ProjectType::Java => seq!["java"@, "xml"@],
        ProjectType::Flutter => seq!["dart"@],
    }
}

fn push_owned(v: &mut Vec<String>, s: &str)
    ensures
        views(final(v)@) == views(old(v)@).push(s@),
{
    let ghost prev = v@;
    v.push(s.to_string());
    assert(views(v@) =~= views(prev).push(s@));
}

fn web_extensions(v: &mut Vec<String>)
    ensures
        views(final(v)@) == views(old(v)@) + seq![
            "ts"@, "js"@, "jsx"@, "tsx"@, "svelte"@, "vue"@, "html"@, "css"@, "scss"@,
        ],
{
    let ghost prev = views(v@);
    push_owned(v, "ts");
    push_owned(v, "js");
    push_owned(v, "jsx");
    push_owned(v, "tsx");
    push_owned(v, "svelte");
    push_owned(v, "vue");
    push_owned(v, "html");
    push_owned(v, "css");
    push_owned(v, "scss");
    assert(views(v@) =~= prev + seq![
        "ts"@, "js"@, "jsx"@, "tsx"@, "svelte"@, "vue"@, "html"@, "css"@, "scss"@,
    ]);
}

/// Every extension the tool knows, web first, then C-like languages,
/// scripting languages, and markup and configuration formats.
pub fn get_all_supported_extensions() -> (r: Vec<String>)
    ensures
        views(r@) == supported_extensions(),
{
    let mut v: Vec<String> = Vec::new();
    web_extensions(&mut v);
    let ghost web = views(v@);
    push_owned(&mut v, "c");
    push_owned(&mut v, "cpp");
    push_owned(&mut v, "h");
    push_owned(&mut v, "hpp");
    push_owned(&mut v, "cs");
    push_owned(&mut v, "go");
    push_owned(&mut v, "java");
    push_owned(&mut v, "rs");
    push_owned(&mut v, "swift");
    push_owned(&mut v, "kt");
    push_owned(&mut v, "py");
    push_owned(&mut v, "rb");
    push_owned(&mut v, "sh");
    push_owned(&mut v, "bash");
    push_owned(&mut v, "pl");
    push_owned(&mut v, "ps1");
    push_owned(&mut v, "md");
    push_owned(&mut v, "xml");
    push_owned(&mut v, "yaml");
    push_owned(&mut v, "yml");
    push_owned(&mut v, "toml");
    push_owned(&mut v, "Dockerfile");
    assert(views(v@) =~= supported_extensions());
    v
}

/// The extensions a run processes: those of the project preset if one is
/// given, else the custom list if one is given, else every known extension.
pub fn resolve_extensions(args: &Args) -> (r: Vec<String>)
    ensures
        views(r@) == match args.project {
            Some(p) => project_extensions(p),
            None => match args.exts {
                Some(e) => views(e@),
                None => supported_extensions(),
            },
        },
{
    match args.project {
        Some(p) => {
            let mut v: Vec<String> = Vec::new();
            match p {
                ProjectType::Rust => push_owned(&mut v, "rs"),
                ProjectType::Python => push_owned(&mut v, "py"),
                ProjectType::Web => web_extensions(&mut v),
                ProjectType::Java => {
                    push_owned(&mut v, "java");
                    push_owned(&mut v, "xml");
                },
                ProjectType::Flutter => push_owned(&mut v, "dart"),
            }
            assert(views(v@) =~= project_extensions(p));
            v
        },
        None => match &args.exts {
            Some(e) => {
                let mut v: Vec<String> = Vec::new();
                let mut i: usize = 0;
                while i < e.len()
                    invariant
                        i <= e.len(),
                        views(v@) == views(e@).subrange(0, i as int),
                    decreases e.len() - i,
                {
                    let ghost prev = v@;
                    let item = e[i].clone();
                    assert(item@ == views(e@)[i as int]);
                    v.push(item);
                    assert(views(v@) =~= views(prev).push(item@));
                    assert(views(v@) =~= views(e@).subrange(0, i + 1));
                    i = i + 1;
                }
                assert(views(e@).subrange(0, i as int) =~= views(e@));
                v
            },
            None => get_all_supported_extensions(),
        },
    }
}

} // verus!
