use filedress::{flavor_of, get_comment_style, resolve, Family, Flavor};
use filedress::style::family_of;

#[test]
fn header_markers_by_extension() {
    assert_eq!(get_comment_style("rs"), ("//", ""));
    assert_eq!(get_comment_style("tsx"), ("//", ""));
    assert_eq!(get_comment_style("css"), ("/*", "*/"));
    assert_eq!(get_comment_style("svelte"), ("<!--", "-->"));
    assert_eq!(get_comment_style("ps1"), ("#", ""));
    assert_eq!(get_comment_style("unknown"), ("//", ""));
    assert_eq!(get_comment_style(""), ("//", ""));
}

#[test]
fn comment_styles_by_extension() {
    let c = resolve("go");
    assert_eq!(c.single_line.as_deref(), Some("//"));
    assert_eq!(c.block_start.as_deref(), Some("/*"));
    assert_eq!(c.block_end.as_deref(), Some("*/"));
    let css = resolve("less");
    assert_eq!(css.single_line, None);
    assert_eq!(css.block_start.as_deref(), Some("/*"));
    let md = resolve("md");
    assert_eq!(md.single_line, None);
    assert_eq!(md.block_start.as_deref(), Some("<!--"));
    assert_eq!(md.block_end.as_deref(), Some("-->"));
    let py = resolve("toml");
    assert_eq!(py.single_line.as_deref(), Some("#"));
    assert_eq!(py.block_start, None);
    assert_eq!(py.block_end, None);
    let other = resolve("dart");
    assert_eq!(other.single_line.as_deref(), Some("//"));
    assert_eq!(other.block_start, None);
}

#[test]
fn families_and_flavors() {
    assert_eq!(family_of("java"), Family::CLike);
    assert_eq!(family_of("scss"), Family::Stylesheet);
    assert_eq!(family_of("xml"), Family::Markup);
    assert_eq!(family_of("Dockerfile"), Family::Script);
    assert_eq!(family_of("RS"), Family::Other);
    assert_eq!(flavor_of("py"), Flavor::Python);
    assert_eq!(flavor_of("rb"), Flavor::Generic);
}
