use filedress::{
    classify, clean_text, flavor_of, resolve, split_lines, strip_comments, CommentStyle, Flavor,
    LineOutcome, ScanState,
};

fn lines(text: &str) -> Vec<String> {
    text.lines().map(String::from).collect()
}

fn strip(text: &str, ext: &str) -> Vec<String> {
    strip_comments(&lines(text), &resolve(ext), flavor_of(ext)).new_lines
}

#[test]
fn inline_comment_after_url_string() {
    assert_eq!(
        strip("let url = \"http://x.com/#a\"; // note", "rs"),
        vec!["let url = \"http://x.com/#a\";"]
    );
}

#[test]
fn block_comment_over_three_lines() {
    assert_eq!(
        strip("/* start\nstill comment\nend */ code_here", "rs"),
        vec!["code_here"]
    );
    assert_eq!(
        clean_text("/* start\nstill comment\nend */ code_here\n", "rs"),
        Some("code_here\n".to_string())
    );
}

#[test]
fn escaped_quote_keeps_string() {
    assert_eq!(
        strip("x = \"a \\\" b\" // comment", "rs"),
        vec!["x = \"a \\\" b\""]
    );
    assert_eq!(strip("\"a \\\" b\" // comment", "js"), vec!["\"a \\\" b\""]);
}

#[test]
fn markers_inside_strings_are_kept() {
    let text = "code = \"text containing // or # or /* tokens\"";
    assert_eq!(strip(text, "rs"), vec![text]);
    assert_eq!(strip(text, "py"), vec![text]);
    assert_eq!(strip(text, "css"), vec![text]);
}

#[test]
fn docstring_kept_and_comment_removed() {
    let text = "# Path: pkg/mod.py\ndef f():\n    \"\"\"\n    Docs with # hash.\n    \"\"\"\n    # a comment\n    return 1  # trailing\n";
    assert_eq!(
        strip(text, "py"),
        vec![
            "# Path: pkg/mod.py",
            "def f():",
            "    \"\"\"",
            "    Docs with # hash.",
            "    \"\"\"",
            "    return 1",
        ]
    );
}

#[test]
fn header_stays_first_and_unchanged() {
    let text = "\n   \n// Path: src/main.rs   \n// note\nfn main() {}\n";
    let out = strip(text, "rs");
    assert_eq!(out[0], "// Path: src/main.rs   ");
    assert_eq!(out, vec!["// Path: src/main.rs   ", "fn main() {}"]);
}

#[test]
fn block_header_kept_in_css_and_html() {
    let css = "/* Path: clean_test_root/my_style.css */\n/* reset */\nbody {\n    margin: 0; /* none */\n    padding: 0;\n}\n";
    assert_eq!(
        strip(css, "css"),
        vec![
            "/* Path: clean_test_root/my_style.css */",
            "body {",
            "    margin: 0;",
            "    padding: 0;",
            "}",
        ]
    );
    let html = "<!-- Path: clean_test_root/my_page.html -->\n<!DOCTYPE html>\n<!-- a\n  b -->\n<p>Some code here <!-- note --></p>\n";
    assert_eq!(
        strip(html, "html"),
        vec![
            "<!-- Path: clean_test_root/my_page.html -->",
            "<!DOCTYPE html>",
            "<p>Some code here </p>",
        ]
    );
}

#[test]
fn rust_file_full_line_block_and_inline_comments() {
    let text = "// Path: clean_test_root/my_rust.rs\n// A comment\nfn main() {\n    /* block\n       comment */\n    let x = 10; // ten\n    println!(\"Hello, world!\");\n}\n";
    assert_eq!(
        clean_text(text, "rs"),
        Some(
            "// Path: clean_test_root/my_rust.rs\nfn main() {\n    let x = 10;\n    println!(\"Hello, world!\");\n}\n"
                .to_string()
        )
    );
}

#[test]
fn python_strings_with_markers() {
    let text = "my_string = \"This is a string with a # hash inside.\"\nanother_string = 'Another string with // slashes.'\ncomment_start_literal = '''# Not a comment, it's a string literal.'''\ncode_with_hash = \"some_value\" # A comment\nfinal_line = \"value/#here_in_string\"\n";
    assert_eq!(
        strip(text, "py"),
        vec![
            "my_string = \"This is a string with a # hash inside.\"",
            "another_string = 'Another string with // slashes.'",
            "comment_start_literal = '''# Not a comment, it's a string literal.'''",
            "code_with_hash = \"some_value\"",
            "final_line = \"value/#here_in_string\"",
        ]
    );
}

#[test]
fn nested_quotes_of_the_other_kind() {
    assert_eq!(
        strip("    print(f\"Data has key: {data['key']}\") # show", "py"),
        vec!["    print(f\"Data has key: {data['key']}\")"]
    );
}

#[test]
fn unchanged_file_reports_no_change() {
    let text = "\r\nfn func() {\r\n    let x = 1;\r\n    return x;\r\n}\r\n";
    // the leading blank line goes, so this text changes
    assert!(clean_text(text, "rs").is_some());
    let clean = "fn func() {\r\n    let x = 1;\r\n    return x;\r\n}\r\n";
    assert_eq!(clean_text(clean, "rs"), None);
    let res = strip_comments(&lines(clean), &resolve("rs"), Flavor::Generic);
    assert!(!res.changed);
}

#[test]
fn cleaning_twice_changes_nothing_more() {
    let text = "# Path: a.py\nimport os # os\n# gone\nx = '#' # c\n\"\"\"\ndoc # kept\n\"\"\"\n";
    let once = clean_text(text, "py").unwrap();
    assert_eq!(once, "# Path: a.py\nimport os\nx = '#'\n\"\"\"\ndoc # kept\n\"\"\"\n");
    assert_eq!(clean_text(&once, "py"), None);
    let first = strip(text, "py");
    let second = strip(&first.join("\n"), "py");
    assert_eq!(first, second);
}

#[test]
fn only_header_is_kept() {
    let text = "\r\n# Path: clean_test_root/only_header.py\r\n";
    assert_eq!(
        clean_text(text, "py"),
        Some("# Path: clean_test_root/only_header.py\n".to_string())
    );
}

#[test]
fn all_comments_gives_empty_text() {
    assert_eq!(clean_text("// a\n// b\n", "rs"), Some(String::new()));
}

#[test]
fn unterminated_block_comment_is_kept() {
    assert_eq!(clean_text("a = 1;\nb /* open\nc\n", "rs"), None);
    assert_eq!(
        clean_text("// x\na;\nb /* open\nc", "rs"),
        Some("a;\nb /* open\nc\n".to_string())
    );
}

#[test]
fn block_comment_reopened_after_terminator() {
    assert_eq!(
        strip("a /* x\n*/ b /* y */ c // z", "c"),
        vec!["a", "b  c"]
    );
}

#[test]
fn block_start_inside_string_is_not_a_comment() {
    assert_eq!(
        strip("s = \"/* not\"; t = 1; /* yes */", "js"),
        vec!["s = \"/* not\"; t = 1;"]
    );
}

#[test]
fn classify_reports_each_outcome() {
    let style = resolve("rs");
    let mut st = ScanState::fresh();
    assert!(matches!(
        classify("// Path: x.rs", &style, Flavor::Generic, &mut st),
        LineOutcome::Verbatim
    ));
    assert!(matches!(
        classify("   // only a comment", &style, Flavor::Generic, &mut st),
        LineOutcome::Dropped
    ));
    match classify("let a = 1; /* open", &style, Flavor::Generic, &mut st) {
        LineOutcome::Rewritten(s) => assert_eq!(s, "let a = 1;"),
        _ => panic!("expected code"),
    }
    assert!(st.in_block_comment);
    assert!(matches!(
        classify("still inside", &style, Flavor::Generic, &mut st),
        LineOutcome::Dropped
    ));
    match classify("*/ let b = 2;", &style, Flavor::Generic, &mut st) {
        LineOutcome::Rewritten(s) => assert_eq!(s, "let b = 2;"),
        _ => panic!("expected code"),
    }
    assert!(!st.in_block_comment);
}

#[test]
fn docstring_state_is_carried() {
    let style = resolve("py");
    let mut st = ScanState::fresh();
    assert!(matches!(
        classify("x = \"\"\"start # not a comment", &style, Flavor::Python, &mut st),
        LineOutcome::Verbatim
    ));
    assert!(st.in_triple_double);
    assert!(matches!(
        classify("# inside", &style, Flavor::Python, &mut st),
        LineOutcome::Verbatim
    ));
    assert!(matches!(
        classify("end\"\"\"", &style, Flavor::Python, &mut st),
        LineOutcome::Verbatim
    ));
    assert!(!st.in_triple_double);
    assert!(matches!(
        classify("# outside", &style, Flavor::Python, &mut st),
        LineOutcome::Dropped
    ));
}

#[test]
fn custom_style_without_single_line_marker() {
    let style = CommentStyle {
        single_line: None,
        block_start: Some("(*".to_string()),
        block_end: Some("*)".to_string()),
    };
    let res = strip_comments(&lines("a (* b *) c // d"), &style, Flavor::Generic);
    assert_eq!(res.new_lines, vec!["a  c // d"]);
    assert!(res.changed);
}

#[test]
fn split_lines_follows_line_endings() {
    assert_eq!(split_lines("a\r\nb\n\nc\r"), vec!["a", "b", "", "c\r"]);
    assert_eq!(split_lines("a\n"), vec!["a"]);
    assert!(split_lines("").is_empty());
    assert_eq!(split_lines("\n"), vec![""]);
}

#[test]
fn cleaning_c_like_twice_changes_nothing_more() {
    let text = "// Path: src/lib.rs\n/* licence\n   text */\nfn f() { // f\n    let s = \"// kept\"; /* note */ let t = 1;\n    g(); /* open\n    still */ h();\n}\n";
    let once = clean_text(text, "rs").unwrap();
    assert_eq!(
        once,
        "// Path: src/lib.rs\nfn f() {\n    let s = \"// kept\";  let t = 1;\n    g();\nh();\n}\n"
    );
    assert_eq!(clean_text(&once, "rs"), None);
}

#[test]
fn stylesheet_rerun_can_find_a_new_comment() {
    // cutting a block comment out can join `/` and `*` into a new opener
    let once = strip("a//* c */*b\nd */ e", "css");
    assert_eq!(once, vec!["a/*b", "d */ e"]);
    assert_eq!(strip(&once.join("\n"), "css"), vec!["a", "e"]);
}

#[test]
fn string_then_code_then_comment() {
    assert_eq!(
        strip("x = \"a // b /* c\" + y  // note", "rs"),
        vec!["x = \"a // b /* c\" + y"]
    );
    assert_eq!(
        strip("x = \"a # b\" + y # note", "py"),
        vec!["x = \"a # b\" + y"]
    );
}

#[test]
fn line_comment_before_block_markers() {
    assert!(strip("//**/* x", "rs").is_empty());
    assert_eq!(clean_text("//**/* x\nfn f() {}\n", "rs"), Some("fn f() {}\n".to_string()));
}
