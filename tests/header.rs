use filedress::{
    build_tree, bundle_files, drop_first_line, has_path_header, header_update, make_header,
};

#[test]
fn headers_for_line_and_block_comments() {
    assert_eq!(make_header("#", "", "config.py"), "# Path:config.py");
    assert_eq!(make_header("//", "", "src/main.rs"), "// Path:src/main.rs");
    assert_eq!(make_header("/*", "*/", "a.css"), "/* Path: a.css */");
    assert_eq!(make_header("<!--", "-->", "x.html"), "<!-- Path: x.html -->");
}

#[test]
fn finding_a_header() {
    assert!(has_path_header("  # Path:config.py\n", "#"));
    assert!(has_path_header("// Path: a.rs", "//"));
    assert!(!has_path_header("# comment", "#"));
    assert!(!has_path_header("", "#"));
}

#[test]
fn dropping_the_first_line() {
    assert_eq!(drop_first_line("# Path:x\npass"), "pass");
    assert_eq!(drop_first_line("a\r\nb\nc\n"), "b\nc");
    assert_eq!(drop_first_line("only"), "");
    assert_eq!(drop_first_line(""), "");
}

#[test]
fn bundling_files() {
    let items = vec![
        ("a.rs".to_string(), "x".to_string()),
        ("b.rs".to_string(), "y\n".to_string()),
    ];
    assert_eq!(
        bundle_files(&items),
        "FILE: a.rs\n---\n\nx\n\n---\nFILE: b.rs\n---\n\ny\n"
    );
    assert_eq!(bundle_files(&Vec::new()), "");
}

#[test]
fn listing_becomes_a_tree() {
    let lines: Vec<String> = vec!["src/", "    main.rs", "", "    utils", "        mod.rs", "README.md"]
        .into_iter()
        .map(String::from)
        .collect();
    let tree = build_tree(&lines, 4);
    let got: Vec<(Vec<String>, bool)> = tree.into_iter().map(|e| (e.path, e.is_dir)).collect();
    let want: Vec<(Vec<String>, bool)> = vec![
        (vec!["src/".to_string()], true),
        (vec!["src/".to_string(), "main.rs".to_string()], false),
        (vec!["src/".to_string(), "utils".to_string()], true),
        (vec!["src/".to_string(), "utils".to_string(), "mod.rs".to_string()], false),
        (vec!["README.md".to_string()], false),
    ];
    assert_eq!(got, want);
}

#[test]
fn tree_from_box_drawing_listing() {
    let lines: Vec<String> = vec!["app", "├── a.txt", "└── lib", "    └── b.txt"]
        .into_iter()
        .map(String::from)
        .collect();
    let tree = build_tree(&lines, 4);
    assert_eq!(tree.len(), 4);
    assert_eq!(tree[3].path, vec!["app", "lib", "b.txt"]);
    assert!(tree[0].is_dir);
    assert!(!tree[1].is_dir);
    assert!(tree[2].is_dir);
}

#[test]
fn header_update_adds_skips_and_replaces() {
    assert_eq!(
        header_update("pass", "pass", "#", "", "config.py", false),
        Some("# Path:config.py\npass".to_string())
    );
    assert_eq!(header_update("# Path:old.py\n", "# Path:old.py\npass", "#", "", "new.py", false), None);
    assert_eq!(
        header_update("# Path:old.py\n", "# Path:old.py\npass\n", "#", "", "new.py", true),
        Some("# Path:new.py\npass".to_string())
    );
    assert_eq!(
        header_update("body {}", "body {}", "/*", "*/", "a.css", false),
        Some("/* Path: a.css */\nbody {}".to_string())
    );
}
