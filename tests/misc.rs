use filedress::{parse_line, should_check, update_available, version_of_tag};

#[test]
fn update_check_interval() {
    let now: u64 = 1_000_000;
    assert!(should_check(now, None));
    assert!(should_check(now, Some(now - 24 * 3600)));
    assert!(!should_check(now, Some(now - 23 * 3600)));
    assert!(!should_check(now, Some(now)));
    assert!(should_check(now, Some(now + 10)));
}

#[test]
fn release_tags_and_versions() {
    assert_eq!(version_of_tag("v1.0.2"), "1.0.2");
    assert_eq!(version_of_tag("1.0.2"), "1.0.2");
    assert_eq!(update_available("1.0.0", "1.0.2"), Some(true));
    assert_eq!(update_available("1.0.2", "1.0.0"), Some(false));
    assert_eq!(update_available("1.0.0", "1.0.0"), Some(false));
    assert_eq!(update_available("1.0.0-beta", "1.0.0"), Some(true));
    assert_eq!(update_available("1.0.0", "not a version"), None);
    assert_eq!(update_available("", "1.0.0"), None);
}

#[test]
fn listing_lines() {
    assert_eq!(parse_line("src/", 4), Some((0, "src/".to_string())));
    assert_eq!(parse_line("    main.rs", 4), Some((1, "main.rs".to_string())));
    assert_eq!(parse_line("├── lib.rs", 4), Some((1, "lib.rs".to_string())));
    assert_eq!(parse_line("│   └── mod.rs", 4), Some((2, "mod.rs".to_string())));
    assert_eq!(parse_line("      x", 4), Some((1, "x".to_string())));
    assert_eq!(parse_line("   ", 4), None);
    assert_eq!(parse_line("", 2), None);
}
