use filedress::{display_path_within, generate_display_path};

#[test]
fn test_generate_display_path_default() {
    let target = "./project/src/app";
    let file = "./project/src/app/routes/page.js";
    let path = generate_display_path(file, target, 0).unwrap();
    assert_eq!(path, "app/routes/page.js");
}

#[test]
fn commands_test_generate_display_path_with_up() {
    let target = "./project/src/app";
    let file = "./project/src/app/routes/page.js";
    let path = generate_display_path(file, target, 1).unwrap();
    assert_eq!(path, "src/app/routes/page.js");
}

#[test]
fn display_path_stops_at_the_top() {
    let path = generate_display_path("project/app/main.rs", "project/app", 10).unwrap();
    assert_eq!(path, "project/app/main.rs");
}

#[test]
fn display_path_outside_target_is_none() {
    assert_eq!(generate_display_path("/elsewhere/main.rs", "/repo/app", 0), None);
}

#[test]
fn display_path_within_starts_at_target() {
    let file = "/repo/project_root/src/api/v1/user.py";
    assert_eq!(
        display_path_within(file, "/repo/project_root", 0).unwrap(),
        "src/api/v1/user.py"
    );
    assert_eq!(
        display_path_within(file, "/repo/project_root/src/api/v1", 2).unwrap(),
        "api/v1/user.py"
    );
}
