use filedress::{get_all_supported_extensions, resolve_extensions, Args, ProjectType};

fn mock_args() -> Args {
    Args {
        directory: ".".to_string(),
        project: None,
        exts: None,
        up: 0,
        depth: None,
        force: false,
        output: None,
    }
}

#[test]
fn commands_test_resolve_project_preset() {
    let mut args = mock_args();
    args.project = Some(ProjectType::Python);
    let exts = resolve_extensions(&args);
    assert_eq!(exts, vec!["py".to_string()]);
}

#[test]
fn commands_test_resolve_custom_exts() {
    let mut args = mock_args();
    args.exts = Some(vec!["toml".to_string(), "yaml".to_string()]);
    let exts = resolve_extensions(&args);
    assert_eq!(exts, vec!["toml".to_string(), "yaml".to_string()]);
}

#[test]
fn commands_test_resolve_default_to_all() {
    let args = mock_args();
    let exts = resolve_extensions(&args);
    assert!(exts.contains(&"rs".to_string()));
    assert!(exts.contains(&"py".to_string()));
    assert!(exts.contains(&"svelte".to_string()));
    assert!(!exts.is_empty());
}

#[test]
fn utils_test_resolve_project_preset() {
    let mut args = mock_args();
    args.project = Some(ProjectType::Python);
    let exts = resolve_extensions(&args);
    assert_eq!(exts, vec!["py".to_string()]);
}

#[test]
fn utils_test_resolve_custom_exts() {
    let mut args = mock_args();
    args.exts = Some(vec!["toml".to_string(), "yaml".to_string()]);
    let exts = resolve_extensions(&args);
    assert_eq!(exts, vec!["toml".to_string(), "yaml".to_string()]);
}

#[test]
fn utils_test_resolve_default_to_all() {
    let args = mock_args();
    let exts = resolve_extensions(&args);
    assert!(exts.contains(&"rs".to_string()));
    assert!(exts.contains(&"py".to_string()));
    assert!(exts.contains(&"svelte".to_string()));
    assert!(!exts.is_empty());
}

#[test]
fn project_presets_list_their_extensions() {
    let mut args = mock_args();
    args.project = Some(ProjectType::Web);
    assert_eq!(
        resolve_extensions(&args),
        vec!["ts", "js", "jsx", "tsx", "svelte", "vue", "html", "css", "scss"]
    );
    args.project = Some(ProjectType::Java);
    assert_eq!(resolve_extensions(&args), vec!["java", "xml"]);
    args.project = Some(ProjectType::Flutter);
    assert_eq!(resolve_extensions(&args), vec!["dart"]);
    args.project = Some(ProjectType::Rust);
    assert_eq!(resolve_extensions(&args), vec!["rs"]);
}

#[test]
fn preset_wins_over_custom_list() {
    let mut args = mock_args();
    args.project = Some(ProjectType::Rust);
    args.exts = Some(vec!["py".to_string()]);
    assert_eq!(resolve_extensions(&args), vec!["rs"]);
}

#[test]
fn all_supported_extensions_in_order() {
    let all = get_all_supported_extensions();
    assert_eq!(all.len(), 31);
    assert_eq!(all[0], "ts");
    assert_eq!(all[9], "c");
    assert_eq!(all[19], "py");
    assert_eq!(all[30], "Dockerfile");
}

#[test]
fn default_args_are_empty() {
    let args = Args::default();
    assert_eq!(args.directory, "");
    assert!(args.project.is_none());
    assert!(args.exts.is_none());
    assert_eq!(args.up, 0);
    assert!(args.depth.is_none());
    assert!(!args.force);
    assert!(args.output.is_none());
}
