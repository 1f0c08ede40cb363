use pm::duration::parse_time_duration;
use pm::scan::{
    default_project_name, github_clone_url, parse_repo_spec, project_indicator_files,
    should_skip_directory,
};

#[test]
fn test_should_skip_listed_directories() {
    assert!(should_skip_directory(".git"));
    assert!(should_skip_directory("node_modules"));
    assert!(should_skip_directory("target"));
    assert!(should_skip_directory("__pycache__"));
    assert!(should_skip_directory(".DS_Store"));
}

#[test]
fn test_should_skip_hidden_directories() {
    assert!(should_skip_directory(".hidden"));
    assert!(should_skip_directory(".config"));
}

#[test]
fn test_should_not_skip_ordinary_directories() {
    assert!(!should_skip_directory("src"));
    assert!(!should_skip_directory("my-project"));
    assert!(!should_skip_directory(""));
}

#[test]
fn test_project_indicator_files_list() {
    let files = project_indicator_files();
    assert_eq!(files.len(), 14);
    assert!(files.contains(&"Cargo.toml"));
    assert!(files.contains(&"package.json"));
    assert!(files.contains(&"Makefile"));
}

#[test]
fn test_parse_repo_spec_owner_repo() {
    let parsed = parse_repo_spec("octo/hello").unwrap();
    assert_eq!(parsed.0, "octo");
    assert_eq!(parsed.1, "hello");
}

#[test]
fn test_parse_repo_spec_rejects_other_shapes() {
    assert!(parse_repo_spec("plain").is_none());
    assert!(parse_repo_spec("a/b/c").is_none());
    assert!(parse_repo_spec("").is_none());
}

#[test]
fn test_github_clone_url_shape() {
    assert_eq!(
        github_clone_url("octo", "hello"),
        "https://github.com/octo/hello.git"
    );
}

#[test]
fn test_default_project_name_from_path() {
    assert_eq!(default_project_name("/home/user/proj"), "proj");
    assert_eq!(default_project_name("proj"), "proj");
    assert_eq!(default_project_name("/home/user/proj/"), "proj");
}

#[test]
fn test_default_project_name_fallback() {
    assert_eq!(default_project_name("/"), "unnamed-project");
    assert_eq!(default_project_name(""), "unnamed-project");
}

#[test]
fn test_parse_time_duration_units() {
    assert_eq!(parse_time_duration("7d"), Some(7 * 86_400_000));
    assert_eq!(parse_time_duration("2w"), Some(2 * 604_800_000));
    assert_eq!(parse_time_duration("1mo"), Some(2_592_000_000));
}

#[test]
fn test_parse_time_duration_rejects_malformed() {
    assert_eq!(parse_time_duration(""), None);
    assert_eq!(parse_time_duration("d"), None);
    assert_eq!(parse_time_duration("10x"), None);
    assert_eq!(parse_time_duration("x7d"), None);
    assert_eq!(parse_time_duration("7d "), None);
}

#[test]
fn test_parse_time_duration_rejects_overflow() {
    assert_eq!(parse_time_duration("99999999999999999999d"), None);
}
