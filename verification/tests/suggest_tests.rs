use pm::project::Project;
use pm::registry::{Config, ConfigSettings};
use pm::suggest::{name_is_similar, suggest_similar_projects};

fn new_config() -> Config {
    Config {
        version: "1.0".to_string(),
        machine_id: "suggest-machine".to_string(),
        settings: ConfigSettings::default(),
        projects: Vec::new(),
        machine_metadata: Vec::new(),
    }
}

fn named_project(name: &str, tags: Vec<&str>) -> Project {
    Project {
        id: uuid::Uuid::new_v4().as_u128(),
        name: name.to_string(),
        path: format!("path-{}", name),
        tags: tags.into_iter().map(|s| s.to_string()).collect(),
        description: None,
        created_at: 1,
        updated_at: 1,
        git_updated_at: None,
        is_git_repository: false,
    }
}

#[test]
fn test_missing_name_gets_prefix_suggestion() {
    let mut config = new_config();
    config.add_project(named_project("alpha", vec![]));
    config.add_project(named_project("beta", vec!["x"]));

    assert!(config.find_project_by_name("nonexistent").is_none());

    let suggestions = suggest_similar_projects(&config, "alpine");
    assert_eq!(suggestions, vec!["alpha".to_string()]);
}

#[test]
fn test_suggestions_case_insensitive_substring() {
    let mut config = new_config();
    config.add_project(named_project("FOO-Project", vec![]));
    config.add_project(named_project("other", vec![]));

    let suggestions = suggest_similar_projects(&config, "foo");
    assert_eq!(suggestions, vec!["FOO-Project".to_string()]);
}

#[test]
fn test_target_containing_candidate_matches() {
    assert!(name_is_similar("api", "my-api-server"));
}

#[test]
fn test_prefix_rule_uses_first_three_characters() {
    assert!(name_is_similar("Market", "marble"));
    assert!(!name_is_similar("market", "maple"));
}

#[test]
fn test_short_names_compare_on_full_length() {
    assert!(name_is_similar("ab", "ab-service"));
}
