use pm::errors::PmError;
use pm::project::Project;
use pm::registry::{Config, ConfigSettings};

fn now_ms() -> i64 {
    chrono::Utc::now().timestamp_millis()
}

fn new_config() -> Config {
    Config {
        version: "1.0".to_string(),
        machine_id: "test-machine".to_string(),
        settings: ConfigSettings::default(),
        projects: Vec::new(),
        machine_metadata: Vec::new(),
    }
}

fn make_project(name: &str, path: &str, tags: Vec<&str>, description: Option<&str>) -> Project {
    Project {
        id: uuid::Uuid::new_v4().as_u128(),
        name: name.to_string(),
        path: path.to_string(),
        tags: tags.into_iter().map(|s| s.to_string()).collect(),
        description: description.map(|s| s.to_string()),
        created_at: now_ms(),
        updated_at: now_ms(),
        git_updated_at: None,
        is_git_repository: false,
    }
}

#[test]
fn test_project_lifecycle() {
    let mut config = new_config();

    let project = make_project(
        "integration-test-project",
        "test-project",
        vec!["test", "integration"],
        Some("A test project for integration testing"),
    );
    let project_id = project.id;

    config.add_project(project);
    assert!(config.get_project(project_id).is_some());

    config.record_project_access(project_id);
    let (last_accessed, access_count) = config.get_project_access_info(project_id);
    assert!(last_accessed.is_some());
    assert_eq!(access_count, 1);

    config.record_project_access(project_id);
    config.record_project_access(project_id);
    let (_, access_count) = config.get_project_access_info(project_id);
    assert_eq!(access_count, 3);

    config.remove_project(project_id).unwrap();
    assert!(config.get_project(project_id).is_none());

    let (last_accessed, access_count) = config.get_project_access_info(project_id);
    assert!(last_accessed.is_none());
    assert_eq!(access_count, 0);
}

#[test]
fn test_config_persistence_simulation() {
    let mut config = new_config();

    for i in 0..5 {
        let project = make_project(
            &format!("project-{}", i),
            &format!("project-{}", i),
            vec![&format!("tag-{}", i % 3)],
            Some(&format!("Test project {}", i)),
        );
        config.add_project(project);
    }

    assert_eq!(config.projects.len(), 5);

    let project_ids: Vec<u128> = config.projects.iter().map(|p| p.id).collect();
    for (i, &project_id) in project_ids.iter().enumerate() {
        for _ in 0..=i {
            config.record_project_access(project_id);
        }
    }

    for (i, &project_id) in project_ids.iter().enumerate() {
        let (_, access_count) = config.get_project_access_info(project_id);
        assert_eq!(access_count, (i + 1) as u32);
    }
}

#[test]
fn test_project_filtering_by_tags() {
    let mut config = new_config();

    let test_cases = vec![
        ("rust-project", vec!["rust", "backend"]),
        ("js-project", vec!["javascript", "frontend"]),
        ("fullstack-project", vec!["rust", "javascript", "fullstack"]),
        ("python-project", vec!["python", "backend"]),
        ("react-project", vec!["javascript", "react", "frontend"]),
    ];

    for (name, tags) in test_cases {
        let description = format!("Test project: {}", name);
        let project = make_project(name, name, tags, Some(&description));
        config.add_project(project);
    }

    let backend_projects: Vec<_> = config
        .projects
        .iter()
        .filter(|p| p.tags.contains(&"backend".to_string()))
        .collect();
    assert_eq!(backend_projects.len(), 2);

    let frontend_projects: Vec<_> = config
        .projects
        .iter()
        .filter(|p| p.tags.contains(&"frontend".to_string()))
        .collect();
    assert_eq!(frontend_projects.len(), 2);

    let js_or_python_projects: Vec<_> = config
        .projects
        .iter()
        .filter(|p| {
            p.tags.contains(&"javascript".to_string()) || p.tags.contains(&"python".to_string())
        })
        .collect();
    assert_eq!(js_or_python_projects.len(), 4);

    let js_and_frontend_projects: Vec<_> = config
        .projects
        .iter()
        .filter(|p| {
            p.tags.contains(&"javascript".to_string()) && p.tags.contains(&"frontend".to_string())
        })
        .collect();
    assert_eq!(js_and_frontend_projects.len(), 2);
}

#[test]
fn test_machine_metadata_isolation() {
    let mut config = new_config();

    let project = make_project("multi-machine-project", "project", vec!["test"], None);
    let project_id = project.id;
    config.add_project(project);

    config.record_project_access(project_id);
    config.record_project_access(project_id);

    let (last_accessed, access_count) = config.get_project_access_info(project_id);
    assert!(last_accessed.is_some());
    assert_eq!(access_count, 2);

    let total_count = config.get_total_access_count(project_id);
    assert_eq!(total_count, 2);
}

#[test]
fn test_config_settings_default_values() {
    let settings = ConfigSettings::default();

    assert_eq!(settings.show_git_status, false);
    assert_eq!(settings.recent_projects_limit, 0);
}

#[test]
fn test_concurrent_project_access_simulation() {
    let mut config = new_config();

    let mut project_ids = Vec::new();
    for i in 0..10 {
        let project = make_project(
            &format!("concurrent-project-{}", i),
            &format!("project-{}", i),
            vec!["concurrent"],
            Some(&format!("Concurrent test project {}", i)),
        );
        project_ids.push(project.id);
        config.add_project(project);
    }

    for (i, &project_id) in project_ids.iter().enumerate() {
        for _ in 0..=i {
            config.record_project_access(project_id);
        }
    }

    for (i, &project_id) in project_ids.iter().enumerate() {
        let (last_accessed, access_count) = config.get_project_access_info(project_id);
        assert!(last_accessed.is_some());
        assert_eq!(access_count, (i + 1) as u32);
    }

    let total_accesses: u32 = project_ids
        .iter()
        .map(|&id| config.get_total_access_count(id))
        .sum();
    let expected_total = (0..10).map(|i| i + 1).sum::<usize>() as u32;
    assert_eq!(total_accesses, expected_total);
}

#[test]
fn test_remove_project_not_found() {
    let mut config = new_config();
    let missing = uuid::Uuid::new_v4().as_u128();
    assert_eq!(config.remove_project(missing), Err(PmError::NotFound));
}

#[test]
fn test_add_project_checked_duplicate_name() {
    let mut config = new_config();
    config.add_project(make_project("alpha", "path-a", vec![], None));
    let dup = make_project("alpha", "path-b", vec![], None);
    assert_eq!(config.add_project_checked(dup), Err(PmError::DuplicateProject));
    assert_eq!(config.projects.len(), 1);
}

#[test]
fn test_add_project_checked_duplicate_path() {
    let mut config = new_config();
    config.add_project(make_project("alpha", "path-a", vec![], None));
    let dup = make_project("beta", "path-a", vec![], None);
    assert_eq!(config.add_project_checked(dup), Err(PmError::DuplicateProject));
    assert_eq!(config.projects.len(), 1);
}

#[test]
fn test_add_project_checked_ok() {
    let mut config = new_config();
    assert!(config
        .add_project_checked(make_project("alpha", "path-a", vec![], None))
        .is_ok());
    assert!(config
        .add_project_checked(make_project("beta", "path-b", vec![], None))
        .is_ok());
    assert_eq!(config.projects.len(), 2);
}

#[test]
fn test_total_access_count_across_machines() {
    let mut config = new_config();
    let project = make_project("shared", "shared-path", vec![], None);
    let project_id = project.id;
    config.add_project(project);

    config.record_project_access(project_id);
    config.record_project_access(project_id);

    config.machine_id = "other-machine".to_string();
    config.record_project_access(project_id);

    let (_, here) = config.get_project_access_info(project_id);
    assert_eq!(here, 1);
    assert_eq!(config.get_total_access_count(project_id), 3);
}

#[test]
fn test_find_project_by_name_exact() {
    let mut config = new_config();
    config.add_project(make_project("exact-name", "exact-path", vec![], None));
    assert!(config.find_project_by_name("exact-name").is_some());
    assert!(config.find_project_by_name("Exact-Name").is_none());
    assert!(config.find_project_by_name("exact").is_none());
}

#[test]
fn test_find_project_by_path_exact() {
    let mut config = new_config();
    config.add_project(make_project("one", "/srv/one", vec![], None));
    config.add_project(make_project("two", "/srv/two", vec![], None));
    assert_eq!(config.find_project_by_path("/srv/two").unwrap().name, "two");
    assert!(config.find_project_by_path("/srv/three").is_none());
}

#[test]
fn test_error_descriptions() {
    assert_eq!(PmError::DuplicateProject.describe(), "duplicate project");
    assert_eq!(PmError::NotFound.describe(), "not found");
    assert_eq!(PmError::PathInvalid.describe(), "invalid path");
    assert_eq!(PmError::IoError.describe(), "io error");
}

#[test]
fn test_project_create_sets_fields() {
    let p = Project::create(
        "created".to_string(),
        "created-path".to_string(),
        vec!["a".to_string()],
        None,
        Some(7),
        true,
    );
    assert_eq!(p.name, "created");
    assert_eq!(p.path, "created-path");
    assert_eq!(p.tags, vec!["a".to_string()]);
    assert_eq!(p.description, None);
    assert_eq!(p.git_updated_at, Some(7));
    assert!(p.is_git_repository);
    assert_eq!(p.created_at, p.updated_at);
}
