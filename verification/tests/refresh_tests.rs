use pm::project::Project;
use pm::refresh::needs_git_refresh;
use pm::registry::{Config, ConfigSettings};

const HOUR_MS: i64 = 3_600_000;

fn base_registry() -> Config {
    let mut config = Config {
        version: "1.0".to_string(),
        machine_id: "refresh-machine".to_string(),
        settings: ConfigSettings::default(),
        projects: Vec::new(),
        machine_metadata: Vec::new(),
    };
    config.add_project(Project {
        id: 42,
        name: "raced".to_string(),
        path: "raced-path".to_string(),
        tags: vec!["keep".to_string()],
        description: Some("raced project".to_string()),
        created_at: 1,
        updated_at: 2,
        git_updated_at: None,
        is_git_repository: true,
    });
    config.add_project(Project {
        id: 7,
        name: "bystander".to_string(),
        path: "bystander-path".to_string(),
        tags: vec![],
        description: None,
        created_at: 3,
        updated_at: 4,
        git_updated_at: Some(99),
        is_git_repository: false,
    });
    config.record_project_access(7);
    config
}

fn stamped_project(git_updated_at: Option<i64>) -> Project {
    Project {
        id: 1,
        name: "p".to_string(),
        path: "p".to_string(),
        tags: vec![],
        description: None,
        created_at: 0,
        updated_at: 0,
        git_updated_at,
        is_git_repository: true,
    }
}

#[test]
fn test_needs_git_refresh_when_absent() {
    let now: i64 = 1_000_000_000_000;
    assert!(needs_git_refresh(&stamped_project(None), now));
}

#[test]
fn test_needs_git_refresh_when_old() {
    let now: i64 = 1_000_000_000_000;
    assert!(needs_git_refresh(&stamped_project(Some(now - 25 * HOUR_MS)), now));
    assert!(needs_git_refresh(&stamped_project(Some(now - 24 * HOUR_MS)), now));
}

#[test]
fn test_no_refresh_when_fresh() {
    let now: i64 = 1_000_000_000_000;
    assert!(!needs_git_refresh(&stamped_project(Some(now - HOUR_MS)), now));
}

#[test]
fn test_refresh_race_last_writer_wins() {
    // Two refresh units race on project 42. Each loads its own snapshot of
    // the persisted store before either write lands, so the second save is
    // derived from the pre-first snapshot and silently discards the first
    // update.
    let t1: i64 = 111_111;
    let t2: i64 = 222_222;

    let mut unit_a_snapshot = base_registry();
    let mut unit_b_snapshot = base_registry();

    assert!(unit_a_snapshot.set_project_git_updated_at(42, t1));
    let _persisted_after_a = unit_a_snapshot;

    assert!(unit_b_snapshot.set_project_git_updated_at(42, t2));
    let persisted = unit_b_snapshot;

    // The surviving timestamp is one of the two candidate values, exactly
    // the last writer's, never a merged one.
    let raced = persisted.get_project(42).unwrap();
    assert_eq!(raced.git_updated_at, Some(t2));
    assert!(raced.git_updated_at == Some(t1) || raced.git_updated_at == Some(t2));

    // Nothing else in the registry is lost.
    assert_eq!(raced.name, "raced");
    assert_eq!(raced.tags, vec!["keep".to_string()]);
    let bystander = persisted.get_project(7).unwrap();
    assert_eq!(bystander.git_updated_at, Some(99));
    assert_eq!(bystander.name, "bystander");
    let (last, count) = persisted.get_project_access_info(7);
    assert!(last.is_some());
    assert_eq!(count, 1);
}

#[test]
fn test_sequential_refreshes_absorb() {
    let mut store = base_registry();
    assert!(store.set_project_git_updated_at(42, 5));
    assert!(store.set_project_git_updated_at(42, 9));
    assert_eq!(store.get_project(42).unwrap().git_updated_at, Some(9));
}

#[test]
fn test_refresh_unknown_id_is_noop() {
    let mut store = base_registry();
    assert!(!store.set_project_git_updated_at(1234, 5));
    assert_eq!(store.projects.len(), 2);
}
