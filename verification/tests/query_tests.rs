use pm::project::Project;
use pm::query::{get_filtered_project_data, ProjectData};
use pm::registry::{Config, ConfigSettings};

const DAY_MS: i64 = 86_400_000;

fn new_config() -> Config {
    Config {
        version: "1.0".to_string(),
        machine_id: "query-machine".to_string(),
        settings: ConfigSettings::default(),
        projects: Vec::new(),
        machine_metadata: Vec::new(),
    }
}

fn project_with_times(
    name: &str,
    tags: Vec<&str>,
    created_at: i64,
    updated_at: i64,
    git_updated_at: Option<i64>,
) -> Project {
    Project {
        id: uuid::Uuid::new_v4().as_u128(),
        name: name.to_string(),
        path: format!("path-{}", name),
        tags: tags.into_iter().map(|s| s.to_string()).collect(),
        description: None,
        created_at,
        updated_at,
        git_updated_at,
        is_git_repository: false,
    }
}

fn names(rows: &[ProjectData]) -> Vec<String> {
    rows.iter().map(|r| r.project.name.clone()).collect()
}

#[test]
fn test_sort_orders_git_time_descending_none_last() {
    let mut config = new_config();
    let t1: i64 = 1_000;
    let t3: i64 = 3_000;
    config.add_project(project_with_times("has-t3", vec![], 10, 20, Some(t3)));
    config.add_project(project_with_times("has-none", vec![], 10, 20, None));
    config.add_project(project_with_times("has-t1", vec![], 10, 20, Some(t1)));

    let rows = get_filtered_project_data(&config, &Vec::new(), &Vec::new(), &None, 10_000, None);
    assert_eq!(
        names(&rows),
        vec![
            "has-t3".to_string(),
            "has-t1".to_string(),
            "has-none".to_string()
        ]
    );
}

#[test]
fn test_sort_tie_break_updated_then_created() {
    let mut config = new_config();
    config.add_project(project_with_times("older", vec![], 5, 100, Some(50)));
    config.add_project(project_with_times("newer-updated", vec![], 5, 200, Some(50)));
    config.add_project(project_with_times("newer-created", vec![], 9, 100, Some(50)));

    let rows = get_filtered_project_data(&config, &Vec::new(), &Vec::new(), &None, 10_000, None);
    assert_eq!(
        names(&rows),
        vec![
            "newer-updated".to_string(),
            "newer-created".to_string(),
            "older".to_string()
        ]
    );
}

#[test]
fn test_and_or_tag_semantics() {
    let mut config = new_config();
    config.add_project(project_with_times("rust-backend", vec!["rust", "backend"], 1, 1, None));
    config.add_project(project_with_times(
        "js-frontend",
        vec!["javascript", "frontend"],
        1,
        1,
        None,
    ));
    config.add_project(project_with_times(
        "fullstack",
        vec!["rust", "javascript", "fullstack"],
        1,
        1,
        None,
    ));
    config.add_project(project_with_times("python-backend", vec!["python", "backend"], 1, 1, None));

    let and_rust = vec!["rust".to_string()];
    let rows = get_filtered_project_data(&config, &and_rust, &Vec::new(), &None, 10_000, None);
    assert_eq!(rows.len(), 2);

    let any_js_py = vec!["javascript".to_string(), "python".to_string()];
    let rows = get_filtered_project_data(&config, &Vec::new(), &any_js_py, &None, 10_000, None);
    assert_eq!(rows.len(), 3);
}

#[test]
fn test_query_idempotence() {
    let mut config = new_config();
    for i in 0..6 {
        config.add_project(project_with_times(
            &format!("p{}", i),
            vec!["t"],
            i,
            100 - i,
            if i % 2 == 0 { Some(i * 7) } else { None },
        ));
        let id = config.projects[config.projects.len() - 1].id;
        config.record_project_access(id);
    }
    let and_tags = vec!["t".to_string()];
    let now: i64 = 1_000_000;
    let first = get_filtered_project_data(&config, &and_tags, &Vec::new(), &None, now, Some(4));
    let second = get_filtered_project_data(&config, &and_tags, &Vec::new(), &None, now, Some(4));
    assert_eq!(names(&first), names(&second));
    let firsts: Vec<(Option<i64>, u32)> =
        first.iter().map(|r| (r.last_accessed, r.access_count)).collect();
    let seconds: Vec<(Option<i64>, u32)> =
        second.iter().map(|r| (r.last_accessed, r.access_count)).collect();
    assert_eq!(firsts, seconds);
}

#[test]
fn test_recency_filter_window() {
    let mut config = new_config();
    let now: i64 = 100 * DAY_MS;
    config.add_project(project_with_times("fresh", vec![], 1, now - 3 * DAY_MS, None));
    config.add_project(project_with_times("stale", vec![], 1, now - 10 * DAY_MS, None));

    let recent = Some("7d".to_string());
    let rows = get_filtered_project_data(&config, &Vec::new(), &Vec::new(), &recent, now, None);
    assert_eq!(names(&rows), vec!["fresh".to_string()]);
}

#[test]
fn test_recency_filter_uses_git_time_when_present() {
    let mut config = new_config();
    let now: i64 = 100 * DAY_MS;
    config.add_project(project_with_times(
        "git-fresh",
        vec![],
        1,
        now - 20 * DAY_MS,
        Some(now - DAY_MS),
    ));
    config.add_project(project_with_times(
        "git-stale",
        vec![],
        1,
        now - DAY_MS,
        Some(now - 20 * DAY_MS),
    ));

    let recent = Some("7d".to_string());
    let rows = get_filtered_project_data(&config, &Vec::new(), &Vec::new(), &recent, now, None);
    assert_eq!(names(&rows), vec!["git-fresh".to_string()]);
}

#[test]
fn test_recency_parse_failure_falls_back_to_thirty_days() {
    let mut config = new_config();
    let now: i64 = 100 * DAY_MS;
    config.add_project(project_with_times("young", vec![], 1, now - 20 * DAY_MS, None));
    config.add_project(project_with_times("old", vec![], 1, now - 40 * DAY_MS, None));

    let recent = Some("not-a-duration".to_string());
    let rows = get_filtered_project_data(&config, &Vec::new(), &Vec::new(), &recent, now, None);
    assert_eq!(names(&rows), vec!["young".to_string()]);
}

#[test]
fn test_limit_truncates_after_sort() {
    let mut config = new_config();
    config.add_project(project_with_times("low", vec![], 1, 1, Some(10)));
    config.add_project(project_with_times("high", vec![], 1, 1, Some(30)));
    config.add_project(project_with_times("mid", vec![], 1, 1, Some(20)));

    let rows = get_filtered_project_data(&config, &Vec::new(), &Vec::new(), &None, 1_000, Some(2));
    assert_eq!(names(&rows), vec!["high".to_string(), "mid".to_string()]);
}

#[test]
fn test_query_decorates_with_access_info() {
    let mut config = new_config();
    let p = project_with_times("tracked", vec![], 1, 1, None);
    let id = p.id;
    config.add_project(p);
    config.record_project_access(id);
    config.record_project_access(id);

    let rows = get_filtered_project_data(&config, &Vec::new(), &Vec::new(), &None, 1_000, None);
    assert_eq!(rows.len(), 1);
    assert_eq!(rows[0].access_count, 2);
    assert!(rows[0].last_accessed.is_some());
}
