use pm::get_binary_name;
use pm::scan::detect_project_language;

fn exts(list: &[&str]) -> Vec<String> {
    list.iter().map(|s| s.to_string()).collect()
}

#[test]
fn test_get_binary_name() {
    assert_eq!(get_binary_name(), "pm");
}

#[test]
fn test_detect_project_language_rust() {
    // main.rs, lib.rs, config.rs
    let language = detect_project_language(&exts(&["rs", "rs", "rs"]));
    assert_eq!(language, Some("Rust".to_string()));
}

#[test]
fn test_detect_project_language_javascript() {
    // index.js, app.js, component.jsx
    let language = detect_project_language(&exts(&["js", "js", "jsx"]));
    assert_eq!(language, Some("JavaScript".to_string()));
}

#[test]
fn test_detect_project_language_typescript() {
    // index.ts, types.ts, component.tsx
    let language = detect_project_language(&exts(&["ts", "ts", "tsx"]));
    assert_eq!(language, Some("TypeScript".to_string()));
}

#[test]
fn test_detect_project_language_python() {
    // main.py, utils.py, config.py
    let language = detect_project_language(&exts(&["py", "py", "py"]));
    assert_eq!(language, Some("Python".to_string()));
}

#[test]
fn test_detect_project_language_mixed() {
    // main.rs, script.js, helper.py, another.rs, third.rs
    let language = detect_project_language(&exts(&["rs", "js", "py", "rs", "rs"]));
    assert_eq!(language, Some("Rust".to_string()));
}

#[test]
fn test_detect_project_language_none() {
    // README.md, config.txt, data.json
    let language = detect_project_language(&exts(&["md", "txt", "json"]));
    assert_eq!(language, None);
}

#[test]
fn test_detect_project_language_empty_directory() {
    let language = detect_project_language(&Vec::new());
    assert_eq!(language, None);
}

#[test]
fn test_language_priority_with_equal_counts() {
    // main.rs, script.js
    let language = detect_project_language(&exts(&["rs", "js"]));
    assert!(language.is_some());
    let lang = language.unwrap();
    assert!(lang == "Rust" || lang == "JavaScript");
}

#[test]
fn test_special_languages() {
    // test.go, example.java, demo.cpp
    let language = detect_project_language(&exts(&["go", "java", "cpp"]));
    assert!(language.is_some());
    let lang = language.unwrap();
    assert!(["Go", "Java", "C++"].contains(&lang.as_str()));
}

#[test]
fn test_language_detection_comprehensive() {
    let test_cases: Vec<(Vec<&str>, Option<&str>)> = vec![
        (vec!["rs", "rs"], Some("Rust")),
        (vec!["js", "js"], Some("JavaScript")),
        (vec!["py", "py"], Some("Python")),
        (vec!["go", "go"], Some("Go")),
        (vec!["java", "java"], Some("Java")),
        (vec!["md", "json"], None),
    ];

    for (files, expected_language) in test_cases {
        let detected_language = detect_project_language(&exts(&files));
        assert_eq!(detected_language.as_deref(), expected_language);
    }
}
