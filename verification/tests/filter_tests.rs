use td::filter::{apply_filter, Filter, FilterTerm};
use td::task::Task;

fn sample_tasks() -> Vec<Task> {
    vec![
        Task::parse(1, "(A) Task one +work @office"),
        Task::parse(2, "(B) Task two +home @phone"),
        Task::parse(3, "(A) Task three +work +urgent @home"),
        Task::parse(4, "Task four +personal"),
    ]
}

#[test]
fn test_filter_by_project() {
    let tasks = sample_tasks();
    let filter = Filter::new().with_projects(vec!["work".to_string()]);
    let filtered = apply_filter(&tasks, &filter);
    assert_eq!(filtered.len(), 2);
}

#[test]
fn test_filter_by_context() {
    let tasks = sample_tasks();
    let filter = Filter::new().with_contexts(vec!["office".to_string()]);
    let filtered = apply_filter(&tasks, &filter);
    assert_eq!(filtered.len(), 1);
}

#[test]
fn test_filter_by_priority_single() {
    let tasks = sample_tasks();
    let filter = Filter::new().with_priorities(vec!['A']);
    let filtered = apply_filter(&tasks, &filter);
    assert_eq!(filtered.len(), 2);
}

#[test]
fn test_filter_by_priority_range() {
    let tasks = sample_tasks();
    let filter = Filter::new().with_priorities(vec!['A', 'B']);
    let filtered = apply_filter(&tasks, &filter);
    assert_eq!(filtered.len(), 3);
}

#[test]
fn test_filter_combined() {
    let tasks = sample_tasks();
    let filter = Filter::new()
        .with_projects(vec!["work".to_string()])
        .with_priorities(vec!['A']);
    let filtered = apply_filter(&tasks, &filter);
    assert_eq!(filtered.len(), 2);
}

#[test]
fn test_parse_term_project() {
    assert!(matches!(Filter::parse_term("+work"), FilterTerm::Project(p) if p == "work"));
}

#[test]
fn test_parse_term_priority_range() {
    if let FilterTerm::Priority(p) = Filter::parse_term("A-C") {
        assert_eq!(p, vec!['A', 'B', 'C']);
    } else {
        panic!("Expected priority range");
    }
}

#[test]
fn parse_term_kinds() {
    assert!(matches!(Filter::parse_term("@home"), FilterTerm::Context(c) if c == "home"));
    assert!(matches!(Filter::parse_term("B"), FilterTerm::Priority(p) if p == vec!['B']));
    assert!(matches!(Filter::parse_term("C-A"), FilterTerm::Text(t) if t == "C-A"));
    assert!(matches!(Filter::parse_term("a-c"), FilterTerm::Text(t) if t == "a-c"));
    assert!(matches!(Filter::parse_term("b"), FilterTerm::Ambiguous(t) if t == "b"));
    assert!(matches!(Filter::parse_term("work"), FilterTerm::Ambiguous(t) if t == "work"));
    assert!(matches!(Filter::parse_term("é"), FilterTerm::Ambiguous(t) if t == "é"));
    assert!(matches!(Filter::parse_term("+"), FilterTerm::Project(p) if p.is_empty()));
}

#[test]
fn projects_are_alternatives_and_kinds_must_all_hold() {
    let tasks = sample_tasks();
    let filter = Filter::new()
        .with_projects(vec!["home".to_string(), "personal".to_string()])
        .with_contexts(vec!["phone".to_string()]);
    let filtered = apply_filter(&tasks, &filter);
    assert_eq!(filtered.len(), 1);
    assert_eq!(filtered[0].id, 2);
}

#[test]
fn completed_tasks_are_hidden_unless_included() {
    let tasks = vec![Task::parse(1, "x 2024-01-01 Done +work"), Task::parse(2, "Open +work")];
    let filter = Filter::new().with_projects(vec!["WORK".to_string()]);
    assert_eq!(apply_filter(&tasks, &filter).len(), 1);
    let filter = Filter::new().with_projects(vec!["work".to_string()]).include_completed();
    assert_eq!(apply_filter(&tasks, &filter).len(), 2);
}

#[test]
fn text_filter_ignores_case() {
    let tasks = sample_tasks();
    let filter = Filter::new().with_text("TASK T".to_string());
    let filtered = apply_filter(&tasks, &filter);
    let ids: Vec<usize> = filtered.iter().map(|t| t.id).collect();
    assert_eq!(ids, vec![2, 3]);
    assert!(Filter::new().matches(&tasks[3]));
}

#[test]
fn text_filter_lowercases_beyond_ascii() {
    let tasks = vec![Task::parse(1, "Visit the ÉCOLE"), Task::parse(2, "Visit the park")];
    let filter = Filter::new().with_text("école".to_string());
    let filtered = apply_filter(&tasks, &filter);
    assert_eq!(filtered.len(), 1);
    assert_eq!(filtered[0].id, 1);
}
