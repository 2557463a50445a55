use td::date::Date;
use td::task::{extract_tags, Task};

fn ymd(y: i32, m: u32, d: u32) -> Date {
    Date::from_ymd_opt(y, m, d).unwrap()
}

#[test]
fn test_parse_simple_task() {
    let task = Task::parse(1, "Buy groceries");
    assert_eq!(task.description, "Buy groceries");
    assert!(!task.is_completed);
    assert!(task.priority.is_none());
}

#[test]
fn test_parse_task_with_priority() {
    let task = Task::parse(1, "(A) Important task");
    assert_eq!(task.priority, Some('A'));
    assert_eq!(task.description, "Important task");
}

#[test]
fn test_parse_task_with_date() {
    let task = Task::parse(1, "2024-01-15 Task with date");
    assert_eq!(task.creation_date, Some(Date::from_ymd_opt(2024, 1, 15).unwrap()));
}

#[test]
fn test_parse_completed_task() {
    let task = Task::parse(1, "x 2024-01-15 2024-01-10 Completed task");
    assert!(task.is_completed);
    assert_eq!(task.completion_date, Some(Date::from_ymd_opt(2024, 1, 15).unwrap()));
    assert_eq!(task.creation_date, Some(Date::from_ymd_opt(2024, 1, 10).unwrap()));
}

#[test]
fn test_parse_task_with_projects_and_contexts() {
    let task = Task::parse(1, "Call mom +family +urgent @phone @home");
    assert!(task.has_project("family"));
    assert!(task.has_project("urgent"));
    assert!(task.has_context("phone"));
    assert!(task.has_context("home"));
}

#[test]
fn test_parse_tags() {
    let task = Task::parse(1, "Pay rent due:2026-07-01 rec:1m");
    assert_eq!(task.due(), Some(ymd(2026, 7, 1)));
    assert_eq!(task.recurrence(), Some("1m"));
    assert_eq!(task.tag("rec"), Some("1m"));
    assert_eq!(task.description, "Pay rent due:2026-07-01 rec:1m");
}

#[test]
fn test_next_occurrence_strict_uses_due_date() {
    let task = Task::parse(1, "(A) Pay rent due:2020-01-15 rec:+1m");
    let next = task.next_occurrence(ymd(2020, 1, 20)).unwrap();
    assert_eq!(next.due(), Some(ymd(2020, 2, 15)));
    assert_eq!(next.creation_date, Some(ymd(2020, 1, 20)));
    assert_eq!(next.priority, Some('A'));
    assert!(!next.is_completed);
}

#[test]
fn test_next_occurrence_non_strict_uses_completion_date() {
    let task = Task::parse(1, "Water plants due:2020-01-15 rec:3d");
    let next = task.next_occurrence(ymd(2020, 1, 20)).unwrap();
    assert_eq!(next.due(), Some(ymd(2020, 1, 23)));
    assert_eq!(next.creation_date, Some(ymd(2020, 1, 20)));
}

#[test]
fn test_next_occurrence_units() {
    let mk = |spec: &str| {
        Task::parse(1, &format!("T due:2020-01-15 rec:+{}", spec))
            .next_occurrence(ymd(2020, 6, 1))
            .unwrap()
            .due()
            .unwrap()
    };
    assert_eq!(mk("2d"), ymd(2020, 1, 17));
    assert_eq!(mk("2w"), ymd(2020, 1, 29));
    assert_eq!(mk("1y"), ymd(2021, 1, 15));
}

#[test]
fn test_no_recurrence_without_rec_or_due() {
    assert!(Task::parse(1, "Task rec:1w").next_occurrence(ymd(2020, 1, 1)).is_none());
    assert!(Task::parse(1, "Task due:2020-01-01").next_occurrence(ymd(2020, 1, 1)).is_none());
    assert!(Task::parse(1, "Task due:2020-01-01 rec:soon").next_occurrence(ymd(2020, 1, 1)).is_none());
}

#[test]
fn test_task_to_string_roundtrip() {
    let original = "(A) 2024-01-15 Call mom +family @phone";
    let task = Task::parse(1, original);
    let output = task.to_string();
    assert!(output.contains("(A)"));
    assert!(output.contains("2024-01-15"));
    assert!(output.contains("Call mom"));
}

#[test]
fn parse_keeps_raw_trimmed_and_reads_every_part() {
    let task = Task::parse(7, "  x 2024-02-29 2024-01-01 Fix +home @desk key:val  ");
    assert_eq!(task.id, 7);
    assert_eq!(task.raw, "x 2024-02-29 2024-01-01 Fix +home @desk key:val");
    assert!(task.is_completed);
    assert_eq!(task.completion_date, Some(ymd(2024, 2, 29)));
    assert_eq!(task.creation_date, Some(ymd(2024, 1, 1)));
    assert_eq!(task.description, "Fix +home @desk key:val");
    assert_eq!(task.projects, vec!["home".to_string()]);
    assert_eq!(task.contexts, vec!["desk".to_string()]);
    assert_eq!(task.tags, vec![("key".to_string(), "val".to_string())]);
}

#[test]
fn parse_drops_a_date_prefix_that_names_no_day() {
    let task = Task::parse(1, "2024-02-30 Impossible day");
    assert_eq!(task.creation_date, None);
    assert_eq!(task.description, "Impossible day");
}

#[test]
fn parse_needs_white_space_after_each_prefix() {
    let task = Task::parse(1, "(A)Task");
    assert_eq!(task.priority, None);
    assert_eq!(task.description, "(A)Task");
    let task = Task::parse(1, "xylophone lesson");
    assert!(!task.is_completed);
    let task = Task::parse(1, "(a) lower case");
    assert_eq!(task.priority, None);
}

#[test]
fn render_of_parsed_line_parses_back_to_the_same_task() {
    for line in [
        "(A) 2024-01-15 Call mom +family @phone",
        "x 2024-01-14 2024-01-10 Completed task +project @context",
        "x 2024-01-14 Done without creation date",
        "Plain words only",
        "2023-12-31 Dated task due:2024-01-05",
    ] {
        let t = Task::parse(3, line);
        let again = Task::parse(3, &t.to_string());
        assert_eq!(t.to_string(), line);
        assert_eq!(again.description, t.description);
        assert_eq!(again.priority, t.priority);
        assert_eq!(again.creation_date, t.creation_date);
        assert_eq!(again.completion_date, t.completion_date);
        assert_eq!(again.is_completed, t.is_completed);
        assert_eq!(again.projects, t.projects);
        assert_eq!(again.contexts, t.contexts);
        assert_eq!(again.tags, t.tags);
    }
}

#[test]
fn completed_task_drops_its_priority_when_written() {
    let t = Task::parse(1, "x (B) Finished");
    assert_eq!(t.priority, Some('B'));
    assert_eq!(t.to_string(), "x Finished");
}

#[test]
fn new_task_reads_its_description() {
    let t = Task::new("Write report +work @office due:2024-03-01");
    assert_eq!(t.id, 0);
    assert_eq!(t.raw, "");
    assert_eq!(t.projects, vec!["work".to_string()]);
    assert_eq!(t.contexts, vec!["office".to_string()]);
    assert_eq!(t.due(), Some(ymd(2024, 3, 1)));
    assert_eq!(t.to_string(), "Write report +work @office due:2024-03-01");
}

#[test]
fn mark_done_on_sets_completion() {
    let mut t = Task::parse(1, "(A) Chore");
    t.mark_done_on(ymd(2024, 5, 6));
    assert!(t.is_completed);
    assert_eq!(t.completion_date, Some(ymd(2024, 5, 6)));
    assert_eq!(t.to_string(), "x 2024-05-06 Chore");
}

#[test]
fn has_project_ignores_ascii_case() {
    let t = Task::parse(1, "Task +Work @Home");
    assert!(t.has_project("work"));
    assert!(t.has_context("HOME"));
    assert!(!t.has_project("wor"));
}

#[test]
fn extract_tags_reads_key_value_pairs_in_order() {
    let tags = extract_tags("a:1 b:two c: d:x:y");
    assert_eq!(
        tags,
        vec![
            ("a".to_string(), "1".to_string()),
            ("b".to_string(), "two".to_string()),
            ("d".to_string(), "x:y".to_string()),
        ]
    );
}

#[test]
fn next_occurrence_month_end_is_clamped() {
    let t = Task::parse(1, "Bill due:2024-01-31 rec:+1m");
    let next = t.next_occurrence(ymd(2024, 1, 31)).unwrap();
    assert_eq!(next.due(), Some(ymd(2024, 2, 29)));
    assert_eq!(next.description, "Bill due:2024-02-29 rec:+1m");
}

#[test]
fn next_occurrence_overflowing_year_count_is_none() {
    let t = Task::parse(1, "Far due:2020-01-01 rec:+4000000000y");
    assert!(t.next_occurrence(ymd(2020, 1, 1)).is_none());
}

#[test]
fn recurrence_marker_is_seen_in_description() {
    let t = Task::parse(1, "Broken rec: 1w");
    assert!(t.recurrence().is_none());
    assert!(t.has_recurrence_marker());
}

#[test]
fn non_ascii_digits_form_a_date_prefix_that_names_no_day() {
    // Fullwidth digits are decimal digits, so the prefix is read, but chrono
    // names no date with them: the prefix is dropped.
    let task = Task::parse(1, "２０２４-０１-０１ Task");
    assert_eq!(task.creation_date, None);
    assert_eq!(task.description, "Task");
}

#[test]
fn due_rewrite_needs_a_word_boundary() {
    let t = Task::parse(1, "Task édue:2020-01-01 due:2020-01-15 rec:+1d");
    let next = t.next_occurrence(ymd(2020, 1, 15)).unwrap();
    assert_eq!(next.description, "Task édue:2020-01-01 due:2020-01-16 rec:+1d");
    let t = Task::parse(1, "Task overdue:x due:2020-01-15 rec:+1d");
    let next = t.next_occurrence(ymd(2020, 1, 15)).unwrap();
    assert_eq!(next.description, "Task overdue:x due:2020-01-16 rec:+1d");
}

#[test]
fn open_task_reads_back_when_its_description_starts_plainly() {
    let t = Task::parse(2, "  (C)   2024-02-30 Fix sink @home ");
    assert_eq!(t.creation_date, None);
    assert_eq!(t.description, "Fix sink @home");
    let again = Task::parse(2, &t.to_string());
    assert_eq!(t.to_string(), "(C) Fix sink @home");
    assert_eq!(again.priority, Some('C'));
    assert_eq!(again.description, t.description);
    assert_eq!(again.contexts, t.contexts);
}
