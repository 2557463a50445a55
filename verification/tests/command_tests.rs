use td::commands::add::add;
use td::commands::archive::archive;
use td::commands::delete::delete;
use td::commands::done::{done, RecIssue};
use td::commands::list::{completed_count, list, ListOutcome};
use td::commands::modify::{append, prepend, priority, replace};
use td::commands::update::{format_task_with_desc, time_update, update};
use td::date::Date;
use td::task::Task;
use td::time_context::TimeContext;
use td::todo_file::TodoFile;

fn ymd(y: i32, m: u32, d: u32) -> Date {
    Date::from_ymd_opt(y, m, d).unwrap()
}

fn file(content: &str) -> TodoFile {
    TodoFile::load("todo.txt", content)
}

fn terms(v: &[&str]) -> Vec<String> {
    v.iter().map(|s| s.to_string()).collect()
}

fn listed(todo: &TodoFile, t: &[&str], all: bool) -> Vec<String> {
    match list(todo, &terms(t), all) {
        ListOutcome::Matches(ps) => ps.iter().map(|&i| todo.tasks[i].description.clone()).collect(),
        _ => Vec::new(),
    }
}

#[test]
fn test_add_task() {
    let mut todo = file("");
    let line = add(&mut todo, "Buy groceries +shopping @errands", ymd(2024, 6, 1), true);
    assert_eq!(line, "2024-06-01 Buy groceries +shopping @errands");
    assert_eq!(todo.save(), "2024-06-01 Buy groceries +shopping @errands\n");
    assert_eq!(todo.tasks[0].id, 1);
    assert_eq!(todo.tasks[0].creation_date, Some(ymd(2024, 6, 1)));
    assert!(todo.tasks[0].has_project("shopping"));
}

#[test]
fn test_add_task_with_priority() {
    let mut todo = file("Old\n");
    add(&mut todo, "(A) Important task", ymd(2024, 6, 1), true);
    let content = todo.save();
    assert_eq!(content, "Old\n(A) 2024-06-01 Important task\n");
    assert!(content.contains("(A)"));
    assert!(content.contains("Important task"));
    assert_eq!(todo.tasks[1].id, 2);
}

#[test]
fn test_list_empty() {
    assert!(matches!(list(&file(""), &[], false), ListOutcome::NoTasks));
}

#[test]
fn test_list_tasks() {
    let todo = file("(A) Task one\n(B) Task two\n");
    assert_eq!(listed(&todo, &[], false), vec!["Task one", "Task two"]);
}

#[test]
fn test_list_filter_by_priority() {
    let todo = file("(A) Task one\n(B) Task two\n(C) Task three\n");
    assert_eq!(listed(&todo, &["A"], false), vec!["Task one"]);
}

#[test]
fn test_list_filter_by_priority_range() {
    let todo = file("(A) Task one\n(B) Task two\n(C) Task three\n");
    assert_eq!(listed(&todo, &["A-B"], false), vec!["Task one", "Task two"]);
}

#[test]
fn test_list_filter_by_project() {
    let todo = file("Task one +work\nTask two +home\nTask three +work\n");
    assert_eq!(listed(&todo, &["+work"], false), vec!["Task one +work", "Task three +work"]);
    assert_eq!(listed(&todo, &["work"], false), vec!["Task one +work", "Task three +work"]);
}

#[test]
fn test_list_filter_by_context() {
    let todo = file("Task one @phone\nTask two @email\nTask three @phone\n");
    assert_eq!(listed(&todo, &["@phone"], false), vec!["Task one @phone", "Task three @phone"]);
    assert_eq!(listed(&todo, &["phone"], false), vec!["Task one @phone", "Task three @phone"]);
}

#[test]
fn list_orders_by_priority_then_id_and_hides_completed() {
    let todo = file("No priority\n(C) Third\nx 2024-01-01 Done\n(A) First\n");
    assert_eq!(listed(&todo, &[], false), vec!["First", "Third", "No priority"]);
    assert_eq!(listed(&todo, &[], true), vec!["First", "Third", "No priority", "Done"]);
    assert!(matches!(list(&todo, &terms(&["Z"]), false), ListOutcome::NoMatches));
}

#[test]
fn test_done_single_task() {
    let mut todo = file("Task one\nTask two\n");
    let rep = done(&mut todo, &[1], ymd(2024, 3, 4)).ok().unwrap();
    assert_eq!(rep.marked, vec![1]);
    assert_eq!(todo.save(), "x 2024-03-04 Task one\nTask two\n");
}

#[test]
fn test_done_multiple_tasks() {
    let mut todo = file("Task one\nTask two\nTask three\n");
    let rep = done(&mut todo, &[1, 3], ymd(2024, 3, 4)).ok().unwrap();
    assert_eq!(rep.marked, vec![1, 3]);
    assert!(todo.tasks[0].is_completed && !todo.tasks[1].is_completed && todo.tasks[2].is_completed);
}

#[test]
fn test_done_invalid_id() {
    let mut todo = file("Task one\n");
    let err = done(&mut todo, &[5], ymd(2024, 3, 4)).err().unwrap();
    assert_eq!(err.not_found, vec![5]);
    assert_eq!(todo.save(), "Task one\n");
}

#[test]
fn done_reports_already_done_and_recurrence_issues() {
    let mut todo = file(
        "x 2024-01-01 Old\nPay due:2024-01-15 rec:+1m\nNo anchor rec:1w\nOdd due:2024-01-01 rec:often\nBad rec: 1w\n",
    );
    let rep = done(&mut todo, &[1, 2, 3, 4, 5, 9], ymd(2024, 1, 20)).ok().unwrap();
    assert_eq!(rep.already_done, vec![1]);
    assert_eq!(rep.not_found, vec![9]);
    assert_eq!(rep.marked, vec![2, 3, 4, 5]);
    assert_eq!(rep.created, vec!["2024-01-20 Pay due:2024-02-15 rec:+1m".to_string()]);
    assert_eq!(
        rep.issues,
        vec![(3, RecIssue::NoDueDate), (4, RecIssue::UnknownSpec), (5, RecIssue::Malformed)]
    );
    assert_eq!(todo.tasks.len(), 6);
    assert_eq!(todo.tasks[5].id, 6);
    let err = done(&mut file("x 2024-01-01 Old\n"), &[1], ymd(2024, 1, 2)).err().unwrap();
    assert_eq!(err.already_done, vec![1]);
}

#[test]
fn test_delete_task() {
    let mut todo = file("Task one\nTask two\nTask three\n");
    let rep = delete(&mut todo, &[2]).ok().unwrap();
    assert_eq!(rep.deleted, vec![(2, "Task two".to_string())]);
    assert_eq!(todo.save(), "Task one\nTask three\n");
    assert_eq!(todo.tasks[1].id, 2);
}

#[test]
fn test_delete_multiple_tasks() {
    let mut todo = file("Task one\nTask two\nTask three\n");
    let rep = delete(&mut todo, &[1, 3, 7]).ok().unwrap();
    assert_eq!(rep.not_found, vec![7]);
    assert_eq!(todo.save(), "Task two\n");
    let err = delete(&mut todo, &[4]).err().unwrap();
    assert_eq!(err.not_found, vec![4]);
    assert_eq!(todo.tasks.len(), 1);
}

#[test]
fn test_append_text() {
    let mut todo = file("Task one\nTask two\n");
    append(&mut todo, &[1], "+project").ok().unwrap();
    assert_eq!(todo.tasks[0].description, "Task one +project");
    assert!(todo.tasks[0].has_project("project"));
}

#[test]
fn test_prepend_text() {
    let mut todo = file("Task one\nTask two\n");
    prepend(&mut todo, &[1], "URGENT:").ok().unwrap();
    assert_eq!(todo.tasks[0].description, "URGENT: Task one");
}

#[test]
fn prepend_keeps_priority_and_date() {
    let mut todo = file("(A) 2024-01-01 Task\n");
    prepend(&mut todo, &[1], "Now").ok().unwrap();
    assert_eq!(todo.save(), "(A) 2024-01-01 Now Task\n");
    let err = append(&mut todo, &[3], "x").err().unwrap();
    assert_eq!(err.not_found, vec![3]);
}

#[test]
fn test_priority_set() {
    let mut todo = file("Task one\nTask two\n");
    priority(&mut todo, &[1], Some('A')).ok().unwrap();
    assert_eq!(todo.tasks[0].priority, Some('A'));
    assert_eq!(todo.save(), "(A) Task one\nTask two\n");
}

#[test]
fn test_priority_remove() {
    let mut todo = file("(A) Task one\n");
    priority(&mut todo, &[1], None).ok().unwrap();
    assert!(!todo.save().contains("(A)"));
}

#[test]
fn test_pri_alias() {
    let mut todo = file("Task one\n");
    priority(&mut todo, &[1], Some('B')).ok().unwrap();
    assert!(todo.save().contains("(B)"));
}

#[test]
fn test_replace_text() {
    let mut todo = file("Task one @today\n");
    let rep = replace(&mut todo, &[1], "@today", "@tomorrow").ok().unwrap();
    assert_eq!(rep.modified, vec![1]);
    let content = todo.save();
    assert!(content.contains("@tomorrow"));
    assert!(!content.contains("@today"));
}

#[test]
fn replace_reports_ids_without_a_match() {
    let mut todo = file("Task one @today\nOther\n");
    let err = replace(&mut todo, &[2, 5], "@today", "@tomorrow").err().unwrap();
    assert_eq!(err.no_match, vec![2]);
    assert_eq!(err.not_found, vec![5]);
    assert_eq!(todo.save(), "Task one @today\nOther\n");
}

#[test]
fn test_update_time_context() {
    let mut todo = file("Task one @today\n");
    update(&mut todo, &[1], TimeContext::NextWeek).ok().unwrap();
    let content = todo.save();
    assert!(content.contains("@nextweek"));
    assert!(!content.contains("@today"));
}

#[test]
fn test_time_update_command() {
    let mut todo = file("Task one @tomorrow\nLater @nextweek\n");
    // 2024-01-15 is a Monday.
    let rep = time_update(&mut todo, ymd(2024, 1, 15));
    assert_eq!(rep.modified.len(), 2);
    assert_eq!(todo.save(), "Task one @today\nLater @thisweek\n");
}

#[test]
fn test_archive() {
    let mut todo = file("Task one\nx 2024-01-15 Completed task\nTask three\n");
    let lines = archive(&mut todo);
    assert_eq!(lines, vec!["x 2024-01-15 Completed task".to_string()]);
    assert_eq!(todo.save(), "Task one\nTask three\n");
    let mut open = file("Task one\n");
    assert!(archive(&mut open).is_empty());
    assert_eq!(open.tasks.len(), 1);
}

#[test]
fn test_workflow_add_list_done_archive() {
    let mut todo = file("");
    add(&mut todo, "(A) Complete project +work", ymd(2024, 5, 31), true);
    // Each command reads the file that the one before wrote.
    let mut todo = file(&todo.save());
    assert_eq!(listed(&todo, &[], false), vec!["Complete project +work"]);
    assert_eq!(todo.tasks[0].priority, Some('A'));
    done(&mut todo, &[1], ymd(2024, 6, 1)).ok().unwrap();
    let mut todo = file(&todo.save());
    let lines = archive(&mut todo);
    assert_eq!(lines.len(), 1);
    assert!(lines[0].contains("Complete project"));
    assert!(todo.tasks.is_empty());
}

#[test]
fn test_special_characters_in_task() {
    let mut todo = file("");
    add(&mut todo, "Task with 'quotes' and \"double quotes\"", ymd(2024, 6, 1), true);
    assert!(todo.save().contains("quotes"));
}

#[test]
fn test_unicode_in_task() {
    let mut todo = file("");
    add(&mut todo, "Task with émojis 🎉 and üñíçödé", ymd(2024, 6, 1), true);
    let content = todo.save();
    assert!(content.contains("émojis"));
    assert!(content.contains("🎉"));
}

#[test]
fn format_task_with_desc_keeps_the_other_parts() {
    let t = Task::parse(1, "(A) 2024-01-01 Old words");
    assert_eq!(format_task_with_desc(&t, "New words"), "(A) 2024-01-01 New words");
}

#[test]
fn append_keeps_priority() {
    let mut todo = file("(B) Task one\n");
    append(&mut todo, &[1], "@home").ok().unwrap();
    assert_eq!(todo.tasks[0].priority, Some('B'));
    assert_eq!(todo.save(), "(B) Task one @home\n");
}

#[test]
fn add_dates_only_open_tasks_without_a_date() {
    let day = ymd(2024, 6, 1);
    let mut todo = file("");
    assert_eq!(add(&mut todo, "2023-01-01 Already dated", day, true), "2023-01-01 Already dated");
    assert_eq!(add(&mut todo, "x Finished", day, true), "x Finished");
    assert_eq!(add(&mut todo, "Undated", day, false), "Undated");
    assert_eq!(add(&mut todo, "(B) Dated now", day, true), "(B) 2024-06-01 Dated now");
    assert_eq!(todo.tasks[3].priority, Some('B'));
    assert_eq!(todo.tasks[3].creation_date, Some(day));
    assert_eq!(todo.tasks[2].creation_date, None);
}

#[test]
fn completed_count_counts_listed_completed_tasks() {
    let todo = file("Open\nx 2024-01-01 Done\nx 2024-01-02 Done too\n");
    assert_eq!(completed_count(&todo, &vec![0, 1, 2]), 2);
    assert_eq!(completed_count(&todo, &vec![0]), 0);
    assert_eq!(completed_count(&todo, &vec![]), 0);
}
