use td::task::Task;
use td::todo_file::TodoFile;

#[test]
fn test_load_todo_file() {
    let todo = TodoFile::load("todo.txt", "(A) Task one\n(B) Task two\n");
    assert_eq!(todo.tasks.len(), 2);
    assert_eq!(todo.tasks[0].priority, Some('A'));
    assert_eq!(todo.tasks[1].priority, Some('B'));
}

#[test]
fn test_save_todo_file() {
    let mut todo = TodoFile { path: "todo.txt".to_string(), tasks: Vec::new() };
    todo.add_task(Task::new("Test task"));
    let content = todo.save();
    assert!(content.contains("Test task"));
}

#[test]
fn test_remove_tasks() {
    let mut todo = TodoFile::load("todo.txt", "Task 1\nTask 2\nTask 3\n");
    todo.remove_tasks(&[2]);
    assert_eq!(todo.tasks.len(), 2);
    assert_eq!(todo.tasks[0].id, 1);
    assert_eq!(todo.tasks[1].id, 2);
}

#[test]
fn load_numbers_tasks_by_line_skipping_blank_lines() {
    let todo = TodoFile::load("t", "First\r\n\n   \nFourth\nFifth");
    let ids: Vec<usize> = todo.tasks.iter().map(|t| t.id).collect();
    assert_eq!(ids, vec![1, 4, 5]);
    assert_eq!(todo.tasks[0].description, "First");
    assert_eq!(todo.tasks[2].description, "Fifth");
    assert_eq!(todo.path, "t");
}

#[test]
fn save_writes_one_line_per_task() {
    let todo = TodoFile::load("t", "(A) One\n\nx 2024-01-02 Two\n");
    assert_eq!(todo.save(), "(A) One\nx 2024-01-02 Two\n");
    let empty = TodoFile::load("t", "\n\n");
    assert_eq!(empty.save(), "");
}

#[test]
fn saved_text_loads_to_the_same_tasks_renumbered() {
    let todo = TodoFile::load("t", "(B) 2024-01-01 Alpha +p @c\n\nx 2024-02-02 Beta k:v\n");
    let again = TodoFile::load("t", &todo.save());
    assert_eq!(again.tasks.len(), 2);
    for (k, (a, b)) in todo.tasks.iter().zip(again.tasks.iter()).enumerate() {
        assert_eq!(b.id, k + 1);
        assert_eq!(b.description, a.description);
        assert_eq!(b.priority, a.priority);
        assert_eq!(b.creation_date, a.creation_date);
        assert_eq!(b.completion_date, a.completion_date);
        assert_eq!(b.is_completed, a.is_completed);
        assert_eq!(b.projects, a.projects);
        assert_eq!(b.contexts, a.contexts);
        assert_eq!(b.tags, a.tags);
    }
}

#[test]
fn add_task_numbers_one_past_the_count() {
    let mut todo = TodoFile::load("t", "a\nb\n");
    let mut task = Task::new("c");
    task.id = 99;
    todo.add_task(task);
    assert_eq!(todo.tasks[2].id, 3);
}

#[test]
fn get_task_finds_the_first_with_the_id() {
    let mut todo = TodoFile::load("t", "a\n\nc\n");
    assert_eq!(todo.get_task(3).map(|t| t.description.clone()), Some("c".to_string()));
    assert!(todo.get_task(2).is_none());
    assert_eq!(todo.find_task(3), Some(1));
    if let Some(t) = todo.get_task_mut(1) {
        t.priority = Some('C');
    }
    assert_eq!(todo.tasks[0].priority, Some('C'));
    assert!(todo.get_task_mut(5).is_none());
}

#[test]
fn load_or_create_without_content_is_empty() {
    let todo = TodoFile::load_or_create("new.txt", None);
    assert!(todo.tasks.is_empty());
    let todo = TodoFile::load_or_create("old.txt", Some("x\n"));
    assert_eq!(todo.tasks.len(), 1);
}
