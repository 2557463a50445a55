use std::path::PathBuf;
use td::cli::{
    init_config_path_in, parse_priority_arg, parse_trailing_args, parse_usize, todo_path_with_home,
    ArgsError, PriorityArgError,
};
use td::todo_file::TodoFile;
use td::config::{done_path_beside, is_default_todo_path, resolve_path, Config};
use td::date::Date;
use td::output::{Printer, TaskStyle};
use td::task::Task;

#[test]
fn test_config_default() {
    let config = Config::default();
    assert_eq!(PathBuf::from(&config.todo_file), PathBuf::from("todo.txt"));
    assert!(config.color);
    assert!(config.date_on_add);
}

#[test]
fn config_builders_set_one_field() {
    let c = Config::new().with_file("/x/t.txt".to_string()).with_color(false).with_verbose(true);
    assert_eq!(c.todo_file, "/x/t.txt");
    assert!(!c.color);
    assert!(c.verbose);
    assert!(c.done_file.is_none());
    assert!(!c.auto_archive);
}

#[test]
fn paths_resolve_against_home() {
    let home = Some("/home/u".to_string());
    assert_eq!(resolve_path("todo.txt", &home), "/home/u/todo.txt");
    assert_eq!(resolve_path("/abs/todo.txt", &home), "/abs/todo.txt");
    assert_eq!(resolve_path("todo.txt", &None), "todo.txt");
    assert_eq!(done_path_beside("/home/u/todo.txt"), "/home/u/done.txt");
    assert_eq!(done_path_beside(""), "done.txt");
    let c = Config::new();
    assert_eq!(c.todo_path_with_home(&home), "/home/u/todo.txt");
    assert_eq!(c.done_path_with_home(&home), "/home/u/done.txt");
    let mut c = Config::new();
    c.done_file = Some("d.txt".to_string());
    assert_eq!(c.done_path_with_home(&None), "d.txt");
}

#[test]
fn trailing_args_split_ids_from_text() {
    let args: Vec<String> = ["3", "+4", "--", "5", "more", "--", "text"].iter().map(|s| s.to_string()).collect();
    let (ids, text) = parse_trailing_args(&args).unwrap();
    assert_eq!(ids, vec![3, 4]);
    assert_eq!(text, "5 more text");
    let args: Vec<String> = ["1", "2", "hello", "3"].iter().map(|s| s.to_string()).collect();
    assert_eq!(parse_trailing_args(&args).unwrap(), (vec![1, 2], "hello 3".to_string()));
    let args: Vec<String> = ["hello"].iter().map(|s| s.to_string()).collect();
    assert_eq!(parse_trailing_args(&args), Err(ArgsError::NoIds));
    let args: Vec<String> = ["1", "--"].iter().map(|s| s.to_string()).collect();
    assert_eq!(parse_trailing_args(&args), Err(ArgsError::NoText));
}

#[test]
fn usize_reading_follows_from_str() {
    let v = |s: &str| s.chars().collect::<Vec<char>>();
    assert_eq!(parse_usize(&v("42")), Some(42));
    assert_eq!(parse_usize(&v("+7")), Some(7));
    assert_eq!(parse_usize(&v("+")), None);
    assert_eq!(parse_usize(&v("")), None);
    assert_eq!(parse_usize(&v("-1")), None);
    assert_eq!(parse_usize(&v("1a")), None);
    assert_eq!(parse_usize(&v("99999999999999999999999")), None);
}

#[test]
fn priority_argument() {
    assert_eq!(parse_priority_arg("-"), Ok(None));
    assert_eq!(parse_priority_arg("B"), Ok(Some('B')));
    assert_eq!(parse_priority_arg("Cx"), Ok(Some('C')));
    assert_eq!(parse_priority_arg(""), Err(PriorityArgError::Empty));
    assert_eq!(parse_priority_arg("a"), Err(PriorityArgError::NotALetter));
}

#[test]
fn test_no_color_flag() {
    let t = Task::parse(1, "(A) Important task");
    assert_eq!(Printer::new(false).task_style(&t), TaskStyle::Plain);
    assert_eq!(Printer::new(true).task_style(&t), TaskStyle::PriorityA);
    let done = Task::parse(1, "x 2024-01-01 (B) Old");
    assert_eq!(Printer::new(true).task_style(&done), TaskStyle::Completed);
    assert_eq!(Printer::new(true).task_style(&Task::parse(1, "Plain")), TaskStyle::Normal);
}

#[test]
fn dates_format_and_parse() {
    let d = Date::from_ymd_opt(2024, 2, 29).unwrap();
    assert_eq!(d.to_text(), "2024-02-29");
    assert_eq!(Date::parse_text("2024-02-29"), Some(d));
    assert_eq!(Date::parse_text("2023-02-29"), None);
    assert_eq!(Date::parse_text("2024-02-2x"), None);
    assert!(Date::from_ymd_opt(2023, 2, 29).is_none());
    assert_eq!(d.add_days(1), Date::from_ymd_opt(2024, 3, 1));
    assert_eq!(d.add_months(12), Date::from_ymd_opt(2025, 2, 28));
    assert_eq!(d.days_until(&Date::from_ymd_opt(2024, 3, 31).unwrap()), 31);
    assert_eq!(d.weekday(), 3);
    assert_eq!((d.year(), d.month(), d.day()), (2024, 2, 29));
    let far = Date::from_ymd_opt(12345, 1, 1).unwrap();
    assert_eq!(far.to_text(), "+12345-01-01");
}

fn no_read(_p: &str) -> Result<Config, String> {
    Err("not expected to be read".to_string())
}

#[test]
fn test_config_load_nonexistent() {
    let is_file = |p: &str| std::path::Path::new(p).exists();
    let config = Config::load_from_file("/nonexistent/config.toml", &is_file, &no_read).unwrap();
    assert_eq!(PathBuf::from(&config.todo_file), PathBuf::from("todo.txt"));
}

#[test]
fn settings_file_is_the_first_candidate_that_exists() {
    let cfg = Some("/cfg".to_string());
    let home = Some("/home/u".to_string());
    let only_rc = |p: &str| p == "/home/u/.tdrc";
    assert_eq!(Config::default_path_in(&cfg, &home, &only_rc), Some("/home/u/.tdrc".to_string()));
    let both = |p: &str| p.ends_with("config.toml") || p.ends_with(".tdrc");
    assert_eq!(Config::default_path_in(&cfg, &home, &both), Some("/cfg/td/config.toml".to_string()));
    let none = |_p: &str| false;
    assert_eq!(Config::default_path_in(&cfg, &home, &none), None);
    assert_eq!(Config::default_path_in(&None, &None, &both), None);
}

#[test]
fn settings_are_read_from_the_file_found() {
    let cfg = Some("/cfg".to_string());
    let yes = |_p: &str| true;
    let read = |p: &str| -> Result<Config, String> { Ok(Config::new().with_file(format!("{}!", p))) };
    let c = Config::load_in(&cfg, &None, &yes, &read).unwrap();
    assert_eq!(c.todo_file, "/cfg/td/config.toml!");
    let no = |_p: &str| false;
    let c = Config::load_in(&cfg, &None, &no, &read).unwrap();
    assert_eq!(c.todo_file, "todo.txt");
    let bad = |_p: &str| -> Result<Config, String> { Err("broken".to_string()) };
    assert_eq!(Config::load_in(&cfg, &None, &yes, &bad).err(), Some("broken".to_string()));
}

#[test]
fn todo_file_default_path_prefers_the_working_directory() {
    let home = Some("/home/u".to_string());
    let here = |p: &str| p == "/work/todo.txt";
    assert_eq!(TodoFile::default_path_with_home("/work", &home, &here), "/work/todo.txt");
    let nowhere = |_p: &str| false;
    assert_eq!(TodoFile::default_path_with_home("/work", &home, &nowhere), "/home/u/todo.txt");
    assert_eq!(TodoFile::default_path_with_home("/work", &None, &nowhere), "/work/todo.txt");
}

#[test]
fn todo_path_follows_command_line_then_settings() {
    let home = Some("/home/u".to_string());
    let nowhere = |_p: &str| false;
    let c = Config::new();
    assert_eq!(todo_path_with_home(&Some("x.txt".to_string()), &c, "/w", &home, &nowhere), "x.txt");
    assert_eq!(todo_path_with_home(&None, &c, "/w", &home, &nowhere), "/home/u/todo.txt");
    let abs = Config::new().with_file("/data/t.txt".to_string());
    assert_eq!(todo_path_with_home(&None, &abs, "/w", &home, &nowhere), "/data/t.txt");
    let rel = Config::new().with_file("lists/t.txt".to_string());
    assert_eq!(todo_path_with_home(&None, &rel, "/w", &home, &nowhere), "/home/u/lists/t.txt");
    assert_eq!(init_config_path_in(&Some("/cfg".to_string())), "/cfg/td/config.toml");
    assert_eq!(init_config_path_in(&None), ".tdrc");
}

#[test]
fn default_todo_name_compares_by_components() {
    assert!(is_default_todo_path("todo.txt"));
    assert!(is_default_todo_path("todo.txt/"));
    assert!(is_default_todo_path("todo.txt/./"));
    assert!(is_default_todo_path("todo.txt//."));
    assert!(!is_default_todo_path("todo.txt/.."));
    assert!(!is_default_todo_path("./todo.txt"));
    assert!(!is_default_todo_path("todo.txt.bak"));
    assert!(!is_default_todo_path("todo.tx"));
    for p in ["todo.txt", "todo.txt/", "todo.txt/./", "todo.txt/..", "./todo.txt", "todo.txt.bak"] {
        assert_eq!(is_default_todo_path(p), PathBuf::from(p) == PathBuf::from("todo.txt"), "{}", p);
    }
    let home = Some("/home/u".to_string());
    let nowhere = |_p: &str| false;
    let slash = Config::new().with_file("todo.txt/".to_string());
    assert_eq!(todo_path_with_home(&None, &slash, "/w", &home, &nowhere), "/home/u/todo.txt");
}

#[test]
fn month_lengths_are_the_days_to_the_next_month() {
    let span = |y: i32, m: u32| {
        let (ny, nm) = if m == 12 { (y + 1, 1) } else { (y, m + 1) };
        Date::from_ymd_opt(y, m, 1).unwrap().days_until(&Date::from_ymd_opt(ny, nm, 1).unwrap())
    };
    assert_eq!(span(2024, 2), 29);
    assert_eq!(span(2000, 2), 29);
    assert_eq!(span(1900, 2), 28);
    assert_eq!(span(2023, 2), 28);
    assert_eq!(span(2024, 4), 30);
    assert_eq!(span(2024, 12), 31);
}
