use td::date::Date;
use td::time_context::{
    apply_transitions, get_transitions_for_date, is_first_month_of_quarter, is_first_of_month,
    is_friday, is_last_month_of_quarter, is_last_week_of_month, is_monday, remove_time_contexts,
    replace_time_context, set_time_context, time_context_for_due, TimeContext,
};

fn ymd(y: i32, m: u32, d: u32) -> Date {
    Date::from_ymd_opt(y, m, d).unwrap()
}

#[test]
fn test_replace_time_context() {
    let desc = "Task @tomorrow +project";
    let result = replace_time_context(desc, TimeContext::Tomorrow, TimeContext::Today);
    assert_eq!(result, "Task @today +project");
}

#[test]
fn test_set_time_context() {
    let desc = "Task @tomorrow +project";
    let result = set_time_context(desc, TimeContext::NextWeek);
    assert_eq!(result, "Task +project @nextweek");
}

#[test]
fn test_is_friday() {
    let friday = Date::from_ymd_opt(2024, 1, 12).unwrap();
    let saturday = Date::from_ymd_opt(2024, 1, 13).unwrap();
    assert!(is_friday(friday));
    assert!(!is_friday(saturday));
}

#[test]
fn test_is_monday() {
    let monday = Date::from_ymd_opt(2024, 1, 15).unwrap();
    let tuesday = Date::from_ymd_opt(2024, 1, 16).unwrap();
    assert!(is_monday(monday));
    assert!(!is_monday(tuesday));
}

#[test]
fn test_is_last_week_of_month() {
    let last_week = Date::from_ymd_opt(2024, 1, 28).unwrap();
    let mid_month = Date::from_ymd_opt(2024, 1, 15).unwrap();
    assert!(is_last_week_of_month(last_week));
    assert!(!is_last_week_of_month(mid_month));
}

#[test]
fn test_is_first_of_month() {
    let first = Date::from_ymd_opt(2024, 2, 1).unwrap();
    let second = Date::from_ymd_opt(2024, 2, 2).unwrap();
    assert!(is_first_of_month(first));
    assert!(!is_first_of_month(second));
}

#[test]
fn test_is_last_month_of_quarter() {
    assert!(is_last_month_of_quarter(Date::from_ymd_opt(2024, 3, 15).unwrap()));
    assert!(is_last_month_of_quarter(Date::from_ymd_opt(2024, 6, 15).unwrap()));
    assert!(!is_last_month_of_quarter(Date::from_ymd_opt(2024, 2, 15).unwrap()));
}

#[test]
fn test_is_first_month_of_quarter() {
    assert!(is_first_month_of_quarter(Date::from_ymd_opt(2024, 1, 15).unwrap()));
    assert!(is_first_month_of_quarter(Date::from_ymd_opt(2024, 4, 15).unwrap()));
    assert!(!is_first_month_of_quarter(Date::from_ymd_opt(2024, 2, 15).unwrap()));
}

#[test]
fn test_transitions_on_friday() {
    let friday = Date::from_ymd_opt(2024, 1, 12).unwrap();
    let transitions = get_transitions_for_date(friday);
    assert!(transitions.contains(&(TimeContext::Tomorrow, TimeContext::Today)));
    assert!(transitions.contains(&(TimeContext::ThisWeek, TimeContext::Today)));
}

#[test]
fn test_transitions_on_monday() {
    let monday = Date::from_ymd_opt(2024, 1, 15).unwrap();
    let transitions = get_transitions_for_date(monday);
    assert!(transitions.contains(&(TimeContext::Tomorrow, TimeContext::Today)));
    assert!(transitions.contains(&(TimeContext::NextWeek, TimeContext::ThisWeek)));
}

#[test]
fn transitions_in_order_on_first_of_quarter() {
    // 2024-04-01 is a Monday, the first day of a month and of a quarter.
    let t = get_transitions_for_date(ymd(2024, 4, 1));
    assert_eq!(
        t,
        vec![
            (TimeContext::Tomorrow, TimeContext::Today),
            (TimeContext::NextWeek, TimeContext::ThisWeek),
            (TimeContext::NextMonth, TimeContext::ThisMonth),
            (TimeContext::NextQuarter, TimeContext::ThisQuarter),
        ]
    );
    // 2024-03-01 is a Friday, first of the last month of a quarter.
    let t = get_transitions_for_date(ymd(2024, 3, 1));
    assert_eq!(
        t,
        vec![
            (TimeContext::Tomorrow, TimeContext::Today),
            (TimeContext::ThisWeek, TimeContext::Today),
            (TimeContext::NextMonth, TimeContext::ThisMonth),
            (TimeContext::ThisQuarter, TimeContext::ThisMonth),
        ]
    );
    // An ordinary Wednesday.
    assert_eq!(get_transitions_for_date(ymd(2024, 1, 10)), vec![(TimeContext::Tomorrow, TimeContext::Today)]);
    // Any day of a quarter's last month moves @thisquarter to @thismonth.
    assert_eq!(
        get_transitions_for_date(ymd(2024, 3, 13)),
        vec![
            (TimeContext::Tomorrow, TimeContext::Today),
            (TimeContext::ThisQuarter, TimeContext::ThisMonth),
        ]
    );
}

#[test]
fn last_week_of_month_counts_leap_february() {
    assert!(is_last_week_of_month(ymd(2024, 2, 23)));
    assert!(!is_last_week_of_month(ymd(2024, 2, 22)));
    assert!(is_last_week_of_month(ymd(2023, 2, 22)));
}

#[test]
fn apply_transitions_chains_in_order() {
    let t = vec![
        (TimeContext::Tomorrow, TimeContext::Today),
        (TimeContext::ThisWeek, TimeContext::Today),
    ];
    assert_eq!(apply_transitions("A @tomorrow B @thisweek", &t), "A @today B @today");
    assert_eq!(apply_transitions("nothing here", &t), "nothing here");
}

#[test]
fn replacing_a_context_by_itself_changes_nothing() {
    let d = "Call @today and @todayish";
    assert_eq!(replace_time_context(d, TimeContext::Today, TimeContext::Today), d);
}

#[test]
fn remove_time_contexts_collapses_space() {
    assert_eq!(remove_time_contexts("  A @today  B @nextquarter C "), "A B C");
    assert_eq!(remove_time_contexts("@thisweek"), "");
}

#[test]
fn names_read_back() {
    for c in TimeContext::all() {
        assert_eq!(TimeContext::from_str(c.as_str()), Some(*c));
        assert_eq!(TimeContext::from_str(&c.as_str().to_uppercase()), Some(*c));
    }
    assert_eq!(TimeContext::from_str("someday"), None);
    assert_eq!(TimeContext::all().len(), 8);
}

#[test]
fn due_date_picks_the_nearest_time_context() {
    let today = ymd(2024, 1, 10); // a Wednesday
    assert_eq!(time_context_for_due(ymd(2024, 1, 9), today), Some(TimeContext::Today));
    assert_eq!(time_context_for_due(ymd(2024, 1, 10), today), Some(TimeContext::Today));
    assert_eq!(time_context_for_due(ymd(2024, 1, 11), today), Some(TimeContext::Tomorrow));
    assert_eq!(time_context_for_due(ymd(2024, 1, 14), today), Some(TimeContext::ThisWeek));
    assert_eq!(time_context_for_due(ymd(2024, 1, 15), today), Some(TimeContext::NextWeek));
    assert_eq!(time_context_for_due(ymd(2024, 1, 25), today), Some(TimeContext::ThisMonth));
    assert_eq!(time_context_for_due(ymd(2024, 2, 25), today), Some(TimeContext::NextMonth));
    assert_eq!(time_context_for_due(ymd(2024, 3, 25), today), Some(TimeContext::ThisQuarter));
    assert_eq!(time_context_for_due(ymd(2024, 5, 25), today), Some(TimeContext::NextQuarter));
    assert_eq!(time_context_for_due(ymd(2024, 8, 25), today), None);
}

#[test]
fn setting_a_context_twice_keeps_only_the_last() {
    let d = "Call  @today bob @thisweek +x";
    let once = set_time_context(d, TimeContext::Tomorrow);
    assert_eq!(once, "Call bob +x @tomorrow");
    let twice = set_time_context(&once, TimeContext::NextMonth);
    assert_eq!(twice, set_time_context(d, TimeContext::NextMonth));
    assert_eq!(remove_time_contexts(&once), remove_time_contexts(d));
    // A removal that joins `@` and a name leaves a time context behind.
    assert_eq!(set_time_context("@@todaytoday", TimeContext::NextWeek), "@today @nextweek");
}
