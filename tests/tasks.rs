use taskline::color::ColorVariant;
use taskline::date::{parse_date, Date, DateError};
use taskline::render::{list_tasks, render, render_line, render_spans, Role};
use taskline::task::{sort_tasks, Task};

fn day(year: i32, month: u32, day: u32) -> Date {
    Date { year, month, day }
}

fn with_deps(name: &str, n: usize) -> Task {
    let mut t = Task::create(name.to_string(), None, day(2024, 1, 1)).unwrap();
    for i in 0..n {
        let sub = Task::create(format!("{name}-{i}"), None, day(2024, 1, 1)).unwrap();
        t._add_subtask(sub);
    }
    t
}

fn names(tasks: &[Task]) -> Vec<String> {
    tasks.iter().map(|t| t.name.clone()).collect()
}

fn counts(tasks: &[Task]) -> Vec<usize> {
    tasks.iter().map(|t| t.dependencies.len()).collect()
}

#[test]
fn task_without_due_date_renders_name_only() {
    let t = Task::create("Buy milk".to_string(), None, day(2024, 1, 1)).unwrap();
    assert!(t.due.is_none());
    assert!(t.dependencies.is_empty());
    assert_eq!(render(&vec![t]), vec!["Task: Buy milk".to_string()]);
}

#[test]
fn task_due_in_future_renders_date_and_count() {
    let today = day(2024, 1, 1);
    let t = Task::from_input("Pay rent".to_string(), Some("2024-06-01"), today).unwrap();
    assert_eq!(t.due.as_deref(), Some("2024-06-01"));
    assert_eq!(render(&vec![t]), vec!["Task: Pay rent (due 2024-06-01) +0".to_string()]);
}

#[test]
fn task_due_in_past_is_invalid_date() {
    let today = day(2024, 1, 1);
    let r = Task::from_input("Late task".to_string(), Some("2023-12-31"), today);
    assert_eq!(r.err(), Some(DateError::InvalidDate));
}

#[test]
fn task_due_today_is_invalid_date() {
    let today = day(2024, 1, 1);
    let r = Task::create("Now".to_string(), Some(day(2024, 1, 1)), today);
    assert_eq!(r.err(), Some(DateError::InvalidDate));
}

#[test]
fn task_due_tomorrow_is_accepted() {
    let today = day(2023, 12, 31);
    let t = Task::create("Soon".to_string(), Some(day(2024, 1, 1)), today).unwrap();
    assert_eq!(t.due.as_deref(), Some("2024-01-01"));
}

#[test]
fn sort_orders_by_count_and_keeps_ties() {
    let mut tasks = vec![with_deps("a", 2), with_deps("b", 0), with_deps("c", 1)];
    sort_tasks(&mut tasks);
    assert_eq!(counts(&tasks), vec![0, 1, 2]);
    assert_eq!(names(&tasks), vec!["b", "c", "a"]);

    let mut ties = vec![
        with_deps("x", 1),
        with_deps("y", 0),
        with_deps("z", 1),
        with_deps("w", 0),
    ];
    sort_tasks(&mut ties);
    assert_eq!(names(&ties), vec!["y", "w", "x", "z"]);
}

#[test]
fn sort_twice_equals_sort_once() {
    let mut tasks = vec![with_deps("a", 3), with_deps("b", 1), with_deps("c", 1), with_deps("d", 0)];
    sort_tasks(&mut tasks);
    let once = names(&tasks);
    sort_tasks(&mut tasks);
    assert_eq!(names(&tasks), once);
    assert_eq!(once, vec!["d", "b", "c", "a"]);
}

#[test]
fn sort_of_empty_and_single() {
    let mut empty: Vec<Task> = Vec::new();
    sort_tasks(&mut empty);
    assert!(empty.is_empty());
    let mut one = vec![with_deps("only", 4)];
    sort_tasks(&mut one);
    assert_eq!(names(&one), vec!["only"]);
}

#[test]
fn parse_accepts_real_dates() {
    assert_eq!(parse_date("2024-06-01"), Ok(day(2024, 6, 1)));
    assert_eq!(parse_date("2024-02-29"), Ok(day(2024, 2, 29)));
    assert_eq!(parse_date("2000-02-29"), Ok(day(2000, 2, 29)));
    assert_eq!(parse_date("0000-01-01"), Ok(day(0, 1, 1)));
}

#[test]
fn parse_refuses_bad_shapes() {
    for s in ["", "2024-6-01", "2024/06/01", "24-06-01", "2024-06-011", "2024-06-0a", "+2024-06-01", " 2024-06-01"] {
        assert_eq!(parse_date(s), Err(DateError::InvalidDateFormat), "{s}");
    }
}

#[test]
fn parse_refuses_days_that_do_not_exist() {
    for s in ["2023-02-29", "1900-02-29", "2024-04-31", "2024-13-01", "2024-00-10", "2024-01-00"] {
        assert_eq!(parse_date(s), Err(DateError::InvalidDateFormat), "{s}");
    }
}

#[test]
fn bad_text_fails_before_creation() {
    let r = Task::from_input("x".to_string(), Some("tomorrow"), day(2024, 1, 1));
    assert_eq!(r.err(), Some(DateError::InvalidDateFormat));
    let r = Task::from_input("x".to_string(), Some("2023-02-30"), day(2024, 1, 1));
    assert_eq!(r.err(), Some(DateError::InvalidDateFormat));
}

#[test]
fn date_text_round_trips() {
    for d in [day(2024, 6, 1), day(7, 3, 9), day(9999, 12, 31), day(1999, 11, 30)] {
        let s = d.to_iso_string();
        assert_eq!(parse_date(&s), Ok(d));
    }
    assert_eq!(day(7, 3, 9).to_iso_string(), "0007-03-09");
}

#[test]
fn date_text_outside_four_digit_years_carries_sign() {
    assert_eq!(day(-5, 2, 3).to_iso_string(), "-0005-02-03");
    assert_eq!(day(12345, 6, 7).to_iso_string(), "+12345-06-07");
}

#[test]
fn date_order_is_by_year_month_day() {
    assert!(day(2023, 12, 31).is_before(&day(2024, 1, 1)));
    assert!(day(2024, 1, 31).is_before(&day(2024, 2, 1)));
    assert!(day(2024, 2, 1).is_before(&day(2024, 2, 2)));
    assert!(!day(2024, 2, 2).is_before(&day(2024, 2, 2)));
    assert!(!day(2025, 1, 1).is_before(&day(2024, 12, 31)));
}

#[test]
fn clock_today_is_a_real_date() {
    let t = Date::today();
    assert!((1..=12).contains(&t.month));
    assert!(t.day >= 1 && t.day <= 31);
    assert!(t.year >= 2000);
}

#[test]
fn clock_judges_far_dates() {
    assert!(Task::positive_date_delta(day(9999, 12, 31)));
    assert!(!Task::positive_date_delta(day(2000, 1, 1)));
    let t = Task::new("Far".to_string(), Some(day(9999, 12, 31))).unwrap();
    assert_eq!(t.due.as_deref(), Some("9999-12-31"));
    let r = Task::new("Old".to_string(), Some(day(2000, 1, 1)));
    assert_eq!(r.err(), Some(DateError::InvalidDate));
    assert!(Task::new("Undated".to_string(), None).unwrap().due.is_none());
}

#[test]
fn add_subtask_appends_in_order() {
    let mut t = with_deps("p", 0);
    t._add_subtask(with_deps("c1", 0));
    t._add_subtask(with_deps("c2", 3));
    assert_eq!(names(&t.dependencies), vec!["c1", "c2"]);
    assert_eq!(t.dependencies[1].dependencies.len(), 3);
}

#[test]
fn render_shows_dependency_count() {
    let mut t = Task::create("Big".to_string(), Some(day(2030, 10, 5)), day(2024, 1, 1)).unwrap();
    for i in 0..12 {
        t._add_subtask(with_deps(&format!("s{i}"), 0));
    }
    assert_eq!(render_line(&t), "Task: Big (due 2030-10-05) +12");
}

#[test]
fn render_spans_carry_roles() {
    let t = Task::create("Pay rent".to_string(), Some(day(2024, 6, 1)), day(2024, 1, 1)).unwrap();
    let spans = render_spans(&t);
    let pairs: Vec<(String, Role)> = spans.iter().map(|s| (s.text.clone(), s.role)).collect();
    assert_eq!(
        pairs,
        vec![
            ("Task".to_string(), Role::Label),
            (": ".to_string(), Role::Plain),
            ("Pay rent".to_string(), Role::Value),
            (" (due ".to_string(), Role::Plain),
            ("2024-06-01".to_string(), Role::Muted),
            (") +".to_string(), Role::Plain),
            ("0".to_string(), Role::Count),
        ]
    );
    let bare = Task::create("Buy milk".to_string(), None, day(2024, 1, 1)).unwrap();
    assert_eq!(render_spans(&bare).len(), 3);
}

#[test]
fn list_tasks_sorts_then_renders() {
    let mut a = Task::create("A".to_string(), Some(day(2025, 1, 2)), day(2024, 1, 1)).unwrap();
    a._add_subtask(with_deps("a1", 0));
    let b = Task::create("B".to_string(), None, day(2024, 1, 1)).unwrap();
    let mut tasks = vec![a, b];
    let lines = list_tasks(&mut tasks);
    assert_eq!(names(&tasks), vec!["B", "A"]);
    let texts: Vec<String> = lines
        .iter()
        .map(|l| l.iter().map(|s| s.text.as_str()).collect::<String>())
        .collect();
    assert_eq!(texts, vec!["Task: B".to_string(), "Task: A (due 2025-01-02) +1".to_string()]);
}

#[test]
fn color_variant_from_name() {
    assert_eq!(ColorVariant::from_name("mocha"), ColorVariant::Mocha);
    assert_eq!(ColorVariant::from_name("latte"), ColorVariant::Latte);
    assert_eq!(ColorVariant::from_name("frappe"), ColorVariant::Frappe);
    assert_eq!(ColorVariant::from_name("macchiato"), ColorVariant::Macchiato);
    assert_eq!(ColorVariant::from_name("Latte"), ColorVariant::Mocha);
    assert_eq!("nord".parse::<ColorVariant>(), Ok(ColorVariant::Mocha));
    assert_eq!("latte".parse::<ColorVariant>(), Ok(ColorVariant::Latte));
    assert_eq!(ColorVariant::default(), ColorVariant::Mocha);
}
