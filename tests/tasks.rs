use clask::codec::{
    counter_key, create_task, delete_outcome, format_date, id_from_counter, parse_date,
    parse_number, parse_task_key, read_task, status_change, task_fields, task_key, Fields,
};
use clask::model::{validate_texts, Date, Priority, Status, Task, TaskError};
use clask::query::{
    collect_listing, filter_tasks, keyword_matches_folded, list_tasks, task_ids_from_keys,
    task_matches, TaskFilter,
};
use clask::summary::Summary;
use clask::text::{contains_text, parse_u32, push_decimal, same_text};

fn date(y: u32, m: u32, d: u32) -> Date {
    Date::new(y, m, d).unwrap()
}

fn task(reply: i64, title: &str, description: &str, priority: Priority, created: Date) -> Task {
    create_task(reply, title.to_string(), description.to_string(), priority, created).unwrap()
}

fn keywords(k: &str) -> TaskFilter {
    TaskFilter { priority: None, keywords: Some(k.to_string()), from: None, to: None }
}

#[test]
fn scenario_create_default_priority() {
    let t = task(1, "Buy milk", "2 liters", Priority::Low, date(2024, 1, 10));
    assert_eq!(t.id, 1);
    assert_eq!(t.priority, Priority::Low);
    assert_eq!(t.status, Status::ToDo);
    assert_eq!(t.title, "Buy milk");
    assert_eq!(t.description, "2 liters");
}

#[test]
fn scenario_change_status_list_and_summary() {
    let mut first = task(1, "Buy milk", "2 liters", Priority::Low, date(2024, 1, 10));
    let second = task(2, "Buy eggs", "a dozen", Priority::Low, date(2024, 1, 11));
    let (field, value) = status_change(true, Status::Done).unwrap();
    assert_eq!(field, "status");
    assert_eq!(value, "Done");
    first.set_status(Status::Done);
    let tasks = vec![first, second];
    let listed = filter_tasks(&tasks, &TaskFilter::all());
    assert_eq!(listed.len(), 2);
    assert_eq!(listed[0].id, 1);
    assert_eq!(listed[1].id, 2);
    let s = Summary::of_tasks(&tasks);
    assert_eq!(s.count(Status::Done, Priority::Low), 1);
    assert_eq!(s.count(Status::ToDo, Priority::Low), 1);
    assert_eq!(s.count(Status::InProgress, Priority::Low), 0);
    assert_eq!(s.count(Status::Done, Priority::High), 0);
    assert_eq!(s.status_total(Status::Done), 1);
    assert_eq!(s.status_total(Status::ToDo), 1);
    assert_eq!(s.grand_total(), 2);
}

#[test]
fn scenario_keyword_filter() {
    let tasks = vec![task(1, "Buy milk", "2 liters", Priority::Low, date(2024, 1, 10))];
    let hits = filter_tasks(&tasks, &keywords("milk"));
    assert_eq!(hits.len(), 1);
    assert_eq!(hits[0].id, 1);
    assert_eq!(filter_tasks(&tasks, &keywords("bread")).len(), 0);
}

#[test]
fn keyword_filter_ignores_case() {
    let tasks = vec![task(1, "Buy milk", "2 liters", Priority::Low, date(2024, 1, 10))];
    assert_eq!(filter_tasks(&tasks, &keywords("MILK")).len(), 1);
    assert_eq!(filter_tasks(&tasks, &keywords("Liters")).len(), 1);
}

#[test]
fn scenario_date_range_excludes_later_task() {
    let tasks = vec![
        task(1, "January", "inside", Priority::Low, date(2024, 1, 15)),
        task(2, "February", "outside", Priority::Low, date(2024, 2, 1)),
        task(3, "Bound", "first day", Priority::Low, date(2024, 1, 1)),
        task(4, "Bound", "last day", Priority::Low, date(2024, 1, 31)),
    ];
    let f = TaskFilter {
        priority: None,
        keywords: None,
        from: Some(date(2024, 1, 1)),
        to: Some(date(2024, 1, 31)),
    };
    let ids: Vec<u32> = filter_tasks(&tasks, &f).iter().map(|t| t.id).collect();
    assert_eq!(ids, vec![1, 3, 4]);
}

#[test]
fn filters_combine() {
    let tasks = vec![
        task(1, "Write report", "quarterly", Priority::High, date(2024, 3, 1)),
        task(2, "Write letter", "to bank", Priority::Low, date(2024, 3, 2)),
        task(3, "Read report", "annual", Priority::High, date(2023, 3, 1)),
    ];
    let f = TaskFilter {
        priority: Some(Priority::High),
        keywords: Some("report".to_string()),
        from: Some(date(2024, 1, 1)),
        to: None,
    };
    let hits = filter_tasks(&tasks, &f);
    assert_eq!(hits.len(), 1);
    assert_eq!(hits[0].id, 1);
    assert!(task_matches(&tasks[2], &keywords("REPORT")));
}

#[test]
fn filtering_twice_gives_the_same() {
    let tasks = vec![
        task(1, "Buy milk", "2 liters", Priority::Low, date(2024, 1, 10)),
        task(2, "Walk", "the dog", Priority::Medium, date(2024, 1, 11)),
    ];
    let f = keywords("milk");
    let once = filter_tasks(&tasks, &f);
    let again = filter_tasks(&tasks, &f);
    let twice = filter_tasks(&once, &f);
    let ids = |v: &Vec<Task>| v.iter().map(|t| t.id).collect::<Vec<u32>>();
    assert_eq!(ids(&once), ids(&again));
    assert_eq!(ids(&once), ids(&twice));
}

#[test]
fn new_task_rejects_empty_text() {
    let d = date(2024, 1, 1);
    let r = create_task(5, String::new(), "x".to_string(), Priority::Low, d);
    assert_eq!(r.unwrap_err(), TaskError::ValidationError);
    let r = create_task(5, "x".to_string(), String::new(), Priority::Low, d);
    assert_eq!(r.unwrap_err(), TaskError::ValidationError);
    let r = Task::new(5, "x".to_string(), String::new(), Priority::High, d);
    assert_eq!(r.unwrap_err(), TaskError::ValidationError);
}

#[test]
fn counter_replies_give_ids() {
    assert_eq!(id_from_counter(1), Ok(1));
    assert_eq!(id_from_counter(4294967295), Ok(u32::MAX));
    assert_eq!(id_from_counter(0), Err(TaskError::Corrupt));
    assert_eq!(id_from_counter(-3), Err(TaskError::Corrupt));
    assert_eq!(id_from_counter(4294967296), Err(TaskError::Corrupt));
    let ids: Vec<u32> = (1..=5).map(|r| id_from_counter(r).unwrap()).collect();
    assert!(ids.windows(2).all(|w| w[0] < w[1]));
    let r = create_task(0, "a".to_string(), "b".to_string(), Priority::Low, date(2024, 1, 1));
    assert_eq!(r.unwrap_err(), TaskError::Corrupt);
}

#[test]
fn keys_follow_the_scheme() {
    assert_eq!(task_key(1), "task:1");
    assert_eq!(task_key(4027), "task:4027");
    assert_eq!(task_key(0), "task:0");
    assert_eq!(counter_key(), "task:counter");
    assert_eq!(parse_task_key("task:42"), Some(42));
    assert_eq!(parse_task_key("task:counter"), None);
    assert_eq!(parse_task_key("task:"), None);
    assert_eq!(parse_task_key("todo:1"), None);
    assert_eq!(parse_task_key("task:4294967296"), None);
}

#[test]
fn fields_hold_the_record() {
    let t = task(7, "Buy milk", "2 liters", Priority::Medium, date(2024, 2, 29));
    let f = task_fields(&t);
    let expect = [
        ("id", "7"),
        ("title", "Buy milk"),
        ("description", "2 liters"),
        ("priority", "Medium"),
        ("status", "ToDo"),
        ("created_at", "2024-02-29"),
    ];
    assert_eq!(f.len(), expect.len());
    for (got, want) in f.iter().zip(expect.iter()) {
        assert_eq!(got.0, want.0);
        assert_eq!(got.1, want.1);
    }
}

#[test]
fn record_round_trips_in_any_field_order() {
    let mut t = task(12, "Plan trip", "Lisbon, May", Priority::High, date(2025, 5, 3));
    t.set_status(Status::InProgress);
    let mut f = task_fields(&t);
    f.reverse();
    let back = read_task(12, &f).unwrap().unwrap();
    assert_eq!(back.id, t.id);
    assert_eq!(back.title, t.title);
    assert_eq!(back.description, t.description);
    assert_eq!(back.priority, t.priority);
    assert_eq!(back.status, Status::InProgress);
    assert_eq!(back.created_at, t.created_at);
}

#[test]
fn delete_then_read_is_absent() {
    assert_eq!(delete_outcome(1), Ok(()));
    let empty: Fields = Vec::new();
    assert!(read_task(3, &empty).unwrap().is_none());
    assert_eq!(delete_outcome(0), Err(TaskError::NotFound));
    assert_eq!(status_change(false, Status::Done).unwrap_err(), TaskError::NotFound);
}

#[test]
fn damaged_records_are_corrupt() {
    let t = task(3, "A", "B", Priority::Low, date(2024, 1, 1));
    let mut missing = task_fields(&t);
    missing.pop();
    assert_eq!(read_task(3, &missing).unwrap_err(), TaskError::Corrupt);
    let mut bad = task_fields(&t);
    bad[3].1 = "Urgent".to_string();
    assert_eq!(read_task(3, &bad).unwrap_err(), TaskError::Corrupt);
    let mut bad_date = task_fields(&t);
    bad_date[5].1 = "2023-02-29".to_string();
    assert_eq!(read_task(3, &bad_date).unwrap_err(), TaskError::Corrupt);
    let good = task_fields(&t);
    assert_eq!(read_task(4, &good).unwrap_err(), TaskError::Corrupt);
}

#[test]
fn listing_is_sorted_and_fails_on_corruption() {
    let keys: Vec<String> = ["task:10", "task:counter", "task:2", "task:7", "task:2"]
        .iter()
        .map(|s| s.to_string())
        .collect();
    let ids = task_ids_from_keys(&keys);
    assert_eq!(ids, vec![2, 7, 10]);
    let a = task(2, "two", "d", Priority::Low, date(2024, 1, 2));
    let c = task(10, "ten", "d", Priority::High, date(2024, 1, 10));
    let fetched = vec![task_fields(&a), Vec::new(), task_fields(&c)];
    let all = collect_listing(&ids, &fetched).unwrap();
    assert_eq!(all.iter().map(|t| t.id).collect::<Vec<u32>>(), vec![2, 10]);
    let high = TaskFilter { priority: Some(Priority::High), keywords: None, from: None, to: None };
    let some = list_tasks(&ids, &fetched, &high).unwrap();
    assert_eq!(some.len(), 1);
    assert_eq!(some[0].id, 10);
    let mut broken = fetched.clone();
    broken[2].remove(1);
    assert_eq!(collect_listing(&ids, &broken).unwrap_err(), TaskError::Corrupt);
}

#[test]
fn summary_of_nothing_is_zero() {
    let s = Summary::of_tasks(&Vec::new());
    assert_eq!(s.grand_total(), 0);
    assert_eq!(s.count(Status::ToDo, Priority::Low), 0);
}

#[test]
fn summary_cells_add_up() {
    let mut tasks = Vec::new();
    let ps = [Priority::Low, Priority::Medium, Priority::High];
    let ss = [Status::ToDo, Status::InProgress, Status::Done];
    for i in 0..10i64 {
        let mut t = task(i + 1, "t", "d", ps[(i % 3) as usize], date(2024, 1, 1));
        t.set_status(ss[(i % 2) as usize]);
        tasks.push(t);
    }
    let s = Summary::of_tasks(&tasks);
    let mut sum = 0;
    for st in ss {
        for p in ps {
            sum += s.count(st, p);
        }
    }
    assert_eq!(sum, 10);
    assert_eq!(s.grand_total(), 10);
    assert_eq!(s.count(Status::ToDo, Priority::Low), 2);
    assert_eq!(s.status_total(Status::InProgress), 5);
}

#[test]
fn canonical_names() {
    assert_eq!(Priority::Medium.canonical_name(), "Medium");
    assert_eq!(Status::InProgress.canonical_name(), "InProgress");
    assert_eq!(Priority::from_canonical_name("High"), Some(Priority::High));
    assert_eq!(Priority::from_canonical_name("high"), None);
    assert_eq!(Status::from_canonical_name("ToDo"), Some(Status::ToDo));
    assert_eq!(Status::from_canonical_name("Todo"), None);
}

#[test]
fn dates_parse_and_format() {
    assert_eq!(format_date(&date(7, 3, 9)), "0007-03-09");
    assert_eq!(parse_date("2024-02-29"), Some(date(2024, 2, 29)));
    assert_eq!(parse_date("2023-02-29"), None);
    assert_eq!(parse_date("2024-13-01"), None);
    assert_eq!(parse_date("2024/01/01"), None);
    assert_eq!(parse_date("24-01-01"), None);
    assert!(Date::new(2000, 2, 29).is_some());
    assert!(Date::new(1900, 2, 29).is_none());
    assert!(Date::new(10000, 1, 1).is_none());
    assert!(date(2024, 1, 31).on_or_before(&date(2024, 2, 1)));
    assert!(!date(2024, 2, 1).on_or_before(&date(2024, 1, 31)));
}

#[test]
fn clock_parts_become_dates() {
    assert_eq!(Date::from_parts(2024, 2, 29), Some(date(2024, 2, 29)));
    assert_eq!(Date::from_parts(-1, 1, 1), None);
    assert_eq!(Date::from_parts(2023, 2, 29), None);
    assert_eq!(Date::from_parts(10000, 1, 1), None);
}

#[test]
fn texts_are_checked_before_allocation() {
    assert_eq!(validate_texts("Buy milk", "2 liters"), Ok(()));
    assert_eq!(validate_texts("", "2 liters"), Err(TaskError::ValidationError));
    assert_eq!(validate_texts("Buy milk", ""), Err(TaskError::ValidationError));
}

#[test]
fn text_helpers() {
    assert_eq!(parse_u32("0"), Some(0));
    assert_eq!(parse_u32("4294967295"), Some(u32::MAX));
    assert_eq!(parse_u32("4294967296"), None);
    assert_eq!(parse_u32(""), None);
    assert_eq!(parse_u32("1a"), None);
    assert_eq!(parse_number("0012"), Some(12));
    let mut s = String::from("n=");
    push_decimal(&mut s, 305);
    assert_eq!(s, "n=305");
    assert!(same_text("abc", "abc"));
    assert!(!same_text("abc", "abd"));
    assert!(contains_text("hello", "ll"));
    assert!(contains_text("hello", ""));
    assert!(!contains_text("he", "hello"));
    assert!(keyword_matches_folded("ilk", "buy milk", "x"));
    assert!(!keyword_matches_folded("k2", "buy milk", "2 liters"));
}

#[test]
fn status_changes_are_unguarded() {
    let mut t = task(1, "Buy milk", "2 liters", Priority::Low, date(2024, 1, 10));
    t.set_status(Status::Done);
    assert_eq!(t.status, Status::Done);
    t.set_status(Status::InProgress);
    assert_eq!(t.status, Status::InProgress);
    t.set_status(Status::ToDo);
    assert_eq!(t.status, Status::ToDo);
    assert_eq!(t.title, "Buy milk");
    assert_eq!(t.priority, Priority::Low);
}
