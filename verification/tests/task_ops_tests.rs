use taskstore::datetime::DateTime;
use taskstore::task::{
    add_task, clone_task, complete_task, find_task, sort_tasks_by_due_date,
    sort_tasks_by_priority, Priority, Task,
};

fn dt(year: u16, month: u8, day: u8) -> DateTime {
    DateTime { year, month, day, hour: 0, minute: 0, second: 0 }
}

fn sample() -> Vec<Task> {
    vec![
        Task::new("alpha", "first", dt(2023, 1, 1), Priority::Low),
        Task::new("beta", "second", dt(2023, 2, 2), Priority::Medium),
        Task::new("alpha", "third", dt(2023, 3, 3), Priority::High),
    ]
}

#[test]
fn add_appends_at_the_end() {
    let mut tasks = sample();
    add_task(&mut tasks, Task::new("gamma", "", dt(2024, 1, 1), Priority::Low));
    assert_eq!(tasks.len(), 4);
    assert_eq!(tasks[3].title, "gamma");
}

#[test]
fn remove_drops_every_task_with_the_title() {
    let mut tasks = sample();
    taskstore::task::remove_task(&mut tasks, "alpha");
    assert_eq!(tasks.len(), 1);
    assert_eq!(tasks[0].title, "beta");
}

#[test]
fn remove_of_unknown_title_changes_nothing() {
    let mut tasks = sample();
    taskstore::task::remove_task(&mut tasks, "delta");
    assert_eq!(tasks.len(), 3);
}

#[test]
fn find_returns_the_first_match() {
    let tasks = sample();
    assert_eq!(find_task(&tasks, "alpha"), Some(0));
    assert_eq!(find_task(&tasks, "beta"), Some(1));
    assert_eq!(find_task(&tasks, "delta"), None);
}

#[test]
fn complete_marks_only_the_first_match() {
    let mut tasks = sample();
    assert_eq!(complete_task(&mut tasks, "alpha"), Some(0));
    assert!(tasks[0].status);
    assert!(!tasks[2].status);
    assert_eq!(complete_task(&mut tasks, "delta"), None);
}

#[test]
fn sorting_by_due_date_orders_chronologically() {
    let mut tasks = vec![
        Task::new("c", "", dt(2024, 1, 2), Priority::Low),
        Task::new("a", "", dt(2023, 12, 31), Priority::High),
        Task::new("b", "", dt(2024, 1, 1), Priority::Medium),
    ];
    sort_tasks_by_due_date(&mut tasks);
    let titles: Vec<&str> = tasks.iter().map(|t| t.title.as_str()).collect();
    assert_eq!(titles, ["a", "b", "c"]);
}

#[test]
fn sorting_by_priority_orders_low_to_high() {
    let mut tasks = vec![
        Task::new("h", "", dt(2023, 1, 1), Priority::High),
        Task::new("l", "", dt(2023, 1, 2), Priority::Low),
        Task::new("m", "", dt(2023, 1, 3), Priority::Medium),
    ];
    sort_tasks_by_priority(&mut tasks);
    let prios: Vec<Priority> = tasks.iter().map(|t| t.priority).collect();
    assert_eq!(prios, [Priority::Low, Priority::Medium, Priority::High]);
}

#[test]
fn sorting_by_due_date_is_stable() {
    let mut tasks = vec![
        Task::new("late", "", dt(2024, 6, 1), Priority::Low),
        Task::new("first", "", dt(2023, 1, 1), Priority::Low),
        Task::new("second", "", dt(2023, 1, 1), Priority::High),
        Task::new("third", "", dt(2023, 1, 1), Priority::Medium),
    ];
    sort_tasks_by_due_date(&mut tasks);
    let titles: Vec<&str> = tasks.iter().map(|t| t.title.as_str()).collect();
    assert_eq!(titles, ["first", "second", "third", "late"]);
}

#[test]
fn sorting_by_priority_is_stable() {
    let mut tasks = vec![
        Task::new("h1", "", dt(2024, 1, 1), Priority::High),
        Task::new("l1", "", dt(2024, 1, 2), Priority::Low),
        Task::new("h2", "", dt(2024, 1, 3), Priority::High),
        Task::new("l2", "", dt(2024, 1, 4), Priority::Low),
    ];
    sort_tasks_by_priority(&mut tasks);
    let titles: Vec<&str> = tasks.iter().map(|t| t.title.as_str()).collect();
    assert_eq!(titles, ["l1", "l2", "h1", "h2"]);
}

#[test]
fn sorting_by_date_then_priority_groups_dates_within_priority() {
    let mut tasks = vec![
        Task::new("m2", "", dt(2024, 3, 1), Priority::Medium),
        Task::new("l1", "", dt(2024, 1, 1), Priority::Low),
        Task::new("m1", "", dt(2024, 2, 1), Priority::Medium),
        Task::new("l2", "", dt(2024, 4, 1), Priority::Low),
    ];
    sort_tasks_by_due_date(&mut tasks);
    sort_tasks_by_priority(&mut tasks);
    let titles: Vec<&str> = tasks.iter().map(|t| t.title.as_str()).collect();
    assert_eq!(titles, ["l1", "l2", "m1", "m2"]);
}

#[test]
fn clone_carries_every_field() {
    let mut original = Task::new("t", "d", dt(2023, 5, 6), Priority::High);
    original.status = true;
    let copy = clone_task(&original);
    assert!(copy == original);
}
