use taskstore::datetime::DateTime;
use taskstore::store::{load_tasks, save_tasks, StoreError, TaskStore};
use taskstore::task::{Priority, Task};

fn dt(year: u16, month: u8, day: u8, hour: u8, minute: u8, second: u8) -> DateTime {
    DateTime { year, month, day, hour, minute, second }
}

fn scratch_db(name: &str) -> String {
    let path = format!("/tmp/taskstore_test_{}.db", name);
    // start from a clean slate even if an earlier run left a file behind
    let store = TaskStore::new(&path);
    store.ensure_schema().unwrap();
    store.replace_all(&Vec::new()).unwrap();
    path
}

#[test]
fn concrete_scenario_buy_milk() {
    let path = scratch_db("buy_milk");
    let task = Task::new("Buy milk", "2%", dt(2023, 4, 20, 0, 0, 0), Priority::Medium);
    save_tasks(&vec![task], &path).unwrap();
    let loaded = load_tasks(&path).unwrap();
    assert_eq!(loaded.len(), 1);
    let expected = Task::new("Buy milk", "2%", dt(2023, 4, 20, 0, 0, 0), Priority::Medium);
    assert!(loaded[0] == expected);
}

#[test]
fn collection_round_trips_in_order() {
    let path = scratch_db("round_trip");
    let mut t3 = Task::new("pay rent", "", dt(2024, 1, 31, 23, 59, 59), Priority::High);
    t3.status = true;
    let tasks = vec![
        Task::new("walk dog", "around the block", dt(2023, 4, 20, 10, 30, 0), Priority::Low),
        Task::new("walk dog", "again", dt(2023, 4, 21, 10, 30, 0), Priority::Medium),
        t3,
    ];
    save_tasks(&tasks, &path).unwrap();
    let loaded = load_tasks(&path).unwrap();
    assert_eq!(loaded.len(), 3);
    for (a, b) in loaded.iter().zip(tasks.iter()) {
        assert!(a == b);
    }
}

#[test]
fn timestamp_survives_save_and_load() {
    let path = scratch_db("precision");
    let task = Task::new("t", "d", dt(2023, 4, 20, 10, 30, 0), Priority::Low);
    save_tasks(&vec![task], &path).unwrap();
    let loaded = load_tasks(&path).unwrap();
    assert_eq!(loaded[0].due_date, dt(2023, 4, 20, 10, 30, 0));
}

#[test]
fn empty_collection_round_trips() {
    let path = scratch_db("empty");
    // store something first, to show the truncate really clears it
    let tasks = vec![Task::new("old", "", dt(2023, 1, 1, 0, 0, 0), Priority::Low)];
    save_tasks(&tasks, &path).unwrap();
    save_tasks(&Vec::new(), &path).unwrap();
    let loaded = load_tasks(&path).unwrap();
    assert!(loaded.is_empty());
}

#[test]
fn repeated_saves_do_not_accumulate_rows() {
    let path = scratch_db("no_duplicates");
    let tasks = vec![Task::new("only one", "", dt(2023, 1, 1, 0, 0, 0), Priority::Low)];
    for _ in 0..3 {
        save_tasks(&tasks, &path).unwrap();
    }
    assert_eq!(load_tasks(&path).unwrap().len(), 1);
}

#[test]
fn schema_creation_is_idempotent() {
    let path = scratch_db("schema");
    let store = TaskStore::new(&path);
    let tasks = vec![Task::new("keep me", "", dt(2023, 1, 1, 0, 0, 0), Priority::High)];
    store.replace_all(&tasks).unwrap();
    for _ in 0..4 {
        store.ensure_schema().unwrap();
    }
    // no error, and no data loss
    let loaded = store.load_all().unwrap();
    assert_eq!(loaded.len(), 1);
    assert!(loaded[0] == tasks[0]);
}

#[test]
fn out_of_range_priority_code_loads_as_low() {
    let path = scratch_db("bad_priority");
    let conn = rusqlite::Connection::open(&path).unwrap();
    conn.execute(
        "INSERT INTO tasks (title, description, due_date, priority, status) VALUES (?1, ?2, ?3, ?4, ?5)",
        ("t", "d", "2023-04-20T10:30:00Z", 99i64, 0i64),
    )
    .unwrap();
    conn.execute(
        "INSERT INTO tasks (title, description, due_date, priority, status) VALUES (?1, ?2, ?3, ?4, ?5)",
        ("u", "e", "2023-04-20T10:30:00Z", 2i64, 1i64),
    )
    .unwrap();
    drop(conn);
    let loaded = load_tasks(&path).unwrap();
    assert_eq!(loaded.len(), 2);
    assert_eq!(loaded[0].priority, Priority::Low);
    assert_eq!(loaded[1].priority, Priority::High);
    assert!(loaded[1].status);
}

#[test]
fn rows_with_zero_offset_spelling_load_fine() {
    let path = scratch_db("zero_offset");
    let conn = rusqlite::Connection::open(&path).unwrap();
    conn.execute(
        "INSERT INTO tasks (title, description, due_date, priority, status) VALUES (?1, ?2, ?3, ?4, ?5)",
        ("t", "d", "2023-04-20T10:30:00+00:00", 1i64, 0i64),
    )
    .unwrap();
    drop(conn);
    let loaded = load_tasks(&path).unwrap();
    assert_eq!(loaded.len(), 1);
    assert_eq!(loaded[0].due_date, dt(2023, 4, 20, 10, 30, 0));
}

#[test]
fn ill_formed_due_date_fails_the_whole_load() {
    let path = scratch_db("bad_due_date");
    let conn = rusqlite::Connection::open(&path).unwrap();
    conn.execute(
        "INSERT INTO tasks (title, description, due_date, priority, status) VALUES (?1, ?2, ?3, ?4, ?5)",
        ("t", "d", "not a timestamp", 0i64, 0i64),
    )
    .unwrap();
    drop(conn);
    assert_eq!(load_tasks(&path).unwrap_err(), StoreError::Decode);
}

#[test]
fn unwritable_path_yields_storage_error() {
    let path = "/tmp/taskstore_no_such_dir/deeper/tasks.db";
    let tasks = vec![Task::new("t", "", dt(2023, 1, 1, 0, 0, 0), Priority::Low)];
    assert_eq!(save_tasks(&tasks, path).unwrap_err(), StoreError::Storage);
    assert_eq!(load_tasks(path).unwrap_err(), StoreError::Storage);
    let store = TaskStore::new(path);
    assert_eq!(store.ensure_schema().unwrap_err(), StoreError::Storage);
    // the caller's collection is untouched by the failed save
    assert_eq!(tasks.len(), 1);
    assert_eq!(tasks[0].title, "t");
}
