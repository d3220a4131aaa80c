//! The SQLite-backed task store.
//!
//! A [`TaskStore`] owns the path of a single database file holding one
//! `tasks` table. Each operation opens its own connection and releases it
//! on return. The row codec — timestamp text, priority code, status flag —
//! is verified, and [`lemma_store_roundtrip`] proves that a well-formed
//! collection survives an encode/decode cycle unchanged. The database
//! calls themselves go through a handful of trusted wrappers around
//! rusqlite.
//!
//! Policy choices, stated as contracts here:
//! - `replace_all` truncates before inserting, inside one transaction, so
//!   repeated save cycles never accumulate duplicate rows and a failed
//!   save leaves the stored collection as it was (all-or-nothing).
//! - `load_all` fails atomically with [`StoreError::Decode`] when any
//!   stored due-date text is not a well-formed timestamp, rather than
//!   skipping the row or panicking.

use vstd::prelude::*;
use crate::datetime::{
    decode_datetime,
    encode_datetime,
    format_datetime,
    lemma_datetime_roundtrip,
    parse_datetime,
};
use crate::task::{
    Task,
    TaskModel,
    decode_priority,
    encode_priority,
    lemma_priority_roundtrip,
    priority_code,
    priority_of_code,
};

verus! {

/// What can go wrong at the persistence boundary.
///
/// - `Storage`: the database file could not be opened, read or written.
/// - `Decode`: a stored row could not be coerced back to a task (its
///   due-date text is not a well-formed timestamp).
#[derive(Clone, Copy, Debug, PartialEq, Eq, Structural)]
pub enum StoreError {
    Storage,
    Decode,
}

/// One durable row of the `tasks` table, as plain column values: text
/// title, text description, timestamp text due date, integer priority
/// code, integer status flag.
pub struct RawRow {
    pub title: String,
    pub description: String,
    pub due_date: String,
    pub priority: i64,
    pub status: i64,
}

/// The mathematical value of a durable row.
#[verifier::ext_equal]
pub ghost struct RowModel {
    pub title: Seq<char>,
    pub description: Seq<char>,
    pub due_date: Seq<char>,
    pub priority: int,
    pub status: int,
}

impl View for RawRow {
    type V = RowModel;

    open spec fn view(&self) -> RowModel {
        RowModel {
            title: self.title@,
            description: self.description@,
            due_date: self.due_date@,
            priority: self.priority as int,
            status: self.status as int,
        }
    }
}

/// The row a task is stored as: title and description unchanged, the due
/// date as timestamp text, the priority as its code, the status as 0 / 1.
pub open spec fn encode_model(t: TaskModel) -> RowModel {
    RowModel {
        title: t.title,
        description: t.description,
        due_date: encode_datetime(t.due_date),
        priority: priority_code(t.priority),
        status: if t.status {
            1
        } else {
            0
        },
    }
}

/// The task a row decodes to: `None` exactly when the due-date text is
/// not a well-formed timestamp. The priority falls back to `Low` for an
/// unknown code; any nonzero status flag counts as complete.
pub open spec fn decode_model(r: RowModel) -> Option<TaskModel> {
    match decode_datetime(r.due_date) {
        Some(dt) => Some(
            TaskModel {
                title: r.title,
                description: r.description,
                due_date: dt,
                priority: priority_of_code(r.priority),
                status: r.status != 0,
            },
        ),
        None => None,
    }
}

pub open spec fn encode_all(ts: Seq<TaskModel>) -> Seq<RowModel> {
    Seq::new(ts.len(), |i: int| encode_model(ts[i]))
}

/// Decoding a whole row sequence: `Some` only when every row decodes.
pub open spec fn decode_all(rs: Seq<RowModel>) -> Option<Seq<TaskModel>> {
    if forall|i: int| 0 <= i < rs.len() ==> decode_model(rs[i]) is Some {
        Some(Seq::new(rs.len(), |i: int| decode_model(rs[i]).unwrap()))
    } else {
        None
    }
}

pub open spec fn all_wf(ts: Seq<Task>) -> bool {
    forall|i: int| 0 <= i < ts.len() ==> (#[trigger] ts[i])@.wf()
}

pub open spec fn tasks_model(ts: Seq<Task>) -> Seq<TaskModel> {
    Seq::new(ts.len(), |i: int| ts[i]@)
}

pub open spec fn rows_model(rows: Seq<RawRow>) -> Seq<RowModel> {
    Seq::new(rows.len(), |i: int| rows[i]@)
}

/// Round trip of the row codec: a collection of well-formed tasks,
/// encoded row by row, decodes back to exactly the same collection — same
/// order, every field equal.
pub proof fn lemma_store_roundtrip(ts: Seq<TaskModel>)
    requires
        forall|i: int| 0 <= i < ts.len() ==> (#[trigger] ts[i]).wf(),
    ensures
        decode_all(encode_all(ts)) == Some(ts),
{
    let rs = encode_all(ts);
    assert forall|i: int| 0 <= i < rs.len() implies decode_model(rs[i]) is Some && decode_model(
        rs[i],
    ).unwrap() =~= ts[i] by {
        lemma_datetime_roundtrip(ts[i].due_date);
        lemma_priority_roundtrip(ts[i].priority);
    }
    assert(decode_all(rs).unwrap() =~= ts);
}

/// Encode one well-formed task as its durable row.
pub fn encode_task(t: &Task) -> (r: RawRow)
    requires
        t@.wf(),
    ensures
        r@ == encode_model(t@),
{
    let row = RawRow {
        title: t.title.clone(),
        description: t.description.clone(),
        due_date: format_datetime(&t.due_date),
        priority: encode_priority(t.priority),
        status: if t.status {
            1
        } else {
            0
        },
    };
    proof {
        assert(row@ =~= encode_model(t@));
    }
    row
}

/// Decode one durable row back into a task. A row whose due-date text is
/// not a well-formed timestamp yields `Decode`; every decoded task is
/// well-formed.
pub fn decode_task(r: &RawRow) -> (t: Result<Task, StoreError>)
    ensures
        match decode_model(r@) {
            Some(m) => t matches Ok(task) && task@ == m,
            None => t == Err::<Task, StoreError>(StoreError::Decode),
        },
{
    match parse_datetime(r.due_date.as_str()) {
        Some(dt) => {
            let task = Task {
                title: r.title.clone(),
                description: r.description.clone(),
                due_date: dt,
                priority: decode_priority(r.priority),
                status: r.status != 0,
            };
            proof {
                assert(task@ =~= decode_model(r@).unwrap());
            }
            Ok(task)
        },
        None => Err(StoreError::Decode),
    }
}

/// Encode a whole well-formed collection, in order.
pub fn encode_tasks(ts: &Vec<Task>) -> (rows: Vec<RawRow>)
    requires
        all_wf(ts@),
    ensures
        rows_model(rows@) == encode_all(tasks_model(ts@)),
{
    let mut rows: Vec<RawRow> = Vec::new();
    let mut i: usize = 0;
    while i < ts.len()
        invariant
            0 <= i <= ts@.len(),
            all_wf(ts@),
            rows@.len() == i,
            forall|j: int| 0 <= j < i ==> (#[trigger] rows@[j])@ == encode_model(ts@[j]@),
        decreases ts@.len() - i,
    {
        let row = encode_task(&ts[i]);
        rows.push(row);
        i += 1;
    }
    proof {
        assert(rows_model(rows@) =~= encode_all(tasks_model(ts@)));
    }
    rows
}

/// Decode a whole row sequence, in order; the load fails atomically with
/// `Decode` as soon as any row fails to decode.
pub fn decode_rows(rows: &Vec<RawRow>) -> (r: Result<Vec<Task>, StoreError>)
    ensures
        match decode_all(rows_model(rows@)) {
            Some(ms) => r matches Ok(ts) && tasks_model(ts@) == ms,
            None => r == Err::<Vec<Task>, StoreError>(StoreError::Decode),
        },
{
    let mut out: Vec<Task> = Vec::new();
    let mut i: usize = 0;
    while i < rows.len()
        invariant
            0 <= i <= rows@.len(),
            out@.len() == i,
            forall|j: int| 0 <= j < i ==> decode_model(#[trigger] rows@[j]@) is Some,
            forall|j: int| 0 <= j < i ==> (#[trigger] out@[j])@ == decode_model(rows@[j]@).unwrap(),
        decreases rows@.len() - i,
    {
        match decode_task(&rows[i]) {
            Ok(task) => {
                out.push(task);
            },
            Err(_) => {
                proof {
                    assert(decode_model(rows_model(rows@)[i as int]) is None);
                    assert(decode_all(rows_model(rows@)) is None);
                }
                return Err(StoreError::Decode);
            },
        }
        i += 1;
    }
    proof {
        assert(forall|j: int| 0 <= j < rows@.len() ==> decode_model(
            #[trigger] rows_model(rows@)[j],
        ) is Some);
        assert(tasks_model(out@) =~= decode_all(rows_model(rows@)).unwrap());
    }
    Ok(out)
}

#[verifier::external_type_specification]
#[verifier::external_body]
pub struct ExConnection(rusqlite::Connection);

#[verifier::external_type_specification]
#[verifier::external_body]
pub struct ExSqlError(rusqlite::Error);

/// Relies on rusqlite's `Connection::open`: opens the database file at
/// `path`, creating it if absent, and fails on an unopenable path.
#[verifier::external_body]
fn open_db(path: &str) -> Result<rusqlite::Connection, rusqlite::Error> {
    rusqlite::Connection::open(path)
}

/// Relies on rusqlite's `Connection::execute`: runs one parameterless SQL
/// statement, failing on SQL or storage errors.
#[verifier::external_body]
fn exec_sql(conn: &rusqlite::Connection, sql: &str) -> Result<usize, rusqlite::Error> {
    conn.execute(sql, ())
}

/// Relies on rusqlite's `Connection::execute` with parameters: inserts
/// the given row into the `tasks` table.
#[verifier::external_body]
fn insert_row(conn: &rusqlite::Connection, row: &RawRow) -> Result<usize, rusqlite::Error> {
    conn.execute(
        "INSERT INTO tasks (title, description, due_date, priority, status) VALUES (?1, ?2, ?3, ?4, ?5)",
        (&row.title, &row.description, &row.due_date, row.priority, row.status),
    )
}

/// Relies on rusqlite's `Connection::prepare`, `Statement::query_map` and
/// iterator collection: reads every row of the `tasks` table, in storage
/// order, as plain column values.
#[verifier::external_body]
fn select_rows(conn: &rusqlite::Connection) -> Result<Vec<RawRow>, rusqlite::Error> {
    let mut stmt = conn.prepare(
        "SELECT title, description, due_date, priority, status FROM tasks",
    )?;
    let rows = stmt.query_map((), |row| {
        Ok(RawRow {
            title: row.get(0)?,
            description: row.get(1)?,
            due_date: row.get(2)?,
            priority: row.get(3)?,
            status: row.get(4)?,
        })
    })?;
    rows.collect()
}

fn create_table(conn: &rusqlite::Connection) -> (r: Result<(), StoreError>)
    ensures
        r matches Err(e) ==> e == StoreError::Storage,
{
    let outcome = exec_sql(
        conn,
        "CREATE TABLE IF NOT EXISTS tasks (id INTEGER PRIMARY KEY, title TEXT NOT NULL, description TEXT NOT NULL, due_date TEXT NOT NULL, priority INTEGER NOT NULL, status INTEGER NOT NULL)",
    );
    match outcome {
        Ok(_) => Ok(()),
        Err(_) => Err(StoreError::Storage),
    }
}

/// A file-backed task store. It holds only the path of its database
/// file; every operation opens a fresh connection and releases it on
/// return, on success and on failure alike.
pub struct TaskStore {
    pub path: String,
}

impl TaskStore {
    pub fn new(path: &str) -> (r: TaskStore)
        ensures
            r.path@ == path@,
    {
        TaskStore { path: path.to_owned() }
    }

    /// Create the `tasks` table if it is absent. Safe to call every run:
    /// an already existing schema is never an error.
    pub fn ensure_schema(&self) -> (r: Result<(), StoreError>)
        ensures
            r matches Err(e) ==> e == StoreError::Storage,
    {
        let conn = match open_db(self.path.as_str()) {
            Ok(c) => c,
            Err(_) => {
                return Err(StoreError::Storage);
            },
        };
        create_table(&conn)
    }

    /// Read and decode every stored task, in storage order, after making
    /// sure the schema exists. Fails with `Storage` on any database
    /// failure, and atomically with `Decode` when any stored due-date
    /// text is not a well-formed timestamp (no rows are skipped
    /// silently). Every task returned is well-formed.
    pub fn load_all(&self) -> (r: Result<Vec<Task>, StoreError>)
        ensures
            r matches Ok(ts) ==> all_wf(ts@),
    {
        let conn = match open_db(self.path.as_str()) {
            Ok(c) => c,
            Err(_) => {
                return Err(StoreError::Storage);
            },
        };
        match create_table(&conn) {
            Ok(_) => (),
            Err(e) => {
                return Err(e);
            },
        }
        let rows = match select_rows(&conn) {
            Ok(rs) => rs,
            Err(_) => {
                return Err(StoreError::Storage);
            },
        };
        let tasks = match decode_rows(&rows) {
            Ok(ts) => ts,
            Err(e) => {
                return Err(e);
            },
        };
        proof {
            let rs = rows_model(rows@);
            assert(decode_all(rs) is Some);
            let ms = decode_all(rs).unwrap();
            assert(tasks_model(tasks@) == ms);
            assert(tasks_model(tasks@).len() == tasks@.len());
            assert(ms.len() == rs.len());
            assert(tasks@.len() == rs.len());
            assert forall|i: int| 0 <= i < tasks@.len() implies (#[trigger] tasks@[i])@.wf() by {
                assert(decode_model(rs[i]) is Some);
                assert(ms[i] == decode_model(rs[i]).unwrap());
                assert(tasks@[i]@ == tasks_model(tasks@)[i]);
            }
        }
        Ok(tasks)
    }

    /// Replace the stored collection with `tasks`: make sure the schema
    /// exists, then — inside one transaction — delete every prior row and
    /// insert one row per task, in order. On any failure the transaction
    /// is rolled back, so the stored collection is either fully replaced
    /// or left as it was; duplicates can never accumulate across save
    /// cycles.
    pub fn replace_all(&self, tasks: &Vec<Task>) -> (r: Result<(), StoreError>)
        requires
            all_wf(tasks@),
        ensures
            r matches Err(e) ==> e == StoreError::Storage,
    {
        let rows = encode_tasks(tasks);
        let conn = match open_db(self.path.as_str()) {
            Ok(c) => c,
            Err(_) => {
                return Err(StoreError::Storage);
            },
        };
        match create_table(&conn) {
            Ok(_) => (),
            Err(e) => {
                return Err(e);
            },
        }
        match exec_sql(&conn, "BEGIN") {
            Ok(_) => (),
            Err(_) => {
                return Err(StoreError::Storage);
            },
        }
        match exec_sql(&conn, "DELETE FROM tasks") {
            Ok(_) => (),
            Err(_) => {
                return Err(StoreError::Storage);
            },
        }
        let mut i: usize = 0;
        while i < rows.len()
            decreases rows@.len() - i,
        {
            match insert_row(&conn, &rows[i]) {
                Ok(_) => (),
                Err(_) => {
                    return Err(StoreError::Storage);
                },
            }
            i += 1;
        }
        match exec_sql(&conn, "COMMIT") {
            Ok(_) => Ok(()),
            Err(_) => Err(StoreError::Storage),
        }
    }
}

/// Persist the whole collection to the database file at `path`,
/// replacing any previously stored collection (truncate, then insert,
/// all-or-nothing).
pub fn save_tasks(tasks: &Vec<Task>, path: &str) -> (r: Result<(), StoreError>)
    requires
        all_wf(tasks@),
    ensures
        r matches Err(e) ==> e == StoreError::Storage,
{
    let store = TaskStore::new(path);
    store.replace_all(tasks)
}

/// Load the whole stored collection from the database file at `path`.
/// Every task returned is well-formed.
pub fn load_tasks(path: &str) -> (r: Result<Vec<Task>, StoreError>)
    ensures
        r matches Ok(ts) ==> all_wf(ts@),
{
    let store = TaskStore::new(path);
    store.load_all()
}

} // verus!
