//! The SQLite store's logic: the SQL it runs, the parameters it binds, and
//! how it reads rows back into tasks. Running the statements is left to the
//! caller, which holds the connection.
use vstd::prelude::*;
use crate::text::push_str;
use crate::text::same_text;
use crate::tasker::task::{Status, Timestamp, Task, TaskView, Query};
use crate::tasker::encoding::{
    uuid_text, uuid_parse, rfc3339_of, rfc3339_instant, lowercase, parse_uuid, format_uuid,
    format_rfc3339, parse_rfc3339, to_lowercase, four_digit_year,
};

verus! {

/// The table of tasks and its index on status.
pub const SCHEMA_SQL: &'static str = "CREATE TABLE IF NOT EXISTS tasks(
                id TEXT PRIMARY KEY,
                title TEXT NOT NULL,
                status TEXT NOT NULL,
                created_at TEXT NOT NULL,
                updated_at TEXT NOT NULL
            );
            CREATE INDEX IF NOT EXISTS idx_tasks_status ON tasks(status);";

/// Inserts a task; binds id, title, status, created_at, updated_at.
pub const INSERT_SQL: &'static str = "INSERT INTO tasks(id,title,status,created_at,updated_at)
             VALUES(?,?,?,?,?)";

/// Selects one task; binds its id.
pub const SELECT_ONE_SQL: &'static str = "SELECT id,title,status,created_at,updated_at FROM tasks WHERE id=?1";

/// Selects all tasks, before any condition.
pub const SELECT_ALL_SQL: &'static str = "SELECT id,title,status,created_at,updated_at FROM tasks";

/// Updates a task; binds title, status, updated_at, id.
pub const UPDATE_SQL: &'static str = "UPDATE tasks SET title=?, status=?, updated_at=? WHERE id=?";

/// Deletes a task; binds its id.
pub const DELETE_SQL: &'static str = "DELETE FROM tasks WHERE id=?";

/// Sets a task's status; binds status, updated_at, id.
pub const SET_STATUS_SQL: &'static str = "UPDATE tasks SET status=?, updated_at=? WHERE id=?";

/// What went wrong with a task in the store.
#[derive(Debug, Clone, Copy, PartialEq, Eq, Structural)]
pub enum TaskError {
    /// A stored id is not a UUID.
    InvalidId,
    /// A stored time is not an RFC 3339 date and time.
    InvalidTime,
    /// A task's time is outside the range of dates that can be written.
    TimeOutOfRange,
    /// No task has the id.
    NotFound,
}

/// The texts of a list of strings.
pub open spec fn texts(v: Seq<String>) -> Seq<Seq<char>> {
    v.map_values(|s: String| s@)
}

/// The word a status is stored as.
pub open spec fn status_word(s: Status) -> Seq<char> {
    match s {
        Status::Todo => seq!['t', 'o', 'd', 'o'],
        Status::InProgress => seq!['i', 'n', '_', 'p', 'r', 'o', 'g', 'r', 'e', 's', 's'],
        Status::Done => seq!['d', 'o', 'n', 'e'],
    }
}

/// The status a stored word stands for; any word but `todo` and
/// `in_progress` reads as done.
pub open spec fn status_from_word(w: Seq<char>) -> Status {
    if w == status_word(Status::Todo) {
        Status::Todo
    } else if w == status_word(Status::InProgress) {
        Status::InProgress
    } else {
        Status::Done
    }
}

/// The conditions of the list query, joined by ` AND ` after ` WHERE `.
pub open spec fn where_clause(by_status: bool, by_search: bool) -> Seq<char> {
    if by_status && by_search {
        " WHERE "@ + "status = ?"@ + " AND "@ + "LOWER(title) LIKE ?"@
    } else if by_status {
        " WHERE "@ + "status = ?"@
    } else if by_search {
        " WHERE "@ + "LOWER(title) LIKE ?"@
    } else {
        Seq::empty()
    }
}

/// The list query: all tasks, filtered as `q` asks, newest first.
pub open spec fn list_sql_text(q: Query) -> Seq<char> {
    SELECT_ALL_SQL@ + where_clause(q.status is Some, q.search is Some) + " ORDER BY created_at DESC"@
}

/// The parameters of the list query, in the order of its placeholders: the
/// status word, then the lower-cased search text between `%` signs.
pub open spec fn list_params_of(q: Query) -> Seq<Seq<char>> {
    let by_status: Seq<Seq<char>> = match q.status {
        Some(s) => seq![status_word(s)],
        None => Seq::empty(),
    };
    let by_search: Seq<Seq<char>> = match q.search {
        Some(t) => seq![seq!['%'] + lowercase(t@) + seq!['%']],
        None => Seq::empty(),
    };
    by_status + by_search
}

/// The stored form of a task: id, title, status, created_at, updated_at;
/// `None` when one of its times cannot be written.
pub open spec fn row_of(t: TaskView) -> Option<Seq<Seq<char>>> {
    match (rfc3339_of(t.created_at.secs, t.created_at.nanos), rfc3339_of(t.updated_at.secs, t.updated_at.nanos)) {
        (Some(c), Some(u)) => Some(seq![uuid_text(t.id), t.title, status_word(t.status), c, u]),
        _ => None,
    }
}

/// The parameters of the update statement: title, status, updated_at, id.
pub open spec fn update_row_of(t: TaskView) -> Option<Seq<Seq<char>>> {
    match rfc3339_of(t.updated_at.secs, t.updated_at.nanos) {
        Some(u) => Some(seq![t.title, status_word(t.status), u, uuid_text(t.id)]),
        None => None,
    }
}

/// The task a stored row stands for, or why it stands for none.
pub open spec fn task_of_row(
    id: Seq<char>,
    title: Seq<char>,
    status: Seq<char>,
    created_at: Seq<char>,
    updated_at: Seq<char>,
) -> Result<TaskView, TaskError> {
    match uuid_parse(id) {
        None => Err(TaskError::InvalidId),
        Some(v) => match (rfc3339_instant(created_at), rfc3339_instant(updated_at)) {
            (Some(c), Some(u)) => Ok(
                TaskView {
                    id: v,
                    title,
                    status: status_from_word(status),
                    created_at: Timestamp { secs: c.0, nanos: c.1 },
                    updated_at: Timestamp { secs: u.0, nanos: u.1 },
                },
            ),
            _ => Err(TaskError::InvalidTime),
        },
    }
}

/// A status read back from the word it is stored as is the same status.
pub proof fn law_status_word_roundtrip(s: Status)
    ensures
        status_from_word(status_word(s)) == s,
{
    assert(status_word(Status::InProgress) != status_word(Status::Todo));
    assert(status_word(Status::Done) != status_word(Status::Todo));
    assert(status_word(Status::Done) != status_word(Status::InProgress));
}

/// Decoding a row whose id and times read back as the values they were
/// written from gives back the task.
proof fn lemma_row_roundtrip(t: TaskView, row: Seq<Seq<char>>)
    requires
        row_of(t) == Some(row),
        uuid_parse(row[0]) == Some(t.id),
        rfc3339_instant(row[3]) == Some((t.created_at.secs, t.created_at.nanos)),
        rfc3339_instant(row[4]) == Some((t.updated_at.secs, t.updated_at.nanos)),
    ensures
        task_of_row(row[0], row[1], row[2], row[3], row[4]) == Ok::<TaskView, TaskError>(t),
{
    law_status_word_roundtrip(t.status);
}

/// The update statement's parameters are the task's title, the word of its
/// status, the text of its update time (not its creation time) and its id;
/// the insert statement's are its id, title, status word, creation time and
/// update time. Each time is written exactly when chrono can write it.
pub proof fn law_stored_fields(t: TaskView)
    ensures
        update_row_of(t) is Some <==> rfc3339_of(t.updated_at.secs, t.updated_at.nanos) is Some,
        update_row_of(t) matches Some(p) ==> p.len() == 4 && p[0] == t.title && p[1] == status_word(
            t.status,
        ) && Some(p[2]) == rfc3339_of(t.updated_at.secs, t.updated_at.nanos) && p[3] == uuid_text(
            t.id,
        ),
        row_of(t) is Some <==> (rfc3339_of(t.created_at.secs, t.created_at.nanos) is Some
            && rfc3339_of(t.updated_at.secs, t.updated_at.nanos) is Some),
        row_of(t) matches Some(p) ==> p.len() == 5 && p[0] == uuid_text(t.id) && p[1] == t.title
            && p[2] == status_word(t.status) && Some(p[3]) == rfc3339_of(
            t.created_at.secs,
            t.created_at.nanos,
        ) && Some(p[4]) == rfc3339_of(t.updated_at.secs, t.updated_at.nanos),
{
}

/// Both of a task's times fall in the years 0000 to 9999.
pub open spec fn times_storable(t: TaskView) -> bool {
    four_digit_year(t.created_at.secs) && four_digit_year(t.updated_at.secs)
}

/// The word `status` is stored as.
pub fn status_name(status: Status) -> (w: &'static str)
    ensures
        w@ == status_word(status),
{
    match status {
        Status::Todo => {
            proof {
                reveal_strlit("todo");
            }
            assert("todo"@ =~= status_word(status));
            "todo"
        },
        Status::InProgress => {
            proof {
                reveal_strlit("in_progress");
            }
            assert("in_progress"@ =~= status_word(status));
            "in_progress"
        },
        Status::Done => {
            proof {
                reveal_strlit("done");
            }
            assert("done"@ =~= status_word(status));
            "done"
        },
    }
}

/// The status the stored word `w` stands for.
pub fn parse_status(w: &str) -> (s: Status)
    ensures
        s == status_from_word(w@),
{
    proof {
        reveal_strlit("todo");
        reveal_strlit("in_progress");
    }
    assert("todo"@ =~= status_word(Status::Todo));
    assert("in_progress"@ =~= status_word(Status::InProgress));
    if same_text(w, "todo") {
        Status::Todo
    } else if same_text(w, "in_progress") {
        Status::InProgress
    } else {
        Status::Done
    }
}

/// The list query for `q`.
pub fn list_sql(q: &Query) -> (sql: String)
    ensures
        sql@ == list_sql_text(*q),
{
    let mut sql = String::new();
    push_str(&mut sql, SELECT_ALL_SQL);
    let by_status = q.status.is_some();
    let by_search = q.search.is_some();
    if by_status || by_search {
        push_str(&mut sql, " WHERE ");
        if by_status {
            push_str(&mut sql, "status = ?");
        }
        if by_status && by_search {
            push_str(&mut sql, " AND ");
        }
        if by_search {
            push_str(&mut sql, "LOWER(title) LIKE ?");
        }
    }
    push_str(&mut sql, " ORDER BY created_at DESC");
    assert(sql@ =~= list_sql_text(*q));
    sql
}

/// The parameters of the list query for `q`.
pub fn list_params(q: &Query) -> (params: Vec<String>)
    ensures
        texts(params@) == list_params_of(*q),
{
    let mut params: Vec<String> = Vec::new();
    match q.status {
        Some(s) => {
            let mut w = String::new();
            push_str(&mut w, status_name(s));
            params.push(w);
            assert(texts(params@) =~= seq![status_word(s)]);
        },
        None => {
            assert(texts(params@) =~= Seq::<Seq<char>>::empty());
        },
    }
    let ghost first = texts(params@);
    match &q.search {
        Some(t) => {
            let mut pattern = String::new();
            pattern.push('%');
            let low = to_lowercase(t.as_str());
            push_str(&mut pattern, low.as_str());
            pattern.push('%');
            assert(pattern@ =~= seq!['%'] + lowercase(t@) + seq!['%']);
            params.push(pattern);
            assert(texts(params@) =~= first + seq![seq!['%'] + lowercase(t@) + seq!['%']]);
        },
        None => {
            assert(texts(params@) =~= first + Seq::<Seq<char>>::empty());
        },
    }
    assert(texts(params@) =~= list_params_of(*q));
    params
}

fn rfc3339_text(t: Timestamp) -> (r: Result<String, TaskError>)
    ensures
        match r {
            Ok(s) => rfc3339_of(t.secs, t.nanos) == Some(s@),
            Err(e) => rfc3339_of(t.secs, t.nanos) is None && e == TaskError::TimeOutOfRange,
        },
        match r {
            Ok(s) => four_digit_year(t.secs) ==> rfc3339_instant(s@) == Some((t.secs, t.nanos)),
            Err(_) => true,
        },
{
    match format_rfc3339(t.secs, t.nanos) {
        Some(s) => Ok(s),
        None => Err(TaskError::TimeOutOfRange),
    }
}

/// The parameters of the insert statement for `task`: id, title, status,
/// created_at, updated_at.
pub fn insert_params(task: &Task) -> (r: Result<Vec<String>, TaskError>)
    ensures
        match r {
            Ok(params) => row_of(task@) == Some(texts(params@)),
            Err(e) => row_of(task@) is None && e == TaskError::TimeOutOfRange,
        },
        r matches Ok(params) ==> uuid_parse(params@[0]@) == Some(task.id),
        match r {
            Ok(params) => times_storable(task@) ==> task_of_row(
                params@[0]@,
                params@[1]@,
                params@[2]@,
                params@[3]@,
                params@[4]@,
            ) == Ok::<TaskView, TaskError>(task@),
            Err(_) => true,
        },
{
    let created = rfc3339_text(task.created_at)?;
    let updated = rfc3339_text(task.updated_at)?;
    let mut params: Vec<String> = Vec::new();
    params.push(format_uuid(task.id));
    params.push(task.title.clone());
    let mut w = String::new();
    push_str(&mut w, status_name(task.status));
    params.push(w);
    params.push(created);
    params.push(updated);
    assert(texts(params@) =~= row_of(task@).unwrap());
    proof {
        if times_storable(task@) {
            lemma_row_roundtrip(task@, texts(params@));
        }
    }
    Ok(params)
}

/// The parameters of the update statement for `task`: title, status,
/// updated_at, id.
pub fn update_params(task: &Task) -> (r: Result<Vec<String>, TaskError>)
    ensures
        match r {
            Ok(params) => update_row_of(task@) == Some(texts(params@)),
            Err(e) => update_row_of(task@) is None && e == TaskError::TimeOutOfRange,
        },
        match r {
            Ok(params) => four_digit_year(task.updated_at.secs) ==> rfc3339_instant(params@[2]@)
                == Some((task.updated_at.secs, task.updated_at.nanos)),
            Err(_) => true,
        },
{
    let updated = rfc3339_text(task.updated_at)?;
    let mut params: Vec<String> = Vec::new();
    params.push(task.title.clone());
    let mut w = String::new();
    push_str(&mut w, status_name(task.status));
    params.push(w);
    params.push(updated);
    params.push(format_uuid(task.id));
    assert(texts(params@) =~= update_row_of(task@).unwrap());
    Ok(params)
}

/// The parameters of the set-status statement: the status, the update time
/// `now`, and the id.
pub fn set_status_params(id: u128, status: Status, now: Timestamp) -> (r: Result<
    Vec<String>,
    TaskError,
>)
    ensures
        match r {
            Ok(params) => match rfc3339_of(now.secs, now.nanos) {
                Some(u) => texts(params@) == seq![status_word(status), u, uuid_text(id)],
                None => false,
            },
            Err(e) => rfc3339_of(now.secs, now.nanos) is None && e == TaskError::TimeOutOfRange,
        },
{
    let updated = rfc3339_text(now)?;
    let mut params: Vec<String> = Vec::new();
    let mut w = String::new();
    push_str(&mut w, status_name(status));
    params.push(w);
    params.push(updated);
    params.push(format_uuid(id));
    assert(texts(params@) =~= seq![status_word(status), rfc3339_of(now.secs, now.nanos).unwrap(), uuid_text(id)]);
    Ok(params)
}

/// The parameter of the statements that select or delete one task: its id.
pub fn id_params(id: u128) -> (params: Vec<String>)
    ensures
        texts(params@) == seq![uuid_text(id)],
{
    let mut params: Vec<String> = Vec::new();
    params.push(format_uuid(id));
    assert(texts(params@) =~= seq![uuid_text(id)]);
    params
}

/// The task a stored row (id, title, status, created_at, updated_at) stands
/// for; an error when the id or a time does not parse.
pub fn task_from_row(
    id: &str,
    title: &str,
    status: &str,
    created_at: &str,
    updated_at: &str,
) -> (r: Result<Task, TaskError>)
    ensures
        match (r, task_of_row(id@, title@, status@, created_at@, updated_at@)) {
            (Ok(t), Ok(v)) => t@ == v,
            (Err(e), Err(f)) => e == f,
            _ => false,
        },
{
    let value = match parse_uuid(id) {
        Some(v) => v,
        None => return Err(TaskError::InvalidId),
    };
    let created = parse_rfc3339(created_at);
    let updated = parse_rfc3339(updated_at);
    match (created, updated) {
        (Some(c), Some(u)) => Ok(
            Task {
                id: value,
                title: title.to_owned(),
                status: parse_status(status),
                created_at: Timestamp { secs: c.0, nanos: c.1 },
                updated_at: Timestamp { secs: u.0, nanos: u.1 },
            },
        ),
        _ => Err(TaskError::InvalidTime),
    }
}

/// The result of an update that changed `affected` rows: the task, or
/// not-found when no row had its id.
pub fn update_outcome(task: Task, affected: usize) -> (r: Result<Task, TaskError>)
    ensures
        affected == 0 ==> r == Err::<Task, TaskError>(TaskError::NotFound),
        affected > 0 ==> (r matches Ok(t) && t@ == task@),
{
    if affected == 0 {
        Err(TaskError::NotFound)
    } else {
        Ok(task)
    }
}

/// Whether a statement that changed `affected` rows found its task.
pub fn row_changed(affected: usize) -> (found: bool)
    ensures
        found == (affected > 0),
{
    affected > 0
}

/// A task store in the SQLite file at a path.
#[derive(Debug, Clone)]
pub struct SqliteRepo {
    path: String,
}

impl SqliteRepo {
    /// The path of the store's file.
    pub closed spec fn path_view(&self) -> Seq<char> {
        self.path@
    }

    /// A store in the file at `path`.
    pub fn new(path: &str) -> (r: SqliteRepo)
        ensures
            r.path_view() == path@,
    {
        SqliteRepo { path: path.to_owned() }
    }

    /// The path of the store's file.
    pub fn path(&self) -> (p: &str)
        ensures
            p@ == self.path_view(),
    {
        self.path.as_str()
    }
}

} // verus!
