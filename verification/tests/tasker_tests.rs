use toolshed::tasker::store::{
    id_params, insert_params, list_params, list_sql, parse_status, set_status_params, status_name,
    task_from_row, update_outcome, update_params, row_changed, SqliteRepo, TaskError, SELECT_ALL_SQL,
};
use toolshed::tasker::task::{new_task, Query, Status, Timestamp};

const ID: u128 = 0xa1a2a3a4b1b2c1c2d1d2d3d4d5d6d7d8;

#[test]
fn status_words() {
    assert_eq!(status_name(Status::Todo), "todo");
    assert_eq!(status_name(Status::InProgress), "in_progress");
    assert_eq!(status_name(Status::Done), "done");
    assert_eq!(parse_status("todo"), Status::Todo);
    assert_eq!(parse_status("in_progress"), Status::InProgress);
    assert_eq!(parse_status("done"), Status::Done);
    assert_eq!(parse_status("whatever"), Status::Done);
}

#[test]
fn list_query_text() {
    let all = Query { status: None, search: None };
    assert_eq!(list_sql(&all), format!("{} ORDER BY created_at DESC", SELECT_ALL_SQL));
    assert!(list_params(&all).is_empty());
    let both = Query { status: Some(Status::Done), search: Some("GroCeries".to_string()) };
    assert_eq!(
        list_sql(&both),
        "SELECT id,title,status,created_at,updated_at FROM tasks WHERE status = ? AND LOWER(title) LIKE ? ORDER BY created_at DESC"
    );
    assert_eq!(list_params(&both), vec!["done".to_string(), "%groceries%".to_string()]);
    let search = Query { status: None, search: Some("Doc".to_string()) };
    assert_eq!(
        list_sql(&search),
        "SELECT id,title,status,created_at,updated_at FROM tasks WHERE LOWER(title) LIKE ? ORDER BY created_at DESC"
    );
    assert_eq!(list_params(&search), vec!["%doc%".to_string()]);
    let status = Query { status: Some(Status::InProgress), search: None };
    assert_eq!(
        list_sql(&status),
        "SELECT id,title,status,created_at,updated_at FROM tasks WHERE status = ? ORDER BY created_at DESC"
    );
    assert_eq!(list_params(&status), vec!["in_progress".to_string()]);
}

#[test]
fn insert_row_and_read_back() {
    let now = Timestamp { secs: 1431648000, nanos: 0 };
    let task = new_task(ID, "Buy groceries".to_string(), now);
    assert_eq!(task.status, Status::Todo);
    let row = insert_params(&task).unwrap();
    assert_eq!(
        row,
        vec![
            "a1a2a3a4-b1b2-c1c2-d1d2-d3d4d5d6d7d8".to_string(),
            "Buy groceries".to_string(),
            "todo".to_string(),
            "2015-05-15T00:00:00+00:00".to_string(),
            "2015-05-15T00:00:00+00:00".to_string(),
        ]
    );
    let back = task_from_row(&row[0], &row[1], &row[2], &row[3], &row[4]).unwrap();
    assert_eq!(back.id, ID);
    assert_eq!(back.title, "Buy groceries");
    assert_eq!(back.status, Status::Todo);
    assert_eq!(back.created_at, now);
    assert_eq!(back.updated_at, now);
}

#[test]
fn rows_with_bad_fields_are_errors() {
    let t = "2015-05-15T00:00:00+00:00";
    assert_eq!(task_from_row("nope", "x", "todo", t, t).err(), Some(TaskError::InvalidId));
    let id = "a1a2a3a4-b1b2-c1c2-d1d2-d3d4d5d6d7d8";
    assert_eq!(task_from_row(id, "x", "todo", "yesterday", t).err(), Some(TaskError::InvalidTime));
    let ok = task_from_row(id, "x", "in_progress", "2015-05-15T02:00:00+02:00", t).unwrap();
    assert_eq!(ok.created_at, Timestamp { secs: 1431648000, nanos: 0 });
    assert_eq!(ok.status, Status::InProgress);
}

#[test]
fn update_and_status_params() {
    let now = Timestamp { secs: 0, nanos: 500_000_000 };
    let mut task = new_task(ID, "t".to_string(), now);
    task.status = Status::Done;
    assert_eq!(
        update_params(&task).unwrap(),
        vec![
            "t".to_string(),
            "done".to_string(),
            "1970-01-01T00:00:00.500+00:00".to_string(),
            "a1a2a3a4-b1b2-c1c2-d1d2-d3d4d5d6d7d8".to_string(),
        ]
    );
    assert_eq!(
        set_status_params(ID, Status::InProgress, now).unwrap(),
        vec![
            "in_progress".to_string(),
            "1970-01-01T00:00:00.500+00:00".to_string(),
            "a1a2a3a4-b1b2-c1c2-d1d2-d3d4d5d6d7d8".to_string(),
        ]
    );
    assert_eq!(id_params(ID), vec!["a1a2a3a4-b1b2-c1c2-d1d2-d3d4d5d6d7d8".to_string()]);
    let far = Timestamp { secs: i64::MAX, nanos: 0 };
    assert_eq!(set_status_params(ID, Status::Todo, far).err(), Some(TaskError::TimeOutOfRange));
}

#[test]
fn update_outcomes() {
    let task = new_task(ID, "t".to_string(), Timestamp { secs: 1, nanos: 0 });
    assert_eq!(update_outcome(task.clone(), 0).err(), Some(TaskError::NotFound));
    assert_eq!(update_outcome(task, 1).unwrap().title, "t");
    assert!(row_changed(1));
    assert!(!row_changed(0));
}

#[test]
fn repo_keeps_its_path() {
    let repo = SqliteRepo::new("tasker.db");
    assert_eq!(repo.path(), "tasker.db");
}

#[test]
fn round_trip_keeps_fractions_leap_seconds_and_year_bounds() {
    let times = [
        Timestamp { secs: -62167219200, nanos: 0 },
        Timestamp { secs: 253402300799, nanos: 999_999_999 },
        Timestamp { secs: 1435708799, nanos: 1_500_000_000 },
        Timestamp { secs: 1, nanos: 120_000 },
    ];
    for t in times {
        let mut task = new_task(ID, "t".to_string(), t);
        task.status = Status::InProgress;
        let row = insert_params(&task).unwrap();
        let back = task_from_row(&row[0], &row[1], &row[2], &row[3], &row[4]).unwrap();
        assert_eq!(back.created_at, t);
        assert_eq!(back.updated_at, t);
        assert_eq!(back.status, Status::InProgress);
    }
    // Past year 9999 chrono writes a signed five-digit year, which it does not read back.
    let late = Timestamp { secs: 253402300800, nanos: 0 };
    let row = insert_params(&new_task(ID, "t".to_string(), late)).unwrap();
    assert!(row[3].starts_with("+10000"));
    assert_eq!(task_from_row(&row[0], &row[1], &row[2], &row[3], &row[4]).err(), Some(TaskError::InvalidTime));
}
