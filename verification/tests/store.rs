use dialer::check::{CheckResult, ErrorKind, Kind};
use dialer::db::{
    after_insert, after_lookup, after_reread, init_schema, mark_err, mark_ok, materialize,
    record, record_of_outcome, MaterializeStep, StoreError,
};
use rusqlite::Connection;

fn fresh_conn() -> Connection {
    let conn = Connection::open_in_memory().unwrap();
    init_schema(&conn).unwrap();
    conn
}

#[test]
fn migrations() {
    let conn = Connection::open_in_memory().unwrap();
    init_schema(&conn).unwrap();
    // running the schema setup again against the same database is harmless
    init_schema(&conn).unwrap();
}

#[test]
fn materialize_is_idempotent() {
    let conn = fresh_conn();
    let a = materialize(&conn, "google", Kind::Http).unwrap();
    let b = materialize(&conn, "google", Kind::Http).unwrap();
    let c = materialize(&conn, "google", Kind::Http).unwrap();
    assert_eq!(a, b);
    assert_eq!(a, c);
    let rows: i64 = conn
        .query_row(
            "SELECT COUNT(*) FROM checks WHERE name = 'google' AND kind = 'http'",
            [],
            |row| row.get(0),
        )
        .unwrap();
    assert_eq!(rows, 1);
}

#[test]
fn materialize_distinguishes_kinds() {
    let conn = fresh_conn();
    let http = materialize(&conn, "google", Kind::Http).unwrap();
    let ping = materialize(&conn, "google", Kind::Ping).unwrap();
    assert_ne!(http, ping);
    assert_eq!(materialize(&conn, "google", Kind::Http).unwrap(), http);
    assert_eq!(materialize(&conn, "google", Kind::Ping).unwrap(), ping);
}

#[test]
fn record_of_outcome_success_fields() {
    let rec = record_of_outcome(7, 123, &CheckResult::Success { latency_ms: 42 });
    assert_eq!(rec.check_id, 7);
    assert_eq!(rec.epoch, 123);
    assert_eq!(rec.ms, Some(42));
    assert!(rec.err.is_none());
    assert!(rec.err_kind.is_none());
}

#[test]
fn record_of_outcome_failure_fields() {
    let rec = record_of_outcome(
        7,
        123,
        &CheckResult::Failure { err: String::from("boom"), kind: ErrorKind::Transport },
    );
    assert_eq!(rec.check_id, 7);
    assert_eq!(rec.epoch, 123);
    assert!(rec.ms.is_none());
    assert_eq!(rec.err.as_deref(), Some("boom"));
    assert_eq!(rec.err_kind.as_deref(), Some("transport"));
}

#[test]
fn recorder_appends_one_row_per_call() {
    let conn = fresh_conn();
    let id = materialize(&conn, "site", Kind::Http).unwrap();
    mark_ok(&conn, id, 15, 1000).unwrap();
    mark_err(&conn, id, "timeout", ErrorKind::Timeout, 1001).unwrap();
    record(&conn, id, 1002, &CheckResult::Success { latency_ms: 9 }).unwrap();
    let rows: i64 = conn.query_row("SELECT COUNT(*) FROM results", [], |row| row.get(0)).unwrap();
    assert_eq!(rows, 3);
    let stored_kind: String = conn
        .query_row("SELECT err_kind FROM results WHERE epoch = 1001", [], |row| row.get(0))
        .unwrap();
    assert_eq!(stored_kind, "timeout");
}

#[test]
fn upsert_decisions_follow_protocol() {
    assert!(matches!(after_lookup(Ok(Some(7))), MaterializeStep::Settled(Ok(7))));
    assert!(matches!(after_lookup(Ok(None)), MaterializeStep::Continue));
    assert!(matches!(
        after_lookup(Err(StoreError::Failed(String::from("down")))),
        MaterializeStep::Settled(Err(StoreError::Failed(_)))
    ));
    assert!(matches!(after_insert(Ok(9)), MaterializeStep::Settled(Ok(9))));
    assert!(matches!(after_insert(Err(StoreError::Conflict)), MaterializeStep::Continue));
    assert!(matches!(
        after_insert(Err(StoreError::Failed(String::from("down")))),
        MaterializeStep::Settled(Err(StoreError::Failed(_)))
    ));
    assert!(matches!(after_reread(Ok(Some(9))), Ok(9)));
    match after_reread(Ok(None)) {
        Err(StoreError::Failed(m)) => {
            assert_eq!(m, "identity lost between insert and re-read");
        },
        other => panic!("a vanished identity must be a storage failure, got {other:?}"),
    }
    assert!(matches!(
        after_reread(Err(StoreError::Failed(String::from("down")))),
        Err(StoreError::Failed(_))
    ));
}

#[test]
fn identity_store_model_is_idempotent() {
    let mut store = dialer::identity::IdentityStore::new();
    let a = store.materialize("google", Kind::Http);
    let b = store.materialize("google", Kind::Http);
    let p = store.materialize("google", Kind::Ping);
    assert_eq!(a, b);
    assert_ne!(a, p);
    assert_eq!(store.entries.len(), 2);
    assert_eq!(store.find("google", Kind::Http), Some(a));
    assert_eq!(store.find("google", Kind::Ping), Some(p));
    assert_eq!(store.find("yahoo", Kind::Http), None);
}

#[test]
fn storage_failure_is_reported() {
    let conn = Connection::open_in_memory().unwrap();
    // no schema: every operation must surface a storage error, not panic
    assert!(materialize(&conn, "google", Kind::Http).is_err());
    assert!(mark_ok(&conn, 1, 5, 100).is_err());
}
