//! The datastore: identities and records persisted in an embedded SQLite
//! database. Every SQL statement sits in a small trusted wrapper; the
//! decisions around the statements — the upsert protocol of `materialize`
//! and the shape of the row one outcome produces — are verified.

use crate::check::{error_kind_chars, CheckResult, ErrorKind, Kind};
use rusqlite::OptionalExtension;
use vstd::prelude::*;

verus! {

#[verifier::external_type_specification]
#[verifier::external_body]
pub struct ExConnection(rusqlite::Connection);

/// A storage failure: a write lost to a concurrent duplicate of the same
/// key, or any other error of the underlying database, carried as text.
#[derive(Clone, Debug)]
pub enum StoreError {
    Conflict,
    Failed(String),
}

/// One persisted probe outcome: exactly one of `ms` (a success latency) or
/// `err` (a failure message, with its classification in `err_kind`) is
/// present.
#[derive(Clone, Debug)]
pub struct Record {
    pub check_id: u64,
    pub epoch: u64,
    pub ms: Option<u64>,
    pub err: Option<String>,
    pub err_kind: Option<String>,
}

impl Record {
    /// Exactly one of latency and error is present, and a classification
    /// only accompanies an error.
    pub open spec fn wf(&self) -> bool {
        &&& (self.ms is Some) <==> (self.err is None)
        &&& (self.err_kind is Some) ==> (self.err is Some)
    }
}

/// Creates the two tables the monitor stores into, if they are absent: the
/// identity table, with its unique `(name, kind)` constraint, and the
/// append-only results table.
///
/// Relies on rusqlite's `Connection::execute_batch` running the statements.
#[verifier::external_body]
pub fn init_schema(conn: &rusqlite::Connection) -> (r: Result<(), StoreError>) {
    conn.execute_batch(
        "CREATE TABLE IF NOT EXISTS checks (id INTEGER PRIMARY KEY AUTOINCREMENT, name TEXT NOT NULL, kind TEXT NOT NULL, UNIQUE(name, kind));
        CREATE TABLE IF NOT EXISTS results (id INTEGER PRIMARY KEY AUTOINCREMENT, check_id INTEGER NOT NULL, epoch INTEGER NOT NULL, ms INTEGER, err TEXT, err_kind TEXT);",
    ).map_err(|e| StoreError::Failed(format!("{e}")))
}

/// Reads the id stored for `(name, kind)`, if one exists. What comes back
/// depends on the database's current contents; every error is carried as
/// `Failed`.
///
/// Relies on rusqlite's `Connection::query_row` with
/// `OptionalExtension::optional`: zero rows become `None`.
#[verifier::external_body]
fn lookup_id(conn: &rusqlite::Connection, name: &str, kind: &str) -> (r: Result<
    Option<u64>,
    StoreError,
>)
    ensures
        r matches Err(e) ==> e is Failed,
{
    conn.query_row(
        "SELECT id FROM checks WHERE name = ?1 AND kind = ?2",
        (name, kind),
        |row| row.get(0),
    ).optional().map_err(|e| StoreError::Failed(format!("{e}")))
}

/// Inserts a fresh identity row and hands back its generated id. A violation
/// of the unique `(name, kind)` constraint — a concurrent duplicate —
/// comes back as `Conflict`.
///
/// Relies on rusqlite's `Connection::query_row` over an `INSERT ...
/// RETURNING` statement, and on `Error::sqlite_error_code` to tell a
/// constraint violation apart.
#[verifier::external_body]
fn insert_identity(conn: &rusqlite::Connection, name: &str, kind: &str) -> (r: Result<
    u64,
    StoreError,
>) {
    conn.query_row(
        "INSERT INTO checks (name, kind) VALUES (?1, ?2) RETURNING id",
        (name, kind),
        |row| row.get(0),
    ).map_err(
        |e| match e.sqlite_error_code() {
            Some(rusqlite::ErrorCode::ConstraintViolation) => StoreError::Conflict,
            _ => StoreError::Failed(format!("{e}")),
        },
    )
}

/// Appends one results row holding the record's fields; absent fields are
/// stored as SQL NULL. Every error of the statement is carried as
/// `Failed`, never as a conflict — the results table has no unique key.
///
/// Relies on rusqlite's `Connection::execute`, binding `Option` as NULL.
#[verifier::external_body]
fn append_record(conn: &rusqlite::Connection, rec: &Record) -> (r: Result<(), StoreError>)
    ensures
        r matches Err(e) ==> e is Failed,
{
    conn.execute(
        "INSERT INTO results (check_id, epoch, ms, err, err_kind) VALUES (?1, ?2, ?3, ?4, ?5)",
        (rec.check_id, rec.epoch, rec.ms, rec.err.as_deref(), rec.err_kind.as_deref()),
    ).map(|_| ()).map_err(|e| StoreError::Failed(format!("{e}")))
}

/// Reads every results row back as a record, in storage order. What comes
/// back depends on the database's current contents.
///
/// Relies on rusqlite's `Connection::prepare` and `Statement::query_map`;
/// the closure only fills the record's fields from the row.
#[verifier::external_body]
pub(crate) fn select_records(conn: &rusqlite::Connection) -> (r: Result<Vec<Record>, StoreError>) {
    conn.prepare("SELECT check_id, epoch, ms, err, err_kind FROM results ORDER BY id")
        .and_then(|mut st| {
            st.query_map([], |row| {
                Ok(Record {
                    check_id: row.get(0)?,
                    epoch: row.get(1)?,
                    ms: row.get(2)?,
                    err: row.get(3)?,
                    err_kind: row.get(4)?,
                })
            })?.collect()
        })
        .map_err(|e| StoreError::Failed(format!("{e}")))
}

/// Idempotently obtains or creates the stored id for `(name, kind)`: a keyed
/// lookup first; when the key is absent, an insert that returns the
/// generated id; when that insert loses to a concurrent duplicate, a
/// re-read of the winner's id. A lost race is thus never surfaced: every
/// error this returns is a storage failure.
///
/// What one such step does to the identity table, and that repeating it
/// returns the same id and leaves exactly one row per key, is stated and
/// proved of the in-process model in [`crate::identity`]; here the table
/// and its unique constraint live in the datastore.
pub fn materialize(conn: &rusqlite::Connection, name: &str, kind: Kind) -> (r: Result<
    u64,
    StoreError,
>)
    ensures
        r matches Err(e) ==> e is Failed,
{
    let kind_s = kind.as_str();
    match after_lookup(lookup_id(conn, name, kind_s)) {
        MaterializeStep::Settled(r) => r,
        MaterializeStep::Continue => {
            match after_insert(insert_identity(conn, name, kind_s)) {
                MaterializeStep::Settled(r) => r,
                MaterializeStep::Continue => after_reread(lookup_id(conn, name, kind_s)),
            }
        },
    }
}

/// Where the upsert protocol stands after one storage answer: settled with
/// its final result, or moving on to its next statement.
pub enum MaterializeStep {
    Settled(Result<u64, StoreError>),
    Continue,
}

/// The upsert's decision on the first lookup: a found id is final, a
/// storage error is final, and only an absent key moves on to the insert.
pub fn after_lookup(r: Result<Option<u64>, StoreError>) -> (s: MaterializeStep)
    ensures
        r matches Ok(Some(id)) ==> s == MaterializeStep::Settled(Ok::<u64, StoreError>(id)),
        r matches Ok(None) ==> s is Continue,
        r matches Err(e) ==> s == MaterializeStep::Settled(Err::<u64, StoreError>(e)),
{
    match r {
        Ok(Some(id)) => MaterializeStep::Settled(Ok(id)),
        Ok(None) => MaterializeStep::Continue,
        Err(e) => MaterializeStep::Settled(Err(e)),
    }
}

/// The upsert's decision on the insert: a generated id is final, a lost
/// race against a concurrent duplicate moves on to the re-read, and any
/// other storage error is final.
pub fn after_insert(r: Result<u64, StoreError>) -> (s: MaterializeStep)
    ensures
        r matches Ok(id) ==> s == MaterializeStep::Settled(Ok::<u64, StoreError>(id)),
        r matches Err(e) ==> (if e is Conflict {
            s is Continue
        } else {
            s == MaterializeStep::Settled(Err::<u64, StoreError>(e))
        }),
{
    match r {
        Ok(id) => MaterializeStep::Settled(Ok(id)),
        Err(StoreError::Conflict) => MaterializeStep::Continue,
        Err(e) => MaterializeStep::Settled(Err(e)),
    }
}

/// The upsert's decision on the re-read after a lost race: the winner's id
/// is returned as the call's own; a storage error propagates; a key that
/// vanished again is a storage failure, never a silent retry.
pub fn after_reread(r: Result<Option<u64>, StoreError>) -> (out: Result<u64, StoreError>)
    ensures
        r matches Ok(Some(id)) ==> out == Ok::<u64, StoreError>(id),
        r matches Ok(None) ==> (out matches Err(e) && e matches StoreError::Failed(m) && m@
            == "identity lost between insert and re-read"@),
        r matches Err(e) ==> out == Err::<u64, StoreError>(e),
{
    match r {
        Ok(Some(id)) => Ok(id),
        Ok(None) => Err(StoreError::Failed("identity lost between insert and re-read".to_owned())),
        Err(e) => Err(e),
    }
}

/// The row one probe outcome produces: the check's id, the epoch the
/// attempt is tagged with, and either the measured latency or the failure
/// message with its classification.
pub fn record_of_outcome(check_id: u64, epoch: u64, outcome: &CheckResult) -> (r: Record)
    ensures
        r.wf(),
        r.check_id == check_id,
        r.epoch == epoch,
        outcome matches CheckResult::Success { latency_ms } ==> r.ms == Some(*latency_ms)
            && r.err is None && r.err_kind is None,
        outcome matches CheckResult::Failure { err, kind } ==> (match (r.err, r.err_kind) {
            (Some(m), Some(k)) => m@ == err@ && k@ == error_kind_chars(*kind) && r.ms is None,
            _ => false,
        }),
{
    match outcome {
        CheckResult::Success { latency_ms } => Record {
            check_id,
            epoch,
            ms: Some(*latency_ms),
            err: None,
            err_kind: None,
        },
        CheckResult::Failure { err, kind } => Record {
            check_id,
            epoch,
            ms: None,
            err: Some(err.clone()),
            err_kind: Some(kind.as_str().to_owned()),
        },
    }
}

/// Records one probe outcome: exactly one new results row per call, the
/// row being precisely [`record_of_outcome`] of the arguments. A storage
/// failure is reported to the caller, which logs it and goes on — it
/// never stops the tick loop.
pub fn record(conn: &rusqlite::Connection, check_id: u64, epoch: u64, outcome: &CheckResult) -> (r:
    Result<(), StoreError>)
    ensures
        r matches Err(e) ==> e is Failed,
{
    let rec = record_of_outcome(check_id, epoch, outcome);
    append_record(conn, &rec)
}

/// Records a success: the appended row carries the check's id, the given
/// epoch and the measured latency, and no error.
pub fn mark_ok(conn: &rusqlite::Connection, id: u64, latency_ms: u64, epoch: u64) -> (r: Result<
    (),
    StoreError,
>)
    ensures
        r matches Err(e) ==> e is Failed,
{
    record(conn, id, epoch, &(CheckResult::Success { latency_ms }))
}

/// Records a classified failure: the appended row carries the check's id,
/// the given epoch, the failure message itself and its classification,
/// and no latency.
pub fn mark_err(conn: &rusqlite::Connection, id: u64, err: &str, kind: ErrorKind, epoch: u64) -> (r:
    Result<(), StoreError>)
    ensures
        r matches Err(e) ==> e is Failed,
{
    let outcome = CheckResult::Failure { err: err.to_owned(), kind };
    record(conn, id, epoch, &outcome)
}

} // verus!
