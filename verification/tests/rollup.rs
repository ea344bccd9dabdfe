use dialer::api::{error_response, Meta, Metrics};
use dialer::check::Kind;
use dialer::db::{init_schema, mark_err, mark_ok, materialize, Record, StoreError};
use dialer::identity::Identity;
use dialer::rollup::{bucket_of, query, resolution, rollup_rows, QueryError, Rollup};
use rusqlite::Connection;

fn ident(id: u64, name: &str, kind: Kind) -> Identity {
    Identity { id, name: String::from(name), kind }
}

fn ok_rec(check_id: u64, epoch: u64, ms: u64) -> Record {
    Record { check_id, epoch, ms: Some(ms), err: None, err_kind: None }
}

fn err_rec(check_id: u64, epoch: u64) -> Record {
    Record {
        check_id,
        epoch,
        ms: None,
        err: Some(String::from("boom")),
        err_kind: Some(String::from("transport")),
    }
}

#[test]
fn resolution_step_function() {
    assert_eq!(resolution(0), 1);
    assert_eq!(resolution(599), 1);
    assert_eq!(resolution(600), 1);
    assert_eq!(resolution(601), 5);
    assert_eq!(resolution(86400), 5);
}

#[test]
fn bucket_rounds_down() {
    assert_eq!(bucket_of(100, 1), 100);
    assert_eq!(bucket_of(104, 5), 100);
    assert_eq!(bucket_of(105, 5), 105);
    assert_eq!(bucket_of(0, 5), 0);
}

#[test]
fn three_records_two_buckets() {
    // the window [100, 102) is 2 seconds wide, so buckets are 1 second
    let checks = vec![ident(1, "google", Kind::Http)];
    let records = vec![ok_rec(1, 100, 10), ok_rec(1, 100, 30), err_rec(1, 101)];
    let rows = rollup_rows(&checks, &records, 100, 102);
    assert_eq!(rows.len(), 2);
    let first = &rows[0];
    assert_eq!(first.bucket, 100);
    assert_eq!(first.check_id, 1);
    assert_eq!(first.count, 2);
    assert_eq!(first.errs, 0);
    assert_eq!(first.min, Some(10));
    assert_eq!(first.avg, Some(20));
    assert_eq!(first.max, Some(30));
    let second = &rows[1];
    assert_eq!(second.bucket, 101);
    assert_eq!(second.count, 1);
    assert_eq!(second.errs, 1);
    assert_eq!(second.min, None);
    assert_eq!(second.avg, None);
    assert_eq!(second.max, None);
}

#[test]
fn window_is_half_open() {
    let checks = vec![ident(1, "google", Kind::Http)];
    let records = vec![ok_rec(1, 99, 5), ok_rec(1, 100, 5), ok_rec(1, 101, 5), ok_rec(1, 102, 5)];
    let rows = rollup_rows(&checks, &records, 100, 102);
    let total: usize = rows.iter().map(|r| r.count).sum();
    assert_eq!(total, 2);
    assert!(rows.iter().all(|r| r.bucket == 100 || r.bucket == 101));
}

#[test]
fn unknown_check_is_left_out() {
    let checks = vec![ident(1, "google", Kind::Http)];
    let records = vec![ok_rec(1, 100, 5), ok_rec(9, 100, 5)];
    let rows = rollup_rows(&checks, &records, 100, 102);
    assert_eq!(rows.len(), 1);
    assert_eq!(rows[0].check_id, 1);
    assert_eq!(rows[0].count, 1);
}

#[test]
fn avg_is_floored() {
    let checks = vec![ident(1, "google", Kind::Http)];
    let records = vec![ok_rec(1, 100, 1), ok_rec(1, 100, 2)];
    let rows = rollup_rows(&checks, &records, 100, 101);
    assert_eq!(rows[0].avg, Some(1));
}

#[test]
fn wide_window_coarsens_buckets() {
    let checks = vec![ident(1, "google", Kind::Http)];
    let records = vec![ok_rec(1, 100, 4), ok_rec(1, 104, 8)];
    let rows = rollup_rows(&checks, &records, 0, 1000);
    assert_eq!(rows.len(), 1);
    assert_eq!(rows[0].bucket, 100);
    assert_eq!(rows[0].count, 2);
    assert_eq!(rows[0].min, Some(4));
    assert_eq!(rows[0].max, Some(8));
    assert_eq!(rows[0].avg, Some(6));
}

#[test]
fn output_sorted_by_bucket_name_kind() {
    let checks = vec![
        ident(1, "beta", Kind::Http),
        ident(2, "alpha", Kind::Http),
        ident(3, "alpha", Kind::Ping),
    ];
    let records = vec![
        ok_rec(3, 101, 1),
        ok_rec(1, 101, 1),
        ok_rec(2, 101, 1),
        ok_rec(1, 100, 1),
        ok_rec(3, 100, 1),
    ];
    let rows = rollup_rows(&checks, &records, 100, 102);
    let keys: Vec<(u64, String, Kind)> =
        rows.iter().map(|r| (r.bucket, r.name.clone(), r.kind)).collect();
    assert_eq!(
        keys,
        vec![
            (100, String::from("alpha"), Kind::Ping),
            (100, String::from("beta"), Kind::Http),
            (101, String::from("alpha"), Kind::Http),
            (101, String::from("alpha"), Kind::Ping),
            (101, String::from("beta"), Kind::Http),
        ]
    );
}

#[test]
fn empty_store_yields_no_rows() {
    let conn = Connection::open_in_memory().unwrap();
    init_schema(&conn).unwrap();
    let checks: Vec<Identity> = Vec::new();
    let rows = query(&conn, &checks, 0, 100).unwrap();
    assert!(rows.is_empty());
}

#[test]
fn boundary_window_keeps_fine_buckets() {
    // a 600-second window is the last one rolled up at 1-second buckets
    let checks = vec![ident(1, "google", Kind::Http)];
    let records = vec![ok_rec(1, 7, 3), ok_rec(1, 8, 5)];
    let rows = rollup_rows(&checks, &records, 0, 600);
    assert_eq!(rows.len(), 2);
    assert_eq!(rows[0].bucket, 7);
    assert_eq!(rows[1].bucket, 8);
}

#[test]
fn same_epoch_different_checks_stay_apart() {
    let checks = vec![ident(1, "alpha", Kind::Http), ident(2, "beta", Kind::Http)];
    let records = vec![ok_rec(1, 100, 1), ok_rec(2, 100, 9)];
    let rows = rollup_rows(&checks, &records, 100, 101);
    assert_eq!(rows.len(), 2);
    assert_eq!((rows[0].check_id, rows[0].min), (1, Some(1)));
    assert_eq!((rows[1].check_id, rows[1].min), (2, Some(9)));
}

#[test]
fn invalid_range_is_rejected() {
    let conn = Connection::open_in_memory().unwrap();
    init_schema(&conn).unwrap();
    let checks: Vec<Identity> = Vec::new();
    assert!(matches!(query(&conn, &checks, 100, 100), Err(QueryError::InvalidRange)));
    assert!(matches!(query(&conn, &checks, 100, 50), Err(QueryError::InvalidRange)));
    assert!(matches!(query(&conn, &checks, 100, 101), Ok(_)));
}

#[test]
fn written_record_is_queried_back() {
    let conn = Connection::open_in_memory().unwrap();
    init_schema(&conn).unwrap();
    let id = materialize(&conn, "google", Kind::Http).unwrap();
    mark_ok(&conn, id, 17, 500).unwrap();
    mark_err(&conn, id, "boom", dialer::check::ErrorKind::Timeout, 501).unwrap();
    let checks = vec![ident(id, "google", Kind::Http)];
    let rows = query(&conn, &checks, 400, 600).unwrap();
    assert_eq!(rows.len(), 2);
    assert_eq!(rows[0].check_id, id);
    assert_eq!(rows[0].bucket, 500);
    assert_eq!(rows[0].min, Some(17));
    assert_eq!(rows[0].avg, Some(17));
    assert_eq!(rows[0].max, Some(17));
    assert_eq!(rows[0].errs, 0);
    assert_eq!(rows[1].bucket, 501);
    assert_eq!(rows[1].count, 1);
    assert_eq!(rows[1].errs, 1);
}

#[test]
fn metrics_groups_rows_into_series() {
    let rows = vec![
        Rollup {
            check_id: 2,
            name: String::from("alpha"),
            kind: Kind::Http,
            bucket: 100,
            min: Some(1),
            avg: Some(1),
            max: Some(1),
            count: 1,
            errs: 0,
        },
        Rollup {
            check_id: 1,
            name: String::from("beta"),
            kind: Kind::Ping,
            bucket: 100,
            min: None,
            avg: None,
            max: None,
            count: 1,
            errs: 1,
        },
        Rollup {
            check_id: 2,
            name: String::from("alpha"),
            kind: Kind::Http,
            bucket: 101,
            min: Some(3),
            avg: Some(3),
            max: Some(3),
            count: 1,
            errs: 0,
        },
    ];
    let meta = Meta { res: 1, start: 100, end: 102 };
    let metrics = Metrics::from_rollups(&rows, meta);
    assert_eq!(metrics.meta, meta);
    assert_eq!(metrics.series.len(), 2);
    let alpha = &metrics.series[0];
    assert_eq!(alpha.name, "alpha");
    assert!(matches!(alpha.kind, Kind::Http));
    assert_eq!(alpha.values.len(), 2);
    assert_eq!(alpha.values[0].ts, 100);
    assert_eq!(alpha.values[1].ts, 101);
    assert_eq!(alpha.values[1].min, Some(3));
    let beta = &metrics.series[1];
    assert_eq!(beta.name, "beta");
    assert_eq!(beta.values.len(), 1);
    assert_eq!(beta.values[0].errs, 1);
}

#[test]
fn metrics_get_mut_finds_or_creates() {
    let mut metrics = Metrics { meta: Meta { res: 1, start: 0, end: 1 }, series: Vec::new() };
    {
        let s = metrics.get_mut("google", Kind::Http);
        assert_eq!(s.name, "google");
        assert_eq!(s.values.len(), 0);
    }
    assert_eq!(metrics.series.len(), 1);
    {
        let s = metrics.get_mut("google", Kind::Http);
        assert_eq!(s.name, "google");
    }
    assert_eq!(metrics.series.len(), 1);
    metrics.get_mut("google", Kind::Ping);
    assert_eq!(metrics.series.len(), 2);
}

#[test]
fn error_response_shapes() {
    let (code, err) = error_response(&QueryError::InvalidRange);
    assert_eq!(code, 400);
    assert_eq!(err.msg, "end date must be after start date");
    assert_eq!(err.kind, "invalid_range");
    let (code, err) = error_response(&QueryError::Storage(StoreError::Failed(String::from("db gone"))));
    assert_eq!(code, 500);
    assert_eq!(err.msg, "db gone");
    assert_eq!(err.kind, "storage");
}
