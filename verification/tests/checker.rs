use dialer::check::{
    classify_http_failure, classify_http_status, pick_address, CheckResult, ErrorKind, HostAddr,
    Kind, Resolution,
};
use dialer::checker::{
    next_phase, outcome_of_event, sleep_duration, tick_outcomes, Checker, ProbeEvent, TickPhase,
};
use dialer::config::{default_listen, Config, Http, Ping};
use dialer::db::init_schema;
use rusqlite::Connection;

#[test]
fn kind_spellings_round_trip() {
    assert_eq!(Kind::Http.as_str(), "http");
    assert_eq!(Kind::Ping.as_str(), "ping");
    assert_eq!(Kind::try_from("http"), Some(Kind::Http));
    assert_eq!(Kind::try_from("ping"), Some(Kind::Ping));
    assert_eq!(Kind::try_from("smtp"), None);
    assert_eq!(Kind::try_from(""), None);
    assert_eq!(Kind::try_from(Kind::Http.as_str()), Some(Kind::Http));
    assert_eq!(Kind::try_from(Kind::Ping.as_str()), Some(Kind::Ping));
}

#[test]
fn error_kind_spellings() {
    assert_eq!(ErrorKind::Timeout.as_str(), "timeout");
    assert_eq!(ErrorKind::ResolveHost.as_str(), "resolve_host");
    assert_eq!(ErrorKind::NoIpForHost.as_str(), "no_ip_for_host");
    assert_eq!(ErrorKind::Transport.as_str(), "transport");
    assert_eq!(ErrorKind::Status.as_str(), "status");
    assert_eq!(ErrorKind::Decode.as_str(), "decode");
}

#[test]
fn http_status_policy() {
    assert!(matches!(
        classify_http_status(200, None, 12),
        CheckResult::Success { latency_ms: 12 }
    ));
    assert!(matches!(
        classify_http_status(301, None, 12),
        CheckResult::Success { latency_ms: 12 }
    ));
    assert!(matches!(
        classify_http_status(200, Some(200), 12),
        CheckResult::Success { latency_ms: 12 }
    ));
    match classify_http_status(301, Some(200), 12) {
        CheckResult::Failure { err, kind } => {
            assert_eq!(kind, ErrorKind::Status);
            assert_eq!(err, "unexpected status");
        },
        CheckResult::Success { .. } => panic!("a wrong status code must not be a success"),
    }
}

#[test]
fn http_failure_classification() {
    match classify_http_failure(true, false, String::from("slow")) {
        CheckResult::Failure { err, kind } => {
            assert_eq!(kind, ErrorKind::Timeout);
            assert_eq!(err, "slow");
        },
        CheckResult::Success { .. } => panic!("a failed exchange must not be a success"),
    }
    assert!(matches!(
        classify_http_failure(false, true, String::from("bad body")),
        CheckResult::Failure { kind: ErrorKind::Decode, .. }
    ));
    assert!(matches!(
        classify_http_failure(false, false, String::from("refused")),
        CheckResult::Failure { kind: ErrorKind::Transport, .. }
    ));
    // an explicit timeout outranks a decode failure
    assert!(matches!(
        classify_http_failure(true, true, String::from("slow")),
        CheckResult::Failure { kind: ErrorKind::Timeout, .. }
    ));
}

#[test]
fn ping_address_selection() {
    let lit = Resolution::Literal(HostAddr::V4(0x7f000001));
    assert_eq!(pick_address(&lit).unwrap(), HostAddr::V4(0x7f000001));

    let resolved = Resolution::Resolved(vec![
        HostAddr::V6(1),
        HostAddr::V4(0x01020304),
        HostAddr::V4(0x05060708),
    ]);
    assert_eq!(pick_address(&resolved).unwrap(), HostAddr::V4(0x01020304));

    let only_v6 = Resolution::Resolved(vec![HostAddr::V6(1), HostAddr::V6(2)]);
    match pick_address(&only_v6).unwrap_err() {
        CheckResult::Failure { err, kind } => {
            assert_eq!(kind, ErrorKind::NoIpForHost);
            assert_eq!(err, "no ip for host");
        },
        CheckResult::Success { .. } => panic!("a v6-only host must not succeed"),
    }

    let failed = Resolution::LookupFailed(String::from("nxdomain"));
    match pick_address(&failed).unwrap_err() {
        CheckResult::Failure { err, kind } => {
            assert_eq!(kind, ErrorKind::ResolveHost);
            assert_eq!(err, "nxdomain");
        },
        CheckResult::Success { .. } => panic!("a failed lookup must not succeed"),
    }
}

#[test]
fn timeout_is_never_a_success() {
    match outcome_of_event(ProbeEvent::TimedOut) {
        CheckResult::Failure { err, kind } => {
            assert_eq!(kind, ErrorKind::Timeout);
            assert_eq!(err, "timeout");
        },
        CheckResult::Success { .. } => panic!("a timed-out probe must not be a success"),
    }
    match outcome_of_event(ProbeEvent::Completed(CheckResult::Success { latency_ms: 3 })) {
        CheckResult::Success { latency_ms } => assert_eq!(latency_ms, 3),
        CheckResult::Failure { .. } => panic!("a completed success must stand"),
    }
}

#[test]
fn tick_outcomes_are_independent() {
    let events = vec![
        ProbeEvent::Completed(CheckResult::Success { latency_ms: 5 }),
        ProbeEvent::TimedOut,
        ProbeEvent::Completed(
            CheckResult::Failure { err: String::from("boom"), kind: ErrorKind::Transport },
        ),
    ];
    let outcomes = tick_outcomes(events);
    assert_eq!(outcomes.len(), 3);
    assert!(matches!(outcomes[0], CheckResult::Success { latency_ms: 5 }));
    assert!(matches!(outcomes[1], CheckResult::Failure { kind: ErrorKind::Timeout, .. }));
    assert!(matches!(outcomes[2], CheckResult::Failure { kind: ErrorKind::Transport, .. }));
}

#[test]
fn scheduler_phases_cycle() {
    assert_eq!(next_phase(TickPhase::Idle), TickPhase::FanOut);
    assert_eq!(next_phase(TickPhase::FanOut), TickPhase::AwaitAll);
    assert_eq!(next_phase(TickPhase::AwaitAll), TickPhase::Sleep);
    assert_eq!(next_phase(TickPhase::Sleep), TickPhase::Idle);
}

#[test]
fn sleep_keeps_cadence() {
    assert_eq!(sleep_duration(1000, 0), 1000);
    assert_eq!(sleep_duration(1000, 300), 700);
    assert_eq!(sleep_duration(1000, 1000), 0);
    assert_eq!(sleep_duration(1000, 5000), 0);
    // a fast tick starts the next tick exactly one interval later
    for elapsed in [0u64, 1, 500, 999, 1000] {
        assert_eq!(elapsed + sleep_duration(1000, elapsed), 1000);
    }
}

#[test]
fn default_listen_address() {
    assert_eq!(default_listen(), "0.0.0.0:3000");
}

#[test]
fn config_default_is_empty() {
    let config = Config::default();
    assert_eq!(config.db_path, "");
    assert!(!config.live_reload);
    assert_eq!(config.interval_ms, 0);
    assert_eq!(config.listen, "");
    assert!(config.ping.is_empty());
    assert!(config.http.is_empty());
}

#[test]
fn checker_materializes_stable_ids() {
    let conn = Connection::open_in_memory().unwrap();
    init_schema(&conn).unwrap();
    let config = Config {
        db_path: String::new(),
        live_reload: false,
        interval_ms: 1000,
        listen: default_listen(),
        ping: vec![(String::from("google"), Ping { host: String::from("google.com") })],
        http: vec![(
            String::from("google"),
            Http { url: String::from("https://google.com"), code: None },
        )],
    };
    let first = Checker::new(&conn, config.clone()).unwrap();
    assert_eq!(first.checks.len(), 2);
    let first_ids: Vec<u64> = first.checks.iter().map(|c| c.id()).collect();
    // building the checker again against the same store reuses the same ids
    let second = Checker::new(&conn, config).unwrap();
    let second_ids: Vec<u64> = second.checks.iter().map(|c| c.id()).collect();
    assert_eq!(first_ids, second_ids);
    let rows: i64 = conn.query_row("SELECT COUNT(*) FROM checks", [], |row| row.get(0)).unwrap();
    assert_eq!(rows, 2);
}
