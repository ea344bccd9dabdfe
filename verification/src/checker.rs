//! The scheduler's decisions: building the check list once at setup (each
//! check materialized to its stable id), classifying what each spawned
//! probe task came back with, and keeping the tick cadence at the
//! configured interval.
//!
//! The concurrent plumbing — spawning one task per check, the timeout wait,
//! the inter-tick sleep — is the caller's; every decision those loops make
//! is here, as a function from plain values to plain values.

use crate::check::{Check, CheckResult, ErrorKind, Http, Kind, Ping};
use crate::config::Config;
use crate::db::{self, StoreError};
use vstd::prelude::*;

verus! {

/// The phases of one scheduler iteration: fan out one task per check, await
/// them all, sleep the cadence out, idle until the next tick.
#[derive(Clone, Copy, Debug, PartialEq, Eq, Structural)]
pub enum TickPhase {
    Idle,
    FanOut,
    AwaitAll,
    Sleep,
}

/// The scheduler's cycle: `Idle -> FanOut -> AwaitAll -> Sleep -> Idle`,
/// looping indefinitely; no phase is terminal.
pub fn next_phase(p: TickPhase) -> (r: TickPhase)
    ensures
        p is Idle ==> r is FanOut,
        p is FanOut ==> r is AwaitAll,
        p is AwaitAll ==> r is Sleep,
        p is Sleep ==> r is Idle,
{
    match p {
        TickPhase::Idle => TickPhase::FanOut,
        TickPhase::FanOut => TickPhase::AwaitAll,
        TickPhase::AwaitAll => TickPhase::Sleep,
        TickPhase::Sleep => TickPhase::Idle,
    }
}

/// What the scheduler saw of one probe task: the probe completed with an
/// outcome, or the check-scoped timeout elapsed first.
#[derive(Clone, Debug)]
pub enum ProbeEvent {
    Completed(CheckResult),
    TimedOut,
}

/// The outcome recorded for one probe event: a completed probe's outcome
/// stands as it is; a timed-out probe is a `Timeout` failure.
pub open spec fn outcome_matches_event(e: ProbeEvent, r: CheckResult) -> bool {
    match e {
        ProbeEvent::Completed(c) => r == c,
        ProbeEvent::TimedOut => r matches CheckResult::Failure { err, kind } && kind
            == ErrorKind::Timeout && err@ == "timeout"@,
    }
}

/// Classifies one probe event. A probe that exceeded its timeout yields a
/// `Timeout` failure — never a success, however the abandoned operation
/// would have ended.
pub fn outcome_of_event(e: ProbeEvent) -> (r: CheckResult)
    ensures
        outcome_matches_event(e, r),
        e is TimedOut ==> !(r is Success),
{
    match e {
        ProbeEvent::Completed(c) => c,
        ProbeEvent::TimedOut => CheckResult::Failure {
            err: "timeout".to_owned(),
            kind: ErrorKind::Timeout,
        },
    }
}

/// Classifies every probe event of one tick. Each element of the result is
/// determined by the event at the same position alone — one hung, failed
/// or timed-out check cannot change, drop or delay what its siblings
/// record.
pub fn tick_outcomes(events: Vec<ProbeEvent>) -> (r: Vec<CheckResult>)
    ensures
        r@.len() == events@.len(),
        forall|i: int|
            0 <= i < events@.len() ==> outcome_matches_event(events@[i], #[trigger] r@[i]),
{
    let ghost orig = events@;
    let mut rest = events;
    let mut out: Vec<CheckResult> = Vec::new();
    proof {
        assert(orig.skip(0) =~= orig);
    }
    while rest.len() > 0
        invariant
            out@.len() + rest@.len() == orig.len(),
            rest@ == orig.skip(out@.len() as int),
            forall|i: int|
                0 <= i < out@.len() ==> outcome_matches_event(orig[i], #[trigger] out@[i]),
        decreases rest@.len(),
    {
        let ghost k: int = out@.len() as int;
        let e = rest.remove(0);
        proof {
            assert(e == orig.skip(k)[0]);
            assert(orig.skip(k)[0] == orig[k]);
            assert(orig.skip(k).remove(0) =~= orig.skip(k + 1));
        }
        let o = outcome_of_event(e);
        out.push(o);
    }
    out
}

/// How long the scheduler sleeps after a tick: the configured interval less
/// the time the tick took, never negative.
pub open spec fn spec_sleep(interval_ms: u64, elapsed_ms: u64) -> u64 {
    if elapsed_ms >= interval_ms {
        0u64
    } else {
        (interval_ms - elapsed_ms) as u64
    }
}

/// Computes the inter-tick sleep: `max(0, interval - elapsed)`.
pub fn sleep_duration(interval_ms: u64, elapsed_ms: u64) -> (r: u64)
    ensures
        r == spec_sleep(interval_ms, elapsed_ms),
{
    if elapsed_ms >= interval_ms {
        0
    } else {
        interval_ms - elapsed_ms
    }
}

/// The gap one tick puts between two tick starts: the tick's own duration
/// plus the sleep after it.
pub open spec fn tick_gap(interval_ms: u64, elapsed_ms: u64) -> int {
    elapsed_ms + spec_sleep(interval_ms, elapsed_ms)
}

/// One tick's cadence: a tick that finishes within the interval starts the
/// next tick exactly one interval after its own start; an overrunning tick
/// starts the next immediately.
pub proof fn lemma_tick_cadence(interval_ms: u64, elapsed_ms: u64)
    ensures
        elapsed_ms <= interval_ms ==> tick_gap(interval_ms, elapsed_ms) == interval_ms,
        elapsed_ms > interval_ms ==> tick_gap(interval_ms, elapsed_ms) == elapsed_ms,
{
}

/// The total span of a run of ticks: the sum of their gaps.
pub open spec fn gaps_total(elapsed: Seq<u64>, interval_ms: u64) -> int
    decreases elapsed.len(),
{
    if elapsed.len() == 0 {
        0
    } else {
        gaps_total(elapsed.drop_last(), interval_ms) + tick_gap(interval_ms, elapsed.last())
    }
}

/// Cadence stability: over any run of ticks that each finish within the
/// interval, the total span is exactly the tick count times the interval —
/// the mean inter-tick gap is the configured interval, however long the
/// probing itself took.
pub proof fn lemma_cadence_mean(elapsed: Seq<u64>, interval_ms: u64)
    requires
        forall|i: int| 0 <= i < elapsed.len() ==> #[trigger] elapsed[i] <= interval_ms,
    ensures
        gaps_total(elapsed, interval_ms) == elapsed.len() * interval_ms,
    decreases elapsed.len(),
{
    if elapsed.len() == 0 {
    } else {
        let head = elapsed.drop_last();
        assert(forall|i: int| 0 <= i < head.len() ==> #[trigger] head[i] == elapsed[i]);
        lemma_cadence_mean(head, interval_ms);
        assert(elapsed[elapsed.len() - 1] == elapsed.last());
        assert((elapsed.len() - 1) * interval_ms + interval_ms == elapsed.len() * interval_ms)
            by (nonlinear_arith);
    }
}

/// The scheduler: the configuration it runs under and the checks it fans
/// out each tick, each already carrying its materialized identity.
#[derive(Clone, Debug)]
pub struct Checker {
    pub config: Config,
    pub checks: Vec<Check>,
}

impl Checker {
    /// Builds the check list from the configuration: every configured check
    /// is materialized to its stable id, HTTP checks first, then pings,
    /// each keeping its configured name and target. A storage failure here
    /// is fatal — a check must not run without its identity; with nothing
    /// configured there is nothing to materialize, so nothing can fail.
    pub fn new(conn: &rusqlite::Connection, config: Config) -> (r: Result<Checker, StoreError>)
        ensures
            (config.http@.len() == 0 && config.ping@.len() == 0) ==> r is Ok,
            r matches Ok(c) ==> ({
                &&& c.config == config
                &&& c.checks@.len() == config.http@.len() + config.ping@.len()
                &&& forall|i: int|
                    0 <= i < config.http@.len() ==> (#[trigger] c.checks@[i]
                        matches Check::Http(h) && h.name@ == config.http@[i].0@ && h.url@
                        == config.http@[i].1.url@ && h.code == config.http@[i].1.code)
                &&& forall|i: int|
                    0 <= i < config.ping@.len() ==> (#[trigger] c.checks@[config.http@.len() + i]
                        matches Check::Ping(p) && p.name@ == config.ping@[i].0@ && p.host@
                        == config.ping@[i].1.host@)
            }),
    {
        let mut checks: Vec<Check> = Vec::new();
        let mut i: usize = 0;
        while i < config.http.len()
            invariant
                i <= config.http@.len(),
                checks@.len() == i,
                forall|j: int|
                    0 <= j < i ==> (#[trigger] checks@[j] matches Check::Http(h) && h.name@
                        == config.http@[j].0@ && h.url@ == config.http@[j].1.url@ && h.code
                        == config.http@[j].1.code),
            decreases config.http@.len() - i,
        {
            let entry = &config.http[i];
            let id = match db::materialize(conn, entry.0.as_str(), Kind::Http) {
                Ok(id) => id,
                Err(e) => {
                    return Err(e);
                },
            };
            checks.push(
                Check::Http(
                    Http { id, name: entry.0.clone(), url: entry.1.url.clone(), code: entry.1.code },
                ),
            );
            i += 1;
        }
        let ghost nhttp: int = config.http@.len() as int;
        let mut i: usize = 0;
        while i < config.ping.len()
            invariant
                i <= config.ping@.len(),
                checks@.len() == nhttp + i,
                nhttp == config.http@.len(),
                forall|j: int|
                    0 <= j < nhttp ==> (#[trigger] checks@[j] matches Check::Http(h) && h.name@
                        == config.http@[j].0@ && h.url@ == config.http@[j].1.url@ && h.code
                        == config.http@[j].1.code),
                forall|j: int|
                    0 <= j < i ==> (#[trigger] checks@[nhttp + j] matches Check::Ping(p) && p.name@
                        == config.ping@[j].0@ && p.host@ == config.ping@[j].1.host@),
            decreases config.ping@.len() - i,
        {
            let entry = &config.ping[i];
            let id = match db::materialize(conn, entry.0.as_str(), Kind::Ping) {
                Ok(id) => id,
                Err(e) => {
                    return Err(e);
                },
            };
            checks.push(Check::Ping(Ping { id, name: entry.0.clone(), host: entry.1.host.clone() }));
            i += 1;
        }
        Ok(Checker { config, checks })
    }
}

} // verus!
