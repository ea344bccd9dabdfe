//! A periodic availability monitor: named checks (HTTP endpoints and hosts
//! probed by ping) are scheduled at a fixed interval, each probe's outcome is
//! recorded against a stable per-check identity, and recorded outcomes are
//! served back as time-bucketed rollup statistics.
//!
//! The crate holds the scheduling, identity, recording and rollup logic; the
//! network probes themselves and the surrounding process plumbing live with
//! the caller.

pub mod api;
pub mod check;
pub mod checker;
pub mod config;
pub mod db;
pub mod identity;
pub mod rollup;
pub mod text;
