//! The configuration a check list is built from: plain values, already
//! validated by the caller that parsed them.

use vstd::prelude::*;

verus! {

/// Settings of one ping check: the hostname or literal address to probe.
#[derive(Clone, Debug)]
pub struct Ping {
    pub host: String,
}

/// Settings of one HTTP check: the URL to probe and, optionally, the status
/// code the response must carry.
#[derive(Clone, Debug)]
pub struct Http {
    pub url: String,
    pub code: Option<u16>,
}

/// The monitor's configuration: where the datastore lives, the tick
/// interval, the listen address of the metrics API, and the named checks of
/// each kind.
#[derive(Clone, Debug)]
pub struct Config {
    pub db_path: String,
    pub live_reload: bool,
    pub interval_ms: u64,
    pub listen: String,
    pub ping: Vec<(String, Ping)>,
    pub http: Vec<(String, Http)>,
}

/// The listen address used when the configuration names none.
pub fn default_listen() -> (r: String)
    ensures
        r@ == "0.0.0.0:3000"@,
{
    "0.0.0.0:3000".to_owned()
}

impl Default for Config {
    /// An empty configuration: no checks, empty paths and addresses, a zero
    /// interval.
    fn default() -> (r: Self)
        ensures
            r.db_path@ == Seq::<char>::empty(),
            r.live_reload == false,
            r.interval_ms == 0,
            r.listen@ == Seq::<char>::empty(),
            r.ping@ == Seq::<(String, Ping)>::empty(),
            r.http@ == Seq::<(String, Http)>::empty(),
    {
        Config {
            db_path: String::new(),
            live_reload: false,
            interval_ms: 0,
            listen: String::new(),
            ping: Vec::new(),
            http: Vec::new(),
        }
    }
}

} // verus!
