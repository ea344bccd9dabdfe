//! Checks and probe outcomes: the two check kinds, the classified result of
//! one probe attempt, and the pure decisions a probe makes — which address a
//! ping uses, how an HTTP status is judged, and how a timed-out attempt is
//! classified.

use vstd::prelude::*;

verus! {

/// The two kinds of check.
#[derive(Clone, Copy, Debug, PartialEq, Eq, Structural)]
pub enum Kind {
    Http,
    Ping,
}

/// The storage spelling of a check kind.
pub open spec fn kind_chars(k: Kind) -> Seq<char> {
    match k {
        Kind::Http => "http"@,
        Kind::Ping => "ping"@,
    }
}

impl Kind {
    /// The storage spelling of this kind.
    pub fn as_str(self) -> (r: &'static str)
        ensures
            r@ == kind_chars(self),
    {
        match self {
            Kind::Http => "http",
            Kind::Ping => "ping",
        }
    }

    /// Parses the storage spelling back into a kind; any other string is
    /// rejected.
    pub fn try_from(s: &str) -> (r: Option<Kind>)
        ensures
            r == if s@ == kind_chars(Kind::Http) {
                Some(Kind::Http)
            } else if s@ == kind_chars(Kind::Ping) {
                Some(Kind::Ping)
            } else {
                None::<Kind>
            },
    {
        if crate::text::str_eq(s, "http") {
            Some(Kind::Http)
        } else if crate::text::str_eq(s, "ping") {
            Some(Kind::Ping)
        } else {
            None
        }
    }
}

/// The coarse, storage-friendly classification of a probe failure.
#[derive(Clone, Copy, Debug, PartialEq, Eq, Structural)]
pub enum ErrorKind {
    Timeout,
    ResolveHost,
    NoIpForHost,
    Transport,
    Status,
    Decode,
}

/// The storage spelling of a failure classification.
pub open spec fn error_kind_chars(k: ErrorKind) -> Seq<char> {
    match k {
        ErrorKind::Timeout => "timeout"@,
        ErrorKind::ResolveHost => "resolve_host"@,
        ErrorKind::NoIpForHost => "no_ip_for_host"@,
        ErrorKind::Transport => "transport"@,
        ErrorKind::Status => "status"@,
        ErrorKind::Decode => "decode"@,
    }
}

impl ErrorKind {
    /// The storage spelling of this failure classification.
    pub fn as_str(self) -> (r: &'static str)
        ensures
            r@ == error_kind_chars(self),
    {
        match self {
            ErrorKind::Timeout => "timeout",
            ErrorKind::ResolveHost => "resolve_host",
            ErrorKind::NoIpForHost => "no_ip_for_host",
            ErrorKind::Transport => "transport",
            ErrorKind::Status => "status",
            ErrorKind::Decode => "decode",
        }
    }
}

/// The outcome of one probe attempt: a measured latency, or a classified
/// failure. A probe always returns one of these; it never raises for an
/// expected network condition.
#[derive(Clone, Debug)]
pub enum CheckResult {
    Success { latency_ms: u64 },
    Failure { err: String, kind: ErrorKind },
}

/// An HTTP check: one GET against `url`, optionally demanding a particular
/// status code.
#[derive(Clone, Debug)]
pub struct Http {
    pub id: u64,
    pub name: String,
    pub url: String,
    pub code: Option<u16>,
}

/// A ping check: one echo request against `host`.
#[derive(Clone, Debug)]
pub struct Ping {
    pub id: u64,
    pub name: String,
    pub host: String,
}

/// A configured check of either kind, with its materialized identity.
#[derive(Clone, Debug)]
pub enum Check {
    Http(Http),
    Ping(Ping),
}

impl Check {
    /// The materialized identity this check records under.
    pub fn id(&self) -> (r: u64)
        ensures
            r == self.spec_id(),
    {
        match self {
            Check::Http(h) => h.id,
            Check::Ping(p) => p.id,
        }
    }

    /// The materialized identity this check records under.
    pub open spec fn spec_id(&self) -> u64 {
        match self {
            Check::Http(h) => h.id,
            Check::Ping(p) => p.id,
        }
    }
}

/// Judges a completed HTTP exchange: when an expected status code is
/// configured and the observed code differs, the attempt is a `Status`
/// failure rather than a success; otherwise the measured latency stands.
pub fn classify_http_status(status: u16, expected: Option<u16>, latency_ms: u64) -> (r:
    CheckResult)
    ensures
        (expected is None || expected == Some(status)) ==> r == (CheckResult::Success {
            latency_ms,
        }),
        !(expected is None || expected == Some(status)) ==> (r matches CheckResult::Failure {
            err,
            kind,
        } && kind == ErrorKind::Status && err@ == "unexpected status"@),
{
    match expected {
        None => CheckResult::Success { latency_ms },
        Some(code) => {
            if code == status {
                CheckResult::Success { latency_ms }
            } else {
                CheckResult::Failure { err: "unexpected status".to_owned(), kind: ErrorKind::Status }
            }
        },
    }
}

/// Classifies a failed HTTP exchange from what the client reports of its
/// error: an explicit timeout, else a body-decoding failure, else a
/// transport failure. The client's message is carried unchanged.
pub fn classify_http_failure(timed_out: bool, decode: bool, err: String) -> (r: CheckResult)
    ensures
        r matches CheckResult::Failure { err: m, kind } && m@ == err@ && kind == (if timed_out {
            ErrorKind::Timeout
        } else if decode {
            ErrorKind::Decode
        } else {
            ErrorKind::Transport
        }),
{
    let kind = if timed_out {
        ErrorKind::Timeout
    } else if decode {
        ErrorKind::Decode
    } else {
        ErrorKind::Transport
    };
    CheckResult::Failure { err, kind }
}

/// An address a ping can be sent to, as plain bits: an IPv4 address or an
/// IPv6 address.
#[derive(Clone, Copy, Debug, PartialEq, Eq, Structural)]
pub enum HostAddr {
    V4(u32),
    V6(u128),
}

/// How a ping target was turned into addresses: the target was already a
/// literal address, or resolution produced a list, or resolution itself
/// failed with a message.
#[derive(Clone, Debug)]
pub enum Resolution {
    Literal(HostAddr),
    Resolved(Vec<HostAddr>),
    LookupFailed(String),
}

/// The first IPv4 address of a resolution result, if any.
pub open spec fn first_v4(s: Seq<HostAddr>) -> Option<HostAddr>
    decreases s.len(),
{
    if s.len() == 0 {
        None
    } else if s[0] is V4 {
        Some(s[0])
    } else {
        first_v4(s.skip(1))
    }
}

/// Scans a resolved address list for its first IPv4 entry.
fn scan_first_v4(list: &Vec<HostAddr>) -> (out: Option<HostAddr>)
    ensures
        out == first_v4(list@),
{
    let mut i: usize = 0;
    proof {
        assert(list@.skip(0) =~= list@);
    }
    while i < list.len()
        invariant
            i <= list@.len(),
            first_v4(list@) == first_v4(list@.skip(i as int)),
        decreases list@.len() - i,
    {
        proof {
            assert(list@.skip(i as int)[0] == list@[i as int]);
            assert(list@.skip(i as int).skip(1) =~= list@.skip(i + 1));
        }
        if let HostAddr::V4(bits) = list[i] {
            return Some(HostAddr::V4(bits));
        }
        i += 1;
    }
    proof {
        assert(list@.skip(i as int).len() == 0);
    }
    None
}

/// Picks the address a ping uses: a literal target is used directly; a
/// resolved list yields its first IPv4 address, or a `NoIpForHost` failure
/// when it has none; a failed resolution yields a `ResolveHost` failure
/// carrying the resolver's message.
pub fn pick_address(r: &Resolution) -> (out: Result<HostAddr, CheckResult>)
    ensures
        r matches Resolution::Literal(a) ==> out == Ok::<HostAddr, CheckResult>(*a),
        r matches Resolution::Resolved(list) ==> (match first_v4(list@) {
            Some(a) => out == Ok::<HostAddr, CheckResult>(a),
            None => out matches Err(f) && f matches CheckResult::Failure { err, kind } && kind
                == ErrorKind::NoIpForHost && err@ == "no ip for host"@,
        }),
        r matches Resolution::LookupFailed(m) ==> (out matches Err(f) && f
            matches CheckResult::Failure { err, kind } && kind == ErrorKind::ResolveHost && err@
            == m@),
{
    match r {
        Resolution::Literal(a) => Ok(*a),
        Resolution::Resolved(list) => {
            match scan_first_v4(list) {
                Some(a) => Ok(a),
                None => Err(
                    CheckResult::Failure {
                        err: "no ip for host".to_owned(),
                        kind: ErrorKind::NoIpForHost,
                    },
                ),
            }
        },
        Resolution::LookupFailed(m) => {
            Err(CheckResult::Failure { err: m.clone(), kind: ErrorKind::ResolveHost })
        },
    }
}

} // verus!
