use vstd::prelude::*;

use crate::api::dto::PublicError;
use crate::text::{parse_u64_trimmed, spec_parse_u64, spec_trim, str_eq};

verus! {

/// Which game server to talk to.
#[derive(Debug, Clone, Copy, PartialEq, Eq, Structural)]
pub enum Server {
    Test,
    Prod,
}

impl Server {
    /// `Some("prod")` selects the production server; anything else, the test one.
    pub fn from_env(val: Option<&str>) -> (s: Self)
        ensures
            s == (match val {
                Some(v) => if v@ == "prod"@ { Server::Prod } else { Server::Test },
                None => Server::Test,
            }),
    {
        match val {
            Some(v) => {
                if str_eq(v, "prod") {
                    Server::Prod
                } else {
                    Server::Test
                }
            },
            None => Server::Test,
        }
    }

    /// Base URL of the server.
    pub fn base_url(self) -> (u: &'static str)
        ensures
            self == Server::Test ==> u@ == "https://games-test.datsteam.dev"@,
            self == Server::Prod ==> u@ == "https://games.datsteam.dev"@,
    {
        match self {
            Server::Test => "https://games-test.datsteam.dev",
            Server::Prod => "https://games.datsteam.dev",
        }
    }
}

/// Seconds read from a header value (`trim`, then `u64`).
pub open spec fn header_secs(v: Option<Seq<char>>) -> Option<u64> {
    match v {
        Some(s) => spec_parse_u64(spec_trim(s)),
        None => None,
    }
}

/// The wait that a 429 answer hints, in milliseconds: `Retry-After` in
/// seconds; failing that, `X-Ratelimit-Reset` when it is a small number of
/// seconds (a unix timestamp cannot be used without the clock).
pub open spec fn spec_retry_after(retry_after: Option<Seq<char>>, reset: Option<Seq<char>>) -> Option<int> {
    match header_secs(retry_after) {
        Some(sec) => Some(sec * 1000),
        None => match header_secs(reset) {
            Some(sec) => if sec < 3600 {
                Some(sec * 1000)
            } else {
                None
            },
            None => None,
        },
    }
}

pub open spec fn opt_view(v: Option<&str>) -> Option<Seq<char>> {
    match v {
        Some(s) => Some(s@),
        None => None,
    }
}

/// The seconds a header value holds, as `retry_after_ms` reads them.
pub fn header_seconds(v: Option<&str>) -> (r: Option<u64>)
    ensures
        r == header_secs(opt_view(v)),
{
    match v {
        Some(s) => parse_u64_trimmed(s),
        None => None,
    }
}

/// Milliseconds to wait after HTTP 429 (see `spec_retry_after`). A
/// `Retry-After` too large for milliseconds in `u64` is refused.
pub fn retry_after_ms(retry_after: Option<&str>, reset: Option<&str>) -> (r: Option<u64>)
    requires
        header_secs(opt_view(retry_after)) matches Some(sec) ==> sec * 1000 <= u64::MAX,
    ensures
        match spec_retry_after(opt_view(retry_after), opt_view(reset)) {
            Some(ms) => r == Some(ms as u64),
            None => r is None,
        },
{
    if let Some(sec) = header_seconds(retry_after) {
        return Some(sec * 1000);
    }
    if let Some(sec) = header_seconds(reset) {
        if sec < 3600 {
            return Some(sec * 1000);
        }
    }
    None
}

/// Delay after `n` consecutive rate limits: 1.5 s doubling up to 12 s.
pub open spec fn spec_backoff(n: u32) -> int {
    if n <= 1 {
        1500
    } else if n == 2 {
        3000
    } else if n == 3 {
        6000
    } else {
        12000
    }
}

/// Exponential back-off for consecutive HTTP 429 answers.
pub fn backoff_ms(n: u32) -> (ms: u64)
    ensures
        ms == spec_backoff(n),
{
    let k: u32 = if n < 1 { 1 } else if n > 4 { 4 } else { n };
    let factor: u64 = if k == 1 { 1 } else if k == 2 { 2 } else if k == 3 { 4 } else { 8 };
    1500 * factor
}

/// The wait after a rate limit: the server's hint when it gave one, else
/// the back-off for `consecutive` limits in a row.
pub fn rate_limit_wait_ms(hint: Option<u64>, consecutive: u32) -> (ms: u64)
    ensures
        ms == (match hint {
            Some(h) => h as int,
            None => spec_backoff(consecutive),
        }),
{
    match hint {
        Some(h) => h,
        None => backoff_ms(consecutive),
    }
}

/// How the server took a command.
#[derive(Debug, Clone, Copy, PartialEq, Eq, Structural)]
pub enum CommandOutcome {
    /// Accepted without remarks.
    Accepted,
    /// Accepted, with notes (such as a command already sent this turn).
    Noted,
    /// Refused: non-zero code.
    Refused,
}

/// Reads the reply to a command: a non-zero code is a refusal; errors
/// listed with code 0 are notes.
pub fn command_outcome(reply: &PublicError) -> (o: CommandOutcome)
    ensures
        o == (if reply.code != 0 {
            CommandOutcome::Refused
        } else if reply.errors@.len() > 0 {
            CommandOutcome::Noted
        } else {
            CommandOutcome::Accepted
        }),
{
    if reply.code != 0 {
        CommandOutcome::Refused
    } else if reply.errors.len() > 0 {
        CommandOutcome::Noted
    } else {
        CommandOutcome::Accepted
    }
}

} // verus!
