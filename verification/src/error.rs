//! The one error type every public function returns.

use vstd::prelude::*;

verus! {

/// The bound an unsure answer fell short of (bit patterns).
#[derive(Clone, Copy, Debug, PartialEq, Eq, Structural)]
pub enum Threshold {
    /// `min_confidence`, for a choice or a score.
    Floor(u64),
    /// `yes_above` and `no_below`, for a noul: the answer lies strictly between them, and
    /// the bound reported is the nearer of the two.
    Band { yes_above: u64, no_below: u64 },
}

/// Everything that can go wrong, from the wire to the policy.
///
/// Numbers that are binary64 on the wire (`value`, `threshold`) are carried as their bit
/// patterns; durations as whole seconds.
#[derive(Debug)]
pub enum Error {
    /// `401`: missing or invalid API key.
    Auth,
    /// `422`: the request body failed validation. `detail` is the verbatim response body.
    Invalid { detail: String },
    /// `429` after every retry was used; the last `retry-after` in seconds, if any.
    RateLimited { retry_after: Option<u64> },
    /// `529` after every retry was used; the last `retry-after` in seconds, if any.
    Overloaded { retry_after: Option<u64> },
    /// Connection, TLS, timeout, or body-read failure, described.
    Transport { detail: String },
    /// A status the API contract does not define.
    UnexpectedStatus { status: u16, body: String },
    /// The response violated the contract.
    Protocol { detail: String },
    /// The policy labelled the answer unsure and no fallback was given.
    Unsure { question: String, value: u64, threshold: Threshold },
    /// Bad configuration.
    Config { detail: String },
}

/// The stable name of each variant.
pub open spec fn kind_name(e: Error) -> Seq<char> {
    match e {
        Error::Auth => "auth"@,
        Error::Invalid { .. } => "invalid"@,
        Error::RateLimited { .. } => "rate_limited"@,
        Error::Overloaded { .. } => "overloaded"@,
        Error::Transport { .. } => "transport"@,
        Error::UnexpectedStatus { .. } => "unexpected_status"@,
        Error::Protocol { .. } => "protocol"@,
        Error::Unsure { .. } => "unsure"@,
        Error::Config { .. } => "config"@,
    }
}

impl Error {
    /// A stable, low-cardinality name for the variant: `auth`, `invalid`, `rate_limited`,
    /// `overloaded`, `transport`, `unexpected_status`, `protocol`, `unsure` or `config`.
    pub fn kind(&self) -> (r: &'static str)
        ensures
            r@ == kind_name(*self),
    {
        match self {
            Error::Auth => "auth",
            Error::Invalid { .. } => "invalid",
            Error::RateLimited { .. } => "rate_limited",
            Error::Overloaded { .. } => "overloaded",
            Error::Transport { .. } => "transport",
            Error::UnexpectedStatus { .. } => "unexpected_status",
            Error::Protocol { .. } => "protocol",
            Error::Unsure { .. } => "unsure",
            Error::Config { .. } => "config",
        }
    }
}

} // verus!
