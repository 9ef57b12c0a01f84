//! The client's decisions: its settings, the base URL it talks to, and what to do after each
//! HTTP attempt. Retries `429`, `529` and a request that never reached a server, with
//! exponential backoff, honouring `retry-after`, and maps statuses to [`Error`].
//!
//! Durations are whole nanoseconds (`u128`), which holds every `Duration` exactly.

use vstd::prelude::*;
use vstd::arithmetic::power2::{lemma2_to64, lemma_pow2_pos, lemma_pow2_strictly_increases, lemma_pow2_unfold, pow2};
use vstd::string::StringExecFns;

use crate::error::Error;
use crate::scalars::ApiKey;
use crate::text::{owned, trim, trimmed};
use reqwest::Client as HttpClient;
use reqwest::Error as HttpError;

verus! {

/// An HTTP client of `reqwest`: the transport.
#[verifier::external_type_specification]
#[verifier::external_body]
pub struct ExHttpClient(HttpClient);

/// A failure reported by `reqwest`.
#[verifier::external_type_specification]
#[verifier::external_body]
pub struct ExHttpError(HttpError);

/// `reqwest::Client::clone`: another handle on the same transport and connection pool.
pub assume_specification[ <HttpClient as Clone>::clone ](c: &HttpClient) -> HttpClient;

/// `Duration::new`: a span of time from whole seconds and nanoseconds; it panics only when
/// the nanoseconds carry past `u64::MAX` seconds, which a count below one second never does.
pub assume_specification[ core::time::Duration::new ](secs: u64, nanos: u32) -> (d: core::time::Duration)
    requires
        nanos < 1_000_000_000,
    ensures
        d == span(secs, nanos),
;

/// The span of time of `secs` seconds and `nanos` nanoseconds, as `Duration::new` builds it.
pub uninterp spec fn span(secs: u64, nanos: u32) -> core::time::Duration;

/// The API origin used when none is given.
pub open spec fn default_base_url() -> Seq<char> {
    "https://api.typesafe.ai"@
}

/// One second, in nanoseconds.
pub const NANOS_PER_SEC: u128 = 1_000_000_000;

/// One millisecond, in nanoseconds.
pub const NANOS_PER_MILLI: u128 = 1_000_000;

/// The longest wait before a retry: 30 s.
pub const MAX_BACKOFF: u128 = 30_000_000_000;

/// The longest `retry-after` that is waited for, in seconds.
pub const MAX_RETRY_AFTER_SECS: u64 = 30;

/// Jitter is up to this many milliseconds.
pub const JITTER_MS: u64 = 250;

/// The default base delay: 500 ms.
pub const DEFAULT_BACKOFF: u128 = 500_000_000;

/// The default deadline for each attempt: 30 s.
pub const DEFAULT_TIMEOUT: u128 = 30_000_000_000;

/// The default number of retries.
pub const DEFAULT_RETRIES: u32 = 3;

/// What `reqwest::Url::parse` gives for a base URL, as plain values: its host, its port (or
/// the scheme's default), its user name and its password.
pub struct Origin {
    pub host: Option<String>,
    pub port: Option<u16>,
    pub username: String,
    pub password: Option<String>,
}

/// [`Origin`] as plain values.
pub open spec fn origin_view(o: Origin) -> (Option<Seq<char>>, Option<u16>, Seq<char>, Option<Seq<char>>) {
    (
        match o.host {
            Some(h) => Some(h@),
            None => None,
        },
        o.port,
        o.username@,
        match o.password {
            Some(p) => Some(p@),
            None => None,
        },
    )
}

/// What `reqwest::Url::parse` makes of a URL: `None` when it does not parse, else its host,
/// port (or the scheme's default), user name and password.
pub uninterp spec fn parsed_url(url: Seq<char>) -> Option<
    (Option<Seq<char>>, Option<u16>, Seq<char>, Option<Seq<char>>),
>;

/// `reqwest::Url::parse`, read into plain values through `host_str`,
/// `port_or_known_default`, `username` and `password`. The result is what the URL parser
/// makes of this text.
#[verifier::external_body]
fn parse_url(url: &str) -> (r: Option<Origin>)
    ensures
        match r {
            Some(o) => parsed_url(url@) == Some(origin_view(o)),
            None => parsed_url(url@) is None,
        },
{
    reqwest::Url::parse(url).ok().map(|u| Origin {
        host: u.host_str().map(str::to_owned),
        port: u.port_or_known_default(),
        username: u.username().to_owned(),
        password: u.password().map(str::to_owned),
    })
}

/// A transport that `reqwest` built, with the deadline it was given for each attempt.
struct TimedHttp {
    http: HttpClient,
    timeout: core::time::Duration,
}

/// `reqwest::Client::builder().timeout(timeout).build()`: a transport with this deadline for
/// each attempt, handed back beside the deadline it was built with. It can fail (a TLS
/// backend that does not initialise); nothing more is said of the client it builds.
#[verifier::external_body]
fn http_with_timeout(timeout: core::time::Duration) -> (r: Result<TimedHttp, HttpError>)
    ensures
        r matches Ok(t) ==> t.timeout == timeout,
{
    match reqwest::Client::builder().timeout(timeout).build() {
        Ok(http) => Ok(TimedHttp { http, timeout }),
        Err(e) => Err(e),
    }
}

/// `reqwest::Error`'s `Display` text.
#[verifier::external_body]
fn http_error_text(e: &HttpError) -> String {
    format!("{e}")
}

/// A transport failure as the library's error.
fn transport(e: HttpError) -> (r: Error)
    ensures
        r is Transport,
{
    Error::Transport { detail: http_error_text(&e) }
}

/// `s` without trailing `/` characters.
pub open spec fn without_trailing_slashes(s: Seq<char>) -> Seq<char>
    decreases s.len(),
{
    if s.len() > 0 && s.last() == '/' {
        without_trailing_slashes(s.drop_last())
    } else {
        s
    }
}

/// A nanosecond count as a span of time, saturating at `u64::MAX` whole seconds.
pub open spec fn deadline_span(nanos: u128) -> core::time::Duration {
    span(
        if nanos / NANOS_PER_SEC > u64::MAX as u128 { u64::MAX } else { (nanos / NANOS_PER_SEC) as u64 },
        (nanos % NANOS_PER_SEC) as u32,
    )
}

/// A nanosecond count as a `Duration`, saturating at `u64::MAX` whole seconds.
fn duration_of(nanos: u128) -> (r: core::time::Duration)
    ensures
        r == deadline_span(nanos),
{
    let secs = nanos / NANOS_PER_SEC;
    let sub = (nanos % NANOS_PER_SEC) as u32;
    if secs > u64::MAX as u128 {
        core::time::Duration::new(u64::MAX, sub)
    } else {
        core::time::Duration::new(secs as u64, sub)
    }
}

/// Configures a [`Client`].
pub struct ClientBuilder {
    api_key: ApiKey,
    base_url: String,
    max_retries: u32,
    backoff: u128,
    timeout: Option<u128>,
    http: Option<HttpClient>,
}

/// What a [`ClientBuilder`] holds, as plain values.
pub struct ClientBuilderView {
    pub api_key: Seq<char>,
    pub base_url: Seq<char>,
    pub max_retries: u32,
    pub backoff: u128,
    pub timeout: Option<u128>,
    pub has_http: bool,
}

impl View for ClientBuilder {
    type V = ClientBuilderView;

    closed spec fn view(&self) -> ClientBuilderView {
        ClientBuilderView {
            api_key: self.api_key@,
            base_url: self.base_url@,
            max_retries: self.max_retries,
            backoff: self.backoff,
            timeout: self.timeout,
            has_http: self.http is Some,
        }
    }
}

/// A client for the TypeSafe HTTP API: the transport, where it points, the key, and the
/// retry settings.
#[derive(Clone)]
pub struct Client {
    http: HttpClient,
    base_url: String,
    host: String,
    port: u16,
    api_key: ApiKey,
    max_retries: u32,
    backoff: u128,
    timeout: Option<core::time::Duration>,
}

/// What a [`Client`] holds, as plain values. `timeout` is the deadline its transport was
/// built with, or none for a transport handed in, which carries its own.
pub struct ClientView {
    pub base_url: Seq<char>,
    pub host: Seq<char>,
    pub port: u16,
    pub api_key: Seq<char>,
    pub max_retries: u32,
    pub backoff: u128,
    pub timeout: Option<core::time::Duration>,
}

impl View for Client {
    type V = ClientView;

    closed spec fn view(&self) -> ClientView {
        ClientView {
            base_url: self.base_url@,
            host: self.host@,
            port: self.port,
            api_key: self.api_key@,
            max_retries: self.max_retries,
            backoff: self.backoff,
            timeout: self.timeout,
        }
    }
}

/// How a build fails, as a function of the settings: the first rule they break, if any.
pub enum BuildFault {
    /// `timeout` set beside `http(..)`.
    TimeoutBesideHttp,
    /// The base URL does not parse, or has no host.
    NoHost,
    /// The base URL carries a user name or a password.
    Credentials,
}

/// The first rule the settings break, if any. `reqwest` may still fail to build a
/// transport of its own after these pass.
pub open spec fn build_fault(b: ClientBuilderView) -> Option<BuildFault> {
    if b.has_http && b.timeout is Some {
        Some(BuildFault::TimeoutBesideHttp)
    } else {
        match parsed_url(b.base_url) {
            None => Some(BuildFault::NoHost),
            Some((host, _port, user, password)) => if host is None {
                Some(BuildFault::NoHost)
            } else if user.len() > 0 || password is Some {
                Some(BuildFault::Credentials)
            } else {
                None
            },
        }
    }
}

/// The message of a build fault.
pub open spec fn build_fault_message(f: BuildFault) -> Seq<char> {
    match f {
        BuildFault::TimeoutBesideHttp => "timeout beside http(..) would do nothing: an injected reqwest client carries its own deadline; set the timeout on it"@,
        BuildFault::NoHost => "base_url must be an absolute URL with a host"@,
        BuildFault::Credentials => "base_url must not carry a user name or a password; the key goes in api_key"@,
    }
}

/// What building a client from these settings gives: the first rule they break as
/// [`Error::Config`]; else a client that keeps them, pointed at the host and port the base URL
/// names, or [`Error::Transport`] when `reqwest` cannot build a transport of its own.
pub open spec fn builds(b: ClientBuilderView, r: Result<Client, Error>) -> bool {
    match build_fault(b) {
        Some(f) => r matches Err(Error::Config { detail }) && detail@ == build_fault_message(f),
        None => match r {
            Ok(c) => client_keeps(c@, b),
            Err(e) => e is Transport && !b.has_http,
        },
    }
}

/// The client keeps the settings, pointed at the host and port the base URL names.
pub open spec fn client_keeps(c: ClientView, b: ClientBuilderView) -> bool {
    &&& c.base_url == b.base_url
    &&& c.api_key == b.api_key
    &&& c.max_retries == b.max_retries
    &&& c.backoff == b.backoff
    &&& c.timeout == if b.has_http {
        None
    } else {
        Some(deadline_span(match b.timeout {
            Some(t) => t,
            None => DEFAULT_TIMEOUT,
        }))
    }
    &&& parsed_url(b.base_url) matches Some((Some(host), Some(port), _, _)) ==> c.host == host && c.port == port
}

impl Client {
    /// A client with the defaults: what `Client::builder(api_key).build()` gives.
    pub fn new(api_key: ApiKey) -> (r: Result<Client, Error>)
        ensures
            builds(
                ClientBuilderView {
                    api_key: api_key@,
                    base_url: default_base_url(),
                    max_retries: DEFAULT_RETRIES,
                    backoff: DEFAULT_BACKOFF,
                    timeout: None,
                    has_http: false,
                },
                r,
            ),
    {
        Self::builder(api_key).build()
    }

    /// Start configuring a client. Defaults: `https://api.typesafe.ai`, 3 retries, 500 ms
    /// base backoff, 30 s timeout.
    pub fn builder(api_key: ApiKey) -> (r: ClientBuilder)
        ensures
            r@.api_key == api_key@,
            r@.base_url == default_base_url(),
            r@.max_retries == DEFAULT_RETRIES,
            r@.backoff == DEFAULT_BACKOFF,
            r@.timeout is None,
            !r@.has_http,
    {
        proof {
            reveal_strlit("https://api.typesafe.ai");
        }
        ClientBuilder {
            api_key,
            base_url: owned("https://api.typesafe.ai"),
            max_retries: DEFAULT_RETRIES,
            backoff: DEFAULT_BACKOFF,
            timeout: None,
            http: None,
        }
    }

    /// Another client on the same transport, with the same settings.
    pub fn duplicate(&self) -> (r: Client)
        ensures
            r@ == self@,
    {
        Client {
            http: self.http.clone(),
            base_url: self.base_url.clone(),
            host: self.host.clone(),
            port: self.port,
            api_key: self.api_key.duplicate(),
            max_retries: self.max_retries,
            backoff: self.backoff,
            timeout: self.timeout,
        }
    }

    /// The base URL, without a trailing slash.
    pub fn base_url(&self) -> (r: &str)
        ensures
            r@ == self@.base_url,
    {
        self.base_url.as_str()
    }

    /// The host and port of the base URL, for telemetry.
    pub fn server(&self) -> (r: (&str, u16))
        ensures
            r.0@ == self@.host,
            r.1 == self@.port,
    {
        (self.host.as_str(), self.port)
    }

    /// The key, for the `Authorization` header only.
    pub fn api_key(&self) -> (r: &ApiKey)
        ensures
            r@ == self@.api_key,
    {
        &self.api_key
    }

    /// The transport this client sends through.
    pub closed spec fn transport_client(&self) -> HttpClient {
        self.http
    }

    /// The transport.
    pub fn http(&self) -> (r: &HttpClient)
        ensures
            *r == self.transport_client(),
    {
        &self.http
    }

    /// Retries for `429`, `529` and a failure to connect.
    pub fn max_retries(&self) -> (r: u32)
        ensures
            r == self@.max_retries,
    {
        self.max_retries
    }

    /// The base delay of the exponential backoff.
    pub fn backoff(&self) -> (r: u128)
        ensures
            r == self@.backoff,
    {
        self.backoff
    }
}

impl ClientBuilder {
    /// Override the API origin (tests, proxies). Trailing slashes are dropped.
    pub fn base_url(self, url: String) -> (r: ClientBuilder)
        ensures
            r@ == (ClientBuilderView { base_url: without_trailing_slashes(url@), ..self@ }),
    {
        let mut url = url;
        let n = url.unicode_len();
        let mut keep: usize = n;
        proof {
            assert(url@.take(n as int) =~= url@);
        }
        while keep > 0 && url.get_char(keep - 1) == '/'
            invariant
                n == url@.len(),
                keep <= n,
                without_trailing_slashes(url@) == without_trailing_slashes(url@.take(keep as int)),
            decreases keep,
        {
            proof {
                assert(url@.take(keep as int).drop_last() =~= url@.take(keep - 1));
            }
            keep = keep - 1;
        }
        proof {
            let t = url@.take(keep as int);
            if keep > 0 {
                assert(t.last() == url@[keep - 1]);
            }
            assert(without_trailing_slashes(t) == t);
            assert(url@.subrange(0, keep as int) =~= t);
        }
        let trimmed_url = owned(url.as_str().substring_char(0, keep));
        ClientBuilder {
            api_key: self.api_key,
            base_url: trimmed_url,
            max_retries: self.max_retries,
            backoff: self.backoff,
            timeout: self.timeout,
            http: self.http,
        }
    }

    /// Retries for `429`, `529` and a failure to connect. `0` disables retrying.
    pub fn max_retries(self, n: u32) -> (r: ClientBuilder)
        ensures
            r@ == (ClientBuilderView { max_retries: n, ..self@ }),
    {
        ClientBuilder { max_retries: n, ..self }
    }

    /// Base delay for exponential backoff, in nanoseconds.
    pub fn backoff(self, nanos: u128) -> (r: ClientBuilder)
        ensures
            r@ == (ClientBuilderView { backoff: nanos, ..self@ }),
    {
        ClientBuilder { backoff: nanos, ..self }
    }

    /// Deadline for each attempt, in nanoseconds.
    pub fn timeout(self, nanos: u128) -> (r: ClientBuilder)
        ensures
            r@ == (ClientBuilderView { timeout: Some(nanos), ..self@ }),
    {
        ClientBuilder { timeout: Some(nanos), ..self }
    }

    /// Send through this `reqwest` client: a proxy, a client certificate, a shared pool. It
    /// carries its own deadline, so [`timeout`](ClientBuilder::timeout) beside it is refused.
    pub fn http(self, http: HttpClient) -> (r: ClientBuilder)
        ensures
            r@ == (ClientBuilderView { has_http: true, ..self@ }),
    {
        ClientBuilder { http: Some(http), ..self }
    }

    /// Build the client. [`Error::Config`] when the settings break a rule (see
    /// [`build_fault`]); [`Error::Transport`] when `reqwest` cannot build a transport.
    pub fn build(self) -> (r: Result<Client, Error>)
        ensures
            builds(self@, r),
    {
        proof {
            reveal_strlit("timeout beside http(..) would do nothing: an injected reqwest client carries its own deadline; set the timeout on it");
            reveal_strlit("base_url must be an absolute URL with a host");
            reveal_strlit("base_url must not carry a user name or a password; the key goes in api_key");
        }
        if self.http.is_some() && self.timeout.is_some() {
            return Err(Error::Config {
                detail: owned("timeout beside http(..) would do nothing: an injected reqwest client carries its own deadline; set the timeout on it"),
            });
        }
        let origin = match parse_url(self.base_url.as_str()) {
            Some(o) => o,
            None => {
                return Err(Error::Config { detail: owned("base_url must be an absolute URL with a host") });
            },
        };
        let host = match origin.host {
            Some(h) => h,
            None => {
                return Err(Error::Config { detail: owned("base_url must be an absolute URL with a host") });
            },
        };
        if origin.username.unicode_len() > 0 || origin.password.is_some() {
            return Err(Error::Config {
                detail: owned("base_url must not carry a user name or a password; the key goes in api_key"),
            });
        }
        let port = match origin.port {
            Some(p) => p,
            None => 0,
        };
        let (http, timeout) = match self.http {
            Some(h) => (h, None),
            None => {
                let deadline = match self.timeout {
                    Some(t) => t,
                    None => DEFAULT_TIMEOUT,
                };
                match http_with_timeout(duration_of(deadline)) {
                    Ok(t) => (t.http, Some(t.timeout)),
                    Err(e) => {
                        return Err(transport(e));
                    },
                }
            },
        };
        Ok(Client {
            http,
            timeout,
            base_url: self.base_url,
            host,
            port,
            api_key: self.api_key,
            max_retries: self.max_retries,
            backoff: self.backoff,
        })
    }
}

/// An ASCII decimal digit.
pub open spec fn is_digit(c: char) -> bool {
    '0' <= c <= '9'
}

/// The number that a run of decimal digits writes.
pub open spec fn digits_value(s: Seq<char>) -> nat
    decreases s.len(),
{
    if s.len() == 0 {
        0
    } else {
        digits_value(s.drop_last()) * 10 + ((s.last() as int) - ('0' as int)) as nat
    }
}

/// Text without one leading `+`, if it has one.
pub open spec fn unsigned_part(s: Seq<char>) -> Seq<char> {
    if s.len() > 0 && s[0] == '+' {
        s.drop_first()
    } else {
        s
    }
}

/// Every char is a decimal digit.
pub open spec fn all_digits(s: Seq<char>) -> bool {
    forall|i: int| 0 <= i < s.len() ==> is_digit(#[trigger] s[i])
}

/// `u64::from_str`: an optional `+`, then one or more decimal digits whose value fits.
pub open spec fn parsed_u64(s: Seq<char>) -> Option<u64> {
    let body = unsigned_part(s);
    if body.len() > 0 && all_digits(body) && digits_value(body) <= u64::MAX {
        Some(digits_value(body) as u64)
    } else {
        None
    }
}

/// A header's text, if it had one.
pub open spec fn header_text(h: Option<String>) -> Option<Seq<char>> {
    match h {
        Some(s) => Some(s@),
        None => None,
    }
}

/// The whole seconds a `retry-after` header asks for: its text trimmed and read as a `u64`.
pub open spec fn retry_after_secs(h: Option<Seq<char>>) -> Option<u64> {
    match h {
        Some(s) => parsed_u64(trim(s)),
        None => None,
    }
}

/// A run of digits one longer has the value of the shorter, times ten, plus the new digit.
proof fn lemma_digits_step(s: Seq<char>, i: int)
    requires
        0 <= i < s.len(),
    ensures
        digits_value(s.take(i + 1)) == digits_value(s.take(i)) * 10 + ((s[i] as int) - ('0' as int)) as nat,
{
    assert(s.take(i + 1).drop_last() =~= s.take(i));
}

/// Read a `retry-after` value: trimmed, then whole seconds as a `u64`.
pub fn parse_retry_after(value: &str) -> (r: Option<u64>)
    ensures
        r == parsed_u64(trim(value@)),
{
    let t = trimmed(value);
    let n = t.unicode_len();
    let mut start: usize = 0;
    if n > 0 && t.get_char(0) == '+' {
        start = 1;
    }
    let ghost body = unsigned_part(t@);
    proof {
        assert(body =~= t@.subrange(start as int, n as int));
    }
    if start == n {
        proof {
            assert(body.len() == 0);
            assert(t@ == trim(value@));
            assert(parsed_u64(t@) is None);
        }
        return None;
    }
    let mut acc: u64 = 0;
    let mut over = false;
    let mut i: usize = start;
    while i < n
        invariant
            n == t@.len(),
            start <= i <= n,
            start < n,
            t@ == trim(value@),
            body == unsigned_part(t@),
            body == t@.subrange(start as int, n as int),
            forall|j: int| 0 <= j < i - start ==> is_digit(#[trigger] body[j]),
            over ==> digits_value(body.take(i - start)) > u64::MAX,
            !over ==> acc == digits_value(body.take(i - start)),
        decreases n - i,
    {
        let c = t.get_char(i);
        proof {
            assert(body[i - start] == c);
        }
        if !('0' <= c && c <= '9') {
            proof {
                assert(!is_digit(body[i - start]));
                assert(!all_digits(body));
            }
            return None;
        }
        let d = ((c as u32) - ('0' as u32)) as u64;
        proof {
            lemma_digits_step(body, i - start);
        }
        if !over {
            match acc.checked_mul(10) {
                Some(x) => match x.checked_add(d) {
                    Some(y) => {
                        acc = y;
                    },
                    None => {
                        over = true;
                    },
                },
                None => {
                    over = true;
                },
            }
        }
        i = i + 1;
    }
    proof {
        assert(body.take(body.len() as int) =~= body);
    }
    if over {
        None
    } else {
        Some(acc)
    }
}

/// `2u32.saturating_pow(attempt)`.
pub open spec fn growth(attempt: u32) -> nat {
    if attempt < 32 {
        pow2(attempt as nat)
    } else {
        u32::MAX as nat
    }
}

/// The exponential part of the wait before retry `attempt + 1`: `backoff × 2^attempt`,
/// capped at 30 s.
pub open spec fn backoff_wait(backoff: u128, attempt: u32) -> int {
    let grown = backoff * growth(attempt);
    if grown < MAX_BACKOFF {
        grown
    } else {
        MAX_BACKOFF as int
    }
}

/// The jitter, in milliseconds, drawn from `entropy`: `0..=250`.
pub open spec fn jitter_ms(entropy: u64) -> int {
    (entropy as int) % (JITTER_MS as int + 1)
}

/// The wait before retry `attempt + 1` when the API said nothing: the exponential part plus
/// the jitter.
pub open spec fn delay(backoff: u128, attempt: u32, entropy: u64) -> int {
    backoff_wait(backoff, attempt) + jitter_ms(entropy) * NANOS_PER_MILLI
}

/// `2u32.saturating_pow(attempt)`, computed.
fn growth_of(attempt: u32) -> (r: u32)
    ensures
        r == growth(attempt),
{
    if attempt >= 32 {
        return u32::MAX;
    }
    proof {
        lemma2_to64();
    }
    let mut factor: u32 = 1;
    let mut k: u32 = 0;
    while k < attempt
        invariant
            k <= attempt < 32,
            factor == pow2(k as nat),
            pow2(31) == 0x8000_0000,
        decreases attempt - k,
    {
        proof {
            lemma_pow2_unfold((k + 1) as nat);
            if k + 1 < 31 {
                lemma_pow2_strictly_increases((k + 1) as nat, 31);
            }
        }
        factor = factor * 2;
        k = k + 1;
    }
    factor
}

/// The wait before retry `attempt + 1` when the API said nothing: `backoff × 2^attempt`,
/// capped at 30 s, plus `entropy`'s share of up to 250 ms of jitter.
pub fn backoff_delay(backoff: u128, attempt: u32, entropy: u64) -> (r: u128)
    ensures
        r == delay(backoff, attempt, entropy),
        r <= MAX_BACKOFF + JITTER_MS * NANOS_PER_MILLI,
{
    let factor = growth_of(attempt) as u128;
    proof {
        if attempt < 32 {
            lemma_pow2_pos(attempt as nat);
        }
    }
    let grown = if backoff >= MAX_BACKOFF {
        proof {
            assert(backoff * factor >= backoff) by (nonlinear_arith)
                requires factor >= 1;
        }
        MAX_BACKOFF
    } else {
        assert(backoff * factor <= MAX_BACKOFF * u32::MAX) by (nonlinear_arith)
            requires backoff < MAX_BACKOFF, factor <= u32::MAX;
        let g = backoff * factor;
        if g < MAX_BACKOFF {
            g
        } else {
            MAX_BACKOFF
        }
    };
    let jitter = (entropy % (JITTER_MS + 1)) as u128;
    grown + jitter * NANOS_PER_MILLI
}

/// What one HTTP attempt came back with.
#[derive(Debug)]
pub enum Attempt {
    /// A response with this status. `retry_after` is its `retry-after` header, when it had
    /// one that is text.
    Response { status: u16, retry_after: Option<String> },
    /// The request never reached a server: a refused or reset connection, a failed TLS
    /// handshake. Safe to send again.
    Unreachable,
    /// Any other transport failure, a timeout of any phase among them. Not retried.
    Broken,
}

/// What to do after an attempt.
#[derive(Debug)]
pub enum Next {
    /// `200`: read the body and decode it; a body that breaks the contract is
    /// [`Error::Protocol`], a failure to read it [`Error::Transport`].
    Decode,
    /// Wait this many nanoseconds, then send again.
    Retry { wait: u128 },
    /// `422`: read the body and fail with [`Error::Invalid`] carrying it.
    Invalid,
    /// A status the contract does not define: read the body and fail with
    /// [`Error::UnexpectedStatus`].
    Unexpected { status: u16 },
    /// Fail with this error.
    Fail(Error),
    /// Fail with the transport failure the attempt reported, as [`Error::Transport`].
    Transport,
}

/// `429` or `529`: the API asks the caller to slow down.
pub open spec fn throttled(status: u16) -> bool {
    status == 429 || status == 529
}

/// The error a throttle ends in.
pub open spec fn throttle_error(status: u16, retry_after: Option<u64>) -> Error {
    if status == 429 {
        Error::RateLimited { retry_after }
    } else {
        Error::Overloaded { retry_after }
    }
}

/// What follows attempt `attempt` of a call through a client with settings `c`, given what
/// the attempt came back with and the jitter's `entropy`.
pub open spec fn decides(c: ClientView, attempt: u32, got: Attempt, entropy: u64, r: Next) -> bool {
    match got {
        Attempt::Broken => r is Transport,
        Attempt::Unreachable => if attempt < c.max_retries {
            r == Next::Retry { wait: delay(c.backoff, attempt, entropy) as u128 }
        } else {
            r is Transport
        },
        Attempt::Response { status, retry_after } => {
            let secs = retry_after_secs(header_text(retry_after));
            if status == 200 {
                r is Decode
            } else if throttled(status) {
                if (secs matches Some(s) && s > MAX_RETRY_AFTER_SECS) || attempt == c.max_retries {
                    r == Next::Fail(throttle_error(status, secs))
                } else {
                    r == Next::Retry {
                        wait: match secs {
                            Some(s) => s * NANOS_PER_SEC,
                            None => delay(c.backoff, attempt, entropy),
                        } as u128,
                    }
                }
            } else if status == 401 {
                r == Next::Fail(Error::Auth)
            } else if status == 422 {
                r is Invalid
            } else {
                r == Next::Unexpected { status }
            }
        },
    }
}

impl Client {
    /// Decide what follows attempt `attempt` (counting from 0), given what it came back with
    /// and `entropy`, a random number that only the jitter reads.
    ///
    /// `429` and `529` are retried after the `retry-after` the API sent (whole seconds), or
    /// else after [`backoff_delay`]; a `retry-after` above 30 s, or a throttle on the last
    /// attempt, fails with the duration the API asked for. A request that never reached a
    /// server is retried after [`backoff_delay`]. Nothing is retried once `max_retries`
    /// retries are spent, so a call sends at most `max_retries + 1` requests.
    pub fn next(&self, attempt: u32, got: &Attempt, entropy: u64) -> (r: Next)
        requires
            attempt <= self@.max_retries,
        ensures
            decides(self@, attempt, *got, entropy, r),
            r is Retry ==> attempt < self@.max_retries,
            r matches Next::Retry { wait } ==> wait <= MAX_BACKOFF + JITTER_MS * NANOS_PER_MILLI,
    {
        match got {
            Attempt::Broken => Next::Transport,
            Attempt::Unreachable => {
                if attempt < self.max_retries {
                    Next::Retry { wait: backoff_delay(self.backoff, attempt, entropy) }
                } else {
                    Next::Transport
                }
            },
            Attempt::Response { status, retry_after } => {
                let status = *status;
                if status == 200 {
                    Next::Decode
                } else if status == 429 || status == 529 {
                    let secs = match retry_after {
                        Some(text) => parse_retry_after(text.as_str()),
                        None => None,
                    };
                    let too_long = match secs {
                        Some(s) => s > MAX_RETRY_AFTER_SECS,
                        None => false,
                    };
                    if too_long || attempt == self.max_retries {
                        if status == 429 {
                            Next::Fail(Error::RateLimited { retry_after: secs })
                        } else {
                            Next::Fail(Error::Overloaded { retry_after: secs })
                        }
                    } else {
                        let wait = match secs {
                            Some(s) => (s as u128) * NANOS_PER_SEC,
                            None => backoff_delay(self.backoff, attempt, entropy),
                        };
                        Next::Retry { wait }
                    }
                } else if status == 401 {
                    Next::Fail(Error::Auth)
                } else if status == 422 {
                    Next::Invalid
                } else {
                    Next::Unexpected { status }
                }
            },
        }
    }
}

} // verus!
