//! The product: one verb, `ask`, over any question shape, in exactly one request.
//!
//! An ask is three steps. [`Guide::prepare`] checks the state, encodes the shape into
//! questions with their settled thresholds, and builds the request. The request goes over
//! the wire. [`conclude`] resolves every answer of the response under its question's
//! thresholds, describes each for telemetry, and decodes the answers back into the shape.

use vstd::prelude::*;
use vstd::string::StringExecFns;

use crate::api::{QuestionId, Request, Response, Usage, id_text};
use crate::ask::{Ask, Plan, Reply, settle_answer, settles};
use crate::client::{
    Client, ClientBuilderView, ClientView, DEFAULT_BACKOFF, DEFAULT_RETRIES, builds, client_keeps,
    default_base_url, without_trailing_slashes,
};
use crate::error::Error;
use crate::policy::{Outcome, Policy, Thresholds, Verdict, settled_min, settled_no, settled_yes, spec_over, valid_thresholds};
use crate::scalars::{ApiKey, Model, State};
use crate::text::{decimal, join, owned, push_decimal, push_joined, texts};

verus! {

/// An answer with what the request cost and which model produced it.
#[derive(Debug)]
pub struct Receipt<T> {
    /// The answer, in the shape that was asked for.
    pub answer: T,
    /// The versioned model that answered, for example `jev-1.13.0`, even when an alias such
    /// as `jev-latest` was requested.
    pub model: Model,
    /// Tokens read and written. Input tokens are the billed ones.
    pub usage: Usage,
}

/// The policy settles into valid thresholds.
pub open spec fn policy_ok(p: Policy) -> bool {
    valid_thresholds(settled_yes(p), settled_no(p), settled_min(p))
}

/// The settings that build a [`Client`], and that an injected one already carries.
struct Transport {
    api_key: Option<ApiKey>,
    base_url: Option<String>,
    max_retries: Option<u32>,
    backoff: Option<u128>,
    timeout: Option<u128>,
}

/// The names of the transport settings that were set, in the order of the setters.
pub open spec fn named_settings(
    api_key: bool,
    base_url: bool,
    max_retries: bool,
    backoff: bool,
    timeout: bool,
) -> Seq<Seq<char>> {
    (if api_key { seq!["api_key"@] } else { Seq::empty() })
        + (if base_url { seq!["base_url"@] } else { Seq::empty() })
        + (if max_retries { seq!["max_retries"@] } else { Seq::empty() })
        + (if backoff { seq!["backoff"@] } else { Seq::empty() })
        + (if timeout { seq!["timeout"@] } else { Seq::empty() })
}

/// The client settings these guide settings describe: each unset one at its default.
pub open spec fn client_settings(
    api_key: Seq<char>,
    base_url: Option<Seq<char>>,
    max_retries: Option<u32>,
    backoff: Option<u128>,
    timeout: Option<u128>,
) -> ClientBuilderView {
    ClientBuilderView {
        api_key,
        base_url: match base_url {
            Some(u) => without_trailing_slashes(u),
            None => default_base_url(),
        },
        max_retries: match max_retries {
            Some(n) => n,
            None => DEFAULT_RETRIES,
        },
        backoff: match backoff {
            Some(d) => d,
            None => DEFAULT_BACKOFF,
        },
        timeout,
        has_http: false,
    }
}

/// Why settings beside an injected client are refused.
pub open spec fn conflict_message(names: Seq<Seq<char>>) -> Seq<char> {
    "client(..) already carries the API key, the base URL and the retry, backoff and timeout settings, so "@
        + join(names, ", "@)
        + " would do nothing here; set it on api::Client::builder instead. from_env() sets api_key, and base_url when TYPESAFE_BASE_URL is present"@
}

/// An optional string's text.
pub open spec fn text_of(s: Option<String>) -> Option<Seq<char>> {
    match s {
        Some(t) => Some(t@),
        None => None,
    }
}

impl Transport {
    /// The settings that were set, by the name of the setter that sets them.
    fn named(&self) -> (r: Vec<String>)
        ensures
            texts(r@) == named_settings(
                self.api_key is Some,
                self.base_url is Some,
                self.max_retries is Some,
                self.backoff is Some,
                self.timeout is Some,
            ),
    {
        let mut out: Vec<String> = Vec::new();
        let ghost mut expect: Seq<Seq<char>> = Seq::empty();
        proof {
            reveal_strlit("api_key");
            reveal_strlit("base_url");
            reveal_strlit("max_retries");
            reveal_strlit("backoff");
            reveal_strlit("timeout");
        }
        if self.api_key.is_some() {
            out.push(owned("api_key"));
        }
        proof {
            expect = if self.api_key is Some { seq!["api_key"@] } else { Seq::empty() };
            assert(texts(out@) =~= expect);
        }
        if self.base_url.is_some() {
            out.push(owned("base_url"));
        }
        proof {
            expect = expect + if self.base_url is Some { seq!["base_url"@] } else { Seq::empty() };
            assert(texts(out@) =~= expect);
        }
        if self.max_retries.is_some() {
            out.push(owned("max_retries"));
        }
        proof {
            expect = expect + if self.max_retries is Some { seq!["max_retries"@] } else { Seq::empty() };
            assert(texts(out@) =~= expect);
        }
        if self.backoff.is_some() {
            out.push(owned("backoff"));
        }
        proof {
            expect = expect + if self.backoff is Some { seq!["backoff"@] } else { Seq::empty() };
            assert(texts(out@) =~= expect);
        }
        if self.timeout.is_some() {
            out.push(owned("timeout"));
        }
        proof {
            expect = expect + if self.timeout is Some { seq!["timeout"@] } else { Seq::empty() };
            assert(texts(out@) =~= expect);
        }
        out
    }

    /// Build the client these settings describe, leaving every unset one at its default.
    fn build(self) -> (r: Result<Client, Error>)
        ensures
            match self.api_key {
                None => r matches Err(Error::Config { detail }) && detail@ == "api_key is required"@,
                Some(k) => builds(
                    client_settings(k@, text_of(self.base_url), self.max_retries, self.backoff, self.timeout),
                    r,
                ),
            },
    {
        let key = match self.api_key {
            Some(k) => k,
            None => {
                proof {
                    reveal_strlit("api_key is required");
                }
                return Err(Error::Config { detail: owned("api_key is required") });
            },
        };
        let mut client = Client::builder(key);
        if let Some(n) = self.max_retries {
            client = client.max_retries(n);
        }
        if let Some(d) = self.backoff {
            client = client.backoff(d);
        }
        if let Some(d) = self.timeout {
            client = client.timeout(d);
        }
        if let Some(url) = self.base_url {
            client = client.base_url(url);
        }
        client.build()
    }
}

/// A configured entry point to Jev: a client, the model, the guide-wide policy, and whether
/// the state is recorded on the span. A clone is cheap: it shares the client's transport.
#[derive(Clone)]
pub struct Guide {
    client: Client,
    model: Model,
    policy: Policy,
    record_state: bool,
}

/// What a [`Guide`] holds, as plain values.
pub struct GuideView {
    pub client: ClientView,
    pub model: Seq<char>,
    pub policy: Policy,
    pub record_state: bool,
}

impl View for Guide {
    type V = GuideView;

    closed spec fn view(&self) -> GuideView {
        GuideView {
            client: self.client@,
            model: self.model@,
            policy: self.policy,
            record_state: self.record_state,
        }
    }
}

/// Configures a [`Guide`].
pub struct GuideBuilder {
    transport: Transport,
    client: Option<Client>,
    model: Model,
    policy: Policy,
    record_state: bool,
}

/// What a [`GuideBuilder`] holds, as plain values.
pub struct GuideBuilderView {
    pub api_key: Option<Seq<char>>,
    pub base_url: Option<Seq<char>>,
    pub max_retries: Option<u32>,
    pub backoff: Option<u128>,
    pub timeout: Option<u128>,
    pub client: Option<ClientView>,
    pub model: Seq<char>,
    pub policy: Policy,
    pub record_state: bool,
}

impl View for GuideBuilder {
    type V = GuideBuilderView;

    closed spec fn view(&self) -> GuideBuilderView {
        GuideBuilderView {
            api_key: match self.transport.api_key {
                Some(k) => Some(k@),
                None => None,
            },
            base_url: text_of(self.transport.base_url),
            max_retries: self.transport.max_retries,
            backoff: self.transport.backoff,
            timeout: self.transport.timeout,
            client: match self.client {
                Some(c) => Some(c@),
                None => None,
            },
            model: self.model@,
            policy: self.policy,
            record_state: self.record_state,
        }
    }
}

/// The transport settings of a builder that were set, by name.
pub open spec fn builder_named(b: GuideBuilderView) -> Seq<Seq<char>> {
    named_settings(b.api_key is Some, b.base_url is Some, b.max_retries is Some, b.backoff is Some, b.timeout is Some)
}

/// The guide holds this client, and the builder's model, policy and recording choice.
pub open spec fn guide_holds(g: GuideView, c: ClientView, b: GuideBuilderView) -> bool {
    &&& g.client == c
    &&& g.model == b.model
    &&& g.policy == b.policy
    &&& g.record_state == b.record_state
}

/// What building a guide from these settings gives. With an injected client, any transport
/// setting beside it is refused by name; without one, the client is built from the settings.
/// Then a policy that does not settle is [`Error::Config`].
pub open spec fn guide_builds(b: GuideBuilderView, r: Result<Guide, Error>) -> bool {
    match b.client {
        Some(c) => if builder_named(b).len() > 0 {
            r matches Err(Error::Config { detail }) && detail@ == conflict_message(builder_named(b))
        } else if !policy_ok(b.policy) {
            r matches Err(e) && e is Config
        } else {
            r matches Ok(g) && guide_holds(g@, c, b)
        },
        None => match b.api_key {
            None => r matches Err(Error::Config { detail }) && detail@ == "api_key is required"@,
            Some(k) => {
                let cb = client_settings(k, b.base_url, b.max_retries, b.backoff, b.timeout);
                match r {
                    Ok(g) => policy_ok(b.policy) && crate::client::build_fault(cb) is None && client_keeps(g@.client, cb) && g@.model == b.model
                        && g@.policy == b.policy && g@.record_state == b.record_state,
                    Err(e) => builds(cb, Err(e)) || (e is Config && !policy_ok(b.policy)
                        && crate::client::build_fault(cb) is None),
                }
            },
        },
    }
}

impl Guide {
    /// Start configuring a guide: no transport settings, no injected client, `jev-latest`,
    /// an empty policy patch, the state not recorded.
    pub fn builder() -> (r: GuideBuilder)
        ensures
            r@.api_key is None,
            r@.base_url is None,
            r@.max_retries is None,
            r@.backoff is None,
            r@.timeout is None,
            r@.client is None,
            r@.model == "jev-latest"@,
            r@.policy == (Policy { yes_above: None, no_below: None, min_confidence: None }),
            !r@.record_state,
    {
        GuideBuilder {
            transport: Transport { api_key: None, base_url: None, max_retries: None, backoff: None, timeout: None },
            client: None,
            model: Model::latest(),
            policy: Policy::new(),
            record_state: false,
        }
    }

    /// A guide sharing this client with `policy` patched over this guide's policy.
    /// Validated now, like [`GuideBuilder::build`], so a bad patch fails where it is written.
    pub fn with_policy(&self, policy: Policy) -> (r: Result<Guide, Error>)
        ensures
            policy_ok(spec_over(policy, self@.policy)) <==> r is Ok,
            r matches Ok(g) ==> g@ == (GuideView { policy: spec_over(policy, self@.policy), ..self@ }),
            r matches Err(e) ==> e is Config,
    {
        let patched = policy.over(self.policy);
        match patched.settle() {
            Ok(_) => {},
            Err(e) => return Err(e),
        }
        Ok(Guide {
            client: self.client.duplicate(),
            model: self.model.duplicate(),
            policy: patched,
            record_state: self.record_state,
        })
    }

    /// The client this guide sends through.
    pub fn client(&self) -> (r: &Client)
        ensures
            r@ == self@.client,
    {
        &self.client
    }

    /// The model or alias every request names.
    pub fn model(&self) -> (r: &Model)
        ensures
            r@ == self@.model,
    {
        &self.model
    }

    /// The guide-wide policy patch.
    pub fn policy(&self) -> (r: Policy)
        ensures
            r == self@.policy,
    {
        self.policy
    }

    /// Whether the state is recorded on the span.
    pub fn records_state(&self) -> (r: bool)
        ensures
            r == self@.record_state,
    {
        self.record_state
    }
}

impl GuideBuilder {
    /// The API key. Required unless an injected client supplies one.
    pub fn api_key(self, key: ApiKey) -> (r: GuideBuilder)
        ensures
            r@ == (GuideBuilderView { api_key: Some(key@), ..self@ }),
    {
        GuideBuilder { transport: Transport { api_key: Some(key), ..self.transport }, ..self }
    }

    /// Override the API origin.
    pub fn base_url(self, url: String) -> (r: GuideBuilder)
        ensures
            r@ == (GuideBuilderView { base_url: Some(url@), ..self@ }),
    {
        GuideBuilder { transport: Transport { base_url: Some(url), ..self.transport }, ..self }
    }

    /// Send through this [`Client`] instead of building one from the transport settings. It
    /// already carries them, so setting any of them here as well is refused at build time.
    pub fn client(self, client: Client) -> (r: GuideBuilder)
        ensures
            r@ == (GuideBuilderView { client: Some(client@), ..self@ }),
    {
        GuideBuilder { client: Some(client), ..self }
    }

    /// The model or alias; default `jev-latest`.
    pub fn model(self, model: Model) -> (r: GuideBuilder)
        ensures
            r@ == (GuideBuilderView { model: model@, ..self@ }),
    {
        GuideBuilder { model, ..self }
    }

    /// The guide-wide policy patch.
    pub fn policy(self, policy: Policy) -> (r: GuideBuilder)
        ensures
            r@ == (GuideBuilderView { policy, ..self@ }),
    {
        GuideBuilder { policy, ..self }
    }

    /// Retries for `429`, `529` and a failure to connect; default 3.
    pub fn max_retries(self, n: u32) -> (r: GuideBuilder)
        ensures
            r@ == (GuideBuilderView { max_retries: Some(n), ..self@ }),
    {
        GuideBuilder { transport: Transport { max_retries: Some(n), ..self.transport }, ..self }
    }

    /// Base delay for exponential backoff, in nanoseconds; default 500 ms.
    pub fn backoff(self, nanos: u128) -> (r: GuideBuilder)
        ensures
            r@ == (GuideBuilderView { backoff: Some(nanos), ..self@ }),
    {
        GuideBuilder { transport: Transport { backoff: Some(nanos), ..self.transport }, ..self }
    }

    /// Deadline for each attempt, in nanoseconds; default 30 s.
    pub fn timeout(self, nanos: u128) -> (r: GuideBuilder)
        ensures
            r@ == (GuideBuilderView { timeout: Some(nanos), ..self@ }),
    {
        GuideBuilder { transport: Transport { timeout: Some(nanos), ..self.transport }, ..self }
    }

    /// Record the state JSON on the span. Off by default: state is user data.
    pub fn record_state(self, on: bool) -> (r: GuideBuilder)
        ensures
            r@ == (GuideBuilderView { record_state: on, ..self@ }),
    {
        GuideBuilder { record_state: on, ..self }
    }

    /// Build. Validates the policy now so a bad house policy fails at startup.
    pub fn build(self) -> (r: Result<Guide, Error>)
        ensures
            guide_builds(self@, r),
    {
        let ghost b = self@;
        let client = match self.client {
            Some(client) => {
                let ignored = self.transport.named();
                if ignored.len() > 0 {
                    let mut m = owned("client(..) already carries the API key, the base URL and the retry, backoff and timeout settings, so ");
                    push_joined(&mut m, &ignored, ", ");
                    m.append(" would do nothing here; set it on api::Client::builder instead. from_env() sets api_key, and base_url when TYPESAFE_BASE_URL is present");
                    return Err(Error::Config { detail: m });
                }
                client
            },
            None => match self.transport.build() {
                Ok(c) => c,
                Err(e) => return Err(e),
            },
        };
        match self.policy.settle() {
            Ok(_) => {},
            Err(e) => return Err(e),
        }
        Ok(Guide { client, model: self.model, policy: self.policy, record_state: self.record_state })
    }
}

/// OpenTelemetry attributes are signed: a count as an `i64`, clamped at `i64::MAX`.
pub fn signed(n: u64) -> (r: i64)
    ensures
        r == (if n <= i64::MAX { n as int } else { i64::MAX as int }),
{
    if n <= i64::MAX as u64 {
        n as i64
    } else {
        i64::MAX
    }
}

/// What an answer event reports as the outcome: a label or key, or a level index.
#[derive(Debug)]
pub enum Reading {
    /// `yes`, `no` or `unsure` for a noul; the chosen key for a choice.
    Text(String),
    /// The argmax level of a score.
    Level(i64),
}

/// The `guideme.answer` event of one question, as values.
#[derive(Debug)]
pub struct AnswerEvent {
    /// The question id.
    pub question: String,
    /// `noul`, `choice` or `score`.
    pub kind: &'static str,
    /// The outcome.
    pub outcome: Reading,
    /// A noul's probability (bit pattern).
    pub probability: Option<u64>,
    /// A score's expected value (bit pattern).
    pub value: Option<u64>,
    /// A choice's or a score's confidence (bit pattern).
    pub confidence: Option<u64>,
    /// The policy found the answer unsure.
    pub unsure: bool,
    /// The thresholds the answer was read under (bit patterns).
    pub yes_above: u64,
    pub no_below: u64,
    pub min_confidence: u64,
    /// The event's message.
    pub message: String,
}

/// The label of a noul verdict.
pub open spec fn verdict_label(v: Verdict) -> Seq<char> {
    match v {
        Verdict::Yes(_) => "yes"@,
        Verdict::No(_) => "no"@,
        Verdict::Unsure(_) => "unsure"@,
    }
}

/// The probability a noul verdict carries.
pub open spec fn verdict_probability(v: Verdict) -> u64 {
    match v {
        Verdict::Yes(p) => p.bits(),
        Verdict::No(p) => p.bits(),
        Verdict::Unsure(p) => p.bits(),
    }
}

/// `e` is the answer event of question `id`, whose outcome is `o` under `t`.
pub open spec fn describes(e: AnswerEvent, id: Seq<char>, o: Outcome, t: Thresholds) -> bool {
    &&& e.question@ == id
    &&& e.yes_above == t.yes_bits()
    &&& e.no_below == t.no_bits()
    &&& e.min_confidence == t.min_bits()
    &&& match o {
        Outcome::Noul(v) => {
            &&& e.kind@ == "noul"@
            &&& e.outcome matches Reading::Text(l) && l@ == verdict_label(v)
            &&& e.probability == Some(verdict_probability(v))
            &&& e.value is None
            &&& e.confidence is None
            &&& e.unsure == (v is Unsure)
            &&& e.message@ == id + " noul: "@ + verdict_label(v)
        },
        Outcome::Choice { key, confidence, unsure, .. } => {
            &&& e.kind@ == "choice"@
            &&& e.outcome matches Reading::Text(k) && k@ == key@
            &&& e.probability is None
            &&& e.value is None
            &&& e.confidence == Some(confidence.bits())
            &&& e.unsure == unsure
            &&& e.message@ == id + " choice: "@ + key@
        },
        Outcome::Score { index, value, confidence, unsure, .. } => {
            &&& e.kind@ == "score"@
            &&& e.outcome matches Reading::Level(l) && l == (if index <= i64::MAX { index as int } else { i64::MAX as int })
            &&& e.probability is None
            &&& e.value == Some(value)
            &&& e.confidence == Some(confidence.bits())
            &&& e.unsure == unsure
            &&& e.message@ == id + " score: level "@ + decimal(index as nat)
        },
    }
}

/// The `guideme.answer` event for one resolved question.
pub fn answer_event(id: &QuestionId, outcome: &Outcome, t: Thresholds) -> (r: AnswerEvent)
    ensures
        describes(r, id@, *outcome, t),
{
    proof {
        reveal_strlit("noul");
        reveal_strlit("choice");
        reveal_strlit("score");
        reveal_strlit("yes");
        reveal_strlit("no");
        reveal_strlit("unsure");
        reveal_strlit(" noul: ");
        reveal_strlit(" choice: ");
        reveal_strlit(" score: level ");
    }
    let question = owned(id.as_str());
    let mut message = owned(id.as_str());
    match outcome {
        Outcome::Noul(v) => {
            let (label, p): (&'static str, u64) = match v {
                Verdict::Yes(p) => ("yes", p.get()),
                Verdict::No(p) => ("no", p.get()),
                Verdict::Unsure(p) => ("unsure", p.get()),
            };
            let unsure = match v {
                Verdict::Unsure(_) => true,
                _ => false,
            };
            message.append(" noul: ");
            message.append(label);
            AnswerEvent {
                question,
                kind: "noul",
                outcome: Reading::Text(owned(label)),
                probability: Some(p),
                value: None,
                confidence: None,
                unsure,
                yes_above: t.yes_above(),
                no_below: t.no_below(),
                min_confidence: t.min_confidence(),
                message,
            }
        },
        Outcome::Choice { key, confidence, unsure, .. } => {
            message.append(" choice: ");
            message.append(key.as_str());
            AnswerEvent {
                question,
                kind: "choice",
                outcome: Reading::Text(key.clone()),
                probability: None,
                value: None,
                confidence: Some(confidence.get()),
                unsure: *unsure,
                yes_above: t.yes_above(),
                no_below: t.no_below(),
                min_confidence: t.min_confidence(),
                message,
            }
        },
        Outcome::Score { index, value, confidence, unsure, .. } => {
            message.append(" score: level ");
            push_decimal(&mut message, *index);
            AnswerEvent {
                question,
                kind: "score",
                outcome: Reading::Level(signed(*index as u64)),
                probability: None,
                value: Some(*value),
                confidence: Some(confidence.get()),
                unsure: *unsure,
                yes_above: t.yes_above(),
                no_below: t.no_below(),
                min_confidence: t.min_confidence(),
                message,
            }
        },
    }
}

/// The span's status description where the error carries a response body, which could echo
/// the state: those bodies stay on the returned error and off the span. `None` where the
/// error's own message is the description.
pub fn describe(error: &Error) -> (r: Option<String>)
    ensures
        match *error {
            Error::Invalid { .. } => r matches Some(s) && s@ == "invalid request: the 422 body is on the returned error"@,
            Error::UnexpectedStatus { status, .. } => r matches Some(s) && s@ == "unexpected status "@ + decimal(
                status as nat,
            ) + ": the body is on the returned error"@,
            _ => r is None,
        },
{
    proof {
        reveal_strlit("invalid request: the 422 body is on the returned error");
        reveal_strlit("unexpected status ");
        reveal_strlit(": the body is on the returned error");
    }
    match error {
        Error::Invalid { .. } => Some(owned("invalid request: the 422 body is on the returned error")),
        Error::UnexpectedStatus { status, .. } => {
            let mut m = owned("unexpected status ");
            push_decimal(&mut m, *status as usize);
            m.append(": the body is on the returned error");
            Some(m)
        },
        _ => None,
    }
}

/// An ask ready to send: the request, what decoding needs, and each question's thresholds
/// in id order.
pub struct Prepared<C> {
    /// The request body.
    pub request: Request,
    /// What the shape keeps for decoding.
    pub claim: C,
    /// The settled thresholds of question `q{i}`, at `i`.
    pub thresholds: Vec<Thresholds>,
}

/// A concluded ask: the answer events of the questions resolved, in id order, then the
/// answer with its receipt, or why there is none.
pub struct Concluded<T> {
    /// One event per question resolved before the first failure, or per question.
    pub events: Vec<AnswerEvent>,
    /// The answer in the shape asked for, with the model and usage; or the failure.
    pub result: Result<Receipt<T>, Error>,
}

/// A plan with nothing in it yet, under the guide policy `base`.
pub open spec fn fresh(plan: Plan, base: Policy) -> bool {
    plan.len() == 0 && plan.base() == base
}

/// `p` carries what `plan` planned: its questions under the ids `q0`, `q1`, ... in the order
/// they were added, and their settled thresholds in the same order.
pub open spec fn carries<C>(p: Prepared<C>, plan: Plan) -> bool {
    &&& p.request.questions@.len() == plan.len()
    &&& p.thresholds@.len() == plan.len()
    &&& forall|i: int|
        0 <= i < plan.len() ==> (#[trigger] p.request.questions@[i]).0@ == id_text(i as nat)
            && p.request.questions@[i].1 == plan.question_at(i)
    &&& forall|i: int| 0 <= i < plan.len() ==> #[trigger] p.thresholds@[i] == plan.thresholds_at(i)
}

impl Guide {
    /// Check the state, encode the shape into questions `q0..qN` with their thresholds
    /// settled over this guide's policy, and build the one request. A state that is not
    /// JSON and a shape without questions are [`Error::Config`].
    pub fn prepare<A: Ask>(&self, ask: A, state: State) -> (r: Result<Prepared<A::Claim>, Error>)
        ensures
            state is Invalid ==> (r matches Err(e) && e is Config),
            r matches Ok(p) ==> {
                &&& state is Ready
                &&& p.request.state == state
                &&& p.request.model@ == self@.model
                &&& exists|start: Plan, after: Plan|
                    #![trigger ask.encoded(start, after, Ok(p.claim))]
                    fresh(start, self@.policy) && ask.encoded(start, after, Ok(p.claim)) && after.len() >= 1
                        && carries(p, after)
            },
            r matches Err(e) ==> state is Invalid || {
                ||| exists|start: Plan, after: Plan|
                    #![trigger ask.encoded(start, after, Err(e))]
                    fresh(start, self@.policy) && ask.encoded(start, after, Err(e))
                ||| exists|start: Plan, after: Plan, c: A::Claim|
                    #![trigger ask.encoded(start, after, Ok(c))]
                    fresh(start, self@.policy) && ask.encoded(start, after, Ok(c)) && after.len() == 0
                        && (e matches Error::Config { detail } && detail@ == "a batch needs at least one question"@)
            },
    {
        match state.value() {
            Ok(_) => {},
            Err(e) => return Err(e),
        }
        let mut plan = Plan::new(self.policy);
        let ghost start = plan;
        let claim = match ask.encode(&mut plan) {
            Ok(c) => c,
            Err(e) => {
                proof {
                    let ghost r: Result<A::Claim, Error> = Err(e);
                    assert(r matches Err(x) && x == e);
                }
                return Err(e);
            },
        };
        let ghost after = plan;
        proof {
            let ghost r: Result<A::Claim, Error> = Ok(claim);
            assert(r matches Ok(x) && x == claim);
        }
        if plan.count() == 0 {
            proof {
                reveal_strlit("a batch needs at least one question");
            }
            return Err(Error::Config { detail: owned("a batch needs at least one question") });
        }
        let (questions, thresholds) = plan.into_parts();
        let p = Prepared { request: Request { state, model: self.model.duplicate(), questions }, claim, thresholds };
        proof {
            assert(carries(p, after));
            let ghost r: Result<Prepared<A::Claim>, Error> = Ok(p);
            assert(r matches Ok(q) && q == p && ask.encoded(start, after, Ok(q.claim)));
        }
        Ok(p)
    }
}

/// `e` is the event of question `q{i}`, whose answer settled under its thresholds.
pub open spec fn reports(e: AnswerEvent, thresholds: Seq<Thresholds>, i: int, answers: Seq<(QuestionId, crate::api::Answer)>) -> bool {
    exists|o: Outcome, t: Thresholds|
        settles(thresholds, i, answers, Ok((o, t))) && #[trigger] describes(e, id_text(i as nat), o, t)
}

/// `reply` holds, at each question's position, what settling that question's answer gave.
pub open spec fn settled_reply(reply: Reply, thresholds: Seq<Thresholds>, answers: Seq<(QuestionId, crate::api::Answer)>) -> bool {
    &&& reply.len() == thresholds.len()
    &&& forall|i: int|
        0 <= i < thresholds.len() ==> ((#[trigger] reply.slot(i)) matches Some(ot) && settles(thresholds, i, answers, Ok(ot)))
}

/// Resolve every answer of the response under its question's thresholds, in id order, and
/// decode them into the shape. The first answer that is missing or breaks the contract or
/// the policy fails the whole ask: the call is atomic.
pub fn conclude<A: Ask>(claim: A::Claim, thresholds: &Vec<Thresholds>, response: Response) -> (r: Concluded<A::Out>)
    ensures
        r.events@.len() <= thresholds@.len(),
        forall|i: int| 0 <= i < r.events@.len() ==> reports(#[trigger] r.events@[i], thresholds@, i, response.answers@),
        r.events@.len() < thresholds@.len() ==> (r.result matches Err(e) && settles(
            thresholds@,
            r.events@.len() as int,
            response.answers@,
            Err(e),
        )),
        r.result matches Ok(rc) ==> r.events@.len() == thresholds@.len() && rc.model@ == response.model@
            && rc.usage == response.usage,
        r.result matches Ok(rc) ==> exists|full: Reply, after: Reply|
            #![trigger A::decoded(claim, full, after, Ok(rc.answer))]
            settled_reply(full, thresholds@, response.answers@) && A::decoded(claim, full, after, Ok(rc.answer)),
        r.events@.len() == thresholds@.len() && r.result is Err ==> exists|full: Reply, after: Reply|
            #![trigger A::decoded(claim, full, after, Err(r.result->Err_0))]
            settled_reply(full, thresholds@, response.answers@) && A::decoded(claim, full, after, Err(r.result->Err_0)),
{
    let mut reply = Reply::new();
    let mut events: Vec<AnswerEvent> = Vec::new();
    let n = thresholds.len();
    let mut i: usize = 0;
    while i < n
        invariant
            n == thresholds@.len(),
            i <= n,
            events@.len() == i,
            forall|k: int| 0 <= k < i ==> reports(#[trigger] events@[k], thresholds@, k, response.answers@),
            reply.len() == i,
            forall|k: int|
                0 <= k < i ==> ((#[trigger] reply.slot(k)) matches Some(ot) && settles(thresholds@, k, response.answers@, Ok(ot))),
        decreases n - i,
    {
        match settle_answer(thresholds, i, &response.answers) {
            Ok((o, t)) => {
                let id = QuestionId::nth(i);
                let e = answer_event(&id, &o, t);
                proof {
                    assert(describes(e, id_text(i as nat), o, t));
                    assert(reports(e, thresholds@, i as int, response.answers@));
                }
                events.push(e);
                reply.push(o, t);
            },
            Err(e) => {
                return Concluded { events, result: Err(e) };
            },
        }
        i = i + 1;
    }
    let ghost full = reply;
    assert(settled_reply(full, thresholds@, response.answers@));
    match A::decode(claim, &mut reply) {
        Ok(answer) => {
            let ghost out: Result<A::Out, Error> = Ok(answer);
            assert(out matches Ok(a) && a == answer);
            let c = Concluded { events, result: Ok(Receipt { answer, model: response.model, usage: response.usage }) };
            assert(c.result matches Ok(rc) && A::decoded(claim, full, reply, Ok(rc.answer)));
            c
        },
        Err(e) => {
            let ghost out: Result<A::Out, Error> = Err(e);
            assert(out matches Err(x) && x == e);
            Concluded { events, result: Err(e) }
        },
    }
}

} // verus!
