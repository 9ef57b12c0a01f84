//! The client's settings and its decision after each HTTP attempt.

use guideme::client::{Attempt, Client, Next, backoff_delay, parse_retry_after};
use guideme::scalars::ApiKey;
use guideme::Error;

const SECOND: u128 = 1_000_000_000;
const MILLI: u128 = 1_000_000;

fn client(retries: u32, backoff: u128) -> Client {
    Client::builder(ApiKey::new("test-key".into()))
        .base_url("http://127.0.0.1:9".into())
        .max_retries(retries)
        .backoff(backoff)
        .build()
        .expect("a client")
}

fn status(code: u16) -> Attempt {
    Attempt::Response { status: code, retry_after: None }
}

fn throttled(code: u16, retry_after: &str) -> Attempt {
    Attempt::Response { status: code, retry_after: Some(retry_after.to_owned()) }
}

#[test]
fn rate_limit_is_retried_after_the_advertised_delay() {
    let c = client(3, 500 * MILLI);
    assert!(matches!(c.next(0, &throttled(429, "1"), 7), Next::Retry { wait } if wait == SECOND));
    assert!(matches!(c.next(0, &status(200), 7), Next::Decode));
}

#[test]
fn unauthorized_is_not_retried() {
    let c = client(3, 500 * MILLI);
    assert!(matches!(c.next(0, &status(401), 0), Next::Fail(Error::Auth)));
}

#[test]
fn overload_exhausts_retries_then_fails() {
    let c = client(2, 10 * MILLI);
    let mut attempt = 0;
    let mut sent = 1;
    loop {
        match c.next(attempt, &status(529), 3) {
            Next::Retry { .. } => {
                attempt += 1;
                sent += 1;
            }
            Next::Fail(Error::Overloaded { retry_after: None }) => break,
            other => panic!("unexpected {other:?}"),
        }
    }
    assert_eq!(sent, 3);

    // A `retry-after` longer than the cap is not waited for, and the duration comes back.
    let err = c.next(0, &throttled(529, "60"), 3);
    assert!(
        matches!(err, Next::Fail(Error::Overloaded { retry_after: Some(60) })),
        "the 529 should carry the header it parsed, got {err:?}"
    );
    let err = c.next(0, &throttled(429, "31"), 3);
    assert!(matches!(err, Next::Fail(Error::RateLimited { retry_after: Some(31) })));
    assert!(matches!(c.next(0, &throttled(429, "30"), 3), Next::Retry { wait } if wait == 30 * SECOND));
}

#[test]
fn the_last_throttle_carries_the_retry_after_it_parsed() {
    let c = client(0, 500 * MILLI);
    assert!(matches!(
        c.next(0, &throttled(429, " 2 "), 0),
        Next::Fail(Error::RateLimited { retry_after: Some(2) })
    ));
}

#[test]
fn a_request_that_never_arrived_is_retried_and_a_timeout_is_not() {
    let c = client(1, 500 * MILLI);
    assert!(matches!(c.next(0, &Attempt::Unreachable, 0), Next::Retry { wait } if wait == 500 * MILLI));
    assert!(matches!(c.next(1, &Attempt::Unreachable, 0), Next::Transport));
    assert!(matches!(c.next(0, &Attempt::Broken, 0), Next::Transport));
}

#[test]
fn other_statuses_read_the_body() {
    let c = client(3, 500 * MILLI);
    assert!(matches!(c.next(0, &status(422), 0), Next::Invalid));
    assert!(matches!(c.next(0, &status(500), 0), Next::Unexpected { status: 500 }));
    assert!(matches!(c.next(0, &status(404), 0), Next::Unexpected { status: 404 }));
}

#[test]
fn the_backoff_doubles_caps_at_thirty_seconds_and_adds_jitter() {
    let half = 500 * MILLI;
    assert_eq!(backoff_delay(half, 0, 0), half);
    assert_eq!(backoff_delay(half, 1, 0), 2 * half);
    assert_eq!(backoff_delay(half, 3, 0), 8 * half);
    assert_eq!(backoff_delay(half, 10, 0), 30 * SECOND);
    assert_eq!(backoff_delay(half, 40, 0), 30 * SECOND);
    assert_eq!(backoff_delay(half, 0, 250), half + 250 * MILLI);
    assert_eq!(backoff_delay(half, 0, 251), half);
    assert_eq!(backoff_delay(half, 0, 1000), half + (1000 % 251) * MILLI);
    assert_eq!(backoff_delay(u128::MAX, 0, 0), 30 * SECOND);
    assert!(backoff_delay(7, 31, u64::MAX) <= 30 * SECOND + 250 * MILLI);
    let c = client(3, 100 * MILLI);
    assert!(matches!(c.next(2, &status(529), 0), Next::Retry { wait } if wait == 400 * MILLI));
}

#[test]
fn retry_after_reads_whole_seconds() {
    assert_eq!(parse_retry_after("1"), Some(1));
    assert_eq!(parse_retry_after(" 17\t"), Some(17));
    assert_eq!(parse_retry_after("+5"), Some(5));
    assert_eq!(parse_retry_after("007"), Some(7));
    assert_eq!(parse_retry_after("18446744073709551615"), Some(u64::MAX));
    assert_eq!(parse_retry_after("18446744073709551616"), None);
    assert_eq!(parse_retry_after(""), None);
    assert_eq!(parse_retry_after("+"), None);
    assert_eq!(parse_retry_after("-1"), None);
    assert_eq!(parse_retry_after("1.5"), None);
    assert_eq!(parse_retry_after("Wed, 21 Oct 2015 07:28:00 GMT"), None);
}

#[test]
fn the_base_url_loses_its_trailing_slashes_and_must_name_a_host() {
    let c = Client::builder(ApiKey::new("k".into())).base_url("http://example.test///".into()).build().unwrap();
    assert_eq!(c.base_url(), "http://example.test");
    assert_eq!(c.server(), ("example.test", 80));

    let c = Client::builder(ApiKey::new("k".into())).build().unwrap();
    assert_eq!(c.base_url(), "https://api.typesafe.ai");
    assert_eq!(c.server(), ("api.typesafe.ai", 443));
    assert_eq!(c.max_retries(), 3);
    assert_eq!(c.backoff(), 500 * MILLI);
    assert_eq!(c.api_key().expose(), "k");

    let no_host = Client::builder(ApiKey::new("k".into())).base_url("not a url".into()).build();
    assert!(matches!(no_host, Err(Error::Config { .. })));
    let creds = Client::builder(ApiKey::new("k".into())).base_url("https://user:pw@example.test".into()).build();
    assert!(matches!(creds, Err(Error::Config { detail }) if !detail.contains("pw")));
}

#[test]
fn a_timeout_beside_an_injected_transport_is_refused() {
    let err = Client::builder(ApiKey::new("k".into()))
        .timeout(SECOND)
        .http(reqwest::Client::new())
        .build();
    assert!(matches!(err, Err(Error::Config { .. })));
    let ok = Client::builder(ApiKey::new("k".into())).http(reqwest::Client::new()).build();
    assert!(ok.is_ok());
}

#[test]
fn a_new_client_has_the_defaults() {
    let client = Client::new(ApiKey::new("k".into())).expect("the defaults build");
    assert_eq!(client.base_url(), "https://api.typesafe.ai");
    assert_eq!(client.max_retries(), 3);
    assert_eq!(client.server(), ("api.typesafe.ai", 443));
}
