//! Webhook delivery: which URL is contacted, how the body is signed, and when an attempt
//! is retried.
use vstd::prelude::*;
use vstd::string::*;
use crate::auth::utf8_bytes;
use crate::content::{hex_encode, hex_spec, opt_view};
use crate::error::Error;

verus! {

/// Attempts made to deliver one webhook.
pub const WEBHOOK_MAX_ATTEMPTS: u32 = 3;

/// Time limit of one delivery attempt, in seconds.
pub const WEBHOOK_TIMEOUT_SECS: u64 = 10;

/// Names what `url::Url::parse` (as re-exported by reqwest) gives for a URL: its scheme,
/// its host and its port (or the scheme's known default port), if the URL parses.
pub uninterp spec fn url_parts_of(s: Seq<char>) -> Option<(Seq<char>, Option<Seq<char>>, Option<u16>)>;

/// Relies on `reqwest::Url::parse`, `Url::scheme`, `Url::host_str` and
/// `Url::port_or_known_default`: the parts depend on the text alone.
#[verifier::external_body]
fn parse_url(s: &str) -> (r: Option<(String, Option<String>, Option<u16>)>)
    ensures
        match r {
            Some(p) => url_parts_of(s@) == Some((p.0@, opt_view(p.1), p.2)),
            None => url_parts_of(s@) is None,
        },
{
    match reqwest::Url::parse(s) {
        Ok(u) => Some((u.scheme().to_string(), u.host_str().map(str::to_string), u.port_or_known_default())),
        Err(_) => None,
    }
}

/// Where a webhook is sent: host and port.
#[derive(Clone, Debug)]
pub struct WebhookTarget {
    pub host: String,
    pub port: u16,
}

/// Why a webhook URL is skipped.
#[derive(Clone, Copy, Debug, PartialEq, Eq)]
pub enum WebhookSkip {
    InvalidUrl,
    UnsupportedScheme,
    MissingHost,
}

/// The target of a webhook URL: the scheme must be `http` or `https` and the URL must name
/// a host; the port defaults to 443.
pub open spec fn webhook_target_spec(url: Seq<char>) -> Result<(Seq<char>, u16), WebhookSkip> {
    match url_parts_of(url) {
        None => Err(WebhookSkip::InvalidUrl),
        Some((scheme, host, port)) => if scheme != "http"@ && scheme != "https"@ {
            Err(WebhookSkip::UnsupportedScheme)
        } else {
            match host {
                None => Err(WebhookSkip::MissingHost),
                Some(h) => Ok(
                    (
                        h,
                        match port {
                            Some(p) => p,
                            None => 443u16,
                        },
                    ),
                ),
            }
        },
    }
}

/// Parse a webhook URL into the host and port to connect to.
pub fn webhook_target(url: &str) -> (r: Result<WebhookTarget, WebhookSkip>)
    ensures
        match r {
            Ok(t) => webhook_target_spec(url@) == Ok::<(Seq<char>, u16), WebhookSkip>((t.host@, t.port)),
            Err(e) => webhook_target_spec(url@) == Err::<(Seq<char>, u16), WebhookSkip>(e),
        },
{
    let (scheme, host, port) = match parse_url(url) {
        Some(p) => p,
        None => {
            return Err(WebhookSkip::InvalidUrl);
        },
    };
    if !crate::text::str_eq(scheme.as_str(), "http") && !crate::text::str_eq(scheme.as_str(), "https") {
        return Err(WebhookSkip::UnsupportedScheme);
    }
    let host = match host {
        Some(h) => h,
        None => {
            return Err(WebhookSkip::MissingHost);
        },
    };
    let port = match port {
        Some(p) => p,
        None => 443,
    };
    Ok(WebhookTarget { host, port })
}

/// Names the HMAC-SHA256 of a message under a key.
pub uninterp spec fn hmac_sha256_of(key: Seq<u8>, msg: Seq<u8>) -> Seq<u8>;

/// Relies on `hmac::Hmac::<sha2::Sha256>`: `new_from_slice` accepts a key of any length
/// (its source returns `Ok` in every case), and the tag depends on key and message alone.
#[verifier::external_body]
fn hmac_sha256(key: &[u8], msg: &[u8]) -> (r: Option<Vec<u8>>)
    ensures
        r is Some,
        r is Some ==> r->0@ == hmac_sha256_of(key@, msg@),
{
    match <hmac::Hmac<sha2::Sha256> as hmac::Mac>::new_from_slice(key) {
        Ok(mut mac) => {
            hmac::Mac::update(&mut mac, msg);
            Some(hmac::Mac::finalize(mac).into_bytes().to_vec())
        },
        Err(_) => None,
    }
}

/// The body of every webhook request.
pub open spec fn webhook_body() -> Seq<char> {
    "{}"@
}

/// The value of the signature header: `sha256=` and the lowercase hex HMAC-SHA256 of the
/// body under the secret.
pub open spec fn signature_spec(secret: Seq<char>) -> Seq<char> {
    "sha256="@ + hex_spec(hmac_sha256_of(utf8_bytes(secret), utf8_bytes(webhook_body())))
}

/// The body of a webhook request.
pub fn webhook_payload() -> (r: String)
    ensures
        r@ == webhook_body(),
{
    String::from_str("{}")
}

/// The `X-Riley-Cms-Signature` header value for a webhook signed with `secret`.
pub fn webhook_signature(secret: &str) -> (r: String)
    ensures
        r@ == signature_spec(secret@),
{
    let body = webhook_payload();
    let mac = hmac_sha256(secret.as_bytes(), body.as_str().as_bytes());
    let tag = match mac {
        Some(t) => t,
        None => Vec::new(),
    };
    let hex = hex_encode(tag.as_slice());
    String::from_str("sha256=").concat(hex.as_str())
}

/// The outcome of one delivery attempt.
#[derive(Clone, Copy, Debug, PartialEq, Eq)]
pub enum AttemptOutcome {
    /// The receiver answered with this HTTP status.
    Status(u16),
    /// The request failed before a response.
    NetworkError,
}

/// What follows a delivery attempt.
#[derive(Clone, Copy, Debug, PartialEq, Eq)]
pub enum WebhookStep {
    /// The receiver accepted the webhook (2xx).
    Delivered,
    /// The receiver refused it (4xx): not retried.
    Rejected,
    /// Try again after this many seconds.
    RetryAfter(u64),
    /// No attempts are left.
    GiveUp,
}

/// The step after attempt number `attempt` (from 0): success on 2xx, no retry on 4xx;
/// a network error or another status is retried after 1 s, then 2 s, up to three attempts.
pub open spec fn next_step_spec(attempt: u32, outcome: AttemptOutcome) -> WebhookStep {
    match outcome {
        AttemptOutcome::Status(s) if 200 <= s && s < 300 => WebhookStep::Delivered,
        AttemptOutcome::Status(s) if 400 <= s && s < 500 => WebhookStep::Rejected,
        _ => if attempt + 1 < WEBHOOK_MAX_ATTEMPTS {
            WebhookStep::RetryAfter(if attempt == 0 {
                1u64
            } else {
                2u64
            })
        } else {
            WebhookStep::GiveUp
        },
    }
}

/// Decide what follows a delivery attempt.
pub fn next_step(attempt: u32, outcome: AttemptOutcome) -> (r: WebhookStep)
    requires
        attempt < WEBHOOK_MAX_ATTEMPTS,
    ensures
        r == next_step_spec(attempt, outcome),
{
    match outcome {
        AttemptOutcome::Status(s) if 200 <= s && s < 300 => WebhookStep::Delivered,
        AttemptOutcome::Status(s) if 400 <= s && s < 500 => WebhookStep::Rejected,
        _ => if attempt + 1 < WEBHOOK_MAX_ATTEMPTS {
            WebhookStep::RetryAfter(if attempt == 0 {
                1
            } else {
                2
            })
        } else {
            WebhookStep::GiveUp
        },
    }
}

/// The signing secret to use, from the resolved `[webhooks] secret` (if one is
/// configured): no secret means unsigned webhooks; a secret that resolves to an empty
/// string, or does not resolve, stops delivery.
pub fn webhook_secret(resolved: Option<Result<String, Error>>) -> (r: Result<Option<String>, Error>)
    ensures
        match resolved {
            None => r == Ok::<Option<String>, Error>(None),
            Some(Ok(s)) => if s@.len() == 0 {
                r is Err && r->Err_0 is Config
            } else {
                r is Ok && r->Ok_0 is Some && r->Ok_0->0@ == s@
            },
            Some(Err(e)) => r == Err::<Option<String>, Error>(e),
        },
{
    match resolved {
        None => Ok(None),
        Some(Ok(s)) => if s.as_str().unicode_len() == 0 {
            Err(Error::Config(String::from_str("webhook secret resolves to an empty string")))
        } else {
            Ok(Some(s))
        },
        Some(Err(e)) => Err(e),
    }
}

} // verus!
