use riley_cms::error::Error;
use riley_cms::webhook::{
    next_step, webhook_payload, webhook_secret, webhook_signature, webhook_target, AttemptOutcome,
    WebhookSkip, WebhookStep,
};

#[test]
fn signature_is_hmac_sha256_of_empty_object() {
    assert_eq!(webhook_payload(), "{}");
    assert_eq!(
        webhook_signature("s3cret"),
        "sha256=adbde1ce40c89c14215687d5d762a47df6dfaefcfad61e2e86718ffc8498571b"
    );
}

#[test]
fn webhook_targets() {
    let t = webhook_target("https://hooks.example.com/build").unwrap();
    assert_eq!(t.host, "hooks.example.com");
    assert_eq!(t.port, 443);
    let t = webhook_target("http://example.com:8080/x").unwrap();
    assert_eq!(t.port, 8080);
    let t = webhook_target("http://example.com/x").unwrap();
    assert_eq!(t.port, 80);
    assert_eq!(webhook_target("ftp://example.com/x").unwrap_err(), WebhookSkip::UnsupportedScheme);
    assert_eq!(webhook_target("not a url").unwrap_err(), WebhookSkip::InvalidUrl);
}

#[test]
fn retries_on_server_and_network_errors_only() {
    assert_eq!(next_step(0, AttemptOutcome::Status(204)), WebhookStep::Delivered);
    assert_eq!(next_step(0, AttemptOutcome::Status(404)), WebhookStep::Rejected);
    assert_eq!(next_step(0, AttemptOutcome::Status(503)), WebhookStep::RetryAfter(1));
    assert_eq!(next_step(1, AttemptOutcome::NetworkError), WebhookStep::RetryAfter(2));
    assert_eq!(next_step(2, AttemptOutcome::Status(500)), WebhookStep::GiveUp);
    assert_eq!(next_step(2, AttemptOutcome::Status(200)), WebhookStep::Delivered);
}

#[test]
fn secret_resolution() {
    assert_eq!(webhook_secret(None).unwrap(), None);
    assert_eq!(webhook_secret(Some(Ok("k".to_string()))).unwrap(), Some("k".to_string()));
    assert!(matches!(webhook_secret(Some(Ok(String::new()))), Err(Error::Config(_))));
    assert_eq!(webhook_secret(Some(Err(Error::Config("missing".to_string())))), Err(Error::Config("missing".to_string())));
}
