use hmac::{Hmac, Mac};
use makepay::error::MakePayError;
use makepay::json::parse_webhook;
use makepay::webhook::{verify_webhook, verify_webhook_at, WebhookVerificationOptions};
use sha2::Sha256;

fn hmac_hex(raw_body: &[u8], secret: &str, timestamp: u64) -> String {
    let mut mac = Hmac::<Sha256>::new_from_slice(secret.as_bytes()).unwrap();
    mac.update(format!("{timestamp}.").as_bytes());
    mac.update(raw_body);
    hex::encode(mac.finalize().into_bytes())
}

fn signature_header(raw_body: &[u8], secret: &str, timestamp: u64) -> String {
    format!("t={timestamp},v1={}", hmac_hex(raw_body, secret, timestamp))
}

#[test]
fn verifies_and_parses_webhook() {
    let body = br#"{"event":{"type":"status_changed"}}"#;
    let secret = "whsec_test";
    let header = signature_header(body, secret, 1_776_556_800);
    let options = WebhookVerificationOptions {
        tolerance_seconds: 0,
    };

    assert!(verify_webhook(body, Some(&header), secret, Some(options)));
    assert!(!verify_webhook(body, Some(&header), "wrong", Some(options)));

    let parsed = parse_webhook(body, Some(&header), secret, Some(options)).unwrap();
    let event_type = parsed.get("event").and_then(|e| e.get("type")).and_then(|t| t.as_str());
    assert_eq!(event_type, Some("status_changed"));
}

fn no_tolerance() -> Option<WebhookVerificationOptions> {
    Some(WebhookVerificationOptions {
        tolerance_seconds: 0,
    })
}

#[test]
fn default_tolerance_is_five_minutes() {
    assert_eq!(WebhookVerificationOptions::default().tolerance_seconds, 300);
}

#[test]
fn missing_or_blank_header_is_refused() {
    let body = b"{}";
    assert!(!verify_webhook(body, None, "s", no_tolerance()));
    assert!(!verify_webhook(body, Some(" \t "), "s", no_tolerance()));
}

#[test]
fn empty_secret_is_refused() {
    let body = b"{}";
    let header = signature_header(body, "", 10);
    assert!(!verify_webhook(body, Some(&header), "", no_tolerance()));
}

#[test]
fn tampered_body_is_refused() {
    let header = signature_header(b"{\"a\":1}", "k", 10);
    assert!(!verify_webhook(b"{\"a\":2}", Some(&header), "k", no_tolerance()));
}

#[test]
fn header_parts_are_trimmed_and_order_free() {
    let body = b"payload";
    let sig = hmac_hex(body, "k", 42);
    let header = format!(" v1={sig} , t=42 ");
    assert!(verify_webhook(body, Some(&header), "k", no_tolerance()));
    let header = format!("foo=bar,t=42,v1={}", sig.to_uppercase());
    assert!(verify_webhook(body, Some(&header), "k", no_tolerance()));
    let header = format!("t=+42,v1={sig}");
    assert!(verify_webhook(body, Some(&header), "k", no_tolerance()));
}

#[test]
fn later_parts_override_earlier_ones() {
    let body = b"payload";
    let sig = hmac_hex(body, "k", 42);
    let header = format!("t=41,v1=00,t=42,v1={sig}");
    assert!(verify_webhook(body, Some(&header), "k", no_tolerance()));
    let header = format!("t=42,v1={sig},t=oops");
    assert!(!verify_webhook(body, Some(&header), "k", no_tolerance()));
    let header = format!("t=42,v1={sig},v1=");
    assert!(!verify_webhook(body, Some(&header), "k", no_tolerance()));
}

#[test]
fn malformed_signatures_are_refused() {
    let body = b"payload";
    let sig = hmac_hex(body, "k", 42);
    assert!(!verify_webhook(body, Some(&format!("t=42,v1={}", &sig[1..])), "k", no_tolerance()));
    assert!(!verify_webhook(body, Some(&format!("t=42,v1={sig}zz")), "k", no_tolerance()));
    assert!(!verify_webhook(body, Some(&format!("t=42,v1={}", &sig[2..])), "k", no_tolerance()));
    assert!(!verify_webhook(body, Some(&format!("v1={sig}")), "k", no_tolerance()));
    assert!(!verify_webhook(body, Some("t=42"), "k", no_tolerance()));
    assert!(!verify_webhook(
        body,
        Some(&format!("t=18446744073709551616,v1={sig}")),
        "k",
        no_tolerance()
    ));
}

#[test]
fn timestamp_must_be_within_tolerance() {
    let body = b"payload";
    let header = signature_header(body, "k", 1_000);
    let options = Some(WebhookVerificationOptions {
        tolerance_seconds: 60,
    });
    assert!(verify_webhook_at(body, Some(&header), "k", options, Some(1_060)));
    assert!(verify_webhook_at(body, Some(&header), "k", options, Some(940)));
    assert!(!verify_webhook_at(body, Some(&header), "k", options, Some(1_061)));
    assert!(!verify_webhook_at(body, Some(&header), "k", options, Some(939)));
    assert!(!verify_webhook_at(body, Some(&header), "k", options, None));
    assert!(!verify_webhook(body, Some(&header), "k", options));
    assert!(verify_webhook_at(body, Some(&header), "k", no_tolerance(), None));
}

#[test]
fn parse_webhook_reports_signature_then_json_errors() {
    let body = b"not json";
    let header = signature_header(body, "k", 7);
    assert!(matches!(
        parse_webhook(body, Some(&header), "k", no_tolerance()),
        Err(MakePayError::InvalidWebhookJson(_))
    ));
    assert!(matches!(
        parse_webhook(body, Some(&header), "other", no_tolerance()),
        Err(MakePayError::InvalidWebhookSignature)
    ));
}

#[test]
fn header_spacing_case_and_unknown_parts_do_not_matter() {
    let body = b"{}";
    let hex = hmac_hex(body, "k", 50);
    let plain = format!("t=50,v1={hex}");
    assert!(verify_webhook(body, Some(&plain), "k", no_tolerance()));
    let spaced = format!(" t=50 ,\tv1={hex} ");
    assert!(verify_webhook(body, Some(&spaced), "k", no_tolerance()));
    let upper = format!("t=50,v1={}", hex.to_uppercase());
    assert!(verify_webhook(body, Some(&upper), "k", no_tolerance()));
    let extra = format!("t=50,v1={hex},v0=abc,scheme");
    assert!(verify_webhook(body, Some(&extra), "k", no_tolerance()));
    let inner = format!("scheme=x,t=50,v0=abc,v1={hex}");
    assert!(verify_webhook(body, Some(&inner), "k", no_tolerance()));
    let wrong = format!("t=51,v1={hex},v0=abc");
    assert!(!verify_webhook(body, Some(&wrong), "k", no_tolerance()));
}
