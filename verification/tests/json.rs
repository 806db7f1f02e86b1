use makepay::error::MakePayError;
use makepay::json::{decode_api_document, decode_api_response, donation_payload_value, JsonValue};
use makepay::options::{
    branding_refresh_body, payment_link_request_body, payment_link_status_body,
    payment_request_email_body, shop_domain_body, CreatePaymentLinkOptions, PaymentLinkStatus,
};

fn text(s: &str) -> JsonValue {
    JsonValue::String(s.to_owned())
}

fn member<'a>(value: &'a JsonValue, key: &str) -> &'a JsonValue {
    match value {
        JsonValue::Object(members) => &members.iter().find(|(k, _)| k == key).unwrap().1,
        _ => panic!("expected an object"),
    }
}

fn is_text(value: &JsonValue, expected: &str) -> bool {
    matches!(value, JsonValue::String(s) if s == expected)
}

fn is_empty_object(value: &JsonValue) -> bool {
    matches!(value, JsonValue::Object(members) if members.is_empty())
}

#[test]
fn prepares_donation_payloads() {
    let payload = JsonValue::Object(vec![
        ("title".to_owned(), text("Spring campaign")),
        ("defaultAmountUsd".to_owned(), text("25")),
    ]);
    let donation = donation_payload_value(payload);
    assert!(is_text(member(&donation, "type"), "donation"));
    assert!(is_text(member(&donation, "title"), "Spring campaign"));
}

#[test]
fn existing_type_member_is_replaced() {
    let payload = JsonValue::Object(vec![
        ("type".to_owned(), text("payment")),
        ("title".to_owned(), text("T")),
    ]);
    match donation_payload_value(payload) {
        JsonValue::Object(members) => {
            assert_eq!(members.len(), 2);
            assert_eq!(members[0].0, "type");
            assert!(is_text(&members[0].1, "donation"));
        }
        _ => panic!("expected an object"),
    }
}

#[test]
fn non_object_donation_payloads_are_wrapped() {
    let donation = donation_payload_value(text("hello"));
    match &donation {
        JsonValue::Object(members) => {
            assert_eq!(members.len(), 2);
            assert_eq!(members[0].0, "type");
            assert_eq!(members[1].0, "value");
        }
        _ => panic!("expected an object"),
    }
    assert!(is_text(member(&donation, "type"), "donation"));
    assert!(is_text(member(&donation, "value"), "hello"));
}

#[test]
fn successful_responses_decode_to_json() {
    let value = decode_api_response(200, "200 OK", r#"{"ok":true}"#).unwrap();
    assert!(matches!(value.get("ok"), Some(JsonValue::Bool(true))));
    let value = decode_api_response(204, "204 No Content", "  ").unwrap();
    assert!(is_empty_object(&value));
    let value = decode_api_response(201, "201 Created", "<html>").unwrap();
    assert!(is_empty_object(&value));
}

#[test]
fn failed_responses_carry_the_api_error() {
    match decode_api_response(404, "404 Not Found", r#"{"error":"Payment link not found."}"#) {
        Err(MakePayError::Api {
            status,
            message,
            response_body,
        }) => {
            assert_eq!(status, 404);
            assert_eq!(message, "Payment link not found.");
            assert_eq!(
                response_body.get("error").and_then(|e| e.as_str()),
                Some("Payment link not found.")
            );
        }
        _ => panic!("expected an API error"),
    }
    match decode_api_response(500, "500 Internal Server Error", "oops") {
        Err(error @ MakePayError::Api { .. }) => {
            assert_eq!(error.status(), Some(500));
            assert!(is_empty_object(error.response_body().unwrap()));
            match error {
                MakePayError::Api { message, .. } => assert_eq!(
                    message,
                    "MakePay API request failed with HTTP 500 Internal Server Error."
                ),
                _ => unreachable!(),
            }
        }
        _ => panic!("expected an API error"),
    }
    match decode_api_response(400, "400 Bad Request", r#"{"error":42}"#) {
        Err(MakePayError::Api { message, .. }) => {
            assert_eq!(message, "MakePay API request failed with HTTP 400 Bad Request.")
        }
        _ => panic!("expected an API error"),
    }
}

#[test]
fn documents_decode_like_response_bodies() {
    let document = JsonValue::Object(vec![("error".to_owned(), text("Not found"))]);
    match decode_api_document(404, "404 Not Found", Some(document)) {
        Err(MakePayError::Api { status, message, response_body }) => {
            assert_eq!(status, 404);
            assert_eq!(message, "Not found");
            assert!(is_text(member(&response_body, "error"), "Not found"));
        }
        _ => panic!("expected an API error"),
    }
    match decode_api_document(500, "500 Internal Server Error", None) {
        Err(MakePayError::Api { message, response_body, .. }) => {
            assert_eq!(message, "MakePay API request failed with HTTP 500 Internal Server Error.");
            assert!(is_empty_object(&response_body));
        }
        _ => panic!("expected an API error"),
    }
    let ok = decode_api_document(200, "200 OK", Some(text("done"))).unwrap();
    assert!(is_text(&ok, "done"));
    assert!(is_empty_object(&decode_api_document(201, "201 Created", None).unwrap()));
}

#[test]
fn json_members_are_looked_up_by_key() {
    let value = JsonValue::Object(vec![
        ("a".to_owned(), text("x")),
        ("b".to_owned(), JsonValue::Null),
    ]);
    assert_eq!(value.get("a").and_then(|v| v.as_str()), Some("x"));
    assert!(matches!(value.get("b"), Some(JsonValue::Null)));
    assert!(value.get("c").is_none());
    assert!(text("a").get("a").is_none());
    assert_eq!(JsonValue::Bool(true).as_str(), None);
}

#[test]
fn donation_payloads_are_already_tagged() {
    let once = donation_payload_value(text("hello"));
    match donation_payload_value(once) {
        JsonValue::Object(members) => {
            assert_eq!(members.len(), 2);
            assert!(is_text(&members[0].1, "donation"));
            assert!(is_text(&members[1].1, "hello"));
        }
        _ => panic!("expected an object"),
    }
}

#[test]
fn payment_link_bodies_carry_status_flag_and_payload() {
    let options = CreatePaymentLinkOptions {
        status: PaymentLinkStatus::Paused,
        send_payment_request_email: true,
    };
    match payment_link_request_body(options, text("p")) {
        JsonValue::Object(members) => {
            assert_eq!(members.len(), 3);
            assert_eq!(members[0].0, "status");
            assert!(is_text(&members[0].1, "paused"));
            assert_eq!(members[1].0, "sendPaymentRequestEmail");
            assert!(matches!(members[1].1, JsonValue::Bool(true)));
            assert_eq!(members[2].0, "payload");
            assert!(is_text(&members[2].1, "p"));
        }
        _ => panic!("expected an object"),
    }
    let body = payment_link_request_body(CreatePaymentLinkOptions::default(), JsonValue::Null);
    assert!(is_text(member(&body, "status"), "active"));
    assert!(matches!(member(&body, "sendPaymentRequestEmail"), JsonValue::Bool(false)));
    assert!(is_text(member(&payment_link_status_body(PaymentLinkStatus::Archived), "status"), "archived"));
}

#[test]
fn payment_request_email_bodies() {
    let body = payment_request_email_body(Some("a@example.com"));
    assert!(is_text(member(&body, "email"), "a@example.com"));
    assert!(is_empty_object(&payment_request_email_body(None)));
}

#[test]
fn domain_and_branding_bodies() {
    assert!(is_text(member(&shop_domain_body(Some("shop.example.com")), "domain"), "shop.example.com"));
    assert!(matches!(member(&shop_domain_body(None), "domain"), JsonValue::Null));
    assert!(is_text(member(&branding_refresh_body(None), "kind"), "all"));
    assert!(is_text(member(&branding_refresh_body(Some("checkout")), "kind"), "checkout"));
}
