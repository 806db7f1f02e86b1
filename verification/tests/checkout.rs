use makepay::checkout::{
    build_embedded_checkout_url, build_embedded_donation_url, build_hosted_checkout_url,
    build_hosted_donation_url, build_modal_script_url,
};
use makepay::error::MakePayError;
use makepay::html::{build_embed_button_html, build_iframe_html};

#[test]
fn builds_checkout_urls() {
    assert_eq!(
        build_hosted_checkout_url("pay_123", None).unwrap(),
        "https://makepay.io/payment/pay_123"
    );
    assert_eq!(
        build_embedded_checkout_url(
            "pay_123",
            Some("https://pay.example/"),
            Some("https://merchant.example")
        )
        .unwrap(),
        "https://pay.example/embed/payment/pay_123?parentOrigin=https%3A%2F%2Fmerchant.example"
    );
    assert_eq!(
        build_hosted_donation_url("spring-campaign", None).unwrap(),
        "https://makepay.io/donations/spring-campaign"
    );
    assert_eq!(
        build_embedded_donation_url(
            "spring-campaign",
            Some("https://pay.example/"),
            Some("https://merchant.example")
        )
        .unwrap(),
        "https://pay.example/embed/donations/spring-campaign?parentOrigin=https%3A%2F%2Fmerchant.example"
    );
    assert_eq!(
        build_modal_script_url(Some("https://pay.example/")).unwrap(),
        "https://pay.example/modal/makepay.js"
    );
}

#[test]
fn escapes_html_snippets() {
    let button = build_embed_button_html(r#"pay_"<&"#, None, Some("Pay <now>")).unwrap();
    assert!(button.contains(r#"data-makepay-payment-link="pay_&quot;&lt;&amp;""#));
    assert!(button.contains("Pay &lt;now&gt;"));

    let iframe = build_iframe_html("pay_123", None, Some("Secure checkout"), None).unwrap();
    assert!(iframe.contains(r#"src="https://makepay.io/embed/payment/pay_123""#));
}

#[test]
fn blank_payment_uid_is_refused() {
    match build_hosted_checkout_url("  \t", None) {
        Err(MakePayError::InvalidInput(message)) => {
            assert_eq!(message, "Payment link UID is required.")
        }
        _ => panic!("expected InvalidInput"),
    }
    match build_embedded_donation_url("", None, None) {
        Err(MakePayError::InvalidInput(message)) => {
            assert_eq!(message, "Donation slug is required.")
        }
        _ => panic!("expected InvalidInput"),
    }
}

#[test]
fn unparsable_base_url_is_a_url_error() {
    assert!(matches!(
        build_hosted_checkout_url("pay_123", Some("not a url")),
        Err(MakePayError::Url(_))
    ));
}

#[test]
fn cannot_be_a_base_url_is_refused() {
    match build_modal_script_url(Some("mailto:someone@example.com")) {
        Err(MakePayError::InvalidInput(message)) => {
            assert_eq!(message, "MakePay URL cannot be a base URL.")
        }
        _ => panic!("expected InvalidInput"),
    }
}

#[test]
fn path_segments_are_percent_encoded() {
    assert_eq!(
        build_hosted_checkout_url("a/b c?d", Some("https://pay.example///")).unwrap(),
        "https://pay.example/payment/a%2Fb%20c%3Fd"
    );
}

#[test]
fn empty_parent_origin_adds_no_query() {
    assert_eq!(
        build_embedded_checkout_url("pay_1", None, Some("")).unwrap(),
        "https://makepay.io/embed/payment/pay_1"
    );
}

#[test]
fn embed_button_html_exact_lines() {
    let html = build_embed_button_html("pay_9", Some("https://pay.example"), None).unwrap();
    assert_eq!(
        html,
        "<script src=\"https://pay.example/modal/makepay.js\"></script>\n<button type=\"button\" data-makepay-payment-link=\"pay_9\">\n  Pay with crypto\n</button>"
    );
}

#[test]
fn iframe_html_exact_lines() {
    let html = build_iframe_html("pay_9", None, None, Some("https://m.example")).unwrap();
    assert_eq!(
        html,
        "<iframe\n  title=\"MakePay checkout\"\n  src=\"https://makepay.io/embed/payment/pay_9?parentOrigin=https%3A%2F%2Fm.example\"\n  style=\"width:100%;min-height:720px;border:0;border-radius:12px;\"\n  allow=\"clipboard-read; clipboard-write\"\n></iframe>"
    );
}
