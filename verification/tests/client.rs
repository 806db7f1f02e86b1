use makepay::client::{build_resource_path, MakePayClient};
use makepay::error::MakePayError;
use makepay::options::{CreatePaymentLinkOptions, MakePayPublicRequestOptions, PaymentLinkStatus};

#[test]
fn validates_client_configuration() {
    let error = MakePayClient::new("", "").unwrap_err();
    assert!(matches!(error, MakePayError::InvalidInput(_)));

    let client = MakePayClient::builder()
        .key_id("mk_test")
        .key_secret("mksec_test")
        .checkout_base_url("https://checkout.example/")
        .build()
        .unwrap();
    assert_eq!(
        client.hosted_checkout_url("pay_123").unwrap(),
        "https://checkout.example/payment/pay_123"
    );
    assert_eq!(
        client.hosted_donation_url("spring-campaign").unwrap(),
        "https://checkout.example/donations/spring-campaign"
    );
}

fn invalid_input_message<T>(res: Result<T, MakePayError>) -> String {
    match res {
        Err(MakePayError::InvalidInput(message)) => message,
        _ => panic!("expected InvalidInput"),
    }
}

#[test]
fn build_reports_the_first_missing_setting() {
    assert_eq!(
        invalid_input_message(MakePayClient::new("", "")),
        "MakePay API key ID is required."
    );
    assert_eq!(
        invalid_input_message(MakePayClient::new("id", "  ")),
        "MakePay API key secret is required."
    );
    assert_eq!(
        invalid_input_message(MakePayClient::builder().base_url("///").key_id("i").key_secret("s").build()),
        "MakePay base URL is required."
    );
    assert_eq!(
        invalid_input_message(MakePayClient::builder().checkout_base_url(" ").build()),
        "MakePay checkout base URL is required."
    );
    assert!(matches!(
        MakePayClient::builder().base_url("no scheme").key_id("i").key_secret("s").build(),
        Err(MakePayError::Url(_))
    ));
}

#[test]
fn client_exposes_its_credentials() {
    let client = MakePayClient::new("mk_id", "mk_secret").unwrap();
    assert_eq!(client.key_id(), "mk_id");
    assert_eq!(client.key_secret(), "mk_secret");
}

#[test]
fn client_checkout_helpers_use_the_checkout_base() {
    let client = MakePayClient::builder()
        .key_id("i")
        .key_secret("s")
        .checkout_base_url("https://c.example//")
        .build()
        .unwrap();
    assert_eq!(client.modal_script_url().unwrap(), "https://c.example/modal/makepay.js");
    assert_eq!(
        client.embedded_checkout_url("p", Some("https://m.example")).unwrap(),
        "https://c.example/embed/payment/p?parentOrigin=https%3A%2F%2Fm.example"
    );
    assert_eq!(
        client.embedded_donation_url("d", None).unwrap(),
        "https://c.example/embed/donations/d"
    );
    assert!(client
        .embed_button_html("p", None)
        .unwrap()
        .contains("<script src=\"https://c.example/modal/makepay.js\"></script>"));
    assert!(client
        .iframe_html("p", Some("T"), None)
        .unwrap()
        .contains("src=\"https://c.example/embed/payment/p\""));
}

#[test]
fn request_urls_join_base_path_and_query() {
    let client = MakePayClient::new("i", "s").unwrap();
    assert_eq!(
        client
            .request_url("/api/partner/v1/makepay/payment-links", &[])
            .unwrap(),
        "https://www.makecrypto.io/api/partner/v1/makepay/payment-links"
    );
    assert_eq!(
        client
            .request_url(
                "/api/partner/v1/makepay/shop/orders",
                &[("status", "paid"), ("limit", "25"), ("q", "a b&c")]
            )
            .unwrap(),
        "https://www.makecrypto.io/api/partner/v1/makepay/shop/orders?status=paid&limit=25&q=a+b%26c"
    );
}

#[test]
fn resource_paths_encode_the_id() {
    assert_eq!(
        build_resource_path(
            "/api/partner/v1/makepay/payment-links",
            "pay/1 2",
            "/send-request-email",
            "Payment link UID is required."
        )
        .unwrap(),
        "/api/partner/v1/makepay/payment-links/pay%2F1+2/send-request-email"
    );
    assert_eq!(
        invalid_input_message(build_resource_path("/x", " ", "", "Product ID is required.")),
        "Product ID is required."
    );
}

#[test]
fn anonymous_payment_link_url() {
    assert_eq!(
        MakePayPublicRequestOptions::default().payment_links_url().unwrap(),
        "https://www.makecrypto.io/api/partner/v1/makepay/payment-links"
    );
    let options = MakePayPublicRequestOptions::default().base_url("https://api.example/");
    assert_eq!(
        options.payment_links_url().unwrap(),
        "https://api.example/api/partner/v1/makepay/payment-links"
    );
    assert_eq!(
        invalid_input_message(
            MakePayPublicRequestOptions::default().base_url("/").payment_links_url()
        ),
        "MakePay base URL is required."
    );
}

#[test]
fn payment_link_options_default_to_active_without_email() {
    let options = CreatePaymentLinkOptions::default();
    assert_eq!(options.status, PaymentLinkStatus::Active);
    assert!(!options.send_payment_request_email);
}
