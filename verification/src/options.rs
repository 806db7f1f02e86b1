//! Options of payment links and of anonymous (key-less) requests.

use vstd::prelude::*;

use crate::checkout::{answers, required, Built, DEFAULT_BASE_URL};
use crate::error::{assert_non_empty, MakePayError};
use crate::json::{is_empty_object, JsonValue};
use crate::text::{normalize_base_url, normalized_base_url, push_str};
use crate::url_model::{url_parse_accepts, url_serialization, ParsedUrl, UrlRecipe};

verus! {

/// The state of a payment link.
#[derive(Clone, Copy, Debug, PartialEq, Eq, Structural)]
pub enum PaymentLinkStatus {
    Active,
    Paused,
    Archived,
}

/// How a payment link is created.
#[derive(Clone, Copy, Debug)]
pub struct CreatePaymentLinkOptions {
    pub status: PaymentLinkStatus,
    pub send_payment_request_email: bool,
}

impl Default for CreatePaymentLinkOptions {
    /// An active link, without a payment request email.
    fn default() -> (res: Self)
        ensures
            res.status == PaymentLinkStatus::Active,
            !res.send_payment_request_email,
    {
        CreatePaymentLinkOptions {
            status: PaymentLinkStatus::Active,
            send_payment_request_email: false,
        }
    }
}

/// How a payment link status is written in the API.
pub open spec fn status_name(status: PaymentLinkStatus) -> Seq<char> {
    match status {
        PaymentLinkStatus::Active => "active"@,
        PaymentLinkStatus::Paused => "paused"@,
        PaymentLinkStatus::Archived => "archived"@,
    }
}

impl PaymentLinkStatus {
    /// How this status is written in the API: `active`, `paused` or
    /// `archived`.
    pub fn as_str(self) -> (res: &'static str)
        ensures
            res@ == status_name(self),
    {
        match self {
            PaymentLinkStatus::Active => "active",
            PaymentLinkStatus::Paused => "paused",
            PaymentLinkStatus::Archived => "archived",
        }
    }
}

/// `value` is the object with the one member `key: text`.
pub open spec fn is_single_text_member(value: JsonValue, key: Seq<char>, text: Seq<char>) -> bool {
    &&& value matches JsonValue::Object(m)
    &&& m@.len() == 1
    &&& m@[0].0@ == key
    &&& m@[0].1 matches JsonValue::String(s)
    &&& s@ == text
}

/// The object with the one member `key: text`.
fn single_text_member(key: &str, text: &str) -> (res: JsonValue)
    ensures
        is_single_text_member(res, key@, text@),
{
    let mut members: Vec<(String, JsonValue)> = Vec::new();
    members.push((key.to_owned(), JsonValue::String(text.to_owned())));
    JsonValue::Object(members)
}

/// The body of a request that creates a payment link or a donation link:
/// `{"status": ..., "sendPaymentRequestEmail": ..., "payload": ...}`.
pub fn payment_link_request_body(options: CreatePaymentLinkOptions, payload: JsonValue) -> (res:
    JsonValue)
    ensures
        res matches JsonValue::Object(m) && m@.len() == 3 && m@[0].0@ == "status"@ && (m@[0].1 matches JsonValue::String(
            s,
        ) && s@ == status_name(options.status)) && m@[1].0@ == "sendPaymentRequestEmail"@
            && m@[1].1 == JsonValue::Bool(options.send_payment_request_email) && m@[2].0@
            == "payload"@ && m@[2].1 == payload,
{
    let mut members: Vec<(String, JsonValue)> = Vec::new();
    members.push(("status".to_owned(), JsonValue::String(options.status.as_str().to_owned())));
    members.push(
        ("sendPaymentRequestEmail".to_owned(), JsonValue::Bool(options.send_payment_request_email)),
    );
    members.push(("payload".to_owned(), payload));
    JsonValue::Object(members)
}

/// The body of a request that sets the status of a payment link:
/// `{"status": ...}`.
pub fn payment_link_status_body(status: PaymentLinkStatus) -> (res: JsonValue)
    ensures
        is_single_text_member(res, "status"@, status_name(status)),
{
    single_text_member("status", status.as_str())
}

/// The body of a request that sends a payment request email:
/// `{"email": ...}` when an address is given, else `{}`.
pub fn payment_request_email_body(email: Option<&str>) -> (res: JsonValue)
    ensures
        match email {
            Some(e) => is_single_text_member(res, "email"@, e@),
            None => is_empty_object(res),
        },
{
    match email {
        Some(e) => single_text_member("email", e),
        None => JsonValue::Object(Vec::new()),
    }
}

/// The body of a request that sets or refreshes the shop's custom domain:
/// `{"domain": ...}`, with `null` when no domain is given.
pub fn shop_domain_body(domain: Option<&str>) -> (res: JsonValue)
    ensures
        match domain {
            Some(d) => is_single_text_member(res, "domain"@, d@),
            None => res matches JsonValue::Object(m) && m@.len() == 1 && m@[0].0@ == "domain"@
                && m@[0].1 is Null,
        },
{
    match domain {
        Some(d) => single_text_member("domain", d),
        None => {
            let mut members: Vec<(String, JsonValue)> = Vec::new();
            members.push(("domain".to_owned(), JsonValue::Null));
            JsonValue::Object(members)
        },
    }
}

/// The kind of branding domains refreshed when none is named.
pub open spec fn default_branding_kind() -> Seq<char> {
    "all"@
}

/// The body of a request that refreshes branding domains: `{"kind": ...}`,
/// with `all` when no kind is given.
pub fn branding_refresh_body(kind: Option<&str>) -> (res: JsonValue)
    ensures
        is_single_text_member(
            res,
            "kind"@,
            match kind {
                Some(k) => k@,
                None => default_branding_kind(),
            },
        ),
{
    proof { reveal_strlit("all"); }
    let kind = match kind {
        Some(k) => k,
        None => "all",
    };
    single_text_member("kind", kind)
}

/// Where anonymous requests go.
#[derive(Debug, Clone)]
pub struct MakePayPublicRequestOptions {
    pub base_url: String,
}

impl Default for MakePayPublicRequestOptions {
    /// The default MakePay API location.
    fn default() -> (res: Self)
        ensures
            res.base_url@ == DEFAULT_BASE_URL@,
    {
        MakePayPublicRequestOptions { base_url: DEFAULT_BASE_URL.to_owned() }
    }
}

/// The path of the payment links collection of the API.
pub open spec fn payment_links_path() -> Seq<char> {
    "/api/partner/v1/makepay/payment-links"@
}

/// The text of the error for a blank API base URL.
pub open spec fn base_url_message() -> Seq<char> {
    "MakePay base URL is required."@
}

/// What parsing `text` as a URL and writing it back gives.
pub open spec fn parsed_url_text(text: Seq<char>) -> Built {
    if url_parse_accepts(text) {
        Built::Text(url_serialization(UrlRecipe { source: text, edits: Seq::empty() }))
    } else {
        Built::UrlError
    }
}

/// The URL that anonymous payment links are created at, under `base_url`.
pub open spec fn anonymous_payment_links_url(base_url: Seq<char>) -> Built {
    required(
        normalized_base_url(base_url),
        base_url_message(),
        parsed_url_text(normalized_base_url(base_url) + payment_links_path()),
    )
}

impl MakePayPublicRequestOptions {
    /// These options with another API base URL.
    pub fn base_url(self, base_url: &str) -> (res: Self)
        ensures
            res.base_url@ == base_url@,
    {
        MakePayPublicRequestOptions { base_url: base_url.to_owned(), ..self }
    }

    /// The URL that an anonymous payment link is posted to: the base URL
    /// without trailing slashes, then the payment links path.
    pub fn payment_links_url(&self) -> (res: Result<String, MakePayError>)
        ensures
            answers(res, anonymous_payment_links_url(self.base_url@)),
    {
        let base_url = normalize_base_url(self.base_url.as_str());
        proof { reveal_strlit("MakePay base URL is required."); }
        assert_non_empty(base_url.as_str(), "MakePay base URL is required.")?;
        let mut text = base_url;
        push_str(&mut text, "/api/partner/v1/makepay/payment-links");
        match ParsedUrl::parse(text.as_str()) {
            Ok(url) => Ok(url.serialize()),
            Err(e) => Err(MakePayError::Url(e)),
        }
    }
}

} // verus!
