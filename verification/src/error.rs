//! The library's error type.

use vstd::prelude::*;

use crate::json::JsonValue;

verus! {

/// `serde_json::Value`, a JSON document as the parser gives it.
#[verifier::external_type_specification]
#[verifier::external_body]
pub struct ExJsonValue(serde_json::Value);

/// `serde_json::Error`, a JSON (de)serialisation failure.
#[verifier::external_type_specification]
#[verifier::external_body]
pub struct ExJsonError(serde_json::Error);

/// `url::ParseError`, the reason a text is not a URL.
#[verifier::external_type_specification]
#[verifier::external_body]
pub struct ExUrlParseError(url::ParseError);

/// What can go wrong in the library.
///
/// `Api` holds the HTTP status code as a number; the HTTP layer that talks
/// to the network adds its own transport failures on top of these.
#[derive(Debug)]
pub enum MakePayError {
    /// The API answered with a status outside `200..300`.
    Api { status: u16, message: String, response_body: JsonValue },
    /// An argument was missing or unusable; the text says which.
    InvalidInput(String),
    /// A webhook body carried a valid signature but was not JSON.
    InvalidWebhookJson(serde_json::Error),
    /// A webhook body did not carry a valid signature.
    InvalidWebhookSignature,
    /// A value could not be turned into JSON.
    Json(serde_json::Error),
    /// A text that had to be a URL was not one.
    Url(url::ParseError),
}

/// `res` is the `InvalidInput` error with the text `message`.
pub open spec fn is_invalid_input<T>(res: Result<T, MakePayError>, message: Seq<char>) -> bool {
    res matches Err(MakePayError::InvalidInput(m)) && m@ == message
}

impl MakePayError {
    /// The HTTP status of an `Api` error; `None` for every other error.
    pub fn status(&self) -> (res: Option<u16>)
        ensures
            match self {
                MakePayError::Api { status, .. } => res == Some(*status),
                _ => res is None,
            },
    {
        match self {
            MakePayError::Api { status, .. } => Some(*status),
            _ => None,
        }
    }

    /// The decoded response body of an `Api` error; `None` for every other
    /// error.
    pub fn response_body(&self) -> (res: Option<&JsonValue>)
        ensures
            match self {
                MakePayError::Api { response_body, .. } => res == Some(response_body),
                _ => res is None,
            },
    {
        match self {
            MakePayError::Api { response_body, .. } => Some(response_body),
            _ => None,
        }
    }
}

/// Checks that `value` holds something other than whitespace; fails with
/// `InvalidInput(message)` otherwise.
pub fn assert_non_empty(value: &str, message: &str) -> (res: Result<(), MakePayError>)
    ensures
        res is Ok == !crate::text::is_blank(value@),
        res is Err ==> is_invalid_input(res, message@),
{
    if crate::text::str_is_blank(value) {
        return Err(MakePayError::InvalidInput(message.to_owned()));
    }
    Ok(())
}

} // verus!
