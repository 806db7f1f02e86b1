//! JSON handling with `serde_json`: API responses, webhook bodies and
//! donation payloads.

use vstd::prelude::*;

use crate::error::MakePayError;
use crate::text::{is_blank, opt_view, push_str, str_is_blank};
use crate::webhook::{tolerance_of, verify_webhook, webhook_accepted, WebhookVerificationOptions};

verus! {

/// `serde_json::Number`, a JSON number; the library only carries it.
#[verifier::external_type_specification]
#[verifier::external_body]
pub struct ExJsonNumber(serde_json::Number);

/// A JSON value held as plain values: an object is the list of its
/// members, each key at most once.
#[derive(Debug)]
pub enum JsonValue {
    Null,
    Bool(bool),
    Number(serde_json::Number),
    String(String),
    Array(Vec<JsonValue>),
    Object(Vec<(String, JsonValue)>),
}

/// The position of the first member of `members` with the key `key`.
pub open spec fn member_index(members: Seq<(String, JsonValue)>, key: Seq<char>) -> Option<int>
    decreases members.len(),
{
    if members.len() == 0 {
        None
    } else {
        match member_index(members.drop_last(), key) {
            Some(i) => Some(i),
            None => if members.last().0@ == key {
                Some(members.len() - 1)
            } else {
                None
            },
        }
    }
}

/// The JSON value that `serde_json::from_str::<serde_json::Value>` reads
/// from `text`, as a `JsonValue`; `None` when `text` is not JSON.
pub uninterp spec fn json_document(text: Seq<char>) -> Option<JsonValue>;

/// The JSON value that `serde_json::from_slice::<serde_json::Value>` reads
/// from `bytes`, as a `JsonValue`; `None` when `bytes` are not JSON.
pub uninterp spec fn json_bytes_document(bytes: Seq<u8>) -> Option<JsonValue>;

/// Turns a `serde_json::Value` into a `JsonValue`, variant for variant; an
/// object's members come in the order of its map.
#[verifier::external_body]
fn json_value_of(value: serde_json::Value) -> JsonValue {
    match value {
        serde_json::Value::Null => JsonValue::Null,
        serde_json::Value::Bool(b) => JsonValue::Bool(b),
        serde_json::Value::Number(n) => JsonValue::Number(n),
        serde_json::Value::String(s) => JsonValue::String(s),
        serde_json::Value::Array(items) => JsonValue::Array(items.into_iter().map(json_value_of).collect()),
        serde_json::Value::Object(members) => JsonValue::Object(
            members.into_iter().map(|(k, v)| (k, json_value_of(v))).collect(),
        ),
    }
}

/// `serde_json::from_str::<serde_json::Value>`, with a failure turned into
/// `None`: the document that `text` holds.
#[verifier::external_body]
fn json_parse_text(text: &str) -> (res: Option<JsonValue>)
    ensures
        res == json_document(text@),
{
    serde_json::from_str::<serde_json::Value>(text).ok().map(json_value_of)
}

/// `serde_json::from_slice::<serde_json::Value>`: the document that `bytes`
/// hold, or the parser's error when they are not JSON.
#[verifier::external_body]
fn json_parse_bytes(bytes: &[u8]) -> (res: Result<JsonValue, serde_json::Error>)
    ensures
        res is Ok == json_bytes_document(bytes@) is Some,
        res matches Ok(v) ==> json_bytes_document(bytes@) == Some(v),
{
    serde_json::from_slice::<serde_json::Value>(bytes).map(json_value_of)
}

/// The member `key` of `value` when `value` is an object that has it.
pub open spec fn member(value: JsonValue, key: Seq<char>) -> Option<JsonValue> {
    match value {
        JsonValue::Object(members) => match member_index(members@, key) {
            Some(i) => Some(members@[i].1),
            None => None,
        },
        _ => None,
    }
}

/// The text of `value` when it is a JSON string.
pub open spec fn string_of(value: JsonValue) -> Option<Seq<char>> {
    match value {
        JsonValue::String(s) => Some(s@),
        _ => None,
    }
}

/// `value` is the empty object `{}`.
pub open spec fn is_empty_object(value: JsonValue) -> bool {
    value matches JsonValue::Object(members) && members@.len() == 0
}

impl JsonValue {
    /// The member `key` of an object (its first member with that key);
    /// `None` for a value that is not an object or has no such member.
    pub fn get(&self, key: &str) -> (res: Option<&JsonValue>)
        ensures
            match res {
                Some(v) => member(*self, key@) == Some(*v),
                None => member(*self, key@) is None,
            },
    {
        match self {
            JsonValue::Object(members) => {
                let wanted = key.to_owned();
                let n = members.len();
                let mut i: usize = 0;
                while i < n
                    invariant
                        n == members.len(),
                        wanted@ == key@,
                        *self matches JsonValue::Object(m) && m@ == members@,
                        i <= n,
                        member_index(members@.take(i as int), key@) is None,
                    decreases n - i,
                {
                    assert(members@.take(i + 1).drop_last() == members@.take(i as int));
                    if members[i].0 == wanted {
                        proof {
                            assert(member_index(members@.take(i + 1), key@) == Some(i as int));
                            lemma_member_index_prefix(members@, i as int + 1, key@);
                        }
                        return Some(&members[i].1);
                    }
                    i += 1;
                }
                assert(members@.take(n as int) == members@);
                None
            },
            _ => None,
        }
    }

    /// The text of a JSON string; `None` for any other value.
    pub fn as_str(&self) -> (res: Option<&str>)
        ensures
            match res {
                Some(s) => string_of(*self) == Some(s@),
                None => string_of(*self) is None,
            },
    {
        match self {
            JsonValue::String(s) => Some(s.as_str()),
            _ => None,
        }
    }
}

/// Whether an HTTP status is a success (`200..300`).
pub open spec fn is_success_status(status: u16) -> bool {
    200 <= status < 300
}

/// The document of a response body: none when the body is blank or is not
/// JSON.
pub open spec fn response_document(body_text: Seq<char>) -> Option<JsonValue> {
    if is_blank(body_text) {
        None
    } else {
        json_document(body_text)
    }
}

/// `body` is what a response with `document` decodes to: the document, or
/// the empty object when there is none.
pub open spec fn decoded_body(document: Option<JsonValue>, body: JsonValue) -> bool {
    match document {
        Some(d) => body == d,
        None => is_empty_object(body),
    }
}

/// The error text of a failed API call: the string `error` member of the
/// response's document when it has one, else a sentence naming the status.
pub open spec fn api_error_message(status_text: Seq<char>, document: Option<JsonValue>) -> Seq<char> {
    let error = match document {
        Some(d) => match member(d, "error"@) {
            Some(m) => string_of(m),
            None => None,
        },
        None => None,
    };
    match error {
        Some(message) => message,
        None => "MakePay API request failed with HTTP "@ + status_text + "."@,
    }
}

/// `res` is what an API response with `status` and body `document` gives:
/// the decoded body on a success, else an `Api` error with the status, the
/// error text and the decoded body.
pub open spec fn api_result(
    status: u16,
    status_text: Seq<char>,
    document: Option<JsonValue>,
    res: Result<JsonValue, MakePayError>,
) -> bool {
    if is_success_status(status) {
        res matches Ok(body) && decoded_body(document, body)
    } else {
        &&& res matches Err(MakePayError::Api { status: s, message, response_body })
        &&& s == status
        &&& message@ == api_error_message(status_text, document)
        &&& decoded_body(document, response_body)
    }
}

/// Every 2xx status is a success and no other status is: a response
/// decodes to `Ok` exactly when its status lies in `200..300`, and then to
/// its document (`{}` when it has none); any other status gives an `Api`
/// error carrying that status and the same decoded body.
pub proof fn lemma_success_exactly_on_2xx(
    status: u16,
    status_text: Seq<char>,
    document: Option<JsonValue>,
    res: Result<JsonValue, MakePayError>,
)
    requires
        api_result(status, status_text, document, res),
    ensures
        res is Ok <==> 200 <= status < 300,
        res matches Ok(body) ==> (match document {
            Some(d) => body == d,
            None => body matches JsonValue::Object(m) && m@.len() == 0,
        }),
        res is Err ==> (res matches Err(MakePayError::Api { status: s, response_body, .. }) && s
            == status && match document {
            Some(d) => response_body == d,
            None => response_body matches JsonValue::Object(m) && m@.len() == 0,
        }),
{
}

/// Turns an API response whose body has been read as `document` into the
/// library's result (see `api_result`). `status_text` is how the status is
/// written (such as `404 Not Found`).
pub fn decode_api_document(status: u16, status_text: &str, document: Option<JsonValue>) -> (res:
    Result<JsonValue, MakePayError>)
    ensures
        api_result(status, status_text@, document, res),
{
    proof { reveal_strlit("error"); }
    let error = match &document {
        Some(d) => match d.get("error") {
            Some(m) => match m.as_str() {
                Some(text) => Some(text.to_owned()),
                None => None,
            },
            None => None,
        },
        None => None,
    };
    let body = match document {
        Some(d) => d,
        None => JsonValue::Object(Vec::new()),
    };
    if 200 <= status && status < 300 {
        return Ok(body);
    }
    let message = match error {
        Some(m) => m,
        None => {
            let mut m = String::new();
            push_str(&mut m, "MakePay API request failed with HTTP ");
            push_str(&mut m, status_text);
            push_str(&mut m, ".");
            proof {
                reveal_strlit("");
                assert(""@ =~= Seq::<char>::empty());
            }
            m
        },
    };
    Err(MakePayError::Api { status, message, response_body: body })
}

/// Turns an API response into the library's result: its body is read as
/// JSON (none when blank or not JSON), then decoded as `api_result` says.
pub fn decode_api_response(status: u16, status_text: &str, body_text: &str) -> (res: Result<
    JsonValue,
    MakePayError,
>)
    ensures
        api_result(status, status_text@, response_document(body_text@), res),
{
    let document = if str_is_blank(body_text) {
        None
    } else {
        json_parse_text(body_text)
    };
    decode_api_document(status, status_text, document)
}

/// `member` is the member `"type": "donation"`.
pub open spec fn is_donation_tag(member: (String, JsonValue)) -> bool {
    &&& member.0@ == "type"@
    &&& member.1 matches JsonValue::String(s) && s@ == "donation"@
}

/// `tagged` is `members` with the member `"type": "donation"` set, as a
/// JSON object's `insert` sets it: in place of an existing `type` member,
/// else added at the end.
pub open spec fn tagged_as_donation(
    members: Seq<(String, JsonValue)>,
    tagged: Seq<(String, JsonValue)>,
) -> bool {
    match member_index(members, "type"@) {
        Some(i) => {
            &&& tagged.len() == members.len()
            &&& is_donation_tag(tagged[i])
            &&& forall|j: int| 0 <= j < members.len() && j != i ==> tagged[j] == members[j]
        },
        None => {
            &&& tagged.len() == members.len() + 1
            &&& tagged.take(members.len() as int) == members
            &&& is_donation_tag(tagged.last())
        },
    }
}

/// What the payload of a donation link is: the payload tagged with
/// `"type": "donation"` when it is an object, else the object
/// `{ "type": "donation", "value": payload }`.
pub open spec fn donation_payload(payload: JsonValue, res: JsonValue) -> bool {
    match payload {
        JsonValue::Object(members) => res matches JsonValue::Object(tagged) && tagged_as_donation(
            members@,
            tagged@,
        ),
        _ => res matches JsonValue::Object(wrapped) && wrapped@.len() == 2 && is_donation_tag(
            wrapped@[0],
        ) && wrapped@[1].0@ == "value"@ && wrapped@[1].1 == payload,
    }
}

/// The payload of a donation link (see `donation_payload`).
pub fn donation_payload_value(payload: JsonValue) -> (res: JsonValue)
    ensures
        donation_payload(payload, res),
{
    proof {
        reveal_strlit("type");
        reveal_strlit("donation");
        reveal_strlit("value");
    }
    match payload {
        JsonValue::Object(mut members) => {
            let ghost original = members@;
            let n = members.len();
            let mut i: usize = 0;
            while i < n
                invariant
                    n == members.len(),
                    members@ == original,
                    payload matches JsonValue::Object(m) && m@ == original,
                    i <= n,
                    member_index(original.take(i as int), "type"@) is None,
                decreases n - i,
            {
                assert(original.take(i + 1).drop_last() == original.take(i as int));
                if members[i].0 == "type".to_owned() {
                    proof {
                        assert(member_index(original.take(i + 1), "type"@) == Some(i as int));
                        lemma_member_index_prefix(original, i as int + 1, "type"@);
                    }
                    members.set(i, ("type".to_owned(), JsonValue::String("donation".to_owned())));
                    return JsonValue::Object(members);
                }
                i += 1;
            }
            assert(original.take(n as int) == original);
            members.push(("type".to_owned(), JsonValue::String("donation".to_owned())));
            assert(members@.take(n as int) =~= original);
            JsonValue::Object(members)
        },
        other => {
            let mut wrapped: Vec<(String, JsonValue)> = Vec::new();
            wrapped.push(("type".to_owned(), JsonValue::String("donation".to_owned())));
            wrapped.push(("value".to_owned(), other));
            JsonValue::Object(wrapped)
        },
    }
}

/// Where a prefix of the members already has a key, the whole list has it
/// at the same place.
proof fn lemma_member_index_prefix(members: Seq<(String, JsonValue)>, k: int, key: Seq<char>)
    requires
        0 <= k <= members.len(),
        member_index(members.take(k), key) is Some,
    ensures
        member_index(members, key) == member_index(members.take(k), key),
    decreases members.len() - k,
{
    if k < members.len() {
        assert(members.take(k + 1).drop_last() == members.take(k));
        lemma_member_index_prefix(members, k + 1, key);
    } else {
        assert(members.take(k) == members);
    }
}

/// `member_index` finds the first member with the key, and only it.
proof fn lemma_member_index_first(members: Seq<(String, JsonValue)>, key: Seq<char>)
    ensures
        match member_index(members, key) {
            Some(i) => {
                &&& 0 <= i < members.len()
                &&& members[i].0@ == key
                &&& forall|j: int| 0 <= j < i ==> members[j].0@ != key
            },
            None => forall|j: int| 0 <= j < members.len() ==> members[j].0@ != key,
        },
    decreases members.len(),
{
    if members.len() > 0 {
        lemma_member_index_first(members.drop_last(), key);
        assert forall|j: int| 0 <= j < members.len() - 1 implies members.drop_last()[j] == members[j] by {}
    }
}

/// Where `i` holds the first member with the key, `member_index` finds it.
proof fn lemma_member_index_at(members: Seq<(String, JsonValue)>, key: Seq<char>, i: int)
    requires
        0 <= i < members.len(),
        members[i].0@ == key,
        forall|j: int| 0 <= j < i ==> members[j].0@ != key,
    ensures
        member_index(members, key) == Some(i),
{
    lemma_member_index_first(members, key);
    match member_index(members, key) {
        Some(k) => {
            if k < i {
                assert(members[k].0@ != key);
            } else if k > i {
                assert(members[i].0@ != key);
            }
        },
        None => {
            assert(members[i].0@ != key);
        },
    }
}

/// The payload of a donation link is its own donation payload: tagging it
/// again changes nothing.
pub proof fn lemma_donation_payload_idempotent(payload: JsonValue, tagged: JsonValue)
    requires
        donation_payload(payload, tagged),
    ensures
        donation_payload(tagged, tagged),
{
    let t = match tagged {
        JsonValue::Object(m) => m@,
        _ => Seq::empty(),
    };
    match payload {
        JsonValue::Object(members) => {
            let original = members@;
            lemma_member_index_first(original, "type"@);
            match member_index(original, "type"@) {
                Some(i) => {
                    assert forall|j: int| 0 <= j < i implies t[j].0@ != "type"@ by {
                        assert(t[j] == original[j]);
                    }
                    lemma_member_index_at(t, "type"@, i);
                },
                None => {
                    let n = original.len() as int;
                    assert forall|j: int| 0 <= j < n implies t[j].0@ != "type"@ by {
                        assert(t.take(n)[j] == t[j]);
                    }
                    lemma_member_index_at(t, "type"@, n);
                },
            }
        },
        _ => {
            lemma_member_index_at(t, "type"@, 0);
        },
    }
}

/// `res` is what parsing a webhook gives when its verification gave
/// `accepted` and its body holds `document`: `InvalidWebhookSignature`
/// when it was not accepted, else the document, or `InvalidWebhookJson`
/// when the body is not JSON.
pub open spec fn webhook_parsed(
    accepted: bool,
    document: Option<JsonValue>,
    res: Result<JsonValue, MakePayError>,
) -> bool {
    if !accepted {
        res matches Err(MakePayError::InvalidWebhookSignature)
    } else {
        match document {
            Some(d) => res matches Ok(v) && v == d,
            None => res matches Err(MakePayError::InvalidWebhookJson(_)),
        }
    }
}

/// Verifies a webhook (see `verify_webhook`) and parses its body as JSON;
/// the body is read only once the signature holds (see `webhook_parsed`,
/// for some clock reading, and for none when the tolerance is zero).
pub fn parse_webhook(
    raw_body: &[u8],
    signature_header: Option<&str>,
    secret: &str,
    options: Option<WebhookVerificationOptions>,
) -> (res: Result<JsonValue, MakePayError>)
    ensures
        exists|now: Option<u64>|
            #![trigger webhook_accepted(raw_body@, opt_view(signature_header), secret@, tolerance_of(options), now)]
            webhook_parsed(
                webhook_accepted(
                    raw_body@,
                    opt_view(signature_header),
                    secret@,
                    tolerance_of(options),
                    now,
                ),
                json_bytes_document(raw_body@),
                res,
            ),
        tolerance_of(options) == 0 ==> webhook_parsed(
            webhook_accepted(raw_body@, opt_view(signature_header), secret@, 0, None),
            json_bytes_document(raw_body@),
            res,
        ),
{
    if !verify_webhook(raw_body, signature_header, secret, options) {
        return Err(MakePayError::InvalidWebhookSignature);
    }
    match json_parse_bytes(raw_body) {
        Ok(v) => Ok(v),
        Err(e) => Err(MakePayError::InvalidWebhookJson(e)),
    }
}

} // verus!
