//! Webhook signature verification.
//!
//! A webhook request carries a signature header such as
//! `t=1776556800,v1=5d41…`: `t` is the Unix time of signing and `v1` the
//! hex-encoded HMAC-SHA-256, under the webhook secret, of the decimal
//! timestamp, a dot, and the raw request body.

use vstd::prelude::*;
use vstd::string::*;
use hmac::Mac;
use subtle::ConstantTimeEq;

use crate::error::MakePayError;
use crate::text::{
    chars_are_blank, chars_of, is_blank, is_white_space, opt_view, trim_chars, trim_end_ws,
    trim_start_ws, trim_ws,
};

verus! {

// ---------------------------------------------------------------------------
// Options
// ---------------------------------------------------------------------------

/// How strictly a webhook's timestamp is checked.
#[derive(Clone, Copy, Debug)]
pub struct WebhookVerificationOptions {
    /// The largest accepted distance, in seconds, between the signing time
    /// and now; 0 turns the check off.
    pub tolerance_seconds: u64,
}

impl Default for WebhookVerificationOptions {
    /// Five minutes of tolerance.
    fn default() -> (res: Self)
        ensures
            res.tolerance_seconds == 300,
    {
        WebhookVerificationOptions { tolerance_seconds: 300 }
    }
}

/// The tolerance that applies: the one given, else five minutes.
pub open spec fn tolerance_of(options: Option<WebhookVerificationOptions>) -> u64 {
    match options {
        Some(o) => o.tolerance_seconds,
        None => 300,
    }
}

// ---------------------------------------------------------------------------
// Signature header syntax
// ---------------------------------------------------------------------------

/// `s` cut at every `sep`, as `str::split` does: a `sep` starts a new
/// part, every other character extends the last part. There is always at
/// least one part.
pub open spec fn split_on(s: Seq<char>, sep: char) -> Seq<Seq<char>>
    decreases s.len(),
{
    if s.len() == 0 {
        seq![seq![]]
    } else if s.last() == sep {
        split_on(s.drop_last(), sep).push(seq![])
    } else {
        let parts = split_on(s.drop_last(), sep);
        parts.update(parts.len() - 1, parts.last().push(s.last()))
    }
}

/// The position of the first `c` in `s`, if any.
pub open spec fn index_of(s: Seq<char>, c: char) -> Option<int>
    decreases s.len(),
{
    if s.len() == 0 {
        None
    } else if s[0] == c {
        Some(0)
    } else {
        match index_of(s.drop_first(), c) {
            Some(i) => Some(i + 1),
            None => None,
        }
    }
}

/// `s` cut at its first `c`, as `str::split_once` does.
pub open spec fn split_once(s: Seq<char>, c: char) -> Option<(Seq<char>, Seq<char>)> {
    match index_of(s, c) {
        Some(i) => Some((s.take(i), s.skip(i + 1))),
        None => None,
    }
}

/// Whether `c` is an ASCII decimal digit.
pub open spec fn is_digit(c: char) -> bool {
    '0' <= c <= '9'
}

/// The number written by the decimal digits `s`.
pub open spec fn digits_value(s: Seq<char>) -> nat
    decreases s.len(),
{
    if s.len() == 0 {
        0
    } else {
        digits_value(s.drop_last()) * 10 + ((s.last() as u32) - 48) as nat
    }
}

/// The value of the decimal digits `d`, when there is at least one, all are
/// digits and the value fits in 64 bits.
pub open spec fn digits_u64(d: Seq<char>) -> Option<u64> {
    if d.len() > 0 && (forall|i: int| 0 <= i < d.len() ==> is_digit(#[trigger] d[i]))
        && digits_value(d) <= u64::MAX {
        Some(digits_value(d) as u64)
    } else {
        None
    }
}

/// `u64::from_str`: an optional `+`, then one or more decimal digits whose
/// value fits in 64 bits.
pub open spec fn parse_u64(s: Seq<char>) -> Option<u64> {
    let digits = if s.len() > 0 && s[0] == '+' {
        s.drop_first()
    } else {
        s
    };
    digits_u64(digits)
}

/// What a signature header says: its timestamp and its signature, where
/// present.
pub struct SignatureFields {
    pub timestamp: Option<u64>,
    pub signature: Option<Seq<char>>,
}

/// The fields after reading one comma-separated part of a header: a
/// trimmed `t=<n>` sets the timestamp (to nothing when `<n>` is not a
/// number), a trimmed `v1=<sig>` sets the signature, anything else is
/// ignored.
pub open spec fn read_part(fields: SignatureFields, part: Seq<char>) -> SignatureFields {
    match split_once(trim_ws(part), '=') {
        Some((key, value)) => if key == seq!['t'] {
            SignatureFields { timestamp: parse_u64(value), signature: fields.signature }
        } else if key == seq!['v', '1'] {
            SignatureFields { timestamp: fields.timestamp, signature: Some(value) }
        } else {
            fields
        },
        None => fields,
    }
}

/// The fields after reading `parts` from left to right; a later part
/// overrides an earlier one.
pub open spec fn read_parts(parts: Seq<Seq<char>>) -> SignatureFields
    decreases parts.len(),
{
    if parts.len() == 0 {
        SignatureFields { timestamp: None, signature: None }
    } else {
        read_part(read_parts(parts.drop_last()), parts.last())
    }
}

/// The fields of the signature header `header`.
pub open spec fn signature_fields(header: Seq<char>) -> SignatureFields {
    read_parts(split_on(header, ','))
}

// ---------------------------------------------------------------------------
// Hex and bytes
// ---------------------------------------------------------------------------

/// Whether `c` is an ASCII hexadecimal digit (either case).
pub open spec fn is_hex_digit(c: char) -> bool {
    ('0' <= c <= '9') || ('a' <= c <= 'f') || ('A' <= c <= 'F')
}

/// Whether `b` is the ASCII code of a hexadecimal digit (either case).
pub open spec fn is_hex_byte(b: u8) -> bool {
    (0x30 <= b <= 0x39) || (0x61 <= b <= 0x66) || (0x41 <= b <= 0x46)
}

/// The value of the hexadecimal digit whose ASCII code is `b`.
pub open spec fn hex_byte_value(b: u8) -> nat {
    if 0x30 <= b <= 0x39 {
        (b - 0x30) as nat
    } else if 0x61 <= b <= 0x66 {
        (b - 0x61 + 10) as nat
    } else {
        (b - 0x41 + 10) as nat
    }
}

/// `hex::decode`: an even number of hexadecimal digit codes, read two by
/// two, high digit first; anything else is refused.
pub open spec fn hex_decoded(s: Seq<u8>) -> Option<Seq<u8>> {
    if s.len() % 2 == 0 && (forall|i: int| 0 <= i < s.len() ==> is_hex_byte(#[trigger] s[i])) {
        Some(
            Seq::new(
                (s.len() / 2) as nat,
                |i: int| (hex_byte_value(s[2 * i]) * 16 + hex_byte_value(s[2 * i + 1])) as u8,
            ),
        )
    } else {
        None
    }
}

/// The ASCII codes of the characters of `s`.
pub open spec fn ascii_codes(s: Seq<char>) -> Seq<u8> {
    s.map_values(|c: char| (c as u32) as u8)
}

/// The ASCII decimal rendering of `n` (what `format!("{n}")` writes).
pub open spec fn decimal_ascii(n: nat) -> Seq<u8>
    decreases n,
{
    if n < 10 {
        seq![(n + 0x30) as u8]
    } else {
        decimal_ascii(n / 10).push(((n % 10) + 0x30) as u8)
    }
}

/// The bytes that are signed: the decimal timestamp, a dot, the body.
pub open spec fn signed_payload(timestamp: u64, body: Seq<u8>) -> Seq<u8> {
    decimal_ascii(timestamp as nat).push(0x2e) + body
}

/// HMAC-SHA-256 of `message` under `key`, as the `hmac` and `sha2` crates
/// compute it.
pub uninterp spec fn hmac_sha256(key: Seq<u8>, message: Seq<u8>) -> Seq<u8>;

/// The distance between two instants.
pub open spec fn abs_diff(a: u64, b: u64) -> nat {
    if a >= b {
        (a - b) as nat
    } else {
        (b - a) as nat
    }
}

/// Whether a webhook is accepted: the header is present and not blank, the
/// secret is not empty, the header gives a timestamp and a non-empty,
/// all-hex signature, the timestamp is within the tolerance of `now` (when
/// the tolerance is not 0), and the signature decodes to the HMAC-SHA-256,
/// under the secret's UTF-8 bytes, of the signed payload.
pub open spec fn webhook_accepted(
    body: Seq<u8>,
    header: Option<Seq<char>>,
    secret: Seq<char>,
    tolerance: u64,
    now: Option<u64>,
) -> bool {
    match header {
        None => false,
        Some(h) => {
            let fields = signature_fields(h);
            &&& !is_blank(h)
            &&& secret.len() > 0
            &&& fields.timestamp is Some
            &&& fields.signature is Some
            &&& fields.signature->0.len() > 0
            &&& forall|i: int|
                0 <= i < fields.signature->0.len() ==> is_hex_digit(
                    #[trigger] fields.signature->0[i],
                )
            &&& tolerance == 0 || (now is Some && abs_diff(now->0, fields.timestamp->0)
                <= tolerance)
            &&& hex_decoded(ascii_codes(fields.signature->0)) == Some(
                hmac_sha256(
                    vstd::utf8::encode_utf8(secret),
                    signed_payload(fields.timestamp->0, body),
                ),
            )
        },
    }
}

// ---------------------------------------------------------------------------
// Laws
// ---------------------------------------------------------------------------

/// The lower-case hexadecimal digit for `d < 16`.
pub open spec fn hex_lower_digit(d: nat) -> char {
    if d < 10 {
        ((d + 0x30) as u32) as char
    } else {
        ((d - 10 + 0x61) as u32) as char
    }
}

/// `bytes` written in lower-case hexadecimal, two digits per byte, high
/// digit first (what `hex::encode` writes).
pub open spec fn hex_lower(bytes: Seq<u8>) -> Seq<char>
    decreases bytes.len(),
{
    if bytes.len() == 0 {
        seq![]
    } else {
        hex_lower(bytes.drop_last()) + seq![
            hex_lower_digit((bytes.last() / 16) as nat),
            hex_lower_digit((bytes.last() % 16) as nat),
        ]
    }
}

/// The signature header that a sender writes for a webhook signed at
/// `timestamp` with the tag `tag`: `t=<timestamp>,v1=<hex tag>`.
pub open spec fn signature_header_for(timestamp: u64, tag: Seq<u8>) -> Seq<char> {
    seq!['t', '='] + crate::text::decimal(timestamp as nat) + seq![',', 'v', '1', '='] + hex_lower(
        tag,
    )
}

proof fn lemma_decimal_digits(n: nat)
    ensures
        crate::text::decimal(n).len() > 0,
        forall|i: int|
            0 <= i < crate::text::decimal(n).len() ==> is_digit(
                #[trigger] crate::text::decimal(n)[i],
            ),
        digits_value(crate::text::decimal(n)) == n,
    decreases n,
{
    let d = crate::text::decimal(n);
    if n >= 10 {
        lemma_decimal_digits(n / 10);
        let p = crate::text::decimal(n / 10);
        assert(d == p.push(crate::text::digit_char(n % 10)));
        assert(d.drop_last() == p);
        assert forall|i: int| 0 <= i < d.len() implies is_digit(#[trigger] d[i]) by {
            if i < p.len() {
                assert(d[i] == p[i]);
            }
        }
        assert(n == (n / 10) * 10 + n % 10);
        assert(d.last() == crate::text::digit_char(n % 10));
        assert((d.last() as u32) == n % 10 + 48);
        assert(digits_value(d) == digits_value(p) * 10 + (n % 10));
    } else {
        assert(d.drop_last() =~= Seq::<char>::empty());
        assert(digits_value(d.drop_last()) == 0);
        assert((d.last() as u32) == n + 48);
    }
}

proof fn lemma_hex_lower(bytes: Seq<u8>)
    ensures
        hex_lower(bytes).len() == 2 * bytes.len(),
        forall|i: int|
            0 <= i < bytes.len() ==> hex_lower(bytes)[2 * i] == hex_lower_digit(
                (#[trigger] bytes[i] / 16) as nat,
            ) && hex_lower(bytes)[2 * i + 1] == hex_lower_digit((bytes[i] % 16) as nat),
    decreases bytes.len(),
{
    if bytes.len() > 0 {
        lemma_hex_lower(bytes.drop_last());
        let p = hex_lower(bytes.drop_last());
        let q = seq![
            hex_lower_digit((bytes.last() / 16) as nat),
            hex_lower_digit((bytes.last() % 16) as nat),
        ];
        assert(hex_lower(bytes) == p + q);
        assert forall|i: int| 0 <= i < bytes.len() implies hex_lower(bytes)[2 * i]
            == hex_lower_digit((#[trigger] bytes[i] / 16) as nat) && hex_lower(bytes)[2 * i + 1]
            == hex_lower_digit((bytes[i] % 16) as nat) by {
            if i < bytes.len() - 1 {
                assert(bytes.drop_last()[i] == bytes[i]);
                assert((p + q)[2 * i] == p[2 * i]);
                assert((p + q)[2 * i + 1] == p[2 * i + 1]);
            } else {
                assert((p + q)[2 * i] == q[0]);
                assert((p + q)[2 * i + 1] == q[1]);
            }
        }
    }
}

proof fn lemma_hex_lower_decodes(bytes: Seq<u8>)
    ensures
        forall|i: int| 0 <= i < hex_lower(bytes).len() ==> is_hex_digit(#[trigger] hex_lower(bytes)[i]),
        hex_decoded(ascii_codes(hex_lower(bytes))) == Some(bytes),
{
    lemma_hex_lower(bytes);
    let h = hex_lower(bytes);
    let codes = ascii_codes(h);
    assert forall|i: int| 0 <= i < h.len() implies is_hex_digit(#[trigger] h[i]) && is_hex_byte(
        codes[i],
    ) by {
        let j = i / 2;
        assert(0 <= j < bytes.len());
        let b = bytes[j];
        if i % 2 == 0 {
            assert(i == 2 * j);
        } else {
            assert(i == 2 * j + 1);
        }
    }
    assert forall|i: int| 0 <= i < codes.len() implies is_hex_byte(#[trigger] codes[i]) by {
        assert(is_hex_digit(h[i]) && is_hex_byte(codes[i]));
    }
    let decoded = Seq::new(
        (codes.len() / 2) as nat,
        |i: int| (hex_byte_value(codes[2 * i]) * 16 + hex_byte_value(codes[2 * i + 1])) as u8,
    );
    assert forall|i: int| 0 <= i < bytes.len() implies decoded[i] == bytes[i] by {
        let b = bytes[i];
        assert(h[2 * i] == hex_lower_digit((b / 16) as nat));
        assert(h[2 * i + 1] == hex_lower_digit((b % 16) as nat));
        assert(b == (b / 16) * 16 + b % 16);
    }
    assert(decoded =~= bytes);
}

proof fn lemma_split_append(a: Seq<char>, s: Seq<char>, sep: char)
    requires
        forall|i: int| 0 <= i < s.len() ==> #[trigger] s[i] != sep,
    ensures
        split_on(a.push(sep) + s, sep) == split_on(a, sep).push(s),
    decreases s.len(),
{
    if s.len() == 0 {
        assert(s =~= seq![]);
        assert(a.push(sep) + s == a.push(sep));
        assert(a.push(sep).drop_last() == a);
    } else {
        let t = a.push(sep) + s;
        assert(t.drop_last() == a.push(sep) + s.drop_last());
        assert(t.last() == s.last());
        assert(s.last() == s[s.len() - 1]);
        assert forall|i: int| 0 <= i < s.drop_last().len() implies #[trigger] s.drop_last()[i]
            != sep by {
            assert(s.drop_last()[i] == s[i]);
        }
        lemma_split_append(a, s.drop_last(), sep);
        let parts = split_on(a, sep).push(s.drop_last());
        assert(parts.update(parts.len() - 1, parts.last().push(s.last())) =~= split_on(a, sep).push(
            s,
        )) by {
            assert(s.drop_last().push(s.last()) == s);
        }
    }
}

proof fn lemma_split_single(s: Seq<char>, sep: char)
    requires
        forall|i: int| 0 <= i < s.len() ==> #[trigger] s[i] != sep,
    ensures
        split_on(s, sep) == seq![s],
    decreases s.len(),
{
    if s.len() > 0 {
        assert(s.last() == s[s.len() - 1]);
        assert forall|i: int| 0 <= i < s.drop_last().len() implies #[trigger] s.drop_last()[i]
            != sep by {
            assert(s.drop_last()[i] == s[i]);
        }
        lemma_split_single(s.drop_last(), sep);
        assert(s.drop_last().push(s.last()) == s);
        assert(seq![s.drop_last()].update(0, s.drop_last().push(s.last())) =~= seq![s]);
    } else {
        assert(s =~= seq![]);
    }
}

proof fn lemma_trim_keeps(s: Seq<char>)
    requires
        s.len() > 0,
        !crate::text::is_white_space(s[0]),
        !crate::text::is_white_space(s.last()),
    ensures
        trim_ws(s) == s,
{
}

/// The central promise of webhook verification: a body signed as a sender
/// signs it (the header `t=<timestamp>,v1=<hex HMAC-SHA-256 of the signed
/// payload under the secret>`) is accepted, whenever the secret is not
/// empty and the timestamp is within the tolerance of the clock reading
/// (or the tolerance is 0).
pub proof fn lemma_signed_webhook_is_accepted(
    body: Seq<u8>,
    secret: Seq<char>,
    timestamp: u64,
    tolerance: u64,
    now: Option<u64>,
)
    requires
        secret.len() > 0,
        hmac_sha256(vstd::utf8::encode_utf8(secret), signed_payload(timestamp, body)).len() > 0,
        tolerance == 0 || (now is Some && abs_diff(now->0, timestamp) <= tolerance),
    ensures
        webhook_accepted(
            body,
            Some(
                signature_header_for(
                    timestamp,
                    hmac_sha256(vstd::utf8::encode_utf8(secret), signed_payload(timestamp, body)),
                ),
            ),
            secret,
            tolerance,
            now,
        ),
{
    let tag = hmac_sha256(vstd::utf8::encode_utf8(secret), signed_payload(timestamp, body));
    let digits = crate::text::decimal(timestamp as nat);
    let hex = hex_lower(tag);
    lemma_decimal_digits(timestamp as nat);
    lemma_hex_lower(tag);
    lemma_hex_lower_decodes(tag);
    let a = seq!['t', '='] + digits;
    let b = seq!['v', '1', '='] + hex;
    let header = signature_header_for(timestamp, tag);
    assert(header =~= a.push(',') + b);
    assert forall|i: int| 0 <= i < a.len() implies #[trigger] a[i] != ',' by {
        if i >= 2 {
            assert(a[i] == digits[i - 2]);
            assert(is_digit(digits[i - 2]));
        }
    }
    assert forall|i: int| 0 <= i < b.len() implies #[trigger] b[i] != ',' by {
        if i >= 3 {
            assert(b[i] == hex[i - 3]);
            assert(is_hex_digit(hex[i - 3]));
        }
    }
    lemma_split_single(a, ',');
    lemma_split_append(a, b, ',');
    assert(split_on(header, ',') == seq![a, b]);
    assert(seq![a, b].drop_last() =~= seq![a]);
    assert(seq![a].drop_last() =~= Seq::<Seq<char>>::empty());
    // the timestamp part
    assert(a.last() == digits[digits.len() - 1]);
    lemma_trim_keeps(a);
    lemma_index_of_scan(a, '=', 1);
    assert(a.take(1) =~= seq!['t']);
    assert(a.skip(2) =~= digits);
    assert(digits[0] != '+');
    assert(digits_u64(digits) == Some(timestamp));
    // the signature part
    assert(hex.len() > 0);
    assert(b.last() == hex[hex.len() - 1]);
    lemma_trim_keeps(b);
    lemma_index_of_scan(b, '=', 2);
    assert(b.take(2) =~= seq!['v', '1']);
    assert(b.skip(3) =~= hex);
    let empty = SignatureFields { timestamp: None, signature: None };
    assert(split_once(a, '=') == Some((seq!['t'], digits)));
    assert(parse_u64(digits) == Some(timestamp));
    let after_a = SignatureFields { timestamp: Some(timestamp), signature: None };
    assert(read_part(empty, a) == after_a);
    assert(split_once(b, '=') == Some((seq!['v', '1'], hex)));
    assert(seq!['v', '1'] != seq!['t']) by {
        assert(seq!['v', '1'].len() != seq!['t'].len());
    }
    let after_b = SignatureFields { timestamp: Some(timestamp), signature: Some(hex) };
    assert(read_part(after_a, b) == after_b);
    assert(read_parts(seq![a]) == read_part(read_parts(Seq::<Seq<char>>::empty()), a));
    assert(read_parts(seq![a, b]) == read_part(read_parts(seq![a]), b));
    assert(signature_fields(header) == after_b);
    assert(!is_blank(header)) by {
        assert(header[0] == 't');
    }
}

/// Without options a webhook is judged with five minutes (300 seconds) of
/// tolerance.
pub proof fn lemma_default_tolerance_is_five_minutes(
    body: Seq<u8>,
    header: Option<Seq<char>>,
    secret: Seq<char>,
    now: Option<u64>,
)
    ensures
        webhook_accepted(body, header, secret, tolerance_of(None), now) == webhook_accepted(
            body,
            header,
            secret,
            300,
            now,
        ),
{
}

/// With a tolerance of 0 the clock plays no part.
pub proof fn lemma_zero_tolerance_ignores_clock(
    body: Seq<u8>,
    header: Option<Seq<char>>,
    secret: Seq<char>,
    now: Option<u64>,
)
    ensures
        webhook_accepted(body, header, secret, 0, now) == webhook_accepted(body, header, secret, 0, None),
{
}

/// A larger tolerance accepts every webhook that a smaller, non-zero one
/// accepts, and turning the check off (tolerance 0) accepts them all too.
pub proof fn lemma_wider_tolerance_accepts_more(
    body: Seq<u8>,
    header: Option<Seq<char>>,
    secret: Seq<char>,
    tolerance: u64,
    wider: u64,
    now: Option<u64>,
)
    requires
        0 < tolerance <= wider,
        webhook_accepted(body, header, secret, tolerance, now),
    ensures
        webhook_accepted(body, header, secret, wider, now),
        webhook_accepted(body, header, secret, 0, now),
{
}

// ---------------------------------------------------------------------------
// Trusted calls
// ---------------------------------------------------------------------------

/// `hex::decode` on ASCII codes; the `hex` crate decodes exactly as
/// `hex_decoded` says and fails otherwise.
#[verifier::external_body]
fn hex_decode(codes: &[u8]) -> (res: Option<Vec<u8>>)
    ensures
        match res {
            Some(v) => hex_decoded(codes@) == Some(v@),
            None => hex_decoded(codes@) is None,
        },
{
    hex::decode(codes).ok()
}

/// HMAC-SHA-256 of `message` under `key`, with the `hmac` crate over
/// `sha2::Sha256` (`new_from_slice`, `update`, `finalize`). HMAC takes keys
/// of any length, so `new_from_slice` does not fail; the tag is 32 bytes.
#[verifier::external_body]
fn hmac_sha256_tag(key: &[u8], message: &[u8]) -> (res: Option<Vec<u8>>)
    ensures
        res is Some,
        res matches Some(tag) ==> tag@ == hmac_sha256(key@, message@) && tag@.len() == 32,
{
    match <hmac::Hmac<sha2::Sha256> as Mac>::new_from_slice(key) {
        Ok(mut mac) => {
            mac.update(message);
            Some(mac.finalize().into_bytes().to_vec())
        },
        Err(_) => None,
    }
}

/// `subtle::ConstantTimeEq::ct_eq` on byte slices, turned into a `bool`:
/// true exactly when both slices hold the same bytes.
#[verifier::external_body]
fn constant_time_eq(a: &[u8], b: &[u8]) -> (res: bool)
    ensures
        res == (a@ == b@),
{
    a.ct_eq(b).into()
}

/// Seconds since the Unix epoch by the system clock
/// (`SystemTime::now().duration_since(UNIX_EPOCH)`); `None` when the clock
/// is before the epoch. Nothing is promised of the reading.
#[verifier::external_body]
fn seconds_since_unix_epoch() -> (res: Option<u64>) {
    std::time::SystemTime::now().duration_since(std::time::UNIX_EPOCH).ok().map(|d| d.as_secs())
}

/// The current Unix time in seconds, or an error when the system clock is
/// before the epoch.
pub fn unix_timestamp() -> (res: Result<u64, MakePayError>)
    ensures
        res is Err ==> crate::error::is_invalid_input(res, "System clock is before Unix epoch."@),
{
    match seconds_since_unix_epoch() {
        Some(secs) => Ok(secs),
        None => Err(MakePayError::InvalidInput("System clock is before Unix epoch.".to_owned())),
    }
}

// ---------------------------------------------------------------------------
// Header reading
// ---------------------------------------------------------------------------

/// A blank text trims to nothing from the front.
proof fn lemma_trim_start_blank(s: Seq<char>)
    requires
        is_blank(s),
    ensures
        trim_start_ws(s) == Seq::<char>::empty(),
    decreases s.len(),
{
    if s.len() > 0 {
        assert(is_white_space(s[0]));
        assert forall|i: int| 0 <= i < s.drop_first().len() implies is_white_space(
            #[trigger] s.drop_first()[i],
        ) by {
            assert(s.drop_first()[i] == s[i + 1]);
        }
        lemma_trim_start_blank(s.drop_first());
    } else {
        assert(s =~= Seq::<char>::empty());
    }
}

/// Blank text in front of `x` trims away.
proof fn lemma_trim_start_pad(a: Seq<char>, x: Seq<char>)
    requires
        is_blank(a),
    ensures
        trim_start_ws(a + x) == trim_start_ws(x),
    decreases a.len(),
{
    if a.len() > 0 {
        assert((a + x)[0] == a[0]);
        assert((a + x).drop_first() == a.drop_first() + x);
        assert forall|i: int| 0 <= i < a.drop_first().len() implies is_white_space(
            #[trigger] a.drop_first()[i],
        ) by {
            assert(a.drop_first()[i] == a[i + 1]);
        }
        lemma_trim_start_pad(a.drop_first(), x);
    } else {
        assert(a + x == x);
    }
}

/// Blank text behind `x` trims away.
proof fn lemma_trim_end_pad(x: Seq<char>, b: Seq<char>)
    requires
        is_blank(b),
    ensures
        trim_end_ws(x + b) == trim_end_ws(x),
    decreases b.len(),
{
    if b.len() > 0 {
        assert((x + b).last() == b.last());
        assert((x + b).drop_last() == x + b.drop_last());
        assert(is_white_space(b[b.len() - 1]));
        assert forall|i: int| 0 <= i < b.drop_last().len() implies is_white_space(
            #[trigger] b.drop_last()[i],
        ) by {
            assert(b.drop_last()[i] == b[i]);
        }
        lemma_trim_end_pad(x, b.drop_last());
    } else {
        assert(x + b == x);
    }
}

/// Trimming the front of `p + b` where `p` is not blank keeps `b` whole.
proof fn lemma_trim_start_keeps_tail(p: Seq<char>, b: Seq<char>)
    requires
        !is_blank(p),
    ensures
        trim_start_ws(p + b) == trim_start_ws(p) + b,
    decreases p.len(),
{
    assert((p + b)[0] == p[0]);
    if is_white_space(p[0]) {
        assert((p + b).drop_first() == p.drop_first() + b);
        let k = choose|i: int| 0 <= i < p.len() && !is_white_space(#[trigger] p[i]);
        assert(p.drop_first()[k - 1] == p[k]);
        lemma_trim_start_keeps_tail(p.drop_first(), b);
    }
}

/// Whitespace around a part of a header trims away: `a + p + b`, with `a`
/// and `b` blank, reads as `p` does.
pub proof fn lemma_padding_trims_away(a: Seq<char>, p: Seq<char>, b: Seq<char>)
    requires
        is_blank(a),
        is_blank(b),
    ensures
        trim_ws(a + p + b) == trim_ws(p),
{
    assert(a + p + b == a + (p + b));
    lemma_trim_start_pad(a, p + b);
    if is_blank(p) {
        assert forall|i: int| 0 <= i < (p + b).len() implies is_white_space(#[trigger] (p + b)[i]) by {
            if i < p.len() {
                assert((p + b)[i] == p[i]);
            } else {
                assert((p + b)[i] == b[i - p.len()]);
            }
        }
        lemma_trim_start_blank(p + b);
        lemma_trim_start_blank(p);
    } else {
        lemma_trim_start_keeps_tail(p, b);
        lemma_trim_end_pad(trim_start_ws(p), b);
    }
}

/// Reading lists of parts that agree once each part is trimmed gives the
/// same fields.
proof fn lemma_read_parts_trimmed(parts1: Seq<Seq<char>>, parts2: Seq<Seq<char>>)
    requires
        parts1.len() == parts2.len(),
        forall|i: int| 0 <= i < parts1.len() ==> trim_ws(#[trigger] parts1[i]) == trim_ws(parts2[i]),
    ensures
        read_parts(parts1) == read_parts(parts2),
    decreases parts1.len(),
{
    if parts1.len() > 0 {
        assert forall|i: int| 0 <= i < parts1.drop_last().len() implies trim_ws(
            #[trigger] parts1.drop_last()[i],
        ) == trim_ws(parts2.drop_last()[i]) by {
            assert(parts1.drop_last()[i] == parts1[i]);
            assert(parts2.drop_last()[i] == parts2[i]);
        }
        lemma_read_parts_trimmed(parts1.drop_last(), parts2.drop_last());
        assert(trim_ws(parts1[parts1.len() - 1]) == trim_ws(parts2[parts2.len() - 1]));
    }
}

/// Headers whose comma-separated parts agree once trimmed (such as a header
/// and the same header with spaces around its parts) give the same fields.
pub proof fn lemma_fields_ignore_part_spacing(header1: Seq<char>, header2: Seq<char>)
    requires
        split_on(header1, ',').len() == split_on(header2, ',').len(),
        forall|i: int|
            0 <= i < split_on(header1, ',').len() ==> trim_ws(#[trigger] split_on(header1, ',')[i])
                == trim_ws(split_on(header2, ',')[i]),
    ensures
        signature_fields(header1) == signature_fields(header2),
{
    lemma_read_parts_trimmed(split_on(header1, ','), split_on(header2, ','));
}

/// A blank header gives no timestamp.
proof fn lemma_blank_header_has_no_timestamp(header: Seq<char>)
    requires
        is_blank(header),
    ensures
        signature_fields(header).timestamp is None,
{
    assert forall|i: int| 0 <= i < header.len() implies #[trigger] header[i] != ',' by {
        assert(is_white_space(header[i]));
    }
    lemma_split_single(header, ',');
    lemma_trim_start_blank(header);
    let parts = seq![header];
    assert(parts.drop_last() =~= Seq::<Seq<char>>::empty());
    assert(parts.last() == header);
    assert(trim_ws(header) == Seq::<char>::empty());
    assert(index_of(Seq::<char>::empty(), '=') is None);
    assert(read_parts(parts) == read_part(read_parts(parts.drop_last()), header));
}

/// Whether a webhook is accepted depends on its header only through the
/// header's fields.
pub proof fn lemma_accepted_by_fields(
    body: Seq<u8>,
    header1: Seq<char>,
    header2: Seq<char>,
    secret: Seq<char>,
    tolerance: u64,
    now: Option<u64>,
)
    requires
        signature_fields(header1) == signature_fields(header2),
    ensures
        webhook_accepted(body, Some(header1), secret, tolerance, now) == webhook_accepted(
            body,
            Some(header2),
            secret,
            tolerance,
            now,
        ),
{
    if is_blank(header1) {
        lemma_blank_header_has_no_timestamp(header1);
    }
    if is_blank(header2) {
        lemma_blank_header_has_no_timestamp(header2);
    }
}

/// `parts` joined with commas.
pub open spec fn join_parts(parts: Seq<Seq<char>>) -> Seq<char>
    decreases parts.len(),
{
    if parts.len() == 0 {
        seq![]
    } else if parts.len() == 1 {
        parts[0]
    } else {
        join_parts(parts.drop_last()).push(',') + parts.last()
    }
}

/// No part of `parts` holds a comma.
pub open spec fn parts_without_commas(parts: Seq<Seq<char>>) -> bool {
    forall|i: int, j: int| 0 <= i < parts.len() && 0 <= j < parts[i].len() ==> #[trigger] parts[i][j] != ','
}

/// A part that the header syntax skips: no comma, and, once trimmed,
/// neither a `t=` nor a `v1=` field.
pub open spec fn unknown_part(part: Seq<char>) -> bool {
    &&& forall|i: int| 0 <= i < part.len() ==> #[trigger] part[i] != ','
    &&& match split_once(trim_ws(part), '=') {
        Some((key, _)) => key != seq!['t'] && key != seq!['v', '1'],
        None => true,
    }
}

/// Cutting comma-joined parts at commas gives the parts back.
proof fn lemma_split_join(parts: Seq<Seq<char>>)
    requires
        parts.len() > 0,
        parts_without_commas(parts),
    ensures
        split_on(join_parts(parts), ',') == parts,
    decreases parts.len(),
{
    if parts.len() == 1 {
        assert forall|j: int| 0 <= j < parts[0].len() implies #[trigger] parts[0][j] != ',' by {
            assert(parts[0][j] != ',');
        }
        lemma_split_single(parts[0], ',');
        assert(parts =~= seq![parts[0]]);
    } else {
        let init = parts.drop_last();
        assert forall|i: int, j: int| 0 <= i < init.len() && 0 <= j < init[i].len() implies #[trigger] init[i][j]
            != ',' by {
            assert(init[i] == parts[i]);
            assert(parts[i][j] != ',');
        }
        lemma_split_join(init);
        let last = parts.last();
        assert forall|j: int| 0 <= j < last.len() implies #[trigger] last[j] != ',' by {
            assert(parts[parts.len() - 1][j] != ',');
        }
        lemma_split_append(join_parts(init), last, ',');
        assert(init.push(last) == parts);
    }
}

/// The fields of comma-joined parts are what reading the parts gives.
proof fn lemma_fields_of_join(parts: Seq<Seq<char>>)
    requires
        parts_without_commas(parts),
    ensures
        signature_fields(join_parts(parts)) == read_parts(parts),
{
    if parts.len() == 0 {
        let empty = Seq::<char>::empty();
        assert(join_parts(parts) == empty);
        let split = split_on(empty, ',');
        assert(split == seq![empty]);
        assert(split.drop_last() =~= Seq::<Seq<char>>::empty());
        assert(trim_start_ws(empty) == empty);
        assert(trim_ws(empty) == empty);
        assert(index_of(empty, '=') is None);
        assert(split.last() == empty);
        assert(read_parts(split) == read_part(read_parts(split.drop_last()), empty));
        assert(read_parts(split.drop_last()) == read_parts(parts));
    } else {
        lemma_split_join(parts);
    }
}

/// Reading parts with a skipped part among them gives what reading them
/// without it gives.
proof fn lemma_read_parts_skip(before: Seq<Seq<char>>, part: Seq<char>, after: Seq<Seq<char>>)
    requires
        unknown_part(part),
    ensures
        read_parts(before.push(part) + after) == read_parts(before + after),
    decreases after.len(),
{
    if after.len() == 0 {
        assert(before.push(part) + after == before.push(part));
        assert(before + after == before);
        assert(before.push(part).drop_last() == before);
    } else {
        let with = before.push(part) + after;
        let without = before + after;
        assert(with.drop_last() == before.push(part) + after.drop_last());
        assert(without.drop_last() == before + after.drop_last());
        assert(with.last() == after.last());
        assert(without.last() == after.last());
        lemma_read_parts_skip(before, part, after.drop_last());
    }
}

/// A part that is neither a `t=` nor a `v1=` field is ignored wherever it
/// stands: a header with such a part among its comma-separated parts is
/// accepted exactly when the header without it is.
pub proof fn lemma_unknown_header_part_is_ignored(
    body: Seq<u8>,
    before: Seq<Seq<char>>,
    part: Seq<char>,
    after: Seq<Seq<char>>,
    secret: Seq<char>,
    tolerance: u64,
    now: Option<u64>,
)
    requires
        parts_without_commas(before),
        parts_without_commas(after),
        unknown_part(part),
    ensures
        webhook_accepted(body, Some(join_parts(before.push(part) + after)), secret, tolerance, now)
            == webhook_accepted(body, Some(join_parts(before + after)), secret, tolerance, now),
{
    let with = before.push(part) + after;
    let without = before + after;
    assert forall|i: int, j: int| 0 <= i < with.len() && 0 <= j < with[i].len() implies #[trigger] with[i][j]
        != ',' by {
        if i < before.len() {
            assert(with[i] == before[i]);
            assert(before[i][j] != ',');
        } else if i == before.len() {
            assert(with[i] == part);
        } else {
            assert(with[i] == after[i - before.len() - 1]);
            assert(after[i - before.len() - 1][j] != ',');
        }
    }
    assert forall|i: int, j: int| 0 <= i < without.len() && 0 <= j < without[i].len() implies #[trigger] without[i][j]
        != ',' by {
        if i < before.len() {
            assert(without[i] == before[i]);
            assert(before[i][j] != ',');
        } else {
            assert(without[i] == after[i - before.len()]);
            assert(after[i - before.len()][j] != ',');
        }
    }
    lemma_fields_of_join(with);
    lemma_fields_of_join(without);
    lemma_read_parts_skip(before, part, after);
    lemma_accepted_by_fields(body, join_parts(with), join_parts(without), secret, tolerance, now);
}

/// Whether `a` and `b` are the same hexadecimal digit, maybe in another
/// letter case.
pub open spec fn same_hex_digit(a: char, b: char) -> bool {
    ||| a == b
    ||| 'a' <= a <= 'f' && 'A' <= b <= 'F' && (b as u32) + 32 == (a as u32)
    ||| 'A' <= a <= 'F' && 'a' <= b <= 'f' && (b as u32) == (a as u32) + 32
}

/// The letter case of the hexadecimal digits of a signature makes no
/// difference: headers whose fields agree but for that are accepted alike.
pub proof fn lemma_signature_case_ignored(
    body: Seq<u8>,
    header1: Seq<char>,
    header2: Seq<char>,
    secret: Seq<char>,
    tolerance: u64,
    now: Option<u64>,
)
    requires
        signature_fields(header1).timestamp == signature_fields(header2).timestamp,
        signature_fields(header1).signature is Some == signature_fields(header2).signature is Some,
        signature_fields(header1).signature is Some ==> {
            let s1 = signature_fields(header1).signature->0;
            let s2 = signature_fields(header2).signature->0;
            &&& s1.len() == s2.len()
            &&& forall|i: int| 0 <= i < s1.len() ==> same_hex_digit(#[trigger] s1[i], s2[i])
        },
    ensures
        webhook_accepted(body, Some(header1), secret, tolerance, now) == webhook_accepted(
            body,
            Some(header2),
            secret,
            tolerance,
            now,
        ),
{
    if is_blank(header1) {
        lemma_blank_header_has_no_timestamp(header1);
    }
    if is_blank(header2) {
        lemma_blank_header_has_no_timestamp(header2);
    }
    if signature_fields(header1).signature is Some {
        let s1 = signature_fields(header1).signature->0;
        let s2 = signature_fields(header2).signature->0;
        let c1 = ascii_codes(s1);
        let c2 = ascii_codes(s2);
        assert forall|i: int| 0 <= i < s1.len() implies (is_hex_digit(#[trigger] s1[i])
            == is_hex_digit(s2[i])) && (is_hex_digit(s1[i]) ==> is_hex_byte(c1[i]) && is_hex_byte(
            c2[i],
        ) && hex_byte_value(c1[i]) == hex_byte_value(c2[i])) by {
            let a = s1[i];
            let b = s2[i];
            assert(same_hex_digit(a, b));
            assert(c1[i] == (a as u32) as u8);
            assert(c2[i] == (b as u32) as u8);
            if a != b {
                if 'a' <= a <= 'f' {
                    assert(97 <= (a as u32) <= 102);
                    assert(65 <= (b as u32) <= 70);
                } else {
                    assert(65 <= (a as u32) <= 70);
                    assert(97 <= (b as u32) <= 102);
                }
            }
        }
        if forall|i: int| 0 <= i < s1.len() ==> is_hex_digit(#[trigger] s1[i]) {
            assert forall|i: int| 0 <= i < s2.len() implies is_hex_digit(#[trigger] s2[i]) by {
                assert(is_hex_digit(s1[i]));
            }
            assert forall|i: int| 0 <= i < c1.len() implies is_hex_byte(#[trigger] c1[i]) by {
                assert(is_hex_digit(s1[i]));
            }
            assert forall|i: int| 0 <= i < c2.len() implies is_hex_byte(#[trigger] c2[i]) by {
                assert(is_hex_digit(s1[i]));
            }
            assert(hex_decoded(c1) =~= hex_decoded(c2)) by {
                if c1.len() % 2 == 0 {
                    let d1 = hex_decoded(c1)->0;
                    let d2 = hex_decoded(c2)->0;
                    assert forall|i: int| 0 <= i < d1.len() implies d1[i] == d2[i] by {
                        assert(is_hex_digit(s1[2 * i]));
                        assert(is_hex_digit(s1[2 * i + 1]));
                    }
                    assert(d1 =~= d2);
                }
            }
        } else {
            let k = choose|i: int| 0 <= i < s1.len() && !is_hex_digit(#[trigger] s1[i]);
            assert(!is_hex_digit(s2[k]));
        }
    }
}

proof fn lemma_index_of_scan(s: Seq<char>, c: char, i: int)
    requires
        0 <= i <= s.len(),
        forall|j: int| 0 <= j < i ==> s[j] != c,
        i == s.len() || s[i] == c,
    ensures
        index_of(s, c) == if i == s.len() {
            None::<int>
        } else {
            Some(i)
        },
    decreases s.len(),
{
    if s.len() > 0 && s[0] != c {
        assert forall|j: int| 0 <= j < i - 1 implies s.drop_first()[j] != c by {
            assert(s.drop_first()[j] == s[j + 1]);
        }
        if i < s.len() {
            assert(s.drop_first()[i - 1] == s[i]);
        }
        lemma_index_of_scan(s.drop_first(), c, i - 1);
    }
}

proof fn lemma_digits_value_grows(s: Seq<char>, k: int)
    requires
        0 <= k <= s.len(),
        forall|i: int| 0 <= i < s.len() ==> is_digit(#[trigger] s[i]),
    ensures
        digits_value(s.take(k)) <= digits_value(s),
    decreases s.len() - k,
{
    if k < s.len() {
        lemma_digits_value_grows(s, k + 1);
        assert(s.take(k + 1).drop_last() == s.take(k));
        assert(s.take(k + 1).last() == s[k]);
        assert(is_digit(s[k]));
        assert(digits_value(s.take(k + 1)) == digits_value(s.take(k)) * 10 + ((s[k] as u32)
            - 48) as nat);
        assert(digits_value(s.take(k)) <= digits_value(s.take(k)) * 10) by (nonlinear_arith);
    } else {
        assert(s.take(k) == s);
    }
}

fn parse_digits(d: &Vec<char>) -> (res: Option<u64>)
    ensures
        res == digits_u64(d@),
{
    let n = d.len();
    if n == 0 {
        return None;
    }
    let mut value: u64 = 0;
    let mut i: usize = 0;
    assert(d@.take(0) == Seq::<char>::empty());
    while i < n
        invariant
            i <= n,
            n == d.len(),
            n > 0,
            forall|j: int| 0 <= j < i ==> is_digit(#[trigger] d@[j]),
            value as nat == digits_value(d@.take(i as int)),
        decreases n - i,
    {
        let c = d[i];
        if !('0' <= c && c <= '9') {
            assert(!is_digit(d@[i as int]));
            return None;
        }
        let digit = (c as u32 - 48) as u64;
        assert(d@.take(i + 1).drop_last() == d@.take(i as int));
        assert(d@.take(i + 1).last() == c);
        assert(digits_value(d@.take(i + 1)) == digits_value(d@.take(i as int)) * 10 + digit);
        if value > 1844674407370955161 || (value == 1844674407370955161 && digit > 5) {
            assert(value * 10 + digit > u64::MAX) by (nonlinear_arith)
                requires
                    value > 1844674407370955161 || (value == 1844674407370955161 && digit > 5),
            ;
            assert(digits_u64(d@) is None) by {
                if forall|j: int| 0 <= j < d@.len() ==> is_digit(#[trigger] d@[j]) {
                    lemma_digits_value_grows(d@, i + 1);
                }
            }
            return None;
        }
        assert(value * 10 + digit <= u64::MAX) by (nonlinear_arith)
            requires
                !(value > 1844674407370955161 || (value == 1844674407370955161 && digit > 5)),
                digit <= 9,
        ;
        value = value * 10 + digit;
        i += 1;
    }
    assert(d@.take(n as int) == d@);
    Some(value)
}

/// `u64::from_str` on the characters `s`.
fn parse_u64_chars(s: &Vec<char>) -> (res: Option<u64>)
    ensures
        res == parse_u64(s@),
{
    let mut digits: Vec<char> = Vec::new();
    let start: usize = if s.len() > 0 && s[0] == '+' { 1 } else { 0 };
    let mut i = start;
    while i < s.len()
        invariant
            start <= i <= s.len(),
            start <= 1,
            digits@ == s@.subrange(start as int, i as int),
        decreases s.len() - i,
    {
        digits.push(s[i]);
        assert(s@.subrange(start as int, i + 1) == s@.subrange(start as int, i as int).push(
            s@[i as int],
        ));
        i += 1;
    }
    assert(digits@ == (if s@.len() > 0 && s@[0] == '+' {
        s@.drop_first()
    } else {
        s@
    }));
    parse_digits(&digits)
}

/// Reads one comma-separated part of a signature header into the fields.
fn read_part_exec(timestamp: &mut Option<u64>, signature: &mut Option<Vec<char>>, part: &Vec<char>)
    ensures
        ({
            let f = read_part(
                SignatureFields { timestamp: *old(timestamp), signature: opt_chars(*old(signature)) },
                part@,
            );
            *final(timestamp) == f.timestamp && opt_chars(*final(signature)) == f.signature
        }),
{
    let trimmed = trim_chars(part);
    let n = trimmed.len();
    let mut i: usize = 0;
    while i < n && trimmed[i] != '='
        invariant
            i <= n,
            n == trimmed.len(),
            forall|j: int| 0 <= j < i ==> trimmed@[j] != '=',
        decreases n - i,
    {
        i += 1;
    }
    proof {
        lemma_index_of_scan(trimmed@, '=', i as int);
    }
    if i == n {
        return;
    }
    let mut key: Vec<char> = Vec::new();
    let mut k: usize = 0;
    while k < i
        invariant
            k <= i < n,
            n == trimmed.len(),
            key@ == trimmed@.take(k as int),
        decreases i - k,
    {
        key.push(trimmed[k]);
        assert(trimmed@.take(k + 1) == trimmed@.take(k as int).push(trimmed@[k as int]));
        k += 1;
    }
    let mut value: Vec<char> = Vec::new();
    let mut m: usize = i + 1;
    while m < n
        invariant
            i < m <= n,
            n == trimmed.len(),
            value@ == trimmed@.subrange(i + 1, m as int),
        decreases n - m,
    {
        value.push(trimmed[m]);
        assert(trimmed@.subrange(i + 1, m + 1) == trimmed@.subrange(i + 1, m as int).push(
            trimmed@[m as int],
        ));
        m += 1;
    }
    assert(value@ == trimmed@.skip(i + 1));
    if key.len() == 1 && key[0] == 't' {
        assert(key@ == seq!['t']);
        *timestamp = parse_u64_chars(&value);
    } else if key.len() == 2 && key[0] == 'v' && key[1] == '1' {
        assert(key@ == seq!['v', '1']);
        *signature = Some(value);
    } else {
        assert(key@ != seq!['t']);
        assert(key@ != seq!['v', '1']);
    }
}

/// The view of an optional character vector.
pub open spec fn opt_chars(v: Option<Vec<char>>) -> Option<Seq<char>> {
    match v {
        Some(cs) => Some(cs@),
        None => None,
    }
}

/// Reads the timestamp and signature from a signature header.
fn read_signature_header(header: &Vec<char>) -> (res: (Option<u64>, Option<Vec<char>>))
    ensures
        res.0 == signature_fields(header@).timestamp,
        opt_chars(res.1) == signature_fields(header@).signature,
{
    let mut timestamp: Option<u64> = None;
    let mut signature: Option<Vec<char>> = None;
    let mut current: Vec<char> = Vec::new();
    assert(header@.take(0) == Seq::<char>::empty());
    for i in 0..header.len()
        invariant
            ({
                let parts = split_on(header@.take(i as int), ',');
                &&& parts.len() > 0
                &&& current@ == parts.last()
                &&& read_parts(parts.drop_last()) == (SignatureFields {
                    timestamp,
                    signature: opt_chars(signature),
                })
            }),
    {
        let c = header[i];
        let ghost prefix = header@.take(i as int);
        let ghost parts = split_on(prefix, ',');
        assert(header@.take(i + 1).drop_last() == prefix);
        assert(header@.take(i + 1).last() == c);
        if c == ',' {
            read_part_exec(&mut timestamp, &mut signature, &current);
            current = Vec::new();
            assert(split_on(header@.take(i + 1), ',') == parts.push(seq![]));
            assert(parts.push(seq![]).drop_last() == parts);
        } else {
            current.push(c);
            let ghost next = parts.update(parts.len() - 1, parts.last().push(c));
            assert(split_on(header@.take(i + 1), ',') == next);
            assert(next.drop_last() == parts.drop_last());
        }
    }
    read_part_exec(&mut timestamp, &mut signature, &current);
    assert(header@.take(header.len() as int) == header@);
    (timestamp, signature)
}

// ---------------------------------------------------------------------------
// Verification
// ---------------------------------------------------------------------------

fn all_hex_digits(cs: &Vec<char>) -> (res: bool)
    ensures
        res == (forall|i: int| 0 <= i < cs@.len() ==> is_hex_digit(#[trigger] cs@[i])),
{
    for i in 0..cs.len()
        invariant
            forall|j: int| 0 <= j < i ==> is_hex_digit(#[trigger] cs@[j]),
    {
        let c = cs[i];
        if !(('0' <= c && c <= '9') || ('a' <= c && c <= 'f') || ('A' <= c && c <= 'F')) {
            return false;
        }
    }
    true
}

fn ascii_codes_of(cs: &Vec<char>) -> (res: Vec<u8>)
    ensures
        res@ == ascii_codes(cs@),
{
    let mut out: Vec<u8> = Vec::new();
    for i in 0..cs.len()
        invariant
            out@ == ascii_codes(cs@.take(i as int)),
    {
        out.push((cs[i] as u32) as u8);
        assert(ascii_codes(cs@.take(i + 1)) == ascii_codes(cs@.take(i as int)).push(
            (cs@[i as int] as u32) as u8,
        ));
    }
    assert(cs@.take(cs.len() as int) == cs@);
    out
}

fn push_decimal_ascii(out: &mut Vec<u8>, n: u64)
    ensures
        final(out)@ == old(out)@ + decimal_ascii(n as nat),
    decreases n,
{
    if n >= 10 {
        push_decimal_ascii(out, n / 10);
    }
    out.push((n % 10) as u8 + 0x30);
}

fn signed_payload_bytes(timestamp: u64, body: &[u8]) -> (res: Vec<u8>)
    ensures
        res@ == signed_payload(timestamp, body@),
{
    let mut out: Vec<u8> = Vec::new();
    push_decimal_ascii(&mut out, timestamp);
    out.push(0x2e);
    let ghost head = out@;
    for i in 0..body.len()
        invariant
            out@ == head + body@.take(i as int),
    {
        out.push(body[i]);
        assert(body@.take(i + 1) == body@.take(i as int).push(body@[i as int]));
    }
    assert(body@.take(body.len() as int) == body@);
    assert(head == decimal_ascii(timestamp as nat).push(0x2e));
    out
}

/// Verifies a webhook against the clock reading `now`: true exactly when
/// `webhook_accepted` holds. `now` is only consulted when the tolerance is
/// not 0.
pub fn verify_webhook_at(
    raw_body: &[u8],
    signature_header: Option<&str>,
    secret: &str,
    options: Option<WebhookVerificationOptions>,
    now: Option<u64>,
) -> (res: bool)
    ensures
        res == webhook_accepted(
            raw_body@,
            opt_view(signature_header),
            secret@,
            tolerance_of(options),
            now,
        ),
{
    let header = match signature_header {
        Some(h) => h,
        None => return false,
    };
    let header_chars = chars_of(header);
    if chars_are_blank(&header_chars) || secret.is_empty() {
        return false;
    }
    let (timestamp, signature) = read_signature_header(&header_chars);
    let timestamp = match timestamp {
        Some(t) => t,
        None => return false,
    };
    let signature = match signature {
        Some(s) => s,
        None => return false,
    };
    if signature.len() == 0 || !all_hex_digits(&signature) {
        return false;
    }
    let tolerance_seconds = match options {
        Some(o) => o.tolerance_seconds,
        None => WebhookVerificationOptions::default().tolerance_seconds,
    };
    if tolerance_seconds > 0 {
        let now = match now {
            Some(t) => t,
            None => return false,
        };
        let distance = if now >= timestamp {
            now - timestamp
        } else {
            timestamp - now
        };
        if distance > tolerance_seconds {
            return false;
        }
    }
    let codes = ascii_codes_of(&signature);
    let actual = match hex_decode(codes.as_slice()) {
        Some(a) => a,
        None => return false,
    };
    let payload = signed_payload_bytes(timestamp, raw_body);
    let expected = match hmac_sha256_tag(secret.as_bytes(), payload.as_slice()) {
        Some(e) => e,
        None => return false,
    };
    actual.len() == expected.len() && constant_time_eq(actual.as_slice(), expected.as_slice())
}

/// Verifies a webhook's signature header against its raw body and the
/// webhook secret, checking the timestamp against the system clock unless
/// the tolerance is 0.
///
/// The result is what `verify_webhook_at` gives for some clock reading:
/// a body that is not correctly signed is always refused, and with a
/// tolerance of 0 a correctly signed body is always accepted.
pub fn verify_webhook(
    raw_body: &[u8],
    signature_header: Option<&str>,
    secret: &str,
    options: Option<WebhookVerificationOptions>,
) -> (res: bool)
    ensures
        exists|now: Option<u64>|
            res == webhook_accepted(
                raw_body@,
                opt_view(signature_header),
                secret@,
                tolerance_of(options),
                now,
            ),
        tolerance_of(options) == 0 ==> res == webhook_accepted(
            raw_body@,
            opt_view(signature_header),
            secret@,
            0,
            None,
        ),
{
    let tolerance_seconds = match options {
        Some(o) => o.tolerance_seconds,
        None => WebhookVerificationOptions::default().tolerance_seconds,
    };
    let now = if tolerance_seconds > 0 {
        match unix_timestamp() {
            Ok(t) => Some(t),
            Err(_) => None,
        }
    } else {
        None
    };
    verify_webhook_at(raw_body, signature_header, secret, options, now)
}

} // verus!
