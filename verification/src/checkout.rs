//! Hosted and embedded checkout URLs.

use vstd::prelude::*;
use vstd::string::*;

use crate::error::{assert_non_empty, is_invalid_input, MakePayError};
use crate::text::{is_blank, normalize_base_url, normalized_base_url, opt_view};
use crate::url_model::{
    add_pair_room, add_push_room, is_special_scheme, pair_room, push_room, scheme_is_special,
    url_byte_len, url_cannot_be_a_base, url_fits, url_parse_accepts, url_scheme,
    url_serialization, ParsedUrl, UrlEdit, UrlRecipe,
};
use vstd::utf8::encode_utf8;

verus! {

/// Where the MakePay API lives unless a client is told otherwise.
pub const DEFAULT_BASE_URL: &'static str = "https://www.makecrypto.io";

/// Where hosted checkout pages live unless a caller says otherwise.
pub const DEFAULT_CHECKOUT_BASE_URL: &'static str = "https://makepay.io";

/// The text of the error for a base URL that cannot take path segments.
pub open spec fn cannot_be_base_message() -> Seq<char> {
    "MakePay URL cannot be a base URL."@
}

/// The text of the error for a URL that would grow past what the `url`
/// crate can hold.
pub open spec fn url_too_long_message() -> Seq<char> {
    "MakePay URL is too long."@
}

/// The text of the error for a blank payment link UID.
pub open spec fn payment_uid_message() -> Seq<char> {
    "Payment link UID is required."@
}

/// The text of the error for a blank donation slug.
pub open spec fn donation_slug_message() -> Seq<char> {
    "Donation slug is required."@
}

/// The checkout base URL that is used: the one given, else the default.
pub open spec fn checkout_base_or_default(base_url: Option<&str>) -> Seq<char> {
    match base_url {
        Some(b) => b@,
        None => DEFAULT_CHECKOUT_BASE_URL@,
    }
}

/// The query edit for an optional `(name, value)` pair: none when the pair
/// is absent or its value is empty.
pub open spec fn query_edits(query: Option<(Seq<char>, Seq<char>)>) -> Seq<UrlEdit> {
    match query {
        Some((name, value)) => if value.len() > 0 {
            seq![UrlEdit::AppendPair(name, value)]
        } else {
            seq![]
        },
        None => seq![],
    }
}

/// The path edits for a list of segments, one push per segment.
pub open spec fn segment_edits(segments: Seq<Seq<char>>) -> Seq<UrlEdit>
    decreases segments.len(),
{
    if segments.len() == 0 {
        seq![]
    } else {
        segment_edits(segments.drop_last()).push(UrlEdit::PushSegment(segments.last()))
    }
}

/// The most bytes pushing `segments` adds to a URL (see `push_room`).
pub open spec fn segments_room(segments: Seq<Seq<char>>, special: bool) -> nat
    decreases segments.len(),
{
    if segments.len() == 0 {
        0
    } else {
        segments_room(segments.drop_last(), special) + push_room(
            encode_utf8(segments.last()),
            special,
        )
    }
}

/// The most bytes appending the optional query pair adds to a URL.
pub open spec fn query_room(query: Option<(Seq<char>, Seq<char>)>) -> nat {
    match query {
        Some((name, value)) => if value.len() > 0 {
            pair_room(encode_utf8(name), encode_utf8(value))
        } else {
            0
        },
        None => 0,
    }
}

/// The room of a prefix of `segments` is at most the room of all of them.
pub proof fn lemma_segments_room_prefix(segments: Seq<Seq<char>>, special: bool, i: int)
    requires
        0 <= i <= segments.len(),
    ensures
        segments_room(segments.take(i), special) <= segments_room(segments, special),
    decreases segments.len(),
{
    if i < segments.len() {
        assert(segments.drop_last().take(i) == segments.take(i));
        lemma_segments_room_prefix(segments.drop_last(), special, i);
    } else {
        assert(segments.take(i) == segments);
    }
}

/// The text a checkout URL is parsed from: the base without trailing
/// slashes, then one slash.
pub open spec fn checkout_source(base_url: Seq<char>) -> Seq<char> {
    normalized_base_url(base_url).push('/')
}

/// The checkout URL after parsing and clearing its path.
pub open spec fn checkout_root(base_url: Seq<char>) -> UrlRecipe {
    UrlRecipe { source: checkout_source(base_url), edits: seq![UrlEdit::SetPath(seq![])] }
}

/// The checkout URL with its path segments and optional query pair.
pub open spec fn checkout_recipe(
    base_url: Seq<char>,
    segments: Seq<Seq<char>>,
    query: Option<(Seq<char>, Seq<char>)>,
) -> UrlRecipe {
    UrlRecipe {
        source: checkout_source(base_url),
        edits: seq![UrlEdit::SetPath(seq![])] + segment_edits(segments) + query_edits(query),
    }
}

/// What an operation that produces a text (a URL or a snippet) gives.
pub enum Built {
    /// The text.
    Text(Seq<char>),
    /// A base URL is not a URL.
    UrlError,
    /// An argument is unusable; the error says why.
    InvalidInput(Seq<char>),
}

/// `res` is what an operation that produces a text returns for `outcome`.
pub open spec fn answers(res: Result<String, MakePayError>, outcome: Built) -> bool {
    match outcome {
        Built::Text(text) => res matches Ok(s) && s@ == text,
        Built::UrlError => res matches Err(MakePayError::Url(_)),
        Built::InvalidInput(message) => is_invalid_input(res, message),
    }
}

/// `outcome`, unless `value` is blank, in which case the `message` error.
pub open spec fn required(value: Seq<char>, message: Seq<char>, outcome: Built) -> Built {
    if is_blank(value) {
        Built::InvalidInput(message)
    } else {
        outcome
    }
}

/// The outcome of building the checkout URL from `base_url`, `segments`
/// and `query`.
pub open spec fn checkout_url(
    base_url: Seq<char>,
    segments: Seq<Seq<char>>,
    query: Option<(Seq<char>, Seq<char>)>,
) -> Built {
    let parsed = UrlRecipe { source: checkout_source(base_url), edits: seq![] };
    if !url_parse_accepts(checkout_source(base_url)) {
        Built::UrlError
    } else if !url_fits(url_byte_len(parsed) + 1) {
        Built::InvalidInput(url_too_long_message())
    } else if url_cannot_be_a_base(checkout_root(base_url)) {
        Built::InvalidInput(cannot_be_base_message())
    } else if !url_fits(
        url_byte_len(checkout_root(base_url)) + segments_room(
            segments,
            is_special_scheme(url_scheme(checkout_root(base_url))),
        ) + query_room(query),
    ) {
        Built::InvalidInput(url_too_long_message())
    } else {
        Built::Text(url_serialization(checkout_recipe(base_url, segments, query)))
    }
}

/// The query pair that tells an embedded page its parent's origin.
pub open spec fn parent_origin_query(parent_origin: Option<Seq<char>>) -> Option<(Seq<char>, Seq<char>)> {
    match parent_origin {
        Some(origin) => Some(("parentOrigin"@, origin)),
        None => None,
    }
}

/// The hosted checkout page of payment link `uid` under `base_url`.
pub open spec fn hosted_checkout_url(uid: Seq<char>, base_url: Seq<char>) -> Built {
    required(uid, payment_uid_message(), checkout_url(base_url, seq!["payment"@, uid], None))
}

/// The hosted page of donation `slug` under `base_url`.
pub open spec fn hosted_donation_url(slug: Seq<char>, base_url: Seq<char>) -> Built {
    required(slug, donation_slug_message(), checkout_url(base_url, seq!["donations"@, slug], None))
}

/// The embeddable checkout page of payment link `uid` under `base_url`.
pub open spec fn embedded_checkout_url(
    uid: Seq<char>,
    base_url: Seq<char>,
    parent_origin: Option<Seq<char>>,
) -> Built {
    required(
        uid,
        payment_uid_message(),
        checkout_url(base_url, seq!["embed"@, "payment"@, uid], parent_origin_query(parent_origin)),
    )
}

/// The embeddable page of donation `slug` under `base_url`.
pub open spec fn embedded_donation_url(
    slug: Seq<char>,
    base_url: Seq<char>,
    parent_origin: Option<Seq<char>>,
) -> Built {
    required(
        slug,
        donation_slug_message(),
        checkout_url(
            base_url,
            seq!["embed"@, "donations"@, slug],
            parent_origin_query(parent_origin),
        ),
    )
}

/// The checkout modal script under `base_url`.
pub open spec fn modal_script_url(base_url: Seq<char>) -> Built {
    checkout_url(base_url, seq!["modal"@, "makepay.js"@], None)
}

/// A trailing slash on a checkout base URL makes no difference to the URLs
/// built under it.
pub proof fn lemma_checkout_url_ignores_trailing_slash(
    base_url: Seq<char>,
    segments: Seq<Seq<char>>,
    query: Option<(Seq<char>, Seq<char>)>,
)
    ensures
        checkout_url(base_url.push('/'), segments, query) == checkout_url(base_url, segments, query),
{
    assert(base_url.push('/').drop_last() == base_url);
}

/// The view of an optional `(name, value)` pair of texts.
pub open spec fn query_view(query: Option<(&str, &str)>) -> Option<(Seq<char>, Seq<char>)> {
    match query {
        Some((name, value)) => Some((name@, value@)),
        None => None,
    }
}

/// Builds `base_url/segment/…[?name=value]` with the `url` crate: the base
/// loses its trailing slashes and its path, every segment is pushed as one
/// percent-encoded path segment, and the pair is appended to the query when
/// its value is not empty. Edits that could take the URL past the
/// `u32::MAX` bytes the `url` crate can hold are refused before it sees
/// them.
fn build_checkout_url(base_url: &str, segments: &Vec<&str>, query: Option<(&str, &str)>) -> (res:
    Result<String, MakePayError>)
    ensures
        answers(res, checkout_url(base_url@, segments@.map_values(|s: &str| s@), query_view(query))),
{
    let ghost segs = segments@.map_values(|s: &str| s@);
    let mut source = normalize_base_url(base_url);
    crate::text::push_char(&mut source, '/');
    let mut url = match ParsedUrl::parse(source.as_str()) {
        Ok(url) => url,
        Err(e) => return Err(MakePayError::Url(e)),
    };
    proof {
        reveal_strlit("MakePay URL is too long.");
        assert(url@ == (UrlRecipe { source: checkout_source(base_url@), edits: seq![] }));
    }
    let parsed_len = url.byte_len();
    if parsed_len as u64 >= 0xFFFF_FFFF {
        return Err(MakePayError::InvalidInput("MakePay URL is too long.".to_owned()));
    }
    url.clear_path();
    proof {
        assert(url@.edits =~= seq![UrlEdit::SetPath(seq![])]);
        assert(url@ == checkout_root(base_url@));
    }
    if url.cannot_be_a_base() {
        proof { reveal_strlit("MakePay URL cannot be a base URL."); }
        return Err(MakePayError::InvalidInput("MakePay URL cannot be a base URL.".to_owned()));
    }
    let special = scheme_is_special(url.scheme());
    let root_len = url.byte_len();
    let mut total: u64 = root_len as u64;
    for i in 0..segments.len()
        invariant
            segs == segments@.map_values(|s: &str| s@),
            special == is_special_scheme(url_scheme(checkout_root(base_url@))),
            total == url_byte_len(checkout_root(base_url@)) + segments_room(
                segs.take(i as int),
                special,
            ),
            url_fits(total as nat),
            url_parse_accepts(checkout_source(base_url@)),
            url_fits(url_byte_len(UrlRecipe { source: checkout_source(base_url@), edits: seq![] }) + 1),
            !url_cannot_be_a_base(checkout_root(base_url@)),
    {
        proof {
            let next = segs.take(i + 1);
            assert(next.drop_last() == segs.take(i as int));
            assert(next.last() == segments@[i as int]@);
            assert(segments_room(next, special) == segments_room(segs.take(i as int), special)
                + push_room(segments@[i as int].spec_bytes(), special));
        }
        match add_push_room(total, segments[i], special) {
            Some(t) => total = t,
            None => {
                proof {
                    lemma_segments_room_prefix(segs, special, i + 1);
                    reveal_strlit("MakePay URL is too long.");
                }
                return Err(MakePayError::InvalidInput("MakePay URL is too long.".to_owned()));
            },
        }
    }
    assert(segs.take(segments.len() as int) == segs);
    let query_fits = match query {
        Some((key, value)) => value.is_empty() || add_pair_room(total, key, value).is_some(),
        None => true,
    };
    if !query_fits {
        return Err(MakePayError::InvalidInput("MakePay URL is too long.".to_owned()));
    }
    for i in 0..segments.len()
        invariant
            segs == segments@.map_values(|s: &str| s@),
            special == is_special_scheme(url_scheme(checkout_root(base_url@))),
            special == is_special_scheme(url_scheme(url@)),
            !url_cannot_be_a_base(url@),
            url_fits(
                url_byte_len(checkout_root(base_url@)) + segments_room(segs, special) + query_room(
                    query_view(query),
                ),
            ),
            url_byte_len(url@) <= url_byte_len(checkout_root(base_url@)) + segments_room(
                segs.take(i as int),
                special,
            ),
            url@ == (UrlRecipe {
                source: checkout_source(base_url@),
                edits: seq![UrlEdit::SetPath(seq![])] + segment_edits(segs.take(i as int)),
            }),
    {
        assert(segs.take(i + 1).drop_last() == segs.take(i as int));
        assert(segs.take(i + 1).last() == segments@[i as int]@);
        proof { lemma_segments_room_prefix(segs, special, i + 1); }
        let pushed = url.push_path_segment(segments[i]);
        assert(pushed is Ok);
    }
    let ghost pushed_edits = seq![UrlEdit::SetPath(seq![])] + segment_edits(segs);
    if let Some((key, value)) = query {
        if !value.is_empty() {
            url.append_query_pair(key, value);
            assert(pushed_edits.push(UrlEdit::AppendPair(key@, value@)) =~= pushed_edits
                + query_edits(query_view(query)));
        } else {
            assert(pushed_edits =~= pushed_edits + query_edits(query_view(query)));
        }
    } else {
        assert(pushed_edits =~= pushed_edits + query_edits(query_view(query)));
    }
    assert(url@ == checkout_recipe(base_url@, segs, query_view(query)));
    Ok(url.serialize())
}

/// The hosted checkout page of a payment link: `base/payment/<uid>`, with
/// `https://makepay.io` as the base when none is given.
pub fn build_hosted_checkout_url(payment_uid: &str, base_url: Option<&str>) -> (res: Result<
    String,
    MakePayError,
>)
    ensures
        answers(res, hosted_checkout_url(payment_uid@, checkout_base_or_default(base_url))),
{
    proof { reveal_strlit("Payment link UID is required."); }
    assert_non_empty(payment_uid, "Payment link UID is required.")?;
    let base = match base_url {
        Some(b) => b,
        None => DEFAULT_CHECKOUT_BASE_URL,
    };
    let segments = vec!["payment", payment_uid];
    proof {
        assert(segments@.map_values(|s: &str| s@) == seq!["payment"@, payment_uid@]);
    }
    build_checkout_url(base, &segments, None)
}

/// The hosted page of a donation: `base/donations/<slug>`.
pub fn build_hosted_donation_url(donation_slug: &str, base_url: Option<&str>) -> (res: Result<
    String,
    MakePayError,
>)
    ensures
        answers(res, hosted_donation_url(donation_slug@, checkout_base_or_default(base_url))),
{
    proof { reveal_strlit("Donation slug is required."); }
    assert_non_empty(donation_slug, "Donation slug is required.")?;
    let base = match base_url {
        Some(b) => b,
        None => DEFAULT_CHECKOUT_BASE_URL,
    };
    let segments = vec!["donations", donation_slug];
    proof {
        assert(segments@.map_values(|s: &str| s@) == seq!["donations"@, donation_slug@]);
    }
    build_checkout_url(base, &segments, None)
}

/// The embeddable checkout page of a payment link:
/// `base/embed/payment/<uid>`, with `?parentOrigin=<origin>` when a
/// non-empty origin is given.
pub fn build_embedded_checkout_url(
    payment_uid: &str,
    base_url: Option<&str>,
    parent_origin: Option<&str>,
) -> (res: Result<String, MakePayError>)
    ensures
        answers(
            res,
            embedded_checkout_url(
                payment_uid@,
                checkout_base_or_default(base_url),
                opt_view(parent_origin),
            ),
        ),
{
    proof { reveal_strlit("Payment link UID is required."); }
    assert_non_empty(payment_uid, "Payment link UID is required.")?;
    let base = match base_url {
        Some(b) => b,
        None => DEFAULT_CHECKOUT_BASE_URL,
    };
    let segments = vec!["embed", "payment", payment_uid];
    proof {
        assert(segments@.map_values(|s: &str| s@) == seq!["embed"@, "payment"@, payment_uid@]);
    }
    let query = match parent_origin {
        Some(origin) => Some(("parentOrigin", origin)),
        None => None,
    };
    build_checkout_url(base, &segments, query)
}

/// The embeddable page of a donation: `base/embed/donations/<slug>`, with
/// `?parentOrigin=<origin>` when a non-empty origin is given.
pub fn build_embedded_donation_url(
    donation_slug: &str,
    base_url: Option<&str>,
    parent_origin: Option<&str>,
) -> (res: Result<String, MakePayError>)
    ensures
        answers(
            res,
            embedded_donation_url(
                donation_slug@,
                checkout_base_or_default(base_url),
                opt_view(parent_origin),
            ),
        ),
{
    proof { reveal_strlit("Donation slug is required."); }
    assert_non_empty(donation_slug, "Donation slug is required.")?;
    let base = match base_url {
        Some(b) => b,
        None => DEFAULT_CHECKOUT_BASE_URL,
    };
    let segments = vec!["embed", "donations", donation_slug];
    proof {
        assert(segments@.map_values(|s: &str| s@) == seq!["embed"@, "donations"@, donation_slug@]);
    }
    let query = match parent_origin {
        Some(origin) => Some(("parentOrigin", origin)),
        None => None,
    };
    build_checkout_url(base, &segments, query)
}

/// The script that opens checkout in a modal: `base/modal/makepay.js`.
pub fn build_modal_script_url(base_url: Option<&str>) -> (res: Result<String, MakePayError>)
    ensures
        answers(res, modal_script_url(checkout_base_or_default(base_url))),
{
    let base = match base_url {
        Some(b) => b,
        None => DEFAULT_CHECKOUT_BASE_URL,
    };
    let segments = vec!["modal", "makepay.js"];
    proof {
        assert(segments@.map_values(|s: &str| s@) == seq!["modal"@, "makepay.js"@]);
    }
    build_checkout_url(base, &segments, None)
}

} // verus!
