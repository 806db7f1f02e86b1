//! Client configuration: building a client, its checkout helpers and the
//! URLs and paths of its API requests.

use vstd::prelude::*;
use vstd::string::*;

use crate::checkout::{
    answers, build_embedded_checkout_url, build_embedded_donation_url, build_hosted_checkout_url,
    build_hosted_donation_url, build_modal_script_url, embedded_checkout_url,
    embedded_donation_url, hosted_checkout_url, hosted_donation_url, modal_script_url, required,
    Built, DEFAULT_BASE_URL, DEFAULT_CHECKOUT_BASE_URL,
};
use crate::error::{assert_non_empty, MakePayError};
use crate::html::{
    build_embed_button_html, build_iframe_html, button_label_or_default, checkout_iframe,
    embed_button, iframe_title_or_default,
};
use crate::text::{is_blank, normalize_base_url, normalized_base_url, opt_view, push_str};
use crate::url_model::{
    add_pair_room, encode_path_segment, form_urlencoded, pair_room, url_byte_len, url_fits,
    url_parse_accepts, url_serialization, ParsedUrl, UrlEdit, UrlRecipe,
};

verus! {

/// The version of this library, sent in the `User-Agent` of API requests.
pub const VERSION: &'static str = "0.3.0";

/// What a builder has been told so far.
pub struct BuilderSettings {
    pub base_url: Seq<char>,
    pub checkout_base_url: Seq<char>,
    pub key_id: Option<Seq<char>>,
    pub key_secret: Option<Seq<char>>,
}

/// What a client is configured with.
pub struct ClientConfig {
    pub base_url: Seq<char>,
    pub checkout_base_url: Seq<char>,
    pub key_id: Seq<char>,
    pub key_secret: Seq<char>,
}

/// A configuration that a client can have: both base URLs are URLs
/// without trailing slashes, and both credentials are present.
pub open spec fn config_valid(config: ClientConfig) -> bool {
    &&& !is_blank(config.base_url)
    &&& !is_blank(config.checkout_base_url)
    &&& config.base_url == normalized_base_url(config.base_url)
    &&& config.checkout_base_url == normalized_base_url(config.checkout_base_url)
    &&& url_parse_accepts(config.base_url)
    &&& url_parse_accepts(config.checkout_base_url)
    &&& !is_blank(config.key_id)
    &&& !is_blank(config.key_secret)
}

/// What building a client gives.
pub enum ClientBuild {
    Client(ClientConfig),
    UrlError,
    InvalidInput(Seq<char>),
}

/// An optional text, empty when absent.
pub open spec fn or_empty(s: Option<Seq<char>>) -> Seq<char> {
    match s {
        Some(t) => t,
        None => seq![],
    }
}

/// What building a client from `settings` gives: the base URLs lose their
/// trailing slashes; then, in this order, a blank base URL, a blank
/// checkout base URL, a base URL that is not a URL, a checkout base URL
/// that is not a URL, a missing key ID and a missing key secret are
/// refused.
pub open spec fn client_build(settings: BuilderSettings) -> ClientBuild {
    let base_url = normalized_base_url(settings.base_url);
    let checkout_base_url = normalized_base_url(settings.checkout_base_url);
    let key_id = or_empty(settings.key_id);
    let key_secret = or_empty(settings.key_secret);
    if is_blank(base_url) {
        ClientBuild::InvalidInput("MakePay base URL is required."@)
    } else if is_blank(checkout_base_url) {
        ClientBuild::InvalidInput("MakePay checkout base URL is required."@)
    } else if !url_parse_accepts(base_url) {
        ClientBuild::UrlError
    } else if !url_parse_accepts(checkout_base_url) {
        ClientBuild::UrlError
    } else if is_blank(key_id) {
        ClientBuild::InvalidInput("MakePay API key ID is required."@)
    } else if is_blank(key_secret) {
        ClientBuild::InvalidInput("MakePay API key secret is required."@)
    } else {
        ClientBuild::Client(ClientConfig { base_url, checkout_base_url, key_id, key_secret })
    }
}

/// `res` is what `build` returns for `outcome`.
pub open spec fn build_answers(res: Result<MakePayClient, MakePayError>, outcome: ClientBuild) -> bool {
    match outcome {
        ClientBuild::Client(config) => res matches Ok(client) && client@ == config,
        ClientBuild::UrlError => res matches Err(MakePayError::Url(_)),
        ClientBuild::InvalidInput(message) => res matches Err(MakePayError::InvalidInput(m))
            && m@ == message,
    }
}

/// The settings of a fresh builder.
pub open spec fn default_settings() -> BuilderSettings {
    BuilderSettings {
        base_url: DEFAULT_BASE_URL@,
        checkout_base_url: DEFAULT_CHECKOUT_BASE_URL@,
        key_id: None,
        key_secret: None,
    }
}

/// A fresh builder points at MakePay's API, `https://www.makecrypto.io`,
/// and at its hosted checkout, `https://makepay.io`, and has no
/// credentials.
pub proof fn lemma_fresh_builder_locations()
    ensures
        default_settings().base_url == "https://www.makecrypto.io"@,
        default_settings().checkout_base_url == "https://makepay.io"@,
        default_settings().key_id is None,
        default_settings().key_secret is None,
{
}

/// A client made from credentials alone talks to `https://www.makecrypto.io`
/// and sends payers to `https://makepay.io`, with exactly those credentials.
pub proof fn lemma_new_client_uses_default_locations(key_id: Seq<char>, key_secret: Seq<char>)
    ensures
        client_build(
            BuilderSettings { key_id: Some(key_id), key_secret: Some(key_secret), ..default_settings() },
        ) matches ClientBuild::Client(config) ==> {
            &&& config.base_url == "https://www.makecrypto.io"@
            &&& config.checkout_base_url == "https://makepay.io"@
            &&& config.key_id == key_id
            &&& config.key_secret == key_secret
        },
{
    reveal_strlit("https://www.makecrypto.io");
    reveal_strlit("https://makepay.io");
    let api = "https://www.makecrypto.io"@;
    let checkout = "https://makepay.io"@;
    assert(api.last() == 'o');
    assert(checkout.last() == 'o');
    assert(normalized_base_url(api) == api);
    assert(normalized_base_url(checkout) == checkout);
}

/// Collects the settings of a client.
#[derive(Debug, Clone)]
pub struct MakePayClientBuilder {
    base_url: String,
    checkout_base_url: String,
    key_id: Option<String>,
    key_secret: Option<String>,
}

/// The view of an optional string.
pub open spec fn opt_string(s: Option<String>) -> Option<Seq<char>> {
    match s {
        Some(t) => Some(t@),
        None => None,
    }
}

impl View for MakePayClientBuilder {
    type V = BuilderSettings;

    closed spec fn view(&self) -> BuilderSettings {
        BuilderSettings {
            base_url: self.base_url@,
            checkout_base_url: self.checkout_base_url@,
            key_id: opt_string(self.key_id),
            key_secret: opt_string(self.key_secret),
        }
    }
}

impl Default for MakePayClientBuilder {
    /// The default API and checkout locations, without credentials.
    fn default() -> (res: Self)
        ensures
            res@ == default_settings(),
    {
        MakePayClientBuilder {
            base_url: DEFAULT_BASE_URL.to_owned(),
            checkout_base_url: DEFAULT_CHECKOUT_BASE_URL.to_owned(),
            key_id: None,
            key_secret: None,
        }
    }
}

impl MakePayClientBuilder {
    /// Sets the API base URL.
    pub fn base_url(self, base_url: &str) -> (res: Self)
        ensures
            res@ == (BuilderSettings { base_url: base_url@, ..self@ }),
    {
        MakePayClientBuilder { base_url: base_url.to_owned(), ..self }
    }

    /// Sets the base URL of hosted checkout pages.
    pub fn checkout_base_url(self, checkout_base_url: &str) -> (res: Self)
        ensures
            res@ == (BuilderSettings { checkout_base_url: checkout_base_url@, ..self@ }),
    {
        MakePayClientBuilder { checkout_base_url: checkout_base_url.to_owned(), ..self }
    }

    /// Sets the API key ID.
    pub fn key_id(self, key_id: &str) -> (res: Self)
        ensures
            res@ == (BuilderSettings { key_id: Some(key_id@), ..self@ }),
    {
        MakePayClientBuilder { key_id: Some(key_id.to_owned()), ..self }
    }

    /// Sets the API key secret.
    pub fn key_secret(self, key_secret: &str) -> (res: Self)
        ensures
            res@ == (BuilderSettings { key_secret: Some(key_secret@), ..self@ }),
    {
        MakePayClientBuilder { key_secret: Some(key_secret.to_owned()), ..self }
    }

    /// Checks the settings and builds the client (see `client_build`).
    pub fn build(self) -> (res: Result<MakePayClient, MakePayError>)
        ensures
            build_answers(res, client_build(self@)),
            res matches Ok(client) ==> config_valid(client@),
    {
        let base_url = normalize_base_url(self.base_url.as_str());
        let checkout_base_url = normalize_base_url(self.checkout_base_url.as_str());
        proof {
            reveal_strlit("MakePay base URL is required.");
            reveal_strlit("MakePay checkout base URL is required.");
            reveal_strlit("MakePay API key ID is required.");
            reveal_strlit("MakePay API key secret is required.");
            crate::text::lemma_normalized_base_url_idempotent(self.base_url@);
            crate::text::lemma_normalized_base_url_idempotent(self.checkout_base_url@);
        }
        assert_non_empty(base_url.as_str(), "MakePay base URL is required.")?;
        assert_non_empty(checkout_base_url.as_str(), "MakePay checkout base URL is required.")?;
        if let Err(e) = ParsedUrl::parse(base_url.as_str()) {
            return Err(MakePayError::Url(e));
        }
        if let Err(e) = ParsedUrl::parse(checkout_base_url.as_str()) {
            return Err(MakePayError::Url(e));
        }
        let key_id = match self.key_id {
            Some(k) => k,
            None => String::new(),
        };
        let key_secret = match self.key_secret {
            Some(k) => k,
            None => String::new(),
        };
        assert_non_empty(key_id.as_str(), "MakePay API key ID is required.")?;
        assert_non_empty(key_secret.as_str(), "MakePay API key secret is required.")?;
        Ok(MakePayClient { base_url, checkout_base_url, key_id, key_secret })
    }
}

/// The query pairs of a request, as appended to its URL.
pub open spec fn query_edits(query: Seq<(&str, &str)>) -> Seq<UrlEdit> {
    query.map_values(|p: (&str, &str)| UrlEdit::AppendPair(p.0@, p.1@))
}

/// The most bytes appending the query pairs adds to a URL (see
/// `pair_room`).
pub open spec fn pairs_room(query: Seq<(&str, &str)>) -> nat
    decreases query.len(),
{
    if query.len() == 0 {
        0
    } else {
        pairs_room(query.drop_last()) + pair_room(
            query.last().0.spec_bytes(),
            query.last().1.spec_bytes(),
        )
    }
}

/// The room of a prefix of the query pairs is at most the room of all.
pub proof fn lemma_pairs_room_prefix(query: Seq<(&str, &str)>, i: int)
    requires
        0 <= i <= query.len(),
    ensures
        pairs_room(query.take(i)) <= pairs_room(query),
    decreases query.len(),
{
    if i < query.len() {
        assert(query.drop_last().take(i) == query.take(i));
        lemma_pairs_room_prefix(query.drop_last(), i);
    } else {
        assert(query.take(i) == query);
    }
}

/// The URL of an API request: the base URL followed by the path, parsed,
/// with the query pairs appended in order; refused when the pairs could
/// take the URL past the `u32::MAX` bytes the `url` crate can hold.
pub open spec fn request_url(base_url: Seq<char>, path: Seq<char>, query: Seq<(&str, &str)>) -> Built {
    let parsed = UrlRecipe { source: base_url + path, edits: seq![] };
    if !url_parse_accepts(base_url + path) {
        Built::UrlError
    } else if !url_fits(url_byte_len(parsed) + pairs_room(query)) {
        Built::InvalidInput("MakePay URL is too long."@)
    } else {
        Built::Text(url_serialization(UrlRecipe { source: base_url + path, edits: query_edits(query) }))
    }
}

/// The path of one resource: the collection path, a slash, the
/// form-urlencoded resource ID, then the action suffix; a blank ID is
/// refused with `missing_message`.
pub open spec fn resource_path(
    collection: Seq<char>,
    id: &str,
    suffix: Seq<char>,
    missing_message: Seq<char>,
) -> Built {
    required(
        id@,
        missing_message,
        Built::Text(collection.push('/') + form_urlencoded(id.spec_bytes()) + suffix),
    )
}

/// Builds the path of one API resource (see `resource_path`).
pub fn build_resource_path(collection: &str, id: &str, suffix: &str, missing_message: &str) -> (res:
    Result<String, MakePayError>)
    ensures
        answers(res, resource_path(collection@, id, suffix@, missing_message@)),
{
    assert_non_empty(id, missing_message)?;
    let mut path = String::new();
    push_str(&mut path, collection);
    crate::text::push_char(&mut path, '/');
    let encoded = encode_path_segment(id);
    push_str(&mut path, encoded.as_str());
    push_str(&mut path, suffix);
    proof {
        assert(Seq::<char>::empty() + collection@ == collection@);
    }
    Ok(path)
}

/// A configured MakePay API client.
#[derive(Debug, Clone)]
pub struct MakePayClient {
    base_url: String,
    checkout_base_url: String,
    key_id: String,
    key_secret: String,
}

impl View for MakePayClient {
    type V = ClientConfig;

    closed spec fn view(&self) -> ClientConfig {
        ClientConfig {
            base_url: self.base_url@,
            checkout_base_url: self.checkout_base_url@,
            key_id: self.key_id@,
            key_secret: self.key_secret@,
        }
    }
}

impl MakePayClient {
    /// A client for the default locations with the given credentials.
    pub fn new(key_id: &str, key_secret: &str) -> (res: Result<MakePayClient, MakePayError>)
        ensures
            build_answers(
                res,
                client_build(
                    BuilderSettings {
                        key_id: Some(key_id@),
                        key_secret: Some(key_secret@),
                        ..default_settings()
                    },
                ),
            ),
            res matches Ok(client) ==> config_valid(client@),
    {
        Self::builder().key_id(key_id).key_secret(key_secret).build()
    }

    /// A fresh builder.
    pub fn builder() -> (res: MakePayClientBuilder)
        ensures
            res@ == default_settings(),
    {
        MakePayClientBuilder::default()
    }

    /// The API key ID, sent with every request.
    pub fn key_id(&self) -> (res: &str)
        ensures
            res@ == self@.key_id,
    {
        self.key_id.as_str()
    }

    /// The API key secret, sent with every request.
    pub fn key_secret(&self) -> (res: &str)
        ensures
            res@ == self@.key_secret,
    {
        self.key_secret.as_str()
    }

    /// The URL of a request to `path` with the query pairs `query`.
    pub fn request_url(&self, path: &str, query: &[(&str, &str)]) -> (res: Result<
        String,
        MakePayError,
    >)
        ensures
            answers(res, request_url(self@.base_url, path@, query@)),
    {
        let mut text = self.base_url.clone();
        push_str(&mut text, path);
        let mut url = match ParsedUrl::parse(text.as_str()) {
            Ok(url) => url,
            Err(e) => return Err(MakePayError::Url(e)),
        };
        let ghost parsed = url@;
        proof { reveal_strlit("MakePay URL is too long."); }
        let parsed_len = url.byte_len();
        if parsed_len as u64 > 0xFFFF_FFFF {
            return Err(MakePayError::InvalidInput("MakePay URL is too long.".to_owned()));
        }
        let mut total: u64 = parsed_len as u64;
        for i in 0..query.len()
            invariant
                total == url_byte_len(parsed) + pairs_room(query@.take(i as int)),
                url_fits(total as nat),
                url@ == parsed,
                parsed == (UrlRecipe { source: self@.base_url + path@, edits: seq![] }),
                url_parse_accepts(self@.base_url + path@),
        {
            let (name, value) = query[i];
            proof {
                let next = query@.take(i + 1);
                assert(next.drop_last() == query@.take(i as int));
                assert(next.last() == query@[i as int]);
            }
            match add_pair_room(total, name, value) {
                Some(t) => total = t,
                None => {
                    proof {
                        lemma_pairs_room_prefix(query@, i + 1);
                        reveal_strlit("MakePay URL is too long.");
                    }
                    return Err(MakePayError::InvalidInput("MakePay URL is too long.".to_owned()));
                },
            }
        }
        assert(query@.take(query.len() as int) == query@);
        assert(query_edits(query@.take(0)) =~= Seq::<UrlEdit>::empty());
        for i in 0..query.len()
            invariant
                url@ == (UrlRecipe { source: self@.base_url + path@, edits: query_edits(query@.take(i as int)) }),
                url_fits(url_byte_len(parsed) + pairs_room(query@)),
                url_byte_len(url@) <= url_byte_len(parsed) + pairs_room(query@.take(i as int)),
        {
            let (name, value) = query[i];
            proof {
                let next = query@.take(i + 1);
                assert(next.drop_last() == query@.take(i as int));
                assert(next.last() == query@[i as int]);
                lemma_pairs_room_prefix(query@, i + 1);
            }
            url.append_query_pair(name, value);
            assert(query_edits(query@.take(i + 1)) =~= query_edits(query@.take(i as int)).push(
                UrlEdit::AppendPair(name@, value@),
            ));
        }
        assert(query@.take(query.len() as int) == query@);
        Ok(url.serialize())
    }

    /// The hosted checkout page of a payment link.
    pub fn hosted_checkout_url(&self, uid: &str) -> (res: Result<String, MakePayError>)
        ensures
            answers(res, hosted_checkout_url(uid@, self@.checkout_base_url)),
    {
        build_hosted_checkout_url(uid, Some(self.checkout_base_url.as_str()))
    }

    /// The embeddable checkout page of a payment link.
    pub fn embedded_checkout_url(&self, uid: &str, parent_origin: Option<&str>) -> (res: Result<
        String,
        MakePayError,
    >)
        ensures
            answers(
                res,
                embedded_checkout_url(uid@, self@.checkout_base_url, opt_view(parent_origin)),
            ),
    {
        build_embedded_checkout_url(uid, Some(self.checkout_base_url.as_str()), parent_origin)
    }

    /// The checkout modal script.
    pub fn modal_script_url(&self) -> (res: Result<String, MakePayError>)
        ensures
            answers(res, modal_script_url(self@.checkout_base_url)),
    {
        build_modal_script_url(Some(self.checkout_base_url.as_str()))
    }

    /// The embed button snippet of a payment link.
    pub fn embed_button_html(&self, uid: &str, button_label: Option<&str>) -> (res: Result<
        String,
        MakePayError,
    >)
        ensures
            answers(
                res,
                embed_button(uid@, self@.checkout_base_url, button_label_or_default(button_label)),
            ),
    {
        build_embed_button_html(uid, Some(self.checkout_base_url.as_str()), button_label)
    }

    /// The checkout iframe snippet of a payment link.
    pub fn iframe_html(&self, uid: &str, iframe_title: Option<&str>, parent_origin: Option<&str>) -> (res:
        Result<String, MakePayError>)
        ensures
            answers(
                res,
                checkout_iframe(
                    uid@,
                    self@.checkout_base_url,
                    iframe_title_or_default(iframe_title),
                    opt_view(parent_origin),
                ),
            ),
    {
        build_iframe_html(uid, Some(self.checkout_base_url.as_str()), iframe_title, parent_origin)
    }

    /// The hosted page of a donation.
    pub fn hosted_donation_url(&self, donation_slug: &str) -> (res: Result<String, MakePayError>)
        ensures
            answers(res, hosted_donation_url(donation_slug@, self@.checkout_base_url)),
    {
        build_hosted_donation_url(donation_slug, Some(self.checkout_base_url.as_str()))
    }

    /// The embeddable page of a donation.
    pub fn embedded_donation_url(&self, donation_slug: &str, parent_origin: Option<&str>) -> (res:
        Result<String, MakePayError>)
        ensures
            answers(
                res,
                embedded_donation_url(
                    donation_slug@,
                    self@.checkout_base_url,
                    opt_view(parent_origin),
                ),
            ),
    {
        build_embedded_donation_url(
            donation_slug,
            Some(self.checkout_base_url.as_str()),
            parent_origin,
        )
    }
}

} // verus!
