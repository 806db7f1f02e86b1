//! URLs built with the `url` crate.
//!
//! A `ParsedUrl` holds a `url::Url` together with a ghost record of how it
//! was made: the text it was parsed from and the edits applied since. The
//! `url` crate is deterministic, so everything it reports about the URL
//! (its serialisation, whether it can take path segments) is a function of
//! that record; those functions are named below and left to the `url` crate.

use vstd::prelude::*;
use vstd::string::*;
use vstd::utf8::encode_utf8;

verus! {

/// `url::Url`, a parsed URL.
#[verifier::external_type_specification]
#[verifier::external_body]
pub struct ExUrl(url::Url);

/// One edit applied to a parsed URL.
pub enum UrlEdit {
    /// `Url::set_path` with the given path.
    SetPath(Seq<char>),
    /// `PathSegmentsMut::push` with the given segment.
    PushSegment(Seq<char>),
    /// `form_urlencoded::Serializer::append_pair` on the URL's query.
    AppendPair(Seq<char>, Seq<char>),
}

/// How a URL was made: the text it was parsed from, then its edits in order.
pub struct UrlRecipe {
    pub source: Seq<char>,
    pub edits: Seq<UrlEdit>,
}

impl UrlRecipe {
    /// The recipe extended by one more edit.
    pub open spec fn followed_by(self, edit: UrlEdit) -> UrlRecipe {
        UrlRecipe { source: self.source, edits: self.edits.push(edit) }
    }
}

/// Whether `Url::parse` accepts `input`.
pub uninterp spec fn url_parse_accepts(input: Seq<char>) -> bool;

/// Whether the URL made by `recipe` is cannot-be-a-base
/// (`Url::cannot_be_a_base`), that is, has no path segments to edit.
pub uninterp spec fn url_cannot_be_a_base(recipe: UrlRecipe) -> bool;

/// The serialisation (`Display`) of the URL made by `recipe`.
pub uninterp spec fn url_serialization(recipe: UrlRecipe) -> Seq<char>;

/// The length in bytes of the serialisation of the URL made by `recipe`.
pub open spec fn url_byte_len(recipe: UrlRecipe) -> nat {
    encode_utf8(url_serialization(recipe)).len()
}

/// The scheme of the URL made by `recipe` (`Url::scheme`).
pub uninterp spec fn url_scheme(recipe: UrlRecipe) -> Seq<char>;

/// Whether `scheme` is one of the special schemes of the URL standard.
pub open spec fn is_special_scheme(scheme: Seq<char>) -> bool {
    ||| scheme == "http"@
    ||| scheme == "https"@
    ||| scheme == "ws"@
    ||| scheme == "wss"@
    ||| scheme == "ftp"@
    ||| scheme == "file"@
}

/// The `url` crate keeps positions inside a URL as `u32`: a URL may hold at
/// most `u32::MAX` bytes, and an edit that would take it past that panics.
pub open spec fn url_fits(len: nat) -> bool {
    len <= u32::MAX
}

/// Whether the `url` crate writes byte `b` of a pushed path segment as
/// `%XX`: non-ASCII bytes, controls, and `` "#<>?`{}/%``, with `\` as well
/// in a URL of a special scheme.
pub open spec fn path_segment_escaped(b: u8, special: bool) -> bool {
    ||| b < 0x20
    ||| b >= 0x7f
    ||| b == 0x20
    ||| b == 0x22
    ||| b == 0x23
    ||| b == 0x25
    ||| b == 0x2f
    ||| b == 0x3c
    ||| b == 0x3e
    ||| b == 0x3f
    ||| b == 0x60
    ||| b == 0x7b
    ||| b == 0x7d
    ||| special && b == 0x5c
}

/// How many bytes byte `b` of a pushed path segment becomes: none for a tab
/// or a line break (the `url` crate drops them), three when it is escaped,
/// else one.
pub open spec fn path_segment_byte_len(b: u8, special: bool) -> nat {
    if b == 0x09 || b == 0x0a || b == 0x0d {
        0
    } else if path_segment_escaped(b, special) {
        3
    } else {
        1
    }
}

/// How many bytes the percent-encoded path segment `bytes` takes.
pub open spec fn path_segment_len(bytes: Seq<u8>, special: bool) -> nat
    decreases bytes.len(),
{
    if bytes.len() == 0 {
        0
    } else {
        path_segment_len(bytes.drop_last(), special) + path_segment_byte_len(bytes.last(), special)
    }
}

/// How many bytes the form-urlencoded `bytes` take: one per unchanged byte
/// or space, three per other byte.
pub open spec fn form_urlencoded_len(bytes: Seq<u8>) -> nat
    decreases bytes.len(),
{
    if bytes.len() == 0 {
        0
    } else {
        form_urlencoded_len(bytes.drop_last()) + if form_urlencoded_unchanged(bytes.last())
            || bytes.last() == 0x20 {
            1nat
        } else {
            3nat
        }
    }
}

/// The most bytes pushing a path segment adds to a URL: a `/` and the
/// percent-encoded segment.
pub open spec fn push_room(segment: Seq<u8>, special: bool) -> nat {
    1 + path_segment_len(segment, special)
}

/// The most bytes appending a query pair adds to a URL: a `?` or `&`, the
/// form-urlencoded name, `=`, and the form-urlencoded value.
pub open spec fn pair_room(name: Seq<u8>, value: Seq<u8>) -> nat {
    2 + form_urlencoded_len(name) + form_urlencoded_len(value)
}

/// The largest length a URL may have.
const URL_LIMIT: u64 = 0xFFFF_FFFF;

/// Adds to `total` the length of `bytes` percent-encoded as a path segment;
/// `None` when the sum passes `u32::MAX`.
fn add_path_segment_len(total: u64, bytes: &[u8], special: bool) -> (res: Option<u64>)
    requires
        url_fits(total as nat),
    ensures
        match res {
            Some(t) => t == total + path_segment_len(bytes@, special) && url_fits(t as nat),
            None => !url_fits(total as nat + path_segment_len(bytes@, special)),
        },
{
    let mut sum = total;
    for i in 0..bytes.len()
        invariant
            sum == total + path_segment_len(bytes@.take(i as int), special),
            url_fits(sum as nat),
    {
        assert(bytes@.take(i + 1).drop_last() == bytes@.take(i as int));
        let b = bytes[i];
        if !(b == 0x09 || b == 0x0a || b == 0x0d) {
            let escaped = b < 0x20 || b >= 0x7f || b == 0x20 || b == 0x22 || b == 0x23 || b == 0x25
                || b == 0x2f || b == 0x3c || b == 0x3e || b == 0x3f || b == 0x60 || b == 0x7b
                || b == 0x7d || (special && b == 0x5c);
            sum = if escaped {
                sum + 3
            } else {
                sum + 1
            };
        }
        if sum > URL_LIMIT {
            proof { lemma_path_segment_len_prefix(bytes@, i + 1, special); }
            return None;
        }
    }
    assert(bytes@.take(bytes.len() as int) == bytes@);
    Some(sum)
}

/// Adds to `total` the length of `bytes` form-urlencoded; `None` when the
/// sum passes `u32::MAX`.
fn add_form_urlencoded_len(total: u64, bytes: &[u8]) -> (res: Option<u64>)
    requires
        url_fits(total as nat),
    ensures
        match res {
            Some(t) => t == total + form_urlencoded_len(bytes@) && url_fits(t as nat),
            None => !url_fits(total as nat + form_urlencoded_len(bytes@)),
        },
{
    let mut sum = total;
    for i in 0..bytes.len()
        invariant
            sum == total + form_urlencoded_len(bytes@.take(i as int)),
            url_fits(sum as nat),
    {
        assert(bytes@.take(i + 1).drop_last() == bytes@.take(i as int));
        let b = bytes[i];
        let unchanged = b == 0x2a || b == 0x2d || b == 0x2e || (0x30 <= b && b <= 0x39) || (0x41
            <= b && b <= 0x5a) || b == 0x5f || (0x61 <= b && b <= 0x7a) || b == 0x20;
        sum = if unchanged {
            sum + 1
        } else {
            sum + 3
        };
        if sum > URL_LIMIT {
            proof { lemma_form_urlencoded_len_prefix(bytes@, i + 1); }
            return None;
        }
    }
    assert(bytes@.take(bytes.len() as int) == bytes@);
    Some(sum)
}

/// A prefix of a segment never encodes to more than the whole segment.
proof fn lemma_path_segment_len_prefix(bytes: Seq<u8>, k: int, special: bool)
    requires
        0 <= k <= bytes.len(),
    ensures
        path_segment_len(bytes.take(k), special) <= path_segment_len(bytes, special),
    decreases bytes.len(),
{
    if k < bytes.len() {
        assert(bytes.drop_last().take(k) == bytes.take(k));
        lemma_path_segment_len_prefix(bytes.drop_last(), k, special);
    } else {
        assert(bytes.take(k) == bytes);
    }
}

/// A prefix of a text never form-urlencodes to more than the whole text.
proof fn lemma_form_urlencoded_len_prefix(bytes: Seq<u8>, k: int)
    requires
        0 <= k <= bytes.len(),
    ensures
        form_urlencoded_len(bytes.take(k)) <= form_urlencoded_len(bytes),
    decreases bytes.len(),
{
    if k < bytes.len() {
        assert(bytes.drop_last().take(k) == bytes.take(k));
        lemma_form_urlencoded_len_prefix(bytes.drop_last(), k);
    } else {
        assert(bytes.take(k) == bytes);
    }
}

/// Adds to `total` the room of pushing the path segment `segment` (see
/// `push_room`); `None` when the sum passes `u32::MAX`.
pub(crate) fn add_push_room(total: u64, segment: &str, special: bool) -> (res: Option<u64>)
    requires
        url_fits(total as nat),
    ensures
        match res {
            Some(t) => t == total + push_room(segment.spec_bytes(), special) && url_fits(t as nat),
            None => !url_fits(total as nat + push_room(segment.spec_bytes(), special)),
        },
{
    if total >= URL_LIMIT {
        return None;
    }
    add_path_segment_len(total + 1, segment.as_bytes(), special)
}

/// Adds to `total` the room of appending the query pair `name=value` (see
/// `pair_room`); `None` when the sum passes `u32::MAX`.
pub(crate) fn add_pair_room(total: u64, name: &str, value: &str) -> (res: Option<u64>)
    requires
        url_fits(total as nat),
    ensures
        match res {
            Some(t) => t == total + pair_room(name.spec_bytes(), value.spec_bytes()) && url_fits(
                t as nat,
            ),
            None => !url_fits(total as nat + pair_room(name.spec_bytes(), value.spec_bytes())),
        },
{
    if total >= URL_LIMIT - 1 {
        return None;
    }
    match add_form_urlencoded_len(total + 2, name.as_bytes()) {
        Some(t) => add_form_urlencoded_len(t, value.as_bytes()),
        None => None,
    }
}

/// Whether `scheme` is special (see `is_special_scheme`).
pub(crate) fn scheme_is_special(scheme: &str) -> (res: bool)
    ensures
        res == is_special_scheme(scheme@),
{
    proof {
        reveal_strlit("http");
        reveal_strlit("https");
        reveal_strlit("ws");
        reveal_strlit("wss");
        reveal_strlit("ftp");
        reveal_strlit("file");
    }
    let s = scheme.to_owned();
    s == "http".to_owned() || s == "https".to_owned() || s == "ws".to_owned() || s
        == "wss".to_owned() || s == "ftp".to_owned() || s == "file".to_owned()
}

/// A URL parsed by the `url` crate, with the record of how it was made.
pub struct ParsedUrl {
    url: url::Url,
    recipe: Ghost<UrlRecipe>,
}

impl View for ParsedUrl {
    type V = UrlRecipe;

    closed spec fn view(&self) -> UrlRecipe {
        self.recipe@
    }
}

impl ParsedUrl {
    /// `Url::parse`: succeeds exactly when the `url` crate accepts `input`;
    /// the result records `input` as its source and no edits.
    #[verifier::external_body]
    pub(crate) fn parse(input: &str) -> (res: Result<ParsedUrl, url::ParseError>)
        ensures
            res is Ok == url_parse_accepts(input@),
            res matches Ok(u) ==> u@ == (UrlRecipe { source: input@, edits: Seq::empty() }),
    {
        match url::Url::parse(input) {
            Ok(url) => Ok(ParsedUrl { url, recipe: Ghost(UrlRecipe { source: input@, edits: Seq::empty() }) }),
            Err(e) => Err(e),
        }
    }

    /// The length in bytes of the URL's serialisation (`Url::as_str`).
    #[verifier::external_body]
    pub(crate) fn byte_len(&self) -> (res: usize)
        ensures
            res == url_byte_len(self@),
    {
        self.url.as_str().len()
    }

    /// `Url::cannot_be_a_base`.
    #[verifier::external_body]
    pub(crate) fn cannot_be_a_base(&self) -> (res: bool)
        ensures
            res == url_cannot_be_a_base(self@),
    {
        self.url.cannot_be_a_base()
    }

    /// `Url::scheme`.
    #[verifier::external_body]
    pub(crate) fn scheme(&self) -> (res: &str)
        ensures
            res@ == url_scheme(self@),
    {
        self.url.scheme()
    }

    /// `Url::set_path` with the empty path: records the edit. The old path
    /// gives way to at most `/`, and the scheme stays.
    #[verifier::external_body]
    pub(crate) fn clear_path(&mut self)
        requires
            url_fits(url_byte_len(old(self)@) + 1),
        ensures
            final(self)@ == old(self)@.followed_by(UrlEdit::SetPath(Seq::empty())),
            url_byte_len(final(self)@) <= url_byte_len(old(self)@) + 1,
            url_scheme(final(self)@) == url_scheme(old(self)@),
    {
        self.url.set_path("");
        self.recipe = Ghost(self.recipe@.followed_by(UrlEdit::SetPath(Seq::empty())));
    }

    /// `Url::path_segments_mut` followed by `PathSegmentsMut::push`.
    /// The `url` crate refuses exactly the cannot-be-a-base URLs and leaves
    /// them as they are; after a push the path starts with `/`, so the URL
    /// still takes path segments. A push adds at most a `/` and the
    /// percent-encoded segment (nothing for `.` and `..`), and the scheme
    /// stays.
    #[verifier::external_body]
    pub(crate) fn push_path_segment(&mut self, segment: &str) -> (res: Result<(), ()>)
        requires
            url_fits(
                url_byte_len(old(self)@) + push_room(
                    segment.spec_bytes(),
                    is_special_scheme(url_scheme(old(self)@)),
                ),
            ),
        ensures
            url_byte_len(final(self)@) <= url_byte_len(old(self)@) + push_room(
                segment.spec_bytes(),
                is_special_scheme(url_scheme(old(self)@)),
            ),
            url_scheme(final(self)@) == url_scheme(old(self)@),
            res is Ok == !url_cannot_be_a_base(old(self)@),
            res is Ok ==> final(self)@ == old(self)@.followed_by(UrlEdit::PushSegment(segment@)),
            res is Ok ==> !url_cannot_be_a_base(final(self)@),
            res is Err ==> final(self)@ == old(self)@,
    {
        match self.url.path_segments_mut() {
            Ok(mut segments) => {
                segments.push(segment);
                self.recipe = Ghost(self.recipe@.followed_by(UrlEdit::PushSegment(segment@)));
                Ok(())
            },
            Err(()) => Err(()),
        }
    }

    /// `Url::query_pairs_mut` followed by `Serializer::append_pair`:
    /// records the appended pair. The query gains a `?` when it had none, a
    /// `&` when it was not empty, and `name=value` form-urlencoded; the
    /// scheme stays.
    #[verifier::external_body]
    pub(crate) fn append_query_pair(&mut self, name: &str, value: &str)
        requires
            url_fits(url_byte_len(old(self)@) + pair_room(name.spec_bytes(), value.spec_bytes())),
        ensures
            final(self)@ == old(self)@.followed_by(UrlEdit::AppendPair(name@, value@)),
            url_byte_len(final(self)@) <= url_byte_len(old(self)@) + pair_room(
                name.spec_bytes(),
                value.spec_bytes(),
            ),
            url_scheme(final(self)@) == url_scheme(old(self)@),
    {
        self.url.query_pairs_mut().append_pair(name, value);
        self.recipe = Ghost(self.recipe@.followed_by(UrlEdit::AppendPair(name@, value@)));
    }

    /// The URL's serialisation (`Url`'s `Display`).
    #[verifier::external_body]
    pub(crate) fn serialize(&self) -> (res: String)
        ensures
            res@ == url_serialization(self@),
    {
        self.url.to_string()
    }
}

// ---------------------------------------------------------------------------
// application/x-www-form-urlencoded byte serialisation
// ---------------------------------------------------------------------------

/// The bytes that the form-urlencoded serialiser leaves as they are:
/// ASCII alphanumerics and `*`, `-`, `.`, `_`.
pub open spec fn form_urlencoded_unchanged(b: u8) -> bool {
    ||| b == 0x2a
    ||| b == 0x2d
    ||| b == 0x2e
    ||| 0x30 <= b <= 0x39
    ||| 0x41 <= b <= 0x5a
    ||| b == 0x5f
    ||| 0x61 <= b <= 0x7a
}

/// The upper-case hexadecimal digit for `d < 16`.
pub open spec fn hex_upper_digit(d: nat) -> char {
    if d < 10 {
        ((d + 0x30) as u32) as char
    } else {
        ((d - 10 + 0x41) as u32) as char
    }
}

/// How the form-urlencoded serialiser writes one byte: unchanged bytes as
/// their character, a space as `+`, every other byte as `%XX`.
pub open spec fn form_urlencoded_byte(b: u8) -> Seq<char> {
    if form_urlencoded_unchanged(b) {
        seq![(b as u32) as char]
    } else if b == 0x20 {
        seq!['+']
    } else {
        seq!['%', hex_upper_digit((b / 16) as nat), hex_upper_digit((b % 16) as nat)]
    }
}

/// The application/x-www-form-urlencoded byte serialisation of `bytes`.
pub open spec fn form_urlencoded(bytes: Seq<u8>) -> Seq<char>
    decreases bytes.len(),
{
    if bytes.len() == 0 {
        seq![]
    } else {
        form_urlencoded(bytes.drop_last()) + form_urlencoded_byte(bytes.last())
    }
}

/// Encodes `value` (its UTF-8 bytes) with `url::form_urlencoded::byte_serialize`,
/// which the library uses for one segment of an API path.
#[verifier::external_body]
pub(crate) fn encode_path_segment(value: &str) -> (res: String)
    ensures
        res@ == form_urlencoded(value.spec_bytes()),
{
    url::form_urlencoded::byte_serialize(value.as_bytes()).collect()
}

/// An encoded path segment holds no `/`, `?`, `#` or `&`: whatever an
/// identifier contains, it stays inside one segment of the path.
pub proof fn lemma_form_urlencoded_stays_in_segment(bytes: Seq<u8>)
    ensures
        forall|i: int|
            0 <= i < form_urlencoded(bytes).len() ==> {
                let c = #[trigger] form_urlencoded(bytes)[i];
                c != '/' && c != '?' && c != '#' && c != '&'
            },
    decreases bytes.len(),
{
    if bytes.len() > 0 {
        lemma_form_urlencoded_stays_in_segment(bytes.drop_last());
        let a = form_urlencoded(bytes.drop_last());
        let b = form_urlencoded_byte(bytes.last());
        assert(form_urlencoded(bytes) == a + b);
        let x = bytes.last();
        assert forall|i: int| 0 <= i < (a + b).len() implies {
            let c = #[trigger] (a + b)[i];
            c != '/' && c != '?' && c != '#' && c != '&'
        } by {
            if i < a.len() {
                assert((a + b)[i] == a[i]);
            } else {
                assert((a + b)[i] == b[i - a.len()]);
                if form_urlencoded_unchanged(x) {
                    assert(b[0] == (x as u32) as char);
                }
            }
        }
    }
}

} // verus!
