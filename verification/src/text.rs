//! Character-level text handling: Unicode whitespace, trimming, blank checks,
//! base-URL normalisation, HTML escaping and decimal rendering.

use vstd::prelude::*;
use vstd::string::*;

verus! {

// ---------------------------------------------------------------------------
// Specifications
// ---------------------------------------------------------------------------

/// The Unicode `White_Space` property, which is what `char::is_whitespace`
/// and `str::trim` go by.
pub open spec fn is_white_space(c: char) -> bool {
    let u = c as u32;
    ||| 0x09 <= u <= 0x0d
    ||| u == 0x20
    ||| u == 0x85
    ||| u == 0xa0
    ||| u == 0x1680
    ||| 0x2000 <= u <= 0x200a
    ||| u == 0x2028
    ||| u == 0x2029
    ||| u == 0x202f
    ||| u == 0x205f
    ||| u == 0x3000
}

/// A text is blank when every character in it is whitespace (the empty text
/// included): exactly the texts whose `trim()` is empty.
pub open spec fn is_blank(s: Seq<char>) -> bool {
    forall|i: int| 0 <= i < s.len() ==> is_white_space(#[trigger] s[i])
}

/// `s` with its leading whitespace removed.
pub open spec fn trim_start_ws(s: Seq<char>) -> Seq<char>
    decreases s.len(),
{
    if s.len() > 0 && is_white_space(s[0]) {
        trim_start_ws(s.drop_first())
    } else {
        s
    }
}

/// `s` with its trailing whitespace removed.
pub open spec fn trim_end_ws(s: Seq<char>) -> Seq<char>
    decreases s.len(),
{
    if s.len() > 0 && is_white_space(s.last()) {
        trim_end_ws(s.drop_last())
    } else {
        s
    }
}

/// `s` with leading and trailing whitespace removed, as `str::trim` does.
pub open spec fn trim_ws(s: Seq<char>) -> Seq<char> {
    trim_end_ws(trim_start_ws(s))
}

/// `s` with every trailing `c` removed, as `str::trim_end_matches(c)` does.
pub open spec fn trim_end_char(s: Seq<char>, c: char) -> Seq<char>
    decreases s.len(),
{
    if s.len() > 0 && s.last() == c {
        trim_end_char(s.drop_last(), c)
    } else {
        s
    }
}

/// A base URL as the library stores it: without trailing slashes.
pub open spec fn normalized_base_url(s: Seq<char>) -> Seq<char> {
    trim_end_char(s, '/')
}

/// How one character is written inside a double-quoted HTML attribute.
pub open spec fn escape_attribute_char(c: char) -> Seq<char> {
    if c == '&' {
        seq!['&', 'a', 'm', 'p', ';']
    } else if c == '"' {
        seq!['&', 'q', 'u', 'o', 't', ';']
    } else if c == '<' {
        seq!['&', 'l', 't', ';']
    } else {
        seq![c]
    }
}

/// How one character is written as HTML text content.
pub open spec fn escape_text_char(c: char) -> Seq<char> {
    if c == '&' {
        seq!['&', 'a', 'm', 'p', ';']
    } else if c == '<' {
        seq!['&', 'l', 't', ';']
    } else if c == '>' {
        seq!['&', 'g', 't', ';']
    } else {
        seq![c]
    }
}

/// `s` escaped for a double-quoted HTML attribute: `&`, `"` and `<` become
/// entities, every other character stays.
pub open spec fn escaped_attribute(s: Seq<char>) -> Seq<char>
    decreases s.len(),
{
    if s.len() == 0 {
        seq![]
    } else {
        escaped_attribute(s.drop_last()) + escape_attribute_char(s.last())
    }
}

/// `s` escaped for HTML text: `&`, `<` and `>` become entities, every other
/// character stays.
pub open spec fn escaped_text(s: Seq<char>) -> Seq<char>
    decreases s.len(),
{
    if s.len() == 0 {
        seq![]
    } else {
        escaped_text(s.drop_last()) + escape_text_char(s.last())
    }
}

/// The decimal digit character for `d < 10`.
pub open spec fn digit_char(d: nat) -> char {
    ((d + 0x30) as u32) as char
}

/// The decimal rendering of `n`, without sign or leading zeros, as
/// `u64`'s `Display` writes it.
pub open spec fn decimal(n: nat) -> Seq<char>
    decreases n,
{
    if n < 10 {
        seq![digit_char(n)]
    } else {
        decimal(n / 10).push(digit_char(n % 10))
    }
}

/// The view of an optional text.
pub open spec fn opt_view(s: Option<&str>) -> Option<Seq<char>> {
    match s {
        Some(t) => Some(t@),
        None => None,
    }
}

// ---------------------------------------------------------------------------
// Laws
// ---------------------------------------------------------------------------

/// Escaping for an attribute never leaves a `"` or a `<` in the result, so
/// the escaped text cannot close the attribute or open a tag.
pub proof fn lemma_escaped_attribute_is_inert(s: Seq<char>)
    ensures
        forall|i: int|
            0 <= i < escaped_attribute(s).len() ==> #[trigger] escaped_attribute(s)[i] != '"'
                && escaped_attribute(s)[i] != '<',
    decreases s.len(),
{
    if s.len() > 0 {
        lemma_escaped_attribute_is_inert(s.drop_last());
        let a = escaped_attribute(s.drop_last());
        let b = escape_attribute_char(s.last());
        assert(escaped_attribute(s) == a + b);
        assert forall|i: int| 0 <= i < (a + b).len() implies (a + b)[i] != '"' && (a + b)[i] != '<' by {
            if i < a.len() {
                assert((a + b)[i] == a[i]);
            } else {
                assert((a + b)[i] == b[i - a.len()]);
            }
        }
    }
}

/// Escaping for text never leaves a `<` or a `>` in the result, so the
/// escaped text cannot open or close a tag.
pub proof fn lemma_escaped_text_is_inert(s: Seq<char>)
    ensures
        forall|i: int|
            0 <= i < escaped_text(s).len() ==> #[trigger] escaped_text(s)[i] != '<'
                && escaped_text(s)[i] != '>',
    decreases s.len(),
{
    if s.len() > 0 {
        lemma_escaped_text_is_inert(s.drop_last());
        let a = escaped_text(s.drop_last());
        let b = escape_text_char(s.last());
        assert(escaped_text(s) == a + b);
        assert forall|i: int| 0 <= i < (a + b).len() implies (a + b)[i] != '<' && (a + b)[i] != '>' by {
            if i < a.len() {
                assert((a + b)[i] == a[i]);
            } else {
                assert((a + b)[i] == b[i - a.len()]);
            }
        }
    }
}

/// A text without `&`, `"` or `<` is left as it is by the attribute escape.
pub proof fn lemma_escape_attribute_plain_unchanged(s: Seq<char>)
    requires
        forall|i: int| 0 <= i < s.len() ==> #[trigger] s[i] != '&' && s[i] != '"' && s[i] != '<',
    ensures
        escaped_attribute(s) == s,
    decreases s.len(),
{
    if s.len() > 0 {
        assert forall|i: int| 0 <= i < s.drop_last().len() implies #[trigger] s.drop_last()[i]
            != '&' && s.drop_last()[i] != '"' && s.drop_last()[i] != '<' by {
            assert(s.drop_last()[i] == s[i]);
        }
        lemma_escape_attribute_plain_unchanged(s.drop_last());
        assert(s.last() == s[s.len() - 1]);
        assert(s.drop_last().push(s.last()) == s);
    }
}

/// A text without `&`, `<` or `>` is left as it is by the text escape.
pub proof fn lemma_escape_text_plain_unchanged(s: Seq<char>)
    requires
        forall|i: int| 0 <= i < s.len() ==> #[trigger] s[i] != '&' && s[i] != '<' && s[i] != '>',
    ensures
        escaped_text(s) == s,
    decreases s.len(),
{
    if s.len() > 0 {
        assert forall|i: int| 0 <= i < s.drop_last().len() implies #[trigger] s.drop_last()[i]
            != '&' && s.drop_last()[i] != '<' && s.drop_last()[i] != '>' by {
            assert(s.drop_last()[i] == s[i]);
        }
        lemma_escape_text_plain_unchanged(s.drop_last());
        assert(s.last() == s[s.len() - 1]);
        assert(s.drop_last().push(s.last()) == s);
    }
}

/// Normalising a base URL twice gives what normalising it once gives, and
/// the result never ends with a slash.
pub proof fn lemma_normalized_base_url_idempotent(s: Seq<char>)
    ensures
        normalized_base_url(normalized_base_url(s)) == normalized_base_url(s),
        normalized_base_url(s).len() == 0 || normalized_base_url(s).last() != '/',
    decreases s.len(),
{
    if s.len() > 0 && s.last() == '/' {
        lemma_normalized_base_url_idempotent(s.drop_last());
    }
}

/// A blank text trims to the empty text, and a text that is not blank does
/// not.
pub proof fn lemma_trim_empty_iff_blank(s: Seq<char>)
    ensures
        (trim_ws(s).len() == 0) == is_blank(s),
{
    lemma_trim_start_blank(s);
    lemma_trim_end_empty(trim_start_ws(s));
}

proof fn lemma_trim_start_blank(s: Seq<char>)
    ensures
        is_blank(s) ==> trim_start_ws(s).len() == 0,
        !is_blank(s) ==> trim_start_ws(s).len() > 0 && !is_white_space(trim_start_ws(s)[0]),
    decreases s.len(),
{
    if s.len() > 0 && is_white_space(s[0]) {
        lemma_trim_start_blank(s.drop_first());
        if is_blank(s.drop_first()) {
            assert forall|i: int| 0 <= i < s.len() implies is_white_space(#[trigger] s[i]) by {
                if i > 0 {
                    assert(s[i] == s.drop_first()[i - 1]);
                }
            }
        } else {
            let k = choose|k: int|
                0 <= k < s.drop_first().len() && !is_white_space(#[trigger] s.drop_first()[k]);
            assert(s.drop_first()[k] == s[k + 1]);
        }
    } else if s.len() > 0 {
        assert(!is_white_space(s[0]));
    }
}

proof fn lemma_trim_end_empty(s: Seq<char>)
    ensures
        s.len() == 0 ==> trim_end_ws(s).len() == 0,
        s.len() > 0 && !is_white_space(s[0]) ==> trim_end_ws(s).len() > 0,
    decreases s.len(),
{
    if s.len() > 0 && is_white_space(s.last()) {
        lemma_trim_end_empty(s.drop_last());
        if s.len() > 1 {
            assert(s.drop_last()[0] == s[0]);
        }
    }
}

// ---------------------------------------------------------------------------
// std String building
// ---------------------------------------------------------------------------

/// `String::push`: appends one character.
#[verifier::external_body]
pub(crate) fn push_char(s: &mut String, c: char)
    ensures
        final(s)@ == old(s)@.push(c),
{
    s.push(c);
}

/// The characters of `s`.
pub(crate) fn chars_of(s: &str) -> (res: Vec<char>)
    ensures
        res@ == s@,
{
    let mut out: Vec<char> = Vec::new();
    for c in it: s.chars()
        invariant
            it.seq() == s@,
            out@ == s@.take(it.index() as int),
    {
        out.push(c);
        assert(s@.take(it.index() + 1) == s@.take(it.index() as int).push(c));
    }
    out
}

/// Appends the characters of `s` to `out`.
pub(crate) fn push_str(out: &mut String, s: &str)
    ensures
        final(out)@ == old(out)@ + s@,
{
    out.append(s);
}

// ---------------------------------------------------------------------------
// Executable functions
// ---------------------------------------------------------------------------

/// Whether `c` is Unicode whitespace (`char::is_whitespace`).
pub fn is_white_space_char(c: char) -> (res: bool)
    ensures
        res == is_white_space(c),
{
    let u = c as u32;
    (0x09 <= u && u <= 0x0d) || u == 0x20 || u == 0x85 || u == 0xa0 || u == 0x1680 || (0x2000
        <= u && u <= 0x200a) || u == 0x2028 || u == 0x2029 || u == 0x202f || u == 0x205f || u
        == 0x3000
}

/// Whether every character of `cs` is whitespace.
pub fn chars_are_blank(cs: &Vec<char>) -> (res: bool)
    ensures
        res == is_blank(cs@),
{
    for i in 0..cs.len()
        invariant
            forall|j: int| 0 <= j < i ==> is_white_space(#[trigger] cs@[j]),
    {
        if !is_white_space_char(cs[i]) {
            return false;
        }
    }
    true
}

/// Whether `s` is empty or made of whitespace only (`s.trim().is_empty()`).
pub fn str_is_blank(s: &str) -> (res: bool)
    ensures
        res == is_blank(s@),
{
    let cs = chars_of(s);
    chars_are_blank(&cs)
}

/// `cs` without leading and trailing whitespace (`str::trim`).
pub fn trim_chars(cs: &Vec<char>) -> (res: Vec<char>)
    ensures
        res@ == trim_ws(cs@),
{
    let n = cs.len();
    let mut start: usize = 0;
    assert(cs@.skip(0) == cs@);
    while start < n && is_white_space_char(cs[start])
        invariant
            n == cs.len(),
            start <= n,
            trim_start_ws(cs@) == trim_start_ws(cs@.skip(start as int)),
        decreases n - start,
    {
        assert(cs@.skip(start as int).drop_first() == cs@.skip(start + 1));
        start += 1;
    }
    let ghost front = cs@.skip(start as int);
    assert(trim_start_ws(front) == front);
    let mut end: usize = n;
    while end > start && is_white_space_char(cs[end - 1])
        invariant
            n == cs.len(),
            start <= end <= n,
            front == cs@.skip(start as int),
            trim_end_ws(front) == trim_end_ws(cs@.subrange(start as int, end as int)),
        decreases end - start,
    {
        assert(cs@.subrange(start as int, end as int).drop_last() == cs@.subrange(
            start as int,
            end - 1,
        ));
        end -= 1;
    }
    let ghost mid = cs@.subrange(start as int, end as int);
    assert(trim_end_ws(mid) == mid);
    let mut out: Vec<char> = Vec::new();
    let mut i = start;
    while i < end
        invariant
            start <= i <= end <= n,
            n == cs.len(),
            out@ == cs@.subrange(start as int, i as int),
        decreases end - i,
    {
        out.push(cs[i]);
        assert(cs@.subrange(start as int, i + 1) == cs@.subrange(start as int, i as int).push(
            cs@[i as int],
        ));
        i += 1;
    }
    out
}

/// `value` without trailing slashes, as the library stores base URLs.
pub fn normalize_base_url(value: &str) -> (res: String)
    ensures
        res@ == normalized_base_url(value@),
{
    let cs = chars_of(value);
    let mut end = cs.len();
    assert(cs@.take(end as int) == cs@);
    while end > 0 && cs[end - 1] == '/'
        invariant
            end <= cs.len(),
            normalized_base_url(cs@) == trim_end_char(cs@.take(end as int), '/'),
        decreases end,
    {
        assert(cs@.take(end as int).drop_last() == cs@.take(end - 1));
        end -= 1;
    }
    let mut out = String::new();
    for i in 0..end
        invariant
            end <= cs.len(),
            out@ == cs@.take(i as int),
    {
        push_char(&mut out, cs[i]);
        assert(cs@.take(i + 1) == cs@.take(i as int).push(cs@[i as int]));
    }
    out
}

/// `value` escaped for use inside a double-quoted HTML attribute.
pub fn escape_html_attribute(value: &str) -> (res: String)
    ensures
        res@ == escaped_attribute(value@),
{
    let cs = chars_of(value);
    let mut out = String::new();
    for i in 0..cs.len()
        invariant
            cs@ == value@,
            out@ == escaped_attribute(cs@.take(i as int)),
    {
        let c = cs[i];
        if c == '&' {
            push_str(&mut out, "&amp;");
            proof { reveal_strlit("&amp;"); }
        } else if c == '"' {
            push_str(&mut out, "&quot;");
            proof { reveal_strlit("&quot;"); }
        } else if c == '<' {
            push_str(&mut out, "&lt;");
            proof { reveal_strlit("&lt;"); }
        } else {
            push_char(&mut out, c);
        }
        assert(cs@.take(i + 1).drop_last() == cs@.take(i as int));
    }
    assert(cs@.take(cs.len() as int) == cs@);
    out
}

/// `value` escaped for use as HTML text.
pub fn escape_html_text(value: &str) -> (res: String)
    ensures
        res@ == escaped_text(value@),
{
    let cs = chars_of(value);
    let mut out = String::new();
    for i in 0..cs.len()
        invariant
            cs@ == value@,
            out@ == escaped_text(cs@.take(i as int)),
    {
        let c = cs[i];
        if c == '&' {
            push_str(&mut out, "&amp;");
            proof { reveal_strlit("&amp;"); }
        } else if c == '<' {
            push_str(&mut out, "&lt;");
            proof { reveal_strlit("&lt;"); }
        } else if c == '>' {
            push_str(&mut out, "&gt;");
            proof { reveal_strlit("&gt;"); }
        } else {
            push_char(&mut out, c);
        }
        assert(cs@.take(i + 1).drop_last() == cs@.take(i as int));
    }
    assert(cs@.take(cs.len() as int) == cs@);
    out
}

} // verus!
