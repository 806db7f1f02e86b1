//! HTML snippets that embed MakePay checkout in a merchant page.

use vstd::prelude::*;

use crate::checkout::{
    answers, build_embedded_checkout_url, build_modal_script_url, checkout_base_or_default,
    embedded_checkout_url, modal_script_url, payment_uid_message, required, Built,
};
use crate::error::{assert_non_empty, is_invalid_input, MakePayError};
use crate::text::{
    escape_html_attribute, escape_html_text, escaped_attribute, escaped_text, opt_view, push_str,
};

verus! {

/// The label of the embed button unless the caller gives one.
pub open spec fn button_label_or_default(button_label: Option<&str>) -> Seq<char> {
    match button_label {
        Some(label) => label@,
        None => "Pay with crypto"@,
    }
}

/// The title of the checkout iframe unless the caller gives one.
pub open spec fn iframe_title_or_default(iframe_title: Option<&str>) -> Seq<char> {
    match iframe_title {
        Some(title) => title@,
        None => "MakePay checkout"@,
    }
}

/// The embed button snippet: a script tag loading the modal script and a
/// button carrying the payment link UID, one line each, with the attribute
/// values and the label escaped.
pub open spec fn embed_button_html(script_url: Seq<char>, payment_uid: Seq<char>, label: Seq<char>) -> Seq<
    char,
> {
    "<script src=\""@ + escaped_attribute(script_url) + "\"></script>"@ + "\n"@
        + "<button type=\"button\" data-makepay-payment-link=\""@ + escaped_attribute(payment_uid)
        + "\">"@ + "\n"@ + "  "@ + escaped_text(label) + "\n"@ + "</button>"@
}

/// The iframe snippet: the escaped title and source URL, a fixed style and
/// the clipboard permissions, one attribute per line.
pub open spec fn iframe_html(title: Seq<char>, src: Seq<char>) -> Seq<char> {
    "<iframe"@ + "\n"@ + "  title=\""@ + escaped_attribute(title) + "\""@ + "\n"@ + "  src=\""@
        + escaped_attribute(src) + "\""@ + "\n"@
        + "  style=\"width:100%;min-height:720px;border:0;border-radius:12px;\""@ + "\n"@
        + "  allow=\"clipboard-read; clipboard-write\""@ + "\n"@ + "></iframe>"@
}

/// The embed button for payment link `uid` under `base_url`, labelled
/// `label`.
pub open spec fn embed_button(uid: Seq<char>, base_url: Seq<char>, label: Seq<char>) -> Built {
    required(
        uid,
        payment_uid_message(),
        match modal_script_url(base_url) {
            Built::Text(script_url) => Built::Text(embed_button_html(script_url, uid, label)),
            other => other,
        },
    )
}

/// The checkout iframe for payment link `uid` under `base_url`.
pub open spec fn checkout_iframe(
    uid: Seq<char>,
    base_url: Seq<char>,
    title: Seq<char>,
    parent_origin: Option<Seq<char>>,
) -> Built {
    match embedded_checkout_url(uid, base_url, parent_origin) {
        Built::Text(src) => Built::Text(iframe_html(title, src)),
        other => other,
    }
}

/// An iframe snippet opens with its title attribute, and that attribute
/// holds the caller's title (or `MakePay checkout` when none is given),
/// escaped; since the escaped title holds no `"`, the attribute ends right
/// after it.
pub proof fn lemma_iframe_carries_the_given_title(
    uid: Seq<char>,
    base_url: Seq<char>,
    iframe_title: Option<&str>,
    parent_origin: Option<Seq<char>>,
)
    ensures
        checkout_iframe(uid, base_url, iframe_title_or_default(iframe_title), parent_origin) matches Built::Text(
            s,
        ) ==> {
            let e = escaped_attribute(match iframe_title { Some(t) => t@, None => "MakePay checkout"@ });
            &&& s.take(17) == "<iframe\n  title=\""@
            &&& s.subrange(17, 17 + e.len() as int) == e
            &&& s[17 + e.len() as int] == '"'
        },
{
    reveal_strlit("MakePay checkout");
    reveal_strlit("<iframe");
    reveal_strlit("\n");
    reveal_strlit("  title=\"");
    reveal_strlit("<iframe\n  title=\"");
    reveal_strlit("\"");
    crate::text::lemma_escaped_attribute_is_inert(match iframe_title { Some(t) => t@, None => "MakePay checkout"@ });
    let title = iframe_title_or_default(iframe_title);
    assert(title == match iframe_title { Some(t) => t@, None => "MakePay checkout"@ });
    match embedded_checkout_url(uid, base_url, parent_origin) {
        Built::Text(src) => {
            let e = escaped_attribute(title);
            let head = "<iframe"@ + "\n"@ + "  title=\""@;
            let s = iframe_html(title, src);
            assert(head =~= "<iframe\n  title=\""@);
            let rest = "\n"@ + "  src=\""@ + escaped_attribute(src) + "\""@ + "\n"@
                + "  style=\"width:100%;min-height:720px;border:0;border-radius:12px;\""@ + "\n"@
                + "  allow=\"clipboard-read; clipboard-write\""@ + "\n"@ + "></iframe>"@;
            assert(s =~= head + e + "\""@ + rest);
            assert(s.take(17) =~= head);
            assert(s.subrange(17, 17 + e.len() as int) =~= e);
            assert(s[17 + e.len() as int] == (head + e + "\""@ + rest)[17 + e.len() as int]);
        },
        _ => {},
    }
}

/// An embed button holds the caller's label (or `Pay with crypto` when none
/// is given), escaped, on its own line between the button's tags.
pub proof fn lemma_embed_button_carries_the_given_label(
    uid: Seq<char>,
    base_url: Seq<char>,
    button_label: Option<&str>,
)
    ensures
        embed_button(uid, base_url, button_label_or_default(button_label)) matches Built::Text(s)
            ==> {
            let e = escaped_text(match button_label { Some(l) => l@, None => "Pay with crypto"@ });
            &&& s.len() >= e.len() + 12
            &&& s.subrange(s.len() - e.len() - 12, s.len() as int) == "  "@ + e + "\n</button>"@
        },
{
    reveal_strlit("Pay with crypto");
    reveal_strlit("\n</button>");
    reveal_strlit("\n");
    reveal_strlit("</button>");
    reveal_strlit("  ");
    let label = button_label_or_default(button_label);
    assert(label == match button_label { Some(l) => l@, None => "Pay with crypto"@ });
    if embed_button(uid, base_url, label) is Text {
        match modal_script_url(base_url) {
            Built::Text(script_url) => {
                let e = escaped_text(label);
                let front = "<script src=\""@ + escaped_attribute(script_url) + "\"></script>"@
                    + "\n"@ + "<button type=\"button\" data-makepay-payment-link=\""@
                    + escaped_attribute(uid) + "\">"@ + "\n"@;
                let s = embed_button_html(script_url, uid, label);
                assert("\n"@ + "</button>"@ =~= "\n</button>"@);
                assert(s =~= front + ("  "@ + e + "\n</button>"@));
                assert(s.subrange(s.len() - e.len() - 12, s.len() as int) =~= "  "@ + e + "\n</button>"@);
            },
            _ => {},
        }
    }
}

/// A button that opens the payment link in MakePay's checkout modal, with
/// the script that powers it.
pub fn build_embed_button_html(
    payment_uid: &str,
    base_url: Option<&str>,
    button_label: Option<&str>,
) -> (res: Result<String, MakePayError>)
    ensures
        answers(
            res,
            embed_button(
                payment_uid@,
                checkout_base_or_default(base_url),
                button_label_or_default(button_label),
            ),
        ),
{
    proof { reveal_strlit("Payment link UID is required."); }
    assert_non_empty(payment_uid, "Payment link UID is required.")?;
    let label = match button_label {
        Some(l) => l,
        None => "Pay with crypto",
    };
    let script_url = build_modal_script_url(base_url)?;
    let mut html = String::new();
    push_str(&mut html, "<script src=\"");
    let escaped = escape_html_attribute(script_url.as_str());
    push_str(&mut html, escaped.as_str());
    push_str(&mut html, "\"></script>");
    push_str(&mut html, "\n");
    push_str(&mut html, "<button type=\"button\" data-makepay-payment-link=\"");
    let escaped = escape_html_attribute(payment_uid);
    push_str(&mut html, escaped.as_str());
    push_str(&mut html, "\">");
    push_str(&mut html, "\n");
    push_str(&mut html, "  ");
    let escaped = escape_html_text(label);
    push_str(&mut html, escaped.as_str());
    push_str(&mut html, "\n");
    push_str(&mut html, "</button>");
    proof {
        reveal_strlit("");
        assert(""@ =~= Seq::<char>::empty());
    }
    Ok(html)
}

/// An iframe that shows the embedded checkout page of a payment link.
pub fn build_iframe_html(
    payment_uid: &str,
    base_url: Option<&str>,
    iframe_title: Option<&str>,
    parent_origin: Option<&str>,
) -> (res: Result<String, MakePayError>)
    ensures
        answers(
            res,
            checkout_iframe(
                payment_uid@,
                checkout_base_or_default(base_url),
                iframe_title_or_default(iframe_title),
                opt_view(parent_origin),
            ),
        ),
{
    let title = match iframe_title {
        Some(t) => t,
        None => "MakePay checkout",
    };
    let src = build_embedded_checkout_url(payment_uid, base_url, parent_origin)?;
    let mut html = String::new();
    push_str(&mut html, "<iframe");
    push_str(&mut html, "\n");
    push_str(&mut html, "  title=\"");
    let escaped = escape_html_attribute(title);
    push_str(&mut html, escaped.as_str());
    push_str(&mut html, "\"");
    push_str(&mut html, "\n");
    push_str(&mut html, "  src=\"");
    let escaped = escape_html_attribute(src.as_str());
    push_str(&mut html, escaped.as_str());
    push_str(&mut html, "\"");
    push_str(&mut html, "\n");
    push_str(&mut html, "  style=\"width:100%;min-height:720px;border:0;border-radius:12px;\"");
    push_str(&mut html, "\n");
    push_str(&mut html, "  allow=\"clipboard-read; clipboard-write\"");
    push_str(&mut html, "\n");
    push_str(&mut html, "></iframe>");
    proof {
        reveal_strlit("");
        assert(""@ =~= Seq::<char>::empty());
    }
    Ok(html)
}

} // verus!
