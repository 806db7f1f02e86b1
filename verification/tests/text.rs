use makepay::error::{assert_non_empty, MakePayError};
use makepay::text::{escape_html_attribute, escape_html_text, normalize_base_url, str_is_blank};
use makepay::client::build_resource_path;

#[test]
fn normalize_base_url_strips_trailing_slashes_only() {
    assert_eq!(normalize_base_url("https://a.example///"), "https://a.example");
    assert_eq!(normalize_base_url("https://a.example/path/"), "https://a.example/path");
    assert_eq!(normalize_base_url("https://a.example"), "https://a.example");
    assert_eq!(normalize_base_url("///"), "");
    assert_eq!(normalize_base_url(" /"), " ");
    let once = normalize_base_url("x//");
    assert_eq!(normalize_base_url(&once), once);
}

#[test]
fn escapes_attribute_and_text_characters() {
    assert_eq!(escape_html_attribute(r#"a&b"c<d>e'"#), "a&amp;b&quot;c&lt;d>e'");
    assert_eq!(escape_html_text(r#"a&b"c<d>e'"#), "a&amp;b\"c&lt;d&gt;e'");
    assert_eq!(escape_html_attribute("plain"), "plain");
    assert_eq!(escape_html_text(""), "");
    assert!(!escape_html_attribute("\"<\"<").contains(['"', '<']));
    assert!(!escape_html_text("<>&<>").contains(['<', '>']));
}

#[test]
fn blank_means_unicode_whitespace_only() {
    assert!(str_is_blank(""));
    assert!(str_is_blank(" \t\r\n\u{0b}\u{0c}"));
    assert!(str_is_blank("\u{a0}\u{2003}\u{3000}\u{85}\u{2028}"));
    assert!(!str_is_blank(" x "));
    assert!(!str_is_blank("\u{200b}"));
    for c in ['\u{1680}', '\u{2000}', '\u{200a}', '\u{2029}', '\u{202f}', '\u{205f}'] {
        assert_eq!(str_is_blank(&c.to_string()), c.is_whitespace());
    }
}

#[test]
fn assert_non_empty_reports_the_given_message() {
    assert!(assert_non_empty("id", "Missing.").is_ok());
    match assert_non_empty(" \u{3000} ", "Missing.") {
        Err(MakePayError::InvalidInput(message)) => assert_eq!(message, "Missing."),
        _ => panic!("expected InvalidInput"),
    }
}

fn encoded(id: &str) -> String {
    build_resource_path("", id, "", "Missing.").unwrap()[1..].to_owned()
}

#[test]
fn path_segments_are_form_urlencoded() {
    assert_eq!(encoded("abc-._*XYZ019"), "abc-._*XYZ019");
    assert_eq!(encoded("a b/c?d#e&f"), "a+b%2Fc%3Fd%23e%26f");
    assert_eq!(encoded("é"), "%C3%A9");
    assert_eq!(encoded("~"), "%7E");
}

#[test]
fn each_escape_leaves_the_other_escapes_characters() {
    assert_eq!(escape_html_attribute("a > b"), "a > b");
    assert_eq!(escape_html_text("say \"hi\""), "say \"hi\"");
}
