use drawskill::render::{escape_xml, opacity_attr};
use drawskill::style::Color;

#[test]
fn escape_xml_replaces_markup_characters() {
    assert_eq!(
        escape_xml("a < b & \"c\" > 'd'"),
        "a &lt; b &amp; &quot;c&quot; &gt; &apos;d&apos;"
    );
    assert_eq!(escape_xml("plain text"), "plain text");
    assert_eq!(escape_xml(""), "");
    assert_eq!(escape_xml("&amp;"), "&amp;amp;");
}

#[test]
fn escape_xml_of_concatenation() {
    let a = "x<y";
    let b = "&z";
    assert_eq!(escape_xml(&format!("{a}{b}")), format!("{}{}", escape_xml(a), escape_xml(b)));
}

#[test]
fn escape_xml_leaves_no_markup() {
    let out = escape_xml("<svg onload=\"x\">'</svg>");
    assert!(!out.contains('<') && !out.contains('>') && !out.contains('"') && !out.contains('\''));
}

#[test]
fn opacity_attr_is_empty_for_opaque() {
    assert_eq!(opacity_attr("fill-opacity", Color::rgb(1, 2, 3)), "");
}

#[test]
fn opacity_attr_formats_alpha() {
    assert_eq!(
        opacity_attr("fill-opacity", Color::rgba(0, 0, 0, 0x80)),
        " fill-opacity=\"0.502\""
    );
    assert_eq!(opacity_attr("stroke-opacity", Color::none()), " stroke-opacity=\"0\"");
    assert_eq!(opacity_attr("fill-opacity", Color::rgba(9, 9, 9, 51)), " fill-opacity=\"0.2\"");
    assert_eq!(opacity_attr("fill-opacity", Color::rgba(9, 9, 9, 23)), " fill-opacity=\"0.09\"");
    assert_eq!(opacity_attr("fill-opacity", Color::rgba(9, 9, 9, 254)), " fill-opacity=\"0.996\"");
}

#[test]
fn opacity_attr_matches_rounded_ratio() {
    for a in 0u8..255 {
        let v = a as f64 / 255.0;
        let mut s = format!("{v:.3}");
        while s.ends_with('0') {
            s.pop();
        }
        if s.ends_with('.') {
            s.pop();
        }
        if a == 0 {
            s = "0".to_string();
        }
        assert_eq!(opacity_attr("o", Color::rgba(0, 0, 0, a)), format!(" o=\"{s}\""));
    }
}

fn unescape(s: &str) -> String {
    s.replace("&lt;", "<")
        .replace("&gt;", ">")
        .replace("&quot;", "\"")
        .replace("&apos;", "'")
        .replace("&amp;", "&")
}

#[test]
fn escape_xml_round_trips() {
    for t in ["a < b & \"c\"", "&amp; &lt;", "it's > 2", "", "plain"] {
        assert_eq!(unescape(&escape_xml(t)), t);
    }
    assert_eq!(escape_xml("Ω and ß"), "Ω and ß");
}
