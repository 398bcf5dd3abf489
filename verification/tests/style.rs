use drawskill::style::{Color, TextAnchor};

#[test]
fn parse_hex_forms() {
    assert_eq!(Color::parse("#000000"), Some(Color::black()));
    assert_eq!(Color::parse("#fff"), Some(Color::white()));
    assert_eq!(Color::parse("#ff0000"), Some(Color::rgb(255, 0, 0)));
    assert_eq!(Color::parse("#00000080"), Some(Color::rgba(0, 0, 0, 0x80)));
}

#[test]
fn parse_named_and_none() {
    assert_eq!(Color::parse("black"), Some(Color::black()));
    assert_eq!(Color::parse("RED"), Some(Color::rgb(255, 0, 0)));
    assert_eq!(Color::parse("none"), Some(Color::none()));
    assert!(Color::parse("none").unwrap().is_transparent());
}

#[test]
fn parse_rejects_garbage() {
    assert_eq!(Color::parse("#12"), None);
    assert_eq!(Color::parse("not-a-color"), None);
}

#[test]
fn parse_trims_and_ignores_case() {
    assert_eq!(Color::parse("  Transparent \n"), Some(Color::none()));
    assert_eq!(Color::parse(" #ABC "), Some(Color::rgb(0xaa, 0xbb, 0xcc)));
    assert_eq!(Color::parse("Grey"), Some(Color::rgb(0x80, 0x80, 0x80)));
    assert_eq!(Color::parse("lightgrey"), Some(Color::rgb(0xd3, 0xd3, 0xd3)));
    assert_eq!(Color::parse("DarkGray"), Some(Color::rgb(0xa9, 0xa9, 0xa9)));
    assert_eq!(Color::parse("orange"), Some(Color::rgb(0xff, 0xa5, 0x00)));
    assert_eq!(Color::parse("green"), Some(Color::rgb(0x00, 0x80, 0x00)));
}

#[test]
fn parse_rejects_bad_hex() {
    assert_eq!(Color::parse("#ggg"), None);
    assert_eq!(Color::parse("#12345"), None);
    assert_eq!(Color::parse("123456"), None);
    assert_eq!(Color::parse(""), None);
    assert_eq!(Color::parse("#"), None);
}

#[test]
fn parse_takes_hex_digits_only() {
    assert_eq!(Color::parse("#+f+f+f"), None);
    assert_eq!(Color::parse("#+f0000"), None);
    assert_eq!(Color::parse("#+00"), None);
    assert_eq!(Color::parse("#éa"), None);
    assert_eq!(Color::parse("#é1"), None);
    assert_eq!(Color::parse("#é"), None);
    assert_eq!(Color::parse("#aé1234"), None);
}

#[test]
fn to_hex_is_lowercase_rrggbb() {
    assert_eq!(Color::rgba(0x12, 0x34, 0x56, 0x80).to_hex(), "#123456");
    assert_eq!(Color::rgb(0xab, 0xcd, 0xef).to_hex(), "#abcdef");
    assert_eq!(Color::black().to_hex(), "#000000");
}

#[test]
fn hex_roundtrip_of_opaque_colors() {
    for c in [Color::rgb(1, 2, 3), Color::rgb(255, 128, 0), Color::white()] {
        assert_eq!(Color::parse(&c.to_hex()), Some(c));
    }
}

#[test]
fn constants_and_constructors() {
    assert_eq!(Color::black(), Color::rgb(0, 0, 0));
    assert_eq!(Color::white(), Color::rgba(255, 255, 255, 255));
    assert_eq!(Color::none(), Color::rgba(0, 0, 0, 0));
    assert!(!Color::black().is_transparent());
    assert_eq!(TextAnchor::default(), TextAnchor::Start);
}

#[test]
fn named_colours_ignore_case() {
    assert_eq!(Color::parse("Orange"), Some(Color::rgb(0xff, 0xa5, 0x00)));
    assert_eq!(Color::parse("GREY"), Color::parse("gray"));
    assert_eq!(Color::parse("gray"), Some(Color::rgb(0x80, 0x80, 0x80)));
    assert_eq!(Color::parse("purple"), None);
}
