//! Colors and text anchoring.
use vstd::prelude::*;
use crate::text_util::{chars_of, eq_ignore_case, eq_ignore_case_str, eq_str, is_digit, lower_seq, lowered, string_from, sub_chars, trim, trimmed};

verus! {

/// An sRGB color with an alpha channel.
#[derive(Debug, Clone, Copy, PartialEq, Eq, Structural)]
pub struct Color {
    pub r: u8,
    pub g: u8,
    pub b: u8,
    pub a: u8,
}

/// Horizontal text anchoring, mirroring SVG's `text-anchor`.
#[derive(Debug, Clone, Copy, PartialEq, Eq, Structural)]
pub enum TextAnchor {
    Start,
    Middle,
    End,
}

impl Default for TextAnchor {
    fn default() -> (r: Self)
        ensures
            r == TextAnchor::Start,
    {
        TextAnchor::Start
    }
}

pub open spec fn opaque_rgb(r: u8, g: u8, b: u8) -> Color {
    Color { r, g, b, a: 255 }
}

/// An ASCII hexadecimal digit, either case.
pub open spec fn is_hex(c: char) -> bool {
    is_digit(c) || ('a' <= c && c <= 'f') || ('A' <= c && c <= 'F')
}

pub open spec fn hex_val(c: char) -> int {
    if is_digit(c) {
        c as int - '0' as int
    } else if 'a' <= c && c <= 'f' {
        c as int - 'a' as int + 10
    } else {
        c as int - 'A' as int + 10
    }
}

/// A one-digit hex channel (`#rgb` form): the digit repeated, i.e. times 17.
pub open spec fn nibble(c: char) -> Option<u8> {
    if is_hex(c) {
        Some((hex_val(c) * 17) as u8)
    } else {
        None
    }
}

/// A two-digit hex channel.
pub open spec fn pair(c0: char, c1: char) -> Option<u8> {
    if is_hex(c0) && is_hex(c1) {
        Some((hex_val(c0) * 16 + hex_val(c1)) as u8)
    } else {
        None
    }
}

/// The named colors, looked up by their lowercased name.
pub open spec fn named_spec(l: Seq<char>) -> Option<Color> {
    if l == "black"@ {
        Some(opaque_rgb(0, 0, 0))
    } else if l == "white"@ {
        Some(opaque_rgb(255, 255, 255))
    } else if l == "red"@ {
        Some(opaque_rgb(0xff, 0x00, 0x00))
    } else if l == "green"@ {
        Some(opaque_rgb(0x00, 0x80, 0x00))
    } else if l == "blue"@ {
        Some(opaque_rgb(0x00, 0x00, 0xff))
    } else if l == "yellow"@ {
        Some(opaque_rgb(0xff, 0xff, 0x00))
    } else if l == "orange"@ {
        Some(opaque_rgb(0xff, 0xa5, 0x00))
    } else if l == "gray"@ || l == "grey"@ {
        Some(opaque_rgb(0x80, 0x80, 0x80))
    } else if l == "lightgray"@ || l == "lightgrey"@ {
        Some(opaque_rgb(0xd3, 0xd3, 0xd3))
    } else if l == "darkgray"@ || l == "darkgrey"@ {
        Some(opaque_rgb(0xa9, 0xa9, 0xa9))
    } else {
        None
    }
}

/// The hex digits after `#`, as a color.
pub open spec fn hex_color(h: Seq<char>) -> Option<Color> {
    if h.len() == 3 {
        match (nibble(h[0]), nibble(h[1]), nibble(h[2])) {
            (Some(r), Some(g), Some(b)) => Some(opaque_rgb(r, g, b)),
            _ => None,
        }
    } else if h.len() == 6 {
        match (pair(h[0], h[1]), pair(h[2], h[3]), pair(h[4], h[5])) {
            (Some(r), Some(g), Some(b)) => Some(opaque_rgb(r, g, b)),
            _ => None,
        }
    } else if h.len() == 8 {
        match (pair(h[0], h[1]), pair(h[2], h[3]), pair(h[4], h[5]), pair(h[6], h[7])) {
            (Some(r), Some(g), Some(b), Some(a)) => Some(Color { r, g, b, a }),
            _ => None,
        }
    } else {
        None
    }
}

/// What `Color::parse` gives for the text `s`.
pub open spec fn parse_spec(s: Seq<char>) -> Option<Color> {
    let t = trim(s);
    if eq_ignore_case(t, "none"@) || eq_ignore_case(t, "transparent"@) {
        Some(Color { r: 0, g: 0, b: 0, a: 0 })
    } else if named_spec(lower_seq(t)) is Some {
        named_spec(lower_seq(t))
    } else if t.len() > 0 && t[0] == '#' {
        hex_color(t.drop_first())
    } else {
        None
    }
}

pub open spec fn hex_digit(v: int) -> char {
    if v < 10 {
        ('0' as int + v) as char
    } else {
        ('a' as int + v - 10) as char
    }
}

/// `#rrggbb`, lowercase.
pub open spec fn hex_spec(c: Color) -> Seq<char> {
    seq![
        '#',
        hex_digit(c.r as int / 16),
        hex_digit(c.r as int % 16),
        hex_digit(c.g as int / 16),
        hex_digit(c.g as int % 16),
        hex_digit(c.b as int / 16),
        hex_digit(c.b as int % 16),
    ]
}

fn hex_value(c: char) -> (v: u8)
    requires
        is_hex(c),
    ensures
        v as int == hex_val(c),
        v < 16,
{
    if '0' <= c && c <= '9' {
        (c as u8) - ('0' as u8)
    } else if 'a' <= c && c <= 'f' {
        (c as u8) - ('a' as u8) + 10
    } else {
        (c as u8) - ('A' as u8) + 10
    }
}

fn is_hex_char(c: char) -> (b: bool)
    ensures
        b == is_hex(c),
{
    ('0' <= c && c <= '9') || ('a' <= c && c <= 'f') || ('A' <= c && c <= 'F')
}

fn read_nibble(c: char) -> (r: Option<u8>)
    ensures
        r == nibble(c),
{
    if is_hex_char(c) {
        Some(hex_value(c) * 17)
    } else {
        None
    }
}

fn read_pair(c0: char, c1: char) -> (r: Option<u8>)
    ensures
        r == pair(c0, c1),
{
    if is_hex_char(c0) && is_hex_char(c1) {
        Some(hex_value(c0) * 16 + hex_value(c1))
    } else {
        None
    }
}

fn hex_char(v: u8) -> (c: char)
    requires
        v < 16,
    ensures
        c == hex_digit(v as int),
{
    if v < 10 {
        (('0' as u8) + v) as char
    } else {
        (('a' as u8) + v - 10) as char
    }
}

/// Looks up a named color, ignoring ASCII case.
fn named_color(name: &[char]) -> (r: Option<Color>)
    ensures
        r == named_spec(lower_seq(name@)),
{
    let lv = lowered(name);
    let l = lv.as_slice();
    if eq_str(l, "black") {
        Some(Color::rgb(0, 0, 0))
    } else if eq_str(l, "white") {
        Some(Color::rgb(255, 255, 255))
    } else if eq_str(l, "red") {
        Some(Color::rgb(0xff, 0x00, 0x00))
    } else if eq_str(l, "green") {
        Some(Color::rgb(0x00, 0x80, 0x00))
    } else if eq_str(l, "blue") {
        Some(Color::rgb(0x00, 0x00, 0xff))
    } else if eq_str(l, "yellow") {
        Some(Color::rgb(0xff, 0xff, 0x00))
    } else if eq_str(l, "orange") {
        Some(Color::rgb(0xff, 0xa5, 0x00))
    } else if eq_str(l, "gray") || eq_str(l, "grey") {
        Some(Color::rgb(0x80, 0x80, 0x80))
    } else if eq_str(l, "lightgray") || eq_str(l, "lightgrey") {
        Some(Color::rgb(0xd3, 0xd3, 0xd3))
    } else if eq_str(l, "darkgray") || eq_str(l, "darkgrey") {
        Some(Color::rgb(0xa9, 0xa9, 0xa9))
    } else {
        None
    }
}

impl Color {
    /// Opaque black.
    pub fn black() -> (c: Color)
        ensures
            c == opaque_rgb(0, 0, 0),
    {
        Color { r: 0, g: 0, b: 0, a: 255 }
    }

    /// Opaque white.
    pub fn white() -> (c: Color)
        ensures
            c == opaque_rgb(255, 255, 255),
    {
        Color { r: 255, g: 255, b: 255, a: 255 }
    }

    /// Fully transparent.
    pub fn none() -> (c: Color)
        ensures
            c == (Color { r: 0, g: 0, b: 0, a: 0 }),
    {
        Color { r: 0, g: 0, b: 0, a: 0 }
    }

    pub fn rgb(r: u8, g: u8, b: u8) -> (c: Self)
        ensures
            c == opaque_rgb(r, g, b),
    {
        Color { r, g, b, a: 255 }
    }

    pub fn rgba(r: u8, g: u8, b: u8, a: u8) -> (c: Self)
        ensures
            c == (Color { r, g, b, a }),
    {
        Color { r, g, b, a }
    }

    /// True if the color is fully transparent.
    pub fn is_transparent(&self) -> (t: bool)
        ensures
            t == (self.a == 0),
    {
        self.a == 0
    }

    /// Parse a color from a CSS-like string: `#rgb`, `#rrggbb`, `#rrggbbaa`, `none`, or one of
    /// a small set of named colors. Returns `None` if it can't be parsed.
    pub fn parse(s: &str) -> (r: Option<Color>)
        ensures
            r == parse_spec(s@),
    {
        let all = chars_of(s);
        let t = trimmed(&all);
        if eq_ignore_case_str(t.as_slice(), "none") || eq_ignore_case_str(t.as_slice(), "transparent") {
            return Some(Color::none());
        }
        if let Some(c) = named_color(t.as_slice()) {
            return Some(c);
        }
        if t.len() == 0 || t[0] != '#' {
            return None;
        }
        let ghost h = t@.drop_first();
        let n = t.len() - 1;
        if n == 3 {
            let r = read_nibble(t[1]);
            let g = read_nibble(t[2]);
            let b = read_nibble(t[3]);
            match (r, g, b) {
                (Some(r), Some(g), Some(b)) => Some(Color::rgb(r, g, b)),
                _ => None,
            }
        } else if n == 6 {
            let r = read_pair(t[1], t[2]);
            let g = read_pair(t[3], t[4]);
            let b = read_pair(t[5], t[6]);
            match (r, g, b) {
                (Some(r), Some(g), Some(b)) => Some(Color::rgb(r, g, b)),
                _ => None,
            }
        } else if n == 8 {
            let r = read_pair(t[1], t[2]);
            let g = read_pair(t[3], t[4]);
            let b = read_pair(t[5], t[6]);
            let a = read_pair(t[7], t[8]);
            match (r, g, b, a) {
                (Some(r), Some(g), Some(b), Some(a)) => Some(Color::rgba(r, g, b, a)),
                _ => None,
            }
        } else {
            None
        }
    }

    /// Format as `#rrggbb` (alpha is emitted separately as an SVG `*-opacity` attribute).
    pub fn to_hex(&self) -> (s: String)
        ensures
            s@ == hex_spec(*self),
    {
        let mut v: Vec<char> = Vec::new();
        v.push('#');
        v.push(hex_char(self.r / 16));
        v.push(hex_char(self.r % 16));
        v.push(hex_char(self.g / 16));
        v.push(hex_char(self.g % 16));
        v.push(hex_char(self.b / 16));
        v.push(hex_char(self.b % 16));
        assert(v@ == hex_spec(*self));
        string_from(&v)
    }
}


proof fn lemma_hex_digit(v: int)
    requires
        0 <= v < 16,
    ensures
        is_hex(hex_digit(v)),
        hex_val(hex_digit(v)) == v,
        !crate::text_util::is_ws(hex_digit(v)),
        is_digit(hex_digit(v)) || ('a' <= hex_digit(v) && hex_digit(v) <= 'f'),
{
}

/// Formatting a color as hex and parsing it back gives the same color, made opaque.
pub proof fn lemma_hex_roundtrip(c: Color)
    ensures
        parse_spec(hex_spec(c)) == Some(opaque_rgb(c.r, c.g, c.b)),
{
    let s = hex_spec(c);
    lemma_hex_digit(c.r as int / 16);
    lemma_hex_digit(c.r as int % 16);
    lemma_hex_digit(c.g as int / 16);
    lemma_hex_digit(c.g as int % 16);
    lemma_hex_digit(c.b as int / 16);
    lemma_hex_digit(c.b as int % 16);
    assert(crate::text_util::trim_start(s) == s);
    assert(crate::text_util::trim_end(s) == s);
    assert(trim(s) == s);
    reveal_strlit("none");
    reveal_strlit("transparent");
    reveal_strlit("black");
    reveal_strlit("white");
    reveal_strlit("red");
    reveal_strlit("green");
    reveal_strlit("blue");
    reveal_strlit("yellow");
    reveal_strlit("orange");
    reveal_strlit("gray");
    reveal_strlit("grey");
    reveal_strlit("lightgray");
    reveal_strlit("lightgrey");
    reveal_strlit("darkgray");
    reveal_strlit("darkgrey");
    assert(lower_seq(s).len() == 7);
    assert(!eq_ignore_case(s, "none"@));
    assert(!eq_ignore_case(s, "transparent"@));
    assert(named_spec(lower_seq(s)) is None);
    let h = s.drop_first();
    assert(h.len() == 6);
    assert(pair(h[0], h[1]) == Some(c.r));
    assert(pair(h[2], h[3]) == Some(c.g));
    assert(pair(h[4], h[5]) == Some(c.b));
}


/// A word written in lowercase letters matches, up to case, only texts whose lowercase form
/// is that word.
proof fn lemma_lower_word(t: Seq<char>, n: Seq<char>)
    requires
        eq_ignore_case(t, n),
        lower_seq(n) == n,
    ensures
        lower_seq(t) == n,
{
}

/// The color a named-color text parses to, whatever the case of its letters and the white
/// space around it: `n` is one of the lowercase names, spelled out in `lemma_named_colors`.
proof fn lemma_parse_name(s: Seq<char>, n: Seq<char>)
    requires
        eq_ignore_case(trim(s), n),
        lower_seq(n) == n,
        n != "none"@,
        n != "transparent"@,
        named_spec(n) is Some,
    ensures
        parse_spec(s) == named_spec(n),
        !eq_ignore_case(trim(s), "none"@),
        !eq_ignore_case(trim(s), "transparent"@),
{
    reveal_strlit("none");
    reveal_strlit("transparent");
    assert(lower_seq("none"@) =~= "none"@);
    assert(lower_seq("transparent"@) =~= "transparent"@);
    lemma_lower_word(trim(s), n);
}

/// Each color name parses to its CSS value, fully opaque, whatever the case of its letters
/// and the white space around it: black `#000000`, white `#ffffff`, red `#ff0000`, green
/// `#008000`, blue `#0000ff`, yellow `#ffff00`, orange `#ffa500`, gray or grey `#808080`,
/// lightgray or lightgrey `#d3d3d3`, darkgray or darkgrey `#a9a9a9`.
pub proof fn lemma_named_colors(s: Seq<char>)
    ensures
        eq_ignore_case(trim(s), "black"@) ==> parse_spec(s) == Some(Color { r: 0, g: 0, b: 0, a: 255 }),
        eq_ignore_case(trim(s), "white"@) ==> parse_spec(s) == Some(Color { r: 255, g: 255, b: 255, a: 255 }),
        eq_ignore_case(trim(s), "red"@) ==> parse_spec(s) == Some(Color { r: 255, g: 0, b: 0, a: 255 }),
        eq_ignore_case(trim(s), "green"@) ==> parse_spec(s) == Some(Color { r: 0, g: 128, b: 0, a: 255 }),
        eq_ignore_case(trim(s), "blue"@) ==> parse_spec(s) == Some(Color { r: 0, g: 0, b: 255, a: 255 }),
        eq_ignore_case(trim(s), "yellow"@) ==> parse_spec(s) == Some(Color { r: 255, g: 255, b: 0, a: 255 }),
        eq_ignore_case(trim(s), "orange"@) ==> parse_spec(s) == Some(Color { r: 255, g: 165, b: 0, a: 255 }),
        eq_ignore_case(trim(s), "gray"@) || eq_ignore_case(trim(s), "grey"@) ==> parse_spec(s) == Some(
            Color { r: 128, g: 128, b: 128, a: 255 },
        ),
        eq_ignore_case(trim(s), "lightgray"@) || eq_ignore_case(trim(s), "lightgrey"@) ==> parse_spec(s)
            == Some(Color { r: 211, g: 211, b: 211, a: 255 }),
        eq_ignore_case(trim(s), "darkgray"@) || eq_ignore_case(trim(s), "darkgrey"@) ==> parse_spec(s)
            == Some(Color { r: 169, g: 169, b: 169, a: 255 }),
{
    reveal_strlit("none");
    reveal_strlit("transparent");
    reveal_strlit("black");
    reveal_strlit("white");
    reveal_strlit("red");
    reveal_strlit("green");
    reveal_strlit("blue");
    reveal_strlit("yellow");
    reveal_strlit("orange");
    reveal_strlit("gray");
    reveal_strlit("grey");
    reveal_strlit("lightgray");
    reveal_strlit("lightgrey");
    reveal_strlit("darkgray");
    reveal_strlit("darkgrey");
    let t = trim(s);
    if eq_ignore_case(t, "black"@) {
        assert(lower_seq("black"@) =~= "black"@);
        assert("black"@[0] != 'n' && "black"@[0] != 't');
        lemma_parse_name(s, "black"@);
    }
    if eq_ignore_case(t, "white"@) {
        assert(lower_seq("white"@) =~= "white"@);
        assert("white"@[0] != 'n' && "white"@[0] != 't');
        lemma_parse_name(s, "white"@);
    }
    if eq_ignore_case(t, "red"@) {
        assert(lower_seq("red"@) =~= "red"@);
        assert("red"@[0] != 'n' && "red"@[0] != 't');
        lemma_parse_name(s, "red"@);
    }
    if eq_ignore_case(t, "green"@) {
        assert(lower_seq("green"@) =~= "green"@);
        assert("green"@[0] != 'n' && "green"@[0] != 't');
        lemma_parse_name(s, "green"@);
    }
    if eq_ignore_case(t, "blue"@) {
        assert(lower_seq("blue"@) =~= "blue"@);
        assert("blue"@[0] != 'n' && "blue"@[0] != 't');
        lemma_parse_name(s, "blue"@);
    }
    if eq_ignore_case(t, "yellow"@) {
        assert(lower_seq("yellow"@) =~= "yellow"@);
        assert("yellow"@[0] != 'n' && "yellow"@[0] != 't');
        lemma_parse_name(s, "yellow"@);
    }
    if eq_ignore_case(t, "orange"@) {
        assert(lower_seq("orange"@) =~= "orange"@);
        assert("orange"@[0] != 'n' && "orange"@[0] != 't');
        lemma_parse_name(s, "orange"@);
    }
    if eq_ignore_case(t, "gray"@) {
        assert(lower_seq("gray"@) =~= "gray"@);
        assert("gray"@[0] != 'n' && "gray"@[0] != 't');
        lemma_parse_name(s, "gray"@);
    }
    if eq_ignore_case(t, "grey"@) {
        assert(lower_seq("grey"@) =~= "grey"@);
        assert("grey"@[0] != 'n' && "grey"@[0] != 't');
        lemma_parse_name(s, "grey"@);
    }
    if eq_ignore_case(t, "lightgray"@) {
        assert(lower_seq("lightgray"@) =~= "lightgray"@);
        assert("lightgray"@[0] != 'n' && "lightgray"@[0] != 't');
        lemma_parse_name(s, "lightgray"@);
    }
    if eq_ignore_case(t, "lightgrey"@) {
        assert(lower_seq("lightgrey"@) =~= "lightgrey"@);
        assert("lightgrey"@[0] != 'n' && "lightgrey"@[0] != 't');
        lemma_parse_name(s, "lightgrey"@);
    }
    if eq_ignore_case(t, "darkgray"@) {
        assert(lower_seq("darkgray"@) =~= "darkgray"@);
        assert("darkgray"@[0] != 'n' && "darkgray"@[0] != 't');
        lemma_parse_name(s, "darkgray"@);
    }
    if eq_ignore_case(t, "darkgrey"@) {
        assert(lower_seq("darkgrey"@) =~= "darkgrey"@);
        assert("darkgrey"@[0] != 'n' && "darkgrey"@[0] != 't');
        lemma_parse_name(s, "darkgrey"@);
    }
}

/// `to_hex` writes `#` and then each channel as two lowercase hex digits, the high digit
/// first: red, then green, then blue.
pub proof fn lemma_hex_digits(c: Color)
    ensures
        hex_spec(c).len() == 7,
        hex_spec(c)[0] == '#',
        forall|i: int| 1 <= i < 7 ==> is_digit(#[trigger] hex_spec(c)[i]) || ('a' <= hex_spec(c)[i]
            && hex_spec(c)[i] <= 'f'),
        hex_val(hex_spec(c)[1]) * 16 + hex_val(hex_spec(c)[2]) == c.r,
        hex_val(hex_spec(c)[3]) * 16 + hex_val(hex_spec(c)[4]) == c.g,
        hex_val(hex_spec(c)[5]) * 16 + hex_val(hex_spec(c)[6]) == c.b,
{
    lemma_hex_digit(c.r as int / 16);
    lemma_hex_digit(c.r as int % 16);
    lemma_hex_digit(c.g as int / 16);
    lemma_hex_digit(c.g as int % 16);
    lemma_hex_digit(c.b as int / 16);
    lemma_hex_digit(c.b as int % 16);
}

/// A `#` followed by hex digits (either case) gives the channels the digits spell, red first:
/// `#rrggbb` an opaque color, `#rgb` the same with each digit doubled, `#rrggbbaa` with alpha
/// last. Any other number of digits is not a color.
pub proof fn lemma_hex_forms(h: Seq<char>)
    requires
        forall|i: int| 0 <= i < h.len() ==> is_hex(#[trigger] h[i]),
    ensures
        h.len() == 6 ==> parse_spec(seq!['#'] + h) == Some(
            Color {
                r: (hex_val(h[0]) * 16 + hex_val(h[1])) as u8,
                g: (hex_val(h[2]) * 16 + hex_val(h[3])) as u8,
                b: (hex_val(h[4]) * 16 + hex_val(h[5])) as u8,
                a: 255,
            },
        ),
        h.len() == 3 ==> parse_spec(seq!['#'] + h) == Some(
            Color {
                r: (hex_val(h[0]) * 17) as u8,
                g: (hex_val(h[1]) * 17) as u8,
                b: (hex_val(h[2]) * 17) as u8,
                a: 255,
            },
        ),
        h.len() == 8 ==> parse_spec(seq!['#'] + h) == Some(
            Color {
                r: (hex_val(h[0]) * 16 + hex_val(h[1])) as u8,
                g: (hex_val(h[2]) * 16 + hex_val(h[3])) as u8,
                b: (hex_val(h[4]) * 16 + hex_val(h[5])) as u8,
                a: (hex_val(h[6]) * 16 + hex_val(h[7])) as u8,
            },
        ),
        !(h.len() == 3 || h.len() == 6 || h.len() == 8) ==> parse_spec(seq!['#'] + h) is None,
{
    let s = seq!['#'] + h;
    reveal_strlit("none");
    reveal_strlit("transparent");
    reveal_strlit("black");
    reveal_strlit("white");
    reveal_strlit("red");
    reveal_strlit("green");
    reveal_strlit("blue");
    reveal_strlit("yellow");
    reveal_strlit("orange");
    reveal_strlit("gray");
    reveal_strlit("grey");
    reveal_strlit("lightgray");
    reveal_strlit("lightgrey");
    reveal_strlit("darkgray");
    reveal_strlit("darkgrey");
    assert("none"@[0] != '#');
    assert("transparent"@[0] != '#');
    assert("black"@[0] != '#');
    assert("white"@[0] != '#');
    assert("red"@[0] != '#');
    assert("green"@[0] != '#');
    assert("blue"@[0] != '#');
    assert("yellow"@[0] != '#');
    assert("orange"@[0] != '#');
    assert("gray"@[0] != '#');
    assert("grey"@[0] != '#');
    assert("lightgray"@[0] != '#');
    assert("lightgrey"@[0] != '#');
    assert("darkgray"@[0] != '#');
    assert("darkgrey"@[0] != '#');
    assert(!crate::text_util::is_ws(s[0]));
    assert(crate::text_util::trim_start(s) == s);
    if h.len() > 0 {
        assert(s.last() == h[h.len() - 1]);
        assert(is_hex(h[h.len() - 1]));
    }
    assert(!crate::text_util::is_ws(s.last()));
    assert(crate::text_util::trim_end(s) == s);
    assert(trim(s) == s);
    assert(lower_seq(s)[0] == '#');
    assert(!eq_ignore_case(s, "none"@)) by {
        assert(lower_seq("none"@)[0] == 'n');
    }
    assert(!eq_ignore_case(s, "transparent"@)) by {
        assert(lower_seq("transparent"@)[0] == 't');
    }
    assert(named_spec(lower_seq(s)) is None);
    assert(s.drop_first() =~= h);
}

} // verus!
