//! Text pieces of the SVG output: XML escaping and opacity attributes.
use vstd::prelude::*;
use crate::style::Color;
use crate::text_util::{chars_of, is_digit, push_chars, string_from};

verus! {

/// The XML text for one character.
pub open spec fn escape_char(c: char) -> Seq<char> {
    if c == '&' {
        "&amp;"@
    } else if c == '<' {
        "&lt;"@
    } else if c == '>' {
        "&gt;"@
    } else if c == '"' {
        "&quot;"@
    } else if c == '\'' {
        "&apos;"@
    } else {
        seq![c]
    }
}

/// `s` with the XML special characters replaced by entities.
pub open spec fn escape_spec(s: Seq<char>) -> Seq<char>
    decreases s.len(),
{
    if s.len() == 0 {
        Seq::<char>::empty()
    } else {
        escape_spec(s.drop_last()) + escape_char(s.last())
    }
}

/// Escape text for use in XML content and attribute values.
pub fn escape_xml(text: &str) -> (out: String)
    ensures
        out@ == escape_spec(text@),
{
    let v = chars_of(text);
    let mut out = String::new();
    let mut i: usize = 0;
    while i < v.len()
        invariant
            i <= v.len(),
            v@ == text@,
            out@ == escape_spec(v@.take(i as int)),
        decreases v.len() - i,
    {
        let ch = v[i];
        let piece: &str = if ch == '&' {
            "&amp;"
        } else if ch == '<' {
            "&lt;"
        } else if ch == '>' {
            "&gt;"
        } else if ch == '"' {
            "&quot;"
        } else if ch == '\'' {
            "&apos;"
        } else {
            ""
        };
        if ch == '&' || ch == '<' || ch == '>' || ch == '"' || ch == '\'' {
            push_chars(&mut out, chars_of(piece).as_slice());
        } else {
            crate::text_util::push_char(&mut out, ch);
        }
        assert(v@.take(i + 1).drop_last() == v@.take(i as int));
        i += 1;
    }
    assert(v@.take(i as int) == v@);
    out
}

/// Escaping works piecewise: the escape of a concatenation is the concatenation of escapes.
pub proof fn lemma_escape_concat(a: Seq<char>, b: Seq<char>)
    ensures
        escape_spec(a + b) == escape_spec(a) + escape_spec(b),
    decreases b.len(),
{
    if b.len() == 0 {
        assert(a + b == a);
    } else {
        lemma_escape_concat(a, b.drop_last());
        assert((a + b).drop_last() == a + b.drop_last());
        assert((a + b).last() == b.last());
    }
}

/// Escaped text holds none of `<`, `>`, `"`, `'`.
pub proof fn lemma_escape_safe(s: Seq<char>)
    ensures
        forall|k: int|
            0 <= k < escape_spec(s).len() ==> {
                let c = #[trigger] escape_spec(s)[k];
                c != '<' && c != '>' && c != '"' && c != '\''
            },
    decreases s.len(),
{
    reveal_strlit("&amp;");
    reveal_strlit("&lt;");
    reveal_strlit("&gt;");
    reveal_strlit("&quot;");
    reveal_strlit("&apos;");
    if s.len() > 0 {
        lemma_escape_safe(s.drop_last());
        let p = escape_spec(s.drop_last());
        let q = escape_char(s.last());
        assert forall|k: int| 0 <= k < q.len() implies q[k] != '<' && q[k] != '>' && q[k] != '"'
            && q[k] != '\'' by {}
        assert forall|k: int| 0 <= k < escape_spec(s).len() implies {
            let c = #[trigger] escape_spec(s)[k];
            c != '<' && c != '>' && c != '"' && c != '\''
        } by {
            if k < p.len() {
                assert(escape_spec(s)[k] == p[k]);
            } else {
                assert(escape_spec(s)[k] == q[k - p.len()]);
            }
        }
    }
}

/// Whether `s` begins with `p`.
pub open spec fn starts_with(s: Seq<char>, p: Seq<char>) -> bool {
    p.len() <= s.len() && s.take(p.len() as int) == p
}

/// XML text read back: each of the five entities that escaping writes becomes its character,
/// reading from the left; every other character stands for itself.
pub open spec fn unescape_spec(s: Seq<char>) -> Seq<char>
    decreases s.len(),
{
    if s.len() == 0 {
        Seq::<char>::empty()
    } else if starts_with(s, seq!['&', 'a', 'm', 'p', ';']) {
        seq!['&'] + unescape_spec(s.skip(5))
    } else if starts_with(s, seq!['&', 'l', 't', ';']) {
        seq!['<'] + unescape_spec(s.skip(4))
    } else if starts_with(s, seq!['&', 'g', 't', ';']) {
        seq!['>'] + unescape_spec(s.skip(4))
    } else if starts_with(s, seq!['&', 'q', 'u', 'o', 't', ';']) {
        seq!['"'] + unescape_spec(s.skip(6))
    } else if starts_with(s, seq!['&', 'a', 'p', 'o', 's', ';']) {
        seq!['\''] + unescape_spec(s.skip(6))
    } else {
        seq![s[0]] + unescape_spec(s.drop_first())
    }
}

proof fn lemma_unescape_char(c: char, rest: Seq<char>)
    ensures
        unescape_spec(escape_char(c) + rest) == seq![c] + unescape_spec(rest),
{
    reveal_strlit("&amp;");
    reveal_strlit("&lt;");
    reveal_strlit("&gt;");
    reveal_strlit("&quot;");
    reveal_strlit("&apos;");
    assert("&amp;"@ =~= seq!['&', 'a', 'm', 'p', ';']);
    assert("&lt;"@ =~= seq!['&', 'l', 't', ';']);
    assert("&gt;"@ =~= seq!['&', 'g', 't', ';']);
    assert("&quot;"@ =~= seq!['&', 'q', 'u', 'o', 't', ';']);
    assert("&apos;"@ =~= seq!['&', 'a', 'p', 'o', 's', ';']);
    let e = escape_char(c);
    let s = e + rest;
    assert(s.skip(e.len() as int) == rest);
    assert(s.take(e.len() as int) == e);
    if c == '&' || c == '<' || c == '>' || c == '"' || c == '\'' {
        assert(s[0] == '&');
        assert(s[1] == e[1]);
        assert(s[2] == e[2]);
        assert(s.take(4) == e.take(4));
    } else {
        assert(s[0] == c);
        assert(s.drop_first() == rest);
        assert(!starts_with(s, seq!['&', 'a', 'm', 'p', ';']));
        assert(!starts_with(s, seq!['&', 'l', 't', ';']));
        assert(!starts_with(s, seq!['&', 'g', 't', ';']));
        assert(!starts_with(s, seq!['&', 'q', 'u', 'o', 't', ';']));
        assert(!starts_with(s, seq!['&', 'a', 'p', 'o', 's', ';']));
    }
}

/// Reading escaped text back gives the original text.
pub proof fn lemma_escape_roundtrip(t: Seq<char>)
    ensures
        unescape_spec(escape_spec(t)) == t,
    decreases t.len(),
{
    if t.len() > 0 {
        let c = t[0];
        let u = t.drop_first();
        assert(seq![c] + u == t);
        lemma_escape_concat(seq![c], u);
        assert(seq![c].drop_last() =~= Seq::<char>::empty());
        assert(escape_spec(seq![c]) == escape_spec(Seq::<char>::empty()) + escape_char(c));
        assert(escape_spec(seq![c]) =~= escape_char(c));
        lemma_unescape_char(c, escape_spec(u));
        lemma_escape_roundtrip(u);
    }
}

/// Text without `&`, `<`, `>`, `"` or `'` is left as it is.
pub proof fn lemma_escape_plain(t: Seq<char>)
    requires
        forall|k: int|
            0 <= k < t.len() ==> {
                let c = #[trigger] t[k];
                c != '&' && c != '<' && c != '>' && c != '"' && c != '\''
            },
    ensures
        escape_spec(t) == t,
    decreases t.len(),
{
    if t.len() > 0 {
        lemma_escape_plain(t.drop_last());
        assert(t.drop_last() + seq![t.last()] == t);
    }
}

/// `alpha / 255` in thousandths, rounded to nearest.
pub open spec fn thousandths(a: u8) -> int {
    (2000 * a + 255) / 510
}

/// The opacity written for an alpha `a` below 255 is `a / 255` rounded to the nearest
/// thousandth: `0` for no alpha, else `0.` and the digits of that number of thousandths `t`
/// (hundreds first, trailing zeros left out), where `1000·a` lies within half of `255` of
/// `255·t`.
#[verifier::rlimit(40)]
#[verifier::spinoff_prover]
pub proof fn lemma_opacity_nearest(a: u8)
    requires
        a < 255,
    ensures
        -255 <= 2 * (1000 * a - 255 * thousandths(a)) <= 255,
        0 <= thousandths(a) < 1000,
        a == 0 ==> opacity_text(a) == seq!['0'],
        a > 0 ==> {
            let s = opacity_text(a);
            &&& 3 <= s.len() <= 5
            &&& s[0] == '0' && s[1] == '.'
            &&& forall|k: int| 2 <= k < s.len() ==> is_digit(#[trigger] s[k])
            &&& s.len() > 3 ==> s[s.len() - 1] != '0'
            &&& (s[2] as int - '0' as int) * 100 + (if s.len() > 3 { (s[3] as int - '0' as int) * 10 } else { 0 })
                + (if s.len() > 4 { s[4] as int - '0' as int } else { 0 }) == thousandths(a)
        },
{
    let t = thousandths(a);
    assert(510 * t <= 2000 * a + 255 < 510 * t + 510);
    assert(0 <= t < 1000);
    let h = t / 100;
    let d = (t / 10) % 10;
    let u = t % 10;
    assert(0 <= h < 10 && 0 <= d < 10 && 0 <= u < 10);
    assert(h * 100 + d * 10 + u == t);
    assert(digit_char(h) as int - '0' as int == h);
    assert(digit_char(d) as int - '0' as int == d);
    assert(digit_char(u) as int - '0' as int == u);
    if a > 0 {
        let s = opacity_text(a);
        if t % 100 == 0 {
            assert(d == 0 && u == 0);
        } else if t % 10 == 0 {
            assert(u == 0 && d != 0);
        }
        assert(s[0] == '0' && s[1] == '.');
    }
}

pub open spec fn digit_char(d: int) -> char {
    ('0' as int + d) as char
}

/// `alpha / 255` written with at most three decimals and no trailing zeros.
pub open spec fn opacity_text(a: u8) -> Seq<char> {
    let t = thousandths(a);
    if a == 0 {
        seq!['0']
    } else if t % 100 == 0 {
        seq!['0', '.', digit_char(t / 100)]
    } else if t % 10 == 0 {
        seq!['0', '.', digit_char(t / 100), digit_char((t / 10) % 10)]
    } else {
        seq!['0', '.', digit_char(t / 100), digit_char((t / 10) % 10), digit_char(t % 10)]
    }
}

/// The attribute text for a color's opacity under the attribute `name`.
pub open spec fn opacity_attr_spec(name: Seq<char>, a: u8) -> Seq<char> {
    if a == 255 {
        Seq::<char>::empty()
    } else {
        seq![' '] + name + "=\""@ + opacity_text(a) + "\""@
    }
}

fn digit(d: u32) -> (c: char)
    requires
        d < 10,
    ensures
        c == digit_char(d as int),
{
    (('0' as u8) + (d as u8)) as char
}

/// An SVG opacity attribute (` name="0.502"`) for a color that is not fully opaque; empty for
/// an opaque color. The value is the alpha over 255, to three decimals.
pub fn opacity_attr(name: &str, color: Color) -> (out: String)
    ensures
        out@ == opacity_attr_spec(name@, color.a),
{
    if color.a == 255 {
        return String::new();
    }
    let a = color.a as u32;
    let t = (2000 * a + 255) / 510;
    assert(t < 1000) by {
        assert(a <= 254);
    }
    let mut v: Vec<char> = Vec::new();
    if a == 0 {
        v.push('0');
    } else if t % 100 == 0 {
        v.push('0');
        v.push('.');
        v.push(digit(t / 100));
    } else if t % 10 == 0 {
        v.push('0');
        v.push('.');
        v.push(digit(t / 100));
        v.push(digit((t / 10) % 10));
    } else {
        v.push('0');
        v.push('.');
        v.push(digit(t / 100));
        v.push(digit((t / 10) % 10));
        v.push(digit(t % 10));
    }
    assert(v@ == opacity_text(color.a));
    let mut out = string_from(&chars_of(" "));
    push_chars(&mut out, chars_of(name).as_slice());
    push_chars(&mut out, chars_of("=\"").as_slice());
    push_chars(&mut out, v.as_slice());
    push_chars(&mut out, chars_of("\"").as_slice());
    proof {
        reveal_strlit(" ");
    }
    out
}

} // verus!
