//! Font families: choosing a family from a CSS-like name, describing face styles, and
//! grouping the faces that the system provides into families.
use vstd::prelude::*;
use crate::order::{has_key, lemma_lookup_at, lex_lt, lookup, SortedMap};
use crate::text_util::{
    chars_of, eq_ignore_case, eq_ignore_case_str, eq_str, lower_seq, lowered, push_chars,
    string_from, trim, trimmed,
};

verus! {

/// Information about one font family available on the system.
#[derive(Debug, Clone, PartialEq, Eq)]
pub struct FontFamily {
    pub name: String,
    /// Distinct styles available (e.g. `"Regular"`, `"Bold"`, `"Italic"`), sorted.
    pub styles: Vec<String>,
    pub monospaced: bool,
}

/// The slant of a font face.
#[derive(Debug, Clone, Copy, PartialEq, Eq, Structural)]
pub enum FaceStyle {
    Normal,
    Italic,
    Oblique,
}

/// What the font database reports about one face.
#[derive(Debug, Clone)]
pub struct FaceRecord {
    /// The face's family names, the first being the preferred one.
    pub families: Vec<String>,
    pub post_script_name: String,
    pub style: FaceStyle,
    pub weight: u16,
    pub monospaced: bool,
}

/// A family choice: one of the CSS generic families, or a specific family name.
#[derive(Debug, Clone, PartialEq, Eq)]
pub enum FamilyChoice {
    SansSerif,
    Serif,
    Monospace,
    Cursive,
    Fantasy,
    Name(String),
}

pub enum FamilyChoiceV {
    SansSerif,
    Serif,
    Monospace,
    Cursive,
    Fantasy,
    Name(Seq<char>),
}

impl View for FamilyChoice {
    type V = FamilyChoiceV;

    open spec fn view(&self) -> FamilyChoiceV {
        match self {
            FamilyChoice::SansSerif => FamilyChoiceV::SansSerif,
            FamilyChoice::Serif => FamilyChoiceV::Serif,
            FamilyChoice::Monospace => FamilyChoiceV::Monospace,
            FamilyChoice::Cursive => FamilyChoiceV::Cursive,
            FamilyChoice::Fantasy => FamilyChoiceV::Fantasy,
            FamilyChoice::Name(n) => FamilyChoiceV::Name(n@),
        }
    }
}

pub open spec fn family_spec(name: Seq<char>) -> FamilyChoiceV {
    let l = lower_seq(trim(name));
    if l == "sans-serif"@ || l == "sans"@ {
        FamilyChoiceV::SansSerif
    } else if l == "serif"@ {
        FamilyChoiceV::Serif
    } else if l == "monospace"@ || l == "mono"@ {
        FamilyChoiceV::Monospace
    } else if l == "cursive"@ {
        FamilyChoiceV::Cursive
    } else if l == "fantasy"@ {
        FamilyChoiceV::Fantasy
    } else {
        FamilyChoiceV::Name(name)
    }
}

/// The generic family names, in any case and with white space around them: `sans-serif` or
/// `sans`, `serif`, `monospace` or `mono`, `cursive` and `fantasy` choose the generic family
/// of that name; any other text names a specific family, kept as written.
pub proof fn lemma_family_words(name: Seq<char>)
    ensures
        eq_ignore_case(trim(name), "sans-serif"@) || eq_ignore_case(trim(name), "sans"@) ==> family_spec(name) == FamilyChoiceV::SansSerif,
        eq_ignore_case(trim(name), "serif"@) ==> family_spec(name) == FamilyChoiceV::Serif,
        eq_ignore_case(trim(name), "monospace"@) || eq_ignore_case(trim(name), "mono"@) ==> family_spec(name) == FamilyChoiceV::Monospace,
        eq_ignore_case(trim(name), "cursive"@) ==> family_spec(name) == FamilyChoiceV::Cursive,
        eq_ignore_case(trim(name), "fantasy"@) ==> family_spec(name) == FamilyChoiceV::Fantasy,
        !(eq_ignore_case(trim(name), "sans-serif"@) || eq_ignore_case(trim(name), "sans"@) || eq_ignore_case(trim(name), "serif"@) || eq_ignore_case(trim(name), "monospace"@) || eq_ignore_case(trim(name), "mono"@) || eq_ignore_case(trim(name), "cursive"@) || eq_ignore_case(trim(name), "fantasy"@)) ==> family_spec(name) == FamilyChoiceV::Name(name),
{
    reveal_strlit("sans-serif");
    reveal_strlit("sans");
    reveal_strlit("serif");
    reveal_strlit("monospace");
    reveal_strlit("mono");
    reveal_strlit("cursive");
    reveal_strlit("fantasy");
    assert(lower_seq("sans-serif"@) =~= "sans-serif"@);
    assert(lower_seq("sans"@) =~= "sans"@);
    assert(lower_seq("serif"@) =~= "serif"@);
    assert(lower_seq("monospace"@) =~= "monospace"@);
    assert(lower_seq("mono"@) =~= "mono"@);
    assert(lower_seq("cursive"@) =~= "cursive"@);
    assert(lower_seq("fantasy"@) =~= "fantasy"@);
    if eq_ignore_case(trim(name), "sans-serif"@) {
        assert("sans-serif"@.len() != "sans"@.len());
        assert("sans-serif"@.len() != "serif"@.len());
        assert("sans-serif"@.len() != "monospace"@.len());
        assert("sans-serif"@.len() != "mono"@.len());
        assert("sans-serif"@.len() != "cursive"@.len());
        assert("sans-serif"@.len() != "fantasy"@.len());
    }
    if eq_ignore_case(trim(name), "sans"@) {
        assert("sans"@.len() != "sans-serif"@.len());
        assert("sans"@.len() != "serif"@.len());
        assert("sans"@.len() != "monospace"@.len());
        assert("sans"@[0] != "mono"@[0]);
        assert("sans"@.len() != "cursive"@.len());
        assert("sans"@.len() != "fantasy"@.len());
    }
    if eq_ignore_case(trim(name), "serif"@) {
        assert("serif"@.len() != "sans-serif"@.len());
        assert("serif"@.len() != "sans"@.len());
        assert("serif"@.len() != "monospace"@.len());
        assert("serif"@.len() != "mono"@.len());
        assert("serif"@.len() != "cursive"@.len());
        assert("serif"@.len() != "fantasy"@.len());
    }
    if eq_ignore_case(trim(name), "monospace"@) {
        assert("monospace"@.len() != "sans-serif"@.len());
        assert("monospace"@.len() != "sans"@.len());
        assert("monospace"@.len() != "serif"@.len());
        assert("monospace"@.len() != "mono"@.len());
        assert("monospace"@.len() != "cursive"@.len());
        assert("monospace"@.len() != "fantasy"@.len());
    }
    if eq_ignore_case(trim(name), "mono"@) {
        assert("mono"@.len() != "sans-serif"@.len());
        assert("mono"@[0] != "sans"@[0]);
        assert("mono"@.len() != "serif"@.len());
        assert("mono"@.len() != "monospace"@.len());
        assert("mono"@.len() != "cursive"@.len());
        assert("mono"@.len() != "fantasy"@.len());
    }
    if eq_ignore_case(trim(name), "cursive"@) {
        assert("cursive"@.len() != "sans-serif"@.len());
        assert("cursive"@.len() != "sans"@.len());
        assert("cursive"@.len() != "serif"@.len());
        assert("cursive"@.len() != "monospace"@.len());
        assert("cursive"@.len() != "mono"@.len());
        assert("cursive"@[0] != "fantasy"@[0]);
    }
    if eq_ignore_case(trim(name), "fantasy"@) {
        assert("fantasy"@.len() != "sans-serif"@.len());
        assert("fantasy"@.len() != "sans"@.len());
        assert("fantasy"@.len() != "serif"@.len());
        assert("fantasy"@.len() != "monospace"@.len());
        assert("fantasy"@.len() != "mono"@.len());
        assert("fantasy"@[0] != "cursive"@[0]);
    }
}

/// `describe_style` writes a weight in plain decimal digits: the digits read back as the
/// weight.
pub proof fn lemma_decimal_text(n: nat)
    ensures
        crate::update::all_decimal(decimal_text(n)),
        decimal_text(n).len() > 0,
        crate::update::decimal_value(decimal_text(n)) == n,
    decreases n,
{
    if n >= 10 {
        lemma_decimal_text(n / 10);
        let t = decimal_text(n);
        assert(t.drop_last() == decimal_text(n / 10));
        assert(t.last() == ('0' as int + n % 10) as char);
        assert((t.last() as nat - '0' as nat) as nat == n % 10);
        assert((n / 10) * 10 + n % 10 == n);
    } else {
        let t = decimal_text(n);
        assert(t.drop_last().len() == 0);
        assert(crate::update::decimal_value(t.drop_last()) == 0);
    }
}

/// Map a CSS-ish family string to a family choice. Generic names (any case, surrounding white
/// space ignored) map to the generic families; anything else names a specific family.
pub fn family_of(name: &str) -> (f: FamilyChoice)
    ensures
        f@ == family_spec(name@),
{
    let v = chars_of(name);
    let l = lowered(trimmed(&v).as_slice());
    if eq_str(l.as_slice(), "sans-serif") || eq_str(l.as_slice(), "sans") {
        FamilyChoice::SansSerif
    } else if eq_str(l.as_slice(), "serif") {
        FamilyChoice::Serif
    } else if eq_str(l.as_slice(), "monospace") || eq_str(l.as_slice(), "mono") {
        FamilyChoice::Monospace
    } else if eq_str(l.as_slice(), "cursive") {
        FamilyChoice::Cursive
    } else if eq_str(l.as_slice(), "fantasy") {
        FamilyChoice::Fantasy
    } else {
        FamilyChoice::Name(string_from(&v))
    }
}

pub open spec fn style_word(s: FaceStyle) -> Seq<char> {
    match s {
        FaceStyle::Normal => "Regular"@,
        FaceStyle::Italic => "Italic"@,
        FaceStyle::Oblique => "Oblique"@,
    }
}

/// Decimal digits of `n`.
pub open spec fn decimal_text(n: nat) -> Seq<char>
    decreases n,
{
    if n < 10 {
        seq![('0' as int + n) as char]
    } else {
        decimal_text(n / 10) + seq![('0' as int + n % 10) as char]
    }
}

/// A human-readable style: `Regular`, `Bold`, `Italic`, `Bold Italic`, or the style with its
/// weight, e.g. `Regular (300)`.
pub open spec fn describe_spec(style: FaceStyle, weight: u16) -> Seq<char> {
    let w = style_word(style);
    if weight == 400 {
        w
    } else if weight == 700 && w == "Regular"@ {
        "Bold"@
    } else if weight == 700 {
        "Bold "@ + w
    } else {
        w + " ("@ + decimal_text(weight as nat) + ")"@
    }
}

fn decimal(n: u16) -> (v: Vec<char>)
    ensures
        v@ == decimal_text(n as nat),
    decreases n,
{
    if n < 10 {
        let mut v = Vec::new();
        v.push((('0' as u8) + (n as u8)) as char);
        v
    } else {
        let mut v = decimal(n / 10);
        v.push((('0' as u8) + ((n % 10) as u8)) as char);
        v
    }
}

fn style_name(s: FaceStyle) -> (r: &'static str)
    ensures
        r@ == style_word(s),
{
    match s {
        FaceStyle::Normal => "Regular",
        FaceStyle::Italic => "Italic",
        FaceStyle::Oblique => "Oblique",
    }
}

/// Describe a face's style and weight.
pub fn describe_style(style: FaceStyle, weight: u16) -> (r: String)
    ensures
        r@ == describe_spec(style, weight),
{
    let w = chars_of(style_name(style));
    if weight == 400 {
        string_from(&w)
    } else if weight == 700 && eq_str(w.as_slice(), "Regular") {
        string_from(&chars_of("Bold"))
    } else if weight == 700 {
        let mut r = string_from(&chars_of("Bold "));
        push_chars(&mut r, w.as_slice());
        r
    } else {
        let mut r = string_from(&w);
        push_chars(&mut r, chars_of(" (").as_slice());
        push_chars(&mut r, decimal(weight).as_slice());
        push_chars(&mut r, chars_of(")").as_slice());
        r
    }
}

/// The family a face is listed under: its first family name, else its PostScript name.
pub open spec fn face_family(f: FaceRecord) -> Seq<char> {
    if f.families@.len() > 0 {
        f.families@[0]@
    } else {
        f.post_script_name@
    }
}

pub open spec fn face_style(f: FaceRecord) -> Seq<char> {
    describe_spec(f.style, f.weight)
}

/// Some face among the first `n` is listed under `k`.
pub open spec fn has_face(fs: Seq<FaceRecord>, n: int, k: Seq<char>) -> bool {
    exists|j: int| 0 <= j < n && #[trigger] face_family(fs[j]) == k
}

/// Some face among the first `n` is listed under `k` with style `st`.
pub open spec fn has_face_style(fs: Seq<FaceRecord>, n: int, k: Seq<char>, st: Seq<char>) -> bool {
    exists|j: int| 0 <= j < n && #[trigger] face_family(fs[j]) == k && face_style(fs[j]) == st
}

/// Some face among the first `n` is listed under `k` and is monospaced.
pub open spec fn has_mono_face(fs: Seq<FaceRecord>, n: int, k: Seq<char>) -> bool {
    exists|j: int| 0 <= j < n && #[trigger] face_family(fs[j]) == k && fs[j].monospaced
}

pub open spec fn strictly_sorted(v: Seq<Seq<char>>) -> bool {
    forall|i: int, j: int| 0 <= i < j < v.len() ==> lex_lt(#[trigger] v[i], #[trigger] v[j])
}

pub open spec fn names_of(r: Seq<FontFamily>) -> Seq<Seq<char>> {
    r.map_values(|f: FontFamily| f.name@)
}

pub open spec fn name_of(f: FontFamily) -> Seq<char> {
    f.name@
}

pub open spec fn styles_of(f: FontFamily) -> Seq<Seq<char>> {
    f.styles@.map_values(|s: String| s@)
}

/// `r` lists the families of the faces `fs`: one entry per family, sorted by name, each with
/// its distinct styles sorted, and monospaced when any of its faces is.
pub open spec fn groups_faces(r: Seq<FontFamily>, fs: Seq<FaceRecord>) -> bool {
    &&& strictly_sorted(names_of(r))
    &&& forall|k: Seq<char>|
        (exists|i: int| 0 <= i < r.len() && #[trigger] name_of(r[i]) == k) <==> has_face(
            fs,
            fs.len() as int,
            k,
        )
    &&& forall|i: int|
        0 <= i < r.len() ==> {
            &&& strictly_sorted(#[trigger] styles_of(r[i]))
            &&& forall|st: Seq<char>|
                styles_of(r[i]).contains(st) <==> has_face_style(fs, fs.len() as int, r[i].name@, st)
            &&& r[i].monospaced == has_mono_face(fs, fs.len() as int, r[i].name@)
        }
}

type Groups = SortedMap<(SortedMap<()>, bool)>;

/// The grouping state after the first `n` faces.
pub open spec fn grouped(m: Seq<(Seq<char>, (SortedMap<()>, bool))>, fs: Seq<FaceRecord>, n: int) -> bool {
    &&& forall|k: Seq<char>| #[trigger] has_key(m, k) <==> has_face(fs, n, k)
    &&& forall|k: Seq<char>|
        #[trigger] lookup(m, k) is Some ==> entry_ok(fs, n, k, lookup(m, k)->0)
}

/// The styles and monospace flag recorded for family `k` after the first `n` faces.
pub open spec fn entry_ok(fs: Seq<FaceRecord>, n: int, k: Seq<char>, v: (SortedMap<()>, bool)) -> bool {
    &&& v.0.wf()
    &&& forall|st: Seq<char>| #[trigger] has_key(v.0.items(), st) <==> has_face_style(fs, n, k, st)
    &&& v.1 == has_mono_face(fs, n, k)
}

fn face_family_name(f: &FaceRecord) -> (r: &String)
    ensures
        r@ == face_family(*f),
{
    if f.families.len() > 0 {
        &f.families[0]
    } else {
        &f.post_script_name
    }
}

/// Group faces into families, sorted by name, with each family's distinct styles sorted.
pub fn group_families(faces: &Vec<FaceRecord>) -> (r: Vec<FontFamily>)
    ensures
        groups_faces(r@, faces@),
{
    let ghost fs = faces@;
    let mut m: Groups = SortedMap::new();
    let mut i: usize = 0;
    proof {
        assert forall|k: Seq<char>| #[trigger] has_key(m.items(), k) <==> has_face(fs, 0, k) by {}
    }
    while i < faces.len()
        invariant
            i <= faces@.len(),
            fs == faces@,
            m.wf(),
            grouped(m.items(), fs, i as int),
        decreases faces.len() - i,
    {
        let f = &faces[i];
        let name = face_family_name(f).clone();
        let style = describe_style(f.style, f.weight);
        let key = chars_of(name.as_str());
        let ghost before = m.items();
        let prev = m.take(key.as_slice());
        let (mut styles, mut mono) = match prev {
            Some(v) => v,
            None => (SortedMap::new(), false),
        };
        assert(prev is Some ==> (styles, mono) == prev->0);
        assert(prev is None ==> mono == false);
        let ghost old_styles = styles.items();
        let ghost old_mono = mono;
        styles.insert(style, ());
        mono = mono || f.monospaced;
        assert(mono == (old_mono || fs[i as int].monospaced));
        let ghost after_take = m.items();
        m.insert(name, (styles, mono));
        proof {
            let k0 = name@;
            let s0 = describe_spec(f.style, f.weight);
            assert(face_family(fs[i as int]) == k0);
            assert(face_style(fs[i as int]) == s0);
            assert forall|k: Seq<char>| #[trigger] has_key(m.items(), k) <==> has_face(fs, i + 1, k) by {
                if has_face(fs, i + 1, k) && k != k0 {
                    let j = choose|j: int| 0 <= j < i + 1 && #[trigger] face_family(fs[j]) == k;
                    assert(j < i);
                }
                if has_face(fs, i as int, k) {
                    let j = choose|j: int| 0 <= j < i && #[trigger] face_family(fs[j]) == k;
                    assert(has_face(fs, i + 1, k));
                }
                if k == k0 {
                    assert(has_face(fs, i + 1, k));
                }
            }
            assert forall|k: Seq<char>|
                #[trigger] lookup(m.items(), k) is Some implies entry_ok(fs, i + 1, k, lookup(m.items(), k)->0) by {
                let v = lookup(m.items(), k)->0;
                if k == k0 {
                    assert(v == (styles, mono));
                    assert(lookup(before, k0) == prev);
                    crate::order::lemma_lookup_spec(before, k0);
                    if prev is Some {
                        assert(entry_ok(fs, i as int, k0, prev->0));
                    }
                    assert forall|st: Seq<char>| #[trigger] has_key(v.0.items(), st) <==> has_face_style(
                        fs,
                        i + 1,
                        k,
                        st,
                    ) by {
                        if has_face_style(fs, i + 1, k, st) && st != s0 {
                            let j = choose|j: int| 0 <= j < i + 1 && #[trigger] face_family(fs[j]) == k && face_style(fs[j]) == st;
                            assert(j < i);
                            assert(has_face_style(fs, i as int, k, st));
                        }
                        if has_face_style(fs, i as int, k, st) {
                            let j = choose|j: int| 0 <= j < i && #[trigger] face_family(fs[j]) == k && face_style(fs[j]) == st;
                            assert(has_face(fs, i as int, k));
                            assert(has_face_style(fs, i + 1, k, st));
                        }
                        if st == s0 {
                            assert(has_face_style(fs, i + 1, k, st));
                        }
                        if prev is None {
                            assert(!has_key(before, k0));
                            assert(!has_face(fs, i as int, k0));
                            if has_face_style(fs, i as int, k, st) {
                                let j = choose|j: int| 0 <= j < i && #[trigger] face_family(fs[j]) == k && face_style(fs[j]) == st;
                                assert(has_face(fs, i as int, k0));
                            }
                            assert(!has_key(old_styles, st));
                        }
                    }
                    if has_mono_face(fs, i + 1, k) && !fs[i as int].monospaced {
                        let j = choose|j: int| 0 <= j < i + 1 && #[trigger] face_family(fs[j]) == k && fs[j].monospaced;
                        assert(j < i);
                        assert(has_mono_face(fs, i as int, k));
                    }
                    if has_mono_face(fs, i as int, k) {
                        let j = choose|j: int| 0 <= j < i && #[trigger] face_family(fs[j]) == k && fs[j].monospaced;
                        assert(has_face(fs, i as int, k));
                        assert(has_mono_face(fs, i + 1, k));
                    }
                    if fs[i as int].monospaced {
                        assert(has_mono_face(fs, i + 1, k));
                    }
                    if prev is None {
                        if has_mono_face(fs, i as int, k) {
                            let j = choose|j: int| 0 <= j < i && #[trigger] face_family(fs[j]) == k && fs[j].monospaced;
                            assert(has_face(fs, i as int, k0));
                        }
                    }
                    if prev is Some {
                        assert(old_mono == has_mono_face(fs, i as int, k0));
                    } else {
                        assert(!old_mono);
                        assert(!has_key(before, k0));
                        assert(!has_face(fs, i as int, k0));
                        if has_mono_face(fs, i as int, k0) {
                            let j = choose|j: int| 0 <= j < i && #[trigger] face_family(fs[j]) == k0 && fs[j].monospaced;
                            assert(has_face(fs, i as int, k0));
                        }
                    }
                    assert(has_mono_face(fs, i + 1, k0) == (has_mono_face(fs, i as int, k0)
                        || fs[i as int].monospaced));
                    assert(v.0.wf());
                    assert(v.1 == has_mono_face(fs, i + 1, k));
                    assert(entry_ok(fs, i + 1, k, v));
                } else {
                    assert(lookup(before, k) == lookup(m.items(), k));
                    assert(entry_ok(fs, i as int, k, v));
                    assert forall|st: Seq<char>| has_face_style(fs, i + 1, k, st) <==> has_face_style(
                        fs,
                        i as int,
                        k,
                        st,
                    ) by {
                        if has_face_style(fs, i + 1, k, st) {
                            let j = choose|j: int| 0 <= j < i + 1 && #[trigger] face_family(fs[j]) == k && face_style(fs[j]) == st;
                            assert(j < i);
                        }
                    }
                    assert(has_mono_face(fs, i + 1, k) == has_mono_face(fs, i as int, k)) by {
                        if has_mono_face(fs, i + 1, k) {
                            let j = choose|j: int| 0 <= j < i + 1 && #[trigger] face_family(fs[j]) == k && fs[j].monospaced;
                            assert(j < i);
                        }
                    }
                    assert forall|st: Seq<char>| #[trigger] has_key(v.0.items(), st) <==> has_face_style(
                        fs,
                        i + 1,
                        k,
                        st,
                    ) by {
                        assert(has_key(v.0.items(), st) <==> has_face_style(fs, i as int, k, st));
                    }
                    assert(v.0.wf());
                    assert(v.1 == has_mono_face(fs, i + 1, k));
                    assert(entry_ok(fs, i + 1, k, v));
                }
            }
        }
        i += 1;
    }
    let mut r: Vec<FontFamily> = Vec::new();
    let mut j: usize = 0;
    while j < m.len()
        invariant
            j <= m.items().len(),
            m.wf(),
            fs == faces@,
            grouped(m.items(), fs, fs.len() as int),
            r@.len() == j,
            forall|a: int|
                0 <= a < j ==> {
                    &&& (#[trigger] r@[a]).name@ == m.items()[a].0
                    &&& styles_of(r@[a]) == m.items()[a].1.0.items().map_values(
                        |e: (Seq<char>, ())| e.0,
                    )
                    &&& r@[a].monospaced == m.items()[a].1.1
                },
        decreases m.items().len() - j,
    {
        let name = m.key_at(j).clone();
        let v = m.value_at(j);
        let styles = v.0.keys();
        let fam = FontFamily { name, styles, monospaced: v.1 };
        r.push(fam);
        j += 1;
    }
    proof {
        let e = m.items();
        assert forall|a: int, b: int| 0 <= a < b < r@.len() implies lex_lt(
            #[trigger] names_of(r@)[a],
            #[trigger] names_of(r@)[b],
        ) by {
            assert(lex_lt(e[a].0, e[b].0));
        }
        assert forall|k: Seq<char>|
            (exists|a: int| 0 <= a < r@.len() && #[trigger] name_of(r@[a]) == k) <==> has_face(
                fs,
                fs.len() as int,
                k,
            ) by {
            if exists|a: int| 0 <= a < r@.len() && #[trigger] name_of(r@[a]) == k {
                let a = choose|a: int| 0 <= a < r@.len() && #[trigger] name_of(r@[a]) == k;
                assert(e[a].0 == k);
                assert(has_key(e, k));
            }
            if has_face(fs, fs.len() as int, k) {
                assert(has_key(e, k));
                let a = choose|a: int| 0 <= a < e.len() && (#[trigger] e[a]).0 == k;
                assert(name_of(r@[a]) == k);
            }
        }
        assert forall|a: int| 0 <= a < r@.len() implies {
            &&& strictly_sorted(#[trigger] styles_of(r@[a]))
            &&& forall|st: Seq<char>|
                styles_of(r@[a]).contains(st) <==> has_face_style(fs, fs.len() as int, r@[a].name@, st)
            &&& r@[a].monospaced == has_mono_face(fs, fs.len() as int, r@[a].name@)
        } by {
            lemma_lookup_at(e, a);
            let k = e[a].0;
            let v = e[a].1;
            assert(lookup(e, k) == Some(v));
            let si = v.0.items();
            assert(styles_of(r@[a]) == si.map_values(|x: (Seq<char>, ())| x.0));
            assert forall|x: int, y: int| 0 <= x < y < styles_of(r@[a]).len() implies lex_lt(
                #[trigger] styles_of(r@[a])[x],
                #[trigger] styles_of(r@[a])[y],
            ) by {
                assert(lex_lt(si[x].0, si[y].0));
            }
            assert forall|st: Seq<char>| styles_of(r@[a]).contains(st) <==> has_face_style(
                fs,
                fs.len() as int,
                r@[a].name@,
                st,
            ) by {
                if styles_of(r@[a]).contains(st) {
                    let x = choose|x: int| 0 <= x < styles_of(r@[a]).len() && styles_of(r@[a])[x] == st;
                    assert(si[x].0 == st);
                    assert(has_key(si, st));
                }
                if has_face_style(fs, fs.len() as int, k, st) {
                    assert(has_key(si, st));
                    let x = choose|x: int| 0 <= x < si.len() && (#[trigger] si[x]).0 == st;
                    assert(styles_of(r@[a])[x] == st);
                }
            }
        }
    }
    r
}

/// True if some face has a family name equal to `name`, ignoring ASCII case.
pub open spec fn has_family_spec(fs: Seq<FaceRecord>, name: Seq<char>) -> bool {
    exists|i: int, j: int|
        0 <= i < fs.len() && 0 <= j < fs[i].families@.len() && eq_ignore_case(
            #[trigger] fs[i].families@[j]@,
            name,
        )
}

/// True if a family with the given name is available (case-insensitive).
pub fn has_family(faces: &Vec<FaceRecord>, name: &str) -> (b: bool)
    ensures
        b == has_family_spec(faces@, name@),
{
    let mut i: usize = 0;
    while i < faces.len()
        invariant
            i <= faces@.len(),
            forall|a: int, b: int|
                0 <= a < i && 0 <= b < faces@[a].families@.len() ==> !eq_ignore_case(
                    #[trigger] faces@[a].families@[b]@,
                    name@,
                ),
        decreases faces.len() - i,
    {
        let fams = &faces[i].families;
        let mut j: usize = 0;
        while j < fams.len()
            invariant
                i < faces@.len(),
                fams == faces@[i as int].families,
                j <= fams@.len(),
                forall|b: int| 0 <= b < j ==> !eq_ignore_case(#[trigger] fams@[b]@, name@),
            decreases fams.len() - j,
        {
            if eq_ignore_case_str(chars_of(fams[j].as_str()).as_slice(), name) {
                return true;
            }
            j += 1;
        }
        i += 1;
    }
    false
}

} // verus!
