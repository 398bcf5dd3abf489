//! Output formats.
use vstd::prelude::*;
use crate::text_util::{chars_of, eq_ignore_case, eq_str, lower_seq, lowered};

verus! {

#[verifier::external_type_specification]
#[verifier::external_body]
pub struct ExPath(std::path::Path);

/// A supported output format.
#[derive(Debug, Clone, Copy, PartialEq, Eq, Structural)]
pub enum Format {
    Svg,
    Png,
    Pdf,
}

/// `s` without its leading dots (`trim_start_matches('.')`).
pub open spec fn strip_dots(s: Seq<char>) -> Seq<char>
    decreases s.len(),
{
    if s.len() > 0 && s[0] == '.' {
        strip_dots(s.drop_first())
    } else {
        s
    }
}

/// The format an extension names: leading dots are ignored and case does not matter.
pub open spec fn format_of_extension(ext: Seq<char>) -> Option<Format> {
    let l = lower_seq(strip_dots(ext));
    if l == "svg"@ {
        Some(Format::Svg)
    } else if l == "png"@ {
        Some(Format::Png)
    } else if l == "pdf"@ {
        Some(Format::Pdf)
    } else {
        None
    }
}

/// The canonical extension of a format.
pub open spec fn format_name(f: Format) -> Seq<char> {
    match f {
        Format::Svg => "svg"@,
        Format::Png => "png"@,
        Format::Pdf => "pdf"@,
    }
}

/// The extension of a path, as `Path::extension` finds it (the part of the final component
/// after its last `.`, where that component is not a dotfile), when it is UTF-8
/// (`OsStr::to_str`). It depends on the path alone.
pub uninterp spec fn path_extension_text(p: &std::path::Path) -> Option<Seq<char>>;

/// Calls `Path::extension` and reads the extension as UTF-8 (`OsStr::to_str`); the result is
/// named by `path_extension_text`.
#[verifier::external_body]
fn path_extension(path: &std::path::Path) -> (r: Option<String>)
    ensures
        match r {
            Some(e) => path_extension_text(path) == Some(e@),
            None => path_extension_text(path) is None,
        },
{
    path.extension().and_then(|e| e.to_str()).map(|e| e.to_string())
}

impl Format {
    /// Infer the format from a file extension (case-insensitive).
    pub fn from_extension(ext: &str) -> (r: Option<Format>)
        ensures
            r == format_of_extension(ext@),
    {
        let v = chars_of(ext);
        let mut i: usize = 0;
        assert(v@.subrange(0, v@.len() as int) == v@);
        while i < v.len() && v[i] == '.'
            invariant
                i <= v.len(),
                strip_dots(v@.subrange(i as int, v@.len() as int)) == strip_dots(ext@),
                v@ == ext@,
            decreases v.len() - i,
        {
            assert(v@.subrange(i as int, v@.len() as int).drop_first() == v@.subrange(
                i + 1,
                v@.len() as int,
            ));
            i += 1;
        }
        let rest = crate::text_util::sub_chars(v.as_slice(), i, v.len());
        let l = lowered(rest.as_slice());
        if eq_str(l.as_slice(), "svg") {
            Some(Format::Svg)
        } else if eq_str(l.as_slice(), "png") {
            Some(Format::Png)
        } else if eq_str(l.as_slice(), "pdf") {
            Some(Format::Pdf)
        } else {
            None
        }
    }

    /// Infer the format from a file path's extension.
    pub fn from_path(path: &std::path::Path) -> (r: Option<Format>)
        ensures
            r == match path_extension_text(path) {
                Some(e) => format_of_extension(e),
                None => None,
            },
    {
        match path_extension(path) {
            Some(e) => Format::from_extension(e.as_str()),
            None => None,
        }
    }

    pub fn as_str(&self) -> (s: &'static str)
        ensures
            s@ == format_name(*self),
    {
        match self {
            Format::Svg => "svg",
            Format::Png => "png",
            Format::Pdf => "pdf",
        }
    }
}

/// Each format is recognised by its own name.
pub proof fn lemma_format_name_roundtrip(f: Format)
    ensures
        format_of_extension(format_name(f)) == Some(f),
{
    reveal_strlit("svg");
    reveal_strlit("png");
    reveal_strlit("pdf");
    let n = format_name(f);
    assert(strip_dots(n) == n);
    assert(lower_seq(n) =~= n);
    assert("svg"@ != "png"@) by {
        assert("svg"@[0] != "png"@[0]);
    }
    assert("svg"@ != "pdf"@) by {
        assert("svg"@[0] != "pdf"@[0]);
    }
    assert("png"@ != "pdf"@) by {
        assert("png"@[1] != "pdf"@[1]);
    }
}

/// The output formats by extension, in any case and with or without leading dots: `svg` is
/// SVG, `png` is PNG and `pdf` is PDF, and no other extension names a format.
pub proof fn lemma_format_extensions(ext: Seq<char>)
    ensures
        eq_ignore_case(strip_dots(ext), "svg"@) ==> format_of_extension(ext) == Some(Format::Svg),
        eq_ignore_case(strip_dots(ext), "png"@) ==> format_of_extension(ext) == Some(Format::Png),
        eq_ignore_case(strip_dots(ext), "pdf"@) ==> format_of_extension(ext) == Some(Format::Pdf),
        format_of_extension(ext) is Some ==> (eq_ignore_case(strip_dots(ext), "svg"@)
            || eq_ignore_case(strip_dots(ext), "png"@) || eq_ignore_case(strip_dots(ext), "pdf"@)),
{
    reveal_strlit("svg");
    reveal_strlit("png");
    reveal_strlit("pdf");
    assert(lower_seq("svg"@) =~= "svg"@);
    assert(lower_seq("png"@) =~= "png"@);
    assert(lower_seq("pdf"@) =~= "pdf"@);
    assert("svg"@[0] != "png"@[0]);
    assert("svg"@[0] != "pdf"@[0]);
    assert("png"@[1] != "pdf"@[1]);
}

/// Extensions are read without regard to ASCII case.
pub proof fn lemma_format_case_insensitive(ext: Seq<char>)
    ensures
        format_of_extension(ext) == format_of_extension(lower_seq(ext)),
{
    lemma_strip_dots_lower(ext);
    let a = lower_seq(strip_dots(ext));
    assert(lower_seq(a) == a);
}

proof fn lemma_strip_dots_lower(s: Seq<char>)
    ensures
        strip_dots(lower_seq(s)) == lower_seq(strip_dots(s)),
    decreases s.len(),
{
    if s.len() > 0 {
        assert(lower_seq(s).drop_first() == lower_seq(s.drop_first()));
        lemma_strip_dots_lower(s.drop_first());
    }
}

/// A leading dot does not change which format an extension names.
pub proof fn lemma_format_leading_dot(ext: Seq<char>)
    ensures
        format_of_extension(seq!['.'] + ext) == format_of_extension(ext),
{
    assert((seq!['.'] + ext).drop_first() == ext);
}

} // verus!
