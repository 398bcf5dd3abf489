//! The error type shared by the parsing and rendering stages.
use vstd::prelude::*;

verus! {

#[verifier::external_type_specification]
#[verifier::external_body]
pub struct ExIoError(std::io::Error);

/// Errors produced while parsing, laying out, or rendering a diagram.
#[derive(Debug)]
pub enum Error {
    /// The YAML document could not be parsed.
    Yaml(String),
    /// A `${...}` expression failed to evaluate.
    Expr(String),
    /// The document structure was invalid (e.g. unknown node type, bad property).
    Parse(String),
    /// A referenced symbol (`plugin.name`) does not exist in the registry.
    UnknownSymbol(String),
    /// A `connect` referenced a port that doesn't exist.
    UnknownPort(String),
    /// Layout failed (e.g. an impossible constraint).
    Layout(String),
    /// Rendering or output conversion failed.
    Render(String),
    /// An I/O error occurred (reading input, writing output).
    Io(std::io::Error),
}

/// The text that `format!("{:?}", s)` gives for a string slice.
pub uninterp spec fn debug_text(s: Seq<char>) -> Seq<char>;

/// The text that `format!("{:?}", c)` gives for a character.
pub uninterp spec fn debug_char_text(c: char) -> Seq<char>;

/// Calls `<str as Debug>::fmt` through `format!`; the result is named by `debug_text`.
#[verifier::external_body]
pub(crate) fn debug_str(s: &str) -> (r: String)
    ensures
        r@ == debug_text(s@),
{
    format!("{s:?}")
}

/// Calls `<char as Debug>::fmt` through `format!`; the result is named by `debug_char_text`.
#[verifier::external_body]
pub(crate) fn debug_char(c: char) -> (r: String)
    ensures
        r@ == debug_char_text(c),
{
    format!("{c:?}")
}

} // verus!
