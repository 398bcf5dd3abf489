//! Lexical analysis of the `${ ... }` expression language.
//!
//! Expressions are made of numbers, single/double-quoted strings, identifiers, the
//! operators `+ - * / %`, parentheses and commas. [`tokenize`] turns the text into
//! [`Tok`]ens; number tokens keep their literal text, which is always a well-formed decimal
//! number (digits with at most one `.`).
use vstd::prelude::*;
use crate::error::{debug_char, debug_char_text, debug_str, debug_text, Error};
use crate::text_util::{chars_of, is_alpha_ascii, is_digit, is_whitespace, is_ws, push_chars, string_from, sub_chars};

verus! {

/// `char::is_alphabetic` (the Unicode `Alphabetic` property).
pub uninterp spec fn alphabetic(c: char) -> bool;

/// `char::is_alphanumeric` (Unicode `Alphabetic` or `Numeric`).
pub uninterp spec fn alphanumeric(c: char) -> bool;

/// Calls `char::is_alphabetic`. Among ASCII characters, exactly the letters are alphabetic.
#[verifier::external_body]
fn is_alphabetic(c: char) -> (b: bool)
    ensures
        b == alphabetic(c),
        (c as u32) < 0x80 ==> (b <==> is_alpha_ascii(c)),
{
    c.is_alphabetic()
}

/// Calls `char::is_alphanumeric`. Among ASCII characters, exactly the letters and the digits
/// are alphanumeric.
#[verifier::external_body]
fn is_alphanumeric(c: char) -> (b: bool)
    ensures
        b == alphanumeric(c),
        (c as u32) < 0x80 ==> (b <==> (is_alpha_ascii(c) || is_digit(c))),
{
    c.is_alphanumeric()
}

/// An expression token.
#[derive(Debug, Clone, PartialEq)]
pub enum Tok {
    /// A decimal number literal, as written.
    Num(String),
    Str(String),
    Ident(String),
    Plus,
    Minus,
    Star,
    Slash,
    Percent,
    LParen,
    RParen,
    Comma,
}

/// The mathematical model of a token.
pub enum TokV {
    Num(Seq<char>),
    Str(Seq<char>),
    Ident(Seq<char>),
    Plus,
    Minus,
    Star,
    Slash,
    Percent,
    LParen,
    RParen,
    Comma,
}

impl View for Tok {
    type V = TokV;

    open spec fn view(&self) -> TokV {
        match self {
            Tok::Num(s) => TokV::Num(s@),
            Tok::Str(s) => TokV::Str(s@),
            Tok::Ident(s) => TokV::Ident(s@),
            Tok::Plus => TokV::Plus,
            Tok::Minus => TokV::Minus,
            Tok::Star => TokV::Star,
            Tok::Slash => TokV::Slash,
            Tok::Percent => TokV::Percent,
            Tok::LParen => TokV::LParen,
            Tok::RParen => TokV::RParen,
            Tok::Comma => TokV::Comma,
        }
    }
}

pub open spec fn toks_view(v: Seq<Tok>) -> Seq<TokV> {
    v.map_values(|t: Tok| t@)
}

/// Why lexing stopped.
pub enum LexError {
    /// A quoted string has no closing quote.
    Unterminated,
    /// A run of digits and dots that is not a number.
    BadNumber(Seq<char>),
    /// A character that starts no token.
    Unexpected(char),
}

/// The single-character operator tokens.
pub open spec fn op_tok(c: char) -> Option<TokV> {
    if c == '+' {
        Some(TokV::Plus)
    } else if c == '-' {
        Some(TokV::Minus)
    } else if c == '*' {
        Some(TokV::Star)
    } else if c == '/' {
        Some(TokV::Slash)
    } else if c == '%' {
        Some(TokV::Percent)
    } else if c == '(' {
        Some(TokV::LParen)
    } else if c == ')' {
        Some(TokV::RParen)
    } else if c == ',' {
        Some(TokV::Comma)
    } else {
        None
    }
}

/// The character that an escape `\c` stands for inside a quoted string.
pub open spec fn unescape(c: char) -> char {
    if c == 'n' {
        '\n'
    } else if c == 't' {
        '\t'
    } else {
        c
    }
}

/// The body of a quoted string that starts at `i` (just after the opening `quote`), and the
/// position after its closing quote; `None` when the string is not closed.
pub open spec fn str_lit(s: Seq<char>, i: int, quote: char) -> Option<(Seq<char>, int)>
    decreases s.len() - i,
{
    if i < 0 || i >= s.len() {
        None
    } else if s[i] == quote {
        Some((Seq::<char>::empty(), i + 1))
    } else if s[i] == '\\' && i + 1 < s.len() {
        match str_lit(s, i + 2, quote) {
            Some((b, e)) => Some((seq![unescape(s[i + 1])] + b, e)),
            None => None,
        }
    } else {
        match str_lit(s, i + 1, quote) {
            Some((b, e)) => Some((seq![s[i]] + b, e)),
            None => None,
        }
    }
}

pub open spec fn num_char(c: char) -> bool {
    is_digit(c) || c == '.'
}

/// The end of the run of digits and dots that starts at `i`.
pub open spec fn num_end(s: Seq<char>, i: int) -> int
    decreases s.len() - i,
{
    if 0 <= i < s.len() && num_char(s[i]) {
        num_end(s, i + 1)
    } else {
        i
    }
}

pub open spec fn ident_char(c: char) -> bool {
    alphanumeric(c) || c == '_'
}

/// The end of the run of identifier characters that starts at `i`.
pub open spec fn ident_end(s: Seq<char>, i: int) -> int
    decreases s.len() - i,
{
    if 0 <= i < s.len() && ident_char(s[i]) {
        ident_end(s, i + 1)
    } else {
        i
    }
}

pub open spec fn count_dots(s: Seq<char>) -> nat
    decreases s.len(),
{
    if s.len() == 0 {
        0
    } else {
        count_dots(s.drop_last()) + if s.last() == '.' { 1nat } else { 0nat }
    }
}

/// A run of digits and dots is a number when it has at least one digit and at most one dot.
pub open spec fn valid_number(lit: Seq<char>) -> bool {
    count_dots(lit) <= 1 && exists|k: int| 0 <= k < lit.len() && is_digit(lit[k])
}

pub open spec fn cons(t: TokV, r: Result<Seq<TokV>, LexError>) -> Result<Seq<TokV>, LexError> {
    match r {
        Ok(v) => Ok(seq![t] + v),
        Err(e) => Err(e),
    }
}

pub open spec fn prepend(p: Seq<TokV>, r: Result<Seq<TokV>, LexError>) -> Result<Seq<TokV>, LexError> {
    match r {
        Ok(v) => Ok(p + v),
        Err(e) => Err(e),
    }
}

/// The tokens of `s` from position `i` on.
pub open spec fn lex_from(s: Seq<char>, i: int) -> Result<Seq<TokV>, LexError>
    decreases s.len() - i,
{
    if i < 0 || i >= s.len() {
        Ok(Seq::<TokV>::empty())
    } else {
        let c = s[i];
        if is_ws(c) {
            lex_from(s, i + 1)
        } else if op_tok(c) is Some {
            cons(op_tok(c)->0, lex_from(s, i + 1))
        } else if c == '"' || c == '\'' {
            match str_lit(s, i + 1, c) {
                None => Err(LexError::Unterminated),
                Some((body, e)) => if e > i && e <= s.len() {
                    cons(TokV::Str(body), lex_from(s, e))
                } else {
                    Err(LexError::Unterminated)
                },
            }
        } else if num_char(c) {
            let e = num_end(s, i);
            let lit = s.subrange(i, e);
            if !valid_number(lit) {
                Err(LexError::BadNumber(lit))
            } else if e > i && e <= s.len() {
                cons(TokV::Num(lit), lex_from(s, e))
            } else {
                Err(LexError::BadNumber(lit))
            }
        } else if alphabetic(c) || c == '_' {
            let e = ident_end(s, i + 1);
            if e > i && e <= s.len() {
                cons(TokV::Ident(s.subrange(i, e)), lex_from(s, e))
            } else {
                Err(LexError::Unexpected(c))
            }
        } else {
            Err(LexError::Unexpected(c))
        }
    }
}

/// The tokens of `s`.
pub open spec fn lex(s: Seq<char>) -> Result<Seq<TokV>, LexError> {
    lex_from(s, 0)
}

/// The message of the expression error that a lexing failure raises.
pub open spec fn lex_message(e: LexError) -> Seq<char> {
    match e {
        LexError::Unterminated => "unterminated string literal"@,
        LexError::BadNumber(lit) => "invalid number "@ + debug_text(lit),
        LexError::Unexpected(c) => "unexpected character "@ + debug_char_text(c),
    }
}

proof fn lemma_str_lit_end(s: Seq<char>, i: int, q: char)
    ensures
        str_lit(s, i, q) matches Some((_, e)) ==> e > i,
    decreases s.len() - i,
{
    if 0 <= i < s.len() && s[i] != q {
        if s[i] == '\\' && i + 1 < s.len() {
            lemma_str_lit_end(s, i + 2, q);
        } else {
            lemma_str_lit_end(s, i + 1, q);
        }
    }
}

proof fn lemma_num_end(s: Seq<char>, i: int)
    requires
        0 <= i <= s.len(),
    ensures
        i <= num_end(s, i) <= s.len(),
        forall|k: int| i <= k < num_end(s, i) ==> num_char(#[trigger] s[k]),
    decreases s.len() - i,
{
    if i < s.len() && num_char(s[i]) {
        lemma_num_end(s, i + 1);
    }
}

proof fn lemma_ident_end(s: Seq<char>, i: int)
    requires
        0 <= i <= s.len(),
    ensures
        i <= ident_end(s, i) <= s.len(),
    decreases s.len() - i,
{
    if i < s.len() && ident_char(s[i]) {
        lemma_ident_end(s, i + 1);
    }
}

proof fn lemma_str_lit_shift(p: Seq<char>, t: Seq<char>, i: int, q: char)
    requires
        0 <= i,
    ensures
        str_lit(p + t, p.len() + i, q) == match str_lit(t, i, q) {
            Some((b, e)) => Some((b, e + p.len())),
            None => None,
        },
    decreases t.len() - i,
{
    let s = p + t;
    if i < t.len() {
        assert(s[p.len() + i] == t[i]);
        if t[i] != q {
            if t[i] == '\\' && i + 1 < t.len() {
                assert(s[p.len() + i + 1] == t[i + 1]);
                lemma_str_lit_shift(p, t, i + 2, q);
            } else {
                lemma_str_lit_shift(p, t, i + 1, q);
            }
        }
    }
}

proof fn lemma_num_end_shift(p: Seq<char>, t: Seq<char>, i: int)
    requires
        0 <= i,
    ensures
        num_end(p + t, p.len() + i) == num_end(t, i) + p.len(),
    decreases t.len() - i,
{
    if i < t.len() {
        assert((p + t)[p.len() + i] == t[i]);
        lemma_num_end_shift(p, t, i + 1);
    }
}

proof fn lemma_ident_end_shift(p: Seq<char>, t: Seq<char>, i: int)
    requires
        0 <= i,
    ensures
        ident_end(p + t, p.len() + i) == ident_end(t, i) + p.len(),
    decreases t.len() - i,
{
    if i < t.len() {
        assert((p + t)[p.len() + i] == t[i]);
        lemma_ident_end_shift(p, t, i + 1);
    }
}

/// Lexing after a prefix reads the rest as it would be read alone.
proof fn lemma_lex_shift(p: Seq<char>, t: Seq<char>, i: int)
    requires
        0 <= i,
    ensures
        lex_from(p + t, p.len() + i) == lex_from(t, i),
    decreases t.len() - i,
{
    let s = p + t;
    let j = p.len() + i;
    if i < t.len() {
        let c = t[i];
        assert(s[j] == c);
        if is_ws(c) {
            lemma_lex_shift(p, t, i + 1);
        } else if op_tok(c) is Some {
            lemma_lex_shift(p, t, i + 1);
        } else if c == '"' || c == '\'' {
            lemma_str_lit_shift(p, t, i + 1, c);
            lemma_str_lit_end(t, i + 1, c);
            if let Some((b, e)) = str_lit(t, i + 1, c) {
                if e > i && e <= t.len() {
                    lemma_lex_shift(p, t, e);
                }
            }
        } else if num_char(c) {
            lemma_num_end_shift(p, t, i);
            lemma_num_end(t, i);
            let e = num_end(t, i);
            assert(s.subrange(j, e + p.len()) =~= t.subrange(i, e));
            if e > i && e <= t.len() {
                lemma_lex_shift(p, t, e);
            }
        } else if alphabetic(c) || c == '_' {
            lemma_ident_end_shift(p, t, i + 1);
            lemma_ident_end(t, i + 1);
            let e = ident_end(t, i + 1);
            assert(s.subrange(j, e + p.len()) =~= t.subrange(i, e));
            if e > i && e <= t.len() {
                lemma_lex_shift(p, t, e);
            }
        }
    }
}

/// The operator characters each lex as their own token, ahead of whatever follows them:
/// `+` plus, `-` minus, `*` times, `/` divide, `%` remainder, `(` and `)` parentheses, `,` the
/// argument separator. White space between tokens is skipped.
pub proof fn lemma_lex_operators(t: Seq<char>, c: char)
    ensures
        lex(seq!['+'] + t) == cons(TokV::Plus, lex(t)),
        lex(seq!['-'] + t) == cons(TokV::Minus, lex(t)),
        lex(seq!['*'] + t) == cons(TokV::Star, lex(t)),
        lex(seq!['/'] + t) == cons(TokV::Slash, lex(t)),
        lex(seq!['%'] + t) == cons(TokV::Percent, lex(t)),
        lex(seq!['('] + t) == cons(TokV::LParen, lex(t)),
        lex(seq![')'] + t) == cons(TokV::RParen, lex(t)),
        lex(seq![','] + t) == cons(TokV::Comma, lex(t)),
        is_ws(c) ==> lex(seq![c] + t) == lex(t),
{
    lemma_lex_shift(seq!['+'], t, 0);
    lemma_lex_shift(seq!['-'], t, 0);
    lemma_lex_shift(seq!['*'], t, 0);
    lemma_lex_shift(seq!['/'], t, 0);
    lemma_lex_shift(seq!['%'], t, 0);
    lemma_lex_shift(seq!['('], t, 0);
    lemma_lex_shift(seq![')'], t, 0);
    lemma_lex_shift(seq![','], t, 0);
    lemma_lex_shift(seq![c], t, 0);
    assert((seq!['+'] + t)[0] == '+');
    assert((seq!['-'] + t)[0] == '-');
    assert((seq!['*'] + t)[0] == '*');
    assert((seq!['/'] + t)[0] == '/');
    assert((seq!['%'] + t)[0] == '%');
    assert((seq!['('] + t)[0] == '(');
    assert((seq![')'] + t)[0] == ')');
    assert((seq![','] + t)[0] == ',');
    assert((seq![c] + t)[0] == c);
}

/// Scans a quoted string whose opening quote is at `open`.
fn scan_string(s: &Vec<char>, open: usize) -> (r: Option<(Vec<char>, usize)>)
    requires
        open < s.len(),
    ensures
        match (r, str_lit(s@, open + 1, s@[open as int])) {
            (Some((b, e)), Some((bs, es))) => b@ == bs && e == es && e <= s.len(),
            (None, None) => true,
            _ => false,
        },
{
    let quote = s[open];
    let n = s.len();
    let mut i: usize = open + 1;
    let mut body: Vec<char> = Vec::new();
    while i < n && s[i] != quote
        invariant
            open < i <= n,
            n == s.len(),
            quote == s@[open as int],
            str_lit(s@, open + 1, quote) == (match str_lit(s@, i as int, quote) {
                Some((b, e)) => Some((body@ + b, e)),
                None => None,
            }),
        decreases n - i,
    {
        if s[i] == '\\' && i + 1 < n {
            let c = s[i + 1];
            let u = if c == 'n' {
                '\n'
            } else if c == 't' {
                '\t'
            } else {
                c
            };
            proof {
                match str_lit(s@, i + 2, quote) {
                    Some((b, e)) => {
                        assert(body@.push(u) + b == body@ + (seq![u] + b));
                    },
                    None => {},
                }
            }
            body.push(u);
            i += 2;
        } else {
            proof {
                match str_lit(s@, i + 1, quote) {
                    Some((b, e)) => {
                        assert(body@.push(s@[i as int]) + b == body@ + (seq![s@[i as int]] + b));
                    },
                    None => {},
                }
            }
            body.push(s[i]);
            i += 1;
        }
    }
    if i >= n {
        return None;
    }
    assert(body@ + Seq::<char>::empty() == body@);
    Some((body, i + 1))
}

fn num_char_exec(c: char) -> (b: bool)
    ensures
        b == num_char(c),
{
    ('0' <= c && c <= '9') || c == '.'
}

/// Checks the number-literal rule: at least one digit, at most one dot.
fn is_valid_number(lit: &Vec<char>) -> (b: bool)
    ensures
        b == valid_number(lit@),
{
    let mut dots: usize = 0;
    let mut digit = false;
    let mut i: usize = 0;
    while i < lit.len()
        invariant
            i <= lit.len(),
            dots == count_dots(lit@.take(i as int)),
            dots <= i,
            digit == exists|k: int| 0 <= k < i && is_digit(lit@[k]),
        decreases lit.len() - i,
    {
        assert(lit@.take(i + 1).drop_last() == lit@.take(i as int));
        if lit[i] == '.' {
            dots = dots + 1;
        }
        if '0' <= lit[i] && lit[i] <= '9' {
            digit = true;
        }
        i += 1;
    }
    assert(lit@.take(i as int) == lit@);
    dots <= 1 && digit
}

fn message(prefix: &str, tail: &String) -> (r: String)
    ensures
        r@ == prefix@ + tail@,
{
    let p = chars_of(prefix);
    let t = chars_of(tail.as_str());
    let mut r = string_from(&p);
    push_chars(&mut r, t.as_slice());
    r
}

/// Split an expression into tokens.
pub fn tokenize(input: &str) -> (r: Result<Vec<Tok>, Error>)
    ensures
        match (r, lex(input@)) {
            (Ok(v), Ok(w)) => toks_view(v@) == w,
            (Err(Error::Expr(m)), Err(e)) => m@ == lex_message(e),
            _ => false,
        },
{
    let s = chars_of(input);
    let n = s.len();
    let mut tokens: Vec<Tok> = Vec::new();
    let mut i: usize = 0;
    while i < n
        invariant
            i <= n,
            n == s.len(),
            s@ == input@,
            lex(input@) == prepend(toks_view(tokens@), lex_from(s@, i as int)),
        decreases n - i,
    {
        let c = s[i];
        let ghost before = tokens@;
        if is_whitespace(c) {
            i += 1;
        } else if c == '+' || c == '-' || c == '*' || c == '/' || c == '%' || c == '(' || c == ')'
            || c == ',' {
            let t = if c == '+' {
                Tok::Plus
            } else if c == '-' {
                Tok::Minus
            } else if c == '*' {
                Tok::Star
            } else if c == '/' {
                Tok::Slash
            } else if c == '%' {
                Tok::Percent
            } else if c == '(' {
                Tok::LParen
            } else if c == ')' {
                Tok::RParen
            } else {
                Tok::Comma
            };
            tokens.push(t);
            proof {
                assert(toks_view(tokens@) == toks_view(before) + seq![t@]);
                match lex_from(s@, i + 1) {
                    Ok(v) => {
                        assert(toks_view(before) + (seq![t@] + v) == toks_view(tokens@) + v);
                    },
                    Err(_) => {},
                }
            }
            i += 1;
        } else if c == '"' || c == '\'' {
            proof {
                lemma_str_lit_end(s@, i + 1, c);
            }
            match scan_string(&s, i) {
                None => {
                    return Err(Error::Expr(message("unterminated string literal", &String::new())));
                },
                Some((body, e)) => {
                    let t = Tok::Str(string_from(&body));
                    tokens.push(t);
                    proof {
                        assert(toks_view(tokens@) == toks_view(before) + seq![t@]);
                        match lex_from(s@, e as int) {
                            Ok(v) => {
                                assert(toks_view(before) + (seq![t@] + v) == toks_view(tokens@) + v);
                            },
                            Err(_) => {},
                        }
                    }
                    i = e;
                },
            }
        } else if num_char_exec(c) {
            let mut j: usize = i;
            while j < n && num_char_exec(s[j])
                invariant
                    i <= j <= n,
                    n == s.len(),
                    num_end(s@, j as int) == num_end(s@, i as int),
                decreases n - j,
            {
                j += 1;
            }
            let lit = sub_chars(s.as_slice(), i, j);
            if !is_valid_number(&lit) {
                let text = string_from(&lit);
                let shown = debug_str(text.as_str());
                return Err(Error::Expr(message("invalid number ", &shown)));
            }
            let t = Tok::Num(string_from(&lit));
            tokens.push(t);
            proof {
                assert(toks_view(tokens@) == toks_view(before) + seq![t@]);
                match lex_from(s@, j as int) {
                    Ok(v) => {
                        assert(toks_view(before) + (seq![t@] + v) == toks_view(tokens@) + v);
                    },
                    Err(_) => {},
                }
            }
            i = j;
        } else if is_alphabetic(c) || c == '_' {
            let mut j: usize = i + 1;
            while j < n && (is_alphanumeric(s[j]) || s[j] == '_')
                invariant
                    i < j <= n,
                    n == s.len(),
                    ident_end(s@, j as int) == ident_end(s@, i + 1),
                decreases n - j,
            {
                j += 1;
            }
            let name = sub_chars(s.as_slice(), i, j);
            let t = Tok::Ident(string_from(&name));
            tokens.push(t);
            proof {
                assert(toks_view(tokens@) == toks_view(before) + seq![t@]);
                match lex_from(s@, j as int) {
                    Ok(v) => {
                        assert(toks_view(before) + (seq![t@] + v) == toks_view(tokens@) + v);
                    },
                    Err(_) => {},
                }
            }
            i = j;
        } else {
            let shown = debug_char(c);
            return Err(Error::Expr(message("unexpected character ", &shown)));
        }
    }
    assert(toks_view(tokens@) + Seq::<TokV>::empty() == toks_view(tokens@));
    Ok(tokens)
}

// ---------------------------------------------------------------------------
// Built-in functions
// ---------------------------------------------------------------------------

/// The built-in functions of the expression language.
#[derive(Debug, Clone, Copy, PartialEq, Eq, Structural)]
pub enum Builtin {
    TextWidth,
    TextHeight,
    ParaWidth,
    ParaHeight,
    Min,
    Max,
    Round,
    Floor,
    Ceil,
    Abs,
    Sqrt,
}

/// The built-in function a name calls, if any.
pub open spec fn builtin_of(n: Seq<char>) -> Option<Builtin> {
    if n == "text_width"@ {
        Some(Builtin::TextWidth)
    } else if n == "text_height"@ {
        Some(Builtin::TextHeight)
    } else if n == "para_width"@ {
        Some(Builtin::ParaWidth)
    } else if n == "para_height"@ {
        Some(Builtin::ParaHeight)
    } else if n == "min"@ {
        Some(Builtin::Min)
    } else if n == "max"@ {
        Some(Builtin::Max)
    } else if n == "round"@ {
        Some(Builtin::Round)
    } else if n == "floor"@ {
        Some(Builtin::Floor)
    } else if n == "ceil"@ {
        Some(Builtin::Ceil)
    } else if n == "abs"@ {
        Some(Builtin::Abs)
    } else if n == "sqrt"@ {
        Some(Builtin::Sqrt)
    } else {
        None
    }
}

/// Which built-in a call of `name` with `nargs` arguments runs, or why it cannot run:
/// the measuring functions take 2–3 (`text_*`) or 3–4 (`para_*`) arguments, `min` and `max`
/// at least one, the others exactly one.
pub open spec fn builtin_spec(name: Seq<char>, nargs: int) -> Result<Builtin, Seq<char>> {
    match builtin_of(name) {
        None => Err("unknown function "@ + debug_text(name)),
        Some(b) => match b {
            Builtin::TextWidth | Builtin::TextHeight => if nargs < 2 || nargs > 3 {
                Err(name + "(text, size[, font]) takes 2-3 args"@)
            } else {
                Ok(b)
            },
            Builtin::ParaWidth | Builtin::ParaHeight => if nargs < 3 || nargs > 4 {
                Err(name + "(text, max_width, size[, font]) takes 3-4 args"@)
            } else {
                Ok(b)
            },
            Builtin::Min | Builtin::Max => if nargs == 0 {
                Err(name + "() needs at least one argument"@)
            } else {
                Ok(b)
            },
            _ => if nargs != 1 {
                Err(name + "() takes exactly one argument"@)
            } else {
                Ok(b)
            },
        },
    }
}

fn text_after(name: &str, rest: &str) -> (m: String)
    ensures
        m@ == name@ + rest@,
{
    let mut m = string_from(&chars_of(name));
    push_chars(&mut m, chars_of(rest).as_slice());
    m
}

/// Resolve a call of `name` with `nargs` arguments to a built-in function, or give the
/// error the call ends with.
pub fn builtin(name: &str, nargs: usize) -> (r: Result<Builtin, String>)
    ensures
        match (r, builtin_spec(name@, nargs as int)) {
            (Ok(a), Ok(b)) => a == b,
            (Err(m), Err(e)) => m@ == e,
            _ => false,
        },
{
    let v = chars_of(name);
    let n = v.as_slice();
    let b = if crate::text_util::eq_str(n, "text_width") {
        Builtin::TextWidth
    } else if crate::text_util::eq_str(n, "text_height") {
        Builtin::TextHeight
    } else if crate::text_util::eq_str(n, "para_width") {
        Builtin::ParaWidth
    } else if crate::text_util::eq_str(n, "para_height") {
        Builtin::ParaHeight
    } else if crate::text_util::eq_str(n, "min") {
        Builtin::Min
    } else if crate::text_util::eq_str(n, "max") {
        Builtin::Max
    } else if crate::text_util::eq_str(n, "round") {
        Builtin::Round
    } else if crate::text_util::eq_str(n, "floor") {
        Builtin::Floor
    } else if crate::text_util::eq_str(n, "ceil") {
        Builtin::Ceil
    } else if crate::text_util::eq_str(n, "abs") {
        Builtin::Abs
    } else if crate::text_util::eq_str(n, "sqrt") {
        Builtin::Sqrt
    } else {
        let shown = debug_str(name);
        return Err(text_after("unknown function ", shown.as_str()));
    };
    match b {
        Builtin::TextWidth | Builtin::TextHeight => if nargs < 2 || nargs > 3 {
            Err(text_after(name, "(text, size[, font]) takes 2-3 args"))
        } else {
            Ok(b)
        },
        Builtin::ParaWidth | Builtin::ParaHeight => if nargs < 3 || nargs > 4 {
            Err(text_after(name, "(text, max_width, size[, font]) takes 3-4 args"))
        } else {
            Ok(b)
        },
        Builtin::Min | Builtin::Max => if nargs == 0 {
            Err(text_after(name, "() needs at least one argument"))
        } else {
            Ok(b)
        },
        _ => if nargs != 1 {
            Err(text_after(name, "() takes exactly one argument"))
        } else {
            Ok(b)
        },
    }
}

/// Each built-in function is called by its own name, and accepts exactly these numbers of
/// arguments: `text_width` and `text_height` two or three, `para_width` and `para_height`
/// three or four, `min` and `max` any number from one up, and `round`, `floor`, `ceil`, `abs`
/// and `sqrt` exactly one. Any other number of arguments is an error.
pub proof fn lemma_builtin_arities(nargs: nat)
    ensures
        2 <= nargs <= 3 ==> builtin_spec("text_width"@, nargs as int) == Ok::<Builtin, Seq<char>>(Builtin::TextWidth),
        !(2 <= nargs <= 3) ==> builtin_spec("text_width"@, nargs as int) is Err,
        2 <= nargs <= 3 ==> builtin_spec("text_height"@, nargs as int) == Ok::<Builtin, Seq<char>>(Builtin::TextHeight),
        !(2 <= nargs <= 3) ==> builtin_spec("text_height"@, nargs as int) is Err,
        3 <= nargs <= 4 ==> builtin_spec("para_width"@, nargs as int) == Ok::<Builtin, Seq<char>>(Builtin::ParaWidth),
        !(3 <= nargs <= 4) ==> builtin_spec("para_width"@, nargs as int) is Err,
        3 <= nargs <= 4 ==> builtin_spec("para_height"@, nargs as int) == Ok::<Builtin, Seq<char>>(Builtin::ParaHeight),
        !(3 <= nargs <= 4) ==> builtin_spec("para_height"@, nargs as int) is Err,
        nargs >= 1 ==> builtin_spec("min"@, nargs as int) == Ok::<Builtin, Seq<char>>(Builtin::Min),
        nargs < 1 ==> builtin_spec("min"@, nargs as int) is Err,
        nargs >= 1 ==> builtin_spec("max"@, nargs as int) == Ok::<Builtin, Seq<char>>(Builtin::Max),
        nargs < 1 ==> builtin_spec("max"@, nargs as int) is Err,
        nargs == 1 ==> builtin_spec("round"@, nargs as int) == Ok::<Builtin, Seq<char>>(Builtin::Round),
        nargs != 1 ==> builtin_spec("round"@, nargs as int) is Err,
        nargs == 1 ==> builtin_spec("floor"@, nargs as int) == Ok::<Builtin, Seq<char>>(Builtin::Floor),
        nargs != 1 ==> builtin_spec("floor"@, nargs as int) is Err,
        nargs == 1 ==> builtin_spec("ceil"@, nargs as int) == Ok::<Builtin, Seq<char>>(Builtin::Ceil),
        nargs != 1 ==> builtin_spec("ceil"@, nargs as int) is Err,
        nargs == 1 ==> builtin_spec("abs"@, nargs as int) == Ok::<Builtin, Seq<char>>(Builtin::Abs),
        nargs != 1 ==> builtin_spec("abs"@, nargs as int) is Err,
        nargs == 1 ==> builtin_spec("sqrt"@, nargs as int) == Ok::<Builtin, Seq<char>>(Builtin::Sqrt),
        nargs != 1 ==> builtin_spec("sqrt"@, nargs as int) is Err,
{
    assert(builtin_of("text_width"@) == Some(Builtin::TextWidth)) by {
        reveal_strlit("text_width");
    }
    assert(builtin_of("text_height"@) == Some(Builtin::TextHeight)) by {
        reveal_strlit("text_height");
        reveal_strlit("text_width");
        assert("text_height"@.len() != "text_width"@.len());
    }
    assert(builtin_of("para_width"@) == Some(Builtin::ParaWidth)) by {
        reveal_strlit("para_width");
        reveal_strlit("text_width");
        assert("para_width"@[0] != "text_width"@[0]);
        reveal_strlit("text_height");
        assert("para_width"@.len() != "text_height"@.len());
    }
    assert(builtin_of("para_height"@) == Some(Builtin::ParaHeight)) by {
        reveal_strlit("para_height");
        reveal_strlit("text_width");
        assert("para_height"@.len() != "text_width"@.len());
        reveal_strlit("text_height");
        assert("para_height"@[0] != "text_height"@[0]);
        reveal_strlit("para_width");
        assert("para_height"@.len() != "para_width"@.len());
    }
    assert(builtin_of("min"@) == Some(Builtin::Min)) by {
        reveal_strlit("min");
        reveal_strlit("text_width");
        assert("min"@.len() != "text_width"@.len());
        reveal_strlit("text_height");
        assert("min"@.len() != "text_height"@.len());
        reveal_strlit("para_width");
        assert("min"@.len() != "para_width"@.len());
        reveal_strlit("para_height");
        assert("min"@.len() != "para_height"@.len());
    }
    assert(builtin_of("max"@) == Some(Builtin::Max)) by {
        reveal_strlit("max");
        reveal_strlit("text_width");
        assert("max"@.len() != "text_width"@.len());
        reveal_strlit("text_height");
        assert("max"@.len() != "text_height"@.len());
        reveal_strlit("para_width");
        assert("max"@.len() != "para_width"@.len());
        reveal_strlit("para_height");
        assert("max"@.len() != "para_height"@.len());
        reveal_strlit("min");
        assert("max"@[1] != "min"@[1]);
    }
    assert(builtin_of("round"@) == Some(Builtin::Round)) by {
        reveal_strlit("round");
        reveal_strlit("text_width");
        assert("round"@.len() != "text_width"@.len());
        reveal_strlit("text_height");
        assert("round"@.len() != "text_height"@.len());
        reveal_strlit("para_width");
        assert("round"@.len() != "para_width"@.len());
        reveal_strlit("para_height");
        assert("round"@.len() != "para_height"@.len());
        reveal_strlit("min");
        assert("round"@.len() != "min"@.len());
        reveal_strlit("max");
        assert("round"@.len() != "max"@.len());
    }
    assert(builtin_of("floor"@) == Some(Builtin::Floor)) by {
        reveal_strlit("floor");
        reveal_strlit("text_width");
        assert("floor"@.len() != "text_width"@.len());
        reveal_strlit("text_height");
        assert("floor"@.len() != "text_height"@.len());
        reveal_strlit("para_width");
        assert("floor"@.len() != "para_width"@.len());
        reveal_strlit("para_height");
        assert("floor"@.len() != "para_height"@.len());
        reveal_strlit("min");
        assert("floor"@.len() != "min"@.len());
        reveal_strlit("max");
        assert("floor"@.len() != "max"@.len());
        reveal_strlit("round");
        assert("floor"@[0] != "round"@[0]);
    }
    assert(builtin_of("ceil"@) == Some(Builtin::Ceil)) by {
        reveal_strlit("ceil");
        reveal_strlit("text_width");
        assert("ceil"@.len() != "text_width"@.len());
        reveal_strlit("text_height");
        assert("ceil"@.len() != "text_height"@.len());
        reveal_strlit("para_width");
        assert("ceil"@.len() != "para_width"@.len());
        reveal_strlit("para_height");
        assert("ceil"@.len() != "para_height"@.len());
        reveal_strlit("min");
        assert("ceil"@.len() != "min"@.len());
        reveal_strlit("max");
        assert("ceil"@.len() != "max"@.len());
        reveal_strlit("round");
        assert("ceil"@.len() != "round"@.len());
        reveal_strlit("floor");
        assert("ceil"@.len() != "floor"@.len());
    }
    assert(builtin_of("abs"@) == Some(Builtin::Abs)) by {
        reveal_strlit("abs");
        reveal_strlit("text_width");
        assert("abs"@.len() != "text_width"@.len());
        reveal_strlit("text_height");
        assert("abs"@.len() != "text_height"@.len());
        reveal_strlit("para_width");
        assert("abs"@.len() != "para_width"@.len());
        reveal_strlit("para_height");
        assert("abs"@.len() != "para_height"@.len());
        reveal_strlit("min");
        assert("abs"@[0] != "min"@[0]);
        reveal_strlit("max");
        assert("abs"@[0] != "max"@[0]);
        reveal_strlit("round");
        assert("abs"@.len() != "round"@.len());
        reveal_strlit("floor");
        assert("abs"@.len() != "floor"@.len());
        reveal_strlit("ceil");
        assert("abs"@.len() != "ceil"@.len());
    }
    assert(builtin_of("sqrt"@) == Some(Builtin::Sqrt)) by {
        reveal_strlit("sqrt");
        reveal_strlit("text_width");
        assert("sqrt"@.len() != "text_width"@.len());
        reveal_strlit("text_height");
        assert("sqrt"@.len() != "text_height"@.len());
        reveal_strlit("para_width");
        assert("sqrt"@.len() != "para_width"@.len());
        reveal_strlit("para_height");
        assert("sqrt"@.len() != "para_height"@.len());
        reveal_strlit("min");
        assert("sqrt"@.len() != "min"@.len());
        reveal_strlit("max");
        assert("sqrt"@.len() != "max"@.len());
        reveal_strlit("round");
        assert("sqrt"@.len() != "round"@.len());
        reveal_strlit("floor");
        assert("sqrt"@.len() != "floor"@.len());
        reveal_strlit("ceil");
        assert("sqrt"@[0] != "ceil"@[0]);
        reveal_strlit("abs");
        assert("sqrt"@.len() != "abs"@.len());
    }

}

} // verus!
