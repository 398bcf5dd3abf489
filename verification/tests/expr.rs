use drawskill::error::Error;
use drawskill::expr::{builtin, tokenize, Builtin, Tok};

fn expr_message(r: Result<Vec<Tok>, Error>) -> String {
    match r {
        Err(Error::Expr(m)) => m,
        other => panic!("expected an expression error, got {other:?}"),
    }
}

#[test]
fn tokenize_arithmetic() {
    let toks = tokenize("2 + 3 * (4 - 1) / 5 % 6").unwrap();
    assert_eq!(
        toks,
        vec![
            Tok::Num("2".to_string()),
            Tok::Plus,
            Tok::Num("3".to_string()),
            Tok::Star,
            Tok::LParen,
            Tok::Num("4".to_string()),
            Tok::Minus,
            Tok::Num("1".to_string()),
            Tok::RParen,
            Tok::Slash,
            Tok::Num("5".to_string()),
            Tok::Percent,
            Tok::Num("6".to_string()),
        ]
    );
}

#[test]
fn tokenize_calls_and_identifiers() {
    let toks = tokenize("max(w_1, 0.5)").unwrap();
    assert_eq!(
        toks,
        vec![
            Tok::Ident("max".to_string()),
            Tok::LParen,
            Tok::Ident("w_1".to_string()),
            Tok::Comma,
            Tok::Num("0.5".to_string()),
            Tok::RParen,
        ]
    );
    assert_eq!(tokenize("_x").unwrap(), vec![Tok::Ident("_x".to_string())]);
    assert_eq!(tokenize("größe").unwrap(), vec![Tok::Ident("größe".to_string())]);
}

#[test]
fn tokenize_strings_and_escapes() {
    let toks = tokenize(r#""a\"b" + 'c\nd' + "\t\\""#).unwrap();
    assert_eq!(
        toks,
        vec![
            Tok::Str("a\"b".to_string()),
            Tok::Plus,
            Tok::Str("c\nd".to_string()),
            Tok::Plus,
            Tok::Str("\t\\".to_string()),
        ]
    );
    assert_eq!(tokenize("'say \"hi\"'").unwrap(), vec![Tok::Str("say \"hi\"".to_string())]);
}

#[test]
fn tokenize_numbers_as_written() {
    assert_eq!(tokenize(".5").unwrap(), vec![Tok::Num(".5".to_string())]);
    assert_eq!(tokenize("7.").unwrap(), vec![Tok::Num("7.".to_string())]);
    assert_eq!(
        tokenize("1 2").unwrap(),
        vec![Tok::Num("1".to_string()), Tok::Num("2".to_string())]
    );
}

#[test]
fn tokenize_empty_and_blank() {
    assert_eq!(tokenize("").unwrap(), vec![]);
    assert_eq!(tokenize(" \t\n ").unwrap(), vec![]);
}

#[test]
fn tokenize_unterminated_string() {
    assert_eq!(expr_message(tokenize("\"abc")), "unterminated string literal");
    assert_eq!(expr_message(tokenize("'abc\\'")), "unterminated string literal");
}

#[test]
fn tokenize_bad_number() {
    assert_eq!(expr_message(tokenize("1.2.3")), "invalid number \"1.2.3\"");
    assert_eq!(expr_message(tokenize("x + .")), "invalid number \".\"");
}

#[test]
fn tokenize_unexpected_character() {
    assert_eq!(expr_message(tokenize("a # b")), "unexpected character '#'");
    assert_eq!(expr_message(tokenize("1 == 1")), "unexpected character '='");
}

#[test]
fn builtin_resolves_names_and_arities() {
    assert_eq!(builtin("text_width", 2), Ok(Builtin::TextWidth));
    assert_eq!(builtin("text_height", 3), Ok(Builtin::TextHeight));
    assert_eq!(builtin("para_width", 3), Ok(Builtin::ParaWidth));
    assert_eq!(builtin("para_height", 4), Ok(Builtin::ParaHeight));
    assert_eq!(builtin("min", 1), Ok(Builtin::Min));
    assert_eq!(builtin("max", 5), Ok(Builtin::Max));
    assert_eq!(builtin("round", 1), Ok(Builtin::Round));
    assert_eq!(builtin("floor", 1), Ok(Builtin::Floor));
    assert_eq!(builtin("ceil", 1), Ok(Builtin::Ceil));
    assert_eq!(builtin("abs", 1), Ok(Builtin::Abs));
    assert_eq!(builtin("sqrt", 1), Ok(Builtin::Sqrt));
}

#[test]
fn builtin_arity_errors() {
    assert_eq!(
        builtin("text_width", 1),
        Err("text_width(text, size[, font]) takes 2-3 args".to_string())
    );
    assert_eq!(
        builtin("text_height", 4),
        Err("text_height(text, size[, font]) takes 2-3 args".to_string())
    );
    assert_eq!(
        builtin("para_width", 2),
        Err("para_width(text, max_width, size[, font]) takes 3-4 args".to_string())
    );
    assert_eq!(
        builtin("min", 0),
        Err("min() needs at least one argument".to_string())
    );
    assert_eq!(
        builtin("sqrt", 2),
        Err("sqrt() takes exactly one argument".to_string())
    );
    assert_eq!(
        builtin("abs", 0),
        Err("abs() takes exactly one argument".to_string())
    );
}

#[test]
fn builtin_unknown_name() {
    assert_eq!(builtin("foo", 1), Err("unknown function \"foo\"".to_string()));
    assert_eq!(builtin("Min", 1), Err("unknown function \"Min\"".to_string()));
}
