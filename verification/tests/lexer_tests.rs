use elegua::lexer::{get_keywords, keyword_token, make_tokenizer, tokenize, Lexer, LexicalError};
use elegua::location::Location;
use elegua::token::Tok;
use num_bigint::BigInt;

fn toks_of(source: &str) -> Vec<Tok> {
    let (spanned, err) = tokenize(source);
    assert!(err.is_none(), "unexpected lexical error in {:?}", source);
    spanned.into_iter().map(|(_, t, _)| t).collect()
}

fn int_value(t: &Tok) -> BigInt {
    match t {
        Tok::Int { value } => value.clone(),
        other => panic!("expected Int token, got {:?}", other),
    }
}

#[test]
fn decimal_integer_exact() {
    let toks = toks_of("42");
    assert_eq!(toks.len(), 1);
    assert_eq!(int_value(&toks[0]), BigInt::from(42u32));
}

#[test]
fn decimal_integer_beyond_64_bits() {
    let text = "123456789012345678901234567890123456789";
    let toks = toks_of(text);
    assert_eq!(toks.len(), 1);
    let expected: BigInt = text.parse().unwrap();
    assert_eq!(int_value(&toks[0]), expected);
}

#[test]
fn hex_octal_binary_literals() {
    assert_eq!(int_value(&toks_of("0x1F")[0]), BigInt::from(31u32));
    assert_eq!(int_value(&toks_of("0o17")[0]), BigInt::from(15u32));
    assert_eq!(int_value(&toks_of("0b101")[0]), BigInt::from(5u32));
}

#[test]
fn underscores_do_not_change_value() {
    assert_eq!(int_value(&toks_of("0x1_F")[0]), BigInt::from(31u32));
    assert_eq!(int_value(&toks_of("0b1_0_1")[0]), BigInt::from(5u32));
}

#[test]
fn float_literal_value() {
    let toks = toks_of("1.5e-3");
    assert_eq!(toks.len(), 1);
    match &toks[0] {
        Tok::Float { value } => {
            let f: f64 = value.parse().unwrap();
            assert_eq!(f, 0.0015);
        }
        other => panic!("expected Float token, got {:?}", other),
    }
}

#[test]
fn float_with_uppercase_exponent() {
    let toks = toks_of("2E3");
    match &toks[0] {
        Tok::Float { value } => {
            let f: f64 = value.parse().unwrap();
            assert_eq!(f, 2000.0);
        }
        other => panic!("expected Float token, got {:?}", other),
    }
}

#[test]
fn keyword_versus_identifier() {
    let toks = toks_of("class");
    assert!(matches!(toks[0], Tok::Class));
    let toks = toks_of("classx");
    match &toks[0] {
        Tok::Ident { ident } => assert_eq!(ident, "classx"),
        other => panic!("expected Ident token, got {:?}", other),
    }
}

#[test]
fn keyword_lookup() {
    assert!(matches!(keyword_token("while"), Some(Tok::While)));
    assert!(matches!(keyword_token("none"), Some(Tok::NoneKw)));
    assert!(keyword_token("whilex").is_none());
    assert!(keyword_token("While").is_none());
}

#[test]
fn keyword_table_is_complete() {
    let table = get_keywords();
    assert_eq!(table.len(), 28);
    assert!(table.iter().any(|(w, t)| w == "and" && matches!(t, Tok::And)));
    assert!(table.iter().any(|(w, t)| w == "yield" && matches!(t, Tok::Yield)));
    for (w, _) in &table {
        assert!(keyword_token(w).is_some());
    }
}

#[test]
fn nesting_suppresses_newlines() {
    let toks = toks_of("(\n)");
    assert_eq!(toks.len(), 2);
    assert!(matches!(toks[0], Tok::Lparen));
    assert!(matches!(toks[1], Tok::Rparen));
}

#[test]
fn newline_kept_at_depth_zero() {
    let toks = toks_of("1\n2");
    assert_eq!(toks.len(), 3);
    assert_eq!(int_value(&toks[0]), BigInt::from(1u32));
    assert!(matches!(toks[1], Tok::Newline));
    assert_eq!(int_value(&toks[2]), BigInt::from(2u32));
}

#[test]
fn operator_disambiguation() {
    assert!(matches!(toks_of("*")[0], Tok::Star));
    assert!(matches!(toks_of("**")[0], Tok::DoubleStar));
    assert!(matches!(toks_of("**=")[0], Tok::DoubleStarEqual));
    assert!(matches!(toks_of("+=")[0], Tok::PlusEqual));
    assert!(matches!(toks_of("!=")[0], Tok::NotEqual));
    assert!(matches!(toks_of("==")[0], Tok::DoubleEqual));
    assert!(matches!(toks_of("<=")[0], Tok::LessEqual));
    assert!(matches!(toks_of("%")[0], Tok::Percent));
}

#[test]
fn comment_skipping() {
    let toks = toks_of("// hi\n1");
    assert_eq!(toks.len(), 1);
    assert_eq!(int_value(&toks[0]), BigInt::from(1u32));
}

#[test]
fn comment_after_code_keeps_newline() {
    let toks = toks_of("1 // hi\n2");
    assert_eq!(toks.len(), 3);
    assert!(matches!(toks[1], Tok::Newline));
}

#[test]
fn mixed_indentation_is_an_error() {
    let (_, err) = tokenize(" \tx");
    assert!(matches!(err, Some(LexicalError::MixedIndentation { .. })));
}

#[test]
fn continuation_line_indentation_inside_brackets() {
    let toks = toks_of("(\n\tx)");
    assert_eq!(toks.len(), 3);
    assert!(matches!(toks[0], Tok::Lparen));
    assert!(matches!(toks[1], Tok::Ident { .. }));
    assert!(matches!(toks[2], Tok::Rparen));
}

#[test]
fn mixed_indentation_on_continuation_line() {
    let (_, err) = tokenize("(\n \tx)");
    assert!(matches!(err, Some(LexicalError::MixedIndentation { .. })));
}

#[test]
fn comment_only_line_inside_brackets() {
    let toks = toks_of("(\n// note\n1)");
    assert_eq!(toks.len(), 3);
    assert!(matches!(toks[0], Tok::Lparen));
    assert_eq!(int_value(&toks[1]), BigInt::from(1u32));
    assert!(matches!(toks[2], Tok::Rparen));
}

#[test]
fn tabs_then_spaces_are_allowed() {
    let toks = toks_of("\t x");
    assert_eq!(toks.len(), 1);
    assert!(matches!(toks[0], Tok::Ident { .. }));
}

#[test]
fn unterminated_string_is_an_error() {
    let (_, err) = tokenize("\"abc");
    assert!(matches!(err, Some(LexicalError::UnterminatedString { .. })));
}

#[test]
fn string_literal_value() {
    let toks = toks_of("\"hi there\"");
    assert_eq!(toks.len(), 1);
    match &toks[0] {
        Tok::Str { value } => assert_eq!(value, "hi there"),
        other => panic!("expected Str token, got {:?}", other),
    }
}

#[test]
fn string_may_span_lines() {
    let toks = toks_of("\"a\nb\"");
    match &toks[0] {
        Tok::Str { value } => assert_eq!(value, "a\nb"),
        other => panic!("expected Str token, got {:?}", other),
    }
}

#[test]
fn stray_bang_is_an_error() {
    let (_, err) = tokenize("!x");
    assert!(matches!(err, Some(LexicalError::MalformedOperator { .. })));
}

#[test]
fn unrecognized_character_is_an_error() {
    let (_, err) = tokenize("@");
    assert!(matches!(err, Some(LexicalError::UnrecognizedCharacter { .. })));
}

#[test]
fn tab_inside_a_line_is_an_error() {
    let (_, err) = tokenize("1\t2");
    assert!(matches!(err, Some(LexicalError::UnrecognizedCharacter { .. })));
}

#[test]
fn radix_literal_without_digits_is_an_error() {
    let (_, err) = tokenize("0x");
    assert!(matches!(err, Some(LexicalError::MalformedNumber { .. })));
}

#[test]
fn underscore_at_literal_boundary_is_an_error() {
    let (_, err) = tokenize("0x1_");
    assert!(matches!(err, Some(LexicalError::MalformedNumber { .. })));
    let (_, err) = tokenize("0x_1");
    assert!(matches!(err, Some(LexicalError::MalformedNumber { .. })));
    let (_, err) = tokenize("0b1__0");
    assert!(matches!(err, Some(LexicalError::MalformedNumber { .. })));
}

#[test]
fn empty_exponent_is_an_error() {
    let (_, err) = tokenize("1e");
    assert!(matches!(err, Some(LexicalError::MalformedNumber { .. })));
    let (_, err) = tokenize("1.5e+");
    assert!(matches!(err, Some(LexicalError::MalformedNumber { .. })));
}

#[test]
fn tokens_before_an_error_remain() {
    let (spanned, err) = tokenize("1 @");
    assert_eq!(spanned.len(), 1);
    assert!(matches!(err, Some(LexicalError::UnrecognizedCharacter { .. })));
}

#[test]
fn lexer_streams_tokens_on_demand() {
    let mut lx = make_tokenizer("a b");
    let first = lx.next_token().unwrap().unwrap();
    assert!(matches!(first.1, Tok::Ident { .. }));
    let second = lx.next_token().unwrap().unwrap();
    assert!(matches!(second.1, Tok::Ident { .. }));
    assert!(lx.next_token().is_none());
    assert!(lx.next_token().is_none());
}

#[test]
fn stream_ends_after_first_error() {
    let mut lx = make_tokenizer("@ 1");
    assert!(matches!(lx.next_token(), Some(Err(_))));
    assert!(lx.next_token().is_none());
}

#[test]
fn lexer_over_characters() {
    let mut lx = Lexer::new(vec!['4', '2']);
    let (start, tok, end) = lx.next_token().unwrap().unwrap();
    assert_eq!(int_value(&tok), BigInt::from(42u32));
    assert_eq!((start.get_row(), start.get_column()), (1, 1));
    assert_eq!((end.get_row(), end.get_column()), (1, 3));
}

#[test]
fn location_accessors() {
    let loc = Location::new(3, 9);
    assert_eq!(loc.get_row(), 3);
    assert_eq!(loc.get_column(), 9);
}

#[test]
fn spans_within_one_line() {
    let (spanned, err) = tokenize("abc de");
    assert!(err.is_none());
    let (start, _, end) = &spanned[0];
    assert_eq!((start.get_row(), start.get_column()), (1, 1));
    assert_eq!((end.get_row(), end.get_column()), (1, 4));
    let (start, _, end) = &spanned[1];
    assert_eq!((start.get_row(), start.get_column()), (1, 5));
    assert_eq!((end.get_row(), end.get_column()), (1, 7));
}

#[test]
fn spans_across_a_newline() {
    let (spanned, err) = tokenize("1\n2");
    assert!(err.is_none());
    let (start, _, end) = &spanned[1];
    assert_eq!((start.get_row(), start.get_column()), (1, 2));
    assert_eq!((end.get_row(), end.get_column()), (2, 1));
    let (start, _, end) = &spanned[2];
    assert_eq!((start.get_row(), start.get_column()), (2, 1));
    assert_eq!((end.get_row(), end.get_column()), (2, 2));
}
