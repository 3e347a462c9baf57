use ion_lexer::source::SourceFile;
use ion_lexer::syntax::{SyntaxKind, Token, TokenStream};

fn stream(input: &str) -> TokenStream {
    let file = SourceFile {
        absolute_path: "stream-tests.tuna".to_string(),
        relative_path: "stream-tests.tuna".to_string(),
        source: input.to_string(),
    };
    file.tokenize().expect("expected the input to tokenize")
}

#[test]
fn stream_reports_length_and_first() -> () {
    let s = stream("let x = 1");
    assert_eq!(4, s.len());
    assert_eq!(SyntaxKind::LetKeyword, s.first().kind);
    assert_eq!(SyntaxKind::Identifier, s.at(1).kind);
    assert_eq!(SyntaxKind::Equals, s.at(2).kind);
    assert_eq!(SyntaxKind::IntLiteral, s.at(3).kind);
}

#[test]
fn current_and_peek_do_not_consume() -> () {
    let s = stream("a + b");
    assert_eq!("a", s.current().text);
    assert_eq!("+", s.peek(1).text);
    assert_eq!("b", s.peek(2).text);
    assert_eq!("a", s.current().text);
}

#[test]
fn advance_walks_the_sequence() -> () {
    let mut s = stream("a + b");
    assert_eq!("a", s.advance().text);
    assert_eq!("+", s.advance().text);
    assert_eq!("b", s.advance().text);
    assert!(s.is_finished());
}

#[test]
fn peek_previous_sees_consumed_tokens() -> () {
    let mut s = stream("a + b");
    s.advance();
    s.advance();
    assert_eq!("+", s.peek_previous(1).text);
    assert_eq!("a", s.peek_previous(2).text);
}

#[test]
fn check_kind_matches_without_consuming() -> () {
    let mut s = stream("a + b");
    assert!(s.check_kind(SyntaxKind::Identifier));
    assert!(!s.check_kind(SyntaxKind::Plus));
    assert!(s.check_kind_at_offset(SyntaxKind::Plus, 1));
    assert!(!s.check_kind_at_offset(SyntaxKind::Plus, 99));
    assert_eq!("a", s.current().text);
}

#[test]
fn check_set_matches_any_kind() -> () {
    let mut s = stream("42");
    assert!(s.check_set(vec![
        SyntaxKind::IntLiteral,
        SyntaxKind::FloatLiteral,
        SyntaxKind::StringLiteral,
    ]));
    assert!(!s.check_set(vec![SyntaxKind::Plus, SyntaxKind::Minus]));
    assert!(!s.check_set_at_offset(vec![SyntaxKind::IntLiteral], 1));
}

#[test]
fn match_kind_consumes_only_on_match() -> () {
    let mut s = stream("a + b");
    assert!(!s.match_kind(SyntaxKind::Plus));
    assert_eq!("a", s.current().text);
    assert!(s.match_kind(SyntaxKind::Identifier));
    assert_eq!("+", s.current().text);
}

#[test]
fn consume_advances_past_the_expected_kind() -> () {
    let mut s = stream("let x");
    s.consume(SyntaxKind::LetKeyword);
    assert_eq!("x", s.current().text);
    s.consume(SyntaxKind::Identifier);
    assert!(s.is_finished());
}

#[test]
fn is_finished_tracks_offsets() -> () {
    let mut s = stream("a b");
    assert!(!s.is_finished());
    assert!(!s.is_finished_at_offset(1));
    assert!(s.is_finished_at_offset(2));
    s.advance();
    s.advance();
    assert!(s.is_finished());
    assert!(s.is_finished_at_offset(0));
}

#[test]
fn empty_stream_is_finished_at_once() -> () {
    let s = stream("");
    assert_eq!(0, s.len());
    assert!(s.is_finished());
}

#[test]
fn default_values_are_null_shaped() -> () {
    let token = Token::default();
    assert_eq!(SyntaxKind::NullLiteral, token.kind);
    assert_eq!("null", token.text);
    let span = ion_lexer::syntax::Span::default();
    assert_eq!(0, span.len());
    assert_eq!(1, span.start.line);
    let loc = ion_lexer::syntax::Location::default();
    assert_eq!("<default>", loc.file_name);
    assert_eq!(0, loc.position);
}

#[test]
fn payload_accessors_match_the_stored_variant() -> () {
    let s = stream("true \"hi\" 2.5 +");
    assert_eq!(Some(true), s.at(0).boolean_value());
    assert_eq!(None, s.at(0).text_value());
    assert_eq!(Some(&"hi".to_string()), s.at(1).text_value());
    assert_eq!(None, s.at(1).boolean_value());
    assert_eq!(Some(&"2.5".to_string()), s.at(2).number_value());
    assert_eq!(2.5, s.at(2).number_value().unwrap().parse::<f64>().unwrap_or(0.0));
    assert_eq!(None, s.at(3).boolean_value());
    assert_eq!(None, s.at(3).text_value());
    assert_eq!(None, s.at(3).number_value());
}
