use ion_lexer::lexer::Lexer;
use ion_lexer::source::SourceFile;
use ion_lexer::syntax::{LexError, SyntaxKind, Token, TokenValue};
use ion_lexer::syntax_facts::{get_keyword_kind, get_keyword_lexeme};

fn source_file(input: &str) -> SourceFile {
    SourceFile {
        absolute_path: "more-tests.tuna".to_string(),
        relative_path: "more-tests.tuna".to_string(),
        source: input.to_string(),
    }
}

fn try_tokenize(input: &str) -> Result<Vec<Token>, LexError> {
    let mut lexer = Lexer::new(source_file(input));
    lexer.tokenize()
}

fn tokenize(input: &str) -> Vec<Token> {
    try_tokenize(input).expect("expected the input to tokenize")
}

#[test]
fn empty_input_yields_no_tokens() -> () {
    assert_eq!(0, tokenize("").len());
}

#[test]
fn whitespace_only_input_yields_no_tokens() -> () {
    assert_eq!(0, tokenize("  \t \n  \n ").len());
}

#[test]
fn tokenizing_is_idempotent() -> () {
    let input = "let x = 1.5 + \"two\" // y != true";
    let first = tokenize(input);
    let second = tokenize(input);
    assert_eq!(first, second);
}

#[test]
fn keywords_and_identifiers_in_sequence() -> () {
    let tokens = tokenize("let fn");
    assert_eq!(2, tokens.len());
    assert_eq!(SyntaxKind::LetKeyword, tokens[0].kind);
    assert_eq!(SyntaxKind::FnKeyword, tokens[1].kind);
}

#[test]
fn keyword_prefix_is_an_identifier() -> () {
    let tokens = tokenize("lets fnord truth falsey");
    assert_eq!(4, tokens.len());
    for token in &tokens {
        assert_eq!(SyntaxKind::Identifier, token.kind);
        assert_eq!(TokenValue::Absent, token.value);
    }
}

#[test]
fn float_payload_is_exact_lexeme() -> () {
    let tokens = tokenize("123.456");
    assert_eq!(1, tokens.len());
    assert_eq!(SyntaxKind::FloatLiteral, tokens[0].kind);
    assert_eq!("123.456", tokens[0].text);
    assert_eq!(TokenValue::Number("123.456".to_string()), tokens[0].value);
    match &tokens[0].value {
        TokenValue::Number(lexeme) => assert_eq!(123.456, lexeme.parse::<f64>().unwrap_or(0.0)),
        other => panic!("expected a numeric payload, got {:?}", other),
    }
}

#[test]
fn leading_dot_counts_as_the_decimal_point() -> () {
    let tokens = tokenize(".5");
    assert_eq!(1, tokens.len());
    assert_eq!(SyntaxKind::FloatLiteral, tokens[0].kind);
    assert_eq!(".5", tokens[0].text);

    match try_tokenize(".1.2") {
        Err(LexError::MalformedNumberLiteral { .. }) => (),
        other => panic!("expected a malformed-number error, got {:?}", other),
    }
}

#[test]
fn number_without_dot_is_an_int() -> () {
    let tokens = tokenize("42");
    assert_eq!(SyntaxKind::IntLiteral, tokens[0].kind);
    assert_eq!(TokenValue::Number("42".to_string()), tokens[0].value);
}

#[test]
fn string_span_and_payload() -> () {
    let tokens = tokenize("\"abc\"");
    assert_eq!(1, tokens.len());
    let token = &tokens[0];
    assert_eq!(SyntaxKind::StringLiteral, token.kind);
    assert_eq!("\"abc\"", token.text);
    assert_eq!(TokenValue::Text("abc".to_string()), token.value);
    assert_eq!(5, token.span.len());
    assert_eq!(0, token.span.start.position);
    assert_eq!(5, token.span.end.position);
}

#[test]
fn single_quoted_string_closes_on_double_quote() -> () {
    let tokens = tokenize("'abc\"");
    assert_eq!(1, tokens.len());
    let token = &tokens[0];
    assert_eq!(SyntaxKind::StringLiteral, token.kind);
    assert_eq!("'abc\"", token.text);
    assert_eq!(TokenValue::Text("'abc".to_string()), token.value);
}

#[test]
fn empty_string_literal_has_empty_payload() -> () {
    let tokens = tokenize("\"\"");
    assert_eq!(1, tokens.len());
    assert_eq!(TokenValue::Text(String::new()), tokens[0].value);
}

#[test]
fn two_char_operator_needs_exact_follow_character() -> () {
    let tokens = tokenize("!!");
    assert_eq!(2, tokens.len());
    assert_eq!(SyntaxKind::Bang, tokens[0].kind);
    assert_eq!(SyntaxKind::Bang, tokens[1].kind);

    let tokens = tokenize("!=");
    assert_eq!(1, tokens.len());
    assert_eq!(SyntaxKind::BangEquals, tokens[0].kind);
    assert_eq!(2, tokens[0].span.len());

    let tokens = tokenize("&|");
    assert_eq!(2, tokens.len());
    assert_eq!(SyntaxKind::Ampersand, tokens[0].kind);
    assert_eq!(SyntaxKind::Pipe, tokens[1].kind);
}

#[test]
fn operator_tokens_carry_no_payload() -> () {
    for token in tokenize("+ - * / // % ^ ~ : < <= > >= = == ! != & && | ||") {
        assert_eq!(TokenValue::Absent, token.value);
    }
}

#[test]
fn spans_measure_positions_exactly() -> () {
    let tokens = tokenize("ab 12");
    assert_eq!(2, tokens.len());
    assert_eq!(0, tokens[0].span.start.position);
    assert_eq!(2, tokens[0].span.end.position);
    assert_eq!(2, tokens[0].span.len());
    assert_eq!(3, tokens[1].span.start.position);
    assert_eq!(5, tokens[1].span.end.position);
    assert_eq!(1, tokens[1].span.start.line);
    assert_eq!(3, tokens[1].span.start.column);
}

#[test]
fn error_location_points_at_the_lexeme_start() -> () {
    match try_tokenize("ab \n `") {
        Err(LexError::UnexpectedCharacter { character, location }) => {
            assert_eq!('`', character);
            assert_eq!(5, location.position);
            assert_eq!(2, location.line);
            assert_eq!(1, location.column);
        }
        other => panic!("expected an unexpected-character error, got {:?}", other),
    }
}

#[test]
fn file_name_is_carried_into_locations() -> () {
    let tokens = tokenize("+");
    assert_eq!("more-tests.tuna", tokens[0].span.start.file_name);
    assert_eq!("more-tests.tuna", tokens[0].span.end.file_name);
}

#[test]
fn keyword_table_lookup_and_inverse() -> () {
    assert_eq!(Some(SyntaxKind::LetKeyword), get_keyword_kind("let"));
    assert_eq!(Some(SyntaxKind::FnKeyword), get_keyword_kind("fn"));
    assert_eq!(None, get_keyword_kind("letx"));
    assert_eq!(None, get_keyword_kind("true"));
    assert_eq!(Some("let"), get_keyword_lexeme(&SyntaxKind::LetKeyword));
    assert_eq!(Some("fn"), get_keyword_lexeme(&SyntaxKind::FnKeyword));
    assert_eq!(None, get_keyword_lexeme(&SyntaxKind::Plus));
}

#[test]
fn unterminated_double_quote_reports_its_start() -> () {
    match try_tokenize("  \"abc") {
        Err(LexError::UnterminatedStringLiteral { location }) => {
            assert_eq!(2, location.position);
            assert_eq!(2, location.column);
        }
        other => panic!("expected an unterminated-string error, got {:?}", other),
    }
}

#[test]
fn unicode_identifier_positions_are_character_indexed() -> () {
    let tokens = tokenize("déjà vu");
    assert_eq!(2, tokens.len());
    assert_eq!(SyntaxKind::Identifier, tokens[0].kind);
    assert_eq!("déjà", tokens[0].text);
    assert_eq!(4, tokens[0].span.len());
    assert_eq!(5, tokens[1].span.start.position);
}
