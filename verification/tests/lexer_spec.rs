use ion_lexer::lexer::Lexer;
use ion_lexer::source::SourceFile;
use ion_lexer::syntax::{LexError, SyntaxKind, Token, TokenValue};

fn source_file(input: &str) -> SourceFile {
    SourceFile {
        absolute_path: "unit-tests.tuna".to_string(),
        relative_path: "unit-tests.tuna".to_string(),
        source: input.to_string(),
    }
}

fn try_tokenize(input: &str) -> Result<Vec<Token>, LexError> {
    let mut lexer = Lexer::new(source_file(input));
    lexer.tokenize()
}

fn tokenize(input: &str) -> Vec<Token> {
    try_tokenize(input).expect("expected the input to tokenize")
}

#[test]
fn panics_when_unexpected_character() -> () {
    match try_tokenize("`") {
        Err(LexError::UnexpectedCharacter { character, location }) => {
            assert_eq!('`', character);
            assert_eq!(0, location.position);
            assert_eq!(1, location.line);
            assert_eq!(0, location.column);
        }
        other => panic!("expected an unexpected-character error, got {:?}", other),
    }
}

#[test]
fn panics_when_unterminated_string_literal() -> () {
    match try_tokenize("'abc") {
        Err(LexError::UnterminatedStringLiteral { location }) => {
            assert_eq!(0, location.position);
        }
        other => panic!("expected an unterminated-string error, got {:?}", other),
    }
}

#[test]
fn panics_when_malformed_number_literal() -> () {
    match try_tokenize("1.2.3") {
        Err(LexError::MalformedNumberLiteral { location }) => {
            assert_eq!(0, location.position);
        }
        other => panic!("expected a malformed-number error, got {:?}", other),
    }
}

#[test]
fn skips_whitespaces_and_newlines() -> () {
    let tokens = tokenize("+    - \n  *  ");
    let plus = &tokens[0];
    let minus = &tokens[1];
    let star = &tokens[2];

    for token in &tokens {
        assert_eq!(1, token.span.len());
    }

    assert_eq!(SyntaxKind::Plus, plus.kind);
    assert_eq!("+", plus.text);
    assert_eq!(SyntaxKind::Minus, minus.kind);
    assert_eq!("-", minus.text);
    assert_eq!(SyntaxKind::Star, star.kind);
    assert_eq!("*", star.text);
    assert_eq!(2, star.span.start.line);
    assert_eq!(2, star.span.start.column);
    assert_eq!(2, star.span.end.line);
    assert_eq!(3, star.span.end.column);
    assert_eq!(3, tokens.len());
}

#[test]
fn lexes_identifiers() -> () {
    let cases = vec!["abc", "a", "_", "abc123", "_abc", "_123_abc_"];

    for input in cases {
        let tokens = tokenize(input);
        let token = tokens.first().unwrap();

        assert_eq!(SyntaxKind::Identifier, token.kind);
        assert_eq!(input, token.text);
    }
}

#[test]
fn lexes_bool_literals() -> () {
    let values = vec![("true", true), ("false", false)];

    for (input, value) in values {
        let tokens = tokenize(input);
        let token = tokens.first().unwrap();

        assert_eq!(SyntaxKind::BoolLiteral, token.kind);
        match &token.value {
            TokenValue::Boolean(b) => assert_eq!(value, *b),
            other => panic!("expected a boolean payload, got {:?}", other),
        }
    }
}

#[test]
fn lexes_number_literals() -> () {
    let values = vec![
        ("123", SyntaxKind::IntLiteral, 123.0),
        ("123.456", SyntaxKind::FloatLiteral, 123.456),
    ];

    for (input, kind, value) in values {
        let tokens = tokenize(input);
        let token = tokens.first().unwrap();

        assert_eq!(kind, token.kind);
        match &token.value {
            TokenValue::Number(lexeme) => {
                assert_eq!(value, lexeme.parse::<f64>().unwrap_or(0.0));
            }
            other => panic!("expected a numeric payload, got {:?}", other),
        }
    }
}

#[test]
fn lexes_string_literals() -> () {
    let values = vec![("\"abc123\"", "abc123")];

    for (input, value) in values {
        let tokens = tokenize(input);
        let token = tokens.first().unwrap();

        assert_eq!(SyntaxKind::StringLiteral, token.kind);
        match &token.value {
            TokenValue::Text(text) => assert_eq!(value, text),
            other => panic!("expected a text payload, got {:?}", other),
        }
    }
}

#[test]
fn lexes_keywords() -> () {
    assert_kinds(vec![
        ("let", SyntaxKind::LetKeyword),
        ("fn", SyntaxKind::FnKeyword),
    ]);
}

#[test]
fn lexes_operators() -> () {
    assert_kinds(vec![
        ("+", SyntaxKind::Plus),
        ("-", SyntaxKind::Minus),
        ("*", SyntaxKind::Star),
        ("/", SyntaxKind::Slash),
        ("//", SyntaxKind::SlashSlash),
        ("%", SyntaxKind::Percent),
        ("^", SyntaxKind::Carat),
        ("~", SyntaxKind::Tilde),
        ("&", SyntaxKind::Ampersand),
        ("|", SyntaxKind::Pipe),
        ("&&", SyntaxKind::AmpersandAmpersand),
        ("||", SyntaxKind::PipePipe),
        ("!", SyntaxKind::Bang),
        ("<", SyntaxKind::LT),
        ("<=", SyntaxKind::LTE),
        (">", SyntaxKind::GT),
        (">=", SyntaxKind::GTE),
        ("=", SyntaxKind::Equals),
        ("==", SyntaxKind::EqualsEquals),
        ("!=", SyntaxKind::BangEquals),
        (":", SyntaxKind::Colon),
    ]);
}

fn assert_kinds(cases: Vec<(&str, SyntaxKind)>) -> () {
    for (input, expected_kind) in cases {
        let tokens = tokenize(input);
        let token = tokens.first().unwrap();

        assert_eq!(expected_kind, token.kind);
    }
}
