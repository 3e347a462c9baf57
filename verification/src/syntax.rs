//! The token data model: source locations, spans, token kinds, literal
//! payloads, tokens, and the read-only cursor over a finished token
//! sequence.

use vstd::prelude::*;

verus! {

/// The closed set of token categories: operators, punctuation,
/// identifiers, keywords, and literal kinds.
#[derive(Debug, Clone, Copy, PartialEq, Eq, Hash, Structural)]
pub enum SyntaxKind {
    Plus,
    Minus,
    Star,
    Slash,
    SlashSlash,
    Percent,
    Carat,
    Tilde,
    Ampersand,
    Pipe,
    AmpersandAmpersand,
    PipePipe,
    Bang,
    LT,
    LTE,
    GT,
    GTE,
    Equals,
    EqualsEquals,
    BangEquals,
    Colon,
    Identifier,
    LetKeyword,
    FnKeyword,
    StringLiteral,
    IntLiteral,
    FloatLiteral,
    BoolLiteral,
    NullLiteral,
}

/// A coordinate into a source file: character offset from the start of
/// the file, 1-based line, and 0-based column (the column resets to 0
/// immediately after a newline).
#[derive(Debug, Clone, PartialEq)]
pub struct Location {
    pub file_name: String,
    pub line: usize,
    pub column: usize,
    pub position: usize,
}

/// Mathematical image of a `Location`.
pub ghost struct LocModel {
    pub file: Seq<char>,
    pub line: int,
    pub column: int,
    pub position: int,
}

impl View for Location {
    type V = LocModel;

    open spec fn view(&self) -> LocModel {
        LocModel {
            file: self.file_name@,
            line: self.line as int,
            column: self.column as int,
            position: self.position as int,
        }
    }
}

impl Default for Location {
    fn default() -> (loc: Location)
        ensures
            loc@.file == "<default>"@,
            loc@.line == 1,
            loc@.column == 0,
            loc@.position == 0,
    {
        Location { file_name: "<default>".to_owned(), line: 1, column: 0, position: 0 }
    }
}

/// A start/end pair of locations delimiting a lexeme. `end` is the
/// location immediately after the lexeme's last character, so the
/// lexeme's length is `end.position - start.position`.
#[derive(Debug, Clone, PartialEq)]
pub struct Span {
    pub start: Location,
    pub end: Location,
}

/// Mathematical image of a `Span`.
pub ghost struct SpanModel {
    pub start: LocModel,
    pub end: LocModel,
}

impl View for Span {
    type V = SpanModel;

    open spec fn view(&self) -> SpanModel {
        SpanModel { start: self.start@, end: self.end@ }
    }
}

impl Span {
    /// The number of characters the span covers.
    pub fn len(&self) -> (n: usize)
        requires
            self.start.position <= self.end.position,
        ensures
            n == self@.end.position - self@.start.position,
    {
        self.end.position - self.start.position
    }
}

impl Default for Span {
    fn default() -> (span: Span)
        ensures
            span@.start.file == "<default>"@,
            span@.start.line == 1,
            span@.start.column == 0,
            span@.start.position == 0,
            span@.end == span@.start,
    {
        Span { start: Location::default(), end: Location::default() }
    }
}

/// The typed literal payload a token may carry: absent for operators,
/// punctuation, identifiers and keywords; a boolean for `true`/`false`;
/// the dequoted text for string literals; and, for numeric literals,
/// the exact numeric lexeme, from which a consumer derives the numeric
/// value.
#[derive(Debug, Clone, PartialEq)]
pub enum TokenValue {
    Absent,
    Boolean(bool),
    Text(String),
    Number(String),
}

/// Mathematical image of a `TokenValue`.
pub ghost enum ValueModel {
    Absent,
    Boolean(bool),
    Text(Seq<char>),
    Number(Seq<char>),
}

impl View for TokenValue {
    type V = ValueModel;

    open spec fn view(&self) -> ValueModel {
        match self {
            TokenValue::Absent => ValueModel::Absent,
            TokenValue::Boolean(b) => ValueModel::Boolean(*b),
            TokenValue::Text(s) => ValueModel::Text(s@),
            TokenValue::Number(s) => ValueModel::Number(s@),
        }
    }
}

/// A classified lexeme: its kind, its source span, the exact source
/// substring it covers, and its literal payload if it has one.
#[derive(Debug, Clone, PartialEq)]
pub struct Token {
    pub kind: SyntaxKind,
    pub span: Span,
    pub text: String,
    pub value: TokenValue,
}

/// Mathematical image of a `Token`.
pub ghost struct TokenModel {
    pub kind: SyntaxKind,
    pub span: SpanModel,
    pub text: Seq<char>,
    pub value: ValueModel,
}

impl View for Token {
    type V = TokenModel;

    open spec fn view(&self) -> TokenModel {
        TokenModel { kind: self.kind, span: self.span@, text: self.text@, value: self.value@ }
    }
}

impl Default for Token {
    fn default() -> (token: Token)
        ensures
            token@.kind == SyntaxKind::NullLiteral,
            token@.text == "null"@,
            token@.value == ValueModel::Absent,
    {
        Token {
            kind: SyntaxKind::NullLiteral,
            span: Span::default(),
            text: "null".to_owned(),
            value: TokenValue::Absent,
        }
    }
}

impl Token {
    /// The boolean payload, or `None` if the token stores no boolean.
    pub fn boolean_value(&self) -> (b: Option<bool>)
        ensures
            match b {
                Some(v) => self.value == TokenValue::Boolean(v),
                None => !(self.value is Boolean),
            },
    {
        match &self.value {
            TokenValue::Boolean(v) => Some(*v),
            _ => None,
        }
    }

    /// The dequoted text payload of a string literal, or `None` if the
    /// token stores no text.
    pub fn text_value(&self) -> (t: Option<&String>)
        ensures
            match t {
                Some(s) => self.value == TokenValue::Text(*s),
                None => !(self.value is Text),
            },
    {
        match &self.value {
            TokenValue::Text(s) => Some(s),
            _ => None,
        }
    }

    /// The numeric lexeme payload of a number literal, from which a
    /// consumer derives the numeric value, or `None` if the token
    /// stores no number.
    pub fn number_value(&self) -> (n: Option<&String>)
        ensures
            match n {
                Some(s) => self.value == TokenValue::Number(*s),
                None => !(self.value is Number),
            },
    {
        match &self.value {
            TokenValue::Number(s) => Some(s),
            _ => None,
        }
    }
}

/// The mathematical image of a token sequence.
pub open spec fn tokens_model(tokens: Seq<Token>) -> Seq<TokenModel> {
    tokens.map_values(|t: Token| t@)
}

/// The three fatal lexical errors, each carrying the location of the
/// lexeme that triggered it.
#[derive(Debug, Clone, PartialEq)]
pub enum LexError {
    UnexpectedCharacter { character: char, location: Location },
    UnterminatedStringLiteral { location: Location },
    MalformedNumberLiteral { location: Location },
}

/// Mathematical image of a `LexError`.
pub ghost enum LexErrorModel {
    UnexpectedCharacter { character: char, location: LocModel },
    UnterminatedStringLiteral { location: LocModel },
    MalformedNumberLiteral { location: LocModel },
}

impl View for LexError {
    type V = LexErrorModel;

    open spec fn view(&self) -> LexErrorModel {
        match self {
            LexError::UnexpectedCharacter { character, location } =>
                LexErrorModel::UnexpectedCharacter { character: *character, location: location@ },
            LexError::UnterminatedStringLiteral { location } =>
                LexErrorModel::UnterminatedStringLiteral { location: location@ },
            LexError::MalformedNumberLiteral { location } =>
                LexErrorModel::MalformedNumberLiteral { location: location@ },
        }
    }
}

/// A forward-only, lookahead-capable read cursor over a finished token
/// sequence. The cursor position never exceeds the sequence length.
pub struct TokenStream {
    pub tokens: Vec<Token>,
    position: usize,
}

impl TokenStream {
    /// The token sequence under the cursor.
    pub closed spec fn spec_tokens(&self) -> Seq<Token> {
        self.tokens@
    }

    /// The current cursor position.
    pub closed spec fn spec_position(&self) -> int {
        self.position as int
    }

    /// Well-formedness: the cursor never passes the end of the sequence.
    pub open spec fn wf(&self) -> bool {
        self.spec_position() <= self.spec_tokens().len()
    }

    /// Whether the cursor, moved forward by `offset`, is at or past the end.
    pub open spec fn spec_is_finished_at(&self, offset: int) -> bool {
        self.spec_position() + offset >= self.spec_tokens().len()
    }

    /// Whether the token at `offset` ahead of the cursor exists and has
    /// the given kind.
    pub open spec fn spec_check_at(&self, kind: SyntaxKind, offset: int) -> bool {
        &&& !self.spec_is_finished_at(offset)
        &&& self.spec_tokens()[self.spec_position() + offset].kind == kind
    }

    /// Wraps a finished token sequence, with the cursor at the start.
    pub fn new(tokens: Vec<Token>) -> (stream: TokenStream)
        ensures
            stream.wf(),
            stream.spec_tokens() == tokens@,
            stream.spec_position() == 0,
    {
        TokenStream { tokens, position: 0 }
    }

    /// The number of tokens in the sequence.
    pub fn len(&self) -> (n: usize)
        ensures
            n == self.spec_tokens().len(),
    {
        self.tokens.len()
    }

    /// The first token of the sequence, independent of the cursor.
    pub fn first(&self) -> (token: &Token)
        requires
            self.spec_tokens().len() > 0,
        ensures
            token == self.spec_tokens()[0],
    {
        self.at(0)
    }

    /// The token at an absolute index, independent of the cursor.
    pub fn at(&self, index: usize) -> (token: &Token)
        requires
            index < self.spec_tokens().len(),
        ensures
            token == self.spec_tokens()[index as int],
    {
        &self.tokens[index]
    }

    /// Requires the current token to have the given kind and consumes it.
    /// Calling this at the end of the stream, or on a token of another
    /// kind, is a contract violation of the parser built on top.
    pub fn consume(&mut self, kind: SyntaxKind)
        requires
            old(self).wf(),
            !old(self).spec_is_finished_at(0),
            old(self).spec_tokens()[old(self).spec_position()].kind == kind,
        ensures
            final(self).wf(),
            final(self).spec_tokens() == old(self).spec_tokens(),
            final(self).spec_position() == old(self).spec_position() + 1,
    {
        self.advance();
    }

    /// If the current token has the given kind, consumes it and returns
    /// true; otherwise leaves the cursor unchanged and returns false.
    pub fn match_kind(&mut self, kind: SyntaxKind) -> (matched: bool)
        requires
            old(self).wf(),
        ensures
            final(self).wf(),
            final(self).spec_tokens() == old(self).spec_tokens(),
            matched == old(self).spec_check_at(kind, 0),
            matched ==> final(self).spec_position() == old(self).spec_position() + 1,
            !matched ==> final(self).spec_position() == old(self).spec_position(),
    {
        if self.check_kind(kind) {
            self.advance();
            true
        } else {
            false
        }
    }

    /// Whether the current token matches any kind in the given set.
    pub fn check_set(&mut self, kinds: Vec<SyntaxKind>) -> (r: bool)
        requires
            old(self).wf(),
        ensures
            *final(self) == *old(self),
            r == exists|i: int|
                0 <= i < kinds@.len() && old(self).spec_check_at(kinds@[i], 0),
    {
        self.check_set_at_offset(kinds, 0)
    }

    /// Whether the token at `offset` ahead of the cursor matches any kind
    /// in the given set; false if that offset is past the end.
    pub fn check_set_at_offset(&mut self, kinds: Vec<SyntaxKind>, offset: usize) -> (r: bool)
        requires
            old(self).wf(),
        ensures
            *final(self) == *old(self),
            r == exists|i: int|
                0 <= i < kinds@.len() && old(self).spec_check_at(kinds@[i], offset as int),
    {
        let mut i: usize = 0;
        while i < kinds.len()
            invariant
                *self == *old(self),
                self.wf(),
                i <= kinds@.len(),
                forall|j: int| 0 <= j < i ==> !self.spec_check_at(kinds@[j], offset as int),
            decreases kinds@.len() - i,
        {
            if self.check_kind_at_offset(kinds[i], offset) {
                return true;
            }
            i += 1;
        }
        false
    }

    /// Whether the current token exists and has the given kind.
    pub fn check_kind(&mut self, kind: SyntaxKind) -> (r: bool)
        requires
            old(self).wf(),
        ensures
            *final(self) == *old(self),
            r == old(self).spec_check_at(kind, 0),
    {
        self.check_kind_at_offset(kind, 0)
    }

    /// Whether the token at `offset` ahead of the cursor exists and has
    /// the given kind; false (not an error) if that offset is past the end.
    pub fn check_kind_at_offset(&mut self, kind: SyntaxKind, offset: usize) -> (r: bool)
        requires
            old(self).wf(),
        ensures
            *final(self) == *old(self),
            r == old(self).spec_check_at(kind, offset as int),
    {
        if self.is_finished_at_offset(offset) {
            false
        } else {
            let n = self.tokens.len();
            self.tokens[self.position + offset].kind == kind
        }
    }

    /// The token at the cursor, without consuming it.
    pub fn current(&self) -> (token: &Token)
        requires
            self.wf(),
            !self.spec_is_finished_at(0),
        ensures
            token == self.spec_tokens()[self.spec_position()],
    {
        self.peek(0)
    }

    /// The token at `offset` ahead of the cursor, without consuming it.
    pub fn peek(&self, offset: usize) -> (token: &Token)
        requires
            self.wf(),
            !self.spec_is_finished_at(offset as int),
        ensures
            token == self.spec_tokens()[self.spec_position() + offset],
    {
        let n = self.tokens.len();
        &self.tokens[self.position + offset]
    }

    /// The token `offset` positions behind the cursor.
    pub fn peek_previous(&self, offset: usize) -> (token: &Token)
        requires
            self.wf(),
            offset <= self.spec_position(),
            self.spec_position() - offset < self.spec_tokens().len(),
        ensures
            token == self.spec_tokens()[self.spec_position() - offset],
    {
        &self.tokens[self.position - offset]
    }

    /// Whether the cursor has reached or passed the end.
    pub fn is_finished(&self) -> (r: bool)
        ensures
            r == self.spec_is_finished_at(0),
    {
        self.is_finished_at_offset(0)
    }

    /// Whether the cursor, moved forward by `offset`, is at or past the end.
    pub fn is_finished_at_offset(&self, offset: usize) -> (r: bool)
        ensures
            r == self.spec_is_finished_at(offset as int),
    {
        if self.position >= self.tokens.len() {
            true
        } else {
            offset >= self.tokens.len() - self.position
        }
    }

    /// Returns the token at the cursor and moves the cursor forward by one.
    pub fn advance(&mut self) -> (token: &Token)
        requires
            old(self).wf(),
            !old(self).spec_is_finished_at(0),
        ensures
            final(self).wf(),
            final(self).spec_tokens() == old(self).spec_tokens(),
            final(self).spec_position() == old(self).spec_position() + 1,
            token == old(self).spec_tokens()[old(self).spec_position()],
    {
        let n = self.tokens.len();
        self.position += 1;
        self.peek_previous(1)
    }
}

} // verus!
