//! The lexer: a single forward pass over the source text that produces
//! the token sequence, proved equal to what the mathematical model in
//! `model` assigns to the text.

use vstd::prelude::*;
use vstd::string::*;

use crate::chars::{alpha_char, numeric_char, ws_char};
use crate::model::{
    lemma_step_emit, lemma_step_fail, lemma_step_skip, lemma_string_scan_end, lemma_word_run_end,
    lexeme_token, loc_at, number_char, number_scan, prepend_tokens, single_char_kind, spec_step,
    spec_tokenize, spec_tokens_from, string_scan, strip_quotes, two_char_extension, word_char,
    word_run, Step,
};
use crate::source::SourceFile;
use crate::syntax::{
    tokens_model, LexError, LexErrorModel, Location, Span, SyntaxKind, Token, TokenModel,
    TokenValue,
};
use crate::syntax_facts;

verus! {

/// The lexer's state: the source text as a character sequence, the
/// tokens produced so far, the location where the current lexeme
/// began, and the scan position with its line and column.
pub struct Lexer {
    source: Vec<char>,
    tokens: Vec<Token>,
    lexeme_start_location: Location,
    position: usize,
    column: usize,
    line: usize,
}

impl Lexer {
    /// The source text being scanned.
    pub closed spec fn spec_source(&self) -> Seq<char> {
        self.source@
    }

    /// The file identifier carried into every location.
    pub closed spec fn spec_file(&self) -> Seq<char> {
        self.lexeme_start_location.file_name@
    }

    /// The tokens produced so far.
    pub closed spec fn spec_tokens(&self) -> Seq<Token> {
        self.tokens@
    }

    /// The current scan position.
    pub closed spec fn spec_position(&self) -> int {
        self.position as int
    }

    /// The current (1-based) line.
    pub closed spec fn spec_line(&self) -> int {
        self.line as int
    }

    /// The current (0-based) column.
    pub closed spec fn spec_column(&self) -> int {
        self.column as int
    }

    /// Where the lexeme being scanned began.
    pub closed spec fn spec_start_loc(&self) -> crate::syntax::LocModel {
        self.lexeme_start_location@
    }

    /// Well-formedness of the scan state: the position stays within the
    /// source, the column never exceeds the position, and the line is
    /// 1-based and bounded by the number of characters passed.
    pub open spec fn wf(&self) -> bool {
        &&& self.spec_position() <= self.spec_source().len()
        &&& self.spec_source().len() < usize::MAX
        &&& self.spec_column() <= self.spec_position()
        &&& 1 <= self.spec_line()
        &&& self.spec_line() <= self.spec_position() + 1
    }

    /// A freshly constructed lexer: nothing scanned, nothing produced.
    pub open spec fn at_start(&self) -> bool {
        &&& self.spec_position() == 0
        &&& self.spec_line() == 1
        &&& self.spec_column() == 0
        &&& self.spec_tokens() == Seq::<Token>::empty()
        &&& self.spec_start_loc() == loc_at(self.spec_file(), 0, 1, 0)
    }

    /// Builds a lexer over the given file, positioned at its start.
    pub fn new(file: SourceFile) -> (lexer: Lexer)
        requires
            file.source@.len() < usize::MAX,
        ensures
            lexer.wf(),
            lexer.at_start(),
            lexer.spec_source() == file.source@,
            lexer.spec_file() == file.relative_path@,
    {
        let n = file.source.as_str().unicode_len();
        let mut chars: Vec<char> = Vec::new();
        let mut i: usize = 0;
        while i < n
            invariant
                i <= n,
                n == file.source@.len(),
                chars@ == file.source@.subrange(0, i as int),
            decreases n - i,
        {
            let c = file.source.as_str().get_char(i);
            chars.push(c);
            proof {
                assert(chars@ =~= file.source@.subrange(0, i + 1));
            }
            i += 1;
        }
        proof {
            assert(chars@ =~= file.source@);
        }
        Lexer {
            source: chars,
            tokens: Vec::new(),
            lexeme_start_location: Location {
                file_name: file.relative_path,
                position: 0,
                column: 0,
                line: 1,
            },
            position: 0,
            column: 0,
            line: 1,
        }
    }

    /// A fresh `Location` at the recorded lexeme start.
    fn start_location(&self) -> (loc: Location)
        ensures
            loc@ == self.lexeme_start_location@,
    {
        Location {
            file_name: self.lexeme_start_location.file_name.clone(),
            position: self.lexeme_start_location.position,
            column: self.lexeme_start_location.column,
            line: self.lexeme_start_location.line,
        }
    }

    /// A fresh `Location` at the current position, column and line.
    fn current_location(&self) -> (loc: Location)
        ensures
            loc@ == loc_at(
                self.spec_file(),
                self.spec_position(),
                self.spec_line(),
                self.spec_column(),
            ),
    {
        Location {
            file_name: self.lexeme_start_location.file_name.clone(),
            position: self.position,
            column: self.column,
            line: self.line,
        }
    }

    /// The span from the recorded lexeme start to the current location.
    fn current_span(&self) -> (span: Span)
        ensures
            span@.start == self.lexeme_start_location@,
            span@.end == loc_at(
                self.spec_file(),
                self.spec_position(),
                self.spec_line(),
                self.spec_column(),
            ),
    {
        Span { start: self.start_location(), end: self.current_location() }
    }

    /// The source text between two character positions, as a string.
    fn text_range(&self, from: usize, to: usize) -> (text: String)
        requires
            from <= to,
            to <= self.spec_source().len(),
        ensures
            text@ == self.spec_source().subrange(from as int, to as int),
    {
        let mut text = String::new();
        let mut i: usize = from;
        while i < to
            invariant
                from <= i <= to,
                to <= self.source@.len(),
                text@ == self.source@.subrange(from as int, i as int),
            decreases to - i,
        {
            text.push(self.source[i]);
            proof {
                assert(text@ =~= self.source@.subrange(from as int, i + 1));
            }
            i += 1;
        }
        text
    }

    /// The lexeme currently being scanned: the text from the recorded
    /// lexeme start to the current position.
    fn current_lexeme(&self) -> (text: String)
        requires
            self.lexeme_start_location.position <= self.position,
            self.position <= self.spec_source().len(),
        ensures
            text@ == self.spec_source().subrange(
                self.lexeme_start_location@.position,
                self.spec_position(),
            ),
    {
        self.text_range(self.lexeme_start_location.position, self.position)
    }

    /// The character at the current position.
    fn current_char(&self) -> (c: char)
        requires
            self.spec_position() < self.spec_source().len(),
        ensures
            c == self.spec_source()[self.spec_position()],
    {
        self.peek_char(0)
    }

    /// The character at the given offset from the current position.
    fn peek_char(&self, offset: usize) -> (c: char)
        requires
            self.spec_position() + offset < self.spec_source().len(),
        ensures
            c == self.spec_source()[self.spec_position() + offset],
    {
        let n = self.source.len();
        self.source[self.position + offset]
    }

    /// Whether the current character matches the expected one; if so,
    /// the position (and column) advance by one.
    fn match_char(&mut self, expected: char) -> (matched: bool)
        requires
            old(self).wf(),
        ensures
            final(self).wf(),
            matched == (old(self).spec_position() < old(self).spec_source().len()
                && old(self).spec_source()[old(self).spec_position()] == expected),
            matched ==> *final(self) == (Lexer {
                position: (old(self).position + 1) as usize,
                column: (old(self).column + 1) as usize,
                ..*old(self)
            }),
            !matched ==> *final(self) == *old(self),
    {
        let is_match = !self.is_finished() && self.current_char() == expected;
        if is_match {
            self.advance();
        }
        is_match
    }

    /// Shortcut for advancing by one character.
    fn advance(&mut self)
        requires
            old(self).wf(),
            old(self).spec_position() < old(self).spec_source().len(),
        ensures
            final(self).wf(),
            *final(self) == (Lexer {
                position: (old(self).position + 1) as usize,
                column: (old(self).column + 1) as usize,
                ..*old(self)
            }),
    {
        self.advance_multiple(1);
    }

    /// Advances the position (and the column) by `amount`.
    fn advance_multiple(&mut self, amount: usize)
        requires
            old(self).wf(),
            old(self).spec_position() + amount <= old(self).spec_source().len(),
        ensures
            final(self).wf(),
            *final(self) == (Lexer {
                position: (old(self).position + amount) as usize,
                column: (old(self).column + amount) as usize,
                ..*old(self)
            }),
    {
        self.position += amount;
        self.column += amount;
    }

    /// Advances past a newline: the position moves by one, the line
    /// increments, and the column resets to 0.
    fn advance_new_line(&mut self)
        requires
            old(self).wf(),
            old(self).spec_position() < old(self).spec_source().len(),
        ensures
            final(self).wf(),
            *final(self) == (Lexer {
                position: (old(self).position + 1) as usize,
                line: (old(self).line + 1) as usize,
                column: 0,
                ..*old(self)
            }),
    {
        self.position += 1;
        self.line += 1;
        self.column = 0;
    }

    /// Whether the scan has reached the end of the source, looking
    /// `offset` characters ahead.
    fn is_finished_at_offset(&self, offset: usize) -> (r: bool)
        ensures
            r == (self.spec_position() + offset >= self.spec_source().len()),
    {
        if self.position >= self.source.len() {
            true
        } else {
            offset >= self.source.len() - self.position
        }
    }

    /// Whether the scan has reached the end of the source.
    fn is_finished(&self) -> (r: bool)
        ensures
            r == (self.spec_position() >= self.spec_source().len()),
    {
        self.is_finished_at_offset(0)
    }

    /// Appends a token for the current lexeme: its span runs from the
    /// recorded lexeme start to the current location, and its text is
    /// the source between the two.
    fn push_token(&mut self, kind: SyntaxKind, value: TokenValue)
        requires
            old(self).wf(),
            old(self).lexeme_start_location.position <= old(self).position,
        ensures
            final(self).wf(),
            *final(self) == (Lexer { tokens: final(self).tokens, ..*old(self) }),
            final(self).tokens@.len() == old(self).tokens@.len() + 1,
            final(self).tokens@.subrange(0, old(self).tokens@.len() as int) == old(
                self,
            ).tokens@,
            final(self).tokens@.last()@ == (TokenModel {
                kind,
                span: crate::syntax::SpanModel {
                    start: old(self).lexeme_start_location@,
                    end: loc_at(
                        old(self).spec_file(),
                        old(self).spec_position(),
                        old(self).spec_line(),
                        old(self).spec_column(),
                    ),
                },
                text: old(self).spec_source().subrange(
                    old(self).lexeme_start_location@.position,
                    old(self).spec_position(),
                ),
                value: value@,
            }),
    {
        let token = Token {
            kind,
            span: self.current_span(),
            text: self.current_lexeme(),
            value,
        };
        self.tokens.push(token);
        proof {
            assert(self.tokens@.subrange(0, old(self).tokens@.len() as int) =~= old(
                self,
            ).tokens@);
        }
    }

    /// Emits the token for the fully scanned lexeme that began at the
    /// recorded lexeme start: pushes it, and justifies that the scan
    /// from the lexeme start is that token followed by the scan from
    /// the current position.
    fn emit_lexeme(&mut self, kind: SyntaxKind, value: TokenValue)
        requires
            old(self).wf(),
            0 <= old(self).lexeme_start_location@.position,
            old(self).lexeme_start_location@.position < old(self).spec_position(),
            old(self).lexeme_start_location@.file == old(self).spec_file(),
            old(self).lexeme_start_location@.line == old(self).spec_line(),
            old(self).lexeme_start_location@.column == old(self).spec_column() - (old(
                self,
            ).spec_position() - old(self).lexeme_start_location@.position),
            spec_step(
                old(self).spec_source(),
                old(self).spec_file(),
                old(self).lexeme_start_location@.position,
                old(self).lexeme_start_location@.line,
                old(self).lexeme_start_location@.column,
            ) == (Step::Emit {
                token: lexeme_token(
                    old(self).spec_source(),
                    old(self).spec_file(),
                    old(self).lexeme_start_location@.position,
                    old(self).lexeme_start_location@.line,
                    old(self).lexeme_start_location@.column,
                    old(self).spec_position() - old(self).lexeme_start_location@.position,
                    kind,
                    value@,
                ),
                extra: (old(self).spec_position() - old(self).lexeme_start_location@.position
                    - 1) as nat,
            }),
        ensures
            final(self).wf(),
            final(self).source == old(self).source,
            final(self).spec_file() == old(self).spec_file(),
            final(self).spec_position() == old(self).spec_position(),
            final(self).spec_line() == old(self).spec_line(),
            final(self).spec_column() == old(self).spec_column(),
            final(self).tokens@.len() == old(self).tokens@.len() + 1,
            final(self).tokens@.subrange(0, old(self).tokens@.len() as int) == old(self).tokens@,
            spec_tokens_from(
                old(self).spec_source(),
                old(self).spec_file(),
                old(self).lexeme_start_location@.position,
                old(self).lexeme_start_location@.line,
                old(self).lexeme_start_location@.column,
            ) == prepend_tokens(
                tokens_model(final(self).tokens@).skip(old(self).tokens@.len() as int),
                spec_tokens_from(
                    old(self).spec_source(),
                    old(self).spec_file(),
                    final(self).spec_position(),
                    final(self).spec_line(),
                    final(self).spec_column(),
                ),
            ),
    {
        self.push_token(kind, value);
        proof {
            let lsl = old(self).lexeme_start_location@;
            let src = old(self).spec_source();
            let file = old(self).spec_file();
            let len = old(self).spec_position() - lsl.position;
            let token = lexeme_token(src, file, lsl.position, lsl.line, lsl.column, len, kind, value@);
            assert(self.tokens@.last()@ == token);
            lemma_step_emit(src, file, lsl.position, lsl.line, lsl.column, token, (len - 1) as nat);
            assert(tokens_model(self.tokens@).skip(old(self).tokens@.len() as int) =~= seq![token]);
        }
    }

    /// Advances past the whitespace run beginning at the current
    /// character: a newline moves to the next line and resets the
    /// column, any other whitespace advances the column. Afterwards the
    /// lexeme start is re-anchored to the current location, so
    /// whitespace never becomes part of a lexeme.
    #[verifier::loop_isolation(false)]
    fn skip_whitespace(&mut self)
        requires
            old(self).wf(),
        ensures
            final(self).wf(),
            final(self).source == old(self).source,
            final(self).tokens == old(self).tokens,
            final(self).spec_file() == old(self).spec_file(),
            old(self).spec_position() <= final(self).spec_position(),
            final(self).lexeme_start_location@ == loc_at(
                final(self).spec_file(),
                final(self).spec_position(),
                final(self).spec_line(),
                final(self).spec_column(),
            ),
            spec_tokens_from(
                old(self).spec_source(),
                old(self).spec_file(),
                final(self).spec_position(),
                final(self).spec_line(),
                final(self).spec_column(),
            ) == spec_tokens_from(
                old(self).spec_source(),
                old(self).spec_file(),
                old(self).spec_position(),
                old(self).spec_line(),
                old(self).spec_column(),
            ),
            (old(self).spec_position() < old(self).spec_source().len() && ws_char(
                old(self).spec_source()[old(self).spec_position()],
            )) ==> old(self).spec_position() < final(self).spec_position(),
    {
        while !self.is_finished() && self.current_char().is_whitespace()
            invariant
                self.wf(),
                self.source == old(self).source,
                self.tokens == old(self).tokens,
                self.lexeme_start_location == old(self).lexeme_start_location,
                old(self).spec_position() <= self.spec_position(),
                spec_tokens_from(
                    old(self).spec_source(),
                    old(self).spec_file(),
                    self.spec_position(),
                    self.spec_line(),
                    self.spec_column(),
                ) == spec_tokens_from(
                    old(self).spec_source(),
                    old(self).spec_file(),
                    old(self).spec_position(),
                    old(self).spec_line(),
                    old(self).spec_column(),
                ),
                (old(self).spec_position() < old(self).spec_source().len() && ws_char(
                    old(self).spec_source()[old(self).spec_position()],
                ) && self.spec_position() == old(self).spec_position()) ==> *self == *old(self),
            decreases self.source@.len() - self.position,
        {
            let ch = self.current_char();
            let ghost pre = *self;
            if ch == '\n' {
                self.advance_new_line();
            } else {
                self.advance();
            }
            proof {
                lemma_step_skip(
                    pre.spec_source(),
                    pre.spec_file(),
                    pre.spec_position(),
                    pre.spec_line(),
                    pre.spec_column(),
                );
            }
        }
        self.lexeme_start_location = self.current_location();
    }

    /// Scans the rest of an identifier-or-keyword lexeme whose first
    /// character was just consumed: advances over the remaining word
    /// characters, then classifies the lexeme (boolean literal, keyword,
    /// or identifier) and emits its token.
    #[verifier::loop_isolation(false)]
    fn read_identifier_or_keyword(&mut self)
        requires
            old(self).wf(),
            0 <= old(self).lexeme_start_location@.position,
            old(self).lexeme_start_location@.position + 1 == old(self).spec_position(),
            old(self).lexeme_start_location@.file == old(self).spec_file(),
            old(self).lexeme_start_location@.line == old(self).spec_line(),
            old(self).lexeme_start_location@.column + 1 == old(self).spec_column(),
            ({
                let c = old(self).spec_source()[old(self).lexeme_start_location@.position];
                &&& !ws_char(c)
                &&& single_char_kind(c) is None
                &&& two_char_extension(c) is None
                &&& c != '"' && c != '\''
                &&& (alpha_char(c) || c == '_')
            }),
        ensures
            final(self).wf(),
            final(self).source == old(self).source,
            final(self).spec_file() == old(self).spec_file(),
            old(self).spec_position() <= final(self).spec_position(),
            old(self).tokens@.len() <= final(self).tokens@.len(),
            final(self).tokens@.subrange(0, old(self).tokens@.len() as int) == old(self).tokens@,
            spec_tokens_from(
                old(self).spec_source(),
                old(self).spec_file(),
                old(self).lexeme_start_location@.position,
                old(self).lexeme_start_location@.line,
                old(self).lexeme_start_location@.column,
            ) == prepend_tokens(
                tokens_model(final(self).tokens@).skip(old(self).tokens@.len() as int),
                spec_tokens_from(
                    old(self).spec_source(),
                    old(self).spec_file(),
                    final(self).spec_position(),
                    final(self).spec_line(),
                    final(self).spec_column(),
                ),
            ),
    {
        while !self.is_finished() && (self.current_char().is_alphanumeric()
            || self.current_char() == '_')
            invariant
                self.wf(),
                self.source == old(self).source,
                self.tokens == old(self).tokens,
                self.lexeme_start_location == old(self).lexeme_start_location,
                old(self).spec_position() <= self.spec_position(),
                self.spec_line() == old(self).spec_line(),
                self.spec_column() - self.spec_position() == old(self).spec_column() - old(
                    self,
                ).spec_position(),
                forall|j: int|
                    old(self).spec_position() <= j < self.spec_position() ==> word_char(
                        self.source@[j],
                    ),
            decreases self.source@.len() - self.position,
        {
            self.advance();
        }
        proof {
            lemma_word_run_end(
                self.source@,
                old(self).spec_position(),
                self.spec_position(),
            );
        }
        let text = self.current_lexeme();
        if text == "true".to_owned() {
            self.emit_lexeme(SyntaxKind::BoolLiteral, TokenValue::Boolean(true));
        } else if text == "false".to_owned() {
            self.emit_lexeme(SyntaxKind::BoolLiteral, TokenValue::Boolean(false));
        } else {
            let keyword_kind = syntax_facts::get_keyword_kind(text.as_str());
            match keyword_kind {
                Some(kind) => self.emit_lexeme(kind, TokenValue::Absent),
                None => self.emit_lexeme(SyntaxKind::Identifier, TokenValue::Absent),
            }
        }
    }

    /// Scans the rest of a string literal whose opening quote was just
    /// consumed: advances until a closing `"`, then emits the token with
    /// the dequoted payload, or reports the literal as unterminated if
    /// the input ends first.
    #[verifier::loop_isolation(false)]
    fn read_string(&mut self) -> (r: Result<(), LexError>)
        requires
            old(self).wf(),
            0 <= old(self).lexeme_start_location@.position,
            old(self).lexeme_start_location@.position + 1 == old(self).spec_position(),
            old(self).lexeme_start_location@.file == old(self).spec_file(),
            old(self).lexeme_start_location@.line == old(self).spec_line(),
            old(self).lexeme_start_location@.column + 1 == old(self).spec_column(),
            ({
                let c = old(self).spec_source()[old(self).lexeme_start_location@.position];
                &&& !ws_char(c)
                &&& single_char_kind(c) is None
                &&& two_char_extension(c) is None
                &&& (c == '"' || c == '\'')
            }),
        ensures
            final(self).wf(),
            final(self).source == old(self).source,
            final(self).spec_file() == old(self).spec_file(),
            old(self).spec_position() <= final(self).spec_position(),
            match r {
                Ok(()) => {
                    &&& old(self).tokens@.len() <= final(self).tokens@.len()
                    &&& final(self).tokens@.subrange(0, old(self).tokens@.len() as int) == old(
                        self,
                    ).tokens@
                    &&& spec_tokens_from(
                        old(self).spec_source(),
                        old(self).spec_file(),
                        old(self).lexeme_start_location@.position,
                        old(self).lexeme_start_location@.line,
                        old(self).lexeme_start_location@.column,
                    ) == prepend_tokens(
                        tokens_model(final(self).tokens@).skip(old(self).tokens@.len() as int),
                        spec_tokens_from(
                            old(self).spec_source(),
                            old(self).spec_file(),
                            final(self).spec_position(),
                            final(self).spec_line(),
                            final(self).spec_column(),
                        ),
                    )
                },
                Err(e) => spec_tokens_from(
                    old(self).spec_source(),
                    old(self).spec_file(),
                    old(self).lexeme_start_location@.position,
                    old(self).lexeme_start_location@.line,
                    old(self).lexeme_start_location@.column,
                ) == Err::<Seq<TokenModel>, LexErrorModel>(e@),
            },
    {
        while !self.is_finished() && self.current_char() != '"'
            invariant
                self.wf(),
                self.source == old(self).source,
                self.tokens == old(self).tokens,
                self.lexeme_start_location == old(self).lexeme_start_location,
                old(self).spec_position() <= self.spec_position(),
                self.spec_line() == old(self).spec_line(),
                self.spec_column() - self.spec_position() == old(self).spec_column() - old(
                    self,
                ).spec_position(),
                forall|j: int|
                    old(self).spec_position() <= j < self.spec_position()
                        ==> self.source@[j] != '"',
            decreases self.source@.len() - self.position,
        {
            self.advance();
        }
        let ghost scan_end = self.spec_position();
        let terminated = self.match_char('"');
        if !terminated {
            proof {
                lemma_string_scan_end(
                    self.source@,
                    old(self).spec_position(),
                    scan_end,
                );
                lemma_step_fail(
                    self.source@,
                    self.spec_file(),
                    old(self).lexeme_start_location@.position,
                    old(self).lexeme_start_location@.line,
                    old(self).lexeme_start_location@.column,
                    LexErrorModel::UnterminatedStringLiteral {
                        location: old(self).lexeme_start_location@,
                    },
                );
            }
            return Err(
                LexError::UnterminatedStringLiteral { location: self.start_location() },
            );
        }
        proof {
            lemma_string_scan_end(self.source@, old(self).spec_position(), scan_end);
        }
        let start = self.lexeme_start_location.position;
        let mut lo = start;
        if self.source[lo] == '"' {
            lo += 1;
        }
        let mut hi = self.position;
        if hi > lo && self.source[hi - 1] == '"' {
            hi -= 1;
        }
        let payload = self.text_range(lo, hi);
        proof {
            assert(payload@ =~= strip_quotes(
                self.source@.subrange(
                    old(self).lexeme_start_location@.position,
                    self.spec_position(),
                ),
            ));
        }
        self.emit_lexeme(SyntaxKind::StringLiteral, TokenValue::Text(payload));
        Ok(())
    }

    /// Scans the rest of a numeric lexeme whose first character was
    /// just consumed: advances over numeric characters and at most one
    /// decimal point, then emits an integer or float token carrying the
    /// numeric lexeme, or reports the literal as malformed on a second
    /// decimal point.
    #[verifier::loop_isolation(false)]
    fn read_number(&mut self, decimal_used: bool) -> (r: Result<(), LexError>)
        requires
            old(self).wf(),
            0 <= old(self).lexeme_start_location@.position,
            old(self).lexeme_start_location@.position + 1 == old(self).spec_position(),
            old(self).lexeme_start_location@.file == old(self).spec_file(),
            old(self).lexeme_start_location@.line == old(self).spec_line(),
            old(self).lexeme_start_location@.column + 1 == old(self).spec_column(),
            decimal_used == (old(self).spec_source()[old(
                self,
            ).lexeme_start_location@.position] == '.'),
            ({
                let c = old(self).spec_source()[old(self).lexeme_start_location@.position];
                &&& !ws_char(c)
                &&& single_char_kind(c) is None
                &&& two_char_extension(c) is None
                &&& c != '"' && c != '\''
                &&& !(alpha_char(c) || c == '_')
                &&& number_char(c)
            }),
        ensures
            final(self).wf(),
            final(self).source == old(self).source,
            final(self).spec_file() == old(self).spec_file(),
            old(self).spec_position() <= final(self).spec_position(),
            match r {
                Ok(()) => {
                    &&& old(self).tokens@.len() <= final(self).tokens@.len()
                    &&& final(self).tokens@.subrange(0, old(self).tokens@.len() as int) == old(
                        self,
                    ).tokens@
                    &&& spec_tokens_from(
                        old(self).spec_source(),
                        old(self).spec_file(),
                        old(self).lexeme_start_location@.position,
                        old(self).lexeme_start_location@.line,
                        old(self).lexeme_start_location@.column,
                    ) == prepend_tokens(
                        tokens_model(final(self).tokens@).skip(old(self).tokens@.len() as int),
                        spec_tokens_from(
                            old(self).spec_source(),
                            old(self).spec_file(),
                            final(self).spec_position(),
                            final(self).spec_line(),
                            final(self).spec_column(),
                        ),
                    )
                },
                Err(e) => spec_tokens_from(
                    old(self).spec_source(),
                    old(self).spec_file(),
                    old(self).lexeme_start_location@.position,
                    old(self).lexeme_start_location@.line,
                    old(self).lexeme_start_location@.column,
                ) == Err::<Seq<TokenModel>, LexErrorModel>(e@),
            },
    {
        let ghost init_dot = decimal_used;
        let mut decimal_used = decimal_used;
        while !self.is_finished() && (self.current_char().is_numeric()
            || self.current_char() == '.')
            invariant
                self.wf(),
                self.source == old(self).source,
                self.tokens == old(self).tokens,
                self.lexeme_start_location == old(self).lexeme_start_location,
                old(self).spec_position() <= self.spec_position(),
                self.spec_line() == old(self).spec_line(),
                self.spec_column() - self.spec_position() == old(self).spec_column() - old(
                    self,
                ).spec_position(),
                match number_scan(self.source@, self.spec_position(), decimal_used) {
                    Ok(scan) => number_scan(
                        self.source@,
                        old(self).spec_position(),
                        init_dot,
                    ) == Ok::<(nat, bool), ()>(
                        (((self.spec_position() - old(self).spec_position()) + scan.0) as nat,
                        scan.1),
                    ),
                    Err(()) => number_scan(
                        self.source@,
                        old(self).spec_position(),
                        init_dot,
                    ) == Err::<(nat, bool), ()>(()),
                },
            decreases self.source@.len() - self.position,
        {
            let ch = self.current_char();
            let is_dot = ch == '.';
            if decimal_used && is_dot {
                proof {
                    assert(number_scan(self.source@, self.spec_position(), decimal_used)
                        == Err::<(nat, bool), ()>(()));
                    lemma_step_fail(
                        self.source@,
                        self.spec_file(),
                        old(self).lexeme_start_location@.position,
                        old(self).lexeme_start_location@.line,
                        old(self).lexeme_start_location@.column,
                        LexErrorModel::MalformedNumberLiteral {
                            location: old(self).lexeme_start_location@,
                        },
                    );
                }
                return Err(
                    LexError::MalformedNumberLiteral { location: self.start_location() },
                );
            }
            let ghost pre = *self;
            let ghost pre_dot = decimal_used;
            decimal_used = decimal_used || is_dot;
            self.advance();
            proof {
                let p = pre.spec_position();
                match number_scan(pre.spec_source(), p + 1, decimal_used) {
                    Ok(scan) => {
                        assert(number_scan(pre.spec_source(), p, pre_dot) == Ok::<
                            (nat, bool),
                            (),
                        >(((scan.0 + 1) as nat, scan.1)));
                    },
                    Err(()) => {
                        assert(number_scan(pre.spec_source(), p, pre_dot) == Err::<
                            (nat, bool),
                            (),
                        >(()));
                    },
                }
            }
        }
        proof {
            assert(number_scan(self.source@, self.spec_position(), decimal_used) == Ok::<
                (nat, bool),
                (),
            >((0, decimal_used)));
        }
        let kind = if decimal_used {
            SyntaxKind::FloatLiteral
        } else {
            SyntaxKind::IntLiteral
        };
        let text = self.current_lexeme();
        self.emit_lexeme(kind, TokenValue::Number(text));
        Ok(())
    }

    /// Dispatches on the current character and scans exactly one
    /// lexeme: whitespace is skipped, every other accepted lexeme
    /// appends exactly one token, and an unacceptable character is a
    /// fatal error.
    fn lex(&mut self) -> (r: Result<(), LexError>)
        requires
            old(self).wf(),
            old(self).spec_position() < old(self).spec_source().len(),
        ensures
            final(self).wf(),
            final(self).source == old(self).source,
            final(self).spec_file() == old(self).spec_file(),
            match r {
                Ok(()) => {
                    &&& old(self).spec_position() < final(self).spec_position()
                    &&& old(self).tokens@.len() <= final(self).tokens@.len()
                    &&& final(self).tokens@.subrange(0, old(self).tokens@.len() as int) == old(
                        self,
                    ).tokens@
                    &&& spec_tokens_from(
                        old(self).spec_source(),
                        old(self).spec_file(),
                        old(self).spec_position(),
                        old(self).spec_line(),
                        old(self).spec_column(),
                    ) == prepend_tokens(
                        tokens_model(final(self).tokens@).skip(old(self).tokens@.len() as int),
                        spec_tokens_from(
                            old(self).spec_source(),
                            old(self).spec_file(),
                            final(self).spec_position(),
                            final(self).spec_line(),
                            final(self).spec_column(),
                        ),
                    )
                },
                Err(e) => spec_tokens_from(
                    old(self).spec_source(),
                    old(self).spec_file(),
                    old(self).spec_position(),
                    old(self).spec_line(),
                    old(self).spec_column(),
                ) == Err::<Seq<TokenModel>, LexErrorModel>(e@),
            },
    {
        let c = self.current_char();
        if c.is_whitespace() {
            self.skip_whitespace();
            proof {
                assert(tokens_model(self.tokens@).skip(old(self).tokens@.len() as int)
                    =~= Seq::<TokenModel>::empty());
                assert(self.tokens@.subrange(0, old(self).tokens@.len() as int) =~= old(
                    self,
                ).tokens@);
                let rest = spec_tokens_from(
                    old(self).spec_source(),
                    old(self).spec_file(),
                    self.spec_position(),
                    self.spec_line(),
                    self.spec_column(),
                );
                match rest {
                    Ok(ts) => {
                        assert(Seq::<TokenModel>::empty() + ts =~= ts);
                    },
                    Err(_) => {},
                }
            }
            return Ok(());
        }
        self.lexeme_start_location = self.current_location();
        self.advance();
        match c {
            '+' => {
                self.emit_lexeme(SyntaxKind::Plus, TokenValue::Absent);
                Ok(())
            },
            '-' => {
                self.emit_lexeme(SyntaxKind::Minus, TokenValue::Absent);
                Ok(())
            },
            '*' => {
                self.emit_lexeme(SyntaxKind::Star, TokenValue::Absent);
                Ok(())
            },
            '%' => {
                self.emit_lexeme(SyntaxKind::Percent, TokenValue::Absent);
                Ok(())
            },
            '^' => {
                self.emit_lexeme(SyntaxKind::Carat, TokenValue::Absent);
                Ok(())
            },
            '~' => {
                self.emit_lexeme(SyntaxKind::Tilde, TokenValue::Absent);
                Ok(())
            },
            ':' => {
                self.emit_lexeme(SyntaxKind::Colon, TokenValue::Absent);
                Ok(())
            },
            '/' => {
                let kind = if self.match_char('/') {
                    SyntaxKind::SlashSlash
                } else {
                    SyntaxKind::Slash
                };
                self.emit_lexeme(kind, TokenValue::Absent);
                Ok(())
            },
            '&' => {
                let kind = if self.match_char('&') {
                    SyntaxKind::AmpersandAmpersand
                } else {
                    SyntaxKind::Ampersand
                };
                self.emit_lexeme(kind, TokenValue::Absent);
                Ok(())
            },
            '|' => {
                let kind = if self.match_char('|') {
                    SyntaxKind::PipePipe
                } else {
                    SyntaxKind::Pipe
                };
                self.emit_lexeme(kind, TokenValue::Absent);
                Ok(())
            },
            '!' => {
                let kind = if self.match_char('=') {
                    SyntaxKind::BangEquals
                } else {
                    SyntaxKind::Bang
                };
                self.emit_lexeme(kind, TokenValue::Absent);
                Ok(())
            },
            '=' => {
                let kind = if self.match_char('=') {
                    SyntaxKind::EqualsEquals
                } else {
                    SyntaxKind::Equals
                };
                self.emit_lexeme(kind, TokenValue::Absent);
                Ok(())
            },
            '<' => {
                let kind = if self.match_char('=') {
                    SyntaxKind::LTE
                } else {
                    SyntaxKind::LT
                };
                self.emit_lexeme(kind, TokenValue::Absent);
                Ok(())
            },
            '>' => {
                let kind = if self.match_char('=') {
                    SyntaxKind::GTE
                } else {
                    SyntaxKind::GT
                };
                self.emit_lexeme(kind, TokenValue::Absent);
                Ok(())
            },
            '"' | '\'' => self.read_string(),
            _ => {
                if c.is_alphabetic() || c == '_' {
                    self.read_identifier_or_keyword();
                    Ok(())
                } else if c.is_numeric() || c == '.' {
                    self.read_number(c == '.')
                } else {
                    proof {
                        lemma_step_fail(
                            old(self).spec_source(),
                            old(self).spec_file(),
                            old(self).spec_position(),
                            old(self).spec_line(),
                            old(self).spec_column(),
                            LexErrorModel::UnexpectedCharacter {
                                character: c,
                                location: self.lexeme_start_location@,
                            },
                        );
                    }
                    Err(
                        LexError::UnexpectedCharacter {
                            character: c,
                            location: self.start_location(),
                        },
                    )
                }
            },
        }
    }

    /// Tokenizes the entire source in one forward pass. Returns the
    /// token sequence the model assigns to the source, or the lexical
    /// error it assigns where the text is malformed.
    #[verifier::loop_isolation(false)]
    pub fn tokenize(&mut self) -> (r: Result<Vec<Token>, LexError>)
        requires
            old(self).wf(),
            old(self).at_start(),
        ensures
            final(self).wf(),
            match r {
                Ok(tokens) => spec_tokenize(old(self).spec_source(), old(self).spec_file())
                    == Ok::<Seq<TokenModel>, LexErrorModel>(tokens_model(tokens@)),
                Err(e) => spec_tokenize(old(self).spec_source(), old(self).spec_file())
                    == Err::<Seq<TokenModel>, LexErrorModel>(e@),
            },
    {
        while !self.is_finished()
            invariant
                self.wf(),
                self.source == old(self).source,
                self.spec_file() == old(self).spec_file(),
                prepend_tokens(
                    tokens_model(self.tokens@),
                    spec_tokens_from(
                        old(self).spec_source(),
                        old(self).spec_file(),
                        self.spec_position(),
                        self.spec_line(),
                        self.spec_column(),
                    ),
                ) == spec_tokenize(old(self).spec_source(), old(self).spec_file()),
            decreases self.source@.len() - self.position,
        {
            let ghost pre = *self;
            let step = self.lex();
            match step {
                Ok(()) => {
                    proof {
                        let n = pre.tokens@.len() as int;
                        let tm_pre = tokens_model(pre.tokens@);
                        let tm_now = tokens_model(self.tokens@);
                        let delta = tm_now.skip(n);
                        assert forall|i: int| 0 <= i < n implies self.tokens@[i]
                            == pre.tokens@[i] by {
                            assert(self.tokens@.subrange(0, n)[i] == self.tokens@[i]);
                        }
                        assert(tm_now =~= tm_pre + delta);
                        let rest = spec_tokens_from(
                            old(self).spec_source(),
                            old(self).spec_file(),
                            self.spec_position(),
                            self.spec_line(),
                            self.spec_column(),
                        );
                        match rest {
                            Ok(ts) => {
                                assert((tm_pre + delta) + ts =~= tm_pre + (delta + ts));
                            },
                            Err(_) => {},
                        }
                    }
                },
                Err(e) => {
                    return Err(e);
                },
            }
        }
        proof {
            assert(spec_tokens_from(
                old(self).spec_source(),
                old(self).spec_file(),
                self.spec_position(),
                self.spec_line(),
                self.spec_column(),
            ) == Ok::<Seq<TokenModel>, LexErrorModel>(Seq::empty()));
            assert(tokens_model(self.tokens@) + Seq::<TokenModel>::empty() =~= tokens_model(
                self.tokens@,
            ));
        }
        let mut out: Vec<Token> = Vec::new();
        core::mem::swap(&mut out, &mut self.tokens);
        Ok(out)
    }
}

} // verus!
