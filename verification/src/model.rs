//! The mathematical model of the scan: a recursive description of the
//! token sequence (or lexical error) that a source text determines.
//! `Lexer::tokenize` is proved to return exactly what this model
//! assigns to its input.

use vstd::prelude::*;

use crate::chars::{alpha_char, numeric_char, ws_char};
use crate::syntax::{
    LexErrorModel, LocModel, SpanModel, SyntaxKind, TokenModel, ValueModel,
};
use crate::syntax_facts::spec_keyword_kind;

verus! {

/// Whether `c` may continue an identifier: alphanumeric or underscore.
pub open spec fn word_char(c: char) -> bool {
    alpha_char(c) || numeric_char(c) || c == '_'
}

/// Whether `c` may appear in a numeric lexeme: numeric or a decimal
/// point.
pub open spec fn number_char(c: char) -> bool {
    numeric_char(c) || c == '.'
}

/// The length of the identifier run starting at `i`: the number of
/// consecutive word characters.
pub open spec fn word_run(src: Seq<char>, i: int) -> nat
    decreases src.len() - i,
{
    if 0 <= i < src.len() && word_char(src[i]) {
        1 + word_run(src, i + 1)
    } else {
        0
    }
}

/// The numeric run starting at `i`, given whether a decimal point was
/// already consumed: its length and whether a decimal point occurs in
/// it, or a fault where a decimal point follows one already consumed.
pub open spec fn number_scan(src: Seq<char>, i: int, dot_seen: bool) -> Result<(nat, bool), ()>
    decreases src.len() - i,
{
    if 0 <= i < src.len() && number_char(src[i]) {
        if dot_seen && src[i] == '.' {
            Err(())
        } else {
            match number_scan(src, i + 1, dot_seen || src[i] == '.') {
                Ok(rest) => Ok(((rest.0 + 1) as nat, rest.1)),
                Err(()) => Err(()),
            }
        }
    } else {
        Ok((0, dot_seen))
    }
}

/// The number of characters from `i` up to and including the next `"`,
/// or `None` if the input ends before one occurs.
pub open spec fn string_scan(src: Seq<char>, i: int) -> Option<nat>
    decreases src.len() - i,
{
    if 0 <= i < src.len() {
        if src[i] == '"' {
            Some(1nat)
        } else {
            match string_scan(src, i + 1) {
                Some(n) => Some((n + 1) as nat),
                None => None,
            }
        }
    } else {
        None
    }
}

/// A string literal's payload: its lexeme with one leading and one
/// trailing `"` removed, where present.
pub open spec fn strip_quotes(text: Seq<char>) -> Seq<char> {
    let lo: int = if text.len() > 0 && text[0] == '"' {
        1
    } else {
        0
    };
    let hi: int = if text.len() > lo && text[text.len() - 1] == '"' {
        text.len() - 1
    } else {
        text.len() as int
    };
    text.subrange(lo, hi)
}

/// How a word lexeme is classified: `true`/`false` are boolean
/// literals, a reserved word gets its keyword kind, and anything else
/// is an identifier. The kind is paired with the token's payload.
pub open spec fn classify_word(text: Seq<char>) -> (SyntaxKind, ValueModel) {
    if text == "true"@ {
        (SyntaxKind::BoolLiteral, ValueModel::Boolean(true))
    } else if text == "false"@ {
        (SyntaxKind::BoolLiteral, ValueModel::Boolean(false))
    } else {
        match spec_keyword_kind(text) {
            Some(kind) => (kind, ValueModel::Absent),
            None => (SyntaxKind::Identifier, ValueModel::Absent),
        }
    }
}

/// The kind of an operator or punctuation character that never
/// extends, if `c` is one.
pub open spec fn single_char_kind(c: char) -> Option<SyntaxKind> {
    if c == '+' {
        Some(SyntaxKind::Plus)
    } else if c == '-' {
        Some(SyntaxKind::Minus)
    } else if c == '*' {
        Some(SyntaxKind::Star)
    } else if c == '%' {
        Some(SyntaxKind::Percent)
    } else if c == '^' {
        Some(SyntaxKind::Carat)
    } else if c == '~' {
        Some(SyntaxKind::Tilde)
    } else if c == ':' {
        Some(SyntaxKind::Colon)
    } else {
        None
    }
}

/// For a base operator character that may extend by one following
/// character: the required follow character, the kind without the
/// extension, and the kind with it.
pub open spec fn two_char_extension(c: char) -> Option<(char, SyntaxKind, SyntaxKind)> {
    if c == '/' {
        Some(('/', SyntaxKind::Slash, SyntaxKind::SlashSlash))
    } else if c == '&' {
        Some(('&', SyntaxKind::Ampersand, SyntaxKind::AmpersandAmpersand))
    } else if c == '|' {
        Some(('|', SyntaxKind::Pipe, SyntaxKind::PipePipe))
    } else if c == '!' {
        Some(('=', SyntaxKind::Bang, SyntaxKind::BangEquals))
    } else if c == '=' {
        Some(('=', SyntaxKind::Equals, SyntaxKind::EqualsEquals))
    } else if c == '<' {
        Some(('=', SyntaxKind::LT, SyntaxKind::LTE))
    } else if c == '>' {
        Some(('=', SyntaxKind::GT, SyntaxKind::GTE))
    } else {
        None
    }
}

/// The location of position `pos` at line `line`, column `col`.
pub open spec fn loc_at(file: Seq<char>, pos: int, line: int, col: int) -> LocModel {
    LocModel { file, line, column: col, position: pos }
}

/// The token whose lexeme is `src[pos .. pos + len]`, starting at line
/// `line`, column `col`. No lexeme contains a newline the scanner
/// accounts to it, so the end location stays on the same line and the
/// column advances with the position.
pub open spec fn lexeme_token(
    src: Seq<char>,
    file: Seq<char>,
    pos: int,
    line: int,
    col: int,
    len: int,
    kind: SyntaxKind,
    value: ValueModel,
) -> TokenModel {
    TokenModel {
        kind,
        span: SpanModel {
            start: loc_at(file, pos, line, col),
            end: loc_at(file, pos + len, line, col + len),
        },
        text: src.subrange(pos, pos + len),
        value,
    }
}

/// The outcome of one dispatch of the scanner.
pub ghost enum Step {
    /// One token was produced, covering `1 + extra` characters.
    Emit { token: TokenModel, extra: nat },
    /// One whitespace character was passed over; no token.
    SkipWs,
    /// A fatal lexical error.
    Fail { error: LexErrorModel },
}

/// One dispatch of the scanner on the character at `src[pos]`:
/// whitespace is skipped; operators emit their token, taking the
/// two-character form exactly where the follow character matches; a
/// quote begins a string literal; a letter or underscore begins a word
/// (identifier, keyword, or boolean literal); a numeric character or
/// `.` begins a number; anything else is a fatal error.
pub open spec fn spec_step(src: Seq<char>, file: Seq<char>, pos: int, line: int, col: int) -> Step
    recommends
        0 <= pos < src.len(),
{
    let c = src[pos];
    if ws_char(c) {
        Step::SkipWs
    } else {
        match single_char_kind(c) {
            Some(kind) => Step::Emit {
                token: lexeme_token(src, file, pos, line, col, 1, kind, ValueModel::Absent),
                extra: 0,
            },
            None => match two_char_extension(c) {
                Some(ext) => {
                    if pos + 1 < src.len() && src[pos + 1] == ext.0 {
                        Step::Emit {
                            token: lexeme_token(
                                src, file, pos, line, col, 2, ext.2, ValueModel::Absent,
                            ),
                            extra: 1,
                        }
                    } else {
                        Step::Emit {
                            token: lexeme_token(
                                src, file, pos, line, col, 1, ext.1, ValueModel::Absent,
                            ),
                            extra: 0,
                        }
                    }
                },
                None => {
                    if c == '"' || c == '\'' {
                        match string_scan(src, pos + 1) {
                            Some(n) => {
                                let text = src.subrange(pos, pos + 1 + n);
                                Step::Emit {
                                    token: lexeme_token(
                                        src,
                                        file,
                                        pos,
                                        line,
                                        col,
                                        1 + n as int,
                                        SyntaxKind::StringLiteral,
                                        ValueModel::Text(strip_quotes(text)),
                                    ),
                                    extra: n,
                                }
                            },
                            None => Step::Fail {
                                error: LexErrorModel::UnterminatedStringLiteral {
                                    location: loc_at(file, pos, line, col),
                                },
                            },
                        }
                    } else if alpha_char(c) || c == '_' {
                        let n = word_run(src, pos + 1);
                        let text = src.subrange(pos, pos + 1 + n);
                        let class = classify_word(text);
                        Step::Emit {
                            token: lexeme_token(
                                src, file, pos, line, col, 1 + n as int, class.0, class.1,
                            ),
                            extra: n,
                        }
                    } else if number_char(c) {
                        match number_scan(src, pos + 1, c == '.') {
                            Ok(scan) => {
                                let text = src.subrange(pos, pos + 1 + scan.0);
                                let kind = if scan.1 {
                                    SyntaxKind::FloatLiteral
                                } else {
                                    SyntaxKind::IntLiteral
                                };
                                Step::Emit {
                                    token: lexeme_token(
                                        src,
                                        file,
                                        pos,
                                        line,
                                        col,
                                        1 + scan.0 as int,
                                        kind,
                                        ValueModel::Number(text),
                                    ),
                                    extra: scan.0,
                                }
                            },
                            Err(()) => Step::Fail {
                                error: LexErrorModel::MalformedNumberLiteral {
                                    location: loc_at(file, pos, line, col),
                                },
                            },
                        }
                    } else {
                        Step::Fail {
                            error: LexErrorModel::UnexpectedCharacter {
                                character: c,
                                location: loc_at(file, pos, line, col),
                            },
                        }
                    }
                },
            },
        }
    }
}

/// The token sequence the scanner assigns to `src` from position `pos`
/// at line `line`, column `col`, or the error where it faults.
pub open spec fn spec_tokens_from(
    src: Seq<char>,
    file: Seq<char>,
    pos: int,
    line: int,
    col: int,
) -> Result<Seq<TokenModel>, LexErrorModel>
    decreases src.len() - pos,
{
    if pos < 0 || pos >= src.len() {
        Ok(Seq::empty())
    } else {
        match spec_step(src, file, pos, line, col) {
            Step::Fail { error } => Err(error),
            Step::SkipWs => {
                if src[pos] == '\n' {
                    spec_tokens_from(src, file, pos + 1, line + 1, 0)
                } else {
                    spec_tokens_from(src, file, pos + 1, line, col + 1)
                }
            },
            Step::Emit { token, extra } => {
                let next = pos + 1 + extra;
                if next >= src.len() {
                    Ok(seq![token])
                } else {
                    match spec_tokens_from(src, file, next, line, col + 1 + extra) {
                        Ok(rest) => Ok(seq![token] + rest),
                        Err(e) => Err(e),
                    }
                }
            },
        }
    }
}

/// The whole-input scan: what tokenizing `src` from the start of the
/// file returns.
pub open spec fn spec_tokenize(src: Seq<char>, file: Seq<char>) -> Result<
    Seq<TokenModel>,
    LexErrorModel,
> {
    spec_tokens_from(src, file, 0, 1, 0)
}

/// Already-emitted tokens prefixed onto the outcome of the remaining
/// scan.
pub open spec fn prepend_tokens(
    tokens: Seq<TokenModel>,
    rest: Result<Seq<TokenModel>, LexErrorModel>,
) -> Result<Seq<TokenModel>, LexErrorModel> {
    match rest {
        Ok(ts) => Ok(tokens + ts),
        Err(e) => Err(e),
    }
}

/// A word run counts exactly the characters of a maximal run of word
/// characters.
pub proof fn lemma_word_run_end(src: Seq<char>, start: int, end: int)
    requires
        0 <= start <= end <= src.len(),
        forall|j: int| start <= j < end ==> word_char(src[j]),
        end == src.len() || !word_char(src[end]),
    ensures
        word_run(src, start) == end - start,
    decreases end - start,
{
    if start < end {
        lemma_word_run_end(src, start + 1, end);
    }
}

/// A string scan finds exactly the first `"` at or after its start.
pub proof fn lemma_string_scan_end(src: Seq<char>, start: int, end: int)
    requires
        0 <= start <= end <= src.len(),
        forall|j: int| start <= j < end ==> src[j] != '"',
    ensures
        end == src.len() ==> string_scan(src, start) is None,
        end < src.len() && src[end] == '"' ==> string_scan(src, start) == Some(
            (end + 1 - start) as nat,
        ),
    decreases end - start,
{
    if start < end {
        lemma_string_scan_end(src, start + 1, end);
    }
}

/// Where one dispatch emits a token, the scan from that position is
/// the token followed by the scan from the end of its lexeme.
pub proof fn lemma_step_emit(
    src: Seq<char>,
    file: Seq<char>,
    pos: int,
    line: int,
    col: int,
    token: TokenModel,
    extra: nat,
)
    requires
        0 <= pos < src.len(),
        spec_step(src, file, pos, line, col) == (Step::Emit { token, extra }),
    ensures
        spec_tokens_from(src, file, pos, line, col) == prepend_tokens(
            seq![token],
            spec_tokens_from(src, file, pos + 1 + extra, line, col + 1 + extra),
        ),
{
    let next = pos + 1 + extra;
    if next >= src.len() {
        assert(spec_tokens_from(src, file, next, line, col + 1 + extra) == Ok::<
            Seq<TokenModel>,
            LexErrorModel,
        >(Seq::empty()));
        assert(seq![token] + Seq::<TokenModel>::empty() =~= seq![token]);
    }
}

/// Where one dispatch skips a whitespace character, the scan is the
/// scan from the next character, on the next line where the character
/// was a newline.
pub proof fn lemma_step_skip(src: Seq<char>, file: Seq<char>, pos: int, line: int, col: int)
    requires
        0 <= pos < src.len(),
        spec_step(src, file, pos, line, col) is SkipWs,
    ensures
        src[pos] == '\n' ==> spec_tokens_from(src, file, pos, line, col) == spec_tokens_from(
            src,
            file,
            pos + 1,
            line + 1,
            0,
        ),
        src[pos] != '\n' ==> spec_tokens_from(src, file, pos, line, col) == spec_tokens_from(
            src,
            file,
            pos + 1,
            line,
            col + 1,
        ),
{
}

/// Where one dispatch faults, the scan from that position is that
/// error.
pub proof fn lemma_step_fail(
    src: Seq<char>,
    file: Seq<char>,
    pos: int,
    line: int,
    col: int,
    error: LexErrorModel,
)
    requires
        0 <= pos < src.len(),
        spec_step(src, file, pos, line, col) == (Step::Fail { error }),
    ensures
        spec_tokens_from(src, file, pos, line, col) == Err::<Seq<TokenModel>, LexErrorModel>(
            error,
        ),
{
}

} // verus!
