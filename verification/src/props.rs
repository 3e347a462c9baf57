//! Laws of the scan, stated over the mathematical model and proved
//! once and for all: span lengths, maximal munch for the extensible
//! operators, whitespace transparency, keyword precedence, numeric
//! classification by decimal points, string dequoting, and determinism
//! of tokenizing.

use vstd::prelude::*;

use crate::chars::{alpha_char, ws_char};
use crate::model::{
    classify_word, lemma_step_emit, lexeme_token, loc_at, number_char, number_scan,
    prepend_tokens, single_char_kind, spec_step, spec_tokenize, spec_tokens_from, string_scan,
    strip_quotes, two_char_extension, Step,
};
use crate::syntax::{LexErrorModel, SyntaxKind, TokenModel, ValueModel};
use crate::syntax_facts::spec_keyword_kind;

verus! {

/// The exact text of an operator or punctuation token of the given
/// kind, or `None` for non-operator kinds.
pub open spec fn operator_text(kind: SyntaxKind) -> Option<Seq<char>> {
    match kind {
        SyntaxKind::Plus => Some(seq!['+']),
        SyntaxKind::Minus => Some(seq!['-']),
        SyntaxKind::Star => Some(seq!['*']),
        SyntaxKind::Slash => Some(seq!['/']),
        SyntaxKind::SlashSlash => Some(seq!['/', '/']),
        SyntaxKind::Percent => Some(seq!['%']),
        SyntaxKind::Carat => Some(seq!['^']),
        SyntaxKind::Tilde => Some(seq!['~']),
        SyntaxKind::Ampersand => Some(seq!['&']),
        SyntaxKind::Pipe => Some(seq!['|']),
        SyntaxKind::AmpersandAmpersand => Some(seq!['&', '&']),
        SyntaxKind::PipePipe => Some(seq!['|', '|']),
        SyntaxKind::Bang => Some(seq!['!']),
        SyntaxKind::LT => Some(seq!['<']),
        SyntaxKind::LTE => Some(seq!['<', '=']),
        SyntaxKind::GT => Some(seq!['>']),
        SyntaxKind::GTE => Some(seq!['>', '=']),
        SyntaxKind::Equals => Some(seq!['=']),
        SyntaxKind::EqualsEquals => Some(seq!['=', '=']),
        SyntaxKind::BangEquals => Some(seq!['!', '=']),
        SyntaxKind::Colon => Some(seq![':']),
        _ => None,
    }
}

/// The number of decimal points in a piece of text.
pub open spec fn count_dots(text: Seq<char>) -> nat
    decreases text.len(),
{
    if text.len() == 0 {
        0
    } else {
        (if text[0] == '.' {
            1nat
        } else {
            0nat
        }) + count_dots(text.drop_first())
    }
}

/// The length of the numeric run starting at `i`: the number of
/// consecutive numeric-or-decimal-point characters.
pub open spec fn number_run(src: Seq<char>, i: int) -> nat
    decreases src.len() - i,
{
    if 0 <= i < src.len() && number_char(src[i]) {
        1 + number_run(src, i + 1)
    } else {
        0
    }
}

/// Well-formedness of one produced token:
/// - its span measures exactly its text, on a single line;
/// - an operator or punctuation token carries exactly its operator's
///   text (so a one-character operator has span length 1 and a
///   two-character operator span length 2), and no payload;
/// - a boolean literal is exactly `true` or `false` with the matching
///   payload, a keyword token carries exactly its reserved word, and
///   an identifier is never a reserved word nor `true`/`false`;
/// - a string literal's payload is its text with one leading and one
///   trailing quote removed, and its text ends with `"`;
/// - a numeric literal's payload is exactly its lexeme;
/// - the scanner never produces a null-literal token.
pub open spec fn token_wf(token: TokenModel) -> bool {
    &&& token.span.start.file == token.span.end.file
    &&& token.span.end.line == token.span.start.line
    &&& token.span.end.position == token.span.start.position + token.text.len()
    &&& token.span.end.column == token.span.start.column + token.text.len()
    &&& match operator_text(token.kind) {
        Some(text) => token.text == text && token.value is Absent,
        None => true,
    }
    &&& (token.kind == SyntaxKind::BoolLiteral ==> (token.text == "true"@ && token.value
        == ValueModel::Boolean(true)) || (token.text == "false"@ && token.value
        == ValueModel::Boolean(false)))
    &&& (token.kind == SyntaxKind::LetKeyword ==> token.text == "let"@ && token.value is Absent)
    &&& (token.kind == SyntaxKind::FnKeyword ==> token.text == "fn"@ && token.value is Absent)
    &&& (token.kind == SyntaxKind::Identifier ==> spec_keyword_kind(token.text) is None
        && token.text != "true"@ && token.text != "false"@ && token.value is Absent)
    &&& (token.kind == SyntaxKind::StringLiteral ==> token.value == ValueModel::Text(
        strip_quotes(token.text),
    ) && token.text.len() >= 2 && token.text.last() == '"')
    &&& (token.kind == SyntaxKind::IntLiteral ==> token.value == ValueModel::Number(token.text))
    &&& (token.kind == SyntaxKind::FloatLiteral ==> token.value == ValueModel::Number(
        token.text,
    ))
    &&& token.kind != SyntaxKind::NullLiteral
}

/// A word run never passes the end of the source.
proof fn lemma_word_run_bound(src: Seq<char>, i: int)
    requires
        0 <= i <= src.len(),
    ensures
        i + crate::model::word_run(src, i) <= src.len(),
    decreases src.len() - i,
{
    if i < src.len() && crate::model::word_char(src[i]) {
        lemma_word_run_bound(src, i + 1);
    }
}

/// A numeric run never passes the end of the source.
proof fn lemma_number_run_bound(src: Seq<char>, i: int)
    requires
        0 <= i <= src.len(),
    ensures
        i + number_run(src, i) <= src.len(),
    decreases src.len() - i,
{
    if i < src.len() && number_char(src[i]) {
        lemma_number_run_bound(src, i + 1);
    }
}

/// A successful numeric scan never passes the end of the source.
proof fn lemma_number_scan_bound(src: Seq<char>, i: int, dot_seen: bool)
    requires
        0 <= i <= src.len(),
    ensures
        match number_scan(src, i, dot_seen) {
            Ok(scan) => i + scan.0 <= src.len(),
            Err(()) => true,
        },
    decreases src.len() - i,
{
    if i < src.len() && number_char(src[i]) && !(dot_seen && src[i] == '.') {
        lemma_number_scan_bound(src, i + 1, dot_seen || src[i] == '.');
    }
}

/// A successful string scan ends exactly on a `"` within the source.
proof fn lemma_string_scan_found(src: Seq<char>, i: int)
    requires
        0 <= i <= src.len(),
    ensures
        match string_scan(src, i) {
            Some(n) => n >= 1 && i + n <= src.len() && src[i + n - 1] == '"',
            None => true,
        },
    decreases src.len() - i,
{
    if i < src.len() && src[i] != '"' {
        lemma_string_scan_found(src, i + 1);
    }
}

/// How a numeric scan relates to the numeric run and its decimal
/// points: a successful scan covers exactly the run, its flag records
/// whether a decimal point was consumed, and a failing scan means the
/// run (with any decimal point already consumed) holds two or more.
proof fn lemma_number_scan_dots(src: Seq<char>, i: int, dot_seen: bool)
    requires
        0 <= i <= src.len(),
    ensures
        ({
            let n = number_run(src, i);
            let text = src.subrange(i, i + n);
            match number_scan(src, i, dot_seen) {
                Ok(scan) => {
                    &&& scan.0 == n
                    &&& (dot_seen ==> count_dots(text) == 0 && scan.1)
                    &&& (!dot_seen ==> count_dots(text) == (if scan.1 {
                        1nat
                    } else {
                        0nat
                    }))
                },
                Err(()) => count_dots(text) + (if dot_seen {
                    1nat
                } else {
                    0nat
                }) >= 2,
            }
        }),
    decreases src.len() - i,
{
    let n = number_run(src, i);
    let text = src.subrange(i, i + n);
    lemma_number_run_bound(src, i);
    if i < src.len() && number_char(src[i]) {
        let is_dot = src[i] == '.';
        let n2 = number_run(src, i + 1);
        let text2 = src.subrange(i + 1, i + 1 + n2);
        assert(text.len() == n >= 1);
        assert(text[0] == src[i]);
        assert(text.drop_first() =~= text2);
        if dot_seen && is_dot {
            assert(count_dots(text) >= 1);
        } else {
            lemma_number_scan_dots(src, i + 1, dot_seen || is_dot);
        }
    } else {
        assert(text =~= Seq::<char>::empty());
    }
}

/// Every token a scan produces is well-formed (`token_wf`): operator
/// tokens carry exactly their operator's text and so a one-character
/// operator's span has length 1; keywords and booleans carry exactly
/// their reserved word and an identifier never does; a string
/// literal's payload is its dequoted text; every span measures its
/// text.
pub proof fn lemma_tokens_wf(src: Seq<char>, file: Seq<char>, pos: int, line: int, col: int)
    ensures
        match spec_tokens_from(src, file, pos, line, col) {
            Ok(tokens) => forall|i: int| 0 <= i < tokens.len() ==> token_wf(#[trigger] tokens[i]),
            Err(_) => true,
        },
    decreases src.len() - pos,
{
    if 0 <= pos < src.len() {
        let c = src[pos];
        match spec_step(src, file, pos, line, col) {
            Step::Fail { .. } => {},
            Step::SkipWs => {
                if c == '\n' {
                    lemma_tokens_wf(src, file, pos + 1, line + 1, 0);
                } else {
                    lemma_tokens_wf(src, file, pos + 1, line, col + 1);
                }
            },
            Step::Emit { token, extra } => {
                lemma_step_token_wf(src, file, pos, line, col);
                let next = pos + 1 + extra;
                if next < src.len() {
                    lemma_tokens_wf(src, file, next, line, col + 1 + extra);
                }
            },
        }
    }
}

/// The token one dispatch emits is well-formed.
proof fn lemma_step_token_wf(src: Seq<char>, file: Seq<char>, pos: int, line: int, col: int)
    requires
        0 <= pos < src.len(),
        spec_step(src, file, pos, line, col) is Emit,
    ensures
        token_wf(spec_step(src, file, pos, line, col)->Emit_token),
{
    let c = src[pos];
    let token = spec_step(src, file, pos, line, col)->Emit_token;
    if ws_char(c) {
    } else if single_char_kind(c) is Some {
        assert(src.subrange(pos, pos + 1) =~= seq![c]);
    } else if two_char_extension(c) is Some {
        let ext = two_char_extension(c)->Some_0;
        if pos + 1 < src.len() && src[pos + 1] == ext.0 {
            assert(src.subrange(pos, pos + 2) =~= seq![c, src[pos + 1]]);
        } else {
            assert(src.subrange(pos, pos + 1) =~= seq![c]);
        }
    } else if c == '"' || c == '\'' {
        lemma_string_scan_found(src, pos + 1);
        let n = string_scan(src, pos + 1)->Some_0;
        assert(token.text.len() == 1 + n);
        assert(token.text.last() == src[pos + n]);
    } else if alpha_char(c) || c == '_' {
        lemma_word_run_bound(src, pos + 1);
    } else if number_char(c) {
        lemma_number_scan_bound(src, pos + 1, c == '.');
    }
}

/// Maximal munch for the extensible operators: the two-character token
/// is emitted exactly where the following character matches the
/// operator's extension; otherwise the one-character token is emitted
/// alone and the following character is scanned as its own lexeme.
pub proof fn lemma_two_char_operator(src: Seq<char>, file: Seq<char>, pos: int, line: int, col: int)
    requires
        0 <= pos < src.len(),
        !ws_char(src[pos]),
        single_char_kind(src[pos]) is None,
        two_char_extension(src[pos]) is Some,
    ensures
        ({
            let ext = two_char_extension(src[pos])->Some_0;
            if pos + 1 < src.len() && src[pos + 1] == ext.0 {
                spec_tokens_from(src, file, pos, line, col) == prepend_tokens(
                    seq![
                        lexeme_token(src, file, pos, line, col, 2, ext.2, ValueModel::Absent),
                    ],
                    spec_tokens_from(src, file, pos + 2, line, col + 2),
                )
            } else {
                spec_tokens_from(src, file, pos, line, col) == prepend_tokens(
                    seq![
                        lexeme_token(src, file, pos, line, col, 1, ext.1, ValueModel::Absent),
                    ],
                    spec_tokens_from(src, file, pos + 1, line, col + 1),
                )
            }
        }),
{
    let ext = two_char_extension(src[pos])->Some_0;
    if pos + 1 < src.len() && src[pos + 1] == ext.0 {
        lemma_step_emit(
            src,
            file,
            pos,
            line,
            col,
            lexeme_token(src, file, pos, line, col, 2, ext.2, ValueModel::Absent),
            1nat,
        );
    } else {
        lemma_step_emit(
            src,
            file,
            pos,
            line,
            col,
            lexeme_token(src, file, pos, line, col, 1, ext.1, ValueModel::Absent),
            0nat,
        );
    }
}

/// Whitespace never produces a token: the scan from a whitespace
/// character equals the scan from the character after it; a newline
/// increments the line and resets the column to 0 for everything that
/// follows, while any other whitespace advances the column by one.
pub proof fn lemma_whitespace_produces_no_token(
    src: Seq<char>,
    file: Seq<char>,
    pos: int,
    line: int,
    col: int,
)
    requires
        0 <= pos < src.len(),
        ws_char(src[pos]),
    ensures
        src[pos] == '\n' ==> spec_tokens_from(src, file, pos, line, col) == spec_tokens_from(
            src,
            file,
            pos + 1,
            line + 1,
            0,
        ),
        src[pos] != '\n' ==> spec_tokens_from(src, file, pos, line, col) == spec_tokens_from(
            src,
            file,
            pos + 1,
            line,
            col + 1,
        ),
{
    crate::model::lemma_step_skip(src, file, pos, line, col);
}

/// Keyword and boolean precedence in word classification: a word
/// lexeme equal to a reserved word is classified with that keyword's
/// kind, never as an identifier, and `true`/`false` are always boolean
/// literals, never identifiers or keywords.
pub proof fn lemma_keyword_classification(text: Seq<char>)
    ensures
        spec_keyword_kind(text) is Some ==> classify_word(text) == (
            spec_keyword_kind(text)->Some_0,
            ValueModel::Absent,
        ) && classify_word(text).0 != SyntaxKind::Identifier,
        text == "true"@ ==> classify_word(text) == (
            SyntaxKind::BoolLiteral,
            ValueModel::Boolean(true),
        ) && spec_keyword_kind(text) is None,
        text == "false"@ ==> classify_word(text) == (
            SyntaxKind::BoolLiteral,
            ValueModel::Boolean(false),
        ) && spec_keyword_kind(text) is None,
{
    reveal_strlit("true");
    reveal_strlit("false");
    reveal_strlit("let");
    reveal_strlit("fn");
    assert("true"@.len() == 4);
    assert("false"@.len() == 5);
    assert("let"@.len() == 3);
    assert("fn"@.len() == 2);
}

/// Numeric classification by decimal points: a numeric lexeme with no
/// decimal point is an integer literal, one with exactly one is a
/// float literal, and one with two or more is a malformed-number
/// fault. The lexeme is the maximal run of numeric characters and
/// decimal points at the scan position.
pub proof fn lemma_number_classification(
    src: Seq<char>,
    file: Seq<char>,
    pos: int,
    line: int,
    col: int,
)
    requires
        0 <= pos < src.len(),
        !ws_char(src[pos]),
        single_char_kind(src[pos]) is None,
        two_char_extension(src[pos]) is None,
        src[pos] != '"' && src[pos] != '\'',
        !(alpha_char(src[pos]) || src[pos] == '_'),
        number_char(src[pos]),
    ensures
        ({
            let n: int = 1 + number_run(src, pos + 1) as int;
            let text = src.subrange(pos, pos + n);
            let dots = count_dots(text);
            &&& (dots == 0 ==> spec_step(src, file, pos, line, col) == (Step::Emit {
                token: lexeme_token(
                    src,
                    file,
                    pos,
                    line,
                    col,
                    n,
                    SyntaxKind::IntLiteral,
                    ValueModel::Number(text),
                ),
                extra: (n - 1) as nat,
            }))
            &&& (dots == 1 ==> spec_step(src, file, pos, line, col) == (Step::Emit {
                token: lexeme_token(
                    src,
                    file,
                    pos,
                    line,
                    col,
                    n,
                    SyntaxKind::FloatLiteral,
                    ValueModel::Number(text),
                ),
                extra: (n - 1) as nat,
            }))
            &&& (dots >= 2 ==> spec_step(src, file, pos, line, col) == (Step::Fail {
                error: LexErrorModel::MalformedNumberLiteral {
                    location: loc_at(file, pos, line, col),
                },
            }))
        }),
{
    let c = src[pos];
    let is_dot = c == '.';
    let n2 = number_run(src, pos + 1);
    let n: int = 1 + n2 as int;
    let text = src.subrange(pos, pos + n);
    let text2 = src.subrange(pos + 1, pos + 1 + n2);
    lemma_number_run_bound(src, pos + 1);
    lemma_number_scan_bound(src, pos + 1, is_dot);
    lemma_number_scan_dots(src, pos + 1, is_dot);
    assert(text.len() == n);
    assert(text[0] == c);
    assert(text.drop_first() =~= text2);
    assert(count_dots(text) == (if is_dot {
        1nat
    } else {
        0nat
    }) + count_dots(text2));
}

/// Tokenizing is deterministic: on one and the same source text and
/// file identifier, two runs of the scan yield one and the same
/// outcome, token for token.
pub proof fn lemma_tokenize_deterministic(
    src: Seq<char>,
    file: Seq<char>,
    r1: Result<Seq<TokenModel>, LexErrorModel>,
    r2: Result<Seq<TokenModel>, LexErrorModel>,
)
    requires
        r1 == spec_tokenize(src, file),
        r2 == spec_tokenize(src, file),
    ensures
        r1 == r2,
{
}

} // verus!
