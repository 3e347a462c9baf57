//! The keyword table: a fixed, injective mapping between reserved-word
//! text and token kinds, with its inverse.

use vstd::prelude::*;

use crate::syntax::SyntaxKind;

verus! {

/// The kind a reserved word maps to, or `None` for any other text.
pub open spec fn spec_keyword_kind(text: Seq<char>) -> Option<SyntaxKind> {
    if text == "let"@ {
        Some(SyntaxKind::LetKeyword)
    } else if text == "fn"@ {
        Some(SyntaxKind::FnKeyword)
    } else {
        None
    }
}

/// The reserved word a keyword kind maps back to, or `None` for any
/// other kind.
pub open spec fn spec_keyword_lexeme(kind: SyntaxKind) -> Option<Seq<char>> {
    match kind {
        SyntaxKind::LetKeyword => Some("let"@),
        SyntaxKind::FnKeyword => Some("fn"@),
        _ => None,
    }
}

/// Given a lexeme, returns the corresponding keyword kind, or `None`
/// if the lexeme is not a reserved word.
pub fn get_keyword_kind(keyword: &str) -> (kind: Option<SyntaxKind>)
    ensures
        kind == spec_keyword_kind(keyword@),
{
    let text = keyword.to_owned();
    if text == "let".to_owned() {
        Some(SyntaxKind::LetKeyword)
    } else if text == "fn".to_owned() {
        Some(SyntaxKind::FnKeyword)
    } else {
        None
    }
}

/// Given a kind, returns the corresponding keyword lexeme, or `None`
/// if the kind is not a keyword kind.
pub fn get_keyword_lexeme(kind: &SyntaxKind) -> (lexeme: Option<&str>)
    ensures
        match lexeme {
            Some(s) => spec_keyword_lexeme(*kind) == Some(s@),
            None => spec_keyword_lexeme(*kind) is None,
        },
{
    match kind {
        SyntaxKind::LetKeyword => Some("let"),
        SyntaxKind::FnKeyword => Some("fn"),
        _ => None,
    }
}

/// The keyword mapping is injective: no two reserved words share a
/// kind.
pub proof fn lemma_keyword_table_injective(t1: Seq<char>, t2: Seq<char>)
    requires
        spec_keyword_kind(t1) is Some,
        spec_keyword_kind(t1) == spec_keyword_kind(t2),
    ensures
        t1 == t2,
{
}

/// The inverse mapping inverts the keyword mapping: a reserved word's
/// kind maps back to exactly that word.
pub proof fn lemma_keyword_table_roundtrip(text: Seq<char>, kind: SyntaxKind)
    requires
        spec_keyword_kind(text) == Some(kind),
    ensures
        spec_keyword_lexeme(kind) == Some(text),
{
}

} // verus!
