//! A loaded source file: its paths and its full text. Loading the text
//! from disk is the caller's business; the lexical core only consumes
//! the pair of file identifier and source text.

use vstd::prelude::*;

use crate::lexer::Lexer;
use crate::model::spec_tokenize;
use crate::syntax::{tokens_model, LexError, LexErrorModel, TokenModel, TokenStream};

verus! {

/// A source file held in memory: where it came from, the identifier
/// tokens carry in their locations, and the full source text.
pub struct SourceFile {
    pub absolute_path: String,
    pub relative_path: String,
    pub source: String,
}

impl SourceFile {
    /// Tokenizes the whole file and wraps the token sequence in a
    /// stream, or reports the lexical error the text determines.
    pub fn tokenize(self) -> (r: Result<TokenStream, LexError>)
        requires
            self.source@.len() < usize::MAX,
        ensures
            match r {
                Ok(stream) => {
                    &&& stream.wf()
                    &&& stream.spec_position() == 0
                    &&& spec_tokenize(self.source@, self.relative_path@) == Ok::<_, LexErrorModel>(
                        tokens_model(stream.spec_tokens()),
                    )
                },
                Err(e) => spec_tokenize(self.source@, self.relative_path@) == Err::<
                    Seq<TokenModel>,
                    _,
                >(e@),
            },
    {
        let mut lexer = Lexer::new(self);
        match lexer.tokenize() {
            Ok(tokens) => Ok(TokenStream::new(tokens)),
            Err(e) => Err(e),
        }
    }
}

} // verus!
