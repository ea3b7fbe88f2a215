//! Lexical analysis.

pub mod lexer;
pub mod token;
pub mod token_set;

use crate::diagnostic::Diagnostic;
use crate::source_code::FileId;
use crate::source_code::Sources;
use lexer::lexed;
use lexer::views;
use lexer::Lexer;
use token::Token;
use vstd::prelude::*;
use vstd::utf8::encode_utf8;

verus! {

/// Lexes a file of `sources` into its tokens and the diagnostics found on the way.
pub fn lex(sources: &Sources, file_id: FileId) -> (lexed_file: (Vec<Token>, Vec<Diagnostic>))
    requires
        file_id.position() < sources@.len(),
    ensures
        lexed_file.0@ == lexed(encode_utf8(sources@[file_id.position()].source@), file_id).tokens,
        views(lexed_file.1@) == lexed(
            encode_utf8(sources@[file_id.position()].source@),
            file_id,
        ).diagnostics,
{
    let mut lexer = Lexer {
        file_id,
        input: sources.get(file_id).source.as_str(),
        position: 0,
        tokens: Vec::new(),
        diagnostics: Vec::new(),
    };
    assert(lexer.state().tokens =~= Seq::empty());
    assert(lexer.state().diagnostics =~= Seq::empty());
    lexer.lex();
    (lexer.tokens, lexer.diagnostics)
}

} // verus!
