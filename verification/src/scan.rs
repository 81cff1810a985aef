//! What a scan of a buffer returns.

use vstd::prelude::*;
use crate::classes::classes;
use crate::grammar::{lexemes, Lexeme};
use crate::keywords::{reclassify, reserved};
use crate::offsets::byte_offset;
use crate::token::{Kind, Token};

verus! {

/// The token that `lexeme` becomes: its character positions in `text`
/// turned into byte offsets.
pub open spec fn to_token(text: Seq<char>, lexeme: Lexeme) -> Token {
    Token {
        kind: lexeme.kind,
        start: byte_offset(text, lexeme.start) as usize,
        end: byte_offset(text, lexeme.end) as usize,
    }
}

/// The kind that the token of `lexeme` ends up with: a word whose characters
/// are a reserved word is that word, and every other lexeme keeps its kind.
pub open spec fn final_kind(text: Seq<char>, lexeme: Lexeme) -> Kind {
    if lexeme.kind == Kind::Ident {
        match reserved(text.subrange(lexeme.start, lexeme.end)) {
            Some(kind) => kind,
            None => Kind::Ident,
        }
    } else {
        lexeme.kind
    }
}

/// The tokens of `text` from the character position `from` on, as the first
/// pass finds them: every word is an identifier.
pub open spec fn raw_tokens(text: Seq<char>, from: int) -> Seq<Token> {
    lexemes(classes(text), from).map_values(|lexeme: Lexeme| to_token(text, lexeme))
}

/// The tokens of `text` from the character position `from` on.
pub open spec fn lex_from(text: Seq<char>, from: int) -> Seq<Token> {
    reclassify(text, raw_tokens(text, from))
}

/// The tokens of `text`.
pub open spec fn lex(text: Seq<char>) -> Seq<Token> {
    lex_from(text, 0)
}

} // verus!
