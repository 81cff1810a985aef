//! Reserved words.
//!
//! The scanner first takes every word for an identifier. A second pass
//! looks each identifier up by its spelling, the bytes that its span covers,
//! and gives the reserved words their own kinds.

use vstd::prelude::*;
use vstd::string::StringSliceAdditionalSpecFns;
use vstd::utf8::encode_utf8;
use crate::offsets::{
    byte_offset, lemma_encode_injective, lemma_offset_monotonic, lemma_offset_split,
};
use crate::token::{Kind, Token};

verus! {

/// The table of reserved words: the kind of `word`, if it is one of them.
pub open spec fn reserved(word: Seq<char>) -> Option<Kind> {
    if word == "func"@ {
        Some(Kind::Func)
    } else if word == "let"@ {
        Some(Kind::Let)
    } else if word == "mut"@ {
        Some(Kind::Mut)
    } else if word == "struct"@ {
        Some(Kind::Struct)
    } else if word == "return"@ {
        Some(Kind::Return)
    } else {
        None
    }
}

/// Whether the bytes that `token` spans are exactly `word`. A span that
/// does not lie within the buffer spells nothing.
pub open spec fn spells(bytes: Seq<u8>, token: Token, word: Seq<u8>) -> bool {
    &&& token.start <= token.end <= bytes.len()
    &&& bytes.subrange(token.start as int, token.end as int) == word
}

/// The reserved word that `token` spells, if it spells one.
pub open spec fn reserved_word(bytes: Seq<u8>, token: Token) -> Option<Kind> {
    if spells(bytes, token, encode_utf8("func"@)) {
        Some(Kind::Func)
    } else if spells(bytes, token, encode_utf8("let"@)) {
        Some(Kind::Let)
    } else if spells(bytes, token, encode_utf8("mut"@)) {
        Some(Kind::Mut)
    } else if spells(bytes, token, encode_utf8("struct"@)) {
        Some(Kind::Struct)
    } else if spells(bytes, token, encode_utf8("return"@)) {
        Some(Kind::Return)
    } else {
        None
    }
}

/// `token` after the second pass: an identifier that spells a reserved word
/// gets that word's kind; every other token stays as it is. The span never
/// changes.
pub open spec fn reclassified(bytes: Seq<u8>, token: Token) -> Token {
    if token.kind == Kind::Ident {
        match reserved_word(bytes, token) {
            Some(kind) => Token { kind, start: token.start, end: token.end },
            None => token,
        }
    } else {
        token
    }
}

/// The second pass over a whole list of tokens of the buffer `text`.
pub open spec fn reclassify(text: Seq<char>, tokens: Seq<Token>) -> Seq<Token> {
    tokens.map_values(|token: Token| reclassified(encode_utf8(text), token))
}

/// Whether `token` spans exactly the bytes of `word` in `bytes`.
pub fn spells_word(bytes: &[u8], token: &Token, word: &str) -> (same: bool)
    ensures
        same == spells(bytes@, *token, word.spec_bytes()),
{
    let letters = word.as_bytes();
    if token.start > token.end || token.end > bytes.len() {
        return false;
    }
    if token.end - token.start != letters.len() {
        return false;
    }
    let ghost span = bytes@.subrange(token.start as int, token.end as int);
    let mut i: usize = 0;
    while i < letters.len()
        invariant
            i <= letters.len(),
            letters@ == word.spec_bytes(),
            token.start <= token.end <= bytes.len(),
            token.end - token.start == letters.len(),
            span == bytes@.subrange(token.start as int, token.end as int),
            forall|j: int| 0 <= j < i ==> span[j] == letters@[j],
        decreases letters.len() - i,
    {
        if bytes[token.start + i] != letters[i] {
            assert(span[i as int] == bytes@[token.start + i]);
            return false;
        }
        i += 1;
    }
    assert(span =~= letters@);
    true
}

/// Looks `token` up in the table of reserved words.
pub fn keyword(bytes: &[u8], token: &Token) -> (found: Option<Kind>)
    ensures
        found == reserved_word(bytes@, *token),
{
    if spells_word(bytes, token, "func") {
        Some(Kind::Func)
    } else if spells_word(bytes, token, "let") {
        Some(Kind::Let)
    } else if spells_word(bytes, token, "mut") {
        Some(Kind::Mut)
    } else if spells_word(bytes, token, "struct") {
        Some(Kind::Struct)
    } else if spells_word(bytes, token, "return") {
        Some(Kind::Return)
    } else {
        None
    }
}

/// A token that spans the characters `from..to` of `text` spells a reserved
/// word exactly where those characters are one.
pub proof fn lemma_reserved_word_of_text(text: Seq<char>, from: int, to: int, token: Token)
    requires
        0 <= from <= to <= text.len(),
        token.start == byte_offset(text, from),
        token.end == byte_offset(text, to),
    ensures
        reserved_word(encode_utf8(text), token) == reserved(text.subrange(from, to)),
{
    let word = text.subrange(from, to);
    lemma_offset_split(text, from, to);
    lemma_offset_monotonic(text, from, to);
    assert(encode_utf8(text).subrange(token.start as int, token.end as int) == encode_utf8(word));
    if encode_utf8(word) == encode_utf8("func"@) {
        lemma_encode_injective(word, "func"@);
    }
    if encode_utf8(word) == encode_utf8("let"@) {
        lemma_encode_injective(word, "let"@);
    }
    if encode_utf8(word) == encode_utf8("mut"@) {
        lemma_encode_injective(word, "mut"@);
    }
    if encode_utf8(word) == encode_utf8("struct"@) {
        lemma_encode_injective(word, "struct"@);
    }
    if encode_utf8(word) == encode_utf8("return"@) {
        lemma_encode_injective(word, "return"@);
    }
}

/// The second pass changes nothing that it has already seen: run twice, it
/// gives what it gives when run once.
pub proof fn lemma_reclassify_idempotent(text: Seq<char>, tokens: Seq<Token>)
    ensures
        reclassify(text, reclassify(text, tokens)) == reclassify(text, tokens),
{
    assert(reclassify(text, reclassify(text, tokens)) =~= reclassify(text, tokens));
}

/// The second pass keeps the number of tokens and every span, and changes
/// no kind but that of an identifier, which becomes a reserved word or
/// stays an identifier.
pub proof fn lemma_reclassify_keeps_spans(text: Seq<char>, tokens: Seq<Token>)
    ensures
        reclassify(text, tokens).len() == tokens.len(),
        forall|i: int|
            0 <= i < tokens.len() ==> {
                let before = tokens[i];
                let after = #[trigger] reclassify(text, tokens)[i];
                &&& after.start == before.start
                &&& after.end == before.end
                &&& before.kind != Kind::Ident ==> after.kind == before.kind
                &&& before.kind == Kind::Ident ==> after.kind == Kind::Ident
                    || after.kind.is_reserved_word()
            },
{
}

} // verus!
