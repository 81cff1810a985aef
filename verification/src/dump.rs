//! The diagnostic dump of a list of tokens.
//!
//! The dump reads `{ Kind: "text", Kind: "text", }`: one entry for each
//! token, in order. It is meant for the eye, not for a parser.

use vstd::prelude::*;
use vstd::utf8::{decode_utf8, encode_utf8};
use crate::token::{Kind, Token};

verus! {

/// The text that the bytes `start..end` of the buffer hold.
pub open spec fn text_between(bytes: Seq<u8>, start: int, end: int) -> Seq<char> {
    decode_utf8(bytes.subrange(start, end))
}

/// The text of `token`: what its span holds.
pub open spec fn spelling(bytes: Seq<u8>, token: Token) -> Seq<char> {
    text_between(bytes, token.start as int, token.end as int)
}

/// The text that the dump shows for `token`: its spelling, and for a string
/// literal the spelling without the two quotes.
pub open spec fn shown(bytes: Seq<u8>, token: Token) -> Seq<char> {
    if token.kind == Kind::String {
        text_between(bytes, token.start + 1, token.end - 1)
    } else {
        spelling(bytes, token)
    }
}

/// The entry of one token: its kind, a colon, and its text in quotes,
/// followed by a comma.
pub open spec fn entry(bytes: Seq<u8>, token: Token) -> Seq<char> {
    token.kind.name() + ": \""@ + shown(bytes, token) + "\", "@
}

/// The entries of `tokens`, one after the other.
pub open spec fn entries(bytes: Seq<u8>, tokens: Seq<Token>) -> Seq<char>
    decreases tokens.len(),
{
    if tokens.len() == 0 {
        Seq::empty()
    } else {
        entries(bytes, tokens.drop_last()) + entry(bytes, tokens.last())
    }
}

/// The dump of `tokens`, which are tokens of the buffer `text`.
pub open spec fn dump_text(text: Seq<char>, tokens: Seq<Token>) -> Seq<char> {
    "{ "@ + entries(encode_utf8(text), tokens) + "}"@
}

} // verus!
