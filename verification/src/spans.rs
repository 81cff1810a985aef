//! Spans: what the byte ranges of a list of tokens say about the buffer.

use vstd::prelude::*;
use vstd::utf8::is_char_boundary;
use crate::token::{Kind, Token};

verus! {

/// Whether `start..end` is a range of `bytes` that begins and ends on a
/// character boundary: the range of a piece of text.
pub open spec fn is_span(bytes: Seq<u8>, start: int, end: int) -> bool {
    &&& 0 <= start <= end <= bytes.len()
    &&& is_char_boundary(bytes, start)
    &&& is_char_boundary(bytes, end)
}

/// Whether the text of `token` can be taken from the buffer and shown: its
/// span is the range of a piece of text, and for a string literal so is the
/// span without its first and last byte, the two quotes.
pub open spec fn showable(bytes: Seq<u8>, token: Token) -> bool {
    &&& is_span(bytes, token.start as int, token.end as int)
    &&& token.kind == Kind::String ==> is_span(bytes, token.start + 1, token.end - 1)
}

/// The byte at which the gap before the token of index `index` begins: the
/// start of the buffer for the first token, and for every other token the
/// end of the token before it.
pub open spec fn gap_from(tokens: Seq<Token>, index: int) -> int {
    if index == 0 {
        0
    } else {
        tokens[index - 1].end as int
    }
}

/// Whether the spans of `tokens` lie within `bytes`, in order and without
/// overlap.
pub open spec fn in_order(bytes: Seq<u8>, tokens: Seq<Token>) -> bool {
    &&& forall|i: int|
        0 <= i < tokens.len() ==> (#[trigger] tokens[i]).start <= tokens[i].end <= bytes.len()
    &&& forall|i: int, j: int|
        0 <= i < j < tokens.len() ==> (#[trigger] tokens[i]).end <= (#[trigger] tokens[j]).start
}

/// The bytes between the token of index `index` and the token before it.
pub open spec fn gap(bytes: Seq<u8>, tokens: Seq<Token>, index: int) -> Seq<u8> {
    bytes.subrange(gap_from(tokens, index), tokens[index].start as int)
}

/// The bytes that `token` spans.
pub open spec fn covered(bytes: Seq<u8>, token: Token) -> Seq<u8> {
    bytes.subrange(token.start as int, token.end as int)
}

/// The bytes of ASCII whitespace: space, tab, line feed, form feed,
/// carriage return.
pub open spec fn is_space_byte(byte: u8) -> bool {
    byte == 0x20 || byte == 0x09 || byte == 0x0a || byte == 0x0c || byte == 0x0d
}

/// Whether `bytes` holds nothing but ASCII whitespace.
pub open spec fn is_blank(bytes: Seq<u8>) -> bool {
    forall|i: int| 0 <= i < bytes.len() ==> is_space_byte(#[trigger] bytes[i])
}

/// The buffer as `tokens` account for it: for each token in turn, the gap
/// before it and then the bytes that it spans.
pub open spec fn rebuilt(bytes: Seq<u8>, tokens: Seq<Token>) -> Seq<u8>
    decreases tokens.len(),
{
    if tokens.len() == 0 {
        Seq::empty()
    } else {
        rebuilt(bytes, tokens.drop_last()) + gap(bytes, tokens, tokens.len() - 1) + covered(
            bytes,
            tokens.last(),
        )
    }
}

/// Whether `bytes` is made of `tokens` and of whitespace: the gap before
/// each token is blank, and the gaps and the tokens' spans, put together in
/// order, are the buffer.
pub open spec fn tiles(bytes: Seq<u8>, tokens: Seq<Token>) -> bool {
    &&& forall|i: int| 0 <= i < tokens.len() ==> is_blank(#[trigger] gap(bytes, tokens, i))
    &&& rebuilt(bytes, tokens) == bytes
}

/// Tokens in order account for the buffer from its start to the end of the
/// last of them, with nothing left out and nothing twice.
pub proof fn lemma_rebuilt(bytes: Seq<u8>, tokens: Seq<Token>)
    requires
        in_order(bytes, tokens),
    ensures
        rebuilt(bytes, tokens) == bytes.subrange(0, gap_from(tokens, tokens.len() as int)),
    decreases tokens.len(),
{
    if tokens.len() == 0 {
        assert(bytes.subrange(0, 0) =~= Seq::<u8>::empty());
    } else {
        let before = tokens.drop_last();
        let last = tokens.len() - 1;
        assert(in_order(bytes, before)) by {
            assert forall|i: int| 0 <= i < before.len() implies (#[trigger] before[i]).start
                <= before[i].end <= bytes.len() by {
                assert(before[i] == tokens[i]);
            }
            assert forall|i: int, j: int| 0 <= i < j < before.len() implies (
            #[trigger] before[i]).end <= (#[trigger] before[j]).start by {
                assert(before[i] == tokens[i]);
                assert(before[j] == tokens[j]);
            }
        }
        lemma_rebuilt(bytes, before);
        assert(gap_from(before, before.len() as int) == gap_from(tokens, last));
        assert(tokens[last] == tokens.last());
        if last > 0 {
            assert(tokens[last - 1].end <= tokens[last].start);
        }
        assert(bytes.subrange(0, gap_from(tokens, last)) + gap(bytes, tokens, last) + covered(
            bytes,
            tokens.last(),
        ) =~= bytes.subrange(0, tokens.last().end as int));
    }
}

} // verus!
