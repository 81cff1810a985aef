//! Byte offsets of character positions.
//!
//! The scanner counts characters; tokens carry byte offsets into the UTF-8
//! buffer. This module relates the two.

use vstd::prelude::*;
use vstd::utf8::*;

verus! {

/// The byte offset at which the character of index `index` starts (for
/// `index == text.len()`, the length of the buffer): the length of the
/// encoding of the characters before it.
pub open spec fn byte_offset(text: Seq<char>, index: int) -> nat {
    encode_utf8(text.take(index)).len()
}

/// Encoding distributes over concatenation.
pub proof fn lemma_encode_concat(a: Seq<char>, b: Seq<char>)
    ensures
        encode_utf8(a + b) == encode_utf8(a) + encode_utf8(b),
    decreases a.len(),
{
    if a.len() == 0 {
        assert(a + b =~= b);
        assert(encode_utf8(a) + encode_utf8(b) =~= encode_utf8(b));
    } else {
        lemma_encode_concat(a.drop_first(), b);
        assert((a + b).drop_first() =~= a.drop_first() + b);
        assert(encode_utf8(a + b) =~= encode_utf8(a) + encode_utf8(b));
    }
}

/// A character takes at least one byte, so a nonempty text has a nonempty
/// encoding.
pub proof fn lemma_encode_nonempty(text: Seq<char>)
    requires
        text.len() > 0,
    ensures
        encode_utf8(text).len() > 0,
{
}

/// The bytes between two character positions are the encoding of the
/// characters between them.
pub proof fn lemma_offset_split(text: Seq<char>, from: int, to: int)
    requires
        0 <= from <= to <= text.len(),
    ensures
        byte_offset(text, to) == byte_offset(text, from) + encode_utf8(
            text.subrange(from, to),
        ).len(),
        byte_offset(text, to) <= encode_utf8(text).len(),
        encode_utf8(text).subrange(byte_offset(text, from) as int, byte_offset(text, to) as int)
            == encode_utf8(text.subrange(from, to)),
{
    let head = text.take(from);
    let mid = text.subrange(from, to);
    let tail = text.skip(to);
    assert(text.take(to) =~= head + mid);
    assert(text =~= text.take(to) + tail);
    lemma_encode_concat(head, mid);
    lemma_encode_concat(text.take(to), tail);
    assert(encode_utf8(text).subrange(
        encode_utf8(head).len() as int,
        (encode_utf8(head).len() + encode_utf8(mid).len()) as int,
    ) =~= encode_utf8(mid));
}

/// The two ends of the text.
pub proof fn lemma_offset_ends(text: Seq<char>)
    ensures
        byte_offset(text, 0) == 0,
        byte_offset(text, text.len() as int) == encode_utf8(text).len(),
{
    assert(text.take(0) =~= Seq::<char>::empty());
    assert(text.take(text.len() as int) =~= text);
}

/// Byte offsets grow with character positions, strictly.
pub proof fn lemma_offset_monotonic(text: Seq<char>, from: int, to: int)
    requires
        0 <= from <= to <= text.len(),
    ensures
        byte_offset(text, from) <= byte_offset(text, to),
        from < to ==> byte_offset(text, from) < byte_offset(text, to),
{
    lemma_offset_split(text, from, to);
    if from < to {
        lemma_encode_nonempty(text.subrange(from, to));
    }
}

/// The byte offset of a character position is a character boundary of the
/// buffer.
pub proof fn lemma_offset_is_boundary(text: Seq<char>, index: int)
    requires
        0 <= index <= text.len(),
    ensures
        is_char_boundary(encode_utf8(text), byte_offset(text, index) as int),
    decreases index,
{
    let bytes = encode_utf8(text);
    encode_utf8_valid_utf8(text);
    if index == 0 {
        lemma_offset_ends(text);
    } else {
        let rest = text.drop_first();
        encode_utf8_first_scalar(text);
        assert(pop_first_scalar(bytes) =~= encode_utf8(rest));
        lemma_offset_is_boundary(rest, index - 1);
        assert(text.take(index) =~= seq![text[0]] + rest.take(index - 1));
        lemma_encode_concat(seq![text[0]], rest.take(index - 1));
        assert(encode_utf8(seq![text[0]]) =~= encode_scalar(text[0] as u32)) by {
            reveal_with_fuel(encode_utf8, 2);
            assert(seq![text[0]].drop_first() =~= Seq::<char>::empty());
        }
        lemma_offset_split(text, 0, index);
        lemma_offset_ends(text);
        assert(byte_offset(text, index) == length_of_first_scalar(bytes) + byte_offset(
            rest,
            index - 1,
        ));
    }
}

/// An ASCII character takes one byte.
pub proof fn lemma_offset_step_ascii(text: Seq<char>, index: int)
    requires
        0 <= index < text.len(),
        text[index] as u32 <= 0x7f,
    ensures
        byte_offset(text, index + 1) == byte_offset(text, index) + 1,
{
    lemma_offset_split(text, index, index + 1);
    let one = text.subrange(index, index + 1);
    assert(one.drop_first() =~= Seq::<char>::empty());
    assert(encode_utf8(one) =~= encode_scalar(text[index] as u32)) by {
        reveal_with_fuel(encode_utf8, 2);
    }
}

/// Texts with the same encoding are the same text.
pub proof fn lemma_encode_injective(a: Seq<char>, b: Seq<char>)
    requires
        encode_utf8(a) == encode_utf8(b),
    ensures
        a == b,
{
    encode_utf8_decode_utf8(a);
    encode_utf8_decode_utf8(b);
}

/// A character boundary of a buffer is one of every prefix of the buffer
/// that reaches it and ends on a boundary itself.
pub proof fn lemma_boundary_in_prefix(bytes: Seq<u8>, start: int, end: int)
    requires
        valid_utf8(bytes),
        0 <= start <= end <= bytes.len(),
        is_char_boundary(bytes, start),
        is_char_boundary(bytes, end),
    ensures
        valid_utf8(bytes.subrange(0, end)),
        is_char_boundary(bytes.subrange(0, end), start),
{
    let head = bytes.subrange(0, end);
    valid_utf8_split(bytes, end);
    if start == end {
        is_char_boundary_start_end_of_seq(head);
    } else {
        is_char_boundary_iff_not_is_continuation_byte(bytes, start);
        is_char_boundary_iff_not_is_continuation_byte(head, start);
    }
}

} // verus!
