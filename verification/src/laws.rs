//! What holds of every scan.

use vstd::prelude::*;
use vstd::utf8::encode_utf8;
use crate::classes::{class_of, classes, is_ascii_space, is_blank_text, CharClass};
use crate::grammar::{
    gap_start, is_quoted, lemma_lexemes, lemma_lossless, lexemes, lossless, next_lexeme, run_end,
    Lexeme, Run,
};
use crate::offsets::{
    byte_offset, lemma_offset_ends, lemma_offset_is_boundary, lemma_offset_monotonic,
    lemma_offset_split, lemma_offset_step_ascii,
};
use crate::keywords::lemma_reserved_word_of_text;
use crate::scan::{final_kind, lex, lex_from, raw_tokens, to_token};
use crate::spans::{
    gap, gap_from, in_order, is_blank, is_space_byte, lemma_rebuilt, rebuilt, showable, tiles,
};
use crate::token::{end_of_input, Kind, Token};

verus! {

/// How the tokens of a scan come from the grammar: one token for each
/// lexeme, with the byte offsets of the lexeme's two positions. The kind is
/// the lexeme's, but for a word whose characters are a reserved word.
pub proof fn lemma_tokens_of_lexemes(text: Seq<char>, from: int)
    requires
        0 <= from <= text.len(),
        encode_utf8(text).len() <= usize::MAX,
    ensures
        lex_from(text, from).len() == lexemes(classes(text), from).len(),
        forall|i: int|
            0 <= i < lex_from(text, from).len() ==> {
                let token = #[trigger] lex_from(text, from)[i];
                let lexeme = lexemes(classes(text), from)[i];
                &&& 0 <= lexeme.start <= lexeme.end <= text.len()
                &&& token.start == byte_offset(text, lexeme.start)
                &&& token.end == byte_offset(text, lexeme.end)
                &&& token.kind == final_kind(text, lexeme)
            },
{
    let found = lexemes(classes(text), from);
    lemma_lexemes(classes(text), from);
    assert forall|i: int| 0 <= i < lex_from(text, from).len() implies {
        let token = #[trigger] lex_from(text, from)[i];
        let lexeme = found[i];
        &&& 0 <= lexeme.start <= lexeme.end <= text.len()
        &&& token.start == byte_offset(text, lexeme.start)
        &&& token.end == byte_offset(text, lexeme.end)
        &&& token.kind == final_kind(text, lexeme)
    } by {
        let lexeme = found[i];
        lemma_offset_split(text, 0, lexeme.start);
        lemma_offset_split(text, 0, lexeme.end);
        assert(raw_tokens(text, from)[i] == to_token(text, lexeme));
        lemma_reserved_word_of_text(text, lexeme.start, lexeme.end, to_token(text, lexeme));
    }
}

/// The shape of a scan, from wherever it starts. The list ends with the
/// end-of-input token, which is empty and sits at the end of the buffer, and
/// holds no other such token; every other token is nonempty. The spans lie
/// within the buffer, in order and without overlap.
pub proof fn lemma_scan_shape(text: Seq<char>, from: int)
    requires
        0 <= from <= text.len(),
        encode_utf8(text).len() <= usize::MAX,
    ensures
        lex_from(text, from).len() >= 1,
        lex_from(text, from).last() == end_of_input(encode_utf8(text).len()),
        forall|i: int|
            0 <= i < lex_from(text, from).len() - 1 ==> (#[trigger] lex_from(text, from)[i]).kind
                != Kind::EoF && lex_from(text, from)[i].start < lex_from(text, from)[i].end,
        in_order(encode_utf8(text), lex_from(text, from)),
{
    let found = lexemes(classes(text), from);
    let tokens = lex_from(text, from);
    lemma_lexemes(classes(text), from);
    lemma_tokens_of_lexemes(text, from);
    lemma_offset_ends(text);
    assert(tokens[tokens.len() - 1].kind == found.last().kind);
    assert forall|i: int| 0 <= i < tokens.len() - 1 implies (#[trigger] tokens[i]).kind
        != Kind::EoF && tokens[i].start < tokens[i].end by {
        assert(found[i].kind != Kind::EoF);
        assert(tokens[i].kind == final_kind(text, found[i]));
        lemma_offset_monotonic(text, found[i].start, found[i].end);
    }
    assert forall|i: int| 0 <= i < tokens.len() implies (#[trigger] tokens[i]).start
        <= tokens[i].end <= encode_utf8(text).len() by {
        lemma_offset_monotonic(text, found[i].start, found[i].end);
        lemma_offset_split(text, 0, found[i].end);
    }
    assert forall|i: int, j: int| 0 <= i < j < tokens.len() implies (#[trigger] tokens[i]).end
        <= (#[trigger] tokens[j]).start by {
        assert(found[i].end <= found[j].start);
        assert(0 <= found[i].start <= found[i].end);
        lemma_offset_monotonic(text, found[i].end, found[j].start);
    }
}

/// The text of every token of a scan can be taken from the buffer: the
/// spans begin and end on character boundaries, and a string literal is at
/// least its two quotes, each one byte long.
pub proof fn lemma_scan_showable(text: Seq<char>, from: int)
    requires
        0 <= from <= text.len(),
        encode_utf8(text).len() <= usize::MAX,
    ensures
        forall|i: int|
            0 <= i < lex_from(text, from).len() ==> showable(
                encode_utf8(text),
                #[trigger] lex_from(text, from)[i],
            ),
{
    let bytes = encode_utf8(text);
    let found = lexemes(classes(text), from);
    let tokens = lex_from(text, from);
    lemma_lexemes(classes(text), from);
    lemma_tokens_of_lexemes(text, from);
    assert forall|i: int| 0 <= i < tokens.len() implies showable(bytes, #[trigger] tokens[i]) by {
        let lexeme = found[i];
        lemma_offset_is_boundary(text, lexeme.start);
        lemma_offset_is_boundary(text, lexeme.end);
        lemma_offset_monotonic(text, lexeme.start, lexeme.end);
        lemma_offset_split(text, 0, lexeme.end);
        if tokens[i].kind == Kind::String {
            assert(lexeme.kind == Kind::String);
            assert(is_quoted(classes(text), lexeme));
            assert(classes(text)[lexeme.start] == class_of(text[lexeme.start]));
            assert(classes(text)[lexeme.end - 1] == class_of(text[lexeme.end - 1]));
            lemma_offset_step_ascii(text, lexeme.start);
            lemma_offset_step_ascii(text, lexeme.end - 1);
            lemma_offset_is_boundary(text, lexeme.start + 1);
            lemma_offset_is_boundary(text, lexeme.end - 1);
            lemma_offset_monotonic(text, lexeme.start + 1, lexeme.end - 1);
        }
    }
}

/// Where all is whitespace from `from` on, the run of whitespace at `from`
/// reaches the end of the input.
proof fn lemma_blank_run(classes: Seq<CharClass>, from: int)
    requires
        0 <= from <= classes.len(),
        forall|i: int| from <= i < classes.len() ==> #[trigger] classes[i] == CharClass::Space,
    ensures
        run_end(classes, from, Run::Blank) == classes.len(),
    decreases classes.len() - from,
{
    if from < classes.len() {
        lemma_blank_run(classes, from + 1);
    }
}

/// The encoding of ASCII whitespace is blank.
proof fn lemma_blank_encoding(text: Seq<char>)
    requires
        is_blank_text(text),
    ensures
        is_blank(encode_utf8(text)),
{
    vstd::utf8::is_ascii_chars_encode_utf8(text);
    assert forall|i: int| 0 <= i < encode_utf8(text).len() implies is_space_byte(
        #[trigger] encode_utf8(text)[i],
    ) by {
        assert(is_ascii_space(text[i]));
        assert(text[i] as u8 == encode_utf8(text)[i]);
    }
}

/// Where nothing but ASCII whitespace is left of the buffer, the scan of
/// the rest is one token: the end-of-input token, empty, at the end of the
/// buffer.
pub proof fn lemma_blank_rest(text: Seq<char>, from: int)
    requires
        0 <= from <= text.len(),
        encode_utf8(text).len() <= usize::MAX,
        is_blank_text(text.skip(from)),
    ensures
        lex_from(text, from) == seq![end_of_input(encode_utf8(text).len())],
{
    let classes = classes(text);
    assert forall|i: int| from <= i < classes.len() implies #[trigger] classes[i]
        == CharClass::Space by {
        assert(text.skip(from)[i - from] == text[i]);
    }
    lemma_blank_run(classes, from);
    lemma_offset_ends(text);
    let end = Lexeme { kind: Kind::EoF, start: text.len() as int, end: text.len() as int };
    assert(next_lexeme(classes, from) == end);
    assert(lexemes(classes, from) == seq![end]);
    assert(lex_from(text, from) =~= seq![end_of_input(encode_utf8(text).len())]);
}

/// A buffer of nothing but ASCII whitespace scans to one token: the
/// end-of-input token, empty, at the end of the buffer.
pub proof fn lemma_blank_input(text: Seq<char>)
    requires
        encode_utf8(text).len() <= usize::MAX,
        is_blank_text(text),
    ensures
        lex(text) == seq![end_of_input(encode_utf8(text).len())],
{
    assert(text.skip(0) =~= text);
    lemma_blank_rest(text, 0);
}

/// The compound operator that begins with `first`, if there is one.
pub open spec fn compound_operator(first: char) -> Option<Kind> {
    if first == '+' {
        Some(Kind::PlusEqual)
    } else if first == '-' {
        Some(Kind::MinusEqual)
    } else if first == '*' {
        Some(Kind::MultiEqual)
    } else if first == '/' {
        Some(Kind::DivideEqual)
    } else if first == '=' {
        Some(Kind::EqualEqual)
    } else {
        None
    }
}

/// A compound operator on its own scans to one token of its kind, two bytes
/// long, and never to two plain operators.
pub proof fn lemma_compound_operator_alone(first: char)
    requires
        compound_operator(first) is Some,
    ensures
        lex(seq![first, '=']) == seq![
            (Token { kind: compound_operator(first)->0, start: 0, end: 2 }),
            end_of_input(2),
        ],
{
    let text = seq![first, '='];
    let classes = classes(text);
    let whole = Lexeme { kind: compound_operator(first)->0, start: 0, end: 2 };
    let end = Lexeme { kind: Kind::EoF, start: 2, end: 2 };
    assert(classes[0] == class_of(text[0]));
    assert(classes[1] == class_of(text[1]));
    assert(lexemes(classes, 0) == seq![whole, end]) by {
        reveal_with_fuel(run_end, 2);
        assert(next_lexeme(classes, 0) == whole);
        assert(next_lexeme(classes, 2) == end);
        reveal_with_fuel(lexemes, 3);
        assert(seq![whole] + seq![end] =~= seq![whole, end]);
    }
    lemma_offset_ends(text);
    lemma_offset_step_ascii(text, 0);
    lemma_offset_step_ascii(text, 1);
    lemma_tokens_of_lexemes(text, 0);
    assert(lex(text)[0].kind == whole.kind);
    assert(lex(text)[1].kind == end.kind);
    assert(lex(text) =~= seq![
        (Token { kind: compound_operator(first)->0, start: 0, end: 2 }),
        end_of_input(2),
    ]);
}

/// In a scan without loss the gap before each token is blank.
proof fn lemma_gap_is_blank(text: Seq<char>, index: int)
    requires
        encode_utf8(text).len() <= usize::MAX,
        lossless(classes(text), 0),
        0 <= index < lex(text).len(),
    ensures
        is_blank(gap(encode_utf8(text), lex(text), index)),
{
    let bytes = encode_utf8(text);
    let found = lexemes(classes(text), 0);
    let tokens = lex(text);
    lemma_tokens_of_lexemes(text, 0);
    lemma_lexemes(classes(text), 0);
    lemma_lossless(classes(text), 0);
    lemma_offset_ends(text);
    let from = gap_start(found, 0, index);
    let to = found[index].start;
    assert(tokens[index].start == byte_offset(text, to));
    if index > 0 {
        assert(tokens[index - 1].end == byte_offset(text, found[index - 1].end));
        assert(0 <= found[index - 1].start <= found[index - 1].end);
        assert(found[index - 1].end <= found[index].start);
    }
    assert(0 <= from <= to);
    assert(gap_from(tokens, index) == byte_offset(text, from));
    lemma_offset_split(text, from, to);
    assert(gap(bytes, tokens, index) == encode_utf8(text.subrange(from, to)));
    assert forall|k: int| 0 <= k < to - from implies is_ascii_space(
        #[trigger] text.subrange(from, to)[k],
    ) by {
        assert(found[index].start == to);
        assert(classes(text)[from + k] == CharClass::Space);
        assert(classes(text)[from + k] == class_of(text[from + k]));
    }
    lemma_blank_encoding(text.subrange(from, to));
}

/// A buffer that is scanned without loss is made of its tokens and of
/// whitespace: the gap before each token is blank, and the gaps and the
/// tokens' spans, put together in order, are the buffer. No token of such
/// a scan is an unterminated comment.
///
/// A scan loses nothing where it meets no character that starts no token,
/// no string literal without its closing quote, and no comment without its
/// closing `*/`.
pub proof fn lemma_lossless_scan_rebuilds(text: Seq<char>)
    requires
        encode_utf8(text).len() <= usize::MAX,
        lossless(classes(text), 0),
    ensures
        tiles(encode_utf8(text), lex(text)),
        forall|i: int|
            0 <= i < lex(text).len() ==> (#[trigger] lex(text)[i]).kind
                != Kind::UnterminatedComment,
{
    let bytes = encode_utf8(text);
    let found = lexemes(classes(text), 0);
    let tokens = lex(text);
    assert forall|i: int| 0 <= i < tokens.len() implies is_blank(
        #[trigger] gap(bytes, tokens, i),
    ) by {
        lemma_gap_is_blank(text, i);
    }
    assert forall|i: int| 0 <= i < tokens.len() implies (#[trigger] tokens[i]).kind
        != Kind::UnterminatedComment by {
        lemma_tokens_of_lexemes(text, 0);
        lemma_lossless(classes(text), 0);
        assert(found[i].kind != Kind::UnterminatedComment);
        assert(tokens[i].kind == final_kind(text, found[i]));
    }
    assert(rebuilt(bytes, tokens) == bytes) by {
        lemma_scan_shape(text, 0);
        lemma_rebuilt(bytes, tokens);
        assert(bytes.subrange(0, bytes.len() as int) =~= bytes);
    }
}

/// Whatever the buffer holds, its tokens and the gaps before them, put
/// together in order, are the buffer: a scan moves nothing and leaves
/// nothing out but what lies in the gaps.
pub proof fn lemma_scan_rebuilds(text: Seq<char>)
    requires
        encode_utf8(text).len() <= usize::MAX,
    ensures
        rebuilt(encode_utf8(text), lex(text)) == encode_utf8(text),
{
    let bytes = encode_utf8(text);
    lemma_scan_shape(text, 0);
    lemma_rebuilt(bytes, lex(text));
    assert(bytes.subrange(0, bytes.len() as int) =~= bytes);
}

} // verus!
