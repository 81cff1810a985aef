//! The scanner.

use std::str::Chars;
use vstd::prelude::*;
use vstd::std_specs::iter::IteratorSpec;
use vstd::string::{StringExecFns, StringSliceAdditionalSpecFns};
use vstd::utf8::*;
use crate::classes::{classes, classify, is_blank_text, CharClass};
use crate::grammar::{
    comment_end, lemma_next_lexeme, lemma_recognize_advances, lemma_run_end, lexemes, lossless,
    next_lexeme, operator, recognize, run_end, string_end, Lexeme, Run,
};
use crate::keywords::{keyword, reclassified, reclassify};
use crate::dump::{dump_text, entries, entry, spelling, text_between};
use crate::laws::{
    lemma_blank_rest, lemma_lossless_scan_rebuilds, lemma_scan_shape, lemma_scan_showable,
};
use crate::offsets::{
    byte_offset, lemma_boundary_in_prefix, lemma_offset_ends, lemma_offset_monotonic,
    lemma_offset_split,
};
use crate::spans::{in_order, is_span, showable, tiles};
use crate::scan::{lex_from, to_token};
use crate::token::{end_of_input, Kind, Token};

verus! {

/// `Chars::as_str` returns the part of the string that the iterator has not
/// yet walked: the characters that it will still yield, in order.
pub assume_specification<'a>[ Chars::<'a>::as_str ](chars: &Chars<'a>) -> (rest: &'a str)
    ensures
        rest@ == chars.remaining(),
;

/// A scanner over one source buffer. It reads the buffer and never changes
/// it; all that moves is the position up to which the buffer has been read.
pub struct Lexer<'a> {
    source: &'a str,
    rest: &'a str,
}

impl<'a> Lexer<'a> {
    /// The characters of the buffer.
    pub closed spec fn text(&self) -> Seq<char> {
        self.source@
    }

    /// How many characters have been read.
    pub closed spec fn position(&self) -> nat {
        (self.source@.len() - self.rest@.len()) as nat
    }

    #[verifier::type_invariant]
    spec fn rest_is_suffix(&self) -> bool {
        &&& self.rest@.len() <= self.source@.len()
        &&& self.rest@ == self.source@.skip(self.source@.len() - self.rest@.len())
    }

    /// A scanner at the start of `source`.
    pub fn new(source: &'a str) -> (lexer: Self)
        ensures
            lexer.text() == source@,
            lexer.position() == 0,
    {
        assert(source@ =~= source@.skip(0));
        Lexer { source, rest: source }
    }

    /// The byte offset of the position.
    pub fn offset(&self) -> (at: usize)
        ensures
            self.position() <= self.text().len(),
            at == byte_offset(self.text(), self.position() as int),
            at <= encode_utf8(self.text()).len() <= usize::MAX,
    {
        broadcast use vstd::slice::group_slice_axioms;
        proof {
            use_type_invariant(self);
            let at = self.position() as int;
            lemma_offset_split(self.source@, at, self.source@.len() as int);
            lemma_offset_ends(self.source@);
            assert(self.source@.subrange(at, self.source@.len() as int) =~= self.rest@);
        }
        self.source.as_bytes().len() - self.rest.as_bytes().len()
    }

    /// The next character, which stays unread; `None` at the end of the
    /// buffer.
    pub fn peek(&self) -> (next: Option<char>)
        ensures
            self.position() <= self.text().len(),
            next == if self.position() < self.text().len() {
                Some(self.text()[self.position() as int])
            } else {
                None
            },
    {
        broadcast use vstd::string::group_string_axioms;
        proof {
            use_type_invariant(self);
        }
        let mut chars = self.rest.chars();
        chars.next()
    }

    /// Reads the next character; `None`, and nothing read, at the end of the
    /// buffer.
    pub fn advance(&mut self) -> (next: Option<char>)
        ensures
            final(self).text() == old(self).text(),
            old(self).position() <= old(self).text().len(),
            next == if old(self).position() < old(self).text().len() {
                Some(old(self).text()[old(self).position() as int])
            } else {
                None
            },
            final(self).position() == if old(self).position() < old(self).text().len() {
                old(self).position() + 1
            } else {
                old(self).position()
            },
    {
        broadcast use vstd::string::group_string_axioms;
        proof {
            use_type_invariant(&*self);
        }
        let mut chars = self.rest.chars();
        let next = chars.next();
        let rest = chars.as_str();
        proof {
            let at = self.source@.len() - self.rest@.len();
            if self.rest@.len() > 0 {
                assert(rest@ =~= self.source@.skip(at + 1));
            }
        }
        self.rest = rest;
        next
    }

    /// Reads the next character if it is `wanted`, and nothing otherwise.
    fn eat(&mut self, wanted: char) -> (eaten: bool)
        ensures
            final(self).text() == old(self).text(),
            old(self).position() <= old(self).text().len(),
            eaten == (old(self).position() < old(self).text().len() && old(self).text()[old(
                self,
            ).position() as int] == wanted),
            final(self).position() == if eaten {
                old(self).position() + 1
            } else {
                old(self).position()
            },
    {
        match self.peek() {
            Some(c) => {
                if c == wanted {
                    self.advance();
                    true
                } else {
                    false
                }
            },
            None => false,
        }
    }

    /// Reads to the end of the run that starts at the position.
    fn skip_run(&mut self, run: Run)
        ensures
            final(self).text() == old(self).text(),
            final(self).position() <= final(self).text().len(),
            final(self).position() == run_end(
                classes(old(self).text()),
                old(self).position() as int,
                run,
            ),
    {
        let ghost text = self.text();
        let ghost from = self.position() as int;
        loop
            invariant
                self.text() == text,
                run_end(classes(text), self.position() as int, run) == run_end(
                    classes(text),
                    from,
                    run,
                ),
            ensures
                self.text() == text,
                self.position() <= text.len(),
                self.position() == run_end(classes(text), from, run),
            decreases text.len() - self.position(),
        {
            match self.peek() {
                Some(c) => {
                    if !run.takes(classify(c)) {
                        break ;
                    }
                    self.advance();
                },
                None => {
                    break ;
                },
            }
        }
    }

    /// Reads the whitespace at the position.
    fn remove_whitespace(&mut self)
        ensures
            final(self).text() == old(self).text(),
            final(self).position() <= final(self).text().len(),
            final(self).position() == run_end(
                classes(old(self).text()),
                old(self).position() as int,
                Run::Blank,
            ),
    {
        self.skip_run(Run::Blank)
    }

    /// After an operator character: reads the `=` that makes it a compound
    /// operator, if it is there.
    fn read_operator(&mut self, plain: Kind, compound: Kind) -> (kind: Kind)
        requires
            old(self).position() > 0,
        ensures
            final(self).text() == old(self).text(),
            (Some(kind), final(self).position() as int) == operator(
                classes(old(self).text()),
                old(self).position() - 1,
                plain,
                compound,
            ),
    {
        if self.eat('=') {
            compound
        } else {
            plain
        }
    }

    /// After `/*`: reads up to and including the closing `*/`. Without one
    /// it reads the rest of the buffer and reports the comment as
    /// unterminated.
    #[verifier::loop_isolation(false)]
    fn read_comment(&mut self) -> (kind: Kind)
        ensures
            final(self).text() == old(self).text(),
            match comment_end(classes(old(self).text()), old(self).position() as int) {
                Some(end) => kind == Kind::Comment && final(self).position() == end,
                None => kind == Kind::UnterminatedComment && final(self).position() == old(
                    self,
                ).text().len(),
            },
    {
        let ghost text = self.text();
        let ghost from = self.position() as int;
        loop
            invariant
                self.text() == text,
                comment_end(classes(text), self.position() as int) == comment_end(
                    classes(text),
                    from,
                ),
            decreases text.len() - self.position(),
        {
            match self.advance() {
                Some(c) => {
                    if c == '*' && self.eat('/') {
                        return Kind::Comment;
                    }
                },
                None => {
                    return Kind::UnterminatedComment;
                },
            }
        }
    }

    /// After an opening quote: reads up to and including the closing quote,
    /// and says whether there was one. Without one it reads the rest of the
    /// buffer.
    #[verifier::loop_isolation(false)]
    fn read_string(&mut self) -> (closed: bool)
        ensures
            final(self).text() == old(self).text(),
            match string_end(classes(old(self).text()), old(self).position() as int) {
                Some(end) => closed && final(self).position() == end,
                None => !closed && final(self).position() == old(self).text().len(),
            },
    {
        let ghost text = self.text();
        let ghost from = self.position() as int;
        loop
            invariant
                self.text() == text,
                string_end(classes(text), self.position() as int) == string_end(
                    classes(text),
                    from,
                ),
            decreases text.len() - self.position(),
        {
            match self.advance() {
                Some(c) => {
                    if c == '"' {
                        return true;
                    }
                },
                None => {
                    return false;
                },
            }
        }
    }

    /// Reads what starts at the position and tells its kind: `None` where
    /// what was read belongs to no token.
    fn read_next_kind(&mut self) -> (found: Option<Kind>)
        ensures
            final(self).text() == old(self).text(),
            (found, final(self).position() as int) == recognize(
                classes(old(self).text()),
                old(self).position() as int,
            ),
    {
        let first = match self.advance() {
            Some(c) => c,
            None => {
                return Some(Kind::EoF);
            },
        };
        match classify(first) {
            CharClass::Plus => Some(self.read_operator(Kind::Plus, Kind::PlusEqual)),
            CharClass::Minus => Some(self.read_operator(Kind::Minus, Kind::MinusEqual)),
            CharClass::Star => Some(self.read_operator(Kind::Multi, Kind::MultiEqual)),
            CharClass::Equals => Some(self.read_operator(Kind::Equal, Kind::EqualEqual)),
            CharClass::Slash => {
                if self.eat('*') {
                    Some(self.read_comment())
                } else {
                    Some(self.read_operator(Kind::Divide, Kind::DivideEqual))
                }
            },
            CharClass::Semicolon => Some(Kind::SemiColon),
            CharClass::Colon => Some(Kind::Colon),
            CharClass::OpenParen => Some(Kind::StartParen),
            CharClass::CloseParen => Some(Kind::EndParen),
            CharClass::OpenBrace => Some(Kind::StartBrak),
            CharClass::CloseBrace => Some(Kind::EndBrak),
            CharClass::Quote => {
                if self.read_string() {
                    Some(Kind::String)
                } else {
                    None
                }
            },
            CharClass::Digit => {
                self.skip_run(Run::Number);
                Some(Kind::Numeric)
            },
            CharClass::Letter => {
                self.skip_run(Run::Word);
                Some(Kind::Ident)
            },
            CharClass::Space | CharClass::Dot | CharClass::Other => None,
        }
    }

    /// Reads the next token. Whitespace before it is skipped, and so is
    /// whatever belongs to no token. At the end of the buffer the token is
    /// the end-of-input token, however often this is called.
    #[verifier::loop_isolation(false)]
    pub fn read_next_token(&mut self) -> (token: Token)
        ensures
            final(self).text() == old(self).text(),
            old(self).position() <= old(self).text().len(),
            encode_utf8(old(self).text()).len() <= usize::MAX,
            token == to_token(
                old(self).text(),
                next_lexeme(classes(old(self).text()), old(self).position() as int),
            ),
            final(self).position() == next_lexeme(
                classes(old(self).text()),
                old(self).position() as int,
            ).end,
            old(self).position() <= final(self).position() <= old(self).text().len(),
            token.start <= token.end <= encode_utf8(old(self).text()).len(),
    {
        let ghost text = self.text();
        let ghost from = self.position() as int;
        loop
            invariant
                self.text() == text,
                next_lexeme(classes(text), self.position() as int) == next_lexeme(
                    classes(text),
                    from,
                ),
            decreases text.len() - self.position(),
        {
            proof {
                lemma_run_end(classes(text), self.position() as int, Run::Blank);
            }
            self.remove_whitespace();
            let start = self.offset();
            proof {
                lemma_recognize_advances(classes(text), self.position() as int);
            }
            match self.read_next_kind() {
                Some(kind) => {
                    let end = self.offset();
                    proof {
                        let found = next_lexeme(classes(text), from);
                        lemma_next_lexeme(classes(text), from);
                        lemma_offset_monotonic(text, found.start, found.end);
                    }
                    return Token { kind, start, end };
                },
                None => {},
            }
        }
    }

    /// Scans the rest of the buffer: every token up to and including the
    /// end-of-input token, with the reserved words told from the
    /// identifiers.
    pub fn tokens(&mut self) -> (tokens: Vec<Token>)
        ensures
            final(self).text() == old(self).text(),
            final(self).position() == old(self).text().len(),
            tokens@ == lex_from(old(self).text(), old(self).position() as int),
            tokens.len() >= 1,
            tokens[tokens.len() - 1] == end_of_input(encode_utf8(old(self).text()).len()),
            is_blank_text(old(self).text().skip(old(self).position() as int)) ==> tokens.len()
                == 1,
            in_order(encode_utf8(old(self).text()), tokens@),
            old(self).position() == 0 && lossless(classes(old(self).text()), 0) ==> tiles(
                encode_utf8(old(self).text()),
                tokens@,
            ),
            forall|i: int|
                0 <= i < tokens.len() ==> showable(
                    encode_utf8(old(self).text()),
                    #[trigger] tokens[i],
                ),
    {
        let ghost text = self.text();
        let ghost from = self.position() as int;
        let ghost mut at = from;
        let ghost mut scanned: Seq<Lexeme> = Seq::empty();
        let mut tokens: Vec<Token> = Vec::new();
        let mut token = self.read_next_token();
        while token.kind != Kind::EoF
            invariant
                self.text() == text,
                0 <= at <= text.len(),
                token == to_token(text, next_lexeme(classes(text), at)),
                self.position() == next_lexeme(classes(text), at).end,
                tokens@ == scanned.map_values(|lexeme: Lexeme| to_token(text, lexeme)),
                lexemes(classes(text), from) == scanned + lexemes(classes(text), at),
            decreases text.len() - at,
        {
            proof {
                let first = next_lexeme(classes(text), at);
                lemma_next_lexeme(classes(text), at);
                assert(scanned.push(first).map_values(|lexeme: Lexeme| to_token(text, lexeme))
                    =~= tokens@.push(token));
                assert(scanned + (seq![first] + lexemes(classes(text), first.end))
                    =~= scanned.push(first) + lexemes(classes(text), first.end));
                scanned = scanned.push(first);
                at = first.end;
            }
            tokens.push(token);
            token = self.read_next_token();
        }
        proof {
            let last = next_lexeme(classes(text), at);
            lemma_next_lexeme(classes(text), at);
            assert(scanned.push(last).map_values(|lexeme: Lexeme| to_token(text, lexeme))
                =~= tokens@.push(token));
            assert(scanned + seq![last] =~= scanned.push(last));
        }
        tokens.push(token);
        self.check_keywords(&mut tokens);
        proof {
            lemma_scan_shape(text, from);
            lemma_scan_showable(text, from);
            if is_blank_text(text.skip(from)) {
                lemma_blank_rest(text, from);
            }
            if from == 0 && lossless(classes(text), 0) {
                lemma_lossless_scan_rebuilds(text);
            }
        }
        tokens
    }

    /// Gives the reserved words among `tokens` their own kinds: an
    /// identifier whose span spells `func`, `let`, `mut`, `struct` or
    /// `return` becomes that word. Nothing else changes.
    pub fn check_keywords(&self, tokens: &mut Vec<Token>)
        ensures
            final(tokens)@ == reclassify(self.text(), old(tokens)@),
    {
        let bytes = self.source.as_bytes();
        let ghost before = tokens@;
        let mut i: usize = 0;
        while i < tokens.len()
            invariant
                i <= tokens.len(),
                tokens.len() == before.len(),
                bytes@ == encode_utf8(self.text()),
                forall|j: int| 0 <= j < i ==> tokens[j] == reclassified(bytes@, before[j]),
                forall|j: int| i <= j < tokens.len() ==> tokens[j] == before[j],
            decreases tokens.len() - i,
        {
            let token = tokens[i];
            if token.kind == Kind::Ident {
                match keyword(bytes, &token) {
                    Some(kind) => {
                        tokens.set(i, Token { kind, start: token.start, end: token.end });
                    },
                    None => {},
                }
            }
            i += 1;
        }
        assert(tokens@ =~= reclassify(self.text(), before));
    }

    /// The text that the bytes `start..end` of the buffer hold.
    fn slice(&self, start: usize, end: usize) -> (value: &'a str)
        requires
            is_span(encode_utf8(self.text()), start as int, end as int),
        ensures
            value@ == text_between(encode_utf8(self.text()), start as int, end as int),
    {
        proof {
            let bytes = encode_utf8(self.text());
            encode_utf8_valid_utf8(self.text());
            lemma_boundary_in_prefix(bytes, start as int, end as int);
        }
        let (head, _) = self.source.split_at(end);
        let (_, value) = head.split_at(start);
        proof {
            let bytes = encode_utf8(self.text());
            assert(value.spec_bytes() =~= bytes.subrange(start as int, end as int));
            encode_utf8_decode_utf8(value@);
        }
        value
    }

    /// Whether the text of `token` can be taken from this buffer and shown.
    pub fn is_showable(&self, token: &Token) -> (fits: bool)
        ensures
            fits == showable(encode_utf8(self.text()), *token),
    {
        broadcast use vstd::slice::group_slice_axioms;
        proof {
            encode_utf8_valid_utf8(self.text());
        }
        let size = self.source.as_bytes().len();
        if token.start > token.end || token.end > size {
            return false;
        }
        if !self.source.is_char_boundary(token.start) || !self.source.is_char_boundary(
            token.end,
        ) {
            return false;
        }
        if token.kind == Kind::String {
            token.end - token.start >= 2 && self.source.is_char_boundary(token.start + 1)
                && self.source.is_char_boundary(token.end - 1)
        } else {
            true
        }
    }

    /// The text of `token`: the part of the buffer that it spans.
    pub fn get_value(&self, token: &Token) -> (value: &'a str)
        requires
            is_span(encode_utf8(self.text()), token.start as int, token.end as int),
        ensures
            value@ == spelling(encode_utf8(self.text()), *token),
    {
        self.slice(token.start, token.end)
    }

    /// The diagnostic dump of `tokens`: `{ `, then for each token its kind
    /// and its text as `Kind: "text", `, then `}`. A string literal is shown
    /// without its quotes.
    pub fn dump(&self, tokens: &Vec<Token>) -> (out: String)
        requires
            forall|i: int|
                0 <= i < tokens.len() ==> showable(encode_utf8(self.text()), #[trigger] tokens[i]),
        ensures
            out@ == dump_text(self.text(), tokens@),
    {
        let ghost bytes = encode_utf8(self.text());
        let mut out = String::new();
        out.append("{ ");
        let mut i: usize = 0;
        while i < tokens.len()
            invariant
                i <= tokens.len(),
                bytes == encode_utf8(self.text()),
                forall|i: int| 0 <= i < tokens.len() ==> showable(bytes, #[trigger] tokens[i]),
                out@ == "{ "@ + entries(bytes, tokens@.take(i as int)),
            decreases tokens.len() - i,
        {
            let token = &tokens[i];
            let ghost before = out@;
            out.append(token.kind.label());
            out.append(": \"");
            if token.kind == Kind::String {
                out.append(self.slice(token.start + 1, token.end - 1));
            } else {
                out.append(self.get_value(token));
            }
            out.append("\", ");
            proof {
                let seen = tokens@.take(i + 1);
                assert(seen.drop_last() =~= tokens@.take(i as int));
                assert(seen.last() == tokens[i as int]);
                assert(out@ =~= before + entry(bytes, tokens[i as int]));
                assert(out@ =~= "{ "@ + entries(bytes, seen));
            }
            i += 1;
        }
        assert(tokens@.take(i as int) =~= tokens@);
        out.append("}");
        out
    }
}

} // verus!
