//! The lexical grammar.
//!
//! The grammar reads the source as a sequence of character classes and
//! positions in it as character indices. Byte offsets and reserved words are
//! added on top of it, in [`crate::offsets`] and [`crate::keywords`].

use vstd::prelude::*;
use crate::classes::CharClass;
use crate::token::Kind;

verus! {

/// A run of characters that is scanned greedily.
#[derive(Debug, Clone, Copy, PartialEq, Eq, Structural)]
pub enum Run {
    /// Whitespace between tokens.
    Blank,
    /// What follows the first digit of a number: digits and dots.
    Number,
    /// What follows the first letter of an identifier: letters and digits.
    Word,
}

impl Run {
    /// Whether a character of class `class` continues the run.
    pub open spec fn admits(self, class: CharClass) -> bool {
        match self {
            Run::Blank => class == CharClass::Space,
            Run::Number => class.continues_number(),
            Run::Word => class.continues_word(),
        }
    }

    /// Whether a character of class `class` continues the run.
    pub fn takes(&self, class: CharClass) -> (taken: bool)
        ensures
            taken == self.admits(class),
    {
        match self {
            Run::Blank => class == CharClass::Space,
            Run::Number => class == CharClass::Digit || class == CharClass::Dot,
            Run::Word => class == CharClass::Letter || class == CharClass::Digit,
        }
    }
}

/// A token in character positions: the characters `start..end`.
pub struct Lexeme {
    pub kind: Kind,
    pub start: int,
    pub end: int,
}

/// Where the run that starts at `from` ends: the first position at or after
/// `from` whose character does not continue it, or the end of the input.
pub open spec fn run_end(classes: Seq<CharClass>, from: int, run: Run) -> int
    decreases classes.len() - from,
{
    if 0 <= from < classes.len() && run.admits(classes[from]) {
        run_end(classes, from + 1, run)
    } else {
        from
    }
}

/// Whether a `*/` stands at position `at`.
pub open spec fn closes_comment(classes: Seq<CharClass>, at: int) -> bool {
    &&& 0 <= at
    &&& at + 1 < classes.len()
    &&& classes[at] == CharClass::Star
    &&& classes[at + 1] == CharClass::Slash
}

/// The position after the first `*/` at or after `from`, if there is one.
pub open spec fn comment_end(classes: Seq<CharClass>, from: int) -> Option<int>
    decreases classes.len() - from,
{
    if from < 0 || from + 1 >= classes.len() {
        None
    } else if closes_comment(classes, from) {
        Some(from + 2)
    } else {
        comment_end(classes, from + 1)
    }
}

/// The position after the first quote at or after `from`, if there is one.
pub open spec fn string_end(classes: Seq<CharClass>, from: int) -> Option<int>
    decreases classes.len() - from,
{
    if from < 0 || from >= classes.len() {
        None
    } else if classes[from] == CharClass::Quote {
        Some(from + 1)
    } else {
        string_end(classes, from + 1)
    }
}

/// An operator at `at`: with `=` right behind it the two characters are one
/// compound operator, else the one character is the plain operator.
pub open spec fn operator(classes: Seq<CharClass>, at: int, plain: Kind, compound: Kind) -> (
    Option<Kind>,
    int,
) {
    if at + 1 < classes.len() && classes[at + 1] == CharClass::Equals {
        (Some(compound), at + 2)
    } else {
        (Some(plain), at + 1)
    }
}

/// What starts at position `at`: the kind of the token and the position
/// after it. The kind is `None` where the characters up to that position
/// belong to no token: a character that starts nothing, or a string literal
/// that is never closed, which takes the rest of the input with it. At the
/// end of the input the end-of-input token starts, and is empty.
pub open spec fn recognize(classes: Seq<CharClass>, at: int) -> (Option<Kind>, int) {
    if at < 0 || at >= classes.len() {
        (Some(Kind::EoF), at)
    } else {
        match classes[at] {
            CharClass::Plus => operator(classes, at, Kind::Plus, Kind::PlusEqual),
            CharClass::Minus => operator(classes, at, Kind::Minus, Kind::MinusEqual),
            CharClass::Star => operator(classes, at, Kind::Multi, Kind::MultiEqual),
            CharClass::Equals => operator(classes, at, Kind::Equal, Kind::EqualEqual),
            CharClass::Slash => if at + 1 < classes.len() && classes[at + 1] == CharClass::Star {
                match comment_end(classes, at + 2) {
                    Some(end) => (Some(Kind::Comment), end),
                    None => (Some(Kind::UnterminatedComment), classes.len() as int),
                }
            } else {
                operator(classes, at, Kind::Divide, Kind::DivideEqual)
            },
            CharClass::Semicolon => (Some(Kind::SemiColon), at + 1),
            CharClass::Colon => (Some(Kind::Colon), at + 1),
            CharClass::OpenParen => (Some(Kind::StartParen), at + 1),
            CharClass::CloseParen => (Some(Kind::EndParen), at + 1),
            CharClass::OpenBrace => (Some(Kind::StartBrak), at + 1),
            CharClass::CloseBrace => (Some(Kind::EndBrak), at + 1),
            CharClass::Quote => match string_end(classes, at + 1) {
                Some(end) => (Some(Kind::String), end),
                None => (None, classes.len() as int),
            },
            CharClass::Digit => (Some(Kind::Numeric), run_end(classes, at + 1, Run::Number)),
            CharClass::Letter => (Some(Kind::Ident), run_end(classes, at + 1, Run::Word)),
            CharClass::Space | CharClass::Dot | CharClass::Other => (None, at + 1),
        }
    }
}

/// The next token at or after `from`: whitespace is skipped, and so is
/// whatever belongs to no token.
pub open spec fn next_lexeme(classes: Seq<CharClass>, from: int) -> Lexeme
    decreases classes.len() - from,
{
    let start = run_end(classes, from, Run::Blank);
    let (kind, end) = recognize(classes, start);
    match kind {
        Some(kind) => Lexeme { kind, start, end },
        None => {
            proof {
                lemma_run_end(classes, from, Run::Blank);
                lemma_recognize_advances(classes, start);
            }
            next_lexeme(classes, end)
        },
    }
}

/// The tokens from `from` on, up to and including the end-of-input token.
/// A position outside the input has that token only.
pub open spec fn lexemes(classes: Seq<CharClass>, from: int) -> Seq<Lexeme>
    decreases classes.len() - from,
{
    let first = next_lexeme(classes, from);
    if first.kind == Kind::EoF || !(0 <= from <= classes.len()) {
        seq![first]
    } else {
        proof {
            lemma_next_lexeme(classes, from);
        }
        seq![first] + lexemes(classes, first.end)
    }
}

/// Whether the scan from `from` on loses nothing: every character is
/// whitespace or part of a token, and no comment is left open.
pub open spec fn lossless(classes: Seq<CharClass>, from: int) -> bool
    decreases classes.len() - from,
{
    let start = run_end(classes, from, Run::Blank);
    let (kind, end) = recognize(classes, start);
    match kind {
        None => false,
        Some(Kind::EoF) => true,
        Some(Kind::UnterminatedComment) => false,
        Some(_) => {
            proof {
                lemma_run_end(classes, from, Run::Blank);
                lemma_recognize_advances(classes, start);
            }
            lossless(classes, end)
        },
    }
}

/// A run ends at or after its start and within the input; every character
/// in it continues it, and the character at its end, if there is one, does
/// not.
pub proof fn lemma_run_end(classes: Seq<CharClass>, from: int, run: Run)
    ensures
        run_end(classes, from, run) >= from,
        0 <= from <= classes.len() ==> run_end(classes, from, run) <= classes.len(),
        forall|i: int|
            0 <= from <= i < run_end(classes, from, run) ==> run.admits(#[trigger] classes[i]),
        0 <= run_end(classes, from, run) < classes.len() ==> !run.admits(
            classes[run_end(classes, from, run)],
        ),
    decreases classes.len() - from,
{
    if 0 <= from < classes.len() && run.admits(classes[from]) {
        lemma_run_end(classes, from + 1, run);
    }
}

/// A comment ends right after the first `*/` in it, and is left open where
/// there is none.
pub proof fn lemma_comment_end(classes: Seq<CharClass>, from: int)
    requires
        0 <= from,
    ensures
        match comment_end(classes, from) {
            Some(end) => {
                &&& from + 2 <= end <= classes.len()
                &&& closes_comment(classes, end - 2)
                &&& forall|at: int| from <= at < end - 2 ==> !closes_comment(classes, at)
            },
            None => forall|at: int| from <= at ==> !closes_comment(classes, at),
        },
    decreases classes.len() - from,
{
    if from + 1 < classes.len() && !closes_comment(classes, from) {
        lemma_comment_end(classes, from + 1);
    }
}

/// A string ends right after the first quote in it, and is left open where
/// there is none.
pub proof fn lemma_string_end(classes: Seq<CharClass>, from: int)
    requires
        0 <= from,
    ensures
        match string_end(classes, from) {
            Some(end) => {
                &&& from + 1 <= end <= classes.len()
                &&& classes[end - 1] == CharClass::Quote
                &&& forall|at: int| from <= at < end - 1 ==> classes[at] != CharClass::Quote
            },
            None => forall|at: int| from <= at < classes.len() ==> classes[at] != CharClass::Quote,
        },
    decreases classes.len() - from,
{
    if from < classes.len() && classes[from] != CharClass::Quote {
        lemma_string_end(classes, from + 1);
    }
}

/// Within the input, whatever starts at a position ends after it and within
/// the input.
pub proof fn lemma_recognize_advances(classes: Seq<CharClass>, at: int)
    ensures
        0 <= at < classes.len() ==> at < recognize(classes, at).1 <= classes.len(),
        0 <= at < classes.len() ==> recognize(classes, at).0 != Some(Kind::EoF),
        recognize(classes, at).0 is None ==> 0 <= at < classes.len(),
{
    if 0 <= at < classes.len() {
        lemma_comment_end(classes, at + 2);
        lemma_string_end(classes, at + 1);
        lemma_run_end(classes, at + 1, Run::Number);
        lemma_run_end(classes, at + 1, Run::Word);
    }
}

/// The next token lies within the rest of the input. The end-of-input token
/// is empty and sits at the end of the input; every other token is
/// nonempty.
pub proof fn lemma_next_lexeme(classes: Seq<CharClass>, from: int)
    requires
        0 <= from <= classes.len(),
    ensures
        from <= next_lexeme(classes, from).start <= next_lexeme(classes, from).end
            <= classes.len(),
        next_lexeme(classes, from).kind == Kind::EoF ==> next_lexeme(classes, from).start
            == classes.len(),
        next_lexeme(classes, from).kind != Kind::EoF ==> next_lexeme(classes, from).start
            < next_lexeme(classes, from).end,
        next_lexeme(classes, from).kind == Kind::String ==> is_quoted(
            classes,
            next_lexeme(classes, from),
        ),
    decreases classes.len() - from,
{
    let start = run_end(classes, from, Run::Blank);
    lemma_run_end(classes, from, Run::Blank);
    lemma_recognize_advances(classes, start);
    let (kind, end) = recognize(classes, start);
    if kind is None {
        lemma_next_lexeme(classes, end);
    } else if 0 <= start < classes.len() {
        lemma_string_end(classes, start + 1);
    }
}

/// Whether `lexeme` begins with a quote and ends with another.
pub open spec fn is_quoted(classes: Seq<CharClass>, lexeme: Lexeme) -> bool {
    &&& 0 <= lexeme.start
    &&& lexeme.start + 2 <= lexeme.end <= classes.len()
    &&& classes[lexeme.start] == CharClass::Quote
    &&& classes[lexeme.end - 1] == CharClass::Quote
}

/// Where the scan for the token of index `index` began: at `from` for the
/// first token, and for every other token where the token before it ended.
/// The characters from there to the token's start are the gap before it.
pub open spec fn gap_start(found: Seq<Lexeme>, from: int, index: int) -> int {
    if index == 0 {
        from
    } else {
        found[index - 1].end
    }
}

/// The shape of a scan. It ends with the end-of-input token, which is empty
/// and sits at the end of the input, and holds no other such token. Every
/// other token is nonempty. The tokens lie within the rest of the input, in
/// order and without overlap. A string literal has its two quotes.
pub proof fn lemma_lexemes(classes: Seq<CharClass>, from: int)
    requires
        0 <= from <= classes.len(),
    ensures
        lexemes(classes, from).len() >= 1,
        lexemes(classes, from).last() == (Lexeme {
            kind: Kind::EoF,
            start: classes.len() as int,
            end: classes.len() as int,
        }),
        forall|i: int|
            0 <= i < lexemes(classes, from).len() - 1 ==> {
                let lexeme = #[trigger] lexemes(classes, from)[i];
                lexeme.kind != Kind::EoF && lexeme.start < lexeme.end
            },
        forall|i: int|
            0 <= i < lexemes(classes, from).len() ==> {
                let lexeme = #[trigger] lexemes(classes, from)[i];
                from <= lexeme.start <= lexeme.end <= classes.len()
            },
        forall|i: int, j: int|
            0 <= i < j < lexemes(classes, from).len() ==> (#[trigger] lexemes(
                classes,
                from,
            )[i]).end <= (#[trigger] lexemes(classes, from)[j]).start,
        forall|i: int|
            0 <= i < lexemes(classes, from).len() && (#[trigger] lexemes(classes, from)[i]).kind
                == Kind::String ==> is_quoted(classes, lexemes(classes, from)[i]),
    decreases classes.len() - from,
{
    let first = next_lexeme(classes, from);
    lemma_next_lexeme(classes, from);
    if first.kind != Kind::EoF {
        let rest = lexemes(classes, first.end);
        let found = lexemes(classes, from);
        lemma_lexemes(classes, first.end);
        assert(found == seq![first] + rest);
        assert(found.last() == rest.last());
        assert forall|i: int| 0 <= i < found.len() - 1 implies {
            let lexeme = #[trigger] found[i];
            lexeme.kind != Kind::EoF && lexeme.start < lexeme.end
        } by {
            if i > 0 {
                assert(found[i] == rest[i - 1]);
            }
        }
        assert forall|i: int| 0 <= i < found.len() implies {
            let lexeme = #[trigger] found[i];
            from <= lexeme.start <= lexeme.end <= classes.len()
        } by {
            if i > 0 {
                assert(found[i] == rest[i - 1]);
            }
        }
        assert forall|i: int, j: int| 0 <= i < j < found.len() implies (#[trigger] found[i]).end
            <= (#[trigger] found[j]).start by {
            assert(found[j] == rest[j - 1]);
            if i > 0 {
                assert(found[i] == rest[i - 1]);
            }
        }
        assert forall|i: int|
            0 <= i < found.len() && (#[trigger] found[i]).kind == Kind::String implies is_quoted(
            classes,
            found[i],
        ) by {
            if i > 0 {
                assert(found[i] == rest[i - 1]);
            }
        }
    }
}

/// A scan that loses nothing leaves only whitespace between its tokens, and
/// reports no unterminated comment.
pub proof fn lemma_lossless(classes: Seq<CharClass>, from: int)
    requires
        0 <= from <= classes.len(),
        lossless(classes, from),
    ensures
        forall|i: int|
            0 <= i < lexemes(classes, from).len() ==> (#[trigger] lexemes(classes, from)[i]).kind
                != Kind::UnterminatedComment,
        forall|i: int, at: int|
            0 <= i < lexemes(classes, from).len() && #[trigger] gap_start(
                lexemes(classes, from),
                from,
                i,
            ) <= at < lexemes(classes, from)[i].start ==> #[trigger] classes[at]
                == CharClass::Space,
    decreases classes.len() - from,
{
    let first = next_lexeme(classes, from);
    let found = lexemes(classes, from);
    lemma_next_lexeme(classes, from);
    lemma_run_end(classes, from, Run::Blank);
    assert(first.start == run_end(classes, from, Run::Blank));
    if first.kind != Kind::EoF {
        let rest = lexemes(classes, first.end);
        lemma_lossless(classes, first.end);
        assert(found == seq![first] + rest);
        assert forall|i: int| 0 <= i < found.len() implies (#[trigger] found[i]).kind
            != Kind::UnterminatedComment by {
            if i > 0 {
                assert(found[i] == rest[i - 1]);
            }
        }
        assert forall|i: int, at: int|
            0 <= i < found.len() && #[trigger] gap_start(found, from, i) <= at
                < found[i].start implies #[trigger] classes[at] == CharClass::Space by {
            if i > 0 {
                assert(found[i] == rest[i - 1]);
                assert(gap_start(found, from, i) == gap_start(rest, first.end, i - 1));
            }
        }
    }
}

} // verus!
