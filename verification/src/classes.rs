//! Character classes: the alphabet that the lexical grammar is written over.

use vstd::prelude::*;

verus! {

/// The class of a character, as far as the scanner tells characters apart.
#[derive(Debug, Clone, Copy, PartialEq, Eq, Structural, Hash)]
pub enum CharClass {
    /// ASCII whitespace.
    Space,
    Plus,
    Minus,
    Star,
    Slash,
    Equals,
    Semicolon,
    Colon,
    OpenParen,
    CloseParen,
    OpenBrace,
    CloseBrace,
    /// The double quote.
    Quote,
    /// The full stop: it continues a number and starts nothing.
    Dot,
    /// A numeric character.
    Digit,
    /// An alphabetic character that is not numeric.
    Letter,
    /// Anything else. Such a character belongs to no token.
    Other,
}

/// ASCII whitespace: space, tab, line feed, form feed, carriage return.
pub open spec fn is_ascii_space(c: char) -> bool {
    c == ' ' || c == '\t' || c == '\n' || c == '\x0C' || c == '\r'
}

/// Whether `text` holds nothing but ASCII whitespace.
pub open spec fn is_blank_text(text: Seq<char>) -> bool {
    forall|i: int| 0 <= i < text.len() ==> is_ascii_space(#[trigger] text[i])
}

/// What `char::is_numeric` returns for `c`: whether Unicode puts `c` in one of
/// its number categories.
pub uninterp spec fn unicode_numeric(c: char) -> bool;

/// What `char::is_alphabetic` returns for `c`: whether `c` has Unicode's
/// `Alphabetic` property.
pub uninterp spec fn unicode_alphabetic(c: char) -> bool;

/// `char::is_ascii_whitespace` is true of U+0020, U+0009, U+000A, U+000C and
/// U+000D, and of nothing else.
pub assume_specification[ char::is_ascii_whitespace ](c: &char) -> (space: bool)
    ensures
        space == is_ascii_space(*c),
;

/// `char::is_numeric` depends on the character alone; its table is Unicode's
/// and is not restated here.
pub assume_specification[ char::is_numeric ](c: char) -> (numeric: bool)
    ensures
        numeric == unicode_numeric(c),
;

/// `char::is_alphabetic` depends on the character alone; its table is
/// Unicode's and is not restated here.
pub assume_specification[ char::is_alphabetic ](c: char) -> (alphabetic: bool)
    ensures
        alphabetic == unicode_alphabetic(c),
;

/// The class of `c`, given what Unicode says of it. Whitespace and the
/// punctuation of the language are told by the character itself and come
/// first; of the rest a numeric character is a digit, an alphabetic one a
/// letter.
pub open spec fn class_from(c: char, numeric: bool, alphabetic: bool) -> CharClass {
    if is_ascii_space(c) {
        CharClass::Space
    } else if c == '+' {
        CharClass::Plus
    } else if c == '-' {
        CharClass::Minus
    } else if c == '*' {
        CharClass::Star
    } else if c == '/' {
        CharClass::Slash
    } else if c == '=' {
        CharClass::Equals
    } else if c == ';' {
        CharClass::Semicolon
    } else if c == ':' {
        CharClass::Colon
    } else if c == '(' {
        CharClass::OpenParen
    } else if c == ')' {
        CharClass::CloseParen
    } else if c == '{' {
        CharClass::OpenBrace
    } else if c == '}' {
        CharClass::CloseBrace
    } else if c == '"' {
        CharClass::Quote
    } else if c == '.' {
        CharClass::Dot
    } else if numeric {
        CharClass::Digit
    } else if alphabetic {
        CharClass::Letter
    } else {
        CharClass::Other
    }
}

/// The class of `c`.
pub open spec fn class_of(c: char) -> CharClass {
    class_from(c, unicode_numeric(c), unicode_alphabetic(c))
}

/// The classes of the characters of `text`, in order.
pub open spec fn classes(text: Seq<char>) -> Seq<CharClass> {
    text.map_values(|c: char| class_of(c))
}

impl CharClass {
    /// Whether a character of this class continues a number.
    pub open spec fn continues_number(self) -> bool {
        self == CharClass::Digit || self == CharClass::Dot
    }

    /// Whether a character of this class continues an identifier.
    pub open spec fn continues_word(self) -> bool {
        self == CharClass::Letter || self == CharClass::Digit
    }
}

/// Classifies `c` from the two facts that only Unicode's tables give.
pub fn classify_with(c: char, numeric: bool, alphabetic: bool) -> (class: CharClass)
    ensures
        class == class_from(c, numeric, alphabetic),
{
    if c.is_ascii_whitespace() {
        CharClass::Space
    } else {
        match c {
            '+' => CharClass::Plus,
            '-' => CharClass::Minus,
            '*' => CharClass::Star,
            '/' => CharClass::Slash,
            '=' => CharClass::Equals,
            ';' => CharClass::Semicolon,
            ':' => CharClass::Colon,
            '(' => CharClass::OpenParen,
            ')' => CharClass::CloseParen,
            '{' => CharClass::OpenBrace,
            '}' => CharClass::CloseBrace,
            '"' => CharClass::Quote,
            '.' => CharClass::Dot,
            _ => if numeric {
                CharClass::Digit
            } else if alphabetic {
                CharClass::Letter
            } else {
                CharClass::Other
            },
        }
    }
}

/// Classifies `c`.
pub fn classify(c: char) -> (class: CharClass)
    ensures
        class == class_of(c),
{
    classify_with(c, c.is_numeric(), c.is_alphabetic())
}

} // verus!
