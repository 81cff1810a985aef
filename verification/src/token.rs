//! Tokens and their kinds.

use vstd::prelude::*;

verus! {

/// What a token is.
#[derive(Debug, Clone, Copy, PartialEq, Eq, Structural, PartialOrd, Ord, Hash)]
pub enum Kind {
    /// The end of the input. Every scan ends with exactly one token of this kind.
    EoF,
    /// A block comment, `/* ... */`, delimiters included.
    Comment,
    /// A block comment whose closing `*/` is missing. It reaches to the end of
    /// the input.
    UnterminatedComment,
    SemiColon,
    Colon,
    StartParen,
    EndParen,
    StartBrak,
    EndBrak,
    Plus,
    PlusEqual,
    Minus,
    MinusEqual,
    Divide,
    DivideEqual,
    Multi,
    MultiEqual,
    Equal,
    EqualEqual,
    /// A run of digits and dots that starts with a digit.
    Numeric,
    /// A run of letters and digits that starts with a letter and is no
    /// reserved word.
    Ident,
    /// A string literal, both quotes included.
    String,
    Func,
    Let,
    Mut,
    Struct,
    Return,
}

/// A classified piece of the source: the bytes `start..end` of the buffer.
#[derive(Debug, Clone, Copy, PartialEq, Eq, Structural, PartialOrd, Ord, Hash)]
pub struct Token {
    pub kind: Kind,
    pub start: usize,
    pub end: usize,
}

/// The end-of-input token of a buffer of `size` bytes: empty, at the end of
/// the buffer.
pub open spec fn end_of_input(size: nat) -> Token {
    Token { kind: Kind::EoF, start: size as usize, end: size as usize }
}

impl Kind {
    /// Whether this kind is one of the five reserved words.
    pub open spec fn is_reserved_word(self) -> bool {
        self == Kind::Func || self == Kind::Let || self == Kind::Mut || self == Kind::Struct
            || self == Kind::Return
    }

    /// The name of the kind, as it is written in this enumeration.
    pub open spec fn name(self) -> Seq<char> {
        match self {
            Kind::EoF => "EoF"@,
            Kind::Comment => "Comment"@,
            Kind::UnterminatedComment => "UnterminatedComment"@,
            Kind::SemiColon => "SemiColon"@,
            Kind::Colon => "Colon"@,
            Kind::StartParen => "StartParen"@,
            Kind::EndParen => "EndParen"@,
            Kind::StartBrak => "StartBrak"@,
            Kind::EndBrak => "EndBrak"@,
            Kind::Plus => "Plus"@,
            Kind::PlusEqual => "PlusEqual"@,
            Kind::Minus => "Minus"@,
            Kind::MinusEqual => "MinusEqual"@,
            Kind::Divide => "Divide"@,
            Kind::DivideEqual => "DivideEqual"@,
            Kind::Multi => "Multi"@,
            Kind::MultiEqual => "MultiEqual"@,
            Kind::Equal => "Equal"@,
            Kind::EqualEqual => "EqualEqual"@,
            Kind::Numeric => "Numeric"@,
            Kind::Ident => "Ident"@,
            Kind::String => "String"@,
            Kind::Func => "Func"@,
            Kind::Let => "Let"@,
            Kind::Mut => "Mut"@,
            Kind::Struct => "Struct"@,
            Kind::Return => "Return"@,
        }
    }

    /// The name of the kind.
    pub fn label(&self) -> (label: &'static str)
        ensures
            label@ == self.name(),
    {
        match self {
            Kind::EoF => "EoF",
            Kind::Comment => "Comment",
            Kind::UnterminatedComment => "UnterminatedComment",
            Kind::SemiColon => "SemiColon",
            Kind::Colon => "Colon",
            Kind::StartParen => "StartParen",
            Kind::EndParen => "EndParen",
            Kind::StartBrak => "StartBrak",
            Kind::EndBrak => "EndBrak",
            Kind::Plus => "Plus",
            Kind::PlusEqual => "PlusEqual",
            Kind::Minus => "Minus",
            Kind::MinusEqual => "MinusEqual",
            Kind::Divide => "Divide",
            Kind::DivideEqual => "DivideEqual",
            Kind::Multi => "Multi",
            Kind::MultiEqual => "MultiEqual",
            Kind::Equal => "Equal",
            Kind::EqualEqual => "EqualEqual",
            Kind::Numeric => "Numeric",
            Kind::Ident => "Ident",
            Kind::String => "String",
            Kind::Func => "Func",
            Kind::Let => "Let",
            Kind::Mut => "Mut",
            Kind::Struct => "Struct",
            Kind::Return => "Return",
        }
    }
}

} // verus!
