//! Lexical analysis for a small language: a source buffer goes in, an ordered
//! list of classified tokens with byte spans comes out.
//!
//! [`Lexer`] scans a buffer character by character and reports byte offsets.
//! What it returns is defined by a mathematical model, and the scanner is
//! proved to compute exactly that:
//!
//! - [`classes`] sorts characters into the classes that the language tells
//!   apart;
//! - [`grammar`] says, over a sequence of classes, where each token starts
//!   and ends and of what kind it is;
//! - [`offsets`] turns character positions into byte offsets;
//! - [`keywords`] tells the reserved words from the identifiers;
//! - [`scan`] puts these together: [`scan::lex`] is the list of tokens of a
//!   text;
//! - [`spans`] and [`dump`] say what a list of tokens covers and how it is
//!   shown;
//! - [`laws`] proves what holds of every scan.

pub mod token;
pub mod classes;
pub mod grammar;
pub mod offsets;
pub mod keywords;
pub mod scan;
pub mod spans;
pub mod dump;
pub mod laws;
pub mod lexer;

pub use crate::classes::CharClass;
pub use crate::lexer::Lexer;
pub use crate::token::{Kind, Token};
