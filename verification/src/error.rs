//! Failures of the tokenize/parse/build pipeline.
//!
//! Every failure is terminal and synchronous: the whole pipeline aborts
//! before layout begins, and no partial result is returned.

use vstd::prelude::*;

verus! {

/// A lexical, syntactic or semantic failure of the front end.
#[derive(Debug, Clone, PartialEq)]
pub enum ParseError {
    /// No lexical rule matches the character at this position.
    UnexpectedCharacter { ch: char, pos: usize },
    /// An opening parenthesis whose matching closer never arrives.
    UnmatchedParenthesis,
    /// An opening brace whose matching closer never arrives.
    UnmatchedBrace,
    /// A brace-delimited group was required here.
    ExpectedBrace,
    /// A script marker stands at the end of the input.
    ExpectedScriptContent,
    /// Script content is neither a literal, a function, nor a brace group.
    InvalidScriptContent,
    /// A function name outside the fixed registry.
    InvalidFunction { name: String },
    /// A function called with an argument count outside its inclusive range.
    WrongArgumentCount { expected_min: usize, expected_max: usize, actual: usize },
}

/// Mathematical model of a failure: texts are character sequences.
pub enum ParseErrV {
    UnexpectedCharacter { ch: char, pos: int },
    UnmatchedParenthesis,
    UnmatchedBrace,
    ExpectedBrace,
    ExpectedScriptContent,
    InvalidScriptContent,
    InvalidFunction { name: Seq<char> },
    WrongArgumentCount { expected_min: int, expected_max: int, actual: int },
}

impl View for ParseError {
    type V = ParseErrV;

    open spec fn view(&self) -> ParseErrV {
        match self {
            ParseError::UnexpectedCharacter { ch, pos } => ParseErrV::UnexpectedCharacter {
                ch: *ch,
                pos: *pos as int,
            },
            ParseError::UnmatchedParenthesis => ParseErrV::UnmatchedParenthesis,
            ParseError::UnmatchedBrace => ParseErrV::UnmatchedBrace,
            ParseError::ExpectedBrace => ParseErrV::ExpectedBrace,
            ParseError::ExpectedScriptContent => ParseErrV::ExpectedScriptContent,
            ParseError::InvalidScriptContent => ParseErrV::InvalidScriptContent,
            ParseError::InvalidFunction { name } => ParseErrV::InvalidFunction { name: name@ },
            ParseError::WrongArgumentCount { expected_min, expected_max, actual } => {
                ParseErrV::WrongArgumentCount {
                    expected_min: *expected_min as int,
                    expected_max: *expected_max as int,
                    actual: *actual as int,
                }
            },
        }
    }
}

} // verus!
