//! Errors reported while lexing and parsing configuration text, with their
//! mathematical models.

use vstd::prelude::*;

verus! {

use crate::lexer::{ConfigToken, Tok};

/// Model of a configuration error: the same variants with token and string
/// payloads seen as their models.
pub enum ErrModel {
    WrongUseofReserved,
    ExpectingArrow(Seq<char>),
    MissingStringParameter,
    MissingNumParameter,
    InvalidTokenPosition(Tok),
    ExpectingEq,
    BlockExpected(Tok),
    ReachedEOF,
    MalformedArrow,
    NumTooLarge,
}

/// An error found while turning configuration text into a statement tree.
/// The first error aborts configuration loading; there is no recovery.
#[derive(Debug, PartialEq)]
pub enum IshtParseError {
    /// A reserved word stood where an ordinary identifier was expected.
    WrongUseofReserved,
    /// The named reserved call was not followed by `->`.
    ExpectingArrow(String),
    /// A reserved call expected a string literal after its arrow.
    MissingStringParameter,
    /// A reserved call expected a number literal after its arrow.
    MissingNumParameter,
    /// The token cannot stand at this position.
    InvalidTokenPosition(ConfigToken),
    /// A binding's name was not followed by `=`.
    ExpectingEq,
    /// A group was expected at the top level.
    BlockExpected(ConfigToken),
    /// The token stream ended where a token was expected.
    ReachedEOF,
    /// A `-` was not followed by `>`.
    MalformedArrow,
    /// A number literal does not fit in 32 bits.
    NumTooLarge,
}

impl View for IshtParseError {
    type V = ErrModel;

    open spec fn view(&self) -> ErrModel {
        match self {
            IshtParseError::WrongUseofReserved => ErrModel::WrongUseofReserved,
            IshtParseError::ExpectingArrow(s) => ErrModel::ExpectingArrow(s@),
            IshtParseError::MissingStringParameter => ErrModel::MissingStringParameter,
            IshtParseError::MissingNumParameter => ErrModel::MissingNumParameter,
            IshtParseError::InvalidTokenPosition(t) => ErrModel::InvalidTokenPosition(t@),
            IshtParseError::ExpectingEq => ErrModel::ExpectingEq,
            IshtParseError::BlockExpected(t) => ErrModel::BlockExpected(t@),
            IshtParseError::ReachedEOF => ErrModel::ReachedEOF,
            IshtParseError::MalformedArrow => ErrModel::MalformedArrow,
            IshtParseError::NumTooLarge => ErrModel::NumTooLarge,
        }
    }
}

} // verus!
