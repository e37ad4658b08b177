//! The ways in which parsing and conversion fail.

use vstd::prelude::*;

verus! {

/// Why a text is not a WKT geometry. Parsing stops at the first failure.
#[derive(Clone, Copy, Debug, PartialEq, Eq, Structural)]
pub enum ParseError {
    /// A token that starts like a number is not a decimal literal.
    MalformedNumber,
    /// A geometry does not start with a word.
    InvalidFormat,
    /// The word that should name a geometry type holds a non-ASCII character.
    NonAsciiWord,
    /// The word that should name a geometry type names none.
    InvalidType,
    /// Neither `(` nor `EMPTY` follows a type's keyword.
    MissingOpenParen,
    /// Something other than `)` stands where a body should end.
    MissingCloseParen,
    /// Something other than a number stands where an X ordinate should.
    ExpectedX,
    /// Something other than a number stands where a Y ordinate should.
    ExpectedY,
}

impl ParseError {
    /// The message of each error, as a text.
    pub open spec fn message_text(self) -> Seq<char> {
        match self {
            ParseError::MalformedNumber => "Could not parse number"@,
            ParseError::InvalidFormat => "Invalid WKT format"@,
            ParseError::NonAsciiWord => "Encountered non-ascii word"@,
            ParseError::InvalidType => "Invalid type encountered"@,
            ParseError::MissingOpenParen => "Missing open parenthesis for type"@,
            ParseError::MissingCloseParen => "Missing closing parenthesis for type"@,
            ParseError::ExpectedX => "Expected a number for the X coordinate"@,
            ParseError::ExpectedY => "Expected a number for the Y coordinate"@,
        }
    }

    /// A sentence for the error.
    pub fn message(&self) -> (s: &'static str)
        ensures
            s@ == self.message_text(),
    {
        match self {
            ParseError::MalformedNumber => "Could not parse number",
            ParseError::InvalidFormat => "Invalid WKT format",
            ParseError::NonAsciiWord => "Encountered non-ascii word",
            ParseError::InvalidType => "Invalid type encountered",
            ParseError::MissingOpenParen => "Missing open parenthesis for type",
            ParseError::MissingCloseParen => "Missing closing parenthesis for type",
            ParseError::ExpectedX => "Expected a number for the X coordinate",
            ParseError::ExpectedY => "Expected a number for the Y coordinate",
        }
    }
}

/// Why a geometry tree has no counterpart in the plain geometry model.
#[derive(Clone, Copy, Debug, PartialEq, Eq, Structural)]
pub enum ConversionError {
    /// The tree is, or a collection in it holds, a point without a coordinate.
    EmptyPoint,
}

impl ConversionError {
    /// The message of the error, as a text.
    pub open spec fn message_text(self) -> Seq<char> {
        "not implemented"@
    }

    /// A sentence for the error.
    pub fn message(&self) -> (s: &'static str)
        ensures
            s@ == self.message_text(),
    {
        "not implemented"
    }
}

} // verus!
