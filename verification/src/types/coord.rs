use vstd::prelude::*;
use vstd::string::StringExecFns;
use crate::error::ParseError;
use crate::grammar::{coord, Parsed};
use crate::number::Number;
use crate::parser::FromTokens;
use crate::tokenizer::{Lexeme, Token, Tokens};

verus! {

/// The model of a [`Coord`]: each ordinate as the text of its number.
pub struct CoordView {
    pub x: Seq<char>,
    pub y: Seq<char>,
    pub z: Option<Seq<char>>,
    pub m: Option<Seq<char>>,
}

/// The model of an ordinate that may be absent.
pub open spec fn ordinate_view(n: Option<Number>) -> Option<Seq<char>> {
    match n {
        Some(n) => Some(n@),
        None => None,
    }
}

/// A coordinate: X and Y, and room for Z and M, which no text gives yet.
#[derive(Debug, PartialEq)]
pub struct Coord {
    pub x: Number,
    pub y: Number,
    pub z: Option<Number>,
    pub m: Option<Number>,
}

impl View for Coord {
    type V = CoordView;

    open spec fn view(&self) -> CoordView {
        CoordView {
            x: self.x@,
            y: self.y@,
            z: ordinate_view(self.z),
            m: ordinate_view(self.m),
        }
    }
}

impl Default for Coord {
    /// The coordinate of two zeros.
    fn default() -> (coord: Coord)
        ensures
            coord@ == (CoordView { x: "0"@, y: "0"@, z: None, m: None }),
    {
        Coord { x: Number::default(), y: Number::default(), z: None, m: None }
    }
}

impl Coord {
    /// The coordinate of X and Y alone.
    pub fn new(x: Number, y: Number) -> (coord: Coord)
        ensures
            coord@ == (CoordView { x: x@, y: y@, z: None, m: None }),
    {
        Coord { x, y, z: None, m: None }
    }

    /// The coordinate as a text: `Coord(`, X, a comma and a space, Y, `)`.
    pub fn to_string(&self) -> (s: String)
        ensures
            s@ == "Coord("@ + self.x@ + ", "@ + self.y@ + ")"@,
    {
        let mut s = String::from_str("Coord(");
        s.append(self.x.as_str());
        s.append(", ");
        s.append(self.y.as_str());
        s.append(")");
        s
    }
}

impl FromTokens for Coord {
    /// Two numbers.
    open spec fn fields(lexemes: Seq<Lexeme>) -> Parsed<CoordView> {
        coord(lexemes)
    }

    open spec fn nothing() -> CoordView {
        CoordView { x: "0"@, y: "0"@, z: None, m: None }
    }

    fn empty() -> (value: Coord) {
        Coord::default()
    }

    fn from_tokens(tokens: &mut Tokens) -> (r: Result<Coord, ParseError>) {
        let x = match tokens.next() {
            Ok(Some(Token::Number(n))) => n,
            Err(e) => {
                return Err(e);
            },
            Ok(_) => {
                return Err(ParseError::ExpectedX);
            },
        };
        let y = match tokens.next() {
            Ok(Some(Token::Number(n))) => n,
            Err(e) => {
                return Err(e);
            },
            Ok(_) => {
                return Err(ParseError::ExpectedY);
            },
        };
        Ok(Coord { x, y, z: None, m: None })
    }
}

} // verus!
