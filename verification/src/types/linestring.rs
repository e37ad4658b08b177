use vstd::prelude::*;
use crate::error::ParseError;
use crate::geometry::{Geometry, GeometryView};
use crate::grammar::{item_rule, coord, linestring_fields, Parsed};
use crate::parser::FromTokens;
use crate::tokenizer::{Lexeme, Tokens};
use crate::types::coord::{Coord, CoordView};

verus! {

/// A line string: its coordinates, in order. `LINESTRING EMPTY` has none.
#[derive(Debug, PartialEq)]
pub struct LineString(pub Vec<Coord>);

impl View for LineString {
    type V = Seq<CoordView>;

    open spec fn view(&self) -> Seq<CoordView> {
        self.0@.map_values(|coord: Coord| coord@)
    }
}

impl Default for LineString {
    /// The line string without a coordinate.
    fn default() -> (value: LineString)
        ensures
            value@ == Seq::<CoordView>::empty(),
    {
        let value = LineString(Vec::new());
        assert(value@ =~= Seq::<CoordView>::empty());
        value
    }
}

impl LineString {
    /// The line string as a geometry.
    pub fn as_item(self) -> (item: Geometry)
        ensures
            item@ == GeometryView::LineString(self@),
    {
        Geometry::LineString(self)
    }
}

impl FromTokens for LineString {
    /// Coordinates with commas between them.
    open spec fn fields(lexemes: Seq<Lexeme>) -> Parsed<Seq<CoordView>> {
        linestring_fields(lexemes)
    }

    open spec fn nothing() -> Seq<CoordView> {
        Seq::empty()
    }

    fn empty() -> (value: LineString) {
        LineString::default()
    }

    fn from_tokens(tokens: &mut Tokens) -> (r: Result<LineString, ParseError>) {
        proof {
            reveal(linestring_fields);
            assert(item_rule(
                |l: Seq<Lexeme>| Coord::fields(l),
                Coord::nothing(),
                false,
            ) =~= (|l: Seq<Lexeme>| coord(l)));
        }
        match Coord::comma_many(tokens, false) {
            Ok(items) => Ok(LineString(items)),
            Err(e) => Err(e),
        }
    }
}

} // verus!
