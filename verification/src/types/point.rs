use vstd::prelude::*;
use vstd::string::StringExecFns;
use crate::error::ParseError;
use crate::geometry::{Geometry, GeometryView};
use crate::grammar::{point_fields, Parsed};
use crate::parser::FromTokens;
use crate::tokenizer::{Lexeme, Tokens};
use crate::types::coord::{Coord, CoordView};

verus! {

/// The model of a [`Point`].
pub open spec fn point_view(c: Option<Coord>) -> Option<CoordView> {
    match c {
        Some(c) => Some(c@),
        None => None,
    }
}

/// A point: one coordinate, or none for `POINT EMPTY`.
#[derive(Debug, PartialEq)]
pub struct Point(pub Option<Coord>);

impl View for Point {
    type V = Option<CoordView>;

    open spec fn view(&self) -> Option<CoordView> {
        point_view(self.0)
    }
}

impl Default for Point {
    /// The point without a coordinate.
    fn default() -> (point: Point)
        ensures
            point@ == None::<CoordView>,
    {
        Point(None)
    }
}

impl Point {
    /// The point as a geometry.
    pub fn as_item(self) -> (item: Geometry)
        ensures
            item@ == GeometryView::Point(self@),
    {
        Geometry::Point(self)
    }

    /// The name of the kind: `POINT`.
    pub fn to_string(&self) -> (s: String)
        ensures
            s@ == "POINT"@,
    {
        String::from_str("POINT")
    }
}

impl FromTokens for Point {
    /// One coordinate.
    open spec fn fields(lexemes: Seq<Lexeme>) -> Parsed<Option<CoordView>> {
        point_fields(lexemes)
    }

    open spec fn nothing() -> Option<CoordView> {
        None
    }

    fn empty() -> (value: Point) {
        Point::default()
    }

    fn from_tokens(tokens: &mut Tokens) -> (r: Result<Point, ParseError>) {
        match Coord::from_tokens(tokens) {
            Ok(coord) => Ok(Point(Some(coord))),
            Err(e) => Err(e),
        }
    }
}

} // verus!
