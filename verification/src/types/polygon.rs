use vstd::prelude::*;
use crate::error::ParseError;
use crate::geometry::{Geometry, GeometryView};
use crate::grammar::{item_rule, linestring, polygon_fields, Parsed};
use crate::parser::FromTokens;
use crate::tokenizer::{Lexeme, Tokens};
use crate::types::coord::CoordView;
use crate::types::linestring::LineString;

verus! {

/// A polygon: its rings, the exterior first, then the interiors.
/// `POLYGON EMPTY` has none.
#[derive(Debug, PartialEq)]
pub struct Polygon(pub Vec<LineString>);

impl View for Polygon {
    type V = Seq<Seq<CoordView>>;

    open spec fn view(&self) -> Seq<Seq<CoordView>> {
        self.0@.map_values(|ring: LineString| ring@)
    }
}

impl Default for Polygon {
    /// The polygon without a ring.
    fn default() -> (value: Polygon)
        ensures
            value@ == Seq::<Seq<CoordView>>::empty(),
    {
        let value = Polygon(Vec::new());
        assert(value@ =~= Seq::<Seq<CoordView>>::empty());
        value
    }
}

impl Polygon {
    /// The polygon as a geometry.
    pub fn as_item(self) -> (item: Geometry)
        ensures
            item@ == GeometryView::Polygon(self@),
    {
        Geometry::Polygon(self)
    }
}

impl FromTokens for Polygon {
    /// Rings with commas between them, each a line string in its parentheses.
    open spec fn fields(lexemes: Seq<Lexeme>) -> Parsed<Seq<Seq<CoordView>>> {
        polygon_fields(lexemes)
    }

    open spec fn nothing() -> Seq<Seq<CoordView>> {
        Seq::empty()
    }

    fn empty() -> (value: Polygon) {
        Polygon::default()
    }

    fn from_tokens(tokens: &mut Tokens) -> (r: Result<Polygon, ParseError>) {
        proof {
            reveal(polygon_fields);
            reveal(linestring);
            assert(item_rule(
                |l: Seq<Lexeme>| LineString::fields(l),
                LineString::nothing(),
                true,
            ) =~= (|l: Seq<Lexeme>| linestring(l)));
        }
        match LineString::comma_many(tokens, true) {
            Ok(items) => Ok(Polygon(items)),
            Err(e) => Err(e),
        }
    }
}

} // verus!
