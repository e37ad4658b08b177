use vstd::prelude::*;
use crate::error::ParseError;
use crate::geometry::{Geometry, GeometryView};
use crate::grammar::{item_rule, multipolygon_fields, polygon, Parsed};
use crate::parser::FromTokens;
use crate::tokenizer::{Lexeme, Tokens};
use crate::types::coord::CoordView;
use crate::types::polygon::Polygon;

verus! {

/// Polygons, in order.
#[derive(Debug, PartialEq)]
pub struct MultiPolygon(pub Vec<Polygon>);

impl View for MultiPolygon {
    type V = Seq<Seq<Seq<CoordView>>>;

    open spec fn view(&self) -> Seq<Seq<Seq<CoordView>>> {
        self.0@.map_values(|polygon: Polygon| polygon@)
    }
}

impl Default for MultiPolygon {
    /// No polygons.
    fn default() -> (value: MultiPolygon)
        ensures
            value@ == Seq::<Seq<Seq<CoordView>>>::empty(),
    {
        let value = MultiPolygon(Vec::new());
        assert(value@ =~= Seq::<Seq<Seq<CoordView>>>::empty());
        value
    }
}

impl MultiPolygon {
    /// The multi-polygon as a geometry.
    pub fn as_item(self) -> (item: Geometry)
        ensures
            item@ == GeometryView::MultiPolygon(self@),
    {
        Geometry::MultiPolygon(self)
    }
}

impl FromTokens for MultiPolygon {
    /// Polygons with commas between them, each in its parentheses.
    open spec fn fields(lexemes: Seq<Lexeme>) -> Parsed<Seq<Seq<Seq<CoordView>>>> {
        multipolygon_fields(lexemes)
    }

    open spec fn nothing() -> Seq<Seq<Seq<CoordView>>> {
        Seq::empty()
    }

    fn empty() -> (value: MultiPolygon) {
        MultiPolygon::default()
    }

    fn from_tokens(tokens: &mut Tokens) -> (r: Result<MultiPolygon, ParseError>) {
        proof {
            reveal(multipolygon_fields);
            reveal(polygon);
            assert(item_rule(
                |l: Seq<Lexeme>| Polygon::fields(l),
                Polygon::nothing(),
                true,
            ) =~= (|l: Seq<Lexeme>| polygon(l)));
        }
        match Polygon::comma_many(tokens, true) {
            Ok(items) => Ok(MultiPolygon(items)),
            Err(e) => Err(e),
        }
    }
}

} // verus!
