use vstd::prelude::*;
use crate::error::ParseError;
use crate::geometry::{Geometry, GeometryView};
use crate::grammar::{item_rule, multipoint_fields, point, Parsed};
use crate::parser::FromTokens;
use crate::tokenizer::{Lexeme, Tokens};
use crate::types::coord::CoordView;
use crate::types::point::Point;

verus! {

/// Points, in order.
#[derive(Debug, PartialEq)]
pub struct MultiPoint(pub Vec<Point>);

impl View for MultiPoint {
    type V = Seq<Option<CoordView>>;

    open spec fn view(&self) -> Seq<Option<CoordView>> {
        self.0@.map_values(|point: Point| point@)
    }
}

impl Default for MultiPoint {
    /// No points.
    fn default() -> (value: MultiPoint)
        ensures
            value@ == Seq::<Option<CoordView>>::empty(),
    {
        let value = MultiPoint(Vec::new());
        assert(value@ =~= Seq::<Option<CoordView>>::empty());
        value
    }
}

impl MultiPoint {
    /// The multi-point as a geometry.
    pub fn as_item(self) -> (item: Geometry)
        ensures
            item@ == GeometryView::MultiPoint(self@),
    {
        Geometry::MultiPoint(self)
    }
}

impl FromTokens for MultiPoint {
    /// Points with commas between them, each in its parentheses.
    open spec fn fields(lexemes: Seq<Lexeme>) -> Parsed<Seq<Option<CoordView>>> {
        multipoint_fields(lexemes)
    }

    open spec fn nothing() -> Seq<Option<CoordView>> {
        Seq::empty()
    }

    fn empty() -> (value: MultiPoint) {
        MultiPoint::default()
    }

    fn from_tokens(tokens: &mut Tokens) -> (r: Result<MultiPoint, ParseError>) {
        proof {
            reveal(multipoint_fields);
            reveal(point);
            assert(item_rule(
                |l: Seq<Lexeme>| Point::fields(l),
                Point::nothing(),
                true,
            ) =~= (|l: Seq<Lexeme>| point(l)));
        }
        match Point::comma_many(tokens, true) {
            Ok(items) => Ok(MultiPoint(items)),
            Err(e) => Err(e),
        }
    }
}

} // verus!
