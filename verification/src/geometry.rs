//! A geometry of any kind, and the container that a parse gives.

use vstd::prelude::*;
use crate::error::ParseError;
use crate::grammar::{
    body, drop, geometry, linestring, linestring_fields, multilinestring, multilinestring_fields,
    multipoint, multipoint_fields, multipolygon, multipolygon_fields, parse, point, point_fields,
    polygon, polygon_fields, wkt,
};
use crate::parser::{parsed_as, FromTokens};
use crate::text::{str_eq, to_ascii_uppercase};
use crate::tokenizer::{Lexeme, Token, Tokens};
use crate::types::coord::CoordView;
use crate::types::{
    GeometryCollection, LineString, MultiLineString, MultiPoint, MultiPolygon, Point, Polygon,
};

verus! {

/// The model of a [`Geometry`]: the same tree over sequences.
pub enum GeometryView {
    Point(Option<CoordView>),
    LineString(Seq<CoordView>),
    Polygon(Seq<Seq<CoordView>>),
    MultiPoint(Seq<Option<CoordView>>),
    MultiLineString(Seq<Seq<CoordView>>),
    MultiPolygon(Seq<Seq<Seq<CoordView>>>),
    GeometryCollection(Seq<GeometryView>),
}

/// A geometry of a WKT text.
#[derive(Debug, PartialEq)]
pub enum Geometry {
    Point(Point),
    LineString(LineString),
    Polygon(Polygon),
    MultiPoint(MultiPoint),
    MultiLineString(MultiLineString),
    MultiPolygon(MultiPolygon),
    GeometryCollection(GeometryCollection),
}

impl View for Geometry {
    type V = GeometryView;

    open spec fn view(&self) -> GeometryView
        decreases self,
    {
        match self {
            Geometry::Point(point) => GeometryView::Point(point@),
            Geometry::LineString(line) => GeometryView::LineString(line@),
            Geometry::Polygon(polygon) => GeometryView::Polygon(polygon@),
            Geometry::MultiPoint(points) => GeometryView::MultiPoint(points@),
            Geometry::MultiLineString(lines) => GeometryView::MultiLineString(lines@),
            Geometry::MultiPolygon(polygons) => GeometryView::MultiPolygon(polygons@),
            Geometry::GeometryCollection(members) => GeometryView::GeometryCollection(
                members.view(),
            ),
        }
    }
}

impl Geometry {
    /// Reads the body that follows the keyword `word`. A keyword is in upper
    /// case.
    pub fn from_word_and_tokens(word: &str, tokens: &mut Tokens) -> (r: Result<
        Geometry,
        ParseError,
    >)
        ensures
            final(tokens).pending() == drop(
                old(tokens).pending(),
                body(word@, old(tokens).pending()).used,
            ),
            parsed_as(r, body(word@, old(tokens).pending())),
        decreases old(tokens).pending().len(), 3nat,
    {
        proof {
            reveal(point);
            reveal(linestring);
            reveal(polygon);
            reveal(multipoint);
            reveal(multilinestring);
            reveal(multipolygon);
            assert((|l: Seq<Lexeme>| Point::fields(l)) =~= (|l: Seq<Lexeme>| point_fields(l)));
            assert((|l: Seq<Lexeme>| LineString::fields(l)) =~= (|l: Seq<Lexeme>|
                linestring_fields(l)));
            assert((|l: Seq<Lexeme>| Polygon::fields(l)) =~= (|l: Seq<Lexeme>| polygon_fields(l)));
            assert((|l: Seq<Lexeme>| MultiPoint::fields(l)) =~= (|l: Seq<Lexeme>|
                multipoint_fields(l)));
            assert((|l: Seq<Lexeme>| MultiLineString::fields(l)) =~= (|l: Seq<Lexeme>|
                multilinestring_fields(l)));
            assert((|l: Seq<Lexeme>| MultiPolygon::fields(l)) =~= (|l: Seq<Lexeme>|
                multipolygon_fields(l)));
        }
        if str_eq(word, "POINT") {
            match Point::from_tokens_with_parens(tokens) {
                Ok(point) => Ok(point.as_item()),
                Err(e) => Err(e),
            }
        } else if str_eq(word, "LINESTRING") {
            match LineString::from_tokens_with_parens(tokens) {
                Ok(line) => Ok(line.as_item()),
                Err(e) => Err(e),
            }
        } else if str_eq(word, "POLYGON") {
            match Polygon::from_tokens_with_parens(tokens) {
                Ok(polygon) => Ok(polygon.as_item()),
                Err(e) => Err(e),
            }
        } else if str_eq(word, "MULTIPOINT") {
            match MultiPoint::from_tokens_with_parens(tokens) {
                Ok(points) => Ok(points.as_item()),
                Err(e) => Err(e),
            }
        } else if str_eq(word, "MULTILINESTRING") {
            match MultiLineString::from_tokens_with_parens(tokens) {
                Ok(lines) => Ok(lines.as_item()),
                Err(e) => Err(e),
            }
        } else if str_eq(word, "MULTIPOLYGON") {
            match MultiPolygon::from_tokens_with_parens(tokens) {
                Ok(polygons) => Ok(polygons.as_item()),
                Err(e) => Err(e),
            }
        } else if str_eq(word, "GEOMETRYCOLLECTION") {
            match GeometryCollection::from_tokens_with_parens(tokens) {
                Ok(members) => Ok(members.as_item()),
                Err(e) => Err(e),
            }
        } else {
            Err(ParseError::InvalidType)
        }
    }

    /// Reads a geometry: the word that names its kind, in any mix of upper
    /// and lower case, and the body of that kind.
    pub fn from_tokens(tokens: &mut Tokens) -> (r: Result<Geometry, ParseError>)
        ensures
            final(tokens).pending() == drop(
                old(tokens).pending(),
                geometry(old(tokens).pending()).used,
            ),
            parsed_as(r, geometry(old(tokens).pending())),
        decreases old(tokens).pending().len(), 0nat,
    {
        let word = match tokens.next() {
            Ok(Some(Token::Word(word))) => word,
            Err(e) => {
                return Err(e);
            },
            Ok(_) => {
                return Err(ParseError::InvalidFormat);
            },
        };
        if !word.as_str().is_ascii() {
            return Err(ParseError::NonAsciiWord);
        }
        let upper = to_ascii_uppercase(word.as_str());
        let ghost inner = tokens.pending();
        proof {
            crate::parser::lemma_drop_drop(
                old(tokens).pending(),
                1,
                body(upper@, inner).used,
            );
        }
        Geometry::from_word_and_tokens(upper.as_str(), tokens)
    }
}

/// What a parse gives: the geometries of one text, in order.
#[derive(Debug, PartialEq)]
pub struct Wkt {
    pub items: Vec<Geometry>,
}

impl View for Wkt {
    type V = Seq<GeometryView>;

    open spec fn view(&self) -> Seq<GeometryView> {
        self.items@.map_values(|item: Geometry| item@)
    }
}

impl Wkt {
    /// The container without a geometry.
    pub fn new() -> (wkt: Wkt)
        ensures
            wkt@ == Seq::<GeometryView>::empty(),
    {
        let wkt = Wkt { items: Vec::new() };
        assert(wkt@ =~= Seq::<GeometryView>::empty());
        wkt
    }

    /// The geometry that a text writes: none for a text without a token, else
    /// the one geometry at the front of the text. What follows that geometry
    /// is not read.
    pub fn from_str(wkt_str: &str) -> (r: Result<Wkt, ParseError>)
        ensures
            match parse(wkt_str@) {
                Ok(items) => r matches Ok(wkt) && wkt@ == items,
                Err(e) => r matches Err(x) && x == e,
            },
    {
        let tokens = Tokens::from_str(wkt_str);
        Wkt::from_tokens(tokens)
    }

    /// The geometry that the tokens write: none where no token is left, else
    /// the one geometry at the front.
    pub fn from_tokens(tokens: Tokens) -> (r: Result<Wkt, ParseError>)
        ensures
            match wkt(tokens.pending()) {
                Ok(items) => r matches Ok(wkt) && wkt@ == items,
                Err(e) => r matches Err(x) && x == e,
            },
    {
        let mut tokens = tokens;
        let mut wkt = Wkt::new();
        if tokens.at_end() {
            return Ok(wkt);
        }
        match Geometry::from_tokens(&mut tokens) {
            Ok(item) => {
                wkt.add_item(item);
                assert(wkt@ =~= seq![item@]);
                Ok(wkt)
            },
            Err(e) => Err(e),
        }
    }

    /// Puts `item` behind the geometries that the container holds.
    pub fn add_item(&mut self, item: Geometry)
        ensures
            final(self)@ == old(self)@.push(item@),
    {
        self.items.push(item);
        assert(self@ =~= old(self)@.push(item@));
    }
}

} // verus!
