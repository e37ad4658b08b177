use vstd::prelude::*;
use crate::error::ParseError;
use crate::geometry::{Geometry, GeometryView};
use crate::grammar::{item_rule, linestring, multilinestring_fields, Parsed};
use crate::parser::FromTokens;
use crate::tokenizer::{Lexeme, Tokens};
use crate::types::coord::CoordView;
use crate::types::linestring::LineString;

verus! {

/// Line strings, in order.
#[derive(Debug, PartialEq)]
pub struct MultiLineString(pub Vec<LineString>);

impl View for MultiLineString {
    type V = Seq<Seq<CoordView>>;

    open spec fn view(&self) -> Seq<Seq<CoordView>> {
        self.0@.map_values(|line: LineString| line@)
    }
}

impl Default for MultiLineString {
    /// No line strings.
    fn default() -> (value: MultiLineString)
        ensures
            value@ == Seq::<Seq<CoordView>>::empty(),
    {
        let value = MultiLineString(Vec::new());
        assert(value@ =~= Seq::<Seq<CoordView>>::empty());
        value
    }
}

impl MultiLineString {
    /// The multi-line-string as a geometry.
    pub fn as_item(self) -> (item: Geometry)
        ensures
            item@ == GeometryView::MultiLineString(self@),
    {
        Geometry::MultiLineString(self)
    }
}

impl FromTokens for MultiLineString {
    /// Line strings with commas between them, each in its parentheses.
    open spec fn fields(lexemes: Seq<Lexeme>) -> Parsed<Seq<Seq<CoordView>>> {
        multilinestring_fields(lexemes)
    }

    open spec fn nothing() -> Seq<Seq<CoordView>> {
        Seq::empty()
    }

    fn empty() -> (value: MultiLineString) {
        MultiLineString::default()
    }

    fn from_tokens(tokens: &mut Tokens) -> (r: Result<MultiLineString, ParseError>) {
        proof {
            reveal(multilinestring_fields);
            reveal(linestring);
            assert(item_rule(
                |l: Seq<Lexeme>| LineString::fields(l),
                LineString::nothing(),
                true,
            ) =~= (|l: Seq<Lexeme>| linestring(l)));
        }
        match LineString::comma_many(tokens, true) {
            Ok(items) => Ok(MultiLineString(items)),
            Err(e) => Err(e),
        }
    }
}

} // verus!
