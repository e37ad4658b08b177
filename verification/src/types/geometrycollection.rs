use vstd::prelude::*;
use crate::error::ParseError;
use crate::geometry::{Geometry, GeometryView};
use crate::grammar::{closing, collection, collection_fields, drop, geometry, more_members};
use crate::parser::{expect_close, extend, lemma_drop_drop, open_or_empty, parsed_as};
use crate::tokenizer::Tokens;

verus! {

/// Geometries of any kind, in order; a collection may hold collections.
#[derive(Debug, PartialEq)]
pub struct GeometryCollection(pub Vec<Geometry>);

impl View for GeometryCollection {
    type V = Seq<GeometryView>;

    open spec fn view(&self) -> Seq<GeometryView>
        decreases self,
    {
        Seq::new(
            self.0@.len(),
            |i: int|
                if 0 <= i < self.0@.len() {
                    self.0@[i].view()
                } else {
                    arbitrary()
                },
        )
    }
}

impl Default for GeometryCollection {
    fn default() -> (members: GeometryCollection)
        ensures
            members@ == Seq::<GeometryView>::empty(),
    {
        let members = GeometryCollection(Vec::new());
        assert(members@ =~= Seq::<GeometryView>::empty());
        members
    }
}

impl GeometryCollection {
    /// The collection as a geometry.
    pub fn as_item(self) -> (item: Geometry)
        ensures
            item@ == GeometryView::GeometryCollection(self@),
    {
        Geometry::GeometryCollection(self)
    }

    /// Reads the fields of a collection: geometries with commas between
    /// them, each with its keyword. A member may be a collection in turn.
    pub fn from_tokens(tokens: &mut Tokens) -> (r: Result<GeometryCollection, ParseError>)
        ensures
            final(tokens).pending() == drop(
                old(tokens).pending(),
                collection_fields(old(tokens).pending()).used,
            ),
            parsed_as(r, collection_fields(old(tokens).pending())),
        decreases old(tokens).pending().len(), 1nat,
    {
        let ghost start = tokens.pending();
        let head = match Geometry::from_tokens(tokens) {
            Ok(head) => head,
            Err(e) => {
                return Err(e);
            },
        };
        let mut members: Vec<Geometry> = Vec::new();
        members.push(head);
        let ghost mut used: nat = geometry(start).used;
        proof {
            assert(GeometryCollection(members)@ =~= seq![head@]);
            match more_members(drop(start, used)).value {
                Ok(rest) => {},
                Err(_) => {},
            }
        }
        loop
            invariant
                start == old(tokens).pending(),
                tokens.pending() == drop(start, used),
                collection_fields(start) == extend(
                    GeometryCollection(members)@,
                    used,
                    more_members(tokens.pending()),
                ),
            decreases tokens.pending().len(),
        {
            let ghost here = tokens.pending();
            let ghost read = GeometryCollection(members)@;
            if !tokens.at_comma() {
                proof {
                    assert(read + Seq::<GeometryView>::empty() =~= read);
                }
                return Ok(GeometryCollection(members));
            }
            let _ = tokens.next();
            let ghost inner = tokens.pending();
            proof {
                assert(inner == drop(here, 1));
                lemma_drop_drop(here, 1, geometry(inner).used);
                lemma_drop_drop(start, used, 1 + geometry(inner).used);
            }
            match Geometry::from_tokens(tokens) {
                Ok(next) => {
                    members.push(next);
                    proof {
                        match more_members(drop(here, 1 + geometry(inner).used)).value {
                            Ok(rest) => {
                                assert(read + (seq![next@] + rest) =~= read.push(next@) + rest);
                            },
                            Err(_) => {},
                        }
                        used = used + 1 + geometry(inner).used;
                        assert(GeometryCollection(members)@ =~= read.push(next@));
                    }
                },
                Err(e) => {
                    return Err(e);
                },
            }
        }
    }

    /// Reads a collection in its parentheses, or `EMPTY`.
    pub fn from_tokens_with_parens(tokens: &mut Tokens) -> (r: Result<
        GeometryCollection,
        ParseError,
    >)
        ensures
            final(tokens).pending() == drop(
                old(tokens).pending(),
                collection(old(tokens).pending()).used,
            ),
            parsed_as(r, collection(old(tokens).pending())),
        decreases old(tokens).pending().len(), 2nat,
    {
        match open_or_empty(tokens) {
            Err(e) => {
                return Err(e);
            },
            Ok(true) => {
                return Ok(GeometryCollection::default());
            },
            Ok(false) => {},
        }
        let ghost inner = tokens.pending();
        let fields = match GeometryCollection::from_tokens(tokens) {
            Ok(fields) => fields,
            Err(e) => {
                proof {
                    lemma_drop_drop(old(tokens).pending(), 1, collection_fields(inner).used);
                }
                return Err(e);
            },
        };
        let ghost behind = tokens.pending();
        let closed = expect_close(tokens);
        proof {
            lemma_drop_drop(old(tokens).pending(), 1, collection_fields(inner).used);
            lemma_drop_drop(
                old(tokens).pending(),
                1 + collection_fields(inner).used,
                closing(behind).used,
            );
        }
        match closed {
            Ok(()) => Ok(fields),
            Err(e) => Err(e),
        }
    }
}

} // verus!
