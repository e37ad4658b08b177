//! The grammar of WKT, over lexemes: what each rule gives on a sequence of
//! lexemes, and how many of them it reads.

use vstd::prelude::*;
use vstd::utf8::is_ascii_chars;
use crate::error::ParseError;
use crate::geometry::GeometryView;
use crate::text::ascii_uppercase;
use crate::tokenizer::Lexeme;
use crate::types::coord::CoordView;

verus! {

/// What a rule gives: a value or the first failure, and the number of lexemes
/// read up to there.
pub struct Parsed<A> {
    pub value: Result<A, ParseError>,
    pub used: nat,
}

/// The first lexeme, if there is one.
pub open spec fn first(lexemes: Seq<Lexeme>) -> Option<Lexeme> {
    if lexemes.len() > 0 {
        Some(lexemes[0])
    } else {
        None
    }
}

/// The lexemes that follow the first `n`; none where there are not so many.
pub open spec fn drop(lexemes: Seq<Lexeme>, n: nat) -> Seq<Lexeme> {
    if n <= lexemes.len() {
        lexemes.skip(n as int)
    } else {
        Seq::empty()
    }
}

/// A result behind `n` lexemes that were read before it: they count as read.
pub open spec fn after<A>(n: nat, parsed: Parsed<A>) -> Parsed<A> {
    Parsed { value: parsed.value, used: n + parsed.used }
}

/// The result of a rule with its value, where it has one, changed by `f`.
pub open spec fn map<A, B>(parsed: Parsed<A>, f: spec_fn(A) -> B) -> Parsed<B> {
    Parsed {
        value: match parsed.value {
            Ok(a) => Ok(f(a)),
            Err(e) => Err(e),
        },
        used: parsed.used,
    }
}

/// A coordinate: two numbers, X then Y.
pub open spec fn coord(lexemes: Seq<Lexeme>) -> Parsed<CoordView> {
    match first(lexemes) {
        None => Parsed { value: Err(ParseError::ExpectedX), used: 0 },
        Some(Lexeme::Malformed) => Parsed { value: Err(ParseError::MalformedNumber), used: 1 },
        Some(Lexeme::Number(x)) => match first(drop(lexemes, 1)) {
            None => Parsed { value: Err(ParseError::ExpectedY), used: 1 },
            Some(Lexeme::Malformed) => Parsed { value: Err(ParseError::MalformedNumber), used: 2 },
            Some(Lexeme::Number(y)) => Parsed {
                value: Ok(CoordView { x, y, z: None, m: None }),
                used: 2,
            },
            Some(_) => Parsed { value: Err(ParseError::ExpectedY), used: 2 },
        },
        Some(_) => Parsed { value: Err(ParseError::ExpectedX), used: 1 },
    }
}

/// The word `EMPTY`, in any mix of upper and lower case.
pub open spec fn is_empty_word(word: Seq<char>) -> bool {
    ascii_uppercase(word) == "EMPTY"@
}

/// How a body opens.
pub enum Opening {
    /// With `(`: the fields follow.
    Paren,
    /// With the word `EMPTY`: there are no fields.
    Empty,
    /// With neither: the failure, and the number of lexemes read.
    Failed(ParseError, nat),
}

/// How the body at the front of `lexemes` opens.
pub open spec fn opening(lexemes: Seq<Lexeme>) -> Opening {
    match first(lexemes) {
        None => Opening::Failed(ParseError::MissingOpenParen, 0),
        Some(Lexeme::Malformed) => Opening::Failed(ParseError::MalformedNumber, 1),
        Some(Lexeme::ParenOpen) => Opening::Paren,
        Some(Lexeme::Word(word)) => if is_empty_word(word) {
            Opening::Empty
        } else {
            Opening::Failed(ParseError::MissingOpenParen, 1)
        },
        Some(_) => Opening::Failed(ParseError::MissingOpenParen, 1),
    }
}

/// The `)` that ends a body, at the front of `lexemes`: nothing is the
/// value, and a failure where something else stands there.
pub open spec fn closing(lexemes: Seq<Lexeme>) -> Parsed<()> {
    match first(lexemes) {
        None => Parsed { value: Err(ParseError::MissingCloseParen), used: 0 },
        Some(Lexeme::Malformed) => Parsed { value: Err(ParseError::MalformedNumber), used: 1 },
        Some(Lexeme::ParenClose) => Parsed { value: Ok(()), used: 1 },
        Some(_) => Parsed { value: Err(ParseError::MissingCloseParen), used: 1 },
    }
}

/// A body whose `(` has been read: the fields, which `fields` stands for as
/// they were read from `lexemes`, and then `)`. A failure in the fields is
/// the failure of the body.
pub open spec fn enclosed<A>(fields: Parsed<A>, lexemes: Seq<Lexeme>) -> Parsed<A> {
    match fields.value {
        Err(e) => fields,
        Ok(a) => Parsed {
            value: match closing(drop(lexemes, fields.used)).value {
                Ok(_) => Ok(a),
                Err(e) => Err(e),
            },
            used: fields.used + closing(drop(lexemes, fields.used)).used,
        },
    }
}

/// A body: `EMPTY`, which gives `empty`, or the fields in parentheses.
pub open spec fn with_parens<A>(
    fields: spec_fn(Seq<Lexeme>) -> Parsed<A>,
    empty: A,
    lexemes: Seq<Lexeme>,
) -> Parsed<A> {
    match opening(lexemes) {
        Opening::Failed(e, used) => Parsed { value: Err(e), used },
        Opening::Empty => Parsed { value: Ok(empty), used: 1 },
        Opening::Paren => after(1, enclosed(fields(drop(lexemes, 1)), drop(lexemes, 1))),
    }
}

/// The rule of the items of a list: bodies where `wrapped` is set, else bare
/// fields.
pub open spec fn item_rule<A>(
    fields: spec_fn(Seq<Lexeme>) -> Parsed<A>,
    empty: A,
    wrapped: bool,
) -> spec_fn(Seq<Lexeme>) -> Parsed<A> {
    |lexemes: Seq<Lexeme>|
        if wrapped {
            with_parens(fields, empty, lexemes)
        } else {
            fields(lexemes)
        }
}

/// An item put in front of the items that follow it.
pub open spec fn cons<A>(item: A, used: nat, more: Parsed<Seq<A>>) -> Parsed<Seq<A>> {
    Parsed {
        value: match more.value {
            Ok(items) => Ok(seq![item] + items),
            Err(e) => Err(e),
        },
        used: used + more.used,
    }
}

/// What follows an item of a list: as long as a comma comes next, the comma
/// and one more item.
pub open spec fn comma_more<A>(
    item: spec_fn(Seq<Lexeme>) -> Parsed<A>,
    lexemes: Seq<Lexeme>,
) -> Parsed<Seq<A>>
    decreases lexemes.len(),
{
    if first(lexemes) == Some(Lexeme::Comma) {
        let next = item(drop(lexemes, 1));
        match next.value {
            Err(e) => Parsed { value: Err(e), used: 1 + next.used },
            Ok(a) => cons(a, 1 + next.used, comma_more(item, drop(lexemes, 1 + next.used))),
        }
    } else {
        Parsed { value: Ok(Seq::empty()), used: 0 }
    }
}

/// A list: one item or more, with commas between them.
pub open spec fn comma_many<A>(
    item: spec_fn(Seq<Lexeme>) -> Parsed<A>,
    lexemes: Seq<Lexeme>,
) -> Parsed<Seq<A>> {
    let head = item(lexemes);
    match head.value {
        Err(e) => Parsed { value: Err(e), used: head.used },
        Ok(a) => cons(a, head.used, comma_more(item, drop(lexemes, head.used))),
    }
}

/// The fields of a point: one coordinate.
pub open spec fn point_fields(lexemes: Seq<Lexeme>) -> Parsed<Option<CoordView>> {
    map(coord(lexemes), |c: CoordView| Some(c))
}

/// A point in its parentheses, or `EMPTY`.
#[verifier::opaque]
pub open spec fn point(lexemes: Seq<Lexeme>) -> Parsed<Option<CoordView>> {
    with_parens(|l: Seq<Lexeme>| point_fields(l), None, lexemes)
}

/// The fields of a line string: a list of coordinates.
#[verifier::opaque]
pub open spec fn linestring_fields(lexemes: Seq<Lexeme>) -> Parsed<Seq<CoordView>> {
    comma_many(|l: Seq<Lexeme>| coord(l), lexemes)
}

/// A line string in its parentheses, or `EMPTY`.
#[verifier::opaque]
pub open spec fn linestring(lexemes: Seq<Lexeme>) -> Parsed<Seq<CoordView>> {
    with_parens(|l: Seq<Lexeme>| linestring_fields(l), Seq::empty(), lexemes)
}

/// The fields of a polygon: a list of rings, each a line string in its
/// parentheses.
#[verifier::opaque]
pub open spec fn polygon_fields(lexemes: Seq<Lexeme>) -> Parsed<Seq<Seq<CoordView>>> {
    comma_many(|l: Seq<Lexeme>| linestring(l), lexemes)
}

/// A polygon in its parentheses, or `EMPTY`.
#[verifier::opaque]
pub open spec fn polygon(lexemes: Seq<Lexeme>) -> Parsed<Seq<Seq<CoordView>>> {
    with_parens(|l: Seq<Lexeme>| polygon_fields(l), Seq::empty(), lexemes)
}

/// The fields of a multi-point: a list of points, each in its parentheses.
#[verifier::opaque]
pub open spec fn multipoint_fields(lexemes: Seq<Lexeme>) -> Parsed<Seq<Option<CoordView>>> {
    comma_many(|l: Seq<Lexeme>| point(l), lexemes)
}

/// A multi-point in its parentheses, or `EMPTY`.
#[verifier::opaque]
pub open spec fn multipoint(lexemes: Seq<Lexeme>) -> Parsed<Seq<Option<CoordView>>> {
    with_parens(|l: Seq<Lexeme>| multipoint_fields(l), Seq::empty(), lexemes)
}

/// The fields of a multi-line-string: a list of line strings, each in its
/// parentheses.
#[verifier::opaque]
pub open spec fn multilinestring_fields(lexemes: Seq<Lexeme>) -> Parsed<Seq<Seq<CoordView>>> {
    comma_many(|l: Seq<Lexeme>| linestring(l), lexemes)
}

/// A multi-line-string in its parentheses, or `EMPTY`.
#[verifier::opaque]
pub open spec fn multilinestring(lexemes: Seq<Lexeme>) -> Parsed<Seq<Seq<CoordView>>> {
    with_parens(|l: Seq<Lexeme>| multilinestring_fields(l), Seq::empty(), lexemes)
}

/// The fields of a multi-polygon: a list of polygons, each in its
/// parentheses.
#[verifier::opaque]
pub open spec fn multipolygon_fields(lexemes: Seq<Lexeme>) -> Parsed<Seq<Seq<Seq<CoordView>>>> {
    comma_many(|l: Seq<Lexeme>| polygon(l), lexemes)
}

/// A multi-polygon in its parentheses, or `EMPTY`.
#[verifier::opaque]
pub open spec fn multipolygon(lexemes: Seq<Lexeme>) -> Parsed<Seq<Seq<Seq<CoordView>>>> {
    with_parens(|l: Seq<Lexeme>| multipolygon_fields(l), Seq::empty(), lexemes)
}

/// The kinds of geometry.
#[derive(Clone, Copy, Debug, PartialEq, Eq, Structural)]
pub enum Kind {
    Point,
    LineString,
    Polygon,
    MultiPoint,
    MultiLineString,
    MultiPolygon,
    GeometryCollection,
}

/// The kind that a keyword names. Keywords are in upper case.
pub open spec fn kind_of(word: Seq<char>) -> Option<Kind> {
    if word == "POINT"@ {
        Some(Kind::Point)
    } else if word == "LINESTRING"@ {
        Some(Kind::LineString)
    } else if word == "POLYGON"@ {
        Some(Kind::Polygon)
    } else if word == "MULTIPOINT"@ {
        Some(Kind::MultiPoint)
    } else if word == "MULTILINESTRING"@ {
        Some(Kind::MultiLineString)
    } else if word == "MULTIPOLYGON"@ {
        Some(Kind::MultiPolygon)
    } else if word == "GEOMETRYCOLLECTION"@ {
        Some(Kind::GeometryCollection)
    } else {
        None
    }
}

/// A geometry: a word that names a kind, in any mix of upper and lower case,
/// and the body of that kind.
pub open spec fn geometry(lexemes: Seq<Lexeme>) -> Parsed<GeometryView>
    decreases lexemes.len(), 0nat,
{
    match first(lexemes) {
        None => Parsed { value: Err(ParseError::InvalidFormat), used: 0 },
        Some(Lexeme::Malformed) => Parsed { value: Err(ParseError::MalformedNumber), used: 1 },
        Some(Lexeme::Word(word)) => if !is_ascii_chars(word) {
            Parsed { value: Err(ParseError::NonAsciiWord), used: 1 }
        } else {
            after(1, body(ascii_uppercase(word), drop(lexemes, 1)))
        },
        Some(_) => Parsed { value: Err(ParseError::InvalidFormat), used: 1 },
    }
}

/// The body that follows the keyword `word`.
pub open spec fn body(word: Seq<char>, lexemes: Seq<Lexeme>) -> Parsed<GeometryView>
    decreases lexemes.len(), 3nat,
{
    match kind_of(word) {
        None => Parsed { value: Err(ParseError::InvalidType), used: 0 },
        Some(Kind::Point) => map(point(lexemes), |p: Option<CoordView>| GeometryView::Point(p)),
        Some(Kind::LineString) => map(
            linestring(lexemes),
            |l: Seq<CoordView>| GeometryView::LineString(l),
        ),
        Some(Kind::Polygon) => map(
            polygon(lexemes),
            |p: Seq<Seq<CoordView>>| GeometryView::Polygon(p),
        ),
        Some(Kind::MultiPoint) => map(
            multipoint(lexemes),
            |p: Seq<Option<CoordView>>| GeometryView::MultiPoint(p),
        ),
        Some(Kind::MultiLineString) => map(
            multilinestring(lexemes),
            |l: Seq<Seq<CoordView>>| GeometryView::MultiLineString(l),
        ),
        Some(Kind::MultiPolygon) => map(
            multipolygon(lexemes),
            |p: Seq<Seq<Seq<CoordView>>>| GeometryView::MultiPolygon(p),
        ),
        Some(Kind::GeometryCollection) => map(
            collection(lexemes),
            |m: Seq<GeometryView>| GeometryView::GeometryCollection(m),
        ),
    }
}

/// A collection in its parentheses, or `EMPTY`.
pub open spec fn collection(lexemes: Seq<Lexeme>) -> Parsed<Seq<GeometryView>>
    decreases lexemes.len(), 2nat,
{
    match opening(lexemes) {
        Opening::Failed(e, used) => Parsed { value: Err(e), used },
        Opening::Empty => Parsed { value: Ok(Seq::empty()), used: 1 },
        Opening::Paren => after(1, enclosed(collection_fields(drop(lexemes, 1)), drop(lexemes, 1))),
    }
}

/// The fields of a collection: a list of geometries, each with its keyword.
pub open spec fn collection_fields(lexemes: Seq<Lexeme>) -> Parsed<Seq<GeometryView>>
    decreases lexemes.len(), 1nat,
{
    let head = geometry(lexemes);
    match head.value {
        Err(e) => Parsed { value: Err(e), used: head.used },
        Ok(g) => cons(g, head.used, more_members(drop(lexemes, head.used))),
    }
}

/// What follows a member of a collection: as long as a comma comes next, the
/// comma and one more geometry.
pub open spec fn more_members(lexemes: Seq<Lexeme>) -> Parsed<Seq<GeometryView>>
    decreases lexemes.len(), 0nat,
{
    if first(lexemes) == Some(Lexeme::Comma) {
        let next = geometry(drop(lexemes, 1));
        match next.value {
            Err(e) => Parsed { value: Err(e), used: 1 + next.used },
            Ok(g) => cons(g, 1 + next.used, more_members(drop(lexemes, 1 + next.used))),
        }
    } else {
        Parsed { value: Ok(Seq::empty()), used: 0 }
    }
}

/// What the lexemes of a whole text give: nothing where there is no lexeme,
/// else the one geometry at the front. What follows that geometry is not
/// read.
pub open spec fn wkt(lexemes: Seq<Lexeme>) -> Result<Seq<GeometryView>, ParseError> {
    if lexemes.len() == 0 {
        Ok(Seq::empty())
    } else {
        match geometry(lexemes).value {
            Ok(g) => Ok(seq![g]),
            Err(e) => Err(e),
        }
    }
}

/// What a text gives: what its lexemes give.
pub open spec fn parse(text: Seq<char>) -> Result<Seq<GeometryView>, ParseError> {
    wkt(crate::tokenizer::lex(text))
}

/// A rule that never reads more lexemes than there are.
pub open spec fn bounded<A>(rule: spec_fn(Seq<Lexeme>) -> Parsed<A>) -> bool {
    forall|lexemes: Seq<Lexeme>| (#[trigger] rule(lexemes)).used <= lexemes.len()
}

/// A body is bounded where its fields are.
pub proof fn lemma_with_parens_bounded<A>(
    fields: spec_fn(Seq<Lexeme>) -> Parsed<A>,
    empty: A,
    lexemes: Seq<Lexeme>,
)
    requires
        bounded(fields),
    ensures
        with_parens(fields, empty, lexemes).used <= lexemes.len(),
{
    if lexemes.len() > 0 {
        assert(fields(drop(lexemes, 1)).used <= drop(lexemes, 1).len());
    }
}

/// What follows an item of a list is bounded where the items are.
pub proof fn lemma_comma_more_bounded<A>(
    item: spec_fn(Seq<Lexeme>) -> Parsed<A>,
    lexemes: Seq<Lexeme>,
)
    requires
        bounded(item),
    ensures
        comma_more(item, lexemes).used <= lexemes.len(),
    decreases lexemes.len(),
{
    if lexemes.len() > 0 && lexemes[0] == Lexeme::Comma {
        let next = item(drop(lexemes, 1));
        assert(next.used <= drop(lexemes, 1).len());
        if next.value is Ok {
            lemma_comma_more_bounded(item, drop(lexemes, 1 + next.used));
        }
    }
}

/// A list is bounded where its items are.
pub proof fn lemma_comma_many_bounded<A>(
    item: spec_fn(Seq<Lexeme>) -> Parsed<A>,
    lexemes: Seq<Lexeme>,
)
    requires
        bounded(item),
    ensures
        comma_many(item, lexemes).used <= lexemes.len(),
{
    let head = item(lexemes);
    assert(head.used <= lexemes.len());
    if head.value is Ok {
        lemma_comma_more_bounded(item, drop(lexemes, head.used));
    }
}

/// The rules of the kinds that hold no geometry read no more lexemes than
/// there are.
pub proof fn lemma_flat_rules_bounded()
    ensures
        bounded(|l: Seq<Lexeme>| coord(l)),
        bounded(|l: Seq<Lexeme>| point(l)),
        bounded(|l: Seq<Lexeme>| linestring(l)),
        bounded(|l: Seq<Lexeme>| polygon(l)),
        bounded(|l: Seq<Lexeme>| multipoint(l)),
        bounded(|l: Seq<Lexeme>| multilinestring(l)),
        bounded(|l: Seq<Lexeme>| multipolygon(l)),
{
    reveal(point);
    reveal(linestring);
    reveal(polygon);
    reveal(multipoint);
    reveal(multilinestring);
    reveal(multipolygon);
    reveal(linestring_fields);
    reveal(polygon_fields);
    reveal(multipoint_fields);
    reveal(multilinestring_fields);
    reveal(multipolygon_fields);
    let c = |l: Seq<Lexeme>| coord(l);
    assert(bounded(c));
    let pf = |l: Seq<Lexeme>| point_fields(l);
    assert(bounded(pf));
    let p = |l: Seq<Lexeme>| point(l);
    assert forall|l: Seq<Lexeme>| (#[trigger] p(l)).used <= l.len() by {
        lemma_with_parens_bounded(pf, None, l);
    }
    let lf = |l: Seq<Lexeme>| linestring_fields(l);
    assert forall|l: Seq<Lexeme>| (#[trigger] lf(l)).used <= l.len() by {
        lemma_comma_many_bounded(c, l);
    }
    let ls = |l: Seq<Lexeme>| linestring(l);
    assert forall|l: Seq<Lexeme>| (#[trigger] ls(l)).used <= l.len() by {
        lemma_with_parens_bounded(lf, Seq::empty(), l);
    }
    let gf = |l: Seq<Lexeme>| polygon_fields(l);
    assert forall|l: Seq<Lexeme>| (#[trigger] gf(l)).used <= l.len() by {
        lemma_comma_many_bounded(ls, l);
    }
    let g = |l: Seq<Lexeme>| polygon(l);
    assert forall|l: Seq<Lexeme>| (#[trigger] g(l)).used <= l.len() by {
        lemma_with_parens_bounded(gf, Seq::empty(), l);
    }
    let mpf = |l: Seq<Lexeme>| multipoint_fields(l);
    assert forall|l: Seq<Lexeme>| (#[trigger] mpf(l)).used <= l.len() by {
        lemma_comma_many_bounded(p, l);
    }
    let mp = |l: Seq<Lexeme>| multipoint(l);
    assert forall|l: Seq<Lexeme>| (#[trigger] mp(l)).used <= l.len() by {
        lemma_with_parens_bounded(mpf, Seq::empty(), l);
    }
    let mlf = |l: Seq<Lexeme>| multilinestring_fields(l);
    assert forall|l: Seq<Lexeme>| (#[trigger] mlf(l)).used <= l.len() by {
        lemma_comma_many_bounded(ls, l);
    }
    let ml = |l: Seq<Lexeme>| multilinestring(l);
    assert forall|l: Seq<Lexeme>| (#[trigger] ml(l)).used <= l.len() by {
        lemma_with_parens_bounded(mlf, Seq::empty(), l);
    }
    let mgf = |l: Seq<Lexeme>| multipolygon_fields(l);
    assert forall|l: Seq<Lexeme>| (#[trigger] mgf(l)).used <= l.len() by {
        lemma_comma_many_bounded(g, l);
    }
    let mg = |l: Seq<Lexeme>| multipolygon(l);
    assert forall|l: Seq<Lexeme>| (#[trigger] mg(l)).used <= l.len() by {
        lemma_with_parens_bounded(mgf, Seq::empty(), l);
    }
}

/// A geometry reads no more lexemes than there are.
pub proof fn law_geometry_bounded(lexemes: Seq<Lexeme>)
    ensures
        geometry(lexemes).used <= lexemes.len(),
    decreases lexemes.len(), 0nat,
{
    if lexemes.len() > 0 {
        match lexemes[0] {
            Lexeme::Word(word) => {
                if is_ascii_chars(word) {
                    lemma_body_bounded(ascii_uppercase(word), drop(lexemes, 1));
                }
            },
            _ => {},
        }
    }
}

/// The body of a geometry reads no more lexemes than there are.
pub proof fn lemma_body_bounded(word: Seq<char>, lexemes: Seq<Lexeme>)
    ensures
        body(word, lexemes).used <= lexemes.len(),
    decreases lexemes.len(), 3nat,
{
    lemma_flat_rules_bounded();
    assert((|l: Seq<Lexeme>| point(l))(lexemes).used <= lexemes.len());
    assert((|l: Seq<Lexeme>| linestring(l))(lexemes).used <= lexemes.len());
    assert((|l: Seq<Lexeme>| polygon(l))(lexemes).used <= lexemes.len());
    assert((|l: Seq<Lexeme>| multipoint(l))(lexemes).used <= lexemes.len());
    assert((|l: Seq<Lexeme>| multilinestring(l))(lexemes).used <= lexemes.len());
    assert((|l: Seq<Lexeme>| multipolygon(l))(lexemes).used <= lexemes.len());
    if kind_of(word) == Some(Kind::GeometryCollection) {
        lemma_collection_bounded(lexemes);
    }
}

/// A collection reads no more lexemes than there are.
pub proof fn lemma_collection_bounded(lexemes: Seq<Lexeme>)
    ensures
        collection(lexemes).used <= lexemes.len(),
    decreases lexemes.len(), 2nat,
{
    if lexemes.len() > 0 && lexemes[0] == Lexeme::ParenOpen {
        lemma_members_bounded(drop(lexemes, 1));
    }
}

/// The members of a collection read no more lexemes than there are.
pub proof fn lemma_members_bounded(lexemes: Seq<Lexeme>)
    ensures
        collection_fields(lexemes).used <= lexemes.len(),
    decreases lexemes.len(), 1nat,
{
    law_geometry_bounded(lexemes);
    let head = geometry(lexemes);
    if head.value is Ok {
        lemma_more_members_bounded(drop(lexemes, head.used));
    }
}

/// What follows a member of a collection reads no more lexemes than there
/// are.
pub proof fn lemma_more_members_bounded(lexemes: Seq<Lexeme>)
    ensures
        more_members(lexemes).used <= lexemes.len(),
    decreases lexemes.len(), 0nat,
{
    if lexemes.len() > 0 && lexemes[0] == Lexeme::Comma {
        let rest = drop(lexemes, 1);
        law_geometry_bounded(rest);
        let next = geometry(rest);
        if next.value is Ok {
            lemma_more_members_bounded(drop(lexemes, 1 + next.used));
        }
    }
}

/// A rule that, where it gives a value, gives the same whatever follows
/// the lexemes.
pub open spec fn settled<A>(rule: spec_fn(Seq<Lexeme>) -> Parsed<A>) -> bool {
    forall|lexemes: Seq<Lexeme>, more: Seq<Lexeme>|
        rule(lexemes).value is Ok ==> #[trigger] rule(lexemes + more) == rule(lexemes)
}

/// A rule that, where it gives a value and a lexeme is left, gives the same
/// whatever follows the lexemes.
pub open spec fn settled_before_end<A>(rule: spec_fn(Seq<Lexeme>) -> Parsed<A>) -> bool {
    forall|lexemes: Seq<Lexeme>, more: Seq<Lexeme>|
        rule(lexemes).value is Ok && rule(lexemes).used < lexemes.len() ==> #[trigger] rule(
            lexemes + more,
        ) == rule(lexemes)
}

/// Dropping lexemes that are there leaves what follows in place.
pub proof fn lemma_drop_of_more(lexemes: Seq<Lexeme>, more: Seq<Lexeme>, n: nat)
    requires
        n <= lexemes.len(),
    ensures
        drop(lexemes + more, n) == drop(lexemes, n) + more,
{
    assert(drop(lexemes + more, n) =~= drop(lexemes, n) + more);
}

/// A body is settled where its fields are bounded and settled before the
/// end.
pub proof fn lemma_with_parens_settled<A>(
    fields: spec_fn(Seq<Lexeme>) -> Parsed<A>,
    empty: A,
    lexemes: Seq<Lexeme>,
    more: Seq<Lexeme>,
)
    requires
        bounded(fields),
        settled_before_end(fields),
        with_parens(fields, empty, lexemes).value is Ok,
    ensures
        with_parens(fields, empty, lexemes + more) == with_parens(fields, empty, lexemes),
{
    assert((lexemes + more)[0] == lexemes[0]);
    if lexemes[0] == Lexeme::ParenOpen {
        let inner = drop(lexemes, 1);
        let read = fields(inner);
        assert(read.used <= inner.len());
        lemma_drop_of_more(lexemes, more, 1);
        assert(fields(inner + more) == read);
        lemma_drop_of_more(inner, more, read.used);
        assert(drop(inner, read.used).len() > 0);
        assert((drop(inner, read.used) + more)[0] == drop(inner, read.used)[0]);
    }
}

/// What follows an item of a list is settled before the end where the items
/// are bounded and settled.
pub proof fn lemma_comma_more_settled<A>(
    item: spec_fn(Seq<Lexeme>) -> Parsed<A>,
    lexemes: Seq<Lexeme>,
    more: Seq<Lexeme>,
)
    requires
        bounded(item),
        settled(item),
        comma_more(item, lexemes).value is Ok,
        comma_more(item, lexemes).used < lexemes.len(),
    ensures
        comma_more(item, lexemes + more) == comma_more(item, lexemes),
    decreases lexemes.len(),
{
    assert((lexemes + more)[0] == lexemes[0]);
    if lexemes[0] == Lexeme::Comma {
        let inner = drop(lexemes, 1);
        let next = item(inner);
        assert(next.used <= inner.len());
        lemma_drop_of_more(lexemes, more, 1);
        assert(item(inner + more) == next);
        lemma_drop_of_more(lexemes, more, 1 + next.used);
        lemma_comma_more_settled(item, drop(lexemes, 1 + next.used), more);
    }
}

/// A list is settled before the end where its items are bounded and
/// settled.
pub proof fn lemma_comma_many_settled<A>(
    item: spec_fn(Seq<Lexeme>) -> Parsed<A>,
    lexemes: Seq<Lexeme>,
    more: Seq<Lexeme>,
)
    requires
        bounded(item),
        settled(item),
        comma_many(item, lexemes).value is Ok,
        comma_many(item, lexemes).used < lexemes.len(),
    ensures
        comma_many(item, lexemes + more) == comma_many(item, lexemes),
{
    let head = item(lexemes);
    assert(head.used <= lexemes.len());
    assert(item(lexemes + more) == head);
    lemma_drop_of_more(lexemes, more, head.used);
    lemma_comma_more_settled(item, drop(lexemes, head.used), more);
}

/// The rules of the kinds that hold no geometry are settled.
pub proof fn lemma_flat_rules_settled()
    ensures
        settled(|l: Seq<Lexeme>| coord(l)),
        settled(|l: Seq<Lexeme>| point(l)),
        settled(|l: Seq<Lexeme>| linestring(l)),
        settled(|l: Seq<Lexeme>| polygon(l)),
        settled(|l: Seq<Lexeme>| multipoint(l)),
        settled(|l: Seq<Lexeme>| multilinestring(l)),
        settled(|l: Seq<Lexeme>| multipolygon(l)),
{
    lemma_flat_rules_bounded();
    reveal(point);
    reveal(linestring);
    reveal(polygon);
    reveal(multipoint);
    reveal(multilinestring);
    reveal(multipolygon);
    reveal(linestring_fields);
    reveal(polygon_fields);
    reveal(multipoint_fields);
    reveal(multilinestring_fields);
    reveal(multipolygon_fields);
    let c = |l: Seq<Lexeme>| coord(l);
    assert forall|l: Seq<Lexeme>, m: Seq<Lexeme>| c(l).value is Ok implies #[trigger] c(l + m)
        == c(l) by {
        assert((l + m)[0] == l[0]);
        assert(drop(l + m, 1)[0] == drop(l, 1)[0]);
    }
    let pf = |l: Seq<Lexeme>| point_fields(l);
    assert forall|l: Seq<Lexeme>, m: Seq<Lexeme>|
        pf(l).value is Ok && pf(l).used < l.len() implies #[trigger] pf(l + m) == pf(l) by {
        assert(c(l + m) == c(l));
    }
    assert(bounded(pf));
    let p = |l: Seq<Lexeme>| point(l);
    assert forall|l: Seq<Lexeme>, m: Seq<Lexeme>| p(l).value is Ok implies #[trigger] p(l + m)
        == p(l) by {
        lemma_with_parens_settled(pf, None, l, m);
    }
    let lf = |l: Seq<Lexeme>| linestring_fields(l);
    assert forall|l: Seq<Lexeme>| (#[trigger] lf(l)).used <= l.len() by {
        lemma_comma_many_bounded(c, l);
    }
    assert forall|l: Seq<Lexeme>, m: Seq<Lexeme>|
        lf(l).value is Ok && lf(l).used < l.len() implies #[trigger] lf(l + m) == lf(l) by {
        lemma_comma_many_settled(c, l, m);
    }
    let ls = |l: Seq<Lexeme>| linestring(l);
    assert forall|l: Seq<Lexeme>, m: Seq<Lexeme>| ls(l).value is Ok implies #[trigger] ls(l + m)
        == ls(l) by {
        lemma_with_parens_settled(lf, Seq::empty(), l, m);
    }
    let gf = |l: Seq<Lexeme>| polygon_fields(l);
    assert forall|l: Seq<Lexeme>| (#[trigger] gf(l)).used <= l.len() by {
        lemma_comma_many_bounded(ls, l);
    }
    assert forall|l: Seq<Lexeme>, m: Seq<Lexeme>|
        gf(l).value is Ok && gf(l).used < l.len() implies #[trigger] gf(l + m) == gf(l) by {
        lemma_comma_many_settled(ls, l, m);
    }
    let g = |l: Seq<Lexeme>| polygon(l);
    assert forall|l: Seq<Lexeme>, m: Seq<Lexeme>| g(l).value is Ok implies #[trigger] g(l + m)
        == g(l) by {
        lemma_with_parens_settled(gf, Seq::empty(), l, m);
    }
    let mpf = |l: Seq<Lexeme>| multipoint_fields(l);
    assert forall|l: Seq<Lexeme>| (#[trigger] mpf(l)).used <= l.len() by {
        lemma_comma_many_bounded(p, l);
    }
    assert forall|l: Seq<Lexeme>, m: Seq<Lexeme>|
        mpf(l).value is Ok && mpf(l).used < l.len() implies #[trigger] mpf(l + m) == mpf(l) by {
        lemma_comma_many_settled(p, l, m);
    }
    let mp = |l: Seq<Lexeme>| multipoint(l);
    assert forall|l: Seq<Lexeme>, m: Seq<Lexeme>| mp(l).value is Ok implies #[trigger] mp(l + m)
        == mp(l) by {
        lemma_with_parens_settled(mpf, Seq::empty(), l, m);
    }
    let mlf = |l: Seq<Lexeme>| multilinestring_fields(l);
    assert forall|l: Seq<Lexeme>| (#[trigger] mlf(l)).used <= l.len() by {
        lemma_comma_many_bounded(ls, l);
    }
    assert forall|l: Seq<Lexeme>, m: Seq<Lexeme>|
        mlf(l).value is Ok && mlf(l).used < l.len() implies #[trigger] mlf(l + m) == mlf(l) by {
        lemma_comma_many_settled(ls, l, m);
    }
    let ml = |l: Seq<Lexeme>| multilinestring(l);
    assert forall|l: Seq<Lexeme>, m: Seq<Lexeme>| ml(l).value is Ok implies #[trigger] ml(l + m)
        == ml(l) by {
        lemma_with_parens_settled(mlf, Seq::empty(), l, m);
    }
    let mgf = |l: Seq<Lexeme>| multipolygon_fields(l);
    assert forall|l: Seq<Lexeme>| (#[trigger] mgf(l)).used <= l.len() by {
        lemma_comma_many_bounded(g, l);
    }
    assert forall|l: Seq<Lexeme>, m: Seq<Lexeme>|
        mgf(l).value is Ok && mgf(l).used < l.len() implies #[trigger] mgf(l + m) == mgf(l) by {
        lemma_comma_many_settled(g, l, m);
    }
    let mg = |l: Seq<Lexeme>| multipolygon(l);
    assert forall|l: Seq<Lexeme>, m: Seq<Lexeme>| mg(l).value is Ok implies #[trigger] mg(l + m)
        == mg(l) by {
        lemma_with_parens_settled(mgf, Seq::empty(), l, m);
    }
}

/// What follows a geometry is not read: where the lexemes give a geometry,
/// they give the same with any lexemes behind them.
pub proof fn law_geometry_settled(lexemes: Seq<Lexeme>, more: Seq<Lexeme>)
    requires
        geometry(lexemes).value is Ok,
    ensures
        geometry(lexemes + more) == geometry(lexemes),
    decreases lexemes.len(), 0nat,
{
    assert((lexemes + more)[0] == lexemes[0]);
    match lexemes[0] {
        Lexeme::Word(word) => {
            lemma_drop_of_more(lexemes, more, 1);
            lemma_body_settled(ascii_uppercase(word), drop(lexemes, 1), more);
        },
        _ => {},
    }
}

/// What follows the one geometry of a text is not read: lexemes that give a
/// geometry give the same container with any lexemes behind them.
pub proof fn law_rest_not_read(lexemes: Seq<Lexeme>, more: Seq<Lexeme>)
    requires
        lexemes.len() > 0,
        wkt(lexemes) is Ok,
    ensures
        wkt(lexemes + more) == wkt(lexemes),
{
    law_geometry_settled(lexemes, more);
}

/// What follows the body of a geometry is not read.
pub proof fn lemma_body_settled(word: Seq<char>, lexemes: Seq<Lexeme>, more: Seq<Lexeme>)
    requires
        body(word, lexemes).value is Ok,
    ensures
        body(word, lexemes + more) == body(word, lexemes),
    decreases lexemes.len(), 3nat,
{
    lemma_flat_rules_settled();
    assert((|l: Seq<Lexeme>| point(l))(lexemes).value is Ok ==> (|l: Seq<Lexeme>| point(l))(
        lexemes + more,
    ) == (|l: Seq<Lexeme>| point(l))(lexemes));
    assert((|l: Seq<Lexeme>| linestring(l))(lexemes).value is Ok ==> (|l: Seq<Lexeme>|
        linestring(l))(lexemes + more) == (|l: Seq<Lexeme>| linestring(l))(lexemes));
    assert((|l: Seq<Lexeme>| polygon(l))(lexemes).value is Ok ==> (|l: Seq<Lexeme>| polygon(l))(
        lexemes + more,
    ) == (|l: Seq<Lexeme>| polygon(l))(lexemes));
    assert((|l: Seq<Lexeme>| multipoint(l))(lexemes).value is Ok ==> (|l: Seq<Lexeme>|
        multipoint(l))(lexemes + more) == (|l: Seq<Lexeme>| multipoint(l))(lexemes));
    assert((|l: Seq<Lexeme>| multilinestring(l))(lexemes).value is Ok ==> (|l: Seq<Lexeme>|
        multilinestring(l))(lexemes + more) == (|l: Seq<Lexeme>| multilinestring(l))(lexemes));
    assert((|l: Seq<Lexeme>| multipolygon(l))(lexemes).value is Ok ==> (|l: Seq<Lexeme>|
        multipolygon(l))(lexemes + more) == (|l: Seq<Lexeme>| multipolygon(l))(lexemes));
    if kind_of(word) == Some(Kind::GeometryCollection) {
        lemma_collection_settled(lexemes, more);
    }
}

/// What follows a collection is not read.
pub proof fn lemma_collection_settled(lexemes: Seq<Lexeme>, more: Seq<Lexeme>)
    requires
        collection(lexemes).value is Ok,
    ensures
        collection(lexemes + more) == collection(lexemes),
    decreases lexemes.len(), 2nat,
{
    assert((lexemes + more)[0] == lexemes[0]);
    if lexemes[0] == Lexeme::ParenOpen {
        let inner = drop(lexemes, 1);
        let read = collection_fields(inner);
        lemma_members_bounded(inner);
        lemma_drop_of_more(lexemes, more, 1);
        lemma_drop_of_more(inner, more, read.used);
        assert(drop(inner, read.used).len() > 0);
        assert((drop(inner, read.used) + more)[0] == drop(inner, read.used)[0]);
        lemma_members_settled(inner, more);
    }
}

/// Where a lexeme is left behind the members of a collection, what follows
/// is not read.
pub proof fn lemma_members_settled(lexemes: Seq<Lexeme>, more: Seq<Lexeme>)
    requires
        collection_fields(lexemes).value is Ok,
        collection_fields(lexemes).used < lexemes.len(),
    ensures
        collection_fields(lexemes + more) == collection_fields(lexemes),
    decreases lexemes.len(), 1nat,
{
    let head = geometry(lexemes);
    law_geometry_bounded(lexemes);
    law_geometry_settled(lexemes, more);
    lemma_drop_of_more(lexemes, more, head.used);
    lemma_more_members_settled(drop(lexemes, head.used), more);
}

/// Where a lexeme is left behind the last member of a collection, what
/// follows is not read.
pub proof fn lemma_more_members_settled(lexemes: Seq<Lexeme>, more: Seq<Lexeme>)
    requires
        more_members(lexemes).value is Ok,
        more_members(lexemes).used < lexemes.len(),
    ensures
        more_members(lexemes + more) == more_members(lexemes),
    decreases lexemes.len(), 0nat,
{
    assert((lexemes + more)[0] == lexemes[0]);
    if lexemes[0] == Lexeme::Comma {
        let inner = drop(lexemes, 1);
        let next = geometry(inner);
        law_geometry_bounded(inner);
        lemma_drop_of_more(lexemes, more, 1);
        law_geometry_settled(inner, more);
        lemma_drop_of_more(lexemes, more, 1 + next.used);
        lemma_more_members_settled(drop(lexemes, 1 + next.used), more);
    }
}

} // verus!
