//! What holds of the parser and the converters together: what the text of a
//! point gives, and which geometries come back unchanged from the plain
//! geometry model.

use vstd::prelude::*;
use crate::geo;
use crate::geometry::GeometryView;
use crate::grammar::{
    collection, coord, drop, geometry, is_empty_word, kind_of, linestring, multilinestring,
    multipoint, multipolygon, parse, point, point_fields, polygon, Kind,
};
use crate::text::{ascii_upper, ascii_uppercase};
use crate::tokenizer::{delimiter, numberlike};
use vstd::utf8::is_ascii_chars;
use crate::number::is_decimal;
use crate::tokenizer::{
    law_lex_empty, law_lex_number, law_lex_punctuation, law_lex_whitespace, law_lex_word, lex,
    Lexeme,
};
use crate::togeo::{g_coord, g_geometry, g_linestring, g_members, g_points, g_polygon};
use crate::towkt::{w_coord, w_geometry, w_linestring, w_lines, w_polygon};
use crate::types::coord::CoordView;

verus! {

/// A coordinate of X and Y alone.
pub open spec fn planar(coord: CoordView) -> bool {
    coord.z is None && coord.m is None
}

/// A point that has its coordinate, a planar one.
pub open spec fn planar_point(point: Option<CoordView>) -> bool {
    point matches Some(coord) && planar(coord)
}

/// A line string of planar coordinates.
pub open spec fn planar_line(line: Seq<CoordView>) -> bool {
    forall|i: int| 0 <= i < line.len() ==> planar(#[trigger] line[i])
}

/// A polygon with a ring, all of its rings planar.
pub open spec fn ringed(rings: Seq<Seq<CoordView>>) -> bool {
    rings.len() > 0 && forall|i: int| 0 <= i < rings.len() ==> planar_line(#[trigger] rings[i])
}

/// The geometries that the plain model holds in full: every coordinate is
/// planar, every point has its coordinate, every polygon has a ring; in a
/// collection, every member is such a geometry.
pub open spec fn faithful(geometry: GeometryView) -> bool
    decreases geometry,
{
    match geometry {
        GeometryView::Point(point) => planar_point(point),
        GeometryView::LineString(line) => planar_line(line),
        GeometryView::Polygon(rings) => ringed(rings),
        GeometryView::MultiPoint(points) => forall|i: int|
            0 <= i < points.len() ==> planar_point(#[trigger] points[i]),
        GeometryView::MultiLineString(lines) => forall|i: int|
            0 <= i < lines.len() ==> planar_line(#[trigger] lines[i]),
        GeometryView::MultiPolygon(polygons) => forall|i: int|
            0 <= i < polygons.len() ==> ringed(#[trigger] polygons[i]),
        GeometryView::GeometryCollection(members) => all_faithful(members),
    }
}

/// Whether every one of the geometries is faithful.
pub open spec fn all_faithful(members: Seq<GeometryView>) -> bool
    decreases members,
{
    members.len() == 0 || (all_faithful(members.drop_last()) && faithful(members.last()))
}

/// A line string comes back unchanged exactly if it is planar.
pub proof fn lemma_line_round_trip(line: Seq<CoordView>)
    ensures
        w_linestring(g_linestring(line)) == line <==> planar_line(line),
{
    if planar_line(line) {
        assert(w_linestring(g_linestring(line)) =~= line);
    }
    if w_linestring(g_linestring(line)) == line {
        assert forall|i: int| 0 <= i < line.len() implies planar(#[trigger] line[i]) by {
            assert(w_linestring(g_linestring(line))[i] == w_coord(g_coord(line[i])));
        }
    }
}

/// A polygon comes back unchanged exactly if it has a ring and is planar.
pub proof fn lemma_polygon_round_trip(rings: Seq<Seq<CoordView>>)
    ensures
        w_polygon(g_polygon(rings)) == rings <==> ringed(rings),
{
    let back = w_polygon(g_polygon(rings));
    if rings.len() > 0 {
        assert(back.len() == rings.len());
        assert forall|i: int| 0 <= i < rings.len() implies #[trigger] back[i] == w_linestring(
            g_linestring(rings[i]),
        ) by {
            if i > 0 {
                assert(back[i] == w_lines(g_polygon(rings).interiors)[i - 1]);
                assert(rings.drop_first()[i - 1] == rings[i]);
            }
        }
        if ringed(rings) {
            assert forall|i: int| 0 <= i < rings.len() implies #[trigger] back[i] == rings[i] by {
                lemma_line_round_trip(rings[i]);
            }
            assert(back =~= rings);
        }
        if back == rings {
            assert forall|i: int| 0 <= i < rings.len() implies planar_line(
                #[trigger] rings[i],
            ) by {
                assert(back[i] == rings[i]);
                lemma_line_round_trip(rings[i]);
            }
        }
    } else {
        assert(back.len() == 1);
    }
}

/// Where every point has its coordinate, none is passed over.
pub proof fn lemma_points_all_kept(points: Seq<Option<CoordView>>)
    requires
        forall|i: int| 0 <= i < points.len() ==> (#[trigger] points[i]) is Some,
    ensures
        points.filter(|point: Option<CoordView>| point is Some) == points,
    decreases points.len(),
{
    let kept = |point: Option<CoordView>| point is Some;
    reveal(Seq::filter);
    if points.len() > 0 {
        lemma_points_all_kept(points.drop_last());
        assert(points.drop_last().push(points.last()) =~= points);
    } else {
        assert(points.filter(kept) =~= points);
    }
}

/// The members of a collection are converted one by one.
pub proof fn lemma_members_each(members: Seq<GeometryView>)
    ensures
        match g_members(members) {
            Ok(converted) => converted.len() == members.len() && forall|i: int|
                0 <= i < members.len() ==> g_geometry(#[trigger] members[i]) == Ok::<
                    geo::GeometryView,
                    crate::error::ConversionError,
                >(converted[i]),
            Err(_) => exists|i: int|
                0 <= i < members.len() && (#[trigger] g_geometry(members[i])) is Err,
        },
    decreases members.len(),
{
    if members.len() > 0 {
        let init = members.drop_last();
        lemma_members_each(init);
        match g_members(init) {
            Ok(converted) => {
                match g_geometry(members.last()) {
                    Ok(g) => {
                        assert forall|i: int| 0 <= i < members.len() implies g_geometry(
                            #[trigger] members[i],
                        ) == Ok::<geo::GeometryView, crate::error::ConversionError>(
                            converted.push(g)[i],
                        ) by {
                            if i < init.len() {
                                assert(members[i] == init[i]);
                            }
                        }
                    },
                    Err(_) => {
                        assert(g_geometry(members[members.len() - 1]) is Err);
                    },
                }
            },
            Err(_) => {
                let i = choose|i: int| 0 <= i < init.len() && (#[trigger] g_geometry(init[i])) is Err;
                assert(members[i] == init[i]);
            },
        }
    }
}

/// Every one of the geometries is faithful exactly if each is.
pub proof fn lemma_all_faithful_each(members: Seq<GeometryView>)
    ensures
        all_faithful(members) <==> forall|i: int|
            0 <= i < members.len() ==> faithful(#[trigger] members[i]),
    decreases members.len(),
{
    if members.len() > 0 {
        let init = members.drop_last();
        lemma_all_faithful_each(init);
        if all_faithful(members) {
            assert forall|i: int| 0 <= i < members.len() implies faithful(
                #[trigger] members[i],
            ) by {
                if i < init.len() {
                    assert(members[i] == init[i]);
                }
            }
        }
        if forall|i: int| 0 <= i < members.len() ==> faithful(#[trigger] members[i]) {
            assert forall|i: int| 0 <= i < init.len() implies faithful(#[trigger] init[i]) by {
                assert(members[i] == init[i]);
            }
        }
    }
}

/// To the plain model and back: a geometry is converted, and the conversion
/// of the result is the geometry itself, exactly if the geometry is faithful.
/// A point without a coordinate is not converted; a polygon without a ring
/// comes back with one empty ring; a multi-point comes back without its
/// points that have no coordinate; Z and M do not come back.
pub proof fn law_round_trip(geometry: GeometryView)
    ensures
        faithful(geometry) <==> (g_geometry(geometry) matches Ok(plain) && w_geometry(plain)
            == geometry),
    decreases geometry,
{
    match geometry {
        GeometryView::Point(point) => {},
        GeometryView::LineString(line) => {
            lemma_line_round_trip(line);
        },
        GeometryView::Polygon(rings) => {
            lemma_polygon_round_trip(rings);
        },
        GeometryView::MultiPoint(points) => {
            let back = g_points(points).map_values(
                |point: geo::CoordinateView| Some(w_coord(point)),
            );
            if faithful(geometry) {
                lemma_points_all_kept(points);
                assert(back =~= points);
            }
            if back == points {
                assert forall|i: int| 0 <= i < points.len() implies planar_point(
                    #[trigger] points[i],
                ) by {
                    assert(back[i] == Some(w_coord(g_points(points)[i])));
                }
            }
        },
        GeometryView::MultiLineString(lines) => {
            let back = w_lines(lines.map_values(|line: Seq<CoordView>| g_linestring(line)));
            assert forall|i: int| 0 <= i < lines.len() implies #[trigger] back[i] == w_linestring(
                g_linestring(lines[i]),
            ) by {}
            if faithful(geometry) {
                assert forall|i: int| 0 <= i < lines.len() implies #[trigger] back[i]
                    == lines[i] by {
                    lemma_line_round_trip(lines[i]);
                }
                assert(back =~= lines);
            }
            if back == lines {
                assert forall|i: int| 0 <= i < lines.len() implies planar_line(
                    #[trigger] lines[i],
                ) by {
                    assert(back[i] == lines[i]);
                    lemma_line_round_trip(lines[i]);
                }
            }
        },
        GeometryView::MultiPolygon(polygons) => {
            let back = polygons.map_values(|rings: Seq<Seq<CoordView>>| g_polygon(rings)).map_values(
                |polygon: geo::PolygonView| w_polygon(polygon),
            );
            assert forall|i: int| 0 <= i < polygons.len() implies #[trigger] back[i] == w_polygon(
                g_polygon(polygons[i]),
            ) by {}
            if faithful(geometry) {
                assert forall|i: int| 0 <= i < polygons.len() implies #[trigger] back[i]
                    == polygons[i] by {
                    lemma_polygon_round_trip(polygons[i]);
                }
                assert(back =~= polygons);
            }
            if back == polygons {
                assert forall|i: int| 0 <= i < polygons.len() implies ringed(
                    #[trigger] polygons[i],
                ) by {
                    assert(back[i] == polygons[i]);
                    lemma_polygon_round_trip(polygons[i]);
                }
            }
        },
        GeometryView::GeometryCollection(members) => {
            lemma_members_each(members);
            lemma_all_faithful_each(members);
            assert forall|i: int| 0 <= i < members.len() implies (faithful(#[trigger] members[i])
                <==> (g_geometry(members[i]) matches Ok(plain) && w_geometry(plain)
                == members[i])) by {
                law_round_trip(members[i]);
            }
            match g_members(members) {
                Ok(converted) => {
                    let back = w_geometry(geo::GeometryView::GeometryCollection(converted));
                    let b = back->GeometryCollection_0;
                    assert(back is GeometryCollection);
                    assert(b.len() == members.len());
                    assert(forall|i: int|
                        0 <= i < members.len() ==> #[trigger] b[i] == w_geometry(converted[i]));
                    if faithful(geometry) {
                        assert(back->GeometryCollection_0 =~= members);
                    }
                    if back == geometry {
                        assert forall|i: int| 0 <= i < members.len() implies faithful(
                            #[trigger] members[i],
                        ) by {
                            assert(back->GeometryCollection_0[i] == members[i]);
                        }
                    }
                },
                Err(_) => {
                    let i = choose|i: int|
                        0 <= i < members.len() && (#[trigger] g_geometry(members[i])) is Err;
                    assert(!faithful(members[i]));
                },
            }
        },
    }
}

/// The lexemes of the text of a point: the keyword, and two numbers in
/// parentheses.
pub proof fn lemma_point_text_lexemes(x: Seq<char>, y: Seq<char>)
    requires
        is_decimal(x),
        is_decimal(y),
    ensures
        lex("POINT ("@ + x + " "@ + y + ")"@) == seq![
            Lexeme::Word("POINT"@),
            Lexeme::ParenOpen,
            Lexeme::Number(x),
            Lexeme::Number(y),
            Lexeme::ParenClose,
        ],
{
    reveal_strlit("POINT (");
    reveal_strlit("POINT");
    reveal_strlit(" ");
    reveal_strlit(")");
    let none = Seq::<char>::empty();
    let close = seq![')'] + none;
    let second = y + close;
    let gap = seq![' '] + second;
    let first = x + gap;
    let open = seq!['('] + first;
    let space = seq![' '] + open;
    let word = "POINT"@;
    assert("POINT ("@ + x + " "@ + y + ")"@ =~= word + space);
    law_lex_empty();
    law_lex_punctuation(none);
    law_lex_number(y, close);
    law_lex_whitespace(' ', second);
    law_lex_number(x, gap);
    law_lex_punctuation(first);
    law_lex_whitespace(' ', open);
    law_lex_word(word, space);
    assert(lex(word + space) =~= seq![
        Lexeme::Word(word),
        Lexeme::ParenOpen,
        Lexeme::Number(x),
        Lexeme::Number(y),
        Lexeme::ParenClose,
    ]);
}

/// The text of a point gives the point of the two numbers as they are
/// written, and the plain point of that point has the same two numbers:
/// nothing is rounded on the way.
pub proof fn law_point_text(x: Seq<char>, y: Seq<char>)
    requires
        is_decimal(x),
        is_decimal(y),
    ensures
        parse("POINT ("@ + x + " "@ + y + ")"@) == Ok::<Seq<GeometryView>, crate::error::ParseError>(
            seq![GeometryView::Point(Some(CoordView { x, y, z: None, m: None }))],
        ),
        g_geometry(GeometryView::Point(Some(CoordView { x, y, z: None, m: None }))) == Ok::<
            geo::GeometryView,
            crate::error::ConversionError,
        >(geo::GeometryView::Point(geo::CoordinateView { x, y })),
{
    lemma_point_text_lexemes(x, y);
    reveal_strlit("POINT");
    reveal(point);
    let word = "POINT"@;
    let lexemes = seq![
        Lexeme::Word(word),
        Lexeme::ParenOpen,
        Lexeme::Number(x),
        Lexeme::Number(y),
        Lexeme::ParenClose,
    ];
    assert(crate::text::ascii_uppercase(word) =~= word);
    let body = drop(lexemes, 1);
    let fields = drop(body, 1);
    assert(fields[0] == Lexeme::Number(x));
    assert(drop(fields, 1)[0] == Lexeme::Number(y));
    assert(coord(fields).value == Ok::<CoordView, crate::error::ParseError>(
        CoordView { x, y, z: None, m: None },
    ));
    assert(coord(fields).used == 2);
    assert(drop(body, 1 + 2)[0] == Lexeme::ParenClose);
    assert(point_fields(fields).used == 2);
    assert(point(body).value == Ok::<Option<CoordView>, crate::error::ParseError>(
        Some(CoordView { x, y, z: None, m: None }),
    ));
    assert(geometry(lexemes).value == Ok::<GeometryView, crate::error::ParseError>(
        GeometryView::Point(Some(CoordView { x, y, z: None, m: None })),
    ));
}

/// A text gives one geometry at most.
pub proof fn law_at_most_one_item(text: Seq<char>)
    ensures
        parse(text) matches Ok(items) ==> items.len() <= 1,
        parse(text) matches Ok(items) ==> (items.len() == 0 <==> lex(text).len() == 0),
{
}

/// An ASCII letter.
pub open spec fn is_letter(c: char) -> bool {
    ('A' <= c && c <= 'Z') || ('a' <= c && c <= 'z')
}

/// A text of upper-case ASCII letters, and at least one.
pub open spec fn is_upper_word(word: Seq<char>) -> bool {
    word.len() > 0 && forall|i: int| 0 <= i < word.len() ==> 'A' <= #[trigger] word[i] <= 'Z'
}

/// A text whose upper-case form is a word of upper-case letters is one word
/// lexeme, of ASCII letters.
pub proof fn lemma_letters(word: Seq<char>)
    requires
        is_upper_word(ascii_uppercase(word)),
    ensures
        word.len() > 0,
        forall|i: int| 0 <= i < word.len() ==> is_letter(#[trigger] word[i]),
        forall|i: int| 0 <= i < word.len() ==> !delimiter(#[trigger] word[i]),
        !numberlike(word[0]),
        is_ascii_chars(word),
{
    assert forall|i: int| 0 <= i < word.len() implies is_letter(#[trigger] word[i]) by {
        assert(ascii_uppercase(word)[i] == ascii_upper(word[i]));
    }
}

/// The keywords and `EMPTY` are words of upper-case letters.
pub proof fn lemma_keywords_upper(word: Seq<char>)
    requires
        kind_of(word) is Some || word == "EMPTY"@,
    ensures
        is_upper_word(word),
{
    reveal_strlit("POINT");
    reveal_strlit("LINESTRING");
    reveal_strlit("POLYGON");
    reveal_strlit("MULTIPOINT");
    reveal_strlit("MULTILINESTRING");
    reveal_strlit("MULTIPOLYGON");
    reveal_strlit("GEOMETRYCOLLECTION");
    reveal_strlit("EMPTY");
}

/// The geometry of each kind that has nothing in it.
pub open spec fn empty_of(kind: Kind) -> GeometryView {
    match kind {
        Kind::Point => GeometryView::Point(None),
        Kind::LineString => GeometryView::LineString(Seq::empty()),
        Kind::Polygon => GeometryView::Polygon(Seq::empty()),
        Kind::MultiPoint => GeometryView::MultiPoint(Seq::empty()),
        Kind::MultiLineString => GeometryView::MultiLineString(Seq::empty()),
        Kind::MultiPolygon => GeometryView::MultiPolygon(Seq::empty()),
        Kind::GeometryCollection => GeometryView::GeometryCollection(Seq::empty()),
    }
}

/// A keyword and `EMPTY`, each in any mix of upper and lower case, give the
/// geometry of the keyword's kind that has nothing in it.
pub proof fn law_empty_text(word: Seq<char>, empty: Seq<char>, kind: Kind)
    requires
        kind_of(ascii_uppercase(word)) == Some(kind),
        is_empty_word(empty),
    ensures
        parse(word + " "@ + empty) == Ok::<Seq<GeometryView>, crate::error::ParseError>(
            seq![empty_of(kind)],
        ),
{
    reveal_strlit(" ");
    lemma_keywords_upper(ascii_uppercase(word));
    lemma_keywords_upper(ascii_uppercase(empty));
    lemma_letters(word);
    lemma_letters(empty);
    let none = Seq::<char>::empty();
    let gap = seq![' '] + (empty + none);
    assert(word + " "@ + empty =~= word + gap);
    law_lex_empty();
    law_lex_word(empty, none);
    law_lex_whitespace(' ', empty + none);
    law_lex_word(word, gap);
    let lexemes = seq![Lexeme::Word(word), Lexeme::Word(empty)];
    assert(lex(word + gap) =~= lexemes);
    let body = drop(lexemes, 1);
    assert(body[0] == Lexeme::Word(empty));
    reveal(point);
    reveal(linestring);
    reveal(polygon);
    reveal(multipoint);
    reveal(multilinestring);
    reveal(multipolygon);
    assert(collection(body).value == Ok::<Seq<GeometryView>, crate::error::ParseError>(
        Seq::empty(),
    ));
    assert(geometry(lexemes).value == Ok::<GeometryView, crate::error::ParseError>(
        empty_of(kind),
    ));
}

/// A point that has nothing in it has no plain geometry.
pub proof fn law_empty_point_unsupported()
    ensures
        g_geometry(empty_of(Kind::Point)) == Err::<
            geo::GeometryView,
            crate::error::ConversionError,
        >(crate::error::ConversionError::EmptyPoint),
{
}

} // verus!
