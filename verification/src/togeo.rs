//! From a geometry of a WKT text to the plain geometry model.

use vstd::prelude::*;
use crate::error::ConversionError;
use crate::geo;
use crate::geometry::{Geometry, GeometryView};
use crate::types::coord::{Coord, CoordView};
use crate::types::{LineString, Point, Polygon};

verus! {

/// The plain coordinate of a coordinate: its X and Y. Z and M are left out.
pub open spec fn g_coord(coord: CoordView) -> geo::CoordinateView {
    geo::CoordinateView { x: coord.x, y: coord.y }
}

/// The plain line string of a line string: coordinate by coordinate.
pub open spec fn g_linestring(line: Seq<CoordView>) -> Seq<geo::CoordinateView> {
    line.map_values(|coord: CoordView| g_coord(coord))
}

/// The plain polygon of a polygon's rings: the first ring is the exterior,
/// the others are the interiors, in order. Without rings the exterior is
/// empty and there are no interiors.
pub open spec fn g_polygon(rings: Seq<Seq<CoordView>>) -> geo::PolygonView {
    if rings.len() == 0 {
        geo::PolygonView { exterior: Seq::empty(), interiors: Seq::empty() }
    } else {
        geo::PolygonView {
            exterior: g_linestring(rings[0]),
            interiors: rings.drop_first().map_values(|ring: Seq<CoordView>| g_linestring(ring)),
        }
    }
}

/// The plain points of the points that have a coordinate, in order; those
/// without one are passed over.
pub open spec fn g_points(points: Seq<Option<CoordView>>) -> Seq<geo::CoordinateView> {
    points.filter(|point: Option<CoordView>| point is Some).map_values(
        |point: Option<CoordView>| g_coord(point->0),
    )
}

/// The plain geometry of a geometry. Only a point without a coordinate has
/// none, as a geometry of its own or as a member of a collection, at any
/// depth; within a multi-point such a point is passed over.
pub open spec fn g_geometry(geometry: GeometryView) -> Result<geo::GeometryView, ConversionError>
    decreases geometry,
{
    match geometry {
        GeometryView::Point(Some(coord)) => Ok(geo::GeometryView::Point(g_coord(coord))),
        GeometryView::Point(None) => Err(ConversionError::EmptyPoint),
        GeometryView::LineString(line) => Ok(geo::GeometryView::LineString(g_linestring(line))),
        GeometryView::Polygon(rings) => Ok(geo::GeometryView::Polygon(g_polygon(rings))),
        GeometryView::MultiPoint(points) => Ok(geo::GeometryView::MultiPoint(g_points(points))),
        GeometryView::MultiLineString(lines) => Ok(
            geo::GeometryView::MultiLineString(
                lines.map_values(|line: Seq<CoordView>| g_linestring(line)),
            ),
        ),
        GeometryView::MultiPolygon(polygons) => Ok(
            geo::GeometryView::MultiPolygon(
                polygons.map_values(|rings: Seq<Seq<CoordView>>| g_polygon(rings)),
            ),
        ),
        GeometryView::GeometryCollection(members) => match g_members(members) {
            Ok(converted) => Ok(geo::GeometryView::GeometryCollection(converted)),
            Err(e) => Err(e),
        },
    }
}

/// The plain geometries of the members of a collection, in order, or the
/// error of the first member that has none.
pub open spec fn g_members(members: Seq<GeometryView>) -> Result<
    Seq<geo::GeometryView>,
    ConversionError,
>
    decreases members,
{
    if members.len() == 0 {
        Ok(Seq::empty())
    } else {
        match g_members(members.drop_last()) {
            Err(e) => Err(e),
            Ok(converted) => match g_geometry(members.last()) {
                Ok(g) => Ok(converted.push(g)),
                Err(e) => Err(e),
            },
        }
    }
}

/// An error among the first members of a collection is the error of the
/// collection.
pub proof fn lemma_members_prefix(members: Seq<GeometryView>, n: int)
    requires
        0 <= n <= members.len(),
        g_members(members.take(n)) is Err,
    ensures
        g_members(members) == g_members(members.take(n)),
    decreases members.len(),
{
    if n < members.len() {
        assert(members.drop_last().take(n) =~= members.take(n));
        lemma_members_prefix(members.drop_last(), n);
    } else {
        assert(members.take(n) =~= members);
    }
}

/// The plain coordinate of a coordinate.
pub fn coord_to_g_coord(coord: &Coord) -> (g_coordinate: geo::Coordinate)
    ensures
        g_coordinate@ == g_coord(coord@),
{
    geo::Coordinate { x: coord.x.clone(), y: coord.y.clone() }
}

/// The plain line string of a line string.
pub fn linestring_to_g_linestring(line: &LineString) -> (g_line: geo::LineString)
    ensures
        g_line@ == g_linestring(line@),
{
    let mut g_points: Vec<geo::Point> = Vec::new();
    let mut i: usize = 0;
    while i < line.0.len()
        invariant
            i <= line.0.len(),
            g_points@.len() == i,
            forall|k: int| 0 <= k < i ==> (#[trigger] g_points@[k])@ == g_coord(line.0@[k]@),
        decreases line.0.len() - i,
    {
        g_points.push(geo::Point(coord_to_g_coord(&line.0[i])));
        i += 1;
    }
    let g_line = geo::LineString(g_points);
    assert(g_line@ =~= g_linestring(line@));
    g_line
}

/// The plain polygon of a polygon.
pub fn polygon_to_g_polygon(polygon: &Polygon) -> (g_poly: geo::Polygon)
    ensures
        g_poly@ == g_polygon(polygon@),
{
    if polygon.0.len() == 0 {
        let exterior = geo::LineString(Vec::new());
        assert(exterior@ =~= Seq::<geo::CoordinateView>::empty());
        let g_poly = geo::Polygon::new(exterior, Vec::new());
        assert(g_poly@.interiors =~= Seq::<Seq<geo::CoordinateView>>::empty());
        g_poly
    } else {
        let exterior = linestring_to_g_linestring(&polygon.0[0]);
        let mut interiors: Vec<geo::LineString> = Vec::new();
        let mut i: usize = 1;
        while i < polygon.0.len()
            invariant
                1 <= i <= polygon.0.len(),
                interiors@.len() == i - 1,
                forall|k: int|
                    0 <= k < i - 1 ==> (#[trigger] interiors@[k])@ == g_linestring(
                        polygon.0@[k + 1]@,
                    ),
            decreases polygon.0.len() - i,
        {
            interiors.push(linestring_to_g_linestring(&polygon.0[i]));
            i += 1;
        }
        let g_poly = geo::Polygon { exterior, interiors };
        assert(g_poly@.interiors =~= g_polygon(polygon@).interiors);
        g_poly
    }
}

/// The plain point of a point, if the point has a coordinate.
pub fn point_to_g_point(point: &Point) -> (g_point: Option<geo::Point>)
    ensures
        match point@ {
            Some(coord) => g_point matches Some(p) && p@ == g_coord(coord),
            None => g_point is None,
        },
{
    match &point.0 {
        Some(coord) => Some(geo::Point(coord_to_g_coord(coord))),
        None => None,
    }
}

/// Conversion to the plain geometry model.
pub trait ToGeo {
    /// The plain geometry of this value, or the reason why it has none.
    fn to_geo(&self) -> Result<geo::Geometry, ConversionError>;
}

impl ToGeo for Geometry {
    /// The plain geometry of this geometry, or the reason why it has none.
    fn to_geo(&self) -> (r: Result<geo::Geometry, ConversionError>)
        ensures
            match g_geometry(self@) {
                Ok(g) => r matches Ok(geometry) && geometry@ == g,
                Err(e) => r == Err::<geo::Geometry, ConversionError>(e),
            },
        decreases self,
    {
        match self {
            Geometry::Point(Point(Some(coord))) => Ok(
                geo::Geometry::Point(geo::Point(coord_to_g_coord(coord))),
            ),
            Geometry::Point(Point(None)) => Err(ConversionError::EmptyPoint),
            Geometry::LineString(line) => Ok(
                geo::Geometry::LineString(linestring_to_g_linestring(line)),
            ),
            Geometry::Polygon(polygon) => Ok(geo::Geometry::Polygon(polygon_to_g_polygon(polygon))),
            Geometry::MultiPoint(points) => {
                let ghost kept = |point: Option<CoordView>| point is Some;
                let mut found: Vec<geo::Point> = Vec::new();
                let mut i: usize = 0;
                while i < points.0.len()
                    invariant
                        i <= points.0.len(),
                        kept == (|point: Option<CoordView>| point is Some),
                        found@.map_values(|point: geo::Point| point@) == g_points(
                            points@.take(i as int),
                        ),
                    decreases points.0.len() - i,
                {
                    let ghost before = found@.map_values(|point: geo::Point| point@);
                    proof {
                        assert(points@.take(i + 1) =~= points@.take(i as int).push(points@[i as int]));
                        points@.take(i as int).lemma_filter_push(points@[i as int], kept);
                    }
                    match point_to_g_point(&points.0[i]) {
                        Some(g_point) => {
                            found.push(g_point);
                            assert(found@.map_values(|point: geo::Point| point@) =~= before.push(
                                g_point@,
                            ));
                            assert(g_points(points@.take(i + 1)) =~= before.push(g_point@));
                        },
                        None => {},
                    }
                    i += 1;
                }
                assert(points@.take(i as int) =~= points@);
                Ok(geo::Geometry::MultiPoint(geo::MultiPoint(found)))
            },
            Geometry::MultiLineString(lines) => {
                let mut g_lines: Vec<geo::LineString> = Vec::new();
                let mut i: usize = 0;
                while i < lines.0.len()
                    invariant
                        i <= lines.0.len(),
                        g_lines@.len() == i,
                        forall|k: int|
                            0 <= k < i ==> (#[trigger] g_lines@[k])@ == g_linestring(lines.0@[k]@),
                    decreases lines.0.len() - i,
                {
                    g_lines.push(linestring_to_g_linestring(&lines.0[i]));
                    i += 1;
                }
                let g_mls = geo::MultiLineString(g_lines);
                assert(g_mls@ =~= lines@.map_values(|line: Seq<CoordView>| g_linestring(line)));
                Ok(geo::Geometry::MultiLineString(g_mls))
            },
            Geometry::MultiPolygon(polygons) => {
                let mut g_polys: Vec<geo::Polygon> = Vec::new();
                let mut i: usize = 0;
                while i < polygons.0.len()
                    invariant
                        i <= polygons.0.len(),
                        g_polys@.len() == i,
                        forall|k: int|
                            0 <= k < i ==> (#[trigger] g_polys@[k])@ == g_polygon(
                                polygons.0@[k]@,
                            ),
                    decreases polygons.0.len() - i,
                {
                    g_polys.push(polygon_to_g_polygon(&polygons.0[i]));
                    i += 1;
                }
                let g_mp = geo::MultiPolygon(g_polys);
                assert(g_mp@ =~= polygons@.map_values(
                    |rings: Seq<Seq<CoordView>>| g_polygon(rings),
                ));
                Ok(geo::Geometry::MultiPolygon(g_mp))
            },
            Geometry::GeometryCollection(members) => {
                let mut g_geoms: Vec<geo::Geometry> = Vec::new();
                let mut i: usize = 0;
                assert((geo::GeometryCollection(g_geoms))@ =~= Seq::<geo::GeometryView>::empty());
                while i < members.0.len()
                    invariant
                        i <= members.0.len(),
                        self matches Geometry::GeometryCollection(m) && m == members,
                        g_members(members@.take(i as int)) == Ok::<
                            Seq<geo::GeometryView>,
                            ConversionError,
                        >((geo::GeometryCollection(g_geoms))@),
                    decreases members.0.len() - i,
                {
                    let ghost before = (geo::GeometryCollection(g_geoms))@;
                    proof {
                        assert(members@.take(i + 1).drop_last() =~= members@.take(i as int));
                        assert(members@.take(i + 1).last() == members.0@[i as int]@);
                    }
                    match members.0[i].to_geo() {
                        Ok(g_geom) => {
                            g_geoms.push(g_geom);
                            assert((geo::GeometryCollection(g_geoms))@ =~= before.push(g_geom@));
                        },
                        Err(e) => {
                            proof {
                                lemma_members_prefix(members@, i + 1);
                            }
                            return Err(e);
                        },
                    }
                    i += 1;
                }
                assert(members@.take(i as int) =~= members@);
                Ok(geo::Geometry::GeometryCollection(geo::GeometryCollection(g_geoms)))
            },
        }
    }
}

} // verus!
