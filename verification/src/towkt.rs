//! From the plain geometry model to a geometry of a WKT text.

use vstd::prelude::*;
use crate::geo;
use crate::geometry::{Geometry, GeometryView, Wkt};
use crate::types::coord::{Coord, CoordView};
use crate::types::{
    GeometryCollection, LineString, MultiLineString, MultiPoint, MultiPolygon, Point, Polygon,
};

verus! {

/// The coordinate of a plain coordinate: its X and Y, without Z and M.
pub open spec fn w_coord(point: geo::CoordinateView) -> CoordView {
    CoordView { x: point.x, y: point.y, z: None, m: None }
}

/// The line string of a plain line string: point by point.
pub open spec fn w_linestring(points: Seq<geo::CoordinateView>) -> Seq<CoordView> {
    points.map_values(|point: geo::CoordinateView| w_coord(point))
}

/// The line strings of plain line strings, one by one.
pub open spec fn w_lines(lines: Seq<Seq<geo::CoordinateView>>) -> Seq<Seq<CoordView>> {
    lines.map_values(|line: Seq<geo::CoordinateView>| w_linestring(line))
}

/// The rings of a plain polygon: its exterior, then its interiors in order.
pub open spec fn w_polygon(polygon: geo::PolygonView) -> Seq<Seq<CoordView>> {
    seq![w_linestring(polygon.exterior)] + w_lines(polygon.interiors)
}

/// The geometry of a plain geometry, kind by kind. A segment becomes the
/// line string of its two ends.
pub open spec fn w_geometry(geometry: geo::GeometryView) -> GeometryView
    decreases geometry,
{
    match geometry {
        geo::GeometryView::Point(point) => GeometryView::Point(Some(w_coord(point))),
        geo::GeometryView::Line(line) => GeometryView::LineString(
            seq![w_coord(line.start), w_coord(line.end)],
        ),
        geo::GeometryView::LineString(points) => GeometryView::LineString(w_linestring(points)),
        geo::GeometryView::Polygon(polygon) => GeometryView::Polygon(w_polygon(polygon)),
        geo::GeometryView::MultiPoint(points) => GeometryView::MultiPoint(
            points.map_values(|point: geo::CoordinateView| Some(w_coord(point))),
        ),
        geo::GeometryView::MultiLineString(lines) => GeometryView::MultiLineString(w_lines(lines)),
        geo::GeometryView::MultiPolygon(polygons) => GeometryView::MultiPolygon(
            polygons.map_values(|polygon: geo::PolygonView| w_polygon(polygon)),
        ),
        geo::GeometryView::GeometryCollection(members) => GeometryView::GeometryCollection(
            Seq::new(
                members.len(),
                |i: int|
                    if 0 <= i < members.len() {
                        w_geometry(members[i])
                    } else {
                        arbitrary()
                    },
            ),
        ),
    }
}

/// The coordinate of a plain point.
pub fn g_point_to_w_coord(g_point: &geo::Point) -> (coord: Coord)
    ensures
        coord@ == w_coord(g_point@),
{
    Coord { x: g_point.0.x.clone(), y: g_point.0.y.clone(), z: None, m: None }
}

/// The point of a plain point.
pub fn g_point_to_w_point(g_point: &geo::Point) -> (point: Point)
    ensures
        point@ == Some(w_coord(g_point@)),
{
    let coord = g_point_to_w_coord(g_point);
    Point(Some(coord))
}

/// The coordinates of plain points, one by one.
pub fn g_points_to_w_coords(g_points: &Vec<geo::Point>) -> (w_coords: Vec<Coord>)
    ensures
        w_coords@.map_values(|coord: Coord| coord@) == w_linestring(
            g_points@.map_values(|point: geo::Point| point@),
        ),
{
    let mut w_coords: Vec<Coord> = Vec::new();
    let mut i: usize = 0;
    while i < g_points.len()
        invariant
            i <= g_points.len(),
            w_coords@.len() == i,
            forall|k: int| 0 <= k < i ==> (#[trigger] w_coords@[k])@ == w_coord(g_points@[k]@),
        decreases g_points.len() - i,
    {
        w_coords.push(g_point_to_w_coord(&g_points[i]));
        i += 1;
    }
    assert(w_coords@.map_values(|coord: Coord| coord@) =~= w_linestring(
        g_points@.map_values(|point: geo::Point| point@),
    ));
    w_coords
}

/// The line string through plain points.
pub fn g_points_to_w_linestring(g_points: &Vec<geo::Point>) -> (line: LineString)
    ensures
        line@ == w_linestring(g_points@.map_values(|point: geo::Point| point@)),
{
    let w_coords = g_points_to_w_coords(g_points);
    LineString(w_coords)
}

/// The line string of a plain line string.
pub fn g_linestring_to_w_linestring(g_linestring: &geo::LineString) -> (line: LineString)
    ensures
        line@ == w_linestring(g_linestring@),
{
    g_points_to_w_linestring(&g_linestring.0)
}

/// The line string of a segment: its start, then its end.
pub fn g_line_to_w_linestring(g_line: &geo::Line) -> (line: LineString)
    ensures
        line@ == seq![w_coord(g_line@.start), w_coord(g_line@.end)],
{
    let mut w_coords: Vec<Coord> = Vec::new();
    w_coords.push(g_point_to_w_coord(&g_line.start));
    w_coords.push(g_point_to_w_coord(&g_line.end));
    let line = LineString(w_coords);
    assert(line@ =~= seq![w_coord(g_line@.start), w_coord(g_line@.end)]);
    line
}

/// The line strings of plain line strings, one by one.
pub fn g_lines_to_w_lines(g_lines: &Vec<geo::LineString>) -> (lines: Vec<LineString>)
    ensures
        lines@.map_values(|line: LineString| line@) == w_lines(
            g_lines@.map_values(|line: geo::LineString| line@),
        ),
{
    let mut lines: Vec<LineString> = Vec::new();
    let mut i: usize = 0;
    while i < g_lines.len()
        invariant
            i <= g_lines.len(),
            lines@.len() == i,
            forall|k: int| 0 <= k < i ==> (#[trigger] lines@[k])@ == w_linestring(g_lines@[k]@),
        decreases g_lines.len() - i,
    {
        lines.push(g_linestring_to_w_linestring(&g_lines[i]));
        i += 1;
    }
    assert(lines@.map_values(|line: LineString| line@) =~= w_lines(
        g_lines@.map_values(|line: geo::LineString| line@),
    ));
    lines
}

/// The polygon of a plain polygon: the exterior is its first ring.
pub fn g_polygon_to_w_polygon(g_polygon: &geo::Polygon) -> (polygon: Polygon)
    ensures
        polygon@ == w_polygon(g_polygon@),
{
    let mut poly_lines: Vec<LineString> = Vec::new();
    poly_lines.push(g_linestring_to_w_linestring(&g_polygon.exterior));
    let mut inner = g_lines_to_w_lines(&g_polygon.interiors);
    let ghost outer = poly_lines@;
    let ghost holes = inner@;
    poly_lines.append(&mut inner);
    assert(poly_lines@ == outer + holes);
    let polygon = Polygon(poly_lines);
    assert(polygon@ =~= w_polygon(g_polygon@)) by {
        assert(holes.map_values(|line: LineString| line@) == w_lines(g_polygon@.interiors));
        assert forall|k: int| 0 <= k < polygon@.len() implies polygon@[k] == w_polygon(
            g_polygon@,
        )[k] by {
            if k > 0 {
                assert(polygon@[k] == holes.map_values(|line: LineString| line@)[k - 1]);
            }
        }
    }
    polygon
}

/// The multi-point of a plain multi-point.
pub fn g_mpoint_to_w_mpoint(g_mpoint: &geo::MultiPoint) -> (points: MultiPoint)
    ensures
        points@ == g_mpoint@.map_values(|point: geo::CoordinateView| Some(w_coord(point))),
{
    let mut w_points: Vec<Point> = Vec::new();
    let mut i: usize = 0;
    while i < g_mpoint.0.len()
        invariant
            i <= g_mpoint.0.len(),
            w_points@.len() == i,
            forall|k: int|
                0 <= k < i ==> (#[trigger] w_points@[k])@ == Some(w_coord(g_mpoint.0@[k]@)),
        decreases g_mpoint.0.len() - i,
    {
        w_points.push(g_point_to_w_point(&g_mpoint.0[i]));
        i += 1;
    }
    let points = MultiPoint(w_points);
    assert(points@ =~= g_mpoint@.map_values(
        |point: geo::CoordinateView| Some(w_coord(point)),
    ));
    points
}

/// The multi-line-string of a plain multi-line-string.
pub fn g_mline_to_w_mline(g_mline: &geo::MultiLineString) -> (lines: MultiLineString)
    ensures
        lines@ == w_lines(g_mline@),
{
    let w_lines = g_lines_to_w_lines(&g_mline.0);
    MultiLineString(w_lines)
}

/// The polygons of plain polygons, one by one.
pub fn g_polygons_to_w_polygons(g_polygons: &Vec<geo::Polygon>) -> (polygons: Vec<Polygon>)
    ensures
        polygons@.map_values(|polygon: Polygon| polygon@) == g_polygons@.map_values(
            |polygon: geo::Polygon| w_polygon(polygon@),
        ),
{
    let mut polygons: Vec<Polygon> = Vec::new();
    let mut i: usize = 0;
    while i < g_polygons.len()
        invariant
            i <= g_polygons.len(),
            polygons@.len() == i,
            forall|k: int| 0 <= k < i ==> (#[trigger] polygons@[k])@ == w_polygon(g_polygons@[k]@),
        decreases g_polygons.len() - i,
    {
        polygons.push(g_polygon_to_w_polygon(&g_polygons[i]));
        i += 1;
    }
    assert(polygons@.map_values(|polygon: Polygon| polygon@) =~= g_polygons@.map_values(
        |polygon: geo::Polygon| w_polygon(polygon@),
    ));
    polygons
}

/// The multi-polygon of a plain multi-polygon.
pub fn g_mpolygon_to_w_mpolygon(g_mpolygon: &geo::MultiPolygon) -> (polygons: MultiPolygon)
    ensures
        polygons@ == g_mpolygon@.map_values(|polygon: geo::PolygonView| w_polygon(polygon)),
{
    let w_polygons = g_polygons_to_w_polygons(&g_mpolygon.0);
    let polygons = MultiPolygon(w_polygons);
    assert(polygons@ =~= g_mpolygon@.map_values(|polygon: geo::PolygonView| w_polygon(polygon)));
    polygons
}

/// The collection of a plain collection, member by member, at every depth.
pub fn g_geocol_to_w_geocol(g_geocol: &geo::GeometryCollection) -> (members: GeometryCollection)
    ensures
        GeometryView::GeometryCollection(members@) == w_geometry(
            geo::GeometryView::GeometryCollection(g_geocol@),
        ),
    decreases g_geocol,
{
    let mut w_geoms: Vec<Geometry> = Vec::new();
    let mut i: usize = 0;
    while i < g_geocol.0.len()
        invariant
            i <= g_geocol.0.len(),
            w_geoms@.len() == i,
            forall|k: int| 0 <= k < i ==> (#[trigger] w_geoms@[k])@ == w_geometry(g_geocol@[k]),
        decreases g_geocol.0.len() - i,
    {
        assert(g_geocol@[i as int] == g_geocol.0@[i as int]@);
        let w_geom = g_geom_to_w_geom(&g_geocol.0[i]);
        w_geoms.push(w_geom);
        i += 1;
    }
    let members = GeometryCollection(w_geoms);
    assert(w_geometry(geo::GeometryView::GeometryCollection(g_geocol@)) matches GeometryView::GeometryCollection(
        m,
    ) && m =~= members@);
    members
}

/// The geometry of a plain geometry.
pub fn g_geom_to_w_geom(g_geom: &geo::Geometry) -> (geometry: Geometry)
    ensures
        geometry@ == w_geometry(g_geom@),
    decreases g_geom,
{
    match g_geom {
        geo::Geometry::Point(g_point) => g_point_to_w_point(g_point).as_item(),
        geo::Geometry::Line(g_line) => g_line_to_w_linestring(g_line).as_item(),
        geo::Geometry::LineString(g_line) => g_linestring_to_w_linestring(g_line).as_item(),
        geo::Geometry::Polygon(g_polygon) => g_polygon_to_w_polygon(g_polygon).as_item(),
        geo::Geometry::MultiPoint(g_mpoint) => g_mpoint_to_w_mpoint(g_mpoint).as_item(),
        geo::Geometry::MultiLineString(g_mline) => g_mline_to_w_mline(g_mline).as_item(),
        geo::Geometry::MultiPolygon(g_mpolygon) => g_mpolygon_to_w_mpolygon(g_mpolygon).as_item(),
        geo::Geometry::GeometryCollection(g_geocol) => g_geocol_to_w_geocol(g_geocol).as_item(),
    }
}

/// Conversion to a WKT container.
pub trait ToWkt {
    /// The container that holds the counterpart of this value.
    fn to_wkt(&self) -> Wkt;
}

impl ToWkt for geo::Geometry {
    /// The container that holds this geometry's counterpart and nothing else.
    fn to_wkt(&self) -> (wkt: Wkt)
        ensures
            wkt@ == seq![w_geometry(self@)],
    {
        let w_geom = g_geom_to_w_geom(self);
        let mut items: Vec<Geometry> = Vec::new();
        items.push(w_geom);
        let wkt = Wkt { items };
        assert(wkt@ =~= seq![w_geometry(self@)]);
        wkt
    }
}

} // verus!
