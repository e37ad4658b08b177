//! A plain geometry model: points, lines and polygons as bare data, in the
//! shape that general geometry libraries give them. The converters of this
//! crate lead to it and back; its numbers are the decimal literals of the text.

use vstd::prelude::*;
use crate::number::Number;

verus! {

/// The model of a [`Coordinate`] and of a [`Point`].
pub struct CoordinateView {
    pub x: Seq<char>,
    pub y: Seq<char>,
}

/// The model of a [`Line`].
pub struct LineView {
    pub start: CoordinateView,
    pub end: CoordinateView,
}

/// The model of a [`Polygon`].
pub struct PolygonView {
    pub exterior: Seq<CoordinateView>,
    pub interiors: Seq<Seq<CoordinateView>>,
}

/// The model of a [`Geometry`].
pub enum GeometryView {
    Point(CoordinateView),
    Line(LineView),
    LineString(Seq<CoordinateView>),
    Polygon(PolygonView),
    MultiPoint(Seq<CoordinateView>),
    MultiLineString(Seq<Seq<CoordinateView>>),
    MultiPolygon(Seq<PolygonView>),
    GeometryCollection(Seq<GeometryView>),
}

/// A pair of ordinates.
#[derive(Debug, PartialEq)]
pub struct Coordinate {
    pub x: Number,
    pub y: Number,
}

impl View for Coordinate {
    type V = CoordinateView;

    open spec fn view(&self) -> CoordinateView {
        CoordinateView { x: self.x@, y: self.y@ }
    }
}

/// A point. It always has a coordinate.
#[derive(Debug, PartialEq)]
pub struct Point(pub Coordinate);

impl View for Point {
    type V = CoordinateView;

    open spec fn view(&self) -> CoordinateView {
        self.0@
    }
}

/// A segment between two points.
#[derive(Debug, PartialEq)]
pub struct Line {
    pub start: Point,
    pub end: Point,
}

impl View for Line {
    type V = LineView;

    open spec fn view(&self) -> LineView {
        LineView { start: self.start@, end: self.end@ }
    }
}

/// Points joined in order.
#[derive(Debug, PartialEq)]
pub struct LineString(pub Vec<Point>);

impl View for LineString {
    type V = Seq<CoordinateView>;

    open spec fn view(&self) -> Seq<CoordinateView> {
        self.0@.map_values(|point: Point| point@)
    }
}

/// An exterior boundary and the boundaries of the holes in it.
#[derive(Debug, PartialEq)]
pub struct Polygon {
    pub exterior: LineString,
    pub interiors: Vec<LineString>,
}

impl View for Polygon {
    type V = PolygonView;

    open spec fn view(&self) -> PolygonView {
        PolygonView {
            exterior: self.exterior@,
            interiors: self.interiors@.map_values(|ring: LineString| ring@),
        }
    }
}

impl Polygon {
    /// The polygon of a boundary and its holes.
    pub fn new(exterior: LineString, interiors: Vec<LineString>) -> (polygon: Polygon)
        ensures
            polygon@ == (PolygonView {
                exterior: exterior@,
                interiors: interiors@.map_values(|ring: LineString| ring@),
            }),
    {
        Polygon { exterior, interiors }
    }
}

/// Points, in order.
#[derive(Debug, PartialEq)]
pub struct MultiPoint(pub Vec<Point>);

impl View for MultiPoint {
    type V = Seq<CoordinateView>;

    open spec fn view(&self) -> Seq<CoordinateView> {
        self.0@.map_values(|point: Point| point@)
    }
}

/// Line strings, in order.
#[derive(Debug, PartialEq)]
pub struct MultiLineString(pub Vec<LineString>);

impl View for MultiLineString {
    type V = Seq<Seq<CoordinateView>>;

    open spec fn view(&self) -> Seq<Seq<CoordinateView>> {
        self.0@.map_values(|line: LineString| line@)
    }
}

/// Polygons, in order.
#[derive(Debug, PartialEq)]
pub struct MultiPolygon(pub Vec<Polygon>);

impl View for MultiPolygon {
    type V = Seq<PolygonView>;

    open spec fn view(&self) -> Seq<PolygonView> {
        self.0@.map_values(|polygon: Polygon| polygon@)
    }
}

/// Geometries of any kind, in order.
#[derive(Debug, PartialEq)]
pub struct GeometryCollection(pub Vec<Geometry>);

impl View for GeometryCollection {
    type V = Seq<GeometryView>;

    open spec fn view(&self) -> Seq<GeometryView>
        decreases self,
    {
        Seq::new(
            self.0@.len(),
            |i: int|
                if 0 <= i < self.0@.len() {
                    self.0@[i].view()
                } else {
                    arbitrary()
                },
        )
    }
}

/// A geometry of any kind.
#[derive(Debug, PartialEq)]
pub enum Geometry {
    Point(Point),
    Line(Line),
    LineString(LineString),
    Polygon(Polygon),
    MultiPoint(MultiPoint),
    MultiLineString(MultiLineString),
    MultiPolygon(MultiPolygon),
    GeometryCollection(GeometryCollection),
}

impl View for Geometry {
    type V = GeometryView;

    open spec fn view(&self) -> GeometryView
        decreases self,
    {
        match self {
            Geometry::Point(point) => GeometryView::Point(point@),
            Geometry::Line(line) => GeometryView::Line(line@),
            Geometry::LineString(line) => GeometryView::LineString(line@),
            Geometry::Polygon(polygon) => GeometryView::Polygon(polygon@),
            Geometry::MultiPoint(points) => GeometryView::MultiPoint(points@),
            Geometry::MultiLineString(lines) => GeometryView::MultiLineString(lines@),
            Geometry::MultiPolygon(polygons) => GeometryView::MultiPolygon(polygons@),
            Geometry::GeometryCollection(members) => GeometryView::GeometryCollection(
                members.view(),
            ),
        }
    }
}

} // verus!
