use wkt::geo;
use wkt::number::Number;
use wkt::togeo::ToGeo;
use wkt::towkt::{
    g_geocol_to_w_geocol, g_geom_to_w_geom, g_line_to_w_linestring, g_lines_to_w_lines,
    g_linestring_to_w_linestring, g_mline_to_w_mline, g_mpoint_to_w_mpoint,
    g_mpolygon_to_w_mpolygon, g_point_to_w_coord, g_point_to_w_point, g_points_to_w_coords,
    g_points_to_w_linestring, g_polygon_to_w_polygon, g_polygons_to_w_polygons, ToWkt,
};
use wkt::types::{
    Coord, GeometryCollection, LineString, MultiLineString, MultiPoint, MultiPolygon, Point,
    Polygon,
};
use wkt::{Geometry, Wkt};

fn num(text: &str) -> Number {
    Number::from_str(text).unwrap()
}

fn g_point(x: &str, y: &str) -> geo::Point {
    geo::Point(geo::Coordinate { x: num(x), y: num(y) })
}

fn coord(x: &str, y: &str) -> Coord {
    Coord::new(num(x), num(y))
}

#[test]
fn test_to_wkt() {
    let wkt = geo::Geometry::Point(g_point("1.5", "-2")).to_wkt();
    assert_eq!(wkt.items, vec![Geometry::Point(Point(Some(coord("1.5", "-2"))))]);
    assert!(true);
}

#[test]
fn point_to_wkt() {
    assert_eq!(g_point_to_w_coord(&g_point("1", "2")), coord("1", "2"));
    assert_eq!(g_point_to_w_point(&g_point("1", "2")), Point(Some(coord("1", "2"))));
    let c = g_point_to_w_coord(&g_point("1", "2"));
    assert_eq!(c.z, None);
    assert_eq!(c.m, None);
}

#[test]
fn points_to_wkt() {
    let points = vec![g_point("1", "2"), g_point("3", "4")];
    assert_eq!(g_points_to_w_coords(&points), vec![coord("1", "2"), coord("3", "4")]);
    assert_eq!(
        g_points_to_w_linestring(&points),
        LineString(vec![coord("1", "2"), coord("3", "4")])
    );
    assert_eq!(
        g_linestring_to_w_linestring(&geo::LineString(points)),
        LineString(vec![coord("1", "2"), coord("3", "4")])
    );
    assert_eq!(g_points_to_w_coords(&vec![]), vec![]);
}

#[test]
fn segment_becomes_a_line_string_of_two() {
    let line = geo::Line { start: g_point("1", "2"), end: g_point("3", "4") };
    assert_eq!(
        g_line_to_w_linestring(&line),
        LineString(vec![coord("1", "2"), coord("3", "4")])
    );
    assert_eq!(
        g_geom_to_w_geom(&geo::Geometry::Line(line)),
        Geometry::LineString(LineString(vec![coord("1", "2"), coord("3", "4")]))
    );
}

#[test]
fn polygon_to_wkt_puts_the_exterior_first() {
    let ring = |x: &str| geo::LineString(vec![g_point(x, "0")]);
    let w_ring = |x: &str| LineString(vec![coord(x, "0")]);
    let polygon = geo::Polygon::new(ring("1"), vec![ring("2"), ring("3")]);
    assert_eq!(
        g_polygon_to_w_polygon(&polygon),
        Polygon(vec![w_ring("1"), w_ring("2"), w_ring("3")])
    );
    let bare = geo::Polygon::new(geo::LineString(vec![]), vec![]);
    assert_eq!(g_polygon_to_w_polygon(&bare), Polygon(vec![LineString(vec![])]));
    assert_eq!(
        g_lines_to_w_lines(&vec![ring("1"), ring("2")]),
        vec![w_ring("1"), w_ring("2")]
    );
    assert_eq!(
        g_polygons_to_w_polygons(&vec![bare, polygon]),
        vec![
            Polygon(vec![LineString(vec![])]),
            Polygon(vec![w_ring("1"), w_ring("2"), w_ring("3")]),
        ]
    );
}

#[test]
fn multi_geometries_to_wkt() {
    assert_eq!(
        g_mpoint_to_w_mpoint(&geo::MultiPoint(vec![g_point("1", "2"), g_point("3", "4")])),
        MultiPoint(vec![Point(Some(coord("1", "2"))), Point(Some(coord("3", "4")))])
    );
    assert_eq!(
        g_mline_to_w_mline(&geo::MultiLineString(vec![
            geo::LineString(vec![g_point("1", "2")]),
            geo::LineString(vec![]),
        ])),
        MultiLineString(vec![LineString(vec![coord("1", "2")]), LineString(vec![])])
    );
    assert_eq!(
        g_mpolygon_to_w_mpolygon(&geo::MultiPolygon(vec![geo::Polygon::new(
            geo::LineString(vec![g_point("1", "2")]),
            vec![]
        )])),
        MultiPolygon(vec![Polygon(vec![LineString(vec![coord("1", "2")])])])
    );
}

#[test]
fn collection_to_wkt_at_every_depth() {
    let inner = geo::GeometryCollection(vec![
        geo::Geometry::Point(g_point("1", "2")),
        geo::Geometry::Line(geo::Line { start: g_point("3", "4"), end: g_point("5", "6") }),
    ]);
    let outer = geo::GeometryCollection(vec![
        geo::Geometry::GeometryCollection(inner),
        geo::Geometry::MultiPoint(geo::MultiPoint(vec![])),
    ]);
    let expected = GeometryCollection(vec![
        Geometry::GeometryCollection(GeometryCollection(vec![
            Geometry::Point(Point(Some(coord("1", "2")))),
            Geometry::LineString(LineString(vec![coord("3", "4"), coord("5", "6")])),
        ])),
        Geometry::MultiPoint(MultiPoint(vec![])),
    ]);
    assert_eq!(g_geocol_to_w_geocol(&outer), expected);
    let wkt = geo::Geometry::GeometryCollection(outer).to_wkt();
    assert_eq!(1, wkt.items.len());
}

#[test]
fn to_geo_and_back_gives_the_same_geometry() {
    for text in [
        "POINT (1.50 -2)",
        "LINESTRING (1 2, 3 4, 5 6)",
        "LINESTRING EMPTY",
        "POLYGON ((8 4, 4 0, 0 4, 8 4), (7 3, 4 1, 1 4, 7 3))",
        "POLYGON (EMPTY)",
        "MULTIPOINT ((8 4), (4 0))",
        "MULTIPOINT EMPTY",
        "MULTILINESTRING ((8 4, -3 0), (4 0, 6 -10))",
        "MULTILINESTRING (EMPTY)",
        "MULTIPOLYGON (((40 40, 20 45, 45 30, 40 40)), ((20 35, 10 30), (30 20, 20 15)))",
        "MULTIPOLYGON EMPTY",
        "GEOMETRYCOLLECTION (POINT (4 6), LINESTRING (4 6, 7 10), GEOMETRYCOLLECTION EMPTY)",
        "GEOMETRYCOLLECTION EMPTY",
    ] {
        let wkt = Wkt::from_str(text).ok().unwrap();
        let back = wkt.items[0].to_geo().unwrap().to_wkt();
        assert_eq!(back, wkt, "{}", text);
    }
}

#[test]
fn to_geo_and_back_changes_what_the_plain_model_cannot_hold() {
    let empty_polygon = Wkt::from_str("POLYGON EMPTY").ok().unwrap();
    let back = empty_polygon.items[0].to_geo().unwrap().to_wkt();
    assert_eq!(back.items, vec![Geometry::Polygon(Polygon(vec![LineString(vec![])]))]);

    let holed = Wkt::from_str("MULTIPOINT ((1 2), EMPTY)").ok().unwrap();
    let back = holed.items[0].to_geo().unwrap().to_wkt();
    assert_eq!(
        back.items,
        vec![Geometry::MultiPoint(MultiPoint(vec![Point(Some(coord("1", "2")))]))]
    );

    let with_z = Geometry::Point(Point(Some(Coord {
        x: num("1"),
        y: num("2"),
        z: Some(num("3")),
        m: None,
    })));
    let back = with_z.to_geo().unwrap().to_wkt();
    assert_eq!(back.items, vec![Geometry::Point(Point(Some(coord("1", "2"))))]);
}
