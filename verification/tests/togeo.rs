use wkt::error::ConversionError;
use wkt::geo;
use wkt::number::Number;
use wkt::togeo::{
    coord_to_g_coord, linestring_to_g_linestring, point_to_g_point, polygon_to_g_polygon, ToGeo,
};
use wkt::types::{Coord, GeometryCollection, LineString, MultiPoint, Point, Polygon};
use wkt::{Geometry, Wkt};

fn num(text: &str) -> Number {
    Number::from_str(text).unwrap()
}

fn f(n: &Number) -> f64 {
    n.as_str().parse::<f64>().unwrap()
}

fn xy(point: &geo::Point) -> (f64, f64) {
    (f(&point.0.x), f(&point.0.y))
}

fn xys(line: &geo::LineString) -> Vec<(f64, f64)> {
    line.0.iter().map(xy).collect()
}

fn as_point(g: geo::Geometry) -> Option<geo::Point> {
    match g {
        geo::Geometry::Point(p) => Some(p),
        _ => None,
    }
}

fn as_linestring(g: geo::Geometry) -> Option<geo::LineString> {
    match g {
        geo::Geometry::LineString(l) => Some(l),
        _ => None,
    }
}

fn as_polygon(g: geo::Geometry) -> Option<geo::Polygon> {
    match g {
        geo::Geometry::Polygon(p) => Some(p),
        _ => None,
    }
}

fn as_multipoint(g: geo::Geometry) -> Option<geo::MultiPoint> {
    match g {
        geo::Geometry::MultiPoint(p) => Some(p),
        _ => None,
    }
}

fn as_multilinestring(g: geo::Geometry) -> Option<geo::MultiLineString> {
    match g {
        geo::Geometry::MultiLineString(l) => Some(l),
        _ => None,
    }
}

fn as_multipolygon(g: geo::Geometry) -> Option<geo::MultiPolygon> {
    match g {
        geo::Geometry::MultiPolygon(p) => Some(p),
        _ => None,
    }
}

#[test]
fn conversion_converting_point_to_geo() {
    let c: Coord = Coord::new(num("12.0"), num("34.0"));
    let p = Geometry::Point(Point(Some(c)));
    let g_point: geo::Point = as_point(p.to_geo().unwrap()).unwrap();
    assert_eq!(12.0, f(&g_point.0.x));
    assert_eq!(34.0, f(&g_point.0.y));
}

#[test]
fn conversion_converting_linestring_to_geo() {
    let wkt: Wkt = Wkt::from_str("LINESTRING (10 -20, -0 -0.5)").ok().unwrap();
    let ls = &wkt.items[0];
    assert_eq!(1, wkt.items.len());
    match ls {
        Geometry::LineString(_) => {
            let g_ls = as_linestring(ls.to_geo().unwrap()).unwrap();

            let mut coords = g_ls.0.into_iter();

            let c1 = coords.next().unwrap();
            assert_eq!(10.0, f(&c1.0.x));
            assert_eq!(-20.0, f(&c1.0.y));

            let c2 = coords.next().unwrap();
            assert_eq!(0.0, f(&c2.0.x));
            assert_eq!(-0.5, f(&c2.0.y));
        }
        _ => assert!(false, "should be linestring!"),
    }
}

#[test]
fn conversion_converting_polygon_to_geo() {
    let wkt: Wkt = Wkt::from_str("POLYGON ((8 4, 4 0, 0 4, 8 4), (7 3, 4 1, 1 4, 7 3))")
        .ok()
        .unwrap();
    assert_eq!(1, wkt.items.len());
    let poly = &wkt.items[0];
    match poly {
        Geometry::Polygon(_) => {
            let g_poly: geo::Polygon = as_polygon(poly.to_geo().unwrap()).unwrap();

            let outer_exp = vec![(8.0, 4.0), (4.0, 0.0), (0.0, 4.0), (8.0, 4.0)];
            let outer_coords = xys(&g_poly.exterior);
            assert_eq!(outer_coords.len(), outer_exp.len());

            for ((x1, y1), (x2, y2)) in outer_coords.into_iter().zip(outer_exp) {
                assert_eq!(x1, x2);
                assert_eq!(y1, y2);
            }

            assert_eq!(1, g_poly.interiors.len());

            let inner_exp = vec![(7.0, 3.0), (4.0, 1.0), (1.0, 4.0), (7.0, 3.0)];
            let inner_coords = xys(&g_poly.interiors[0]);
            assert_eq!(inner_coords.len(), inner_exp.len());

            for ((x1, y1), (x2, y2)) in inner_coords.into_iter().zip(inner_exp) {
                assert_eq!(x1, x2);
                assert_eq!(y1, y2);
            }
        }
        _ => assert!(false, "should be linestring!"),
    }
}

#[test]
fn togeo_converting_point_to_geo() {
    let c: Coord = Coord::new(num("12.0"), num("34.0"));
    let p = Geometry::Point(Point(Some(c)));
    let g_point: geo::Point = as_point(p.to_geo().unwrap()).unwrap();
    assert_eq!(12.0, f(&g_point.0.x));
    assert_eq!(34.0, f(&g_point.0.y));
    assert_eq!("12.0", g_point.0.x.as_str());
    assert_eq!("34.0", g_point.0.y.as_str());
}

#[test]
fn togeo_converting_linestring_to_geo() {
    let wkt: Wkt = Wkt::from_str("LINESTRING (10 -20, -0 -0.5)").ok().unwrap();
    let ls = &wkt.items[0];
    assert_eq!(1, wkt.items.len());
    match ls {
        Geometry::LineString(_) => {
            let g_ls = as_linestring(ls.to_geo().unwrap()).unwrap();
            assert_eq!(2, g_ls.0.len());

            let mut coords = g_ls.0.into_iter();

            let c1 = coords.next().unwrap();
            assert_eq!(10.0, f(&c1.0.x));
            assert_eq!(-20.0, f(&c1.0.y));

            let c2 = coords.next().unwrap();
            assert_eq!(0.0, f(&c2.0.x));
            assert_eq!(-0.5, f(&c2.0.y));
        }
        _ => assert!(false, "should be linestring!"),
    }
}

#[test]
fn converting_empty_poly() {
    let wkt: Wkt = Wkt::from_str("POLYGON EMPTY").ok().unwrap();
    assert_eq!(1, wkt.items.len());
    let poly = &wkt.items[0];
    match poly {
        Geometry::Polygon(_) => {
            let g_poly: geo::Polygon = as_polygon(poly.to_geo().unwrap()).unwrap();
            assert_eq!(0, g_poly.exterior.0.into_iter().len());
            assert_eq!(0, g_poly.interiors.len());
        }
        _ => assert!(false, "should be polygon!"),
    }
}

#[test]
fn togeo_converting_polygon_to_geo() {
    let wkt: Wkt = Wkt::from_str("POLYGON ((8 4, 4 0, 0 4, 8 4), (7 3, 4 1, 1 4, 7 3))")
        .ok()
        .unwrap();
    assert_eq!(1, wkt.items.len());
    let poly = &wkt.items[0];
    match poly {
        Geometry::Polygon(_) => {
            let g_poly: geo::Polygon = as_polygon(poly.to_geo().unwrap()).unwrap();

            let outer_exp = vec![(8.0, 4.0), (4.0, 0.0), (0.0, 4.0), (8.0, 4.0)];
            let outer_coords = xys(&g_poly.exterior);
            assert_eq!(outer_coords.len(), outer_exp.len());

            for ((x1, y1), (x2, y2)) in outer_coords.into_iter().zip(outer_exp) {
                assert_eq!(x1, x2);
                assert_eq!(y1, y2);
            }

            assert_eq!(1, g_poly.interiors.len());

            let inner_exp = vec![(7.0, 3.0), (4.0, 1.0), (1.0, 4.0), (7.0, 3.0)];
            let inner_coords = xys(&g_poly.interiors[0]);
            assert_eq!(inner_coords.len(), inner_exp.len());

            for ((x1, y1), (x2, y2)) in inner_coords.into_iter().zip(inner_exp) {
                assert_eq!(x1, x2);
                assert_eq!(y1, y2);
            }
        }
        _ => assert!(false, "should be polygon!"),
    }
}

#[test]
fn converting_empty_multi_point() {
    let wkt: Wkt = Wkt::from_str("MULTIPOINT EMPTY").ok().unwrap();
    let mp = &wkt.items[0];
    assert_eq!(1, wkt.items.len());
    match mp {
        Geometry::MultiPoint(_) => {
            let g_mp: geo::MultiPoint = as_multipoint(mp.to_geo().unwrap()).unwrap();
            assert_eq!(0, g_mp.0.len());
        }
        _ => assert!(false, "Should be a MultiPoint"),
    }
}

#[test]
fn converting_multi_point_to_geo() {
    let wkt: Wkt = Wkt::from_str("MULTIPOINT ((8 4), (4 0))").ok().unwrap();
    let mp = &wkt.items[0];
    match mp {
        Geometry::MultiPoint(_) => {
            let g_mp: geo::MultiPoint = as_multipoint(mp.to_geo().unwrap()).unwrap();
            let exp = vec![(8.0, 4.0), (4.0, 0.0)];
            let coords: Vec<(f64, f64)> = g_mp.0.iter().map(xy).collect();

            assert_eq!(exp.len(), coords.len());

            for ((x1, y1), (x2, y2)) in coords.into_iter().zip(exp) {
                assert_eq!(x1, x2);
                assert_eq!(y1, y2);
            }
        }
        _ => assert!(false, "Should be a MultiPoint"),
    }
}

#[test]
fn converting_empty_multi_line_string() {
    let wkt: Wkt = Wkt::from_str("MULTILINESTRING EMPTY").ok().unwrap();
    assert_eq!(1, wkt.items.len());
    let mls = &wkt.items[0];
    match mls {
        Geometry::MultiLineString(_) => {
            let g_mls: geo::MultiLineString = as_multilinestring(mls.to_geo().unwrap()).unwrap();
            assert_eq!(0, g_mls.0.len());
        }
        _ => assert!(false, "Should be a MultiLineString"),
    }
}

#[test]
fn converting_multi_line_string() {
    let wkt: Wkt = Wkt::from_str("MULTILINESTRING ((8 4, -3 0), (4 0, 6 -10))")
        .ok()
        .unwrap();
    assert_eq!(1, wkt.items.len());
    let mls = &wkt.items[0];
    match mls {
        Geometry::MultiLineString(_) => {
            let g_mls: geo::MultiLineString = as_multilinestring(mls.to_geo().unwrap()).unwrap();
            assert_eq!(2, g_mls.0.len());

            let exp = vec![
                vec![(8.0, 4.0), (-3.0, 0.0)],
                vec![(4.0, 0.0), (6.0, -10.0)],
            ];

            for (i, ls) in g_mls.0.iter().enumerate() {
                let coords_i = xys(ls);
                let exp_i = exp.get(i).unwrap();
                assert_eq!(coords_i.len(), exp_i.len());

                for ((x1, y1), (x2, y2)) in coords_i.into_iter().zip(exp_i.iter()) {
                    assert_eq!(x1, *x2);
                    assert_eq!(y1, *y2);
                }
            }
        }
        _ => assert!(false, "Should be a MultiLineString"),
    }
}

#[test]
fn converting_empty_multi_poly() {
    let wkt: Wkt = Wkt::from_str("MULTIPOLYGON EMPTY").ok().unwrap();
    assert_eq!(1, wkt.items.len());
    let mp = &wkt.items[0];
    match mp {
        Geometry::MultiPolygon(_) => {
            let g_mls: geo::MultiPolygon = as_multipolygon(mp.to_geo().unwrap()).unwrap();
            assert_eq!(0, g_mls.0.len());
        }
        _ => assert!(false, "Should be a MultiLineString"),
    }
}

#[test]
fn converting_multi_polygon() {
    let wkt_str = "MULTIPOLYGON (((40 40, 20 45, 45 30, 40 40)),
                                     ((20 35, 10 30, 10 10, 30 5, 45 20, 20 35),
                                      (30 20, 20 15, 20 25, 30 20)))";
    let wkt: Wkt = Wkt::from_str(wkt_str).ok().unwrap();
    assert_eq!(1, wkt.items.len());
    let mp = &wkt.items[0];
    match mp {
        Geometry::MultiPolygon(_) => {
            let g_mls: geo::MultiPolygon = as_multipolygon(mp.to_geo().unwrap()).unwrap();
            assert_eq!(2, g_mls.0.len());

            let exp_outer1 = vec![(40.0, 40.0), (20.0, 45.0), (45.0, 30.0), (40.0, 40.0)];

            let poly1 = &g_mls.0[0];
            let outer_coords = xys(&poly1.exterior);
            assert_eq!(outer_coords.len(), exp_outer1.len());

            for ((x1, y1), (x2, y2)) in outer_coords.into_iter().zip(exp_outer1.iter()) {
                assert_eq!(x1, *x2);
                assert_eq!(y1, *y2);
            }
            assert_eq!(0, poly1.interiors.len());

            let poly2 = &g_mls.0[1];
            let outer_coords = xys(&poly2.exterior);
            let inner_coords = xys(&poly2.interiors[0]);

            let exp_outer2 = vec![
                (20.0, 35.0),
                (10.0, 30.0),
                (10.0, 10.0),
                (30.0, 5.0),
                (45.0, 20.0),
                (20.0, 35.0),
            ];
            assert_eq!(outer_coords.len(), exp_outer2.len());

            for ((x1, y1), (x2, y2)) in outer_coords.into_iter().zip(exp_outer2.iter()) {
                assert_eq!(x1, *x2);
                assert_eq!(y1, *y2);
            }

            assert_eq!(1, poly2.interiors.len());
            let exp_inner = vec![(30.0, 20.0), (20.0, 15.0), (20.0, 25.0), (30.0, 20.0)];
            assert_eq!(inner_coords.len(), exp_inner.len());
            for ((x1, y1), (x2, y2)) in inner_coords.into_iter().zip(exp_inner.iter()) {
                assert_eq!(x1, *x2);
                assert_eq!(y1, *y2);
            }
        }
        _ => assert!(false, "Should be a MultiPolygon"),
    }
}

#[test]
fn converting_empty_geometry_collection() {
    let wkt: Wkt = Wkt::from_str("GEOMETRYCOLLECTION EMPTY").ok().unwrap();
    assert_eq!(1, wkt.items.len());
    let gc = &wkt.items[0];
    match gc {
        Geometry::GeometryCollection(_) => {
            let geom: geo::Geometry = gc.to_geo().unwrap();
            match geom {
                geo::Geometry::GeometryCollection(g_gc) => {
                    assert_eq!(0, g_gc.0.len());
                }
                _ => assert!(false, "Should be a Geom Collection"),
            }
        }
        _ => assert!(false, "Should be a Geom Collection"),
    }
}

#[test]
fn converting_geometry_collection() {
    let wkt: Wkt = Wkt::from_str("GEOMETRYCOLLECTION(POINT(4 6),LINESTRING(4 6,7 10))")
        .ok()
        .unwrap();
    assert_eq!(1, wkt.items.len());
    let gc = &wkt.items[0];
    match gc {
        Geometry::GeometryCollection(_) => {
            let geom: geo::Geometry = gc.to_geo().unwrap();
            match geom {
                geo::Geometry::GeometryCollection(g_gc) => {
                    assert_eq!(2, g_gc.0.len());
                    match g_gc.0[0] {
                        geo::Geometry::Point(ref p) => {
                            assert_eq!(4.0, f(&p.0.x));
                            assert_eq!(6.0, f(&p.0.y));
                        }
                        _ => assert!(false, "First element should be a point"),
                    }
                    match g_gc.0[1] {
                        geo::Geometry::LineString(ref ls) => {
                            assert_eq!(2, ls.0.len());
                            assert_eq!(4.0, f(&ls.0[0].0.x));
                            assert_eq!(6.0, f(&ls.0[0].0.y));

                            assert_eq!(7.0, f(&ls.0[1].0.x));
                            assert_eq!(10.0, f(&ls.0[1].0.y));
                        }
                        _ => assert!(false, "First element should be a point"),
                    }
                }
                _ => assert!(false, "Should be a Geom Collection"),
            }
        }
        _ => assert!(false, "Should be a Geom Collection"),
    }
}

#[test]
fn empty_point_has_no_plain_geometry() {
    let wkt = Wkt::from_str("POINT EMPTY").ok().unwrap();
    assert_eq!(wkt.items[0].to_geo(), Err(ConversionError::EmptyPoint));
    assert_eq!(ConversionError::EmptyPoint.message(), "not implemented");
    assert_eq!(point_to_g_point(&Point(None)), None);
}

#[test]
fn multi_point_passes_over_empty_points() {
    let wkt = Wkt::from_str("MULTIPOINT (EMPTY, (1 2), EMPTY, (3 4), EMPTY)").ok().unwrap();
    match &wkt.items[0] {
        Geometry::MultiPoint(MultiPoint(points)) => assert_eq!(5, points.len()),
        _ => unreachable!(),
    }
    let g_mp = as_multipoint(wkt.items[0].to_geo().unwrap()).unwrap();
    let coords: Vec<(f64, f64)> = g_mp.0.iter().map(xy).collect();
    assert_eq!(coords, vec![(1.0, 2.0), (3.0, 4.0)]);
    let wkt = Wkt::from_str("MULTIPOINT (EMPTY)").ok().unwrap();
    assert_eq!(0, as_multipoint(wkt.items[0].to_geo().unwrap()).unwrap().0.len());
}

#[test]
fn collection_fails_on_an_empty_point_member() {
    for text in [
        "GEOMETRYCOLLECTION (POINT EMPTY)",
        "GEOMETRYCOLLECTION (POINT (1 2), POINT EMPTY, POINT (3 4))",
        "GEOMETRYCOLLECTION (LINESTRING (1 2), GEOMETRYCOLLECTION (POINT EMPTY))",
    ] {
        let wkt = Wkt::from_str(text).ok().unwrap();
        assert_eq!(wkt.items[0].to_geo(), Err(ConversionError::EmptyPoint), "{}", text);
    }
    let wkt = Wkt::from_str("GEOMETRYCOLLECTION (MULTIPOINT (EMPTY), POLYGON EMPTY)").ok().unwrap();
    match wkt.items[0].to_geo().unwrap() {
        geo::Geometry::GeometryCollection(geo::GeometryCollection(members)) => {
            assert_eq!(2, members.len());
            assert_eq!(members[0], geo::Geometry::MultiPoint(geo::MultiPoint(vec![])));
            assert_eq!(
                members[1],
                geo::Geometry::Polygon(geo::Polygon::new(geo::LineString(vec![]), vec![]))
            );
        }
        _ => unreachable!(),
    }
}

#[test]
fn nested_collection_is_converted_at_every_depth() {
    let text = "GEOMETRYCOLLECTION (GEOMETRYCOLLECTION (POINT (1 2)), MULTILINESTRING ((3 4, 5 6)))";
    let wkt = Wkt::from_str(text).ok().unwrap();
    let expected = geo::Geometry::GeometryCollection(geo::GeometryCollection(vec![
        geo::Geometry::GeometryCollection(geo::GeometryCollection(vec![geo::Geometry::Point(
            geo::Point(geo::Coordinate { x: num("1"), y: num("2") }),
        )])),
        geo::Geometry::MultiLineString(geo::MultiLineString(vec![geo::LineString(vec![
            geo::Point(geo::Coordinate { x: num("3"), y: num("4") }),
            geo::Point(geo::Coordinate { x: num("5"), y: num("6") }),
        ])])),
    ]));
    assert_eq!(wkt.items[0].to_geo(), Ok(expected));
}

#[test]
fn z_and_m_are_left_out() {
    let coord = Coord { x: num("1"), y: num("2"), z: Some(num("3")), m: Some(num("4")) };
    assert_eq!(coord_to_g_coord(&coord), geo::Coordinate { x: num("1"), y: num("2") });
    let line = LineString(vec![coord]);
    assert_eq!(
        linestring_to_g_linestring(&line),
        geo::LineString(vec![geo::Point(geo::Coordinate { x: num("1"), y: num("2") })])
    );
}

#[test]
fn polygon_rings_become_exterior_and_interiors() {
    let ring = |x: &str| LineString(vec![Coord::new(num(x), num("0"))]);
    let g_ring = |x: &str| geo::LineString(vec![geo::Point(geo::Coordinate { x: num(x), y: num("0") })]);
    let g_poly = polygon_to_g_polygon(&Polygon(vec![ring("1"), ring("2"), ring("3")]));
    assert_eq!(g_poly.exterior, g_ring("1"));
    assert_eq!(g_poly.interiors, vec![g_ring("2"), g_ring("3")]);
    let g_poly = polygon_to_g_polygon(&Polygon(vec![ring("1")]));
    assert_eq!(g_poly, geo::Polygon::new(g_ring("1"), vec![]));
    let g_poly = polygon_to_g_polygon(&Polygon(vec![]));
    assert_eq!(g_poly, geo::Polygon::new(geo::LineString(vec![]), vec![]));
}

#[test]
fn collection_of_nothing_converts_to_nothing() {
    let g = Geometry::GeometryCollection(GeometryCollection(vec![]));
    assert_eq!(
        g.to_geo(),
        Ok(geo::Geometry::GeometryCollection(geo::GeometryCollection(vec![])))
    );
}
