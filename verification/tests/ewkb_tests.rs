use postgis::ewkb::{
    Point, PointZ, PointM, PointZM, PointType, LineStringT, PolygonT, MultiPointT,
    MultiLineStringT, MultiPolygonT, GeometryT, GeometryCollectionT, hex_to_vec, wkb_type_id,
};
use postgis::error::Error;

fn b(v: f64) -> u64 {
    v.to_bits()
}

#[test]
fn test_point_write() {
    // 'POINT (10 -20)'
    let point = Point { x: b(10.0), y: b(-20.0), srid: None };
    assert_eq!(point.to_hex_ewkb(), "0101000000000000000000244000000000000034C0");

    // 'POINT (10 -20 100)'
    let point = PointZ { x: b(10.0), y: b(-20.0), z: b(100.0), srid: None };
    assert_eq!(point.to_hex_ewkb(), "0101000080000000000000244000000000000034C00000000000005940");

    // 'POINTM (10 -20 1)'
    let point = PointM { x: b(10.0), y: b(-20.0), m: b(1.0), srid: None };
    assert_eq!(point.to_hex_ewkb(), "0101000040000000000000244000000000000034C0000000000000F03F");

    // 'POINT (10 -20 100 1)'
    let point = PointZM { x: b(10.0), y: b(-20.0), z: b(100.0), m: b(1.0), srid: None };
    assert_eq!(
        point.to_hex_ewkb(),
        "01010000C0000000000000244000000000000034C00000000000005940000000000000F03F"
    );

    // 'POINT (-0 -1)'
    let point = Point { x: b(0.0), y: b(-1.0), srid: None };
    assert_eq!(point.to_hex_ewkb(), "01010000000000000000000000000000000000F0BF");

    // 'SRID=4326;POINT (10 -20)'
    let point = Point { x: b(10.0), y: b(-20.0), srid: Some(4326) };
    assert_eq!(point.to_hex_ewkb(), "0101000020E6100000000000000000244000000000000034C0");
}

#[test]
fn test_line_write() {
    let p = |x, y| Point { x: b(x), y: b(y), srid: None };
    // 'LINESTRING (10 -20, 0 -0.5)'
    let line = LineStringT::<Point> { srid: None, points: vec![p(10.0, -20.0), p(0., -0.5)] };
    assert_eq!(
        line.to_hex_ewkb(),
        "010200000002000000000000000000244000000000000034C00000000000000000000000000000E0BF"
    );

    // 'SRID=4326;LINESTRING (10 -20, 0 -0.5)'
    let line = LineStringT::<Point> { srid: Some(4326), points: vec![p(10.0, -20.0), p(0., -0.5)] };
    assert_eq!(
        line.to_hex_ewkb(),
        "0102000020E610000002000000000000000000244000000000000034C00000000000000000000000000000E0BF"
    );

    let p = |x, y, z| PointZ { x: b(x), y: b(y), z: b(z), srid: Some(4326) };
    // 'SRID=4326;LINESTRING (10 -20 100, 0 0.5 101)'
    let line = LineStringT::<PointZ> {
        srid: Some(4326),
        points: vec![p(10.0, -20.0, 100.0), p(0., -0.5, 101.0)],
    };
    assert_eq!(
        line.to_hex_ewkb(),
        "01020000A0E610000002000000000000000000244000000000000034C000000000000059400000000000000000000000000000E0BF0000000000405940"
    );
}

#[test]
fn test_polygon_write() {
    let p = |x, y| Point { x: b(x), y: b(y), srid: Some(4326) };
    // SELECT 'SRID=4326;POLYGON ((0 0, 2 0, 2 2, 0 2, 0 0))'::geometry
    let line = LineStringT::<Point> {
        srid: Some(4326),
        points: vec![p(0., 0.), p(2., 0.), p(2., 2.), p(0., 2.), p(0., 0.)],
    };
    let poly = PolygonT::<Point> { srid: Some(4326), rings: vec![line] };
    assert_eq!(
        poly.to_hex_ewkb(),
        "0103000020E610000001000000050000000000000000000000000000000000000000000000000000400000000000000000000000000000004000000000000000400000000000000000000000000000004000000000000000000000000000000000"
    );
}

#[test]
fn test_multipoint_write() {
    let p = |x, y, z| PointZ { x: b(x), y: b(y), z: b(z), srid: Some(4326) };
    // SELECT 'SRID=4326;MULTIPOINT ((10 -20 100), (0 -0.5 101))'::geometry
    let points = MultiPointT::<PointZ> {
        srid: Some(4326),
        points: vec![p(10.0, -20.0, 100.0), p(0., -0.5, 101.0)],
    };
    assert_eq!(
        points.to_hex_ewkb(),
        "01040000A0E6100000020000000101000080000000000000244000000000000034C0000000000000594001010000800000000000000000000000000000E0BF0000000000405940"
    );
}

#[test]
fn test_multiline_write() {
    let p = |x, y| Point { x: b(x), y: b(y), srid: Some(4326) };
    // SELECT 'SRID=4326;MULTILINESTRING ((10 -20, 0 -0.5), (0 0, 2 0))'::geometry
    let line1 = LineStringT::<Point> { srid: Some(4326), points: vec![p(10.0, -20.0), p(0., -0.5)] };
    let line2 = LineStringT::<Point> { srid: Some(4326), points: vec![p(0., 0.), p(2., 0.)] };
    let multiline = MultiLineStringT::<Point> { srid: Some(4326), lines: vec![line1, line2] };
    assert_eq!(
        multiline.to_hex_ewkb(),
        "0105000020E610000002000000010200000002000000000000000000244000000000000034C00000000000000000000000000000E0BF0102000000020000000000000000000000000000000000000000000000000000400000000000000000"
    );
}

#[test]
fn test_multipolygon_write() {
    let p = |x, y| Point { x: b(x), y: b(y), srid: Some(4326) };
    // SELECT 'SRID=4326;MULTIPOLYGON (((0 0, 2 0, 2 2, 0 2, 0 0)), ((10 10, -2 10, -2 -2, 10 -2, 10 10)))'::geometry
    let line = LineStringT::<Point> {
        srid: Some(4326),
        points: vec![p(0., 0.), p(2., 0.), p(2., 2.), p(0., 2.), p(0., 0.)],
    };
    let poly1 = PolygonT::<Point> { srid: Some(4326), rings: vec![line] };
    let line = LineStringT::<Point> {
        srid: Some(4326),
        points: vec![p(10., 10.), p(-2., 10.), p(-2., -2.), p(10., -2.), p(10., 10.)],
    };
    let poly2 = PolygonT::<Point> { srid: Some(4326), rings: vec![line] };
    let multipoly = MultiPolygonT::<Point> { srid: Some(4326), polygons: vec![poly1, poly2] };
    assert_eq!(
        multipoly.to_hex_ewkb(),
        "0106000020E610000002000000010300000001000000050000000000000000000000000000000000000000000000000000400000000000000000000000000000004000000000000000400000000000000000000000000000004000000000000000000000000000000000010300000001000000050000000000000000002440000000000000244000000000000000C0000000000000244000000000000000C000000000000000C0000000000000244000000000000000C000000000000024400000000000002440"
    );
}

#[test]
fn test_ewkb_adapters() {
    let point = Point { x: b(10.0), y: b(-20.0), srid: Some(4326) };
    assert_eq!(point.to_hex_ewkb(), "0101000020E6100000000000000000244000000000000034C0");
    let mut buf: Vec<u8> = Vec::new();
    point.write_ewkb(&mut buf);
    assert_eq!(buf, hex_to_vec("0101000020E6100000000000000000244000000000000034C0"));
}

#[test]
fn test_point_read() {
    // SELECT 'POINT(10 -20)'::geometry
    let ewkb = hex_to_vec("0101000000000000000000244000000000000034C0");
    assert_eq!(
        ewkb,
        &[1, 1, 0, 0, 0, 0, 0, 0, 0, 0, 0, 36, 64, 0, 0, 0, 0, 0, 0, 52, 192]
    );
    let point = Point::read_ewkb(&ewkb).unwrap();
    assert_eq!(point, Point { x: b(10.0), y: b(-20.0), srid: None });

    // SELECT 'POINT(10 -20 100)'::geometry
    let ewkb = hex_to_vec("0101000080000000000000244000000000000034C00000000000005940");
    let point = PointZ::read_ewkb(&ewkb).unwrap();
    assert_eq!(point, PointZ { x: b(10.0), y: b(-20.0), z: b(100.0), srid: None });

    let point = Point::read_ewkb(&ewkb).unwrap();
    assert_eq!(point, Point { x: b(10.0), y: b(-20.0), srid: None });

    // SELECT 'POINTM(10 -20 1)'::geometry
    let ewkb = hex_to_vec("0101000040000000000000244000000000000034C0000000000000F03F");
    let point = PointM::read_ewkb(&ewkb).unwrap();
    assert_eq!(point, PointM { x: b(10.0), y: b(-20.0), m: b(1.0), srid: None });

    // SELECT 'POINT(10 -20 100 1)'::geometry
    let ewkb =
        hex_to_vec("01010000C0000000000000244000000000000034C00000000000005940000000000000F03F");
    let point = PointZM::read_ewkb(&ewkb).unwrap();
    assert_eq!(point, PointZM { x: b(10.0), y: b(-20.0), z: b(100.0), m: b(1.0), srid: None });
}

#[test]
fn test_line_read() {
    let p = |x, y| Point { x: b(x), y: b(y), srid: None };
    // SELECT 'LINESTRING (10 -20, 0 -0.5)'::geometry
    let ewkb = hex_to_vec(
        "010200000002000000000000000000244000000000000034C00000000000000000000000000000E0BF",
    );
    let line = LineStringT::<Point>::read_ewkb(&ewkb).unwrap();
    assert_eq!(line, LineStringT::<Point> { srid: None, points: vec![p(10.0, -20.0), p(0., -0.5)] });

    let p = |x, y, z| PointZ { x: b(x), y: b(y), z: b(z), srid: Some(4326) };
    // SELECT 'SRID=4326;LINESTRING (10 -20 100, 0 -0.5 101)'::geometry
    let ewkb = hex_to_vec(
        "01020000A0E610000002000000000000000000244000000000000034C000000000000059400000000000000000000000000000E0BF0000000000405940",
    );
    let line = LineStringT::<PointZ>::read_ewkb(&ewkb).unwrap();
    assert_eq!(
        line,
        LineStringT::<PointZ> {
            srid: Some(4326),
            points: vec![p(10.0, -20.0, 100.0), p(0., -0.5, 101.0)],
        }
    );
}

#[test]
fn test_polygon_read() {
    let p = |x, y| Point { x: b(x), y: b(y), srid: Some(4326) };
    // SELECT 'SRID=4326;POLYGON ((0 0, 2 0, 2 2, 0 2, 0 0))'::geometry
    let ewkb = hex_to_vec(
        "0103000020E610000001000000050000000000000000000000000000000000000000000000000000400000000000000000000000000000004000000000000000400000000000000000000000000000004000000000000000000000000000000000",
    );
    let poly = PolygonT::<Point>::read_ewkb(&ewkb).unwrap();
    let line = LineStringT::<Point> {
        srid: Some(4326),
        points: vec![p(0., 0.), p(2., 0.), p(2., 2.), p(0., 2.), p(0., 0.)],
    };
    assert_eq!(poly, PolygonT::<Point> { srid: Some(4326), rings: vec![line] });
}

#[test]
fn test_multipoint_read() {
    let p = |x, y, z| PointZ { x: b(x), y: b(y), z: b(z), srid: None };  // PostGIS doesn't store SRID for sub-geometries
    // SELECT 'SRID=4326;MULTIPOINT ((10 -20 100), (0 -0.5 101))'::geometry
    let ewkb = hex_to_vec(
        "01040000A0E6100000020000000101000080000000000000244000000000000034C0000000000000594001010000800000000000000000000000000000E0BF0000000000405940",
    );
    let points = MultiPointT::<PointZ>::read_ewkb(&ewkb).unwrap();
    assert_eq!(
        points,
        MultiPointT::<PointZ> {
            srid: Some(4326),
            points: vec![p(10.0, -20.0, 100.0), p(0., -0.5, 101.0)],
        }
    );
}

#[test]
fn test_multiline_read() {
    let p = |x, y| Point { x: b(x), y: b(y), srid: None };  // PostGIS doesn't store SRID for sub-geometries
    // SELECT 'SRID=4326;MULTILINESTRING ((10 -20, 0 -0.5), (0 0, 2 0))'::geometry
    let ewkb = hex_to_vec(
        "0105000020E610000002000000010200000002000000000000000000244000000000000034C00000000000000000000000000000E0BF0102000000020000000000000000000000000000000000000000000000000000400000000000000000",
    );
    let poly = MultiLineStringT::<Point>::read_ewkb(&ewkb).unwrap();
    let line1 = LineStringT::<Point> { srid: None, points: vec![p(10.0, -20.0), p(0., -0.5)] };
    let line2 = LineStringT::<Point> { srid: None, points: vec![p(0., 0.), p(2., 0.)] };
    assert_eq!(poly, MultiLineStringT::<Point> { srid: Some(4326), lines: vec![line1, line2] });
}

#[test]
fn test_multipolygon_read() {
    let p = |x, y| Point { x: b(x), y: b(y), srid: None };  // PostGIS doesn't store SRID for sub-geometries
    // SELECT 'SRID=4326;MULTIPOLYGON (((0 0, 2 0, 2 2, 0 2, 0 0)), ((10 10, -2 10, -2 -2, 10 -2, 10 10)))'::geometry
    let ewkb = hex_to_vec(
        "0106000020E610000002000000010300000001000000050000000000000000000000000000000000000000000000000000400000000000000000000000000000004000000000000000400000000000000000000000000000004000000000000000000000000000000000010300000001000000050000000000000000002440000000000000244000000000000000C0000000000000244000000000000000C000000000000000C0000000000000244000000000000000C000000000000024400000000000002440",
    );
    let multipoly = MultiPolygonT::<Point>::read_ewkb(&ewkb).unwrap();
    let line = LineStringT::<Point> {
        srid: None,
        points: vec![p(0., 0.), p(2., 0.), p(2., 2.), p(0., 2.), p(0., 0.)],
    };
    let poly1 = PolygonT::<Point> { srid: None, rings: vec![line] };
    let line = LineStringT::<Point> {
        srid: None,
        points: vec![p(10., 10.), p(-2., 10.), p(-2., -2.), p(10., -2.), p(10., 10.)],
    };
    let poly2 = PolygonT::<Point> { srid: None, rings: vec![line] };
    assert_eq!(multipoly, MultiPolygonT::<Point> { srid: Some(4326), polygons: vec![poly1, poly2] });
}

#[test]
fn test_geometrycollection_read() {
    // SELECT 'GeometryCollection(POINT (10 10),POINT (30 30),LINESTRING (15 15, 20 20))'::geometry
    let ewkb = hex_to_vec(
        "01070000000300000001010000000000000000002440000000000000244001010000000000000000003E400000000000003E400102000000020000000000000000002E400000000000002E4000000000000034400000000000003440",
    );
    let geom = GeometryCollectionT::<Point>::read_ewkb(&ewkb).unwrap();
    assert_eq!(geom.srid, None);
    assert_eq!(geom.geometries.len(), 3);
    match &geom.geometries[0] {
        GeometryT::Point(p) => assert_eq!(*p, Point { x: b(10.0), y: b(10.0), srid: None }),
        _ => panic!("expected a point"),
    }
    match &geom.geometries[1] {
        GeometryT::Point(p) => assert_eq!(*p, Point { x: b(30.0), y: b(30.0), srid: None }),
        _ => panic!("expected a point"),
    }
    match &geom.geometries[2] {
        GeometryT::LineString(l) => {
            let p = |x, y| Point { x: b(x), y: b(y), srid: None };
            assert_eq!(
                *l,
                LineStringT::<Point> { srid: None, points: vec![p(15., 15.), p(20., 20.)] }
            );
        },
        _ => panic!("expected a linestring"),
    }
}

#[test]
fn test_geometry_read() {
    // SELECT 'POINT(10 -20 100 1)'::geometry
    let ewkb =
        hex_to_vec("01010000C0000000000000244000000000000034C00000000000005940000000000000F03F");
    let geom = GeometryT::<PointZM>::read_ewkb(&ewkb).unwrap();
    match &geom {
        GeometryT::Point(p) => assert_eq!(
            *p,
            PointZM { x: b(10.0), y: b(-20.0), z: b(100.0), m: b(1.0), srid: None }
        ),
        _ => panic!("expected a point"),
    }
    // SELECT 'SRID=4326;LINESTRING (10 -20 100, 0 -0.5 101)'::geometry
    let ewkb = hex_to_vec(
        "01020000A0E610000002000000000000000000244000000000000034C000000000000059400000000000000000000000000000E0BF0000000000405940",
    );
    let geom = GeometryT::<PointZ>::read_ewkb(&ewkb).unwrap();
    match &geom {
        GeometryT::LineString(l) => {
            let p = |x, y, z| PointZ { x: b(x), y: b(y), z: b(z), srid: Some(4326) };
            assert_eq!(
                *l,
                LineStringT::<PointZ> {
                    srid: Some(4326),
                    points: vec![p(10.0, -20.0, 100.0), p(0., -0.5, 101.0)],
                }
            );
        },
        _ => panic!("expected a linestring"),
    }
    // SELECT 'SRID=4326;POLYGON ((0 0, 2 0, 2 2, 0 2, 0 0))'::geometry
    let ewkb = hex_to_vec(
        "0103000020E610000001000000050000000000000000000000000000000000000000000000000000400000000000000000000000000000004000000000000000400000000000000000000000000000004000000000000000000000000000000000",
    );
    let geom = GeometryT::<Point>::read_ewkb(&ewkb).unwrap();
    match &geom {
        GeometryT::Polygon(y) => {
            let p = |x, y| Point { x: b(x), y: b(y), srid: Some(4326) };
            let ring = LineStringT::<Point> {
                srid: Some(4326),
                points: vec![p(0., 0.), p(2., 0.), p(2., 2.), p(0., 2.), p(0., 0.)],
            };
            assert_eq!(*y, PolygonT::<Point> { srid: Some(4326), rings: vec![ring] });
        },
        _ => panic!("expected a polygon"),
    }
    // SELECT 'SRID=4326;MULTIPOINT ((10 -20 100), (0 -0.5 101))'::geometry
    let ewkb = hex_to_vec(
        "01040000A0E6100000020000000101000080000000000000244000000000000034C0000000000000594001010000800000000000000000000000000000E0BF0000000000405940",
    );
    let geom = GeometryT::<PointZ>::read_ewkb(&ewkb).unwrap();
    match &geom {
        GeometryT::MultiPoint(mp) => {
            let p = |x, y, z| PointZ { x: b(x), y: b(y), z: b(z), srid: None };
            assert_eq!(
                *mp,
                MultiPointT::<PointZ> {
                    srid: Some(4326),
                    points: vec![p(10.0, -20.0, 100.0), p(0., -0.5, 101.0)],
                }
            );
        },
        _ => panic!("expected a multipoint"),
    }
    // SELECT 'SRID=4326;MULTILINESTRING ((10 -20, 0 -0.5), (0 0, 2 0))'::geometry
    let ewkb = hex_to_vec(
        "0105000020E610000002000000010200000002000000000000000000244000000000000034C00000000000000000000000000000E0BF0102000000020000000000000000000000000000000000000000000000000000400000000000000000",
    );
    let geom = GeometryT::<Point>::read_ewkb(&ewkb).unwrap();
    match &geom {
        GeometryT::MultiLineString(ml) => {
            let p = |x, y| Point { x: b(x), y: b(y), srid: None };
            let line1 = LineStringT::<Point> { srid: None, points: vec![p(10.0, -20.0), p(0., -0.5)] };
            let line2 = LineStringT::<Point> { srid: None, points: vec![p(0., 0.), p(2., 0.)] };
            assert_eq!(
                *ml,
                MultiLineStringT::<Point> { srid: Some(4326), lines: vec![line1, line2] }
            );
        },
        _ => panic!("expected a multilinestring"),
    }
    // SELECT 'SRID=4326;MULTIPOLYGON (((0 0, 2 0, 2 2, 0 2, 0 0)), ((10 10, -2 10, -2 -2, 10 -2, 10 10)))'::geometry
    let ewkb = hex_to_vec(
        "0106000020E610000002000000010300000001000000050000000000000000000000000000000000000000000000000000400000000000000000000000000000004000000000000000400000000000000000000000000000004000000000000000000000000000000000010300000001000000050000000000000000002440000000000000244000000000000000C0000000000000244000000000000000C000000000000000C0000000000000244000000000000000C000000000000024400000000000002440",
    );
    let geom = GeometryT::<Point>::read_ewkb(&ewkb).unwrap();
    match &geom {
        GeometryT::MultiPolygon(my) => {
            let p = |x, y| Point { x: b(x), y: b(y), srid: None };
            let ring1 = LineStringT::<Point> {
                srid: None,
                points: vec![p(0., 0.), p(2., 0.), p(2., 2.), p(0., 2.), p(0., 0.)],
            };
            let ring2 = LineStringT::<Point> {
                srid: None,
                points: vec![p(10., 10.), p(-2., 10.), p(-2., -2.), p(10., -2.), p(10., 10.)],
            };
            assert_eq!(
                *my,
                MultiPolygonT::<Point> {
                    srid: Some(4326),
                    polygons: vec![
                        PolygonT::<Point> { srid: None, rings: vec![ring1] },
                        PolygonT::<Point> { srid: None, rings: vec![ring2] },
                    ],
                }
            );
        },
        _ => panic!("expected a multipolygon"),
    }
    // SELECT 'GeometryCollection(POINT (10 10),POINT (30 30),LINESTRING (15 15, 20 20))'::geometry
    let ewkb = hex_to_vec(
        "01070000000300000001010000000000000000002440000000000000244001010000000000000000003E400000000000003E400102000000020000000000000000002E400000000000002E4000000000000034400000000000003440",
    );
    let geom = GeometryT::<Point>::read_ewkb(&ewkb).unwrap();
    match &geom {
        GeometryT::GeometryCollection(gc) => {
            assert_eq!(gc.srid, None);
            assert_eq!(gc.geometries.len(), 3);
            match &gc.geometries[2] {
                GeometryT::LineString(l) => {
                    let p = |x, y| Point { x: b(x), y: b(y), srid: None };
                    assert_eq!(
                        *l,
                        LineStringT::<Point> { srid: None, points: vec![p(15., 15.), p(20., 20.)] }
                    );
                },
                _ => panic!("expected a linestring"),
            }
        },
        _ => panic!("expected a collection"),
    }
}

#[test]
fn test_read_error() {
    // SELECT 'LINESTRING (10 -20, 0 -0.5)'::geometry
    let ewkb = hex_to_vec(
        "010200000002000000000000000000244000000000000034C00000000000000000000000000000E0BF",
    );
    let poly = PolygonT::<Point>::read_ewkb(&ewkb);
    assert!(poly.is_err());
    match poly {
        Err(e) => assert_eq!(e.description(), "postgis error while reading"),
        Ok(_) => panic!("expected an error"),
    }
}

#[test]
fn test_iterators() {
    let p = |x, y| Point { x: b(x), y: b(y), srid: None };
    let line = LineStringT::<Point> { srid: Some(4326), points: vec![p(10.0, -20.0), p(0., -0.5)] };
    assert_eq!(line.points().last(), Some(&Point { x: b(0.), y: b(-0.5), srid: None }));
}

#[test]
fn test_wkb_type_id_bits() {
    // A PointZM with an SRID sets exactly the Z, M and SRID bits.
    assert_eq!(wkb_type_id(&PointType::PointZM, Some(4326)), 0xC0000000u32 | 0x20000000);
    assert_eq!(0x01 | wkb_type_id(&PointType::PointZM, Some(4326)), 0xE0000001u32);
    assert_eq!(wkb_type_id(&PointType::Point, None), 0);
    assert_eq!(wkb_type_id(&PointType::Point, Some(1)), 0x20000000);
    assert_eq!(wkb_type_id(&PointType::PointZ, None), 0x80000000);
    assert_eq!(wkb_type_id(&PointType::PointM, None), 0x40000000);
}

#[test]
fn test_hex_roundtrip() {
    let hex = "0101000020E6100000000000000000244000000000000034C0";
    let bytes = hex_to_vec(hex);
    let point = Point::read_ewkb(&bytes).unwrap();
    assert_eq!(point.to_hex_ewkb(), hex);
    // Decoding the re-encoded hex reproduces an equal value.
    let again = Point::read_ewkb(&hex_to_vec(&point.to_hex_ewkb())).unwrap();
    assert_eq!(again, point);
}

#[test]
fn test_big_endian_read() {
    // The same point as 0101000000...2440...34C0, spelt big-endian.
    let ewkb = hex_to_vec("00000000014024000000000000C034000000000000");
    let point = Point::read_ewkb(&ewkb).unwrap();
    assert_eq!(point, Point { x: b(10.0), y: b(-20.0), srid: None });
}

#[test]
fn test_unsupported_type_code() {
    // Kind 8 is outside the seven geometry kinds.
    let ewkb = hex_to_vec("0108000000");
    let geom = GeometryT::<Point>::read_ewkb(&ewkb);
    assert!(geom.is_err());
}

#[test]
fn test_empty_containers() {
    let line = LineStringT::<Point>::new();
    assert_eq!(line.to_hex_ewkb(), "010200000000000000");
    let back = LineStringT::<Point>::read_ewkb(&hex_to_vec(&line.to_hex_ewkb())).unwrap();
    assert_eq!(back, line);
    let coll = GeometryCollectionT::<Point>::new();
    assert_eq!(coll.to_hex_ewkb(), "010700000000000000");
}

#[test]
fn test_geometrycollection_srid_roundtrip() {
    // 'SRID=4326;GEOMETRYCOLLECTION(POINT(10 10))': the SRID sits at the
    // outermost geometry of a decoded value, a collection included.
    let p = Point { x: b(10.0), y: b(10.0), srid: None };
    let coll = GeometryCollectionT::<Point> {
        geometries: vec![GeometryT::Point(p)],
        srid: Some(4326),
    };
    let hex = coll.to_hex_ewkb();
    let back = GeometryCollectionT::<Point>::read_ewkb(&hex_to_vec(&hex)).unwrap();
    assert_eq!(back.srid, Some(4326));
    assert_eq!(back.geometries.len(), 1);
    match &back.geometries[0] {
        GeometryT::Point(q) => assert_eq!(*q, p),
        _ => panic!("expected a point"),
    }
    let any = GeometryT::<Point>::read_ewkb(&hex_to_vec(&hex)).unwrap();
    match &any {
        GeometryT::GeometryCollection(gc) => {
            assert_eq!(gc.srid, Some(4326));
            assert_eq!(gc.geometries.len(), 1);
        },
        _ => panic!("expected a collection"),
    }
}

#[test]
fn test_error_descriptions() {
    assert_eq!(Error::Read(String::from("x")).description(), "postgis error while reading");
    assert_eq!(Error::Write(String::from("x")).description(), "postgis error while writing");
    assert_eq!(Error::Other(String::from("x")).description(), "postgis unknown error");
}
