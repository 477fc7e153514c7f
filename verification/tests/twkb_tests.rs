use postgis::twkb::{self, hex_to_vec};
use postgis::ewkb;

/// The real-number value of a scaled coordinate.
fn scale(v: i64, prec: i8) -> f64 {
    if prec >= 0 {
        v as f64 / 10f64.powi(prec as i32)
    } else {
        v as f64 * 10f64.powi(-(prec as i32))
    }
}

fn fx(p: &twkb::Point) -> f64 {
    if p.empty {
        f64::NAN
    } else {
        scale(p.x, p.precision)
    }
}

fn fy(p: &twkb::Point) -> f64 {
    if p.empty {
        f64::NAN
    } else {
        scale(p.y, p.precision)
    }
}

fn xy(p: &twkb::Point) -> (f64, f64) {
    (fx(p), fy(p))
}

fn line_xy(l: &twkb::LineString) -> Vec<(f64, f64)> {
    l.points.iter().map(xy).collect()
}

fn ewkb_point(p: &twkb::Point) -> ewkb::Point {
    ewkb::Point { x: fx(p).to_bits(), y: fy(p).to_bits(), srid: None }
}

fn ewkb_line(l: &twkb::LineString) -> ewkb::LineStringT<ewkb::Point> {
    ewkb::LineStringT { points: l.points.iter().map(ewkb_point).collect(), srid: None }
}

fn ewkb_poly(y: &twkb::Polygon) -> ewkb::PolygonT<ewkb::Point> {
    ewkb::PolygonT { rings: y.rings.iter().map(ewkb_line).collect(), srid: None }
}

#[test]
fn test_read_point() {
    let twkb = hex_to_vec("01001427");  // SELECT encode(ST_AsTWKB('POINT(10 -20)'::geometry), 'hex')
    let point = twkb::Point::read_twkb(&twkb).unwrap();
    assert_eq!(xy(&point), (10.0, -20.0));

    let twkb = hex_to_vec("0108011427c601");  // SELECT encode(ST_AsTWKB('POINT(10 -20 99)'::geometry), 'hex')
    let point = twkb::Point::read_twkb(&twkb).unwrap();
    assert_eq!(xy(&point), (10.0, -20.0));

    let twkb = hex_to_vec("2100ca019503");  // SELECT encode(ST_AsTWKB('POINT(10.12 -20.34)'::geometry, 1), 'hex')
    let point = twkb::Point::read_twkb(&twkb).unwrap();
    assert_eq!(xy(&point), (10.1, -20.3));

    let twkb = hex_to_vec("11000203");  // SELECT encode(ST_AsTWKB('POINT(11.12 -22.34)'::geometry, -1), 'hex')
    let point = twkb::Point::read_twkb(&twkb).unwrap();
    assert_eq!(xy(&point), (10.0, -20.0));

    let twkb = hex_to_vec("0110");  // SELECT encode(ST_AsTWKB('POINT EMPTY'::geometry), 'hex')
    let point = twkb::Point::read_twkb(&twkb).unwrap();
    assert!(fx(&point).is_nan());
    assert!(fy(&point).is_nan());

    let twkb = hex_to_vec("a10080897aff91f401");  // SELECT encode(ST_AsTWKB('SRID=4326;POINT(10 -20)'::geometry), 'hex')
    let point = twkb::Point::read_twkb(&twkb).unwrap();
    assert_eq!(xy(&point), (10.0, -20.0));
}

#[test]
fn test_read_line() {
    let twkb = hex_to_vec("02000214271326");  // SELECT encode(ST_AsTWKB('LINESTRING (10 -20, -0 -0.5)'::geometry), 'hex')
    let line = twkb::LineString::read_twkb(&twkb).unwrap();
    assert_eq!(line_xy(&line), vec![(10.0, -20.0), (0.0, -1.0)]);

    let twkb = hex_to_vec("220002c8018f03c7018603");  // SELECT encode(ST_AsTWKB('LINESTRING (10 -20, -0 -0.5)'::geometry, 1), 'hex')
    let line = twkb::LineString::read_twkb(&twkb).unwrap();
    assert_eq!(line_xy(&line), vec![(10.0, -20.0), (0.0, -0.5)]);

    let twkb = hex_to_vec("0210");  // SELECT encode(ST_AsTWKB('LINESTRING EMPTY'::geometry), 'hex')
    let line = twkb::LineString::read_twkb(&twkb).unwrap();
    assert_eq!(line.points.len(), 0);
}

#[test]
fn test_read_polygon() {
    // SELECT encode(ST_AsTWKB('POLYGON ((0 0, 2 0, 2 2, 0 2, 0 0),(10 10, -2 10, -2 -2, 10 -2, 10 10))'::geometry), 'hex')
    let twkb = hex_to_vec("03000205000004000004030000030514141700001718000018");
    let poly = twkb::Polygon::read_twkb(&twkb).unwrap();
    assert_eq!(poly.rings.len(), 2);
    assert_eq!(
        line_xy(&poly.rings[0]),
        vec![(0.0, 0.0), (2.0, 0.0), (2.0, 2.0), (0.0, 2.0), (0.0, 0.0)]
    );
    assert_eq!(
        line_xy(&poly.rings[1]),
        vec![(10.0, 10.0), (-2.0, 10.0), (-2.0, -2.0), (10.0, -2.0), (10.0, 10.0)]
    );
}

#[test]
fn test_read_multipoint() {
    let twkb = hex_to_vec("04000214271326");  // SELECT encode(ST_AsTWKB('MULTIPOINT ((10 -20), (0 -0.5))'::geometry), 'hex')
    let points = twkb::MultiPoint::read_twkb(&twkb).unwrap();
    assert_eq!(points.ids, None);
    assert_eq!(
        points.points.iter().map(xy).collect::<Vec<_>>(),
        vec![(10.0, -20.0), (0.0, -1.0)]
    );
}

#[test]
fn test_read_multiline() {
    let twkb = hex_to_vec("05000202142713260200020400");  // SELECT encode(ST_AsTWKB('MULTILINESTRING ((10 -20, 0 -0.5), (0 0, 2 0))'::geometry), 'hex')
    let lines = twkb::MultiLineString::read_twkb(&twkb).unwrap();
    assert_eq!(lines.ids, None);
    assert_eq!(lines.lines.len(), 2);
    assert_eq!(line_xy(&lines.lines[0]), vec![(10.0, -20.0), (0.0, -1.0)]);
    assert_eq!(line_xy(&lines.lines[1]), vec![(0.0, 0.0), (2.0, 0.0)]);
}

#[test]
fn test_read_multipolygon() {
    // SELECT encode(ST_AsTWKB('MULTIPOLYGON (((0 0, 2 0, 2 2, 0 2, 0 0)), ((10 10, -2 10, -2 -2, 10 -2, 10 10)))'::geometry), 'hex')
    let twkb = hex_to_vec("060002010500000400000403000003010514141700001718000018");
    let polys = twkb::MultiPolygon::read_twkb(&twkb).unwrap();
    assert_eq!(polys.ids, None);
    assert_eq!(polys.polygons.len(), 2);
    assert_eq!(
        line_xy(&polys.polygons[0].rings[0]),
        vec![(0.0, 0.0), (2.0, 0.0), (2.0, 2.0), (0.0, 2.0), (0.0, 0.0)]
    );
    assert_eq!(
        line_xy(&polys.polygons[1].rings[0]),
        vec![(10.0, 10.0), (-2.0, 10.0), (-2.0, -2.0), (10.0, -2.0), (10.0, 10.0)]
    );
}

#[test]
fn test_write_point() {
    let twkb = hex_to_vec("01001427");  // SELECT encode(ST_AsTWKB('POINT(10 -20)'::geometry), 'hex')
    let point = twkb::Point::read_twkb(&twkb).unwrap();
    assert_eq!(
        ewkb_point(&point).to_hex_ewkb(),
        "0101000000000000000000244000000000000034C0"
    );
}

#[test]
fn test_write_line() {
    let twkb = hex_to_vec("220002c8018f03c7018603");  // SELECT encode(ST_AsTWKB('LINESTRING (10 -20, -0 -0.5)'::geometry, 1), 'hex')
    let line = twkb::LineString::read_twkb(&twkb).unwrap();
    assert_eq!(
        ewkb_line(&line).to_hex_ewkb(),
        "010200000002000000000000000000244000000000000034C00000000000000000000000000000E0BF"
    );
}

#[test]
fn test_write_polygon() {
    // SELECT encode(ST_AsTWKB('POLYGON ((0 0, 2 0, 2 2, 0 2, 0 0),(10 10, -2 10, -2 -2, 10 -2, 10 10))'::geometry), 'hex')
    let twkb = hex_to_vec("03000205000004000004030000030514141700001718000018");
    let polygon = twkb::Polygon::read_twkb(&twkb).unwrap();
    assert_eq!(
        ewkb_poly(&polygon).to_hex_ewkb(),
        "010300000002000000050000000000000000000000000000000000000000000000000000400000000000000000000000000000004000000000000000400000000000000000000000000000004000000000000000000000000000000000050000000000000000002440000000000000244000000000000000C0000000000000244000000000000000C000000000000000C0000000000000244000000000000000C000000000000024400000000000002440"
    );
}

#[test]
fn test_write_multipoint() {
    let twkb = hex_to_vec("04000214271326");  // SELECT encode(ST_AsTWKB('MULTIPOINT ((10 -20), (0 -0.5))'::geometry), 'hex')
    let multipoint = twkb::MultiPoint::read_twkb(&twkb).unwrap();
    let as_ewkb = ewkb::MultiPointT::<ewkb::Point> {
        points: multipoint.points.iter().map(ewkb_point).collect(),
        srid: None,
    };
    // "MULTIPOINT(10 -20,0 -1)"
    assert_eq!(
        as_ewkb.to_hex_ewkb(),
        "0104000000020000000101000000000000000000244000000000000034C001010000000000000000000000000000000000F0BF"
    );
}

#[test]
fn test_write_multiline() {
    let twkb = hex_to_vec("05000202142713260200020400");  // SELECT encode(ST_AsTWKB('MULTILINESTRING ((10 -20, 0 -0.5), (0 0, 2 0))'::geometry), 'hex')
    let multiline = twkb::MultiLineString::read_twkb(&twkb).unwrap();
    let as_ewkb = ewkb::MultiLineStringT::<ewkb::Point> {
        lines: multiline.lines.iter().map(ewkb_line).collect(),
        srid: None,
    };
    // "MULTILINESTRING((10 -20,0 -1),(0 0,2 0))"
    assert_eq!(
        as_ewkb.to_hex_ewkb(),
        "010500000002000000010200000002000000000000000000244000000000000034C00000000000000000000000000000F0BF0102000000020000000000000000000000000000000000000000000000000000400000000000000000"
    );
}

#[test]
fn test_write_multipoly() {
    // SELECT encode(ST_AsTWKB('MULTIPOLYGON (((0 0, 2 0, 2 2, 0 2, 0 0)), ((10 10, -2 10, -2 -2, 10 -2, 10 10)))'::geometry), 'hex')
    let twkb = hex_to_vec("060002010500000400000403000003010514141700001718000018");
    let multipoly = twkb::MultiPolygon::read_twkb(&twkb).unwrap();
    let as_ewkb = ewkb::MultiPolygonT::<ewkb::Point> {
        polygons: multipoly.polygons.iter().map(ewkb_poly).collect(),
        srid: None,
    };
    assert_eq!(
        as_ewkb.to_hex_ewkb(),
        "010600000002000000010300000001000000050000000000000000000000000000000000000000000000000000400000000000000000000000000000004000000000000000400000000000000000000000000000004000000000000000000000000000000000010300000001000000050000000000000000002440000000000000244000000000000000C0000000000000244000000000000000C000000000000000C0000000000000244000000000000000C000000000000024400000000000002440"
    );
}

#[test]
fn test_delta_accumulation_raw() {
    // LINESTRING at precision 0: the second point's true -0.5 becomes -1
    // through zig-zag delta arithmetic on the scaled integers.
    let twkb = hex_to_vec("02000214271326");
    let line = twkb::LineString::read_twkb(&twkb).unwrap();
    assert_eq!(line.points.len(), 2);
    assert_eq!((line.points[0].x, line.points[0].y), (10, -20));
    assert_eq!((line.points[1].x, line.points[1].y), (0, -1));
    assert_eq!(line.points[0].precision, 0);
}

#[test]
fn test_empty_point_sentinel() {
    let twkb = hex_to_vec("0110");
    let point = twkb::Point::read_twkb(&twkb).unwrap();
    assert!(point.empty);
    assert!(fx(&point).is_nan() && fy(&point).is_nan());
}

#[test]
fn test_varint_overrun() {
    // A point whose first coordinate varint still continues after ten
    // groups: the decoder must fail rather than run on.
    let mut bytes = vec![0x01u8, 0x00];
    for _ in 0..10 {
        bytes.push(0x80);
    }
    bytes.push(0x01);
    let r = twkb::Point::read_twkb(&bytes);
    assert!(r.is_err());
    match r {
        Err(e) => assert_eq!(e.description(), "postgis error while reading"),
        Ok(_) => panic!("expected an error"),
    }
}

#[test]
fn test_zig_zag_values() {
    assert_eq!(twkb::decode_zig_zag_64(0), 0);
    assert_eq!(twkb::decode_zig_zag_64(1), -1);
    assert_eq!(twkb::decode_zig_zag_64(2), 1);
    assert_eq!(twkb::decode_zig_zag_64(3), -2);
    assert_eq!(twkb::decode_zig_zag_64(u64::MAX), i64::MIN);
    assert_eq!(twkb::decode_zig_zag_64(u64::MAX - 1), i64::MAX);
}
