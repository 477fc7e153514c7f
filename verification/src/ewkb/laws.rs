//! The laws of the EWKB codec, proved over the spec-level encoder and
//! parser of [`super::format`]: parsing an encoding yields the encoded
//! value back (with the decode-side spatial-reference layout), nested
//! elements always come back without an SRID of their own, and decoding
//! is idempotent under re-encoding.

use vstd::prelude::*;
use crate::types::{PointType, PointView};
use crate::wire::{
    enc_u32_le, enc_u64_le, enc_i32_le, p_u32, lemma_u32_le_roundtrip, lemma_i32_le_roundtrip,
    lemma_u64_le_roundtrip, hex_upper, unhex_upper, lemma_hex_roundtrip,
};
use super::format::{
    LineStringView, PolygonView, MultiPointView, MultiLineStringView, MultiPolygonView,
    GeometryView, parse_header, parse_point_body, parse_points, parse_line_body, parse_rings,
    parse_poly_body, parse_point_geom, parse_point_geoms, parse_mpoint_body, parse_line_geom,
    parse_line_geoms, parse_mline_body, parse_poly_geom, parse_poly_geoms, parse_mpoly_body,
    parse_geom, parse_coll_items, parse_mpoint_geom, parse_mline_geom, parse_mpoly_geom,
    parse_coll_geom, GeometryCollectionView, spec_type_code, enc_header, enc_point_body, enc_points,
    enc_line_body, enc_rings, enc_poly_body, enc_point_geoms, enc_mpoint_body, enc_line_geoms,
    enc_mline_body, enc_poly_geoms, enc_mpoly_body, enc_geom, enc_geoms, wf_geoms, norm_geoms,
};

verus! {

/// The header length: five bytes, or nine with an SRID.
pub open spec fn header_len(srid: Option<i32>) -> nat {
    if srid is Some {
        9nat
    } else {
        5nat
    }
}

/// A written header parses back to little-endian order, the exact type
/// code (whose low byte is the kind), and the same SRID.
#[verifier::rlimit(100)]
#[verifier::spinoff_prover]
proof fn lemma_header_roundtrip(kind: u32, t: PointType, srid: Option<i32>, rest: Seq<u8>)
    requires
        1 <= kind <= 7,
    ensures
        enc_header(kind, t, srid).len() == header_len(srid),
        spec_type_code(kind, t, srid) & 0xffu32 == kind,
        parse_header(enc_header(kind, t, srid) + rest) == Some(
            ((false, spec_type_code(kind, t, srid), srid), header_len(srid)),
        ),
{
    reveal(enc_header);
    reveal(parse_header);
    let code = spec_type_code(kind, t, srid);
    let sf: u32 = if srid is Some {
        0x20000000
    } else {
        0
    };
    let zf: u32 = if t.spec_has_z() {
        0x80000000
    } else {
        0
    };
    let mf: u32 = if t.spec_has_m() {
        0x40000000
    } else {
        0
    };
    assert((kind | ((sf | zf) | mf)) & 0x20000000u32 == sf && (kind | ((sf | zf) | mf)) & 0xffu32
        == kind) by (bit_vector)
        requires
            1 <= kind <= 7,
            sf == 0 || sf == 0x20000000u32,
            zf == 0 || zf == 0x80000000u32,
            mf == 0 || mf == 0x40000000u32,
    ;
    let s = enc_header(kind, t, srid) + rest;
    assert(s[0] == 1u8);
    match srid {
        Some(sr) => {
            assert(s.skip(1) =~= enc_u32_le(code) + (enc_i32_le(sr) + rest));
            lemma_u32_le_roundtrip(code, enc_i32_le(sr) + rest);
            assert(code & 0x20000000u32 == 0x20000000u32);
            assert(s.skip(5) =~= enc_i32_le(sr) + rest);
            lemma_i32_le_roundtrip(sr, rest);
        },
        None => {
            assert(s.skip(1) =~= enc_u32_le(code) + rest);
            lemma_u32_le_roundtrip(code, rest);
            assert(code & 0x20000000u32 != 0x20000000u32);
        },
    }
}

/// A written point body parses back to the same ordinates, under the
/// handed-down SRID.
#[verifier::rlimit(100)]
#[verifier::spinoff_prover]
proof fn lemma_point_body_roundtrip(p: PointView, t: PointType, h: Option<i32>, rest: Seq<u8>)
    requires
        p.wf(t),
    ensures
        enc_point_body(p, t).len() == t.spec_size(),
        parse_point_body(enc_point_body(p, t) + rest, false, t, h) == Some(
            (p.norm(h), t.spec_size()),
        ),
{
    reveal(enc_point_body);
    reveal(parse_point_body);
    let s = enc_point_body(p, t) + rest;
    let zpart: Seq<u8> = if t.spec_has_z() {
        enc_u64_le(p.z.unwrap())
    } else {
        Seq::empty()
    };
    let mpart: Seq<u8> = if t.spec_has_m() {
        enc_u64_le(p.m.unwrap())
    } else {
        Seq::empty()
    };
    assert(s.skip(0) =~= enc_u64_le(p.x) + (enc_u64_le(p.y) + (zpart + (mpart + rest))));
    lemma_u64_le_roundtrip(p.x, enc_u64_le(p.y) + (zpart + (mpart + rest)));
    assert(s.skip(8) =~= enc_u64_le(p.y) + (zpart + (mpart + rest)));
    lemma_u64_le_roundtrip(p.y, zpart + (mpart + rest));
    if t.spec_has_z() {
        assert(s.skip(16) =~= enc_u64_le(p.z.unwrap()) + (mpart + rest));
        lemma_u64_le_roundtrip(p.z.unwrap(), mpart + rest);
        if t.spec_has_m() {
            assert(s.skip(24) =~= enc_u64_le(p.m.unwrap()) + rest);
            lemma_u64_le_roundtrip(p.m.unwrap(), rest);
        }
    } else {
        if t.spec_has_m() {
            assert(s.skip(16) =~= enc_u64_le(p.m.unwrap()) + rest);
            lemma_u64_le_roundtrip(p.m.unwrap(), rest);
        }
    }
}

/// A written run of point bodies parses back pointwise.
#[verifier::rlimit(100)]
#[verifier::spinoff_prover]
proof fn lemma_points_roundtrip(ps: Seq<PointView>, t: PointType, h: Option<i32>, rest: Seq<u8>)
    requires
        forall|i: int| 0 <= i < ps.len() ==> #[trigger] ps[i].wf(t),
    ensures
        parse_points(enc_points(ps, t) + rest, false, t, h, ps.len()) == Some(
            (ps.map_values(|p: PointView| p.norm(h)), enc_points(ps, t).len()),
        ),
    decreases ps.len(),
{
    let f = |p: PointView| p.norm(h);
    if ps.len() == 0 {
        assert(enc_points(ps, t) + rest =~= rest);
        assert(ps.map_values(f) =~= Seq::<PointView>::empty());
    } else {
        let p = ps.first();
        let tail = ps.drop_first();
        let s = enc_points(ps, t) + rest;
        assert(ps[0].wf(t));
        assert(s =~= enc_point_body(p, t) + (enc_points(tail, t) + rest));
        lemma_point_body_roundtrip(p, t, h, enc_points(tail, t) + rest);
        assert(s.skip(t.spec_size() as int) =~= enc_points(tail, t) + rest);
        assert(forall|i: int| 0 <= i < tail.len() ==> #[trigger] tail[i].wf(t)) by {
            assert(forall|i: int| 0 <= i < tail.len() ==> tail[i] == ps[i + 1]);
        }
        lemma_points_roundtrip(tail, t, h, rest);
        assert(ps.map_values(f) =~= seq![p.norm(h)] + tail.map_values(f));
    }
}

/// A written LineString body parses back to the same points, each under
/// the handed-down SRID.
proof fn lemma_line_body_roundtrip(l: LineStringView, t: PointType, h: Option<i32>, rest: Seq<u8>)
    requires
        l.wf(t),
    ensures
        parse_line_body(enc_line_body(l.points, t) + rest, false, t, h) == Some(
            (l.norm(h), enc_line_body(l.points, t).len()),
        ),
{
    let s = enc_line_body(l.points, t) + rest;
    let n = l.points.len() as u32;
    assert(s =~= enc_u32_le(n) + (enc_points(l.points, t) + rest));
    lemma_u32_le_roundtrip(n, enc_points(l.points, t) + rest);
    assert(s.skip(4) =~= enc_points(l.points, t) + rest);
    lemma_points_roundtrip(l.points, t, h, rest);
    assert(n as nat == l.points.len());
}

/// A written run of rings parses back ring by ring.
#[verifier::rlimit(100)]
#[verifier::spinoff_prover]
proof fn lemma_rings_roundtrip(rs: Seq<LineStringView>, t: PointType, h: Option<i32>, rest: Seq<u8>)
    requires
        forall|i: int| 0 <= i < rs.len() ==> #[trigger] rs[i].wf(t),
    ensures
        parse_rings(enc_rings(rs, t) + rest, false, t, h, rs.len()) == Some(
            (rs.map_values(|l: LineStringView| l.norm(h)), enc_rings(rs, t).len()),
        ),
    decreases rs.len(),
{
    let f = |l: LineStringView| l.norm(h);
    if rs.len() == 0 {
        assert(enc_rings(rs, t) + rest =~= rest);
        assert(rs.map_values(f) =~= Seq::<LineStringView>::empty());
    } else {
        let l = rs.first();
        let tail = rs.drop_first();
        let s = enc_rings(rs, t) + rest;
        assert(rs[0].wf(t));
        assert(s =~= enc_line_body(l.points, t) + (enc_rings(tail, t) + rest));
        lemma_line_body_roundtrip(l, t, h, enc_rings(tail, t) + rest);
        let c = enc_line_body(l.points, t).len();
        assert(s.skip(c as int) =~= enc_rings(tail, t) + rest);
        assert(forall|i: int| 0 <= i < tail.len() ==> #[trigger] tail[i].wf(t)) by {
            assert(forall|i: int| 0 <= i < tail.len() ==> tail[i] == rs[i + 1]);
        }
        lemma_rings_roundtrip(tail, t, h, rest);
        assert(rs.map_values(f) =~= seq![l.norm(h)] + tail.map_values(f));
    }
}

/// A written Polygon body parses back to the same rings, each under the
/// handed-down SRID.
proof fn lemma_poly_body_roundtrip(y: PolygonView, t: PointType, h: Option<i32>, rest: Seq<u8>)
    requires
        y.wf(t),
    ensures
        parse_poly_body(enc_poly_body(y.rings, t) + rest, false, t, h) == Some(
            (y.norm(h), enc_poly_body(y.rings, t).len()),
        ),
{
    let s = enc_poly_body(y.rings, t) + rest;
    let n = y.rings.len() as u32;
    assert(s =~= enc_u32_le(n) + (enc_rings(y.rings, t) + rest));
    lemma_u32_le_roundtrip(n, enc_rings(y.rings, t) + rest);
    assert(s.skip(4) =~= enc_rings(y.rings, t) + rest);
    lemma_rings_roundtrip(y.rings, t, h, rest);
    assert(n as nat == y.rings.len());
}

/// A full point geometry, written under any header SRID, parses back.
proof fn lemma_point_geom_roundtrip(p: PointView, t: PointType, srid: Option<i32>, rest: Seq<u8>)
    requires
        p.wf(t),
    ensures
        enc_header(1, t, srid).len() == header_len(srid),
        enc_point_body(p, t).len() == t.spec_size(),
        parse_point_geom(enc_header(1, t, srid) + (enc_point_body(p, t) + rest), t) == Some(
            (p.norm(srid), (header_len(srid) + t.spec_size()) as nat),
        ),
{
    let s = enc_header(1, t, srid) + (enc_point_body(p, t) + rest);
    lemma_header_roundtrip(1, t, srid, enc_point_body(p, t) + rest);
    assert(s.skip(header_len(srid) as int) =~= enc_point_body(p, t) + rest);
    lemma_point_body_roundtrip(p, t, srid, rest);
}

/// A full LineString geometry, written under any header SRID, parses
/// back.
proof fn lemma_line_geom_roundtrip(
    l: LineStringView,
    t: PointType,
    srid: Option<i32>,
    rest: Seq<u8>,
)
    requires
        l.wf(t),
    ensures
        enc_header(2, t, srid).len() == header_len(srid),
        parse_line_geom(enc_header(2, t, srid) + (enc_line_body(l.points, t) + rest), t) == Some(
            (l.norm(srid), (header_len(srid) + enc_line_body(l.points, t).len()) as nat),
        ),
{
    let s = enc_header(2, t, srid) + (enc_line_body(l.points, t) + rest);
    lemma_header_roundtrip(2, t, srid, enc_line_body(l.points, t) + rest);
    assert(s.skip(header_len(srid) as int) =~= enc_line_body(l.points, t) + rest);
    lemma_line_body_roundtrip(l, t, srid, rest);
}

/// A full Polygon geometry, written under any header SRID, parses back.
proof fn lemma_poly_geom_roundtrip(y: PolygonView, t: PointType, srid: Option<i32>, rest: Seq<u8>)
    requires
        y.wf(t),
    ensures
        enc_header(3, t, srid).len() == header_len(srid),
        parse_poly_geom(enc_header(3, t, srid) + (enc_poly_body(y.rings, t) + rest), t) == Some(
            (y.norm(srid), (header_len(srid) + enc_poly_body(y.rings, t).len()) as nat),
        ),
{
    let s = enc_header(3, t, srid) + (enc_poly_body(y.rings, t) + rest);
    lemma_header_roundtrip(3, t, srid, enc_poly_body(y.rings, t) + rest);
    assert(s.skip(header_len(srid) as int) =~= enc_poly_body(y.rings, t) + rest);
    lemma_poly_body_roundtrip(y, t, srid, rest);
}

/// A written run of full point geometries parses back pointwise, each
/// point SRID-less.
#[verifier::rlimit(100)]
#[verifier::spinoff_prover]
proof fn lemma_point_geoms_roundtrip(ps: Seq<PointView>, t: PointType, rest: Seq<u8>)
    requires
        forall|i: int| 0 <= i < ps.len() ==> #[trigger] ps[i].wf(t),
    ensures
        parse_point_geoms(enc_point_geoms(ps, t) + rest, t, ps.len()) == Some(
            (ps.map_values(|p: PointView| p.norm(None)), enc_point_geoms(ps, t).len()),
        ),
    decreases ps.len(),
{
    let f = |p: PointView| p.norm(None);
    if ps.len() == 0 {
        assert(enc_point_geoms(ps, t) + rest =~= rest);
        assert(ps.map_values(f) =~= Seq::<PointView>::empty());
    } else {
        let p = ps.first();
        let tail = ps.drop_first();
        let s = enc_point_geoms(ps, t) + rest;
        assert(ps[0].wf(t));
        let body_rest = enc_point_geoms(tail, t) + rest;
        assert(s =~= enc_header(1, t, None) + (enc_point_body(p, t) + body_rest));
        lemma_point_geom_roundtrip(p, t, None, body_rest);
        let c = (5 + t.spec_size()) as int;
        assert(s.skip(c) =~= body_rest);
        assert(forall|i: int| 0 <= i < tail.len() ==> #[trigger] tail[i].wf(t)) by {
            assert(forall|i: int| 0 <= i < tail.len() ==> tail[i] == ps[i + 1]);
        }
        lemma_point_geoms_roundtrip(tail, t, rest);
        assert(ps.map_values(f) =~= seq![p.norm(None)] + tail.map_values(f));
    }
}

/// A written MultiPoint body parses back, its points SRID-less.
proof fn lemma_mpoint_body_roundtrip(
    mp: MultiPointView,
    t: PointType,
    h: Option<i32>,
    rest: Seq<u8>,
)
    requires
        mp.wf(t),
    ensures
        parse_mpoint_body(enc_mpoint_body(mp.points, t) + rest, false, t, h) == Some(
            (mp.norm(h), enc_mpoint_body(mp.points, t).len()),
        ),
{
    let s = enc_mpoint_body(mp.points, t) + rest;
    let n = mp.points.len() as u32;
    assert(s =~= enc_u32_le(n) + (enc_point_geoms(mp.points, t) + rest));
    lemma_u32_le_roundtrip(n, enc_point_geoms(mp.points, t) + rest);
    assert(s.skip(4) =~= enc_point_geoms(mp.points, t) + rest);
    lemma_point_geoms_roundtrip(mp.points, t, rest);
    assert(n as nat == mp.points.len());
}

/// A written run of full LineString geometries parses back, each line
/// and its points SRID-less.
#[verifier::rlimit(100)]
#[verifier::spinoff_prover]
proof fn lemma_line_geoms_roundtrip(ls: Seq<LineStringView>, t: PointType, rest: Seq<u8>)
    requires
        forall|i: int| 0 <= i < ls.len() ==> #[trigger] ls[i].wf(t),
    ensures
        parse_line_geoms(enc_line_geoms(ls, t) + rest, t, ls.len()) == Some(
            (ls.map_values(|l: LineStringView| l.norm(None)), enc_line_geoms(ls, t).len()),
        ),
    decreases ls.len(),
{
    let f = |l: LineStringView| l.norm(None);
    if ls.len() == 0 {
        assert(enc_line_geoms(ls, t) + rest =~= rest);
        assert(ls.map_values(f) =~= Seq::<LineStringView>::empty());
    } else {
        let l = ls.first();
        let tail = ls.drop_first();
        let s = enc_line_geoms(ls, t) + rest;
        assert(ls[0].wf(t));
        let body_rest = enc_line_geoms(tail, t) + rest;
        assert(s =~= enc_header(2, t, None) + (enc_line_body(l.points, t) + body_rest));
        lemma_line_geom_roundtrip(l, t, None, body_rest);
        let c = (5 + enc_line_body(l.points, t).len()) as int;
        assert(s.skip(c) =~= body_rest);
        assert(forall|i: int| 0 <= i < tail.len() ==> #[trigger] tail[i].wf(t)) by {
            assert(forall|i: int| 0 <= i < tail.len() ==> tail[i] == ls[i + 1]);
        }
        lemma_line_geoms_roundtrip(tail, t, rest);
        assert(ls.map_values(f) =~= seq![l.norm(None)] + tail.map_values(f));
    }
}

/// A written MultiLineString body parses back, its lines SRID-less.
proof fn lemma_mline_body_roundtrip(
    ml: MultiLineStringView,
    t: PointType,
    h: Option<i32>,
    rest: Seq<u8>,
)
    requires
        ml.wf(t),
    ensures
        parse_mline_body(enc_mline_body(ml.lines, t) + rest, false, t, h) == Some(
            (ml.norm(h), enc_mline_body(ml.lines, t).len()),
        ),
{
    let s = enc_mline_body(ml.lines, t) + rest;
    let n = ml.lines.len() as u32;
    assert(s =~= enc_u32_le(n) + (enc_line_geoms(ml.lines, t) + rest));
    lemma_u32_le_roundtrip(n, enc_line_geoms(ml.lines, t) + rest);
    assert(s.skip(4) =~= enc_line_geoms(ml.lines, t) + rest);
    lemma_line_geoms_roundtrip(ml.lines, t, rest);
    assert(n as nat == ml.lines.len());
}

/// A written run of full Polygon geometries parses back, each polygon
/// and its rings SRID-less.
#[verifier::rlimit(100)]
#[verifier::spinoff_prover]
proof fn lemma_poly_geoms_roundtrip(ys: Seq<PolygonView>, t: PointType, rest: Seq<u8>)
    requires
        forall|i: int| 0 <= i < ys.len() ==> #[trigger] ys[i].wf(t),
    ensures
        parse_poly_geoms(enc_poly_geoms(ys, t) + rest, t, ys.len()) == Some(
            (ys.map_values(|y: PolygonView| y.norm(None)), enc_poly_geoms(ys, t).len()),
        ),
    decreases ys.len(),
{
    let f = |y: PolygonView| y.norm(None);
    if ys.len() == 0 {
        assert(enc_poly_geoms(ys, t) + rest =~= rest);
        assert(ys.map_values(f) =~= Seq::<PolygonView>::empty());
    } else {
        let y = ys.first();
        let tail = ys.drop_first();
        let s = enc_poly_geoms(ys, t) + rest;
        assert(ys[0].wf(t));
        let body_rest = enc_poly_geoms(tail, t) + rest;
        assert(s =~= enc_header(3, t, None) + (enc_poly_body(y.rings, t) + body_rest));
        lemma_poly_geom_roundtrip(y, t, None, body_rest);
        let c = (5 + enc_poly_body(y.rings, t).len()) as int;
        assert(s.skip(c) =~= body_rest);
        assert(forall|i: int| 0 <= i < tail.len() ==> #[trigger] tail[i].wf(t)) by {
            assert(forall|i: int| 0 <= i < tail.len() ==> tail[i] == ys[i + 1]);
        }
        lemma_poly_geoms_roundtrip(tail, t, rest);
        assert(ys.map_values(f) =~= seq![y.norm(None)] + tail.map_values(f));
    }
}

/// A written MultiPolygon body parses back, its polygons SRID-less.
proof fn lemma_mpoly_body_roundtrip(
    my: MultiPolygonView,
    t: PointType,
    h: Option<i32>,
    rest: Seq<u8>,
)
    requires
        my.wf(t),
    ensures
        parse_mpoly_body(enc_mpoly_body(my.polygons, t) + rest, false, t, h) == Some(
            (my.norm(h), enc_mpoly_body(my.polygons, t).len()),
        ),
{
    let s = enc_mpoly_body(my.polygons, t) + rest;
    let n = my.polygons.len() as u32;
    assert(s =~= enc_u32_le(n) + (enc_poly_geoms(my.polygons, t) + rest));
    lemma_u32_le_roundtrip(n, enc_poly_geoms(my.polygons, t) + rest);
    assert(s.skip(4) =~= enc_poly_geoms(my.polygons, t) + rest);
    lemma_poly_geoms_roundtrip(my.polygons, t, rest);
    assert(n as nat == my.polygons.len());
}

/// Pointwise description of `norm_geoms`.
proof fn lemma_norm_geoms_index(gs: Seq<GeometryView>)
    ensures
        norm_geoms(gs).len() == gs.len(),
        forall|i: int| 0 <= i < gs.len() ==> #[trigger] norm_geoms(gs)[i] == gs[i].norm(None),
    decreases gs,
{
    if gs.len() > 0 {
        lemma_norm_geoms_index(gs.drop_last());
    }
}

/// A written geometry of any kind parses back to the same value, laid
/// out as a decode lays SRIDs out.
#[verifier::rlimit(100)]
#[verifier::spinoff_prover]
proof fn lemma_geom_roundtrip(g: GeometryView, t: PointType, srid: Option<i32>, rest: Seq<u8>)
    requires
        g.wf(t),
    ensures
        parse_geom(enc_geom(g, t, srid) + rest, t) == Some(
            (g.norm(srid), enc_geom(g, t, srid).len()),
        ),
    decreases g,
{
    let hl = header_len(srid);
    let s = enc_geom(g, t, srid) + rest;
    match g {
        GeometryView::Point(p) => {
            let body_rest = enc_point_body(p, t) + rest;
            assert(s =~= enc_header(1, t, srid) + body_rest);
            lemma_header_roundtrip(1, t, srid, body_rest);
            assert(s.skip(hl as int) =~= body_rest);
            lemma_point_body_roundtrip(p, t, srid, rest);
        },
        GeometryView::LineString(l) => {
            let body_rest = enc_line_body(l.points, t) + rest;
            assert(s =~= enc_header(2, t, srid) + body_rest);
            lemma_header_roundtrip(2, t, srid, body_rest);
            assert(s.skip(hl as int) =~= body_rest);
            lemma_line_body_roundtrip(l, t, srid, rest);
        },
        GeometryView::Polygon(y) => {
            let body_rest = enc_poly_body(y.rings, t) + rest;
            assert(s =~= enc_header(3, t, srid) + body_rest);
            lemma_header_roundtrip(3, t, srid, body_rest);
            assert(s.skip(hl as int) =~= body_rest);
            lemma_poly_body_roundtrip(y, t, srid, rest);
        },
        GeometryView::MultiPoint(mp) => {
            let body_rest = enc_mpoint_body(mp.points, t) + rest;
            assert(s =~= enc_header(4, t, srid) + body_rest);
            lemma_header_roundtrip(4, t, srid, body_rest);
            assert(s.skip(hl as int) =~= body_rest);
            lemma_mpoint_body_roundtrip(mp, t, srid, rest);
        },
        GeometryView::MultiLineString(ml) => {
            let body_rest = enc_mline_body(ml.lines, t) + rest;
            assert(s =~= enc_header(5, t, srid) + body_rest);
            lemma_header_roundtrip(5, t, srid, body_rest);
            assert(s.skip(hl as int) =~= body_rest);
            lemma_mline_body_roundtrip(ml, t, srid, rest);
        },
        GeometryView::MultiPolygon(my) => {
            let body_rest = enc_mpoly_body(my.polygons, t) + rest;
            assert(s =~= enc_header(6, t, srid) + body_rest);
            lemma_header_roundtrip(6, t, srid, body_rest);
            assert(s.skip(hl as int) =~= body_rest);
            lemma_mpoly_body_roundtrip(my, t, srid, rest);
        },
        GeometryView::GeometryCollection(c) => {
            lemma_coll_arm_roundtrip(c, t, srid, rest);
        },
    }
}

/// The GeometryCollection arm of the general round trip: count and
/// elements parse back, the header SRID stays on the collection.
#[verifier::rlimit(100)]
#[verifier::spinoff_prover]
proof fn lemma_coll_arm_roundtrip(
    c: GeometryCollectionView,
    t: PointType,
    srid: Option<i32>,
    rest: Seq<u8>,
)
    requires
        c.geometries.len() <= u32::MAX,
        wf_geoms(c.geometries, t),
    ensures
        parse_geom(enc_geom(GeometryView::GeometryCollection(c), t, srid) + rest, t) == Some(
            (
                GeometryView::GeometryCollection(c).norm(srid),
                enc_geom(GeometryView::GeometryCollection(c), t, srid).len(),
            ),
        ),
    decreases c,
{
    let hl = header_len(srid);
    let s = enc_geom(GeometryView::GeometryCollection(c), t, srid) + rest;
    let n = c.geometries.len() as u32;
    let body_rest = enc_u32_le(n) + (enc_geoms(c.geometries, t) + rest);
    assert(s =~= enc_header(7, t, srid) + body_rest);
    lemma_header_roundtrip(7, t, srid, body_rest);
    assert(s.skip(hl as int) =~= body_rest);
    lemma_u32_le_roundtrip(n, enc_geoms(c.geometries, t) + rest);
    assert(s.skip((hl + 4) as int) =~= enc_geoms(c.geometries, t) + rest);
    lemma_geoms_roundtrip(c.geometries, t, rest);
    assert(n as nat == c.geometries.len());
    lemma_norm_geoms_index(c.geometries);
}

/// A written run of full geometries parses back element by element,
/// each normalized without an SRID.
#[verifier::rlimit(100)]
#[verifier::spinoff_prover]
proof fn lemma_geoms_roundtrip(gs: Seq<GeometryView>, t: PointType, rest: Seq<u8>)
    requires
        wf_geoms(gs, t),
    ensures
        parse_coll_items(enc_geoms(gs, t) + rest, t, gs.len()) == Some(
            (norm_geoms(gs), enc_geoms(gs, t).len()),
        ),
    decreases gs,
{
    lemma_norm_geoms_index(gs);
    if gs.len() == 0 {
        assert(enc_geoms(gs, t) + rest =~= rest);
        assert(norm_geoms(gs) =~= Seq::<GeometryView>::empty());
    } else {
        let g = gs.first();
        let tail = gs.drop_first();
        let s = enc_geoms(gs, t) + rest;
        assert(g.wf(t));
        assert(s =~= enc_geom(g, t, None) + (enc_geoms(tail, t) + rest));
        lemma_geom_roundtrip(g, t, None, enc_geoms(tail, t) + rest);
        let c = enc_geom(g, t, None).len();
        assert(s.skip(c as int) =~= enc_geoms(tail, t) + rest);
        lemma_geoms_roundtrip(tail, t, rest);
        lemma_norm_geoms_index(tail);
        assert(norm_geoms(gs) =~= seq![g.norm(None)] + norm_geoms(tail));
    }
}

/// The round trip of the typed Point reader and writer.
pub proof fn lemma_point_decode_encode(p: PointView, t: PointType, srid: Option<i32>)
    requires
        p.wf(t),
    ensures
        parse_point_geom(enc_geom(GeometryView::Point(p), t, srid), t) == Some(
            (p.norm(srid), enc_geom(GeometryView::Point(p), t, srid).len()),
        ),
{
    assert(enc_geom(GeometryView::Point(p), t, srid) =~= enc_header(1, t, srid) + (enc_point_body(
        p,
        t,
    ) + Seq::<u8>::empty()));
    lemma_point_geom_roundtrip(p, t, srid, Seq::empty());
}

/// The round trip of the typed LineString reader and writer.
pub proof fn lemma_line_decode_encode(l: LineStringView, t: PointType, srid: Option<i32>)
    requires
        l.wf(t),
    ensures
        parse_line_geom(enc_geom(GeometryView::LineString(l), t, srid), t) == Some(
            (l.norm(srid), enc_geom(GeometryView::LineString(l), t, srid).len()),
        ),
{
    assert(enc_geom(GeometryView::LineString(l), t, srid) =~= enc_header(2, t, srid) + (
    enc_line_body(l.points, t) + Seq::<u8>::empty()));
    lemma_line_geom_roundtrip(l, t, srid, Seq::empty());
}

/// The round trip of the typed Polygon reader and writer.
pub proof fn lemma_poly_decode_encode(y: PolygonView, t: PointType, srid: Option<i32>)
    requires
        y.wf(t),
    ensures
        parse_poly_geom(enc_geom(GeometryView::Polygon(y), t, srid), t) == Some(
            (y.norm(srid), enc_geom(GeometryView::Polygon(y), t, srid).len()),
        ),
{
    assert(enc_geom(GeometryView::Polygon(y), t, srid) =~= enc_header(3, t, srid) + (enc_poly_body(
        y.rings,
        t,
    ) + Seq::<u8>::empty()));
    lemma_poly_geom_roundtrip(y, t, srid, Seq::empty());
}

/// The round trip of the typed MultiPoint reader and writer.
pub proof fn lemma_mpoint_decode_encode(mp: MultiPointView, t: PointType, srid: Option<i32>)
    requires
        mp.wf(t),
    ensures
        parse_mpoint_geom(enc_geom(GeometryView::MultiPoint(mp), t, srid), t) == Some(
            (mp.norm(srid), enc_geom(GeometryView::MultiPoint(mp), t, srid).len()),
        ),
{
    let s = enc_geom(GeometryView::MultiPoint(mp), t, srid);
    let body_rest = enc_mpoint_body(mp.points, t) + Seq::<u8>::empty();
    assert(s =~= enc_header(4, t, srid) + body_rest);
    lemma_header_roundtrip(4, t, srid, body_rest);
    assert(s.skip(header_len(srid) as int) =~= body_rest);
    lemma_mpoint_body_roundtrip(mp, t, srid, Seq::empty());
}

/// The round trip of the typed MultiLineString reader and writer.
pub proof fn lemma_mline_decode_encode(ml: MultiLineStringView, t: PointType, srid: Option<i32>)
    requires
        ml.wf(t),
    ensures
        parse_mline_geom(enc_geom(GeometryView::MultiLineString(ml), t, srid), t) == Some(
            (ml.norm(srid), enc_geom(GeometryView::MultiLineString(ml), t, srid).len()),
        ),
{
    let s = enc_geom(GeometryView::MultiLineString(ml), t, srid);
    let body_rest = enc_mline_body(ml.lines, t) + Seq::<u8>::empty();
    assert(s =~= enc_header(5, t, srid) + body_rest);
    lemma_header_roundtrip(5, t, srid, body_rest);
    assert(s.skip(header_len(srid) as int) =~= body_rest);
    lemma_mline_body_roundtrip(ml, t, srid, Seq::empty());
}

/// The round trip of the typed MultiPolygon reader and writer.
pub proof fn lemma_mpoly_decode_encode(my: MultiPolygonView, t: PointType, srid: Option<i32>)
    requires
        my.wf(t),
    ensures
        parse_mpoly_geom(enc_geom(GeometryView::MultiPolygon(my), t, srid), t) == Some(
            (my.norm(srid), enc_geom(GeometryView::MultiPolygon(my), t, srid).len()),
        ),
{
    let s = enc_geom(GeometryView::MultiPolygon(my), t, srid);
    let body_rest = enc_mpoly_body(my.polygons, t) + Seq::<u8>::empty();
    assert(s =~= enc_header(6, t, srid) + body_rest);
    lemma_header_roundtrip(6, t, srid, body_rest);
    assert(s.skip(header_len(srid) as int) =~= body_rest);
    lemma_mpoly_body_roundtrip(my, t, srid, Seq::empty());
}

/// The round trip of the typed GeometryCollection reader and writer: the
/// elements come back normalized, and the header SRID stays on top.
pub proof fn lemma_coll_decode_encode(c: GeometryCollectionView, t: PointType, srid: Option<i32>)
    requires
        c.geometries.len() <= u32::MAX,
        wf_geoms(c.geometries, t),
    ensures
        parse_coll_geom(enc_geom(GeometryView::GeometryCollection(c), t, srid), t) == Some(
            (
                GeometryCollectionView { geometries: norm_geoms(c.geometries), srid },
                enc_geom(GeometryView::GeometryCollection(c), t, srid).len(),
            ),
        ),
{
    let s = enc_geom(GeometryView::GeometryCollection(c), t, srid);
    let n = c.geometries.len() as u32;
    let body_rest = enc_u32_le(n) + (enc_geoms(c.geometries, t) + Seq::<u8>::empty());
    assert(s =~= enc_header(7, t, srid) + body_rest);
    lemma_header_roundtrip(7, t, srid, body_rest);
    assert(s.skip(header_len(srid) as int) =~= body_rest);
    lemma_u32_le_roundtrip(n, enc_geoms(c.geometries, t) + Seq::<u8>::empty());
    assert(body_rest.skip(4) =~= enc_geoms(c.geometries, t) + Seq::<u8>::empty());
    lemma_geoms_roundtrip(c.geometries, t, Seq::empty());
    assert(n as nat == c.geometries.len());
    lemma_norm_geoms_index(c.geometries);
}

/// Decoding an encoding gives the value back, laid out as decoding lays
/// SRIDs out: a top-level SRID as written, the points of a LineString
/// and rings of a Polygon repeating it, nested elements without one.
pub proof fn lemma_decode_encode(g: GeometryView, t: PointType, srid: Option<i32>)
    requires
        g.wf(t),
    ensures
        parse_geom(enc_geom(g, t, srid), t) == Some((g.norm(srid), enc_geom(g, t, srid).len())),
{
    assert(enc_geom(g, t, srid) + Seq::<u8>::empty() =~= enc_geom(g, t, srid));
    lemma_geom_roundtrip(g, t, srid, Seq::empty());
}

/// The round trip proper: a value already in decode layout comes back
/// exactly equal from its own encoding.
pub proof fn lemma_roundtrip(g: GeometryView, t: PointType)
    requires
        g.wf(t),
        g.norm(g.top_srid()) == g,
    ensures
        parse_geom(enc_geom(g, t, g.top_srid()), t) == Some(
            (g, enc_geom(g, t, g.top_srid()).len()),
        ),
{
    lemma_decode_encode(g, t, g.top_srid());
}

// --- normalization is a fixed point of decoding ---

proof fn lemma_point_norm(p: PointView, t: PointType, h: Option<i32>)
    requires
        p.wf(t),
    ensures
        p.norm(h).wf(t),
        p.norm(h).norm(h) == p.norm(h),
        p.norm(h).srid == h,
{
}

proof fn lemma_line_norm(l: LineStringView, t: PointType, h: Option<i32>)
    requires
        l.wf(t),
    ensures
        l.norm(h).wf(t),
        l.norm(h).norm(h) == l.norm(h),
        l.norm(h).srid == h,
{
    let l1 = l.norm(h);
    assert forall|i: int| 0 <= i < l1.points.len() implies #[trigger] l1.points[i].wf(t) by {
        assert(l.points[i].wf(t));
    }
    assert(l1.norm(h).points =~= l1.points);
}

proof fn lemma_poly_norm(y: PolygonView, t: PointType, h: Option<i32>)
    requires
        y.wf(t),
    ensures
        y.norm(h).wf(t),
        y.norm(h).norm(h) == y.norm(h),
        y.norm(h).srid == h,
{
    let y1 = y.norm(h);
    assert forall|i: int| 0 <= i < y1.rings.len() implies #[trigger] y1.rings[i].wf(t) by {
        assert(y.rings[i].wf(t));
        lemma_line_norm(y.rings[i], t, h);
    }
    assert forall|i: int| 0 <= i < y1.rings.len() implies #[trigger] y1.norm(h).rings[i]
        == y1.rings[i] by {
        assert(y.rings[i].wf(t));
        lemma_line_norm(y.rings[i], t, h);
    }
    assert(y1.norm(h).rings =~= y1.rings);
}

proof fn lemma_mpoint_norm(mp: MultiPointView, t: PointType, h: Option<i32>)
    requires
        mp.wf(t),
    ensures
        mp.norm(h).wf(t),
        mp.norm(h).norm(h) == mp.norm(h),
        mp.norm(h).srid == h,
{
    let m1 = mp.norm(h);
    assert forall|i: int| 0 <= i < m1.points.len() implies #[trigger] m1.points[i].wf(t) by {
        assert(mp.points[i].wf(t));
    }
    assert(m1.norm(h).points =~= m1.points);
}

proof fn lemma_mline_norm(ml: MultiLineStringView, t: PointType, h: Option<i32>)
    requires
        ml.wf(t),
    ensures
        ml.norm(h).wf(t),
        ml.norm(h).norm(h) == ml.norm(h),
        ml.norm(h).srid == h,
{
    let m1 = ml.norm(h);
    assert forall|i: int| 0 <= i < m1.lines.len() implies #[trigger] m1.lines[i].wf(t) by {
        assert(ml.lines[i].wf(t));
        lemma_line_norm(ml.lines[i], t, None);
    }
    assert forall|i: int| 0 <= i < m1.lines.len() implies #[trigger] m1.norm(h).lines[i]
        == m1.lines[i] by {
        assert(ml.lines[i].wf(t));
        lemma_line_norm(ml.lines[i], t, None);
    }
    assert(m1.norm(h).lines =~= m1.lines);
}

proof fn lemma_mpoly_norm(my: MultiPolygonView, t: PointType, h: Option<i32>)
    requires
        my.wf(t),
    ensures
        my.norm(h).wf(t),
        my.norm(h).norm(h) == my.norm(h),
        my.norm(h).srid == h,
{
    let m1 = my.norm(h);
    assert forall|i: int| 0 <= i < m1.polygons.len() implies #[trigger] m1.polygons[i].wf(t) by {
        assert(my.polygons[i].wf(t));
        lemma_poly_norm(my.polygons[i], t, None);
    }
    assert forall|i: int| 0 <= i < m1.polygons.len() implies #[trigger] m1.norm(h).polygons[i]
        == m1.polygons[i] by {
        assert(my.polygons[i].wf(t));
        lemma_poly_norm(my.polygons[i], t, None);
    }
    assert(m1.norm(h).polygons =~= m1.polygons);
}

/// Well-formedness of a run of geometries, element by element.
proof fn lemma_wf_geoms_index(gs: Seq<GeometryView>, t: PointType)
    ensures
        wf_geoms(gs, t) <==> (forall|i: int| 0 <= i < gs.len() ==> #[trigger] gs[i].wf(t)),
    decreases gs,
{
    if gs.len() > 0 {
        let tail = gs.drop_first();
        lemma_wf_geoms_index(tail, t);
        if wf_geoms(gs, t) {
            assert forall|i: int| 0 <= i < gs.len() implies #[trigger] gs[i].wf(t) by {
                if i == 0 {
                    assert(gs.first().wf(t));
                } else {
                    assert(tail[i - 1].wf(t));
                    assert(gs[i] == tail[i - 1]);
                }
            }
        }
        if forall|i: int| 0 <= i < gs.len() ==> #[trigger] gs[i].wf(t) {
            assert(gs[0].wf(t));
            assert forall|j: int| 0 <= j < tail.len() implies #[trigger] tail[j].wf(t) by {
                assert(gs[j + 1].wf(t));
                assert(tail[j] == gs[j + 1]);
            }
            assert(wf_geoms(tail, t));
        }
    }
}

/// A normalized geometry is well-formed and is its own normalization:
/// decoding lays values out exactly like this.
proof fn lemma_geom_norm(g: GeometryView, t: PointType, h: Option<i32>)
    requires
        g.wf(t),
    ensures
        g.norm(h).wf(t),
        g.norm(h).norm(g.norm(h).top_srid()) == g.norm(h),
    decreases g,
{
    match g {
        GeometryView::Point(p) => {
            lemma_point_norm(p, t, h);
        },
        GeometryView::LineString(l) => {
            lemma_line_norm(l, t, h);
        },
        GeometryView::Polygon(y) => {
            lemma_poly_norm(y, t, h);
        },
        GeometryView::MultiPoint(mp) => {
            lemma_mpoint_norm(mp, t, h);
        },
        GeometryView::MultiLineString(ml) => {
            lemma_mline_norm(ml, t, h);
        },
        GeometryView::MultiPolygon(my) => {
            lemma_mpoly_norm(my, t, h);
        },
        GeometryView::GeometryCollection(c) => {
            lemma_geoms_norm(c.geometries, t);
        },
    }
}

/// Normalizing a run of geometries preserves length and well-formedness
/// and is idempotent.
proof fn lemma_geoms_norm(gs: Seq<GeometryView>, t: PointType)
    requires
        wf_geoms(gs, t),
    ensures
        norm_geoms(gs).len() == gs.len(),
        wf_geoms(norm_geoms(gs), t),
        norm_geoms(norm_geoms(gs)) == norm_geoms(gs),
    decreases gs,
{
    lemma_norm_geoms_index(gs);
    lemma_wf_geoms_index(gs, t);
    let n1 = norm_geoms(gs);
    lemma_norm_geoms_index(n1);
    assert forall|i: int| 0 <= i < n1.len() implies #[trigger] n1[i].wf(t) by {
        assert(n1[i] == gs[i].norm(None));
        assert(gs[i].wf(t));
        lemma_geom_norm(gs[i], t, None);
    }
    assert forall|i: int| 0 <= i < n1.len() implies #[trigger] n1[i].norm(None) == n1[i] by {
        assert(n1[i] == gs[i].norm(None));
        assert(gs[i].wf(t));
        lemma_geom_norm(gs[i], t, None);
        assert(gs[i].norm(None).top_srid() is None) by {
            match gs[i] {
                GeometryView::Point(p) => lemma_point_norm(p, t, None),
                GeometryView::LineString(l) => lemma_line_norm(l, t, None),
                GeometryView::Polygon(y) => lemma_poly_norm(y, t, None),
                GeometryView::MultiPoint(mp) => lemma_mpoint_norm(mp, t, None),
                GeometryView::MultiLineString(ml) => lemma_mline_norm(ml, t, None),
                GeometryView::MultiPolygon(my) => lemma_mpoly_norm(my, t, None),
                GeometryView::GeometryCollection(_c) => (),
            }
        }
    }
    lemma_wf_geoms_index(n1, t);
    assert(norm_geoms(n1) =~= n1);
}

// --- every decoded value is well-formed ---

proof fn lemma_parse_point_body_wf(s: Seq<u8>, be: bool, t: PointType, h: Option<i32>)
    ensures
        parse_point_body(s, be, t, h) matches Some(pr) ==> pr.0.wf(t),
{
    reveal(parse_point_body);
}

proof fn lemma_parse_points_wf(s: Seq<u8>, be: bool, t: PointType, h: Option<i32>, n: nat)
    ensures
        parse_points(s, be, t, h, n) matches Some(pr) ==> pr.0.len() == n && (forall|i: int|
            0 <= i < pr.0.len() ==> #[trigger] pr.0[i].wf(t)),
    decreases n,
{
    if n > 0 && parse_points(s, be, t, h, n) is Some {
        let pr = parse_points(s, be, t, h, n).unwrap();
        let (p, c) = parse_point_body(s, be, t, h).unwrap();
        lemma_parse_point_body_wf(s, be, t, h);
        lemma_parse_points_wf(s.skip(c as int), be, t, h, (n - 1) as nat);
        let rest = parse_points(s.skip(c as int), be, t, h, (n - 1) as nat).unwrap().0;
        assert forall|i: int| 0 <= i < pr.0.len() implies #[trigger] pr.0[i].wf(t) by {
            if i > 0 {
                assert(pr.0[i] == rest[i - 1]);
            }
        }
    }
}

proof fn lemma_parse_line_body_wf(s: Seq<u8>, be: bool, t: PointType, h: Option<i32>)
    ensures
        parse_line_body(s, be, t, h) matches Some(pr) ==> pr.0.wf(t),
{
    if parse_line_body(s, be, t, h) is Some {
        let (n, _) = p_u32(s, be).unwrap();
        lemma_parse_points_wf(s.skip(4), be, t, h, n as nat);
    }
}

proof fn lemma_parse_rings_wf(s: Seq<u8>, be: bool, t: PointType, h: Option<i32>, n: nat)
    ensures
        parse_rings(s, be, t, h, n) matches Some(pr) ==> pr.0.len() == n && (forall|i: int|
            0 <= i < pr.0.len() ==> #[trigger] pr.0[i].wf(t)),
    decreases n,
{
    if n > 0 && parse_rings(s, be, t, h, n) is Some {
        let pr = parse_rings(s, be, t, h, n).unwrap();
        let (l, c) = parse_line_body(s, be, t, h).unwrap();
        lemma_parse_line_body_wf(s, be, t, h);
        lemma_parse_rings_wf(s.skip(c as int), be, t, h, (n - 1) as nat);
        let rest = parse_rings(s.skip(c as int), be, t, h, (n - 1) as nat).unwrap().0;
        assert forall|i: int| 0 <= i < pr.0.len() implies #[trigger] pr.0[i].wf(t) by {
            if i > 0 {
                assert(pr.0[i] == rest[i - 1]);
            }
        }
    }
}

proof fn lemma_parse_poly_body_wf(s: Seq<u8>, be: bool, t: PointType, h: Option<i32>)
    ensures
        parse_poly_body(s, be, t, h) matches Some(pr) ==> pr.0.wf(t),
{
    if parse_poly_body(s, be, t, h) is Some {
        let (n, _) = p_u32(s, be).unwrap();
        lemma_parse_rings_wf(s.skip(4), be, t, h, n as nat);
    }
}

proof fn lemma_parse_point_geoms_wf(s: Seq<u8>, t: PointType, n: nat)
    ensures
        parse_point_geoms(s, t, n) matches Some(pr) ==> pr.0.len() == n && (forall|i: int|
            0 <= i < pr.0.len() ==> #[trigger] pr.0[i].wf(t)),
    decreases n,
{
    if n > 0 && parse_point_geoms(s, t, n) is Some {
        let pr = parse_point_geoms(s, t, n).unwrap();
        let (p, c) = parse_point_geom(s, t).unwrap();
        let ((be, _tid, h), hc) = parse_header(s).unwrap();
        lemma_parse_point_body_wf(s.skip(hc as int), be, t, h);
        lemma_parse_point_geoms_wf(s.skip(c as int), t, (n - 1) as nat);
        let rest = parse_point_geoms(s.skip(c as int), t, (n - 1) as nat).unwrap().0;
        assert forall|i: int| 0 <= i < pr.0.len() implies #[trigger] pr.0[i].wf(t) by {
            if i > 0 {
                assert(pr.0[i] == rest[i - 1]);
            }
        }
    }
}

proof fn lemma_parse_mpoint_body_wf(s: Seq<u8>, be: bool, t: PointType, h: Option<i32>)
    ensures
        parse_mpoint_body(s, be, t, h) matches Some(pr) ==> pr.0.wf(t),
{
    if parse_mpoint_body(s, be, t, h) is Some {
        let (n, _) = p_u32(s, be).unwrap();
        lemma_parse_point_geoms_wf(s.skip(4), t, n as nat);
    }
}

proof fn lemma_parse_line_geoms_wf(s: Seq<u8>, t: PointType, n: nat)
    ensures
        parse_line_geoms(s, t, n) matches Some(pr) ==> pr.0.len() == n && (forall|i: int|
            0 <= i < pr.0.len() ==> #[trigger] pr.0[i].wf(t)),
    decreases n,
{
    if n > 0 && parse_line_geoms(s, t, n) is Some {
        let pr = parse_line_geoms(s, t, n).unwrap();
        let (l, c) = parse_line_geom(s, t).unwrap();
        let ((be, _tid, h), hc) = parse_header(s).unwrap();
        lemma_parse_line_body_wf(s.skip(hc as int), be, t, h);
        lemma_parse_line_geoms_wf(s.skip(c as int), t, (n - 1) as nat);
        let rest = parse_line_geoms(s.skip(c as int), t, (n - 1) as nat).unwrap().0;
        assert forall|i: int| 0 <= i < pr.0.len() implies #[trigger] pr.0[i].wf(t) by {
            if i > 0 {
                assert(pr.0[i] == rest[i - 1]);
            }
        }
    }
}

proof fn lemma_parse_mline_body_wf(s: Seq<u8>, be: bool, t: PointType, h: Option<i32>)
    ensures
        parse_mline_body(s, be, t, h) matches Some(pr) ==> pr.0.wf(t),
{
    if parse_mline_body(s, be, t, h) is Some {
        let (n, _) = p_u32(s, be).unwrap();
        lemma_parse_line_geoms_wf(s.skip(4), t, n as nat);
    }
}

proof fn lemma_parse_poly_geoms_wf(s: Seq<u8>, t: PointType, n: nat)
    ensures
        parse_poly_geoms(s, t, n) matches Some(pr) ==> pr.0.len() == n && (forall|i: int|
            0 <= i < pr.0.len() ==> #[trigger] pr.0[i].wf(t)),
    decreases n,
{
    if n > 0 && parse_poly_geoms(s, t, n) is Some {
        let pr = parse_poly_geoms(s, t, n).unwrap();
        let (y, c) = parse_poly_geom(s, t).unwrap();
        let ((be, _tid, h), hc) = parse_header(s).unwrap();
        lemma_parse_poly_body_wf(s.skip(hc as int), be, t, h);
        lemma_parse_poly_geoms_wf(s.skip(c as int), t, (n - 1) as nat);
        let rest = parse_poly_geoms(s.skip(c as int), t, (n - 1) as nat).unwrap().0;
        assert forall|i: int| 0 <= i < pr.0.len() implies #[trigger] pr.0[i].wf(t) by {
            if i > 0 {
                assert(pr.0[i] == rest[i - 1]);
            }
        }
    }
}

proof fn lemma_parse_mpoly_body_wf(s: Seq<u8>, be: bool, t: PointType, h: Option<i32>)
    ensures
        parse_mpoly_body(s, be, t, h) matches Some(pr) ==> pr.0.wf(t),
{
    if parse_mpoly_body(s, be, t, h) is Some {
        let (n, _) = p_u32(s, be).unwrap();
        lemma_parse_poly_geoms_wf(s.skip(4), t, n as nat);
    }
}

/// Every geometry a parse yields is well-formed: its ordinates match the
/// point layout and every count fits the wire.
#[verifier::rlimit(100)]
#[verifier::spinoff_prover]
pub proof fn lemma_parse_geom_wf(s: Seq<u8>, t: PointType)
    ensures
        parse_geom(s, t) matches Some(pr) ==> pr.0.wf(t),
    decreases s.len(), 0nat,
{
    if parse_geom(s, t) is Some {
        let ((be, tid, h), hc) = parse_header(s).unwrap();
        let kind = tid & 0xffu32;
        let body = s.skip(hc as int);
        if kind == 1 {
            lemma_parse_point_body_wf(body, be, t, h);
        } else if kind == 2 {
            lemma_parse_line_body_wf(body, be, t, h);
        } else if kind == 3 {
            lemma_parse_poly_body_wf(body, be, t, h);
        } else if kind == 4 {
            lemma_parse_mpoint_body_wf(body, be, t, h);
        } else if kind == 5 {
            lemma_parse_mline_body_wf(body, be, t, h);
        } else if kind == 6 {
            lemma_parse_mpoly_body_wf(body, be, t, h);
        } else {
            let (n, _) = p_u32(body, be).unwrap();
            lemma_parse_coll_items_wf(s.skip(hc + 4int), t, n as nat);
        }
    }
}

proof fn lemma_parse_coll_items_wf(s: Seq<u8>, t: PointType, n: nat)
    ensures
        parse_coll_items(s, t, n) matches Some(pr) ==> pr.0.len() == n && wf_geoms(pr.0, t),
    decreases s.len(), n + 1nat,
{
    if n > 0 && parse_coll_items(s, t, n) is Some {
        let pr = parse_coll_items(s, t, n).unwrap();
        let (g, c) = parse_geom(s, t).unwrap();
        lemma_parse_geom_wf(s, t);
        lemma_parse_coll_items_wf(s.skip(c as int), t, (n - 1) as nat);
        let rest = parse_coll_items(s.skip(c as int), t, (n - 1) as nat).unwrap().0;
        assert(pr.0.first() == g);
        assert(pr.0.drop_first() =~= rest);
        assert(wf_geoms(pr.0, t));
    }
}

/// Idempotence over decoded values: any stream that decodes, and whose
/// decoded value is in decode layout (its nested SRIDs as a decode of an
/// encoding places them), re-encodes to hexadecimal text that decodes to
/// the very same value.
pub proof fn lemma_decoded_hex_roundtrip(s: Seq<u8>, t: PointType)
    requires
        parse_geom(s, t) matches Some(pr) && pr.0.norm(pr.0.top_srid()) == pr.0,
    ensures
        ({
            let g = parse_geom(s, t).unwrap().0;
            parse_geom(unhex_upper(hex_upper(enc_geom(g, t, g.top_srid()))), t) == Some(
                (g, enc_geom(g, t, g.top_srid()).len()),
            )
        }),
{
    let g = parse_geom(s, t).unwrap().0;
    lemma_parse_geom_wf(s, t);
    lemma_hex_roundtrip(enc_geom(g, t, g.top_srid()));
    lemma_decode_encode(g, t, g.top_srid());
}

/// Idempotence under re-encoding: whatever value an EWKB decode yields
/// (always a normalization of the encoded value), writing that value
/// out as hexadecimal text and decoding the text gives the very same
/// value back.
pub proof fn lemma_hex_roundtrip_idempotent(g: GeometryView, t: PointType, srid: Option<i32>)
    requires
        g.wf(t),
    ensures
        ({
            let decoded = g.norm(srid);
            parse_geom(
                unhex_upper(hex_upper(enc_geom(decoded, t, decoded.top_srid()))),
                t,
            ) == Some((decoded, enc_geom(decoded, t, decoded.top_srid()).len()))
        }),
{
    let decoded = g.norm(srid);
    lemma_geom_norm(g, t, srid);
    lemma_hex_roundtrip(enc_geom(decoded, t, decoded.top_srid()));
    lemma_decode_encode(decoded, t, decoded.top_srid());
}

/// SRID scoping: however a MultiPoint's own points are labelled, and
/// whatever SRID the value itself is written under, every decoded
/// element comes back with no SRID of its own.
pub proof fn lemma_srid_scoping(mp: MultiPointView, t: PointType)
    requires
        mp.wf(t),
    ensures
        parse_geom(enc_geom(GeometryView::MultiPoint(mp), t, mp.srid), t) matches Some(pr)
            && pr.0 == GeometryView::MultiPoint(mp.norm(mp.srid)) && forall|i: int|
            0 <= i < mp.points.len() ==> mp.norm(mp.srid).points[i].srid is None,
{
    lemma_decode_encode(GeometryView::MultiPoint(mp), t, mp.srid);
}

} // verus!
