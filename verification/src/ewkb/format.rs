//! The EWKB wire format, stated mathematically.
//!
//! `enc_*` functions give the exact byte sequence the writer produces
//! (always little-endian, SRID written only where the value carries one,
//! nested elements always without SRID). `parse_*` functions give the
//! value and byte count the reader accepts, or `None` where the reader
//! must fail: they follow the byte-order flag, read the SRID exactly when
//! the type code announces one, and take the ordinate count from the point
//! layout being decoded into, not from the type-code bits.

use vstd::prelude::*;
use crate::types::{PointType, PointView};
use crate::wire::{enc_u32_le, enc_u64_le, enc_i32_le, p_u32, p_i32, p_u64};

verus! {

// --- the mathematical model of every geometry value ---

pub struct LineStringView {
    pub points: Seq<PointView>,
    pub srid: Option<i32>,
}

pub struct PolygonView {
    pub rings: Seq<LineStringView>,
    pub srid: Option<i32>,
}

pub struct MultiPointView {
    pub points: Seq<PointView>,
    pub srid: Option<i32>,
}

pub struct MultiLineStringView {
    pub lines: Seq<LineStringView>,
    pub srid: Option<i32>,
}

pub struct MultiPolygonView {
    pub polygons: Seq<PolygonView>,
    pub srid: Option<i32>,
}

pub enum GeometryView {
    Point(PointView),
    LineString(LineStringView),
    Polygon(PolygonView),
    MultiPoint(MultiPointView),
    MultiLineString(MultiLineStringView),
    MultiPolygon(MultiPolygonView),
    GeometryCollection(GeometryCollectionView),
}

pub struct GeometryCollectionView {
    pub geometries: Seq<GeometryView>,
    pub srid: Option<i32>,
}

// --- well-formedness: ordinates match the layout, counts fit the wire ---

impl LineStringView {
    pub open spec fn wf(self, t: PointType) -> bool {
        &&& self.points.len() <= u32::MAX
        &&& forall|i: int| 0 <= i < self.points.len() ==> #[trigger] self.points[i].wf(t)
    }
}

impl PolygonView {
    pub open spec fn wf(self, t: PointType) -> bool {
        &&& self.rings.len() <= u32::MAX
        &&& forall|i: int| 0 <= i < self.rings.len() ==> #[trigger] self.rings[i].wf(t)
    }
}

impl MultiPointView {
    pub open spec fn wf(self, t: PointType) -> bool {
        &&& self.points.len() <= u32::MAX
        &&& forall|i: int| 0 <= i < self.points.len() ==> #[trigger] self.points[i].wf(t)
    }
}

impl MultiLineStringView {
    pub open spec fn wf(self, t: PointType) -> bool {
        &&& self.lines.len() <= u32::MAX
        &&& forall|i: int| 0 <= i < self.lines.len() ==> #[trigger] self.lines[i].wf(t)
    }
}

impl MultiPolygonView {
    pub open spec fn wf(self, t: PointType) -> bool {
        &&& self.polygons.len() <= u32::MAX
        &&& forall|i: int| 0 <= i < self.polygons.len() ==> #[trigger] self.polygons[i].wf(t)
    }
}

impl GeometryView {
    pub open spec fn wf(self, t: PointType) -> bool
        decreases self, 1nat,
    {
        match self {
            GeometryView::Point(p) => p.wf(t),
            GeometryView::LineString(l) => l.wf(t),
            GeometryView::Polygon(p) => p.wf(t),
            GeometryView::MultiPoint(mp) => mp.wf(t),
            GeometryView::MultiLineString(ml) => ml.wf(t),
            GeometryView::MultiPolygon(my) => my.wf(t),
            GeometryView::GeometryCollection(c) => {
                &&& c.geometries.len() <= u32::MAX
                &&& wf_geoms(c.geometries, t)
            },
        }
    }

    /// The spatial reference identifier stored at the top of this value.
    pub open spec fn top_srid(self) -> Option<i32> {
        match self {
            GeometryView::Point(p) => p.srid,
            GeometryView::LineString(l) => l.srid,
            GeometryView::Polygon(p) => p.srid,
            GeometryView::MultiPoint(mp) => mp.srid,
            GeometryView::MultiLineString(ml) => ml.srid,
            GeometryView::MultiPolygon(my) => my.srid,
            GeometryView::GeometryCollection(c) => c.srid,
        }
    }
}

pub open spec fn wf_geoms(gs: Seq<GeometryView>, t: PointType) -> bool
    decreases gs, 0nat,
{
    gs.len() == 0 || (gs.first().wf(t) && wf_geoms(gs.drop_first(), t))
}

// --- normalization: the spatial reference layout a decode produces ---
//
// A decoded value holds its SRID only as PostGIS convention puts it there:
// the SRID sits at the outermost geometry; the points of a LineString and
// the rings of a Polygon repeat the header's SRID; the elements of a
// Multi* value and of a GeometryCollection carry none of their own.

impl PointView {
    pub open spec fn norm(self, h: Option<i32>) -> PointView {
        self.with_srid(h)
    }
}

impl LineStringView {
    pub open spec fn norm(self, h: Option<i32>) -> LineStringView {
        LineStringView { points: self.points.map_values(|p: PointView| p.norm(h)), srid: h }
    }
}

impl PolygonView {
    pub open spec fn norm(self, h: Option<i32>) -> PolygonView {
        PolygonView { rings: self.rings.map_values(|l: LineStringView| l.norm(h)), srid: h }
    }
}

impl MultiPointView {
    pub open spec fn norm(self, h: Option<i32>) -> MultiPointView {
        MultiPointView {
            points: self.points.map_values(|p: PointView| p.norm(None)),
            srid: h,
        }
    }
}

impl MultiLineStringView {
    pub open spec fn norm(self, h: Option<i32>) -> MultiLineStringView {
        MultiLineStringView {
            lines: self.lines.map_values(|l: LineStringView| l.norm(None)),
            srid: h,
        }
    }
}

impl MultiPolygonView {
    pub open spec fn norm(self, h: Option<i32>) -> MultiPolygonView {
        MultiPolygonView {
            polygons: self.polygons.map_values(|p: PolygonView| p.norm(None)),
            srid: h,
        }
    }
}

impl GeometryView {
    pub open spec fn norm(self, h: Option<i32>) -> GeometryView
        decreases self, 1nat,
    {
        match self {
            GeometryView::Point(p) => GeometryView::Point(p.norm(h)),
            GeometryView::LineString(l) => GeometryView::LineString(l.norm(h)),
            GeometryView::Polygon(p) => GeometryView::Polygon(p.norm(h)),
            GeometryView::MultiPoint(mp) => GeometryView::MultiPoint(mp.norm(h)),
            GeometryView::MultiLineString(ml) => GeometryView::MultiLineString(ml.norm(h)),
            GeometryView::MultiPolygon(my) => GeometryView::MultiPolygon(my.norm(h)),
            GeometryView::GeometryCollection(c) => GeometryView::GeometryCollection(
                GeometryCollectionView { geometries: norm_geoms(c.geometries), srid: h },
            ),
        }
    }
}

pub open spec fn norm_geoms(gs: Seq<GeometryView>) -> Seq<GeometryView>
    decreases gs, 0nat,
{
    if gs.len() == 0 {
        Seq::empty()
    } else {
        norm_geoms(gs.drop_last()).push(gs.last().norm(None))
    }
}

// --- the type code ---

/// The flag bits the type code carries beside the kind: SRID present,
/// has Z, has M.
pub open spec fn spec_type_flags(t: PointType, srid: Option<i32>) -> u32 {
    (if srid is Some {
        0x20000000u32
    } else {
        0u32
    }) | (if t.spec_has_z() {
        0x80000000u32
    } else {
        0u32
    }) | (if t.spec_has_m() {
        0x40000000u32
    } else {
        0u32
    })
}

/// The full type code: kind in the low byte, flags above.
pub open spec fn spec_type_code(kind: u32, t: PointType, srid: Option<i32>) -> u32 {
    kind | spec_type_flags(t, srid)
}

// --- encoders ---

/// Header: one little-endian flag byte, the type code, the SRID if any.
#[verifier::opaque]
pub open spec fn enc_header(kind: u32, t: PointType, srid: Option<i32>) -> Seq<u8> {
    seq![1u8] + enc_u32_le(spec_type_code(kind, t, srid)) + (match srid {
        Some(s) => enc_i32_le(s),
        None => Seq::empty(),
    })
}

/// A point body: the ordinates the layout declares, in x, y, z, m order.
#[verifier::opaque]
pub open spec fn enc_point_body(p: PointView, t: PointType) -> Seq<u8> {
    enc_u64_le(p.x) + enc_u64_le(p.y) + (if t.spec_has_z() {
        enc_u64_le(p.z.unwrap())
    } else {
        Seq::empty()
    }) + (if t.spec_has_m() {
        enc_u64_le(p.m.unwrap())
    } else {
        Seq::empty()
    })
}

pub open spec fn enc_points(ps: Seq<PointView>, t: PointType) -> Seq<u8>
    decreases ps.len(),
{
    if ps.len() == 0 {
        Seq::empty()
    } else {
        enc_point_body(ps.first(), t) + enc_points(ps.drop_first(), t)
    }
}

/// A LineString body: point count, then the points inline.
pub open spec fn enc_line_body(ps: Seq<PointView>, t: PointType) -> Seq<u8> {
    enc_u32_le(ps.len() as u32) + enc_points(ps, t)
}

pub open spec fn enc_rings(rs: Seq<LineStringView>, t: PointType) -> Seq<u8>
    decreases rs.len(),
{
    if rs.len() == 0 {
        Seq::empty()
    } else {
        enc_line_body(rs.first().points, t) + enc_rings(rs.drop_first(), t)
    }
}

/// A Polygon body: ring count, then headerless LineString bodies.
pub open spec fn enc_poly_body(rs: Seq<LineStringView>, t: PointType) -> Seq<u8> {
    enc_u32_le(rs.len() as u32) + enc_rings(rs, t)
}

pub open spec fn enc_point_geoms(ps: Seq<PointView>, t: PointType) -> Seq<u8>
    decreases ps.len(),
{
    if ps.len() == 0 {
        Seq::empty()
    } else {
        enc_header(1, t, None) + enc_point_body(ps.first(), t) + enc_point_geoms(
            ps.drop_first(),
            t,
        )
    }
}

/// A MultiPoint body: count, then full nested point geometries, SRID-less.
pub open spec fn enc_mpoint_body(ps: Seq<PointView>, t: PointType) -> Seq<u8> {
    enc_u32_le(ps.len() as u32) + enc_point_geoms(ps, t)
}

pub open spec fn enc_line_geoms(ls: Seq<LineStringView>, t: PointType) -> Seq<u8>
    decreases ls.len(),
{
    if ls.len() == 0 {
        Seq::empty()
    } else {
        enc_header(2, t, None) + enc_line_body(ls.first().points, t) + enc_line_geoms(
            ls.drop_first(),
            t,
        )
    }
}

/// A MultiLineString body: count, then full nested LineStrings, SRID-less.
pub open spec fn enc_mline_body(ls: Seq<LineStringView>, t: PointType) -> Seq<u8> {
    enc_u32_le(ls.len() as u32) + enc_line_geoms(ls, t)
}

pub open spec fn enc_poly_geoms(ys: Seq<PolygonView>, t: PointType) -> Seq<u8>
    decreases ys.len(),
{
    if ys.len() == 0 {
        Seq::empty()
    } else {
        enc_header(3, t, None) + enc_poly_body(ys.first().rings, t) + enc_poly_geoms(
            ys.drop_first(),
            t,
        )
    }
}

/// A MultiPolygon body: count, then full nested Polygons, SRID-less.
pub open spec fn enc_mpoly_body(ys: Seq<PolygonView>, t: PointType) -> Seq<u8> {
    enc_u32_le(ys.len() as u32) + enc_poly_geoms(ys, t)
}

/// A full geometry under a caller-chosen header SRID: nested elements are
/// always written with `None` there.
pub open spec fn enc_geom(g: GeometryView, t: PointType, srid: Option<i32>) -> Seq<u8>
    decreases g, 1nat,
{
    match g {
        GeometryView::Point(p) => enc_header(1, t, srid) + enc_point_body(p, t),
        GeometryView::LineString(l) => enc_header(2, t, srid) + enc_line_body(l.points, t),
        GeometryView::Polygon(p) => enc_header(3, t, srid) + enc_poly_body(p.rings, t),
        GeometryView::MultiPoint(mp) => enc_header(4, t, srid) + enc_mpoint_body(mp.points, t),
        GeometryView::MultiLineString(ml) => enc_header(5, t, srid) + enc_mline_body(ml.lines, t),
        GeometryView::MultiPolygon(my) => enc_header(6, t, srid) + enc_mpoly_body(my.polygons, t),
        GeometryView::GeometryCollection(c) => enc_header(7, t, srid) + enc_u32_le(
            c.geometries.len() as u32,
        ) + enc_geoms(c.geometries, t),
    }
}

pub open spec fn enc_geoms(gs: Seq<GeometryView>, t: PointType) -> Seq<u8>
    decreases gs, 0nat,
{
    if gs.len() == 0 {
        Seq::empty()
    } else {
        enc_geom(gs.first(), t, None) + enc_geoms(gs.drop_first(), t)
    }
}

// --- parsers ---

/// Header: byte-order byte (0 means big-endian), type code, and the SRID
/// exactly when the type code's SRID bit is set. Yields
/// `((is_be, type_id, srid), consumed)`.
#[verifier::opaque]
pub open spec fn parse_header(s: Seq<u8>) -> Option<((bool, u32, Option<i32>), nat)> {
    if s.len() < 1 {
        None
    } else {
        let be = s[0] == 0;
        match p_u32(s.skip(1), be) {
            Some((tid, _)) => if tid & 0x20000000u32 == 0x20000000u32 {
                match p_i32(s.skip(5), be) {
                    Some((sr, _)) => Some(((be, tid, Some(sr)), 9nat)),
                    None => None,
                }
            } else {
                Some(((be, tid, None), 5nat))
            },
            None => None,
        }
    }
}

/// The 64-bit group at offset `i`, under the byte-order flag.
pub open spec fn u64_at(s: Seq<u8>, i: int, be: bool) -> u64 {
    match p_u64(s.skip(i), be) {
        Some((v, _)) => v,
        None => 0u64,
    }
}

/// A point body: as many 8-byte ordinates as the layout declares. The
/// decoded point takes the SRID handed down from the header.
#[verifier::opaque]
pub open spec fn parse_point_body(s: Seq<u8>, be: bool, t: PointType, h: Option<i32>) -> Option<
    (PointView, nat),
> {
    if s.len() < t.spec_size() {
        None
    } else {
        Some(
            (
                PointView {
                    x: u64_at(s, 0, be),
                    y: u64_at(s, 8, be),
                    z: if t.spec_has_z() {
                        Some(u64_at(s, 16, be))
                    } else {
                        None
                    },
                    m: if t.spec_has_m() {
                        Some(
                            u64_at(
                                s,
                                if t.spec_has_z() {
                                    24
                                } else {
                                    16
                                },
                                be,
                            ),
                        )
                    } else {
                        None
                    },
                    srid: h,
                },
                t.spec_size(),
            ),
        )
    }
}

pub open spec fn parse_points(s: Seq<u8>, be: bool, t: PointType, h: Option<i32>, n: nat) -> Option<
    (Seq<PointView>, nat),
>
    decreases n,
{
    if n == 0 {
        Some((Seq::empty(), 0nat))
    } else {
        match parse_point_body(s, be, t, h) {
            Some((p, c)) => if c <= s.len() {
                match parse_points(s.skip(c as int), be, t, h, (n - 1) as nat) {
                    Some((ps, c2)) => Some((seq![p] + ps, (c + c2) as nat)),
                    None => None,
                }
            } else {
                None
            },
            None => None,
        }
    }
}

/// A LineString body: point count, then the points inline.
pub open spec fn parse_line_body(s: Seq<u8>, be: bool, t: PointType, h: Option<i32>) -> Option<
    (LineStringView, nat),
> {
    match p_u32(s, be) {
        Some((n, _)) => match parse_points(s.skip(4), be, t, h, n as nat) {
            Some((ps, c)) => Some((LineStringView { points: ps, srid: h }, (4 + c) as nat)),
            None => None,
        },
        None => None,
    }
}

pub open spec fn parse_rings(s: Seq<u8>, be: bool, t: PointType, h: Option<i32>, n: nat) -> Option<
    (Seq<LineStringView>, nat),
>
    decreases n,
{
    if n == 0 {
        Some((Seq::empty(), 0nat))
    } else {
        match parse_line_body(s, be, t, h) {
            Some((l, c)) => if c <= s.len() {
                match parse_rings(s.skip(c as int), be, t, h, (n - 1) as nat) {
                    Some((ls, c2)) => Some((seq![l] + ls, (c + c2) as nat)),
                    None => None,
                }
            } else {
                None
            },
            None => None,
        }
    }
}

/// A Polygon body: ring count, then headerless LineString bodies. Rings
/// repeat the header SRID, exactly as the points do.
pub open spec fn parse_poly_body(s: Seq<u8>, be: bool, t: PointType, h: Option<i32>) -> Option<
    (PolygonView, nat),
> {
    match p_u32(s, be) {
        Some((n, _)) => match parse_rings(s.skip(4), be, t, h, n as nat) {
            Some((ls, c)) => Some((PolygonView { rings: ls, srid: h }, (4 + c) as nat)),
            None => None,
        },
        None => None,
    }
}

/// A full nested point geometry: its own header (whose kind bits are not
/// checked, as the reader decodes into a known variant), then the body.
pub open spec fn parse_point_geom(s: Seq<u8>, t: PointType) -> Option<(PointView, nat)> {
    match parse_header(s) {
        Some(((be, _tid, h), hc)) => match parse_point_body(s.skip(hc as int), be, t, h) {
            Some((p, c)) => Some((p, (hc + c) as nat)),
            None => None,
        },
        None => None,
    }
}

pub open spec fn parse_point_geoms(s: Seq<u8>, t: PointType, n: nat) -> Option<
    (Seq<PointView>, nat),
>
    decreases n,
{
    if n == 0 {
        Some((Seq::empty(), 0nat))
    } else {
        match parse_point_geom(s, t) {
            Some((p, c)) => if c <= s.len() {
                match parse_point_geoms(s.skip(c as int), t, (n - 1) as nat) {
                    Some((ps, c2)) => Some((seq![p] + ps, (c + c2) as nat)),
                    None => None,
                }
            } else {
                None
            },
            None => None,
        }
    }
}

/// A MultiPoint body: count, then full nested point geometries.
pub open spec fn parse_mpoint_body(s: Seq<u8>, be: bool, t: PointType, h: Option<i32>) -> Option<
    (MultiPointView, nat),
> {
    match p_u32(s, be) {
        Some((n, _)) => match parse_point_geoms(s.skip(4), t, n as nat) {
            Some((ps, c)) => Some((MultiPointView { points: ps, srid: h }, (4 + c) as nat)),
            None => None,
        },
        None => None,
    }
}

/// A full nested LineString geometry: its own header, then the body.
pub open spec fn parse_line_geom(s: Seq<u8>, t: PointType) -> Option<(LineStringView, nat)> {
    match parse_header(s) {
        Some(((be, _tid, h), hc)) => match parse_line_body(s.skip(hc as int), be, t, h) {
            Some((l, c)) => Some((l, (hc + c) as nat)),
            None => None,
        },
        None => None,
    }
}

pub open spec fn parse_line_geoms(s: Seq<u8>, t: PointType, n: nat) -> Option<
    (Seq<LineStringView>, nat),
>
    decreases n,
{
    if n == 0 {
        Some((Seq::empty(), 0nat))
    } else {
        match parse_line_geom(s, t) {
            Some((l, c)) => if c <= s.len() {
                match parse_line_geoms(s.skip(c as int), t, (n - 1) as nat) {
                    Some((ls, c2)) => Some((seq![l] + ls, (c + c2) as nat)),
                    None => None,
                }
            } else {
                None
            },
            None => None,
        }
    }
}

/// A MultiLineString body: count, then full nested LineStrings.
pub open spec fn parse_mline_body(s: Seq<u8>, be: bool, t: PointType, h: Option<i32>) -> Option<
    (MultiLineStringView, nat),
> {
    match p_u32(s, be) {
        Some((n, _)) => match parse_line_geoms(s.skip(4), t, n as nat) {
            Some((ls, c)) => Some((MultiLineStringView { lines: ls, srid: h }, (4 + c) as nat)),
            None => None,
        },
        None => None,
    }
}

/// A full nested Polygon geometry: its own header, then the body.
pub open spec fn parse_poly_geom(s: Seq<u8>, t: PointType) -> Option<(PolygonView, nat)> {
    match parse_header(s) {
        Some(((be, _tid, h), hc)) => match parse_poly_body(s.skip(hc as int), be, t, h) {
            Some((y, c)) => Some((y, (hc + c) as nat)),
            None => None,
        },
        None => None,
    }
}

pub open spec fn parse_poly_geoms(s: Seq<u8>, t: PointType, n: nat) -> Option<
    (Seq<PolygonView>, nat),
>
    decreases n,
{
    if n == 0 {
        Some((Seq::empty(), 0nat))
    } else {
        match parse_poly_geom(s, t) {
            Some((y, c)) => if c <= s.len() {
                match parse_poly_geoms(s.skip(c as int), t, (n - 1) as nat) {
                    Some((ys, c2)) => Some((seq![y] + ys, (c + c2) as nat)),
                    None => None,
                }
            } else {
                None
            },
            None => None,
        }
    }
}

/// A MultiPolygon body: count, then full nested Polygons.
pub open spec fn parse_mpoly_body(s: Seq<u8>, be: bool, t: PointType, h: Option<i32>) -> Option<
    (MultiPolygonView, nat),
> {
    match p_u32(s, be) {
        Some((n, _)) => match parse_poly_geoms(s.skip(4), t, n as nat) {
            Some((ys, c)) => Some((MultiPolygonView { polygons: ys, srid: h }, (4 + c) as nat)),
            None => None,
        },
        None => None,
    }
}

/// A typed MultiPoint read: header (kind bits not checked), then the body.
pub open spec fn parse_mpoint_geom(s: Seq<u8>, t: PointType) -> Option<(MultiPointView, nat)> {
    match parse_header(s) {
        Some(((be, _tid, h), hc)) => match parse_mpoint_body(s.skip(hc as int), be, t, h) {
            Some((mp, c)) => Some((mp, (hc + c) as nat)),
            None => None,
        },
        None => None,
    }
}

/// A typed MultiLineString read: header, then the body.
pub open spec fn parse_mline_geom(s: Seq<u8>, t: PointType) -> Option<(MultiLineStringView, nat)> {
    match parse_header(s) {
        Some(((be, _tid, h), hc)) => match parse_mline_body(s.skip(hc as int), be, t, h) {
            Some((ml, c)) => Some((ml, (hc + c) as nat)),
            None => None,
        },
        None => None,
    }
}

/// A typed MultiPolygon read: header, then the body.
pub open spec fn parse_mpoly_geom(s: Seq<u8>, t: PointType) -> Option<(MultiPolygonView, nat)> {
    match parse_header(s) {
        Some(((be, _tid, h), hc)) => match parse_mpoly_body(s.skip(hc as int), be, t, h) {
            Some((my, c)) => Some((my, (hc + c) as nat)),
            None => None,
        },
        None => None,
    }
}

/// Any geometry: header, then a body chosen by the low byte of the type
/// code; kinds outside 1..=7 are refused.
pub open spec fn parse_geom(s: Seq<u8>, t: PointType) -> Option<(GeometryView, nat)>
    decreases s.len(), 0nat,
{
    match parse_header(s) {
        Some(((be, tid, h), hc)) => {
            let kind = tid & 0xffu32;
            let body = s.skip(hc as int);
            if kind == 1 {
                match parse_point_body(body, be, t, h) {
                    Some((p, c)) => Some((GeometryView::Point(p), (hc + c) as nat)),
                    None => None,
                }
            } else if kind == 2 {
                match parse_line_body(body, be, t, h) {
                    Some((l, c)) => Some((GeometryView::LineString(l), (hc + c) as nat)),
                    None => None,
                }
            } else if kind == 3 {
                match parse_poly_body(body, be, t, h) {
                    Some((y, c)) => Some((GeometryView::Polygon(y), (hc + c) as nat)),
                    None => None,
                }
            } else if kind == 4 {
                match parse_mpoint_body(body, be, t, h) {
                    Some((mp, c)) => Some((GeometryView::MultiPoint(mp), (hc + c) as nat)),
                    None => None,
                }
            } else if kind == 5 {
                match parse_mline_body(body, be, t, h) {
                    Some((ml, c)) => Some((GeometryView::MultiLineString(ml), (hc + c) as nat)),
                    None => None,
                }
            } else if kind == 6 {
                match parse_mpoly_body(body, be, t, h) {
                    Some((my, c)) => Some((GeometryView::MultiPolygon(my), (hc + c) as nat)),
                    None => None,
                }
            } else if kind == 7 {
                match p_u32(body, be) {
                    Some((n, _)) => if hc + 4 <= s.len() {
                        match parse_coll_items(s.skip(hc + 4int), t, n as nat) {
                            Some((gs, c)) => Some(
                                (
                                    GeometryView::GeometryCollection(
                                        GeometryCollectionView { geometries: gs, srid: h },
                                    ),
                                    (hc + 4 + c) as nat,
                                ),
                            ),
                            None => None,
                        }
                    } else {
                        None
                    },
                    None => None,
                }
            } else {
                None
            }
        },
        None => None,
    }
}

pub open spec fn parse_coll_items(s: Seq<u8>, t: PointType, n: nat) -> Option<
    (Seq<GeometryView>, nat),
>
    decreases s.len(), n + 1nat,
{
    if n == 0 {
        Some((Seq::empty(), 0nat))
    } else {
        match parse_geom(s, t) {
            Some((g, c)) => if c <= s.len() {
                match parse_coll_items(s.skip(c as int), t, (n - 1) as nat) {
                    Some((gs, c2)) => Some((seq![g] + gs, (c + c2) as nat)),
                    None => None,
                }
            } else {
                None
            },
            None => None,
        }
    }
}

/// A typed GeometryCollection read: header, then the body; the header
/// SRID is kept on the decoded collection.
pub open spec fn parse_coll_geom(s: Seq<u8>, t: PointType) -> Option<
    (GeometryCollectionView, nat),
> {
    match parse_header(s) {
        Some(((be, _tid, h), hc)) => match parse_coll_body(s.skip(hc as int), be, t, h) {
            Some((c, cc)) => Some((c, (hc + cc) as nat)),
            None => None,
        },
        None => None,
    }
}

/// A GeometryCollection body: count, then full geometries of any kind.
/// The collection stores the handed-down header SRID; its elements keep
/// only what their own headers said.
pub open spec fn parse_coll_body(s: Seq<u8>, be: bool, t: PointType, h: Option<i32>) -> Option<
    (GeometryCollectionView, nat),
> {
    match p_u32(s, be) {
        Some((n, _)) => if 4 <= s.len() {
            match parse_coll_items(s.skip(4), t, n as nat) {
                Some((gs, c)) => Some(
                    (GeometryCollectionView { geometries: gs, srid: h }, (4 + c) as nat),
                ),
                None => None,
            }
        } else {
            None
        },
        None => None,
    }
}

} // verus!
