//! Read and write geometries in OGC WKB format, with the PostGIS SRID
//! extension bit.
//!
//! Every reader's contract equates it with the spec-level parser in
//! [`format`], every writer's with the spec-level encoder there; the laws
//! in [`laws`] prove that the two compose to the identity.

pub mod format;
pub mod laws;

use vstd::prelude::*;
use crate::error::Error;
use crate::types;
use crate::types::PointView;
use crate::wire::{read_byte, read_u32, read_i32, read_u64, write_u32_le, write_i32_le, write_u64_le, to_hex_upper, hex_upper, is_hex_upper, unhex_upper};
use crate::wire::enc_u32_le;
use format::{
    LineStringView, PolygonView, MultiPointView, MultiLineStringView, MultiPolygonView,
    GeometryView, GeometryCollectionView, parse_header, parse_point_body, parse_points,
    parse_line_body, parse_rings, parse_poly_body, parse_point_geom, parse_point_geoms,
    parse_mpoint_body, parse_line_geom, parse_line_geoms, parse_mline_body, parse_poly_geom,
    parse_poly_geoms, parse_mpoly_body, parse_geom, parse_coll_items, parse_coll_body,
    parse_mpoint_geom, parse_mline_geom, parse_mpoly_geom, parse_coll_geom,
    spec_type_flags, enc_header, enc_point_body, enc_points, enc_line_body,
    enc_rings, enc_poly_body, enc_point_geoms, enc_mpoint_body, enc_line_geoms, enc_mline_body,
    enc_poly_geoms, enc_mpoly_body, enc_geom, enc_geoms,
};

pub use crate::types::PointType;

verus! {

// --- the four point variants ---

/// A 2D point: x and y as IEEE-754 double bit patterns.
#[derive(PartialEq, Clone, Copy, Debug)]
pub struct Point {
    pub x: u64,
    pub y: u64,
    pub srid: Option<i32>,
}

/// A 3D point with a Z ordinate.
#[derive(PartialEq, Clone, Copy, Debug)]
pub struct PointZ {
    pub x: u64,
    pub y: u64,
    pub z: u64,
    pub srid: Option<i32>,
}

/// A point with a measure ordinate.
#[derive(PartialEq, Clone, Copy, Debug)]
pub struct PointM {
    pub x: u64,
    pub y: u64,
    pub m: u64,
    pub srid: Option<i32>,
}

/// A point with both Z and M ordinates.
#[derive(PartialEq, Clone, Copy, Debug)]
pub struct PointZM {
    pub x: u64,
    pub y: u64,
    pub z: u64,
    pub m: u64,
    pub srid: Option<i32>,
}

impl View for Point {
    type V = PointView;

    open spec fn view(&self) -> PointView {
        PointView { x: self.x, y: self.y, z: None, m: None, srid: self.srid }
    }
}

impl Point {
    pub fn has_z() -> (r: bool)
        ensures
            r == false,
    {
        false
    }

    pub fn has_m() -> (r: bool)
        ensures
            r == false,
    {
        false
    }

    pub fn new(x: u64, y: u64, srid: Option<i32>) -> (p: Point)
        ensures
            p == (Point { x, y, srid }),
    {
        Point { x, y, srid }
    }
}

impl types::Point for Point {
    open spec fn ptype() -> PointType {
        PointType::Point
    }

    proof fn lemma_wf(&self) {
    }

    fn point_type() -> PointType {
        PointType::Point
    }

    fn x(&self) -> u64 {
        self.x
    }

    fn y(&self) -> u64 {
        self.y
    }

    fn opt_z(&self) -> Option<u64> {
        None
    }

    fn opt_m(&self) -> Option<u64> {
        None
    }

    fn opt_srid(&self) -> Option<i32> {
        self.srid
    }

    fn new_from_opt_vals(
        x: u64,
        y: u64,
        _z: Option<u64>,
        _m: Option<u64>,
        srid: Option<i32>,
    ) -> Self {
        Point { x, y, srid }
    }
}

impl View for PointZ {
    type V = PointView;

    open spec fn view(&self) -> PointView {
        PointView { x: self.x, y: self.y, z: Some(self.z), m: None, srid: self.srid }
    }
}

impl PointZ {
    pub fn has_z() -> (r: bool)
        ensures
            r == true,
    {
        true
    }

    pub fn has_m() -> (r: bool)
        ensures
            r == false,
    {
        false
    }

    pub fn new(x: u64, y: u64, z: u64, srid: Option<i32>) -> (p: PointZ)
        ensures
            p == (PointZ { x, y, z, srid }),
    {
        PointZ { x, y, z, srid }
    }
}

impl types::Point for PointZ {
    open spec fn ptype() -> PointType {
        PointType::PointZ
    }

    proof fn lemma_wf(&self) {
    }

    fn point_type() -> PointType {
        PointType::PointZ
    }

    fn x(&self) -> u64 {
        self.x
    }

    fn y(&self) -> u64 {
        self.y
    }

    fn opt_z(&self) -> Option<u64> {
        Some(self.z)
    }

    fn opt_m(&self) -> Option<u64> {
        None
    }

    fn opt_srid(&self) -> Option<i32> {
        self.srid
    }

    fn new_from_opt_vals(
        x: u64,
        y: u64,
        z: Option<u64>,
        _m: Option<u64>,
        srid: Option<i32>,
    ) -> Self {
        PointZ { x, y, z: z.unwrap(), srid }
    }
}

impl View for PointM {
    type V = PointView;

    open spec fn view(&self) -> PointView {
        PointView { x: self.x, y: self.y, z: None, m: Some(self.m), srid: self.srid }
    }
}

impl PointM {
    pub fn has_z() -> (r: bool)
        ensures
            r == false,
    {
        false
    }

    pub fn has_m() -> (r: bool)
        ensures
            r == true,
    {
        true
    }

    pub fn new(x: u64, y: u64, m: u64, srid: Option<i32>) -> (p: PointM)
        ensures
            p == (PointM { x, y, m, srid }),
    {
        PointM { x, y, m, srid }
    }
}

impl types::Point for PointM {
    open spec fn ptype() -> PointType {
        PointType::PointM
    }

    proof fn lemma_wf(&self) {
    }

    fn point_type() -> PointType {
        PointType::PointM
    }

    fn x(&self) -> u64 {
        self.x
    }

    fn y(&self) -> u64 {
        self.y
    }

    fn opt_z(&self) -> Option<u64> {
        None
    }

    fn opt_m(&self) -> Option<u64> {
        Some(self.m)
    }

    fn opt_srid(&self) -> Option<i32> {
        self.srid
    }

    fn new_from_opt_vals(
        x: u64,
        y: u64,
        _z: Option<u64>,
        m: Option<u64>,
        srid: Option<i32>,
    ) -> Self {
        PointM { x, y, m: m.unwrap(), srid }
    }
}

impl View for PointZM {
    type V = PointView;

    open spec fn view(&self) -> PointView {
        PointView { x: self.x, y: self.y, z: Some(self.z), m: Some(self.m), srid: self.srid }
    }
}

impl PointZM {
    pub fn has_z() -> (r: bool)
        ensures
            r == true,
    {
        true
    }

    pub fn has_m() -> (r: bool)
        ensures
            r == true,
    {
        true
    }

    pub fn new(x: u64, y: u64, z: u64, m: u64, srid: Option<i32>) -> (p: PointZM)
        ensures
            p == (PointZM { x, y, z, m, srid }),
    {
        PointZM { x, y, z, m, srid }
    }
}

impl types::Point for PointZM {
    open spec fn ptype() -> PointType {
        PointType::PointZM
    }

    proof fn lemma_wf(&self) {
    }

    fn point_type() -> PointType {
        PointType::PointZM
    }

    fn x(&self) -> u64 {
        self.x
    }

    fn y(&self) -> u64 {
        self.y
    }

    fn opt_z(&self) -> Option<u64> {
        Some(self.z)
    }

    fn opt_m(&self) -> Option<u64> {
        Some(self.m)
    }

    fn opt_srid(&self) -> Option<i32> {
        self.srid
    }

    fn new_from_opt_vals(
        x: u64,
        y: u64,
        z: Option<u64>,
        m: Option<u64>,
        srid: Option<i32>,
    ) -> Self {
        PointZM { x, y, z: z.unwrap(), m: m.unwrap(), srid }
    }
}

// --- containers, generic over the point variant ---

/// The views of a sequence of points.
pub open spec fn pvs<P: types::Point>(s: Seq<P>) -> Seq<PointView> {
    Seq::new(s.len(), |i: int| s[i]@)
}

/// The views of a sequence of viewable values.
pub open spec fn views_of<T: View>(s: Seq<T>) -> Seq<T::V> {
    Seq::new(s.len(), |i: int| s[i]@)
}

#[derive(PartialEq, Clone, Debug)]
pub struct LineStringT<P: types::Point> {
    pub points: Vec<P>,
    pub srid: Option<i32>,
}

impl<P: types::Point> View for LineStringT<P> {
    type V = LineStringView;

    open spec fn view(&self) -> LineStringView {
        LineStringView { points: pvs(self.points@), srid: self.srid }
    }
}

impl<P: types::Point> LineStringT<P> {
    pub fn new() -> (r: LineStringT<P>)
        ensures
            r@.points.len() == 0,
            r@.srid is None,
    {
        LineStringT { points: Vec::new(), srid: None }
    }

    pub fn points(&self) -> (r: &Vec<P>)
        ensures
            pvs(r@) == self@.points,
    {
        &self.points
    }
}

#[derive(PartialEq, Clone, Debug)]
pub struct PolygonT<P: types::Point> {
    pub rings: Vec<LineStringT<P>>,
    pub srid: Option<i32>,
}

impl<P: types::Point> View for PolygonT<P> {
    type V = PolygonView;

    open spec fn view(&self) -> PolygonView {
        PolygonView { rings: views_of(self.rings@), srid: self.srid }
    }
}

impl<P: types::Point> PolygonT<P> {
    pub fn new() -> (r: PolygonT<P>)
        ensures
            r@.rings.len() == 0,
            r@.srid is None,
    {
        PolygonT { rings: Vec::new(), srid: None }
    }

    pub fn rings(&self) -> (r: &Vec<LineStringT<P>>)
        ensures
            views_of(r@) == self@.rings,
    {
        &self.rings
    }
}

#[derive(PartialEq, Clone, Debug)]
pub struct MultiPointT<P: types::Point> {
    pub points: Vec<P>,
    pub srid: Option<i32>,
}

impl<P: types::Point> View for MultiPointT<P> {
    type V = MultiPointView;

    open spec fn view(&self) -> MultiPointView {
        MultiPointView { points: pvs(self.points@), srid: self.srid }
    }
}

impl<P: types::Point> MultiPointT<P> {
    pub fn new() -> (r: MultiPointT<P>)
        ensures
            r@.points.len() == 0,
            r@.srid is None,
    {
        MultiPointT { points: Vec::new(), srid: None }
    }

    pub fn points(&self) -> (r: &Vec<P>)
        ensures
            pvs(r@) == self@.points,
    {
        &self.points
    }
}

#[derive(PartialEq, Clone, Debug)]
pub struct MultiLineStringT<P: types::Point> {
    pub lines: Vec<LineStringT<P>>,
    pub srid: Option<i32>,
}

impl<P: types::Point> View for MultiLineStringT<P> {
    type V = MultiLineStringView;

    open spec fn view(&self) -> MultiLineStringView {
        MultiLineStringView { lines: views_of(self.lines@), srid: self.srid }
    }
}

impl<P: types::Point> MultiLineStringT<P> {
    pub fn new() -> (r: MultiLineStringT<P>)
        ensures
            r@.lines.len() == 0,
            r@.srid is None,
    {
        MultiLineStringT { lines: Vec::new(), srid: None }
    }

    pub fn lines(&self) -> (r: &Vec<LineStringT<P>>)
        ensures
            views_of(r@) == self@.lines,
    {
        &self.lines
    }
}

#[derive(PartialEq, Clone, Debug)]
pub struct MultiPolygonT<P: types::Point> {
    pub polygons: Vec<PolygonT<P>>,
    pub srid: Option<i32>,
}

impl<P: types::Point> View for MultiPolygonT<P> {
    type V = MultiPolygonView;

    open spec fn view(&self) -> MultiPolygonView {
        MultiPolygonView { polygons: views_of(self.polygons@), srid: self.srid }
    }
}

impl<P: types::Point> MultiPolygonT<P> {
    pub fn new() -> (r: MultiPolygonT<P>)
        ensures
            r@.polygons.len() == 0,
            r@.srid is None,
    {
        MultiPolygonT { polygons: Vec::new(), srid: None }
    }

    pub fn polygons(&self) -> (r: &Vec<PolygonT<P>>)
        ensures
            views_of(r@) == self@.polygons,
    {
        &self.polygons
    }
}

/// Any geometry: the tagged union both codecs dispatch on. The
/// GeometryCollection variant makes the type recursive; the collection
/// holds its elements on the heap.
pub enum GeometryT<P: types::Point> {
    Point(P),
    LineString(LineStringT<P>),
    Polygon(PolygonT<P>),
    MultiPoint(MultiPointT<P>),
    MultiLineString(MultiLineStringT<P>),
    MultiPolygon(MultiPolygonT<P>),
    GeometryCollection(GeometryCollectionT<P>),
}

pub struct GeometryCollectionT<P: types::Point> {
    pub geometries: Vec<GeometryT<P>>,
    pub srid: Option<i32>,
}

pub open spec fn geom_view<P: types::Point>(g: GeometryT<P>) -> GeometryView
    decreases g, 1nat,
{
    match g {
        GeometryT::Point(p) => GeometryView::Point(p@),
        GeometryT::LineString(l) => GeometryView::LineString(l@),
        GeometryT::Polygon(y) => GeometryView::Polygon(y@),
        GeometryT::MultiPoint(mp) => GeometryView::MultiPoint(mp@),
        GeometryT::MultiLineString(ml) => GeometryView::MultiLineString(ml@),
        GeometryT::MultiPolygon(my) => GeometryView::MultiPolygon(my@),
        GeometryT::GeometryCollection(c) => GeometryView::GeometryCollection(
            GeometryCollectionView { geometries: geoms_view(c.geometries@), srid: c.srid },
        ),
    }
}

pub open spec fn geoms_view<P: types::Point>(gs: Seq<GeometryT<P>>) -> Seq<GeometryView>
    decreases gs, 0nat,
{
    if gs.len() == 0 {
        Seq::empty()
    } else {
        geoms_view(gs.drop_last()).push(geom_view(gs.last()))
    }
}

impl<P: types::Point> View for GeometryT<P> {
    type V = GeometryView;

    open spec fn view(&self) -> GeometryView {
        geom_view(*self)
    }
}

impl<P: types::Point> View for GeometryCollectionT<P> {
    type V = GeometryCollectionView;

    open spec fn view(&self) -> GeometryCollectionView {
        GeometryCollectionView { geometries: geoms_view(self.geometries@), srid: self.srid }
    }
}

impl<P: types::Point> GeometryCollectionT<P> {
    pub fn new() -> (r: GeometryCollectionT<P>)
        ensures
            r@.geometries.len() == 0,
            r@.srid is None,
    {
        GeometryCollectionT { geometries: Vec::new(), srid: None }
    }

    pub fn geometries(&self) -> (r: &Vec<GeometryT<P>>)
        ensures
            geoms_view(r@) == self@.geometries,
    {
        &self.geometries
    }
}

/// The flag bits of a type code: SRID present when an SRID is supplied,
/// has-Z and has-M as the point layout implies. Exactly those bits, and
/// no others.
pub fn wkb_type_id(point_type: &PointType, srid: Option<i32>) -> (r: u32)
    ensures
        r == spec_type_flags(*point_type, srid),
{
    let type_: u32 = (if srid.is_some() {
        0x20000000u32
    } else {
        0u32
    }) | (if point_type.has_z() {
        0x80000000u32
    } else {
        0u32
    }) | (if point_type.has_m() {
        0x40000000u32
    } else {
        0u32
    });
    type_
}

// --- readers ---

/// Read the header: byte-order flag, type code, and the SRID when the
/// type code announces one.
fn read_header(bytes: &Vec<u8>, pos: &mut usize) -> (r: Result<(bool, u32, Option<i32>), Error>)
    requires
        *old(pos) <= bytes@.len(),
    ensures
        *final(pos) <= bytes@.len(),
        *final(pos) >= *old(pos),
        match r {
            Ok(h) => parse_header(bytes@.skip(*old(pos) as int)) matches Some(ph) && ph.0 == h
                && *final(pos) == *old(pos) + ph.1,
            Err(e) => e is Read && parse_header(bytes@.skip(*old(pos) as int)) is None,
        },
{
    let ghost s = bytes@.skip(*old(pos) as int);
    proof {
        reveal(parse_header);
    }
    let b = read_byte(bytes, pos)?;
    let is_be = b == 0;
    proof {
        assert(s[0] == b);
        assert(bytes@.skip(*old(pos) as int + 1) =~= s.skip(1));
    }
    let type_id = read_u32(bytes, pos, is_be)?;
    if type_id & 0x20000000 == 0x20000000 {
        proof {
            assert(bytes@.skip(*old(pos) as int + 5) =~= s.skip(5));
        }
        let sr = read_i32(bytes, pos, is_be)?;
        Ok((is_be, type_id, Some(sr)))
    } else {
        Ok((is_be, type_id, None))
    }
}

/// Read one point body: the ordinates the variant declares, in order.
fn read_point_body<P: types::Point>(
    bytes: &Vec<u8>,
    pos: &mut usize,
    is_be: bool,
    srid: Option<i32>,
) -> (r: Result<P, Error>)
    requires
        *old(pos) <= bytes@.len(),
    ensures
        *final(pos) <= bytes@.len(),
        *final(pos) >= *old(pos),
        match r {
            Ok(p) => parse_point_body(bytes@.skip(*old(pos) as int), is_be, P::ptype(), srid)
                == Some((p@, P::ptype().spec_size())) && *final(pos) == *old(pos)
                + P::ptype().spec_size(),
            Err(e) => e is Read && parse_point_body(
                bytes@.skip(*old(pos) as int),
                is_be,
                P::ptype(),
                srid,
            ) is None,
        },
{
    let ghost s = bytes@.skip(*old(pos) as int);
    proof {
        reveal(parse_point_body);
    }
    let t = P::point_type();
    let x = read_u64(bytes, pos, is_be)?;
    proof {
        assert(s.skip(0) =~= s);
        assert(bytes@.skip(*old(pos) as int + 8) =~= s.skip(8));
    }
    let y = read_u64(bytes, pos, is_be)?;
    proof {
        assert(bytes@.skip(*old(pos) as int + 16) =~= s.skip(16));
    }
    let z: Option<u64> = if t.has_z() {
        Some(read_u64(bytes, pos, is_be)?)
    } else {
        None
    };
    let ghost moff: int = if t.spec_has_z() {
        24
    } else {
        16
    };
    proof {
        assert(bytes@.skip(*old(pos) as int + moff) =~= s.skip(moff));
    }
    let m: Option<u64> = if t.has_m() {
        Some(read_u64(bytes, pos, is_be)?)
    } else {
        None
    };
    let p = P::new_from_opt_vals(x, y, z, m, srid);
    Ok(p)
}

/// Read `n` point bodies in a row.
#[verifier::loop_isolation(false)]
#[verifier::rlimit(60)]
#[verifier::spinoff_prover]
fn read_points<P: types::Point>(
    bytes: &Vec<u8>,
    pos: &mut usize,
    is_be: bool,
    srid: Option<i32>,
    n: u32,
) -> (r: Result<Vec<P>, Error>)
    requires
        *old(pos) <= bytes@.len(),
    ensures
        *final(pos) <= bytes@.len(),
        *final(pos) >= *old(pos),
        match r {
            Ok(v) => parse_points(bytes@.skip(*old(pos) as int), is_be, P::ptype(), srid, n as nat)
                == Some((pvs(v@), (*final(pos) - *old(pos)) as nat)),
            Err(e) => e is Read && parse_points(
                bytes@.skip(*old(pos) as int),
                is_be,
                P::ptype(),
                srid,
                n as nat,
            ) is None,
        },
{
    let ghost pos0 = *old(pos);
    let ghost s0 = bytes@.skip(pos0 as int);
    let mut out: Vec<P> = Vec::new();
    let mut i: u32 = 0;
    while i < n
        invariant
            i <= n,
            pos0 <= *pos,
            *pos <= bytes@.len(),
            out@.len() == i as nat,
            match parse_points(
                bytes@.skip(*pos as int),
                is_be,
                P::ptype(),
                srid,
                (n - i) as nat,
            ) {
                Some(pr) => parse_points(s0, is_be, P::ptype(), srid, n as nat) == Some(
                    ((pvs(out@) + pr.0), ((*pos - pos0) + pr.1) as nat),
                ),
                None => parse_points(s0, is_be, P::ptype(), srid, n as nat) is None,
            },
        decreases n - i,
    {
        let ghost pos_i = *pos;
        let ghost s_i = bytes@.skip(pos_i as int);
        match read_point_body::<P>(bytes, pos, is_be, srid) {
            Ok(p) => {
                proof {
                    let sz = P::ptype().spec_size();
                    assert(s_i.skip(sz as int) =~= bytes@.skip(*pos as int));
                    let rec = parse_points(
                        bytes@.skip(*pos as int),
                        is_be,
                        P::ptype(),
                        srid,
                        (n - i - 1) as nat,
                    );
                    if rec is Some {
                        let pr = rec.unwrap();
                        assert(pvs(out@.push(p)) =~= pvs(out@).push(p@));
                        assert(pvs(out@) + (seq![p@] + pr.0) =~= pvs(out@).push(p@) + pr.0);
                    }
                }
                out.push(p);
                i = i + 1;
            },
            Err(e) => {
                return Err(e);
            },
        }
    }
    proof {
        assert(pvs(out@) + Seq::<PointView>::empty() =~= pvs(out@));
    }
    Ok(out)
}

/// Read a LineString body: point count, then the points inline.
fn read_line_body<P: types::Point>(
    bytes: &Vec<u8>,
    pos: &mut usize,
    is_be: bool,
    srid: Option<i32>,
) -> (r: Result<LineStringT<P>, Error>)
    requires
        *old(pos) <= bytes@.len(),
    ensures
        *final(pos) <= bytes@.len(),
        *final(pos) >= *old(pos),
        match r {
            Ok(l) => parse_line_body(bytes@.skip(*old(pos) as int), is_be, P::ptype(), srid)
                == Some((l@, (*final(pos) - *old(pos)) as nat)),
            Err(e) => e is Read && parse_line_body(
                bytes@.skip(*old(pos) as int),
                is_be,
                P::ptype(),
                srid,
            ) is None,
        },
{
    let ghost s = bytes@.skip(*old(pos) as int);
    let size = read_u32(bytes, pos, is_be)?;
    proof {
        assert(bytes@.skip(*old(pos) as int + 4) =~= s.skip(4));
    }
    let points = read_points::<P>(bytes, pos, is_be, srid, size)?;
    Ok(LineStringT { points, srid })
}

/// Read `n` headerless LineString bodies (polygon rings).
#[verifier::loop_isolation(false)]
#[verifier::rlimit(60)]
#[verifier::spinoff_prover]
fn read_rings<P: types::Point>(
    bytes: &Vec<u8>,
    pos: &mut usize,
    is_be: bool,
    srid: Option<i32>,
    n: u32,
) -> (r: Result<Vec<LineStringT<P>>, Error>)
    requires
        *old(pos) <= bytes@.len(),
    ensures
        *final(pos) <= bytes@.len(),
        *final(pos) >= *old(pos),
        match r {
            Ok(v) => parse_rings(bytes@.skip(*old(pos) as int), is_be, P::ptype(), srid, n as nat)
                == Some((views_of(v@), (*final(pos) - *old(pos)) as nat)),
            Err(e) => e is Read && parse_rings(
                bytes@.skip(*old(pos) as int),
                is_be,
                P::ptype(),
                srid,
                n as nat,
            ) is None,
        },
{
    let ghost pos0 = *old(pos);
    let ghost s0 = bytes@.skip(pos0 as int);
    let mut out: Vec<LineStringT<P>> = Vec::new();
    let mut i: u32 = 0;
    while i < n
        invariant
            i <= n,
            pos0 <= *pos,
            *pos <= bytes@.len(),
            out@.len() == i as nat,
            match parse_rings(
                bytes@.skip(*pos as int),
                is_be,
                P::ptype(),
                srid,
                (n - i) as nat,
            ) {
                Some(pr) => parse_rings(s0, is_be, P::ptype(), srid, n as nat) == Some(
                    ((views_of(out@) + pr.0), ((*pos - pos0) + pr.1) as nat),
                ),
                None => parse_rings(s0, is_be, P::ptype(), srid, n as nat) is None,
            },
        decreases n - i,
    {
        let ghost pos_i = *pos;
        let ghost s_i = bytes@.skip(pos_i as int);
        match read_line_body::<P>(bytes, pos, is_be, srid) {
            Ok(l) => {
                proof {
                    let sz = (*pos - pos_i) as nat;
                    assert(s_i.skip(sz as int) =~= bytes@.skip(*pos as int));
                    let rec = parse_rings(
                        bytes@.skip(*pos as int),
                        is_be,
                        P::ptype(),
                        srid,
                        (n - i - 1) as nat,
                    );
                    if rec is Some {
                        let pr = rec.unwrap();
                        assert(views_of(out@.push(l)) =~= views_of(out@).push(l@));
                        assert(views_of(out@) + (seq![l@] + pr.0) =~= views_of(out@).push(l@)
                            + pr.0);
                    }
                }
                out.push(l);
                i = i + 1;
            },
            Err(e) => {
                return Err(e);
            },
        }
    }
    proof {
        assert(views_of(out@) + Seq::<LineStringView>::empty() =~= views_of(out@));
    }
    Ok(out)
}

/// Read a Polygon body: ring count, then headerless rings.
fn read_poly_body<P: types::Point>(
    bytes: &Vec<u8>,
    pos: &mut usize,
    is_be: bool,
    srid: Option<i32>,
) -> (r: Result<PolygonT<P>, Error>)
    requires
        *old(pos) <= bytes@.len(),
    ensures
        *final(pos) <= bytes@.len(),
        *final(pos) >= *old(pos),
        match r {
            Ok(y) => parse_poly_body(bytes@.skip(*old(pos) as int), is_be, P::ptype(), srid)
                == Some((y@, (*final(pos) - *old(pos)) as nat)),
            Err(e) => e is Read && parse_poly_body(
                bytes@.skip(*old(pos) as int),
                is_be,
                P::ptype(),
                srid,
            ) is None,
        },
{
    let ghost s = bytes@.skip(*old(pos) as int);
    let size = read_u32(bytes, pos, is_be)?;
    proof {
        assert(bytes@.skip(*old(pos) as int + 4) =~= s.skip(4));
    }
    let rings = read_rings::<P>(bytes, pos, is_be, srid, size)?;
    Ok(PolygonT { rings, srid })
}

/// Read one full nested point geometry: its own header, then the body.
fn read_point_geom<P: types::Point>(bytes: &Vec<u8>, pos: &mut usize) -> (r: Result<P, Error>)
    requires
        *old(pos) <= bytes@.len(),
    ensures
        *final(pos) <= bytes@.len(),
        *final(pos) >= *old(pos),
        match r {
            Ok(p) => parse_point_geom(bytes@.skip(*old(pos) as int), P::ptype()) == Some(
                (p@, (*final(pos) - *old(pos)) as nat),
            ),
            Err(e) => e is Read && parse_point_geom(
                bytes@.skip(*old(pos) as int),
                P::ptype(),
            ) is None,
        },
{
    let ghost s = bytes@.skip(*old(pos) as int);
    let (is_be, _type_id, srid) = read_header(bytes, pos)?;
    proof {
        let hc = parse_header(s).unwrap().1;
        assert(bytes@.skip(*pos as int) =~= s.skip(hc as int));
    }
    let p = read_point_body::<P>(bytes, pos, is_be, srid)?;
    Ok(p)
}

/// Read one full nested LineString geometry.
fn read_line_geom<P: types::Point>(bytes: &Vec<u8>, pos: &mut usize) -> (r: Result<
    LineStringT<P>,
    Error,
>)
    requires
        *old(pos) <= bytes@.len(),
    ensures
        *final(pos) <= bytes@.len(),
        *final(pos) >= *old(pos),
        match r {
            Ok(l) => parse_line_geom(bytes@.skip(*old(pos) as int), P::ptype()) == Some(
                (l@, (*final(pos) - *old(pos)) as nat),
            ),
            Err(e) => e is Read && parse_line_geom(
                bytes@.skip(*old(pos) as int),
                P::ptype(),
            ) is None,
        },
{
    let ghost s = bytes@.skip(*old(pos) as int);
    let (is_be, _type_id, srid) = read_header(bytes, pos)?;
    proof {
        let hc = parse_header(s).unwrap().1;
        assert(bytes@.skip(*pos as int) =~= s.skip(hc as int));
    }
    let l = read_line_body::<P>(bytes, pos, is_be, srid)?;
    Ok(l)
}

/// Read one full nested Polygon geometry.
fn read_poly_geom<P: types::Point>(bytes: &Vec<u8>, pos: &mut usize) -> (r: Result<
    PolygonT<P>,
    Error,
>)
    requires
        *old(pos) <= bytes@.len(),
    ensures
        *final(pos) <= bytes@.len(),
        *final(pos) >= *old(pos),
        match r {
            Ok(y) => parse_poly_geom(bytes@.skip(*old(pos) as int), P::ptype()) == Some(
                (y@, (*final(pos) - *old(pos)) as nat),
            ),
            Err(e) => e is Read && parse_poly_geom(
                bytes@.skip(*old(pos) as int),
                P::ptype(),
            ) is None,
        },
{
    let ghost s = bytes@.skip(*old(pos) as int);
    let (is_be, _type_id, srid) = read_header(bytes, pos)?;
    proof {
        let hc = parse_header(s).unwrap().1;
        assert(bytes@.skip(*pos as int) =~= s.skip(hc as int));
    }
    let y = read_poly_body::<P>(bytes, pos, is_be, srid)?;
    Ok(y)
}

/// Read `n` full nested point geometries.
#[verifier::loop_isolation(false)]
#[verifier::rlimit(60)]
#[verifier::spinoff_prover]
fn read_point_geoms<P: types::Point>(bytes: &Vec<u8>, pos: &mut usize, n: u32) -> (r: Result<
    Vec<P>,
    Error,
>)
    requires
        *old(pos) <= bytes@.len(),
    ensures
        *final(pos) <= bytes@.len(),
        *final(pos) >= *old(pos),
        match r {
            Ok(v) => parse_point_geoms(bytes@.skip(*old(pos) as int), P::ptype(), n as nat)
                == Some((pvs(v@), (*final(pos) - *old(pos)) as nat)),
            Err(e) => e is Read && parse_point_geoms(
                bytes@.skip(*old(pos) as int),
                P::ptype(),
                n as nat,
            ) is None,
        },
{
    let ghost pos0 = *old(pos);
    let ghost s0 = bytes@.skip(pos0 as int);
    let mut out: Vec<P> = Vec::new();
    let mut i: u32 = 0;
    while i < n
        invariant
            i <= n,
            pos0 <= *pos,
            *pos <= bytes@.len(),
            out@.len() == i as nat,
            match parse_point_geoms(bytes@.skip(*pos as int), P::ptype(), (n - i) as nat) {
                Some(pr) => parse_point_geoms(s0, P::ptype(), n as nat) == Some(
                    ((pvs(out@) + pr.0), ((*pos - pos0) + pr.1) as nat),
                ),
                None => parse_point_geoms(s0, P::ptype(), n as nat) is None,
            },
        decreases n - i,
    {
        let ghost pos_i = *pos;
        let ghost s_i = bytes@.skip(pos_i as int);
        match read_point_geom::<P>(bytes, pos) {
            Ok(p) => {
                proof {
                    let sz = (*pos - pos_i) as nat;
                    assert(s_i.skip(sz as int) =~= bytes@.skip(*pos as int));
                    let rec = parse_point_geoms(
                        bytes@.skip(*pos as int),
                        P::ptype(),
                        (n - i - 1) as nat,
                    );
                    if rec is Some {
                        let pr = rec.unwrap();
                        assert(pvs(out@.push(p)) =~= pvs(out@).push(p@));
                        assert(pvs(out@) + (seq![p@] + pr.0) =~= pvs(out@).push(p@) + pr.0);
                    }
                }
                out.push(p);
                i = i + 1;
            },
            Err(e) => {
                return Err(e);
            },
        }
    }
    proof {
        assert(pvs(out@) + Seq::<PointView>::empty() =~= pvs(out@));
    }
    Ok(out)
}

/// Read a MultiPoint body: count, then full nested point geometries.
fn read_mpoint_body<P: types::Point>(
    bytes: &Vec<u8>,
    pos: &mut usize,
    is_be: bool,
    srid: Option<i32>,
) -> (r: Result<MultiPointT<P>, Error>)
    requires
        *old(pos) <= bytes@.len(),
    ensures
        *final(pos) <= bytes@.len(),
        *final(pos) >= *old(pos),
        match r {
            Ok(mp) => parse_mpoint_body(bytes@.skip(*old(pos) as int), is_be, P::ptype(), srid)
                == Some((mp@, (*final(pos) - *old(pos)) as nat)),
            Err(e) => e is Read && parse_mpoint_body(
                bytes@.skip(*old(pos) as int),
                is_be,
                P::ptype(),
                srid,
            ) is None,
        },
{
    let ghost s = bytes@.skip(*old(pos) as int);
    let size = read_u32(bytes, pos, is_be)?;
    proof {
        assert(bytes@.skip(*old(pos) as int + 4) =~= s.skip(4));
    }
    let points = read_point_geoms::<P>(bytes, pos, size)?;
    Ok(MultiPointT { points, srid })
}

/// Read `n` full nested LineString geometries.
#[verifier::loop_isolation(false)]
#[verifier::rlimit(60)]
#[verifier::spinoff_prover]
fn read_line_geoms<P: types::Point>(bytes: &Vec<u8>, pos: &mut usize, n: u32) -> (r: Result<
    Vec<LineStringT<P>>,
    Error,
>)
    requires
        *old(pos) <= bytes@.len(),
    ensures
        *final(pos) <= bytes@.len(),
        *final(pos) >= *old(pos),
        match r {
            Ok(v) => parse_line_geoms(bytes@.skip(*old(pos) as int), P::ptype(), n as nat) == Some(
                (views_of(v@), (*final(pos) - *old(pos)) as nat),
            ),
            Err(e) => e is Read && parse_line_geoms(
                bytes@.skip(*old(pos) as int),
                P::ptype(),
                n as nat,
            ) is None,
        },
{
    let ghost pos0 = *old(pos);
    let ghost s0 = bytes@.skip(pos0 as int);
    let mut out: Vec<LineStringT<P>> = Vec::new();
    let mut i: u32 = 0;
    while i < n
        invariant
            i <= n,
            pos0 <= *pos,
            *pos <= bytes@.len(),
            out@.len() == i as nat,
            match parse_line_geoms(bytes@.skip(*pos as int), P::ptype(), (n - i) as nat) {
                Some(pr) => parse_line_geoms(s0, P::ptype(), n as nat) == Some(
                    ((views_of(out@) + pr.0), ((*pos - pos0) + pr.1) as nat),
                ),
                None => parse_line_geoms(s0, P::ptype(), n as nat) is None,
            },
        decreases n - i,
    {
        let ghost pos_i = *pos;
        let ghost s_i = bytes@.skip(pos_i as int);
        match read_line_geom::<P>(bytes, pos) {
            Ok(l) => {
                proof {
                    let sz = (*pos - pos_i) as nat;
                    assert(s_i.skip(sz as int) =~= bytes@.skip(*pos as int));
                    let rec = parse_line_geoms(
                        bytes@.skip(*pos as int),
                        P::ptype(),
                        (n - i - 1) as nat,
                    );
                    if rec is Some {
                        let pr = rec.unwrap();
                        assert(views_of(out@.push(l)) =~= views_of(out@).push(l@));
                        assert(views_of(out@) + (seq![l@] + pr.0) =~= views_of(out@).push(l@)
                            + pr.0);
                    }
                }
                out.push(l);
                i = i + 1;
            },
            Err(e) => {
                return Err(e);
            },
        }
    }
    proof {
        assert(views_of(out@) + Seq::<LineStringView>::empty() =~= views_of(out@));
    }
    Ok(out)
}

/// Read a MultiLineString body: count, then full nested LineStrings.
fn read_mline_body<P: types::Point>(
    bytes: &Vec<u8>,
    pos: &mut usize,
    is_be: bool,
    srid: Option<i32>,
) -> (r: Result<MultiLineStringT<P>, Error>)
    requires
        *old(pos) <= bytes@.len(),
    ensures
        *final(pos) <= bytes@.len(),
        *final(pos) >= *old(pos),
        match r {
            Ok(ml) => parse_mline_body(bytes@.skip(*old(pos) as int), is_be, P::ptype(), srid)
                == Some((ml@, (*final(pos) - *old(pos)) as nat)),
            Err(e) => e is Read && parse_mline_body(
                bytes@.skip(*old(pos) as int),
                is_be,
                P::ptype(),
                srid,
            ) is None,
        },
{
    let ghost s = bytes@.skip(*old(pos) as int);
    let size = read_u32(bytes, pos, is_be)?;
    proof {
        assert(bytes@.skip(*old(pos) as int + 4) =~= s.skip(4));
    }
    let lines = read_line_geoms::<P>(bytes, pos, size)?;
    Ok(MultiLineStringT { lines, srid })
}

/// Read `n` full nested Polygon geometries.
#[verifier::loop_isolation(false)]
#[verifier::rlimit(60)]
#[verifier::spinoff_prover]
fn read_poly_geoms<P: types::Point>(bytes: &Vec<u8>, pos: &mut usize, n: u32) -> (r: Result<
    Vec<PolygonT<P>>,
    Error,
>)
    requires
        *old(pos) <= bytes@.len(),
    ensures
        *final(pos) <= bytes@.len(),
        *final(pos) >= *old(pos),
        match r {
            Ok(v) => parse_poly_geoms(bytes@.skip(*old(pos) as int), P::ptype(), n as nat) == Some(
                (views_of(v@), (*final(pos) - *old(pos)) as nat),
            ),
            Err(e) => e is Read && parse_poly_geoms(
                bytes@.skip(*old(pos) as int),
                P::ptype(),
                n as nat,
            ) is None,
        },
{
    let ghost pos0 = *old(pos);
    let ghost s0 = bytes@.skip(pos0 as int);
    let mut out: Vec<PolygonT<P>> = Vec::new();
    let mut i: u32 = 0;
    while i < n
        invariant
            i <= n,
            pos0 <= *pos,
            *pos <= bytes@.len(),
            out@.len() == i as nat,
            match parse_poly_geoms(bytes@.skip(*pos as int), P::ptype(), (n - i) as nat) {
                Some(pr) => parse_poly_geoms(s0, P::ptype(), n as nat) == Some(
                    ((views_of(out@) + pr.0), ((*pos - pos0) + pr.1) as nat),
                ),
                None => parse_poly_geoms(s0, P::ptype(), n as nat) is None,
            },
        decreases n - i,
    {
        let ghost pos_i = *pos;
        let ghost s_i = bytes@.skip(pos_i as int);
        match read_poly_geom::<P>(bytes, pos) {
            Ok(y) => {
                proof {
                    let sz = (*pos - pos_i) as nat;
                    assert(s_i.skip(sz as int) =~= bytes@.skip(*pos as int));
                    let rec = parse_poly_geoms(
                        bytes@.skip(*pos as int),
                        P::ptype(),
                        (n - i - 1) as nat,
                    );
                    if rec is Some {
                        let pr = rec.unwrap();
                        assert(views_of(out@.push(y)) =~= views_of(out@).push(y@));
                        assert(views_of(out@) + (seq![y@] + pr.0) =~= views_of(out@).push(y@)
                            + pr.0);
                    }
                }
                out.push(y);
                i = i + 1;
            },
            Err(e) => {
                return Err(e);
            },
        }
    }
    proof {
        assert(views_of(out@) + Seq::<PolygonView>::empty() =~= views_of(out@));
    }
    Ok(out)
}

/// Read a MultiPolygon body: count, then full nested Polygons.
fn read_mpoly_body<P: types::Point>(
    bytes: &Vec<u8>,
    pos: &mut usize,
    is_be: bool,
    srid: Option<i32>,
) -> (r: Result<MultiPolygonT<P>, Error>)
    requires
        *old(pos) <= bytes@.len(),
    ensures
        *final(pos) <= bytes@.len(),
        *final(pos) >= *old(pos),
        match r {
            Ok(my) => parse_mpoly_body(bytes@.skip(*old(pos) as int), is_be, P::ptype(), srid)
                == Some((my@, (*final(pos) - *old(pos)) as nat)),
            Err(e) => e is Read && parse_mpoly_body(
                bytes@.skip(*old(pos) as int),
                is_be,
                P::ptype(),
                srid,
            ) is None,
        },
{
    let ghost s = bytes@.skip(*old(pos) as int);
    let size = read_u32(bytes, pos, is_be)?;
    proof {
        assert(bytes@.skip(*old(pos) as int + 4) =~= s.skip(4));
    }
    let polygons = read_poly_geoms::<P>(bytes, pos, size)?;
    Ok(MultiPolygonT { polygons, srid })
}

/// Read any geometry: header, then the body the type code's low byte
/// picks; kinds outside 1..=7 are a `Read` error. Nested collections
/// recurse, consuming input at every level.
#[verifier::rlimit(100)]
#[verifier::spinoff_prover]
fn read_geom_any<P: types::Point>(bytes: &Vec<u8>, pos: &mut usize) -> (r: Result<
    GeometryT<P>,
    Error,
>)
    requires
        *old(pos) <= bytes@.len(),
    ensures
        *final(pos) <= bytes@.len(),
        *final(pos) >= *old(pos),
        match r {
            Ok(g) => parse_geom(bytes@.skip(*old(pos) as int), P::ptype()) == Some(
                (g@, (*final(pos) - *old(pos)) as nat),
            ),
            Err(e) => e is Read && parse_geom(bytes@.skip(*old(pos) as int), P::ptype()) is None,
        },
    decreases bytes@.len() - *pos, 0nat,
{
    let ghost s = bytes@.skip(*old(pos) as int);
    let (is_be, type_id, srid) = read_header(bytes, pos)?;
    proof {
        let hc = parse_header(s).unwrap().1;
        assert(bytes@.skip(*pos as int) =~= s.skip(hc as int));
    }
    let kind = type_id & 0xff;
    if kind == 1 {
        let p = read_point_body::<P>(bytes, pos, is_be, srid)?;
        Ok(GeometryT::Point(p))
    } else if kind == 2 {
        let l = read_line_body::<P>(bytes, pos, is_be, srid)?;
        Ok(GeometryT::LineString(l))
    } else if kind == 3 {
        let y = read_poly_body::<P>(bytes, pos, is_be, srid)?;
        Ok(GeometryT::Polygon(y))
    } else if kind == 4 {
        let mp = read_mpoint_body::<P>(bytes, pos, is_be, srid)?;
        Ok(GeometryT::MultiPoint(mp))
    } else if kind == 5 {
        let ml = read_mline_body::<P>(bytes, pos, is_be, srid)?;
        Ok(GeometryT::MultiLineString(ml))
    } else if kind == 6 {
        let my = read_mpoly_body::<P>(bytes, pos, is_be, srid)?;
        Ok(GeometryT::MultiPolygon(my))
    } else if kind == 7 {
        let size = read_u32(bytes, pos, is_be)?;
        proof {
            let hc = parse_header(s).unwrap().1;
            assert(bytes@.skip(*pos as int) =~= s.skip(hc + 4int));
        }
        let geometries = read_coll_items::<P>(bytes, pos, size)?;
        Ok(GeometryT::GeometryCollection(GeometryCollectionT { geometries, srid }))
    } else {
        Err(Error::Read("unsupported geometry type".to_owned()))
    }
}

/// Read `n` full geometries of any kind, one after the other.
#[verifier::loop_isolation(false)]
#[verifier::rlimit(60)]
#[verifier::spinoff_prover]
fn read_coll_items<P: types::Point>(bytes: &Vec<u8>, pos: &mut usize, n: u32) -> (r: Result<
    Vec<GeometryT<P>>,
    Error,
>)
    requires
        *old(pos) <= bytes@.len(),
    ensures
        *final(pos) <= bytes@.len(),
        *final(pos) >= *old(pos),
        match r {
            Ok(v) => parse_coll_items(bytes@.skip(*old(pos) as int), P::ptype(), n as nat) == Some(
                (geoms_view(v@), (*final(pos) - *old(pos)) as nat),
            ),
            Err(e) => e is Read && parse_coll_items(
                bytes@.skip(*old(pos) as int),
                P::ptype(),
                n as nat,
            ) is None,
        },
    decreases bytes@.len() - *pos, n + 1nat,
{
    let ghost pos0 = *old(pos);
    let ghost s0 = bytes@.skip(pos0 as int);
    let mut out: Vec<GeometryT<P>> = Vec::new();
    let mut i: u32 = 0;
    while i < n
        invariant
            i <= n,
            pos0 <= *pos,
            *pos <= bytes@.len(),
            out@.len() == i as nat,
            match parse_coll_items(bytes@.skip(*pos as int), P::ptype(), (n - i) as nat) {
                Some(pr) => parse_coll_items(s0, P::ptype(), n as nat) == Some(
                    ((geoms_view(out@) + pr.0), ((*pos - pos0) + pr.1) as nat),
                ),
                None => parse_coll_items(s0, P::ptype(), n as nat) is None,
            },
        decreases n - i,
    {
        let ghost pos_i = *pos;
        let ghost s_i = bytes@.skip(pos_i as int);
        match read_geom_any::<P>(bytes, pos) {
            Ok(g) => {
                proof {
                    let sz = (*pos - pos_i) as nat;
                    assert(s_i.skip(sz as int) =~= bytes@.skip(*pos as int));
                    let rec = parse_coll_items(
                        bytes@.skip(*pos as int),
                        P::ptype(),
                        (n - i - 1) as nat,
                    );
                    if rec is Some {
                        let pr = rec.unwrap();
                        assert(out@.push(g).drop_last() =~= out@);
                        assert(geoms_view(out@.push(g)) == geoms_view(out@).push(g@));
                        assert(geoms_view(out@) + (seq![g@] + pr.0) =~= geoms_view(out@).push(g@)
                            + pr.0);
                    }
                }
                out.push(g);
                i = i + 1;
            },
            Err(e) => {
                return Err(e);
            },
        }
    }
    proof {
        assert(geoms_view(out@) + Seq::<GeometryView>::empty() =~= geoms_view(out@));
    }
    Ok(out)
}

/// Read a GeometryCollection body: count, then full geometries. The
/// decoded collection keeps the handed-down header SRID.
fn read_coll_body<P: types::Point>(
    bytes: &Vec<u8>,
    pos: &mut usize,
    is_be: bool,
    srid: Option<i32>,
) -> (r: Result<GeometryCollectionT<P>, Error>)
    requires
        *old(pos) <= bytes@.len(),
    ensures
        *final(pos) <= bytes@.len(),
        *final(pos) >= *old(pos),
        match r {
            Ok(c) => parse_coll_body(bytes@.skip(*old(pos) as int), is_be, P::ptype(), srid)
                == Some((c@, (*final(pos) - *old(pos)) as nat)),
            Err(e) => e is Read && parse_coll_body(
                bytes@.skip(*old(pos) as int),
                is_be,
                P::ptype(),
                srid,
            ) is None,
        },
{
    let ghost s = bytes@.skip(*old(pos) as int);
    let size = read_u32(bytes, pos, is_be)?;
    proof {
        assert(bytes@.skip(*old(pos) as int + 4) =~= s.skip(4));
    }
    let geometries = read_coll_items::<P>(bytes, pos, size)?;
    Ok(GeometryCollectionT { geometries, srid })
}

// --- encoder composition lemmas ---

#[verifier::rlimit(30)]
proof fn lemma_enc_points_push(ps: Seq<PointView>, p: PointView, t: PointType)
    ensures
        enc_points(ps.push(p), t) == enc_points(ps, t) + enc_point_body(p, t),
    decreases ps.len(),
{
    let q = ps.push(p);
    if ps.len() == 0 {
        assert(q.first() == p);
        assert(q.drop_first() =~= Seq::<PointView>::empty());
        assert(enc_points(q, t) == enc_point_body(q.first(), t) + enc_points(q.drop_first(), t));
        assert(enc_points(q.drop_first(), t) == Seq::<u8>::empty());
        assert(enc_points(ps, t) == Seq::<u8>::empty());
        assert(enc_points(q, t) =~= enc_points(ps, t) + enc_point_body(p, t));
    } else {
        assert(q.first() == ps.first());
        assert(q.drop_first() =~= ps.drop_first().push(p));
        lemma_enc_points_push(ps.drop_first(), p, t);
        assert(enc_points(q, t) == enc_point_body(q.first(), t) + enc_points(q.drop_first(), t));
        assert(enc_points(ps, t) == enc_point_body(ps.first(), t) + enc_points(
            ps.drop_first(),
            t,
        ));
        assert(enc_points(q, t) =~= enc_points(ps, t) + enc_point_body(p, t));
    }
}

#[verifier::rlimit(30)]
proof fn lemma_enc_rings_push(rs: Seq<LineStringView>, l: LineStringView, t: PointType)
    ensures
        enc_rings(rs.push(l), t) == enc_rings(rs, t) + enc_line_body(l.points, t),
    decreases rs.len(),
{
    let q = rs.push(l);
    if rs.len() == 0 {
        assert(q.first() == l);
        assert(q.drop_first() =~= Seq::<LineStringView>::empty());
        assert(enc_rings(q, t) == enc_line_body(q.first().points, t) + enc_rings(
            q.drop_first(),
            t,
        ));
        assert(enc_rings(q.drop_first(), t) == Seq::<u8>::empty());
        assert(enc_rings(rs, t) == Seq::<u8>::empty());
        assert(enc_rings(q, t) =~= enc_rings(rs, t) + enc_line_body(l.points, t));
    } else {
        assert(q.first() == rs.first());
        assert(q.drop_first() =~= rs.drop_first().push(l));
        lemma_enc_rings_push(rs.drop_first(), l, t);
        assert(enc_rings(q, t) == enc_line_body(q.first().points, t) + enc_rings(
            q.drop_first(),
            t,
        ));
        assert(enc_rings(rs, t) == enc_line_body(rs.first().points, t) + enc_rings(
            rs.drop_first(),
            t,
        ));
        assert(enc_rings(q, t) =~= enc_rings(rs, t) + enc_line_body(l.points, t));
    }
}

#[verifier::rlimit(30)]
proof fn lemma_enc_point_geoms_push(ps: Seq<PointView>, p: PointView, t: PointType)
    ensures
        enc_point_geoms(ps.push(p), t) == enc_point_geoms(ps, t) + (enc_header(1, t, None)
            + enc_point_body(p, t)),
    decreases ps.len(),
{
    let q = ps.push(p);
    if ps.len() == 0 {
        assert(q.first() == p);
        assert(q.drop_first() =~= Seq::<PointView>::empty());
        assert(enc_point_geoms(q, t) == enc_header(1, t, None) + enc_point_body(q.first(), t)
            + enc_point_geoms(q.drop_first(), t));
        assert(enc_point_geoms(q.drop_first(), t) == Seq::<u8>::empty());
        assert(enc_point_geoms(ps, t) == Seq::<u8>::empty());
        assert(enc_point_geoms(q, t) =~= enc_point_geoms(ps, t) + (enc_header(1, t, None)
            + enc_point_body(p, t)));
    } else {
        assert(q.first() == ps.first());
        assert(q.drop_first() =~= ps.drop_first().push(p));
        lemma_enc_point_geoms_push(ps.drop_first(), p, t);
        assert(enc_point_geoms(q, t) == enc_header(1, t, None) + enc_point_body(q.first(), t)
            + enc_point_geoms(q.drop_first(), t));
        assert(enc_point_geoms(ps, t) == enc_header(1, t, None) + enc_point_body(ps.first(), t)
            + enc_point_geoms(ps.drop_first(), t));
        assert(enc_point_geoms(q, t) =~= enc_point_geoms(ps, t) + (enc_header(1, t, None)
            + enc_point_body(p, t)));
    }
}

#[verifier::rlimit(30)]
proof fn lemma_enc_line_geoms_push(ls: Seq<LineStringView>, l: LineStringView, t: PointType)
    ensures
        enc_line_geoms(ls.push(l), t) == enc_line_geoms(ls, t) + (enc_header(2, t, None)
            + enc_line_body(l.points, t)),
    decreases ls.len(),
{
    let q = ls.push(l);
    if ls.len() == 0 {
        assert(q.first() == l);
        assert(q.drop_first() =~= Seq::<LineStringView>::empty());
        assert(enc_line_geoms(q, t) == enc_header(2, t, None) + enc_line_body(q.first().points, t)
            + enc_line_geoms(q.drop_first(), t));
        assert(enc_line_geoms(q.drop_first(), t) == Seq::<u8>::empty());
        assert(enc_line_geoms(ls, t) == Seq::<u8>::empty());
        assert(enc_line_geoms(q, t) =~= enc_line_geoms(ls, t) + (enc_header(2, t, None)
            + enc_line_body(l.points, t)));
    } else {
        assert(q.first() == ls.first());
        assert(q.drop_first() =~= ls.drop_first().push(l));
        lemma_enc_line_geoms_push(ls.drop_first(), l, t);
        assert(enc_line_geoms(q, t) == enc_header(2, t, None) + enc_line_body(q.first().points, t)
            + enc_line_geoms(q.drop_first(), t));
        assert(enc_line_geoms(ls, t) == enc_header(2, t, None) + enc_line_body(
            ls.first().points,
            t,
        ) + enc_line_geoms(ls.drop_first(), t));
        assert(enc_line_geoms(q, t) =~= enc_line_geoms(ls, t) + (enc_header(2, t, None)
            + enc_line_body(l.points, t)));
    }
}

#[verifier::rlimit(30)]
proof fn lemma_enc_poly_geoms_push(ys: Seq<PolygonView>, y: PolygonView, t: PointType)
    ensures
        enc_poly_geoms(ys.push(y), t) == enc_poly_geoms(ys, t) + (enc_header(3, t, None)
            + enc_poly_body(y.rings, t)),
    decreases ys.len(),
{
    let q = ys.push(y);
    if ys.len() == 0 {
        assert(q.first() == y);
        assert(q.drop_first() =~= Seq::<PolygonView>::empty());
        assert(enc_poly_geoms(q, t) == enc_header(3, t, None) + enc_poly_body(q.first().rings, t)
            + enc_poly_geoms(q.drop_first(), t));
        assert(enc_poly_geoms(q.drop_first(), t) == Seq::<u8>::empty());
        assert(enc_poly_geoms(ys, t) == Seq::<u8>::empty());
        assert(enc_poly_geoms(q, t) =~= enc_poly_geoms(ys, t) + (enc_header(3, t, None)
            + enc_poly_body(y.rings, t)));
    } else {
        assert(q.first() == ys.first());
        assert(q.drop_first() =~= ys.drop_first().push(y));
        lemma_enc_poly_geoms_push(ys.drop_first(), y, t);
        assert(enc_poly_geoms(q, t) == enc_header(3, t, None) + enc_poly_body(q.first().rings, t)
            + enc_poly_geoms(q.drop_first(), t));
        assert(enc_poly_geoms(ys, t) == enc_header(3, t, None) + enc_poly_body(
            ys.first().rings,
            t,
        ) + enc_poly_geoms(ys.drop_first(), t));
        assert(enc_poly_geoms(q, t) =~= enc_poly_geoms(ys, t) + (enc_header(3, t, None)
            + enc_poly_body(y.rings, t)));
    }
}

#[verifier::rlimit(30)]
proof fn lemma_enc_geoms_push(gs: Seq<GeometryView>, g: GeometryView, t: PointType)
    ensures
        enc_geoms(gs.push(g), t) == enc_geoms(gs, t) + enc_geom(g, t, None),
    decreases gs.len(),
{
    let q = gs.push(g);
    if gs.len() == 0 {
        assert(q.first() == g);
        assert(q.drop_first() =~= Seq::<GeometryView>::empty());
        assert(enc_geoms(q, t) == enc_geom(q.first(), t, None) + enc_geoms(q.drop_first(), t));
        assert(enc_geoms(q.drop_first(), t) == Seq::<u8>::empty());
        assert(enc_geoms(gs, t) == Seq::<u8>::empty());
        assert(enc_geoms(q, t) =~= enc_geoms(gs, t) + enc_geom(g, t, None));
    } else {
        assert(q.first() == gs.first());
        assert(q.drop_first() =~= gs.drop_first().push(g));
        lemma_enc_geoms_push(gs.drop_first(), g, t);
        assert(enc_geoms(q, t) == enc_geom(q.first(), t, None) + enc_geoms(q.drop_first(), t));
        assert(enc_geoms(gs, t) == enc_geom(gs.first(), t, None) + enc_geoms(gs.drop_first(), t));
        assert(enc_geoms(q, t) =~= enc_geoms(gs, t) + enc_geom(g, t, None));
    }
}

proof fn lemma_geoms_view_len<P: types::Point>(gs: Seq<GeometryT<P>>)
    ensures
        geoms_view(gs).len() == gs.len(),
    decreases gs,
{
    if gs.len() > 0 {
        lemma_geoms_view_len(gs.drop_last());
    }
}

// --- writers (always little-endian) ---

/// Write a header: the little-endian flag byte, the type code, and the
/// SRID exactly when one is supplied.
fn write_header(out: &mut Vec<u8>, kind: u32, point_type: &PointType, srid: Option<i32>)
    ensures
        final(out)@ == old(out)@ + enc_header(kind, *point_type, srid),
{
    proof {
        reveal(enc_header);
    }
    out.push(1u8);
    let flags = wkb_type_id(point_type, srid);
    write_u32_le(out, kind | flags);
    match srid {
        Some(s) => write_i32_le(out, s),
        None => (),
    }
    proof {
        assert(out@ =~= old(out)@ + enc_header(kind, *point_type, srid));
    }
}

/// Write one point body: the ordinates the variant declares, in order.
fn write_point_body<P: types::Point>(p: &P, out: &mut Vec<u8>)
    ensures
        final(out)@ == old(out)@ + enc_point_body(p@, P::ptype()),
{
    proof {
        reveal(enc_point_body);
        p.lemma_wf();
    }
    let t = P::point_type();
    write_u64_le(out, p.x());
    write_u64_le(out, p.y());
    if t.has_z() {
        write_u64_le(out, p.opt_z().unwrap());
    }
    if t.has_m() {
        write_u64_le(out, p.opt_m().unwrap());
    }
    proof {
        assert(out@ =~= old(out)@ + enc_point_body(p@, P::ptype()));
    }
}

#[verifier::loop_isolation(false)]
fn write_points<P: types::Point>(ps: &Vec<P>, out: &mut Vec<u8>)
    ensures
        final(out)@ == old(out)@ + enc_points(pvs(ps@), P::ptype()),
{
    proof {
        assert(out@ =~= old(out)@ + enc_points(pvs(ps@.take(0int)), P::ptype()));
    }
    let mut i: usize = 0;
    while i < ps.len()
        invariant
            i <= ps@.len(),
            out@ == old(out)@ + enc_points(pvs(ps@.take(i as int)), P::ptype()),
        decreases ps@.len() - i,
    {
        write_point_body::<P>(&ps[i], out);
        i = i + 1;
        proof {
            assert(pvs(ps@.take(i as int)) =~= pvs(ps@.take(i - 1)).push(ps@[i - 1]@));
            lemma_enc_points_push(pvs(ps@.take(i - 1)), ps@[i - 1]@, P::ptype());
            assert(out@ =~= old(out)@ + enc_points(pvs(ps@.take(i as int)), P::ptype()));
        }
    }
    proof {
        assert(pvs(ps@.take(ps@.len() as int)) =~= pvs(ps@));
    }
}

/// Write a LineString body: point count, then the points inline.
fn write_line_body<P: types::Point>(ps: &Vec<P>, out: &mut Vec<u8>)
    ensures
        final(out)@ == old(out)@ + enc_line_body(pvs(ps@), P::ptype()),
{
    write_u32_le(out, ps.len() as u32);
    write_points::<P>(ps, out);
    proof {
        assert(out@ =~= old(out)@ + enc_line_body(pvs(ps@), P::ptype()));
    }
}

#[verifier::loop_isolation(false)]
fn write_rings<P: types::Point>(rs: &Vec<LineStringT<P>>, out: &mut Vec<u8>)
    ensures
        final(out)@ == old(out)@ + enc_rings(views_of(rs@), P::ptype()),
{
    proof {
        assert(out@ =~= old(out)@ + enc_rings(views_of(rs@.take(0int)), P::ptype()));
    }
    let mut i: usize = 0;
    while i < rs.len()
        invariant
            i <= rs@.len(),
            out@ == old(out)@ + enc_rings(views_of(rs@.take(i as int)), P::ptype()),
        decreases rs@.len() - i,
    {
        write_line_body::<P>(&rs[i].points, out);
        i = i + 1;
        proof {
            assert(views_of(rs@.take(i as int)) =~= views_of(rs@.take(i - 1)).push(rs@[i - 1]@));
            lemma_enc_rings_push(views_of(rs@.take(i - 1)), rs@[i - 1]@, P::ptype());
            assert(out@ =~= old(out)@ + enc_rings(views_of(rs@.take(i as int)), P::ptype()));
        }
    }
    proof {
        assert(views_of(rs@.take(rs@.len() as int)) =~= views_of(rs@));
    }
}

/// Write a Polygon body: ring count, then headerless rings.
fn write_poly_body<P: types::Point>(rs: &Vec<LineStringT<P>>, out: &mut Vec<u8>)
    ensures
        final(out)@ == old(out)@ + enc_poly_body(views_of(rs@), P::ptype()),
{
    write_u32_le(out, rs.len() as u32);
    write_rings::<P>(rs, out);
    proof {
        assert(out@ =~= old(out)@ + enc_poly_body(views_of(rs@), P::ptype()));
    }
}

#[verifier::loop_isolation(false)]
fn write_point_geoms<P: types::Point>(ps: &Vec<P>, out: &mut Vec<u8>)
    ensures
        final(out)@ == old(out)@ + enc_point_geoms(pvs(ps@), P::ptype()),
{
    proof {
        assert(out@ =~= old(out)@ + enc_point_geoms(pvs(ps@.take(0int)), P::ptype()));
    }
    let mut i: usize = 0;
    while i < ps.len()
        invariant
            i <= ps@.len(),
            out@ == old(out)@ + enc_point_geoms(pvs(ps@.take(i as int)), P::ptype()),
        decreases ps@.len() - i,
    {
        let t = P::point_type();
        write_header(out, 1, &t, None);
        write_point_body::<P>(&ps[i], out);
        i = i + 1;
        proof {
            assert(pvs(ps@.take(i as int)) =~= pvs(ps@.take(i - 1)).push(ps@[i - 1]@));
            lemma_enc_point_geoms_push(pvs(ps@.take(i - 1)), ps@[i - 1]@, P::ptype());
            assert(out@ =~= old(out)@ + enc_point_geoms(pvs(ps@.take(i as int)), P::ptype()));
        }
    }
    proof {
        assert(pvs(ps@.take(ps@.len() as int)) =~= pvs(ps@));
    }
}

/// Write a MultiPoint body: count, then full nested point geometries,
/// each with its own header and no SRID.
fn write_mpoint_body<P: types::Point>(ps: &Vec<P>, out: &mut Vec<u8>)
    ensures
        final(out)@ == old(out)@ + enc_mpoint_body(pvs(ps@), P::ptype()),
{
    write_u32_le(out, ps.len() as u32);
    write_point_geoms::<P>(ps, out);
    proof {
        assert(out@ =~= old(out)@ + enc_mpoint_body(pvs(ps@), P::ptype()));
    }
}

#[verifier::loop_isolation(false)]
fn write_line_geoms<P: types::Point>(ls: &Vec<LineStringT<P>>, out: &mut Vec<u8>)
    ensures
        final(out)@ == old(out)@ + enc_line_geoms(views_of(ls@), P::ptype()),
{
    proof {
        assert(out@ =~= old(out)@ + enc_line_geoms(views_of(ls@.take(0int)), P::ptype()));
    }
    let mut i: usize = 0;
    while i < ls.len()
        invariant
            i <= ls@.len(),
            out@ == old(out)@ + enc_line_geoms(views_of(ls@.take(i as int)), P::ptype()),
        decreases ls@.len() - i,
    {
        let t = P::point_type();
        write_header(out, 2, &t, None);
        write_line_body::<P>(&ls[i].points, out);
        i = i + 1;
        proof {
            assert(views_of(ls@.take(i as int)) =~= views_of(ls@.take(i - 1)).push(ls@[i - 1]@));
            lemma_enc_line_geoms_push(views_of(ls@.take(i - 1)), ls@[i - 1]@, P::ptype());
            assert(out@ =~= old(out)@ + enc_line_geoms(views_of(ls@.take(i as int)), P::ptype()));
        }
    }
    proof {
        assert(views_of(ls@.take(ls@.len() as int)) =~= views_of(ls@));
    }
}

/// Write a MultiLineString body: count, then full nested LineStrings.
fn write_mline_body<P: types::Point>(ls: &Vec<LineStringT<P>>, out: &mut Vec<u8>)
    ensures
        final(out)@ == old(out)@ + enc_mline_body(views_of(ls@), P::ptype()),
{
    write_u32_le(out, ls.len() as u32);
    write_line_geoms::<P>(ls, out);
    proof {
        assert(out@ =~= old(out)@ + enc_mline_body(views_of(ls@), P::ptype()));
    }
}

#[verifier::loop_isolation(false)]
fn write_poly_geoms<P: types::Point>(ys: &Vec<PolygonT<P>>, out: &mut Vec<u8>)
    ensures
        final(out)@ == old(out)@ + enc_poly_geoms(views_of(ys@), P::ptype()),
{
    proof {
        assert(out@ =~= old(out)@ + enc_poly_geoms(views_of(ys@.take(0int)), P::ptype()));
    }
    let mut i: usize = 0;
    while i < ys.len()
        invariant
            i <= ys@.len(),
            out@ == old(out)@ + enc_poly_geoms(views_of(ys@.take(i as int)), P::ptype()),
        decreases ys@.len() - i,
    {
        let t = P::point_type();
        write_header(out, 3, &t, None);
        write_poly_body::<P>(&ys[i].rings, out);
        i = i + 1;
        proof {
            assert(views_of(ys@.take(i as int)) =~= views_of(ys@.take(i - 1)).push(ys@[i - 1]@));
            lemma_enc_poly_geoms_push(views_of(ys@.take(i - 1)), ys@[i - 1]@, P::ptype());
            assert(out@ =~= old(out)@ + enc_poly_geoms(views_of(ys@.take(i as int)), P::ptype()));
        }
    }
    proof {
        assert(views_of(ys@.take(ys@.len() as int)) =~= views_of(ys@));
    }
}

/// Write a MultiPolygon body: count, then full nested Polygons.
fn write_mpoly_body<P: types::Point>(ys: &Vec<PolygonT<P>>, out: &mut Vec<u8>)
    ensures
        final(out)@ == old(out)@ + enc_mpoly_body(views_of(ys@), P::ptype()),
{
    write_u32_le(out, ys.len() as u32);
    write_poly_geoms::<P>(ys, out);
    proof {
        assert(out@ =~= old(out)@ + enc_mpoly_body(views_of(ys@), P::ptype()));
    }
}

/// Write a GeometryCollection body: count, then full geometries, each
/// written without an SRID of its own.
#[verifier::loop_isolation(false)]
fn write_coll_body<P: types::Point>(gs: &Vec<GeometryT<P>>, out: &mut Vec<u8>)
    ensures
        final(out)@ == old(out)@ + enc_u32_le(gs@.len() as u32) + enc_geoms(
            geoms_view(gs@),
            P::ptype(),
        ),
    decreases gs,
{
    write_u32_le(out, gs.len() as u32);
    proof {
        assert(out@ =~= old(out)@ + enc_u32_le(gs@.len() as u32) + enc_geoms(
            geoms_view(gs@.take(0int)),
            P::ptype(),
        ));
    }
    let mut i: usize = 0;
    while i < gs.len()
        invariant
            i <= gs@.len(),
            out@ == old(out)@ + enc_u32_le(gs@.len() as u32) + enc_geoms(
                geoms_view(gs@.take(i as int)),
                P::ptype(),
            ),
        decreases gs@.len() - i,
    {
        write_geom::<P>(&gs[i], out, None);
        i = i + 1;
        proof {
            assert(gs@.take(i as int).drop_last() =~= gs@.take(i - 1));
            assert(geoms_view(gs@.take(i as int)) == geoms_view(gs@.take(i - 1)).push(
                geom_view(gs@[i - 1]),
            ));
            lemma_enc_geoms_push(geoms_view(gs@.take(i - 1)), geom_view(gs@[i - 1]), P::ptype());
            assert(out@ =~= old(out)@ + enc_u32_le(gs@.len() as u32) + enc_geoms(
                geoms_view(gs@.take(i as int)),
                P::ptype(),
            ));
        }
    }
    proof {
        assert(gs@.take(gs@.len() as int) =~= gs@);
    }
}

/// Write any geometry under a caller-chosen header SRID; nested elements
/// are always written without one.
#[verifier::rlimit(100)]
#[verifier::spinoff_prover]
fn write_geom<P: types::Point>(g: &GeometryT<P>, out: &mut Vec<u8>, srid: Option<i32>)
    ensures
        final(out)@ == old(out)@ + enc_geom(g@, P::ptype(), srid),
    decreases g,
{
    let t = P::point_type();
    match g {
        GeometryT::Point(p) => {
            write_header(out, 1, &t, srid);
            write_point_body::<P>(p, out);
        },
        GeometryT::LineString(l) => {
            write_header(out, 2, &t, srid);
            write_line_body::<P>(&l.points, out);
        },
        GeometryT::Polygon(y) => {
            write_header(out, 3, &t, srid);
            write_poly_body::<P>(&y.rings, out);
        },
        GeometryT::MultiPoint(mp) => {
            write_header(out, 4, &t, srid);
            write_mpoint_body::<P>(&mp.points, out);
        },
        GeometryT::MultiLineString(ml) => {
            write_header(out, 5, &t, srid);
            write_mline_body::<P>(&ml.lines, out);
        },
        GeometryT::MultiPolygon(my) => {
            write_header(out, 6, &t, srid);
            write_mpoly_body::<P>(&my.polygons, out);
        },
        GeometryT::GeometryCollection(c) => {
            write_header(out, 7, &t, srid);
            write_coll_body::<P>(&c.geometries, out);
            proof {
                lemma_geoms_view_len(c.geometries@);
            }
        },
    }
    proof {
        assert(out@ =~= old(out)@ + enc_geom(g@, P::ptype(), srid));
    }
}

/// Decode uppercase hexadecimal text into bytes, two digits per byte.
#[verifier::loop_isolation(false)]
pub fn hex_to_vec(hexstr: &str) -> (r: Vec<u8>)
    requires
        hexstr@.len() % 2 == 0,
        forall|i: int| 0 <= i < hexstr@.len() ==> is_hex_upper(#[trigger] hexstr@[i]),
    ensures
        r@ == unhex_upper(hexstr@),
{
    proof {
        assert forall|i: int| 0 <= i < hexstr@.len() implies '\0' <= #[trigger] hexstr@[i]
            <= '\u{7f}' by {
            assert(is_hex_upper(hexstr@[i]));
        }
        assert(vstd::utf8::is_ascii_chars(hexstr@));
        assert(vstd::string::is_ascii(hexstr));
        vstd::string::is_ascii_spec_bytes(hexstr);
    }
    let bs = hexstr.as_bytes();
    let mut out: Vec<u8> = Vec::new();
    let mut i: usize = 0;
    proof {
        assert(hexstr@.take(0int).len() < 2);
    }
    while i + 1 < bs.len()
        invariant
            i % 2 == 0,
            i <= bs@.len(),
            bs@.len() == hexstr@.len(),
            forall|k: int| 0 <= k < bs@.len() ==> bs@[k] == hexstr@[k] as u8,
            out@ == unhex_upper(hexstr@.take(i as int)),
        decreases bs@.len() - i,
    {
        let c1 = *vstd::slice::slice_index_get(bs, i);
        let c2 = *vstd::slice::slice_index_get(bs, i + 1);
        proof {
            assert(is_hex_upper(hexstr@[i as int]));
            assert(is_hex_upper(hexstr@[i + 1]));
        }
        let hb = if c1 <= 57 {
            c1 - 48
        } else {
            c1 - 55
        };
        let lb = if c2 <= 57 {
            c2 - 48
        } else {
            c2 - 55
        };
        out.push(hb * 16 + lb);
        i = i + 2;
        proof {
            let q = hexstr@.take(i as int);
            assert(q.take(q.len() - 2) =~= hexstr@.take(i - 2));
            assert(q[q.len() - 2] == hexstr@[i - 2] && q[q.len() - 1] == hexstr@[i - 1]);
            assert(out@ =~= unhex_upper(hexstr@.take(i as int)));
        }
    }
    proof {
        assert(hexstr@.take(hexstr@.len() as int) =~= hexstr@);
    }
    out
}

// --- the OGC names for each point layout ---

/// OGC LineString type
pub type LineString = LineStringT<Point>;

/// OGC LineStringZ type
pub type LineStringZ = LineStringT<PointZ>;

/// OGC LineStringM type
pub type LineStringM = LineStringT<PointM>;

/// OGC LineStringZM type
pub type LineStringZM = LineStringT<PointZM>;

/// OGC Polygon type
pub type Polygon = PolygonT<Point>;

/// OGC PolygonZ type
pub type PolygonZ = PolygonT<PointZ>;

/// OGC PolygonM type
pub type PolygonM = PolygonT<PointM>;

/// OGC PolygonZM type
pub type PolygonZM = PolygonT<PointZM>;

/// OGC MultiPoint type
pub type MultiPoint = MultiPointT<Point>;

/// OGC MultiPointZ type
pub type MultiPointZ = MultiPointT<PointZ>;

/// OGC MultiPointM type
pub type MultiPointM = MultiPointT<PointM>;

/// OGC MultiPointZM type
pub type MultiPointZM = MultiPointT<PointZM>;

/// OGC MultiLineString type
pub type MultiLineString = MultiLineStringT<Point>;

/// OGC MultiLineStringZ type
pub type MultiLineStringZ = MultiLineStringT<PointZ>;

/// OGC MultiLineStringM type
pub type MultiLineStringM = MultiLineStringT<PointM>;

/// OGC MultiLineStringZM type
pub type MultiLineStringZM = MultiLineStringT<PointZM>;

/// OGC MultiPolygon type
pub type MultiPolygon = MultiPolygonT<Point>;

/// OGC MultiPolygonZ type
pub type MultiPolygonZ = MultiPolygonT<PointZ>;

/// OGC MultiPolygonM type
pub type MultiPolygonM = MultiPolygonT<PointM>;

/// OGC MultiPolygonZM type
pub type MultiPolygonZM = MultiPolygonT<PointZM>;

/// OGC Geometry type
pub type Geometry = GeometryT<Point>;

/// OGC GeometryZ type
pub type GeometryZ = GeometryT<PointZ>;

/// OGC GeometryM type
pub type GeometryM = GeometryT<PointM>;

/// OGC GeometryZM type
pub type GeometryZM = GeometryT<PointZM>;

/// OGC GeometryCollection type
pub type GeometryCollection = GeometryCollectionT<Point>;

/// OGC GeometryCollectionZ type
pub type GeometryCollectionZ = GeometryCollectionT<PointZ>;

/// OGC GeometryCollectionM type
pub type GeometryCollectionM = GeometryCollectionT<PointM>;

/// OGC GeometryCollectionZM type
pub type GeometryCollectionZM = GeometryCollectionT<PointZM>;

// --- the public codec face of each type ---

impl Point {
    /// Decode from EWKB bytes; `Read` error exactly when the bytes do not
    /// parse. Trailing bytes are ignored.
    pub fn read_ewkb(bytes: &Vec<u8>) -> (r: Result<Point, Error>)
        ensures
            match r {
                Ok(p) => parse_point_geom(bytes@, PointType::Point) matches Some(pr) && pr.0 == p@,
                Err(e) => e is Read && parse_point_geom(bytes@, PointType::Point) is None,
            },
    {
        let mut pos: usize = 0;
        proof {
            assert(bytes@.skip(0) =~= bytes@);
        }
        read_point_geom::<Point>(bytes, &mut pos)
    }

    /// Append the EWKB encoding, with this point's SRID in the header.
    pub fn write_ewkb(&self, out: &mut Vec<u8>)
        ensures
            final(out)@ == old(out)@ + enc_geom(
                GeometryView::Point(self@),
                PointType::Point,
                self@.srid,
            ),
    {
        let t = PointType::Point;
        write_header(out, 1, &t, self.srid);
        write_point_body::<Point>(self, out);
        proof {
            assert(out@ =~= old(out)@ + enc_geom(
                GeometryView::Point(self@),
                PointType::Point,
                self@.srid,
            ));
        }
    }

    /// The EWKB encoding as uppercase hexadecimal text.
    pub fn to_hex_ewkb(&self) -> (r: String)
        ensures
            r@ == hex_upper(
                enc_geom(GeometryView::Point(self@), PointType::Point, self@.srid),
            ),
    {
        let mut buf: Vec<u8> = Vec::new();
        self.write_ewkb(&mut buf);
        proof {
            assert(buf@ =~= enc_geom(GeometryView::Point(self@), PointType::Point, self@.srid));
        }
        to_hex_upper(&buf)
    }
}

impl PointZ {
    /// Decode from EWKB bytes; `Read` error exactly when the bytes do not
    /// parse. Trailing bytes are ignored.
    pub fn read_ewkb(bytes: &Vec<u8>) -> (r: Result<PointZ, Error>)
        ensures
            match r {
                Ok(p) => parse_point_geom(bytes@, PointType::PointZ) matches Some(pr) && pr.0
                    == p@,
                Err(e) => e is Read && parse_point_geom(bytes@, PointType::PointZ) is None,
            },
    {
        let mut pos: usize = 0;
        proof {
            assert(bytes@.skip(0) =~= bytes@);
        }
        read_point_geom::<PointZ>(bytes, &mut pos)
    }

    /// Append the EWKB encoding, with this point's SRID in the header.
    pub fn write_ewkb(&self, out: &mut Vec<u8>)
        ensures
            final(out)@ == old(out)@ + enc_geom(
                GeometryView::Point(self@),
                PointType::PointZ,
                self@.srid,
            ),
    {
        let t = PointType::PointZ;
        write_header(out, 1, &t, self.srid);
        write_point_body::<PointZ>(self, out);
        proof {
            assert(out@ =~= old(out)@ + enc_geom(
                GeometryView::Point(self@),
                PointType::PointZ,
                self@.srid,
            ));
        }
    }

    /// The EWKB encoding as uppercase hexadecimal text.
    pub fn to_hex_ewkb(&self) -> (r: String)
        ensures
            r@ == hex_upper(
                enc_geom(GeometryView::Point(self@), PointType::PointZ, self@.srid),
            ),
    {
        let mut buf: Vec<u8> = Vec::new();
        self.write_ewkb(&mut buf);
        proof {
            assert(buf@ =~= enc_geom(GeometryView::Point(self@), PointType::PointZ, self@.srid));
        }
        to_hex_upper(&buf)
    }
}

impl PointM {
    /// Decode from EWKB bytes; `Read` error exactly when the bytes do not
    /// parse. Trailing bytes are ignored.
    pub fn read_ewkb(bytes: &Vec<u8>) -> (r: Result<PointM, Error>)
        ensures
            match r {
                Ok(p) => parse_point_geom(bytes@, PointType::PointM) matches Some(pr) && pr.0
                    == p@,
                Err(e) => e is Read && parse_point_geom(bytes@, PointType::PointM) is None,
            },
    {
        let mut pos: usize = 0;
        proof {
            assert(bytes@.skip(0) =~= bytes@);
        }
        read_point_geom::<PointM>(bytes, &mut pos)
    }

    /// Append the EWKB encoding, with this point's SRID in the header.
    pub fn write_ewkb(&self, out: &mut Vec<u8>)
        ensures
            final(out)@ == old(out)@ + enc_geom(
                GeometryView::Point(self@),
                PointType::PointM,
                self@.srid,
            ),
    {
        let t = PointType::PointM;
        write_header(out, 1, &t, self.srid);
        write_point_body::<PointM>(self, out);
        proof {
            assert(out@ =~= old(out)@ + enc_geom(
                GeometryView::Point(self@),
                PointType::PointM,
                self@.srid,
            ));
        }
    }

    /// The EWKB encoding as uppercase hexadecimal text.
    pub fn to_hex_ewkb(&self) -> (r: String)
        ensures
            r@ == hex_upper(
                enc_geom(GeometryView::Point(self@), PointType::PointM, self@.srid),
            ),
    {
        let mut buf: Vec<u8> = Vec::new();
        self.write_ewkb(&mut buf);
        proof {
            assert(buf@ =~= enc_geom(GeometryView::Point(self@), PointType::PointM, self@.srid));
        }
        to_hex_upper(&buf)
    }
}

impl PointZM {
    /// Decode from EWKB bytes; `Read` error exactly when the bytes do not
    /// parse. Trailing bytes are ignored.
    pub fn read_ewkb(bytes: &Vec<u8>) -> (r: Result<PointZM, Error>)
        ensures
            match r {
                Ok(p) => parse_point_geom(bytes@, PointType::PointZM) matches Some(pr) && pr.0
                    == p@,
                Err(e) => e is Read && parse_point_geom(bytes@, PointType::PointZM) is None,
            },
    {
        let mut pos: usize = 0;
        proof {
            assert(bytes@.skip(0) =~= bytes@);
        }
        read_point_geom::<PointZM>(bytes, &mut pos)
    }

    /// Append the EWKB encoding, with this point's SRID in the header.
    pub fn write_ewkb(&self, out: &mut Vec<u8>)
        ensures
            final(out)@ == old(out)@ + enc_geom(
                GeometryView::Point(self@),
                PointType::PointZM,
                self@.srid,
            ),
    {
        let t = PointType::PointZM;
        write_header(out, 1, &t, self.srid);
        write_point_body::<PointZM>(self, out);
        proof {
            assert(out@ =~= old(out)@ + enc_geom(
                GeometryView::Point(self@),
                PointType::PointZM,
                self@.srid,
            ));
        }
    }

    /// The EWKB encoding as uppercase hexadecimal text.
    pub fn to_hex_ewkb(&self) -> (r: String)
        ensures
            r@ == hex_upper(
                enc_geom(GeometryView::Point(self@), PointType::PointZM, self@.srid),
            ),
    {
        let mut buf: Vec<u8> = Vec::new();
        self.write_ewkb(&mut buf);
        proof {
            assert(buf@ =~= enc_geom(GeometryView::Point(self@), PointType::PointZM, self@.srid));
        }
        to_hex_upper(&buf)
    }
}

impl<P: types::Point> LineStringT<P> {
    /// Decode from EWKB bytes; `Read` error exactly when the bytes do not
    /// parse. Trailing bytes are ignored.
    pub fn read_ewkb(bytes: &Vec<u8>) -> (r: Result<LineStringT<P>, Error>)
        ensures
            match r {
                Ok(l) => parse_line_geom(bytes@, P::ptype()) matches Some(pr) && pr.0 == l@,
                Err(e) => e is Read && parse_line_geom(bytes@, P::ptype()) is None,
            },
    {
        let mut pos: usize = 0;
        proof {
            assert(bytes@.skip(0) =~= bytes@);
        }
        read_line_geom::<P>(bytes, &mut pos)
    }

    /// Append the EWKB encoding, with this value's SRID in the header.
    pub fn write_ewkb(&self, out: &mut Vec<u8>)
        ensures
            final(out)@ == old(out)@ + enc_geom(
                GeometryView::LineString(self@),
                P::ptype(),
                self@.srid,
            ),
    {
        let t = P::point_type();
        write_header(out, 2, &t, self.srid);
        write_line_body::<P>(&self.points, out);
        proof {
            assert(out@ =~= old(out)@ + enc_geom(
                GeometryView::LineString(self@),
                P::ptype(),
                self@.srid,
            ));
        }
    }

    /// The EWKB encoding as uppercase hexadecimal text.
    pub fn to_hex_ewkb(&self) -> (r: String)
        ensures
            r@ == hex_upper(enc_geom(GeometryView::LineString(self@), P::ptype(), self@.srid)),
    {
        let mut buf: Vec<u8> = Vec::new();
        self.write_ewkb(&mut buf);
        proof {
            assert(buf@ =~= enc_geom(GeometryView::LineString(self@), P::ptype(), self@.srid));
        }
        to_hex_upper(&buf)
    }
}

impl<P: types::Point> PolygonT<P> {
    /// Decode from EWKB bytes; `Read` error exactly when the bytes do not
    /// parse. Trailing bytes are ignored.
    pub fn read_ewkb(bytes: &Vec<u8>) -> (r: Result<PolygonT<P>, Error>)
        ensures
            match r {
                Ok(y) => parse_poly_geom(bytes@, P::ptype()) matches Some(pr) && pr.0 == y@,
                Err(e) => e is Read && parse_poly_geom(bytes@, P::ptype()) is None,
            },
    {
        let mut pos: usize = 0;
        proof {
            assert(bytes@.skip(0) =~= bytes@);
        }
        read_poly_geom::<P>(bytes, &mut pos)
    }

    /// Append the EWKB encoding, with this value's SRID in the header.
    pub fn write_ewkb(&self, out: &mut Vec<u8>)
        ensures
            final(out)@ == old(out)@ + enc_geom(
                GeometryView::Polygon(self@),
                P::ptype(),
                self@.srid,
            ),
    {
        let t = P::point_type();
        write_header(out, 3, &t, self.srid);
        write_poly_body::<P>(&self.rings, out);
        proof {
            assert(out@ =~= old(out)@ + enc_geom(
                GeometryView::Polygon(self@),
                P::ptype(),
                self@.srid,
            ));
        }
    }

    /// The EWKB encoding as uppercase hexadecimal text.
    pub fn to_hex_ewkb(&self) -> (r: String)
        ensures
            r@ == hex_upper(enc_geom(GeometryView::Polygon(self@), P::ptype(), self@.srid)),
    {
        let mut buf: Vec<u8> = Vec::new();
        self.write_ewkb(&mut buf);
        proof {
            assert(buf@ =~= enc_geom(GeometryView::Polygon(self@), P::ptype(), self@.srid));
        }
        to_hex_upper(&buf)
    }
}

impl<P: types::Point> MultiPointT<P> {
    /// Decode from EWKB bytes; `Read` error exactly when the bytes do not
    /// parse. Trailing bytes are ignored.
    pub fn read_ewkb(bytes: &Vec<u8>) -> (r: Result<MultiPointT<P>, Error>)
        ensures
            match r {
                Ok(mp) => parse_mpoint_geom(bytes@, P::ptype()) matches Some(pr) && pr.0 == mp@,
                Err(e) => e is Read && parse_mpoint_geom(bytes@, P::ptype()) is None,
            },
    {
        let mut pos: usize = 0;
        proof {
            assert(bytes@.skip(0) =~= bytes@);
        }
        let (is_be, _type_id, srid) = read_header(bytes, &mut pos)?;
        proof {
            let hc = parse_header(bytes@).unwrap().1;
            assert(bytes@.skip(pos as int) =~= bytes@.skip(hc as int));
        }
        let mp = read_mpoint_body::<P>(bytes, &mut pos, is_be, srid)?;
        Ok(mp)
    }

    /// Append the EWKB encoding, with this value's SRID in the header.
    pub fn write_ewkb(&self, out: &mut Vec<u8>)
        ensures
            final(out)@ == old(out)@ + enc_geom(
                GeometryView::MultiPoint(self@),
                P::ptype(),
                self@.srid,
            ),
    {
        let t = P::point_type();
        write_header(out, 4, &t, self.srid);
        write_mpoint_body::<P>(&self.points, out);
        proof {
            assert(out@ =~= old(out)@ + enc_geom(
                GeometryView::MultiPoint(self@),
                P::ptype(),
                self@.srid,
            ));
        }
    }

    /// The EWKB encoding as uppercase hexadecimal text.
    pub fn to_hex_ewkb(&self) -> (r: String)
        ensures
            r@ == hex_upper(enc_geom(GeometryView::MultiPoint(self@), P::ptype(), self@.srid)),
    {
        let mut buf: Vec<u8> = Vec::new();
        self.write_ewkb(&mut buf);
        proof {
            assert(buf@ =~= enc_geom(GeometryView::MultiPoint(self@), P::ptype(), self@.srid));
        }
        to_hex_upper(&buf)
    }
}

impl<P: types::Point> MultiLineStringT<P> {
    /// Decode from EWKB bytes; `Read` error exactly when the bytes do not
    /// parse. Trailing bytes are ignored.
    pub fn read_ewkb(bytes: &Vec<u8>) -> (r: Result<MultiLineStringT<P>, Error>)
        ensures
            match r {
                Ok(ml) => parse_mline_geom(bytes@, P::ptype()) matches Some(pr) && pr.0 == ml@,
                Err(e) => e is Read && parse_mline_geom(bytes@, P::ptype()) is None,
            },
    {
        let mut pos: usize = 0;
        proof {
            assert(bytes@.skip(0) =~= bytes@);
        }
        let (is_be, _type_id, srid) = read_header(bytes, &mut pos)?;
        proof {
            let hc = parse_header(bytes@).unwrap().1;
            assert(bytes@.skip(pos as int) =~= bytes@.skip(hc as int));
        }
        let ml = read_mline_body::<P>(bytes, &mut pos, is_be, srid)?;
        Ok(ml)
    }

    /// Append the EWKB encoding, with this value's SRID in the header.
    pub fn write_ewkb(&self, out: &mut Vec<u8>)
        ensures
            final(out)@ == old(out)@ + enc_geom(
                GeometryView::MultiLineString(self@),
                P::ptype(),
                self@.srid,
            ),
    {
        let t = P::point_type();
        write_header(out, 5, &t, self.srid);
        write_mline_body::<P>(&self.lines, out);
        proof {
            assert(out@ =~= old(out)@ + enc_geom(
                GeometryView::MultiLineString(self@),
                P::ptype(),
                self@.srid,
            ));
        }
    }

    /// The EWKB encoding as uppercase hexadecimal text.
    pub fn to_hex_ewkb(&self) -> (r: String)
        ensures
            r@ == hex_upper(
                enc_geom(GeometryView::MultiLineString(self@), P::ptype(), self@.srid),
            ),
    {
        let mut buf: Vec<u8> = Vec::new();
        self.write_ewkb(&mut buf);
        proof {
            assert(buf@ =~= enc_geom(
                GeometryView::MultiLineString(self@),
                P::ptype(),
                self@.srid,
            ));
        }
        to_hex_upper(&buf)
    }
}

impl<P: types::Point> MultiPolygonT<P> {
    /// Decode from EWKB bytes; `Read` error exactly when the bytes do not
    /// parse. Trailing bytes are ignored.
    pub fn read_ewkb(bytes: &Vec<u8>) -> (r: Result<MultiPolygonT<P>, Error>)
        ensures
            match r {
                Ok(my) => parse_mpoly_geom(bytes@, P::ptype()) matches Some(pr) && pr.0 == my@,
                Err(e) => e is Read && parse_mpoly_geom(bytes@, P::ptype()) is None,
            },
    {
        let mut pos: usize = 0;
        proof {
            assert(bytes@.skip(0) =~= bytes@);
        }
        let (is_be, _type_id, srid) = read_header(bytes, &mut pos)?;
        proof {
            let hc = parse_header(bytes@).unwrap().1;
            assert(bytes@.skip(pos as int) =~= bytes@.skip(hc as int));
        }
        let my = read_mpoly_body::<P>(bytes, &mut pos, is_be, srid)?;
        Ok(my)
    }

    /// Append the EWKB encoding, with this value's SRID in the header.
    pub fn write_ewkb(&self, out: &mut Vec<u8>)
        ensures
            final(out)@ == old(out)@ + enc_geom(
                GeometryView::MultiPolygon(self@),
                P::ptype(),
                self@.srid,
            ),
    {
        let t = P::point_type();
        write_header(out, 6, &t, self.srid);
        write_mpoly_body::<P>(&self.polygons, out);
        proof {
            assert(out@ =~= old(out)@ + enc_geom(
                GeometryView::MultiPolygon(self@),
                P::ptype(),
                self@.srid,
            ));
        }
    }

    /// The EWKB encoding as uppercase hexadecimal text.
    pub fn to_hex_ewkb(&self) -> (r: String)
        ensures
            r@ == hex_upper(enc_geom(GeometryView::MultiPolygon(self@), P::ptype(), self@.srid)),
    {
        let mut buf: Vec<u8> = Vec::new();
        self.write_ewkb(&mut buf);
        proof {
            assert(buf@ =~= enc_geom(GeometryView::MultiPolygon(self@), P::ptype(), self@.srid));
        }
        to_hex_upper(&buf)
    }
}

impl<P: types::Point> GeometryT<P> {
    /// The SRID stored at the top of this value.
    pub fn opt_srid(&self) -> (r: Option<i32>)
        ensures
            r == self@.top_srid(),
    {
        match self {
            GeometryT::Point(p) => p.opt_srid(),
            GeometryT::LineString(l) => l.srid,
            GeometryT::Polygon(y) => y.srid,
            GeometryT::MultiPoint(mp) => mp.srid,
            GeometryT::MultiLineString(ml) => ml.srid,
            GeometryT::MultiPolygon(my) => my.srid,
            GeometryT::GeometryCollection(c) => c.srid,
        }
    }

    /// Decode any geometry from EWKB bytes: the type code's low byte picks
    /// the kind; kinds outside 1..=7 are a `Read` error, as is any
    /// malformed body. Trailing bytes are ignored.
    pub fn read_ewkb(bytes: &Vec<u8>) -> (r: Result<GeometryT<P>, Error>)
        ensures
            match r {
                Ok(g) => parse_geom(bytes@, P::ptype()) matches Some(pr) && pr.0 == g@,
                Err(e) => e is Read && parse_geom(bytes@, P::ptype()) is None,
            },
    {
        let mut pos: usize = 0;
        proof {
            assert(bytes@.skip(0) =~= bytes@);
        }
        read_geom_any::<P>(bytes, &mut pos)
    }

    /// Append the EWKB encoding, with this value's own SRID in the header.
    pub fn write_ewkb(&self, out: &mut Vec<u8>)
        ensures
            final(out)@ == old(out)@ + enc_geom(self@, P::ptype(), self@.top_srid()),
    {
        let srid = self.opt_srid();
        write_geom::<P>(self, out, srid);
    }

    /// The EWKB encoding as uppercase hexadecimal text.
    pub fn to_hex_ewkb(&self) -> (r: String)
        ensures
            r@ == hex_upper(enc_geom(self@, P::ptype(), self@.top_srid())),
    {
        let mut buf: Vec<u8> = Vec::new();
        self.write_ewkb(&mut buf);
        proof {
            assert(buf@ =~= enc_geom(self@, P::ptype(), self@.top_srid()));
        }
        to_hex_upper(&buf)
    }
}

impl<P: types::Point> GeometryCollectionT<P> {
    /// Decode from EWKB bytes; the header SRID, if any, stays on the
    /// decoded collection. `Read` error exactly when the bytes do not
    /// parse; trailing bytes are ignored.
    pub fn read_ewkb(bytes: &Vec<u8>) -> (r: Result<GeometryCollectionT<P>, Error>)
        ensures
            match r {
                Ok(c) => parse_coll_geom(bytes@, P::ptype()) matches Some(pr) && pr.0 == c@,
                Err(e) => e is Read && parse_coll_geom(bytes@, P::ptype()) is None,
            },
    {
        let mut pos: usize = 0;
        proof {
            assert(bytes@.skip(0) =~= bytes@);
        }
        let (is_be, _type_id, srid) = read_header(bytes, &mut pos)?;
        proof {
            let hc = parse_header(bytes@).unwrap().1;
            assert(bytes@.skip(pos as int) =~= bytes@.skip(hc as int));
        }
        let c = read_coll_body::<P>(bytes, &mut pos, is_be, srid)?;
        Ok(c)
    }

    /// Append the EWKB encoding, with this value's SRID in the header.
    pub fn write_ewkb(&self, out: &mut Vec<u8>)
        ensures
            final(out)@ == old(out)@ + enc_geom(
                GeometryView::GeometryCollection(self@),
                P::ptype(),
                self@.srid,
            ),
    {
        let t = P::point_type();
        write_header(out, 7, &t, self.srid);
        write_coll_body::<P>(&self.geometries, out);
        proof {
            lemma_geoms_view_len(self.geometries@);
            assert(out@ =~= old(out)@ + enc_geom(
                GeometryView::GeometryCollection(self@),
                P::ptype(),
                self@.srid,
            ));
        }
    }

    /// The EWKB encoding as uppercase hexadecimal text.
    pub fn to_hex_ewkb(&self) -> (r: String)
        ensures
            r@ == hex_upper(
                enc_geom(GeometryView::GeometryCollection(self@), P::ptype(), self@.srid),
            ),
    {
        let mut buf: Vec<u8> = Vec::new();
        self.write_ewkb(&mut buf);
        proof {
            assert(buf@ =~= enc_geom(
                GeometryView::GeometryCollection(self@),
                P::ptype(),
                self@.srid,
            ));
        }
        to_hex_upper(&buf)
    }
}

} // verus!
