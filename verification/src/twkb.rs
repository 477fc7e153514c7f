//! Read geometries in Tiny WKB (TWKB) format: header and metadata flags,
//! unsigned varints, zig-zag signed integers, and delta-accumulated
//! fixed-point coordinates. This codec is read-only.
//!
//! A decoded coordinate is kept as the scaled integer the stream carries,
//! next to the stream's precision: the real-number value it denotes is
//! that integer divided by ten to the precision (or multiplied, for a
//! negative precision). The codec never forms that quotient itself.
//!
//! The running delta state starts at zero for each top-level body and is
//! carried across the rings and elements inside one geometry; every
//! reader's contract equates it with the spec-level parser here.

use vstd::prelude::*;
use crate::error::Error;
use crate::wire::{read_byte, is_hex_lower, unhex_lower};
use crate::ewkb::views_of;

verus! {

// --- decoded value types ---

/// A TWKB point. `x` and `y` are the scaled integers from the stream,
/// `precision` the decimal-digit count they are scaled by. An empty
/// point geometry decodes to the sentinel with `empty` set, whose
/// coordinates denote no number at all.
#[derive(PartialEq, Eq, Clone, Copy, Debug)]
pub struct Point {
    pub x: i64,
    pub y: i64,
    pub precision: i8,
    pub empty: bool,
}

#[derive(PartialEq, Clone, Debug)]
pub struct LineString {
    pub points: Vec<Point>,
}

#[derive(PartialEq, Clone, Debug)]
pub struct Polygon {
    pub rings: Vec<LineString>,
}

#[derive(PartialEq, Clone, Debug)]
pub struct MultiPoint {
    pub points: Vec<Point>,
    pub ids: Option<Vec<u64>>,
}

#[derive(PartialEq, Clone, Debug)]
pub struct MultiLineString {
    pub lines: Vec<LineString>,
    pub ids: Option<Vec<u64>>,
}

#[derive(PartialEq, Clone, Debug)]
pub struct MultiPolygon {
    pub polygons: Vec<Polygon>,
    pub ids: Option<Vec<u64>>,
}

/// What the TWKB header said: geometry kind, coordinate precision,
/// metadata flags, optional size, and the extended-dimension facts.
#[derive(PartialEq, Eq, Clone, Copy, Debug)]
pub struct TwkbInfo {
    pub geom_type: u8,
    pub precision: i8,
    pub has_idlist: bool,
    pub is_empty_geom: bool,
    pub size: Option<u64>,
    pub has_z: bool,
    pub has_m: bool,
    pub prec_z: Option<u8>,
    pub prec_m: Option<u8>,
}

/// The running coordinate state of delta decoding.
#[derive(PartialEq, Eq, Clone, Copy, Debug)]
pub struct DeltaState {
    pub x: i64,
    pub y: i64,
    pub z: Option<i64>,
    pub m: Option<i64>,
}

impl View for LineString {
    type V = Seq<Point>;

    open spec fn view(&self) -> Seq<Point> {
        self.points@
    }
}

impl View for Polygon {
    type V = Seq<Seq<Point>>;

    open spec fn view(&self) -> Seq<Seq<Point>> {
        Seq::new(self.rings@.len(), |i: int| self.rings@[i].points@)
    }
}

// --- varints and zig-zag integers ---

/// Parse an unsigned little-endian base-128 varint whose first byte is
/// group `i`: seven data bits per byte, high bit flagging continuation,
/// at most ten groups in all. `None` when the input ends first or the
/// tenth group still continues.
pub open spec fn p_varint(s: Seq<u8>, i: nat) -> Option<(u64, nat)>
    decreases 10 - i,
{
    if i >= 10 {
        None
    } else if s.len() == 0 {
        None
    } else {
        let b = s.first();
        let group = ((b & 0x7f) as u64) << ((7 * i) as u64);
        if b < 0x80 {
            Some((group, 1nat))
        } else {
            match p_varint(s.drop_first(), (i + 1) as nat) {
                Some((v, c)) => Some((group | v, (c + 1) as nat)),
                None => None,
            }
        }
    }
}

proof fn lemma_varint_overrun_from(s: Seq<u8>, i: nat)
    requires
        i <= 10,
        s.len() + i >= 10,
        forall|k: int| 0 <= k < 10 - i ==> #[trigger] s[k] >= 0x80,
    ensures
        p_varint(s, i) is None,
    decreases 10 - i,
{
    if i < 10 {
        assert(s[0] >= 0x80);
        let tail = s.drop_first();
        assert forall|k: int| 0 <= k < 10 - (i + 1) implies #[trigger] tail[k] >= 0x80 by {
            assert(s[k + 1] >= 0x80);
        }
        lemma_varint_overrun_from(tail, (i + 1) as nat);
    }
}

/// A varint whose first ten bytes all flag continuation never parses:
/// the reader reports a `Read` error instead of running on, however
/// long the stream is.
pub proof fn lemma_varint_overrun(s: Seq<u8>)
    requires
        s.len() >= 10,
        forall|k: int| 0 <= k < 10 ==> #[trigger] s[k] >= 0x80,
    ensures
        p_varint(s, 0) is None,
{
    lemma_varint_overrun_from(s, 0);
}

/// The signed integer a zig-zag-encoded unsigned integer denotes:
/// even values count up from zero, odd values down from minus one.
pub open spec fn decode_zig_zag(n: u64) -> i64 {
    if n % 2 == 0 {
        (n / 2) as i64
    } else {
        (-1 - ((n / 2) as int)) as i64
    }
}

/// The total length of `n` varints in a row.
pub open spec fn p_varints(s: Seq<u8>, n: nat) -> Option<nat>
    decreases n,
{
    if n == 0 {
        Some(0nat)
    } else {
        match p_varint(s, 0) {
            Some((_v, c)) => if c <= s.len() {
                match p_varints(s.skip(c as int), (n - 1) as nat) {
                    Some(c2) => Some((c + c2) as nat),
                    None => None,
                }
            } else {
                None
            },
            None => None,
        }
    }
}

/// A list of `n` varint identifiers.
pub open spec fn parse_idlist(s: Seq<u8>, n: nat) -> Option<(Seq<u64>, nat)>
    decreases n,
{
    if n == 0 {
        Some((Seq::empty(), 0nat))
    } else {
        match p_varint(s, 0) {
            Some((v, c)) => if c <= s.len() {
                match parse_idlist(s.skip(c as int), (n - 1) as nat) {
                    Some((ids, c2)) => Some((seq![v] + ids, (c + c2) as nat)),
                    None => None,
                }
            } else {
                None
            },
            None => None,
        }
    }
}

// --- the header ---

/// Parse the TWKB header: kind and zig-zag precision in byte 0, metadata
/// flags in byte 1, then the optional extended-precision byte, size
/// varint, and bounding box varints, in that order.
pub open spec fn parse_twkb_header(s: Seq<u8>) -> Option<(TwkbInfo, nat)> {
    if s.len() < 2 {
        None
    } else {
        let b0 = s[0];
        let meta = s[1];
        let has_bbox = meta & 0b1 != 0;
        let has_size = meta & 0b10 != 0;
        let has_ext = meta & 0b1000 != 0;
        let info0 = TwkbInfo {
            geom_type: b0 & 0x0f,
            precision: decode_zig_zag(((b0 & 0xf0) >> 4) as u64) as i8,
            has_idlist: meta & 0b100 != 0,
            is_empty_geom: meta & 0b10000 != 0,
            size: None,
            has_z: false,
            has_m: false,
            prec_z: None,
            prec_m: None,
        };
        let ext_end = if has_ext {
            3int
        } else {
            2int
        };
        if s.len() < ext_end {
            None
        } else {
            let info1 = if has_ext {
                TwkbInfo {
                    has_z: s[2] & 0b1 != 0,
                    has_m: s[2] & 0b10 != 0,
                    prec_z: Some((s[2] & 0x1c) >> 2),
                    prec_m: Some((s[2] & 0xe0) >> 5),
                    ..info0
                }
            } else {
                info0
            };
            let after_size = if has_size {
                match p_varint(s.skip(ext_end), 0) {
                    Some((sz, c)) => if ext_end + c <= s.len() {
                        Some((TwkbInfo { size: Some(sz), ..info1 }, ext_end + c))
                    } else {
                        None
                    },
                    None => None,
                }
            } else {
                Some((info1, ext_end))
            };
            match after_size {
                Some((info2, off)) => if has_bbox {
                    let nv = (4 + (if info2.has_z {
                        2int
                    } else {
                        0int
                    }) + (if info2.has_m {
                        2int
                    } else {
                        0int
                    })) as nat;
                    match p_varints(s.skip(off), nv) {
                        Some(c2) => if off + c2 <= s.len() {
                            Some((info2, (off + c2) as nat))
                        } else {
                            None
                        },
                        None => None,
                    }
                } else {
                    Some((info2, off as nat))
                },
                None => None,
            }
        }
    }
}

// --- delta-coded coordinates ---

/// The decoded point the running state denotes.
pub open spec fn tpoint(st: DeltaState, info: TwkbInfo) -> Point {
    Point { x: st.x, y: st.y, precision: info.precision, empty: false }
}

/// One delta step: a zig-zag varint per present ordinate, added (with
/// 64-bit wrap-around) to the running state, x, y, then z and m when the
/// header declared them.
pub open spec fn p_delta(s: Seq<u8>, info: TwkbInfo, st: DeltaState) -> Option<(DeltaState, nat)> {
    match p_varint(s, 0) {
        Some((vx, cx)) => if cx <= s.len() {
            match p_varint(s.skip(cx as int), 0) {
                Some((vy, cy)) => {
                    let st1 = DeltaState {
                        x: st.x.wrapping_add(decode_zig_zag(vx)),
                        y: st.y.wrapping_add(decode_zig_zag(vy)),
                        ..st
                    };
                    let off1 = (cx + cy) as int;
                    if !info.has_z {
                        if !info.has_m {
                            Some((st1, (cx + cy) as nat))
                        } else {
                            if off1 <= s.len() {
                                match p_varint(s.skip(off1), 0) {
                                    Some((vm, cm)) => Some(
                                        (
                                            DeltaState {
                                                m: match st1.m {
                                                    Some(mv) => Some(
                                                        mv.wrapping_add(decode_zig_zag(vm)),
                                                    ),
                                                    None => None,
                                                },
                                                ..st1
                                            },
                                            (cx + cy + cm) as nat,
                                        ),
                                    ),
                                    None => None,
                                }
                            } else {
                                None
                            }
                        }
                    } else {
                        if off1 <= s.len() {
                            match p_varint(s.skip(off1), 0) {
                                Some((vz, cz)) => {
                                    let st2 = DeltaState {
                                        z: match st1.z {
                                            Some(zv) => Some(zv.wrapping_add(decode_zig_zag(vz))),
                                            None => None,
                                        },
                                        ..st1
                                    };
                                    let off2 = (cx + cy + cz) as int;
                                    if !info.has_m {
                                        Some((st2, (cx + cy + cz) as nat))
                                    } else {
                                        if off2 <= s.len() {
                                            match p_varint(s.skip(off2), 0) {
                                                Some((vm, cm)) => Some(
                                                    (
                                                        DeltaState {
                                                            m: match st2.m {
                                                                Some(mv) => Some(
                                                                    mv.wrapping_add(
                                                                        decode_zig_zag(vm),
                                                                    ),
                                                                ),
                                                                None => None,
                                                            },
                                                            ..st2
                                                        },
                                                        (cx + cy + cz + cm) as nat,
                                                    ),
                                                ),
                                                None => None,
                                            }
                                        } else {
                                            None
                                        }
                                    }
                                },
                                None => None,
                            }
                        } else {
                            None
                        }
                    }
                },
                None => None,
            }
        } else {
            None
        },
        None => None,
    }
}

/// The state every independent body starts from: zero in each ordinate
/// the header declares.
pub open spec fn start_state(info: TwkbInfo) -> DeltaState {
    DeltaState {
        x: 0,
        y: 0,
        z: if info.has_z {
            Some(0i64)
        } else {
            None
        },
        m: if info.has_m {
            Some(0i64)
        } else {
            None
        },
    }
}

/// `n` delta steps in a row; yields the points, the final state, and the
/// bytes consumed.
pub open spec fn parse_tpoints(s: Seq<u8>, info: TwkbInfo, st: DeltaState, n: nat) -> Option<
    (Seq<Point>, DeltaState, nat),
>
    decreases n,
{
    if n == 0 {
        Some((Seq::empty(), st, 0nat))
    } else {
        match p_delta(s, info, st) {
            Some((st2, c)) => if c <= s.len() {
                match parse_tpoints(s.skip(c as int), info, st2, (n - 1) as nat) {
                    Some((ps, stf, c2)) => Some((seq![tpoint(st2, info)] + ps, stf, (c + c2) as nat)),
                    None => None,
                }
            } else {
                None
            },
            None => None,
        }
    }
}

/// The ring-closure test: the ring is closed by repeating its start point
/// only when every compared ordinate differs at once.
pub open spec fn ring_open(st0: DeltaState, st: DeltaState) -> bool {
    st.x != st0.x && st.y != st0.y && st.z != st0.z && st.m != st0.m
}

/// `n` rings: each is a point count and that many delta steps; the
/// running state carries across rings. A ring left open by the encoder
/// (per `ring_open`) gets its start point appended again.
pub open spec fn parse_trings(s: Seq<u8>, info: TwkbInfo, st: DeltaState, n: nat) -> Option<
    (Seq<Seq<Point>>, DeltaState, nat),
>
    decreases n,
{
    if n == 0 {
        Some((Seq::empty(), st, 0nat))
    } else {
        match p_varint(s, 0) {
            Some((np, c0)) => if c0 <= s.len() {
                match parse_tpoints(s.skip(c0 as int), info, st, np as nat) {
                    Some((ps, st2, c1)) => {
                        let ring = if ring_open(st, st2) {
                            ps.push(tpoint(st, info))
                        } else {
                            ps
                        };
                        if c0 + c1 <= s.len() {
                            match parse_trings(s.skip((c0 + c1) as int), info, st2, (n - 1) as nat) {
                                Some((rs, stf, c2)) => Some(
                                    (seq![ring] + rs, stf, (c0 + c1 + c2) as nat),
                                ),
                                None => None,
                            }
                        } else {
                            None
                        }
                    },
                    None => None,
                }
            } else {
                None
            },
            None => None,
        }
    }
}

/// `n` LineStrings: a point count and that many delta steps each; the
/// running state carries across the lines, and no closure is applied.
pub open spec fn parse_tlines(s: Seq<u8>, info: TwkbInfo, st: DeltaState, n: nat) -> Option<
    (Seq<Seq<Point>>, DeltaState, nat),
>
    decreases n,
{
    if n == 0 {
        Some((Seq::empty(), st, 0nat))
    } else {
        match p_varint(s, 0) {
            Some((np, c0)) => if c0 <= s.len() {
                match parse_tpoints(s.skip(c0 as int), info, st, np as nat) {
                    Some((ps, st2, c1)) => if c0 + c1 <= s.len() {
                        match parse_tlines(s.skip((c0 + c1) as int), info, st2, (n - 1) as nat) {
                            Some((ls, stf, c2)) => Some((seq![ps] + ls, stf, (c0 + c1 + c2) as nat)),
                            None => None,
                        }
                    } else {
                        None
                    },
                    None => None,
                }
            } else {
                None
            },
            None => None,
        }
    }
}

/// `n` Polygons: a ring count and that many rings each; the running
/// state carries across everything.
pub open spec fn parse_tpolys(s: Seq<u8>, info: TwkbInfo, st: DeltaState, n: nat) -> Option<
    (Seq<Seq<Seq<Point>>>, DeltaState, nat),
>
    decreases n,
{
    if n == 0 {
        Some((Seq::empty(), st, 0nat))
    } else {
        match p_varint(s, 0) {
            Some((nr, c0)) => if c0 <= s.len() {
                match parse_trings(s.skip(c0 as int), info, st, nr as nat) {
                    Some((rs, st2, c1)) => if c0 + c1 <= s.len() {
                        match parse_tpolys(s.skip((c0 + c1) as int), info, st2, (n - 1) as nat) {
                            Some((ys, stf, c2)) => Some((seq![rs] + ys, stf, (c0 + c1 + c2) as nat)),
                            None => None,
                        }
                    } else {
                        None
                    },
                    None => None,
                }
            } else {
                None
            },
            None => None,
        }
    }
}

// --- bodies and full reads ---

/// A Point body: the empty sentinel when the header says so, else one
/// delta step from zero.
pub open spec fn parse_tpoint_body(s: Seq<u8>, info: TwkbInfo) -> Option<(Point, nat)> {
    if info.is_empty_geom {
        Some((Point { x: 0, y: 0, precision: info.precision, empty: true }, 0nat))
    } else {
        match p_delta(s, info, start_state(info)) {
            Some((st, c)) => Some((tpoint(st, info), c)),
            None => None,
        }
    }
}

/// A LineString body: no points at all for an empty geometry, else a
/// point count and that many delta steps from zero.
pub open spec fn parse_tline_body(s: Seq<u8>, info: TwkbInfo) -> Option<(Seq<Point>, nat)> {
    if info.is_empty_geom {
        Some((Seq::empty(), 0nat))
    } else {
        match p_varint(s, 0) {
            Some((np, c0)) => if c0 <= s.len() {
                match parse_tpoints(s.skip(c0 as int), info, start_state(info), np as nat) {
                    Some((ps, _stf, c1)) => Some((ps, (c0 + c1) as nat)),
                    None => None,
                }
            } else {
                None
            },
            None => None,
        }
    }
}

/// A Polygon body: a ring count, then the rings.
pub open spec fn parse_tpoly_body(s: Seq<u8>, info: TwkbInfo) -> Option<(Seq<Seq<Point>>, nat)> {
    match p_varint(s, 0) {
        Some((nr, c0)) => if c0 <= s.len() {
            match parse_trings(s.skip(c0 as int), info, start_state(info), nr as nat) {
                Some((rs, _stf, c1)) => Some((rs, (c0 + c1) as nat)),
                None => None,
            }
        } else {
            None
        },
        None => None,
    }
}

/// A MultiPoint body: nothing for an empty geometry; else a count, the
/// identifier list when the header declares one, then the points sharing
/// one running state.
pub open spec fn parse_tmpoint_body(s: Seq<u8>, info: TwkbInfo) -> Option<
    (Seq<Point>, Option<Seq<u64>>, nat),
> {
    if info.is_empty_geom {
        Some((Seq::empty(), None, 0nat))
    } else {
        match p_varint(s, 0) {
            Some((np, c0)) => if c0 <= s.len() {
                let ids_part = if info.has_idlist {
                    match parse_idlist(s.skip(c0 as int), np as nat) {
                        Some((ids, ci)) => if c0 + ci <= s.len() {
                            Some((Some(ids), (c0 + ci) as int))
                        } else {
                            None
                        },
                        None => None,
                    }
                } else {
                    Some((None, c0 as int))
                };
                match ids_part {
                    Some((ids, off)) => match parse_tpoints(
                        s.skip(off),
                        info,
                        start_state(info),
                        np as nat,
                    ) {
                        Some((ps, _stf, c1)) => Some((ps, ids, (off + c1) as nat)),
                        None => None,
                    },
                    None => None,
                }
            } else {
                None
            },
            None => None,
        }
    }
}

/// A MultiLineString body: a count, the identifier list when declared,
/// then the lines sharing one running state.
pub open spec fn parse_tmline_body(s: Seq<u8>, info: TwkbInfo) -> Option<
    (Seq<Seq<Point>>, Option<Seq<u64>>, nat),
> {
    match p_varint(s, 0) {
        Some((nl, c0)) => if c0 <= s.len() {
            let ids_part = if info.has_idlist {
                match parse_idlist(s.skip(c0 as int), nl as nat) {
                    Some((ids, ci)) => if c0 + ci <= s.len() {
                        Some((Some(ids), (c0 + ci) as int))
                    } else {
                        None
                    },
                    None => None,
                }
            } else {
                Some((None, c0 as int))
            };
            match ids_part {
                Some((ids, off)) => match parse_tlines(
                    s.skip(off),
                    info,
                    start_state(info),
                    nl as nat,
                ) {
                    Some((ls, _stf, c1)) => Some((ls, ids, (off + c1) as nat)),
                    None => None,
                },
                None => None,
            }
        } else {
            None
        },
        None => None,
    }
}

/// A MultiPolygon body: a count, the identifier list when declared, then
/// the polygons sharing one running state.
pub open spec fn parse_tmpoly_body(s: Seq<u8>, info: TwkbInfo) -> Option<
    (Seq<Seq<Seq<Point>>>, Option<Seq<u64>>, nat),
> {
    match p_varint(s, 0) {
        Some((ny, c0)) => if c0 <= s.len() {
            let ids_part = if info.has_idlist {
                match parse_idlist(s.skip(c0 as int), ny as nat) {
                    Some((ids, ci)) => if c0 + ci <= s.len() {
                        Some((Some(ids), (c0 + ci) as int))
                    } else {
                        None
                    },
                    None => None,
                }
            } else {
                Some((None, c0 as int))
            };
            match ids_part {
                Some((ids, off)) => match parse_tpolys(
                    s.skip(off),
                    info,
                    start_state(info),
                    ny as nat,
                ) {
                    Some((ys, _stf, c1)) => Some((ys, ids, (off + c1) as nat)),
                    None => None,
                },
                None => None,
            }
        } else {
            None
        },
        None => None,
    }
}

/// A full Point read: header, then the body. The kind nibble is not
/// checked; the reader decodes into the type it was asked for.
pub open spec fn parse_twkb_point(s: Seq<u8>) -> Option<(Point, nat)> {
    match parse_twkb_header(s) {
        Some((info, hc)) => match parse_tpoint_body(s.skip(hc as int), info) {
            Some((p, c)) => Some((p, (hc + c) as nat)),
            None => None,
        },
        None => None,
    }
}

/// A full LineString read: header, then the body.
pub open spec fn parse_twkb_line(s: Seq<u8>) -> Option<(Seq<Point>, nat)> {
    match parse_twkb_header(s) {
        Some((info, hc)) => match parse_tline_body(s.skip(hc as int), info) {
            Some((ps, c)) => Some((ps, (hc + c) as nat)),
            None => None,
        },
        None => None,
    }
}

/// A full Polygon read: header, then the body.
pub open spec fn parse_twkb_poly(s: Seq<u8>) -> Option<(Seq<Seq<Point>>, nat)> {
    match parse_twkb_header(s) {
        Some((info, hc)) => match parse_tpoly_body(s.skip(hc as int), info) {
            Some((rs, c)) => Some((rs, (hc + c) as nat)),
            None => None,
        },
        None => None,
    }
}

/// A full MultiPoint read: header, then the body.
pub open spec fn parse_twkb_mpoint(s: Seq<u8>) -> Option<(Seq<Point>, Option<Seq<u64>>, nat)> {
    match parse_twkb_header(s) {
        Some((info, hc)) => match parse_tmpoint_body(s.skip(hc as int), info) {
            Some((ps, ids, c)) => Some((ps, ids, (hc + c) as nat)),
            None => None,
        },
        None => None,
    }
}

/// A full MultiLineString read: header, then the body.
pub open spec fn parse_twkb_mline(s: Seq<u8>) -> Option<(Seq<Seq<Point>>, Option<Seq<u64>>, nat)> {
    match parse_twkb_header(s) {
        Some((info, hc)) => match parse_tmline_body(s.skip(hc as int), info) {
            Some((ls, ids, c)) => Some((ls, ids, (hc + c) as nat)),
            None => None,
        },
        None => None,
    }
}

/// A full MultiPolygon read: header, then the body.
pub open spec fn parse_twkb_mpoly(s: Seq<u8>) -> Option<
    (Seq<Seq<Seq<Point>>>, Option<Seq<u64>>, nat),
> {
    match parse_twkb_header(s) {
        Some((info, hc)) => match parse_tmpoly_body(s.skip(hc as int), info) {
            Some((ys, ids, c)) => Some((ys, ids, (hc + c) as nat)),
            None => None,
        },
        None => None,
    }
}

/// The view of an optional identifier list.
pub open spec fn ids_view(o: Option<Vec<u64>>) -> Option<Seq<u64>> {
    match o {
        Some(v) => Some(v@),
        None => None,
    }
}

// --- exec readers ---

/// Read an unsigned base-128 varint; a stream that runs out, or still
/// continues after ten groups, is a `Read` error. Whatever happens, at
/// most ten bytes are consumed: the reader never runs on past the tenth
/// continuation group.
#[verifier::loop_isolation(false)]
pub fn read_raw_varint64(bytes: &Vec<u8>, pos: &mut usize) -> (r: Result<u64, Error>)
    requires
        *old(pos) <= bytes@.len(),
    ensures
        *final(pos) <= bytes@.len(),
        *final(pos) >= *old(pos),
        *final(pos) <= *old(pos) + 10,
        match r {
            Ok(v) => p_varint(bytes@.skip(*old(pos) as int), 0) == Some(
                (v, (*final(pos) - *old(pos)) as nat),
            ),
            Err(e) => e is Read && p_varint(bytes@.skip(*old(pos) as int), 0) is None && (*old(
                pos,
            ) + 10 <= bytes@.len() ==> *final(pos) == *old(pos) + 10) && (*old(pos) + 10
                > bytes@.len() ==> *final(pos) == bytes@.len()),
        },
{
    let ghost pos0 = *old(pos);
    let ghost s0 = bytes@.skip(pos0 as int);
    let mut r: u64 = 0;
    let mut i: u8 = 0;
    proof {
        let rec = p_varint(s0, 0);
        if rec is Some {
            let v = rec.unwrap().0;
            assert(0u64 | v == v) by (bit_vector);
        }
    }
    loop
        invariant
            i <= 10,
            pos0 <= *pos,
            *pos <= bytes@.len(),
            *pos - pos0 == i as int,
            match p_varint(bytes@.skip(*pos as int), i as nat) {
                Some(pr) => p_varint(s0, 0) == Some((r | pr.0, (i + pr.1) as nat)),
                None => p_varint(s0, 0) is None,
            },
        decreases 10 - i,
    {
        if i == 10 {
            return Err(Error::Read("invalid varint".to_owned()));
        }
        let ghost pos_i = *pos;
        let ghost s_i = bytes@.skip(pos_i as int);
        match read_byte(bytes, pos) {
            Ok(b) => {
                proof {
                    assert(s_i[0] == b);
                    assert(s_i.drop_first() =~= bytes@.skip(*pos as int));
                }
                let shifted: u64 = ((b & 0x7f) as u64) << ((i as u64) * 7);
                let r2 = r | shifted;
                if b < 0x80 {
                    proof {
                        assert(p_varint(s_i, i as nat) == Some::<(u64, nat)>((shifted, 1nat)));
                    }
                    return Ok(r2);
                }
                proof {
                    let rec = p_varint(bytes@.skip(*pos as int), (i + 1) as nat);
                    if rec is Some {
                        let pr = rec.unwrap();
                        let v2 = pr.0;
                        assert(p_varint(s_i, i as nat) == Some::<(u64, nat)>(
                            (shifted | v2, (pr.1 + 1) as nat),
                        ));
                        assert(r | (shifted | v2) == (r | shifted) | v2) by (bit_vector);
                    }
                }
                r = r2;
                i = i + 1;
            },
            Err(e) => {
                return Err(e);
            },
        }
    }
}

/// Read a varint and reinterpret its bits as a signed 64-bit integer
/// (used for bounding-box values).
pub fn read_int64(bytes: &Vec<u8>, pos: &mut usize) -> (r: Result<i64, Error>)
    requires
        *old(pos) <= bytes@.len(),
    ensures
        *final(pos) <= bytes@.len(),
        *final(pos) >= *old(pos),
        *final(pos) <= *old(pos) + 10,
        match r {
            Ok(v) => p_varint(bytes@.skip(*old(pos) as int), 0) matches Some(pr) && v == pr.0
                as i64 && *final(pos) == *old(pos) + pr.1,
            Err(e) => e is Read && p_varint(bytes@.skip(*old(pos) as int), 0) is None,
        },
{
    let v = read_raw_varint64(bytes, pos)?;
    Ok(v as i64)
}

/// Decode a zig-zag-encoded unsigned integer to the signed integer it
/// denotes.
pub fn decode_zig_zag_64(n: u64) -> (r: i64)
    ensures
        r == decode_zig_zag(n),
{
    let h = n / 2;
    proof {
        assert(h < 0x8000000000000000) by (bit_vector)
            requires
                h == n / 2,
        ;
    }
    if n % 2 == 0 {
        h as i64
    } else {
        -1i64 - (h as i64)
    }
}

/// Read and discard `n` varints (the bounding box).
#[verifier::loop_isolation(false)]
fn skip_varints(bytes: &Vec<u8>, pos: &mut usize, n: u32) -> (r: Result<(), Error>)
    requires
        *old(pos) <= bytes@.len(),
    ensures
        *final(pos) <= bytes@.len(),
        *final(pos) >= *old(pos),
        match r {
            Ok(()) => p_varints(bytes@.skip(*old(pos) as int), n as nat) == Some(
                (*final(pos) - *old(pos)) as nat,
            ),
            Err(e) => e is Read && p_varints(bytes@.skip(*old(pos) as int), n as nat) is None,
        },
{
    let ghost pos0 = *old(pos);
    let ghost s0 = bytes@.skip(pos0 as int);
    let mut i: u32 = 0;
    while i < n
        invariant
            i <= n,
            pos0 <= *pos,
            *pos <= bytes@.len(),
            match p_varints(bytes@.skip(*pos as int), (n - i) as nat) {
                Some(c) => p_varints(s0, n as nat) == Some(((*pos - pos0) + c) as nat),
                None => p_varints(s0, n as nat) is None,
            },
        decreases n - i,
    {
        let ghost pos_i = *pos;
        let ghost s_i = bytes@.skip(pos_i as int);
        match read_raw_varint64(bytes, pos) {
            Ok(_) => {
                proof {
                    let c = (*pos - pos_i) as nat;
                    assert(s_i.skip(c as int) =~= bytes@.skip(*pos as int));
                }
                i = i + 1;
            },
            Err(e) => {
                return Err(e);
            },
        }
    }
    Ok(())
}

/// Read the TWKB header.
fn read_twkb_header(bytes: &Vec<u8>, pos: &mut usize) -> (r: Result<TwkbInfo, Error>)
    requires
        *old(pos) <= bytes@.len(),
    ensures
        *final(pos) <= bytes@.len(),
        *final(pos) >= *old(pos),
        match r {
            Ok(info) => parse_twkb_header(bytes@.skip(*old(pos) as int)) matches Some(pr) && pr.0
                == info && *final(pos) == *old(pos) + pr.1,
            Err(e) => e is Read && parse_twkb_header(bytes@.skip(*old(pos) as int)) is None,
        },
{
    let ghost s = bytes@.skip(*old(pos) as int);
    let b0 = read_byte(bytes, pos)?;
    let meta = read_byte(bytes, pos)?;
    proof {
        assert(s[0] == b0 && s[1] == meta);
    }
    let geom_type = b0 & 0x0f;
    let precision = decode_zig_zag_64(((b0 & 0xf0) >> 4) as u64) as i8;
    let has_bbox = meta & 0b1 != 0;
    let has_size = meta & 0b10 != 0;
    let has_idlist = meta & 0b100 != 0;
    let has_ext = meta & 0b1000 != 0;
    let is_empty_geom = meta & 0b10000 != 0;
    let mut info = TwkbInfo {
        geom_type,
        precision,
        has_idlist,
        is_empty_geom,
        size: None,
        has_z: false,
        has_m: false,
        prec_z: None,
        prec_m: None,
    };
    if has_ext {
        let ext = read_byte(bytes, pos)?;
        proof {
            assert(s[2] == ext);
        }
        info.has_z = ext & 0b1 != 0;
        info.has_m = ext & 0b10 != 0;
        info.prec_z = Some((ext & 0x1c) >> 2);
        info.prec_m = Some((ext & 0xe0) >> 5);
    }
    let ghost ext_end: int = if has_ext {
        3
    } else {
        2
    };
    if has_size {
        proof {
            assert(bytes@.skip(*pos as int) =~= s.skip(ext_end));
        }
        let sz = read_raw_varint64(bytes, pos)?;
        info.size = Some(sz);
    }
    if has_bbox {
        let nv: u32 = 4 + (if info.has_z {
            2
        } else {
            0
        }) + (if info.has_m {
            2
        } else {
            0
        });
        proof {
            assert(bytes@.skip(*pos as int) =~= s.skip(*pos - *old(pos)));
        }
        skip_varints(bytes, pos, nv)?;
    }
    Ok(info)
}

/// Read one delta step and advance the running state.
fn read_relative_point(bytes: &Vec<u8>, pos: &mut usize, info: TwkbInfo, st: DeltaState) -> (r:
    Result<DeltaState, Error>)
    requires
        *old(pos) <= bytes@.len(),
    ensures
        *final(pos) <= bytes@.len(),
        *final(pos) >= *old(pos),
        match r {
            Ok(st2) => p_delta(bytes@.skip(*old(pos) as int), info, st) == Some(
                (st2, (*final(pos) - *old(pos)) as nat),
            ),
            Err(e) => e is Read && p_delta(bytes@.skip(*old(pos) as int), info, st) is None,
        },
{
    let ghost s = bytes@.skip(*old(pos) as int);
    let vx = read_raw_varint64(bytes, pos)?;
    proof {
        assert(bytes@.skip(*pos as int) =~= s.skip(*pos - *old(pos)));
    }
    let vy = read_raw_varint64(bytes, pos)?;
    let mut st2 = DeltaState {
        x: st.x.wrapping_add(decode_zig_zag_64(vx)),
        y: st.y.wrapping_add(decode_zig_zag_64(vy)),
        z: st.z,
        m: st.m,
    };
    if info.has_z {
        proof {
            assert(bytes@.skip(*pos as int) =~= s.skip(*pos - *old(pos)));
        }
        let vz = read_raw_varint64(bytes, pos)?;
        let dz = decode_zig_zag_64(vz);
        st2.z = match st2.z {
            Some(zv) => Some(zv.wrapping_add(dz)),
            None => None,
        };
    }
    if info.has_m {
        proof {
            assert(bytes@.skip(*pos as int) =~= s.skip(*pos - *old(pos)));
        }
        let vm = read_raw_varint64(bytes, pos)?;
        let dm = decode_zig_zag_64(vm);
        st2.m = match st2.m {
            Some(mv) => Some(mv.wrapping_add(dm)),
            None => None,
        };
    }
    Ok(st2)
}

/// Read `n` delta steps from the given running state.
#[verifier::loop_isolation(false)]
#[verifier::rlimit(60)]
#[verifier::spinoff_prover]
fn read_tpoints(bytes: &Vec<u8>, pos: &mut usize, info: TwkbInfo, st: DeltaState, n: u64) -> (r:
    Result<(Vec<Point>, DeltaState), Error>)
    requires
        *old(pos) <= bytes@.len(),
    ensures
        *final(pos) <= bytes@.len(),
        *final(pos) >= *old(pos),
        match r {
            Ok(v) => parse_tpoints(bytes@.skip(*old(pos) as int), info, st, n as nat) == Some(
                (v.0@, v.1, (*final(pos) - *old(pos)) as nat),
            ),
            Err(e) => e is Read && parse_tpoints(
                bytes@.skip(*old(pos) as int),
                info,
                st,
                n as nat,
            ) is None,
        },
{
    let ghost pos0 = *old(pos);
    let ghost s0 = bytes@.skip(pos0 as int);
    let mut out: Vec<Point> = Vec::new();
    let mut cur = st;
    let mut i: u64 = 0;
    while i < n
        invariant
            i <= n,
            pos0 <= *pos,
            *pos <= bytes@.len(),
            match parse_tpoints(bytes@.skip(*pos as int), info, cur, (n - i) as nat) {
                Some(pr) => parse_tpoints(s0, info, st, n as nat) == Some(
                    ((out@ + pr.0), pr.1, ((*pos - pos0) + pr.2) as nat),
                ),
                None => parse_tpoints(s0, info, st, n as nat) is None,
            },
        decreases n - i,
    {
        let ghost pos_i = *pos;
        let ghost s_i = bytes@.skip(pos_i as int);
        match read_relative_point(bytes, pos, info, cur) {
            Ok(st2) => {
                proof {
                    let c = (*pos - pos_i) as nat;
                    assert(s_i.skip(c as int) =~= bytes@.skip(*pos as int));
                    let rec = parse_tpoints(bytes@.skip(*pos as int), info, st2, (n - i - 1) as nat);
                    if rec is Some {
                        let pr = rec.unwrap();
                        assert(out@ + (seq![tpoint(st2, info)] + pr.0) =~= out@.push(
                            tpoint(st2, info),
                        ) + pr.0);
                    }
                }
                out.push(
                    Point { x: st2.x, y: st2.y, precision: info.precision, empty: false },
                );
                cur = st2;
                i = i + 1;
            },
            Err(e) => {
                return Err(e);
            },
        }
    }
    proof {
        assert(out@ + Seq::<Point>::empty() =~= out@);
    }
    Ok((out, cur))
}

/// Read `n` varint identifiers.
#[verifier::loop_isolation(false)]
fn read_idlist(bytes: &Vec<u8>, pos: &mut usize, n: u64) -> (r: Result<Vec<u64>, Error>)
    requires
        *old(pos) <= bytes@.len(),
    ensures
        *final(pos) <= bytes@.len(),
        *final(pos) >= *old(pos),
        match r {
            Ok(v) => parse_idlist(bytes@.skip(*old(pos) as int), n as nat) == Some(
                (v@, (*final(pos) - *old(pos)) as nat),
            ),
            Err(e) => e is Read && parse_idlist(bytes@.skip(*old(pos) as int), n as nat) is None,
        },
{
    let ghost pos0 = *old(pos);
    let ghost s0 = bytes@.skip(pos0 as int);
    let mut out: Vec<u64> = Vec::new();
    let mut i: u64 = 0;
    while i < n
        invariant
            i <= n,
            pos0 <= *pos,
            *pos <= bytes@.len(),
            match parse_idlist(bytes@.skip(*pos as int), (n - i) as nat) {
                Some(pr) => parse_idlist(s0, n as nat) == Some(
                    ((out@ + pr.0), ((*pos - pos0) + pr.1) as nat),
                ),
                None => parse_idlist(s0, n as nat) is None,
            },
        decreases n - i,
    {
        let ghost pos_i = *pos;
        let ghost s_i = bytes@.skip(pos_i as int);
        match read_raw_varint64(bytes, pos) {
            Ok(id) => {
                proof {
                    let c = (*pos - pos_i) as nat;
                    assert(s_i.skip(c as int) =~= bytes@.skip(*pos as int));
                    let rec = parse_idlist(bytes@.skip(*pos as int), (n - i - 1) as nat);
                    if rec is Some {
                        let pr = rec.unwrap();
                        assert(out@ + (seq![id] + pr.0) =~= out@.push(id) + pr.0);
                    }
                }
                out.push(id);
                i = i + 1;
            },
            Err(e) => {
                return Err(e);
            },
        }
    }
    proof {
        assert(out@ + Seq::<u64>::empty() =~= out@);
    }
    Ok(out)
}

/// Whether two optional ordinates differ.
fn opt_i64_ne(a: Option<i64>, b: Option<i64>) -> (r: bool)
    ensures
        r == (a != b),
{
    match (a, b) {
        (Some(x), Some(y)) => x != y,
        (None, None) => false,
        _ => true,
    }
}

/// Read `n` rings, carrying the running state across them and applying
/// the ring-closure rule to each.
#[verifier::loop_isolation(false)]
#[verifier::rlimit(100)]
#[verifier::spinoff_prover]
fn read_trings(bytes: &Vec<u8>, pos: &mut usize, info: TwkbInfo, st: DeltaState, n: u64) -> (r:
    Result<(Vec<LineString>, DeltaState), Error>)
    requires
        *old(pos) <= bytes@.len(),
    ensures
        *final(pos) <= bytes@.len(),
        *final(pos) >= *old(pos),
        match r {
            Ok(v) => parse_trings(bytes@.skip(*old(pos) as int), info, st, n as nat) == Some(
                (views_of(v.0@), v.1, (*final(pos) - *old(pos)) as nat),
            ),
            Err(e) => e is Read && parse_trings(
                bytes@.skip(*old(pos) as int),
                info,
                st,
                n as nat,
            ) is None,
        },
{
    let ghost pos0 = *old(pos);
    let ghost s0 = bytes@.skip(pos0 as int);
    let mut out: Vec<LineString> = Vec::new();
    let mut cur = st;
    let mut i: u64 = 0;
    while i < n
        invariant
            i <= n,
            pos0 <= *pos,
            *pos <= bytes@.len(),
            match parse_trings(bytes@.skip(*pos as int), info, cur, (n - i) as nat) {
                Some(pr) => parse_trings(s0, info, st, n as nat) == Some(
                    ((views_of(out@) + pr.0), pr.1, ((*pos - pos0) + pr.2) as nat),
                ),
                None => parse_trings(s0, info, st, n as nat) is None,
            },
        decreases n - i,
    {
        let ghost pos_i = *pos;
        let ghost s_i = bytes@.skip(pos_i as int);
        let np = match read_raw_varint64(bytes, pos) {
            Ok(v) => v,
            Err(e) => {
                return Err(e);
            },
        };
        proof {
            assert(s_i.skip((*pos - pos_i) as int) =~= bytes@.skip(*pos as int));
        }
        match read_tpoints(bytes, pos, info, cur, np) {
            Ok((mut pts, st2)) => {
                let closed = opt_i64_ne(cur.z, st2.z) && opt_i64_ne(cur.m, st2.m) && st2.x != cur.x
                    && st2.y != cur.y;
                if closed {
                    pts.push(
                        Point { x: cur.x, y: cur.y, precision: info.precision, empty: false },
                    );
                }
                proof {
                    let c = (*pos - pos_i) as nat;
                    assert(s_i.skip(c as int) =~= bytes@.skip(*pos as int));
                    let rec = parse_trings(bytes@.skip(*pos as int), info, st2, (n - i - 1) as nat);
                    if rec is Some {
                        let pr = rec.unwrap();
                        assert(views_of(out@.push(LineString { points: pts })) =~= views_of(
                            out@,
                        ).push(pts@));
                        assert(views_of(out@) + (seq![pts@] + pr.0) =~= views_of(out@).push(pts@)
                            + pr.0);
                    }
                }
                out.push(LineString { points: pts });
                cur = st2;
                i = i + 1;
            },
            Err(e) => {
                return Err(e);
            },
        }
    }
    proof {
        assert(views_of(out@) + Seq::<Seq<Point>>::empty() =~= views_of(out@));
    }
    Ok((out, cur))
}

/// Read `n` LineStrings, carrying the running state across them.
#[verifier::loop_isolation(false)]
#[verifier::rlimit(100)]
#[verifier::spinoff_prover]
fn read_tlines(bytes: &Vec<u8>, pos: &mut usize, info: TwkbInfo, st: DeltaState, n: u64) -> (r:
    Result<(Vec<LineString>, DeltaState), Error>)
    requires
        *old(pos) <= bytes@.len(),
    ensures
        *final(pos) <= bytes@.len(),
        *final(pos) >= *old(pos),
        match r {
            Ok(v) => parse_tlines(bytes@.skip(*old(pos) as int), info, st, n as nat) == Some(
                (views_of(v.0@), v.1, (*final(pos) - *old(pos)) as nat),
            ),
            Err(e) => e is Read && parse_tlines(
                bytes@.skip(*old(pos) as int),
                info,
                st,
                n as nat,
            ) is None,
        },
{
    let ghost pos0 = *old(pos);
    let ghost s0 = bytes@.skip(pos0 as int);
    let mut out: Vec<LineString> = Vec::new();
    let mut cur = st;
    let mut i: u64 = 0;
    while i < n
        invariant
            i <= n,
            pos0 <= *pos,
            *pos <= bytes@.len(),
            match parse_tlines(bytes@.skip(*pos as int), info, cur, (n - i) as nat) {
                Some(pr) => parse_tlines(s0, info, st, n as nat) == Some(
                    ((views_of(out@) + pr.0), pr.1, ((*pos - pos0) + pr.2) as nat),
                ),
                None => parse_tlines(s0, info, st, n as nat) is None,
            },
        decreases n - i,
    {
        let ghost pos_i = *pos;
        let ghost s_i = bytes@.skip(pos_i as int);
        let np = match read_raw_varint64(bytes, pos) {
            Ok(v) => v,
            Err(e) => {
                return Err(e);
            },
        };
        proof {
            assert(s_i.skip((*pos - pos_i) as int) =~= bytes@.skip(*pos as int));
        }
        match read_tpoints(bytes, pos, info, cur, np) {
            Ok((pts, st2)) => {
                proof {
                    let c = (*pos - pos_i) as nat;
                    assert(s_i.skip(c as int) =~= bytes@.skip(*pos as int));
                    let rec = parse_tlines(bytes@.skip(*pos as int), info, st2, (n - i - 1) as nat);
                    if rec is Some {
                        let pr = rec.unwrap();
                        assert(views_of(out@.push(LineString { points: pts })) =~= views_of(
                            out@,
                        ).push(pts@));
                        assert(views_of(out@) + (seq![pts@] + pr.0) =~= views_of(out@).push(pts@)
                            + pr.0);
                    }
                }
                out.push(LineString { points: pts });
                cur = st2;
                i = i + 1;
            },
            Err(e) => {
                return Err(e);
            },
        }
    }
    proof {
        assert(views_of(out@) + Seq::<Seq<Point>>::empty() =~= views_of(out@));
    }
    Ok((out, cur))
}

/// Read `n` Polygons, carrying the running state across them.
#[verifier::loop_isolation(false)]
#[verifier::rlimit(100)]
#[verifier::spinoff_prover]
fn read_tpolys(bytes: &Vec<u8>, pos: &mut usize, info: TwkbInfo, st: DeltaState, n: u64) -> (r:
    Result<(Vec<Polygon>, DeltaState), Error>)
    requires
        *old(pos) <= bytes@.len(),
    ensures
        *final(pos) <= bytes@.len(),
        *final(pos) >= *old(pos),
        match r {
            Ok(v) => parse_tpolys(bytes@.skip(*old(pos) as int), info, st, n as nat) == Some(
                (views_of(v.0@), v.1, (*final(pos) - *old(pos)) as nat),
            ),
            Err(e) => e is Read && parse_tpolys(
                bytes@.skip(*old(pos) as int),
                info,
                st,
                n as nat,
            ) is None,
        },
{
    let ghost pos0 = *old(pos);
    let ghost s0 = bytes@.skip(pos0 as int);
    let mut out: Vec<Polygon> = Vec::new();
    let mut cur = st;
    let mut i: u64 = 0;
    while i < n
        invariant
            i <= n,
            pos0 <= *pos,
            *pos <= bytes@.len(),
            match parse_tpolys(bytes@.skip(*pos as int), info, cur, (n - i) as nat) {
                Some(pr) => parse_tpolys(s0, info, st, n as nat) == Some(
                    ((views_of(out@) + pr.0), pr.1, ((*pos - pos0) + pr.2) as nat),
                ),
                None => parse_tpolys(s0, info, st, n as nat) is None,
            },
        decreases n - i,
    {
        let ghost pos_i = *pos;
        let ghost s_i = bytes@.skip(pos_i as int);
        let nr = match read_raw_varint64(bytes, pos) {
            Ok(v) => v,
            Err(e) => {
                return Err(e);
            },
        };
        proof {
            assert(s_i.skip((*pos - pos_i) as int) =~= bytes@.skip(*pos as int));
        }
        match read_trings(bytes, pos, info, cur, nr) {
            Ok((rings, st2)) => {
                proof {
                    let c = (*pos - pos_i) as nat;
                    assert(s_i.skip(c as int) =~= bytes@.skip(*pos as int));
                    let rec = parse_tpolys(bytes@.skip(*pos as int), info, st2, (n - i - 1) as nat);
                    if rec is Some {
                        let pr = rec.unwrap();
                        assert(views_of(out@.push(Polygon { rings })) =~~= views_of(out@).push(
                            views_of(rings@),
                        ));
                        assert(views_of(out@) + (seq![views_of(rings@)] + pr.0) =~~= views_of(
                            out@,
                        ).push(views_of(rings@)) + pr.0);
                    }
                }
                out.push(Polygon { rings });
                cur = st2;
                i = i + 1;
            },
            Err(e) => {
                return Err(e);
            },
        }
    }
    proof {
        assert(views_of(out@) + Seq::<Seq<Seq<Point>>>::empty() =~= views_of(out@));
    }
    Ok((out, cur))
}

/// The state every independent body starts from, as a value.
fn make_start_state(info: TwkbInfo) -> (st: DeltaState)
    ensures
        st == start_state(info),
{
    DeltaState {
        x: 0,
        y: 0,
        z: if info.has_z {
            Some(0i64)
        } else {
            None
        },
        m: if info.has_m {
            Some(0i64)
        } else {
            None
        },
    }
}

impl Point {
    /// Decode a TWKB point: the empty sentinel when the header says so,
    /// else one delta step from zero. `Read` error exactly when the bytes
    /// do not parse; trailing bytes are ignored.
    pub fn read_twkb(bytes: &Vec<u8>) -> (r: Result<Point, Error>)
        ensures
            match r {
                Ok(p) => parse_twkb_point(bytes@) matches Some(pr) && pr.0 == p,
                Err(e) => e is Read && parse_twkb_point(bytes@) is None,
            },
    {
        let mut pos: usize = 0;
        proof {
            assert(bytes@.skip(0) =~= bytes@);
        }
        let info = read_twkb_header(bytes, &mut pos)?;
        proof {
            let hc = parse_twkb_header(bytes@).unwrap().1;
            assert(bytes@.skip(pos as int) =~= bytes@.skip(hc as int));
        }
        if info.is_empty_geom {
            return Ok(Point { x: 0, y: 0, precision: info.precision, empty: true });
        }
        let st0 = make_start_state(info);
        let st = read_relative_point(bytes, &mut pos, info, st0)?;
        Ok(Point { x: st.x, y: st.y, precision: info.precision, empty: false })
    }
}

impl LineString {
    /// Decode a TWKB LineString: no points at all for an empty geometry,
    /// else a point count and that many delta steps from zero.
    #[verifier::rlimit(100)]
    #[verifier::spinoff_prover]
    pub fn read_twkb(bytes: &Vec<u8>) -> (r: Result<LineString, Error>)
        ensures
            match r {
                Ok(l) => parse_twkb_line(bytes@) matches Some(pr) && pr.0 == l@,
                Err(e) => e is Read && parse_twkb_line(bytes@) is None,
            },
    {
        let mut pos: usize = 0;
        proof {
            assert(bytes@.skip(0) =~= bytes@);
        }
        let info = read_twkb_header(bytes, &mut pos)?;
        let ghost hc = parse_twkb_header(bytes@).unwrap().1;
        proof {
            assert(bytes@.skip(pos as int) =~= bytes@.skip(hc as int));
        }
        if info.is_empty_geom {
            return Ok(LineString { points: Vec::new() });
        }
        let np = read_raw_varint64(bytes, &mut pos)?;
        proof {
            assert(bytes@.skip(pos as int) =~= bytes@.skip(hc as int).skip(
                (pos - hc) as int,
            ));
        }
        let st0 = make_start_state(info);
        let (points, _st) = read_tpoints(bytes, &mut pos, info, st0, np)?;
        Ok(LineString { points })
    }
}

impl Polygon {
    /// Decode a TWKB Polygon: a ring count, then the rings, with the
    /// running state carried across them and the closure rule applied.
    #[verifier::rlimit(100)]
    #[verifier::spinoff_prover]
    pub fn read_twkb(bytes: &Vec<u8>) -> (r: Result<Polygon, Error>)
        ensures
            match r {
                Ok(y) => parse_twkb_poly(bytes@) matches Some(pr) && pr.0 == y@,
                Err(e) => e is Read && parse_twkb_poly(bytes@) is None,
            },
    {
        let mut pos: usize = 0;
        proof {
            assert(bytes@.skip(0) =~= bytes@);
        }
        let info = read_twkb_header(bytes, &mut pos)?;
        let ghost hc = parse_twkb_header(bytes@).unwrap().1;
        proof {
            assert(bytes@.skip(pos as int) =~= bytes@.skip(hc as int));
        }
        let nr = read_raw_varint64(bytes, &mut pos)?;
        proof {
            assert(bytes@.skip(pos as int) =~= bytes@.skip(hc as int).skip(
                (pos - hc) as int,
            ));
        }
        let st0 = make_start_state(info);
        let (rings, _st) = read_trings(bytes, &mut pos, info, st0, nr)?;
        proof {
            assert(Polygon { rings }@ =~~= views_of(rings@));
        }
        Ok(Polygon { rings })
    }
}

impl MultiPoint {
    /// Decode a TWKB MultiPoint: a count, the identifier list when the
    /// header declares one, then the points sharing one running state.
    #[verifier::rlimit(100)]
    #[verifier::spinoff_prover]
    pub fn read_twkb(bytes: &Vec<u8>) -> (r: Result<MultiPoint, Error>)
        ensures
            match r {
                Ok(mp) => parse_twkb_mpoint(bytes@) matches Some(pr) && pr.0 == mp.points@ && pr.1
                    == ids_view(mp.ids),
                Err(e) => e is Read && parse_twkb_mpoint(bytes@) is None,
            },
    {
        let mut pos: usize = 0;
        proof {
            assert(bytes@.skip(0) =~= bytes@);
        }
        let info = read_twkb_header(bytes, &mut pos)?;
        let ghost hc = parse_twkb_header(bytes@).unwrap().1;
        let ghost body = bytes@.skip(hc as int);
        proof {
            assert(bytes@.skip(pos as int) =~= body);
        }
        if info.is_empty_geom {
            return Ok(MultiPoint { points: Vec::new(), ids: None });
        }
        let np = read_raw_varint64(bytes, &mut pos)?;
        proof {
            assert(bytes@.skip(pos as int) =~= body.skip((pos - hc) as int));
        }
        let ids: Option<Vec<u64>> = if info.has_idlist {
            let l = read_idlist(bytes, &mut pos, np)?;
            proof {
                assert(bytes@.skip(pos as int) =~= body.skip((pos - hc) as int));
            }
            Some(l)
        } else {
            None
        };
        let st0 = make_start_state(info);
        let (points, _st) = read_tpoints(bytes, &mut pos, info, st0, np)?;
        Ok(MultiPoint { points, ids })
    }
}

impl MultiLineString {
    /// Decode a TWKB MultiLineString: a count, the identifier list when
    /// declared, then the lines sharing one running state.
    #[verifier::rlimit(100)]
    #[verifier::spinoff_prover]
    pub fn read_twkb(bytes: &Vec<u8>) -> (r: Result<MultiLineString, Error>)
        ensures
            match r {
                Ok(ml) => parse_twkb_mline(bytes@) matches Some(pr) && pr.0 == views_of(ml.lines@)
                    && pr.1 == ids_view(ml.ids),
                Err(e) => e is Read && parse_twkb_mline(bytes@) is None,
            },
    {
        let mut pos: usize = 0;
        proof {
            assert(bytes@.skip(0) =~= bytes@);
        }
        let info = read_twkb_header(bytes, &mut pos)?;
        let ghost hc = parse_twkb_header(bytes@).unwrap().1;
        let ghost body = bytes@.skip(hc as int);
        proof {
            assert(bytes@.skip(pos as int) =~= body);
        }
        let nl = read_raw_varint64(bytes, &mut pos)?;
        proof {
            assert(bytes@.skip(pos as int) =~= body.skip((pos - hc) as int));
        }
        let ids: Option<Vec<u64>> = if info.has_idlist {
            let l = read_idlist(bytes, &mut pos, nl)?;
            proof {
                assert(bytes@.skip(pos as int) =~= body.skip((pos - hc) as int));
            }
            Some(l)
        } else {
            None
        };
        let st0 = make_start_state(info);
        let (lines, _st) = read_tlines(bytes, &mut pos, info, st0, nl)?;
        Ok(MultiLineString { lines, ids })
    }
}

impl MultiPolygon {
    /// Decode a TWKB MultiPolygon: a count, the identifier list when
    /// declared, then the polygons sharing one running state.
    #[verifier::rlimit(100)]
    #[verifier::spinoff_prover]
    pub fn read_twkb(bytes: &Vec<u8>) -> (r: Result<MultiPolygon, Error>)
        ensures
            match r {
                Ok(my) => parse_twkb_mpoly(bytes@) matches Some(pr) && pr.0 == views_of(
                    my.polygons@,
                ) && pr.1 == ids_view(my.ids),
                Err(e) => e is Read && parse_twkb_mpoly(bytes@) is None,
            },
    {
        let mut pos: usize = 0;
        proof {
            assert(bytes@.skip(0) =~= bytes@);
        }
        let info = read_twkb_header(bytes, &mut pos)?;
        let ghost hc = parse_twkb_header(bytes@).unwrap().1;
        let ghost body = bytes@.skip(hc as int);
        proof {
            assert(bytes@.skip(pos as int) =~= body);
        }
        let ny = read_raw_varint64(bytes, &mut pos)?;
        proof {
            assert(bytes@.skip(pos as int) =~= body.skip((pos - hc) as int));
        }
        let ids: Option<Vec<u64>> = if info.has_idlist {
            let l = read_idlist(bytes, &mut pos, ny)?;
            proof {
                assert(bytes@.skip(pos as int) =~= body.skip((pos - hc) as int));
            }
            Some(l)
        } else {
            None
        };
        let st0 = make_start_state(info);
        let (polygons, _st) = read_tpolys(bytes, &mut pos, info, st0, ny)?;
        Ok(MultiPolygon { polygons, ids })
    }
}

/// Decode lowercase hexadecimal text into bytes, two digits per byte.
#[verifier::loop_isolation(false)]
pub fn hex_to_vec(hexstr: &str) -> (r: Vec<u8>)
    requires
        hexstr@.len() % 2 == 0,
        forall|i: int| 0 <= i < hexstr@.len() ==> is_hex_lower(#[trigger] hexstr@[i]),
    ensures
        r@ == unhex_lower(hexstr@),
{
    proof {
        assert forall|i: int| 0 <= i < hexstr@.len() implies '\0' <= #[trigger] hexstr@[i]
            <= '\u{7f}' by {
            assert(is_hex_lower(hexstr@[i]));
        }
        assert(vstd::utf8::is_ascii_chars(hexstr@));
        assert(vstd::string::is_ascii(hexstr));
        vstd::string::is_ascii_spec_bytes(hexstr);
    }
    let bs = hexstr.as_bytes();
    let mut out: Vec<u8> = Vec::new();
    let mut i: usize = 0;
    proof {
        assert(hexstr@.take(0int).len() < 2);
    }
    while i + 1 < bs.len()
        invariant
            i % 2 == 0,
            i <= bs@.len(),
            bs@.len() == hexstr@.len(),
            forall|k: int| 0 <= k < bs@.len() ==> bs@[k] == hexstr@[k] as u8,
            out@ == unhex_lower(hexstr@.take(i as int)),
        decreases bs@.len() - i,
    {
        let c1 = *vstd::slice::slice_index_get(bs, i);
        let c2 = *vstd::slice::slice_index_get(bs, i + 1);
        proof {
            assert(is_hex_lower(hexstr@[i as int]));
            assert(is_hex_lower(hexstr@[i + 1]));
        }
        let hb = if c1 <= 57 {
            c1 - 48
        } else {
            c1 - 87
        };
        let lb = if c2 <= 57 {
            c2 - 48
        } else {
            c2 - 87
        };
        out.push(hb * 16 + lb);
        i = i + 2;
        proof {
            let q = hexstr@.take(i as int);
            assert(q.take(q.len() - 2) =~= hexstr@.take(i - 2));
            assert(q[q.len() - 2] == hexstr@[i - 2] && q[q.len() - 1] == hexstr@[i - 1]);
            assert(out@ =~= unhex_lower(hexstr@.take(i as int)));
        }
    }
    proof {
        assert(hexstr@.take(hexstr@.len() as int) =~= hexstr@);
    }
    out
}

} // verus!
