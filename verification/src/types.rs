//! The capability view of a point that both codecs consume.
//!
//! Every concrete point variant exposes its ordinates as IEEE-754 bit
//! patterns (`u64`); which ordinates exist is decided by the variant, at
//! compile time, through the `Point` trait.

use vstd::prelude::*;

verus! {

/// The four point layouts: plain x/y, with Z, with M, or with both.
#[derive(PartialEq, Eq, Structural, Clone, Copy, Debug)]
pub enum PointType {
    Point,
    PointZ,
    PointM,
    PointZM,
}

impl PointType {
    /// Whether this layout carries a Z ordinate.
    pub open spec fn spec_has_z(self) -> bool {
        self == PointType::PointZ || self == PointType::PointZM
    }

    /// Whether this layout carries an M ordinate.
    pub open spec fn spec_has_m(self) -> bool {
        self == PointType::PointM || self == PointType::PointZM
    }

    /// How many 8-byte ordinates a point of this layout occupies on the wire.
    pub open spec fn spec_size(self) -> nat {
        16 + (if self.spec_has_z() { 8nat } else { 0nat }) + (if self.spec_has_m() {
            8nat
        } else {
            0nat
        })
    }

    pub fn has_z(&self) -> (r: bool)
        ensures
            r == self.spec_has_z(),
    {
        matches!(self, PointType::PointZ | PointType::PointZM)
    }

    pub fn has_m(&self) -> (r: bool)
        ensures
            r == self.spec_has_m(),
    {
        matches!(self, PointType::PointM | PointType::PointZM)
    }
}

/// The mathematical content of any point value: two mandatory ordinates,
/// two optional ones, and the optional spatial reference identifier.
/// Ordinates are IEEE-754 double bit patterns.
pub struct PointView {
    pub x: u64,
    pub y: u64,
    pub z: Option<u64>,
    pub m: Option<u64>,
    pub srid: Option<i32>,
}

impl PointView {
    /// The optional ordinates are present exactly as the layout demands.
    pub open spec fn wf(self, t: PointType) -> bool {
        &&& self.z is Some <==> t.spec_has_z()
        &&& self.m is Some <==> t.spec_has_m()
    }

    /// The same point under another spatial reference identifier.
    pub open spec fn with_srid(self, srid: Option<i32>) -> PointView {
        PointView { srid, ..self }
    }
}

/// What every point variant offers: ordinate access, construction from
/// decoded ordinates, and a view into `PointView`.
pub trait Point: Sized + View<V = PointView> {
    /// The layout of this variant.
    spec fn ptype() -> PointType;

    /// A point value always matches its variant's layout.
    proof fn lemma_wf(&self)
        ensures
            self@.wf(Self::ptype()),
    ;

    fn point_type() -> (t: PointType)
        ensures
            t == Self::ptype(),
    ;

    fn x(&self) -> (r: u64)
        ensures
            r == self@.x,
    ;

    fn y(&self) -> (r: u64)
        ensures
            r == self@.y,
    ;

    fn opt_z(&self) -> (r: Option<u64>)
        ensures
            r == self@.z,
    ;

    fn opt_m(&self) -> (r: Option<u64>)
        ensures
            r == self@.m,
    ;

    fn opt_srid(&self) -> (r: Option<i32>)
        ensures
            r == self@.srid,
    ;

    /// Build the variant from decoded ordinates. The caller (the codec)
    /// guarantees that every ordinate the variant requires was supplied;
    /// ordinates the variant lacks are discarded.
    fn new_from_opt_vals(x: u64, y: u64, z: Option<u64>, m: Option<u64>, srid: Option<i32>) -> (p:
        Self)
        requires
            Self::ptype().spec_has_z() ==> z is Some,
            Self::ptype().spec_has_m() ==> m is Some,
        ensures
            p@ == (PointView {
                x,
                y,
                z: if Self::ptype().spec_has_z() {
                    z
                } else {
                    None
                },
                m: if Self::ptype().spec_has_m() {
                    m
                } else {
                    None
                },
                srid,
            }),
    ;
}

} // verus!
