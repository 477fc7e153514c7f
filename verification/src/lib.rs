//! Geometry value types for spatial data, with two binary codecs:
//! EWKB (the PostGIS extension of OGC Well-Known Binary) for reading and
//! writing, and TWKB (Tiny WKB) for reading.
//!
//! Coordinates travel through the codecs untouched: an EWKB ordinate is the
//! 64-bit pattern of an IEEE-754 double, held here as a `u64`, and a TWKB
//! ordinate is the scaled integer the wire carries, held as an `i64` next to
//! its precision. Interpreting those numbers is the caller's business; the
//! codecs' contracts state exactly which bytes map to which values.

pub mod error;
pub mod types;
pub mod wire;
pub mod ewkb;
pub mod twkb;

pub use types::Point;
pub use types::PointType;
