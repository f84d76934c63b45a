//! Geographic points. Coordinates are held as IEEE-754 bit patterns.
use vstd::prelude::*;

use crate::firestore::error::{invalid_argument, FirestoreErrorCode, FirestoreResult};
use crate::firestore::value::number::{compare_doubles, double_order};
use crate::text::Order;

verus! {

/// A latitude/longitude pair, each the bit pattern of an `f64`.
#[derive(Clone, Copy, Debug, PartialEq, Eq, Hash, Structural)]
pub struct GeoPoint {
    pub latitude_bits: u64,
    pub longitude_bits: u64,
}

/// Whether the double `bits` lies in `[lo, hi]`; NaN lies nowhere.
pub open spec fn double_within(bits: u64, lo: u64, hi: u64) -> bool {
    &&& double_order(lo, bits) is Some
    &&& double_order(lo, bits) != Some(Order::Greater)
    &&& double_order(bits, hi) is Some
    &&& double_order(bits, hi) != Some(Order::Greater)
}

/// The bit patterns of -90.0 and 90.0.
pub open spec fn latitude_bounds() -> (u64, u64) {
    (0xc056_8000_0000_0000u64, 0x4056_8000_0000_0000u64)
}

/// The bit patterns of -180.0 and 180.0.
pub open spec fn longitude_bounds() -> (u64, u64) {
    (0xc066_8000_0000_0000u64, 0x4066_8000_0000_0000u64)
}

fn within(bits: u64, lo: u64, hi: u64) -> (r: bool)
    ensures
        r == double_within(bits, lo, hi),
{
    let a = compare_doubles(lo, bits);
    let b = compare_doubles(bits, hi);
    match (a, b) {
        (Some(o1), Some(o2)) => o1 != Order::Greater && o2 != Order::Greater,
        _ => false,
    }
}

impl GeoPoint {
    pub fn from_bits(latitude_bits: u64, longitude_bits: u64) -> (g: Self)
        ensures
            g.latitude_bits == latitude_bits,
            g.longitude_bits == longitude_bits,
    {
        GeoPoint { latitude_bits, longitude_bits }
    }

    /// A point whose latitude lies in [-90, 90] and longitude in [-180, 180];
    /// any other coordinates, NaN among them, are an invalid argument.
    pub fn new(latitude_bits: u64, longitude_bits: u64) -> (r: FirestoreResult<Self>)
        ensures
            r is Ok <==> (double_within(latitude_bits, latitude_bounds().0, latitude_bounds().1)
                && double_within(longitude_bits, longitude_bounds().0, longitude_bounds().1)),
            r matches Ok(g) ==> g.latitude_bits == latitude_bits && g.longitude_bits == longitude_bits,
            r matches Err(e) ==> e.code == FirestoreErrorCode::InvalidArgument,
    {
        if !within(latitude_bits, 0xc056_8000_0000_0000u64, 0x4056_8000_0000_0000u64) {
            return Err(invalid_argument("Latitude must be a number between -90 and 90"));
        }
        if !within(longitude_bits, 0xc066_8000_0000_0000u64, 0x4066_8000_0000_0000u64) {
            return Err(invalid_argument("Longitude must be a number between -180 and 180"));
        }
        Ok(GeoPoint { latitude_bits, longitude_bits })
    }
}

} // verus!
