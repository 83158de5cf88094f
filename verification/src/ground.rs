//! Ground locations: geodetic latitude and longitude in degrees, at altitude zero.
//!
//! The coordinates are 64-bit binary floating-point numbers and are taken by
//! their bit patterns, as the elevations are.

use vstd::prelude::*;
use crate::numbers::is_number;
use crate::numbers::number_at_least;
use crate::numbers::rank_of_bits;
use crate::numbers::rank_of_number;

verus! {

/// The bit pattern of 90, the greatest latitude.
pub const NINETY_BITS: u64 = 0x4056_8000_0000_0000;

/// The bit pattern of -90, the least latitude.
pub const MINUS_NINETY_BITS: u64 = 0xC056_8000_0000_0000;

/// The bit pattern of 180, the greatest longitude.
pub const ONE_EIGHTY_BITS: u64 = 0x4066_8000_0000_0000;

/// The bit pattern of -180, the least longitude.
pub const MINUS_ONE_EIGHTY_BITS: u64 = 0xC066_8000_0000_0000;

/// A ground location, by the bit patterns of its latitude and longitude.
#[derive(Clone, Copy, Debug, PartialEq, Eq, Structural)]
pub struct GroundLocation {
    pub lat_bits: u64,
    pub lon_bits: u64,
}

/// The pattern stands for a number from `low` to `high`, both included.
pub open spec fn number_within(bits: u64, low: u64, high: u64) -> bool {
    is_number(bits) && number_at_least(bits, low) && number_at_least(high, bits)
}

impl GroundLocation {
    /// The latitude lies within [-90, 90] and the longitude within [-180, 180].
    pub open spec fn in_range(self) -> bool {
        &&& number_within(self.lat_bits, MINUS_NINETY_BITS, NINETY_BITS)
        &&& number_within(self.lon_bits, MINUS_ONE_EIGHTY_BITS, ONE_EIGHTY_BITS)
    }

    /// Builds a ground location; `None` when a coordinate is out of range or
    /// is not a number.
    pub fn new(lat_bits: u64, lon_bits: u64) -> (r: Option<GroundLocation>)
        ensures
            (GroundLocation { lat_bits, lon_bits }).in_range() ==> r == Some(
                GroundLocation { lat_bits, lon_bits },
            ),
            !(GroundLocation { lat_bits, lon_bits }).in_range() ==> r.is_none(),
    {
        if is_within(lat_bits, MINUS_NINETY_BITS, NINETY_BITS) && is_within(
            lon_bits,
            MINUS_ONE_EIGHTY_BITS,
            ONE_EIGHTY_BITS,
        ) {
            Some(GroundLocation { lat_bits, lon_bits })
        } else {
            None
        }
    }
}

/// Tells whether `bits` stands for a number from `low` to `high`, both included.
pub fn is_within(bits: u64, low: u64, high: u64) -> (r: bool)
    requires
        is_number(low),
        is_number(high),
    ensures
        r == number_within(bits, low, high),
{
    match (rank_of_number(bits), rank_of_number(low), rank_of_number(high)) {
        (Some(rank), Some(least), Some(greatest)) => {
            proof {
                crate::numbers::lemma_rank_orders_numbers(bits, low);
                crate::numbers::lemma_rank_orders_numbers(high, bits);
            }
            least <= rank && rank <= greatest
        },
        _ => false,
    }
}

/// The ranks of the bounds, for reference: a latitude is in range exactly when
/// its rank lies between those of -90 and 90, a longitude between those of
/// -180 and 180.
pub proof fn lemma_range_by_rank(location: GroundLocation)
    ensures
        location.in_range() <==> {
            &&& is_number(location.lat_bits)
            &&& is_number(location.lon_bits)
            &&& -0x4056_8000_0000_0000 <= rank_of_bits(location.lat_bits) <= 0x4056_8000_0000_0000
            &&& -0x4066_8000_0000_0000 <= rank_of_bits(location.lon_bits) <= 0x4066_8000_0000_0000
        },
{
}

} // verus!
