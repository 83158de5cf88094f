//! Elevation angles, carried as ranks.
//!
//! The detector only ever compares elevations, so an elevation is carried as a
//! rank: an integer that orders exactly as the angles do. Any strictly
//! increasing map from angles to integers will serve; the one provided here
//! takes the bit pattern of the angle in degrees.

use vstd::prelude::*;
use crate::numbers::bits_of_rank;
use crate::numbers::is_number;
use crate::numbers::number_at_least;
use crate::numbers::rank_of_bits;
use crate::numbers::rank_of_number;
use crate::numbers::INFINITY_BITS;
use crate::numbers::SIGN_BIT;

verus! {

/// An elevation angle above the local horizon, as a rank.
#[derive(Clone, Copy, Debug, PartialEq, Eq, Structural)]
pub struct Elevation {
    pub rank: i64,
}

/// The rank below the rank of every number.
pub const RANK_BELOW_ALL: i64 = i64::MIN;

/// The rank above the rank of every number.
pub const RANK_ABOVE_ALL: i64 = i64::MAX;

/// The rank of a reading: that of its number; a reading that is not a number
/// ranks below every threshold.
pub open spec fn reading_rank(bits: u64) -> int {
    if is_number(bits) {
        rank_of_bits(bits)
    } else {
        RANK_BELOW_ALL as int
    }
}

/// The rank of a threshold: that of its number; a threshold that is not a
/// number ranks above every reading.
pub open spec fn threshold_rank(bits: u64) -> int {
    if is_number(bits) {
        rank_of_bits(bits)
    } else {
        RANK_ABOVE_ALL as int
    }
}

impl Elevation {
    /// The rank is that of a number.
    pub open spec fn is_number(self) -> bool {
        -(INFINITY_BITS as int) <= self.rank <= INFINITY_BITS
    }

    /// The elevation of a reading given by its bit pattern.
    pub fn of_reading(bits: u64) -> (elevation: Elevation)
        ensures
            elevation.rank == reading_rank(bits),
    {
        match rank_of_number(bits) {
            Some(rank) => Elevation { rank },
            None => Elevation { rank: RANK_BELOW_ALL },
        }
    }

    /// The elevation of a threshold given by its bit pattern.
    pub fn of_threshold(bits: u64) -> (elevation: Elevation)
        ensures
            elevation.rank == threshold_rank(bits),
    {
        match rank_of_number(bits) {
            Some(rank) => Elevation { rank },
            None => Elevation { rank: RANK_ABOVE_ALL },
        }
    }

    /// The bit pattern of the elevation, or `None` when its rank is that of no number.
    pub fn to_bits(&self) -> (bits: Option<u64>)
        ensures
            self.is_number() ==> bits == Some(bits_of_rank(self.rank as int)),
            !self.is_number() ==> bits.is_none(),
    {
        if self.rank >= 0 {
            if self.rank as u64 <= INFINITY_BITS {
                Some(self.rank as u64)
            } else {
                None
            }
        } else if self.rank >= -(INFINITY_BITS as i64) {
            Some(SIGN_BIT + ((-self.rank) as u64))
        } else {
            None
        }
    }
}

/// A reading reaches a threshold exactly when both are numbers and the number
/// read is at least the threshold.
pub proof fn lemma_reading_reaches_threshold(reading: u64, threshold: u64)
    ensures
        reading_rank(reading) >= threshold_rank(threshold) <==> is_number(reading) && is_number(
            threshold,
        ) && number_at_least(reading, threshold),
{
}

} // verus!
