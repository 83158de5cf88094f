//! Numbers by their bit patterns.
//!
//! Angles reach this crate as 64-bit binary floating-point numbers. Nothing
//! here computes with them: they are compared, and for that the bit pattern
//! of a number is enough. A pattern is a sign bit and, below it, a magnitude
//! that grows with the absolute value of the number; magnitudes above that of
//! infinity stand for no number. The rank of a number is its magnitude,
//! negated under a minus sign: an integer that orders exactly as the numbers do.

use vstd::prelude::*;

verus! {

/// The bit that holds the sign of a number.
pub const SIGN_BIT: u64 = 0x8000_0000_0000_0000;

/// The magnitude of infinity, the greatest a number has; above it a pattern is
/// not a number.
pub const INFINITY_BITS: u64 = 0x7FF0_0000_0000_0000;

/// The pattern carries a minus sign.
pub open spec fn is_negative(bits: u64) -> bool {
    bits >= SIGN_BIT
}

/// The pattern without its sign.
pub open spec fn magnitude(bits: u64) -> int {
    if bits >= SIGN_BIT {
        bits - SIGN_BIT
    } else {
        bits as int
    }
}

/// The pattern stands for a number, infinite or finite.
pub open spec fn is_number(bits: u64) -> bool {
    magnitude(bits) <= INFINITY_BITS
}

/// The number of pattern `a` is at least the number of pattern `b`, as
/// floating-point numbers compare: by magnitude among the non-negative, by
/// magnitude reversed among the negative, any non-negative number at least any
/// negative one, and the two zeros equal.
pub open spec fn number_at_least(a: u64, b: u64) -> bool
    recommends
        is_number(a),
        is_number(b),
{
    if magnitude(a) == 0 && magnitude(b) == 0 {
        true
    } else if is_negative(a) {
        is_negative(b) && magnitude(a) <= magnitude(b)
    } else {
        is_negative(b) || magnitude(a) >= magnitude(b)
    }
}

/// The rank of a number: its magnitude, negated under a minus sign.
pub open spec fn rank_of_bits(bits: u64) -> int {
    if is_negative(bits) {
        -magnitude(bits)
    } else {
        magnitude(bits)
    }
}

/// The pattern of the number with the given rank; both zeros have rank zero,
/// and the pattern given for it is that of the positive one.
pub open spec fn bits_of_rank(rank: int) -> u64
    recommends
        -(INFINITY_BITS as int) <= rank <= INFINITY_BITS,
{
    if rank >= 0 {
        rank as u64
    } else {
        (SIGN_BIT + (-rank)) as u64
    }
}

/// The rank of the number that `bits` stands for, or `None` when it stands for none.
pub fn rank_of_number(bits: u64) -> (rank: Option<i64>)
    ensures
        is_number(bits) ==> rank == Some(rank_of_bits(bits) as i64),
        is_number(bits) ==> -(INFINITY_BITS as int) <= rank_of_bits(bits) <= INFINITY_BITS,
        !is_number(bits) ==> rank.is_none(),
{
    if bits >= SIGN_BIT {
        let size: u64 = bits - SIGN_BIT;
        if size <= INFINITY_BITS {
            Some(-(size as i64))
        } else {
            None
        }
    } else if bits <= INFINITY_BITS {
        Some(bits as i64)
    } else {
        None
    }
}

/// Ranks order as numbers do: of two numbers, one is at least the other
/// exactly when its rank is.
pub proof fn lemma_rank_orders_numbers(a: u64, b: u64)
    requires
        is_number(a),
        is_number(b),
    ensures
        number_at_least(a, b) <==> rank_of_bits(a) >= rank_of_bits(b),
{
}

/// The pattern of a number is found again from its rank; of the two zeros,
/// the positive one.
pub proof fn lemma_bits_found_again(bits: u64)
    requires
        is_number(bits),
    ensures
        bits_of_rank(rank_of_bits(bits)) == if bits == SIGN_BIT {
            0u64
        } else {
            bits
        },
        rank_of_bits(bits_of_rank(rank_of_bits(bits))) == rank_of_bits(bits),
{
}

} // verus!
