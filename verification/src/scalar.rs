//! Ordering and classification of IEEE-754 double-precision encodings.
//!
//! A scalar is the 64-bit encoding of a double-precision value (sign bit,
//! 11-bit biased exponent, 52-bit fraction). All predicates below are stated
//! with plain integer arithmetic on the encoding, which keeps them inside the
//! solver's linear fragment: the sign bit is set exactly when the encoding is
//! at least `SIGN_BIT`, and masking it off is a subtraction.

use vstd::prelude::*;

verus! {

/// The sign bit of an encoding.
pub const SIGN_BIT: u64 = 0x8000_0000_0000_0000;

/// Encoding of positive infinity; also the magnitude mask of the exponent
/// field. A magnitude above this value is a NaN.
pub const POS_INF: u64 = 0x7FF0_0000_0000_0000;

/// Encoding of negative infinity.
pub const NEG_INF: u64 = 0xFFF0_0000_0000_0000;

/// The magnitude of an encoding: the encoding with its sign bit cleared.
pub open spec fn abs_bits(x: u64) -> u64 {
    if x >= SIGN_BIT {
        (x - SIGN_BIT) as u64
    } else {
        x
    }
}

/// The encoding denotes a NaN.
pub open spec fn is_nan_bits(x: u64) -> bool {
    abs_bits(x) > POS_INF
}

/// The encoding denotes a zero (either sign).
pub open spec fn is_zero_bits(x: u64) -> bool {
    abs_bits(x) == 0
}

/// A strictly monotone image of the IEEE total order on encodings: negative
/// values are reflected below the positives, so unsigned comparison of keys
/// agrees with `f64::total_cmp` of the denoted values (negative NaNs lowest,
/// then -inf up through -0, +0 up through +inf, positive NaNs highest).
pub open spec fn sort_key(x: u64) -> u64 {
    if x >= SIGN_BIT {
        (u64::MAX - x) as u64
    } else {
        (x + SIGN_BIT) as u64
    }
}

/// The IEEE `<=` relation on encodings: false whenever either side is NaN,
/// true for a pair of zeros of any signs, and otherwise the total order.
pub open spec fn spec_le(x: u64, y: u64) -> bool {
    &&& !is_nan_bits(x)
    &&& !is_nan_bits(y)
    &&& (sort_key(x) <= sort_key(y) || (is_zero_bits(x) && is_zero_bits(y)))
}

/// The IEEE `<` relation on encodings: false whenever either side is NaN or
/// the two denote equal values (zeros of any signs included).
pub open spec fn spec_lt(x: u64, y: u64) -> bool {
    &&& !is_nan_bits(x)
    &&& !is_nan_bits(y)
    &&& sort_key(x) < sort_key(y)
    &&& !(is_zero_bits(x) && is_zero_bits(y))
}

/// The encoding lies in the closed interval `[lo, hi]` under IEEE order.
pub open spec fn in_interval(lo: u64, hi: u64, x: u64) -> bool {
    spec_le(lo, x) && spec_le(x, hi)
}

/// Competitive rank of an objective value: smaller is better. For a
/// minimized objective the rank follows the total order; for a maximized one
/// it follows the reversed total order; NaN ranks strictly worst either way,
/// so a failed evaluation always loses a comparison against a number.
pub open spec fn spec_rank(x: u64, minimize: bool) -> u64 {
    if is_nan_bits(x) {
        u64::MAX
    } else if minimize {
        sort_key(x)
    } else {
        (u64::MAX - sort_key(x)) as u64
    }
}

/// A NaN never ranks as well as any non-NaN value.
pub proof fn lemma_rank_nan_worst(x: u64, minimize: bool)
    requires
        !is_nan_bits(x),
    ensures
        spec_rank(x, minimize) < u64::MAX,
{
}

/// Rank order refines IEEE order: among non-NaN values, a better or equal
/// rank means a smaller or equal value when minimizing, and a greater or
/// equal value when maximizing.
pub proof fn lemma_rank_orders(x: u64, y: u64, minimize: bool)
    requires
        !is_nan_bits(x),
        !is_nan_bits(y),
        spec_rank(x, minimize) <= spec_rank(y, minimize),
    ensures
        minimize ==> spec_le(x, y),
        !minimize ==> spec_le(y, x),
{
}

/// Whether the encoding denotes a NaN.
pub fn is_nan_b(x: u64) -> (r: bool)
    ensures
        r == is_nan_bits(x),
{
    let mag: u64 = if x >= SIGN_BIT {
        x - SIGN_BIT
    } else {
        x
    };
    mag > POS_INF
}

/// The competitive rank of an objective value (smaller ranks are better).
pub fn rank_of(x: u64, minimize: bool) -> (r: u64)
    ensures
        r == spec_rank(x, minimize),
{
    let mag: u64 = if x >= SIGN_BIT {
        x - SIGN_BIT
    } else {
        x
    };
    if mag > POS_INF {
        u64::MAX
    } else {
        let key: u64 = if x >= SIGN_BIT {
            u64::MAX - x
        } else {
            x + SIGN_BIT
        };
        if minimize {
            key
        } else {
            u64::MAX - key
        }
    }
}

/// The IEEE `<=` test on encodings.
pub fn le_b(x: u64, y: u64) -> (r: bool)
    ensures
        r == spec_le(x, y),
{
    let mx: u64 = if x >= SIGN_BIT {
        x - SIGN_BIT
    } else {
        x
    };
    let my: u64 = if y >= SIGN_BIT {
        y - SIGN_BIT
    } else {
        y
    };
    if mx > POS_INF || my > POS_INF {
        false
    } else if mx == 0 && my == 0 {
        true
    } else {
        let kx: u64 = if x >= SIGN_BIT {
            u64::MAX - x
        } else {
            x + SIGN_BIT
        };
        let ky: u64 = if y >= SIGN_BIT {
            u64::MAX - y
        } else {
            y + SIGN_BIT
        };
        kx <= ky
    }
}

/// The IEEE `<` test on encodings.
pub fn lt_b(x: u64, y: u64) -> (r: bool)
    ensures
        r == spec_lt(x, y),
{
    let mx: u64 = if x >= SIGN_BIT {
        x - SIGN_BIT
    } else {
        x
    };
    let my: u64 = if y >= SIGN_BIT {
        y - SIGN_BIT
    } else {
        y
    };
    if mx > POS_INF || my > POS_INF {
        false
    } else if mx == 0 && my == 0 {
        false
    } else {
        let kx: u64 = if x >= SIGN_BIT {
            u64::MAX - x
        } else {
            x + SIGN_BIT
        };
        let ky: u64 = if y >= SIGN_BIT {
            u64::MAX - y
        } else {
            y + SIGN_BIT
        };
        kx < ky
    }
}

/// The clamp of `x` into `[lo, hi]`: values not at or above `lo` under IEEE
/// order (NaNs included) become `lo`, values not at or below `hi` become
/// `hi`, values inside pass through.
pub open spec fn spec_clamp(lo: u64, hi: u64, x: u64) -> u64 {
    if !spec_le(lo, x) {
        lo
    } else if !spec_le(x, hi) {
        hi
    } else {
        x
    }
}

/// Clamps an encoding into `[lo, hi]`: values below the interval (and NaNs)
/// become `lo`, values above it become `hi`, and values already inside pass
/// through unchanged.
pub fn clamp_b(lo: u64, hi: u64, x: u64) -> (r: u64)
    requires
        spec_le(lo, hi),
    ensures
        r == spec_clamp(lo, hi, x),
        in_interval(lo, hi, r),
        in_interval(lo, hi, x) ==> r == x,
{
    if !le_b(lo, x) {
        lo
    } else if !le_b(x, hi) {
        hi
    } else {
        x
    }
}

} // verus!
