//! Numbers are double-precision values, held as their IEEE 754 bit
//! patterns. Order, equality and negation are read off the bits here; sums,
//! products and the like are asked of the host.

use vstd::prelude::*;

verus! {

/// The weight of the sign bit.
pub const SIGN: u64 = 0x8000_0000_0000_0000;

/// The bit pattern of positive infinity; every larger magnitude is no number.
pub const INFINITY: u64 = 0x7FF0_0000_0000_0000;

/// The bits without the sign.
pub open spec fn magnitude(bits: u64) -> int {
    if bits >= SIGN {
        bits - SIGN
    } else {
        bits as int
    }
}

/// Whether the sign bit is set.
pub open spec fn is_negative(bits: u64) -> bool {
    bits >= SIGN
}

/// Whether the bits stand for no number (NaN).
pub open spec fn is_nan(bits: u64) -> bool {
    magnitude(bits) > INFINITY
}

/// An integer that orders the bit patterns as their values are ordered:
/// the magnitude, negated under a sign. Both zeros have rank zero.
pub open spec fn rank(bits: u64) -> int {
    if is_negative(bits) {
        -magnitude(bits)
    } else {
        magnitude(bits)
    }
}

/// `a < b` on doubles: false where either is no number.
pub open spec fn less_spec(a: u64, b: u64) -> bool {
    !is_nan(a) && !is_nan(b) && rank(a) < rank(b)
}

/// `a == b` on doubles: false where either is no number; the two zeros are
/// equal.
pub open spec fn equal_spec(a: u64, b: u64) -> bool {
    !is_nan(a) && !is_nan(b) && rank(a) == rank(b)
}

/// `a <= b` on doubles.
pub open spec fn less_equal_spec(a: u64, b: u64) -> bool {
    less_spec(a, b) || equal_spec(a, b)
}

/// `-a` on doubles: the sign bit is turned over.
pub open spec fn negate_spec(bits: u64) -> u64 {
    if bits >= SIGN {
        (bits - SIGN) as u64
    } else {
        (bits + SIGN) as u64
    }
}

/// The bits without the sign.
fn magnitude_of(bits: u64) -> (m: u64)
    ensures
        m == magnitude(bits),
{
    if bits >= SIGN {
        bits - SIGN
    } else {
        bits
    }
}

/// Whether the bits stand for no number.
pub fn nan(bits: u64) -> (b: bool)
    ensures
        b == is_nan(bits),
{
    magnitude_of(bits) > INFINITY
}

/// Whether `a < b` as doubles.
pub fn less(a: u64, b: u64) -> (r: bool)
    ensures
        r == less_spec(a, b),
{
    if nan(a) || nan(b) {
        return false;
    }
    let ma = magnitude_of(a);
    let mb = magnitude_of(b);
    if a >= SIGN {
        if b >= SIGN {
            mb < ma
        } else {
            ma > 0 || mb > 0
        }
    } else {
        if b >= SIGN {
            false
        } else {
            ma < mb
        }
    }
}

/// Whether `a == b` as doubles.
pub fn equal(a: u64, b: u64) -> (r: bool)
    ensures
        r == equal_spec(a, b),
{
    if nan(a) || nan(b) {
        return false;
    }
    let ma = magnitude_of(a);
    let mb = magnitude_of(b);
    a == b || (ma == 0 && mb == 0)
}

/// Whether `a <= b` as doubles.
pub fn less_equal(a: u64, b: u64) -> (r: bool)
    ensures
        r == less_equal_spec(a, b),
{
    less(a, b) || equal(a, b)
}

/// `-a` as a double.
pub fn negate(bits: u64) -> (r: u64)
    ensures
        r == negate_spec(bits),
{
    if bits >= SIGN {
        bits - SIGN
    } else {
        bits + SIGN
    }
}

/// Negating twice gives the number back, bit for bit.
pub proof fn lemma_negate_twice(bits: u64)
    ensures
        negate_spec(negate_spec(bits)) == bits,
{
}

/// Negation turns the order around: `-a < -b` exactly when `b < a`.
pub proof fn lemma_negate_reverses(a: u64, b: u64)
    ensures
        less_spec(negate_spec(a), negate_spec(b)) == less_spec(b, a),
{
}

/// Of two numbers exactly one holds: `a < b`, `a == b`, `b < a`. Where one
/// of them is no number, none holds.
pub proof fn lemma_order_total(a: u64, b: u64)
    ensures
        !is_nan(a) && !is_nan(b) ==> (less_spec(a, b) || equal_spec(a, b) || less_spec(b, a)),
        !(less_spec(a, b) && equal_spec(a, b)),
        !(less_spec(a, b) && less_spec(b, a)),
        is_nan(a) || is_nan(b) ==> !less_spec(a, b) && !equal_spec(a, b) && !less_spec(b, a),
{
}

/// The order is transitive.
pub proof fn lemma_less_transitive(a: u64, b: u64, c: u64)
    requires
        less_spec(a, b),
        less_spec(b, c),
    ensures
        less_spec(a, c),
{
}

} // verus!
