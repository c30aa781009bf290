//! Integer keys for IEEE-754 binary64 bit patterns.
//!
//! A value is handed to the library as its raw bit pattern (a `u64`). Its key is
//! an `i64` whose natural order is the IEEE-754 `totalOrder` predicate on the
//! bit patterns: negative values (sign bit set) come first, ordered by
//! decreasing magnitude, then non-negative values ordered by increasing
//! magnitude. The key is a bijection, so a key can always be turned back into
//! the bit pattern it came from.

use vstd::prelude::*;

verus! {

/// The sign bit of a binary64 bit pattern.
pub const SIGN_BIT: u64 = 0x8000_0000_0000_0000;

/// Whether the sign bit of `bits` is set.
pub open spec fn is_negative_bits(bits: u64) -> bool {
    bits >= SIGN_BIT
}

/// The magnitude of `bits`: every bit but the sign bit.
pub open spec fn magnitude(bits: u64) -> int {
    if is_negative_bits(bits) {
        bits - SIGN_BIT
    } else {
        bits as int
    }
}

/// The key of a bit pattern: the magnitude for non-negative patterns, and
/// `-1 - magnitude` for negative ones.
pub open spec fn spec_order_key(bits: u64) -> int {
    if is_negative_bits(bits) {
        -1 - magnitude(bits)
    } else {
        magnitude(bits)
    }
}

/// The bit pattern of a key: the inverse of [`spec_order_key`].
pub open spec fn spec_key_bits(key: i64) -> u64 {
    if key >= 0 {
        key as u64
    } else {
        (SIGN_BIT + (-1 - key)) as u64
    }
}

/// The IEEE-754 `totalOrder` predicate on two bit patterns, strict form:
/// `a` comes before `b`.
pub open spec fn total_order_lt(a: u64, b: u64) -> bool {
    if is_negative_bits(a) && !is_negative_bits(b) {
        true
    } else if !is_negative_bits(a) && is_negative_bits(b) {
        false
    } else if is_negative_bits(a) {
        magnitude(a) > magnitude(b)
    } else {
        magnitude(a) < magnitude(b)
    }
}

/// The integer key of a binary64 bit pattern.
pub fn order_key(bits: u64) -> (key: i64)
    ensures
        key == spec_order_key(bits),
{
    if bits >= SIGN_BIT {
        let m: u64 = bits - SIGN_BIT;
        -1 - (m as i64)
    } else {
        bits as i64
    }
}

/// The bit pattern whose key is `key`.
pub fn key_bits(key: i64) -> (bits: u64)
    ensures
        bits == spec_key_bits(key),
        spec_order_key(bits) == key,
{
    if key >= 0 {
        key as u64
    } else {
        let m: i64 = -1 - key;
        SIGN_BIT + (m as u64)
    }
}

/// Comparing keys is comparing bit patterns by the IEEE-754 total order.
pub proof fn order_key_is_total_order(a: u64, b: u64)
    ensures
        spec_order_key(a) < spec_order_key(b) <==> total_order_lt(a, b),
        spec_order_key(a) == spec_order_key(b) <==> a == b,
{
}

/// Turning a bit pattern into its key and back gives the same bit pattern,
/// and every key lies in the range of `i64`.
pub proof fn order_key_round_trip(bits: u64)
    ensures
        i64::MIN <= spec_order_key(bits) <= i64::MAX,
        forall|other: u64| spec_order_key(other) == spec_order_key(bits) ==> other == bits,
        spec_key_bits(spec_order_key(bits) as i64) == bits,
{
}

} // verus!
