//! Arithmetic on 16-bit sequence numbers that wrap around.
//!
//! Packet and message indices are `u16` values that restart at zero after
//! 65535. Two indices are compared by their signed distance modulo 2^16.

use vstd::prelude::*;

verus! {

/// The signed distance from `a` to `b` modulo 2^16, in `-32768 ..= 32767`.
///
/// It is positive when `b` is ahead of `a` by less than half of the index
/// space, and negative when `b` lies behind `a`.
pub open spec fn spec_wrapping_diff(a: u16, b: u16) -> int {
    let d = (b as int - a as int) % 65536;
    if d >= 32768 {
        d - 65536
    } else {
        d
    }
}

/// Whether `s1` is newer than `s2`.
pub open spec fn spec_sequence_greater_than(s1: u16, s2: u16) -> bool {
    spec_wrapping_diff(s2, s1) > 0
}

/// Whether `s1` is older than `s2`.
pub open spec fn spec_sequence_less_than(s1: u16, s2: u16) -> bool {
    spec_wrapping_diff(s2, s1) < 0
}

/// The signed distance from `a` to `b`, taking wrap-around into account.
pub fn wrapping_diff(a: u16, b: u16) -> (d: i16)
    ensures
        d == spec_wrapping_diff(a, b),
{
    if b >= a {
        let forward: u16 = b - a;
        if forward >= 32768 {
            let back: u16 = 65535 - forward;
            -1 - (back as i16)
        } else {
            forward as i16
        }
    } else {
        let backward: u16 = a - b;
        if backward > 32768 {
            let ahead: u16 = 65535 - backward;
            (ahead as i16) + 1
        } else {
            let near: i32 = -(backward as i32);
            near as i16
        }
    }
}

/// Whether `s1` is newer than `s2`, taking wrap-around into account.
pub fn sequence_greater_than(s1: u16, s2: u16) -> (newer: bool)
    ensures
        newer == spec_sequence_greater_than(s1, s2),
{
    wrapping_diff(s2, s1) > 0
}

/// Whether `s1` is older than `s2`, taking wrap-around into account.
pub fn sequence_less_than(s1: u16, s2: u16) -> (older: bool)
    ensures
        older == spec_sequence_less_than(s1, s2),
{
    wrapping_diff(s2, s1) < 0
}

/// Moving forward by the distance between two indices reaches the second.
pub proof fn lemma_diff_then_add(a: u16, b: u16)
    ensures
        (a as int + spec_wrapping_diff(a, b)) % 65536 == b as int,
{
}

/// An index is at distance zero from itself, and from no other index.
pub proof fn lemma_diff_zero(a: u16, b: u16)
    ensures
        spec_wrapping_diff(a, b) == 0 <==> a == b,
{
}

} // verus!
