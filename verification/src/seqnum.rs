//! Modular 32-bit TCP sequence-number arithmetic.
//!
//! Sequence numbers live in a circular space of size 2^32; every comparison
//! is a statement about distances travelled forward around that circle.
use vstd::prelude::*;

verus! {

/// Distance travelled forward from `from` to reach `to` on the circle.
pub open spec fn seq_sub(to: u32, from: u32) -> int {
    if to >= from {
        to - from
    } else {
        to - from + 0x1_0000_0000
    }
}

/// `base` advanced by `n` positions, wrapping around the circle.
pub open spec fn seq_add(base: u32, n: nat) -> u32 {
    (((base + n) % 0x1_0000_0000) as u32)
}

/// `b` lies in the circular half-open interval `[a, c)`.
pub open spec fn seq_between(a: u32, b: u32, c: u32) -> bool {
    if a <= c {
        a <= b && b < c
    } else {
        b < c || a <= b
    }
}

/// `a` is strictly older than `b`: `b` is less than half the space ahead of `a`.
pub open spec fn seq_lt(a: u32, b: u32) -> bool {
    a != b && seq_sub(b, a) < 0x8000_0000
}

/// `a` is no newer than `b`.
pub open spec fn seq_le(a: u32, b: u32) -> bool {
    a == b || seq_lt(a, b)
}

/// Law: for all sequence numbers, the circular-interval test agrees with the
/// unsigned-difference test used for window checks, including across the wrap
/// boundary (for example an interval that starts at 0xFFFFFFF0 and ends at
/// 0x00000010 contains both 0xFFFFFFFF and 0x00000005).
pub proof fn lemma_between_is_difference(a: u32, b: u32, c: u32)
    ensures
        seq_between(a, b, c) <==> seq_sub(b, a) < seq_sub(c, a),
{
}

/// Advance a sequence number, wrapping modulo 2^32.
pub fn wrap_add(base: u32, n: u32) -> (r: u32)
    ensures
        r == seq_add(base, n as nat),
{
    base.wrapping_add(n)
}

/// The unsigned forward distance from `from` to `to`.
pub fn wrap_sub(to: u32, from: u32) -> (r: u32)
    ensures
        r == seq_sub(to, from),
{
    to.wrapping_sub(from)
}

/// Does `b` lie in the circular half-open interval `[a, c)`?
pub fn is_between_wrapped(a: u32, b: u32, c: u32) -> (r: bool)
    ensures
        r == seq_between(a, b, c),
{
    proof {
        lemma_between_is_difference(a, b, c);
    }
    b.wrapping_sub(a) < c.wrapping_sub(a)
}

} // verus!
