//! Wrapping (modular) 64-bit indices, used for both page indices and
//! message indices.
//!
//! Total historical page and message counts are unbounded over the
//! system's lifetime, so positions are tracked with a fixed-width counter
//! whose arithmetic wraps modulo `2^64`. The live window of a queue is
//! always far smaller than the index space, so the forward distance
//! between two live indices is meaningful; no code compares raw
//! magnitudes of wrapping indices.
//!
//! Page indices and message indices are kept in distinct domains (the
//! `D` type parameter) so that the two kinds can never be mixed.

use core::marker::PhantomData;
use vstd::prelude::*;

verus! {

/// The wrapped sum `(a + n) mod 2^64`.
pub open spec fn wrap_add(a: u64, n: u64) -> u64 {
    if a + n > u64::MAX {
        (a + n - 0x1_0000_0000_0000_0000) as u64
    } else {
        (a + n) as u64
    }
}

/// The wrapped difference `(a - n) mod 2^64`.
pub open spec fn wrap_sub(a: u64, n: u64) -> u64 {
    if a - n < 0 {
        (a - n + 0x1_0000_0000_0000_0000) as u64
    } else {
        (a - n) as u64
    }
}

/// The number of forward increments that lead from `from` to `to`
/// in the wrapping index space.
pub open spec fn wrap_dist(from: u64, to: u64) -> u64 {
    wrap_sub(to, from)
}

/// `base` advanced by a mathematical offset `i`, with `0 <= i < 2^64`,
/// wrapping modulo `2^64`.
pub open spec fn wrap_offset(base: u64, i: int) -> u64
    recommends
        0 <= i < 0x1_0000_0000_0000_0000,
{
    if base + i > u64::MAX {
        (base + i - 0x1_0000_0000_0000_0000) as u64
    } else {
        (base + i) as u64
    }
}

/// Advancing by a `u64` count agrees with advancing by the same
/// mathematical offset.
pub proof fn lemma_wrap_add_is_offset(a: u64, n: u64)
    ensures
        wrap_add(a, n) == wrap_offset(a, n as int),
{
}

/// Advancing a point by the full distance to another point lands exactly
/// on the other point.
pub proof fn lemma_add_dist(a: u64, b: u64)
    ensures
        wrap_add(a, wrap_dist(a, b)) == b,
{
}

/// Two points coincide exactly when the distance between them is zero.
pub proof fn lemma_dist_zero(a: u64, b: u64)
    ensures
        wrap_dist(a, b) == 0 <==> a == b,
{
}

/// Consecutive offsets from one base are consecutive points.
pub proof fn lemma_offset_step(base: u64, i: int)
    requires
        0 <= i < 0xffff_ffff_ffff_ffff,
    ensures
        wrap_offset(base, i + 1) == wrap_add(wrap_offset(base, i), 1),
{
}

/// Offsetting from an already-offset base composes additively.
pub proof fn lemma_offset_offset(base: u64, i: int, j: int)
    requires
        0 <= i,
        0 <= j,
        i + j < 0x1_0000_0000_0000_0000,
    ensures
        wrap_offset(wrap_offset(base, i), j) == wrap_offset(base, i + j),
{
}

/// The distance from a point to that point advanced by an offset is the
/// offset itself.
pub proof fn lemma_dist_after_offset(a: u64, i: int)
    requires
        0 <= i < 0x1_0000_0000_0000_0000,
    ensures
        wrap_dist(a, wrap_offset(a, i)) == i,
{
}

/// Distinct offsets from one base land on distinct points.
pub proof fn lemma_offset_injective(a: u64, i: int, j: int)
    requires
        0 <= i < 0x1_0000_0000_0000_0000,
        0 <= j < 0x1_0000_0000_0000_0000,
        i != j,
    ensures
        wrap_offset(a, i) != wrap_offset(a, j),
{
    lemma_dist_after_offset(a, i);
    lemma_dist_after_offset(a, j);
}

/// Advancing the far end of a range by one grows the distance by one, as
/// long as the range has not covered the whole space.
pub proof fn lemma_dist_extend(a: u64, b: u64)
    requires
        wrap_dist(a, b) < u64::MAX,
    ensures
        wrap_dist(a, wrap_add(b, 1)) == wrap_dist(a, b) + 1,
{
}

/// Moving the near end of a range forward shortens the distance by the
/// amount moved, as long as it does not pass the far end; past the far
/// end, the distance wraps around the whole space.
pub proof fn lemma_dist_shift(a: u64, b: u64, k: int)
    requires
        0 <= k < 0x1_0000_0000_0000_0000,
    ensures
        k <= wrap_dist(a, b) ==> wrap_dist(wrap_offset(a, k), b) == wrap_dist(a, b) - k,
        k > wrap_dist(a, b) ==> wrap_dist(wrap_offset(a, k), b) == wrap_dist(a, b)
            + 0x1_0000_0000_0000_0000 - k,
{
}

/// Marker for the page-index domain.
#[derive(Clone, Copy, PartialEq, Eq, Debug)]
pub struct PageIndex;

/// Marker for the message-index domain.
#[derive(Clone, Copy, PartialEq, Eq, Debug)]
pub struct MessageIndex;

/// A monotonic counter over the wrapping 64-bit index space, tagged with
/// the domain `D` it counts in.
#[derive(Copy, PartialEq, Eq, Debug)]
pub struct WrappingIndex<D> {
    /// The raw position in the wrapping index space.
    pub value: u64,
    pub domain: PhantomData<D>,
}

impl<D> Clone for WrappingIndex<D> {
    fn clone(&self) -> (r: Self)
        ensures
            r.value == self.value,
    {
        WrappingIndex { value: self.value, domain: PhantomData }
    }
}

impl<D> WrappingIndex<D> {
    /// Wraps a raw position.
    pub fn new(value: u64) -> (r: Self)
        ensures
            r.value == value,
    {
        WrappingIndex { value, domain: PhantomData }
    }

    /// The next position, wrapping at the end of the index space.
    pub fn wrapping_inc(self) -> (r: Self)
        ensures
            r.value == wrap_add(self.value, 1),
    {
        WrappingIndex { value: self.value.wrapping_add(1), domain: PhantomData }
    }

    /// The previous position, wrapping at the start of the index space.
    pub fn wrapping_dec(self) -> (r: Self)
        ensures
            r.value == wrap_sub(self.value, 1),
    {
        WrappingIndex { value: self.value.wrapping_sub(1), domain: PhantomData }
    }

    /// This position advanced by `other` steps, wrapping.
    pub fn wrapping_add(self, other: Self) -> (r: Self)
        ensures
            r.value == wrap_add(self.value, other.value),
    {
        WrappingIndex { value: self.value.wrapping_add(other.value), domain: PhantomData }
    }

    /// This position moved back by `other` steps, wrapping. Equivalently,
    /// the forward distance from `other` to `self`.
    pub fn wrapping_sub(self, other: Self) -> (r: Self)
        ensures
            r.value == wrap_sub(self.value, other.value),
    {
        WrappingIndex { value: self.value.wrapping_sub(other.value), domain: PhantomData }
    }
}

impl<D> core::convert::From<u64> for WrappingIndex<D> {
    fn from(value: u64) -> (r: Self) {
        WrappingIndex { value, domain: PhantomData }
    }
}

impl<D> vstd::std_specs::convert::FromSpecImpl<u64> for WrappingIndex<D> {
    open spec fn obeys_from_spec() -> bool {
        true
    }

    open spec fn from_spec(value: u64) -> Self {
        WrappingIndex { value, domain: PhantomData }
    }
}

} // verus!
