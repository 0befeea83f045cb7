//! Closed byte ranges of a file, the addressing unit of every region.

use vstd::prelude::*;

verus! {

/// A closed range `[start, end]` of absolute byte offsets.
pub type ByteInterval = (u64, u64);

/// The range is not empty: its first byte does not lie behind its last.
pub open spec fn interval_valid(i: ByteInterval) -> bool {
    i.0 <= i.1
}

/// The number of bytes that the range covers.
pub open spec fn interval_len(i: ByteInterval) -> int {
    i.1 - i.0 + 1
}

/// Both end points of `inner` lie in `outer`.
pub open spec fn interval_contains(outer: ByteInterval, inner: ByteInterval) -> bool {
    outer.0 <= inner.0 <= outer.1 && outer.0 <= inner.1 <= outer.1
}

/// The two ranges share no byte.
pub open spec fn interval_disjoint(a: ByteInterval, b: ByteInterval) -> bool {
    a.1 < b.0 || b.1 < a.0
}

/// The order of the keys of a section map: by `start`, then by `end`.
pub open spec fn interval_before(a: ByteInterval, b: ByteInterval) -> bool {
    a.0 < b.0 || (a.0 == b.0 && a.1 < b.1)
}

/// Whether both end points of `inner` lie in `outer`.
pub fn contains(outer: ByteInterval, inner: ByteInterval) -> (r: bool)
    ensures
        r == interval_contains(outer, inner),
{
    outer.0 <= inner.0 && inner.0 <= outer.1 && outer.0 <= inner.1 && inner.1 <= outer.1
}

/// Whether the two ranges share no byte.
pub fn disjoint(a: ByteInterval, b: ByteInterval) -> (r: bool)
    ensures
        r == interval_disjoint(a, b),
{
    a.1 < b.0 || b.1 < a.0
}

/// Whether `a` comes before `b` in the order of the keys.
pub fn before(a: ByteInterval, b: ByteInterval) -> (r: bool)
    ensures
        r == interval_before(a, b),
{
    a.0 < b.0 || (a.0 == b.0 && a.1 < b.1)
}

} // verus!
