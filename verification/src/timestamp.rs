//! Points in time, as whole seconds and nanoseconds counted from the Unix epoch.
use vstd::prelude::*;

verus! {

/// An instant: `secs` whole seconds from the Unix epoch and `nanos` further
/// nanoseconds. Two timestamps are the same instant exactly when both fields
/// agree; they are ordered by seconds first, then by nanoseconds.
#[derive(Clone, Copy, Debug, PartialEq, Eq, Structural)]
pub struct Timestamp {
    pub secs: i64,
    pub nanos: u32,
}

impl Timestamp {
    /// `self` lies strictly before `other`.
    pub open spec fn precedes(self, other: Timestamp) -> bool {
        self.secs < other.secs || (self.secs == other.secs && self.nanos < other.nanos)
    }

    /// `self` lies before `other` or is the same instant.
    pub open spec fn not_after(self, other: Timestamp) -> bool {
        self == other || self.precedes(other)
    }

    pub fn new(secs: i64, nanos: u32) -> (t: Timestamp)
        ensures
            t.secs == secs,
            t.nanos == nanos,
    {
        Timestamp { secs, nanos }
    }

    /// Whether `self` lies strictly before `other`.
    pub fn is_before(&self, other: &Timestamp) -> (r: bool)
        ensures
            r == self.precedes(*other),
    {
        self.secs < other.secs || (self.secs == other.secs && self.nanos < other.nanos)
    }
}

/// Of two instants exactly one holds: the first precedes the second, they are
/// equal, or the second precedes the first; and the order is transitive.
pub proof fn lemma_timestamp_total_order(a: Timestamp, b: Timestamp, c: Timestamp)
    ensures
        a.precedes(b) || a == b || b.precedes(a),
        !(a.precedes(b) && b.precedes(a)),
        !a.precedes(a),
        a.precedes(b) && b.precedes(c) ==> a.precedes(c),
        a.not_after(b) && b.not_after(c) ==> a.not_after(c),
{
}

} // verus!
