//! Log entry identifiers and their lexicographic order.

use vstd::prelude::*;

verus! {

/// Identifier of a log entry: the leader term under which it was
/// appended and its position in the log. `(0, 0)` is the sentinel for
/// "no entry".
#[derive(Clone, Copy, PartialEq, Eq, Structural, Debug)]
pub struct LogId {
    pub term: u64,
    pub index: u64,
}

impl LogId {
    /// Lexicographic order on `(term, index)`: `self <= other`.
    pub open spec fn spec_le(self, other: LogId) -> bool {
        self.term < other.term || (self.term == other.term && self.index <= other.index)
    }

    pub fn new(term: u64, index: u64) -> (r: LogId)
        ensures
            r == (LogId { term, index }),
    {
        LogId { term, index }
    }

    /// `self >= other` in the lexicographic order.
    pub fn ge(&self, other: &LogId) -> (r: bool)
        ensures
            r == other.spec_le(*self),
    {
        self.term > other.term || (self.term == other.term && self.index >= other.index)
    }
}

} // verus!
