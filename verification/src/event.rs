//! The outcome of handling an event.
use vstd::prelude::*;

verus! {

/// Whether an event has been handled.
#[derive(Debug, Clone, Copy, PartialEq, Eq, Structural)]
pub enum Status {
    /// The event was not handled by any widget.
    Ignored,
    /// The event was handled, and no ancestor should handle it.
    Captured,
}

impl Status {
    /// Captured if either status is.
    pub open spec fn merge_spec(self, other: Status) -> Status {
        if self is Captured || other is Captured {
            Status::Captured
        } else {
            Status::Ignored
        }
    }

    /// Merges two statuses: the result is captured if either is.
    pub fn merge(self, other: Status) -> (r: Status)
        ensures
            r == self.merge_spec(other),
    {
        match self {
            Status::Ignored => other,
            Status::Captured => Status::Captured,
        }
    }
}

/// An event that has been captured stays captured, in whatever order statuses are
/// merged.
pub proof fn law_captured_stays_captured(a: Status, b: Status, c: Status)
    ensures
        (a.merge_spec(b) is Captured) == (a is Captured || b is Captured),
        a.merge_spec(b) == b.merge_spec(a),
        a.merge_spec(b).merge_spec(c) == a.merge_spec(b.merge_spec(c)),
        a.merge_spec(Status::Ignored) == a,
{
}

/// What is captured stays so, whatever is merged with it.
pub proof fn law_captured_wins(other: Status)
    ensures
        Status::Captured.merge_spec(other) == Status::Captured,
        other.merge_spec(Status::Captured) == Status::Captured,
        Status::Ignored.merge_spec(Status::Ignored) == Status::Ignored,
{
}

} // verus!
