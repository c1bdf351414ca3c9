//! Requests to redraw a window.
use vstd::prelude::*;

verus! {

/// A point in time, in nanoseconds since a moment that the runtime has fixed.
#[derive(Debug, Clone, Copy, PartialEq, Eq, Structural)]
pub struct Instant {
    pub nanos: u64,
}

/// When a window should be redrawn.
#[derive(Debug, Clone, Copy, PartialEq, Eq, Structural)]
pub enum RedrawRequest {
    /// Redraw with the next frame.
    NextFrame,
    /// Redraw at the given time.
    At(Instant),
    /// Wait: no redraw is needed.
    Wait,
}

impl RedrawRequest {
    /// Whether this request asks for a redraw no later than `other` does.
    pub open spec fn no_later_than(self, other: RedrawRequest) -> bool {
        match (self, other) {
            (RedrawRequest::NextFrame, _) => true,
            (_, RedrawRequest::Wait) => true,
            (RedrawRequest::At(a), RedrawRequest::At(b)) => a.nanos <= b.nanos,
            _ => false,
        }
    }

    /// The more urgent of two requests.
    pub open spec fn earliest(self, other: RedrawRequest) -> RedrawRequest {
        if self.no_later_than(other) {
            self
        } else {
            other
        }
    }

    /// Returns the more urgent of two requests.
    pub fn min(self, other: RedrawRequest) -> (r: RedrawRequest)
        ensures
            r == self.earliest(other),
    {
        match (self, other) {
            (RedrawRequest::NextFrame, _) => self,
            (_, RedrawRequest::Wait) => self,
            (RedrawRequest::At(a), RedrawRequest::At(b)) => if a.nanos <= b.nanos {
                self
            } else {
                other
            },
            _ => other,
        }
    }
}

impl From<Instant> for RedrawRequest {
    fn from(at: Instant) -> (r: RedrawRequest) {
        RedrawRequest::At(at)
    }
}

impl vstd::std_specs::convert::FromSpecImpl<Instant> for RedrawRequest {
    open spec fn obeys_from_spec() -> bool {
        true
    }

    open spec fn from_spec(at: Instant) -> RedrawRequest {
        RedrawRequest::At(at)
    }
}

/// The more urgent of two requests is one of them and asks for a redraw no later
/// than either. The order in which requests are combined does not matter.
pub proof fn law_the_most_urgent_request_wins(
    a: RedrawRequest,
    b: RedrawRequest,
    c: RedrawRequest,
)
    ensures
        a.earliest(b) == a || a.earliest(b) == b,
        a.earliest(b).no_later_than(a),
        a.earliest(b).no_later_than(b),
        a.earliest(b) == b.earliest(a),
        a.earliest(b).earliest(c) == a.earliest(b.earliest(c)),
        a.earliest(RedrawRequest::Wait) == a,
{
}

/// A request for the next frame comes before any other, one to wait behind any other,
/// and of two requests for a time the earlier one comes first.
pub proof fn law_requests_are_ordered_by_time(a: Instant, b: Instant, other: RedrawRequest)
    ensures
        RedrawRequest::NextFrame.earliest(other) == RedrawRequest::NextFrame,
        other.earliest(RedrawRequest::NextFrame) == RedrawRequest::NextFrame,
        RedrawRequest::Wait.earliest(other) == other,
        other.earliest(RedrawRequest::Wait) == other,
        a.nanos <= b.nanos ==> RedrawRequest::At(a).earliest(RedrawRequest::At(b))
            == RedrawRequest::At(a),
        b.nanos < a.nanos ==> RedrawRequest::At(a).earliest(RedrawRequest::At(b))
            == RedrawRequest::At(b),
{
}

} // verus!
