//! Ride lifecycle state machine.
//!
//! A ride's status history is an append-only sequence of events; the current
//! status is always the status of the most recent event, never a stored
//! field.  `COMPLETED` and `CANCELED` are terminal: no event may follow them.

use vstd::prelude::*;

verus! {

/// The lifecycle states of a ride.
#[derive(Clone, Copy, Debug, PartialEq, Eq, Structural)]
pub enum RideStatus {
    Matching,
    Enroute,
    Pickup,
    Carrying,
    Arrived,
    Completed,
    Canceled,
}

/// One append-only status log entry for a ride.
#[derive(Clone, Copy, Debug, PartialEq, Eq, Structural)]
pub struct StatusEvent {
    pub ride_id: u64,
    pub status: RideStatus,
    /// Timestamp in milliseconds.
    pub at: i64,
}

/// Whether a status admits no further events.
pub open spec fn is_terminal(s: RideStatus) -> bool {
    s == RideStatus::Completed || s == RideStatus::Canceled
}

/// Executable twin of [`is_terminal`].
pub fn terminal(s: RideStatus) -> (r: bool)
    ensures
        r == is_terminal(s),
{
    matches!(s, RideStatus::Completed | RideStatus::Canceled)
}

/// The transitions the lifecycle authorizes, each with its trigger:
/// driver accepts (`Matching -> Enroute`), driver declines
/// (`Enroute -> Matching`), pickup reached by telemetry
/// (`Enroute -> Pickup`), driver declares pickup complete
/// (`Pickup -> Carrying`), destination reached by telemetry
/// (`Carrying -> Arrived`), passenger evaluates (`Arrived -> Completed`),
/// and cancellation from any non-terminal state.
pub open spec fn valid_step(from: RideStatus, to: RideStatus) -> bool {
    ||| (from == RideStatus::Matching && to == RideStatus::Enroute)
    ||| (from == RideStatus::Enroute && to == RideStatus::Matching)
    ||| (from == RideStatus::Enroute && to == RideStatus::Pickup)
    ||| (from == RideStatus::Pickup && to == RideStatus::Carrying)
    ||| (from == RideStatus::Carrying && to == RideStatus::Arrived)
    ||| (from == RideStatus::Arrived && to == RideStatus::Completed)
    ||| (!is_terminal(from) && to == RideStatus::Canceled)
}

/// A well-formed status history: non-empty, seeded with `Matching`, and
/// advancing only through authorized transitions.
pub open spec fn valid_history(h: Seq<RideStatus>) -> bool {
    &&& h.len() > 0
    &&& h[0] == RideStatus::Matching
    &&& forall|i: int| 0 <= i < h.len() - 1 ==> valid_step(h[i], #[trigger] h[i + 1])
}

/// The transitions a driver may request explicitly, given the current status:
/// accept (`Enroute` from `Matching`), decline (`Matching` from `Enroute`),
/// and pickup complete (`Carrying` from `Pickup`).
pub open spec fn driver_step_allowed(current: RideStatus, requested: RideStatus) -> bool {
    ||| (current == RideStatus::Matching && requested == RideStatus::Enroute)
    ||| (current == RideStatus::Enroute && requested == RideStatus::Matching)
    ||| (current == RideStatus::Pickup && requested == RideStatus::Carrying)
}

/// The statuses a driver may name in an explicit transition request at all.
pub open spec fn driver_postable(requested: RideStatus) -> bool {
    ||| requested == RideStatus::Matching
    ||| requested == RideStatus::Enroute
    ||| requested == RideStatus::Carrying
}

/// A valid history extended by one authorized step stays valid.
pub proof fn lemma_valid_history_push(h: Seq<RideStatus>, s: RideStatus)
    requires
        valid_history(h),
        valid_step(h.last(), s),
    ensures
        valid_history(h.push(s)),
{
    let h2 = h.push(s);
    assert(h2[0] == h[0]);
    assert forall|i: int| 0 <= i < h2.len() - 1 implies valid_step(h2[i], #[trigger] h2[i + 1]) by {
        if i < h.len() - 1 {
            assert(valid_step(h[i], h[i + 1]));
            assert(h2[i] == h[i] && h2[i + 1] == h[i + 1]);
        } else {
            assert(h2[i] == h.last() && h2[i + 1] == s);
        }
    }
}

/// In a valid history nothing follows a terminal status: a terminal event is
/// the last event of its ride.
pub proof fn lemma_terminal_is_final(h: Seq<RideStatus>, i: int)
    requires
        valid_history(h),
        0 <= i < h.len(),
        is_terminal(h[i]),
    ensures
        i == h.len() - 1,
{
    if i < h.len() - 1 {
        assert(valid_step(h[i], h[i + 1]));
    }
}

/// `Arrived` is only reachable from `Carrying`: some `Carrying` event
/// precedes every `Arrived` event.
pub proof fn lemma_carrying_precedes_arrived(h: Seq<RideStatus>, j: int)
    requires
        valid_history(h),
        0 <= j < h.len(),
        h[j] == RideStatus::Arrived,
    ensures
        exists|i: int| 0 <= i < j && h[i] == RideStatus::Carrying,
{
    assert(j != 0);
    assert(valid_step(h[j - 1], h[j - 1 + 1]));
    assert(h[j - 1] == RideStatus::Carrying);
}

/// Every valid history that reaches `Completed` passed through `Carrying`
/// and `Arrived` on the way.
pub proof fn lemma_completed_has_carrying_and_arrived(h: Seq<RideStatus>)
    requires
        valid_history(h),
        h.last() == RideStatus::Completed,
    ensures
        exists|i: int| 0 <= i < h.len() && h[i] == RideStatus::Carrying,
        exists|i: int| 0 <= i < h.len() && h[i] == RideStatus::Arrived,
{
    let n = h.len() as int;
    assert(h[0] == RideStatus::Matching);
    assert(n >= 2) by {
        if n == 1 {
            assert(h.last() == h[0]);
        }
    }
    assert(valid_step(h[n - 2], h[n - 2 + 1]));
    assert(h[n - 2] == RideStatus::Arrived);
    assert(n >= 3) by {
        if n == 2 {
            assert(h[0] == RideStatus::Arrived);
        }
    }
    assert(valid_step(h[n - 3], h[n - 3 + 1]));
    assert(h[n - 3] == RideStatus::Carrying);
}

} // verus!
