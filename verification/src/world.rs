//! The domain state: a model of the transactional store.
//!
//! A [`World`] holds every identity record, ride, status event, coupon and
//! location ping.  Each operation on it is all-or-nothing: it either applies
//! completely and preserves [`World::wf`], or returns a [`DomainError`] and
//! leaves the state exactly as it was.  Timestamps are milliseconds supplied
//! by the caller and never move backwards past the store's clock.

use crate::coupon::{count_invitation, Coupon, INVITATION_CAP};
use crate::geo::Coordinate;
use crate::status::{is_terminal, valid_history, RideStatus, StatusEvent};
use vstd::prelude::*;

verus! {

/// A passenger.  The invitation code other users may register with is
/// modelled as a numeric code unique to the user.
#[derive(Clone, Copy, Debug, PartialEq, Eq, Structural)]
pub struct User {
    pub id: u64,
    pub invitation_code: u64,
}

/// A chair owner.
#[derive(Clone, Copy, Debug, PartialEq, Eq, Structural)]
pub struct Owner {
    pub id: u64,
}

/// A driver/vehicle unit capable of being dispatched to a ride.
#[derive(Clone, Copy, Debug, PartialEq, Eq, Structural)]
pub struct Chair {
    pub id: u64,
    pub owner_id: u64,
    pub is_active: bool,
}

/// One ride request.  `chair_id` is set at most once, by dispatch, and never
/// cleared; `evaluation` is set exactly when the ride completes.
#[derive(Clone, Copy, Debug, PartialEq, Eq, Structural)]
pub struct Ride {
    pub id: u64,
    pub user_id: u64,
    pub pickup: Coordinate,
    pub destination: Coordinate,
    pub chair_id: Option<u64>,
    pub evaluation: Option<i64>,
    pub created_at: i64,
    pub updated_at: i64,
}

/// One appended location report of a chair.
#[derive(Clone, Copy, Debug, PartialEq, Eq, Structural)]
pub struct LocationPing {
    pub chair_id: u64,
    pub coord: Coordinate,
    pub at: i64,
}

/// Why an operation was rejected.  Every rejection leaves the state
/// untouched.
#[derive(Clone, Copy, Debug, PartialEq, Eq, Structural)]
pub enum DomainError {
    UserNotFound,
    OwnerNotFound,
    ChairNotFound,
    RideNotFound,
    /// The user already has a ride that is not yet terminal.
    ActiveRideExists,
    /// The invitation code already has its full family of redemption coupons.
    InvitationExhausted,
    /// No user owns the given invitation code.
    InvitationNotFound,
    /// An evaluation outside the 1 to 5 range.
    EvaluationOutOfRange,
    /// Evaluation submitted while the ride is not in the `Arrived` state.
    RideNotArrived,
    /// The driver posting a transition is not the one assigned to the ride.
    NotAssignedToRide,
    /// A driver may only post `Matching`, `Enroute` or `Carrying`.
    InvalidStatusRequest,
    /// The requested transition is not authorized from the current status.
    InvalidStatusTransition,
    /// Settlement requires a registered payment token.
    PaymentTokenMissing,
}

/// The whole domain state.
pub struct World {
    pub users: Vec<User>,
    pub owners: Vec<Owner>,
    pub chairs: Vec<Chair>,
    pub rides: Vec<Ride>,
    /// Append-only status log, chronological, shared by all rides.
    pub events: Vec<StatusEvent>,
    /// Append-only coupon ledger, in grant order.
    pub coupons: Vec<Coupon>,
    /// Append-only location log, chronological, shared by all chairs.
    pub pings: Vec<LocationPing>,
    /// Users with a registered payment credential.
    pub payment_tokens: Vec<u64>,
    /// Next fresh identifier.
    pub next_id: u64,
    /// Largest timestamp the store has seen.
    pub clock: i64,
}

/// Appending one element to a sequence extends its filtered view by that
/// element exactly when the element passes the filter.
pub proof fn lemma_filter_push<A>(s: Seq<A>, x: A, pred: spec_fn(A) -> bool)
    ensures
        s.push(x).filter(pred) == if pred(x) {
            s.filter(pred).push(x)
        } else {
            s.filter(pred)
        },
{
    reveal(Seq::filter);
    assert(s.push(x).drop_last() == s);
}

/// The events of one ride, oldest first.
pub open spec fn ride_events(events: Seq<StatusEvent>, rid: u64) -> Seq<StatusEvent> {
    events.filter(|e: StatusEvent| e.ride_id == rid)
}

/// The status history of one ride, oldest first.
pub open spec fn ride_history(events: Seq<StatusEvent>, rid: u64) -> Seq<RideStatus> {
    ride_events(events, rid).map_values(|e: StatusEvent| e.status)
}

/// Appending one event extends exactly its own ride's event sequence.
pub proof fn lemma_ride_events_push(events: Seq<StatusEvent>, ev: StatusEvent, rid: u64)
    ensures
        ride_events(events.push(ev), rid) == if ev.ride_id == rid {
            ride_events(events, rid).push(ev)
        } else {
            ride_events(events, rid)
        },
{
    reveal(Seq::filter);
    assert(events.push(ev).drop_last() == events);
}

/// Appending one event extends exactly its own ride's history.
pub proof fn lemma_ride_history_push(events: Seq<StatusEvent>, ev: StatusEvent, rid: u64)
    ensures
        ride_history(events.push(ev), rid) == if ev.ride_id == rid {
            ride_history(events, rid).push(ev.status)
        } else {
            ride_history(events, rid)
        },
{
    lemma_ride_events_push(events, ev, rid);
    if ev.ride_id == rid {
        assert(ride_events(events, rid).push(ev).map_values(|e: StatusEvent| e.status)
            =~= ride_history(events, rid).push(ev.status));
    }
}

/// Every element of a filtered sequence comes from the original sequence.
pub proof fn lemma_filter_membership<A>(s: Seq<A>, pred: spec_fn(A) -> bool)
    ensures
        forall|k: int|
            0 <= k < s.filter(pred).len() ==> exists|i: int|
                0 <= i < s.len() && #[trigger] s.filter(pred)[k] == s[i],
    decreases s.len(),
{
    reveal(Seq::filter);
    if s.len() > 0 {
        lemma_filter_membership(s.drop_last(), pred);
        let f = s.filter(pred);
        let g = s.drop_last().filter(pred);
        assert forall|k: int| 0 <= k < f.len() implies exists|i: int|
            0 <= i < s.len() && #[trigger] f[k] == s[i] by {
            if k < g.len() {
                let i = choose|i: int|
                    0 <= i < s.drop_last().len() && #[trigger] g[k] == s.drop_last()[i];
                assert(f[k] == s[i]);
            } else {
                assert(f[k] == s[s.len() - 1]);
            }
        }
    }
}

/// Filtering a chronological event log yields a chronological log.
pub proof fn lemma_ride_events_chronological(events: Seq<StatusEvent>, rid: u64)
    requires
        forall|i: int, j: int|
            0 <= i <= j < events.len() ==> (#[trigger] events[i]).at <= (#[trigger] events[j]).at,
    ensures
        forall|i: int, j: int|
            0 <= i <= j < ride_events(events, rid).len() ==> (#[trigger] ride_events(
                events,
                rid,
            )[i]).at <= (#[trigger] ride_events(events, rid)[j]).at,
    decreases events.len(),
{
    reveal(Seq::filter);
    if events.len() > 0 {
        let s = events.drop_last();
        assert(forall|i: int, j: int|
            0 <= i <= j < s.len() ==> (#[trigger] s[i]).at <= (#[trigger] s[j]).at);
        lemma_ride_events_chronological(s, rid);
        lemma_filter_membership(s, |e: StatusEvent| e.ride_id == rid);
        let f = ride_events(events, rid);
        let g = ride_events(s, rid);
        assert forall|i: int, j: int| 0 <= i <= j < f.len() implies (#[trigger] f[i]).at <= (
        #[trigger] f[j]).at by {
            if j < g.len() {
                assert(f[i] == g[i] && f[j] == g[j]);
            } else if i < g.len() {
                assert(f[j] == events.last());
                assert(f[i] == g[i]);
                let x = choose|x: int| 0 <= x < s.len() && #[trigger] g[i] == s[x];
                assert(events[x] == s[x]);
                assert(events[x].at <= events[events.len() - 1].at);
            }
        }
    }
}

/// A ride id that no event mentions has an empty history.
pub proof fn lemma_ride_events_absent(events: Seq<StatusEvent>, rid: u64)
    requires
        forall|i: int| 0 <= i < events.len() ==> (#[trigger] events[i]).ride_id != rid,
    ensures
        ride_events(events, rid) == Seq::<StatusEvent>::empty(),
        ride_history(events, rid).len() == 0,
    decreases events.len(),
{
    reveal(Seq::filter);
    if events.len() > 0 {
        assert(forall|i: int|
            0 <= i < events.drop_last().len() ==> (#[trigger] events.drop_last()[i]).ride_id
                != rid);
        lemma_ride_events_absent(events.drop_last(), rid);
    }
    assert(ride_events(events, rid) =~= Seq::<StatusEvent>::empty());
}

impl World {
    /// Whether a user with this id exists.
    pub open spec fn has_user(self, uid: u64) -> bool {
        exists|i: int| 0 <= i < self.users@.len() && (#[trigger] self.users@[i]).id == uid
    }

    /// Whether an owner with this id exists.
    pub open spec fn has_owner(self, oid: u64) -> bool {
        exists|i: int| 0 <= i < self.owners@.len() && (#[trigger] self.owners@[i]).id == oid
    }

    /// Whether a chair with this id exists.
    pub open spec fn has_chair(self, cid: u64) -> bool {
        exists|i: int| 0 <= i < self.chairs@.len() && (#[trigger] self.chairs@[i]).id == cid
    }

    /// Whether a ride with this id exists.
    pub open spec fn has_ride(self, rid: u64) -> bool {
        exists|i: int| 0 <= i < self.rides@.len() && (#[trigger] self.rides@[i]).id == rid
    }

    /// Whether the user has a registered payment credential.
    pub open spec fn has_payment_token(self, uid: u64) -> bool {
        self.payment_tokens@.contains(uid)
    }

    /// The status history of the ride at index `i` of the ride table.
    pub open spec fn history_at(self, i: int) -> Seq<RideStatus> {
        ride_history(self.events@, self.rides@[i].id)
    }

    /// The current status of the ride at index `i`: the status of its most
    /// recent event.
    pub open spec fn status_at(self, i: int) -> RideStatus {
        self.history_at(i).last()
    }

    /// Whether the ride at index `i` is still in progress.
    pub open spec fn active_at(self, i: int) -> bool {
        !is_terminal(self.status_at(i))
    }

    /// Whether the user has a ride that is not yet terminal.
    pub open spec fn user_has_active_ride(self, uid: u64) -> bool {
        exists|i: int|
            0 <= i < self.rides@.len() && (#[trigger] self.rides@[i]).user_id == uid
                && self.active_at(i)
    }

    /// Whether the chair is assigned a ride that is not yet terminal.
    pub open spec fn chair_has_active_ride(self, cid: u64) -> bool {
        exists|i: int|
            0 <= i < self.rides@.len() && (#[trigger] self.rides@[i]).chair_id == Some(cid)
                && self.active_at(i)
    }

    /// How many rides the user has ever requested.
    pub open spec fn ride_count_of_user(self, uid: u64) -> int {
        self.rides@.filter(|r: Ride| r.user_id == uid).len() as int
    }

    /// Identifier and referential integrity: identifiers are unique and below
    /// `next_id`, and every foreign reference resolves.
    pub open spec fn ids_ok(self) -> bool {
        &&& forall|i: int, j: int|
            0 <= i < j < self.users@.len() ==> (#[trigger] self.users@[i]).id != (
            #[trigger] self.users@[j]).id && self.users@[i].invitation_code
                != self.users@[j].invitation_code
        &&& forall|i: int, j: int|
            0 <= i < j < self.owners@.len() ==> (#[trigger] self.owners@[i]).id != (
            #[trigger] self.owners@[j]).id
        &&& forall|i: int, j: int|
            0 <= i < j < self.chairs@.len() ==> (#[trigger] self.chairs@[i]).id != (
            #[trigger] self.chairs@[j]).id
        &&& forall|i: int, j: int|
            0 <= i < j < self.rides@.len() ==> (#[trigger] self.rides@[i]).id != (
            #[trigger] self.rides@[j]).id
        &&& forall|i: int|
            0 <= i < self.users@.len() ==> (#[trigger] self.users@[i]).id < self.next_id
                && self.users@[i].invitation_code < self.next_id
        &&& forall|i: int|
            0 <= i < self.owners@.len() ==> (#[trigger] self.owners@[i]).id < self.next_id
        &&& forall|i: int|
            0 <= i < self.chairs@.len() ==> (#[trigger] self.chairs@[i]).id < self.next_id
                && self.has_owner(self.chairs@[i].owner_id)
        &&& forall|i: int|
            0 <= i < self.rides@.len() ==> (#[trigger] self.rides@[i]).id < self.next_id
                && self.has_user(self.rides@[i].user_id)
        &&& forall|i: int|
            0 <= i < self.rides@.len() && (#[trigger] self.rides@[i]).chair_id is Some
                ==> self.has_chair(self.rides@[i].chair_id->0)
        &&& forall|i: int|
            0 <= i < self.events@.len() ==> self.has_ride((#[trigger] self.events@[i]).ride_id)
        &&& forall|i: int|
            0 <= i < self.coupons@.len() ==> self.has_user((#[trigger] self.coupons@[i]).user_id)
        &&& forall|i: int|
            0 <= i < self.pings@.len() ==> self.has_chair((#[trigger] self.pings@[i]).chair_id)
        &&& forall|i: int, j: int|
            0 <= i < j < self.payment_tokens@.len() ==> (#[trigger] self.payment_tokens@[i]) != (
            #[trigger] self.payment_tokens@[j])
        &&& forall|i: int|
            0 <= i < self.payment_tokens@.len() ==> self.has_user(
                #[trigger] self.payment_tokens@[i],
            )
    }

    /// Clock integrity: every stored timestamp is between zero and the
    /// clock, and the append-only logs are chronological.
    pub open spec fn clock_ok(self) -> bool {
        &&& self.clock >= 0
        &&& forall|i: int|
            0 <= i < self.events@.len() ==> 0 <= (#[trigger] self.events@[i]).at <= self.clock
        &&& forall|i: int, j: int|
            0 <= i <= j < self.events@.len() ==> (#[trigger] self.events@[i]).at <= (
            #[trigger] self.events@[j]).at
        &&& forall|i: int|
            0 <= i < self.pings@.len() ==> 0 <= (#[trigger] self.pings@[i]).at <= self.clock
        &&& forall|i: int, j: int|
            0 <= i <= j < self.pings@.len() ==> (#[trigger] self.pings@[i]).at <= (
            #[trigger] self.pings@[j]).at
        &&& forall|i: int|
            0 <= i < self.coupons@.len() ==> 0 <= (#[trigger] self.coupons@[i]).granted_at
                <= self.clock
        &&& forall|i: int, j: int|
            0 <= i <= j < self.coupons@.len() ==> (#[trigger] self.coupons@[i]).granted_at <= (
            #[trigger] self.coupons@[j]).granted_at
        &&& forall|i: int|
            0 <= i < self.rides@.len() ==> 0 <= (#[trigger] self.rides@[i]).created_at
                <= self.rides@[i].updated_at <= self.clock
    }

    /// Ride integrity: every ride has a valid, non-empty status history; an
    /// evaluation is present exactly on completed rides and lies in 1 to 5;
    /// any ride that has advanced past `Matching` is assigned a chair.
    pub open spec fn rides_ok(self) -> bool {
        &&& forall|i: int| 0 <= i < self.rides@.len() ==> valid_history(#[trigger] self.history_at(i))
        &&& forall|i: int|
            0 <= i < self.rides@.len() ==> ((#[trigger] self.rides@[i]).evaluation is Some <==> self
                .status_at(i) == RideStatus::Completed)
        &&& forall|i: int|
            0 <= i < self.rides@.len() && (#[trigger] self.rides@[i]).evaluation is Some ==> 1
                <= self.rides@[i].evaluation->0 <= 5
        &&& forall|i: int|
            0 <= i < self.rides@.len() && self.status_at(i) != RideStatus::Matching ==> (
            #[trigger] self.rides@[i]).chair_id is Some
    }

    /// Coupon integrity: discounts are non-negative, a bound coupon points at
    /// an existing ride of its own user, and no two coupons bind the same
    /// ride.
    pub open spec fn coupons_ok(self) -> bool {
        &&& forall|i: int| 0 <= i < self.coupons@.len() ==> (#[trigger] self.coupons@[i]).discount >= 0
        &&& forall|i: int, r: int|
            0 <= i < self.coupons@.len() && 0 <= r < self.rides@.len() && (
            #[trigger] self.coupons@[i]).used_by == Some((#[trigger] self.rides@[r]).id)
                ==> self.coupons@[i].user_id == self.rides@[r].user_id
        &&& forall|i: int|
            0 <= i < self.coupons@.len() && (#[trigger] self.coupons@[i]).used_by is Some
                ==> self.has_ride(self.coupons@[i].used_by->0)
        &&& forall|i: int, j: int|
            0 <= i < j < self.coupons@.len() && (#[trigger] self.coupons@[i]).used_by is Some ==> (
            #[trigger] self.coupons@[j]).used_by != self.coupons@[i].used_by
    }

    /// No invitation code ever has more than [`INVITATION_CAP`] redemption
    /// coupons.
    pub open spec fn invitation_cap_ok(self) -> bool {
        forall|code: u64| #[trigger] count_invitation(self.coupons@, code) <= INVITATION_CAP
    }

    /// At any time a user has at most one non-terminal ride, and a chair is
    /// assigned at most one.
    pub open spec fn active_ok(self) -> bool {
        &&& forall|i: int, j: int|
            0 <= i < j < self.rides@.len() && (#[trigger] self.rides@[i]).user_id == (
            #[trigger] self.rides@[j]).user_id ==> !(self.active_at(i) && self.active_at(j))
        &&& forall|i: int, j: int|
            0 <= i < j < self.rides@.len() && (#[trigger] self.rides@[i]).chair_id is Some
                && self.rides@[i].chair_id == (#[trigger] self.rides@[j]).chair_id ==> !(self
                .active_at(i) && self.active_at(j))
    }

    /// Well-formedness of the whole store.  Every operation requires and
    /// preserves it.
    pub open spec fn wf(self) -> bool {
        &&& self.ids_ok()
        &&& self.clock_ok()
        &&& self.rides_ok()
        &&& self.coupons_ok()
        &&& self.invitation_cap_ok()
        &&& self.active_ok()
    }

    /// An empty store.
    pub fn new() -> (w: World)
        ensures
            w.wf(),
            w.users@.len() == 0,
            w.owners@.len() == 0,
            w.chairs@.len() == 0,
            w.rides@.len() == 0,
            w.events@.len() == 0,
            w.coupons@.len() == 0,
            w.pings@.len() == 0,
            w.payment_tokens@.len() == 0,
            w.next_id == 0,
            w.clock == 0,
    {
        let w = World {
            users: Vec::new(),
            owners: Vec::new(),
            chairs: Vec::new(),
            rides: Vec::new(),
            events: Vec::new(),
            coupons: Vec::new(),
            pings: Vec::new(),
            payment_tokens: Vec::new(),
            next_id: 0,
            clock: 0,
        };
        proof {
            assert forall|code: u64| #[trigger] count_invitation(w.coupons@, code)
                <= INVITATION_CAP by {
                assert(count_invitation(w.coupons@, code) == 0);
            }
        }
        w
    }
}

impl World {
    /// The status history of the ride with id `rid`.
    pub open spec fn history_of(self, rid: u64) -> Seq<RideStatus> {
        ride_history(self.events@, rid)
    }

    /// The position of the ride with id `rid` in the ride table.
    pub open spec fn ride_index_of(self, rid: u64) -> int {
        choose|i: int| 0 <= i < self.rides@.len() && (#[trigger] self.rides@[i]).id == rid
    }

    /// With unique ride ids, any position holding `rid` is the position.
    pub proof fn lemma_ride_index(self, i: int)
        requires
            self.ids_ok(),
            0 <= i < self.rides@.len(),
        ensures
            self.ride_index_of(self.rides@[i].id) == i,
    {
        let rid = self.rides@[i].id;
        assert(self.has_ride(rid));
        let j = self.ride_index_of(rid);
        assert(0 <= j < self.rides@.len() && self.rides@[j].id == rid);
        if i < j {
            assert(self.rides@[i].id != self.rides@[j].id);
        } else if j < i {
            assert(self.rides@[j].id != self.rides@[i].id);
        }
    }

    /// The position of the user owning invitation code `code`.
    pub open spec fn user_index_by_invitation(self, code: u64) -> int {
        choose|i: int|
            0 <= i < self.users@.len() && (#[trigger] self.users@[i]).invitation_code == code
    }

    /// Index of the user with id `uid`, if any.
    pub fn find_user(&self, uid: u64) -> (r: Option<usize>)
        ensures
            match r {
                Some(i) => i < self.users@.len() && self.users@[i as int].id == uid,
                None => !self.has_user(uid),
            },
    {
        let n = self.users.len();
        let mut i: usize = 0;
        while i < n
            invariant
                i <= n,
                n == self.users@.len(),
                forall|j: int| 0 <= j < i ==> (#[trigger] self.users@[j]).id != uid,
            decreases n - i,
        {
            if self.users[i].id == uid {
                return Some(i);
            }
            i = i + 1;
        }
        None
    }

    /// Index of the user owning invitation code `code`, if any.
    pub fn find_user_by_invitation(&self, code: u64) -> (r: Option<usize>)
        ensures
            match r {
                Some(i) => i < self.users@.len() && self.users@[i as int].invitation_code == code,
                None => forall|j: int|
                    0 <= j < self.users@.len() ==> (#[trigger] self.users@[j]).invitation_code
                        != code,
            },
    {
        let n = self.users.len();
        let mut i: usize = 0;
        while i < n
            invariant
                i <= n,
                n == self.users@.len(),
                forall|j: int| 0 <= j < i ==> (#[trigger] self.users@[j]).invitation_code != code,
            decreases n - i,
        {
            if self.users[i].invitation_code == code {
                return Some(i);
            }
            i = i + 1;
        }
        None
    }

    /// Index of the owner with id `oid`, if any.
    pub fn find_owner(&self, oid: u64) -> (r: Option<usize>)
        ensures
            match r {
                Some(i) => i < self.owners@.len() && self.owners@[i as int].id == oid,
                None => !self.has_owner(oid),
            },
    {
        let n = self.owners.len();
        let mut i: usize = 0;
        while i < n
            invariant
                i <= n,
                n == self.owners@.len(),
                forall|j: int| 0 <= j < i ==> (#[trigger] self.owners@[j]).id != oid,
            decreases n - i,
        {
            if self.owners[i].id == oid {
                return Some(i);
            }
            i = i + 1;
        }
        None
    }

    /// Index of the chair with id `cid`, if any.
    pub fn find_chair(&self, cid: u64) -> (r: Option<usize>)
        ensures
            match r {
                Some(i) => i < self.chairs@.len() && self.chairs@[i as int].id == cid,
                None => !self.has_chair(cid),
            },
    {
        let n = self.chairs.len();
        let mut i: usize = 0;
        while i < n
            invariant
                i <= n,
                n == self.chairs@.len(),
                forall|j: int| 0 <= j < i ==> (#[trigger] self.chairs@[j]).id != cid,
            decreases n - i,
        {
            if self.chairs[i].id == cid {
                return Some(i);
            }
            i = i + 1;
        }
        None
    }

    /// Index of the ride with id `rid`, if any.
    pub fn find_ride(&self, rid: u64) -> (r: Option<usize>)
        ensures
            match r {
                Some(i) => i < self.rides@.len() && self.rides@[i as int].id == rid,
                None => !self.has_ride(rid),
            },
    {
        let n = self.rides.len();
        let mut i: usize = 0;
        while i < n
            invariant
                i <= n,
                n == self.rides@.len(),
                forall|j: int| 0 <= j < i ==> (#[trigger] self.rides@[j]).id != rid,
            decreases n - i,
        {
            if self.rides[i].id == rid {
                return Some(i);
            }
            i = i + 1;
        }
        None
    }

    /// Whether the user has a registered payment credential.
    pub fn payment_token_registered(&self, uid: u64) -> (r: bool)
        ensures
            r == self.has_payment_token(uid),
    {
        let n = self.payment_tokens.len();
        let mut i: usize = 0;
        while i < n
            invariant
                i <= n,
                n == self.payment_tokens@.len(),
                forall|j: int| 0 <= j < i ==> (#[trigger] self.payment_tokens@[j]) != uid,
            decreases n - i,
        {
            if self.payment_tokens[i] == uid {
                assert(self.payment_tokens@.contains(uid));
                return true;
            }
            i = i + 1;
        }
        assert(!self.payment_tokens@.contains(uid));
        false
    }

    /// The most recent status of a ride, derived from the status log.
    pub fn current_status(&self, rid: u64) -> (s: RideStatus)
        requires
            self.history_of(rid).len() > 0,
        ensures
            s == self.history_of(rid).last(),
    {
        let n = self.events.len();
        let mut cur: Option<RideStatus> = None;
        let mut i: usize = 0;
        proof {
            assert(self.events@.take(0int) =~= Seq::<StatusEvent>::empty());
            reveal(Seq::filter);
        }
        while i < n
            invariant
                i <= n,
                n == self.events@.len(),
                match cur {
                    Some(s) => {
                        &&& ride_history(self.events@.take(i as int), rid).len() > 0
                        &&& s == ride_history(self.events@.take(i as int), rid).last()
                    },
                    None => ride_history(self.events@.take(i as int), rid).len() == 0,
                },
            decreases n - i,
        {
            let ev = self.events[i];
            proof {
                assert(self.events@.take(i + 1int) =~= self.events@.take(i as int).push(
                    self.events@[i as int],
                ));
                lemma_ride_history_push(self.events@.take(i as int), self.events@[i as int], rid);
            }
            if ev.ride_id == rid {
                cur = Some(ev.status);
            }
            i = i + 1;
        }
        proof {
            assert(self.events@.take(n as int) =~= self.events@);
        }
        match cur {
            Some(s) => s,
            None => {
                proof {
                    assert(false);
                }
                RideStatus::Matching
            },
        }
    }

    /// Index of the chair's ride that is still in progress, if any.  A
    /// well-formed store assigns a chair at most one.
    pub fn active_ride_of_chair(&self, cid: u64) -> (r: Option<usize>)
        requires
            self.wf(),
        ensures
            match r {
                Some(i) => i < self.rides@.len() && self.rides@[i as int].chair_id == Some(cid)
                    && self.active_at(i as int),
                None => !self.chair_has_active_ride(cid),
            },
    {
        let n = self.rides.len();
        let mut i: usize = 0;
        while i < n
            invariant
                self.wf(),
                i <= n,
                n == self.rides@.len(),
                forall|j: int|
                    0 <= j < i ==> !((#[trigger] self.rides@[j]).chair_id == Some(cid)
                        && self.active_at(j)),
            decreases n - i,
        {
            let ride = self.rides[i];
            if ride.chair_id == Some(cid) {
                let st = self.current_status(ride.id);
                if !crate::status::terminal(st) {
                    return Some(i);
                }
            }
            i = i + 1;
        }
        None
    }

    /// Whether the user has a ride that is still in progress.
    pub fn user_active_ride_exists(&self, uid: u64) -> (r: bool)
        requires
            self.wf(),
        ensures
            r == self.user_has_active_ride(uid),
    {
        let n = self.rides.len();
        let mut i: usize = 0;
        while i < n
            invariant
                self.wf(),
                i <= n,
                n == self.rides@.len(),
                forall|j: int|
                    0 <= j < i ==> !((#[trigger] self.rides@[j]).user_id == uid && self.active_at(
                        j,
                    )),
            decreases n - i,
        {
            let ride = self.rides[i];
            if ride.user_id == uid {
                let st = self.current_status(ride.id);
                if !crate::status::terminal(st) {
                    return true;
                }
            }
            i = i + 1;
        }
        false
    }
}

/// User existence only depends on the user table.
pub proof fn lemma_has_user_unchanged(pre: World, post: World)
    requires
        post.users@ == pre.users@,
    ensures
        forall|x: u64| #[trigger] post.has_user(x) == pre.has_user(x),
{
    assert forall|x: u64| #[trigger] post.has_user(x) == pre.has_user(x) by {
        if pre.has_user(x) {
            let j = choose|j: int| 0 <= j < pre.users@.len() && (#[trigger] pre.users@[j]).id == x;
            assert(post.users@[j].id == x);
        }
        if post.has_user(x) {
            let j = choose|j: int| 0 <= j < post.users@.len() && (#[trigger] post.users@[j]).id
                == x;
            assert(pre.users@[j].id == x);
        }
    }
}

/// Owner existence only depends on the owner table.
pub proof fn lemma_has_owner_unchanged(pre: World, post: World)
    requires
        post.owners@ == pre.owners@,
    ensures
        forall|x: u64| #[trigger] post.has_owner(x) == pre.has_owner(x),
{
    assert forall|x: u64| #[trigger] post.has_owner(x) == pre.has_owner(x) by {
        if pre.has_owner(x) {
            let j = choose|j: int| 0 <= j < pre.owners@.len() && (#[trigger] pre.owners@[j]).id
                == x;
            assert(post.owners@[j].id == x);
        }
        if post.has_owner(x) {
            let j = choose|j: int| 0 <= j < post.owners@.len() && (#[trigger] post.owners@[j]).id
                == x;
            assert(pre.owners@[j].id == x);
        }
    }
}

/// Chair existence only depends on the set of chair ids.
pub proof fn lemma_chair_ids_unchanged(pre: World, post: World)
    requires
        post.chairs@.len() == pre.chairs@.len(),
        forall|i: int|
            0 <= i < pre.chairs@.len() ==> (#[trigger] post.chairs@[i]).id == pre.chairs@[i].id,
    ensures
        forall|x: u64| #[trigger] post.has_chair(x) == pre.has_chair(x),
{
    assert forall|x: u64| #[trigger] post.has_chair(x) == pre.has_chair(x) by {
        if pre.has_chair(x) {
            let j = choose|j: int| 0 <= j < pre.chairs@.len() && (#[trigger] pre.chairs@[j]).id
                == x;
            assert(post.chairs@[j].id == x);
        }
        if post.has_chair(x) {
            let j = choose|j: int| 0 <= j < post.chairs@.len() && (#[trigger] post.chairs@[j]).id
                == x;
            assert(pre.chairs@[j].id == x);
        }
    }
}

/// Identity-record existence only depends on the record tables themselves.
pub proof fn lemma_existence_unchanged(pre: World, post: World)
    requires
        post.users@ == pre.users@,
        post.owners@ == pre.owners@,
        post.chairs@ == pre.chairs@,
    ensures
        forall|x: u64| #[trigger] post.has_user(x) == pre.has_user(x),
        forall|x: u64| #[trigger] post.has_owner(x) == pre.has_owner(x),
        forall|x: u64| #[trigger] post.has_chair(x) == pre.has_chair(x),
{
    lemma_has_user_unchanged(pre, post);
    lemma_has_owner_unchanged(pre, post);
    lemma_chair_ids_unchanged(pre, post);
}

/// Ride existence only depends on the set of ride ids.
pub proof fn lemma_ride_ids_unchanged(pre: World, post: World)
    requires
        post.rides@.len() == pre.rides@.len(),
        forall|i: int|
            0 <= i < pre.rides@.len() ==> (#[trigger] post.rides@[i]).id == pre.rides@[i].id,
    ensures
        forall|x: u64| #[trigger] post.has_ride(x) == pre.has_ride(x),
{
    assert forall|x: u64| #[trigger] post.has_ride(x) == pre.has_ride(x) by {
        if pre.has_ride(x) {
            let j = choose|j: int| 0 <= j < pre.rides@.len() && (#[trigger] pre.rides@[j]).id == x;
            assert(post.rides@[j].id == x);
        }
        if post.has_ride(x) {
            let j = choose|j: int| 0 <= j < post.rides@.len() && (#[trigger] post.rides@[j]).id
                == x;
            assert(pre.rides@[j].id == x);
        }
    }
}

/// How one ride may change over time: its identity and route are fixed, the
/// chair assignment and the evaluation are set at most once and never
/// cleared, and the update timestamp never moves backwards.
pub open spec fn ride_evolves(a: Ride, b: Ride) -> bool {
    &&& b.id == a.id
    &&& b.user_id == a.user_id
    &&& b.pickup == a.pickup
    &&& b.destination == a.destination
    &&& b.created_at == a.created_at
    &&& a.updated_at <= b.updated_at
    &&& a.chair_id is Some ==> b.chair_id == a.chair_id
    &&& a.evaluation is Some ==> b.evaluation == a.evaluation
}

/// How one coupon may change over time: issuance is immutable and `used_by`
/// transitions at most once from `None` to a ride id, never back and never to
/// another ride.
pub open spec fn coupon_evolves(a: Coupon, b: Coupon) -> bool {
    &&& b.user_id == a.user_id
    &&& b.code == a.code
    &&& b.discount == a.discount
    &&& b.granted_at == a.granted_at
    &&& a.used_by is Some ==> b.used_by == a.used_by
}

/// How the whole store may change across any operation: logs are append-only,
/// identity records are never removed, and every row evolves within
/// [`ride_evolves`] / [`coupon_evolves`].
pub open spec fn evolves(pre: World, post: World) -> bool {
    &&& pre.events@.is_prefix_of(post.events@)
    &&& pre.pings@.is_prefix_of(post.pings@)
    &&& pre.users@.is_prefix_of(post.users@)
    &&& pre.owners@.is_prefix_of(post.owners@)
    &&& pre.rides@.len() <= post.rides@.len()
    &&& forall|i: int|
        0 <= i < pre.rides@.len() ==> ride_evolves(pre.rides@[i], #[trigger] post.rides@[i])
    &&& pre.coupons@.len() <= post.coupons@.len()
    &&& forall|i: int|
        0 <= i < pre.coupons@.len() ==> coupon_evolves(pre.coupons@[i], #[trigger] post.coupons@[i])
    &&& pre.chairs@.len() <= post.chairs@.len()
    &&& forall|i: int|
        0 <= i < pre.chairs@.len() ==> (#[trigger] post.chairs@[i]).id == pre.chairs@[i].id
            && post.chairs@[i].owner_id == pre.chairs@[i].owner_id
    &&& pre.next_id <= post.next_id
    &&& pre.clock <= post.clock
}

/// Evolution is reflexive and composes: what holds of each step holds of any
/// chain of operations.
pub proof fn lemma_evolves_trans(a: World, b: World, c: World)
    requires
        evolves(a, b),
        evolves(b, c),
    ensures
        evolves(a, c),
        evolves(a, a),
{
}

} // verus!
