//! Driver-facing operations: polling for work (dispatch), explicit status
//! transitions, and location telemetry with automatic transitions.

use crate::coupon::{first_match, lemma_first_match_is, lemma_first_match_none};
use crate::geo::Coordinate;
use crate::status::{
    driver_postable, driver_step_allowed, lemma_valid_history_push, valid_history, RideStatus,
    StatusEvent,
};
use crate::world::{
    evolves, lemma_existence_unchanged, lemma_ride_history_push, lemma_ride_ids_unchanged,
    ride_history, DomainError, LocationPing, Ride, World,
};
use vstd::prelude::*;

verus! {

/// What a polling driver is offered: one ride and its current status.
#[derive(Clone, Copy, Debug, PartialEq, Eq, Structural)]
pub struct RideOffer {
    pub ride_id: u64,
    pub user_id: u64,
    pub pickup: Coordinate,
    pub destination: Coordinate,
    pub status: RideStatus,
}

/// An automatic transition fired by a location ping.
#[derive(Clone, Copy, Debug, PartialEq, Eq, Structural)]
pub struct AutoTransition {
    pub ride_id: u64,
    pub status: RideStatus,
}

/// The result of ingesting one location ping.
#[derive(Clone, Copy, Debug, PartialEq, Eq, Structural)]
pub struct PingOutcome {
    pub recorded_at: i64,
    pub auto_transition: Option<AutoTransition>,
}

/// Whether a ride is still waiting to be claimed by a chair.
pub open spec fn unassigned(r: Ride) -> bool {
    r.chair_id is None
}

impl World {
    /// The offer describing the ride at table position `i`.
    pub open spec fn offer_at(self, i: int) -> RideOffer {
        RideOffer {
            ride_id: self.rides@[i].id,
            user_id: self.rides@[i].user_id,
            pickup: self.rides@[i].pickup,
            destination: self.rides@[i].destination,
            status: self.status_at(i),
        }
    }

    /// Dispatch: a polling chair first gets its ride in progress back
    /// unchanged (an idempotent re-poll).  Otherwise the longest-waiting
    /// unclaimed ride (lowest table position, i.e. first-created) is bound to
    /// the chair, exactly once, and offered; with no unclaimed ride there is
    /// no work.
    #[verifier::rlimit(100)]
    pub fn poll_chair(&mut self, now: i64, chair_id: u64) -> (r: Result<
        Option<RideOffer>,
        DomainError,
    >)
        requires
            old(self).wf(),
            now >= old(self).clock,
        ensures
            final(self).wf(),
            evolves(*old(self), *final(self)),
            r is Err ==> *final(self) == *old(self),
            !old(self).has_chair(chair_id) ==> r == Err::<Option<RideOffer>, DomainError>(
                DomainError::ChairNotFound,
            ),
            old(self).has_chair(chair_id) ==> r is Ok,
            old(self).has_chair(chair_id) && old(self).chair_has_active_ride(chair_id) ==> ({
                &&& *final(self) == *old(self)
                &&& r matches Ok(Some(o)) && exists|i: int|
                    0 <= i < old(self).rides@.len() && (#[trigger] old(self).rides@[i]).chair_id
                        == Some(chair_id) && old(self).active_at(i) && o == old(self).offer_at(i)
            }),
            old(self).has_chair(chair_id) && !old(self).chair_has_active_ride(chair_id) ==> ({
                let k = first_match(old(self).rides@, |rd: Ride| unassigned(rd));
                &&& (k < 0 ==> r == Ok::<Option<RideOffer>, DomainError>(None) && *final(self)
                    == *old(self))
                &&& (k >= 0 ==> {
                    &&& r == Ok::<Option<RideOffer>, DomainError>(
                        Some(old(self).offer_at(k)),
                    )
                    &&& final(self).rides@ == old(self).rides@.update(
                        k,
                        (Ride { chair_id: Some(chair_id), updated_at: now, ..old(self).rides@[k] }),
                    )
                    &&& final(self).events@ == old(self).events@
                    &&& final(self).users@ == old(self).users@
                    &&& final(self).owners@ == old(self).owners@
                    &&& final(self).chairs@ == old(self).chairs@
                    &&& final(self).coupons@ == old(self).coupons@
                    &&& final(self).pings@ == old(self).pings@
                    &&& final(self).payment_tokens@ == old(self).payment_tokens@
                    &&& final(self).next_id == old(self).next_id
                    &&& final(self).clock == now
                })
            }),
    {
        if self.find_chair(chair_id).is_none() {
            return Err(DomainError::ChairNotFound);
        }
        if let Some(i) = self.active_ride_of_chair(chair_id) {
            let ride = self.rides[i];
            let status = self.current_status(ride.id);
            proof {
                assert(valid_history(self.history_at(i as int)));
            }
            return Ok(
                Some(
                    RideOffer {
                        ride_id: ride.id,
                        user_id: ride.user_id,
                        pickup: ride.pickup,
                        destination: ride.destination,
                        status,
                    },
                ),
            );
        }
        // Claim the longest-waiting unclaimed ride, if any.
        let ghost pred = |rd: Ride| unassigned(rd);
        let n = self.rides.len();
        let mut k: usize = 0;
        let mut found = false;
        while k < n && !found
            invariant
                k <= n,
                n == self.rides@.len(),
                !found ==> forall|j: int| 0 <= j < k ==> !pred(#[trigger] self.rides@[j]),
                found ==> k < n && pred(self.rides@[k as int]) && forall|j: int|
                    0 <= j < k ==> !pred(#[trigger] self.rides@[j]),
                pred == (|rd: Ride| unassigned(rd)),
            decreases n - k + if found {
                0int
            } else {
                1int
            },
        {
            if self.rides[k].chair_id.is_none() {
                found = true;
            } else {
                k = k + 1;
            }
        }
        if !found {
            proof {
                lemma_first_match_none(self.rides@, pred);
            }
            return Ok(None);
        }
        proof {
            lemma_first_match_is(self.rides@, pred, k as int);
        }
        let ride = self.rides[k];
        let status = self.current_status(ride.id);
        proof {
            self.lemma_ride_index(k as int);
            assert(valid_history(self.history_at(k as int)));
        }
        self.rides[k] = Ride {
            id: ride.id,
            user_id: ride.user_id,
            pickup: ride.pickup,
            destination: ride.destination,
            chair_id: Some(chair_id),
            evaluation: ride.evaluation,
            created_at: ride.created_at,
            updated_at: now,
        };
        self.clock = now;
        proof {
            let pre = *old(self);
            let post = *self;
            let idx = k as int;
            assert forall|a: int| 0 <= a < post.rides@.len() implies (#[trigger] post.rides@[a]).id
                == pre.rides@[a].id && post.rides@[a].user_id == pre.rides@[a].user_id by {}
            lemma_ride_ids_unchanged(pre, post);
            lemma_existence_unchanged(pre, post);
            assert forall|a: int| 0 <= a < post.rides@.len() implies post.history_at(a)
                == pre.history_at(a) by {}
            assert forall|a: int| 0 <= a < post.rides@.len() implies post.active_at(a)
                == pre.active_at(a) by {}
            // The claimed ride was waiting, so its status is Matching and it
            // is the chair's only ride in progress.
            assert(pre.status_at(idx) == RideStatus::Matching);
            assert(post.ids_ok());
            assert(post.clock_ok());
            assert(post.rides_ok());
            assert(post.coupons_ok());
            assert(post.invitation_cap_ok());
            assert(post.active_ok());
            assert(evolves(pre, post));
        }
        Ok(
            Some(
                RideOffer {
                    ride_id: ride.id,
                    user_id: ride.user_id,
                    pickup: ride.pickup,
                    destination: ride.destination,
                    status,
                },
            ),
        )
    }

    /// An explicit driver transition: accept (`Enroute`), decline back to
    /// `Matching`, or declare pickup complete (`Carrying`).  Any request the
    /// lifecycle table does not authorize for the current status is rejected
    /// and the ride is left unchanged.  A decline keeps the chair assignment:
    /// the ride returns to `Matching` but stays bound to the chair.
    #[verifier::rlimit(100)]
    pub fn post_ride_status(
        &mut self,
        now: i64,
        chair_id: u64,
        ride_id: u64,
        requested: RideStatus,
    ) -> (r: Result<(), DomainError>)
        requires
            old(self).wf(),
            now >= old(self).clock,
        ensures
            final(self).wf(),
            evolves(*old(self), *final(self)),
            r is Err ==> *final(self) == *old(self),
            !old(self).has_ride(ride_id) ==> r == Err::<(), DomainError>(DomainError::RideNotFound),
            old(self).has_ride(ride_id) && old(self).rides@[old(self).ride_index_of(
                ride_id,
            )].chair_id != Some(chair_id) ==> r == Err::<(), DomainError>(
                DomainError::NotAssignedToRide,
            ),
            old(self).has_ride(ride_id) && old(self).rides@[old(self).ride_index_of(
                ride_id,
            )].chair_id == Some(chair_id) && !driver_postable(requested) ==> r == Err::<
                (),
                DomainError,
            >(DomainError::InvalidStatusRequest),
            old(self).has_ride(ride_id) && old(self).rides@[old(self).ride_index_of(
                ride_id,
            )].chair_id == Some(chair_id) && driver_postable(requested) && !driver_step_allowed(
                old(self).history_of(ride_id).last(),
                requested,
            ) ==> r == Err::<(), DomainError>(DomainError::InvalidStatusTransition),
            r is Ok <==> (old(self).has_ride(ride_id) && old(self).rides@[old(self).ride_index_of(
                ride_id,
            )].chair_id == Some(chair_id) && driver_postable(requested) && driver_step_allowed(
                old(self).history_of(ride_id).last(),
                requested,
            )),
            r is Ok ==> ({
                &&& final(self).events@ == old(self).events@.push(
                    (StatusEvent { ride_id, status: requested, at: now }),
                )
                &&& final(self).history_of(ride_id) == old(self).history_of(ride_id).push(requested)
                &&& final(self).rides@ == old(self).rides@
                &&& final(self).users@ == old(self).users@
                &&& final(self).owners@ == old(self).owners@
                &&& final(self).chairs@ == old(self).chairs@
                &&& final(self).coupons@ == old(self).coupons@
                &&& final(self).pings@ == old(self).pings@
                &&& final(self).payment_tokens@ == old(self).payment_tokens@
                &&& final(self).next_id == old(self).next_id
                &&& final(self).clock == now
            }),
    {
        let i = match self.find_ride(ride_id) {
            Some(i) => i,
            None => {
                return Err(DomainError::RideNotFound);
            },
        };
        proof {
            self.lemma_ride_index(i as int);
        }
        let ride = self.rides[i];
        let assigned = match ride.chair_id {
            Some(c) => c == chair_id,
            None => false,
        };
        if !assigned {
            return Err(DomainError::NotAssignedToRide);
        }
        if !matches!(requested, RideStatus::Matching | RideStatus::Enroute | RideStatus::Carrying) {
            return Err(DomainError::InvalidStatusRequest);
        }
        proof {
            assert(valid_history(self.history_at(i as int)));
        }
        let current = self.current_status(ride_id);
        let allowed = match (current, requested) {
            (RideStatus::Matching, RideStatus::Enroute) => true,
            (RideStatus::Enroute, RideStatus::Matching) => true,
            (RideStatus::Pickup, RideStatus::Carrying) => true,
            _ => false,
        };
        if !allowed {
            return Err(DomainError::InvalidStatusTransition);
        }
        self.events.push(StatusEvent { ride_id, status: requested, at: now });
        self.clock = now;
        proof {
            let pre = *old(self);
            let post = *self;
            let idx = i as int;
            let ev = StatusEvent { ride_id, status: requested, at: now };
            assert forall|x: u64| x != ride_id implies ride_history(post.events@, x)
                == ride_history(pre.events@, x) by {
                lemma_ride_history_push(pre.events@, ev, x);
            }
            lemma_ride_history_push(pre.events@, ev, ride_id);
            lemma_valid_history_push(pre.history_at(idx), requested);
            assert forall|j: int| 0 <= j < pre.rides@.len() && j != idx implies post.history_at(j)
                == pre.history_at(j) by {
                assert(pre.rides@[j].id != ride_id);
            }
            assert forall|j: int| 0 <= j < pre.rides@.len() implies post.active_at(j)
                == pre.active_at(j) by {}
            lemma_existence_unchanged(pre, post);
            lemma_ride_ids_unchanged(pre, post);
            assert forall|j: int| 0 <= j < post.events@.len() implies post.has_ride(
                (#[trigger] post.events@[j]).ride_id,
            ) by {
                if j < pre.events@.len() {
                    assert(pre.events@[j] == post.events@[j]);
                    assert(pre.has_ride(pre.events@[j].ride_id));
                } else {
                    assert(post.events@[j] == ev);
                    assert(pre.has_ride(ride_id));
                }
            }
            assert(post.ids_ok());
            assert(post.clock_ok());
            assert(post.rides_ok());
            assert(post.coupons_ok());
            assert(post.invitation_cap_ok());
            assert(post.active_ok());
            assert(pre.events@.is_prefix_of(post.events@)) by {
                assert(post.events@.take(pre.events@.len() as int) =~= pre.events@);
            }
            assert(evolves(pre, post));
        }
        Ok(())
    }

    /// Ingest a location ping: the ping is always recorded; within the same
    /// atomic step, the chair's ride in progress advances `Enroute -> Pickup`
    /// when the ping equals the pickup coordinate exactly, and
    /// `Carrying -> Arrived` when it equals the destination exactly.  No
    /// other coordinate and no other status fires a transition.
    #[verifier::rlimit(100)]
    pub fn post_coordinate(&mut self, now: i64, chair_id: u64, coord: Coordinate) -> (r: Result<
        PingOutcome,
        DomainError,
    >)
        requires
            old(self).wf(),
            now >= old(self).clock,
        ensures
            final(self).wf(),
            evolves(*old(self), *final(self)),
            r is Err ==> *final(self) == *old(self),
            !old(self).has_chair(chair_id) ==> r == Err::<PingOutcome, DomainError>(
                DomainError::ChairNotFound,
            ),
            old(self).has_chair(chair_id) ==> r is Ok,
            r matches Ok(out) ==> ({
                &&& out.recorded_at == now
                &&& final(self).pings@ == old(self).pings@.push(
                    (LocationPing { chair_id, coord, at: now }),
                )
                &&& final(self).rides@ == old(self).rides@
                &&& final(self).users@ == old(self).users@
                &&& final(self).owners@ == old(self).owners@
                &&& final(self).chairs@ == old(self).chairs@
                &&& final(self).coupons@ == old(self).coupons@
                &&& final(self).payment_tokens@ == old(self).payment_tokens@
                &&& final(self).next_id == old(self).next_id
                &&& final(self).clock == now
                &&& (out.auto_transition matches Some(t) ==> exists|i: int|
                    0 <= i < old(self).rides@.len() && (#[trigger] old(self).rides@[i]).chair_id
                        == Some(chair_id) && old(self).active_at(i) && t.ride_id == old(
                        self,
                    ).rides@[i].id && ((t.status == RideStatus::Pickup && old(self).status_at(i)
                        == RideStatus::Enroute && old(self).rides@[i].pickup == coord) || (t.status
                        == RideStatus::Arrived && old(self).status_at(i) == RideStatus::Carrying
                        && old(self).rides@[i].destination == coord)) && final(self).events@ == old(
                        self,
                    ).events@.push((StatusEvent { ride_id: t.ride_id, status: t.status, at: now }))
                        && final(self).history_of(t.ride_id) == old(self).history_of(
                        t.ride_id,
                    ).push(t.status))
                &&& (out.auto_transition is None ==> final(self).events@ == old(self).events@
                    && forall|i: int|
                    0 <= i < old(self).rides@.len() && (#[trigger] old(self).rides@[i]).chair_id
                        == Some(chair_id) && old(self).active_at(i) ==> !(old(self).status_at(i)
                        == RideStatus::Enroute && old(self).rides@[i].pickup == coord) && !(old(
                        self,
                    ).status_at(i) == RideStatus::Carrying && old(self).rides@[i].destination
                        == coord))
            }),
    {
        if self.find_chair(chair_id).is_none() {
            return Err(DomainError::ChairNotFound);
        }
        let active = self.active_ride_of_chair(chair_id);
        let ghost pre = *old(self);
        self.pings.push(LocationPing { chair_id, coord, at: now });
        let mut auto_transition: Option<AutoTransition> = None;
        proof {
            assert forall|a: int| 0 <= a < self.rides@.len() implies self.history_at(a)
                == pre.history_at(a) && self.active_at(a) == pre.active_at(a) by {}
        }
        match active {
            Some(i) => {
                let ride = self.rides[i];
                proof {
                    assert(valid_history(pre.history_at(i as int)));
                }
                let status = self.current_status(ride.id);
                let fired: Option<RideStatus> =
                    if matches!(status, RideStatus::Enroute) && ride.pickup.latitude
                        == coord.latitude && ride.pickup.longitude == coord.longitude {
                    Some(RideStatus::Pickup)
                } else if matches!(status, RideStatus::Carrying) && ride.destination.latitude
                    == coord.latitude && ride.destination.longitude == coord.longitude {
                    Some(RideStatus::Arrived)
                } else {
                    None
                };
                if let Some(next) = fired {
                    self.events.push(StatusEvent { ride_id: ride.id, status: next, at: now });
                    auto_transition = Some(AutoTransition { ride_id: ride.id, status: next });
                    proof {
                        let post = *self;
                        let idx = i as int;
                        let ev = StatusEvent { ride_id: ride.id, status: next, at: now };
                        assert forall|x: u64| x != ride.id implies ride_history(post.events@, x)
                            == ride_history(pre.events@, x) by {
                            lemma_ride_history_push(pre.events@, ev, x);
                        }
                        lemma_ride_history_push(pre.events@, ev, ride.id);
                        lemma_valid_history_push(pre.history_at(idx), next);
                        assert forall|j: int|
                            0 <= j < pre.rides@.len() && j != idx implies post.history_at(j)
                            == pre.history_at(j) by {
                            assert(pre.rides@[j].id != ride.id);
                        }
                        assert forall|j: int| 0 <= j < pre.rides@.len() implies post.active_at(j)
                            == pre.active_at(j) by {}
                    }
                }
            },
            None => {},
        }
        self.clock = now;
        proof {
            let post = *self;
            lemma_existence_unchanged(pre, post);
            lemma_ride_ids_unchanged(pre, post);
            match auto_transition {
                Some(t) => {
                    assert forall|j: int| 0 <= j < post.events@.len() implies post.has_ride(
                        (#[trigger] post.events@[j]).ride_id,
                    ) by {
                        if j < pre.events@.len() {
                            assert(pre.events@[j] == post.events@[j]);
                            assert(pre.has_ride(pre.events@[j].ride_id));
                        } else {
                            assert(pre.has_ride(t.ride_id));
                        }
                    }
                    assert(pre.events@.is_prefix_of(post.events@)) by {
                        assert(post.events@.take(pre.events@.len() as int) =~= pre.events@);
                    }
                },
                None => {
                    assert(post.events@ == pre.events@);
                    // No transition fired: the chair's only ride in progress,
                    // if any, matched neither trigger.
                    assert forall|i: int|
                        0 <= i < pre.rides@.len() && (#[trigger] pre.rides@[i]).chair_id == Some(
                            chair_id,
                        ) && pre.active_at(i) implies !(pre.status_at(i) == RideStatus::Enroute
                        && pre.rides@[i].pickup == coord) && !(pre.status_at(i)
                        == RideStatus::Carrying && pre.rides@[i].destination == coord) by {
                        match active {
                            Some(a) => {
                                if i != a as int {
                                    if i < a as int {
                                        assert(!(pre.active_at(i) && pre.active_at(a as int)));
                                    } else {
                                        assert(!(pre.active_at(a as int) && pre.active_at(i)));
                                    }
                                }
                            },
                            None => {
                                assert(!pre.chair_has_active_ride(chair_id));
                            },
                        }
                    }
                },
            }
            assert(pre.pings@.is_prefix_of(post.pings@)) by {
                assert(post.pings@.take(pre.pings@.len() as int) =~= pre.pings@);
            }
            assert(post.ids_ok());
            assert(post.clock_ok());
            assert(post.rides_ok());
            assert(post.coupons_ok());
            assert(post.invitation_cap_ok());
            assert(post.active_ok());
            assert(evolves(pre, post));
        }
        Ok(PingOutcome { recorded_at: now, auto_transition })
    }
}

} // verus!
