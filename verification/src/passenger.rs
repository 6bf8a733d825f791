//! Passenger-facing operations: registration, payment credentials, ride
//! creation with coupon binding, fare estimates and settlement.

use crate::coupon::{
    bound_choice, bound_discount, consumed, count_invitation, creation_choice, estimate_discount,
    fifo_choice, lemma_count_invitation_update_used, lemma_first_match_is, lemma_first_match_none,
    signup_choice, unused_of, unused_signup_of, Coupon, CouponCode,
};
use crate::fare::{calculate_discounted_fare, spec_fare};
use crate::geo::Coordinate;
use crate::status::{lemma_valid_history_push, valid_history, RideStatus, StatusEvent};
use crate::world::{
    evolves, lemma_existence_unchanged, lemma_ride_events_absent, lemma_ride_history_push,
    lemma_ride_ids_unchanged, ride_history, DomainError, Ride, World,
};
use vstd::prelude::*;

verus! {

/// Receipt of a settled ride: the charged fare and the completion time.
#[derive(Clone, Copy, Debug, PartialEq, Eq, Structural)]
pub struct EvalReceipt {
    pub fare: i64,
    pub completed_at: i64,
}

/// Receipt of a created ride: its id and the fare quoted at creation.
#[derive(Clone, Copy, Debug, PartialEq, Eq, Structural)]
pub struct RideReceipt {
    pub ride_id: u64,
    pub fare: i64,
}

/// A fare quote: the discounted fare and the discount that was applied.
#[derive(Clone, Copy, Debug, PartialEq, Eq, Structural)]
pub struct FareQuote {
    pub fare: i64,
    pub discount: i64,
}

impl World {
    /// Whether the user has ever requested a ride.
    pub open spec fn user_has_any_ride(self, uid: u64) -> bool {
        exists|i: int| 0 <= i < self.rides@.len() && (#[trigger] self.rides@[i]).user_id == uid
    }

    /// Index of the user's unused signup bonus coupon, if any.
    pub fn find_signup_coupon(&self, uid: u64) -> (r: Option<usize>)
        ensures
            match r {
                Some(i) => i < self.coupons@.len() && i == signup_choice(self.coupons@, uid)
                    && unused_signup_of(self.coupons@[i as int], uid),
                None => signup_choice(self.coupons@, uid) == -1,
            },
    {
        let ghost pred = |c: Coupon| unused_signup_of(c, uid);
        let n = self.coupons.len();
        let mut i: usize = 0;
        while i < n
            invariant
                i <= n,
                n == self.coupons@.len(),
                forall|j: int| 0 <= j < i ==> !pred(#[trigger] self.coupons@[j]),
                pred == (|c: Coupon| unused_signup_of(c, uid)),
            decreases n - i,
        {
            let c = self.coupons[i];
            if c.user_id == uid && c.used_by.is_none() && matches!(c.code, CouponCode::Signup) {
                proof {
                    lemma_first_match_is(self.coupons@, pred, i as int);
                }
                return Some(i);
            }
            i = i + 1;
        }
        proof {
            lemma_first_match_none(self.coupons@, pred);
        }
        None
    }

    /// Index of the user's earliest-granted unused coupon, if any.
    pub fn find_fifo_coupon(&self, uid: u64) -> (r: Option<usize>)
        ensures
            match r {
                Some(i) => i < self.coupons@.len() && i == fifo_choice(self.coupons@, uid)
                    && unused_of(self.coupons@[i as int], uid),
                None => fifo_choice(self.coupons@, uid) == -1,
            },
    {
        let ghost pred = |c: Coupon| unused_of(c, uid);
        let n = self.coupons.len();
        let mut i: usize = 0;
        while i < n
            invariant
                i <= n,
                n == self.coupons@.len(),
                forall|j: int| 0 <= j < i ==> !pred(#[trigger] self.coupons@[j]),
                pred == (|c: Coupon| unused_of(c, uid)),
            decreases n - i,
        {
            let c = self.coupons[i];
            if c.user_id == uid && c.used_by.is_none() {
                proof {
                    lemma_first_match_is(self.coupons@, pred, i as int);
                }
                return Some(i);
            }
            i = i + 1;
        }
        proof {
            lemma_first_match_none(self.coupons@, pred);
        }
        None
    }

    /// Index of the coupon bound to ride `rid`, if any.
    pub fn find_bound_coupon(&self, rid: u64) -> (r: Option<usize>)
        ensures
            match r {
                Some(i) => i < self.coupons@.len() && i == bound_choice(self.coupons@, rid)
                    && self.coupons@[i as int].used_by == Some(rid),
                None => bound_choice(self.coupons@, rid) == -1,
            },
    {
        let ghost pred = |c: Coupon| c.used_by == Some(rid);
        let n = self.coupons.len();
        let mut i: usize = 0;
        while i < n
            invariant
                i <= n,
                n == self.coupons@.len(),
                forall|j: int| 0 <= j < i ==> !pred(#[trigger] self.coupons@[j]),
                pred == (|c: Coupon| c.used_by == Some(rid)),
            decreases n - i,
        {
            let c = self.coupons[i];
            let matched = match c.used_by {
                Some(r) => r == rid,
                None => false,
            };
            if matched {
                proof {
                    lemma_first_match_is(self.coupons@, pred, i as int);
                }
                return Some(i);
            }
            i = i + 1;
        }
        proof {
            lemma_first_match_none(self.coupons@, pred);
        }
        None
    }

    /// Whether the user has ever requested a ride.
    pub fn user_rode_before(&self, uid: u64) -> (r: bool)
        ensures
            r == self.user_has_any_ride(uid),
    {
        let n = self.rides.len();
        let mut i: usize = 0;
        while i < n
            invariant
                i <= n,
                n == self.rides@.len(),
                forall|j: int| 0 <= j < i ==> (#[trigger] self.rides@[j]).user_id != uid,
            decreases n - i,
        {
            if self.rides[i].user_id == uid {
                return true;
            }
            i = i + 1;
        }
        false
    }

    /// Create a ride for a user: reject when the user is unknown or already
    /// has a ride in progress; otherwise append the ride with a seeded
    /// `Matching` status, bind the coupon chosen by [`creation_choice`]
    /// (signup bonus first on the user's first-ever ride, then earliest
    /// granted), and quote the discounted fare.  All of it applies atomically.
    #[verifier::rlimit(100)]
    pub fn create_ride(
        &mut self,
        now: i64,
        user_id: u64,
        pickup: Coordinate,
        destination: Coordinate,
    ) -> (r: Result<RideReceipt, DomainError>)
        requires
            old(self).wf(),
            now >= old(self).clock,
            old(self).next_id < u64::MAX,
        ensures
            final(self).wf(),
            evolves(*old(self), *final(self)),
            r is Err ==> *final(self) == *old(self),
            !old(self).has_user(user_id) ==> r == Err::<RideReceipt, DomainError>(
                DomainError::UserNotFound,
            ),
            old(self).has_user(user_id) && old(self).user_has_active_ride(user_id) ==> r == Err::<
                RideReceipt,
                DomainError,
            >(DomainError::ActiveRideExists),
            old(self).has_user(user_id) && !old(self).user_has_active_ride(user_id) ==> r is Ok,
            r matches Ok(receipt) ==> ({
                let sel = creation_choice(
                    old(self).coupons@,
                    user_id,
                    !old(self).user_has_any_ride(user_id),
                );
                let disc: int = if sel >= 0 {
                    old(self).coupons@[sel].discount as int
                } else {
                    0
                };
                &&& receipt.ride_id == old(self).next_id
                &&& final(self).rides@ == old(self).rides@.push(
                    (Ride {
                        id: receipt.ride_id,
                        user_id,
                        pickup,
                        destination,
                        chair_id: None,
                        evaluation: None,
                        created_at: now,
                        updated_at: now,
                    }),
                )
                &&& final(self).events@ == old(self).events@.push(
                    (StatusEvent { ride_id: receipt.ride_id, status: RideStatus::Matching, at: now }),
                )
                &&& (sel >= 0 ==> final(self).coupons@ == old(self).coupons@.update(
                    sel,
                    consumed(old(self).coupons@[sel], receipt.ride_id),
                ))
                &&& (sel < 0 ==> final(self).coupons@ == old(self).coupons@)
                &&& receipt.fare == spec_fare(pickup, destination, disc)
                &&& receipt.fare == spec_fare(
                    pickup,
                    destination,
                    bound_discount(final(self).coupons@, receipt.ride_id),
                )
                &&& final(self).users@ == old(self).users@
                &&& final(self).owners@ == old(self).owners@
                &&& final(self).chairs@ == old(self).chairs@
                &&& final(self).pings@ == old(self).pings@
                &&& final(self).payment_tokens@ == old(self).payment_tokens@
                &&& final(self).next_id == old(self).next_id + 1
                &&& final(self).clock == now
            }),
    {
        if self.find_user(user_id).is_none() {
            return Err(DomainError::UserNotFound);
        }
        if self.user_active_ride_exists(user_id) {
            return Err(DomainError::ActiveRideExists);
        }
        let ride_id = self.next_id;
        let first_ride = !self.user_rode_before(user_id);
        let sel: Option<usize> = if first_ride {
            match self.find_signup_coupon(user_id) {
                Some(i) => Some(i),
                None => self.find_fifo_coupon(user_id),
            }
        } else {
            self.find_fifo_coupon(user_id)
        };
        proof {
            assert(match sel {
                Some(k) => k as int == creation_choice(self.coupons@, user_id, first_ride),
                None => creation_choice(self.coupons@, user_id, first_ride) == -1,
            });
        }
        let discount = match sel {
            Some(k) => self.coupons[k].discount,
            None => 0,
        };
        let fare = calculate_discounted_fare(pickup, destination, discount);
        let ride = Ride {
            id: ride_id,
            user_id,
            pickup,
            destination,
            chair_id: None,
            evaluation: None,
            created_at: now,
            updated_at: now,
        };
        self.rides.push(ride);
        self.events.push(StatusEvent { ride_id, status: RideStatus::Matching, at: now });
        if let Some(k) = sel {
            let c = self.coupons[k];
            self.coupons[k] = Coupon {
                user_id: c.user_id,
                code: c.code,
                discount: c.discount,
                granted_at: c.granted_at,
                used_by: Some(ride_id),
            };
        }
        self.next_id = self.next_id + 1;
        self.clock = now;
        proof {
            let pre = *old(self);
            let post = *self;
            let rid = pre.next_id;
            let ev = StatusEvent { ride_id: rid, status: RideStatus::Matching, at: now };
            let bound_pred = |c: Coupon| c.used_by == Some(rid);
            // The new ride id is fresh: nothing in the store mentions it.
            assert forall|i: int| 0 <= i < pre.events@.len() implies (
            #[trigger] pre.events@[i]).ride_id != rid by {
                assert(pre.has_ride(pre.events@[i].ride_id));
                let j = choose|j: int|
                    0 <= j < pre.rides@.len() && (#[trigger] pre.rides@[j]).id
                        == pre.events@[i].ride_id;
                assert(pre.rides@[j].id < pre.next_id);
            }
            assert forall|i: int|
                0 <= i < pre.coupons@.len() && (#[trigger] pre.coupons@[i]).used_by
                    is Some implies pre.coupons@[i].used_by != Some(rid) by {
                assert(pre.has_ride(pre.coupons@[i].used_by->0));
                let j = choose|j: int|
                    0 <= j < pre.rides@.len() && (#[trigger] pre.rides@[j]).id
                        == pre.coupons@[i].used_by->0;
                assert(pre.rides@[j].id < pre.next_id);
            }
            lemma_ride_events_absent(pre.events@, rid);
            lemma_ride_history_push(pre.events@, ev, rid);
            assert(ride_history(post.events@, rid) =~= seq![RideStatus::Matching]);
            // Histories of existing rides are untouched by the new event.
            assert forall|x: u64| x != rid implies ride_history(post.events@, x) == ride_history(
                pre.events@,
                x,
            ) by {
                lemma_ride_history_push(pre.events@, ev, x);
            }
            assert forall|i: int| 0 <= i < pre.rides@.len() implies post.history_at(i)
                == pre.history_at(i) && post.rides@[i] == pre.rides@[i] by {
                assert(pre.rides@[i].id < pre.next_id);
            }
            // Existence predicates carry over.
            assert forall|x: u64| pre.has_ride(x) implies post.has_ride(x) by {
                let j = choose|j: int|
                    0 <= j < pre.rides@.len() && (#[trigger] pre.rides@[j]).id == x;
                assert(post.rides@[j].id == x);
            }
            let newidx = pre.rides@.len() as int;
            assert(post.rides@[newidx].id == rid);
            assert(post.has_ride(rid));
            assert(post.history_at(newidx) =~= seq![RideStatus::Matching]);
            assert(valid_history(post.history_at(newidx)));
            assert(post.status_at(newidx) == RideStatus::Matching);
            // The chosen coupon, if any, is now the unique coupon of the ride.
            match sel {
                Some(k) => {
                    assert(post.coupons@ == pre.coupons@.update(
                        k as int,
                        consumed(pre.coupons@[k as int], rid),
                    ));
                    assert(bound_pred(post.coupons@[k as int]));
                    assert forall|j: int| 0 <= j < k as int implies !bound_pred(
                        #[trigger] post.coupons@[j],
                    ) by {
                        assert(post.coupons@[j] == pre.coupons@[j]);
                    }
                    lemma_first_match_is(post.coupons@, bound_pred, k as int);
                    assert(bound_choice(post.coupons@, rid) == k as int);
                    assert forall|code: u64| #[trigger] count_invitation(post.coupons@, code)
                        == count_invitation(pre.coupons@, code) by {
                        lemma_count_invitation_update_used(
                            pre.coupons@,
                            k as int,
                            consumed(pre.coupons@[k as int], rid),
                            code,
                        );
                    }
                },
                None => {
                    assert forall|j: int| 0 <= j < post.coupons@.len() implies !bound_pred(
                        #[trigger] post.coupons@[j],
                    ) by {}
                    lemma_first_match_none(post.coupons@, bound_pred);
                    assert(bound_choice(post.coupons@, rid) == -1);
                },
            }
            // Activity of existing rides is unchanged; the new ride's user had
            // no ride in progress, so the one-active-ride rule still holds.
            assert forall|i: int| 0 <= i < pre.rides@.len() implies post.active_at(i)
                == pre.active_at(i) by {}
            assert(post.ids_ok());
            assert(post.clock_ok());
            assert(post.rides_ok());
            // Coupon integrity, clause by clause.
            assert forall|i: int| 0 <= i < post.coupons@.len() implies (
            #[trigger] post.coupons@[i]).discount >= 0 by {
                assert(pre.coupons@[i].discount >= 0);
            }
            assert forall|i: int, rdx: int|
                0 <= i < post.coupons@.len() && 0 <= rdx < post.rides@.len() && (
                #[trigger] post.coupons@[i]).used_by == Some(
                    (#[trigger] post.rides@[rdx]).id,
                ) implies post.coupons@[i].user_id == post.rides@[rdx].user_id by {
                if rdx < pre.rides@.len() {
                    assert(post.rides@[rdx] == pre.rides@[rdx]);
                    assert(pre.rides@[rdx].id != rid);
                    assert(pre.coupons@[i].used_by == Some(pre.rides@[rdx].id));
                } else {
                    assert(post.rides@[rdx].id == rid);
                }
            }
            assert forall|i: int|
                0 <= i < post.coupons@.len() && (#[trigger] post.coupons@[i]).used_by
                    is Some implies post.has_ride(post.coupons@[i].used_by->0) by {
                match sel {
                    Some(k) => {
                        if i != k as int {
                            assert(post.coupons@[i] == pre.coupons@[i]);
                            assert(pre.has_ride(pre.coupons@[i].used_by->0));
                        }
                    },
                    None => {
                        assert(post.coupons@[i] == pre.coupons@[i]);
                        assert(pre.has_ride(pre.coupons@[i].used_by->0));
                    },
                }
            }
            assert forall|i: int, j: int|
                0 <= i < j < post.coupons@.len() && (#[trigger] post.coupons@[i]).used_by
                    is Some implies (#[trigger] post.coupons@[j]).used_by
                != post.coupons@[i].used_by by {
                match sel {
                    Some(k) => {
                        if i != k as int && j != k as int {
                            assert(post.coupons@[i] == pre.coupons@[i]);
                            assert(post.coupons@[j] == pre.coupons@[j]);
                        }
                    },
                    None => {},
                }
            }
            assert(post.coupons_ok());
            assert(post.invitation_cap_ok());
            assert(post.active_ok());
            assert(pre.events@.is_prefix_of(post.events@)) by {
                assert(post.events@.take(pre.events@.len() as int) =~= pre.events@);
            }
            assert(evolves(pre, post));
        }
        Ok(RideReceipt { ride_id, fare })
    }

    /// Quote a fare before any ride exists: the unused signup bonus is
    /// preferred, then the earliest-granted unused coupon, then no discount.
    /// Nothing is bound; the quote writes nothing.
    pub fn estimate_fare(&self, user_id: u64, pickup: Coordinate, destination: Coordinate) -> (r:
        Result<FareQuote, DomainError>)
        requires
            self.wf(),
        ensures
            r matches Err(e) ==> e == DomainError::UserNotFound && !self.has_user(user_id),
            r matches Ok(q) ==> {
                &&& self.has_user(user_id)
                &&& q.discount == estimate_discount(self.coupons@, user_id)
                &&& q.fare == spec_fare(pickup, destination, q.discount as int)
            },
            r is Ok <==> self.has_user(user_id),
    {
        if self.find_user(user_id).is_none() {
            return Err(DomainError::UserNotFound);
        }
        let discount = match self.find_signup_coupon(user_id) {
            Some(i) => self.coupons[i].discount,
            None => match self.find_fifo_coupon(user_id) {
                Some(i) => self.coupons[i].discount,
                None => 0,
            },
        };
        let fare = calculate_discounted_fare(pickup, destination, discount);
        Ok(FareQuote { fare, discount })
    }

    /// The settled fare of the ride at table position `i`: its route's fare
    /// under the discount of the coupon bound to it, if any.
    pub open spec fn ride_fare(self, i: int) -> int {
        spec_fare(
            self.rides@[i].pickup,
            self.rides@[i].destination,
            bound_discount(self.coupons@, self.rides@[i].id),
        )
    }

    /// Whether an evaluation settles the ride: in range, the ride exists, it
    /// has arrived, and its passenger has a payment credential.
    pub open spec fn evaluation_accepted(self, ride_id: u64, evaluation: i64) -> bool {
        &&& 1 <= evaluation <= 5
        &&& self.has_ride(ride_id)
        &&& self.history_of(ride_id).last() == RideStatus::Arrived
        &&& self.has_payment_token(self.rides@[self.ride_index_of(ride_id)].user_id)
    }

    /// Validate a settlement and quote the amount to charge, writing nothing:
    /// the caller charges the payment gateway first and commits with
    /// [`World::apply_evaluation`] only on success, so a failed charge never
    /// leaves a half-settled ride.
    pub fn plan_evaluation(&self, ride_id: u64, evaluation: i64) -> (r: Result<i64, DomainError>)
        requires
            self.wf(),
        ensures
            !(1 <= evaluation <= 5) ==> r == Err::<i64, DomainError>(
                DomainError::EvaluationOutOfRange,
            ),
            1 <= evaluation <= 5 && !self.has_ride(ride_id) ==> r == Err::<i64, DomainError>(
                DomainError::RideNotFound,
            ),
            1 <= evaluation <= 5 && self.has_ride(ride_id) && self.history_of(ride_id).last()
                != RideStatus::Arrived ==> r == Err::<i64, DomainError>(DomainError::RideNotArrived),
            1 <= evaluation <= 5 && self.has_ride(ride_id) && self.history_of(ride_id).last()
                == RideStatus::Arrived && !self.has_payment_token(
                self.rides@[self.ride_index_of(ride_id)].user_id,
            ) ==> r == Err::<i64, DomainError>(DomainError::PaymentTokenMissing),
            r matches Ok(f) ==> f == self.ride_fare(self.ride_index_of(ride_id)),
            r is Ok <==> self.evaluation_accepted(ride_id, evaluation),
    {
        if evaluation < 1 || evaluation > 5 {
            return Err(DomainError::EvaluationOutOfRange);
        }
        let i = match self.find_ride(ride_id) {
            Some(i) => i,
            None => {
                return Err(DomainError::RideNotFound);
            },
        };
        proof {
            self.lemma_ride_index(i as int);
            assert(self.history_of(ride_id) == self.history_at(i as int));
            assert(valid_history(self.history_at(i as int)));
        }
        let status = self.current_status(ride_id);
        if !matches!(status, RideStatus::Arrived) {
            return Err(DomainError::RideNotArrived);
        }
        let ride = self.rides[i];
        if !self.payment_token_registered(ride.user_id) {
            return Err(DomainError::PaymentTokenMissing);
        }
        let discount = match self.find_bound_coupon(ride_id) {
            Some(k) => self.coupons[k].discount,
            None => 0,
        };
        let fare = calculate_discounted_fare(ride.pickup, ride.destination, discount);
        Ok(fare)
    }

    /// Settle a ride: record the passenger's evaluation and append the
    /// terminal `Completed` status, atomically, returning the charged fare
    /// and the completion time.  Rejections mirror
    /// [`World::plan_evaluation`] exactly and write nothing.
    #[verifier::rlimit(100)]
    pub fn apply_evaluation(&mut self, now: i64, ride_id: u64, evaluation: i64) -> (r: Result<
        EvalReceipt,
        DomainError,
    >)
        requires
            old(self).wf(),
            now >= old(self).clock,
        ensures
            final(self).wf(),
            evolves(*old(self), *final(self)),
            r is Err ==> *final(self) == *old(self),
            !(1 <= evaluation <= 5) ==> r == Err::<EvalReceipt, DomainError>(
                DomainError::EvaluationOutOfRange,
            ),
            1 <= evaluation <= 5 && !old(self).has_ride(ride_id) ==> r == Err::<
                EvalReceipt,
                DomainError,
            >(DomainError::RideNotFound),
            1 <= evaluation <= 5 && old(self).has_ride(ride_id) && old(self).history_of(
                ride_id,
            ).last() != RideStatus::Arrived ==> r == Err::<EvalReceipt, DomainError>(
                DomainError::RideNotArrived,
            ),
            1 <= evaluation <= 5 && old(self).has_ride(ride_id) && old(self).history_of(
                ride_id,
            ).last() == RideStatus::Arrived && !old(self).has_payment_token(
                old(self).rides@[old(self).ride_index_of(ride_id)].user_id,
            ) ==> r == Err::<EvalReceipt, DomainError>(DomainError::PaymentTokenMissing),
            old(self).evaluation_accepted(ride_id, evaluation) ==> r is Ok,
            r matches Ok(receipt) ==> ({
                let i = old(self).ride_index_of(ride_id);
                &&& old(self).evaluation_accepted(ride_id, evaluation)
                &&& receipt.fare == old(self).ride_fare(i)
                &&& receipt.completed_at == now
                &&& final(self).rides@ == old(self).rides@.update(
                    i,
                    (Ride {
                        evaluation: Some(evaluation),
                        updated_at: now,
                        ..old(self).rides@[i]
                    }),
                )
                &&& final(self).events@ == old(self).events@.push(
                    (StatusEvent { ride_id, status: RideStatus::Completed, at: now }),
                )
                &&& final(self).history_of(ride_id) == old(self).history_of(ride_id).push(
                    RideStatus::Completed,
                )
                &&& final(self).coupons@ == old(self).coupons@
                &&& final(self).users@ == old(self).users@
                &&& final(self).chairs@ == old(self).chairs@
                &&& final(self).owners@ == old(self).owners@
                &&& final(self).pings@ == old(self).pings@
                &&& final(self).payment_tokens@ == old(self).payment_tokens@
                &&& final(self).next_id == old(self).next_id
                &&& final(self).clock == now
            }),
    {
        let fare = match self.plan_evaluation(ride_id, evaluation) {
            Ok(f) => f,
            Err(e) => {
                return Err(e);
            },
        };
        let i = match self.find_ride(ride_id) {
            Some(i) => i,
            None => {
                proof {
                    assert(false);
                }
                return Err(DomainError::RideNotFound);
            },
        };
        proof {
            self.lemma_ride_index(i as int);
        }
        let ride = self.rides[i];
        self.rides[i] = Ride {
            id: ride.id,
            user_id: ride.user_id,
            pickup: ride.pickup,
            destination: ride.destination,
            chair_id: ride.chair_id,
            evaluation: Some(evaluation),
            created_at: ride.created_at,
            updated_at: now,
        };
        self.events.push(StatusEvent { ride_id, status: RideStatus::Completed, at: now });
        self.clock = now;
        proof {
            let pre = *old(self);
            let post = *self;
            let idx = i as int;
            let ev = StatusEvent { ride_id, status: RideStatus::Completed, at: now };
            assert(post.rides@ == pre.rides@.update(
                idx,
                (Ride { evaluation: Some(evaluation), updated_at: now, ..pre.rides@[idx] }),
            ));
            // Histories: only this ride gains the terminal event.
            assert forall|x: u64| x != ride_id implies ride_history(post.events@, x)
                == ride_history(pre.events@, x) by {
                lemma_ride_history_push(pre.events@, ev, x);
            }
            lemma_ride_history_push(pre.events@, ev, ride_id);
            assert(ride_history(post.events@, ride_id) == ride_history(pre.events@, ride_id).push(
                RideStatus::Completed,
            ));
            assert forall|j: int|
                0 <= j < pre.rides@.len() && j != idx implies post.history_at(j)
                    == pre.history_at(j) && post.rides@[j] == pre.rides@[j] by {
                assert(pre.rides@[j].id != ride_id);
            }
            assert(valid_history(post.history_at(idx))) by {
                lemma_valid_history_push(pre.history_at(idx), RideStatus::Completed);
            }
            assert(post.status_at(idx) == RideStatus::Completed);
            // Existence predicates carry over: ids are untouched.
            assert forall|x: u64| pre.has_ride(x) implies post.has_ride(x) by {
                let j = choose|j: int|
                    0 <= j < pre.rides@.len() && (#[trigger] pre.rides@[j]).id == x;
                assert(post.rides@[j].id == x);
            }
            assert forall|x: u64| post.has_ride(x) implies pre.has_ride(x) by {
                let j = choose|j: int|
                    0 <= j < post.rides@.len() && (#[trigger] post.rides@[j]).id == x;
                assert(pre.rides@[j].id == x);
            }
            assert forall|j: int| 0 <= j < pre.rides@.len() implies pre.active_at(j)
                || !post.active_at(j) by {}
            assert forall|a: int| 0 <= a < post.rides@.len() implies (#[trigger] post.rides@[a]).id
                == pre.rides@[a].id && post.rides@[a].user_id == pre.rides@[a].user_id
                && post.rides@[a].chair_id == pre.rides@[a].chair_id by {}
            assert(post.rides@[idx].id == ride_id);
            assert(post.has_ride(ride_id));
            lemma_existence_unchanged(pre, post);
            lemma_ride_ids_unchanged(pre, post);
            assert forall|j: int| 0 <= j < post.events@.len() implies post.has_ride(
                (#[trigger] post.events@[j]).ride_id,
            ) by {
                if j < pre.events@.len() {
                    assert(pre.events@[j] == post.events@[j]);
                    assert(pre.has_ride(pre.events@[j].ride_id));
                } else {
                    assert(post.events@[j] == ev);
                }
            }
            assert(post.ids_ok());
            assert(post.clock_ok());
            assert(post.rides_ok());
            assert(post.coupons_ok());
            assert(post.invitation_cap_ok());
            assert(post.active_ok());
            assert(pre.events@.is_prefix_of(post.events@)) by {
                assert(post.events@.take(pre.events@.len() as int) =~= pre.events@);
            }
            assert(evolves(pre, post));
        }
        Ok(EvalReceipt { fare, completed_at: now })
    }
}

} // verus!
