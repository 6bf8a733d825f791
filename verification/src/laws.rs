//! The engine's global guarantees, stated and proved once over any
//! well-formed store and any chain of operations.

use crate::coupon::{
    bound_choice, bound_discount, count_invitation, first_match, lemma_first_match_found,
    lemma_first_match_is, Coupon, INVITATION_CAP,
};
use crate::fare::spec_fare;
use crate::stats::status_pred;
use crate::status::{
    is_terminal, lemma_carrying_precedes_arrived, lemma_terminal_is_final, valid_history,
    RideStatus, StatusEvent,
};
use crate::world::{
    coupon_evolves, evolves, lemma_ride_events_chronological, ride_events, ride_evolves, World,
};
use crate::INITIAL_FARE;
use vstd::prelude::*;

verus! {

/// Every ride of a well-formed store has a non-empty status history that
/// starts at `Matching` and advances only through authorized transitions.
pub proof fn lemma_history_always_valid(w: World, i: int)
    requires
        w.wf(),
        0 <= i < w.rides@.len(),
    ensures
        valid_history(w.history_at(i)),
        w.history_at(i).len() > 0,
{
}

/// No status event ever follows a terminal one: a ride that reached
/// `Completed` or `Canceled` is closed for good.
pub proof fn lemma_no_event_after_terminal(w: World, i: int, k: int)
    requires
        w.wf(),
        0 <= i < w.rides@.len(),
        0 <= k < w.history_at(i).len(),
        is_terminal(w.history_at(i)[k]),
    ensures
        k == w.history_at(i).len() - 1,
{
    lemma_terminal_is_final(w.history_at(i), k);
}

/// A coupon's `used_by` transitions at most once from `None` to a ride id:
/// across any operation, a consumed coupon stays bound to the same ride, and
/// its issuance never changes.
pub proof fn lemma_coupon_consumed_once(pre: World, post: World, i: int)
    requires
        evolves(pre, post),
        0 <= i < pre.coupons@.len(),
        pre.coupons@[i].used_by is Some,
    ensures
        post.coupons@[i].used_by == pre.coupons@[i].used_by,
        post.coupons@[i].discount == pre.coupons@[i].discount,
        post.coupons@[i].code == pre.coupons@[i].code,
{
    assert(coupon_evolves(pre.coupons@[i], post.coupons@[i]));
}

/// A ride's chair assignment is set at most once and never cleared, and its
/// route never changes.
pub proof fn lemma_assignment_set_once(pre: World, post: World, i: int)
    requires
        evolves(pre, post),
        0 <= i < pre.rides@.len(),
        pre.rides@[i].chair_id is Some,
    ensures
        post.rides@[i].chair_id == pre.rides@[i].chair_id,
        post.rides@[i].pickup == pre.rides@[i].pickup,
        post.rides@[i].destination == pre.rides@[i].destination,
{
    assert(ride_evolves(pre.rides@[i], post.rides@[i]));
}

/// A user has at most one ride in progress at any time.
pub proof fn lemma_one_active_ride_per_user(w: World, i: int, j: int)
    requires
        w.wf(),
        0 <= i < w.rides@.len(),
        0 <= j < w.rides@.len(),
        w.rides@[i].user_id == w.rides@[j].user_id,
        w.active_at(i),
        w.active_at(j),
    ensures
        i == j,
{
}

/// A chair serves at most one ride in progress at any time.
pub proof fn lemma_one_active_ride_per_chair(w: World, i: int, j: int)
    requires
        w.wf(),
        0 <= i < w.rides@.len(),
        0 <= j < w.rides@.len(),
        w.rides@[i].chair_id is Some,
        w.rides@[i].chair_id == w.rides@[j].chair_id,
        w.active_at(i),
        w.active_at(j),
    ensures
        i == j,
{
}

/// No invitation code of a well-formed store ever has more than
/// [`INVITATION_CAP`] redemption coupons.
pub proof fn lemma_invitation_cap_holds(w: World, code: u64)
    requires
        w.wf(),
    ensures
        count_invitation(w.coupons@, code) <= INVITATION_CAP,
{
}

/// The fare never drops below the initial fare, whatever the discount.
pub proof fn lemma_ride_fare_floor(w: World, i: int)
    requires
        0 <= i < w.rides@.len(),
    ensures
        w.ride_fare(i) >= INITIAL_FARE,
{
    crate::fare::lemma_fare_floor(
        w.rides@[i].pickup,
        w.rides@[i].destination,
        bound_discount(w.coupons@, w.rides@[i].id),
    );
}

/// The fare is a pure function of pickup, destination and the bound
/// discount: two rides agreeing on those three agree on the fare, in any two
/// stores.
pub proof fn lemma_fare_deterministic(w1: World, w2: World, i: int, j: int)
    requires
        0 <= i < w1.rides@.len(),
        0 <= j < w2.rides@.len(),
        w1.rides@[i].pickup == w2.rides@[j].pickup,
        w1.rides@[i].destination == w2.rides@[j].destination,
        bound_discount(w1.coupons@, w1.rides@[i].id) == bound_discount(
            w2.coupons@,
            w2.rides@[j].id,
        ),
    ensures
        w1.ride_fare(i) == w2.ride_fare(j),
{
}

/// A ride is never recorded as arriving before it started carrying: the
/// carry duration the statistics report is non-negative.
pub proof fn lemma_duration_nonnegative(w: World, i: int)
    requires
        w.wf(),
        0 <= i < w.rides@.len(),
        w.reaches(w.rides@[i].id, RideStatus::Carrying),
        w.reaches(w.rides@[i].id, RideStatus::Arrived),
    ensures
        w.first_time_of(w.rides@[i].id, RideStatus::Arrived) >= w.first_time_of(
            w.rides@[i].id,
            RideStatus::Carrying,
        ),
{
    let rid = w.rides@[i].id;
    let evs = ride_events(w.events@, rid);
    let pc = status_pred(RideStatus::Carrying);
    let pa = status_pred(RideStatus::Arrived);
    let kc = first_match(evs, pc);
    let ka = first_match(evs, pa);
    lemma_first_match_found(evs, pc);
    lemma_first_match_found(evs, pa);
    let h = w.history_at(i);
    assert(valid_history(h));
    assert(h == evs.map_values(|e: StatusEvent| e.status));
    assert(h[ka] == RideStatus::Arrived);
    lemma_carrying_precedes_arrived(h, ka);
    let c = choose|c: int| 0 <= c < ka && h[c] == RideStatus::Carrying;
    assert(pc(evs[c]));
    assert(kc <= c < ka);
    lemma_ride_events_chronological(w.events@, rid);
    assert(evs[kc].at <= evs[ka].at);
}

/// Once a coupon is bound to a ride, every later fare query for that ride
/// sees the same discount and returns the same fare: the estimate quoted at
/// creation equals the amount settled at evaluation.
pub proof fn lemma_bound_fare_stable(pre: World, post: World, rid: u64)
    requires
        pre.wf(),
        post.wf(),
        evolves(pre, post),
        pre.has_ride(rid),
        bound_choice(pre.coupons@, rid) >= 0,
    ensures
        post.has_ride(rid),
        bound_choice(post.coupons@, rid) == bound_choice(pre.coupons@, rid),
        bound_discount(post.coupons@, rid) == bound_discount(pre.coupons@, rid),
        post.ride_fare(post.ride_index_of(rid)) == pre.ride_fare(pre.ride_index_of(rid)),
{
    let pred = |c: Coupon| c.used_by == Some(rid);
    let k = bound_choice(pre.coupons@, rid);
    lemma_first_match_found(pre.coupons@, pred);
    assert(coupon_evolves(pre.coupons@[k], post.coupons@[k]));
    assert(pred(post.coupons@[k]));
    assert forall|j: int| 0 <= j < k implies !pred(#[trigger] post.coupons@[j]) by {
        if post.coupons@[j].used_by == Some(rid) {
            assert(post.coupons@[j].used_by is Some);
            assert(post.coupons@[k].used_by != post.coupons@[j].used_by);
        }
    }
    lemma_first_match_is(post.coupons@, pred, k);
    let i = pre.ride_index_of(rid);
    pre.lemma_ride_index(i);
    assert(pre.rides@[i].id == rid);
    assert(ride_evolves(pre.rides@[i], post.rides@[i]));
    assert(post.rides@[i].id == rid);
    assert(post.has_ride(rid));
    post.lemma_ride_index(i);
}

} // verus!
