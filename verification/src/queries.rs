//! Read-only queries: ride views, a user's completed rides, and the
//! nearby-chair search.  None of them writes anything.

use crate::fare::calculate_discounted_fare;
use crate::geo::{grid_distance, manhattan_distance, Coordinate};
use crate::status::{valid_history, RideStatus};
use crate::world::{lemma_filter_push, Chair, DomainError, LocationPing, World};
use vstd::prelude::*;

verus! {

/// How long a chair's latest ping stays fresh for the nearby search, in
/// milliseconds.
pub const PING_FRESHNESS_MS: i64 = 300000;

/// Search radius of the nearby-chair search when none is given.
pub const DEFAULT_NEARBY_RADIUS: i64 = 50;

/// A rendering of one ride for passengers and drivers.
#[derive(Clone, Copy, Debug, PartialEq, Eq, Structural)]
pub struct RideView {
    pub ride_id: u64,
    pub user_id: u64,
    pub pickup: Coordinate,
    pub destination: Coordinate,
    pub status: RideStatus,
    pub chair_id: Option<u64>,
    pub evaluation: Option<i64>,
    pub created_at: i64,
    pub updated_at: i64,
}

/// One settled ride in a passenger's history.
#[derive(Clone, Copy, Debug, PartialEq, Eq, Structural)]
pub struct CompletedRide {
    pub ride_id: u64,
    pub chair_id: u64,
    pub pickup: Coordinate,
    pub destination: Coordinate,
    pub fare: i64,
    pub evaluation: i64,
    pub requested_at: i64,
    pub completed_at: i64,
}

impl World {
    /// The view of the ride at table position `i`.
    pub open spec fn ride_view_at(self, i: int) -> RideView {
        RideView {
            ride_id: self.rides@[i].id,
            user_id: self.rides@[i].user_id,
            pickup: self.rides@[i].pickup,
            destination: self.rides@[i].destination,
            status: self.status_at(i),
            chair_id: self.rides@[i].chair_id,
            evaluation: self.rides@[i].evaluation,
            created_at: self.rides@[i].created_at,
            updated_at: self.rides@[i].updated_at,
        }
    }

    /// Look one ride up by id.
    pub fn get_ride(&self, ride_id: u64) -> (r: Result<RideView, DomainError>)
        requires
            self.wf(),
        ensures
            !self.has_ride(ride_id) ==> r == Err::<RideView, DomainError>(DomainError::RideNotFound),
            self.has_ride(ride_id) ==> r == Ok::<RideView, DomainError>(
                self.ride_view_at(self.ride_index_of(ride_id)),
            ),
    {
        let i = match self.find_ride(ride_id) {
            Some(i) => i,
            None => {
                return Err(DomainError::RideNotFound);
            },
        };
        proof {
            self.lemma_ride_index(i as int);
            assert(valid_history(self.history_at(i as int)));
        }
        let ride = self.rides[i];
        let status = self.current_status(ride_id);
        Ok(
            RideView {
                ride_id,
                user_id: ride.user_id,
                pickup: ride.pickup,
                destination: ride.destination,
                status,
                chair_id: ride.chair_id,
                evaluation: ride.evaluation,
                created_at: ride.created_at,
                updated_at: ride.updated_at,
            },
        )
    }

    /// The user's most recently created ride, if any: what a passenger's
    /// notification poll reports.
    pub fn latest_ride_of_user(&self, user_id: u64) -> (r: Option<RideView>)
        requires
            self.wf(),
        ensures
            r is None <==> !self.user_has_any_ride(user_id),
            r matches Some(v) ==> exists|i: int|
                0 <= i < self.rides@.len() && (#[trigger] self.rides@[i]).user_id == user_id && v
                    == self.ride_view_at(i) && forall|j: int|
                    i < j < self.rides@.len() ==> (#[trigger] self.rides@[j]).user_id != user_id,
    {
        let n = self.rides.len();
        let mut i: usize = n;
        while i > 0
            invariant
                i <= n,
                n == self.rides@.len(),
                self.wf(),
                forall|j: int| i <= j < n ==> (#[trigger] self.rides@[j]).user_id != user_id,
            decreases i,
        {
            i = i - 1;
            if self.rides[i].user_id == user_id {
                proof {
                    assert(valid_history(self.history_at(i as int)));
                }
                let ride = self.rides[i];
                let status = self.current_status(ride.id);
                return Some(
                    RideView {
                        ride_id: ride.id,
                        user_id: ride.user_id,
                        pickup: ride.pickup,
                        destination: ride.destination,
                        status,
                        chair_id: ride.chair_id,
                        evaluation: ride.evaluation,
                        created_at: ride.created_at,
                        updated_at: ride.updated_at,
                    },
                );
            }
        }
        None
    }

    /// Whether the ride at position `i` belongs to `uid` and is completed.
    pub open spec fn completed_of_user_at(self, uid: u64, i: int) -> bool {
        self.rides@[i].user_id == uid && self.status_at(i) == RideStatus::Completed
    }

    /// The settled-ride record of the ride at position `i`.
    pub open spec fn completed_ride_at(self, i: int) -> CompletedRide {
        CompletedRide {
            ride_id: self.rides@[i].id,
            chair_id: self.rides@[i].chair_id->0,
            pickup: self.rides@[i].pickup,
            destination: self.rides@[i].destination,
            fare: self.ride_fare(i) as i64,
            evaluation: self.rides@[i].evaluation->0,
            requested_at: self.rides@[i].created_at,
            completed_at: self.rides@[i].updated_at,
        }
    }

    /// The user's completed rides among the first `n` table positions, in
    /// creation order.
    pub open spec fn completed_rides_upto(self, uid: u64, n: int) -> Seq<CompletedRide>
        decreases n,
    {
        if n <= 0 {
            Seq::empty()
        } else {
            let rest = self.completed_rides_upto(uid, n - 1);
            if self.completed_of_user_at(uid, n - 1) {
                rest.push(self.completed_ride_at(n - 1))
            } else {
                rest
            }
        }
    }

    /// The user's ride history: every completed ride with its settled fare,
    /// most recently created first.
    pub fn completed_rides_of_user(&self, user_id: u64) -> (r: Vec<CompletedRide>)
        requires
            self.wf(),
        ensures
            r@ == self.completed_rides_upto(user_id, self.rides@.len() as int).reverse(),
    {
        let n = self.rides.len();
        let mut acc: Vec<CompletedRide> = Vec::new();
        let mut i: usize = 0;
        while i < n
            invariant
                i <= n,
                n == self.rides@.len(),
                self.wf(),
                acc@ == self.completed_rides_upto(user_id, i as int),
            decreases n - i,
        {
            let ride = self.rides[i];
            if ride.user_id == user_id {
                proof {
                    assert(valid_history(self.history_at(i as int)));
                }
                let status = self.current_status(ride.id);
                if matches!(status, RideStatus::Completed) {
                    let discount = match self.find_bound_coupon(ride.id) {
                        Some(k) => self.coupons[k].discount,
                        None => 0,
                    };
                    let fare = calculate_discounted_fare(ride.pickup, ride.destination, discount);
                    let chair = match ride.chair_id {
                        Some(c) => c,
                        None => {
                            proof {
                                assert(false);
                            }
                            0
                        },
                    };
                    let evaluation = match ride.evaluation {
                        Some(e) => e,
                        None => {
                            proof {
                                assert(false);
                            }
                            0
                        },
                    };
                    acc.push(
                        CompletedRide {
                            ride_id: ride.id,
                            chair_id: chair,
                            pickup: ride.pickup,
                            destination: ride.destination,
                            fare,
                            evaluation,
                            requested_at: ride.created_at,
                            completed_at: ride.updated_at,
                        },
                    );
                }
            }
            i = i + 1;
        }
        let m = acc.len();
        let mut out: Vec<CompletedRide> = Vec::new();
        let mut j: usize = m;
        while j > 0
            invariant
                j <= m,
                m == acc@.len(),
                out@.len() == m - j,
                forall|k: int| 0 <= k < out@.len() ==> out@[k] == acc@[m - 1 - k],
            decreases j,
        {
            j = j - 1;
            out.push(acc[j]);
        }
        proof {
            assert(out@ =~= acc@.reverse());
        }
        out
    }

    /// The chronological location log of one chair.
    pub open spec fn chair_pings(self, cid: u64) -> Seq<LocationPing> {
        self.pings@.filter(|p: LocationPing| p.chair_id == cid)
    }

    /// Whether a chair qualifies for the nearby search: no ride in progress,
    /// a ping reported within the freshness window, and that latest ping
    /// within the radius of the centre, by grid distance.
    pub open spec fn chair_eligible(self, cid: u64, center: Coordinate, radius: int, now: int)
        -> bool {
        &&& !self.chair_has_active_ride(cid)
        &&& self.chair_pings(cid).len() > 0
        &&& self.chair_pings(cid).last().at > now - PING_FRESHNESS_MS
        &&& grid_distance(center, self.chair_pings(cid).last().coord) <= radius
    }

    /// The chair's most recent location report, if any.
    pub fn latest_ping_of_chair(&self, cid: u64) -> (r: Option<LocationPing>)
        ensures
            match r {
                Some(p) => self.chair_pings(cid).len() > 0 && p == self.chair_pings(cid).last(),
                None => self.chair_pings(cid).len() == 0,
            },
    {
        let ghost pred = |p: LocationPing| p.chair_id == cid;
        let n = self.pings.len();
        let mut cur: Option<LocationPing> = None;
        let mut i: usize = 0;
        proof {
            assert(self.pings@.take(0int) =~= Seq::<LocationPing>::empty());
            reveal(Seq::filter);
        }
        while i < n
            invariant
                i <= n,
                n == self.pings@.len(),
                pred == (|p: LocationPing| p.chair_id == cid),
                match cur {
                    Some(p) => {
                        &&& self.pings@.take(i as int).filter(pred).len() > 0
                        &&& p == self.pings@.take(i as int).filter(pred).last()
                    },
                    None => self.pings@.take(i as int).filter(pred).len() == 0,
                },
            decreases n - i,
        {
            let p = self.pings[i];
            proof {
                assert(self.pings@.take(i + 1int) =~= self.pings@.take(i as int).push(
                    self.pings@[i as int],
                ));
                lemma_filter_push(self.pings@.take(i as int), self.pings@[i as int], pred);
            }
            if p.chair_id == cid {
                cur = Some(p);
            }
            i = i + 1;
        }
        proof {
            assert(self.pings@.take(n as int) =~= self.pings@);
        }
        cur
    }

    /// All chairs eligible around a centre, by table order.  The radius
    /// defaults to [`DEFAULT_NEARBY_RADIUS`] grid units.
    pub fn nearby_chairs(&self, now: i64, center: Coordinate, radius: Option<i64>) -> (r: Vec<u64>)
        requires
            self.wf(),
            now >= self.clock,
        ensures
            ({
                let rad: int = match radius {
                    Some(d) => d as int,
                    None => DEFAULT_NEARBY_RADIUS as int,
                };
                r@ == self.chairs@.filter(
                    |c: Chair| self.chair_eligible(c.id, center, rad, now as int),
                ).map_values(|c: Chair| c.id)
            }),
    {
        let rad = match radius {
            Some(d) => d,
            None => DEFAULT_NEARBY_RADIUS,
        };
        let ghost pred = |c: Chair| self.chair_eligible(c.id, center, rad as int, now as int);
        let n = self.chairs.len();
        let mut out: Vec<u64> = Vec::new();
        let mut i: usize = 0;
        proof {
            assert(self.chairs@.take(0int) =~= Seq::<Chair>::empty());
            reveal(Seq::filter);
        }
        while i < n
            invariant
                i <= n,
                n == self.chairs@.len(),
                self.wf(),
                now >= self.clock,
                pred == (|c: Chair| self.chair_eligible(c.id, center, rad as int, now as int)),
                out@ == self.chairs@.take(i as int).filter(pred).map_values(|c: Chair| c.id),
            decreases n - i,
        {
            let chair = self.chairs[i];
            proof {
                assert(self.chairs@.take(i + 1int) =~= self.chairs@.take(i as int).push(
                    self.chairs@[i as int],
                ));
                lemma_filter_push(self.chairs@.take(i as int), self.chairs@[i as int], pred);
            }
            let mut eligible = self.active_ride_of_chair(chair.id).is_none();
            if eligible {
                match self.latest_ping_of_chair(chair.id) {
                    Some(p) => {
                        if p.at <= now - PING_FRESHNESS_MS {
                            eligible = false;
                        } else if manhattan_distance(center, p.coord) > rad {
                            eligible = false;
                        }
                    },
                    None => {
                        eligible = false;
                    },
                }
            }
            if eligible {
                out.push(chair.id);
            }
            proof {
                if pred(self.chairs@[i as int]) {
                    assert(self.chairs@.take(i as int).filter(pred).push(
                        self.chairs@[i as int],
                    ).map_values(|c: Chair| c.id) =~= self.chairs@.take(i as int).filter(
                        pred,
                    ).map_values(|c: Chair| c.id).push(self.chairs@[i as int].id));
                }
            }
            i = i + 1;
        }
        proof {
            assert(self.chairs@.take(n as int) =~= self.chairs@);
        }
        out
    }
}

} // verus!
