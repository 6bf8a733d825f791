//! Per-driver historical metrics, derived from completed rides: path
//! distances along the recorded pings, carry durations, and evaluation
//! totals.

use crate::coupon::{first_match, lemma_first_match_found, lemma_first_match_push};
use crate::geo::{grid_distance, manhattan_distance, Coordinate};
use crate::status::{valid_history, RideStatus, StatusEvent};
use crate::world::{
    lemma_filter_push, lemma_ride_events_push, ride_events, DomainError, LocationPing, World,
};
use vstd::prelude::*;

verus! {

/// An upper bound on any single grid distance between two coordinates.
pub const MAX_LEG_DISTANCE: i64 = 0x2_0000_0000;

/// One qualifying ride in a driver's recent history.
#[derive(Clone, Copy, Debug, PartialEq, Eq, Structural)]
pub struct RecentRide {
    pub ride_id: u64,
    pub pickup: Coordinate,
    pub destination: Coordinate,
    /// Path length pickup -> recorded pings -> destination, by grid distance.
    pub distance: i128,
    /// Time between the first `Carrying` and the first `Arrived` event.
    pub duration: i64,
    pub evaluation: i64,
}

/// A driver's aggregate history.
pub struct ChairStats {
    /// Up to five most recent qualifying rides, most recently created first.
    pub recent: Vec<RecentRide>,
    /// Every ride ever assigned to the chair, qualifying or not.
    pub total_rides: usize,
    /// Sum of evaluations over the qualifying rides alone.  Averaging it over
    /// `total_rides` reproduces the diluted mean the service reports.
    pub evaluation_sum: i128,
}

/// Whether an event carries status `s`.
pub open spec fn status_pred(s: RideStatus) -> spec_fn(StatusEvent) -> bool {
    |e: StatusEvent| e.status == s
}

/// Total grid distance of the path `from -> points[0] -> ... -> to`.
pub open spec fn chain_distance(from: Coordinate, points: Seq<Coordinate>, to: Coordinate) -> int
    decreases points.len(),
{
    if points.len() == 0 {
        grid_distance(from, to)
    } else {
        grid_distance(from, points[0]) + chain_distance(points[0], points.skip(1), to)
    }
}

impl World {
    /// The coordinates the chair reported inside a time window, in order.
    pub open spec fn window_points(self, cid: u64, lo: int, hi: int) -> Seq<Coordinate> {
        self.pings@.filter(|p: LocationPing| p.chair_id == cid && lo <= p.at <= hi).map_values(
            |p: LocationPing| p.coord,
        )
    }

    /// Whether the ride's history ever reached status `s`.
    pub open spec fn reaches(self, rid: u64, s: RideStatus) -> bool {
        first_match(ride_events(self.events@, rid), status_pred(s)) >= 0
    }

    /// Timestamp of the first event that put the ride into status `s`.
    pub open spec fn first_time_of(self, rid: u64, s: RideStatus) -> int {
        let evs = ride_events(self.events@, rid);
        evs[first_match(evs, status_pred(s))].at as int
    }

    /// Whether the ride at position `i` is assigned to the chair.
    pub open spec fn assigned_to(self, cid: u64, i: int) -> bool {
        self.rides@[i].chair_id == Some(cid)
    }

    /// Whether the ride at position `i` counts towards the recent history:
    /// it was carried, arrived, and was completed.
    pub open spec fn stats_qualifies(self, i: int) -> bool {
        &&& self.reaches(self.rides@[i].id, RideStatus::Carrying)
        &&& self.reaches(self.rides@[i].id, RideStatus::Arrived)
        &&& self.status_at(i) == RideStatus::Completed
    }

    /// The recent-history record of the ride at position `i`.
    pub open spec fn recent_ride_at(self, i: int) -> RecentRide {
        RecentRide {
            ride_id: self.rides@[i].id,
            pickup: self.rides@[i].pickup,
            destination: self.rides@[i].destination,
            distance: chain_distance(
                self.rides@[i].pickup,
                self.window_points(
                    self.rides@[i].chair_id->0,
                    self.rides@[i].created_at as int,
                    self.rides@[i].updated_at as int,
                ),
                self.rides@[i].destination,
            ) as i128,
            duration: (self.first_time_of(self.rides@[i].id, RideStatus::Arrived)
                - self.first_time_of(self.rides@[i].id, RideStatus::Carrying)) as i64,
            evaluation: self.rides@[i].evaluation->0,
        }
    }

    /// How many of the first `n` rides are assigned to the chair.
    pub open spec fn assigned_count_upto(self, cid: u64, n: int) -> int
        decreases n,
    {
        if n <= 0 {
            0
        } else {
            self.assigned_count_upto(cid, n - 1) + if self.assigned_to(cid, n - 1) {
                1int
            } else {
                0int
            }
        }
    }

    /// The chair's qualifying rides among the first `n`, in creation order.
    pub open spec fn qualifying_upto(self, cid: u64, n: int) -> Seq<RecentRide>
        decreases n,
    {
        if n <= 0 {
            Seq::empty()
        } else {
            let rest = self.qualifying_upto(cid, n - 1);
            if self.assigned_to(cid, n - 1) && self.stats_qualifies(n - 1) {
                rest.push(self.recent_ride_at(n - 1))
            } else {
                rest
            }
        }
    }

    /// Sum of evaluations over the chair's qualifying rides among the first
    /// `n`.
    pub open spec fn eval_sum_upto(self, cid: u64, n: int) -> int
        decreases n,
    {
        if n <= 0 {
            0
        } else {
            self.eval_sum_upto(cid, n - 1) + if self.assigned_to(cid, n - 1)
                && self.stats_qualifies(n - 1) {
                self.rides@[n - 1].evaluation->0 as int
            } else {
                0int
            }
        }
    }

    /// First `Carrying` and first `Arrived` timestamps of a ride, if any.
    fn ride_phase_times(&self, rid: u64) -> (r: (Option<i64>, Option<i64>))
        requires
            self.wf(),
        ensures
            ({
                let evs = ride_events(self.events@, rid);
                let kc = first_match(evs, status_pred(RideStatus::Carrying));
                let ka = first_match(evs, status_pred(RideStatus::Arrived));
                &&& (r.0 is Some <==> kc >= 0)
                &&& (kc >= 0 ==> r.0 == Some(evs[kc].at) && 0 <= evs[kc].at <= self.clock)
                &&& (r.1 is Some <==> ka >= 0)
                &&& (ka >= 0 ==> r.1 == Some(evs[ka].at) && 0 <= evs[ka].at <= self.clock)
            }),
    {
        let ghost pc = status_pred(RideStatus::Carrying);
        let ghost pa = status_pred(RideStatus::Arrived);
        let n = self.events.len();
        let mut car: Option<i64> = None;
        let mut arr: Option<i64> = None;
        let mut i: usize = 0;
        proof {
            assert(self.events@.take(0int) =~= Seq::<StatusEvent>::empty());
            reveal(Seq::filter);
        }
        while i < n
            invariant
                i <= n,
                n == self.events@.len(),
                self.wf(),
                pc == status_pred(RideStatus::Carrying),
                pa == status_pred(RideStatus::Arrived),
                ({
                    let evs = ride_events(self.events@.take(i as int), rid);
                    let kc = first_match(evs, pc);
                    let ka = first_match(evs, pa);
                    &&& (car is Some <==> kc >= 0)
                    &&& (kc >= 0 ==> car == Some(evs[kc].at) && 0 <= evs[kc].at <= self.clock)
                    &&& (arr is Some <==> ka >= 0)
                    &&& (ka >= 0 ==> arr == Some(evs[ka].at) && 0 <= evs[ka].at <= self.clock)
                }),
            decreases n - i,
        {
            let ev = self.events[i];
            proof {
                assert(self.events@.take(i + 1int) =~= self.events@.take(i as int).push(
                    self.events@[i as int],
                ));
                lemma_ride_events_push(self.events@.take(i as int), self.events@[i as int], rid);
                let evs = ride_events(self.events@.take(i as int), rid);
                if first_match(evs, pc) >= 0 {
                    lemma_first_match_found(evs, pc);
                }
                if first_match(evs, pa) >= 0 {
                    lemma_first_match_found(evs, pa);
                }
                if self.events@[i as int].ride_id == rid {
                    lemma_first_match_push(
                        ride_events(self.events@.take(i as int), rid),
                        self.events@[i as int],
                        pc,
                    );
                    lemma_first_match_push(
                        ride_events(self.events@.take(i as int), rid),
                        self.events@[i as int],
                        pa,
                    );
                }
            }
            if ev.ride_id == rid {
                if car.is_none() && matches!(ev.status, RideStatus::Carrying) {
                    car = Some(ev.at);
                }
                if arr.is_none() && matches!(ev.status, RideStatus::Arrived) {
                    arr = Some(ev.at);
                }
            }
            i = i + 1;
        }
        proof {
            assert(self.events@.take(n as int) =~= self.events@);
        }
        (car, arr)
    }

    /// Path distance `from -> pings of the chair inside the window -> to`.
    fn window_distance(&self, cid: u64, lo: i64, hi: i64, from: Coordinate, to: Coordinate) -> (d:
        i128)
        ensures
            d == chain_distance(from, self.window_points(cid, lo as int, hi as int), to),
            d >= 0,
    {
        let ghost pred = |p: LocationPing| p.chair_id == cid && lo <= p.at <= hi;
        let n = self.pings.len();
        let mut pts: Vec<Coordinate> = Vec::new();
        let mut i: usize = 0;
        proof {
            assert(self.pings@.take(0int) =~= Seq::<LocationPing>::empty());
            reveal(Seq::filter);
        }
        while i < n
            invariant
                i <= n,
                n == self.pings@.len(),
                pred == (|p: LocationPing| p.chair_id == cid && lo <= p.at <= hi),
                pts@ == self.pings@.take(i as int).filter(pred).map_values(
                    |p: LocationPing| p.coord,
                ),
            decreases n - i,
        {
            let p = self.pings[i];
            proof {
                assert(self.pings@.take(i + 1int) =~= self.pings@.take(i as int).push(
                    self.pings@[i as int],
                ));
                lemma_filter_push(self.pings@.take(i as int), self.pings@[i as int], pred);
                if pred(self.pings@[i as int]) {
                    assert(self.pings@.take(i as int).filter(pred).push(
                        self.pings@[i as int],
                    ).map_values(|q: LocationPing| q.coord) =~= self.pings@.take(i as int).filter(
                        pred,
                    ).map_values(|q: LocationPing| q.coord).push(self.pings@[i as int].coord));
                }
            }
            if p.chair_id == cid && lo <= p.at && p.at <= hi {
                pts.push(p.coord);
            }
            i = i + 1;
        }
        proof {
            assert(self.pings@.take(n as int) =~= self.pings@);
            assert(pts@ == self.window_points(cid, lo as int, hi as int));
        }
        let m = pts.len();
        let mut acc: i128 = 0;
        let mut last = from;
        let mut j: usize = 0;
        proof {
            assert(pts@.skip(0int) =~= pts@);
        }
        while j < m
            invariant
                j <= m,
                m == pts@.len(),
                0 <= acc <= (j as int) * (MAX_LEG_DISTANCE as int),
                acc + chain_distance(last, pts@.skip(j as int), to) == chain_distance(
                    from,
                    pts@,
                    to,
                ),
            decreases m - j,
        {
            let p = pts[j];
            let leg = manhattan_distance(last, p);
            proof {
                assert(pts@.skip(j as int)[0] == pts@[j as int]);
                assert(pts@.skip(j as int).skip(1) =~= pts@.skip(j as int + 1));
                assert(chain_distance(last, pts@.skip(j as int), to) == grid_distance(
                    last,
                    pts@[j as int],
                ) + chain_distance(pts@[j as int], pts@.skip(j as int + 1), to));
            }
            acc = acc + leg as i128;
            last = p;
            j = j + 1;
        }
        proof {
            assert(pts@.skip(m as int) =~= Seq::<Coordinate>::empty());
        }
        let tail = manhattan_distance(last, to);
        acc + tail as i128
    }

    /// A driver's history: total assigned rides, the evaluation total over
    /// qualifying rides, and up to five most recent qualifying rides with
    /// their path distance and carry duration.
    #[verifier::rlimit(100)]
    pub fn chair_stats(&self, chair_id: u64) -> (r: Result<ChairStats, DomainError>)
        requires
            self.wf(),
        ensures
            !self.has_chair(chair_id) ==> r == Err::<ChairStats, DomainError>(
                DomainError::ChairNotFound,
            ),
            self.has_chair(chair_id) ==> r is Ok,
            r matches Ok(s) ==> ({
                let q = self.qualifying_upto(chair_id, self.rides@.len() as int);
                &&& s.total_rides == self.assigned_count_upto(chair_id, self.rides@.len() as int)
                &&& s.evaluation_sum == self.eval_sum_upto(chair_id, self.rides@.len() as int)
                &&& s.recent@ == q.reverse().take(
                    if q.len() < 5 {
                        q.len() as int
                    } else {
                        5
                    },
                )
            }),
    {
        if self.find_chair(chair_id).is_none() {
            return Err(DomainError::ChairNotFound);
        }
        let n = self.rides.len();
        let mut total: usize = 0;
        let mut sum: i128 = 0;
        let mut allq: Vec<RecentRide> = Vec::new();
        let mut i: usize = 0;
        while i < n
            invariant
                i <= n,
                n == self.rides@.len(),
                self.wf(),
                total <= i,
                total as int == self.assigned_count_upto(chair_id, i as int),
                sum == self.eval_sum_upto(chair_id, i as int),
                allq@ == self.qualifying_upto(chair_id, i as int),
                sum <= (i as int) * 5,
                sum >= 0,
            decreases n - i,
        {
            let ride = self.rides[i];
            let assigned = match ride.chair_id {
                Some(c) => c == chair_id,
                None => false,
            };
            if assigned {
                total = total + 1;
                let (car, arr) = self.ride_phase_times(ride.id);
                proof {
                    assert(valid_history(self.history_at(i as int)));
                }
                let status = self.current_status(ride.id);
                if car.is_some() && arr.is_some() && matches!(status, RideStatus::Completed) {
                    let rode_at = match car {
                        Some(t) => t,
                        None => 0,
                    };
                    let arrived_at = match arr {
                        Some(t) => t,
                        None => 0,
                    };
                    let distance = self.window_distance(
                        chair_id,
                        ride.created_at,
                        ride.updated_at,
                        ride.pickup,
                        ride.destination,
                    );
                    let evaluation = match ride.evaluation {
                        Some(e) => e,
                        None => {
                            proof {
                                assert(false);
                            }
                            0
                        },
                    };
                    allq.push(
                        RecentRide {
                            ride_id: ride.id,
                            pickup: ride.pickup,
                            destination: ride.destination,
                            distance,
                            duration: arrived_at - rode_at,
                            evaluation,
                        },
                    );
                    sum = sum + evaluation as i128;
                    proof {
                        assert(allq@.last() == self.recent_ride_at(i as int));
                    }
                }
            }
            i = i + 1;
        }
        let m = allq.len();
        let mut recent: Vec<RecentRide> = Vec::new();
        let mut j: usize = m;
        while j > 0 && recent.len() < 5
            invariant
                j <= m,
                m == allq@.len(),
                recent@.len() == if m - j < 5 {
                    m - j
                } else {
                    5
                },
                recent@.len() < 5 ==> j == m - recent@.len(),
                forall|k: int| 0 <= k < recent@.len() ==> recent@[k] == allq@[m - 1 - k],
            decreases j,
        {
            j = j - 1;
            recent.push(allq[j]);
        }
        proof {
            let q = self.qualifying_upto(chair_id, n as int);
            let want = q.reverse().take(
                if q.len() < 5 {
                    q.len() as int
                } else {
                    5
                },
            );
            assert(recent@ =~= want);
        }
        Ok(ChairStats { recent, total_rides: total, evaluation_sum: sum })
    }
}

} // verus!
