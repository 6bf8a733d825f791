use isuride::geo::Coordinate;
use isuride::status::RideStatus;
use isuride::world::{DomainError, World};

/// Drive one ride from creation to completion and return its id.
fn complete_ride(
    w: &mut World,
    t: &mut i64,
    user: u64,
    chair: u64,
    pickup: Coordinate,
    destination: Coordinate,
    evaluation: i64,
) -> u64 {
    let receipt = w.create_ride(*t, user, pickup, destination).unwrap();
    w.poll_chair(*t + 1, chair).unwrap().unwrap();
    w.post_ride_status(*t + 2, chair, receipt.ride_id, RideStatus::Enroute).unwrap();
    w.post_coordinate(*t + 3, chair, pickup).unwrap();
    w.post_ride_status(*t + 4, chair, receipt.ride_id, RideStatus::Carrying).unwrap();
    w.post_coordinate(*t + 5, chair, destination).unwrap();
    w.apply_evaluation(*t + 6, receipt.ride_id, evaluation).unwrap();
    *t += 10;
    receipt.ride_id
}

fn setup() -> (World, u64, u64) {
    let mut w = World::new();
    let user = w.register_user(1, None).unwrap();
    w.register_payment_token(user).unwrap();
    let owner = w.register_owner(2);
    let chair = w.register_chair(3, owner).unwrap();
    (w, user, chair)
}

#[test]
fn stats_of_one_completed_ride() {
    let (mut w, user, chair) = setup();
    let mut t = 100;
    complete_ride(&mut w, &mut t, user, chair, Coordinate::new(0, 0), Coordinate::new(3, 4), 5);
    let stats = w.chair_stats(chair).unwrap();
    assert_eq!(stats.total_rides, 1);
    assert_eq!(stats.evaluation_sum, 5);
    assert_eq!(stats.recent.len(), 1);
    let r = &stats.recent[0];
    // Path: pickup -> ping at pickup -> ping at destination -> destination.
    assert_eq!(r.distance, 7);
    // Carrying was posted at t+4, Arrived fired at t+5.
    assert_eq!(r.duration, 1);
    assert_eq!(r.evaluation, 5);
}

#[test]
fn stats_count_unfinished_rides_but_do_not_average_them() {
    let (mut w, user, chair) = setup();
    let mut t = 100;
    complete_ride(&mut w, &mut t, user, chair, Coordinate::new(0, 0), Coordinate::new(1, 0), 4);
    // A second ride is claimed but never finished.
    let u2 = w.register_user(t, None).unwrap();
    w.create_ride(t + 1, u2, Coordinate::new(5, 5), Coordinate::new(6, 6)).unwrap();
    w.poll_chair(t + 2, chair).unwrap().unwrap();
    let stats = w.chair_stats(chair).unwrap();
    assert_eq!(stats.total_rides, 2);
    assert_eq!(stats.evaluation_sum, 4);
    assert_eq!(stats.recent.len(), 1);
}

#[test]
fn stats_keep_the_five_most_recent_rides() {
    let (mut w, user, chair) = setup();
    let mut t = 100;
    let mut ids = Vec::new();
    for k in 0..7i64 {
        let id = complete_ride(
            &mut w,
            &mut t,
            user,
            chair,
            Coordinate::new(0, 0),
            Coordinate::new(k as i32 + 1, 0),
            ((k % 5) + 1) as i64,
        );
        ids.push(id);
    }
    let stats = w.chair_stats(chair).unwrap();
    assert_eq!(stats.total_rides, 7);
    // 1+2+3+4+5+1+2
    assert_eq!(stats.evaluation_sum, 18);
    assert_eq!(stats.recent.len(), 5);
    // Most recently created first.
    assert_eq!(stats.recent[0].ride_id, ids[6]);
    assert_eq!(stats.recent[4].ride_id, ids[2]);
}

#[test]
fn stats_of_an_idle_chair_are_empty() {
    let (w, _, chair) = setup();
    let stats = w.chair_stats(chair).unwrap();
    assert_eq!(stats.total_rides, 0);
    assert_eq!(stats.evaluation_sum, 0);
    assert!(stats.recent.is_empty());
    assert!(matches!(w.chair_stats(999), Err(DomainError::ChairNotFound)));
}

#[test]
fn completed_rides_listing_is_most_recent_first() {
    let (mut w, user, chair) = setup();
    let mut t = 100;
    let first = complete_ride(&mut w, &mut t, user, chair, Coordinate::new(0, 0), Coordinate::new(3, 4), 5);
    let second = complete_ride(&mut w, &mut t, user, chair, Coordinate::new(1, 1), Coordinate::new(2, 2), 3);
    let listing = w.completed_rides_of_user(user);
    assert_eq!(listing.len(), 2);
    assert_eq!(listing[0].ride_id, second);
    assert_eq!(listing[1].ride_id, first);
    assert_eq!(listing[1].evaluation, 5);
    // The first ride consumed the signup bonus; the second had no coupon.
    assert_eq!(listing[1].fare, 300);
    assert_eq!(listing[0].fare, 300 + 200);
    assert_eq!(listing[0].chair_id, chair);
}

#[test]
fn an_unfinished_ride_is_not_listed() {
    let (mut w, user, _) = setup();
    w.create_ride(10, user, Coordinate::new(0, 0), Coordinate::new(3, 4)).unwrap();
    assert!(w.completed_rides_of_user(user).is_empty());
}

#[test]
fn latest_ride_notification() {
    let (mut w, user, chair) = setup();
    assert!(w.latest_ride_of_user(user).is_none());
    let mut t = 100;
    let first = complete_ride(&mut w, &mut t, user, chair, Coordinate::new(0, 0), Coordinate::new(1, 0), 5);
    let v = w.latest_ride_of_user(user).unwrap();
    assert_eq!(v.ride_id, first);
    assert_eq!(v.status, RideStatus::Completed);
    let second = w.create_ride(t, user, Coordinate::new(2, 2), Coordinate::new(3, 3)).unwrap();
    let v = w.latest_ride_of_user(user).unwrap();
    assert_eq!(v.ride_id, second.ride_id);
    assert_eq!(v.status, RideStatus::Matching);
    assert_eq!(v.chair_id, None);
}

#[test]
fn get_ride_reports_the_current_state() {
    let (mut w, user, chair) = setup();
    let receipt = w.create_ride(10, user, Coordinate::new(0, 0), Coordinate::new(3, 4)).unwrap();
    assert!(matches!(w.get_ride(424242), Err(DomainError::RideNotFound)));
    let v = w.get_ride(receipt.ride_id).unwrap();
    assert_eq!(v.status, RideStatus::Matching);
    assert_eq!(v.chair_id, None);
    assert_eq!(v.created_at, 10);
    w.poll_chair(20, chair).unwrap().unwrap();
    let v = w.get_ride(receipt.ride_id).unwrap();
    assert_eq!(v.chair_id, Some(chair));
    assert_eq!(v.updated_at, 20);
}

#[test]
fn nearby_chairs_filters_on_activity_freshness_and_radius() {
    let mut w = World::new();
    let user = w.register_user(1, None).unwrap();
    w.register_payment_token(user).unwrap();
    let owner = w.register_owner(2);
    let idle_near = w.register_chair(3, owner).unwrap();
    let idle_far = w.register_chair(4, owner).unwrap();
    let busy = w.register_chair(5, owner).unwrap();
    let silent = w.register_chair(6, owner).unwrap();

    w.post_coordinate(100, idle_near, Coordinate::new(10, 10)).unwrap();
    w.post_coordinate(101, idle_far, Coordinate::new(200, 200)).unwrap();
    w.post_coordinate(102, busy, Coordinate::new(10, 11)).unwrap();
    let receipt = w.create_ride(110, user, Coordinate::new(0, 0), Coordinate::new(3, 4)).unwrap();
    // `busy` claims the open ride and is therefore excluded.
    assert_eq!(w.poll_chair(120, busy).unwrap().map(|o| o.ride_id), Some(receipt.ride_id));

    let found = w.nearby_chairs(200, Coordinate::new(10, 15), None);
    assert_eq!(found, vec![idle_near]);
    let _ = silent;

    // A tighter radius excludes the remaining chair (distance 5 > 3).
    let found = w.nearby_chairs(200, Coordinate::new(10, 15), Some(3));
    assert!(found.is_empty());
}

#[test]
fn nearby_chairs_ignores_stale_pings() {
    let mut w = World::new();
    let owner = w.register_owner(1);
    let chair = w.register_chair(2, owner).unwrap();
    w.post_coordinate(1000, chair, Coordinate::new(0, 0)).unwrap();
    // Exactly at the edge of the five-minute window: too old.
    assert!(w.nearby_chairs(1000 + 300_000, Coordinate::new(0, 0), None).is_empty());
    // One millisecond fresher: still visible.
    assert_eq!(w.nearby_chairs(1000 + 299_999, Coordinate::new(0, 0), None), vec![chair]);
}

#[test]
fn nearby_chairs_uses_the_latest_ping() {
    let mut w = World::new();
    let owner = w.register_owner(1);
    let chair = w.register_chair(2, owner).unwrap();
    w.post_coordinate(100, chair, Coordinate::new(0, 0)).unwrap();
    w.post_coordinate(200, chair, Coordinate::new(500, 500)).unwrap();
    // The old ping would match, but only the latest position counts.
    assert!(w.nearby_chairs(300, Coordinate::new(0, 0), None).is_empty());
    assert_eq!(w.nearby_chairs(300, Coordinate::new(500, 490), None), vec![chair]);
}

#[test]
fn registration_errors() {
    let mut w = World::new();
    assert_eq!(w.register_chair(1, 77), Err(DomainError::OwnerNotFound));
    assert_eq!(w.set_chair_activity(5, true), Err(DomainError::ChairNotFound));
    assert_eq!(w.register_payment_token(5), Err(DomainError::UserNotFound));
    let user = w.register_user(1, None).unwrap();
    // Registering the token twice is idempotent.
    w.register_payment_token(user).unwrap();
    w.register_payment_token(user).unwrap();
}
