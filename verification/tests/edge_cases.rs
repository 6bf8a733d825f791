use isuride::geo::Coordinate;
use isuride::status::RideStatus;
use isuride::world::{DomainError, World};

fn setup() -> (World, u64, u64) {
    let mut w = World::new();
    let user = w.register_user(1, None).unwrap();
    w.register_payment_token(user).unwrap();
    let owner = w.register_owner(2);
    let chair = w.register_chair(3, owner).unwrap();
    (w, user, chair)
}

#[test]
fn path_distance_follows_every_recorded_ping() {
    let (mut w, user, chair) = setup();
    let pickup = Coordinate::new(0, 0);
    let destination = Coordinate::new(0, 10);
    let receipt = w.create_ride(10, user, pickup, destination).unwrap();
    w.poll_chair(20, chair).unwrap().unwrap();
    w.post_ride_status(30, chair, receipt.ride_id, RideStatus::Enroute).unwrap();
    w.post_coordinate(40, chair, pickup).unwrap();
    w.post_ride_status(50, chair, receipt.ride_id, RideStatus::Carrying).unwrap();
    // The chair wanders before reaching the destination.
    w.post_coordinate(60, chair, Coordinate::new(0, 5)).unwrap();
    w.post_coordinate(70, chair, Coordinate::new(3, 5)).unwrap();
    w.post_coordinate(80, chair, destination).unwrap();
    w.apply_evaluation(90, receipt.ride_id, 5).unwrap();
    let stats = w.chair_stats(chair).unwrap();
    assert_eq!(stats.recent.len(), 1);
    // 0 + 5 + 3 + 8 + 0 along pickup -> pings -> destination.
    assert_eq!(stats.recent[0].distance, 16);
    // Carrying at 50, Arrived at 80.
    assert_eq!(stats.recent[0].duration, 30);
}

#[test]
fn pings_outside_the_ride_window_do_not_count() {
    let (mut w, user, chair) = setup();
    // A stray ping long before the ride exists.
    w.post_coordinate(5, chair, Coordinate::new(9, 9)).unwrap();
    let pickup = Coordinate::new(0, 0);
    let destination = Coordinate::new(3, 4);
    let receipt = w.create_ride(10, user, pickup, destination).unwrap();
    w.poll_chair(20, chair).unwrap().unwrap();
    w.post_ride_status(30, chair, receipt.ride_id, RideStatus::Enroute).unwrap();
    w.post_coordinate(40, chair, pickup).unwrap();
    w.post_ride_status(50, chair, receipt.ride_id, RideStatus::Carrying).unwrap();
    w.post_coordinate(60, chair, destination).unwrap();
    w.apply_evaluation(70, receipt.ride_id, 5).unwrap();
    let stats = w.chair_stats(chair).unwrap();
    assert_eq!(stats.recent[0].distance, 7);
}

#[test]
fn a_completed_ride_cannot_be_evaluated_again() {
    let (mut w, user, chair) = setup();
    let pickup = Coordinate::new(0, 0);
    let destination = Coordinate::new(1, 0);
    let receipt = w.create_ride(10, user, pickup, destination).unwrap();
    w.poll_chair(20, chair).unwrap().unwrap();
    w.post_ride_status(30, chair, receipt.ride_id, RideStatus::Enroute).unwrap();
    w.post_coordinate(40, chair, pickup).unwrap();
    w.post_ride_status(50, chair, receipt.ride_id, RideStatus::Carrying).unwrap();
    w.post_coordinate(60, chair, destination).unwrap();
    w.apply_evaluation(70, receipt.ride_id, 5).unwrap();
    assert_eq!(w.apply_evaluation(80, receipt.ride_id, 4), Err(DomainError::RideNotArrived));
    // The history keeps the first verdict.
    assert_eq!(w.get_ride(receipt.ride_id).unwrap().evaluation, Some(5));
}

#[test]
fn a_terminal_ride_accepts_no_driver_transition() {
    let (mut w, user, chair) = setup();
    let pickup = Coordinate::new(0, 0);
    let destination = Coordinate::new(1, 0);
    let receipt = w.create_ride(10, user, pickup, destination).unwrap();
    w.poll_chair(20, chair).unwrap().unwrap();
    w.post_ride_status(30, chair, receipt.ride_id, RideStatus::Enroute).unwrap();
    w.post_coordinate(40, chair, pickup).unwrap();
    w.post_ride_status(50, chair, receipt.ride_id, RideStatus::Carrying).unwrap();
    w.post_coordinate(60, chair, destination).unwrap();
    w.apply_evaluation(70, receipt.ride_id, 5).unwrap();
    for requested in [RideStatus::Matching, RideStatus::Enroute, RideStatus::Carrying] {
        assert_eq!(
            w.post_ride_status(80, chair, receipt.ride_id, requested),
            Err(DomainError::InvalidStatusTransition)
        );
    }
    assert_eq!(w.get_ride(receipt.ride_id).unwrap().status, RideStatus::Completed);
}

#[test]
fn nearby_includes_a_chair_exactly_on_the_radius() {
    let mut w = World::new();
    let owner = w.register_owner(1);
    let chair = w.register_chair(2, owner).unwrap();
    w.post_coordinate(100, chair, Coordinate::new(50, 0)).unwrap();
    // Grid distance to the centre is exactly the default radius of 50.
    assert_eq!(w.nearby_chairs(200, Coordinate::new(0, 0), None), vec![chair]);
    // One unit further is out.
    assert!(w.nearby_chairs(200, Coordinate::new(0, -1), None).is_empty());
}

#[test]
fn queries_on_unknown_users_are_harmless() {
    let w = World::new();
    assert!(w.latest_ride_of_user(12345).is_none());
    assert!(w.completed_rides_of_user(12345).is_empty());
}

#[test]
fn the_estimate_never_quotes_below_the_initial_fare() {
    let mut w = World::new();
    let user = w.register_user(1, None).unwrap();
    // Metered part 100, signup discount 3000: the floor holds.
    let q = w.estimate_fare(user, Coordinate::new(0, 0), Coordinate::new(1, 0)).unwrap();
    assert_eq!(q.fare, 300);
}

#[test]
fn a_declined_and_reaccepted_ride_still_completes() {
    let (mut w, user, chair) = setup();
    let pickup = Coordinate::new(0, 0);
    let destination = Coordinate::new(2, 0);
    let receipt = w.create_ride(10, user, pickup, destination).unwrap();
    w.poll_chair(20, chair).unwrap().unwrap();
    w.post_ride_status(30, chair, receipt.ride_id, RideStatus::Enroute).unwrap();
    w.post_ride_status(40, chair, receipt.ride_id, RideStatus::Matching).unwrap();
    w.post_ride_status(50, chair, receipt.ride_id, RideStatus::Enroute).unwrap();
    w.post_coordinate(60, chair, pickup).unwrap();
    w.post_ride_status(70, chair, receipt.ride_id, RideStatus::Carrying).unwrap();
    w.post_coordinate(80, chair, destination).unwrap();
    let settled = w.apply_evaluation(90, receipt.ride_id, 3).unwrap();
    assert_eq!(settled.fare, 300);
    assert_eq!(w.get_ride(receipt.ride_id).unwrap().status, RideStatus::Completed);
}
