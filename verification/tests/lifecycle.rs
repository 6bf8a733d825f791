use isuride::geo::Coordinate;
use isuride::status::RideStatus;
use isuride::world::{DomainError, World};

/// A user with a payment token, an owner and one chair, ready to ride.
fn setup() -> (World, u64, u64) {
    let mut w = World::new();
    let user = w.register_user(1, None).unwrap();
    w.register_payment_token(user).unwrap();
    let owner = w.register_owner(2);
    let chair = w.register_chair(3, owner).unwrap();
    w.set_chair_activity(chair, true).unwrap();
    (w, user, chair)
}

#[test]
fn full_lifecycle_to_completion() {
    let (mut w, user, chair) = setup();
    let pickup = Coordinate::new(0, 0);
    let destination = Coordinate::new(3, 4);
    let receipt = w.create_ride(10, user, pickup, destination).unwrap();
    // The signup bonus (3000) swallows the whole metered part (700).
    assert_eq!(receipt.fare, 300);
    assert_eq!(w.get_ride(receipt.ride_id).unwrap().status, RideStatus::Matching);

    let offer = w.poll_chair(20, chair).unwrap().unwrap();
    assert_eq!(offer.ride_id, receipt.ride_id);
    assert_eq!(offer.status, RideStatus::Matching);

    w.post_ride_status(30, chair, receipt.ride_id, RideStatus::Enroute).unwrap();
    assert_eq!(w.get_ride(receipt.ride_id).unwrap().status, RideStatus::Enroute);

    let out = w.post_coordinate(40, chair, pickup).unwrap();
    let t = out.auto_transition.unwrap();
    assert_eq!(t.ride_id, receipt.ride_id);
    assert_eq!(t.status, RideStatus::Pickup);

    w.post_ride_status(50, chair, receipt.ride_id, RideStatus::Carrying).unwrap();
    assert_eq!(w.get_ride(receipt.ride_id).unwrap().status, RideStatus::Carrying);

    let out = w.post_coordinate(60, chair, destination).unwrap();
    let t = out.auto_transition.unwrap();
    assert_eq!(t.status, RideStatus::Arrived);

    let planned = w.plan_evaluation(receipt.ride_id, 5).unwrap();
    assert_eq!(planned, 300);
    let settled = w.apply_evaluation(70, receipt.ride_id, 5).unwrap();
    assert_eq!(settled.fare, 300);
    assert_eq!(settled.completed_at, 70);
    let view = w.get_ride(receipt.ride_id).unwrap();
    assert_eq!(view.status, RideStatus::Completed);
    assert_eq!(view.evaluation, Some(5));
}

#[test]
fn carrying_while_matching_is_rejected() {
    let (mut w, user, chair) = setup();
    let receipt = w.create_ride(10, user, Coordinate::new(0, 0), Coordinate::new(3, 4)).unwrap();
    let offer = w.poll_chair(20, chair).unwrap().unwrap();
    assert_eq!(offer.ride_id, receipt.ride_id);
    let r = w.post_ride_status(30, chair, receipt.ride_id, RideStatus::Carrying);
    assert_eq!(r, Err(DomainError::InvalidStatusTransition));
    assert_eq!(w.get_ride(receipt.ride_id).unwrap().status, RideStatus::Matching);
}

#[test]
fn driver_cannot_post_arrived_or_completed() {
    let (mut w, user, chair) = setup();
    let receipt = w.create_ride(10, user, Coordinate::new(0, 0), Coordinate::new(3, 4)).unwrap();
    w.poll_chair(20, chair).unwrap().unwrap();
    let r = w.post_ride_status(30, chair, receipt.ride_id, RideStatus::Arrived);
    assert_eq!(r, Err(DomainError::InvalidStatusRequest));
    let r = w.post_ride_status(31, chair, receipt.ride_id, RideStatus::Completed);
    assert_eq!(r, Err(DomainError::InvalidStatusRequest));
    let r = w.post_ride_status(32, chair, receipt.ride_id, RideStatus::Pickup);
    assert_eq!(r, Err(DomainError::InvalidStatusRequest));
}

#[test]
fn ping_fires_pickup_only_on_exact_coordinate_and_enroute() {
    let (mut w, user, chair) = setup();
    let pickup = Coordinate::new(10, 10);
    let destination = Coordinate::new(20, 20);
    let receipt = w.create_ride(10, user, pickup, destination).unwrap();
    w.poll_chair(20, chair).unwrap().unwrap();

    // Still Matching: the pickup coordinate must not fire anything.
    let out = w.post_coordinate(25, chair, pickup).unwrap();
    assert!(out.auto_transition.is_none());
    assert_eq!(w.get_ride(receipt.ride_id).unwrap().status, RideStatus::Matching);

    w.post_ride_status(30, chair, receipt.ride_id, RideStatus::Enroute).unwrap();

    // Enroute but one unit away: no transition.
    let out = w.post_coordinate(40, chair, Coordinate::new(10, 11)).unwrap();
    assert!(out.auto_transition.is_none());
    assert_eq!(w.get_ride(receipt.ride_id).unwrap().status, RideStatus::Enroute);

    // The destination coordinate does not fire while Enroute.
    let out = w.post_coordinate(45, chair, destination).unwrap();
    assert!(out.auto_transition.is_none());

    // Exactly the pickup coordinate while Enroute fires.
    let out = w.post_coordinate(50, chair, pickup).unwrap();
    assert_eq!(out.auto_transition.unwrap().status, RideStatus::Pickup);
    assert_eq!(w.get_ride(receipt.ride_id).unwrap().status, RideStatus::Pickup);
}

#[test]
fn ping_fires_arrived_only_while_carrying() {
    let (mut w, user, chair) = setup();
    let pickup = Coordinate::new(0, 0);
    let destination = Coordinate::new(2, 2);
    let receipt = w.create_ride(10, user, pickup, destination).unwrap();
    w.poll_chair(20, chair).unwrap().unwrap();
    w.post_ride_status(30, chair, receipt.ride_id, RideStatus::Enroute).unwrap();
    w.post_coordinate(40, chair, pickup).unwrap();
    w.post_ride_status(50, chair, receipt.ride_id, RideStatus::Carrying).unwrap();

    // Wrong spot while Carrying: nothing fires, ping is still recorded.
    let out = w.post_coordinate(60, chair, Coordinate::new(1, 1)).unwrap();
    assert!(out.auto_transition.is_none());
    assert_eq!(out.recorded_at, 60);

    let out = w.post_coordinate(70, chair, destination).unwrap();
    assert_eq!(out.auto_transition.unwrap().status, RideStatus::Arrived);
    assert_eq!(w.get_ride(receipt.ride_id).unwrap().status, RideStatus::Arrived);
}

#[test]
fn ping_of_unassigned_chair_is_recorded_without_effect() {
    let (mut w, user, chair) = setup();
    let receipt = w.create_ride(10, user, Coordinate::new(0, 0), Coordinate::new(3, 4)).unwrap();
    // The chair never claimed the ride: its ping cannot advance it.
    let out = w.post_coordinate(20, chair, Coordinate::new(0, 0)).unwrap();
    assert!(out.auto_transition.is_none());
    assert_eq!(w.get_ride(receipt.ride_id).unwrap().status, RideStatus::Matching);
}

#[test]
fn evaluation_is_validated_before_anything_else() {
    let (mut w, user, chair) = setup();
    let receipt = w.create_ride(10, user, Coordinate::new(0, 0), Coordinate::new(3, 4)).unwrap();
    assert_eq!(w.apply_evaluation(20, receipt.ride_id, 0), Err(DomainError::EvaluationOutOfRange));
    assert_eq!(w.apply_evaluation(20, receipt.ride_id, 6), Err(DomainError::EvaluationOutOfRange));
    assert_eq!(w.apply_evaluation(20, 999_999, 3), Err(DomainError::RideNotFound));
    // Not arrived yet.
    assert_eq!(w.apply_evaluation(20, receipt.ride_id, 3), Err(DomainError::RideNotArrived));
    // The state is untouched by the rejections.
    assert_eq!(w.get_ride(receipt.ride_id).unwrap().status, RideStatus::Matching);
    let _ = chair;
}

#[test]
fn settlement_requires_a_payment_token() {
    let mut w = World::new();
    let user = w.register_user(1, None).unwrap();
    let owner = w.register_owner(2);
    let chair = w.register_chair(3, owner).unwrap();
    let pickup = Coordinate::new(0, 0);
    let destination = Coordinate::new(1, 0);
    let receipt = w.create_ride(10, user, pickup, destination).unwrap();
    w.poll_chair(20, chair).unwrap().unwrap();
    w.post_ride_status(30, chair, receipt.ride_id, RideStatus::Enroute).unwrap();
    w.post_coordinate(40, chair, pickup).unwrap();
    w.post_ride_status(50, chair, receipt.ride_id, RideStatus::Carrying).unwrap();
    w.post_coordinate(60, chair, destination).unwrap();
    assert_eq!(w.apply_evaluation(70, receipt.ride_id, 4), Err(DomainError::PaymentTokenMissing));
    // Registering the token makes the same call succeed.
    w.register_payment_token(user).unwrap();
    assert!(w.apply_evaluation(80, receipt.ride_id, 4).is_ok());
}

#[test]
fn one_active_ride_per_user() {
    let (mut w, user, chair) = setup();
    let receipt = w.create_ride(10, user, Coordinate::new(0, 0), Coordinate::new(3, 4)).unwrap();
    let r = w.create_ride(20, user, Coordinate::new(1, 1), Coordinate::new(2, 2));
    assert_eq!(r.map(|x| x.ride_id), Err(DomainError::ActiveRideExists));
    // Completing the first ride frees the user for a new one.
    w.poll_chair(30, chair).unwrap().unwrap();
    w.post_ride_status(40, chair, receipt.ride_id, RideStatus::Enroute).unwrap();
    w.post_coordinate(50, chair, Coordinate::new(0, 0)).unwrap();
    w.post_ride_status(60, chair, receipt.ride_id, RideStatus::Carrying).unwrap();
    w.post_coordinate(70, chair, Coordinate::new(3, 4)).unwrap();
    w.apply_evaluation(80, receipt.ride_id, 5).unwrap();
    assert!(w.create_ride(90, user, Coordinate::new(1, 1), Coordinate::new(2, 2)).is_ok());
}

#[test]
fn unknown_user_cannot_create_a_ride() {
    let mut w = World::new();
    let r = w.create_ride(1, 42, Coordinate::new(0, 0), Coordinate::new(1, 1));
    assert_eq!(r.map(|x| x.ride_id), Err(DomainError::UserNotFound));
}
