use isuride::geo::Coordinate;
use isuride::status::RideStatus;
use isuride::world::{DomainError, World};

fn setup_two_chairs() -> (World, u64, u64, u64) {
    let mut w = World::new();
    let user = w.register_user(1, None).unwrap();
    w.register_payment_token(user).unwrap();
    let owner = w.register_owner(2);
    let c1 = w.register_chair(3, owner).unwrap();
    let c2 = w.register_chair(4, owner).unwrap();
    (w, user, c1, c2)
}

#[test]
fn exactly_one_of_two_polling_drivers_gets_the_ride() {
    let (mut w, user, c1, c2) = setup_two_chairs();
    let receipt = w.create_ride(10, user, Coordinate::new(0, 0), Coordinate::new(3, 4)).unwrap();
    let first = w.poll_chair(20, c1).unwrap();
    let second = w.poll_chair(21, c2).unwrap();
    assert_eq!(first.map(|o| o.ride_id), Some(receipt.ride_id));
    assert!(second.is_none());
    assert_eq!(w.get_ride(receipt.ride_id).unwrap().chair_id, Some(c1));
}

#[test]
fn repolling_returns_the_same_ride() {
    let (mut w, user, c1, _) = setup_two_chairs();
    let receipt = w.create_ride(10, user, Coordinate::new(0, 0), Coordinate::new(3, 4)).unwrap();
    let first = w.poll_chair(20, c1).unwrap().unwrap();
    let again = w.poll_chair(30, c1).unwrap().unwrap();
    assert_eq!(first.ride_id, receipt.ride_id);
    assert_eq!(again.ride_id, receipt.ride_id);
    assert_eq!(again.user_id, user);
}

#[test]
fn polling_with_no_work_reports_none() {
    let (mut w, _, c1, _) = setup_two_chairs();
    assert_eq!(w.poll_chair(10, c1).unwrap().map(|o| o.ride_id), None);
}

#[test]
fn unknown_chair_cannot_poll() {
    let mut w = World::new();
    assert_eq!(w.poll_chair(1, 7).map(|o| o.is_some()), Err(DomainError::ChairNotFound));
}

#[test]
fn oldest_waiting_ride_is_served_first() {
    let mut w = World::new();
    let u1 = w.register_user(1, None).unwrap();
    let u2 = w.register_user(2, None).unwrap();
    let owner = w.register_owner(3);
    let chair = w.register_chair(4, owner).unwrap();
    let first = w.create_ride(10, u1, Coordinate::new(0, 0), Coordinate::new(1, 1)).unwrap();
    let second = w.create_ride(20, u2, Coordinate::new(5, 5), Coordinate::new(6, 6)).unwrap();
    let offer = w.poll_chair(30, chair).unwrap().unwrap();
    assert_eq!(offer.ride_id, first.ride_id);
    assert_ne!(offer.ride_id, second.ride_id);
}

#[test]
fn decline_reverts_to_matching_but_keeps_the_assignment() {
    let (mut w, user, c1, c2) = setup_two_chairs();
    let receipt = w.create_ride(10, user, Coordinate::new(0, 0), Coordinate::new(3, 4)).unwrap();
    w.poll_chair(20, c1).unwrap().unwrap();
    w.post_ride_status(30, c1, receipt.ride_id, RideStatus::Enroute).unwrap();
    w.post_ride_status(40, c1, receipt.ride_id, RideStatus::Matching).unwrap();
    let view = w.get_ride(receipt.ride_id).unwrap();
    assert_eq!(view.status, RideStatus::Matching);
    assert_eq!(view.chair_id, Some(c1));
    // The ride never returns to the open pool: another chair gets no work,
    // while the assigned chair is handed the same ride again.
    assert!(w.poll_chair(50, c2).unwrap().is_none());
    assert_eq!(w.poll_chair(60, c1).unwrap().map(|o| o.ride_id), Some(receipt.ride_id));
}

#[test]
fn a_foreign_chair_cannot_advance_the_ride() {
    let (mut w, user, c1, c2) = setup_two_chairs();
    let receipt = w.create_ride(10, user, Coordinate::new(0, 0), Coordinate::new(3, 4)).unwrap();
    w.poll_chair(20, c1).unwrap().unwrap();
    let r = w.post_ride_status(30, c2, receipt.ride_id, RideStatus::Enroute);
    assert_eq!(r, Err(DomainError::NotAssignedToRide));
    assert_eq!(w.post_ride_status(31, c2, 12345, RideStatus::Enroute), Err(DomainError::RideNotFound));
}

#[test]
fn a_chair_gets_new_work_after_finishing() {
    let (mut w2, u1, c1, _) = setup_two_chairs();
    let first = w2.create_ride(10, u1, Coordinate::new(0, 0), Coordinate::new(1, 0)).unwrap();
    w2.poll_chair(20, c1).unwrap().unwrap();
    w2.post_ride_status(30, c1, first.ride_id, RideStatus::Enroute).unwrap();
    w2.post_coordinate(40, c1, Coordinate::new(0, 0)).unwrap();
    w2.post_ride_status(50, c1, first.ride_id, RideStatus::Carrying).unwrap();
    w2.post_coordinate(60, c1, Coordinate::new(1, 0)).unwrap();
    w2.apply_evaluation(70, first.ride_id, 5).unwrap();
    let u2 = w2.register_user(80, None).unwrap();
    let second = w2.create_ride(90, u2, Coordinate::new(2, 2), Coordinate::new(3, 3)).unwrap();
    assert_eq!(w2.poll_chair(100, c1).unwrap().map(|o| o.ride_id), Some(second.ride_id));
}
