use isuride::coupon::{INVITATION_DISCOUNT, REWARD_DISCOUNT, SIGNUP_DISCOUNT};
use isuride::geo::Coordinate;
use isuride::world::{DomainError, World};

#[test]
fn issued_discounts_have_the_expected_sizes() {
    assert_eq!(SIGNUP_DISCOUNT, 3000);
    assert_eq!(INVITATION_DISCOUNT, 1500);
    assert_eq!(REWARD_DISCOUNT, 1000);
}

#[test]
fn first_ride_consumes_the_signup_bonus_over_other_coupons() {
    let mut w = World::new();
    let inviter = w.register_user(1, None).unwrap();
    // The invitee holds both a signup bonus and an invitation coupon.
    let invitee = w.register_user(2, Some(inviter)).unwrap();
    // Metered part 10000: the signup bonus (3000) must be the one applied.
    let receipt = w.create_ride(10, invitee, Coordinate::new(0, 0), Coordinate::new(0, 100)).unwrap();
    assert_eq!(receipt.fare, 300 + 10000 - 3000);
    // The remaining unused coupon is the invitation one.
    let quote = w.estimate_fare(invitee, Coordinate::new(0, 0), Coordinate::new(0, 100)).unwrap();
    assert_eq!(quote.discount, INVITATION_DISCOUNT);
}

#[test]
fn later_rides_use_the_earliest_granted_unused_coupon() {
    let mut w = World::new();
    let inviter = w.register_user(1, None).unwrap();
    let invitee = w.register_user(2, Some(inviter)).unwrap();
    let owner = w.register_owner(3);
    let chair = w.register_chair(4, owner).unwrap();
    w.register_payment_token(invitee).unwrap();
    // First ride consumes the signup bonus; finish it.
    let first = w.create_ride(10, invitee, Coordinate::new(0, 0), Coordinate::new(0, 100)).unwrap();
    w.poll_chair(20, chair).unwrap().unwrap();
    w.post_ride_status(30, chair, first.ride_id, isuride::status::RideStatus::Enroute).unwrap();
    w.post_coordinate(40, chair, Coordinate::new(0, 0)).unwrap();
    w.post_ride_status(50, chair, first.ride_id, isuride::status::RideStatus::Carrying).unwrap();
    w.post_coordinate(60, chair, Coordinate::new(0, 100)).unwrap();
    w.apply_evaluation(70, first.ride_id, 5).unwrap();
    // Second ride falls back to the invitation coupon (1500).
    let second = w.create_ride(80, invitee, Coordinate::new(0, 0), Coordinate::new(0, 100)).unwrap();
    assert_eq!(second.fare, 300 + 10000 - 1500);
}

#[test]
fn the_fare_quoted_at_creation_is_the_fare_settled_at_evaluation() {
    let mut w = World::new();
    let user = w.register_user(1, None).unwrap();
    w.register_payment_token(user).unwrap();
    let owner = w.register_owner(2);
    let chair = w.register_chair(3, owner).unwrap();
    let pickup = Coordinate::new(0, 0);
    let destination = Coordinate::new(0, 100);
    let receipt = w.create_ride(10, user, pickup, destination).unwrap();
    assert_eq!(receipt.fare, 300 + 10000 - 3000);
    w.poll_chair(20, chair).unwrap().unwrap();
    w.post_ride_status(30, chair, receipt.ride_id, isuride::status::RideStatus::Enroute).unwrap();
    w.post_coordinate(40, chair, pickup).unwrap();
    w.post_ride_status(50, chair, receipt.ride_id, isuride::status::RideStatus::Carrying).unwrap();
    w.post_coordinate(60, chair, destination).unwrap();
    let settled = w.apply_evaluation(70, receipt.ride_id, 5).unwrap();
    assert_eq!(settled.fare, receipt.fare);
    // The listing reports the same settled fare once more.
    let history = w.completed_rides_of_user(user);
    assert_eq!(history.len(), 1);
    assert_eq!(history[0].fare, receipt.fare);
}

#[test]
fn an_invitation_code_admits_exactly_three_redemptions() {
    let mut w = World::new();
    let inviter = w.register_user(1, None).unwrap();
    assert!(w.register_user(2, Some(inviter)).is_ok());
    assert!(w.register_user(3, Some(inviter)).is_ok());
    assert!(w.register_user(4, Some(inviter)).is_ok());
    assert_eq!(w.register_user(5, Some(inviter)), Err(DomainError::InvitationExhausted));
    // The count stays at the cap; a later attempt fails the same way.
    assert_eq!(w.register_user(6, Some(inviter)), Err(DomainError::InvitationExhausted));
}

#[test]
fn an_unknown_invitation_code_is_rejected() {
    let mut w = World::new();
    assert_eq!(w.register_user(1, Some(31337)), Err(DomainError::InvitationNotFound));
}

#[test]
fn estimate_prefers_signup_then_fifo_then_nothing() {
    let mut w = World::new();
    let inviter = w.register_user(1, None).unwrap();
    let user = w.register_user(2, Some(inviter)).unwrap();
    let pickup = Coordinate::new(0, 0);
    let destination = Coordinate::new(0, 100);
    // Signup bonus still unused: it wins.
    let q = w.estimate_fare(user, pickup, destination).unwrap();
    assert_eq!(q.discount, SIGNUP_DISCOUNT);
    assert_eq!(q.fare, 300 + 10000 - 3000);
    // Consume it with the first ride; the invitation coupon is next.
    w.create_ride(10, user, pickup, destination).unwrap();
    let q = w.estimate_fare(user, pickup, destination).unwrap();
    assert_eq!(q.discount, INVITATION_DISCOUNT);
    assert_eq!(q.fare, 300 + 10000 - 1500);
    // An estimate binds nothing: asking twice gives the same quote.
    let again = w.estimate_fare(user, pickup, destination).unwrap();
    assert_eq!(again.discount, INVITATION_DISCOUNT);
}

#[test]
fn estimate_with_no_usable_coupon_has_no_discount() {
    let mut w = World::new();
    let user = w.register_user(1, None).unwrap();
    // The only coupon is consumed by the first ride.
    w.create_ride(10, user, Coordinate::new(0, 0), Coordinate::new(3, 4)).unwrap();
    let q = w.estimate_fare(user, Coordinate::new(0, 0), Coordinate::new(3, 4)).unwrap();
    assert_eq!(q.discount, 0);
    assert_eq!(q.fare, 1000);
    assert_eq!(w.estimate_fare(99, Coordinate::new(0, 0), Coordinate::new(3, 4)), Err(DomainError::UserNotFound));
}

#[test]
fn the_reward_coupon_reaches_the_inviter() {
    let mut w = World::new();
    let inviter = w.register_user(1, None).unwrap();
    let pickup = Coordinate::new(0, 0);
    let destination = Coordinate::new(0, 100);
    // The inviter consumes its own signup bonus first.
    w.create_ride(10, inviter, pickup, destination).unwrap();
    let q = w.estimate_fare(inviter, pickup, destination).unwrap();
    assert_eq!(q.discount, 0);
    // A redemption grants the inviter a reward coupon.
    w.register_user(20, Some(inviter)).unwrap();
    let q = w.estimate_fare(inviter, pickup, destination).unwrap();
    assert_eq!(q.discount, REWARD_DISCOUNT);
}
