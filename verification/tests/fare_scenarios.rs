use isuride::fare::{calculate_discounted_fare, calculate_fare};
use isuride::geo::{manhattan_distance, Coordinate};
use isuride::{FARE_PER_DISTANCE, INITIAL_FARE};

#[test]
fn constants_match_the_pricing_model() {
    assert_eq!(INITIAL_FARE, 300);
    assert_eq!(FARE_PER_DISTANCE, 100);
}

#[test]
fn grid_distance_is_manhattan() {
    let a = Coordinate::new(0, 0);
    let b = Coordinate::new(3, 4);
    assert_eq!(manhattan_distance(a, b), 7);
    assert_eq!(manhattan_distance(b, a), 7);
    let c = Coordinate::new(-2, 5);
    let d = Coordinate::new(1, -1);
    assert_eq!(manhattan_distance(c, d), 9);
    assert_eq!(manhattan_distance(c, c), 0);
}

#[test]
fn fare_without_coupon() {
    let pickup = Coordinate::new(0, 0);
    let destination = Coordinate::new(3, 4);
    assert_eq!(calculate_fare(pickup, destination), 1000);
    assert_eq!(calculate_discounted_fare(pickup, destination, 0), 1000);
}

#[test]
fn fare_with_partial_discount() {
    let pickup = Coordinate::new(0, 0);
    let destination = Coordinate::new(3, 4);
    assert_eq!(calculate_discounted_fare(pickup, destination, 250), 750);
}

#[test]
fn fare_never_drops_below_initial_fare() {
    let pickup = Coordinate::new(0, 0);
    let destination = Coordinate::new(3, 4);
    assert_eq!(calculate_discounted_fare(pickup, destination, 900), 300);
    assert_eq!(calculate_discounted_fare(pickup, destination, 700), 300);
    assert_eq!(calculate_discounted_fare(pickup, destination, i64::MAX), 300);
}

#[test]
fn zero_distance_ride_costs_the_initial_fare() {
    let spot = Coordinate::new(5, 5);
    assert_eq!(calculate_fare(spot, spot), 300);
    assert_eq!(calculate_discounted_fare(spot, spot, 1000), 300);
}

#[test]
fn fare_at_extreme_coordinates_does_not_overflow() {
    let a = Coordinate::new(i32::MIN, i32::MIN);
    let b = Coordinate::new(i32::MAX, i32::MAX);
    let d = manhattan_distance(a, b);
    assert_eq!(d, 2 * (i32::MAX as i64 - i32::MIN as i64));
    assert_eq!(calculate_fare(a, b), INITIAL_FARE + FARE_PER_DISTANCE * d);
}
