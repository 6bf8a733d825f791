//! Deterministic fare calculation from grid distance and a coupon discount.
//!
//! `fare = INITIAL_FARE + max(FARE_PER_DISTANCE * distance - discount, 0)`.

use crate::geo::{grid_distance, manhattan_distance, Coordinate};
use crate::{FARE_PER_DISTANCE, INITIAL_FARE};
use vstd::prelude::*;

verus! {

/// The metered part of a fare before any discount.
pub open spec fn spec_metered_fare(pickup: Coordinate, destination: Coordinate) -> int {
    FARE_PER_DISTANCE * grid_distance(pickup, destination)
}

/// The full fare for a trip with a discount applied to the metered part; the
/// discount never eats into the initial fare.
pub open spec fn spec_fare(pickup: Coordinate, destination: Coordinate, discount: int) -> int {
    INITIAL_FARE + if spec_metered_fare(pickup, destination) <= discount {
        0int
    } else {
        spec_metered_fare(pickup, destination) - discount
    }
}

/// Whatever the discount, the fare never drops below the initial fare, and a
/// zero discount yields exactly the undiscounted fare.
pub proof fn lemma_fare_floor(pickup: Coordinate, destination: Coordinate, discount: int)
    ensures
        spec_fare(pickup, destination, discount) >= INITIAL_FARE,
        spec_fare(pickup, destination, 0) == INITIAL_FARE + spec_metered_fare(pickup, destination),
{
    assert(grid_distance(pickup, destination) >= 0);
    assert(spec_metered_fare(pickup, destination) >= 0) by (nonlinear_arith)
        requires
            grid_distance(pickup, destination) >= 0,
    ;
}

/// The undiscounted fare for a trip: initial fare plus the metered part.
pub fn calculate_fare(pickup: Coordinate, destination: Coordinate) -> (fare: i64)
    ensures
        fare == INITIAL_FARE + spec_metered_fare(pickup, destination),
        fare == spec_fare(pickup, destination, 0),
{
    let d = manhattan_distance(pickup, destination);
    proof {
        assert(FARE_PER_DISTANCE * d <= FARE_PER_DISTANCE * 0x2_0000_0000) by (nonlinear_arith)
            requires
                0 <= d <= 0x2_0000_0000,
        ;
        assert(FARE_PER_DISTANCE * d >= 0) by (nonlinear_arith)
            requires
                d >= 0,
        ;
    }
    INITIAL_FARE + FARE_PER_DISTANCE * d
}

/// The fare for a trip after applying a non-negative discount to the metered
/// part.
pub fn calculate_discounted_fare(
    pickup: Coordinate,
    destination: Coordinate,
    discount: i64,
) -> (fare: i64)
    requires
        discount >= 0,
    ensures
        fare == spec_fare(pickup, destination, discount as int),
        fare >= INITIAL_FARE,
{
    let d = manhattan_distance(pickup, destination);
    proof {
        assert(FARE_PER_DISTANCE * d <= FARE_PER_DISTANCE * 0x2_0000_0000) by (nonlinear_arith)
            requires
                0 <= d <= 0x2_0000_0000,
        ;
        assert(FARE_PER_DISTANCE * d >= 0) by (nonlinear_arith)
            requires
                d >= 0,
        ;
    }
    let metered = FARE_PER_DISTANCE * d;
    let discounted_metered = if metered <= discount {
        0
    } else {
        metered - discount
    };
    INITIAL_FARE + discounted_metered
}

} // verus!
