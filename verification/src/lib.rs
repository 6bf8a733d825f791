//! Ride dispatch and settlement engine.
//!
//! The engine matches ride requests from passengers to available chairs
//! (drivers), tracks each ride through an append-only status lifecycle,
//! ingests location telemetry that drives automatic transitions, and settles
//! fares with coupon-based discounts.  All domain state lives in a [`world::World`]
//! value that models the transactional store: every operation either applies
//! completely or returns an error and leaves the state untouched.

use vstd::prelude::*;

pub mod coupon;
pub mod driver;
pub mod fare;
pub mod geo;
pub mod laws;
pub mod passenger;
pub mod queries;
pub mod registry;
pub mod stats;
pub mod status;
pub mod world;

verus! {

/// Base charge of every ride, before the metered part.
pub const INITIAL_FARE: i64 = 300;

/// Charge per unit of grid distance between pickup and destination.
pub const FARE_PER_DISTANCE: i64 = 100;

} // verus!
