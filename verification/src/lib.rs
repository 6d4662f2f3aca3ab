//! A paid-parking engine: parking spaces are claimed and released per
//! vehicle class, tickets track one occupancy session each, fees follow a
//! tiered tariff schedule over elapsed time, and payments move between
//! accounts under an insufficient-funds guard.
//!
//! All monetary amounts are integers in cents; a space's price modifier is
//! an integer in hundredths (100 means "times one"). Every public operation
//! carries a contract that pins down its result and its effect on the store.
#![verifier::loop_isolation(false)]

pub mod codec;
pub mod counting;
pub mod error;
pub mod ledger;
pub mod lifecycle;
pub mod model;
pub mod query;
pub mod response;
pub mod schema;
pub mod space;
pub mod tariff;

pub use error::MyError;
