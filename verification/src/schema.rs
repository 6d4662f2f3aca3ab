use vstd::prelude::*;

use crate::model::Levels;
use crate::model::ParkingLocation;
use crate::model::VehicleType;

verus! {

/// Input for creating an account: the balance is in cents.
#[derive(Clone, Debug)]
pub struct CreateUserSchema {
    pub name: String,
    pub surname: String,
    pub account_balance: u64,
    pub blocked: bool,
}

/// Input for provisioning a lot: the per-level capacities and the tariff
/// tiers, in ascending order of `min_time`.
#[derive(Clone, Debug)]
pub struct CreateParkingSchema {
    pub levels: Vec<Levels>,
    pub tariffs: Vec<CreateTariffSchema>,
}

/// Input for adding one parking space to a lot.
#[derive(Clone, Copy, Debug)]
pub struct CreateParkingSpaceSchema {
    pub parking_lot_id: u64,
    pub location: ParkingLocation,
    pub vehicle_type: VehicleType,
}

/// Input for registering a vehicle on behalf of a user.
#[derive(Clone, Debug)]
pub struct CreateVehicleSchema {
    pub user_id: u64,
    pub vehicle_type: String,
    pub brand: String,
    pub model: String,
    pub license_plate_number: String,
}

/// Input for registering a vehicle for the authenticated user.
#[derive(Clone, Debug)]
pub struct CreateVehicleUserSchema {
    pub vehicle_type: String,
    pub brand: String,
    pub model: String,
    pub license_plate_number: String,
}

/// Input for opening a ticket.
#[derive(Clone, Debug)]
pub struct CreateTicketSchema {
    pub user_id: u64,
    pub vehicle_license_number: String,
    pub parking_lot_id: u64,
}

/// One tariff tier to add: an inclusive range of elapsed units and the
/// hourly price in cents.
#[derive(Clone, Copy, Debug, PartialEq, Eq, Structural)]
pub struct CreateTariffSchema {
    pub min_time: u64,
    pub max_time: u64,
    pub price_per_hour: u32,
}

/// Input for registering a user account with credentials.
#[derive(Clone, Debug)]
pub struct RegisterUserSchema {
    pub name: String,
    pub surname: String,
    pub email: String,
    pub password: String,
}

/// Input for logging a user in.
#[derive(Clone, Debug)]
pub struct LoginUserSchema {
    pub email: String,
    pub password: String,
}

/// The sample request body: a bare user name.
#[derive(Clone, Debug)]
pub struct CreateUser {
    pub username: String,
}

} // verus!
