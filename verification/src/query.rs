use vstd::prelude::*;

verus! {

/// Query selecting a parking lot by its short public code.
#[derive(Clone, Debug)]
pub struct QueryParkingLotCode {
    pub code: String,
}

/// Query selecting a ticket by its short public code.
#[derive(Clone, Debug)]
pub struct QueryTicketCode {
    pub code: String,
}

/// Filter for listing tickets. A zero (or, for the license number, empty)
/// field is a wildcard that matches any non-zero (non-empty) value of the
/// ticket; `active` restricts the listing to open tickets.
#[derive(Clone, Debug)]
pub struct QueryTicket {
    pub user_id: u64,
    pub active: bool,
    pub vehicle_license_number: String,
    pub spot_ordinal_number: u32,
    pub issue_time_stamp: u64,
    pub end_time_stamp: u64,
    pub level: u32,
    pub parking_lot_id: u64,
}

/// Filter for listing a lot's spaces: a level, or every level.
#[derive(Clone, Copy, Debug)]
pub struct QueryParkingSpaceCode {
    pub level: i32,
}

/// The level filter meaning "all levels" of a lot.
pub fn default_level() -> (level: i32)
    ensures
        level == -1,
{
    -1
}

} // verus!
