use vstd::prelude::*;

use crate::model::VehicleType;
use crate::model::spec_vehicle_type_name;
use crate::model::vehicle_type_name;
use crate::space::ParkingSpace;

verus! {

/// A vehicle as the request layer returns it.
#[derive(Clone, Debug)]
pub struct VehicleResponse {
    pub user_id: u64,
    pub vehicle_type: String,
    pub brand: String,
    pub model: String,
    pub license_plate_number: String,
}

/// A parking space as the request layer returns it, with the vehicle
/// class spelled out.
#[derive(Clone, Debug)]
pub struct ParkingSpaceResponse {
    pub id: u64,
    pub parking_lot_id: u64,
    pub level: u32,
    pub ordinal_number: u32,
    pub vehicle_type: String,
    pub is_occupied: bool,
}

/// Does a response row faithfully render a space?
pub open spec fn space_rendered(r: ParkingSpaceResponse, s: ParkingSpace) -> bool {
    &&& r.id == s.id
    &&& r.parking_lot_id == s.parking_lot_id
    &&& r.level == s.location.no_level
    &&& r.ordinal_number == s.location.no_space
    &&& r.vehicle_type@ == spec_vehicle_type_name(s.vehicle_type)
    &&& r.is_occupied == s.occupied
}

/// Renders one space as a response row.
pub fn space_to_response(s: &ParkingSpace) -> (r: ParkingSpaceResponse)
    ensures
        space_rendered(r, *s),
{
    ParkingSpaceResponse {
        id: s.id,
        parking_lot_id: s.parking_lot_id,
        level: s.location.no_level,
        ordinal_number: s.location.no_space,
        vehicle_type: vehicle_type_name(s.vehicle_type),
        is_occupied: s.occupied,
    }
}

/// Occupied and free space counts for one vehicle class.
#[derive(Clone, Copy, Debug, PartialEq, Eq, Structural)]
pub struct ParkingLotStats {
    pub spots_occupied: u32,
    pub spots_free: u32,
}

/// One level's occupancy statistics, split by vehicle class.
#[derive(Clone, Copy, Debug, PartialEq, Eq, Structural)]
pub struct ParkingLotStatsResponse {
    pub truck: ParkingLotStats,
    pub car: ParkingLotStats,
}

} // verus!
