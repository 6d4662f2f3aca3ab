use vstd::prelude::*;
use vstd::string::StringSliceAdditionalSpecFns;

use crate::error::MyError;

verus! {

/// A user's role. The engine itself never branches on it; the request
/// layer does.
#[derive(Clone, Copy, Debug, PartialEq, Eq, Structural)]
pub enum Role {
    Admin,
    User,
}

/// The closed set of vehicle classes a space or a vehicle can have.
#[derive(Clone, Copy, Debug, PartialEq, Eq, Structural)]
pub enum VehicleType {
    Car,
    Truck,
}

/// How many car and truck spaces one level of a lot holds.
#[derive(Clone, Copy, Debug, PartialEq, Eq, Structural)]
pub struct Levels {
    pub cars: u32,
    pub trucks: u32,
}

/// A space's place inside its lot: the level and the ordinal on it.
#[derive(Clone, Copy, Debug, PartialEq, Eq, Structural)]
pub struct ParkingLocation {
    pub no_level: u32,
    pub no_space: u32,
}

/// The canonical storage name of a vehicle class.
pub open spec fn spec_vehicle_type_name(vehicle_type: VehicleType) -> Seq<char> {
    match vehicle_type {
        VehicleType::Car => "Car"@,
        VehicleType::Truck => "Truck"@,
    }
}

/// Encodes a vehicle class as its storage name, `"Car"` or `"Truck"`.
pub fn vehicle_type_name(vehicle_type: VehicleType) -> (name: String)
    ensures
        name@ == spec_vehicle_type_name(vehicle_type),
{
    match vehicle_type {
        VehicleType::Car => "Car".to_owned(),
        VehicleType::Truck => "Truck".to_owned(),
    }
}

/// The value `parse_vehicle_type` answers for a given name.
pub open spec fn spec_parse_vehicle_type(name: Seq<char>) -> Result<VehicleType, MyError> {
    if name == "Car"@ {
        Ok(VehicleType::Car)
    } else if name == "Truck"@ {
        Ok(VehicleType::Truck)
    } else {
        Err(MyError::InvalidArgument)
    }
}

/// Decodes a vehicle class from its storage name; every other string is
/// rejected as `InvalidArgument`.
pub fn parse_vehicle_type(name: &String) -> (r: Result<VehicleType, MyError>)
    ensures
        r == spec_parse_vehicle_type(name@),
{
    if *name == "Car".to_owned() {
        Ok(VehicleType::Car)
    } else if *name == "Truck".to_owned() {
        Ok(VehicleType::Truck)
    } else {
        Err(MyError::InvalidArgument)
    }
}

/// Decoding a canonical name gives back the class it encodes.
pub proof fn lemma_vehicle_type_name_round_trip(vehicle_type: VehicleType)
    ensures
        spec_parse_vehicle_type(spec_vehicle_type_name(vehicle_type)) == Ok::<
            VehicleType,
            MyError,
        >(vehicle_type),
{
    reveal_strlit("Car");
    reveal_strlit("Truck");
    assert("Car"@.len() == 3);
    assert("Truck"@.len() == 5);
    match vehicle_type {
        VehicleType::Car => {
            assert(spec_vehicle_type_name(vehicle_type) == "Car"@);
        },
        VehicleType::Truck => {
            assert(spec_vehicle_type_name(vehicle_type) == "Truck"@);
            assert("Truck"@ != "Car"@);
        },
    }
}

/// The class a license number announces: numbers starting with `'A'`
/// belong to trucks, every other non-empty number to a car.
pub open spec fn spec_vehicle_type_for_license(license: Seq<u8>) -> Result<VehicleType, MyError> {
    if license.len() == 0 {
        Err(MyError::InvalidArgument)
    } else if license[0] == 65u8 {
        Ok(VehicleType::Truck)
    } else {
        Ok(VehicleType::Car)
    }
}

/// Reads the vehicle class off a license number's first byte; the empty
/// string is rejected as `InvalidArgument`.
pub fn vehicle_type_for_license(license: &str) -> (r: Result<VehicleType, MyError>)
    ensures
        r == spec_vehicle_type_for_license(license.spec_bytes()),
{
    let bytes = license.as_bytes();
    if bytes.len() == 0 {
        Err(MyError::InvalidArgument)
    } else if bytes[0] == 65u8 {
        Ok(VehicleType::Truck)
    } else {
        Ok(VehicleType::Car)
    }
}

} // verus!
