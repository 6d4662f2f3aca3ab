use parking_os::codec::code_from_bytes;
use parking_os::codec::code_to_bytes;
use parking_os::error::MyError;
use parking_os::ledger::BalanceLedger;
use parking_os::lifecycle::TicketLifecycle;
use parking_os::model::Levels;
use parking_os::model::VehicleType;
use parking_os::model::parse_vehicle_type;
use parking_os::model::vehicle_type_for_license;
use parking_os::model::vehicle_type_name;
use parking_os::query::QueryTicket;
use parking_os::query::default_level;
use parking_os::schema::CreateParkingSchema;
use parking_os::schema::CreateParkingSpaceSchema;
use parking_os::schema::CreateTariffSchema;
use parking_os::schema::CreateUserSchema;
use parking_os::space::SpaceAllocator;
use parking_os::tariff::TariffTable;
use parking_os::tariff::elapsed_units;
use parking_os::tariff::fee;

fn account(balance: u64) -> CreateUserSchema {
    CreateUserSchema {
        name: "Eve".to_string(),
        surname: "Tester".to_string(),
        account_balance: balance,
        blocked: false,
    }
}

#[test]
fn elapsed_units_floor_plus_one() {
    // A fresh ticket already owes one unit; every started block bills in
    // full.
    assert_eq!(elapsed_units(0, 0), 1);
    assert_eq!(elapsed_units(100, 100), 1);
    assert_eq!(elapsed_units(0, 35_999), 1);
    assert_eq!(elapsed_units(0, 36_000), 2);
    assert_eq!(elapsed_units(0, 71_999), 2);
    assert_eq!(elapsed_units(0, 72_000), 3);
    assert_eq!(elapsed_units(1_000, 81_000), 3);
}

#[test]
fn elapsed_units_never_decrease() {
    let mut previous = 0;
    for step in 0..20u64 {
        let units = elapsed_units(0, step * 18_000);
        assert!(units >= 1);
        assert!(units >= previous);
        previous = units;
    }
}

#[test]
fn fee_is_modifier_times_price_times_units() {
    // 1.0 * 2.00 * 3 = 6.00
    assert_eq!(fee(100, 200, 3), 600);
    // 1.5 * 1.00 * 2 = 3.00
    assert_eq!(fee(150, 100, 2), 300);
    // 0.5 * 3.00 * 3 = 4.50
    assert_eq!(fee(50, 300, 3), 450);
    // The scaling floors: 0.33 * 1.00 * 1 = 0.33
    assert_eq!(fee(33, 100, 1), 33);
    assert_eq!(fee(33, 101, 1), 33);
    // Zero anywhere gives zero.
    assert_eq!(fee(0, 500, 9), 0);
    assert_eq!(fee(100, 0, 9), 0);
}

#[test]
fn fee_never_decreases_in_units() {
    let mut previous = 0;
    for units in 1..30u64 {
        let amount = fee(100, 199, units);
        assert!(amount >= previous);
        previous = amount;
    }
}

#[test]
fn transfer_moves_the_exact_amount() {
    let mut ledger = BalanceLedger::new();
    ledger.create_user(1, &account(1_000)).unwrap();
    ledger.create_user(2, &account(50)).unwrap();
    ledger.transfer(1, 2, 400).unwrap();
    assert_eq!(ledger.get_user_balance(1), Ok(600));
    assert_eq!(ledger.get_user_balance(2), Ok(450));
}

#[test]
fn insufficient_transfer_changes_neither_balance() {
    let mut ledger = BalanceLedger::new();
    ledger.create_user(1, &account(399)).unwrap();
    ledger.create_user(2, &account(50)).unwrap();
    assert_eq!(ledger.transfer(1, 2, 400), Err(MyError::InsufficientBalance));
    assert_eq!(ledger.get_user_balance(1), Ok(399));
    assert_eq!(ledger.get_user_balance(2), Ok(50));
}

#[test]
fn transfer_to_missing_account_is_not_found() {
    let mut ledger = BalanceLedger::new();
    ledger.create_user(1, &account(399)).unwrap();
    assert_eq!(ledger.transfer(1, 9, 10), Err(MyError::NotFound));
    assert_eq!(ledger.transfer(9, 1, 10), Err(MyError::NotFound));
    assert_eq!(ledger.get_user_balance(1), Ok(399));
    assert_eq!(ledger.get_user_balance(9), Err(MyError::NotFound));
}

#[test]
fn duplicate_account_is_a_conflict() {
    let mut ledger = BalanceLedger::new();
    ledger.create_user(1, &account(10)).unwrap();
    assert_eq!(ledger.create_user(1, &account(20)), Err(MyError::Conflict));
    assert_eq!(ledger.get_user_balance(1), Ok(10));
}

#[test]
fn ledger_capacity_is_guarded() {
    // The total money must fit u64, so a credit can never overflow.
    let mut ledger = BalanceLedger::new();
    ledger.create_user(1, &account(u64::MAX)).unwrap();
    assert_eq!(ledger.create_user(2, &account(1)), Err(MyError::InvalidArgument));
    ledger.create_user(3, &account(0)).unwrap();
    ledger.transfer(1, 3, u64::MAX).unwrap();
    assert_eq!(ledger.get_user_balance(3), Ok(u64::MAX));
    assert_eq!(ledger.get_user_balance(1), Ok(0));
}

#[test]
fn transfer_to_self_keeps_the_balance() {
    let mut ledger = BalanceLedger::new();
    ledger.create_user(1, &account(100)).unwrap();
    ledger.transfer(1, 1, 60).unwrap();
    assert_eq!(ledger.get_user_balance(1), Ok(100));
    assert_eq!(ledger.transfer(1, 1, 101), Err(MyError::InsufficientBalance));
}

#[test]
fn release_after_claim_restores_the_free_pool() {
    let mut allocator = SpaceAllocator::new();
    let id = allocator.create_parking_space(&CreateParkingSpaceSchema {
        parking_lot_id: 1,
        location: parking_os::model::ParkingLocation { no_level: 0, no_space: 0 },
        vehicle_type: VehicleType::Car,
    });
    assert!(!allocator.lookup(1, id).unwrap().occupied);
    let claimed = allocator.claim(1, VehicleType::Car).unwrap();
    assert_eq!(claimed.id, id);
    assert!(claimed.occupied);
    assert!(allocator.lookup(1, id).unwrap().occupied);
    assert_eq!(allocator.claim(1, VehicleType::Car), Err(MyError::NoFreeSpace));
    allocator.release(id).unwrap();
    assert!(!allocator.lookup(1, id).unwrap().occupied);
    // Releasing a free space is a harmless no-op; a wrong id is not.
    allocator.release(id).unwrap();
    assert!(!allocator.lookup(1, id).unwrap().occupied);
    assert_eq!(allocator.release(id + 7), Err(MyError::NotFound));
}

#[test]
fn lookup_by_location_finds_the_space() {
    let mut allocator = SpaceAllocator::new();
    let id = allocator.create_parking_space(&CreateParkingSpaceSchema {
        parking_lot_id: 3,
        location: parking_os::model::ParkingLocation { no_level: 2, no_space: 5 },
        vehicle_type: VehicleType::Truck,
    });
    let found = allocator.lookup_by_location(3, 2, 5).unwrap();
    assert_eq!(found.id, id);
    assert_eq!(allocator.lookup_by_location(3, 2, 6), Err(MyError::NotFound));
    assert_eq!(allocator.lookup(4, id), Err(MyError::NotFound));
}

#[test]
fn tariff_rate_picks_the_containing_tier() {
    let mut table = TariffTable::new();
    table.create_tariff(&CreateTariffSchema { min_time: 0, max_time: 3, price_per_hour: 500 }, 1)
        .unwrap();
    table.create_tariff(&CreateTariffSchema { min_time: 4, max_time: 10, price_per_hour: 300 }, 1)
        .unwrap();
    assert_eq!(table.rate_for(1, 0), Ok(500));
    assert_eq!(table.rate_for(1, 3), Ok(500));
    assert_eq!(table.rate_for(1, 4), Ok(300));
    assert_eq!(table.rate_for(1, 10), Ok(300));
    // Overstay: beyond every tier the last tier still bills.
    assert_eq!(table.rate_for(1, 11), Ok(300));
    assert_eq!(table.rate_for(1, 10_000), Ok(300));
    // A lot without tiers cannot bill.
    assert_eq!(table.rate_for(2, 1), Err(MyError::NotFound));
}

#[test]
fn tariff_chain_is_enforced() {
    let mut table = TariffTable::new();
    // The first tier must start at zero.
    assert_eq!(
        table.create_tariff(&CreateTariffSchema { min_time: 1, max_time: 3, price_per_hour: 5 }, 1),
        Err(MyError::InvalidArgument)
    );
    table.create_tariff(&CreateTariffSchema { min_time: 0, max_time: 3, price_per_hour: 5 }, 1)
        .unwrap();
    // The next tier must start right after the previous one ends.
    assert_eq!(
        table.create_tariff(&CreateTariffSchema { min_time: 5, max_time: 9, price_per_hour: 4 }, 1),
        Err(MyError::InvalidArgument)
    );
    // An empty range is rejected.
    assert_eq!(
        table.create_tariff(&CreateTariffSchema { min_time: 4, max_time: 3, price_per_hour: 4 }, 1),
        Err(MyError::InvalidArgument)
    );
    table.create_tariff(&CreateTariffSchema { min_time: 4, max_time: 9, price_per_hour: 4 }, 1)
        .unwrap();
    // Chains are per lot.
    table.create_tariff(&CreateTariffSchema { min_time: 0, max_time: 7, price_per_hour: 9 }, 2)
        .unwrap();
    let lot1 = table.get_tariffs_by_parking_lot_id_ascending(1);
    assert_eq!(lot1.len(), 2);
    assert_eq!(lot1[0].min_time, 0);
    assert_eq!(lot1[1].min_time, 4);
    assert_eq!(table.get_tariffs_by_parking_lot_id_ascending(2).len(), 1);
}

#[test]
fn ticket_codes_print_as_eight_hex_digits() {
    let bytes = code_to_bytes(0x0123_abcd);
    assert_eq!(bytes, b"0123abcd".to_vec());
    assert_eq!(code_to_bytes(0), b"00000000".to_vec());
    assert_eq!(code_to_bytes(0xffff_ffff), b"ffffffff".to_vec());
}

#[test]
fn ticket_codes_parse_back() {
    assert_eq!(code_from_bytes(&b"0123abcd".to_vec()), Ok(0x0123_abcd));
    assert_eq!(code_from_bytes(&b"00000000".to_vec()), Ok(0));
    assert_eq!(code_from_bytes(&b"ffffffff".to_vec()), Ok(0xffff_ffff));
    for code in [0u64, 1, 0xdead_beef, 0xffff_ffff] {
        assert_eq!(code_from_bytes(&code_to_bytes(code)), Ok(code));
    }
    // Wrong length, uppercase and stray bytes are rejected.
    assert_eq!(code_from_bytes(&b"0123abc".to_vec()), Err(MyError::InvalidArgument));
    assert_eq!(code_from_bytes(&b"0123abcde".to_vec()), Err(MyError::InvalidArgument));
    assert_eq!(code_from_bytes(&b"0123ABCD".to_vec()), Err(MyError::InvalidArgument));
    assert_eq!(code_from_bytes(&b"0123abcg".to_vec()), Err(MyError::InvalidArgument));
}

#[test]
fn vehicle_type_names_round_trip() {
    assert_eq!(vehicle_type_name(VehicleType::Car), "Car".to_string());
    assert_eq!(vehicle_type_name(VehicleType::Truck), "Truck".to_string());
    assert_eq!(parse_vehicle_type(&"Car".to_string()), Ok(VehicleType::Car));
    assert_eq!(parse_vehicle_type(&"Truck".to_string()), Ok(VehicleType::Truck));
    assert_eq!(parse_vehicle_type(&"car".to_string()), Err(MyError::InvalidArgument));
    assert_eq!(parse_vehicle_type(&"".to_string()), Err(MyError::InvalidArgument));
}

#[test]
fn license_prefix_decides_the_class() {
    assert_eq!(vehicle_type_for_license("ABC123"), Ok(VehicleType::Truck));
    assert_eq!(vehicle_type_for_license("KR12345"), Ok(VehicleType::Car));
    assert_eq!(vehicle_type_for_license("a lowercase"), Ok(VehicleType::Car));
    assert_eq!(vehicle_type_for_license(""), Err(MyError::InvalidArgument));
}

#[test]
fn ticket_listing_honours_the_filter() {
    let mut engine = TicketLifecycle::new(9);
    engine.create_user(1, &account(10_000)).unwrap();
    engine.create_user(2, &account(10_000)).unwrap();
    engine.create_user(9, &account(0)).unwrap();
    let plan = CreateParkingSchema {
        levels: vec![Levels { cars: 3, trucks: 0 }],
        tariffs: vec![CreateTariffSchema { min_time: 0, max_time: 10, price_per_hour: 100 }],
    };
    let lot = engine.create_parking(&plan).unwrap();
    let c1 = engine.open_ticket(lot, 1, "KR21".to_string(), VehicleType::Car, 50).unwrap();
    let _c2 = engine.open_ticket(lot, 2, "KR22".to_string(), VehicleType::Car, 60).unwrap();
    engine.close_ticket(c1, 70).unwrap();

    let active_of_two = engine.get_user_active_tickets(2);
    assert_eq!(active_of_two.len(), 1);
    assert_eq!(active_of_two[0].user_id, 2);

    assert_eq!(engine.get_user_active_tickets(1).len(), 0);

    // active = true lists only open tickets, whoever holds them.
    let open_query = QueryTicket {
        user_id: 0,
        active: true,
        vehicle_license_number: "".to_string(),
        spot_ordinal_number: 0,
        issue_time_stamp: 0,
        end_time_stamp: 0,
        level: 0,
        parking_lot_id: 0,
    };
    // The wildcard level 0 matches only non-zero levels, so nothing here.
    assert_eq!(engine.fetch_tickets(&open_query).len(), 0);
    // Pinning the license selects the one ticket.
    let by_license = QueryTicket {
        user_id: 2,
        active: true,
        vehicle_license_number: "KR22".to_string(),
        spot_ordinal_number: 1,
        issue_time_stamp: 60,
        end_time_stamp: 0,
        level: 0,
        parking_lot_id: lot,
    };
    // Still empty: level 0 never matches a level-zero ticket.
    assert_eq!(engine.fetch_tickets(&by_license).len(), 0);
    assert_eq!(default_level(), -1);
}

#[test]
fn ticket_listing_matches_nonzero_fields() {
    let mut engine = TicketLifecycle::new(9);
    engine.create_user(1, &account(10_000)).unwrap();
    let plan = CreateParkingSchema {
        levels: vec![Levels { cars: 1, trucks: 0 }, Levels { cars: 1, trucks: 0 }],
        tariffs: vec![CreateTariffSchema { min_time: 0, max_time: 10, price_per_hour: 100 }],
    };
    let lot = engine.create_parking(&plan).unwrap();
    // The second ticket lands on level 1 with ordinal 1, so every
    // wildcard (which matches non-zero fields) applies to it.
    let _level0 = engine.open_ticket(lot, 1, "KR31".to_string(), VehicleType::Car, 40).unwrap();
    let level1 = engine.open_ticket(lot, 1, "KR32".to_string(), VehicleType::Car, 41).unwrap();
    let wildcard = QueryTicket {
        user_id: 0,
        active: true,
        vehicle_license_number: "".to_string(),
        spot_ordinal_number: 0,
        issue_time_stamp: 0,
        end_time_stamp: 0,
        level: 0,
        parking_lot_id: 0,
    };
    let found = engine.fetch_tickets(&wildcard);
    assert_eq!(found.len(), 1);
    assert_eq!(found[0].code, level1);
    assert_eq!(found[0].level, 1);
    // Pinning every field still selects it.
    let pinned = QueryTicket {
        user_id: 1,
        active: true,
        vehicle_license_number: "KR32".to_string(),
        spot_ordinal_number: 1,
        issue_time_stamp: 41,
        end_time_stamp: 0,
        level: 1,
        parking_lot_id: lot,
    };
    assert_eq!(engine.fetch_tickets(&pinned).len(), 1);
    // A mismatched license filters it out.
    let wrong = QueryTicket { vehicle_license_number: "KR33".to_string(), ..pinned };
    assert_eq!(engine.fetch_tickets(&wrong).len(), 0);
}

#[test]
fn ticket_lookup_by_id_and_code() {
    let mut engine = TicketLifecycle::new(9);
    engine.create_user(1, &account(1_000)).unwrap();
    let plan = CreateParkingSchema {
        levels: vec![Levels { cars: 1, trucks: 0 }],
        tariffs: vec![CreateTariffSchema { min_time: 0, max_time: 10, price_per_hour: 100 }],
    };
    let lot = engine.create_parking(&plan).unwrap();
    let code = engine.open_ticket(lot, 1, "KR23".to_string(), VehicleType::Car, 5).unwrap();
    let by_code = engine.get_ticket_by_code(code).unwrap();
    let by_id = engine.get_ticket_by_id(by_code.id).unwrap();
    assert_eq!(by_id.code, code);
    assert_eq!(by_id.id, 0);
    let missing = engine.get_ticket_by_id(5);
    assert_eq!(missing.err(), Some(MyError::NotFound));
    let unknown = engine.get_ticket_by_code(code ^ 1);
    assert_eq!(unknown.err(), Some(MyError::NotFound));
}
