use parking_os::error::MyError;
use parking_os::lifecycle::TicketLifecycle;
use parking_os::model::Levels;
use parking_os::model::VehicleType;
use parking_os::schema::CreateParkingSchema;
use parking_os::schema::CreateTariffSchema;
use parking_os::schema::CreateUserSchema;

const OPERATOR: u64 = 900;

fn user_schema(name: &str, balance: u64) -> CreateUserSchema {
    CreateUserSchema {
        name: name.to_string(),
        surname: "Tester".to_string(),
        account_balance: balance,
        blocked: false,
    }
}

/// One lot with `cars` car spaces and `trucks` truck spaces on one level,
/// one tariff tier `[0, 10]` at 2.00 per hour (200 cents).
fn engine_with_lot(cars: u32, trucks: u32, driver_balance: u64) -> (TicketLifecycle, u64) {
    let mut engine = TicketLifecycle::new(OPERATOR);
    engine.create_user(OPERATOR, &user_schema("House", 0)).unwrap();
    engine.create_user(1, &user_schema("Ada", driver_balance)).unwrap();
    let plan = CreateParkingSchema {
        levels: vec![Levels { cars, trucks }],
        tariffs: vec![CreateTariffSchema { min_time: 0, max_time: 10, price_per_hour: 200 }],
    };
    let lot = engine.create_parking(&plan).unwrap();
    (engine, lot)
}

#[test]
fn scenario_a_three_units_cost_six() {
    // One tier {min 0, max 10, price 2.00}, modifier 1.0, three elapsed
    // units: the fee is 1.0 * 2.00 * 3 = 6.00, i.e. 600 cents.
    let (mut engine, lot) = engine_with_lot(1, 0, 10_000);
    let issue: u64 = 1_000;
    let code = engine.open_ticket(lot, 1, "KR01".to_string(), VehicleType::Car, issue).unwrap();
    // 80_000 seconds are two full blocks and change: three billed units.
    let amount = engine.close_ticket(code, issue + 80_000).unwrap();
    assert_eq!(amount, 600);
    assert_eq!(engine.ledger.get_user_balance(1).unwrap(), 9_400);
    assert_eq!(engine.ledger.get_user_balance(OPERATOR).unwrap(), 600);
    let ticket = engine.get_ticket_by_code(code).unwrap();
    assert_eq!(ticket.end_timestamp, issue + 80_000);
    assert_eq!(ticket.amount_paid, 600);
}

#[test]
fn scenario_b_overstay_uses_highest_tier() {
    // 25 elapsed units exceed the single tier's max of 10: the overstay
    // is still billed, at the highest tier's price.
    let (mut engine, lot) = engine_with_lot(1, 0, 100_000);
    let issue: u64 = 0;
    let code = engine.open_ticket(lot, 1, "KR02".to_string(), VehicleType::Car, issue).unwrap();
    // 24 full blocks elapsed: 25 billed units.
    let now = 24 * 36_000;
    assert_eq!(engine.tariffs.rate_for(lot, 25), Ok(200));
    let amount = engine.close_ticket(code, now).unwrap();
    assert_eq!(amount, 200 * 25);
}

#[test]
fn scenario_c_one_space_single_winner() {
    // Two issuances against a lot with exactly one free matching space:
    // exactly one succeeds, the other gets NoFreeSpace.
    let (mut engine, lot) = engine_with_lot(1, 0, 10_000);
    let first = engine.open_ticket(lot, 1, "KR03".to_string(), VehicleType::Car, 5);
    assert!(first.is_ok());
    let second = engine.open_ticket(lot, 1, "KR04".to_string(), VehicleType::Car, 6);
    assert_eq!(second, Err(MyError::NoFreeSpace));
}

#[test]
fn scenario_c_two_spaces_distinct_claims() {
    // With two free spaces, back-to-back issuances never claim the same
    // space.
    let (mut engine, lot) = engine_with_lot(2, 0, 10_000);
    let code1 = engine.open_ticket(lot, 1, "KR05".to_string(), VehicleType::Car, 5).unwrap();
    let code2 = engine.open_ticket(lot, 1, "KR06".to_string(), VehicleType::Car, 6).unwrap();
    let t1 = engine.get_ticket_by_code(code1).unwrap();
    let t2 = engine.get_ticket_by_code(code2).unwrap();
    assert_ne!(t1.parking_spot_id, t2.parking_spot_id);
}

#[test]
fn scenario_d_insufficient_balance_changes_nothing() {
    // Balance 5.00, fee 6.00: the closure fails with InsufficientBalance,
    // the ticket stays open and the space stays occupied.
    let (mut engine, lot) = engine_with_lot(1, 0, 500);
    let issue: u64 = 1_000;
    let code = engine.open_ticket(lot, 1, "KR07".to_string(), VehicleType::Car, issue).unwrap();
    let result = engine.close_ticket(code, issue + 80_000);
    assert_eq!(result, Err(MyError::InsufficientBalance));
    let ticket = engine.get_ticket_by_code(code).unwrap();
    assert_eq!(ticket.end_timestamp, 0);
    let space = engine.allocator.lookup(lot, ticket.parking_spot_id).unwrap();
    assert!(space.occupied);
    assert_eq!(engine.ledger.get_user_balance(1).unwrap(), 500);
    assert_eq!(engine.ledger.get_user_balance(OPERATOR).unwrap(), 0);
}

#[test]
fn scenario_e_second_close_is_rejected() {
    // Closing the same code twice: the second call fails with NotFound
    // and no second charge lands.
    let (mut engine, lot) = engine_with_lot(1, 0, 10_000);
    let issue: u64 = 1_000;
    let code = engine.open_ticket(lot, 1, "KR08".to_string(), VehicleType::Car, issue).unwrap();
    let amount = engine.close_ticket(code, issue + 1).unwrap();
    assert_eq!(amount, 200);
    let balance_after = engine.ledger.get_user_balance(1).unwrap();
    let again = engine.close_ticket(code, issue + 80_000);
    assert_eq!(again, Err(MyError::NotFound));
    assert_eq!(engine.ledger.get_user_balance(1).unwrap(), balance_after);
    assert_eq!(engine.ledger.get_user_balance(OPERATOR).unwrap(), amount);
}

#[test]
fn close_unknown_code_is_not_found() {
    let (mut engine, _lot) = engine_with_lot(1, 0, 10_000);
    assert_eq!(engine.close_ticket(12345, 50), Err(MyError::NotFound));
}

#[test]
fn close_before_issue_is_invalid() {
    let (mut engine, lot) = engine_with_lot(1, 0, 10_000);
    let code = engine.open_ticket(lot, 1, "KR09".to_string(), VehicleType::Car, 100).unwrap();
    assert_eq!(engine.close_ticket(code, 99), Err(MyError::InvalidArgument));
    assert_eq!(engine.close_ticket(code, 0), Err(MyError::InvalidArgument));
}

#[test]
fn close_without_tariff_is_not_found() {
    let mut engine = TicketLifecycle::new(OPERATOR);
    engine.create_user(OPERATOR, &user_schema("House", 0)).unwrap();
    engine.create_user(1, &user_schema("Ada", 1_000)).unwrap();
    let plan = CreateParkingSchema {
        levels: vec![Levels { cars: 1, trucks: 0 }],
        tariffs: vec![],
    };
    let lot = engine.create_parking(&plan).unwrap();
    let code = engine.open_ticket(lot, 1, "KR10".to_string(), VehicleType::Car, 10).unwrap();
    assert_eq!(engine.close_ticket(code, 20), Err(MyError::NotFound));
}

#[test]
fn open_on_unknown_lot_has_no_free_space() {
    let (mut engine, lot) = engine_with_lot(1, 0, 10_000);
    let missing = engine.open_ticket(lot + 7, 1, "KR11".to_string(), VehicleType::Car, 5);
    assert_eq!(missing, Err(MyError::NoFreeSpace));
}

#[test]
fn truck_space_does_not_serve_cars() {
    let (mut engine, lot) = engine_with_lot(0, 1, 10_000);
    let car = engine.open_ticket(lot, 1, "KR12".to_string(), VehicleType::Car, 5);
    assert_eq!(car, Err(MyError::NoFreeSpace));
    let truck = engine.open_ticket(lot, 1, "AKR1".to_string(), VehicleType::Truck, 5);
    assert!(truck.is_ok());
}

#[test]
fn claim_prefers_lowest_level_then_ordinal() {
    // Two levels of one car space each: the first issuance takes the
    // space on level zero.
    let mut engine = TicketLifecycle::new(OPERATOR);
    engine.create_user(1, &user_schema("Ada", 1_000)).unwrap();
    let plan = CreateParkingSchema {
        levels: vec![Levels { cars: 1, trucks: 0 }, Levels { cars: 1, trucks: 0 }],
        tariffs: vec![CreateTariffSchema { min_time: 0, max_time: 10, price_per_hour: 100 }],
    };
    let lot = engine.create_parking(&plan).unwrap();
    let code = engine.open_ticket(lot, 1, "KR13".to_string(), VehicleType::Car, 5).unwrap();
    let ticket = engine.get_ticket_by_code(code).unwrap();
    assert_eq!(ticket.level, 0);
    assert_eq!(ticket.spot_ordinal_number, 0);
}

#[test]
fn open_ticket_records_the_request() {
    let (mut engine, lot) = engine_with_lot(1, 0, 10_000);
    let code = engine.open_ticket(lot, 1, "KR14".to_string(), VehicleType::Car, 77).unwrap();
    let ticket = engine.get_ticket_by_code(code).unwrap();
    assert_eq!(ticket.user_id, 1);
    assert_eq!(ticket.vehicle_license_number, "KR14".to_string());
    assert_eq!(ticket.parking_lot_id, lot);
    assert_eq!(ticket.issue_timestamp, 77);
    assert_eq!(ticket.end_timestamp, 0);
    assert_eq!(ticket.amount_paid, 0);
    assert!(ticket.code < parking_os::lifecycle::CODE_SPACE);
    assert_eq!(ticket.code, code);
}

#[test]
fn occupancy_conservation_across_a_session() {
    // The number of occupied spaces always equals the number of open
    // tickets of the lot.
    let (mut engine, lot) = engine_with_lot(2, 1, 100_000);
    let occupied = |engine: &TicketLifecycle, lot: u64| -> u32 {
        let rows = engine.get_parking_lot_levels_by_id(lot);
        rows.iter().map(|r| r.car.spots_occupied + r.truck.spots_occupied).sum()
    };
    let open_tickets = |engine: &TicketLifecycle, lot: u64| -> usize {
        engine
            .get_user_active_tickets(1)
            .into_iter()
            .filter(|t| t.parking_lot_id == lot)
            .count()
    };
    assert_eq!(occupied(&engine, lot), 0);
    let code1 = engine.open_ticket(lot, 1, "KR15".to_string(), VehicleType::Car, 5).unwrap();
    let _code2 = engine.open_ticket(lot, 1, "AKR2".to_string(), VehicleType::Truck, 6).unwrap();
    assert_eq!(occupied(&engine, lot) as usize, open_tickets(&engine, lot));
    assert_eq!(occupied(&engine, lot), 2);
    engine.close_ticket(code1, 100).unwrap();
    assert_eq!(occupied(&engine, lot) as usize, open_tickets(&engine, lot));
    assert_eq!(occupied(&engine, lot), 1);
}

#[test]
fn create_parking_rejects_bad_tariff_chains() {
    let mut engine = TicketLifecycle::new(OPERATOR);
    // A chain with a gap.
    let gap = CreateParkingSchema {
        levels: vec![Levels { cars: 1, trucks: 0 }],
        tariffs: vec![
            CreateTariffSchema { min_time: 0, max_time: 10, price_per_hour: 100 },
            CreateTariffSchema { min_time: 12, max_time: 20, price_per_hour: 50 },
        ],
    };
    assert_eq!(engine.create_parking(&gap), Err(MyError::InvalidArgument));
    // A chain that does not start at zero.
    let late = CreateParkingSchema {
        levels: vec![Levels { cars: 1, trucks: 0 }],
        tariffs: vec![CreateTariffSchema { min_time: 1, max_time: 10, price_per_hour: 100 }],
    };
    assert_eq!(engine.create_parking(&late), Err(MyError::InvalidArgument));
    // An empty range.
    let empty = CreateParkingSchema {
        levels: vec![Levels { cars: 1, trucks: 0 }],
        tariffs: vec![CreateTariffSchema { min_time: 0, max_time: 10, price_per_hour: 100 },
            CreateTariffSchema { min_time: 11, max_time: 10, price_per_hour: 50 }],
    };
    assert_eq!(engine.create_parking(&empty), Err(MyError::InvalidArgument));
    // Nothing was provisioned by the rejected plans.
    assert_eq!(engine.next_parking_lot_id, 1);
}

#[test]
fn create_parking_lays_out_levels() {
    // Cars get ordinals from a lot-wide counter, trucks restart at zero
    // per level; all spaces start free.
    let mut engine = TicketLifecycle::new(OPERATOR);
    let plan = CreateParkingSchema {
        levels: vec![Levels { cars: 2, trucks: 1 }, Levels { cars: 1, trucks: 0 }],
        tariffs: vec![CreateTariffSchema { min_time: 0, max_time: 10, price_per_hour: 100 }],
    };
    let lot = engine.create_parking(&plan).unwrap();
    let rows = engine.get_parking_spaces_by_parking_lot_id(lot, -1);
    assert_eq!(rows.len(), 4);
    assert_eq!(rows[0].level, 0);
    assert_eq!(rows[0].ordinal_number, 0);
    assert_eq!(rows[0].vehicle_type, "Car".to_string());
    assert_eq!(rows[1].level, 0);
    assert_eq!(rows[1].ordinal_number, 1);
    assert_eq!(rows[2].level, 0);
    assert_eq!(rows[2].ordinal_number, 0);
    assert_eq!(rows[2].vehicle_type, "Truck".to_string());
    assert_eq!(rows[3].level, 1);
    assert_eq!(rows[3].ordinal_number, 3);
    assert_eq!(rows[3].vehicle_type, "Car".to_string());
    assert!(rows.iter().all(|r| !r.is_occupied));
    // The level filter picks one level.
    let level1 = engine.get_parking_spaces_by_parking_lot_id(lot, 1);
    assert_eq!(level1.len(), 1);
    assert_eq!(level1[0].level, 1);
}

#[test]
fn level_stats_count_by_class_and_state() {
    let (mut engine, lot) = engine_with_lot(2, 1, 100_000);
    engine.open_ticket(lot, 1, "KR16".to_string(), VehicleType::Car, 5).unwrap();
    let rows = engine.get_parking_lot_levels_by_id(lot);
    assert_eq!(rows.len(), 1);
    assert_eq!(rows[0].car.spots_occupied, 1);
    assert_eq!(rows[0].car.spots_free, 1);
    assert_eq!(rows[0].truck.spots_occupied, 0);
    assert_eq!(rows[0].truck.spots_free, 1);
    // A lot without spaces has no levels.
    assert_eq!(engine.get_parking_lot_levels_by_id(lot + 9).len(), 0);
}
