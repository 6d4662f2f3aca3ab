use vstd::prelude::*;

use crate::counting::count_where;
use crate::counting::filtered;
use crate::counting::lemma_count_where_bounds;
use crate::counting::lemma_count_where_push;
use crate::counting::lemma_filtered_push;
use crate::counting::lemma_count_where_update;
use crate::error::MyError;
use crate::ledger::Account;
use crate::ledger::BalanceLedger;
use crate::ledger::find_account;
use crate::ledger::sum_balances;
use crate::model::Levels;
use crate::model::ParkingLocation;
use crate::model::VehicleType;
use crate::query::QueryTicket;
use crate::schema::CreateParkingSchema;
use crate::response::ParkingLotStats;
use crate::response::ParkingLotStatsResponse;
use crate::response::ParkingSpaceResponse;
use crate::response::space_rendered;
use crate::response::space_to_response;
use crate::schema::CreateParkingSpaceSchema;
use crate::schema::CreateTariffSchema;
use crate::schema::CreateUserSchema;
use crate::space::SpaceAllocator;
use crate::space::best_free;
use crate::space::claimed;
use crate::space::lemma_best_free_props;
use crate::space::occupied_count;
use crate::space::released;
use crate::tariff::TariffTable;
use crate::tariff::lot_tiers;
use crate::tariff::spec_elapsed_units;
use crate::tariff::spec_fee;
use crate::tariff::spec_rate;
use crate::tariff::tier_admissible;
use crate::tariff::elapsed_units;
use crate::tariff::fee;

verus! {

/// The record of one occupancy session, from issuance to closure. A zero
/// `end_timestamp` means the ticket is still open; tickets are never
/// deleted, they are the billing trail. The id is the ticket's position
/// in the store.
#[derive(Debug)]
pub struct Ticket {
    pub id: u64,
    pub code: u64,
    pub user_id: u64,
    pub vehicle_license_number: String,
    pub parking_spot_id: u64,
    pub parking_lot_id: u64,
    pub level: u32,
    pub spot_ordinal_number: u32,
    pub issue_timestamp: u64,
    pub end_timestamp: u64,
    pub amount_paid: u64,
}

/// Is this ticket still open?
pub open spec fn is_open(t: Ticket) -> bool {
    t.end_timestamp == 0
}

/// Open tickets that reference this lot.
pub open spec fn open_ticket_count(tickets: Seq<Ticket>, parking_lot_id: u64) -> int {
    count_where(tickets, |t: Ticket| t.parking_lot_id == parking_lot_id && is_open(t))
}

/// Ticket codes live below this bound, so they print as eight hex digits.
pub const CODE_SPACE: u64 = 0x1_0000_0000;

/// How many candidate codes an issuance tries before giving up.
pub const MAX_CODE_ATTEMPTS: u64 = 16;

/// The candidate code an issuance derives from the ticket id and the
/// retry attempt: a fixed mixing of both, reduced to the code space.
pub open spec fn spec_code_candidate(ticket_id: u64, attempt: u64) -> u64 {
    ((ticket_id * 2654435761 + attempt * 40503 + 1) % (CODE_SPACE as int)) as u64
}

/// Computes the candidate code for one issuance attempt.
pub fn code_candidate(ticket_id: u64, attempt: u64) -> (code: u64)
    ensures
        code == spec_code_candidate(ticket_id, attempt),
        code < CODE_SPACE,
{
    let mixed: u128 = (ticket_id as u128) * 2654435761u128 + (attempt as u128) * 40503u128
        + 1u128;
    (mixed % (CODE_SPACE as u128)) as u64
}

/// Does some open ticket already carry this code?
pub open spec fn code_in_open_use(tickets: Seq<Ticket>, code: u64) -> bool {
    exists|j: int| 0 <= j < tickets.len() && is_open(#[trigger] tickets[j]) && tickets[j].code == code
}

/// The first issuance attempt (at or after `k`) whose candidate code no
/// open ticket uses.
pub open spec fn first_fresh_attempt(tickets: Seq<Ticket>, ticket_id: u64, k: u64) -> Option<u64>
    decreases MAX_CODE_ATTEMPTS - k,
{
    if k >= MAX_CODE_ATTEMPTS {
        None
    } else if !code_in_open_use(tickets, spec_code_candidate(ticket_id, k)) {
        Some(k)
    } else {
        first_fresh_attempt(tickets, ticket_id, (k + 1) as u64)
    }
}

/// A found attempt is in range and its candidate is fresh.
pub proof fn lemma_first_fresh_attempt_props(tickets: Seq<Ticket>, ticket_id: u64, k: u64)
    ensures
        match first_fresh_attempt(tickets, ticket_id, k) {
            Some(a) => k <= a < MAX_CODE_ATTEMPTS && !code_in_open_use(
                tickets,
                spec_code_candidate(ticket_id, a),
            ),
            None => true,
        },
    decreases MAX_CODE_ATTEMPTS - k,
{
    if k < MAX_CODE_ATTEMPTS && code_in_open_use(tickets, spec_code_candidate(ticket_id, k)) {
        lemma_first_fresh_attempt_props(tickets, ticket_id, (k + 1) as u64);
    }
}

/// Index of the first open ticket carrying `code`, searching from `i`.
pub open spec fn find_open_by_code(tickets: Seq<Ticket>, code: u64, i: int) -> Option<int>
    decreases tickets.len() - i,
{
    if i < 0 || i >= tickets.len() {
        None
    } else if is_open(tickets[i]) && tickets[i].code == code {
        Some(i)
    } else {
        find_open_by_code(tickets, code, i + 1)
    }
}

/// What a found index means; `None` rules every open ticket out.
pub proof fn lemma_find_open_by_code(tickets: Seq<Ticket>, code: u64, i: int)
    requires
        0 <= i <= tickets.len(),
    ensures
        match find_open_by_code(tickets, code, i) {
            Some(j) => i <= j < tickets.len() && is_open(tickets[j]) && tickets[j].code == code,
            None => forall|k: int|
                i <= k < tickets.len() ==> !(is_open(#[trigger] tickets[k]) && tickets[k].code
                    == code),
        },
    decreases tickets.len() - i,
{
    if i < tickets.len() && !(is_open(tickets[i]) && tickets[i].code == code) {
        lemma_find_open_by_code(tickets, code, i + 1);
    }
}

/// Index of the first ticket carrying `code`, open or closed, from `i`.
pub open spec fn find_by_code(tickets: Seq<Ticket>, code: u64, i: int) -> Option<int>
    decreases tickets.len() - i,
{
    if i < 0 || i >= tickets.len() {
        None
    } else if tickets[i].code == code {
        Some(i)
    } else {
        find_by_code(tickets, code, i + 1)
    }
}

/// Each ticket is linked consistently into the store: its id is its
/// position, it references an existing space of its own lot, its code is
/// in the code space, and an open ticket's space is occupied.
pub open spec fn ticket_linked(spaces: Seq<crate::space::ParkingSpace>, t: Ticket, i: int) -> bool {
    &&& t.id == i as u64
    &&& t.parking_spot_id < spaces.len()
    &&& spaces[t.parking_spot_id as int].parking_lot_id == t.parking_lot_id
    &&& t.code < CODE_SPACE
    &&& (is_open(t) ==> spaces[t.parking_spot_id as int].occupied)
}

/// Orchestrates the whole engine: spaces, tariffs, balances and tickets,
/// plus the configured operator (house) account that receives every fee.
pub struct TicketLifecycle {
    pub allocator: SpaceAllocator,
    pub tariffs: TariffTable,
    pub ledger: BalanceLedger,
    pub tickets: Vec<Ticket>,
    pub operator_account_id: u64,
    pub next_parking_lot_id: u64,
}

impl TicketLifecycle {
    /// The engine invariant. Besides each component's own invariant:
    /// every ticket is linked to an existing space of its lot; no two open
    /// tickets share a space or a code; lot ids stay below the provision
    /// counter (and above zero); and, for every lot, the occupied spaces
    /// are exactly as many as the open tickets referencing it.
    pub open spec fn wf(self) -> bool {
        &&& self.allocator.wf()
        &&& self.tariffs.wf()
        &&& self.ledger.wf()
        &&& forall|i: int|
            0 <= i < self.tickets@.len() ==> ticket_linked(
                self.allocator.spaces@,
                #[trigger] self.tickets@[i],
                i,
            )
        &&& forall|i: int, j: int|
            0 <= i < j < self.tickets@.len() && is_open(#[trigger] self.tickets@[i]) && is_open(
                #[trigger] self.tickets@[j],
            ) ==> self.tickets@[i].parking_spot_id != self.tickets@[j].parking_spot_id
                && self.tickets@[i].code != self.tickets@[j].code
        &&& forall|i: int|
            0 <= i < self.allocator.spaces@.len() ==> 1 <= (
            #[trigger] self.allocator.spaces@[i]).parking_lot_id < self.next_parking_lot_id
        &&& self.next_parking_lot_id >= 1
        &&& forall|lot: u64|
            #[trigger] occupied_count(self.allocator.spaces@, lot) == open_ticket_count(
                self.tickets@,
                lot,
            )
    }

    /// A fresh engine: no lots, spaces, tiers, accounts or tickets, and
    /// the given operator account configured to receive fees.
    pub fn new(operator_account_id: u64) -> (engine: TicketLifecycle)
        ensures
            engine.wf(),
            engine.allocator.spaces@ =~= Seq::<crate::space::ParkingSpace>::empty(),
            engine.tariffs.tiers@ =~= Seq::<crate::tariff::Tariff>::empty(),
            engine.ledger.accounts@ =~= Seq::<Account>::empty(),
            engine.tickets@ =~= Seq::<Ticket>::empty(),
            engine.operator_account_id == operator_account_id,
            engine.next_parking_lot_id == 1,
    {
        TicketLifecycle {
            allocator: SpaceAllocator::new(),
            tariffs: TariffTable::new(),
            ledger: BalanceLedger::new(),
            tickets: Vec::new(),
            operator_account_id,
            next_parking_lot_id: 1,
        }
    }

    /// Adds a user account holding `body.account_balance` cents; see
    /// `BalanceLedger::create_user` for the exact acceptance conditions.
    pub fn create_user(&mut self, user_id: u64, body: &CreateUserSchema) -> (r: Result<
        (),
        MyError,
    >)
        requires
            old(self).wf(),
        ensures
            final(self).wf(),
            r == Ok::<(), MyError>(()) <==> find_account(old(self).ledger.accounts@, user_id)
                is None && sum_balances(old(self).ledger.accounts@) + body.account_balance
                <= u64::MAX,
            r == Ok::<(), MyError>(()) ==> final(self).ledger.accounts@ == old(
                self,
            ).ledger.accounts@.push(Account { id: user_id, account_balance: body.account_balance }),
            r matches Err(e) ==> final(self).ledger.accounts@ == old(self).ledger.accounts@ && (e
                == MyError::Conflict || e == MyError::InvalidArgument),
            find_account(old(self).ledger.accounts@, user_id) is Some ==> r == Err::<(), MyError>(
                MyError::Conflict,
            ),
            self_unchanged_but_ledger(*old(self), *final(self)),
    {
        self.ledger.create_user(user_id, body)
    }

    /// Adds the next tariff tier of a lot; see `TariffTable::create_tariff`
    /// for the exact acceptance conditions.
    pub fn create_tariff(&mut self, body: &CreateTariffSchema, parking_lot_id: u64) -> (r: Result<
        (),
        MyError,
    >)
        requires
            old(self).wf(),
        ensures
            final(self).wf(),
            r == Ok::<(), MyError>(()) <==> tier_admissible(
                lot_tiers(old(self).tariffs.tiers@, parking_lot_id),
                *body,
            ),
            r == Ok::<(), MyError>(()) ==> final(self).tariffs.tiers@ == old(
                self,
            ).tariffs.tiers@.push(
                crate::tariff::Tariff {
                    parking_lot_id,
                    min_time: body.min_time,
                    max_time: body.max_time,
                    price_per_hour: body.price_per_hour,
                },
            ),
            r matches Err(e) ==> e == MyError::InvalidArgument && final(self).tariffs.tiers@ == old(
                self,
            ).tariffs.tiers@,
            self_unchanged_but_tariffs(*old(self), *final(self)),
    {
        self.tariffs.create_tariff(body, parking_lot_id)
    }

    /// Provisions a new parking lot from a level plan: per level, first
    /// the car spaces (ordinals continuing a lot-wide counter), then the
    /// truck spaces (ordinals from zero per level), all free; then the
    /// lot's tariff tiers, in the order given. The plan is validated
    /// before anything mutates, so a rejected plan — a tariff list that
    /// is no gapless chain from zero, capacities past the location
    /// fields, tiers already recorded under the would-be lot id, or an
    /// exhausted lot counter — answers `InvalidArgument` and changes
    /// nothing.
    #[verifier::rlimit(100)]
    pub fn create_parking(&mut self, body: &CreateParkingSchema) -> (r: Result<u64, MyError>)
        requires
            old(self).wf(),
        ensures
            final(self).wf(),
            r == if parking_plan_admissible(*body) && old(self).next_parking_lot_id < u64::MAX
                && lot_tiers(old(self).tariffs.tiers@, old(self).next_parking_lot_id).len() == 0 {
                Ok::<u64, MyError>(old(self).next_parking_lot_id)
            } else {
                Err::<u64, MyError>(MyError::InvalidArgument)
            },
            r matches Err(_) ==> self_unchanged(*old(self), *final(self)),
            r matches Ok(lot) ==> {
                &&& final(self).allocator.spaces@ == old(self).allocator.spaces@
                    + provisioned_spaces(
                    body.levels@,
                    lot,
                    0,
                    0,
                    old(self).allocator.spaces@.len() as int,
                )
                &&& final(self).tariffs.tiers@ == old(self).tariffs.tiers@ + plan_tariffs(
                    body.tariffs@,
                    lot,
                )
                &&& final(self).ledger.accounts@ == old(self).ledger.accounts@
                &&& final(self).tickets@ == old(self).tickets@
                &&& final(self).operator_account_id == old(self).operator_account_id
                &&& final(self).next_parking_lot_id == lot + 1
            },
    {
        let ghost pre = *self;
        // Validate the whole plan before touching anything.
        if !tariff_plan_ok(&body.tariffs) || !level_plan_ok(&body.levels) {
            return Err(MyError::InvalidArgument);
        }
        // Reject an exhausted lot counter and a would-be lot id that
        // already has tariff tiers.
        if self.next_parking_lot_id == u64::MAX {
            return Err(MyError::InvalidArgument);
        }
        let lot = self.next_parking_lot_id;
        let existing = self.tariffs.get_tariffs_by_parking_lot_id_ascending(lot);
        if existing.len() > 0 {
            return Err(MyError::InvalidArgument);
        }
        proof {
            assert(lot_tiers(pre.tariffs.tiers@, lot) =~= Seq::<crate::tariff::Tariff>::empty());
        }
        self.next_parking_lot_id = lot + 1;
        // Create the spaces, level by level.
        let ghost base = self.allocator.spaces@.len() as int;
        let ghost target = pre.allocator.spaces@ + provisioned_spaces(
            body.levels@,
            lot,
            0,
            0,
            base,
        );
        let mut spot_name: u32 = 0;
        let mut idx: usize = 0;
        while idx < body.levels.len()
            invariant
                self.wf(),
                0 <= idx <= body.levels@.len(),
                body.levels@.len() <= u32::MAX,
                spot_name + total_spots(body.levels@, idx as int) == total_spots(body.levels@, 0),
                total_spots(body.levels@, 0) <= u32::MAX,
                self.allocator.spaces@ + provisioned_spaces(
                    body.levels@,
                    lot,
                    idx as int,
                    spot_name as int,
                    self.allocator.spaces@.len() as int,
                ) == target,
                self.tariffs.tiers@ == pre.tariffs.tiers@,
                self.ledger.accounts@ == pre.ledger.accounts@,
                self.tickets@ == pre.tickets@,
                self.operator_account_id == pre.operator_account_id,
                self.next_parking_lot_id == lot + 1,
                1 <= lot < u64::MAX,
            decreases body.levels@.len() - idx,
        {
            let lv = body.levels[idx];
            let ghost lstart = self.allocator.spaces@;
            let ghost spot_start = spot_name as int;
            let ghost id_start = lstart.len() as int;
            proof {
                lemma_total_spots_nonneg(body.levels@, idx + 1);
                assert(spot_start + lv.cars + lv.trucks <= u32::MAX);
            }
            spot_name = self.provision_level(lot, lv, idx as u32, spot_name);
            proof {
                assert(provisioned_spaces(body.levels@, lot, idx as int, spot_start, id_start)
                    == level_spaces(body.levels@[idx as int], lot, idx as u32, spot_start, id_start)
                    + provisioned_spaces(
                    body.levels@,
                    lot,
                    idx + 1,
                    spot_start + lv.cars + lv.trucks,
                    id_start + lv.cars + lv.trucks,
                ));
                assert(self.allocator.spaces@.len() as int == id_start + lv.cars + lv.trucks);
                assert(self.allocator.spaces@ + provisioned_spaces(
                    body.levels@,
                    lot,
                    idx + 1,
                    spot_start + lv.cars + lv.trucks,
                    id_start + lv.cars + lv.trucks,
                ) =~= (lstart + provisioned_spaces(
                    body.levels@,
                    lot,
                    idx as int,
                    spot_start,
                    id_start,
                )));
            }
            idx += 1;
        }
        proof {
            assert(self.allocator.spaces@ + provisioned_spaces(
                body.levels@,
                lot,
                body.levels@.len() as int,
                spot_name as int,
                self.allocator.spaces@.len() as int,
            ) =~= self.allocator.spaces@);
            assert(self.allocator.spaces@ == target);
        }
        // Create the lot's tariff tiers, in order.
        self.apply_tariff_plan(&body.tariffs, lot);
        Ok(lot)
    }

    /// Creates one level's spaces: the cars (ordinals continuing the
    /// lot-wide counter), then the trucks (ordinals from zero). Returns
    /// the advanced counter.
    fn provision_level(&mut self, lot: u64, lv: Levels, no_level: u32, spot_base: u32) -> (r: u32)
        requires
            old(self).wf(),
            1 <= lot,
            old(self).next_parking_lot_id == lot + 1,
            spot_base + lv.cars + lv.trucks <= u32::MAX,
        ensures
            final(self).wf(),
            r == spot_base + lv.cars + lv.trucks,
            final(self).allocator.spaces@ == old(self).allocator.spaces@ + level_spaces(
                lv,
                lot,
                no_level,
                spot_base as int,
                old(self).allocator.spaces@.len() as int,
            ),
            final(self).tariffs.tiers@ == old(self).tariffs.tiers@,
            final(self).ledger.accounts@ == old(self).ledger.accounts@,
            final(self).tickets@ == old(self).tickets@,
            final(self).operator_account_id == old(self).operator_account_id,
            final(self).next_parking_lot_id == old(self).next_parking_lot_id,
    {
        let ghost lstart = self.allocator.spaces@;
        let ghost spot_start = spot_base as int;
        let ghost id_start = lstart.len() as int;
        let mut spot_name: u32 = spot_base;
        let mut c: u32 = 0;
        while c < lv.cars
            invariant
                self.wf(),
                0 <= c <= lv.cars,
                spot_name == spot_start + c,
                self.allocator.spaces@ == lstart + car_spaces(
                    lv.cars,
                    lot,
                    no_level,
                    spot_start,
                    id_start,
                ).subrange(0, c as int),
                self.tariffs.tiers@ == old(self).tariffs.tiers@,
                self.ledger.accounts@ == old(self).ledger.accounts@,
                self.tickets@ == old(self).tickets@,
                self.operator_account_id == old(self).operator_account_id,
                self.next_parking_lot_id == lot + 1,
            decreases lv.cars - c,
        {
            let space_body = CreateParkingSpaceSchema {
                parking_lot_id: lot,
                location: ParkingLocation { no_level, no_space: spot_name },
                vehicle_type: VehicleType::Car,
            };
            let created = self.create_parking_space(&space_body);
            match created {
                Ok(_) => {},
                Err(_) => {
                    proof {
                        assert(false);
                    }
                },
            }
            proof {
                let cs = car_spaces(lv.cars, lot, no_level, spot_start, id_start);
                assert(cs.subrange(0, c + 1) =~= cs.subrange(0, c as int).push(cs[c as int]));
                assert(self.allocator.spaces@ =~= lstart + cs.subrange(0, c + 1));
            }
            spot_name = spot_name + 1;
            c = c + 1;
        }
        let mut num: u32 = 0;
        while num < lv.trucks
            invariant
                self.wf(),
                0 <= num <= lv.trucks,
                spot_name == spot_start + lv.cars + num,
                self.allocator.spaces@ == lstart + car_spaces(
                    lv.cars,
                    lot,
                    no_level,
                    spot_start,
                    id_start,
                ) + truck_spaces(lv.trucks, lot, no_level, id_start + lv.cars).subrange(
                    0,
                    num as int,
                ),
                self.tariffs.tiers@ == old(self).tariffs.tiers@,
                self.ledger.accounts@ == old(self).ledger.accounts@,
                self.tickets@ == old(self).tickets@,
                self.operator_account_id == old(self).operator_account_id,
                self.next_parking_lot_id == lot + 1,
            decreases lv.trucks - num,
        {
            let space_body = CreateParkingSpaceSchema {
                parking_lot_id: lot,
                location: ParkingLocation { no_level, no_space: num },
                vehicle_type: VehicleType::Truck,
            };
            let created = self.create_parking_space(&space_body);
            match created {
                Ok(_) => {},
                Err(_) => {
                    proof {
                        assert(false);
                    }
                },
            }
            proof {
                let ts = truck_spaces(lv.trucks, lot, no_level, id_start + lv.cars);
                assert(ts.subrange(0, num + 1) =~= ts.subrange(0, num as int).push(
                    ts[num as int],
                ));
                assert(self.allocator.spaces@ =~= lstart + car_spaces(
                    lv.cars,
                    lot,
                    no_level,
                    spot_start,
                    id_start,
                ) + ts.subrange(0, num + 1));
            }
            spot_name = spot_name + 1;
            num = num + 1;
        }
        proof {
            let cs = car_spaces(lv.cars, lot, no_level, spot_start, id_start);
            let ts = truck_spaces(lv.trucks, lot, no_level, id_start + lv.cars);
            assert(cs.subrange(0, lv.cars as int) =~= cs);
            assert(ts.subrange(0, lv.trucks as int) =~= ts);
            assert(self.allocator.spaces@ =~= lstart + level_spaces(
                lv,
                lot,
                no_level,
                spot_start,
                id_start,
            ));
        }
        spot_name
    }

    /// Records a lot's tariff plan, tier by tier. The plan must chain
    /// from zero and the lot must not have tiers yet, so every insertion
    /// is accepted.
    #[verifier::rlimit(100)]
    fn apply_tariff_plan(&mut self, tariffs: &Vec<CreateTariffSchema>, lot: u64)
        requires
            old(self).wf(),
            tariff_plan_admissible(tariffs@),
            lot_tiers(old(self).tariffs.tiers@, lot).len() == 0,
        ensures
            final(self).wf(),
            final(self).tariffs.tiers@ == old(self).tariffs.tiers@ + plan_tariffs(tariffs@, lot),
            final(self).allocator.spaces@ == old(self).allocator.spaces@,
            final(self).ledger.accounts@ == old(self).ledger.accounts@,
            final(self).tickets@ == old(self).tickets@,
            final(self).operator_account_id == old(self).operator_account_id,
            final(self).next_parking_lot_id == old(self).next_parking_lot_id,
    {
        proof {
            assert(lot_tiers(old(self).tariffs.tiers@, lot) =~= plan_tariffs(
                tariffs@.subrange(0, 0),
                lot,
            ));
            assert(old(self).tariffs.tiers@ + plan_tariffs(tariffs@.subrange(0, 0), lot)
                =~= old(self).tariffs.tiers@);
        }
        let mut tk: usize = 0;
        while tk < tariffs.len()
            invariant
                self.wf(),
                0 <= tk <= tariffs@.len(),
                self.tariffs.tiers@ == old(self).tariffs.tiers@ + plan_tariffs(
                    tariffs@.subrange(0, tk as int),
                    lot,
                ),
                lot_tiers(self.tariffs.tiers@, lot) == plan_tariffs(
                    tariffs@.subrange(0, tk as int),
                    lot,
                ),
                self.allocator.spaces@ == old(self).allocator.spaces@,
                self.ledger.accounts@ == old(self).ledger.accounts@,
                self.tickets@ == old(self).tickets@,
                self.operator_account_id == old(self).operator_account_id,
                self.next_parking_lot_id == old(self).next_parking_lot_id,
            decreases tariffs@.len() - tk,
        {
            let t = tariffs[tk];
            proof {
                let prefix = plan_tariffs(tariffs@.subrange(0, tk as int), lot);
                if tk > 0 {
                    assert(prefix.last().max_time == tariffs@[tk - 1].max_time);
                }
                assert(tier_admissible(lot_tiers(self.tariffs.tiers@, lot), t));
            }
            let added = self.create_tariff(&t, lot);
            match added {
                Ok(_) => {},
                Err(_) => {
                    proof {
                        assert(false);
                    }
                },
            }
            proof {
                let new_tier = crate::tariff::Tariff {
                    parking_lot_id: lot,
                    min_time: t.min_time,
                    max_time: t.max_time,
                    price_per_hour: t.price_per_hour,
                };
                assert(plan_tariffs(tariffs@.subrange(0, tk + 1), lot) =~= plan_tariffs(
                    tariffs@.subrange(0, tk as int),
                    lot,
                ).push(new_tier));
                crate::tariff::lemma_lot_tiers_push(
                    old(self).tariffs.tiers@ + plan_tariffs(tariffs@.subrange(0, tk as int), lot),
                    lot,
                    new_tier,
                );
                assert((old(self).tariffs.tiers@ + plan_tariffs(
                    tariffs@.subrange(0, tk as int),
                    lot,
                )).push(new_tier) =~= old(self).tariffs.tiers@ + plan_tariffs(
                    tariffs@.subrange(0, tk + 1),
                    lot,
                ));
            }
            tk += 1;
        }
        proof {
            assert(tariffs@.subrange(0, tariffs@.len() as int) =~= tariffs@);
        }
    }

    /// Adds one free space to an existing lot and returns its id; fails
    /// with `NotFound`, changing nothing, when the lot was never
    /// provisioned.
    pub fn create_parking_space(&mut self, body: &CreateParkingSpaceSchema) -> (r: Result<
        u64,
        MyError,
    >)
        requires
            old(self).wf(),
        ensures
            final(self).wf(),
            r == if 1 <= body.parking_lot_id < old(self).next_parking_lot_id {
                Ok::<u64, MyError>(old(self).allocator.spaces@.len() as u64)
            } else {
                Err::<u64, MyError>(MyError::NotFound)
            },
            r matches Ok(id) ==> final(self).allocator.spaces@ == old(self).allocator.spaces@.push(
                crate::space::ParkingSpace {
                    id,
                    parking_lot_id: body.parking_lot_id,
                    location: body.location,
                    vehicle_type: body.vehicle_type,
                    occupied: false,
                    price_modifier: crate::tariff::MODIFIER_SCALE,
                },
            ),
            r matches Err(_) ==> self_unchanged(*old(self), *final(self)),
            final(self).tariffs.tiers@ == old(self).tariffs.tiers@,
            final(self).ledger.accounts@ == old(self).ledger.accounts@,
            final(self).tickets@ == old(self).tickets@,
            final(self).operator_account_id == old(self).operator_account_id,
            final(self).next_parking_lot_id == old(self).next_parking_lot_id,
    {
        if body.parking_lot_id < 1 || body.parking_lot_id >= self.next_parking_lot_id {
            return Err(MyError::NotFound);
        }
        let ghost s0 = self.allocator.spaces@;
        let id = self.allocator.create_parking_space(body);
        proof {
            let s1 = self.allocator.spaces@;
            let space = s1.last();
            assert(s1.drop_last() =~= s0);
            assert forall|i: int|
                0 <= i < self.tickets@.len() implies ticket_linked(
                s1,
                #[trigger] self.tickets@[i],
                i,
            ) by {
                assert(ticket_linked(s0, self.tickets@[i], i));
                assert(s1[self.tickets@[i].parking_spot_id as int] == s0[self.tickets@[
                    i
                ].parking_spot_id as int]);
            }
            assert forall|lot: u64|
                #[trigger] occupied_count(s1, lot) == open_ticket_count(self.tickets@, lot) by {
                assert(occupied_count(s0, lot) == open_ticket_count(old(self).tickets@, lot));
                crate::counting::lemma_count_where_push(
                    s0,
                    |s: crate::space::ParkingSpace| s.parking_lot_id == lot && s.occupied,
                    space,
                );
                assert(s1 == s0.push(space));
            }
        }
        Ok(id)
    }

    /// Opens a ticket: claims the lowest free matching space of the lot,
    /// derives a fresh public code from the new ticket's id (retrying a
    /// bounded number of times against the codes of open tickets), and
    /// records the open ticket. `NoFreeSpace` propagates from the claim;
    /// an exhausted code search fails with `Conflict` and releases the
    /// claimed space again, so a failed issuance changes nothing.
    pub fn open_ticket(
        &mut self,
        parking_lot_id: u64,
        user_id: u64,
        vehicle_license_number: String,
        vehicle_type: VehicleType,
        now: u64,
    ) -> (r: Result<u64, MyError>)
        requires
            old(self).wf(),
        ensures
            final(self).wf(),
            r == open_decision(*old(self), parking_lot_id, vehicle_type),
            r matches Err(_) ==> self_unchanged(*old(self), *final(self)),
            r matches Ok(code) ==> open_effect(
                *old(self),
                *final(self),
                parking_lot_id,
                user_id,
                vehicle_license_number@,
                vehicle_type,
                now,
                code,
            ),
    {
        let ghost pre = *self;
        let ticket_id = self.tickets.len() as u64;
        let sp = match self.allocator.claim(parking_lot_id, vehicle_type) {
            Err(e) => {
                return Err(e);
            },
            Ok(sp) => sp,
        };
        proof {
            lemma_best_free_props(pre.allocator.spaces@, parking_lot_id, vehicle_type);
        }
        // Search for a code no open ticket uses, a bounded number of
        // attempts.
        let mut found: Option<u64> = None;
        let mut attempt: u64 = 0;
        while found.is_none() && attempt < MAX_CODE_ATTEMPTS
            invariant
                attempt <= MAX_CODE_ATTEMPTS,
                found matches Some(a) ==> first_fresh_attempt(self.tickets@, ticket_id, 0)
                    == Some(a),
                found is None ==> first_fresh_attempt(self.tickets@, ticket_id, 0)
                    == first_fresh_attempt(self.tickets@, ticket_id, attempt),
            decreases MAX_CODE_ATTEMPTS - attempt, (if found is None { 1int } else { 0int }),
        {
            let candidate = code_candidate(ticket_id, attempt);
            if self.code_used_by_open(candidate) {
                attempt = attempt + 1;
            } else {
                found = Some(attempt);
            }
        }
        let winning_attempt = match found {
            None => {
                // Undo the claim so a failed issuance leaves no space
                // stuck occupied.
                let ghost mid = self.allocator.spaces@;
                let rel = self.allocator.release(sp.id);
                proof {
                    let i = best_free(
                        pre.allocator.spaces@,
                        parking_lot_id,
                        vehicle_type,
                    )->Some_0;
                    assert(released(mid[i as int]) == pre.allocator.spaces@[i as int]);
                    assert(self.allocator.spaces@ =~= pre.allocator.spaces@);
                }
                match rel {
                    Ok(_) => {},
                    Err(_) => {
                        proof {
                            assert(false);
                        }
                    },
                }
                return Err(MyError::Conflict);
            },
            Some(a) => a,
        };
        let code = code_candidate(ticket_id, winning_attempt);
        let ticket = Ticket {
            id: ticket_id,
            code,
            user_id,
            vehicle_license_number,
            parking_spot_id: sp.id,
            parking_lot_id,
            level: sp.location.no_level,
            spot_ordinal_number: sp.location.no_space,
            issue_timestamp: now,
            end_timestamp: 0,
            amount_paid: 0,
        };
        proof {
            lemma_first_fresh_attempt_props(pre.tickets@, ticket_id, 0);
            let s0 = pre.allocator.spaces@;
            let s1 = self.allocator.spaces@;
            let i = best_free(s0, parking_lot_id, vehicle_type)->Some_0;
            let tk1 = self.tickets@.push(ticket);
            // No open ticket referenced the claimed space: it was free.
            assert forall|k: int|
                0 <= k < pre.tickets@.len() && is_open(#[trigger] pre.tickets@[k]) implies pre.tickets@[k].parking_spot_id
                != i as u64 by {
                assert(ticket_linked(s0, pre.tickets@[k], k));
            }
            assert forall|k: int|
                0 <= k < tk1.len() implies ticket_linked(s1, #[trigger] tk1[k], k) by {
                if k < pre.tickets@.len() {
                    assert(ticket_linked(s0, pre.tickets@[k], k));
                    assert(tk1[k] == pre.tickets@[k]);
                } else {
                    assert(tk1[k] == ticket);
                }
            }
            assert forall|lot: u64|
                #[trigger] occupied_count(s1, lot) == open_ticket_count(tk1, lot) by {
                assert(occupied_count(s0, lot) == open_ticket_count(pre.tickets@, lot));
                lemma_count_where_push(
                    pre.tickets@,
                    |t: Ticket| t.parking_lot_id == lot && is_open(t),
                    ticket,
                );
            }
            assert(tk1.subrange(0, pre.tickets@.len() as int) =~= pre.tickets@);
        }
        self.tickets.push(ticket);
        Ok(code)
    }

    /// Does some open ticket already carry this code?
    fn code_used_by_open(&self, code: u64) -> (b: bool)
        ensures
            b == code_in_open_use(self.tickets@, code),
    {
        let mut i: usize = 0;
        while i < self.tickets.len()
            invariant
                0 <= i <= self.tickets@.len(),
                forall|k: int|
                    0 <= k < i ==> !(is_open(#[trigger] self.tickets@[k]) && self.tickets@[k].code
                        == code),
            decreases self.tickets@.len() - i,
        {
            if self.tickets[i].end_timestamp == 0 && self.tickets[i].code == code {
                return true;
            }
            i += 1;
        }
        false
    }

    /// Position of the first open ticket carrying `code`.
    fn find_open_index(&self, code: u64) -> (r: Option<usize>)
        ensures
            r matches Some(i) ==> find_open_by_code(self.tickets@, code, 0) == Some(i as int),
            r is None ==> find_open_by_code(self.tickets@, code, 0) is None,
    {
        let mut i: usize = 0;
        while i < self.tickets.len()
            invariant
                0 <= i <= self.tickets@.len(),
                find_open_by_code(self.tickets@, code, 0) == find_open_by_code(
                    self.tickets@,
                    code,
                    i as int,
                ),
            decreases self.tickets@.len() - i,
        {
            if self.tickets[i].end_timestamp == 0 && self.tickets[i].code == code {
                return Some(i);
            }
            i += 1;
        }
        None
    }

    /// Closes the open ticket with this public code at time `now`: bills
    /// `elapsed_units` at the lot's tariff times the space's modifier,
    /// transfers the fee from the driver's account to the operator
    /// account, releases the space, and stamps the ticket closed. The
    /// balance guard runs before any mutation, so every failure — an
    /// unknown or already-closed code (`NotFound`), a clock before the
    /// issue time or at the open-sentinel zero (`InvalidArgument`), a lot
    /// without tariffs or a missing account (`NotFound`), or a balance
    /// short of the fee (`InsufficientBalance`) — leaves the engine
    /// exactly as it was: the ticket stays open and the space occupied.
    pub fn close_ticket(&mut self, code: u64, now: u64) -> (r: Result<u64, MyError>)
        requires
            old(self).wf(),
        ensures
            final(self).wf(),
            r == close_decision(*old(self), code, now),
            r matches Err(_) ==> self_unchanged(*old(self), *final(self)),
            r matches Ok(amount) ==> close_effect(*old(self), *final(self), code, now, amount),
    {
        let ghost pre = *self;
        let ti = match self.find_open_index(code) {
            None => {
                return Err(MyError::NotFound);
            },
            Some(i) => i,
        };
        proof {
            lemma_find_open_by_code(pre.tickets@, code, 0);
            assert(ticket_linked(pre.allocator.spaces@, pre.tickets@[ti as int], ti as int));
        }
        let t_id = self.tickets[ti].id;
        let t_code = self.tickets[ti].code;
        let t_user = self.tickets[ti].user_id;
        let t_spot = self.tickets[ti].parking_spot_id;
        let t_lot = self.tickets[ti].parking_lot_id;
        let t_level = self.tickets[ti].level;
        let t_ordinal = self.tickets[ti].spot_ordinal_number;
        let t_issue = self.tickets[ti].issue_timestamp;
        if now == 0 || now < t_issue {
            return Err(MyError::InvalidArgument);
        }
        let units = elapsed_units(t_issue, now);
        proof {
            assert(units == spec_elapsed_units(t_issue, now) as u64);
            assert(pre.tickets@[ti as int].parking_spot_id < pre.allocator.spaces@.len());
        }
        let price = match self.tariffs.rate_for(t_lot, units) {
            Err(e) => {
                return Err(e);
            },
            Ok(p) => p,
        };
        let n_spaces = self.allocator.spaces.len();
        proof {
            assert(t_spot < n_spaces);
        }
        let sp = self.allocator.spaces[t_spot as usize];
        let amount128 = fee(sp.price_modifier, price, units);
        let balance = match self.ledger.get_user_balance(t_user) {
            Err(e) => {
                return Err(e);
            },
            Ok(b) => b,
        };
        if (balance as u128) < amount128 {
            return Err(MyError::InsufficientBalance);
        }
        let amount = amount128 as u64;
        proof {
            assert(amount128 <= balance as u128);
            assert(amount == amount128);
        }
        match self.ledger.transfer(t_user, self.operator_account_id, amount) {
            Err(e) => {
                return Err(e);
            },
            Ok(_) => {},
        }
        let rel = self.allocator.release(t_spot);
        match rel {
            Ok(_) => {},
            Err(_) => {
                proof {
                    assert(false);
                }
            },
        }
        let license = self.tickets[ti].vehicle_license_number.clone();
        let closed_ticket = Ticket {
            id: t_id,
            code: t_code,
            user_id: t_user,
            vehicle_license_number: license,
            parking_spot_id: t_spot,
            parking_lot_id: t_lot,
            level: t_level,
            spot_ordinal_number: t_ordinal,
            issue_timestamp: t_issue,
            end_timestamp: now,
            amount_paid: amount,
        };
        proof {
            let s0 = pre.allocator.spaces@;
            let s1 = self.allocator.spaces@;
            let old_t = pre.tickets@[ti as int];
            let tk1 = pre.tickets@.update(ti as int, closed_ticket);
            assert(closed_ticket == close_of(old_t, now, amount));
            // No other open ticket references the released space.
            assert forall|k: int|
                0 <= k < pre.tickets@.len() && k != ti as int && is_open(
                    #[trigger] pre.tickets@[k],
                ) implies pre.tickets@[k].parking_spot_id != t_spot by {}
            assert forall|k: int|
                0 <= k < tk1.len() implies ticket_linked(s1, #[trigger] tk1[k], k) by {
                assert(ticket_linked(s0, pre.tickets@[k], k));
                if k != ti as int {
                    assert(tk1[k] == pre.tickets@[k]);
                } else {
                    assert(tk1[k] == closed_ticket);
                }
            }
            assert forall|lot: u64|
                #[trigger] occupied_count(s1, lot) == open_ticket_count(tk1, lot) by {
                lemma_count_where_update(
                    pre.tickets@,
                    |t: Ticket| t.parking_lot_id == lot && is_open(t),
                    ti as int,
                    closed_ticket,
                );
            }
        }
        self.tickets.set(ti, closed_ticket);
        Ok(amount)
    }

    /// The first ticket carrying `code`, open or closed.
    pub fn get_ticket_by_code(&self, code: u64) -> (r: Result<Ticket, MyError>)
        ensures
            r == match find_by_code(self.tickets@, code, 0) {
                Some(i) => Ok::<Ticket, MyError>(self.tickets@[i]),
                None => Err::<Ticket, MyError>(MyError::NotFound),
            },
    {
        let mut i: usize = 0;
        while i < self.tickets.len()
            invariant
                0 <= i <= self.tickets@.len(),
                find_by_code(self.tickets@, code, 0) == find_by_code(
                    self.tickets@,
                    code,
                    i as int,
                ),
            decreases self.tickets@.len() - i,
        {
            if self.tickets[i].code == code {
                return Ok(copy_ticket(&self.tickets[i]));
            }
            i += 1;
        }
        Err(MyError::NotFound)
    }

    /// The ticket with this id; `NotFound` past the end of the store.
    pub fn get_ticket_by_id(&self, ticket_id: u64) -> (r: Result<Ticket, MyError>)
        ensures
            r == if ticket_id < self.tickets@.len() {
                Ok::<Ticket, MyError>(self.tickets@[ticket_id as int])
            } else {
                Err::<Ticket, MyError>(MyError::NotFound)
            },
    {
        if ticket_id >= self.tickets.len() as u64 {
            return Err(MyError::NotFound);
        }
        Ok(copy_ticket(&self.tickets[ticket_id as usize]))
    }

    /// All open tickets of one user, in issuance order.
    pub fn get_user_active_tickets(&self, user_id: u64) -> (r: Vec<Ticket>)
        ensures
            r@ == filtered(self.tickets@, active_ticket_of(user_id)),
    {
        let mut out: Vec<Ticket> = Vec::new();
        let mut i: usize = 0;
        while i < self.tickets.len()
            invariant
                0 <= i <= self.tickets@.len(),
                out@ == filtered(self.tickets@.subrange(0, i as int), active_ticket_of(user_id)),
            decreases self.tickets@.len() - i,
        {
            proof {
                let pre = self.tickets@.subrange(0, i as int);
                assert(self.tickets@.subrange(0, i + 1) =~= pre.push(self.tickets@[i as int]));
                lemma_filtered_push(pre, active_ticket_of(user_id), self.tickets@[i as int]);
            }
            if self.tickets[i].end_timestamp == 0 && self.tickets[i].user_id == user_id {
                out.push(copy_ticket(&self.tickets[i]));
            }
            i += 1;
        }
        proof {
            assert(self.tickets@.subrange(0, self.tickets@.len() as int) =~= self.tickets@);
        }
        out
    }

    /// The spaces of one lot as response rows, all levels for a `level`
    /// of `-1` and one level otherwise, in store order.
    pub fn get_parking_spaces_by_parking_lot_id(&self, parking_lot_id: u64, level: i32) -> (r: Vec<
        ParkingSpaceResponse,
    >)
        ensures
            ({
                let picked = filtered(
                    self.allocator.spaces@,
                    space_level_pred(parking_lot_id, level),
                );
                &&& r@.len() == picked.len()
                &&& forall|k: int| 0 <= k < picked.len() ==> space_rendered(#[trigger] r@[k], picked[k])
            }),
    {
        let mut out: Vec<ParkingSpaceResponse> = Vec::new();
        let spaces = &self.allocator.spaces;
        let mut i: usize = 0;
        while i < spaces.len()
            invariant
                0 <= i <= spaces@.len(),
                out@.len() == filtered(
                    spaces@.subrange(0, i as int),
                    space_level_pred(parking_lot_id, level),
                ).len(),
                forall|k: int|
                    0 <= k < out@.len() ==> space_rendered(
                        #[trigger] out@[k],
                        filtered(
                            spaces@.subrange(0, i as int),
                            space_level_pred(parking_lot_id, level),
                        )[k],
                    ),
            decreases spaces@.len() - i,
        {
            proof {
                let pre = spaces@.subrange(0, i as int);
                assert(spaces@.subrange(0, i + 1) =~= pre.push(spaces@[i as int]));
                lemma_filtered_push(
                    pre,
                    space_level_pred(parking_lot_id, level),
                    spaces@[i as int],
                );
            }
            let s = spaces[i];
            let level_ok = if level == -1 {
                true
            } else if level >= 0 {
                s.location.no_level as i64 == level as i64
            } else {
                false
            };
            if s.parking_lot_id == parking_lot_id && level_ok {
                out.push(space_to_response(&s));
            }
            i += 1;
        }
        proof {
            assert(spaces@.subrange(0, spaces@.len() as int) =~= spaces@);
        }
        out
    }

    /// Per-level occupancy statistics of one lot: row `l` counts the
    /// occupied and free car and truck spaces on level `l`. The vector
    /// reaches up to the lot's highest used level and is empty for a lot
    /// without spaces.
    pub fn get_parking_lot_levels_by_id(&self, parking_lot_id: u64) -> (r: Vec<
        ParkingLotStatsResponse,
    >)
        requires
            self.allocator.spaces@.len() < u32::MAX,
            lot_levels_len(self.allocator.spaces@, parking_lot_id) <= usize::MAX,
        ensures
            r@.len() == lot_levels_len(self.allocator.spaces@, parking_lot_id),
            forall|l: int|
                0 <= l < r@.len() ==> r@[l] == stats_row(
                    self.allocator.spaces@,
                    parking_lot_id,
                    l as u32,
                ),
    {
        let spaces = &self.allocator.spaces;
        // How many levels the lot uses.
        let mut n_levels: u64 = 0;
        let mut i: usize = 0;
        while i < spaces.len()
            invariant
                0 <= i <= spaces@.len(),
                n_levels == lot_levels_len(spaces@.subrange(0, i as int), parking_lot_id),
            decreases spaces@.len() - i,
        {
            proof {
                let pre = spaces@.subrange(0, i as int);
                let cur = spaces@.subrange(0, i + 1);
                assert(cur.drop_last() =~= pre);
                assert(cur.last() == spaces@[i as int]);
            }
            let s = spaces[i];
            if s.parking_lot_id == parking_lot_id {
                let candidate = s.location.no_level as u64 + 1;
                if candidate > n_levels {
                    n_levels = candidate;
                }
            }
            i += 1;
        }
        proof {
            assert(spaces@.subrange(0, spaces@.len() as int) =~= spaces@);
        }
        // Start every level at zero.
        let mut out: Vec<ParkingLotStatsResponse> = Vec::new();
        let zero_row = ParkingLotStatsResponse {
            truck: ParkingLotStats { spots_occupied: 0, spots_free: 0 },
            car: ParkingLotStats { spots_occupied: 0, spots_free: 0 },
        };
        while (out.len() as u64) < n_levels
            invariant
                out@.len() <= n_levels,
                forall|l: int| 0 <= l < out@.len() ==> out@[l] == zero_row,
            decreases n_levels - out@.len(),
        {
            out.push(zero_row);
        }
        proof {
            assert forall|l: int| 0 <= l < out@.len() implies out@[l] == stats_row(
                spaces@.subrange(0, 0),
                parking_lot_id,
                l as u32,
            ) by {
                assert(spaces@.subrange(0, 0) =~= Seq::<crate::space::ParkingSpace>::empty());
            }
        }
        // Tally every space of the lot into its level's row.
        let mut j: usize = 0;
        while j < spaces.len()
            invariant
                0 <= j <= spaces@.len(),
                out@.len() == n_levels,
                n_levels == lot_levels_len(spaces@, parking_lot_id),
                forall|l: int|
                    0 <= l < out@.len() ==> out@[l] == stats_row(
                        spaces@.subrange(0, j as int),
                        parking_lot_id,
                        l as u32,
                    ),
            decreases spaces@.len() - j,
        {
            let ghost pre = spaces@.subrange(0, j as int);
            proof {
                assert(spaces@.subrange(0, j + 1) =~= pre.push(spaces@[j as int]));
            }
            let s = spaces[j];
            if s.parking_lot_id == parking_lot_id {
                proof {
                    lemma_lot_levels_len_props(spaces@, parking_lot_id);
                }
                let level_index = s.location.no_level as usize;
                let mut row = out[level_index];
                proof {
                    lemma_count_where_bounds(
                        pre,
                        level_class_pred(parking_lot_id, s.location.no_level, VehicleType::Car, true),
                    );
                    lemma_count_where_bounds(
                        pre,
                        level_class_pred(
                            parking_lot_id,
                            s.location.no_level,
                            VehicleType::Car,
                            false,
                        ),
                    );
                    lemma_count_where_bounds(
                        pre,
                        level_class_pred(
                            parking_lot_id,
                            s.location.no_level,
                            VehicleType::Truck,
                            true,
                        ),
                    );
                    lemma_count_where_bounds(
                        pre,
                        level_class_pred(
                            parking_lot_id,
                            s.location.no_level,
                            VehicleType::Truck,
                            false,
                        ),
                    );
                }
                add_new_stat_occupied_space(&mut row, s.vehicle_type, s.occupied);
                out.set(level_index, row);
            }
            proof {
                let cur = spaces@.subrange(0, j + 1);
                assert forall|l: int| 0 <= l < out@.len() implies out@[l] == stats_row(
                    cur,
                    parking_lot_id,
                    l as u32,
                ) by {
                    lemma_count_where_push(
                        pre,
                        level_class_pred(parking_lot_id, l as u32, VehicleType::Car, true),
                        spaces@[j as int],
                    );
                    lemma_count_where_push(
                        pre,
                        level_class_pred(parking_lot_id, l as u32, VehicleType::Car, false),
                        spaces@[j as int],
                    );
                    lemma_count_where_push(
                        pre,
                        level_class_pred(parking_lot_id, l as u32, VehicleType::Truck, true),
                        spaces@[j as int],
                    );
                    lemma_count_where_push(
                        pre,
                        level_class_pred(parking_lot_id, l as u32, VehicleType::Truck, false),
                        spaces@[j as int],
                    );
                }
            }
            j += 1;
        }
        proof {
            assert(spaces@.subrange(0, spaces@.len() as int) =~= spaces@);
        }
        out
    }

    /// The tickets matching a filter query, in issuance order; see
    /// `ticket_matches_query` for the wildcard rules.
    pub fn fetch_tickets(&self, query: &QueryTicket) -> (r: Vec<Ticket>)
        ensures
            r@ == filtered(self.tickets@, query_pred(*query)),
    {
        let mut out: Vec<Ticket> = Vec::new();
        let mut i: usize = 0;
        while i < self.tickets.len()
            invariant
                0 <= i <= self.tickets@.len(),
                out@ == filtered(self.tickets@.subrange(0, i as int), query_pred(*query)),
            decreases self.tickets@.len() - i,
        {
            proof {
                let pre = self.tickets@.subrange(0, i as int);
                assert(self.tickets@.subrange(0, i + 1) =~= pre.push(self.tickets@[i as int]));
                lemma_filtered_push(pre, query_pred(*query), self.tickets@[i as int]);
            }
            if matches_ticket_query(&self.tickets[i], query) {
                out.push(copy_ticket(&self.tickets[i]));
            }
            i += 1;
        }
        proof {
            assert(self.tickets@.subrange(0, self.tickets@.len() as int) =~= self.tickets@);
        }
        out
    }
}

/// The occupancy filter one statistics counter tallies: spaces of one
/// lot, level and class in one occupancy state.
pub open spec fn level_class_pred(
    parking_lot_id: u64,
    no_level: u32,
    vehicle_type: VehicleType,
    occupied: bool,
) -> spec_fn(crate::space::ParkingSpace) -> bool {
    |s: crate::space::ParkingSpace|
        s.parking_lot_id == parking_lot_id && s.location.no_level == no_level && s.vehicle_type
            == vehicle_type && s.occupied == occupied
}

/// How many spaces of one lot, level and class are in one occupancy
/// state.
pub open spec fn level_class_count(
    spaces: Seq<crate::space::ParkingSpace>,
    parking_lot_id: u64,
    no_level: u32,
    vehicle_type: VehicleType,
    occupied: bool,
) -> int {
    count_where(spaces, level_class_pred(parking_lot_id, no_level, vehicle_type, occupied))
}

/// One more than the highest level a lot's spaces use; zero for a lot
/// without spaces.
pub open spec fn lot_levels_len(spaces: Seq<crate::space::ParkingSpace>, parking_lot_id: u64) -> int
    decreases spaces.len(),
{
    if spaces.len() == 0 {
        0
    } else {
        let rest = lot_levels_len(spaces.drop_last(), parking_lot_id);
        if spaces.last().parking_lot_id == parking_lot_id && spaces.last().location.no_level + 1
            > rest {
            spaces.last().location.no_level + 1
        } else {
            rest
        }
    }
}

/// The level count is bounded by the level field's range, and every
/// space of the lot lies on a level below it.
pub proof fn lemma_lot_levels_len_props(spaces: Seq<crate::space::ParkingSpace>, parking_lot_id: u64)
    ensures
        0 <= lot_levels_len(spaces, parking_lot_id) <= u32::MAX + 1,
        forall|k: int|
            0 <= k < spaces.len() && (#[trigger] spaces[k]).parking_lot_id == parking_lot_id
                ==> spaces[k].location.no_level < lot_levels_len(spaces, parking_lot_id),
    decreases spaces.len(),
{
    if spaces.len() > 0 {
        lemma_lot_levels_len_props(spaces.drop_last(), parking_lot_id);
        assert(spaces.last() == spaces[spaces.len() - 1]);
        assert(forall|k: int| 0 <= k < spaces.len() - 1 ==> spaces.drop_last()[k] == spaces[k]);
    }
}

/// The statistics row of one level of a lot.
pub open spec fn stats_row(
    spaces: Seq<crate::space::ParkingSpace>,
    parking_lot_id: u64,
    no_level: u32,
) -> ParkingLotStatsResponse {
    ParkingLotStatsResponse {
        truck: ParkingLotStats {
            spots_occupied: level_class_count(
                spaces,
                parking_lot_id,
                no_level,
                VehicleType::Truck,
                true,
            ) as u32,
            spots_free: level_class_count(
                spaces,
                parking_lot_id,
                no_level,
                VehicleType::Truck,
                false,
            ) as u32,
        },
        car: ParkingLotStats {
            spots_occupied: level_class_count(
                spaces,
                parking_lot_id,
                no_level,
                VehicleType::Car,
                true,
            ) as u32,
            spots_free: level_class_count(
                spaces,
                parking_lot_id,
                no_level,
                VehicleType::Car,
                false,
            ) as u32,
        },
    }
}

/// The row with the counter of one class and occupancy state advanced by
/// one.
pub open spec fn spec_add_stat(
    row: ParkingLotStatsResponse,
    vehicle_type: VehicleType,
    occupied: bool,
) -> ParkingLotStatsResponse {
    match vehicle_type {
        VehicleType::Car => if occupied {
            ParkingLotStatsResponse {
                car: ParkingLotStats {
                    spots_occupied: (row.car.spots_occupied + 1) as u32,
                    ..row.car
                },
                ..row
            }
        } else {
            ParkingLotStatsResponse {
                car: ParkingLotStats { spots_free: (row.car.spots_free + 1) as u32, ..row.car },
                ..row
            }
        },
        VehicleType::Truck => if occupied {
            ParkingLotStatsResponse {
                truck: ParkingLotStats {
                    spots_occupied: (row.truck.spots_occupied + 1) as u32,
                    ..row.truck
                },
                ..row
            }
        } else {
            ParkingLotStatsResponse {
                truck: ParkingLotStats {
                    spots_free: (row.truck.spots_free + 1) as u32,
                    ..row.truck
                },
                ..row
            }
        },
    }
}

/// Advances the counter of one class and occupancy state in a row.
fn add_new_stat_occupied_space(
    parking_lot_stat: &mut ParkingLotStatsResponse,
    vehicle_type: VehicleType,
    occupied: bool,
)
    requires
        old(parking_lot_stat).car.spots_occupied < u32::MAX,
        old(parking_lot_stat).car.spots_free < u32::MAX,
        old(parking_lot_stat).truck.spots_occupied < u32::MAX,
        old(parking_lot_stat).truck.spots_free < u32::MAX,
    ensures
        *final(parking_lot_stat) == spec_add_stat(*old(parking_lot_stat), vehicle_type, occupied),
{
    match vehicle_type {
        VehicleType::Car => {
            if !occupied {
                parking_lot_stat.car.spots_free = parking_lot_stat.car.spots_free + 1;
            } else {
                parking_lot_stat.car.spots_occupied = parking_lot_stat.car.spots_occupied + 1;
            }
        },
        VehicleType::Truck => {
            if !occupied {
                parking_lot_stat.truck.spots_free = parking_lot_stat.truck.spots_free + 1;
            } else {
                parking_lot_stat.truck.spots_occupied = parking_lot_stat.truck.spots_occupied + 1;
            }
        },
    }
}

/// The filter `get_parking_spaces_by_parking_lot_id` applies: spaces of
/// the lot, on one level unless `level` is `-1`, which selects them all.
pub open spec fn space_level_pred(parking_lot_id: u64, level: i32) -> spec_fn(
    crate::space::ParkingSpace,
) -> bool {
    |s: crate::space::ParkingSpace|
        s.parking_lot_id == parking_lot_id && (level == -1 || (level >= 0 && s.location.no_level
            == level))
}

/// The filter `get_user_active_tickets` applies: open tickets of the user.
pub open spec fn active_ticket_of(user_id: u64) -> spec_fn(Ticket) -> bool {
    |t: Ticket| t.user_id == user_id && is_open(t)
}

/// The filter `fetch_tickets` applies.
pub open spec fn query_pred(q: QueryTicket) -> spec_fn(Ticket) -> bool {
    |t: Ticket| ticket_matches_query(t, q)
}

/// Does a ticket match the listing filter? A zero (or empty) query field
/// is a wildcard matching any non-zero (non-empty) ticket field; `active`
/// selects open tickets, and otherwise a zero `end_time_stamp` selects
/// closed ones.
pub open spec fn ticket_matches_query(t: Ticket, q: QueryTicket) -> bool {
    &&& if q.user_id == 0 {
        t.user_id != 0
    } else {
        t.user_id == q.user_id
    }
    &&& if q.vehicle_license_number@.len() == 0 {
        t.vehicle_license_number@.len() != 0
    } else {
        t.vehicle_license_number@ == q.vehicle_license_number@
    }
    &&& if q.spot_ordinal_number == 0 {
        t.spot_ordinal_number != 0
    } else {
        t.spot_ordinal_number == q.spot_ordinal_number
    }
    &&& if q.issue_time_stamp == 0 {
        t.issue_timestamp != 0
    } else {
        t.issue_timestamp == q.issue_time_stamp
    }
    &&& if q.active {
        t.end_timestamp == 0
    } else if q.end_time_stamp == 0 {
        t.end_timestamp != 0
    } else {
        t.end_timestamp == q.end_time_stamp
    }
    &&& if q.level == 0 {
        t.level != 0
    } else {
        t.level == q.level
    }
    &&& if q.parking_lot_id == 0 {
        t.parking_lot_id != 0
    } else {
        t.parking_lot_id == q.parking_lot_id
    }
}

/// Evaluates the listing filter on one ticket.
fn matches_ticket_query(t: &Ticket, q: &QueryTicket) -> (b: bool)
    ensures
        b == ticket_matches_query(*t, *q),
{
    let user_ok = if q.user_id == 0 {
        t.user_id != 0
    } else {
        t.user_id == q.user_id
    };
    let license_ok = if q.vehicle_license_number.as_str().is_empty() {
        !t.vehicle_license_number.as_str().is_empty()
    } else {
        t.vehicle_license_number == q.vehicle_license_number
    };
    let ordinal_ok = if q.spot_ordinal_number == 0 {
        t.spot_ordinal_number != 0
    } else {
        t.spot_ordinal_number == q.spot_ordinal_number
    };
    let issue_ok = if q.issue_time_stamp == 0 {
        t.issue_timestamp != 0
    } else {
        t.issue_timestamp == q.issue_time_stamp
    };
    let end_ok = if q.active {
        t.end_timestamp == 0
    } else if q.end_time_stamp == 0 {
        t.end_timestamp != 0
    } else {
        t.end_timestamp == q.end_time_stamp
    };
    let level_ok = if q.level == 0 {
        t.level != 0
    } else {
        t.level == q.level
    };
    let lot_ok = if q.parking_lot_id == 0 {
        t.parking_lot_id != 0
    } else {
        t.parking_lot_id == q.parking_lot_id
    };
    user_ok && license_ok && ordinal_ok && issue_ok && end_ok && level_ok && lot_ok
}

/// A field-for-field copy of a ticket.
fn copy_ticket(t: &Ticket) -> (r: Ticket)
    ensures
        r == *t,
{
    Ticket {
        id: t.id,
        code: t.code,
        user_id: t.user_id,
        vehicle_license_number: t.vehicle_license_number.clone(),
        parking_spot_id: t.parking_spot_id,
        parking_lot_id: t.parking_lot_id,
        level: t.level,
        spot_ordinal_number: t.spot_ordinal_number,
        issue_timestamp: t.issue_timestamp,
        end_timestamp: t.end_timestamp,
        amount_paid: t.amount_paid,
    }
}

/// The number of spaces a level plan asks for, from level `l` on.
pub open spec fn total_spots(levels: Seq<Levels>, l: int) -> int
    decreases levels.len() - l,
{
    if l < 0 || l >= levels.len() {
        0
    } else {
        levels[l].cars + levels[l].trucks + total_spots(levels, l + 1)
    }
}

pub proof fn lemma_total_spots_nonneg(levels: Seq<Levels>, l: int)
    ensures
        0 <= total_spots(levels, l),
    decreases levels.len() - l,
{
    if 0 <= l < levels.len() {
        lemma_total_spots_nonneg(levels, l + 1);
    }
}

/// The car spaces of one provisioned level: ordinals continue the lot's
/// running spot counter.
pub open spec fn car_spaces(
    count: u32,
    parking_lot_id: u64,
    no_level: u32,
    spot_base: int,
    id_base: int,
) -> Seq<crate::space::ParkingSpace> {
    Seq::new(
        count as nat,
        |c: int|
            crate::space::ParkingSpace {
                id: (id_base + c) as u64,
                parking_lot_id,
                location: crate::model::ParkingLocation {
                    no_level,
                    no_space: (spot_base + c) as u32,
                },
                vehicle_type: VehicleType::Car,
                occupied: false,
                price_modifier: crate::tariff::MODIFIER_SCALE,
            },
    )
}

/// The truck spaces of one provisioned level: ordinals start at zero on
/// each level.
pub open spec fn truck_spaces(
    count: u32,
    parking_lot_id: u64,
    no_level: u32,
    id_base: int,
) -> Seq<crate::space::ParkingSpace> {
    Seq::new(
        count as nat,
        |t: int|
            crate::space::ParkingSpace {
                id: (id_base + t) as u64,
                parking_lot_id,
                location: crate::model::ParkingLocation { no_level, no_space: t as u32 },
                vehicle_type: VehicleType::Truck,
                occupied: false,
                price_modifier: crate::tariff::MODIFIER_SCALE,
            },
    )
}

/// All spaces one provisioned level contributes: its cars, then its
/// trucks.
pub open spec fn level_spaces(
    lv: Levels,
    parking_lot_id: u64,
    no_level: u32,
    spot_base: int,
    id_base: int,
) -> Seq<crate::space::ParkingSpace> {
    car_spaces(lv.cars, parking_lot_id, no_level, spot_base, id_base) + truck_spaces(
        lv.trucks,
        parking_lot_id,
        no_level,
        id_base + lv.cars,
    )
}

/// The spaces provisioning creates from level `l` on, given the running
/// spot counter and the next free space id.
pub open spec fn provisioned_spaces(
    levels: Seq<Levels>,
    parking_lot_id: u64,
    l: int,
    spot_base: int,
    id_base: int,
) -> Seq<crate::space::ParkingSpace>
    decreases levels.len() - l,
{
    if l < 0 || l >= levels.len() {
        Seq::empty()
    } else {
        level_spaces(levels[l], parking_lot_id, l as u32, spot_base, id_base)
            + provisioned_spaces(
            levels,
            parking_lot_id,
            l + 1,
            spot_base + levels[l].cars + levels[l].trucks,
            id_base + levels[l].cars + levels[l].trucks,
        )
    }
}

/// Is the tariff list of a provisioning plan a gapless ascending chain
/// from zero with no empty range?
pub open spec fn tariff_plan_admissible(ts: Seq<CreateTariffSchema>) -> bool {
    forall|k: int|
        0 <= k < ts.len() ==> (#[trigger] ts[k]).min_time <= ts[k].max_time && ts[k].min_time == (
        if k == 0 {
            0int
        } else {
            ts[k - 1].max_time + 1
        })
}

/// Is a provisioning plan acceptable? Its tariffs must chain from zero,
/// and its levels and total spaces must fit the location fields.
pub open spec fn parking_plan_admissible(body: CreateParkingSchema) -> bool {
    &&& tariff_plan_admissible(body.tariffs@)
    &&& total_spots(body.levels@, 0) <= u32::MAX
    &&& body.levels@.len() <= u32::MAX
}

/// The tariff tiers a plan creates for a lot.
pub open spec fn plan_tariffs(ts: Seq<CreateTariffSchema>, parking_lot_id: u64) -> Seq<
    crate::tariff::Tariff,
> {
    Seq::new(
        ts.len(),
        |k: int|
            crate::tariff::Tariff {
                parking_lot_id,
                min_time: ts[k].min_time,
                max_time: ts[k].max_time,
                price_per_hour: ts[k].price_per_hour,
            },
    )
}

/// Checks that a tariff plan is a gapless ascending chain from zero.
#[verifier::rlimit(100)]
fn tariff_plan_ok(tariffs: &Vec<CreateTariffSchema>) -> (b: bool)
    ensures
        b == tariff_plan_admissible(tariffs@),
{
    let mut k: usize = 0;
    let mut prev_max: u64 = 0;
    while k < tariffs.len()
        invariant
            0 <= k <= tariffs@.len(),
            forall|j: int|
                0 <= j < k ==> (#[trigger] tariffs@[j]).min_time <= tariffs@[j].max_time
                    && tariffs@[j].min_time == (if j == 0 {
                    0int
                } else {
                    tariffs@[j - 1].max_time + 1
                }),
            k > 0 ==> prev_max == tariffs@[k - 1].max_time,
        decreases tariffs@.len() - k,
    {
        let t = tariffs[k];
        let starts_right: bool = if k == 0 {
            t.min_time == 0
        } else {
            prev_max < u64::MAX && t.min_time == prev_max + 1
        };
        if !starts_right || t.min_time > t.max_time {
            return false;
        }
        prev_max = t.max_time;
        k += 1;
    }
    true
}

/// Checks that a level plan's levels and total spaces fit the location
/// fields.
fn level_plan_ok(levels: &Vec<Levels>) -> (b: bool)
    ensures
        b == (total_spots(levels@, 0) <= u32::MAX && levels@.len() <= u32::MAX),
{
    if levels.len() as u64 > u32::MAX as u64 {
        return false;
    }
    let mut total: u64 = 0;
    let mut li: usize = 0;
    while li < levels.len()
        invariant
            0 <= li <= levels@.len(),
            total + total_spots(levels@, li as int) == total_spots(levels@, 0),
            total <= u32::MAX,
        decreases levels@.len() - li,
    {
        let lv = levels[li];
        let more = lv.cars as u64 + lv.trucks as u64;
        proof {
            lemma_total_spots_nonneg(levels@, li + 1);
        }
        if more > u32::MAX as u64 - total {
            return false;
        }
        total = total + more;
        li += 1;
    }
    true
}

/// Conservation: in a well-formed engine, every lot has exactly as many
/// occupied spaces as open tickets referencing it.
pub proof fn lemma_occupancy_conservation(engine: TicketLifecycle, parking_lot_id: u64)
    requires
        engine.wf(),
    ensures
        occupied_count(engine.allocator.spaces@, parking_lot_id) == open_ticket_count(
            engine.tickets@,
            parking_lot_id,
        ),
{
}

/// Two issuances in sequence never claim the same space: the first claim
/// leaves its space occupied, and a claim only ever selects a free one.
/// This is the sequential shadow of two racing `open_ticket` calls, whose
/// claims are serialized by the allocator.
pub proof fn lemma_sequential_opens_claim_distinct_spaces(
    e0: TicketLifecycle,
    e1: TicketLifecycle,
    e2: TicketLifecycle,
    lot1: u64,
    user1: u64,
    license1: Seq<char>,
    vt1: VehicleType,
    now1: u64,
    code1: u64,
    lot2: u64,
    user2: u64,
    license2: Seq<char>,
    vt2: VehicleType,
    now2: u64,
    code2: u64,
)
    requires
        e0.wf(),
        best_free(e0.allocator.spaces@, lot1, vt1) is Some,
        open_effect(e0, e1, lot1, user1, license1, vt1, now1, code1),
        best_free(e1.allocator.spaces@, lot2, vt2) is Some,
        open_effect(e1, e2, lot2, user2, license2, vt2, now2, code2),
    ensures
        e1.tickets@.last().parking_spot_id != e2.tickets@.last().parking_spot_id,
{
    let s0 = e0.allocator.spaces@;
    let s1 = e1.allocator.spaces@;
    assert(e0.allocator.spaces.len() == s0.len());
    assert(s0.len() <= usize::MAX);
    let i = best_free(s0, lot1, vt1)->Some_0;
    let j = best_free(s1, lot2, vt2)->Some_0;
    lemma_best_free_props(s0, lot1, vt1);
    lemma_best_free_props(s1, lot2, vt2);
    assert(s1[i].occupied);
    assert(!s1[j].occupied);
    assert(i != j);
    assert(s0[i].id == i as u64);
    assert(s0[j].id == j as u64);
    assert(s1[j].id == s0[j].id);
    assert(e1.tickets@.last().parking_spot_id == s0[i].id);
    assert(e2.tickets@.last().parking_spot_id == s1[j].id);
}

/// Closing a code twice cannot double-charge: after a successful closure
/// no open ticket carries the code any more, so a second closure answers
/// `NotFound` whatever the clock says, and changes nothing.
pub proof fn lemma_second_close_is_not_found(
    e0: TicketLifecycle,
    e1: TicketLifecycle,
    code: u64,
    now: u64,
    amount: u64,
)
    requires
        e0.wf(),
        now != 0,
        find_open_by_code(e0.tickets@, code, 0) is Some,
        close_effect(e0, e1, code, now, amount),
    ensures
        forall|now2: u64| #[trigger] close_decision(e1, code, now2) == Err::<u64, MyError>(
            MyError::NotFound,
        ),
{
    let i = find_open_by_code(e0.tickets@, code, 0)->Some_0;
    lemma_find_open_by_code(e0.tickets@, code, 0);
    if find_open_by_code(e1.tickets@, code, 0) is Some {
        let j = find_open_by_code(e1.tickets@, code, 0)->Some_0;
        lemma_find_open_by_code(e1.tickets@, code, 0);
        assert(j != i);
        assert(e1.tickets@[j] == e0.tickets@[j]);
        assert(is_open(e0.tickets@[i]) && is_open(e0.tickets@[j]) && e0.tickets@[i].code
            == e0.tickets@[j].code);
        assert(false);
    }
}

/// The value `open_ticket` answers, determined by the pre-state alone:
/// `NoFreeSpace` when the lot has no free matching space, else `Conflict`
/// when every candidate code collides with an open ticket, else the fresh
/// code of the new ticket.
pub open spec fn open_decision(
    pre: TicketLifecycle,
    parking_lot_id: u64,
    vehicle_type: VehicleType,
) -> Result<u64, MyError> {
    match best_free(pre.allocator.spaces@, parking_lot_id, vehicle_type) {
        None => Err(MyError::NoFreeSpace),
        Some(_) => match first_fresh_attempt(pre.tickets@, pre.tickets@.len() as u64, 0) {
            None => Err(MyError::Conflict),
            Some(a) => Ok(spec_code_candidate(pre.tickets@.len() as u64, a)),
        },
    }
}

/// The exact effect of a successful `open_ticket`: the selected space is
/// claimed, one open ticket referencing it is appended, and nothing else
/// moves.
pub open spec fn open_effect(
    pre: TicketLifecycle,
    post: TicketLifecycle,
    parking_lot_id: u64,
    user_id: u64,
    vehicle_license_number: Seq<char>,
    vehicle_type: VehicleType,
    now: u64,
    code: u64,
) -> bool {
    let i = best_free(pre.allocator.spaces@, parking_lot_id, vehicle_type)->Some_0;
    let sp = pre.allocator.spaces@[i];
    &&& post.allocator.spaces@ == pre.allocator.spaces@.update(i, claimed(sp))
    &&& post.tickets@.len() == pre.tickets@.len() + 1
    &&& post.tickets@.subrange(0, pre.tickets@.len() as int) == pre.tickets@
    &&& ({
        let t = post.tickets@.last();
        &&& t.id == pre.tickets@.len()
        &&& t.code == code
        &&& t.user_id == user_id
        &&& t.vehicle_license_number@ == vehicle_license_number
        &&& t.parking_spot_id == sp.id
        &&& t.parking_lot_id == parking_lot_id
        &&& t.level == sp.location.no_level
        &&& t.spot_ordinal_number == sp.location.no_space
        &&& t.issue_timestamp == now
        &&& t.end_timestamp == 0
        &&& t.amount_paid == 0
    })
    &&& post.tariffs.tiers@ == pre.tariffs.tiers@
    &&& post.ledger.accounts@ == pre.ledger.accounts@
    &&& post.operator_account_id == pre.operator_account_id
    &&& post.next_parking_lot_id == pre.next_parking_lot_id
}

/// The same ticket, stamped closed at `now` with the billed amount.
pub open spec fn close_of(t: Ticket, now: u64, amount: u64) -> Ticket {
    Ticket { end_timestamp: now, amount_paid: amount, ..t }
}

/// The value `close_ticket` answers, determined by the pre-state alone.
/// In order: no open ticket carries the code (`NotFound`); `now` is the
/// open sentinel zero or lies before the issue time (`InvalidArgument`);
/// the lot has no tariff tiers (`NotFound`); the driver's account is
/// missing (`NotFound`); the balance cannot cover the fee
/// (`InsufficientBalance`); the operator account is missing (`NotFound`);
/// otherwise the fee in cents.
pub open spec fn close_decision(pre: TicketLifecycle, code: u64, now: u64) -> Result<
    u64,
    MyError,
> {
    match find_open_by_code(pre.tickets@, code, 0) {
        None => Err(MyError::NotFound),
        Some(i) => {
            let t = pre.tickets@[i];
            if now == 0 || now < t.issue_timestamp {
                Err(MyError::InvalidArgument)
            } else {
                let units = spec_elapsed_units(t.issue_timestamp, now) as u64;
                match spec_rate(pre.tariffs.tiers@, t.parking_lot_id, units) {
                    None => Err(MyError::NotFound),
                    Some(price) => {
                        let sp = pre.allocator.spaces@[t.parking_spot_id as int];
                        let amount = spec_fee(sp.price_modifier, price, units);
                        match find_account(pre.ledger.accounts@, t.user_id) {
                            None => Err(MyError::NotFound),
                            Some(ai) => if pre.ledger.accounts@[ai].account_balance < amount {
                                Err(MyError::InsufficientBalance)
                            } else {
                                match find_account(
                                    pre.ledger.accounts@,
                                    pre.operator_account_id,
                                ) {
                                    None => Err(MyError::NotFound),
                                    Some(_) => Ok(amount as u64),
                                }
                            },
                        }
                    },
                }
            }
        },
    }
}

/// The exact effect of a successful `close_ticket`: the ticket is stamped
/// closed with the billed amount, its space is released, the fee moves
/// from the driver's account to the operator account (a no-op when they
/// are the same account), and the total money never changes.
pub open spec fn close_effect(
    pre: TicketLifecycle,
    post: TicketLifecycle,
    code: u64,
    now: u64,
    amount: u64,
) -> bool {
    let i = find_open_by_code(pre.tickets@, code, 0)->Some_0;
    let t = pre.tickets@[i];
    let sp = pre.allocator.spaces@[t.parking_spot_id as int];
    let ai = find_account(pre.ledger.accounts@, t.user_id)->Some_0;
    let oi = find_account(pre.ledger.accounts@, pre.operator_account_id)->Some_0;
    &&& post.tickets@ == pre.tickets@.update(i, close_of(t, now, amount))
    &&& post.allocator.spaces@ == pre.allocator.spaces@.update(
        t.parking_spot_id as int,
        released(sp),
    )
    &&& (ai == oi ==> post.ledger.accounts@ == pre.ledger.accounts@)
    &&& (ai != oi ==> pre.ledger.accounts@[oi].account_balance + amount <= u64::MAX
        && post.ledger.accounts@ == pre.ledger.accounts@.update(
        ai,
        Account {
            id: t.user_id,
            account_balance: (pre.ledger.accounts@[ai].account_balance - amount) as u64,
        },
    ).update(
        oi,
        Account {
            id: pre.operator_account_id,
            account_balance: (pre.ledger.accounts@[oi].account_balance + amount) as u64,
        },
    ))
    &&& sum_balances(post.ledger.accounts@) == sum_balances(pre.ledger.accounts@)
    &&& post.tariffs.tiers@ == pre.tariffs.tiers@
    &&& post.operator_account_id == pre.operator_account_id
    &&& post.next_parking_lot_id == pre.next_parking_lot_id
}

/// Everything but the ledger is unchanged between two engine states.
pub open spec fn self_unchanged_but_ledger(pre: TicketLifecycle, post: TicketLifecycle) -> bool {
    &&& post.allocator.spaces@ == pre.allocator.spaces@
    &&& post.tariffs.tiers@ == pre.tariffs.tiers@
    &&& post.tickets@ == pre.tickets@
    &&& post.operator_account_id == pre.operator_account_id
    &&& post.next_parking_lot_id == pre.next_parking_lot_id
}

/// Everything but the tariff table is unchanged between two engine states.
pub open spec fn self_unchanged_but_tariffs(pre: TicketLifecycle, post: TicketLifecycle) -> bool {
    &&& post.allocator.spaces@ == pre.allocator.spaces@
    &&& post.ledger.accounts@ == pre.ledger.accounts@
    &&& post.tickets@ == pre.tickets@
    &&& post.operator_account_id == pre.operator_account_id
    &&& post.next_parking_lot_id == pre.next_parking_lot_id
}

/// Nothing at all changed between two engine states.
pub open spec fn self_unchanged(pre: TicketLifecycle, post: TicketLifecycle) -> bool {
    &&& post.allocator.spaces@ == pre.allocator.spaces@
    &&& post.tariffs.tiers@ == pre.tariffs.tiers@
    &&& post.ledger.accounts@ == pre.ledger.accounts@
    &&& post.tickets@ == pre.tickets@
    &&& post.operator_account_id == pre.operator_account_id
    &&& post.next_parking_lot_id == pre.next_parking_lot_id
}

} // verus!
