use vstd::prelude::*;

use crate::error::MyError;
use crate::schema::CreateTariffSchema;

verus! {

/// Length of one billing block, in seconds (ten hours).
pub const BLOCK_SECONDS: u64 = 36000;

/// Scale of a space's price modifier: a modifier of 100 multiplies by one.
pub const MODIFIER_SCALE: u32 = 100;

/// One fee tier of a parking lot: for elapsed units in
/// `[min_time, max_time]` (inclusive) the hourly price is `price_per_hour`,
/// in cents.
#[derive(Clone, Copy, Debug, PartialEq, Eq, Structural)]
pub struct Tariff {
    pub parking_lot_id: u64,
    pub min_time: u64,
    pub max_time: u64,
    pub price_per_hour: u32,
}

/// Elapsed billing units: every started block counts in full, and a
/// freshly issued ticket already owes one unit.
pub open spec fn spec_elapsed_units(issue_timestamp: u64, now: u64) -> int
    recommends
        issue_timestamp <= now,
{
    (now - issue_timestamp) / (BLOCK_SECONDS as int) + 1
}

/// Number of billing units owed for an occupancy from `issue_timestamp`
/// to `now`, both in seconds. Never zero.
pub fn elapsed_units(issue_timestamp: u64, now: u64) -> (units: u64)
    requires
        issue_timestamp <= now,
    ensures
        units == spec_elapsed_units(issue_timestamp, now),
        units >= 1,
{
    let diff = now - issue_timestamp;
    let blocks = diff / BLOCK_SECONDS;
    blocks + 1
}

/// Elapsed units grow with the elapsed time and are always at least one.
pub proof fn lemma_elapsed_units_monotonic(issue_timestamp: u64, now1: u64, now2: u64)
    requires
        issue_timestamp <= now1 <= now2,
    ensures
        1 <= spec_elapsed_units(issue_timestamp, now1),
        spec_elapsed_units(issue_timestamp, now1) <= spec_elapsed_units(issue_timestamp, now2),
{
    vstd::arithmetic::div_mod::lemma_div_is_ordered(
        (now1 - issue_timestamp) as int,
        (now2 - issue_timestamp) as int,
        BLOCK_SECONDS as int,
    );
}

/// The fee owed: price modifier (in hundredths) times hourly price (in
/// cents) times elapsed units, scaled back down to cents.
pub open spec fn spec_fee(price_modifier: u32, price_per_hour: u32, units: u64) -> int {
    price_modifier * price_per_hour * units / (MODIFIER_SCALE as int)
}

/// Computes the fee in cents. Pure and total: every input has a fee.
pub fn fee(price_modifier: u32, price_per_hour: u32, units: u64) -> (amount: u128)
    ensures
        amount == spec_fee(price_modifier, price_per_hour, units),
{
    proof {
        vstd::arithmetic::mul::lemma_mul_upper_bound(
            price_modifier as int,
            u32::MAX as int,
            price_per_hour as int,
            u32::MAX as int,
        );
        vstd::arithmetic::mul::lemma_mul_nonnegative(
            price_modifier as int,
            price_per_hour as int,
        );
        vstd::arithmetic::mul::lemma_mul_upper_bound(
            (price_modifier as int) * (price_per_hour as int),
            (u32::MAX as int) * (u32::MAX as int),
            units as int,
            u64::MAX as int,
        );
    }
    let scaled: u128 = (price_modifier as u128) * (price_per_hour as u128) * (units as u128);
    scaled / (MODIFIER_SCALE as u128)
}

/// For a fixed modifier and tier price, the fee never decreases as the
/// elapsed units grow.
pub proof fn lemma_fee_monotonic(price_modifier: u32, price_per_hour: u32, units1: u64, units2: u64)
    requires
        units1 <= units2,
    ensures
        spec_fee(price_modifier, price_per_hour, units1) <= spec_fee(
            price_modifier,
            price_per_hour,
            units2,
        ),
{
    let mp = (price_modifier as int) * (price_per_hour as int);
    vstd::arithmetic::mul::lemma_mul_nonnegative(price_modifier as int, price_per_hour as int);
    vstd::arithmetic::mul::lemma_mul_inequality(units1 as int, units2 as int, mp);
    vstd::arithmetic::mul::lemma_mul_is_commutative(mp, units1 as int);
    vstd::arithmetic::mul::lemma_mul_is_commutative(mp, units2 as int);
    vstd::arithmetic::div_mod::lemma_div_is_ordered(
        mp * (units1 as int),
        mp * (units2 as int),
        MODIFIER_SCALE as int,
    );
}

/// Does `t` belong to `parking_lot_id` and contain `units` in its range?
pub open spec fn tariff_applies(t: Tariff, parking_lot_id: u64, units: u64) -> bool {
    t.parking_lot_id == parking_lot_id && t.min_time <= units <= t.max_time
}

/// Index of the first tier of the lot whose range contains `units`,
/// searching from position `i`.
pub open spec fn first_match_from(
    tiers: Seq<Tariff>,
    parking_lot_id: u64,
    units: u64,
    i: int,
) -> Option<int>
    decreases tiers.len() - i,
{
    if i < 0 || i >= tiers.len() {
        None
    } else if tariff_applies(tiers[i], parking_lot_id, units) {
        Some(i)
    } else {
        first_match_from(tiers, parking_lot_id, units, i + 1)
    }
}

/// Index of the last tier of the lot, in table order. Under the table's
/// well-formedness this is the tier with the greatest `max_time`.
pub open spec fn last_of_lot(tiers: Seq<Tariff>, parking_lot_id: u64) -> Option<int>
    decreases tiers.len(),
{
    if tiers.len() == 0 {
        None
    } else if tiers.last().parking_lot_id == parking_lot_id {
        Some(tiers.len() - 1)
    } else {
        last_of_lot(tiers.drop_last(), parking_lot_id)
    }
}

/// The price of the last tier of the lot, if the lot has tiers.
pub open spec fn last_lot_price(tiers: Seq<Tariff>, parking_lot_id: u64) -> Option<u32> {
    match last_of_lot(tiers, parking_lot_id) {
        Some(j) => Some(tiers[j].price_per_hour),
        None => None,
    }
}

/// A last-tier index is in bounds and names a tier of the right lot.
pub proof fn lemma_last_of_lot_bounds(tiers: Seq<Tariff>, parking_lot_id: u64)
    ensures
        match last_of_lot(tiers, parking_lot_id) {
            Some(j) => 0 <= j < tiers.len() && tiers[j].parking_lot_id == parking_lot_id,
            None => true,
        },
    decreases tiers.len(),
{
    if tiers.len() > 0 && tiers.last().parking_lot_id != parking_lot_id {
        lemma_last_of_lot_bounds(tiers.drop_last(), parking_lot_id);
    }
}

/// Appending one tier moves the last-tier price to it exactly for its own
/// lot.
pub proof fn lemma_last_lot_price_push(tiers: Seq<Tariff>, parking_lot_id: u64, t: Tariff)
    ensures
        last_lot_price(tiers.push(t), parking_lot_id) == if t.parking_lot_id == parking_lot_id {
            Some(t.price_per_hour)
        } else {
            last_lot_price(tiers, parking_lot_id)
        },
{
    assert(tiers.push(t).drop_last() =~= tiers);
    assert(tiers.push(t).last() == t);
    if t.parking_lot_id != parking_lot_id {
        lemma_last_of_lot_bounds(tiers, parking_lot_id);
        if let Some(j) = last_of_lot(tiers, parking_lot_id) {
            assert(tiers.push(t)[j] == tiers[j]);
        }
    }
}

/// The unit price the table answers for a lot and an elapsed duration:
/// the first containing tier; the last tier of the lot when the duration
/// overflows every range; nothing when the lot has no tiers at all.
pub open spec fn spec_rate(tiers: Seq<Tariff>, parking_lot_id: u64, units: u64) -> Option<u32> {
    match first_match_from(tiers, parking_lot_id, units, 0) {
        Some(i) => Some(tiers[i].price_per_hour),
        None => last_lot_price(tiers, parking_lot_id),
    }
}

/// The tiers of one lot, in table order.
pub open spec fn lot_tiers(tiers: Seq<Tariff>, parking_lot_id: u64) -> Seq<Tariff>
    decreases tiers.len(),
{
    if tiers.len() == 0 {
        Seq::empty()
    } else if tiers.last().parking_lot_id == parking_lot_id {
        lot_tiers(tiers.drop_last(), parking_lot_id).push(tiers.last())
    } else {
        lot_tiers(tiers.drop_last(), parking_lot_id)
    }
}

/// Appending one tier extends exactly its own lot's tier list.
pub proof fn lemma_lot_tiers_push(tiers: Seq<Tariff>, parking_lot_id: u64, t: Tariff)
    ensures
        lot_tiers(tiers.push(t), parking_lot_id) == if t.parking_lot_id == parking_lot_id {
            lot_tiers(tiers, parking_lot_id).push(t)
        } else {
            lot_tiers(tiers, parking_lot_id)
        },
{
    assert(tiers.push(t).drop_last() =~= tiers);
    assert(tiers.push(t).last() == t);
}

/// A lot's tiers cover `[0, infinity)` contiguously: the first tier starts
/// at zero, every later tier starts right after its predecessor ends, and
/// no tier's range is empty.
pub open spec fn lot_chain_wf(s: Seq<Tariff>) -> bool {
    forall|k: int|
        0 <= k < s.len() ==> (#[trigger] s[k]).min_time <= s[k].max_time && s[k].min_time == (
        if k == 0 {
            0int
        } else {
            s[k - 1].max_time + 1
        })
}

/// A tier that continues its lot's chain keeps every lot's chain
/// well-formed.
pub proof fn lemma_chain_wf_push(tiers: Seq<Tariff>, tier: Tariff)
    requires
        forall|lot: u64| lot_chain_wf(#[trigger] lot_tiers(tiers, lot)),
        tier.min_time <= tier.max_time,
        lot_tiers(tiers, tier.parking_lot_id).len() == 0 ==> tier.min_time == 0,
        lot_tiers(tiers, tier.parking_lot_id).len() > 0 ==> tier.min_time == lot_tiers(
            tiers,
            tier.parking_lot_id,
        ).last().max_time + 1,
    ensures
        forall|lot: u64| lot_chain_wf(#[trigger] lot_tiers(tiers.push(tier), lot)),
{
    assert forall|lot: u64| lot_chain_wf(#[trigger] lot_tiers(tiers.push(tier), lot)) by {
        lemma_lot_tiers_push(tiers, lot, tier);
        if lot == tier.parking_lot_id {
            let s = lot_tiers(tiers, lot);
            let s2 = s.push(tier);
            assert(lot_chain_wf(s));
            assert forall|k: int| 0 <= k < s2.len() implies (#[trigger] s2[k]).min_time
                <= s2[k].max_time && s2[k].min_time == (if k == 0 {
                0int
            } else {
                s2[k - 1].max_time + 1
            }) by {
                if k < s.len() {
                    assert(s2[k] == s[k]);
                    if k > 0 {
                        assert(s2[k - 1] == s[k - 1]);
                    }
                } else {
                    assert(s2[k] == tier);
                    if k > 0 {
                        assert(s2[k - 1] == s[s.len() - 1]);
                    }
                }
            }
        }
    }
}

/// Ordered tariff tiers for every parking lot.
pub struct TariffTable {
    pub tiers: Vec<Tariff>,
}

/// Is `body` the next admissible tier of the lot whose tiers so far are
/// `s`? It must start exactly where the coverage so far ends and must not
/// be empty.
pub open spec fn tier_admissible(s: Seq<Tariff>, body: CreateTariffSchema) -> bool {
    &&& body.min_time <= body.max_time
    &&& if s.len() == 0 {
        body.min_time == 0
    } else {
        body.min_time == s.last().max_time + 1
    }
}

impl TariffTable {
    /// Every lot's tiers form a gapless ascending chain from zero.
    pub open spec fn wf(self) -> bool {
        forall|lot: u64| lot_chain_wf(#[trigger] lot_tiers(self.tiers@, lot))
    }

    pub fn new() -> (table: TariffTable)
        ensures
            table.wf(),
            table.tiers@ =~= Seq::<Tariff>::empty(),
    {
        TariffTable { tiers: Vec::new() }
    }

    /// Adds the next tier of a lot. The tier is accepted exactly when its
    /// range is non-empty and starts right where the lot's coverage ends
    /// (at zero for a lot without tiers); everything else is rejected as
    /// `InvalidArgument` and leaves the table unchanged.
    pub fn create_tariff(&mut self, body: &CreateTariffSchema, parking_lot_id: u64) -> (r: Result<
        (),
        MyError,
    >)
        requires
            old(self).wf(),
        ensures
            final(self).wf(),
            r == Ok::<(), MyError>(()) <==> tier_admissible(
                lot_tiers(old(self).tiers@, parking_lot_id),
                *body,
            ),
            r matches Err(e) ==> e == MyError::InvalidArgument && *final(self) == *old(self),
            r == Ok::<(), MyError>(()) ==> final(self).tiers@ == old(self).tiers@.push(
                Tariff {
                    parking_lot_id,
                    min_time: body.min_time,
                    max_time: body.max_time,
                    price_per_hour: body.price_per_hour,
                },
            ),
    {
        let ghost lot_seq = lot_tiers(self.tiers@, parking_lot_id);
        // Find the last tier of this lot, if any.
        let mut last_max: Option<u64> = None;
        let mut i: usize = 0;
        while i < self.tiers.len()
            invariant
                0 <= i <= self.tiers@.len(),
                last_max matches Some(m) ==> lot_tiers(
                    self.tiers@.subrange(0, i as int),
                    parking_lot_id,
                ).len() > 0 && m == lot_tiers(
                    self.tiers@.subrange(0, i as int),
                    parking_lot_id,
                ).last().max_time,
                last_max is None ==> lot_tiers(
                    self.tiers@.subrange(0, i as int),
                    parking_lot_id,
                ).len() == 0,
            decreases self.tiers@.len() - i,
        {
            let t = self.tiers[i];
            proof {
                assert(self.tiers@.subrange(0, i + 1) =~= self.tiers@.subrange(0, i as int).push(
                    self.tiers@[i as int],
                ));
                lemma_lot_tiers_push(
                    self.tiers@.subrange(0, i as int),
                    parking_lot_id,
                    self.tiers@[i as int],
                );
            }
            if t.parking_lot_id == parking_lot_id {
                last_max = Some(t.max_time);
            }
            i += 1;
        }
        proof {
            assert(self.tiers@.subrange(0, self.tiers@.len() as int) =~= self.tiers@);
        }
        // The range the next tier must start at.
        let admissible: bool = match last_max {
            None => body.min_time == 0,
            Some(m) => m < u64::MAX && body.min_time == m + 1,
        };
        if !admissible || body.min_time > body.max_time {
            return Err(MyError::InvalidArgument);
        }
        let tier = Tariff {
            parking_lot_id,
            min_time: body.min_time,
            max_time: body.max_time,
            price_per_hour: body.price_per_hour,
        };
        proof {
            lemma_chain_wf_push(self.tiers@, tier);
        }
        self.tiers.push(tier);
        Ok(())
    }

    /// The tiers of one lot, in ascending `min_time` order (which is the
    /// table's insertion order for that lot).
    pub fn get_tariffs_by_parking_lot_id_ascending(&self, parking_lot_id: u64) -> (r: Vec<Tariff>)
        ensures
            r@ == lot_tiers(self.tiers@, parking_lot_id),
    {
        let mut out: Vec<Tariff> = Vec::new();
        let mut i: usize = 0;
        while i < self.tiers.len()
            invariant
                0 <= i <= self.tiers@.len(),
                out@ == lot_tiers(self.tiers@.subrange(0, i as int), parking_lot_id),
            decreases self.tiers@.len() - i,
        {
            let t = self.tiers[i];
            proof {
                assert(self.tiers@.subrange(0, i + 1) =~= self.tiers@.subrange(0, i as int).push(
                    self.tiers@[i as int],
                ));
                lemma_lot_tiers_push(
                    self.tiers@.subrange(0, i as int),
                    parking_lot_id,
                    self.tiers@[i as int],
                );
            }
            if t.parking_lot_id == parking_lot_id {
                out.push(t);
            }
            i += 1;
        }
        proof {
            assert(self.tiers@.subrange(0, self.tiers@.len() as int) =~= self.tiers@);
        }
        out
    }

    /// The hourly price for `units` elapsed units in a lot: the first tier
    /// whose range contains `units`, or the lot's last tier when `units`
    /// overflows every range (an overstay still gets billed), and
    /// `NotFound` only for a lot with no tiers at all.
    pub fn rate_for(&self, parking_lot_id: u64, units: u64) -> (r: Result<u32, MyError>)
        ensures
            r == match spec_rate(self.tiers@, parking_lot_id, units) {
                Some(p) => Ok::<u32, MyError>(p),
                None => Err::<u32, MyError>(MyError::NotFound),
            },
    {
        let mut last_price: Option<u32> = None;
        let mut i: usize = 0;
        while i < self.tiers.len()
            invariant
                0 <= i <= self.tiers@.len(),
                first_match_from(self.tiers@, parking_lot_id, units, 0) == first_match_from(
                    self.tiers@,
                    parking_lot_id,
                    units,
                    i as int,
                ),
                last_price == last_lot_price(self.tiers@.subrange(0, i as int), parking_lot_id),
            decreases self.tiers@.len() - i,
        {
            let t = self.tiers[i];
            proof {
                let pre = self.tiers@.subrange(0, i as int);
                assert(self.tiers@.subrange(0, i + 1) =~= pre.push(self.tiers@[i as int]));
                lemma_last_lot_price_push(pre, parking_lot_id, self.tiers@[i as int]);
            }
            if t.parking_lot_id == parking_lot_id && t.min_time <= units && units <= t.max_time {
                return Ok(t.price_per_hour);
            }
            if t.parking_lot_id == parking_lot_id {
                last_price = Some(t.price_per_hour);
            }
            i += 1;
        }
        proof {
            assert(self.tiers@.subrange(0, self.tiers@.len() as int) =~= self.tiers@);
        }
        match last_price {
            Some(p) => Ok(p),
            None => Err(MyError::NotFound),
        }
    }
}

} // verus!
