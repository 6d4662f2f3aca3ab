use vstd::prelude::*;

use crate::counting::count_where;
use crate::counting::lemma_count_where_update;
use crate::error::MyError;
use crate::model::ParkingLocation;
use crate::model::VehicleType;
use crate::schema::CreateParkingSpaceSchema;
use crate::tariff::MODIFIER_SCALE;

verus! {

/// One occupiable space of a lot. The id equals the space's position in
/// the allocator's store; `price_modifier` is in hundredths and defaults
/// to 100 (times one).
#[derive(Clone, Copy, Debug, PartialEq, Eq, Structural)]
pub struct ParkingSpace {
    pub id: u64,
    pub parking_lot_id: u64,
    pub location: ParkingLocation,
    pub vehicle_type: VehicleType,
    pub occupied: bool,
    pub price_modifier: u32,
}

/// The same space, claimed.
pub open spec fn claimed(s: ParkingSpace) -> ParkingSpace {
    ParkingSpace { occupied: true, ..s }
}

/// The same space, free.
pub open spec fn released(s: ParkingSpace) -> ParkingSpace {
    ParkingSpace { occupied: false, ..s }
}

/// Is `s` a free space of this lot for this vehicle class?
pub open spec fn matches_free(s: ParkingSpace, parking_lot_id: u64, vehicle_type: VehicleType) -> bool {
    s.parking_lot_id == parking_lot_id && s.vehicle_type == vehicle_type && !s.occupied
}

/// Does `a` come before `b` in claim order (lower level first, then lower
/// ordinal)?
pub open spec fn location_precedes(a: ParkingLocation, b: ParkingLocation) -> bool {
    a.no_level < b.no_level || (a.no_level == b.no_level && a.no_space < b.no_space)
}

/// The free matching space a claim selects: the one lowest by
/// (level, ordinal), and of equals the one stored first.
pub open spec fn best_free(
    spaces: Seq<ParkingSpace>,
    parking_lot_id: u64,
    vehicle_type: VehicleType,
) -> Option<int>
    decreases spaces.len(),
{
    if spaces.len() == 0 {
        None
    } else {
        let r = best_free(spaces.drop_last(), parking_lot_id, vehicle_type);
        if matches_free(spaces.last(), parking_lot_id, vehicle_type) {
            match r {
                None => Some(spaces.len() - 1),
                Some(j) => if location_precedes(spaces.last().location, spaces[j].location) {
                    Some(spaces.len() - 1)
                } else {
                    Some(j)
                },
            }
        } else {
            r
        }
    }
}

/// A selected index names a free matching space; `None` means the lot has
/// no free matching space at all.
pub proof fn lemma_best_free_props(
    spaces: Seq<ParkingSpace>,
    parking_lot_id: u64,
    vehicle_type: VehicleType,
)
    ensures
        match best_free(spaces, parking_lot_id, vehicle_type) {
            Some(i) => 0 <= i < spaces.len() && matches_free(
                spaces[i],
                parking_lot_id,
                vehicle_type,
            ),
            None => forall|j: int|
                0 <= j < spaces.len() ==> !matches_free(
                    #[trigger] spaces[j],
                    parking_lot_id,
                    vehicle_type,
                ),
        },
    decreases spaces.len(),
{
    if spaces.len() > 0 {
        lemma_best_free_props(spaces.drop_last(), parking_lot_id, vehicle_type);
        assert(spaces.last() == spaces[spaces.len() - 1]);
        assert(forall|j: int| 0 <= j < spaces.len() - 1 ==> spaces.drop_last()[j] == spaces[j]);
    }
}

/// Free matching spaces of a lot and class.
pub open spec fn free_count(
    spaces: Seq<ParkingSpace>,
    parking_lot_id: u64,
    vehicle_type: VehicleType,
) -> int {
    count_where(spaces, |s: ParkingSpace| matches_free(s, parking_lot_id, vehicle_type))
}

/// Occupied spaces of a lot, over all classes.
pub open spec fn occupied_count(spaces: Seq<ParkingSpace>, parking_lot_id: u64) -> int {
    count_where(spaces, |s: ParkingSpace| s.parking_lot_id == parking_lot_id && s.occupied)
}

/// Owns all parking spaces and is the only component that flips their
/// `occupied` flag. A claim selects and flips in one operation, so no two
/// claims can win the same space.
pub struct SpaceAllocator {
    pub spaces: Vec<ParkingSpace>,
}

impl SpaceAllocator {
    /// Every space's id is its position in the store.
    pub open spec fn wf(self) -> bool {
        forall|i: int|
            0 <= i < self.spaces@.len() ==> (#[trigger] self.spaces@[i]).id == i as u64
    }

    pub fn new() -> (allocator: SpaceAllocator)
        ensures
            allocator.wf(),
            allocator.spaces@ =~= Seq::<ParkingSpace>::empty(),
    {
        SpaceAllocator { spaces: Vec::new() }
    }

    /// Adds one free space to a lot with the default price modifier and
    /// returns its id.
    pub fn create_parking_space(&mut self, body: &CreateParkingSpaceSchema) -> (id: u64)
        requires
            old(self).wf(),
        ensures
            final(self).wf(),
            id == old(self).spaces@.len(),
            final(self).spaces@ == old(self).spaces@.push(
                ParkingSpace {
                    id,
                    parking_lot_id: body.parking_lot_id,
                    location: body.location,
                    vehicle_type: body.vehicle_type,
                    occupied: false,
                    price_modifier: MODIFIER_SCALE,
                },
            ),
    {
        let id = self.spaces.len() as u64;
        let space = ParkingSpace {
            id,
            parking_lot_id: body.parking_lot_id,
            location: body.location,
            vehicle_type: body.vehicle_type,
            occupied: false,
            price_modifier: MODIFIER_SCALE,
        };
        proof {
            assert(self.spaces@.push(space).drop_last() =~= self.spaces@);
        }
        self.spaces.push(space);
        id
    }

    /// Claims the free space of the lot and class that is lowest by
    /// (level, ordinal): selection and the flip to occupied happen in this
    /// one operation. Fails with `NoFreeSpace`, changing nothing, exactly
    /// when the lot has no free matching space.
    pub fn claim(&mut self, parking_lot_id: u64, vehicle_type: VehicleType) -> (r: Result<
        ParkingSpace,
        MyError,
    >)
        requires
            old(self).wf(),
        ensures
            final(self).wf(),
            r == match best_free(old(self).spaces@, parking_lot_id, vehicle_type) {
                Some(i) => Ok::<ParkingSpace, MyError>(claimed(old(self).spaces@[i])),
                None => Err::<ParkingSpace, MyError>(MyError::NoFreeSpace),
            },
            r matches Err(_) ==> final(self).spaces@ == old(self).spaces@,
            r matches Ok(sp) ==> {
                let i = best_free(old(self).spaces@, parking_lot_id, vehicle_type)->Some_0;
                &&& final(self).spaces@ == old(self).spaces@.update(i, claimed(old(self).spaces@[i]))
                &&& !old(self).spaces@[i].occupied
                &&& sp.id == i && sp.parking_lot_id == parking_lot_id && sp.vehicle_type
                    == vehicle_type && sp.occupied
            },
            r matches Ok(sp) ==> forall|l: u64|
                occupied_count(final(self).spaces@, l) == occupied_count(old(self).spaces@, l) + (
                if l == parking_lot_id {
                    1int
                } else {
                    0int
                }),
    {
        let ghost s0 = self.spaces@;
        let mut best: Option<usize> = None;
        let mut i: usize = 0;
        while i < self.spaces.len()
            invariant
                0 <= i <= s0.len(),
                best matches Some(b) ==> b < i && best_free(
                    s0.subrange(0, i as int),
                    parking_lot_id,
                    vehicle_type,
                ) == Some(b as int),
                best is None ==> best_free(s0.subrange(0, i as int), parking_lot_id, vehicle_type)
                    is None,
            decreases s0.len() - i,
        {
            proof {
                let pre = s0.subrange(0, i as int);
                let cur = s0.subrange(0, i + 1);
                assert(cur.drop_last() =~= pre);
                assert(cur.last() == s0[i as int]);
                assert(forall|j: int| 0 <= j < pre.len() ==> cur[j] == pre[j]);
            }
            let sp = self.spaces[i];
            if sp.parking_lot_id == parking_lot_id && !sp.occupied {
                let same_type = match (sp.vehicle_type, vehicle_type) {
                    (VehicleType::Car, VehicleType::Car) => true,
                    (VehicleType::Truck, VehicleType::Truck) => true,
                    _ => false,
                };
                if same_type {
                    match best {
                        None => {
                            best = Some(i);
                        },
                        Some(b) => {
                            let cur_best = self.spaces[b];
                            if sp.location.no_level < cur_best.location.no_level || (
                            sp.location.no_level == cur_best.location.no_level
                                && sp.location.no_space < cur_best.location.no_space) {
                                best = Some(i);
                            }
                        },
                    }
                }
            }
            i += 1;
        }
        proof {
            assert(s0.subrange(0, s0.len() as int) =~= s0);
        }
        match best {
            None => Err(MyError::NoFreeSpace),
            Some(b) => {
                proof {
                    lemma_best_free_props(s0, parking_lot_id, vehicle_type);
                }
                let sp = self.spaces[b];
                let claimed_space = ParkingSpace {
                    id: sp.id,
                    parking_lot_id: sp.parking_lot_id,
                    location: sp.location,
                    vehicle_type: sp.vehicle_type,
                    occupied: true,
                    price_modifier: sp.price_modifier,
                };
                proof {
                    assert forall|l: u64|
                        occupied_count(s0.update(b as int, claimed_space), l) == occupied_count(
                        s0,
                        l,
                    ) + (if l == parking_lot_id {
                        1int
                    } else {
                        0int
                    }) by {
                        lemma_count_where_update(
                            s0,
                            |s: ParkingSpace| s.parking_lot_id == l && s.occupied,
                            b as int,
                            claimed_space,
                        );
                    }
                }
                self.spaces.set(b, claimed_space);
                Ok(claimed_space)
            },
        }
    }

    /// Flips a space back to free, unconditionally, so releasing an
    /// already-free space is a no-op. Fails with `NotFound`, changing
    /// nothing, exactly when no space has this id.
    pub fn release(&mut self, parking_space_id: u64) -> (r: Result<(), MyError>)
        requires
            old(self).wf(),
        ensures
            final(self).wf(),
            r == if parking_space_id < old(self).spaces@.len() {
                Ok::<(), MyError>(())
            } else {
                Err::<(), MyError>(MyError::NotFound)
            },
            r matches Err(_) ==> final(self).spaces@ == old(self).spaces@,
            r == Ok::<(), MyError>(()) ==> final(self).spaces@ == old(self).spaces@.update(
                parking_space_id as int,
                released(old(self).spaces@[parking_space_id as int]),
            ),
            r == Ok::<(), MyError>(()) ==> forall|l: u64|
                occupied_count(final(self).spaces@, l) == occupied_count(old(self).spaces@, l) - (
                if l == old(self).spaces@[parking_space_id as int].parking_lot_id && old(
                    self,
                ).spaces@[parking_space_id as int].occupied {
                    1int
                } else {
                    0int
                }),
    {
        if parking_space_id >= self.spaces.len() as u64 {
            return Err(MyError::NotFound);
        }
        let ghost s0 = self.spaces@;
        let idx = parking_space_id as usize;
        let sp = self.spaces[idx];
        let released_space = ParkingSpace {
            id: sp.id,
            parking_lot_id: sp.parking_lot_id,
            location: sp.location,
            vehicle_type: sp.vehicle_type,
            occupied: false,
            price_modifier: sp.price_modifier,
        };
        proof {
            assert forall|l: u64|
                occupied_count(s0.update(idx as int, released_space), l) == occupied_count(s0, l)
                    - (if l == s0[idx as int].parking_lot_id && s0[idx as int].occupied {
                    1int
                } else {
                    0int
                }) by {
                lemma_count_where_update(
                    s0,
                    |s: ParkingSpace| s.parking_lot_id == l && s.occupied,
                    idx as int,
                    released_space,
                );
            }
        }
        self.spaces.set(idx, released_space);
        Ok(())
    }

    /// Read-only lookup of a space by lot and id.
    pub fn lookup(&self, parking_lot_id: u64, parking_space_id: u64) -> (r: Result<
        ParkingSpace,
        MyError,
    >)
        ensures
            r == if parking_space_id < self.spaces@.len() && self.spaces@[parking_space_id as int].parking_lot_id
                == parking_lot_id {
                Ok::<ParkingSpace, MyError>(self.spaces@[parking_space_id as int])
            } else {
                Err::<ParkingSpace, MyError>(MyError::NotFound)
            },
    {
        if parking_space_id >= self.spaces.len() as u64 {
            return Err(MyError::NotFound);
        }
        let sp = self.spaces[parking_space_id as usize];
        if sp.parking_lot_id != parking_lot_id {
            return Err(MyError::NotFound);
        }
        Ok(sp)
    }

    /// Read-only lookup of a space by lot, level and ordinal: the first
    /// stored space at that location.
    pub fn lookup_by_location(&self, parking_lot_id: u64, no_level: u32, no_space: u32) -> (r:
        Result<ParkingSpace, MyError>)
        ensures
            r == match first_at_location(self.spaces@, parking_lot_id, no_level, no_space, 0) {
                Some(i) => Ok::<ParkingSpace, MyError>(self.spaces@[i]),
                None => Err::<ParkingSpace, MyError>(MyError::NotFound),
            },
    {
        let mut i: usize = 0;
        while i < self.spaces.len()
            invariant
                0 <= i <= self.spaces@.len(),
                first_at_location(self.spaces@, parking_lot_id, no_level, no_space, 0)
                    == first_at_location(self.spaces@, parking_lot_id, no_level, no_space, i as int),
            decreases self.spaces@.len() - i,
        {
            let sp = self.spaces[i];
            if sp.parking_lot_id == parking_lot_id && sp.location.no_level == no_level
                && sp.location.no_space == no_space {
                return Ok(sp);
            }
            i += 1;
        }
        Err(MyError::NotFound)
    }
}

/// Index of the first space of the lot at the given location, searching
/// from position `i`.
pub open spec fn first_at_location(
    spaces: Seq<ParkingSpace>,
    parking_lot_id: u64,
    no_level: u32,
    no_space: u32,
    i: int,
) -> Option<int>
    decreases spaces.len() - i,
{
    if i < 0 || i >= spaces.len() {
        None
    } else if spaces[i].parking_lot_id == parking_lot_id && spaces[i].location.no_level == no_level
        && spaces[i].location.no_space == no_space {
        Some(i)
    } else {
        first_at_location(spaces, parking_lot_id, no_level, no_space, i + 1)
    }
}

/// Releasing the space a claim just picked restores the store exactly,
/// so every lot's free-space count returns to its pre-claim value.
pub proof fn lemma_release_after_claim_restores(
    spaces: Seq<ParkingSpace>,
    parking_lot_id: u64,
    vehicle_type: VehicleType,
)
    requires
        best_free(spaces, parking_lot_id, vehicle_type) is Some,
    ensures
        ({
            let i = best_free(spaces, parking_lot_id, vehicle_type)->Some_0;
            let after_claim = spaces.update(i, claimed(spaces[i]));
            let after_release = after_claim.update(i, released(after_claim[i]));
            &&& after_release == spaces
            &&& forall|l: u64, vt: VehicleType|
                free_count(after_release, l, vt) == free_count(spaces, l, vt)
        }),
{
    let i = best_free(spaces, parking_lot_id, vehicle_type)->Some_0;
    lemma_best_free_props(spaces, parking_lot_id, vehicle_type);
    let after_claim = spaces.update(i, claimed(spaces[i]));
    let after_release = after_claim.update(i, released(after_claim[i]));
    assert(released(after_claim[i]) == spaces[i]);
    assert(after_release =~= spaces);
}

} // verus!
