use vstd::prelude::*;

use crate::agent::{empty_counts, SocialClass};
use crate::ids::fresh_id;
use crate::types::{GridCoord, ResourceType, RESOURCE_KINDS};

verus! {

/// Construction progress is counted in thousandths; a building is complete at this value.
pub const PROGRESS_COMPLETE: u32 = 1000;

#[derive(Debug, Clone, Copy, PartialEq, Eq, Structural)]
pub enum BuildingType {
    Warehouse,
    Market,
    Barracks,
    Workshop,
    Farm,
    Mine,
    NobleEstate,
    Church,
    Tavern,
    Walls,
    PeasantHouse,
    FarmingShed,
}

/// Wood, stone and iron needed to construct a building of type `t`.
pub open spec fn materials(t: BuildingType) -> (int, int, int) {
    match t {
        BuildingType::Warehouse => (100, 50, 20),
        BuildingType::Barracks => (80, 60, 30),
        BuildingType::Workshop => (60, 40, 15),
        BuildingType::Farm => (40, 20, 5),
        BuildingType::Mine => (30, 50, 25),
        BuildingType::NobleEstate => (150, 100, 40),
        BuildingType::Church => (70, 80, 10),
        BuildingType::Tavern => (50, 30, 5),
        BuildingType::Walls => (20, 200, 50),
        BuildingType::PeasantHouse => (30, 10, 0),
        BuildingType::FarmingShed => (20, 5, 0),
        BuildingType::Market => (90, 70, 15),
    }
}

/// Units of `r` needed to construct a building of type `t`.
pub open spec fn requirement(t: BuildingType, r: ResourceType) -> int {
    match r {
        ResourceType::Wood => materials(t).0,
        ResourceType::Stone => materials(t).1,
        ResourceType::Iron => materials(t).2,
        _ => 0,
    }
}

impl BuildingType {
    /// Units of each resource needed to construct this type, indexed by
    /// `ResourceType::index`.
    pub fn required_resources(&self) -> (v: Vec<u32>)
        ensures
            v@.len() == RESOURCE_KINDS,
            forall|r: ResourceType| #[trigger] v@[r.slot() as int] == requirement(*self, r),
    {
        let (wood, stone, iron): (u32, u32, u32) = match self {
            BuildingType::Warehouse => (100, 50, 20),
            BuildingType::Barracks => (80, 60, 30),
            BuildingType::Workshop => (60, 40, 15),
            BuildingType::Farm => (40, 20, 5),
            BuildingType::Mine => (30, 50, 25),
            BuildingType::NobleEstate => (150, 100, 40),
            BuildingType::Church => (70, 80, 10),
            BuildingType::Tavern => (50, 30, 5),
            BuildingType::Walls => (20, 200, 50),
            BuildingType::PeasantHouse => (30, 10, 0),
            BuildingType::FarmingShed => (20, 5, 0),
            BuildingType::Market => (90, 70, 15),
        };
        let mut v = empty_counts();
        v.set(ResourceType::Wood.index(), wood);
        v.set(ResourceType::Stone.index(), stone);
        v.set(ResourceType::Iron.index(), iron);
        assert forall|r: ResourceType| #[trigger] v@[r.slot() as int] == requirement(*self, r) by {
            match r {
                ResourceType::Wood => {},
                _ => {},
            }
        }
        v
    }
}

/// Whether an agent of class `c` may order a building of type `t`: kings anything,
/// nobles military, trade and estate buildings, merchants and burghers trade
/// buildings, clerics churches, peasants their own small buildings.
pub open spec fn may_order(c: SocialClass, t: BuildingType) -> bool {
    match c {
        SocialClass::King => true,
        SocialClass::Noble => t is Barracks || t is Walls || t is Market || t is Workshop
            || t is NobleEstate || t is Farm || t is Mine,
        SocialClass::Merchant => t is Workshop || t is Market || t is Tavern,
        SocialClass::Burgher => t is Workshop || t is Tavern,
        SocialClass::Cleric => t is Church,
        SocialClass::Peasant => t is PeasantHouse || t is FarmingShed,
        _ => false,
    }
}

pub fn can_order_building(social_class: SocialClass, building_type: BuildingType) -> (r: bool)
    ensures
        r == may_order(social_class, building_type),
{
    match social_class {
        SocialClass::King => true,
        SocialClass::Noble => matches!(
            building_type,
            BuildingType::Barracks | BuildingType::Walls | BuildingType::Market | BuildingType::Workshop
                | BuildingType::NobleEstate | BuildingType::Farm | BuildingType::Mine
        ),
        SocialClass::Merchant => matches!(
            building_type,
            BuildingType::Workshop | BuildingType::Market | BuildingType::Tavern
        ),
        SocialClass::Burgher => matches!(building_type, BuildingType::Workshop | BuildingType::Tavern),
        SocialClass::Cleric => matches!(building_type, BuildingType::Church),
        SocialClass::Peasant => matches!(building_type, BuildingType::PeasantHouse | BuildingType::FarmingShed),
        _ => false,
    }
}

/// What a kingdom currently strives for.
#[derive(Debug, Clone, Copy, PartialEq, Eq, Structural)]
pub enum KingdomGoal {
    DefendTerritory,
    ExpandResources,
    PrepareForWar,
    GrowPopulation,
    ImproveInfrastructure,
    Consolidate,
}

/// The building a noble orders towards goal `g`, where `roll` picks between the
/// goal's options; nothing while the kingdom consolidates.
pub open spec fn goal_building(g: KingdomGoal, roll: int) -> Option<BuildingType> {
    match g {
        KingdomGoal::DefendTerritory => Some(if roll % 2 == 0 { BuildingType::Barracks } else { BuildingType::Walls }),
        KingdomGoal::ExpandResources => Some(if roll % 2 == 0 { BuildingType::Farm } else { BuildingType::Mine }),
        KingdomGoal::PrepareForWar => Some(BuildingType::Barracks),
        KingdomGoal::GrowPopulation => Some(BuildingType::Farm),
        KingdomGoal::ImproveInfrastructure => Some(if roll % 3 == 0 {
            BuildingType::Workshop
        } else if roll % 3 == 1 {
            BuildingType::Tavern
        } else {
            BuildingType::Market
        }),
        KingdomGoal::Consolidate => None,
    }
}

pub fn building_for_goal(goal: KingdomGoal, roll: u32) -> (t: Option<BuildingType>)
    ensures
        t == goal_building(goal, roll as int),
{
    match goal {
        KingdomGoal::DefendTerritory => Some(if roll % 2 == 0 { BuildingType::Barracks } else { BuildingType::Walls }),
        KingdomGoal::ExpandResources => Some(if roll % 2 == 0 { BuildingType::Farm } else { BuildingType::Mine }),
        KingdomGoal::PrepareForWar => Some(BuildingType::Barracks),
        KingdomGoal::GrowPopulation => Some(BuildingType::Farm),
        KingdomGoal::ImproveInfrastructure => Some(if roll % 3 == 0 {
            BuildingType::Workshop
        } else if roll % 3 == 1 {
            BuildingType::Tavern
        } else {
            BuildingType::Market
        }),
        KingdomGoal::Consolidate => None,
    }
}

/// Most buildings under construction at once.
pub const MAX_CONCURRENT_CONSTRUCTION: usize = 8;

/// Buildings of `bs` not yet complete.
pub open spec fn unfinished_count(bs: Seq<Building>) -> int
    decreases bs.len(),
{
    if bs.len() == 0 {
        0
    } else {
        unfinished_count(bs.drop_last()) + if bs.last().complete() {
            0int
        } else {
            1
        }
    }
}

/// How many more buildings may be started while at most eight are under construction.
pub fn construction_slots(buildings: &Vec<Building>) -> (n: usize)
    ensures
        n == if unfinished_count(buildings@) >= MAX_CONCURRENT_CONSTRUCTION {
            0
        } else {
            MAX_CONCURRENT_CONSTRUCTION - unfinished_count(buildings@)
        },
{
    let mut open: usize = 0;
    let mut i: usize = 0;
    while i < buildings.len()
        invariant
            i <= buildings@.len(),
            open == unfinished_count(buildings@.subrange(0, i as int)),
            open <= i,
        decreases buildings@.len() - i,
    {
        proof {
            assert(buildings@.subrange(0, i as int + 1).drop_last() == buildings@.subrange(0, i as int));
        }
        if !buildings[i].is_complete() {
            open = open + 1;
        }
        i += 1;
    }
    proof {
        assert(buildings@.subrange(0, buildings@.len() as int) == buildings@);
    }
    if open >= MAX_CONCURRENT_CONSTRUCTION {
        0
    } else {
        MAX_CONCURRENT_CONSTRUCTION - open
    }
}

#[derive(Debug, Clone, Copy, PartialEq, Eq, Structural)]
pub enum BuildingOwner {
    Faction(u128),
    Agent(u128),
    Public,
}

/// A building, with the resources its construction needs and has received, and the
/// money set aside to buy them (in mils).
#[derive(Debug, Clone)]
pub struct Building {
    pub id: u128,
    pub building_type: BuildingType,
    pub position: GridCoord,
    pub name: String,
    pub owner: BuildingOwner,
    /// Thousandths of construction done.
    pub construction_progress: u32,
    pub required_resources: Vec<u32>,
    pub current_resources: Vec<u32>,
    pub construction_fund: u64,
}

/// Units of a resource a construction step of `step` thousandths consumes when the
/// whole construction needs `required` units: the share, rounded up.
pub open spec fn step_need(required: int, step: int) -> int {
    (required * step + 999) / 1000
}

impl Building {
    pub open spec fn wf(&self) -> bool {
        &&& self.required_resources@.len() == RESOURCE_KINDS
        &&& self.current_resources@.len() == RESOURCE_KINDS
        &&& self.construction_progress <= PROGRESS_COMPLETE
    }

    pub open spec fn required(&self, r: ResourceType) -> int {
        self.required_resources@[r.slot() as int] as int
    }

    pub open spec fn delivered(&self, r: ResourceType) -> int {
        self.current_resources@[r.slot() as int] as int
    }

    /// Units of `r` still to be delivered.
    pub open spec fn missing(&self, r: ResourceType) -> int {
        if self.delivered(r) < self.required(r) {
            self.required(r) - self.delivered(r)
        } else {
            0
        }
    }

    pub open spec fn complete(&self) -> bool {
        self.construction_progress >= PROGRESS_COMPLETE
    }

    /// A building of `building_type` with nothing delivered, no progress and an empty fund.
    pub fn new(building_type: BuildingType, position: GridCoord, name: String, owner: BuildingOwner) -> (b:
        Building)
        ensures
            b.wf(),
            b.building_type == building_type,
            b.position == position,
            b.name@ == name@,
            b.owner == owner,
            b.construction_progress == 0,
            b.construction_fund == 0,
            forall|r: ResourceType| #[trigger] b.required(r) == requirement(building_type, r),
            forall|r: ResourceType| #[trigger] b.delivered(r) == 0,
    {
        Building {
            id: fresh_id(),
            building_type,
            position,
            name,
            owner,
            construction_progress: 0,
            required_resources: building_type.required_resources(),
            current_resources: empty_counts(),
            construction_fund: 0,
        }
    }

    /// Whether every required resource has been delivered in full.
    pub fn has_sufficient_resources(&self) -> (r: bool)
        requires
            self.wf(),
        ensures
            r == forall|res: ResourceType| #[trigger] self.delivered(res) >= self.required(res),
    {
        let mut i: usize = 0;
        while i < RESOURCE_KINDS
            invariant
                self.wf(),
                i <= RESOURCE_KINDS,
                forall|k: int|
                    0 <= k < i ==> self.current_resources@[k] >= self.required_resources@[k],
            decreases RESOURCE_KINDS - i,
        {
            if self.current_resources[i] < self.required_resources[i] {
                proof {
                    let r = slot_resource(i as int);
                    assert(self.delivered(r) < self.required(r));
                }
                return false;
            }
            i += 1;
        }
        true
    }

    /// Units of each resource still to be delivered, indexed by `ResourceType::index`.
    pub fn remaining_resources(&self) -> (v: Vec<u32>)
        requires
            self.wf(),
        ensures
            v@.len() == RESOURCE_KINDS,
            forall|r: ResourceType| #[trigger] v@[r.slot() as int] == self.missing(r),
    {
        let mut v: Vec<u32> = Vec::new();
        let mut i: usize = 0;
        while i < RESOURCE_KINDS
            invariant
                self.wf(),
                i <= RESOURCE_KINDS,
                v@.len() == i,
                forall|k: int|
                    0 <= k < i ==> v@[k] == if self.current_resources@[k]
                        < self.required_resources@[k] {
                        self.required_resources@[k] - self.current_resources@[k]
                    } else {
                        0
                    },
            decreases RESOURCE_KINDS - i,
        {
            let cur = self.current_resources[i];
            let req = self.required_resources[i];
            v.push(if cur < req { req - cur } else { 0 });
            i += 1;
        }
        v
    }

    /// Records the delivery of `quantity` units of `resource_type`.
    pub fn add_resources(&mut self, resource_type: ResourceType, quantity: u32)
        requires
            old(self).wf(),
            old(self).delivered(resource_type) + quantity <= u32::MAX,
        ensures
            final(self).wf(),
            final(self).delivered(resource_type) == old(self).delivered(resource_type) + quantity,
            forall|r: ResourceType|
                r != resource_type ==> #[trigger] final(self).delivered(r) == old(self).delivered(r),
            final(self).required_resources == old(self).required_resources,
            final(self).construction_fund == old(self).construction_fund,
            final(self).construction_progress == old(self).construction_progress,
            final(self).id == old(self).id,
    {
        let i = resource_type.index();
        let q = self.current_resources[i] + quantity;
        self.current_resources.set(i, q);
        proof {
            assert forall|r: ResourceType| r != resource_type implies #[trigger] self.delivered(r)
                == old(self).delivered(r) by {
                crate::types::lemma_slot_injective(r, resource_type);
            }
        }
    }

    /// Thousandths of the required units delivered so far, over all resources; a
    /// building that requires nothing counts as fully supplied.
    pub fn resource_completion_permille(&self) -> (p: u64)
        requires
            self.wf(),
        ensures
            p == if req_total(self.required_resources@, RESOURCE_KINDS as int) == 0 {
                1000
            } else {
                req_total(self.current_resources@, RESOURCE_KINDS as int) * 1000 / req_total(
                    self.required_resources@,
                    RESOURCE_KINDS as int,
                )
            },
    {
        let mut required: u64 = 0;
        let mut delivered: u64 = 0;
        let mut i: usize = 0;
        while i < RESOURCE_KINDS
            invariant
                self.wf(),
                i <= RESOURCE_KINDS,
                required == req_total(self.required_resources@, i as int),
                delivered == req_total(self.current_resources@, i as int),
                required <= i * (u32::MAX as int),
                delivered <= i * (u32::MAX as int),
            decreases RESOURCE_KINDS - i,
        {
            required = required + self.required_resources[i] as u64;
            delivered = delivered + self.current_resources[i] as u64;
            i += 1;
        }
        if required == 0 {
            1000
        } else {
            delivered * 1000 / required
        }
    }

    pub fn is_complete(&self) -> (r: bool)
        ensures
            r == self.complete(),
    {
        self.construction_progress >= PROGRESS_COMPLETE
    }

    /// Advances construction by `step` thousandths if the delivered resources cover
    /// this step's share of every requirement, consuming that share; returns whether
    /// construction advanced. Progress stops at completion.
    pub fn construct_with_resources(&mut self, step: u32) -> (advanced: bool)
        requires
            old(self).wf(),
        ensures
            final(self).wf(),
            advanced == forall|r: ResourceType|
                #[trigger] old(self).delivered(r) >= step_need(old(self).required(r), step as int),
            advanced ==> forall|r: ResourceType|
                #[trigger] final(self).delivered(r) == old(self).delivered(r) - step_need(
                    old(self).required(r),
                    step as int,
                ),
            advanced ==> final(self).construction_progress == if old(self).construction_progress
                + step > PROGRESS_COMPLETE {
                PROGRESS_COMPLETE as int
            } else {
                old(self).construction_progress + step
            },
            !advanced ==> *final(self) == *old(self),
            !advanced ==> final(self).current_resources == old(self).current_resources
                && final(self).construction_progress == old(self).construction_progress,
            final(self).required_resources == old(self).required_resources,
            final(self).construction_fund == old(self).construction_fund,
            final(self).id == old(self).id,
            final(self).name == old(self).name,
            final(self).position == old(self).position,
            final(self).owner == old(self).owner,
            final(self).building_type == old(self).building_type,
    {
        let mut i: usize = 0;
        while i < RESOURCE_KINDS
            invariant
                self.wf(),
                i <= RESOURCE_KINDS,
                forall|k: int|
                    0 <= k < i ==> self.current_resources@[k] >= step_need(
                        self.required_resources@[k] as int,
                        step as int,
                    ),
            decreases RESOURCE_KINDS - i,
        {
            if (self.current_resources[i] as u64) < tick_need(self.required_resources[i], step) {
                proof {
                    let r = slot_resource(i as int);
                    assert(!(self.delivered(r) >= step_need(self.required(r), step as int)));
                }
                return false;
            }
            i += 1;
        }
        assert forall|r: ResourceType| #[trigger]
            old(self).delivered(r) >= step_need(old(self).required(r), step as int) by {
            assert(r.slot() < RESOURCE_KINDS);
        }
        let mut j: usize = 0;
        while j < RESOURCE_KINDS
            invariant
                self.wf(),
                j <= RESOURCE_KINDS,
                self.required_resources == old(self).required_resources,
                self.construction_progress == old(self).construction_progress,
                self.construction_fund == old(self).construction_fund,
                self.id == old(self).id,
                self.name == old(self).name,
                self.position == old(self).position,
                self.owner == old(self).owner,
                self.building_type == old(self).building_type,
                forall|k: int|
                    0 <= k < RESOURCE_KINDS ==> old(self).current_resources@[k] >= step_need(
                        self.required_resources@[k] as int,
                        step as int,
                    ),
                forall|k: int|
                    j <= k < RESOURCE_KINDS ==> self.current_resources@[k]
                        == old(self).current_resources@[k],
                forall|k: int|
                    0 <= k < j ==> self.current_resources@[k] == old(self).current_resources@[k]
                        - step_need(self.required_resources@[k] as int, step as int),
            decreases RESOURCE_KINDS - j,
        {
            let need = tick_need(self.required_resources[j], step);
            let left = self.current_resources[j] - need as u32;
            self.current_resources.set(j, left);
            j += 1;
        }
        let p = self.construction_progress as u64 + step as u64;
        self.construction_progress = if p > PROGRESS_COMPLETE as u64 {
            PROGRESS_COMPLETE
        } else {
            p as u32
        };
        proof {
            assert forall|r: ResourceType| #[trigger]
                self.delivered(r) == old(self).delivered(r) - step_need(old(self).required(r), step as int) by {
                assert(r.slot() < RESOURCE_KINDS);
            }
        }
        true
    }
}

/// Sum of the first `k` entries of a per-resource table.
pub open spec fn req_total(s: Seq<u32>, k: int) -> int
    decreases k,
{
    if k <= 0 {
        0
    } else {
        req_total(s, k - 1) + s[k - 1]
    }
}

/// The resource kept in slot `i` of a per-resource table.
pub open spec fn slot_resource(i: int) -> ResourceType {
    if i == 0 {
        ResourceType::Wood
    } else if i == 1 {
        ResourceType::Stone
    } else if i == 2 {
        ResourceType::Iron
    } else if i == 3 {
        ResourceType::Gold
    } else if i == 4 {
        ResourceType::Food
    } else if i == 5 {
        ResourceType::Water
    } else if i == 6 {
        ResourceType::Cloth
    } else if i == 7 {
        ResourceType::Tool
    } else if i == 8 {
        ResourceType::Weapon
    } else {
        ResourceType::Coin
    }
}

pub proof fn lemma_slot_resource(i: int)
    requires
        0 <= i < RESOURCE_KINDS,
    ensures
        slot_resource(i).slot() == i,
{
}

fn tick_need(required: u32, step: u32) -> (n: u64)
    ensures
        n == step_need(required as int, step as int),
{
    assert((required as int) * (step as int) <= 4_294_967_295 * 4_294_967_295) by (nonlinear_arith)
        requires
            required <= 4_294_967_295u32,
            step <= 4_294_967_295u32,
    ;
    ((required as u64) * (step as u64) + 999) / 1000
}

} // verus!
