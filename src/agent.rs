use vstd::prelude::*;

use crate::chance::roll_below;
use crate::ids::fresh_id;
use crate::types::{GridCoord, ResourceType, MILS_PER_COIN, RESOURCE_KINDS};

verus! {

/// Agent job.
#[derive(Debug, Clone, Copy, PartialEq, Eq, Structural)]
pub enum Job {
    Woodcutter,
    Miner,
    Farmer,
    Builder,
    Unemployed,
}

impl Job {
    pub open spec fn harvests(self) -> bool {
        self is Woodcutter || self is Miner || self is Farmer
    }

    /// Whether this job extracts a resource.
    pub fn is_harvester(&self) -> (r: bool)
        ensures
            r == self.harvests(),
    {
        matches!(self, Job::Woodcutter | Job::Miner | Job::Farmer)
    }
}

/// Social hierarchy class.
#[derive(Debug, Clone, Copy, PartialEq, Eq, Structural)]
pub enum SocialClass {
    King,
    Noble,
    Knight,
    Soldier,
    Merchant,
    Burgher,
    Cleric,
    Peasant,
}

/// Failures of economic operations. None of them has any effect on the state it
/// was asked to change.
#[derive(Debug, Clone, Copy, PartialEq, Eq, Structural)]
pub enum EconomyError {
    /// A payment exceeds the balance that should cover it.
    InsufficientFunds,
    /// A transfer of goods exceeds the quantity held.
    InsufficientInventory,
    /// A referenced agent, market or building does not exist.
    NotFound,
    /// A balance or tally would exceed the range it is stored in.
    CapacityExceeded,
}

/// Resources an agent carries to a construction site.
#[derive(Debug, Clone, Copy, PartialEq, Eq, Structural)]
pub struct BuildingResources {
    pub wood: u32,
    pub stone: u32,
    pub iron: u32,
    pub target_building_id: u128,
}

/// Current behavioural state.
#[derive(Debug, Clone)]
pub enum AgentState {
    Idle,
    Moving { destination: GridCoord },
    Working { task: String },
    Fighting { target: u128 },
    Sleeping,
    Eating,
    Dead,
    Talking { with: u128 },
    Patrolling { route_index: usize },
    Following { leader: u128 },
    Building { building_type: String },
    Trading { with: u128 },
}

/// One agent of the roster. Money is in mils; `inventory` and `needs` hold one count
/// per resource, indexed by `ResourceType::index`.
#[derive(Debug, Clone)]
pub struct SimAgent {
    pub id: u128,
    pub name: String,
    pub position: GridCoord,
    pub age: u32,
    pub state: AgentState,
    pub job: Job,
    pub social_class: SocialClass,
    pub leader_id: Option<u128>,
    pub wallet: u64,
    pub inventory: Vec<u32>,
    pub needs: Vec<u32>,
    pub carrying_resources: Option<BuildingResources>,
}

/// Money every agent of a class starts with, in mils.
pub open spec fn starting_wallet(c: SocialClass) -> int {
    MILS_PER_COIN * match c {
        SocialClass::King => 1000int,
        SocialClass::Noble => 500,
        SocialClass::Knight => 200,
        SocialClass::Merchant | SocialClass::Burgher => 150,
        SocialClass::Soldier => 100,
        SocialClass::Cleric => 80,
        SocialClass::Peasant => 50,
    }
}

/// The job a class is given; peasants are given a harvesting job by chance.
pub open spec fn class_job(c: SocialClass, roll: int) -> Job {
    match c {
        SocialClass::Merchant | SocialClass::Burgher => Job::Builder,
        SocialClass::Peasant => if roll == 0 {
            Job::Woodcutter
        } else if roll == 1 {
            Job::Miner
        } else {
            Job::Farmer
        },
        _ => Job::Unemployed,
    }
}

/// What an agent with job `j` wants to hold of resource `r`.
pub open spec fn job_need(j: Job, r: ResourceType) -> int {
    if r is Food {
        5
    } else {
        match j {
            Job::Builder => if r is Wood || r is Stone {
                10int
            } else {
                0
            },
            Job::Farmer => if r is Wood {
                2int
            } else {
                0
            },
            Job::Woodcutter | Job::Miner => if r is Iron {
                1int
            } else {
                0
            },
            Job::Unemployed => 0,
        }
    }
}

/// Wage paid per pay period to an agent, in mils.
pub open spec fn wage(j: Job, c: SocialClass) -> int {
    MILS_PER_COIN * match j {
        Job::Farmer => 5int,
        Job::Woodcutter => 6,
        Job::Miner => 7,
        Job::Builder => 8,
        Job::Unemployed => match c {
            SocialClass::King => 50int,
            SocialClass::Noble => 20,
            SocialClass::Knight => 15,
            SocialClass::Soldier => 10,
            SocialClass::Merchant => 12,
            SocialClass::Cleric => 8,
            _ => 0,
        },
    }
}

/// A table holding zero of every resource.
pub fn empty_counts() -> (v: Vec<u32>)
    ensures
        v@.len() == RESOURCE_KINDS,
        forall|i: int| 0 <= i < RESOURCE_KINDS ==> v@[i] == 0,
{
    let mut v: Vec<u32> = Vec::new();
    let mut i: usize = 0;
    while i < RESOURCE_KINDS
        invariant
            i <= RESOURCE_KINDS,
            v@.len() == i,
            forall|k: int| 0 <= k < i ==> v@[k] == 0,
        decreases RESOURCE_KINDS - i,
    {
        v.push(0);
        i += 1;
    }
    v
}

pub fn wage_for(job: Job, class: SocialClass) -> (w: u64)
    ensures
        w == wage(job, class),
{
    let coins: u64 = match job {
        Job::Farmer => 5,
        Job::Woodcutter => 6,
        Job::Miner => 7,
        Job::Builder => 8,
        Job::Unemployed => match class {
            SocialClass::King => 50,
            SocialClass::Noble => 20,
            SocialClass::Knight => 15,
            SocialClass::Soldier => 10,
            SocialClass::Merchant => 12,
            SocialClass::Cleric => 8,
            _ => 0,
        },
    };
    coins * MILS_PER_COIN
}

impl SimAgent {
    pub open spec fn wf(&self) -> bool {
        &&& self.inventory@.len() == RESOURCE_KINDS
        &&& self.needs@.len() == RESOURCE_KINDS
    }

    pub open spec fn alive(&self) -> bool {
        !(self.state is Dead)
    }

    /// Units of `r` the agent holds.
    pub open spec fn holding(&self, r: ResourceType) -> int {
        self.inventory@[r.slot() as int] as int
    }

    /// A new peasant.
    pub fn new(name: String, position: GridCoord) -> (a: SimAgent)
        ensures
            a.wf(),
            a.name@ == name@,
            a.position == position,
            a.social_class == SocialClass::Peasant,
            a.job.harvests(),
            a.wallet == starting_wallet(SocialClass::Peasant),
            a.alive(),
    {
        SimAgent::new_with_class(name, position, SocialClass::Peasant)
    }

    /// A new agent of class `social_class`, with the job, starting money and needs of
    /// its class, holding nothing and idle.
    pub fn new_with_class(name: String, position: GridCoord, social_class: SocialClass) -> (a:
        SimAgent)
        ensures
            a.wf(),
            a.name@ == name@,
            a.position == position,
            a.social_class == social_class,
            exists|roll: int| 0 <= roll < 3 && a.job == class_job(social_class, roll),
            a.job.harvests() == (social_class == SocialClass::Peasant),
            a.wallet == starting_wallet(social_class),
            forall|r: ResourceType| #[trigger] a.holding(r) == 0,
            forall|r: ResourceType| a.needs@[r.slot() as int] == job_need(a.job, r),
            18 <= a.age < 78,
            a.state is Idle,
            a.leader_id is None,
            a.carrying_resources is None,
    {
        let roll = roll_below(3);
        let job = match social_class {
            SocialClass::Merchant | SocialClass::Burgher => Job::Builder,
            SocialClass::Peasant => if roll == 0 {
                Job::Woodcutter
            } else if roll == 1 {
                Job::Miner
            } else {
                Job::Farmer
            },
            _ => Job::Unemployed,
        };
        let coins: u64 = match social_class {
            SocialClass::King => 1000,
            SocialClass::Noble => 500,
            SocialClass::Knight => 200,
            SocialClass::Merchant | SocialClass::Burgher => 150,
            SocialClass::Soldier => 100,
            SocialClass::Cleric => 80,
            SocialClass::Peasant => 50,
        };
        let mut needs = empty_counts();
        needs.set(ResourceType::Food.index(), 5);
        match job {
            Job::Builder => {
                needs.set(ResourceType::Wood.index(), 10);
                needs.set(ResourceType::Stone.index(), 10);
            },
            Job::Farmer => {
                needs.set(ResourceType::Wood.index(), 2);
            },
            Job::Woodcutter | Job::Miner => {
                needs.set(ResourceType::Iron.index(), 1);
            },
            Job::Unemployed => {},
        }
        let inventory = empty_counts();
        let age = roll_below(60) + 18;
        let a = SimAgent {
            id: fresh_id(),
            name,
            position,
            age,
            state: AgentState::Idle,
            job,
            social_class,
            leader_id: None,
            wallet: coins * MILS_PER_COIN,
            inventory,
            needs,
            carrying_resources: None,
        };
        assert(a.job == class_job(social_class, roll as int));
        assert forall|r: ResourceType| a.needs@[r.slot() as int] == job_need(a.job, r) by {
            match r {
                ResourceType::Wood => {},
                _ => {},
            }
        }
        a
    }

    /// Whether the agent is alive.
    pub fn is_alive(&self) -> (r: bool)
        ensures
            r == self.alive(),
    {
        !matches!(self.state, AgentState::Dead)
    }
}

} // verus!
