use vstd::prelude::*;

use crate::agent::{BuildingResources, EconomyError, SimAgent};
use crate::buildings::Building;
use crate::currency::CurrencySystem;
use crate::market::Market;
use crate::types::ResourceType;

verus! {

/// Units of a material a builder buys in one trip: twenty of wood or stone, ten of iron.
pub open spec fn trip_cap(r: ResourceType) -> int {
    if r is Iron {
        10
    } else {
        20
    }
}

/// Units of `r` in the carried record `c`.
pub open spec fn carried(c: BuildingResources, r: ResourceType) -> int {
    match r {
        ResourceType::Wood => c.wood as int,
        ResourceType::Stone => c.stone as int,
        ResourceType::Iron => c.iron as int,
        _ => 0,
    }
}

/// A material the building still misses and the market has in store.
pub open spec fn buyable(b: Building, m: Market, r: ResourceType) -> bool {
    b.missing(r) > 0 && m.stocks(r) && m.stock(r) > 0
}

/// Keeps `best` unless `r` is buyable and strictly cheaper.
pub open spec fn cheaper(
    b: Building,
    m: Market,
    best: Option<ResourceType>,
    r: ResourceType,
) -> Option<ResourceType> {
    if !buyable(b, m, r) {
        best
    } else {
        match best {
            None => Some(r),
            Some(x) => if m.price(r) < m.price(x) {
                Some(r)
            } else {
                best
            },
        }
    }
}

/// The cheapest construction material the building misses and the market has,
/// earlier of wood, stone and iron on equal prices.
pub open spec fn cheapest_material(b: Building, m: Market) -> Option<ResourceType> {
    cheaper(
        b,
        m,
        cheaper(b, m, cheaper(b, m, None, ResourceType::Wood), ResourceType::Stone),
        ResourceType::Iron,
    )
}

pub open spec fn min3(a: int, b: int, c: int) -> int {
    if a <= b && a <= c {
        a
    } else if b <= c {
        b
    } else {
        c
    }
}

/// Units of `r` a builder buys for `b` at `m` in one trip.
pub open spec fn trip_quantity(b: Building, m: Market, r: ResourceType) -> int {
    min3(b.missing(r), trip_cap(r), m.stock(r))
}

/// What a builder already carries for building `id`.
pub open spec fn load_base(c: Option<BuildingResources>, id: u128) -> BuildingResources {
    match c {
        Some(x) => if x.target_building_id == id {
            x
        } else {
            BuildingResources { wood: 0, stone: 0, iron: 0, target_building_id: id }
        },
        None => BuildingResources { wood: 0, stone: 0, iron: 0, target_building_id: id },
    }
}

/// The record a builder carries for building `id` after taking `q` more units of `r`
/// on top of `c`, or on top of nothing where `c` is not for `id`.
pub open spec fn carrying_after(c: Option<BuildingResources>, id: u128, r: ResourceType, q: int) -> BuildingResources {
    let base = load_base(c, id);
    BuildingResources {
        wood: (base.wood + if r is Wood {
            q
        } else {
            0
        }) as u32,
        stone: (base.stone + if r is Stone {
            q
        } else {
            0
        }) as u32,
        iron: (base.iron + if r is Iron {
            q
        } else {
            0
        }) as u32,
        target_building_id: id,
    }
}

/// Whether `a` is free to carry materials for building `id`.
pub open spec fn free_for(a: SimAgent, id: u128) -> bool {
    match a.carrying_resources {
        Some(c) => c.target_building_id == id,
        None => true,
    }
}

/// Whether `a` carries materials for building `id`.
pub open spec fn carries_for(a: SimAgent, id: u128) -> bool {
    match a.carrying_resources {
        Some(c) => c.target_building_id == id,
        None => false,
    }
}

/// One material purchase made for a building.
#[derive(Debug, Clone, Copy, PartialEq, Eq, Structural)]
pub struct Purchase {
    pub resource: ResourceType,
    pub quantity: u32,
    /// Money taken from the building's fund, in mils.
    pub cost: u64,
}

/// `a` and `b` are the same agent but for the materials it carries.
pub open spec fn same_but_load(a: SimAgent, b: SimAgent) -> bool {
    &&& a.id == b.id
    &&& a.name == b.name
    &&& a.position == b.position
    &&& a.age == b.age
    &&& a.state == b.state
    &&& a.job == b.job
    &&& a.social_class == b.social_class
    &&& a.leader_id == b.leader_id
    &&& a.wallet == b.wallet
    &&& a.inventory == b.inventory
    &&& a.needs == b.needs
}

fn material_slot(b: &Building, m: &Market, r: ResourceType, best: Option<ResourceType>, best_price: u64) -> (out: (Option<ResourceType>, u64))
    requires
        b.wf(),
        m.wf(),
        best matches Some(x) ==> m.stocks(x) && best_price == m.price(x),
    ensures
        out.0 == cheaper(*b, *m, best, r),
        out.0 matches Some(x) ==> m.stocks(x) && out.1 == m.price(x),
{
    let i = r.index();
    if b.current_resources[i] >= b.required_resources[i] {
        return (best, best_price);
    }
    match m.find_good(r) {
        None => (best, best_price),
        Some(g) => {
            let good = m.inventory[g];
            if good.quantity == 0 {
                (best, best_price)
            } else {
                match best {
                    None => (Some(r), good.current_price),
                    Some(_) => if good.current_price < best_price {
                        (Some(r), good.current_price)
                    } else {
                        (best, best_price)
                    },
                }
            }
        },
    }
}

/// A builder buys, for building `b` and with `b`'s own fund, one trip's worth of the
/// cheapest material `b` still misses that market `m` has in store. The purchase is
/// all or nothing: it fails if the fund cannot pay for the whole trip. The builder's
/// own wallet is never touched. The money paid leaves circulation, and is burned on
/// the ledger so that the ledger records it.
pub fn purchase_for_building(b: &mut Building, m: &mut Market, builder: &mut SimAgent, currency: &mut CurrencySystem) -> (res:
    Result<Purchase, EconomyError>)
    requires
        old(b).wf(),
        old(m).wf(),
        old(currency).wf(),
    ensures
        final(b).wf(),
        final(m).wf(),
        final(currency).wf(),
        res is Err ==> *final(currency) == *old(currency),
        res is Ok ==> final(currency).total_supply == if old(currency).total_supply >= res.unwrap().cost {
            old(currency).total_supply - res.unwrap().cost
        } else {
            0
        },
        final(builder).wallet == old(builder).wallet,
        same_but_load(*final(builder), *old(builder)),
        !free_for(*old(builder), old(b).id) ==> res == Err::<Purchase, EconomyError>(
            EconomyError::NotFound,
        ),
        free_for(*old(builder), old(b).id) && cheapest_material(*old(b), *old(m)) is None ==> res
            == Err::<Purchase, EconomyError>(EconomyError::InsufficientInventory),
        free_for(*old(builder), old(b).id) && cheapest_material(*old(b), *old(m)) is Some ==> {
            let r = cheapest_material(*old(b), *old(m)).unwrap();
            let q = trip_quantity(*old(b), *old(m), r);
            let cost = q * old(m).price(r);
            let c = carrying_after(old(builder).carrying_resources, old(b).id, r, q);
            if cost > old(b).construction_fund {
                res == Err::<Purchase, EconomyError>(EconomyError::InsufficientFunds)
            } else if carried(load_base(old(builder).carrying_resources, old(b).id), r) + q
                > u32::MAX {
                res == Err::<Purchase, EconomyError>(EconomyError::CapacityExceeded)
            } else {
                &&& res == Ok::<Purchase, EconomyError>(
                    Purchase { resource: r, quantity: q as u32, cost: cost as u64 },
                )
                &&& final(b).construction_fund == old(b).construction_fund - cost
                &&& final(m).stock(r) == old(m).stock(r) - q
                &&& final(builder).carrying_resources == Some(c)
            }
        },
        res is Err ==> *final(b) == *old(b) && *final(m) == *old(m) && *final(builder) == *old(builder),
        res is Ok ==> {
            &&& final(b).id == old(b).id
            &&& final(b).required_resources == old(b).required_resources
            &&& final(b).current_resources == old(b).current_resources
            &&& final(b).construction_progress == old(b).construction_progress
            &&& final(m).buy_orders == old(m).buy_orders
            &&& final(m).sell_orders == old(m).sell_orders
            &&& forall|r: ResourceType|
                r != res.unwrap().resource ==> #[trigger] final(m).stock(r) == old(m).stock(r)
        },
{
    let free = match &builder.carrying_resources {
        Some(c) => c.target_building_id == b.id,
        None => true,
    };
    if !free {
        return Err(EconomyError::NotFound);
    }
    let (best, price) = material_slot(b, m, ResourceType::Wood, None, 0);
    let (best, price) = material_slot(b, m, ResourceType::Stone, best, price);
    let (best, price) = material_slot(b, m, ResourceType::Iron, best, price);
    let r = match best {
        None => {
            return Err(EconomyError::InsufficientInventory);
        },
        Some(r) => r,
    };
    let i = r.index();
    let g = match m.find_good(r) {
        Some(g) => g,
        None => {
            return Err(EconomyError::InsufficientInventory);
        },
    };
    let missing = b.required_resources[i] - b.current_resources[i];
    let cap: u32 = if r == ResourceType::Iron {
        10
    } else {
        20
    };
    let stock = m.inventory[g].quantity;
    let q = if missing <= cap && missing <= stock {
        missing
    } else if cap <= stock {
        cap
    } else {
        stock
    };
    proof {
        m.lemma_stock_at(g as int);
        assert(m.inventory@[g as int].wf());
        assert(price <= 3_000_000_000);
        assert(q <= 20);
        assert(q * price <= 60_000_000_000) by (nonlinear_arith)
            requires
                q <= 20,
                price <= 3_000_000_000,
        ;
    }
    let cost: u64 = (q as u64) * price;
    if cost > b.construction_fund {
        return Err(EconomyError::InsufficientFunds);
    }
    let base = match &builder.carrying_resources {
        Some(c) => *c,
        None => BuildingResources { wood: 0, stone: 0, iron: 0, target_building_id: b.id },
    };
    let held: u32 = match r {
        ResourceType::Wood => base.wood,
        ResourceType::Stone => base.stone,
        _ => base.iron,
    };
    if held > u32::MAX - q {
        return Err(EconomyError::CapacityExceeded);
    }
    let mut load = base;
    match r {
        ResourceType::Wood => {
            load.wood = base.wood + q;
        },
        ResourceType::Stone => {
            load.stone = base.stone + q;
        },
        _ => {
            load.iron = base.iron + q;
        },
    }
    let taken = m.remove_inventory(r, q);
    assert(taken);
    b.construction_fund = b.construction_fund - cost;
    builder.carrying_resources = Some(load);
    currency.burn_currency(cost);
    Ok(Purchase { resource: r, quantity: q, cost })
}

/// A builder carrying materials for building `b` hands them over: `b`'s delivered
/// tallies grow by what was carried and the builder carries nothing afterwards.
pub fn deliver_resources(b: &mut Building, builder: &mut SimAgent) -> (res: Result<u32, EconomyError>)
    requires
        old(b).wf(),
    ensures
        final(b).wf(),
        final(builder).wallet == old(builder).wallet,
        same_but_load(*final(builder), *old(builder)),
        res is Err ==> *final(b) == *old(b) && *final(builder) == *old(builder),
        !carries_for(*old(builder), old(b).id) ==> res == Err::<u32, EconomyError>(
            EconomyError::NotFound,
        ),
        carries_for(*old(builder), old(b).id) ==> {
            let c = old(builder).carrying_resources.unwrap();
            if old(b).delivered(ResourceType::Wood) + c.wood > u32::MAX || old(b).delivered(
                ResourceType::Stone,
            ) + c.stone > u32::MAX || old(b).delivered(ResourceType::Iron) + c.iron > u32::MAX
                || c.wood + c.stone + c.iron > u32::MAX {
                res == Err::<u32, EconomyError>(EconomyError::CapacityExceeded)
            } else {
                &&& res == Ok::<u32, EconomyError>((c.wood + c.stone + c.iron) as u32)
                &&& forall|r: ResourceType| #[trigger] final(b).delivered(r) == old(b).delivered(r) + carried(c, r)
                &&& final(builder).carrying_resources is None
                &&& final(b).construction_fund == old(b).construction_fund
                &&& final(b).required_resources == old(b).required_resources
                &&& final(b).construction_progress == old(b).construction_progress
                &&& final(b).id == old(b).id
            }
        },
{
    let c = match &builder.carrying_resources {
        Some(c) => *c,
        None => {
            return Err(EconomyError::NotFound);
        },
    };
    if c.target_building_id != b.id {
        return Err(EconomyError::NotFound);
    }
    let w = ResourceType::Wood.index();
    let s = ResourceType::Stone.index();
    let i = ResourceType::Iron.index();
    if b.current_resources[w] > u32::MAX - c.wood || b.current_resources[s] > u32::MAX - c.stone
        || b.current_resources[i] > u32::MAX - c.iron || (c.wood as u64) + (c.stone as u64) + (
    c.iron as u64) > u32::MAX as u64 {
        return Err(EconomyError::CapacityExceeded);
    }
    b.add_resources(ResourceType::Wood, c.wood);
    b.add_resources(ResourceType::Stone, c.stone);
    b.add_resources(ResourceType::Iron, c.iron);
    builder.carrying_resources = None;
    proof {
        assert forall|r: ResourceType| #[trigger] b.delivered(r) == old(b).delivered(r) + carried(c, r) by {
            match r {
                ResourceType::Wood => {},
                ResourceType::Stone => {},
                ResourceType::Iron => {},
                _ => {},
            }
        }
    }
    Ok(c.wood + c.stone + c.iron)
}

} // verus!
