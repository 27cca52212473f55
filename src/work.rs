use vstd::prelude::*;

use crate::agent::{AgentState, BuildingResources, EconomyError, Job, SimAgent, SocialClass};
use crate::buildings::{req_total, Building};
use crate::currency::CurrencySystem;
use crate::funds::resource_at;
use crate::ids::fresh_id;
use crate::market::{Market, OrderType, TradeOrder};
use crate::market_system::{default_price, default_price_of};
use crate::resources::{ResourceManager, ResourceNode, ResourceNodeType};
use crate::types::{ResourceType, RESOURCE_KINDS};

verus! {

/// Most units an agent carries, over all resources together.
pub const CARRY_CAPACITY: u32 = 50;

/// The resource a node of type `t` yields.
pub open spec fn yield_of(t: ResourceNodeType) -> ResourceType {
    match t {
        ResourceNodeType::Tree => ResourceType::Wood,
        ResourceNodeType::Rock => ResourceType::Stone,
        ResourceNodeType::Farm => ResourceType::Food,
        ResourceNodeType::IronDeposit => ResourceType::Iron,
    }
}

pub fn node_yield(t: ResourceNodeType) -> (r: ResourceType)
    ensures
        r == yield_of(t),
{
    match t {
        ResourceNodeType::Tree => ResourceType::Wood,
        ResourceNodeType::Rock => ResourceType::Stone,
        ResourceNodeType::Farm => ResourceType::Food,
        ResourceNodeType::IronDeposit => ResourceType::Iron,
    }
}

/// Units an agent holds over all resources.
pub open spec fn load_of(a: SimAgent) -> int {
    req_total(a.inventory@, RESOURCE_KINDS as int)
}

fn held_total(a: &SimAgent) -> (t: u64)
    requires
        a.wf(),
    ensures
        t == load_of(*a),
        t <= RESOURCE_KINDS * (u32::MAX as int),
{
    let mut t: u64 = 0;
    let mut i: usize = 0;
    while i < RESOURCE_KINDS
        invariant
            a.wf(),
            i <= RESOURCE_KINDS,
            t == req_total(a.inventory@, i as int),
            t <= i * (u32::MAX as int),
        decreases RESOURCE_KINDS - i,
    {
        t = t + a.inventory[i] as u64;
        i += 1;
    }
    t
}

/// An agent harvests up to `amount` units from the node at `node` of `resources`,
/// never more than the node holds; what it takes goes into its inventory. Fails,
/// changing nothing, if the agent could not carry `amount` more units.
pub fn harvest_into(resources: &mut ResourceManager, agent: &mut SimAgent, node: usize, amount: u32) -> (res: Result<u32, EconomyError>)
    requires
        old(agent).wf(),
        node < old(resources).nodes@.len(),
    ensures
        final(agent).wf(),
        final(resources).nodes@.len() == old(resources).nodes@.len(),
        load_of(*old(agent)) + amount > CARRY_CAPACITY ==> res == Err::<u32, EconomyError>(EconomyError::CapacityExceeded)
            && *final(agent) == *old(agent) && final(resources).nodes@ == old(resources).nodes@,
        load_of(*old(agent)) + amount <= CARRY_CAPACITY ==> {
            let n = old(resources).nodes@[node as int];
            let h = if amount < n.quantity { amount as int } else { n.quantity as int };
            &&& res == Ok::<u32, EconomyError>(h as u32)
            &&& final(resources).nodes@ == old(resources).nodes@.update(node as int, ResourceNode { quantity: (n.quantity - h) as u32, ..n })
            &&& final(agent).holding(yield_of(n.resource_type)) == old(agent).holding(yield_of(n.resource_type)) + h
            &&& forall|r: ResourceType| r != yield_of(n.resource_type) ==> #[trigger] final(agent).holding(r) == old(agent).holding(r)
            &&& final(agent).wallet == old(agent).wallet
            &&& crate::roster::same_but_purse(*final(agent), *old(agent))
        },
{
    let held = held_total(agent);
    if held + amount as u64 > CARRY_CAPACITY as u64 {
        return Err(EconomyError::CapacityExceeded);
    }
    let mut n = resources.nodes[node];
    let h = if amount < n.quantity { amount } else { n.quantity };
    n.quantity = n.quantity - h;
    resources.nodes.set(node, n);
    let r = node_yield(n.resource_type);
    let i = r.index();
    proof {
        assert(agent.inventory@[i as int] <= load_of(*agent)) by {
            lemma_total_covers(agent.inventory@, RESOURCE_KINDS as int, i as int);
        }
    }
    let q = agent.inventory[i] + h;
    agent.inventory.set(i, q);
    proof {
        assert forall|x: ResourceType| x != r implies #[trigger] agent.holding(x) == old(agent).holding(x) by {
            crate::types::lemma_slot_injective(x, r);
        }
    }
    Ok(h)
}

proof fn lemma_total_covers(s: Seq<u32>, k: int, i: int)
    requires
        0 <= i < k <= s.len(),
    ensures
        s[i] <= req_total(s, k),
    decreases k,
{
    if k - 1 > i {
        lemma_total_covers(s, k - 1, i);
    } else {
        lemma_total_nonneg(s, k - 1);
    }
}

proof fn lemma_total_nonneg(s: Seq<u32>, k: int)
    requires
        0 <= k <= s.len(),
    ensures
        req_total(s, k) >= 0,
    decreases k,
{
    if k > 0 {
        lemma_total_nonneg(s, k - 1);
    }
}

/// What a market pays per unit of `r` bought from a harvester: nine tenths of the
/// default price, the rest being the market's fee.
pub open spec fn buying_price(r: ResourceType) -> int {
    default_price(r) * 9 / 10
}

/// Value, in mils, of the first `k` slots of `inv` at the market's buying prices.
pub open spec fn sale_value(inv: Seq<u32>, k: int) -> int
    decreases k,
{
    if k <= 0 {
        0
    } else {
        sale_value(inv, k - 1) + inv[k - 1] * buying_price(crate::buildings::slot_resource(k - 1))
    }
}

/// A harvester sells everything it holds to market `m`. The market pays nine tenths
/// of each resource's default price; the payment is new money, minted in `currency`.
/// Fails, changing nothing, where the market's store, the agent's wallet or the
/// supply could not take the sale.
pub fn sell_to_market(agent: &mut SimAgent, m: &mut Market, currency: &mut CurrencySystem) -> (res: Result<u64, EconomyError>)
    requires
        old(agent).wf(),
        old(m).wf(),
        old(currency).wf(),
    ensures
        final(currency).wf(),
        final(agent).wf(),
        final(m).wf(),
        res is Err ==> *final(agent) == *old(agent) && *final(m) == *old(m) && *final(currency) == *old(currency),
        res is Ok ==> res.unwrap() == sale_value(old(agent).inventory@, RESOURCE_KINDS as int),
        res is Ok ==> final(agent).wallet == old(agent).wallet + res.unwrap(),
        res is Ok ==> final(currency).total_supply == old(currency).total_supply + res.unwrap(),
        res is Ok ==> forall|r: ResourceType| #[trigger] final(agent).holding(r) == 0,
        res is Ok ==> forall|r: ResourceType| #[trigger] final(m).stock(r) == old(m).stock(r) + old(agent).holding(r),
        res is Ok ==> crate::roster::same_but_purse(*final(agent), *old(agent)),
        res is Ok ==> final(m).buy_orders == old(m).buy_orders && final(m).sell_orders == old(m).sell_orders,
        (forall|r: ResourceType| #[trigger] old(m).stock(r) + old(agent).holding(r) <= u32::MAX)
            && old(agent).wallet + sale_value(old(agent).inventory@, RESOURCE_KINDS as int) <= u64::MAX
            && old(currency).total_supply + sale_value(old(agent).inventory@, RESOURCE_KINDS as int) <= u64::MAX
            ==> res is Ok,
{
    let mut earn: u64 = 0;
    let mut i: usize = 0;
    while i < RESOURCE_KINDS
        invariant
            agent.wf(),
            m.wf(),
            i <= RESOURCE_KINDS,
            *agent == *old(agent),
            *m == *old(m),
            *currency == *old(currency),
            old(currency).wf(),
            earn == sale_value(agent.inventory@, i as int),
            earn <= i * (u32::MAX as int) * 15_000,
            forall|r: ResourceType| r.slot() < i ==> #[trigger] m.stock(r) + agent.holding(r) <= u32::MAX,
        decreases RESOURCE_KINDS - i,
    {
        let r = resource_at(i);
        let q = agent.inventory[i];
        if q > 0 {
            let room = match m.find_good(r) {
                Some(g) => m.inventory[g].quantity <= u32::MAX - q,
                None => true,
            };
            if !room {
                return Err(EconomyError::CapacityExceeded);
            }
        }
        proof {
            if q == 0 {
                if m.stocks(r) {
                    let c = choose|c: int| 0 <= c < m.inventory@.len() && (#[trigger] m.inventory@[c]).resource_type == r;
                    m.lemma_stock_at(c);
                }
            }
            assert forall|x: ResourceType| x.slot() < i + 1 implies #[trigger] m.stock(x) + agent.holding(x) <= u32::MAX by {
                crate::types::lemma_slot_injective(x, r);
            }
            crate::buildings::lemma_slot_resource(i as int);
            crate::types::lemma_slot_injective(r, crate::buildings::slot_resource(i as int));
        }
        let p = default_price_of(r) * 9 / 10;
        assert((q as int) * (p as int) <= (u32::MAX as int) * 15_000) by (nonlinear_arith)
            requires
                q <= u32::MAX,
                p <= 15_000,
                q >= 0,
                p >= 0,
        ;
        earn = earn + (q as u64) * p;
        i += 1;
    }
    if agent.wallet > u64::MAX - earn || currency.total_supply > u64::MAX - earn {
        return Err(EconomyError::CapacityExceeded);
    }
    let mut earned: u64 = 0;
    let mut i: usize = 0;
    while i < RESOURCE_KINDS
        invariant
            agent.wf(),
            m.wf(),
            old(agent).wf(),
            i <= RESOURCE_KINDS,
            earned == sale_value(old(agent).inventory@, i as int),
            earn == sale_value(old(agent).inventory@, RESOURCE_KINDS as int),
            earned <= i * (u32::MAX as int) * 15_000,
            agent.wallet == old(agent).wallet,
            crate::roster::same_but_purse(*agent, *old(agent)),
            forall|k: int| i <= k < RESOURCE_KINDS ==> agent.inventory@[k] == old(agent).inventory@[k],
            forall|r: ResourceType| r.slot() < i ==> #[trigger] agent.holding(r) == 0,
            forall|r: ResourceType| r.slot() < i ==> #[trigger] m.stock(r) == old(m).stock(r) + old(agent).holding(r),
            forall|r: ResourceType| r.slot() >= i ==> #[trigger] m.stock(r) == old(m).stock(r),
            forall|r: ResourceType| #[trigger] old(m).stock(r) + old(agent).holding(r) <= u32::MAX,
            m.buy_orders == old(m).buy_orders,
            m.sell_orders == old(m).sell_orders,
        decreases RESOURCE_KINDS - i,
    {
        let r = resource_at(i);
        let q = agent.inventory[i];
        let p = default_price_of(r);
        let ghost a0 = *agent;
        let ghost m0 = *m;
        proof {
            crate::buildings::lemma_slot_resource(i as int);
            crate::types::lemma_slot_injective(r, crate::buildings::slot_resource(i as int));
            assert(m.stock(r) == old(m).stock(r));
        }
        if q > 0 {
            m.add_inventory(r, q, p);
            agent.inventory.set(i, 0);
        }
        let unit = p * 9 / 10;
        assert((q as int) * (unit as int) <= (u32::MAX as int) * 15_000) by (nonlinear_arith)
            requires
                q <= u32::MAX,
                unit <= 15_000,
                q >= 0,
                unit >= 0,
        ;
        earned = earned + (q as u64) * unit;
        proof {
            assert forall|x: ResourceType| x.slot() < i + 1 implies #[trigger] agent.holding(x) == 0 by {
                crate::types::lemma_slot_injective(x, r);
                if x != r {
                    assert(a0.holding(x) == 0);
                }
            }
            assert forall|x: ResourceType| x.slot() < i + 1 implies #[trigger] m.stock(x) == old(m).stock(x) + old(agent).holding(x) by {
                crate::types::lemma_slot_injective(x, r);
                if x != r {
                    assert(m0.stock(x) == old(m).stock(x) + old(agent).holding(x));
                }
            }
            assert forall|x: ResourceType| x.slot() >= i + 1 implies #[trigger] m.stock(x) == old(m).stock(x) by {
                crate::types::lemma_slot_injective(x, r);
                assert(m0.stock(x) == old(m).stock(x));
            }
        }
        i += 1;
    }
    proof {
        assert forall|x: ResourceType| #[trigger] agent.holding(x) == 0 by {
            assert(x.slot() < RESOURCE_KINDS);
        }
        assert forall|x: ResourceType| #[trigger] m.stock(x) == old(m).stock(x) + old(agent).holding(x) by {
            assert(x.slot() < RESOURCE_KINDS);
        }
    }
    let ghost a1 = *agent;
    agent.wallet = agent.wallet + earned;
    proof {
        assert forall|x: ResourceType| #[trigger] agent.holding(x) == 0 by {
            assert(a1.holding(x) == 0);
        }
    }
    currency.mint_currency(earned);
    Ok(earned)
}

/// A builder waiting for work: idle and carrying nothing.
pub open spec fn idle_builder(a: SimAgent) -> bool {
    a.job is Builder && a.state is Idle && a.carrying_resources is None
}

pub open spec fn unfinished() -> spec_fn(Building) -> bool {
    |b: Building| !b.complete()
}

/// Idle builders among the first `k` agents of `s`.
pub open spec fn idle_before(s: Seq<SimAgent>, k: int) -> int
    decreases k,
{
    if k <= 0 {
        0
    } else {
        idle_before(s, k - 1) + if idle_builder(s[k - 1]) {
            1int
        } else {
            0
        }
    }
}

/// The assignment a builder receives for `site`: head there, carrying nothing yet.
pub open spec fn assigned_to(a: SimAgent, after: SimAgent, site: Building) -> bool {
    &&& after.carrying_resources == Some(
        BuildingResources { wood: 0, stone: 0, iron: 0, target_building_id: site.id },
    )
    &&& after.state == (AgentState::Moving { destination: site.position })
    &&& after.id == a.id
    &&& after.name == a.name
    &&& after.position == a.position
    &&& after.job == a.job
    &&& after.social_class == a.social_class
    &&& after.wallet == a.wallet
    &&& after.inventory == a.inventory
    &&& after.needs == a.needs
    &&& after.age == a.age
    &&& after.leader_id == a.leader_id
}

/// Sends idle builders, in roster order, round-robin to the unfinished buildings, in
/// registry order: each gets the building as its target. Returns how many were sent.
pub fn assign_builders(roster: &mut Vec<SimAgent>, buildings: &Vec<Building>) -> (sent: usize)
    ensures
        final(roster)@.len() == old(roster)@.len(),
        ({
            let sites = buildings@.filter(unfinished());
            forall|k: int| 0 <= k < old(roster)@.len() ==> if idle_builder(old(roster)@[k]) && sites.len() > 0 {
                assigned_to(old(roster)@[k], #[trigger] final(roster)@[k], sites[idle_before(old(roster)@, k) % (sites.len() as int)])
            } else {
                final(roster)@[k] == old(roster)@[k]
            }
        }),
        sent == if buildings@.filter(unfinished()).len() > 0 { idle_before(old(roster)@, old(roster)@.len() as int) } else { 0 },
{
    let mut sites: Vec<usize> = Vec::new();
    let mut j: usize = 0;
    while j < buildings.len()
        invariant
            j <= buildings@.len(),
            sites@.len() == buildings@.subrange(0, j as int).filter(unfinished()).len(),
            forall|t: int| 0 <= t < sites@.len() ==> (#[trigger] sites@[t]) < buildings@.len()
                && buildings@[sites@[t] as int] == buildings@.subrange(0, j as int).filter(unfinished())[t],
        decreases buildings@.len() - j,
    {
        proof {
            let s = buildings@.subrange(0, j as int + 1);
            assert(s.drop_last() == buildings@.subrange(0, j as int));
            reveal(Seq::filter);
        }
        if !buildings[j].is_complete() {
            sites.push(j);
        }
        j += 1;
    }
    proof {
        assert(buildings@.subrange(0, buildings@.len() as int) == buildings@);
    }
    let ghost all = buildings@.filter(unfinished());
    if sites.len() == 0 {
        return 0;
    }
    let mut rank: usize = 0;
    let mut i: usize = 0;
    while i < roster.len()
        invariant
            roster@.len() == old(roster)@.len(),
            i <= roster@.len(),
            sites@.len() == all.len(),
            all == buildings@.filter(unfinished()),
            sites@.len() > 0,
            forall|t: int| 0 <= t < sites@.len() ==> (#[trigger] sites@[t]) < buildings@.len()
                && buildings@[sites@[t] as int] == all[t],
            rank == idle_before(old(roster)@, i as int),
            rank <= i,
            forall|k: int| i <= k < roster@.len() ==> #[trigger] roster@[k] == old(roster)@[k],
            forall|k: int| 0 <= k < i ==> if idle_builder(old(roster)@[k]) {
                assigned_to(old(roster)@[k], #[trigger] roster@[k], all[idle_before(old(roster)@, k) % (all.len() as int)])
            } else {
                roster@[k] == old(roster)@[k]
            },
        decreases roster@.len() - i,
    {
        let idle = roster[i].job == Job::Builder && matches!(roster[i].state, AgentState::Idle)
            && roster[i].carrying_resources.is_none();
        if idle {
            let site = &buildings[sites[rank % sites.len()]];
            roster[i].carrying_resources = Some(
                BuildingResources { wood: 0, stone: 0, iron: 0, target_building_id: site.id },
            );
            roster[i].state = AgentState::Moving { destination: site.position };
            rank = rank + 1;
        }
        i += 1;
    }
    rank
}

/// What an agent asks of the market for resource slot `i`: an order to buy what it
/// lacks of its needs, at twice the default price when it holds none and one and a
/// half times otherwise, if its wallet covers the whole order.
pub open spec fn buy_wish(a: SimAgent, i: int) -> Option<(ResourceType, u32, u64)> {
    let r = crate::buildings::slot_resource(i);
    let need = a.needs@[i] as int;
    let have = a.inventory@[i] as int;
    let price = if have == 0 { default_price(r) * 2 } else { default_price(r) * 3 / 2 };
    if have < need && a.wallet >= price * (need - have) {
        Some((r, (need - have) as u32, price as u64))
    } else {
        None
    }
}

/// What an agent offers for resource slot `i`: everything above twice its need, at
/// the default price, or a fifth above it for merchants and burghers.
pub open spec fn sell_wish(a: SimAgent, i: int) -> Option<(ResourceType, u32, u64)> {
    let r = crate::buildings::slot_resource(i);
    let need = a.needs@[i] as int;
    let have = a.inventory@[i] as int;
    let price = if a.social_class is Merchant || a.social_class is Burgher {
        default_price(r) * 6 / 5
    } else {
        default_price(r)
    };
    if have > 2 * need {
        Some((r, (have - 2 * need) as u32, price as u64))
    } else {
        None
    }
}

/// The wishes of the first `k` slots, in slot order.
pub open spec fn wishes(a: SimAgent, k: int, buy: bool) -> Seq<(ResourceType, u32, u64)>
    decreases k,
{
    if k <= 0 {
        Seq::empty()
    } else {
        let w = if buy { buy_wish(a, k - 1) } else { sell_wish(a, k - 1) };
        match w {
            Some(x) => wishes(a, k - 1, buy).push(x),
            None => wishes(a, k - 1, buy),
        }
    }
}

/// `o` is the order of agent `a` that wish `w` describes.
pub open spec fn order_for(o: TradeOrder, a: SimAgent, w: (ResourceType, u32, u64), kind: OrderType) -> bool {
    &&& o.agent_id == a.id
    &&& o.resource == w.0
    &&& o.quantity == w.1
    &&& o.price_per_unit == w.2
    &&& o.order_type == kind
}

/// `now` is `before` followed by one order of `a` for each wish of `ws`, in order.
pub open spec fn appended(now: Seq<TradeOrder>, before: Seq<TradeOrder>, a: SimAgent, ws: Seq<(ResourceType, u32, u64)>, kind: OrderType) -> bool {
    &&& now.len() == before.len() + ws.len()
    &&& now.subrange(0, before.len() as int) == before
    &&& forall|j: int| 0 <= j < ws.len() ==> order_for(#[trigger] now[before.len() + j], a, ws[j], kind)
}

/// An agent at market `m` places its orders: a buy order for each resource it lacks
/// and can pay for, and a sell order for each resource it holds more than twice its
/// need of. Returns how many orders it placed.
pub fn place_orders(a: &SimAgent, m: &mut Market) -> (placed: usize)
    requires
        a.wf(),
        old(m).wf(),
    ensures
        final(m).wf(),
        final(m).inventory == old(m).inventory,
        final(m).id == old(m).id,
        final(m).transaction_count == old(m).transaction_count,
        appended(final(m).buy_orders@, old(m).buy_orders@, *a, wishes(*a, RESOURCE_KINDS as int, true), OrderType::Buy),
        appended(final(m).sell_orders@, old(m).sell_orders@, *a, wishes(*a, RESOURCE_KINDS as int, false), OrderType::Sell),
        placed == wishes(*a, RESOURCE_KINDS as int, true).len() + wishes(*a, RESOURCE_KINDS as int, false).len(),
{
    let mut placed: usize = 0;
    let mut i: usize = 0;
    proof {
        assert(m.buy_orders@.subrange(0, m.buy_orders@.len() as int) == m.buy_orders@);
        assert(m.sell_orders@.subrange(0, m.sell_orders@.len() as int) == m.sell_orders@);
    }
    while i < RESOURCE_KINDS
        invariant
            a.wf(),
            m.wf(),
            i <= RESOURCE_KINDS,
            m.inventory == old(m).inventory,
            m.id == old(m).id,
            m.transaction_count == old(m).transaction_count,
            appended(m.buy_orders@, old(m).buy_orders@, *a, wishes(*a, i as int, true), OrderType::Buy),
            appended(m.sell_orders@, old(m).sell_orders@, *a, wishes(*a, i as int, false), OrderType::Sell),
            placed == wishes(*a, i as int, true).len() + wishes(*a, i as int, false).len(),
            placed <= 2 * i,
        decreases RESOURCE_KINDS - i,
    {
        let r = resource_at(i);
        proof {
            crate::buildings::lemma_slot_resource(i as int);
            crate::types::lemma_slot_injective(r, crate::buildings::slot_resource(i as int));
        }
        let need = a.needs[i];
        let have = a.inventory[i];
        let base = default_price_of(r);
        let ghost b0 = m.buy_orders@;
        let ghost s0 = m.sell_orders@;
        if have < need {
            let price: u64 = if have == 0 { base * 2 } else { base * 3 / 2 };
            let lack = need - have;
            assert((price as int) * (lack as int) <= 30_000 * (u32::MAX as int)) by (nonlinear_arith)
                requires
                    price <= 30_000,
                    lack <= u32::MAX,
                    price >= 0,
                    lack >= 0,
            ;
            if (a.wallet as u128) >= (price as u128) * (lack as u128) {
                m.place_buy_order(TradeOrder {
                    id: fresh_id(),
                    agent_id: a.id,
                    resource: r,
                    quantity: lack,
                    price_per_unit: price,
                    order_type: OrderType::Buy,
                });
                placed = placed + 1;
            }
        }
        proof {
            let ws = wishes(*a, i as int + 1, true);
            let prev = wishes(*a, i as int, true);
            if buy_wish(*a, i as int) is Some {
                assert(ws == prev.push(buy_wish(*a, i as int).unwrap()));
                assert(m.buy_orders@ == b0.push(m.buy_orders@.last()));
                assert forall|j: int| 0 <= j < ws.len() implies order_for(#[trigger] m.buy_orders@[old(m).buy_orders@.len() + j], *a, ws[j], OrderType::Buy) by {
                    if j < prev.len() {
                        assert(m.buy_orders@[old(m).buy_orders@.len() + j] == b0[old(m).buy_orders@.len() + j]);
                    }
                }
                assert(m.buy_orders@.subrange(0, old(m).buy_orders@.len() as int) == b0.subrange(0, old(m).buy_orders@.len() as int));
            } else {
                assert(ws == prev);
            }
        }
        if have / 2 > need || (have / 2 == need && have % 2 == 1) {
            let price: u64 = if matches!(a.social_class, SocialClass::Merchant | SocialClass::Burgher) {
                base * 6 / 5
            } else {
                base
            };
            m.place_sell_order(TradeOrder {
                id: fresh_id(),
                agent_id: a.id,
                resource: r,
                quantity: have - 2 * need,
                price_per_unit: price,
                order_type: OrderType::Sell,
            });
            placed = placed + 1;
        }
        proof {
            let ws = wishes(*a, i as int + 1, false);
            let prev = wishes(*a, i as int, false);
            if sell_wish(*a, i as int) is Some {
                assert(ws == prev.push(sell_wish(*a, i as int).unwrap()));
                assert(m.sell_orders@ == s0.push(m.sell_orders@.last()));
                assert forall|j: int| 0 <= j < ws.len() implies order_for(#[trigger] m.sell_orders@[old(m).sell_orders@.len() + j], *a, ws[j], OrderType::Sell) by {
                    if j < prev.len() {
                        assert(m.sell_orders@[old(m).sell_orders@.len() + j] == s0[old(m).sell_orders@.len() + j]);
                    }
                }
                assert(m.sell_orders@.subrange(0, old(m).sell_orders@.len() as int) == s0.subrange(0, old(m).sell_orders@.len() as int));
            } else {
                assert(ws == prev);
            }
        }
        i += 1;
    }
    placed
}

} // verus!
