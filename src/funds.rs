use vstd::prelude::*;

use crate::agent::{EconomyError, SimAgent, SocialClass};
use crate::buildings::{Building, BuildingOwner};
use crate::market::MAX_BASE_PRICE;
use crate::market_system::{going_price, MarketSystem};
use crate::roster::{
    find_agent, first_with, has_agent, lemma_sum_update, receiver_fn, receives_taxes, roster_sum, roster_wf,
    same_but_purse, total_wallets, wallet_fn,
};
use crate::types::{ResourceType, RESOURCE_KINDS};

verus! {

/// Cost, in mils, of the first `k` entries of `needs` at `prices`, slot by slot.
pub open spec fn cost_upto(needs: Seq<u32>, prices: Seq<u64>, k: int) -> int
    decreases k,
{
    if k <= 0 {
        0
    } else {
        cost_upto(needs, prices, k - 1) + needs[k - 1] * prices[k - 1]
    }
}

/// Cost, in mils, of buying `needs` at `prices`.
pub open spec fn cost_of(needs: Seq<u32>, prices: Seq<u64>) -> int {
    cost_upto(needs, prices, RESOURCE_KINDS as int)
}

pub open spec fn prices_ok(prices: Seq<u64>) -> bool {
    &&& prices.len() == RESOURCE_KINDS
    &&& forall|i: int| 0 <= i < RESOURCE_KINDS ==> prices[i] <= 3 * MAX_BASE_PRICE
}

/// The resource kept in slot `i` of a per-resource table.
pub fn resource_at(i: usize) -> (r: ResourceType)
    requires
        i < RESOURCE_KINDS,
    ensures
        r.slot() == i,
{
    match i {
        0 => ResourceType::Wood,
        1 => ResourceType::Stone,
        2 => ResourceType::Iron,
        3 => ResourceType::Gold,
        4 => ResourceType::Food,
        5 => ResourceType::Water,
        6 => ResourceType::Cloth,
        7 => ResourceType::Tool,
        8 => ResourceType::Weapon,
        _ => ResourceType::Coin,
    }
}

/// The going price of every resource across all markets, by slot.
pub fn price_table(markets: &MarketSystem) -> (prices: Vec<u64>)
    requires
        markets.wf(),
    ensures
        prices_ok(prices@),
        forall|r: ResourceType| #[trigger] prices@[r.slot() as int] == going_price(markets.markets@, r),
{
    let mut prices: Vec<u64> = Vec::new();
    let mut i: usize = 0;
    while i < RESOURCE_KINDS
        invariant
            markets.wf(),
            i <= RESOURCE_KINDS,
            prices@.len() == i,
            forall|k: int| 0 <= k < i ==> prices@[k] <= 3 * MAX_BASE_PRICE,
            forall|r: ResourceType| r.slot() < i ==> #[trigger] prices@[r.slot() as int] == going_price(markets.markets@, r),
        decreases RESOURCE_KINDS - i,
    {
        let r = resource_at(i);
        let p = markets.get_market_price(r);
        prices.push(p);
        proof {
            assert forall|x: ResourceType| x.slot() < i + 1 implies #[trigger] prices@[x.slot() as int] == going_price(markets.markets@, x) by {
                if x.slot() == i {
                    crate::types::lemma_slot_injective(x, r);
                }
            }
        }
        i += 1;
    }
    prices
}

/// Cost of `needs` at `prices`.
pub fn materials_cost(needs: &Vec<u32>, prices: &Vec<u64>) -> (c: u128)
    requires
        needs@.len() == RESOURCE_KINDS,
        prices_ok(prices@),
    ensures
        c == cost_of(needs@, prices@),
        c <= RESOURCE_KINDS * (u32::MAX as int) * (3 * MAX_BASE_PRICE),
{
    let mut total: u128 = 0;
    let mut i: usize = 0;
    while i < RESOURCE_KINDS
        invariant
            needs@.len() == RESOURCE_KINDS,
            prices_ok(prices@),
            i <= RESOURCE_KINDS,
            total == cost_upto(needs@, prices@, i as int),
            total <= i * (u32::MAX as int) * (3 * MAX_BASE_PRICE),
        decreases RESOURCE_KINDS - i,
    {
        let n = needs[i];
        let p = prices[i];
        assert((n as int) * (p as int) <= (u32::MAX as int) * (3 * MAX_BASE_PRICE)) by (nonlinear_arith)
            requires
                n <= u32::MAX,
                p <= 3 * MAX_BASE_PRICE,
                n >= 0,
                p >= 0,
        ;
        assert(total + (n as int) * (p as int) <= (i + 1) * (u32::MAX as int) * (3 * MAX_BASE_PRICE)) by (nonlinear_arith)
            requires
                total <= i * (u32::MAX as int) * (3 * MAX_BASE_PRICE),
                (n as int) * (p as int) <= (u32::MAX as int) * (3 * MAX_BASE_PRICE),
        ;
        assert((i + 1) * (u32::MAX as int) * (3 * MAX_BASE_PRICE) <= 10 * (u32::MAX as int) * (3 * MAX_BASE_PRICE)) by (nonlinear_arith)
            requires
                i < 10,
        ;
        total = total + (n as u128) * (p as u128);
        i += 1;
    }
    total
}

/// An owner sets money aside for a new building: `multiplier` times the cost of
/// everything it requires at `prices`, moved from the funder's wallet into the
/// building's fund, all or nothing.
pub fn allocate_fund(b: &mut Building, funder: &mut SimAgent, prices: &Vec<u64>, multiplier: u64) -> (res: Result<u64, EconomyError>)
    requires
        old(b).wf(),
        prices_ok(prices@),
    ensures
        final(b).wf(),
        ({
            let amount = multiplier * cost_of(old(b).required_resources@, prices@);
            if amount > u64::MAX || old(b).construction_fund + amount > u64::MAX {
                res == Err::<u64, EconomyError>(EconomyError::CapacityExceeded)
            } else if amount > old(funder).wallet {
                res == Err::<u64, EconomyError>(EconomyError::InsufficientFunds)
            } else {
                &&& res == Ok::<u64, EconomyError>(amount as u64)
                &&& final(funder).wallet == old(funder).wallet - amount
                &&& final(b).construction_fund == old(b).construction_fund + amount
            }
        }),
        res is Err ==> *final(b) == *old(b) && *final(funder) == *old(funder),
        final(funder).wallet + final(b).construction_fund == old(funder).wallet + old(b).construction_fund,
        same_but_purse(*final(funder), *old(funder)),
        final(funder).inventory == old(funder).inventory,
        final(b).id == old(b).id,
        final(b).required_resources == old(b).required_resources,
        final(b).current_resources == old(b).current_resources,
        final(b).construction_progress == old(b).construction_progress,
        final(b).owner == old(b).owner,
        final(b).building_type == old(b).building_type,
        final(b).position == old(b).position,
{
    let cost = materials_cost(&b.required_resources, prices);
    if cost > u64::MAX as u128 && multiplier != 0 {
        assert((multiplier as int) * (cost as int) > u64::MAX) by (nonlinear_arith)
            requires
                cost > u64::MAX,
                multiplier >= 1,
        ;
        return Err(EconomyError::CapacityExceeded);
    }
    let amount: u128 = if multiplier == 0 {
        assert((multiplier as int) * (cost as int) == 0) by (nonlinear_arith)
            requires
                multiplier == 0,
        ;
        0
    } else {
        assert((multiplier as int) * (cost as int) <= (u64::MAX as int) * (u64::MAX as int)) by (nonlinear_arith)
            requires
                multiplier <= u64::MAX,
                cost <= u64::MAX,
                multiplier >= 0,
                cost >= 0,
        ;
        (multiplier as u128) * cost
    };
    if amount > u64::MAX as u128 || (b.construction_fund as u128) + amount > u64::MAX as u128 {
        return Err(EconomyError::CapacityExceeded);
    }
    let amount = amount as u64;
    if amount > funder.wallet {
        return Err(EconomyError::InsufficientFunds);
    }
    funder.wallet = funder.wallet - amount;
    b.construction_fund = b.construction_fund + amount;
    Ok(amount)
}

/// Money held in the construction funds of `bs`, in mils.
pub open spec fn total_funds(bs: Seq<Building>) -> int
    decreases bs.len(),
{
    if bs.len() == 0 {
        0
    } else {
        total_funds(bs.drop_last()) + bs.last().construction_fund
    }
}

pub proof fn lemma_funds_update(bs: Seq<Building>, i: int, b: Building)
    requires
        0 <= i < bs.len(),
    ensures
        total_funds(bs.update(i, b)) == total_funds(bs) - bs[i].construction_fund + b.construction_fund,
    decreases bs.len(),
{
    if i == bs.len() - 1 {
        assert(bs.update(i, b).drop_last() == bs.drop_last());
    } else {
        assert(bs.update(i, b).drop_last() == bs.drop_last().update(i, b));
        lemma_funds_update(bs.drop_last(), i, b);
    }
}

/// The money a building asks its owners for: twice the cost of what it still misses,
/// once its fund has fallen below half that cost; nothing for a complete building.
pub open spec fn top_up(b: Building, prices: Seq<u64>) -> int {
    let cost = cost_of(remaining_of(b), prices);
    if b.complete() || b.construction_fund * 2 >= cost {
        0
    } else {
        2 * cost
    }
}

/// What `b` still misses, by slot.
pub open spec fn remaining_of(b: Building) -> Seq<u32> {
    Seq::new(RESOURCE_KINDS as nat, |i: int| if b.current_resources@[i] < b.required_resources@[i] {
        (b.required_resources@[i] - b.current_resources@[i]) as u32
    } else {
        0u32
    })
}

/// Counts 1 for a king or noble whose wallet holds at least `per`.
pub open spec fn payer_fn(per: int) -> spec_fn(SimAgent) -> int {
    |a: SimAgent| if receives_taxes(a.social_class) && a.wallet >= per { 1int } else { 0 }
}

/// Each king and noble's share of `need` on roster `s`.
pub open spec fn patron_share(s: Seq<SimAgent>, need: int) -> int {
    let n = roster_sum(s, receiver_fn());
    if n == 0 {
        0
    } else {
        need / n
    }
}

proof fn lemma_sum_le(s: Seq<SimAgent>, f: spec_fn(SimAgent) -> int, g: spec_fn(SimAgent) -> int)
    requires
        forall|a: SimAgent| #[trigger] f(a) <= g(a),
    ensures
        roster_sum(s, f) <= roster_sum(s, g),
    decreases s.len(),
{
    if s.len() > 0 {
        lemma_sum_le(s.drop_last(), f, g);
    }
}

/// Kings and nobles each pay an equal share of `need` towards a public building, as
/// far as their wallets allow: those who hold their share pay it, the others nothing.
/// Returns what was collected.
pub fn collect_from_patrons(roster: &mut Vec<SimAgent>, need: u64) -> (funded: u64)
    requires
        roster_wf(old(roster)@),
    ensures
        roster_wf(final(roster)@),
        final(roster)@.len() == old(roster)@.len(),
        funded <= need,
        funded == patron_share(old(roster)@, need as int) * roster_sum(
            old(roster)@,
            payer_fn(patron_share(old(roster)@, need as int)),
        ),
        total_wallets(final(roster)@) + funded == total_wallets(old(roster)@),
        forall|k: int| 0 <= k < old(roster)@.len() ==> same_but_purse(#[trigger] final(roster)@[k], old(roster)@[k])
            && final(roster)@[k].inventory == old(roster)@[k].inventory
            && final(roster)@[k].wallet == old(roster)@[k].wallet - if receives_taxes(old(roster)@[k].social_class)
                && old(roster)@[k].wallet >= patron_share(old(roster)@, need as int) {
                patron_share(old(roster)@, need as int)
            } else {
                0
            },
{
    let mut n: u64 = 0;
    let mut i: usize = 0;
    while i < roster.len()
        invariant
            i <= roster@.len(),
            roster@ == old(roster)@,
            n == roster_sum(roster@.subrange(0, i as int), receiver_fn()),
            n <= i,
        decreases roster@.len() - i,
    {
        proof {
            crate::roster::lemma_sum_prefix(roster@, i as int, receiver_fn());
        }
        if matches!(roster[i].social_class, SocialClass::King | SocialClass::Noble) {
            n = n + 1;
        }
        i += 1;
    }
    proof {
        assert(roster@.subrange(0, roster@.len() as int) == roster@);
    }
    if n == 0 {
        proof {
            let t = roster_sum(old(roster)@, payer_fn(0));
            assert(0 * t == 0) by (nonlinear_arith);
        }
        return 0;
    }
    let per = need / n;
    let ghost payers = payer_fn(per as int);
    proof {
        lemma_sum_le(old(roster)@, payers, receiver_fn());
    }
    let mut funded: u64 = 0;
    let mut paid: u64 = 0;
    let mut i: usize = 0;
    while i < roster.len()
        invariant
            roster_wf(roster@),
            roster@.len() == old(roster)@.len(),
            i <= roster@.len(),
            n > 0,
            n == roster_sum(old(roster)@, receiver_fn()),
            per == need / n,
            payers == payer_fn(per as int),
            roster_sum(old(roster)@, payers) <= n,
            paid == roster_sum(old(roster)@.subrange(0, i as int), payers),
            paid <= n,
            funded == paid * per,
            total_wallets(roster@) + funded == total_wallets(old(roster)@),
            forall|k: int| i <= k < roster@.len() ==> #[trigger] roster@[k] == old(roster)@[k],
            forall|k: int| 0 <= k < i ==> same_but_purse(#[trigger] roster@[k], old(roster)@[k])
                && roster@[k].inventory == old(roster)@[k].inventory
                && roster@[k].wallet == old(roster)@[k].wallet - if receives_taxes(old(roster)@[k].social_class)
                    && old(roster)@[k].wallet >= per {
                    per as int
                } else {
                    0
                },
        decreases roster@.len() - i,
    {
        proof {
            crate::roster::lemma_sum_prefix(old(roster)@, i as int, payers);
            crate::roster::lemma_sum_upto_le(old(roster)@, i as int + 1, payers);
        }
        if matches!(roster[i].social_class, SocialClass::King | SocialClass::Noble) && roster[i].wallet >= per {
            let ghost r0 = roster@;
            proof {
                assert((paid + 1) * per <= n * per) by (nonlinear_arith)
                    requires
                        paid + 1 <= n,
                ;
                assert(n * per <= need) by (nonlinear_arith)
                    requires
                        per == need / n,
                        n > 0,
                ;
                assert(funded + per == (paid + 1) * per) by (nonlinear_arith)
                    requires
                        funded == paid * per,
                ;
            }
            roster[i].wallet = roster[i].wallet - per;
            funded = funded + per;
            paid = paid + 1;
            proof {
                assert(roster@ == r0.update(i as int, roster@[i as int]));
                lemma_sum_update(r0, i as int, roster@[i as int], wallet_fn());
            }
        }
        i += 1;
    }
    proof {
        assert(old(roster)@.subrange(0, old(roster)@.len() as int) == old(roster)@);
        assert(funded == per * paid) by (nonlinear_arith)
            requires
                funded == paid * per,
        ;
        assert(per == patron_share(old(roster)@, need as int));
        assert(funded <= need) by (nonlinear_arith)
            requires
                funded == paid * per,
                paid <= n,
                per == need / n,
                n > 0,
        ;
    }
    funded
}

/// `a` after paying `x` mils.
pub open spec fn debit(a: SimAgent, x: int) -> SimAgent {
    SimAgent { wallet: (a.wallet - x) as u64, ..a }
}

/// Where the first agent of `s` with id `id` stands.
pub open spec fn owner_index(s: Seq<SimAgent>, id: u128) -> int {
    choose|k: int| first_with(s, id, k)
}

/// Whether building `b` is due a top-up of `top_up(b, prices)` that its fund can hold.
pub open spec fn top_up_due(b: Building, prices: Seq<u64>) -> bool {
    let need = top_up(b, prices);
    need > 0 && need <= u64::MAX && b.construction_fund + need <= u64::MAX
}

/// Money one top-up moves into building `b`'s fund from roster `s`: the whole need
/// from an owning agent that can pay it, each patron's share from the kings and
/// nobles that can pay theirs, nothing otherwise.
pub open spec fn top_up_funded(b: Building, s: Seq<SimAgent>, prices: Seq<u64>) -> int {
    let need = top_up(b, prices);
    if !top_up_due(b, prices) {
        0
    } else {
        match b.owner {
            BuildingOwner::Agent(id) => if has_agent(s, id) && s[owner_index(s, id)].wallet >= need {
                need
            } else {
                0
            },
            BuildingOwner::Public => patron_share(s, need) * roster_sum(s, payer_fn(patron_share(s, need))),
            BuildingOwner::Faction(_) => 0,
        }
    }
}

/// Roster `s` after one top-up of building `b`.
pub open spec fn top_up_roster(b: Building, s: Seq<SimAgent>, prices: Seq<u64>) -> Seq<SimAgent> {
    let need = top_up(b, prices);
    if !top_up_due(b, prices) {
        s
    } else {
        match b.owner {
            BuildingOwner::Agent(id) => if has_agent(s, id) && s[owner_index(s, id)].wallet >= need {
                s.update(owner_index(s, id), debit(s[owner_index(s, id)], need))
            } else {
                s
            },
            BuildingOwner::Public => {
                let per = patron_share(s, need);
                Seq::new(s.len(), |k: int| if receives_taxes(s[k].social_class) && s[k].wallet >= per {
                    debit(s[k], per)
                } else {
                    s[k]
                })
            },
            BuildingOwner::Faction(_) => s,
        }
    }
}

/// The roster after the first `k` buildings of `bs` have been topped up in order.
pub open spec fn roster_after(bs: Seq<Building>, s: Seq<SimAgent>, prices: Seq<u64>, k: int) -> Seq<SimAgent>
    decreases k,
{
    if k <= 0 {
        s
    } else {
        top_up_roster(bs[k - 1], roster_after(bs, s, prices, k - 1), prices)
    }
}

/// Tops up one building's fund as `replenish_construction_funds` describes, drawing
/// on `roster`. Returns the money moved into the fund.
pub fn top_up_building(b: &mut Building, roster: &mut Vec<SimAgent>, prices: &Vec<u64>) -> (funded: u64)
    requires
        old(b).wf(),
        roster_wf(old(roster)@),
        prices_ok(prices@),
    ensures
        final(b).wf(),
        roster_wf(final(roster)@),
        final(roster)@.len() == old(roster)@.len(),
        final(b).construction_fund == old(b).construction_fund + funded,
        funded == top_up_funded(*old(b), old(roster)@, prices@),
        final(roster)@ == top_up_roster(*old(b), old(roster)@, prices@),
        total_wallets(final(roster)@) + funded == total_wallets(old(roster)@),
        final(b).id == old(b).id,
        final(b).owner == old(b).owner,
        final(b).required_resources == old(b).required_resources,
        final(b).current_resources == old(b).current_resources,
        final(b).construction_progress == old(b).construction_progress,
        forall|k: int| 0 <= k < old(roster)@.len() ==> same_but_purse(#[trigger] final(roster)@[k], old(roster)@[k])
            && final(roster)@[k].inventory == old(roster)@[k].inventory && final(roster)@[k].wallet <= old(roster)@[k].wallet,
        ({
            let need = top_up(*old(b), prices@);
            if need == 0 || need > u64::MAX || old(b).construction_fund + need > u64::MAX {
                funded == 0 && final(roster)@ == old(roster)@
            } else {
                match old(b).owner {
                    BuildingOwner::Agent(id) => if exists|k: int| first_with(old(roster)@, id, k) && old(roster)@[k].wallet >= need {
                        funded == need
                    } else {
                        funded == 0 && final(roster)@ == old(roster)@
                    },
                    BuildingOwner::Public => funded == patron_share(old(roster)@, need) * roster_sum(
                        old(roster)@,
                        payer_fn(patron_share(old(roster)@, need)),
                    ),
                    BuildingOwner::Faction(_) => funded == 0 && final(roster)@ == old(roster)@,
                }
            }
        }),
{
    let missing = b.remaining_resources();
    proof {
        assert(missing@ == remaining_of(*b)) by {
            assert forall|k: int| 0 <= k < RESOURCE_KINDS implies missing@[k] == remaining_of(*b)[k] by {
                let r = crate::buildings::slot_resource(k);
                crate::buildings::lemma_slot_resource(k);
            }
        }
    }
    let cost = materials_cost(&missing, prices);
    let complete = b.is_complete();
    let fund = b.construction_fund;
    if complete || (fund as u128) * 2 >= cost || cost > (u64::MAX / 2) as u128 {
        assert(!top_up_due(*b, prices@));
        return 0;
    }
    let need = (2 * cost) as u64;
    if fund > u64::MAX - need {
        return 0;
    }
    let ghost r0 = roster@;
    let funded: u64 = match b.owner {
        BuildingOwner::Agent(owner_id) => match find_agent(roster, owner_id) {
            Some(k) => if roster[k].wallet >= need {
                proof {
                    assert forall|j: int| first_with(old(roster)@, owner_id, j) implies j == k by {
                        if j < k {
                            assert(old(roster)@[j].id != owner_id);
                        }
                        if k < j {
                            assert(old(roster)@[k as int].id != owner_id);
                        }
                    }
                    assert(owner_index(old(roster)@, owner_id) == k);
                }
                roster[k].wallet = roster[k].wallet - need;
                proof {
                    assert(roster@[k as int] == debit(r0[k as int], need as int));
                    assert(roster@ == r0.update(k as int, roster@[k as int]));
                    lemma_sum_update(r0, k as int, roster@[k as int], wallet_fn());
                    assert forall|j: int| 0 <= j < old(roster)@.len() implies same_but_purse(#[trigger] roster@[j], old(roster)@[j])
                        && roster@[j].inventory == old(roster)@[j].inventory && roster@[j].wallet <= old(roster)@[j].wallet by {
                        if j != k {
                            assert(roster@[j] == old(roster)@[j]);
                        }
                    }
                }
                need
            } else {
                proof {
                    assert forall|j: int| first_with(old(roster)@, owner_id, j) implies !(old(roster)@[j].wallet >= need) by {
                        if j < k {
                            assert(old(roster)@[j].id != owner_id);
                        }
                        if k < j {
                            assert(old(roster)@[k as int].id != owner_id);
                        }
                    }
                    assert(first_with(old(roster)@, owner_id, owner_index(old(roster)@, owner_id)));
                }
                0
            },
            None => 0,
        },
        BuildingOwner::Public => {
            proof {
                crate::roster::lemma_count_nonneg(old(roster)@);
            }
            let got = collect_from_patrons(roster, need);
            proof {
                let per = patron_share(old(roster)@, need as int);
                assert forall|k: int| 0 <= k < roster@.len() implies roster@[k] == (if receives_taxes(old(roster)@[k].social_class)
                    && old(roster)@[k].wallet >= per {
                    debit(old(roster)@[k], per)
                } else {
                    old(roster)@[k]
                }) by {
                    assert(same_but_purse(roster@[k], old(roster)@[k]));
                }
                assert(roster@ =~= top_up_roster(*old(b), old(roster)@, prices@));
            }
            got
        },
        BuildingOwner::Faction(_) => 0,
    };
    b.construction_fund = fund + funded;
    funded
}

/// Tops up the fund of every incomplete building whose fund has fallen below half
/// the cost, at current prices, of what it still misses, by twice that cost: an
/// owning agent pays it whole if it can; for a public building nobles and kings each
/// pay an equal share if they can. Money only moves from wallets into funds: the
/// total of both is unchanged, no fund shrinks and no wallet grows.
pub fn replenish_construction_funds(buildings: &mut Vec<Building>, roster: &mut Vec<SimAgent>, prices: &Vec<u64>)
    requires
        roster_wf(old(roster)@),
        forall|i: int| 0 <= i < old(buildings)@.len() ==> (#[trigger] old(buildings)@[i]).wf(),
        prices_ok(prices@),
    ensures
        roster_wf(final(roster)@),
        forall|i: int| 0 <= i < final(buildings)@.len() ==> (#[trigger] final(buildings)@[i]).wf(),
        final(roster)@.len() == old(roster)@.len(),
        final(buildings)@.len() == old(buildings)@.len(),
        total_wallets(final(roster)@) + total_funds(final(buildings)@) == total_wallets(old(roster)@) + total_funds(
            old(buildings)@,
        ),
        forall|i: int| 0 <= i < old(buildings)@.len() ==> {
            &&& (#[trigger] final(buildings)@[i]).construction_fund >= old(buildings)@[i].construction_fund
            &&& top_up(old(buildings)@[i], prices@) == 0 ==> final(buildings)@[i].construction_fund
                == old(buildings)@[i].construction_fund
            &&& final(buildings)@[i].id == old(buildings)@[i].id
            &&& final(buildings)@[i].required_resources == old(buildings)@[i].required_resources
            &&& final(buildings)@[i].current_resources == old(buildings)@[i].current_resources
            &&& final(buildings)@[i].construction_progress == old(buildings)@[i].construction_progress
            &&& final(buildings)@[i].owner == old(buildings)@[i].owner
        },
        forall|k: int| 0 <= k < old(roster)@.len() ==> same_but_purse(#[trigger] final(roster)@[k], old(roster)@[k])
            && final(roster)@[k].inventory == old(roster)@[k].inventory && final(roster)@[k].wallet <= old(roster)@[k].wallet,
        final(roster)@ == roster_after(old(buildings)@, old(roster)@, prices@, old(buildings)@.len() as int),
        forall|i: int| 0 <= i < old(buildings)@.len() ==> (#[trigger] final(buildings)@[i]).construction_fund
            == old(buildings)@[i].construction_fund + top_up_funded(
                old(buildings)@[i],
                roster_after(old(buildings)@, old(roster)@, prices@, i),
                prices@,
            ),
{
    let mut i: usize = 0;
    while i < buildings.len()
        invariant
            roster_wf(roster@),
            prices_ok(prices@),
            forall|j: int| 0 <= j < buildings@.len() ==> (#[trigger] buildings@[j]).wf(),
            roster@.len() == old(roster)@.len(),
            buildings@.len() == old(buildings)@.len(),
            i <= buildings@.len(),
            total_wallets(roster@) + total_funds(buildings@) == total_wallets(old(roster)@) + total_funds(old(buildings)@),
            forall|j: int| i <= j < buildings@.len() ==> #[trigger] buildings@[j] == old(buildings)@[j],
            forall|j: int| 0 <= j < i ==> {
                &&& (#[trigger] buildings@[j]).construction_fund >= old(buildings)@[j].construction_fund
                &&& top_up(old(buildings)@[j], prices@) == 0 ==> buildings@[j].construction_fund
                    == old(buildings)@[j].construction_fund
                &&& buildings@[j].id == old(buildings)@[j].id
                &&& buildings@[j].required_resources == old(buildings)@[j].required_resources
                &&& buildings@[j].current_resources == old(buildings)@[j].current_resources
                &&& buildings@[j].construction_progress == old(buildings)@[j].construction_progress
                &&& buildings@[j].owner == old(buildings)@[j].owner
            },
            forall|k: int| 0 <= k < old(roster)@.len() ==> same_but_purse(#[trigger] roster@[k], old(roster)@[k])
                && roster@[k].inventory == old(roster)@[k].inventory && roster@[k].wallet <= old(roster)@[k].wallet,
            roster@ == roster_after(old(buildings)@, old(roster)@, prices@, i as int),
            forall|j: int| 0 <= j < i ==> (#[trigger] buildings@[j]).construction_fund
                == old(buildings)@[j].construction_fund + top_up_funded(
                    old(buildings)@[j],
                    roster_after(old(buildings)@, old(roster)@, prices@, j),
                    prices@,
                ),
        decreases buildings@.len() - i,
    {
        let ghost b0 = buildings@;
        let ghost before = buildings@[i as int];
        let _funded = top_up_building(&mut buildings[i], roster, prices);
        proof {
            assert(buildings@ == b0.update(i as int, buildings@[i as int]));
            lemma_funds_update(b0, i as int, buildings@[i as int]);
            if top_up(old(buildings)@[i as int], prices@) == 0 {
                assert(before == old(buildings)@[i as int]);
            }
        }
        i += 1;
    }
}

} // verus!
