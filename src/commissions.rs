use vstd::prelude::*;

use crate::agent::{Job, SimAgent, SocialClass};
use crate::buildings::{
    building_for_goal, can_order_building, construction_slots, goal_building, may_order,
    requirement, unfinished_count, Building, BuildingOwner, BuildingType, KingdomGoal,
    MAX_CONCURRENT_CONSTRUCTION,
};
use crate::funds::{allocate_fund, cost_of, debit, materials_cost, prices_ok, total_funds};
use crate::roster::{
    lemma_sum_prefix, lemma_sum_update, lemma_sum_upto_le, receiver_fn, receives_taxes,
    roster_sum, roster_wf, same_but_purse, tax_share, total_wallets, wallet_fn,
};
use crate::types::{GridCoord, ResourceType};

verus! {

/// Agent `a` asks for a building of type `o` that its class may order.
pub open spec fn valid_order(a: SimAgent, o: Option<BuildingType>) -> bool {
    o is Some && may_order(a.social_class, o.unwrap())
}

/// Units of each resource, by slot, a building of type `t` requires.
pub open spec fn needs_of(t: BuildingType) -> Seq<u32> {
    Seq::new(10, |i: int| requirement(t, crate::buildings::slot_resource(i)) as u32)
}

/// Money set aside for a new building of type `t`: `multiplier` times its cost.
pub open spec fn fund_for(t: BuildingType, prices: Seq<u64>, multiplier: int) -> int {
    multiplier * cost_of(needs_of(t), prices)
}

/// Buildings that may still be started while at most the allowed number are unfinished.
pub open spec fn construction_room(bs: Seq<Building>) -> int {
    if unfinished_count(bs) >= MAX_CONCURRENT_CONSTRUCTION {
        0
    } else {
        MAX_CONCURRENT_CONSTRUCTION - unfinished_count(bs)
    }
}

/// A tally of zero for every resource.
pub open spec fn nothing_delivered() -> Seq<u32> {
    Seq::new(10, |i: int| 0u32)
}

/// `b` is a fresh building of type `t` at `pos`, owned by `owner`, with its fund set.
pub open spec fn commissioned(
    b: Building,
    t: BuildingType,
    owner: BuildingOwner,
    pos: GridCoord,
    prices: Seq<u64>,
    multiplier: int,
) -> bool {
    &&& b.wf()
    &&& b.building_type == t
    &&& b.owner == owner
    &&& b.position == pos
    &&& b.construction_progress == 0
    &&& b.required_resources@ == needs_of(t)
    &&& b.current_resources@ == nothing_delivered()
    &&& b.construction_fund == fund_for(t, prices, multiplier)
}

proof fn lemma_push_counts(bs: Seq<Building>, b: Building)
    requires
        !b.complete(),
    ensures
        unfinished_count(bs.push(b)) == unfinished_count(bs) + 1,
        total_funds(bs.push(b)) == total_funds(bs) + b.construction_fund,
{
    assert(bs.push(b).drop_last() == bs);
}

/// A new building of type `t` at `pos` for `owner`, its requirements spelled out.
fn new_site(t: BuildingType, pos: GridCoord, owner: BuildingOwner) -> (b: Building)
    ensures
        b.wf(),
        b.building_type == t,
        b.owner == owner,
        b.position == pos,
        b.construction_progress == 0,
        b.construction_fund == 0,
        b.required_resources@ == needs_of(t),
        b.current_resources@ == nothing_delivered(),
{
    let b = Building::new(t, pos, String::from_str("commission"), owner);
    proof {
        assert(b.required_resources@ =~= needs_of(t)) by {
            assert forall|j: int| 0 <= j < 10 implies b.required_resources@[j] == needs_of(t)[j] by {
                crate::buildings::lemma_slot_resource(j);
                assert(b.required(crate::buildings::slot_resource(j)) == requirement(t, crate::buildings::slot_resource(j)));
            }
        }
        assert(b.current_resources@ =~= nothing_delivered()) by {
            assert forall|j: int| 0 <= j < 10 implies b.current_resources@[j] == nothing_delivered()[j] by {
                crate::buildings::lemma_slot_resource(j);
                assert(b.delivered(crate::buildings::slot_resource(j)) == 0);
            }
        }
    }
    b
}

// ----- buildings owned and funded by the ordering agent -----

/// Orders carried out among the first `k` agents, each agent owning and funding
/// its own building, with `room` construction slots free at the start.
pub open spec fn owned_placed(
    s: Seq<SimAgent>,
    orders: Seq<Option<BuildingType>>,
    prices: Seq<u64>,
    multiplier: int,
    room: int,
    k: int,
) -> int
    decreases k,
{
    if k <= 0 {
        0
    } else {
        let p = owned_placed(s, orders, prices, multiplier, room, k - 1);
        p + if owned_places_at(s, orders, prices, multiplier, room, k - 1, p) {
            1int
        } else {
            0
        }
    }
}

/// The order of agent `k` is carried out, `p` orders having been carried out before:
/// it is valid, a slot is free and the agent's wallet covers the fund.
pub open spec fn owned_places_at(
    s: Seq<SimAgent>,
    orders: Seq<Option<BuildingType>>,
    prices: Seq<u64>,
    multiplier: int,
    room: int,
    k: int,
    p: int,
) -> bool {
    &&& valid_order(s[k], orders[k])
    &&& p < room
    &&& fund_for(orders[k].unwrap(), prices, multiplier) <= s[k].wallet
}

pub open spec fn owned_places(
    s: Seq<SimAgent>,
    orders: Seq<Option<BuildingType>>,
    prices: Seq<u64>,
    multiplier: int,
    room: int,
    k: int,
) -> bool {
    owned_places_at(s, orders, prices, multiplier, room, k, owned_placed(s, orders, prices, multiplier, room, k))
}

proof fn lemma_owned_mono(
    s: Seq<SimAgent>,
    orders: Seq<Option<BuildingType>>,
    prices: Seq<u64>,
    multiplier: int,
    room: int,
    j: int,
    k: int,
)
    requires
        0 <= j <= k,
    ensures
        owned_placed(s, orders, prices, multiplier, room, j) <= owned_placed(s, orders, prices, multiplier, room, k),
        j < k && owned_places(s, orders, prices, multiplier, room, j) ==> owned_placed(s, orders, prices, multiplier, room, j)
            < owned_placed(s, orders, prices, multiplier, room, k),
    decreases k,
{
    if j < k {
        lemma_owned_mono(s, orders, prices, multiplier, room, j, k - 1);
    }
}

// ----- public buildings funded by all kings and nobles -----

/// Every king and noble of `s` holds its share of `amount`.
pub open spec fn pool_ok(s: Seq<SimAgent>, amount: int) -> bool {
    &&& roster_sum(s, receiver_fn()) > 0
    &&& forall|k: int| 0 <= k < s.len() && receives_taxes(s[k].social_class) ==> #[trigger] s[k].wallet >= tax_share(s, k, amount)
}

/// `s` after its kings and nobles have each paid their share of `amount`.
pub open spec fn pooled(s: Seq<SimAgent>, amount: int) -> Seq<SimAgent> {
    Seq::new(s.len(), |k: int| if receives_taxes(s[k].social_class) {
        debit(s[k], tax_share(s, k, amount))
    } else {
        s[k]
    })
}

/// The roster, and how many orders were carried out, after the first `k` agents'
/// orders for public buildings.
pub open spec fn public_state(
    s: Seq<SimAgent>,
    orders: Seq<Option<BuildingType>>,
    prices: Seq<u64>,
    multiplier: int,
    room: int,
    k: int,
) -> (Seq<SimAgent>, int)
    decreases k,
{
    if k <= 0 {
        (s, 0)
    } else {
        let st = public_state(s, orders, prices, multiplier, room, k - 1);
        if public_places_at(orders, prices, multiplier, room, k - 1, st.0, st.1) {
            (pooled(st.0, fund_for(orders[k - 1].unwrap(), prices, multiplier)), st.1 + 1)
        } else {
            st
        }
    }
}

/// The public order of agent `k` is carried out on roster `r`, `p` orders having
/// been carried out before: a slot is free and the kings and nobles can pool the fund.
pub open spec fn public_places_at(
    orders: Seq<Option<BuildingType>>,
    prices: Seq<u64>,
    multiplier: int,
    room: int,
    k: int,
    r: Seq<SimAgent>,
    p: int,
) -> bool {
    &&& orders[k] is Some
    &&& p < room
    &&& fund_for(orders[k].unwrap(), prices, multiplier) <= u64::MAX
    &&& pool_ok(r, fund_for(orders[k].unwrap(), prices, multiplier))
}

pub open spec fn public_places(
    s: Seq<SimAgent>,
    orders: Seq<Option<BuildingType>>,
    prices: Seq<u64>,
    multiplier: int,
    room: int,
    k: int,
) -> bool {
    let st = public_state(s, orders, prices, multiplier, room, k);
    public_places_at(orders, prices, multiplier, room, k, st.0, st.1)
}

/// Pooling changes nothing about the agents but the kings' and nobles' wallets.
proof fn lemma_pooled_frame(s: Seq<SimAgent>, amount: int)
    requires
        roster_wf(s),
    ensures
        pooled(s, amount).len() == s.len(),
        roster_wf(pooled(s, amount)),
        forall|k: int| 0 <= k < s.len() ==> same_but_purse(#[trigger] pooled(s, amount)[k], s[k])
            && pooled(s, amount)[k].inventory == s[k].inventory,
        forall|k: int| 0 <= k < s.len() ==> #[trigger] receiver_fn()(pooled(s, amount)[k]) == receiver_fn()(s[k]),
{
}

proof fn lemma_public_frame(
    s: Seq<SimAgent>,
    orders: Seq<Option<BuildingType>>,
    prices: Seq<u64>,
    multiplier: int,
    room: int,
    k: int,
)
    requires
        roster_wf(s),
        k >= 0,
    ensures
        public_state(s, orders, prices, multiplier, room, k).0.len() == s.len(),
        roster_wf(public_state(s, orders, prices, multiplier, room, k).0),
        public_state(s, orders, prices, multiplier, room, k).1 >= 0,
        forall|j: int| 0 <= j < s.len() ==> same_but_purse(#[trigger] public_state(s, orders, prices, multiplier, room, k).0[j], s[j])
            && public_state(s, orders, prices, multiplier, room, k).0[j].inventory == s[j].inventory,
    decreases k,
{
    if k > 0 {
        lemma_public_frame(s, orders, prices, multiplier, room, k - 1);
        let st = public_state(s, orders, prices, multiplier, room, k - 1);
        lemma_pooled_frame(st.0, fund_for(orders[k - 1].unwrap(), prices, multiplier));
        assert forall|j: int| 0 <= j < s.len() implies same_but_purse(#[trigger] public_state(s, orders, prices, multiplier, room, k).0[j], s[j])
            && public_state(s, orders, prices, multiplier, room, k).0[j].inventory == s[j].inventory by {
            assert(same_but_purse(st.0[j], s[j]));
        }
    }
}

/// The kings and nobles of `roster` pay `amount` between them, all or nothing: an
/// equal share each, the first of them also what does not divide evenly. Returns
/// whether they could.
pub fn pool_from_patrons(roster: &mut Vec<SimAgent>, amount: u64) -> (ok: bool)
    requires
        roster_wf(old(roster)@),
    ensures
        roster_wf(final(roster)@),
        ok == pool_ok(old(roster)@, amount as int),
        ok ==> final(roster)@ == pooled(old(roster)@, amount as int),
        !ok ==> final(roster)@ == old(roster)@,
        total_wallets(final(roster)@) + (if ok { amount as int } else { 0 }) == total_wallets(old(roster)@),
{
    let n = roster.len();
    let mut count: u64 = 0;
    let mut i: usize = 0;
    while i < n
        invariant
            n == roster@.len(),
            roster@ == old(roster)@,
            roster_wf(roster@),
            i <= n,
            count == roster_sum(roster@.subrange(0, i as int), receiver_fn()),
            count <= i,
        decreases n - i,
    {
        proof {
            lemma_sum_prefix(roster@, i as int, receiver_fn());
        }
        if matches!(roster[i].social_class, SocialClass::King | SocialClass::Noble) {
            count = count + 1;
        }
        i += 1;
    }
    proof {
        assert(roster@.subrange(0, n as int) == roster@);
    }
    if count == 0 {
        return false;
    }
    let per = amount / count;
    let rem = amount % count;
    assert(per * count + rem == amount && per + rem <= amount) by (nonlinear_arith)
        requires
            per == amount / count,
            rem == amount % count,
            count > 0,
    ;
    // can everyone pay?
    let mut seen: u64 = 0;
    let mut i: usize = 0;
    while i < n
        invariant
            n == roster@.len(),
            roster@ == old(roster)@,
            i <= n,
            count > 0,
            count == roster_sum(roster@, receiver_fn()),
            per == amount / count,
            rem == amount % count,
            seen == roster_sum(roster@.subrange(0, i as int), receiver_fn()),
            seen <= count,
            roster_wf(roster@),
            per + rem <= amount,
            forall|j: int| 0 <= j < i && receives_taxes(roster@[j].social_class) ==> #[trigger] roster@[j].wallet
                >= tax_share(roster@, j, amount as int),
        decreases n - i,
    {
        proof {
            lemma_sum_prefix(roster@, i as int, receiver_fn());
            lemma_sum_upto_le(roster@, i as int + 1, receiver_fn());
        }
        if matches!(roster[i].social_class, SocialClass::King | SocialClass::Noble) {
            let share = if seen == 0 { per + rem } else { per };
            if roster[i].wallet < share {
                proof {
                    assert(share == tax_share(roster@, i as int, amount as int));
                }
                return false;
            }
            seen = seen + 1;
        }
        i += 1;
    }
    // everyone pays
    let mut paid: u64 = 0;
    let mut given: u64 = 0;
    let mut i: usize = 0;
    while i < n
        invariant
            n == roster@.len(),
            n == old(roster)@.len(),
            roster_wf(roster@),
            pool_ok(old(roster)@, amount as int),
            i <= n,
            count > 0,
            count == roster_sum(old(roster)@, receiver_fn()),
            per == amount / count,
            rem == amount % count,
            per * count + rem == amount,
            per + rem <= amount,
            paid == roster_sum(old(roster)@.subrange(0, i as int), receiver_fn()),
            paid <= count,
            given == paid * per + if paid > 0 { rem as int } else { 0 },
            total_wallets(roster@) + given == total_wallets(old(roster)@),
            forall|k: int| i <= k < n ==> #[trigger] roster@[k] == old(roster)@[k],
            forall|k: int| 0 <= k < i ==> #[trigger] roster@[k] == pooled(old(roster)@, amount as int)[k],
        decreases n - i,
    {
        proof {
            lemma_sum_prefix(old(roster)@, i as int, receiver_fn());
            lemma_sum_upto_le(old(roster)@, i as int + 1, receiver_fn());
        }
        let ghost r_before = roster@;
        if matches!(roster[i].social_class, SocialClass::King | SocialClass::Noble) {
            let share = if paid == 0 { per + rem } else { per };
            proof {
                assert(share == tax_share(old(roster)@, i as int, amount as int));
                assert(given + share == (paid + 1) * per + rem) by (nonlinear_arith)
                    requires
                        given == paid * per + if paid > 0 { rem as int } else { 0 },
                        share == if paid == 0 { per + rem } else { per as int },
                ;
                assert((paid + 1) * per + rem <= amount) by (nonlinear_arith)
                    requires
                        paid + 1 <= count,
                        per * count + rem == amount,
                        per >= 0,
                ;
            }
            let ghost r0 = roster@;
            roster[i].wallet = roster[i].wallet - share;
            given = given + share;
            paid = paid + 1;
            proof {
                assert(roster@ == r0.update(i as int, roster@[i as int]));
                lemma_sum_update(r0, i as int, roster@[i as int], wallet_fn());
            }
        }
        proof {
            assert forall|k: int| 0 <= k < i + 1 implies #[trigger] roster@[k] == pooled(old(roster)@, amount as int)[k] by {
                if k < i {
                    assert(roster@[k] == r_before[k]);
                }
            }
        }
        i += 1;
    }
    proof {
        assert(old(roster)@.subrange(0, n as int) == old(roster)@);
        assert(given == amount) by (nonlinear_arith)
            requires
                given == paid * per + if paid > 0 { rem as int } else { 0 },
                paid == count,
                count > 0,
                per * count + rem == amount,
        ;
        assert(roster@ =~= pooled(old(roster)@, amount as int));
    }
    true
}

/// Agents place the building orders `orders` (one per agent, in roster order), each
/// for a building it owns and funds itself. Every order that its agent's class may
/// place and whose fund (`multiplier` times the building's cost at `prices`) the
/// agent's wallet covers is carried out, in roster order, while fewer than the most
/// allowed buildings are unfinished: the building is appended and the fund moves from
/// the agent's wallet into it. Returns how many buildings were added.
pub fn order_buildings(
    buildings: &mut Vec<Building>,
    roster: &mut Vec<SimAgent>,
    prices: &Vec<u64>,
    multiplier: u64,
    orders: &Vec<Option<BuildingType>>,
) -> (created: usize)
    requires
        roster_wf(old(roster)@),
        forall|j: int| 0 <= j < old(buildings)@.len() ==> (#[trigger] old(buildings)@[j]).wf(),
        prices_ok(prices@),
        orders@.len() == old(roster)@.len(),
    ensures
        roster_wf(final(roster)@),
        forall|j: int| 0 <= j < final(buildings)@.len() ==> (#[trigger] final(buildings)@[j]).wf(),
        final(roster)@.len() == old(roster)@.len(),
        final(buildings)@.len() == old(buildings)@.len() + created,
        final(buildings)@.subrange(0, old(buildings)@.len() as int) == old(buildings)@,
        total_wallets(final(roster)@) + total_funds(final(buildings)@) == total_wallets(old(roster)@) + total_funds(old(buildings)@),
        created == owned_placed(old(roster)@, orders@, prices@, multiplier as int, construction_room(old(buildings)@), old(roster)@.len() as int),
        created <= construction_room(old(buildings)@),
        unfinished_count(final(buildings)@) == unfinished_count(old(buildings)@) + created,
        forall|k: int| 0 <= k < old(roster)@.len() ==> #[trigger] final(roster)@[k] == if owned_places(old(roster)@, orders@, prices@, multiplier as int, construction_room(old(buildings)@), k) {
            debit(old(roster)@[k], fund_for(orders@[k].unwrap(), prices@, multiplier as int))
        } else {
            old(roster)@[k]
        },
        forall|k: int| 0 <= k < old(roster)@.len() && #[trigger] owned_places(old(roster)@, orders@, prices@, multiplier as int, construction_room(old(buildings)@), k)
            ==> commissioned(
                final(buildings)@[old(buildings)@.len() + owned_placed(old(roster)@, orders@, prices@, multiplier as int, construction_room(old(buildings)@), k)],
                orders@[k].unwrap(),
                BuildingOwner::Agent(old(roster)@[k].id),
                old(roster)@[k].position,
                prices@,
                multiplier as int,
            ),
{
    let ghost room = construction_room(old(buildings)@);
    let ghost s0 = old(roster)@;
    let ghost n0 = old(buildings)@.len();
    let mut slots = construction_slots(buildings);
    let mut created: usize = 0;
    let mut i: usize = 0;
    while i < roster.len()
        invariant
            roster_wf(roster@),
            forall|j: int| 0 <= j < buildings@.len() ==> (#[trigger] buildings@[j]).wf(),
            prices_ok(prices@),
            orders@.len() == s0.len(),
            s0 == old(roster)@,
            n0 == old(buildings)@.len(),
            room == construction_room(old(buildings)@),
            roster@.len() == s0.len(),
            i <= roster@.len(),
            created == owned_placed(s0, orders@, prices@, multiplier as int, room, i as int),
            created <= room,
            created <= i,
            slots == room - created,
            buildings@.len() == n0 + created,
            buildings@.subrange(0, n0 as int) == old(buildings)@,
            unfinished_count(buildings@) == unfinished_count(old(buildings)@) + created,
            total_wallets(roster@) + total_funds(buildings@) == total_wallets(s0) + total_funds(old(buildings)@),
            forall|k: int| i <= k < roster@.len() ==> #[trigger] roster@[k] == s0[k],
            forall|k: int| 0 <= k < i ==> #[trigger] roster@[k] == if owned_places(s0, orders@, prices@, multiplier as int, room, k) {
                debit(s0[k], fund_for(orders@[k].unwrap(), prices@, multiplier as int))
            } else {
                s0[k]
            },
            forall|k: int| 0 <= k < i && #[trigger] owned_places(s0, orders@, prices@, multiplier as int, room, k) ==> commissioned(
                buildings@[n0 + owned_placed(s0, orders@, prices@, multiplier as int, room, k)],
                orders@[k].unwrap(),
                BuildingOwner::Agent(s0[k].id),
                s0[k].position,
                prices@,
                multiplier as int,
            ),
        decreases roster@.len() - i,
    {
        let ghost r_before = roster@;
        let ghost b_before = buildings@;
        let ghost p_before = created;
        let mut done = false;
        if slots > 0 {
            match orders[i] {
                None => {},
                Some(t) => {
                    if can_order_building(roster[i].social_class, t) {
                        let mut b = new_site(t, roster[i].position, BuildingOwner::Agent(roster[i].id));
                        let ghost r0 = roster@;
                        let ghost a0 = roster@[i as int];
                        match allocate_fund(&mut b, &mut roster[i], prices, multiplier) {
                            Ok(_) => {
                                let ghost bs0 = buildings@;
                                buildings.push(b);
                                created = created + 1;
                                slots = slots - 1;
                                done = true;
                                proof {
                                    assert(roster@ == r0.update(i as int, roster@[i as int]));
                                    lemma_sum_update(r0, i as int, roster@[i as int], wallet_fn());
                                    assert(roster@[i as int] == debit(a0, fund_for(t, prices@, multiplier as int)));
                                    lemma_push_counts(bs0, b);
                                    assert(buildings@.subrange(0, n0 as int) == bs0.subrange(0, n0 as int));
                                    assert(buildings@[bs0.len() as int] == b);
                                    assert(bs0 == b_before);
                                    assert(buildings@ == b_before.push(b));
                                    assert(a0 == s0[i as int]);
                                    assert(commissioned(b, t, BuildingOwner::Agent(s0[i as int].id), s0[i as int].position, prices@, multiplier as int));
                                }
                            },
                            Err(_) => {
                                proof {
                                    assert(roster@[i as int] == a0);
                                    assert(roster@ =~= r0);
                                }
                            },
                        }
                    }
                },
            }
        }
        proof {
            assert(buildings@.len() >= b_before.len());
            assert(forall|x: int| 0 <= x < b_before.len() ==> buildings@[x] == b_before[x]);
            let p = owned_placed(s0, orders@, prices@, multiplier as int, room, i as int);
            assert(p == p_before);
            assert(done == owned_places_at(s0, orders@, prices@, multiplier as int, room, i as int, p));
            assert forall|k: int| 0 <= k < i + 1 implies #[trigger] roster@[k] == if owned_places(s0, orders@, prices@, multiplier as int, room, k) {
                debit(s0[k], fund_for(orders@[k].unwrap(), prices@, multiplier as int))
            } else {
                s0[k]
            } by {
                if k < i {
                    assert(roster@[k] == r_before[k]);
                }
            }
            assert forall|k: int| 0 <= k < i + 1 && #[trigger] owned_places(s0, orders@, prices@, multiplier as int, room, k) implies commissioned(
                buildings@[n0 + owned_placed(s0, orders@, prices@, multiplier as int, room, k)],
                orders@[k].unwrap(),
                BuildingOwner::Agent(s0[k].id),
                s0[k].position,
                prices@,
                multiplier as int,
            ) by {
                if k < i {
                    lemma_owned_mono(s0, orders@, prices@, multiplier as int, room, k, i as int);
                    lemma_owned_mono(s0, orders@, prices@, multiplier as int, room, 0, k);
                    assert(owned_placed(s0, orders@, prices@, multiplier as int, room, k) < p);
                    assert(b_before.len() == n0 + p);
                    assert(buildings@[n0 + owned_placed(s0, orders@, prices@, multiplier as int, room, k)] == b_before[n0 + owned_placed(s0, orders@, prices@, multiplier as int, room, k)]);
                }
            }
        }
        i += 1;
    }
    created
}

proof fn lemma_public_mono(
    s: Seq<SimAgent>,
    orders: Seq<Option<BuildingType>>,
    prices: Seq<u64>,
    multiplier: int,
    room: int,
    j: int,
    k: int,
)
    requires
        0 <= j <= k,
    ensures
        0 <= public_state(s, orders, prices, multiplier, room, j).1 <= public_state(s, orders, prices, multiplier, room, k).1,
        j < k && public_places(s, orders, prices, multiplier, room, j) ==> public_state(s, orders, prices, multiplier, room, j).1
            < public_state(s, orders, prices, multiplier, room, k).1,
    decreases k,
{
    lemma_public_nonneg(s, orders, prices, multiplier, room, j);
    if j < k {
        lemma_public_mono(s, orders, prices, multiplier, room, j, k - 1);
    }
}

proof fn lemma_public_nonneg(
    s: Seq<SimAgent>,
    orders: Seq<Option<BuildingType>>,
    prices: Seq<u64>,
    multiplier: int,
    room: int,
    k: int,
)
    ensures
        public_state(s, orders, prices, multiplier, room, k).1 >= 0,
    decreases k,
{
    if k > 0 {
        lemma_public_nonneg(s, orders, prices, multiplier, room, k - 1);
    }
}

/// Orders for public works: the order `orders[k]` placed by agent `k` (in roster
/// order) is carried out while fewer than the most allowed buildings are unfinished,
/// where the kings and nobles can pool its fund (`multiplier` times the building's
/// cost at `prices`) between them: the public building is appended at the agent's
/// position and each king and noble pays its share into the fund. Returns how many
/// buildings were added.
pub fn public_orders(
    buildings: &mut Vec<Building>,
    roster: &mut Vec<SimAgent>,
    prices: &Vec<u64>,
    multiplier: u64,
    orders: &Vec<Option<BuildingType>>,
) -> (created: usize)
    requires
        roster_wf(old(roster)@),
        forall|j: int| 0 <= j < old(buildings)@.len() ==> (#[trigger] old(buildings)@[j]).wf(),
        prices_ok(prices@),
        orders@.len() == old(roster)@.len(),
    ensures
        roster_wf(final(roster)@),
        forall|j: int| 0 <= j < final(buildings)@.len() ==> (#[trigger] final(buildings)@[j]).wf(),
        final(buildings)@.len() == old(buildings)@.len() + created,
        final(buildings)@.subrange(0, old(buildings)@.len() as int) == old(buildings)@,
        total_wallets(final(roster)@) + total_funds(final(buildings)@) == total_wallets(old(roster)@) + total_funds(old(buildings)@),
        final(roster)@ == public_state(old(roster)@, orders@, prices@, multiplier as int, construction_room(old(buildings)@), old(roster)@.len() as int).0,
        created == public_state(old(roster)@, orders@, prices@, multiplier as int, construction_room(old(buildings)@), old(roster)@.len() as int).1,
        created <= construction_room(old(buildings)@),
        unfinished_count(final(buildings)@) == unfinished_count(old(buildings)@) + created,
        forall|k: int| 0 <= k < old(roster)@.len() && #[trigger] public_places(old(roster)@, orders@, prices@, multiplier as int, construction_room(old(buildings)@), k)
            ==> commissioned(
                final(buildings)@[old(buildings)@.len() + public_state(old(roster)@, orders@, prices@, multiplier as int, construction_room(old(buildings)@), k).1],
                orders@[k].unwrap(),
                BuildingOwner::Public,
                old(roster)@[k].position,
                prices@,
                multiplier as int,
            ),
{
    let ghost room = construction_room(old(buildings)@);
    let ghost s0 = old(roster)@;
    let ghost n0 = old(buildings)@.len();
    let mut slots = construction_slots(buildings);
    let mut created: usize = 0;
    let mut i: usize = 0;
    while i < roster.len()
        invariant
            roster_wf(roster@),
            roster_wf(s0),
            forall|j: int| 0 <= j < buildings@.len() ==> (#[trigger] buildings@[j]).wf(),
            prices_ok(prices@),
            orders@.len() == s0.len(),
            s0 == old(roster)@,
            n0 == old(buildings)@.len(),
            room == construction_room(old(buildings)@),
            roster@.len() == s0.len(),
            i <= roster@.len(),
            roster@ == public_state(s0, orders@, prices@, multiplier as int, room, i as int).0,
            created == public_state(s0, orders@, prices@, multiplier as int, room, i as int).1,
            created <= room,
            created <= i,
            slots == room - created,
            buildings@.len() == n0 + created,
            buildings@.subrange(0, n0 as int) == old(buildings)@,
            unfinished_count(buildings@) == unfinished_count(old(buildings)@) + created,
            total_wallets(roster@) + total_funds(buildings@) == total_wallets(s0) + total_funds(old(buildings)@),
            forall|k: int| 0 <= k < i && #[trigger] public_places(s0, orders@, prices@, multiplier as int, room, k) ==> commissioned(
                buildings@[n0 + public_state(s0, orders@, prices@, multiplier as int, room, k).1],
                orders@[k].unwrap(),
                BuildingOwner::Public,
                s0[k].position,
                prices@,
                multiplier as int,
            ),
        decreases roster@.len() - i,
    {
        let ghost b_before = buildings@;
        let ghost p_before = created;
        let ghost r_before = roster@;
        proof {
            lemma_public_frame(s0, orders@, prices@, multiplier as int, room, i as int);
            assert(same_but_purse(roster@[i as int], s0[i as int]));
        }
        let mut done = false;
        if slots > 0 {
            match orders[i] {
                None => {},
                Some(t) => {
                    let mut b = new_site(t, roster[i].position, BuildingOwner::Public);
                    let cost = materials_cost(&b.required_resources, prices);
                    let amount: u128 = if multiplier == 0 {
                        assert((multiplier as int) * (cost as int) == 0) by (nonlinear_arith)
                            requires
                                multiplier == 0,
                        ;
                        0
                    } else if cost > u64::MAX as u128 {
                        assert((multiplier as int) * (cost as int) > u64::MAX) by (nonlinear_arith)
                            requires
                                cost > u64::MAX,
                                multiplier >= 1,
                        ;
                        u64::MAX as u128 + 1
                    } else {
                        assert((multiplier as int) * (cost as int) <= (u64::MAX as int) * (u64::MAX as int)) by (nonlinear_arith)
                            requires
                                multiplier <= u64::MAX,
                                cost <= u64::MAX,
                                multiplier >= 0,
                                cost >= 0,
                        ;
                        (multiplier as u128) * cost
                    };
                    proof {
                        assert(amount > u64::MAX <==> fund_for(t, prices@, multiplier as int) > u64::MAX);
                        assert(amount <= u64::MAX ==> amount == fund_for(t, prices@, multiplier as int));
                    }
                    if amount <= u64::MAX as u128 {
                        let ghost r0 = roster@;
                        if pool_from_patrons(roster, amount as u64) {
                            b.construction_fund = amount as u64;
                            let ghost bs0 = buildings@;
                            buildings.push(b);
                            created = created + 1;
                            slots = slots - 1;
                            done = true;
                            proof {
                                lemma_push_counts(bs0, b);
                                assert(buildings@.subrange(0, n0 as int) == bs0.subrange(0, n0 as int));
                                assert(buildings@[bs0.len() as int] == b);
                                assert(bs0 == b_before);
                                assert(buildings@ == b_before.push(b));
                                assert(commissioned(b, t, BuildingOwner::Public, s0[i as int].position, prices@, multiplier as int));
                            }
                        }
                    }
                },
            }
        }
        proof {
            let st = public_state(s0, orders@, prices@, multiplier as int, room, i as int);
            assert(st.1 == p_before);
            assert(st.0 == r_before);
            assert(done == public_places_at(orders@, prices@, multiplier as int, room, i as int, st.0, st.1));
            lemma_public_frame(s0, orders@, prices@, multiplier as int, room, i as int + 1);
            assert(buildings@.len() >= b_before.len());
            assert(forall|x: int| 0 <= x < b_before.len() ==> buildings@[x] == b_before[x]);
            assert forall|k: int| 0 <= k < i + 1 && #[trigger] public_places(s0, orders@, prices@, multiplier as int, room, k) implies commissioned(
                buildings@[n0 + public_state(s0, orders@, prices@, multiplier as int, room, k).1],
                orders@[k].unwrap(),
                BuildingOwner::Public,
                s0[k].position,
                prices@,
                multiplier as int,
            ) by {
                if k < i {
                    lemma_public_mono(s0, orders@, prices@, multiplier as int, room, k, i as int);
                    let x = n0 + public_state(s0, orders@, prices@, multiplier as int, room, k).1;
                    assert(0 <= x < b_before.len());
                    assert(buildings@[x] == b_before[x]);
                }
            }
        }
        i += 1;
    }
    created
}

/// The orders nobles place under `goal` with draws `rolls`, one per agent: a noble
/// orders when its first draw is a multiple of twenty (one chance in twenty), of
/// the type its second draw picks for the goal.
pub open spec fn noble_wishes(s: Seq<SimAgent>, rolls: Seq<(u32, u32)>, goal: KingdomGoal) -> Seq<Option<BuildingType>> {
    Seq::new(s.len(), |k: int| if s[k].social_class == SocialClass::Noble && rolls[k].0 % 20 == 0 {
        goal_building(goal, rolls[k].1 as int)
    } else {
        None
    })
}

/// Nobles order public works towards their kingdom's goal, as `noble_wishes` picks
/// them; each order is carried out as `public_orders` describes, funded by all kings
/// and nobles together.
pub fn noble_orders(
    buildings: &mut Vec<Building>,
    roster: &mut Vec<SimAgent>,
    prices: &Vec<u64>,
    goal: KingdomGoal,
    multiplier: u64,
    rolls: &Vec<(u32, u32)>,
) -> (created: usize)
    requires
        roster_wf(old(roster)@),
        forall|j: int| 0 <= j < old(buildings)@.len() ==> (#[trigger] old(buildings)@[j]).wf(),
        prices_ok(prices@),
        rolls@.len() == old(roster)@.len(),
    ensures
        roster_wf(final(roster)@),
        forall|j: int| 0 <= j < final(buildings)@.len() ==> (#[trigger] final(buildings)@[j]).wf(),
        final(buildings)@.len() == old(buildings)@.len() + created,
        final(buildings)@.subrange(0, old(buildings)@.len() as int) == old(buildings)@,
        total_wallets(final(roster)@) + total_funds(final(buildings)@) == total_wallets(old(roster)@) + total_funds(old(buildings)@),
        final(roster)@ == public_state(old(roster)@, noble_wishes(old(roster)@, rolls@, goal), prices@, multiplier as int, construction_room(old(buildings)@), old(roster)@.len() as int).0,
        created == public_state(old(roster)@, noble_wishes(old(roster)@, rolls@, goal), prices@, multiplier as int, construction_room(old(buildings)@), old(roster)@.len() as int).1,
        created <= construction_room(old(buildings)@),
        unfinished_count(final(buildings)@) == unfinished_count(old(buildings)@) + created,
        forall|k: int| 0 <= k < old(roster)@.len() && #[trigger] public_places(old(roster)@, noble_wishes(old(roster)@, rolls@, goal), prices@, multiplier as int, construction_room(old(buildings)@), k)
            ==> commissioned(
                final(buildings)@[old(buildings)@.len() + public_state(old(roster)@, noble_wishes(old(roster)@, rolls@, goal), prices@, multiplier as int, construction_room(old(buildings)@), k).1],
                noble_wishes(old(roster)@, rolls@, goal)[k].unwrap(),
                BuildingOwner::Public,
                old(roster)@[k].position,
                prices@,
                multiplier as int,
            ),
{
    let mut orders: Vec<Option<BuildingType>> = Vec::new();
    let mut i: usize = 0;
    while i < roster.len()
        invariant
            i <= roster@.len(),
            rolls@.len() == roster@.len(),
            orders@.len() == i,
            forall|k: int| 0 <= k < i ==> #[trigger] orders@[k] == noble_wishes(roster@, rolls@, goal)[k],
        decreases roster@.len() - i,
    {
        let (chance, kind) = rolls[i];
        if roster[i].social_class == SocialClass::Noble && chance % 20 == 0 {
            orders.push(building_for_goal(goal, kind));
        } else {
            orders.push(None);
        }
        i += 1;
    }
    proof {
        assert(orders@ =~= noble_wishes(old(roster)@, rolls@, goal));
    }
    public_orders(buildings, roster, prices, multiplier, &orders)
}

/// Squared distance within which a peasant sees a house as its own.
pub const HOUSE_NEIGHBOURHOOD: u128 = 900;

/// Squared distance within which a farmer sees a shed as its own.
pub const SHED_NEIGHBOURHOOD: u128 = 400;

/// A building of type `t` stands closer than squared distance `radius2` to `pos`.
pub open spec fn stands_near(bs: Seq<Building>, t: BuildingType, pos: GridCoord, radius2: int) -> bool {
    exists|j: int| 0 <= j < bs.len() && (#[trigger] bs[j]).building_type == t
        && crate::resources::dist2(bs[j].position, pos) < radius2
}

fn near(bs: &Vec<Building>, t: BuildingType, pos: GridCoord, radius2: u128) -> (r: bool)
    ensures
        r == stands_near(bs@, t, pos, radius2 as int),
{
    let mut j: usize = 0;
    while j < bs.len()
        invariant
            j <= bs@.len(),
            forall|k: int| 0 <= k < j ==> !((#[trigger] bs@[k]).building_type == t
                && crate::resources::dist2(bs@[k].position, pos) < radius2),
        decreases bs@.len() - j,
    {
        if bs[j].building_type == t && crate::resources::distance_squared(bs[j].position, pos) < radius2 {
            return true;
        }
        j += 1;
    }
    false
}

/// The building a peasant wants on buildings `bs`: a house where none stands within
/// distance 30, else, for a farmer, a shed where none stands within distance 20.
pub open spec fn peasant_wish(bs: Seq<Building>, a: SimAgent) -> Option<BuildingType> {
    if !stands_near(bs, BuildingType::PeasantHouse, a.position, HOUSE_NEIGHBOURHOOD as int) {
        Some(BuildingType::PeasantHouse)
    } else if a.job == Job::Farmer && !stands_near(bs, BuildingType::FarmingShed, a.position, SHED_NEIGHBOURHOOD as int) {
        Some(BuildingType::FarmingShed)
    } else {
        None
    }
}

/// The orders peasants place with draws `rolls` on buildings `bs`, one per agent: a
/// peasant orders when its draw is a multiple of ten (one chance in ten).
pub open spec fn peasant_wishes(bs: Seq<Building>, s: Seq<SimAgent>, rolls: Seq<u32>) -> Seq<Option<BuildingType>> {
    Seq::new(s.len(), |k: int| if s[k].social_class == SocialClass::Peasant && rolls[k] % 10 == 0 {
        peasant_wish(bs, s[k])
    } else {
        None
    })
}

/// Peasants build for themselves, as `peasant_wishes` picks it on the buildings
/// standing before any order; each order is carried out as `order_buildings`
/// describes, the peasant owning the building and paying its fund from its wallet.
pub fn peasant_orders(
    buildings: &mut Vec<Building>,
    roster: &mut Vec<SimAgent>,
    prices: &Vec<u64>,
    multiplier: u64,
    rolls: &Vec<u32>,
) -> (created: usize)
    requires
        roster_wf(old(roster)@),
        forall|j: int| 0 <= j < old(buildings)@.len() ==> (#[trigger] old(buildings)@[j]).wf(),
        prices_ok(prices@),
        rolls@.len() == old(roster)@.len(),
    ensures
        roster_wf(final(roster)@),
        forall|j: int| 0 <= j < final(buildings)@.len() ==> (#[trigger] final(buildings)@[j]).wf(),
        final(roster)@.len() == old(roster)@.len(),
        final(buildings)@.len() == old(buildings)@.len() + created,
        final(buildings)@.subrange(0, old(buildings)@.len() as int) == old(buildings)@,
        total_wallets(final(roster)@) + total_funds(final(buildings)@) == total_wallets(old(roster)@) + total_funds(old(buildings)@),
        created == owned_placed(old(roster)@, peasant_wishes(old(buildings)@, old(roster)@, rolls@), prices@, multiplier as int, construction_room(old(buildings)@), old(roster)@.len() as int),
        created <= construction_room(old(buildings)@),
        unfinished_count(final(buildings)@) == unfinished_count(old(buildings)@) + created,
        forall|k: int| 0 <= k < old(roster)@.len() ==> #[trigger] final(roster)@[k] == if owned_places(old(roster)@, peasant_wishes(old(buildings)@, old(roster)@, rolls@), prices@, multiplier as int, construction_room(old(buildings)@), k) {
            debit(old(roster)@[k], fund_for(peasant_wishes(old(buildings)@, old(roster)@, rolls@)[k].unwrap(), prices@, multiplier as int))
        } else {
            old(roster)@[k]
        },
        forall|k: int| 0 <= k < old(roster)@.len() && #[trigger] owned_places(old(roster)@, peasant_wishes(old(buildings)@, old(roster)@, rolls@), prices@, multiplier as int, construction_room(old(buildings)@), k)
            ==> commissioned(
                final(buildings)@[old(buildings)@.len() + owned_placed(old(roster)@, peasant_wishes(old(buildings)@, old(roster)@, rolls@), prices@, multiplier as int, construction_room(old(buildings)@), k)],
                peasant_wishes(old(buildings)@, old(roster)@, rolls@)[k].unwrap(),
                BuildingOwner::Agent(old(roster)@[k].id),
                old(roster)@[k].position,
                prices@,
                multiplier as int,
            ),
{
    let mut orders: Vec<Option<BuildingType>> = Vec::new();
    let mut i: usize = 0;
    while i < roster.len()
        invariant
            i <= roster@.len(),
            rolls@.len() == roster@.len(),
            roster@ == old(roster)@,
            buildings@ == old(buildings)@,
            orders@.len() == i,
            forall|k: int| 0 <= k < i ==> #[trigger] orders@[k] == peasant_wishes(buildings@, roster@, rolls@)[k],
        decreases roster@.len() - i,
    {
        if roster[i].social_class == SocialClass::Peasant && rolls[i] % 10 == 0 {
            let pos = roster[i].position;
            if !near(buildings, BuildingType::PeasantHouse, pos, HOUSE_NEIGHBOURHOOD) {
                orders.push(Some(BuildingType::PeasantHouse));
            } else if roster[i].job == Job::Farmer && !near(buildings, BuildingType::FarmingShed, pos, SHED_NEIGHBOURHOOD) {
                orders.push(Some(BuildingType::FarmingShed));
            } else {
                orders.push(None);
            }
        } else {
            orders.push(None);
        }
        i += 1;
    }
    proof {
        assert(orders@ =~= peasant_wishes(old(buildings)@, old(roster)@, rolls@));
    }
    order_buildings(buildings, roster, prices, multiplier, &orders)
}

} // verus!
