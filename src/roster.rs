use vstd::prelude::*;

use crate::agent::{wage, wage_for, EconomyError, SimAgent, SocialClass};
use crate::currency::CurrencySystem;
use crate::market::TradeExecution;
use crate::types::{ResourceType, MILS_PER_COIN};

verus! {

/// Sum of `f` over the agents of `s`.
pub open spec fn roster_sum(s: Seq<SimAgent>, f: spec_fn(SimAgent) -> int) -> int
    decreases s.len(),
{
    if s.len() == 0 {
        0
    } else {
        roster_sum(s.drop_last(), f) + f(s.last())
    }
}

pub open spec fn wallet_fn() -> spec_fn(SimAgent) -> int {
    |a: SimAgent| a.wallet as int
}

pub open spec fn holding_fn(r: ResourceType) -> spec_fn(SimAgent) -> int {
    |a: SimAgent| a.holding(r)
}

pub open spec fn wage_fn() -> spec_fn(SimAgent) -> int {
    |a: SimAgent| wage(a.job, a.social_class)
}

/// Money held by all agents of `s`, in mils.
pub open spec fn total_wallets(s: Seq<SimAgent>) -> int {
    roster_sum(s, wallet_fn())
}

/// Units of `r` held by all agents of `s`.
pub open spec fn total_holding(s: Seq<SimAgent>, r: ResourceType) -> int {
    roster_sum(s, holding_fn(r))
}

/// Wages owed to all agents of `s` for one pay period.
pub open spec fn total_wages(s: Seq<SimAgent>) -> int {
    roster_sum(s, wage_fn())
}

pub open spec fn roster_wf(s: Seq<SimAgent>) -> bool {
    forall|i: int| 0 <= i < s.len() ==> (#[trigger] s[i]).wf()
}

/// `a` and `b` agree on everything but money and goods held.
pub open spec fn same_but_purse(a: SimAgent, b: SimAgent) -> bool {
    &&& a.id == b.id
    &&& a.name == b.name
    &&& a.position == b.position
    &&& a.age == b.age
    &&& a.state == b.state
    &&& a.job == b.job
    &&& a.social_class == b.social_class
    &&& a.leader_id == b.leader_id
    &&& a.needs == b.needs
    &&& a.carrying_resources == b.carrying_resources
    &&& a.inventory@.len() == b.inventory@.len()
}

pub proof fn lemma_sum_update(s: Seq<SimAgent>, i: int, a: SimAgent, f: spec_fn(SimAgent) -> int)
    requires
        0 <= i < s.len(),
    ensures
        roster_sum(s.update(i, a), f) == roster_sum(s, f) - f(s[i]) + f(a),
    decreases s.len(),
{
    if i == s.len() - 1 {
        assert(s.update(i, a).drop_last() == s.drop_last());
    } else {
        assert(s.update(i, a).drop_last() == s.drop_last().update(i, a));
        lemma_sum_update(s.drop_last(), i, a, f);
    }
}

pub proof fn lemma_sum_prefix(s: Seq<SimAgent>, i: int, f: spec_fn(SimAgent) -> int)
    requires
        0 <= i < s.len(),
    ensures
        roster_sum(s.subrange(0, i + 1), f) == roster_sum(s.subrange(0, i), f) + f(s[i]),
{
    assert(s.subrange(0, i + 1).drop_last() == s.subrange(0, i));
}

/// `i` is the first agent of `s` with id `id`.
pub open spec fn first_with(s: Seq<SimAgent>, id: u128, i: int) -> bool {
    &&& 0 <= i < s.len()
    &&& s[i].id == id
    &&& forall|k: int| 0 <= k < i ==> (#[trigger] s[k]).id != id
}

pub open spec fn has_agent(s: Seq<SimAgent>, id: u128) -> bool {
    exists|i: int| 0 <= i < s.len() && (#[trigger] s[i]).id == id
}

/// The first agent of `roster` with id `id`.
pub fn find_agent(roster: &Vec<SimAgent>, id: u128) -> (r: Option<usize>)
    ensures
        match r {
            Some(i) => first_with(roster@, id, i as int),
            None => !has_agent(roster@, id),
        },
{
    let mut i: usize = 0;
    while i < roster.len()
        invariant
            i <= roster@.len(),
            forall|k: int| 0 <= k < i ==> (#[trigger] roster@[k]).id != id,
        decreases roster@.len() - i,
    {
        if roster[i].id == id {
            return Some(i);
        }
        i += 1;
    }
    None
}

/// What settling `t` between the agents at `b` (buyer) and `s` (seller) comes to.
pub open spec fn settle_check(
    roster: Seq<SimAgent>,
    b: int,
    s: int,
    t: TradeExecution,
) -> Result<(), EconomyError> {
    let buyer = roster[b];
    let seller = roster[s];
    if b == s {
        Ok(())
    } else if buyer.wallet < t.value() {
        Err(EconomyError::InsufficientFunds)
    } else if seller.holding(t.resource) < t.quantity {
        Err(EconomyError::InsufficientInventory)
    } else if seller.wallet + t.value() > u64::MAX || buyer.holding(t.resource) + t.quantity
        > u32::MAX {
        Err(EconomyError::CapacityExceeded)
    } else {
        Ok(())
    }
}

/// Settles a trade between two agents of the roster: the buyer pays the trade's value
/// to the seller, and the seller hands the traded units to the buyer, all or nothing.
/// A settled trade changes neither the money nor the goods the roster holds in total.
pub fn settle_trade(roster: &mut Vec<SimAgent>, trade: &TradeExecution) -> (r: Result<
    (),
    EconomyError,
>)
    requires
        roster_wf(old(roster)@),
    ensures
        roster_wf(final(roster)@),
        final(roster)@.len() == old(roster)@.len(),
        (r == Err::<(), EconomyError>(EconomyError::NotFound)) == (!has_agent(
            old(roster)@,
            trade.buyer_id,
        ) || !has_agent(old(roster)@, trade.seller_id)),
        forall|b: int, s: int|
            first_with(old(roster)@, trade.buyer_id, b) && first_with(
                old(roster)@,
                trade.seller_id,
                s,
            ) ==> r == settle_check(old(roster)@, b, s, *trade),
        r is Err ==> final(roster)@ == old(roster)@,
        r is Ok ==> total_wallets(final(roster)@) == total_wallets(old(roster)@),
        r is Ok ==> forall|res: ResourceType|
            #[trigger] total_holding(final(roster)@, res) == total_holding(old(roster)@, res),
        forall|b: int, s: int|
            first_with(old(roster)@, trade.buyer_id, b) && first_with(
                old(roster)@,
                trade.seller_id,
                s,
            ) && b != s && r is Ok ==> {
                &&& final(roster)@[b].wallet == old(roster)@[b].wallet - trade.value()
                &&& final(roster)@[s].wallet == old(roster)@[s].wallet + trade.value()
                &&& final(roster)@[b].holding(trade.resource) == old(roster)@[b].holding(
                    trade.resource,
                ) + trade.quantity
                &&& final(roster)@[s].holding(trade.resource) == old(roster)@[s].holding(
                    trade.resource,
                ) - trade.quantity
                &&& forall|res: ResourceType|
                    res != trade.resource ==> final(roster)@[b].holding(res) == old(roster)@[b].holding(res) && final(roster)@[s].holding(res) == old(roster)@[s].holding(res)
                &&& same_but_purse(final(roster)@[b], old(roster)@[b])
                &&& same_but_purse(final(roster)@[s], old(roster)@[s])
                &&& forall|k: int|
                    0 <= k < old(roster)@.len() && k != b && k != s ==> #[trigger] final(roster)@[k] == old(roster)@[k]
            },
{
    let b = match find_agent(roster, trade.buyer_id) {
        Some(b) => b,
        None => {
            return Err(EconomyError::NotFound);
        },
    };
    let s = match find_agent(roster, trade.seller_id) {
        Some(s) => s,
        None => {
            return Err(EconomyError::NotFound);
        },
    };
    proof {
        assert forall|b2: int, s2: int|
            first_with(old(roster)@, trade.buyer_id, b2) && first_with(
                old(roster)@,
                trade.seller_id,
                s2,
            ) implies b2 == b && s2 == s by {
            if b2 < b {
                assert(roster@[b2].id != trade.buyer_id);
            }
            if b < b2 {
                assert(roster@[b as int].id != trade.buyer_id);
            }
            if s2 < s {
                assert(roster@[s2].id != trade.seller_id);
            }
            if s < s2 {
                assert(roster@[s as int].id != trade.seller_id);
            }
        }
    }
    if b == s {
        proof {
            assert forall|res: ResourceType| #[trigger]
                total_holding(roster@, res) == total_holding(old(roster)@, res) by {}
        }
        return Ok(());
    }
    assert((trade.quantity as u128) * (trade.price_per_unit as u128) <= 4_294_967_295u128
        * 18_446_744_073_709_551_615u128) by (nonlinear_arith)
        requires
            trade.quantity <= 4_294_967_295u32,
            trade.price_per_unit <= 18_446_744_073_709_551_615u64,
    ;
    let value: u128 = (trade.quantity as u128) * (trade.price_per_unit as u128);
    let slot = trade.resource.index();
    if (roster[b].wallet as u128) < value {
        return Err(EconomyError::InsufficientFunds);
    }
    if roster[s].inventory[slot] < trade.quantity {
        return Err(EconomyError::InsufficientInventory);
    }
    if (roster[s].wallet as u128) + value > u64::MAX as u128 || (roster[b].inventory[slot] as u64)
        + (trade.quantity as u64) > u32::MAX as u64 {
        return Err(EconomyError::CapacityExceeded);
    }
    let ghost r0 = roster@;
    let value = value as u64;
    let nb = roster[b].inventory[slot] + trade.quantity;
    let ns = roster[s].inventory[slot] - trade.quantity;
    roster[b].wallet = roster[b].wallet - value;
    roster[b].inventory.set(slot, nb);
    let ghost r1 = roster@;
    roster[s].wallet = roster[s].wallet + value;
    roster[s].inventory.set(slot, ns);
    proof {
        assert(r1 == r0.update(b as int, r1[b as int]));
        assert(roster@ == r1.update(s as int, roster@[s as int]));
        let fw = wallet_fn();
        lemma_sum_update(r0, b as int, r1[b as int], fw);
        lemma_sum_update(r1, s as int, roster@[s as int], fw);
        assert forall|res: ResourceType| #[trigger]
            total_holding(roster@, res) == total_holding(old(roster)@, res) by {
            let fh = holding_fn(res);
            lemma_sum_update(r0, b as int, r1[b as int], fh);
            lemma_sum_update(r1, s as int, roster@[s as int], fh);
        }
        assert forall|res: ResourceType| res != trade.resource implies roster@[b as int].holding(
            res,
        ) == old(roster)@[b as int].holding(res) && roster@[s as int].holding(res) == old(roster)@[s as int].holding(res) by {
            crate::types::lemma_slot_injective(res, trade.resource);
        }
    }
    Ok(())
}

/// Pays every agent its wage for one pay period, minting each payment. An agent
/// whose wallet, or a ledger whose supply, cannot take the payment is skipped. Money
/// the roster gains is exactly the money minted.
pub fn pay_wages(roster: &mut Vec<SimAgent>, currency: &mut CurrencySystem)
    requires
        roster_wf(old(roster)@),
        old(currency).wf(),
    ensures
        final(currency).wf(),
        roster_wf(final(roster)@),
        final(roster)@.len() == old(roster)@.len(),
        total_wallets(final(roster)@) - total_wallets(old(roster)@) == final(currency).total_supply
            - old(currency).total_supply,
        forall|i: int|
            0 <= i < old(roster)@.len() ==> same_but_purse(#[trigger] final(roster)@[i], old(roster)@[i])
                && final(roster)@[i].inventory == old(roster)@[i].inventory && (final(roster)@[i].wallet
                == old(roster)@[i].wallet || final(roster)@[i].wallet == old(roster)@[i].wallet
                + wage(old(roster)@[i].job, old(roster)@[i].social_class)),
        old(currency).total_supply + total_wages(old(roster)@) <= u64::MAX && (forall|i: int|
            0 <= i < old(roster)@.len() ==> (#[trigger] old(roster)@[i]).wallet + wage(
                old(roster)@[i].job,
                old(roster)@[i].social_class,
            ) <= u64::MAX) ==> forall|i: int|
            0 <= i < old(roster)@.len() ==> #[trigger] final(roster)@[i].wallet == old(roster)@[i].wallet
                + wage(old(roster)@[i].job, old(roster)@[i].social_class),
{
    let mut i: usize = 0;
    while i < roster.len()
        invariant
            currency.wf(),
            roster_wf(roster@),
            i <= roster@.len(),
            roster@.len() == old(roster)@.len(),
            forall|k: int| i <= k < roster@.len() ==> #[trigger] roster@[k] == old(roster)@[k],
            forall|k: int|
                0 <= k < i ==> same_but_purse(#[trigger] roster@[k], old(roster)@[k])
                    && roster@[k].inventory == old(roster)@[k].inventory && (roster@[k].wallet
                    == old(roster)@[k].wallet || roster@[k].wallet == old(roster)@[k].wallet + wage(
                    old(roster)@[k].job,
                    old(roster)@[k].social_class,
                )),
            total_wallets(roster@) - total_wallets(old(roster)@) == currency.total_supply - old(currency).total_supply,
            currency.total_supply - old(currency).total_supply <= roster_sum(
                old(roster)@.subrange(0, i as int),
                wage_fn(),
            ),
            currency.total_supply >= old(currency).total_supply,
            old(currency).total_supply + total_wages(old(roster)@) <= u64::MAX && (forall|k: int|
                0 <= k < old(roster)@.len() ==> (#[trigger] old(roster)@[k]).wallet + wage(
                    old(roster)@[k].job,
                    old(roster)@[k].social_class,
                ) <= u64::MAX) ==> (currency.total_supply - old(currency).total_supply
                == roster_sum(old(roster)@.subrange(0, i as int), wage_fn()) && forall|k: int|
                0 <= k < i ==> #[trigger] roster@[k].wallet == old(roster)@[k].wallet + wage(
                    old(roster)@[k].job,
                    old(roster)@[k].social_class,
                )),
        decreases roster@.len() - i,
    {
        let w = wage_for(roster[i].job, roster[i].social_class);
        proof {
            lemma_sum_prefix(old(roster)@, i as int, wage_fn());
            lemma_sum_bounds(old(roster)@, i as int);
        }
        if w > 0 && roster[i].wallet <= u64::MAX - w && currency.total_supply <= u64::MAX - w {
            let ghost r0 = roster@;
            roster[i].wallet = roster[i].wallet + w;
            currency.mint_currency(w);
            proof {
                assert(roster@ == r0.update(i as int, roster@[i as int]));
                lemma_sum_update(r0, i as int, roster@[i as int], wallet_fn());
            }
        }
        i += 1;
    }
    proof {
        assert(old(roster)@.subrange(0, old(roster)@.len() as int) == old(roster)@);
    }
}

/// Prefix sums of wages are bounded by the whole.
proof fn lemma_sum_bounds(s: Seq<SimAgent>, i: int)
    requires
        0 <= i < s.len(),
    ensures
        roster_sum(s.subrange(0, i + 1), wage_fn()) <= total_wages(s),
    decreases s.len() - i,
{
    let f = wage_fn();
    lemma_sum_prefix(s, i, f);
    if i + 1 < s.len() {
        lemma_sum_bounds(s, i + 1);
        lemma_sum_prefix(s, i + 1, f);
    } else {
        assert(s.subrange(0, i + 1) == s);
    }
}

/// Wallets at or below this many mils are not taxed.
pub const TAX_FLOOR: u64 = 50 * MILS_PER_COIN;

/// Classes that pay taxes.
pub open spec fn taxable(c: SocialClass) -> bool {
    c is Peasant || c is Burgher || c is Merchant || c is Cleric || c is Soldier
}

/// Classes that receive taxes, to fund public works.
pub open spec fn receives_taxes(c: SocialClass) -> bool {
    c is King || c is Noble
}

/// Tax owed by `a`: a twentieth of its wallet, if its class is taxed and its wallet
/// is above the floor.
pub open spec fn tax_of(a: SimAgent) -> int {
    if taxable(a.social_class) && a.wallet > TAX_FLOOR {
        a.wallet as int / 20
    } else {
        0
    }
}

pub open spec fn tax_fn() -> spec_fn(SimAgent) -> int {
    |a: SimAgent| tax_of(a)
}

pub open spec fn receiver_fn() -> spec_fn(SimAgent) -> int {
    |a: SimAgent| if receives_taxes(a.social_class) { 1int } else { 0 }
}

/// What the receiver at `k` of roster `s` gets of `total` collected: an equal share,
/// and for the first receiver also what does not divide evenly.
pub open spec fn tax_share(s: Seq<SimAgent>, k: int, total: int) -> int {
    let n = roster_sum(s, receiver_fn());
    total / n + if roster_sum(s.subrange(0, k), receiver_fn()) == 0 {
        total % n
    } else {
        0
    }
}

/// Taxes owed by the whole roster.
pub open spec fn total_taxes(s: Seq<SimAgent>) -> int {
    roster_sum(s, tax_fn())
}

fn is_taxable(c: SocialClass) -> (r: bool)
    ensures
        r == taxable(c),
{
    matches!(c, SocialClass::Peasant | SocialClass::Burgher | SocialClass::Merchant | SocialClass::Cleric | SocialClass::Soldier)
}

fn is_receiver(c: SocialClass) -> (r: bool)
    ensures
        r == receives_taxes(c),
{
    matches!(c, SocialClass::King | SocialClass::Noble)
}

pub proof fn lemma_sum_same(a: Seq<SimAgent>, b: Seq<SimAgent>, f: spec_fn(SimAgent) -> int)
    requires
        a.len() == b.len(),
        forall|k: int| 0 <= k < a.len() ==> f(#[trigger] a[k]) == f(b[k]),
    ensures
        roster_sum(a, f) == roster_sum(b, f),
    decreases a.len(),
{
    if a.len() > 0 {
        assert forall|k: int| 0 <= k < a.drop_last().len() implies f(#[trigger] a.drop_last()[k]) == f(b.drop_last()[k]) by {
            assert(a.drop_last()[k] == a[k] && b.drop_last()[k] == b[k]);
        }
        lemma_sum_same(a.drop_last(), b.drop_last(), f);
    }
}

pub proof fn lemma_count_nonneg(s: Seq<SimAgent>)
    ensures
        roster_sum(s, receiver_fn()) >= 0,
    decreases s.len(),
{
    if s.len() > 0 {
        lemma_count_nonneg(s.drop_last());
    }
}

pub proof fn lemma_count_pos(s: Seq<SimAgent>, k: int)
    requires
        0 <= k < s.len(),
        receives_taxes(s[k].social_class),
    ensures
        roster_sum(s, receiver_fn()) >= 1,
    decreases s.len(),
{
    lemma_count_nonneg(s.drop_last());
    if k < s.len() - 1 {
        assert(s.drop_last()[k] == s[k]);
        lemma_count_pos(s.drop_last(), k);
    }
}

/// Collects a twentieth of every taxed wallet above the floor and shares the sum
/// equally among kings and nobles, the first of them also taking what does not
/// divide evenly; where a receiver's wallet could not take the whole sum, nothing is
/// collected. Without any king or noble the sum is burned on the ledger instead, so
/// that no money leaves circulation unrecorded. Returns the sum collected.
pub fn collect_taxes(roster: &mut Vec<SimAgent>, currency: &mut CurrencySystem) -> (collected: u64)
    requires
        roster_wf(old(roster)@),
        old(currency).wf(),
    ensures
        roster_wf(final(roster)@),
        final(currency).wf(),
        final(roster)@.len() == old(roster)@.len(),
        roster_sum(old(roster)@, receiver_fn()) > 0 ==> total_wallets(final(roster)@) == total_wallets(old(roster)@)
            && *final(currency) == *old(currency),
        roster_sum(old(roster)@, receiver_fn()) == 0 ==> total_wallets(final(roster)@) + collected == total_wallets(
            old(roster)@,
        ) && final(currency).total_supply == if old(currency).total_supply >= collected {
            old(currency).total_supply - collected
        } else {
            0
        },
        roster_sum(old(roster)@, receiver_fn()) == 0 && 0 < total_taxes(old(roster)@) <= u64::MAX ==> collected
            == total_taxes(old(roster)@),
        collected == 0 || collected == total_taxes(old(roster)@),
        collected > 0 ==> forall|k: int| 0 <= k < old(roster)@.len() && !receives_taxes(old(roster)@[k].social_class)
            ==> #[trigger] final(roster)@[k].wallet == old(roster)@[k].wallet - tax_of(old(roster)@[k]),
        collected == 0 ==> final(roster)@ == old(roster)@ && *final(currency) == *old(currency),
        collected > 0 ==> forall|k: int| 0 <= k < old(roster)@.len() && receives_taxes(old(roster)@[k].social_class)
            ==> #[trigger] final(roster)@[k].wallet == old(roster)@[k].wallet + tax_share(old(roster)@, k, collected as int),
        (exists|k: int| 0 <= k < old(roster)@.len() && receives_taxes(#[trigger] old(roster)@[k].social_class))
            && 0 < total_taxes(old(roster)@) <= u64::MAX && (forall|k: int| 0 <= k < old(roster)@.len()
            && receives_taxes(old(roster)@[k].social_class) ==> #[trigger] old(roster)@[k].wallet + total_taxes(
            old(roster)@) <= u64::MAX) ==> collected == total_taxes(old(roster)@),
        forall|k: int| 0 <= k < old(roster)@.len() ==> same_but_purse(#[trigger] final(roster)@[k], old(roster)@[k])
            && final(roster)@[k].inventory == old(roster)@[k].inventory,
{
    let n = roster.len();
    let mut owed: u128 = 0;
    let mut receivers: u64 = 0;
    let mut richest: u64 = 0;
    let mut i: usize = 0;
    while i < n
        invariant
            n == roster@.len(),
            roster@ == old(roster)@,
            i <= n,
            owed == roster_sum(roster@.subrange(0, i as int), tax_fn()),
            owed <= i * (u64::MAX as int),
            receivers == roster_sum(roster@.subrange(0, i as int), receiver_fn()),
            receivers <= i,
            forall|k: int| 0 <= k < i && receives_taxes(roster@[k].social_class) ==> #[trigger] roster@[k].wallet <= richest,
            richest == 0 || exists|k: int| 0 <= k < i && receives_taxes(roster@[k].social_class) && #[trigger] roster@[k].wallet == richest,
        decreases n - i,
    {
        proof {
            lemma_sum_prefix(roster@, i as int, tax_fn());
            lemma_sum_prefix(roster@, i as int, receiver_fn());
            assert(usize::MAX <= 18_446_744_073_709_551_615);
            assert(owed + (u64::MAX as int) <= (i + 1) * (u64::MAX as int)) by (nonlinear_arith)
                requires
                    owed <= i * (u64::MAX as int),
            ;
            assert((i + 1) * (u64::MAX as int) <= 18_446_744_073_709_551_616 * 18_446_744_073_709_551_615) by (nonlinear_arith)
                requires
                    i < 18_446_744_073_709_551_615,
            ;
        }
        let a_class = roster[i].social_class;
        let w = roster[i].wallet;
        if is_taxable(a_class) && w > TAX_FLOOR {
            owed = owed + (w / 20) as u128;
        }
        if is_receiver(a_class) {
            receivers = receivers + 1;
            if w > richest {
                richest = w;
            }
        }
        i += 1;
    }
    proof {
        assert(roster@.subrange(0, n as int) == roster@);
        if exists|k: int| 0 <= k < n && receives_taxes(#[trigger] roster@[k].social_class) {
            let k = choose|k: int| 0 <= k < n && receives_taxes(#[trigger] roster@[k].social_class);
            lemma_count_pos(roster@, k);
        }
    }
    if owed == 0 || owed > u64::MAX as u128 || (receivers > 0 && richest > u64::MAX - (owed as u64)) {
        return 0;
    }
    let owed = owed as u64;
    // taxpayers pay
    let ghost old_roster = roster@;
    let mut taken: u64 = 0;
    let mut i: usize = 0;
    while i < n
        invariant
            n == roster@.len(),
            n == old_roster.len(),
            old_roster == old(roster)@,
            roster_wf(roster@),
            i <= n,
            taken == roster_sum(old_roster.subrange(0, i as int), tax_fn()),
            taken <= owed,
            owed == roster_sum(old_roster, tax_fn()),
            total_wallets(roster@) + taken == total_wallets(old_roster),
            forall|k: int| i <= k < n ==> #[trigger] roster@[k] == old_roster[k],
            forall|k: int| 0 <= k < i ==> same_but_purse(#[trigger] roster@[k], old_roster[k])
                && roster@[k].inventory == old_roster[k].inventory
                && roster@[k].wallet == old_roster[k].wallet - tax_of(old_roster[k]),
        decreases n - i,
    {
        proof {
            lemma_sum_prefix(old_roster, i as int, tax_fn());
            lemma_sum_upto_le(old_roster, i as int + 1, tax_fn());
        }
        let a_class = roster[i].social_class;
        let w = roster[i].wallet;
        if is_taxable(a_class) && w > TAX_FLOOR {
            let t = w / 20;
            let ghost r0 = roster@;
            roster[i].wallet = w - t;
            taken = taken + t;
            proof {
                assert(roster@ == r0.update(i as int, roster@[i as int]));
                lemma_sum_update(r0, i as int, roster@[i as int], wallet_fn());
            }
        }
        i += 1;
    }
    let ghost taxed = roster@;
    if receivers == 0 {
        proof {
            assert(old_roster.subrange(0, n as int) == old_roster);
        }
        currency.burn_currency(owed);
        return owed;
    }
    proof {
        assert(old_roster.subrange(0, n as int) == old_roster);
        lemma_sum_same(taxed, old_roster, receiver_fn());
    }
    // receivers share it
    let per = owed / receivers;
    let rem = owed % receivers;
    assert(per * receivers + rem == owed) by (nonlinear_arith)
        requires
            per == owed / receivers,
            rem == owed % receivers,
            receivers > 0,
    ;
    assert(per + rem <= owed) by (nonlinear_arith)
        requires
            per * receivers + rem == owed,
            receivers >= 1,
            per >= 0,
    ;
    let mut paid: u64 = 0;
    let mut given: u64 = 0;
    let mut i: usize = 0;
    while i < n
        invariant
            n == roster@.len(),
            n == taxed.len(),
            n == old_roster.len(),
            old_roster == old(roster)@,
            roster_wf(roster@),
            i <= n,
            receivers > 0,
            per == owed / receivers,
            rem == owed % receivers,
            per * receivers + rem == owed,
            per + rem <= owed,
            receivers == roster_sum(taxed, receiver_fn()),
            paid == roster_sum(taxed.subrange(0, i as int), receiver_fn()),
            paid <= receivers,
            given == paid * per + if paid > 0 { rem as int } else { 0 },
            total_wallets(roster@) + owed - given == total_wallets(old_roster),
            richest <= u64::MAX - owed,
            forall|k: int| 0 <= k < n && receives_taxes(old_roster[k].social_class) ==> #[trigger] old_roster[k].wallet <= richest,
            forall|k: int| 0 <= k < n ==> same_but_purse(#[trigger] taxed[k], old_roster[k])
                && taxed[k].inventory == old_roster[k].inventory
                && taxed[k].wallet == old_roster[k].wallet - tax_of(old_roster[k]),
            forall|k: int| i <= k < n ==> #[trigger] roster@[k] == taxed[k],
            forall|k: int| 0 <= k < i ==> same_but_purse(#[trigger] roster@[k], taxed[k])
                && roster@[k].inventory == taxed[k].inventory
                && (!receives_taxes(taxed[k].social_class) ==> roster@[k].wallet == taxed[k].wallet)
                && (receives_taxes(taxed[k].social_class) ==> roster@[k].wallet == taxed[k].wallet + tax_share(taxed, k, owed as int)),
        decreases n - i,
    {
        proof {
            lemma_sum_prefix(taxed, i as int, receiver_fn());
            lemma_sum_upto_le(taxed, i as int + 1, receiver_fn());
        }
        let ghost r_before = roster@;
        if is_receiver(roster[i].social_class) {
            let share = if paid == 0 { per + rem } else { per };
            proof {
                assert(taxed[i as int].wallet == old_roster[i as int].wallet);
                assert(given + share == (paid + 1) * per + rem) by (nonlinear_arith)
                    requires
                        given == paid * per + if paid > 0 { rem as int } else { 0 },
                        share == if paid == 0 { per + rem } else { per as int },
                ;
                assert((paid + 1) * per + rem <= owed) by (nonlinear_arith)
                    requires
                        paid + 1 <= receivers,
                        per * receivers + rem == owed,
                        per >= 0,
                ;
            }
            let ghost r0 = roster@;
            roster[i].wallet = roster[i].wallet + share;
            given = given + share;
            paid = paid + 1;
            proof {
                assert(roster@ == r0.update(i as int, roster@[i as int]));
                lemma_sum_update(r0, i as int, roster@[i as int], wallet_fn());
                assert(share == tax_share(taxed, i as int, owed as int));
            }
        }
        proof {
            assert forall|k: int| 0 <= k < i + 1 implies same_but_purse(#[trigger] roster@[k], taxed[k])
                && roster@[k].inventory == taxed[k].inventory
                && (!receives_taxes(taxed[k].social_class) ==> roster@[k].wallet == taxed[k].wallet)
                && (receives_taxes(taxed[k].social_class) ==> roster@[k].wallet == taxed[k].wallet + tax_share(taxed, k, owed as int)) by {
                if k < i {
                    assert(roster@[k] == r_before[k]);
                }
            }
        }
        i += 1;
    }
    proof {
        assert forall|k: int| 0 <= k < n && receives_taxes(old_roster[k].social_class) implies #[trigger] roster@[k].wallet
            == old_roster[k].wallet + tax_share(old_roster, k, owed as int) by {
            assert forall|j: int| 0 <= j < k implies receiver_fn()(#[trigger] taxed.subrange(0, k)[j]) == receiver_fn()(old_roster.subrange(0, k)[j]) by {
                assert(same_but_purse(taxed[j], old_roster[j]));
            }
            lemma_sum_same(taxed.subrange(0, k), old_roster.subrange(0, k), receiver_fn());
            assert(same_but_purse(taxed[k], old_roster[k]));
        }
        assert(taxed.subrange(0, n as int) == taxed);
        assert(given == owed) by (nonlinear_arith)
            requires
                given == paid * per + if paid > 0 { rem as int } else { 0 },
                paid == receivers,
                receivers > 0,
                per * receivers + rem == owed,
        ;
    }
    owed
}

pub proof fn lemma_sum_upto_le(s: Seq<SimAgent>, k: int, f: spec_fn(SimAgent) -> int)
    requires
        0 <= k <= s.len(),
        forall|a: SimAgent| #[trigger] f(a) >= 0,
    ensures
        roster_sum(s.subrange(0, k), f) <= roster_sum(s, f),
    decreases s.len() - k,
{
    if k < s.len() {
        lemma_sum_upto_le(s, k + 1, f);
        lemma_sum_prefix(s, k, f);
    } else {
        assert(s.subrange(0, k) == s);
    }
}

} // verus!
