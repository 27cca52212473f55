use vstd::prelude::*;

use crate::market::{
    order_volume, target_price, traded_volume, Market, MarketGood, MarketType, TradeExecution,
    MAX_BASE_PRICE,
};
use crate::matching::{cleared, drawn_from};
use crate::resources::{distance_squared, dist2};
use crate::types::{GridCoord, ResourceType, MILS_PER_COIN};

verus! {

/// Inventory gap above or below the mean at which merchants move goods.
pub const BALANCE_THRESHOLD: u64 = 50;

/// Most units merchants move in one transfer.
pub const MAX_TRANSFER: u64 = 30;

/// Price of a resource where no market quotes it, in mils per unit.
pub open spec fn default_price(r: ResourceType) -> int {
    MILS_PER_COIN * match r {
        ResourceType::Wood => 5int,
        ResourceType::Stone => 3,
        ResourceType::Iron => 15,
        ResourceType::Food => 10,
        _ => 5,
    }
}

pub fn default_price_of(r: ResourceType) -> (p: u64)
    ensures
        p == default_price(r),
        p <= MAX_BASE_PRICE,
{
    let coins: u64 = match r {
        ResourceType::Wood => 5,
        ResourceType::Stone => 3,
        ResourceType::Iron => 15,
        ResourceType::Food => 10,
        _ => 5,
    };
    coins * MILS_PER_COIN
}

/// Units of `r` in store across the markets of `ms`.
pub open spec fn total_stock(ms: Seq<Market>, r: ResourceType) -> int
    decreases ms.len(),
{
    if ms.len() == 0 {
        0
    } else {
        total_stock(ms.drop_last(), r) + ms.last().stock(r)
    }
}

/// Sum of the prices of `r` at the markets of `ms` that stock it.
pub open spec fn price_total(ms: Seq<Market>, r: ResourceType) -> int
    decreases ms.len(),
{
    if ms.len() == 0 {
        0
    } else {
        price_total(ms.drop_last(), r) + if ms.last().stocks(r) {
            ms.last().price(r)
        } else {
            0
        }
    }
}

/// Number of markets of `ms` that stock `r`.
pub open spec fn stocking_count(ms: Seq<Market>, r: ResourceType) -> int
    decreases ms.len(),
{
    if ms.len() == 0 {
        0
    } else {
        stocking_count(ms.drop_last(), r) + if ms.last().stocks(r) {
            1int
        } else {
            0
        }
    }
}

/// The going price of `r`: the mean price over the markets stocking it, or its
/// default price where none does.
pub open spec fn going_price(ms: Seq<Market>, r: ResourceType) -> int {
    if stocking_count(ms, r) == 0 {
        default_price(r)
    } else {
        price_total(ms, r) / stocking_count(ms, r)
    }
}

pub open spec fn markets_wf(ms: Seq<Market>) -> bool {
    forall|i: int| 0 <= i < ms.len() ==> (#[trigger] ms[i]).wf()
}

pub proof fn lemma_stock_update(ms: Seq<Market>, i: int, m: Market, r: ResourceType)
    requires
        0 <= i < ms.len(),
    ensures
        total_stock(ms.update(i, m), r) == total_stock(ms, r) - ms[i].stock(r) + m.stock(r),
    decreases ms.len(),
{
    if i == ms.len() - 1 {
        assert(ms.update(i, m).drop_last() == ms.drop_last());
    } else {
        assert(ms.update(i, m).drop_last() == ms.drop_last().update(i, m));
        lemma_stock_update(ms.drop_last(), i, m, r);
    }
}

pub proof fn lemma_prefix_step(ms: Seq<Market>, i: int)
    requires
        0 <= i < ms.len(),
    ensures
        ms.subrange(0, i + 1).drop_last() == ms.subrange(0, i),
        ms.subrange(0, i + 1).last() == ms[i],
{
    assert(ms.subrange(0, i + 1).drop_last() == ms.subrange(0, i));
}

/// The mean stock of `r` over the markets of `ms` that stock it, rounded down.
pub open spec fn mean_stock(ms: Seq<Market>, r: ResourceType) -> int {
    if stocking_count(ms, r) == 0 {
        0
    } else {
        total_stock(ms, r) / stocking_count(ms, r)
    }
}

/// Market `k` of `ms` holds more than the threshold above the mean stock of `r`.
pub open spec fn above_mean(ms: Seq<Market>, r: ResourceType, k: int) -> bool {
    ms[k].stocks(r) && ms[k].stock(r) > mean_stock(ms, r) + BALANCE_THRESHOLD
}

/// Market `k` of `ms` holds more than the threshold below the mean stock of `r`.
pub open spec fn below_mean(ms: Seq<Market>, r: ResourceType, k: int) -> bool {
    ms[k].stocks(r) && ms[k].stock(r) + BALANCE_THRESHOLD < mean_stock(ms, r)
}

proof fn lemma_none_stocking(ms: Seq<Market>, r: ResourceType)
    requires
        stocking_count(ms, r) == 0,
    ensures
        forall|k: int| 0 <= k < ms.len() ==> !(#[trigger] ms[k]).stocks(r),
    decreases ms.len(),
{
    if ms.len() > 0 {
        lemma_count_nonneg(ms.drop_last(), r);
        lemma_none_stocking(ms.drop_last(), r);
        assert forall|k: int| 0 <= k < ms.len() implies !(#[trigger] ms[k]).stocks(r) by {
            if k < ms.len() - 1 {
                assert(ms.drop_last()[k] == ms[k]);
            }
        }
    }
}

proof fn lemma_count_nonneg(ms: Seq<Market>, r: ResourceType)
    ensures
        stocking_count(ms, r) >= 0,
    decreases ms.len(),
{
    if ms.len() > 0 {
        lemma_count_nonneg(ms.drop_last(), r);
    }
}

/// `m` is of type `t`, or `t` asks for any type.
pub open spec fn kind_matches(m: Market, t: Option<MarketType>) -> bool {
    match t {
        Some(k) => m.market_type == k,
        None => true,
    }
}

/// `now` is `before` with only its stock of `r` changed: same id and books, the same
/// stock of every other resource, and the same price for every good it stocked.
pub open spec fn moved_only(now: Market, before: Market, r: ResourceType) -> bool {
    &&& now.id == before.id
    &&& now.buy_orders == before.buy_orders
    &&& now.sell_orders == before.sell_orders
    &&& (before.stocks(r) ==> now.stocks(r))
    &&& forall|res: ResourceType|
        #![trigger now.stock(res)]
        #![trigger now.stocks(res)]
        res != r ==> now.stock(res) == before.stock(res) && now.stocks(res) == before.stocks(res)
    &&& forall|res: ResourceType| #![trigger now.price(res)] before.stocks(res) ==> now.price(res) == before.price(res)
}

/// `after` is `before` evened out in `r` by merchants: stock is conserved; a market's
/// stock falls only if it was more than the threshold above the mean, rises only if
/// it was more than the threshold below, and rises by at most one transfer; and where
/// some market was above and some below, a market below gained.
pub open spec fn balanced(before: Seq<Market>, after: Seq<Market>, r: ResourceType) -> bool {
    &&& after.len() == before.len()
    &&& total_stock(after, r) == total_stock(before, r)
    &&& forall|k: int|
        0 <= k < before.len() && (#[trigger] after[k]).stock(r) < before[k].stock(r) ==> above_mean(before, r, k)
    &&& forall|k: int|
        0 <= k < before.len() && (#[trigger] after[k]).stock(r) > before[k].stock(r) ==> below_mean(before, r, k)
            && after[k].stock(r) <= before[k].stock(r) + MAX_TRANSFER
    &&& (exists|k: int| 0 <= k < before.len() && above_mean(before, r, k)) && (exists|k: int|
        0 <= k < before.len() && below_mean(before, r, k)) ==> exists|k: int|
        0 <= k < before.len() && below_mean(before, r, k) && #[trigger] after[k].stock(r) > before[k].stock(r)
}

/// `now` keeps the books of `before`, every good it stocked, and each such good's price.
pub open spec fn kept_goods(now: Market, before: Market) -> bool {
    &&& now.id == before.id
    &&& now.buy_orders == before.buy_orders
    &&& now.sell_orders == before.sell_orders
    &&& forall|res: ResourceType|
        #![trigger now.price(res)]
        #![trigger now.stocks(res)]
        before.stocks(res) ==> now.stocks(res) && now.price(res) == before.price(res)
}

proof fn lemma_kept_goods(a: Market, b: Market, c: Market, r: ResourceType)
    requires
        kept_goods(b, a),
        moved_only(c, b, r),
    ensures
        kept_goods(c, a),
{
    assert forall|res: ResourceType| a.stocks(res) implies c.stocks(res) && #[trigger] c.price(res) == a.price(res) by {
        assert(b.stocks(res) && b.price(res) == a.price(res));
        if res != r {
            assert(c.stock(res) == b.stock(res) && c.stocks(res) == b.stocks(res));
        }
    }
}

proof fn lemma_moved_only_trans(a: Market, b: Market, c: Market, r: ResourceType)
    requires
        moved_only(b, a, r),
        moved_only(c, b, r),
    ensures
        moved_only(c, a, r),
{
    assert forall|res: ResourceType| a.stocks(res) implies #[trigger] c.price(res) == a.price(res) by {
        if res != r {
            assert(b.stock(res) == a.stock(res) && b.stocks(res) == a.stocks(res));
        }
        assert(b.stocks(res));
        assert(c.price(res) == b.price(res));
    }
    assert forall|res: ResourceType| res != r implies #[trigger] c.stock(res) == a.stock(res) && c.stocks(res) == a.stocks(res) by {
        assert(b.stock(res) == a.stock(res) && b.stocks(res) == a.stocks(res));
        assert(c.stock(res) == b.stock(res) && c.stocks(res) == b.stocks(res));
    }
}

proof fn lemma_same_stock(a: Seq<Market>, b: Seq<Market>, r: ResourceType)
    requires
        a.len() == b.len(),
        forall|k: int| 0 <= k < a.len() ==> (#[trigger] b[k]).stock(r) == a[k].stock(r) && b[k].stocks(r) == a[k].stocks(r),
    ensures
        total_stock(b, r) == total_stock(a, r),
        stocking_count(b, r) == stocking_count(a, r),
    decreases a.len(),
{
    if a.len() > 0 {
        assert forall|k: int| 0 <= k < a.drop_last().len() implies (#[trigger] b.drop_last()[k]).stock(r) == a.drop_last()[k].stock(r)
            && b.drop_last()[k].stocks(r) == a.drop_last()[k].stocks(r) by {
            assert(b.drop_last()[k] == b[k] && a.drop_last()[k] == a[k]);
        }
        lemma_same_stock(a.drop_last(), b.drop_last(), r);
    }
}

/// Balancing in `r` survives later changes that leave every stock of `r` alone, and
/// holds relative to an earlier state with the same stocks of `r`.
proof fn lemma_balanced_frame(m0: Seq<Market>, m1: Seq<Market>, m2: Seq<Market>, m3: Seq<Market>, r: ResourceType)
    requires
        balanced(m1, m2, r),
        m0.len() == m1.len(),
        m3.len() == m2.len(),
        forall|k: int| 0 <= k < m0.len() ==> (#[trigger] m1[k]).stock(r) == m0[k].stock(r) && m1[k].stocks(r) == m0[k].stocks(r),
        forall|k: int| 0 <= k < m2.len() ==> (#[trigger] m3[k]).stock(r) == m2[k].stock(r) && m3[k].stocks(r) == m2[k].stocks(r),
    ensures
        balanced(m0, m3, r),
{
    lemma_same_stock(m0, m1, r);
    lemma_same_stock(m2, m3, r);
    assert forall|k: int| 0 <= k < m0.len() implies above_mean(m0, r, k) == above_mean(m1, r, k) && below_mean(m0, r, k)
        == below_mean(m1, r, k) && m3[k].stock(r) == m2[k].stock(r) && m1[k].stock(r) == m0[k].stock(r) by {
        assert(m1[k].stock(r) == m0[k].stock(r));
        assert(m3[k].stock(r) == m2[k].stock(r));
    }
    if (exists|k: int| 0 <= k < m0.len() && above_mean(m0, r, k)) && (exists|k: int| 0 <= k < m0.len() && below_mean(m0, r, k)) {
        let a = choose|k: int| 0 <= k < m0.len() && above_mean(m0, r, k);
        let b = choose|k: int| 0 <= k < m0.len() && below_mean(m0, r, k);
        assert(above_mean(m1, r, a) && below_mean(m1, r, b));
        let w = choose|k: int| 0 <= k < m1.len() && below_mean(m1, r, k) && #[trigger] m2[k].stock(r) > m1[k].stock(r);
        assert(below_mean(m0, r, w) && m3[w].stock(r) > m0[w].stock(r));
    }
}

/// Units of `r` held by the buy (or sell) orders of all markets of `ms`.
pub open spec fn book_volume(ms: Seq<Market>, r: ResourceType, buy: bool) -> int
    decreases ms.len(),
{
    if ms.len() == 0 {
        0
    } else {
        book_volume(ms.drop_last(), r, buy) + order_volume(
            if buy {
                ms.last().buy_orders@
            } else {
                ms.last().sell_orders@
            },
            r,
        )
    }
}

/// `after` is `before` with every good repriced from the open demand for it.
pub open spec fn repriced(after: Market, before: Market) -> bool {
    &&& after.inventory@.len() == before.inventory@.len()
    &&& forall|j: int|
        0 <= j < before.inventory@.len() ==> #[trigger] after.inventory@[j] == (MarketGood {
            current_price: target_price(
                before.inventory@[j].base_price as int,
                before.inventory@[j].quantity as int,
                order_volume(before.buy_orders@, before.inventory@[j].resource_type),
            ) as u64,
            ..before.inventory@[j]
        })
}

proof fn lemma_book_update(ms: Seq<Market>, i: int, m: Market, r: ResourceType, buy: bool)
    requires
        0 <= i < ms.len(),
    ensures
        book_volume(ms.update(i, m), r, buy) == book_volume(ms, r, buy) - order_volume(
            if buy { ms[i].buy_orders@ } else { ms[i].sell_orders@ },
            r,
        ) + order_volume(if buy { m.buy_orders@ } else { m.sell_orders@ }, r),
    decreases ms.len(),
{
    if i == ms.len() - 1 {
        assert(ms.update(i, m).drop_last() == ms.drop_last());
    } else {
        assert(ms.update(i, m).drop_last() == ms.drop_last().update(i, m));
        lemma_book_update(ms.drop_last(), i, m, r, buy);
    }
}

proof fn lemma_traded_append(a: Seq<TradeExecution>, b: Seq<TradeExecution>, r: ResourceType)
    ensures
        traded_volume(a + b, r) == traded_volume(a, r) + traded_volume(b, r),
    decreases b.len(),
{
    if b.len() == 0 {
        assert(a + b == a);
    } else {
        assert((a + b).drop_last() == a + b.drop_last());
        lemma_traded_append(a, b.drop_last(), r);
    }
}

/// Registry of all markets of the world.
pub struct MarketSystem {
    pub markets: Vec<Market>,
}

impl MarketSystem {
    pub open spec fn wf(&self) -> bool {
        markets_wf(self.markets@)
    }

    pub fn new() -> (s: MarketSystem)
        ensures
            s.wf(),
            s.markets@.len() == 0,
    {
        MarketSystem { markets: Vec::new() }
    }

    /// Opens a new, empty market and returns its id.
    pub fn create_market(&mut self, name: String, position: GridCoord, market_type: MarketType) -> (id: u128)
        requires
            old(self).wf(),
        ensures
            final(self).wf(),
            final(self).markets@.len() == old(self).markets@.len() + 1,
            final(self).markets@.drop_last() == old(self).markets@,
            final(self).markets@.last().id == id,
            final(self).markets@.last().name@ == name@,
            final(self).markets@.last().position == position,
            final(self).markets@.last().market_type == market_type,
            final(self).markets@.last().inventory@.len() == 0,
    {
        let m = Market::new(name, position, market_type);
        let id = m.id;
        self.markets.push(m);
        proof {
            assert(self.markets@.drop_last() == old(self).markets@);
            assert forall|i: int| 0 <= i < self.markets@.len() implies (#[trigger] self.markets@[i]).wf() by {
                if i < old(self).markets@.len() {
                    assert(self.markets@[i] == old(self).markets@[i]);
                }
            }
        }
        id
    }

    /// Position of the first market with id `id`.
    pub fn market_index(&self, id: u128) -> (r: Option<usize>)
        ensures
            match r {
                Some(i) => i < self.markets@.len() && self.markets@[i as int].id == id && forall|k: int|
                    0 <= k < i ==> (#[trigger] self.markets@[k]).id != id,
                None => forall|k: int| 0 <= k < self.markets@.len() ==> (#[trigger] self.markets@[k]).id != id,
            },
    {
        let mut i: usize = 0;
        while i < self.markets.len()
            invariant
                i <= self.markets@.len(),
                forall|k: int| 0 <= k < i ==> (#[trigger] self.markets@[k]).id != id,
            decreases self.markets@.len() - i,
        {
            if self.markets[i].id == id {
                return Some(i);
            }
            i += 1;
        }
        None
    }

    pub fn get_market(&self, id: u128) -> (r: Option<&Market>)
        ensures
            match r {
                Some(m) => exists|i: int| 0 <= i < self.markets@.len() && self.markets@[i] == *m && m.id == id,
                None => forall|k: int| 0 <= k < self.markets@.len() ==> (#[trigger] self.markets@[k]).id != id,
            },
    {
        match self.market_index(id) {
            Some(i) => Some(&self.markets[i]),
            None => None,
        }
    }

    /// The market of type `market_type` (of any type when `None`) nearest to
    /// `position`; the first such market on equal distances.
    pub fn find_nearest_market(&self, position: GridCoord, market_type: Option<MarketType>) -> (r: Option<usize>)
        ensures
            match r {
                Some(i) => {
                    &&& i < self.markets@.len()
                    &&& kind_matches(self.markets@[i as int], market_type)
                    &&& forall|k: int| 0 <= k < self.markets@.len() && kind_matches(#[trigger] self.markets@[k], market_type)
                        ==> dist2(position, self.markets@[i as int].position) <= dist2(position, self.markets@[k].position)
                },
                None => forall|k: int| 0 <= k < self.markets@.len() ==> !kind_matches(#[trigger] self.markets@[k], market_type),
            },
    {
        let mut best: Option<usize> = None;
        let mut best_d: u128 = 0;
        let mut i: usize = 0;
        while i < self.markets.len()
            invariant
                i <= self.markets@.len(),
                match best {
                    Some(b) => {
                        &&& b < i
                        &&& kind_matches(self.markets@[b as int], market_type)
                        &&& best_d == dist2(position, self.markets@[b as int].position)
                        &&& forall|k: int| 0 <= k < i && kind_matches(#[trigger] self.markets@[k], market_type)
                            ==> best_d <= dist2(position, self.markets@[k].position)
                    },
                    None => forall|k: int| 0 <= k < i ==> !kind_matches(#[trigger] self.markets@[k], market_type),
                },
            decreases self.markets@.len() - i,
        {
            let fits = match market_type {
                Some(t) => self.markets[i].market_type == t,
                None => true,
            };
            if fits {
                let d = distance_squared(position, self.markets[i].position);
                match best {
                    None => {
                        best = Some(i);
                        best_d = d;
                    },
                    Some(_) => {
                        if d < best_d {
                            best = Some(i);
                            best_d = d;
                        }
                    },
                }
            }
            i += 1;
        }
        best
    }

    /// The going price of `r` across all markets.
    pub fn get_market_price(&self, r: ResourceType) -> (p: u64)
        requires
            self.wf(),
        ensures
            p == going_price(self.markets@, r),
            p <= 3 * MAX_BASE_PRICE,
    {
        let mut total: u128 = 0;
        let mut count: u64 = 0;
        let mut i: usize = 0;
        while i < self.markets.len()
            invariant
                self.wf(),
                i <= self.markets@.len(),
                total == price_total(self.markets@.subrange(0, i as int), r),
                count == stocking_count(self.markets@.subrange(0, i as int), r),
                total <= count * (3 * MAX_BASE_PRICE),
                count <= i,
            decreases self.markets@.len() - i,
        {
            proof {
                lemma_prefix_step(self.markets@, i as int);
            }
            match self.markets[i].find_good(r) {
                Some(g) => {
                    let price = self.markets[i].inventory[g].current_price;
                    proof {
                        assert(self.markets@[i as int].wf());
                        assert(self.markets@[i as int].inventory@[g as int].wf());
                        assert(price <= 3_000_000_000);
                        assert(total + price <= (count + 1) * 3_000_000_000
                            && (count + 1) * 3_000_000_000 <= 18_446_744_073_709_551_616 * 3_000_000_000)
                            by (nonlinear_arith)
                            requires
                                total <= count * 3_000_000_000,
                                price <= 3_000_000_000,
                                count < 18_446_744_073_709_551_615u64,
                        ;
                    }
                    total = total + price as u128;
                    count = count + 1;
                },
                None => {},
            }
            i += 1;
        }
        proof {
            assert(self.markets@.subrange(0, self.markets@.len() as int) == self.markets@);
        }
        if count == 0 {
            default_price_of(r)
        } else {
            assert(total / (count as u128) <= 3 * MAX_BASE_PRICE) by (nonlinear_arith)
                requires
                    total <= count * (3 * MAX_BASE_PRICE),
                    count > 0,
            ;
            (total / (count as u128)) as u64
        }
    }

    /// Units of `r` in store across all markets.
    pub fn total_inventory(&self, r: ResourceType) -> (t: u64)
        requires
            self.wf(),
            self.markets@.len() <= u32::MAX,
        ensures
            t == total_stock(self.markets@, r),
            t <= self.markets@.len() * (u32::MAX as int),
    {
        let mut total: u64 = 0;
        let mut i: usize = 0;
        while i < self.markets.len()
            invariant
                self.wf(),
                i <= self.markets@.len() <= u32::MAX,
                total == total_stock(self.markets@.subrange(0, i as int), r),
                total <= i * (u32::MAX as int),
            decreases self.markets@.len() - i,
        {
            proof {
                lemma_prefix_step(self.markets@, i as int);
                assert(i * (u32::MAX as int) <= (u32::MAX as int) * (u32::MAX as int)) by (nonlinear_arith)
                    requires
                        i <= u32::MAX,
                ;
            }
            match self.markets[i].find_good(r) {
                Some(g) => {
                    total = total + self.markets[i].inventory[g].quantity as u64;
                },
                None => {},
            }
            i += 1;
        }
        proof {
            assert(self.markets@.subrange(0, self.markets@.len() as int) == self.markets@);
        }
        total
    }

    /// Rebases prices and then matches orders at every market, returning all trades;
    /// afterwards no market holds a crossing pair of orders.
    pub fn process_all_markets(&mut self) -> (trades: Vec<TradeExecution>)
        requires
            old(self).wf(),
        ensures
            final(self).wf(),
            final(self).markets@.len() == old(self).markets@.len(),
            forall|i: int| 0 <= i < old(self).markets@.len() ==> (#[trigger] final(self).markets@[i]).id == old(self).markets@[i].id,
            forall|i: int| 0 <= i < old(self).markets@.len() ==> cleared(
                (#[trigger] final(self).markets@[i]).buy_orders@,
                final(self).markets@[i].sell_orders@,
            ),
            forall|i: int| 0 <= i < old(self).markets@.len() ==> repriced(#[trigger] final(self).markets@[i], old(self).markets@[i])
                && drawn_from(final(self).markets@[i].buy_orders@, old(self).markets@[i].buy_orders@)
                && drawn_from(final(self).markets@[i].sell_orders@, old(self).markets@[i].sell_orders@),
            forall|r: ResourceType| #[trigger] book_volume(old(self).markets@, r, true) == book_volume(final(self).markets@, r, true)
                + traded_volume(trades@, r),
            forall|r: ResourceType| #[trigger] book_volume(old(self).markets@, r, false) == book_volume(final(self).markets@, r, false)
                + traded_volume(trades@, r),
    {
        let mut all: Vec<TradeExecution> = Vec::new();
        let mut i: usize = 0;
        while i < self.markets.len()
            invariant
                self.wf(),
                i <= self.markets@.len(),
                self.markets@.len() == old(self).markets@.len(),
                forall|k: int| 0 <= k < old(self).markets@.len() ==> (#[trigger] self.markets@[k]).id == old(self).markets@[k].id,
                forall|k: int| 0 <= k < i ==> cleared(
                    (#[trigger] self.markets@[k]).buy_orders@,
                    self.markets@[k].sell_orders@,
                ),
                forall|k: int| 0 <= k < i ==> repriced(#[trigger] self.markets@[k], old(self).markets@[k])
                    && drawn_from(self.markets@[k].buy_orders@, old(self).markets@[k].buy_orders@)
                    && drawn_from(self.markets@[k].sell_orders@, old(self).markets@[k].sell_orders@),
                forall|k: int| i <= k < self.markets@.len() ==> #[trigger] self.markets@[k] == old(self).markets@[k],
                forall|r: ResourceType| #[trigger] book_volume(old(self).markets@, r, true) == book_volume(self.markets@, r, true)
                    + traded_volume(all@, r),
                forall|r: ResourceType| #[trigger] book_volume(old(self).markets@, r, false) == book_volume(self.markets@, r, false)
                    + traded_volume(all@, r),
            decreases self.markets@.len() - i,
        {
            let ghost m0 = self.markets@;
            let ghost a0 = all@;
            self.markets[i].update_prices();
            let ghost m1 = self.markets@;
            let mut trades = self.markets[i].match_orders();
            let ghost t0 = trades@;
            all.append(&mut trades);
            proof {
                assert(m1 == m0.update(i as int, m1[i as int]));
                assert(self.markets@ == m1.update(i as int, self.markets@[i as int]));
                assert(self.markets@ == m0.update(i as int, self.markets@[i as int]));
                assert forall|r: ResourceType| #[trigger] book_volume(old(self).markets@, r, true) == book_volume(self.markets@, r, true)
                    + traded_volume(all@, r) by {
                    lemma_book_update(m0, i as int, self.markets@[i as int], r, true);
                    lemma_traded_append(a0, t0, r);
                    assert(order_volume(m1[i as int].buy_orders@, r) == order_volume(self.markets@[i as int].buy_orders@, r) + traded_volume(t0, r));
                }
                assert forall|r: ResourceType| #[trigger] book_volume(old(self).markets@, r, false) == book_volume(self.markets@, r, false)
                    + traded_volume(all@, r) by {
                    lemma_book_update(m0, i as int, self.markets@[i as int], r, false);
                    lemma_traded_append(a0, t0, r);
                    assert(order_volume(m1[i as int].sell_orders@, r) == order_volume(self.markets@[i as int].sell_orders@, r) + traded_volume(t0, r));
                }
                assert forall|k: int| 0 <= k < i + 1 implies repriced(#[trigger] self.markets@[k], old(self).markets@[k])
                    && drawn_from(self.markets@[k].buy_orders@, old(self).markets@[k].buy_orders@)
                    && drawn_from(self.markets@[k].sell_orders@, old(self).markets@[k].sell_orders@) by {
                    if k < i {
                        assert(self.markets@[k] == m0[k]);
                    } else {
                        assert(m0[k] == old(self).markets@[k]);
                        assert forall|j: int| 0 <= j < old(self).markets@[k].inventory@.len() implies #[trigger] self.markets@[k].inventory@[j]
                            == m1[k].inventory@[j] by {}
                    }
                }
            }
            i += 1;
        }
        all
    }

    /// Moves `amount` units of `r` from market `from` to market `to`, checking at the
    /// moment of the move that `from` holds them and `to` can take them; returns
    /// whether it moved them. Goods are neither created nor lost.
    pub fn transfer(&mut self, from: usize, to: usize, r: ResourceType, amount: u32) -> (ok: bool)
        requires
            old(self).wf(),
            from < old(self).markets@.len(),
            to < old(self).markets@.len(),
        ensures
            final(self).wf(),
            final(self).markets@.len() == old(self).markets@.len(),
            forall|res: ResourceType| #[trigger] total_stock(final(self).markets@, res) == total_stock(old(self).markets@, res),
            forall|k: int| 0 <= k < old(self).markets@.len() ==> (#[trigger] final(self).markets@[k]).id == old(self).markets@[k].id,
            ok == (from != to && old(self).markets@[from as int].stocks(r) && old(self).markets@[from as int].stock(r) >= amount
                && old(self).markets@[to as int].stock(r) + amount <= u32::MAX),
            ok ==> final(self).markets@[from as int].stock(r) == old(self).markets@[from as int].stock(r) - amount,
            ok ==> final(self).markets@[to as int].stock(r) == old(self).markets@[to as int].stock(r) + amount,
            !ok ==> final(self).markets@ == old(self).markets@,
            forall|k: int| 0 <= k < old(self).markets@.len() && k != from && k != to ==> #[trigger] final(self).markets@[k] == old(self).markets@[k],
            forall|k: int| 0 <= k < old(self).markets@.len() ==> moved_only(#[trigger] final(self).markets@[k], old(self).markets@[k], r),
            forall|k: int| 0 <= k < old(self).markets@.len() && (k != to || old(self).markets@[to as int].stocks(r)) ==> #[trigger] final(self).markets@[k].stocks(r) == old(self).markets@[k].stocks(r),
    {
        if from == to {
            return false;
        }
        let enough = match self.markets[from].find_good(r) {
            Some(g) => self.markets[from].inventory[g].quantity >= amount,
            None => false,
        };
        if !enough {
            return false;
        }
        let room = match self.markets[to].find_good(r) {
            Some(g) => self.markets[to].inventory[g].quantity <= u32::MAX - amount,
            None => true,
        };
        if !room {
            return false;
        }
        let ghost m0 = self.markets@;
        let price = default_price_of(r);
        let removed = self.markets[from].remove_inventory(r, amount);
        let ghost m1 = self.markets@;
        self.markets[to].add_inventory(r, amount, price);
        proof {
            assert(removed);
            assert(m1 == m0.update(from as int, m1[from as int]));
            assert(self.markets@ == m1.update(to as int, self.markets@[to as int]));
            assert forall|res: ResourceType| #[trigger] total_stock(self.markets@, res) == total_stock(old(self).markets@, res) by {
                lemma_stock_update(m0, from as int, m1[from as int], res);
                lemma_stock_update(m1, to as int, self.markets@[to as int], res);
            }
            assert forall|i: int| 0 <= i < self.markets@.len() implies (#[trigger] self.markets@[i]).wf() by {
                if i != from && i != to {
                    assert(self.markets@[i] == old(self).markets@[i]);
                }
            }
            assert forall|k: int| 0 <= k < old(self).markets@.len() implies moved_only(#[trigger] self.markets@[k], old(self).markets@[k], r) by {
                if k == from {
                    assert(self.markets@[k] == m1[k]);
                } else if k != to {
                    assert(self.markets@[k] == old(self).markets@[k]);
                }
            }
            assert forall|k: int| 0 <= k < old(self).markets@.len() && (k != to || old(self).markets@[to as int].stocks(r)) implies #[trigger] self.markets@[k].stocks(r) == old(self).markets@[k].stocks(r) by {
                if k == from {
                    assert(self.markets@[k] == m1[k]);
                } else if k != to {
                    assert(self.markets@[k] == old(self).markets@[k]);
                } else {
                    assert(m1[k] == old(self).markets@[k]);
                }
            }
        }
        true
    }

    /// Merchants even out the stock of `r`: every market more than the threshold
    /// above the mean stock gives, in turn, up to half its surplus, half the
    /// receiver's deficit and at most the transfer cap to each market more than the
    /// threshold below it. Each move is checked when it is made. Goods are neither
    /// created nor lost, and where some market is above and some below, a market
    /// below gains.
    pub fn balance_resource(&mut self, r: ResourceType)
        requires
            old(self).wf(),
        ensures
            final(self).wf(),
            final(self).markets@.len() == old(self).markets@.len(),
            forall|res: ResourceType| #[trigger] total_stock(final(self).markets@, res) == total_stock(old(self).markets@, res),
            forall|k: int| 0 <= k < old(self).markets@.len() ==> (#[trigger] final(self).markets@[k]).id == old(self).markets@[k].id,
            forall|k: int| 0 <= k < old(self).markets@.len() ==> moved_only(#[trigger] final(self).markets@[k], old(self).markets@[k], r),
            forall|k: int| 0 <= k < old(self).markets@.len() ==> #[trigger] final(self).markets@[k].stocks(r) == old(self).markets@[k].stocks(r),
            balanced(old(self).markets@, final(self).markets@, r),
    {
        let n = self.markets.len();
        let mut total: u128 = 0;
        let mut count: u128 = 0;
        let mut i: usize = 0;
        while i < n
            invariant
                n == self.markets@.len(),
                self.markets@ == old(self).markets@,
                self.wf(),
                i <= n,
                total == total_stock(self.markets@.subrange(0, i as int), r),
                count == stocking_count(self.markets@.subrange(0, i as int), r),
                total <= i * (u32::MAX as int),
                count <= i,
            decreases n - i,
        {
            proof {
                lemma_prefix_step(self.markets@, i as int);
            }
            match self.markets[i].find_good(r) {
                Some(g) => {
                    proof {
                        assert(usize::MAX <= 18_446_744_073_709_551_615);
                        assert((i + 1) * (u32::MAX as int) <= 18_446_744_073_709_551_616 * (u32::MAX as int)) by (nonlinear_arith)
                            requires
                                i < 18_446_744_073_709_551_615,
                        ;
                    }
                    total = total + self.markets[i].inventory[g].quantity as u128;
                    count = count + 1;
                },
                None => {},
            }
            i += 1;
        }
        proof {
            assert(self.markets@.subrange(0, n as int) == self.markets@);
        }
        if count == 0 {
            proof {
                lemma_none_stocking(old(self).markets@, r);
            }
            return;
        }
        let avg: u128 = total / count;
        let mut surplus: Vec<(usize, u128)> = Vec::new();
        let mut deficit: Vec<(usize, u128)> = Vec::new();
        let mut i: usize = 0;
        while i < n
            invariant
                n == self.markets@.len(),
                self.markets@ == old(self).markets@,
                self.wf(),
                i <= n,
                avg == mean_stock(old(self).markets@, r),
                forall|k: int| 0 <= k < surplus@.len() ==> (#[trigger] surplus@[k]).0 < n
                    && above_mean(old(self).markets@, r, surplus@[k].0 as int)
                    && surplus@[k].1 == old(self).markets@[surplus@[k].0 as int].stock(r) - avg,
                forall|k: int| 0 <= k < deficit@.len() ==> (#[trigger] deficit@[k]).0 < n
                    && below_mean(old(self).markets@, r, deficit@[k].0 as int)
                    && deficit@[k].1 == avg - old(self).markets@[deficit@[k].0 as int].stock(r),
                (exists|k: int| 0 <= k < i && above_mean(old(self).markets@, r, k)) ==> surplus@.len() > 0,
                (exists|k: int| 0 <= k < i && below_mean(old(self).markets@, r, k)) ==> deficit@.len() > 0,
                forall|a: int, b: int| 0 <= a < b < deficit@.len() ==> (#[trigger] deficit@[a]).0 < (#[trigger] deficit@[b]).0,
                forall|k: int| 0 <= k < deficit@.len() ==> (#[trigger] deficit@[k]).0 < i,
            decreases n - i,
        {
            match self.markets[i].find_good(r) {
                Some(g) => {
                    let q = self.markets[i].inventory[g].quantity as u128;
                    if q > avg && q - avg > BALANCE_THRESHOLD as u128 {
                        surplus.push((i, q - avg));
                    } else if q < avg && avg - q > BALANCE_THRESHOLD as u128 {
                        deficit.push((i, avg - q));
                    }
                },
                None => {},
            }
            i += 1;
        }
        let ghost s0 = if surplus@.len() > 0 { surplus@[0] } else { (0usize, 0u128) };
        let ghost d0 = if deficit@.len() > 0 { deficit@[0] } else { (0usize, 0u128) };
        let ghost both = surplus@.len() > 0 && deficit@.len() > 0;
        let mut transfers: Vec<(usize, usize, u32)> = Vec::new();
        let mut s: usize = 0;
        let mut d: usize = 0;
        while d < deficit.len() && s < surplus.len()
            invariant
                n == old(self).markets@.len(),
                forall|k: int| 0 <= k < surplus@.len() ==> (#[trigger] surplus@[k]).0 < n
                    && above_mean(old(self).markets@, r, surplus@[k].0 as int),
                forall|k: int| 0 <= k < deficit@.len() ==> (#[trigger] deficit@[k]).0 < n
                    && below_mean(old(self).markets@, r, deficit@[k].0 as int)
                    && deficit@[k].1 == avg - old(self).markets@[deficit@[k].0 as int].stock(r),
                forall|k: int| 0 <= k < transfers@.len() ==> (#[trigger] transfers@[k]).0 < n && transfers@[k].1 < n
                    && above_mean(old(self).markets@, r, transfers@[k].0 as int)
                    && below_mean(old(self).markets@, r, transfers@[k].1 as int),
                both ==> s0.0 < n && d0.0 < n && s0.1 == old(self).markets@[s0.0 as int].stock(r) - avg
                    && d0.1 == avg - old(self).markets@[d0.0 as int].stock(r)
                    && avg == mean_stock(old(self).markets@, r) && above_mean(old(self).markets@, r, s0.0 as int)
                    && below_mean(old(self).markets@, r, d0.0 as int),
                d == 0 ==> s == 0 && (surplus@.len() > 0 ==> surplus@[0] == s0) && (deficit@.len() > 0 ==> deficit@[0] == d0),
                both ==> (d > 0 <==> transfers@.len() > 0),
                both && transfers@.len() > 0 ==> transfers@[0].0 == s0.0 && transfers@[0].1 == d0.0
                    && 0 < transfers@[0].2 && transfers@[0].2 <= s0.1 / 2,
                surplus@.len() > 0 && deficit@.len() > 0 <==> both,
                forall|a: int, b: int| 0 <= a < b < deficit@.len() ==> (#[trigger] deficit@[a]).0 < (#[trigger] deficit@[b]).0,
                d <= deficit@.len(),
                forall|k: int| 0 <= k < transfers@.len() ==> (#[trigger] transfers@[k]).2 <= MAX_TRANSFER,
                forall|a: int, b: int| 0 <= a < b < transfers@.len() ==> (#[trigger] transfers@[a]).1 < (#[trigger] transfers@[b]).1,
                d < deficit@.len() ==> forall|k: int| 0 <= k < transfers@.len() ==> (#[trigger] transfers@[k]).1 < deficit@[d as int].0,
            decreases deficit@.len() - d,
        {
            let (to, want) = deficit[d];
            let (from, have) = surplus[s];
            let mut amount = want / 2;
            if have / 2 < amount {
                amount = have / 2;
            }
            if (MAX_TRANSFER as u128) < amount {
                amount = MAX_TRANSFER as u128;
            }
            if amount > 0 {
                transfers.push((from, to, amount as u32));
                let left = have - amount;
                if left == 0 {
                    s += 1;
                } else {
                    surplus.set(s, (from, left));
                }
            } else {
                proof {
                    if d == 0 {
                        assert(want > 50 && have > 50);
                    }
                }
            }
            d += 1;
        }
        let mut t: usize = 0;
        while t < transfers.len()
            invariant
                n == self.markets@.len(),
                n == old(self).markets@.len(),
                self.wf(),
                forall|k: int| 0 <= k < transfers@.len() ==> (#[trigger] transfers@[k]).0 < n && transfers@[k].1 < n
                    && above_mean(old(self).markets@, r, transfers@[k].0 as int)
                    && below_mean(old(self).markets@, r, transfers@[k].1 as int),
                forall|res: ResourceType| #[trigger] total_stock(self.markets@, res) == total_stock(old(self).markets@, res),
                forall|k: int| 0 <= k < old(self).markets@.len() ==> (#[trigger] self.markets@[k]).id == old(self).markets@[k].id,
                t == 0 ==> self.markets@ == old(self).markets@,
                both ==> transfers@.len() > 0,
                both && transfers@.len() > 0 ==> transfers@[0].0 == s0.0 && transfers@[0].1 == d0.0
                    && 0 < transfers@[0].2 && transfers@[0].2 <= s0.1 / 2,
                both ==> s0.0 < n && d0.0 < n && s0.1 == old(self).markets@[s0.0 as int].stock(r) - avg
                    && d0.1 == avg - old(self).markets@[d0.0 as int].stock(r)
                    && avg == mean_stock(old(self).markets@, r) && above_mean(old(self).markets@, r, s0.0 as int)
                    && below_mean(old(self).markets@, r, d0.0 as int),
                both && t > 0 ==> self.markets@[d0.0 as int].stock(r) > old(self).markets@[d0.0 as int].stock(r),
                t <= transfers@.len(),
                forall|k: int| 0 <= k < transfers@.len() ==> (#[trigger] transfers@[k]).2 <= MAX_TRANSFER,
                forall|a: int, b: int| 0 <= a < b < transfers@.len() ==> (#[trigger] transfers@[a]).1 < (#[trigger] transfers@[b]).1,
                forall|k: int| 0 <= k < n ==> moved_only(#[trigger] self.markets@[k], old(self).markets@[k], r),
                forall|k: int| 0 <= k < n ==> #[trigger] self.markets@[k].stocks(r) == old(self).markets@[k].stocks(r),
                forall|k: int| 0 <= k < n && (#[trigger] self.markets@[k]).stock(r) < old(self).markets@[k].stock(r)
                    ==> above_mean(old(self).markets@, r, k),
                forall|k: int| 0 <= k < n && (#[trigger] self.markets@[k]).stock(r) > old(self).markets@[k].stock(r)
                    ==> below_mean(old(self).markets@, r, k),
                forall|k: int| 0 <= k < n ==> (#[trigger] self.markets@[k]).stock(r) <= old(self).markets@[k].stock(r) + MAX_TRANSFER,
                forall|k: int| 0 <= k < n && (forall|j: int| 0 <= j < t ==> (#[trigger] transfers@[j]).1 != k)
                    ==> (#[trigger] self.markets@[k]).stock(r) <= old(self).markets@[k].stock(r),
            decreases transfers@.len() - t,
        {
            let (from, to, amount) = transfers[t];
            let ghost before = self.markets@;
            let ok = self.transfer(from, to, r, amount);
            proof {
                assert(old(self).markets@[to as int].stocks(r));
                assert(before[to as int].stocks(r));
                assert forall|k: int| 0 <= k < n implies #[trigger] self.markets@[k].stocks(r) == old(self).markets@[k].stocks(r) by {
                    assert(before[k].stocks(r) == old(self).markets@[k].stocks(r));
                }
                let mean = mean_stock(old(self).markets@, r);
                assert(above_mean(old(self).markets@, r, from as int) && below_mean(old(self).markets@, r, to as int));
                assert(forall|j: int| 0 <= j < t ==> (#[trigger] transfers@[j]).1 != to as int);
                assert forall|k: int| 0 <= k < n implies moved_only(#[trigger] self.markets@[k], old(self).markets@[k], r) by {
                    lemma_moved_only_trans(old(self).markets@[k], before[k], self.markets@[k], r);
                }
                assert forall|k: int| 0 <= k < n implies {
                    &&& ((#[trigger] self.markets@[k]).stock(r) < old(self).markets@[k].stock(r) ==> above_mean(old(self).markets@, r, k))
                    &&& (self.markets@[k].stock(r) > old(self).markets@[k].stock(r) ==> below_mean(old(self).markets@, r, k))
                    &&& self.markets@[k].stock(r) <= old(self).markets@[k].stock(r) + MAX_TRANSFER
                    &&& ((forall|j: int| 0 <= j < t + 1 ==> (#[trigger] transfers@[j]).1 != k) ==> self.markets@[k].stock(r) <= old(self).markets@[k].stock(r))
                } by {
                    if k != from && k != to {
                        assert(self.markets@[k] == before[k]);
                        if forall|j: int| 0 <= j < t + 1 ==> (#[trigger] transfers@[j]).1 != k {
                            assert(forall|j: int| 0 <= j < t ==> (#[trigger] transfers@[j]).1 != k);
                        }
                    } else if k == to {
                        assert(transfers@[t as int].1 == k);
                    } else {
                        if forall|j: int| 0 <= j < t + 1 ==> (#[trigger] transfers@[j]).1 != k {
                            assert(forall|j: int| 0 <= j < t ==> (#[trigger] transfers@[j]).1 != k);
                        }
                    }
                }
                if both && t == 0 {
                    let qs = old(self).markets@[s0.0 as int].stock(r);
                    let qd = old(self).markets@[d0.0 as int].stock(r);
                    assert(qd < avg && avg < qs);
                    assert(from != to);
                    assert(ok);
                }
                if both && t > 0 {
                    assert(from as int != d0.0 as int);
                    if to as int != d0.0 as int {
                        assert(self.markets@[d0.0 as int] == before[d0.0 as int]);
                    }
                }
            }
            t += 1;
        }
        proof {
            if both {
                assert(self.markets@[d0.0 as int].stock(r) > old(self).markets@[d0.0 as int].stock(r));
            }
            lemma_same_stock(old(self).markets@, old(self).markets@, r);
        }
    }

    /// Evens out the stocks of wood, stone, iron and food across markets, one resource
    /// after the other, as `balance_resource` describes; books, prices and every other
    /// stock stay as they were, and no market comes to stock a good it did not stock,
    /// since goods only move to markets already holding them.
    pub fn balance_market_inventories(&mut self)
        requires
            old(self).wf(),
        ensures
            final(self).wf(),
            final(self).markets@.len() == old(self).markets@.len(),
            forall|res: ResourceType| #[trigger] total_stock(final(self).markets@, res) == total_stock(old(self).markets@, res),
            balanced(old(self).markets@, final(self).markets@, ResourceType::Wood),
            balanced(old(self).markets@, final(self).markets@, ResourceType::Stone),
            balanced(old(self).markets@, final(self).markets@, ResourceType::Iron),
            balanced(old(self).markets@, final(self).markets@, ResourceType::Food),
            forall|k: int| 0 <= k < old(self).markets@.len() ==> kept_goods(#[trigger] final(self).markets@[k], old(self).markets@[k]),
            forall|k: int, res: ResourceType| 0 <= k < old(self).markets@.len() ==> #[trigger] final(self).markets@[k].stocks(res) == old(self).markets@[k].stocks(res),
            forall|k: int, res: ResourceType|
                0 <= k < old(self).markets@.len() && !(res is Wood || res is Stone || res is Iron || res is Food)
                    ==> #[trigger] final(self).markets@[k].stock(res) == old(self).markets@[k].stock(res),
    {
        let ghost m0 = self.markets@;
        self.balance_resource(ResourceType::Wood);
        let ghost m1 = self.markets@;
        self.balance_resource(ResourceType::Stone);
        let ghost m2 = self.markets@;
        self.balance_resource(ResourceType::Iron);
        let ghost m3 = self.markets@;
        self.balance_resource(ResourceType::Food);
        let ghost m4 = self.markets@;
        proof {
            let n = m0.len();
            assert forall|k: int| 0 <= k < n implies kept_goods(#[trigger] m4[k], m0[k]) && {
                &&& m4[k].stock(ResourceType::Wood) == m1[k].stock(ResourceType::Wood)
                &&& m4[k].stocks(ResourceType::Wood) == m1[k].stocks(ResourceType::Wood)
                &&& m4[k].stock(ResourceType::Stone) == m2[k].stock(ResourceType::Stone)
                &&& m4[k].stocks(ResourceType::Stone) == m2[k].stocks(ResourceType::Stone)
                &&& m4[k].stock(ResourceType::Iron) == m3[k].stock(ResourceType::Iron)
                &&& m4[k].stocks(ResourceType::Iron) == m3[k].stocks(ResourceType::Iron)
                &&& m1[k].stock(ResourceType::Stone) == m0[k].stock(ResourceType::Stone)
                &&& m1[k].stocks(ResourceType::Stone) == m0[k].stocks(ResourceType::Stone)
                &&& m2[k].stock(ResourceType::Iron) == m0[k].stock(ResourceType::Iron)
                &&& m2[k].stocks(ResourceType::Iron) == m0[k].stocks(ResourceType::Iron)
                &&& m3[k].stock(ResourceType::Food) == m0[k].stock(ResourceType::Food)
                &&& m3[k].stocks(ResourceType::Food) == m0[k].stocks(ResourceType::Food)
            } by {
                assert(moved_only(m1[k], m0[k], ResourceType::Wood));
                assert(moved_only(m2[k], m1[k], ResourceType::Stone));
                assert(moved_only(m3[k], m2[k], ResourceType::Iron));
                assert(moved_only(m4[k], m3[k], ResourceType::Food));
                assert(kept_goods(m0[k], m0[k]));
                lemma_kept_goods(m0[k], m0[k], m1[k], ResourceType::Wood);
                lemma_kept_goods(m0[k], m1[k], m2[k], ResourceType::Stone);
                lemma_kept_goods(m0[k], m2[k], m3[k], ResourceType::Iron);
                lemma_kept_goods(m0[k], m3[k], m4[k], ResourceType::Food);
                assert(m2[k].stock(ResourceType::Wood) == m1[k].stock(ResourceType::Wood));
                assert(m3[k].stock(ResourceType::Wood) == m2[k].stock(ResourceType::Wood));
                assert(m3[k].stock(ResourceType::Stone) == m2[k].stock(ResourceType::Stone));
                assert(m1[k].stock(ResourceType::Iron) == m0[k].stock(ResourceType::Iron));
                assert(m1[k].stock(ResourceType::Food) == m0[k].stock(ResourceType::Food));
                assert(m2[k].stock(ResourceType::Food) == m1[k].stock(ResourceType::Food));
            }
            assert forall|k: int, res: ResourceType|
                0 <= k < n && !(res is Wood || res is Stone || res is Iron || res is Food)
                    implies #[trigger] m4[k].stock(res) == m0[k].stock(res) by {
                assert(moved_only(m1[k], m0[k], ResourceType::Wood));
                assert(moved_only(m2[k], m1[k], ResourceType::Stone));
                assert(moved_only(m3[k], m2[k], ResourceType::Iron));
                assert(moved_only(m4[k], m3[k], ResourceType::Food));
                assert(m1[k].stock(res) == m0[k].stock(res));
                assert(m2[k].stock(res) == m1[k].stock(res));
                assert(m3[k].stock(res) == m2[k].stock(res));
            }
            assert forall|k: int, res: ResourceType| 0 <= k < n implies #[trigger] m4[k].stocks(res) == m0[k].stocks(res) by {
                assert(moved_only(m1[k], m0[k], ResourceType::Wood) && m1[k].stocks(ResourceType::Wood) == m0[k].stocks(ResourceType::Wood));
                assert(moved_only(m2[k], m1[k], ResourceType::Stone) && m2[k].stocks(ResourceType::Stone) == m1[k].stocks(ResourceType::Stone));
                assert(moved_only(m3[k], m2[k], ResourceType::Iron) && m3[k].stocks(ResourceType::Iron) == m2[k].stocks(ResourceType::Iron));
                assert(moved_only(m4[k], m3[k], ResourceType::Food) && m4[k].stocks(ResourceType::Food) == m3[k].stocks(ResourceType::Food));
                assert(m1[k].stocks(res) == m0[k].stocks(res));
                assert(m2[k].stocks(res) == m1[k].stocks(res));
                assert(m3[k].stocks(res) == m2[k].stocks(res));
                assert(m4[k].stocks(res) == m3[k].stocks(res));
            }
            lemma_balanced_frame(m0, m0, m1, m4, ResourceType::Wood);
            lemma_balanced_frame(m0, m1, m2, m4, ResourceType::Stone);
            lemma_balanced_frame(m0, m2, m3, m4, ResourceType::Iron);
            lemma_balanced_frame(m0, m3, m4, m4, ResourceType::Food);
        }
    }
}

} // verus!
