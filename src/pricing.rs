use vstd::prelude::*;

use crate::market::{
    order_volume, price_ceiling, price_floor, target_price, Market, MarketGood, TradeOrder,
    MAX_BASE_PRICE,
};
use crate::types::ResourceType;

verus! {

pub proof fn lemma_volume_bound(s: Seq<TradeOrder>, r: ResourceType)
    ensures
        0 <= order_volume(s, r) <= s.len() * (u32::MAX as int),
    decreases s.len(),
{
    if s.len() > 0 {
        lemma_volume_bound(s.drop_last(), r);
    }
}

/// Units of `r` asked for by the open orders of `orders`.
pub fn open_volume(orders: &Vec<TradeOrder>, r: ResourceType) -> (d: u128)
    ensures
        d == order_volume(orders@, r),
{
    let mut total: u128 = 0;
    let mut i: usize = 0;
    while i < orders.len()
        invariant
            i <= orders@.len(),
            total == order_volume(orders@.subrange(0, i as int), r),
        decreases orders@.len() - i,
    {
        proof {
            let s = orders@.subrange(0, i as int + 1);
            assert(s.drop_last() == orders@.subrange(0, i as int));
            lemma_volume_bound(orders@.subrange(0, i as int), r);
            assert(i * (u32::MAX as int) <= usize::MAX * (u32::MAX as int)) by (nonlinear_arith)
                requires
                    i <= usize::MAX,
            ;
        }
        if orders[i].resource == r {
            total = total + orders[i].quantity as u128;
        }
        i += 1;
    }
    assert(orders@.subrange(0, orders@.len() as int) == orders@);
    total
}

/// The price that `target_price` gives, computed without overflow.
pub fn next_price(base: u64, stock: u32, demand: u128) -> (p: u64)
    requires
        base <= MAX_BASE_PRICE,
    ensures
        p == target_price(base as int, stock as int, demand as int),
        price_floor(base as int) <= p <= price_ceiling(base as int),
{
    if demand == 0 {
        base
    } else if stock == 0 {
        assert(base * 9 / 5 <= 3 * base && base / 2 <= base * 9 / 5) by (nonlinear_arith)
            requires
                base >= 0,
        ;
        base * 9 / 5
    } else if demand >= 5 * (stock as u128) {
        proof {
            let b: int = base as int;
            let s: int = stock as int;
            let d: int = demand as int;
            assert(b * (5 * s + 2 * d) >= (3 * b) * (5 * s)) by (nonlinear_arith)
                requires
                    d >= 5 * s,
                    b >= 0,
                    s > 0,
            ;
            assert((3 * b) * (5 * s) / (5 * s) == 3 * b) by {
                vstd::arithmetic::div_mod::lemma_div_by_multiple(3 * b, 5 * s);
            }
            vstd::arithmetic::div_mod::lemma_div_is_ordered((3 * b) * (5 * s), b * (5 * s + 2 * d), 5 * s);
            assert(b / 2 <= 3 * b);
        }
        3 * base
    } else {
        let ghost b: int = base as int;
        let ghost s: int = stock as int;
        let ghost d: int = demand as int;
        assert((base as u128) * (5 * (stock as u128) + 2 * demand) <= 1_000_000_000 * 15
            * 4_294_967_295u128) by (nonlinear_arith)
            requires
                base <= 1_000_000_000,
                demand < 5 * (stock as u128),
                stock <= 4_294_967_295u32,
        ;
        let num: u128 = (base as u128) * (5 * (stock as u128) + 2 * demand);
        let den: u128 = 5 * (stock as u128);
        let raw = num / den;
        proof {
            assert(b * (5 * s + 2 * d) <= (3 * b) * (5 * s)) by (nonlinear_arith)
                requires
                    d < 5 * s,
                    b >= 0,
                    s > 0,
            ;
            assert(b * (5 * s + 2 * d) >= b * (5 * s)) by (nonlinear_arith)
                requires
                    d >= 0,
                    b >= 0,
                    s > 0,
            ;
            vstd::arithmetic::div_mod::lemma_div_by_multiple(3 * b, 5 * s);
            vstd::arithmetic::div_mod::lemma_div_by_multiple(b, 5 * s);
            vstd::arithmetic::div_mod::lemma_div_is_ordered(
                b * (5 * s + 2 * d),
                (3 * b) * (5 * s),
                5 * s,
            );
            vstd::arithmetic::div_mod::lemma_div_is_ordered(b * (5 * s), b * (5 * s + 2 * d), 5 * s);
            assert(b / 2 <= b);
        }
        raw as u64
    }
}

impl Market {
    /// Rebases the current price of every stocked good on its base price, scaled by
    /// the open demand for it against its stock, within the price bounds.
    pub fn update_prices(&mut self)
        requires
            old(self).wf(),
        ensures
            final(self).wf(),
            final(self).inventory@.len() == old(self).inventory@.len(),
            forall|i: int|
                0 <= i < old(self).inventory@.len() ==> #[trigger] final(self).inventory@[i]
                    == (MarketGood {
                    current_price: target_price(
                        old(self).inventory@[i].base_price as int,
                        old(self).inventory@[i].quantity as int,
                        order_volume(old(self).buy_orders@, old(self).inventory@[i].resource_type),
                    ) as u64,
                    ..old(self).inventory@[i]
                }),
            final(self).buy_orders == old(self).buy_orders,
            final(self).sell_orders == old(self).sell_orders,
            final(self).id == old(self).id,
            final(self).name == old(self).name,
            final(self).position == old(self).position,
            final(self).market_type == old(self).market_type,
            final(self).transaction_count == old(self).transaction_count,
    {
        let mut i: usize = 0;
        while i < self.inventory.len()
            invariant
                self.wf(),
                i <= self.inventory@.len(),
                self.inventory@.len() == old(self).inventory@.len(),
                forall|k: int|
                    i <= k < self.inventory@.len() ==> #[trigger] self.inventory@[k]
                        == old(self).inventory@[k],
                forall|k: int|
                    0 <= k < i ==> #[trigger] self.inventory@[k] == (MarketGood {
                        current_price: target_price(
                            old(self).inventory@[k].base_price as int,
                            old(self).inventory@[k].quantity as int,
                            order_volume(
                                old(self).buy_orders@,
                                old(self).inventory@[k].resource_type,
                            ),
                        ) as u64,
                        ..old(self).inventory@[k]
                    }),
                self.buy_orders == old(self).buy_orders,
                self.sell_orders == old(self).sell_orders,
                self.id == old(self).id,
                self.name == old(self).name,
                self.position == old(self).position,
                self.market_type == old(self).market_type,
                self.transaction_count == old(self).transaction_count,
            decreases self.inventory@.len() - i,
        {
            let mut g = self.inventory[i];
            let demand = open_volume(&self.buy_orders, g.resource_type);
            g.current_price = next_price(g.base_price, g.quantity, demand);
            self.inventory.set(i, g);
            i += 1;
        }
    }
}

} // verus!
