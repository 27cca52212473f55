use vstd::prelude::*;

use crate::ids::fresh_id;
use crate::types::{GridCoord, ResourceType};

verus! {

/// Largest base price (in mils per unit) a market accepts, so that the cost of any
/// `u32` quantity at up to three times the base price fits a `u64`.
pub const MAX_BASE_PRICE: u64 = 1_000_000_000;

#[derive(Debug, Clone, Copy, PartialEq, Eq, Structural)]
pub enum MarketType {
    General,
    Food,
    Materials,
    Luxury,
    Weapons,
}

#[derive(Debug, Clone, Copy, PartialEq, Eq, Structural)]
pub enum OrderType {
    Buy,
    Sell,
}

/// One stocked good of a market, with its live price in mils per unit.
#[derive(Debug, Clone, Copy, PartialEq, Eq, Structural)]
pub struct MarketGood {
    pub resource_type: ResourceType,
    pub quantity: u32,
    pub base_price: u64,
    pub current_price: u64,
}

/// Lowest price a good may have: half its base price.
pub open spec fn price_floor(base: int) -> int {
    base / 2
}

/// Highest price a good may have: three times its base price.
pub open spec fn price_ceiling(base: int) -> int {
    3 * base
}

pub open spec fn clamp(v: int, lo: int, hi: int) -> int {
    if v < lo {
        lo
    } else if v > hi {
        hi
    } else {
        v
    }
}

/// Price of a good with base price `base`, `stock` units in store and `demand` units
/// asked for by open buy orders. No demand leaves the base price; otherwise the price
/// rises with the demand-to-stock ratio (an empty store counts as a ratio of two), by
/// two fifths of the base price per unit of ratio, and is clamped to the price bounds.
pub open spec fn target_price(base: int, stock: int, demand: int) -> int {
    if demand == 0 {
        base
    } else if stock == 0 {
        clamp(base * 9 / 5, price_floor(base), price_ceiling(base))
    } else {
        clamp(
            base * (5 * stock + 2 * demand) / (5 * stock),
            price_floor(base),
            price_ceiling(base),
        )
    }
}

impl MarketGood {
    pub open spec fn wf(self) -> bool {
        &&& self.base_price <= MAX_BASE_PRICE
        &&& price_floor(self.base_price as int) <= self.current_price
        &&& self.current_price <= price_ceiling(self.base_price as int)
    }
}

/// An order to buy or sell `quantity` units at `price_per_unit` mils each.
#[derive(Debug, Clone, Copy, PartialEq, Eq, Structural)]
pub struct TradeOrder {
    pub id: u128,
    pub agent_id: u128,
    pub resource: ResourceType,
    pub quantity: u32,
    pub price_per_unit: u64,
    pub order_type: OrderType,
}

/// A completed match of a buy order against a sell order.
#[derive(Debug, Clone, Copy, PartialEq, Eq, Structural)]
pub struct TradeExecution {
    pub id: u128,
    pub buyer_id: u128,
    pub seller_id: u128,
    pub resource: ResourceType,
    pub quantity: u32,
    pub price_per_unit: u64,
    pub market_id: u128,
}

impl TradeExecution {
    /// Money the buyer owes the seller, in mils.
    pub open spec fn value(self) -> int {
        self.quantity * self.price_per_unit
    }
}

/// A buy order and a sell order cross when they name the same resource and the buyer
/// offers at least the seller's price.
pub open spec fn crosses(buy: TradeOrder, sell: TradeOrder) -> bool {
    buy.resource == sell.resource && buy.price_per_unit >= sell.price_per_unit
}

/// Units of `r` that the order `o` holds.
pub open spec fn share(o: TradeOrder, r: ResourceType) -> int {
    if o.resource == r {
        o.quantity as int
    } else {
        0
    }
}

/// Units of `r` that the execution `t` moves.
pub open spec fn moved(t: TradeExecution, r: ResourceType) -> int {
    if t.resource == r {
        t.quantity as int
    } else {
        0
    }
}

/// Units of `r` held by the orders of `s`.
pub open spec fn order_volume(s: Seq<TradeOrder>, r: ResourceType) -> int
    decreases s.len(),
{
    if s.len() == 0 {
        0
    } else {
        order_volume(s.drop_last(), r) + share(s.last(), r)
    }
}

/// Units of `r` moved by the executions of `s`.
pub open spec fn traded_volume(s: Seq<TradeExecution>, r: ResourceType) -> int
    decreases s.len(),
{
    if s.len() == 0 {
        0
    } else {
        traded_volume(s.drop_last(), r) + moved(s.last(), r)
    }
}

/// The price a crossing pair trades at: the midpoint of the two prices, rounded down.
pub open spec fn midpoint(a: int, b: int) -> int {
    (a + b) / 2
}

/// `o` is `orig` with its quantity reduced (possibly not at all).
pub open spec fn same_order(o: TradeOrder, orig: TradeOrder) -> bool {
    &&& o.id == orig.id
    &&& o.agent_id == orig.agent_id
    &&& o.resource == orig.resource
    &&& o.price_per_unit == orig.price_per_unit
    &&& o.order_type == orig.order_type
    &&& o.quantity <= orig.quantity
}

/// A physical market where trade happens.
#[derive(Debug, Clone)]
pub struct Market {
    pub id: u128,
    pub position: GridCoord,
    pub name: String,
    pub market_type: MarketType,
    /// Goods in store, at most one entry per resource.
    pub inventory: Vec<MarketGood>,
    pub buy_orders: Vec<TradeOrder>,
    pub sell_orders: Vec<TradeOrder>,
    pub transaction_count: u64,
}

impl Market {
    pub open spec fn wf(&self) -> bool {
        &&& forall|i: int| 0 <= i < self.inventory@.len() ==> (#[trigger] self.inventory@[i]).wf()
        &&& forall|i: int, j: int|
            0 <= i < j < self.inventory@.len() ==> (#[trigger] self.inventory@[i]).resource_type
                != (#[trigger] self.inventory@[j]).resource_type
        &&& forall|i: int|
            0 <= i < self.buy_orders@.len() ==> (#[trigger] self.buy_orders@[i]).quantity > 0
        &&& forall|i: int|
            0 <= i < self.sell_orders@.len() ==> (#[trigger] self.sell_orders@[i]).quantity > 0
    }

    pub open spec fn stocks(&self, r: ResourceType) -> bool {
        exists|i: int| 0 <= i < self.inventory@.len() && (#[trigger] self.inventory@[i]).resource_type == r
    }

    /// Units of `r` in store.
    pub open spec fn stock(&self, r: ResourceType) -> int {
        if self.stocks(r) {
            let i = choose|i: int|
                0 <= i < self.inventory@.len() && (#[trigger] self.inventory@[i]).resource_type == r;
            self.inventory@[i].quantity as int
        } else {
            0
        }
    }

    /// Current price of `r`, in mils per unit, where the market stocks it.
    pub open spec fn price(&self, r: ResourceType) -> int {
        let i = choose|i: int|
            0 <= i < self.inventory@.len() && (#[trigger] self.inventory@[i]).resource_type == r;
        self.inventory@[i].current_price as int
    }

    pub fn new(name: String, position: GridCoord, market_type: MarketType) -> (r: Market)
        ensures
            r.wf(),
            r.name@ == name@,
            r.position == position,
            r.market_type == market_type,
            r.inventory@.len() == 0,
            r.buy_orders@.len() == 0,
            r.sell_orders@.len() == 0,
            r.transaction_count == 0,
    {
        Market {
            id: fresh_id(),
            position,
            name,
            market_type,
            inventory: Vec::new(),
            buy_orders: Vec::new(),
            sell_orders: Vec::new(),
            transaction_count: 0,
        }
    }

    /// The inventory slot holding `r`, if the market stocks it.
    pub fn find_good(&self, r: ResourceType) -> (idx: Option<usize>)
        requires
            self.wf(),
        ensures
            match idx {
                Some(i) => i < self.inventory@.len() && self.inventory@[i as int].resource_type == r
                    && self.stocks(r) && self.stock(r) == self.inventory@[i as int].quantity
                    && self.price(r) == self.inventory@[i as int].current_price,
                None => !self.stocks(r) && self.stock(r) == 0,
            },
    {
        let mut i: usize = 0;
        while i < self.inventory.len()
            invariant
                self.wf(),
                i <= self.inventory@.len(),
                forall|k: int| 0 <= k < i ==> (#[trigger] self.inventory@[k]).resource_type != r,
            decreases self.inventory@.len() - i,
        {
            if self.inventory[i].resource_type == r {
                proof {
                    self.lemma_stock_at(i as int);
                }
                return Some(i);
            }
            i += 1;
        }
        None
    }

    /// Adds `quantity` units of `resource` to the store. A resource not yet stocked
    /// enters at `base_price`; a stocked one keeps its prices.
    pub fn add_inventory(&mut self, resource: ResourceType, quantity: u32, base_price: u64)
        requires
            old(self).wf(),
            base_price <= MAX_BASE_PRICE,
            old(self).stock(resource) + quantity <= u32::MAX,
        ensures
            final(self).wf(),
            final(self).stocks(resource),
            final(self).stock(resource) == old(self).stock(resource) + quantity,
            forall|r: ResourceType| r != resource ==> final(self).stock(r) == old(self).stock(r),
            forall|r: ResourceType| r != resource ==> final(self).stocks(r) == old(self).stocks(r),
            old(self).stocks(resource) ==> final(self).inventory@.len() == old(self).inventory@.len(),
            !old(self).stocks(resource) ==> final(self).inventory@ == old(self).inventory@.push(
                MarketGood {
                    resource_type: resource,
                    quantity,
                    base_price,
                    current_price: base_price,
                },
            ),
            forall|i: int|
                0 <= i < old(self).inventory@.len() ==> {
                    &&& (#[trigger] final(self).inventory@[i]).resource_type
                        == old(self).inventory@[i].resource_type
                    &&& final(self).inventory@[i].base_price == old(self).inventory@[i].base_price
                    &&& final(self).inventory@[i].current_price
                        == old(self).inventory@[i].current_price
                },
            forall|r: ResourceType|
                old(self).stocks(r) ==> #[trigger] final(self).price(r) == old(self).price(r),
            final(self).buy_orders == old(self).buy_orders,
            final(self).sell_orders == old(self).sell_orders,
            final(self).id == old(self).id,
            final(self).name == old(self).name,
            final(self).position == old(self).position,
            final(self).market_type == old(self).market_type,
            final(self).transaction_count == old(self).transaction_count,
    {
        match self.find_good(resource) {
            Some(i) => {
                let mut g = self.inventory[i];
                g.quantity = g.quantity + quantity;
                self.inventory.set(i, g);
                proof {
                    self.lemma_stock_at(i as int);
                    assert forall|r: ResourceType| r != resource implies self.stock(r) == old(
                        self,
                    ).stock(r) && self.stocks(r) == old(self).stocks(r) by {
                        if old(self).stocks(r) {
                            let c = choose|c: int|
                                0 <= c < old(self).inventory@.len() && (#[trigger] old(
                                    self,
                                ).inventory@[c]).resource_type == r;
                            self.lemma_stock_at(c);
                        }
                        assert(self.stocks(r) ==> old(self).stocks(r)) by {
                            if self.stocks(r) {
                                let c = choose|c: int|
                                    0 <= c < self.inventory@.len()
                                        && (#[trigger] self.inventory@[c]).resource_type == r;
                                assert(old(self).inventory@[c].resource_type == r);
                            }
                        }
                    }
                }
            },
            None => {
                let g = MarketGood {
                    resource_type: resource,
                    quantity,
                    base_price,
                    current_price: base_price,
                };
                self.inventory.push(g);
                proof {
                    let n = old(self).inventory@.len() as int;
                    assert(self.inventory@[n].resource_type == resource);
                    self.lemma_stock_at(n);
                    assert forall|r: ResourceType| r != resource implies self.stock(r) == old(
                        self,
                    ).stock(r) && self.stocks(r) == old(self).stocks(r) by {
                        if old(self).stocks(r) {
                            let c = choose|c: int|
                                0 <= c < old(self).inventory@.len() && (#[trigger] old(
                                    self,
                                ).inventory@[c]).resource_type == r;
                            assert(self.inventory@[c] == old(self).inventory@[c]);
                            self.lemma_stock_at(c);
                        }
                        if self.stocks(r) {
                            let c = choose|c: int|
                                0 <= c < self.inventory@.len()
                                    && (#[trigger] self.inventory@[c]).resource_type == r;
                            assert(c < n);
                            assert(old(self).inventory@[c].resource_type == r);
                        }
                    }
                }
            },
        }
        proof {
            assert forall|r: ResourceType| old(self).stocks(r) implies #[trigger] self.price(r) == old(self).price(r) by {
                let c = choose|c: int|
                    0 <= c < old(self).inventory@.len() && (#[trigger] old(self).inventory@[c]).resource_type == r;
                old(self).lemma_stock_at(c);
                assert(self.inventory@[c].resource_type == r);
                assert(self.inventory@[c].current_price == old(self).inventory@[c].current_price);
                self.lemma_stock_at(c);
            }
        }
    }

    /// Takes `quantity` units of `resource` out of the store, all or nothing: returns
    /// whether the store held enough.
    pub fn remove_inventory(&mut self, resource: ResourceType, quantity: u32) -> (ok: bool)
        requires
            old(self).wf(),
        ensures
            final(self).wf(),
            ok == (old(self).stocks(resource) && old(self).stock(resource) >= quantity),
            ok ==> final(self).stock(resource) == old(self).stock(resource) - quantity,
            forall|r: ResourceType|
                old(self).stocks(r) ==> #[trigger] final(self).price(r) == old(self).price(r),
            !ok ==> final(self).inventory@ == old(self).inventory@,
            forall|r: ResourceType| r != resource ==> final(self).stock(r) == old(self).stock(r),
            forall|r: ResourceType| final(self).stocks(r) == old(self).stocks(r),
            final(self).inventory@.len() == old(self).inventory@.len(),
            forall|i: int|
                0 <= i < old(self).inventory@.len() ==> {
                    &&& (#[trigger] final(self).inventory@[i]).resource_type
                        == old(self).inventory@[i].resource_type
                    &&& final(self).inventory@[i].base_price == old(self).inventory@[i].base_price
                    &&& final(self).inventory@[i].current_price
                        == old(self).inventory@[i].current_price
                },
            final(self).buy_orders == old(self).buy_orders,
            final(self).sell_orders == old(self).sell_orders,
            final(self).id == old(self).id,
            final(self).transaction_count == old(self).transaction_count,
    {
        match self.find_good(resource) {
            Some(i) => {
                if self.inventory[i].quantity >= quantity {
                    let mut g = self.inventory[i];
                    g.quantity = g.quantity - quantity;
                    self.inventory.set(i, g);
                    proof {
                        self.lemma_stock_at(i as int);
                        assert forall|r: ResourceType| r != resource implies self.stock(r) == old(
                            self,
                        ).stock(r) by {
                            if old(self).stocks(r) {
                                let c = choose|c: int|
                                    0 <= c < old(self).inventory@.len() && (#[trigger] old(
                                        self,
                                    ).inventory@[c]).resource_type == r;
                                self.lemma_stock_at(c);
                            }
                            if self.stocks(r) {
                                let c = choose|c: int|
                                    0 <= c < self.inventory@.len()
                                        && (#[trigger] self.inventory@[c]).resource_type == r;
                                assert(old(self).inventory@[c].resource_type == r);
                            }
                        }
                        assert forall|r: ResourceType| old(self).stocks(r) implies #[trigger] self.price(r)
                            == old(self).price(r) by {
                            let c = choose|c: int|
                                0 <= c < old(self).inventory@.len() && (#[trigger] old(
                                    self,
                                ).inventory@[c]).resource_type == r;
                            old(self).lemma_stock_at(c);
                            self.lemma_stock_at(c);
                        }
                        assert forall|r: ResourceType| self.stocks(r) == old(self).stocks(r) by {
                            if old(self).stocks(r) {
                                let c = choose|c: int|
                                    0 <= c < old(self).inventory@.len() && (#[trigger] old(
                                        self,
                                    ).inventory@[c]).resource_type == r;
                                assert(self.inventory@[c].resource_type == r);
                            }
                            if self.stocks(r) {
                                let c = choose|c: int|
                                    0 <= c < self.inventory@.len()
                                        && (#[trigger] self.inventory@[c]).resource_type == r;
                                assert(old(self).inventory@[c].resource_type == r);
                            }
                        }
                    }
                    true
                } else {
                    false
                }
            },
            None => false,
        }
    }

    /// Queues a buy order; an order for nothing is not queued.
    pub fn place_buy_order(&mut self, order: TradeOrder)
        requires
            old(self).wf(),
        ensures
            final(self).wf(),
            final(self).buy_orders@ == if order.quantity > 0 {
                old(self).buy_orders@.push(order)
            } else {
                old(self).buy_orders@
            },
            final(self).sell_orders == old(self).sell_orders,
            final(self).inventory == old(self).inventory,
            final(self).id == old(self).id,
            final(self).transaction_count == old(self).transaction_count,
    {
        if order.quantity > 0 {
            self.buy_orders.push(order);
        }
    }

    /// Queues a sell order; an order for nothing is not queued.
    pub fn place_sell_order(&mut self, order: TradeOrder)
        requires
            old(self).wf(),
        ensures
            final(self).wf(),
            final(self).sell_orders@ == if order.quantity > 0 {
                old(self).sell_orders@.push(order)
            } else {
                old(self).sell_orders@
            },
            final(self).buy_orders == old(self).buy_orders,
            final(self).inventory == old(self).inventory,
            final(self).id == old(self).id,
            final(self).transaction_count == old(self).transaction_count,
    {
        if order.quantity > 0 {
            self.sell_orders.push(order);
        }
    }

    /// Every good of a well-formed market is priced within its bounds: at least half
    /// and at most three times its base price. Every operation on a market keeps it
    /// well-formed, so this holds at all times.
    pub proof fn lemma_prices_in_bounds(&self)
        requires
            self.wf(),
        ensures
            forall|i: int|
                0 <= i < self.inventory@.len() ==> price_floor((#[trigger] self.inventory@[i]).base_price as int)
                    <= self.inventory@[i].current_price <= price_ceiling(self.inventory@[i].base_price as int),
    {
    }

    pub proof fn lemma_stock_at(&self, i: int)
        requires
            self.wf(),
            0 <= i < self.inventory@.len(),
        ensures
            self.stocks(self.inventory@[i].resource_type),
            self.stock(self.inventory@[i].resource_type) == self.inventory@[i].quantity,
            self.price(self.inventory@[i].resource_type) == self.inventory@[i].current_price,
    {
        let r = self.inventory@[i].resource_type;
        let c = choose|c: int|
            0 <= c < self.inventory@.len() && (#[trigger] self.inventory@[c]).resource_type == r;
        if c != i {
            if c < i {
                assert(self.inventory@[c].resource_type != self.inventory@[i].resource_type);
            } else {
                assert(self.inventory@[i].resource_type != self.inventory@[c].resource_type);
            }
        }
    }
}

} // verus!
