use vstd::prelude::*;

use crate::ids::fresh_id;
use crate::market::{
    crosses, midpoint, moved, order_volume, same_order, share, traded_volume, Market,
    TradeExecution, TradeOrder,
};
use crate::types::ResourceType;

verus! {

/// No open buy order crosses an open sell order.
pub open spec fn cleared(buys: Seq<TradeOrder>, sells: Seq<TradeOrder>) -> bool {
    forall|i: int, j: int|
        0 <= i < buys.len() && 0 <= j < sells.len() ==> !crosses(
            #[trigger] buys[i],
            #[trigger] sells[j],
        )
}

/// `o` is an order of `book`, perhaps partly filled.
pub open spec fn in_book(o: TradeOrder, book: Seq<TradeOrder>) -> bool {
    exists|m: int| 0 <= m < book.len() && same_order(o, book[m])
}

/// Every order of `now` is an order of `before`, perhaps partly filled.
pub open spec fn drawn_from(now: Seq<TradeOrder>, before: Seq<TradeOrder>) -> bool {
    forall|k: int| 0 <= k < now.len() ==> in_book(#[trigger] now[k], before)
}

/// `now` lists, in the same order, orders of `before` (perhaps partly filled) found
/// at the strictly increasing positions `map`.
pub open spec fn kept_in_order(now: Seq<TradeOrder>, before: Seq<TradeOrder>, map: Seq<int>) -> bool {
    &&& map.len() == now.len()
    &&& forall|k: int| 0 <= k < now.len() ==> 0 <= #[trigger] map[k] < before.len() && same_order(now[k], before[map[k]])
    &&& forall|a: int, b: int| 0 <= a < b < map.len() ==> #[trigger] map[a] < #[trigger] map[b]
}

/// `now` is a subsequence of `before` in arrival order, each order perhaps partly filled.
pub open spec fn in_arrival_order(now: Seq<TradeOrder>, before: Seq<TradeOrder>) -> bool {
    exists|map: Seq<int>| kept_in_order(now, before, map)
}

/// The order at original position `ix[t]` takes part in no later trade and is no
/// longer in the book whose orders stand at original positions `map`.
pub open spec fn exhausted(ix: Seq<int>, map: Seq<int>, t: int) -> bool {
    &&& forall|u: int| t < u < ix.len() ==> #[trigger] ix[u] != ix[t]
    &&& forall|k: int| 0 <= k < map.len() ==> #[trigger] map[k] != ix[t]
}

/// Trade `t` of `trades` fills the buy order at original position `bi[t]` against the
/// sell order at `si[t]`, and exhausts one of them: each trade moves all that was left
/// of one of its two orders.
pub open spec fn trades_exhaust(
    trades: Seq<TradeExecution>,
    ob: Seq<TradeOrder>,
    os: Seq<TradeOrder>,
    bi: Seq<int>,
    si: Seq<int>,
    bm: Seq<int>,
    sm: Seq<int>,
) -> bool {
    &&& bi.len() == trades.len()
    &&& si.len() == trades.len()
    &&& forall|t: int| 0 <= t < trades.len() ==> 0 <= #[trigger] bi[t] < ob.len() && 0 <= si[t] < os.len()
        && fill_of(trades[t], ob[bi[t]], os[si[t]])
    &&& forall|t: int| 0 <= t < trades.len() ==> #[trigger] exhausted(bi, bm, t) || exhausted(si, sm, t)
}

/// Every trade moved all that was left of its buy order or of its sell order.
pub open spec fn each_trade_exhausts(
    trades: Seq<TradeExecution>,
    ob: Seq<TradeOrder>,
    os: Seq<TradeOrder>,
    nb: Seq<TradeOrder>,
    ns: Seq<TradeOrder>,
) -> bool {
    exists|bi: Seq<int>, si: Seq<int>, bm: Seq<int>, sm: Seq<int>|
        kept_in_order(nb, ob, bm) && kept_in_order(ns, os, sm) && trades_exhaust(trades, ob, os, bi, si, bm, sm)
}

proof fn lemma_exhaust_step(
    trades0: Seq<TradeExecution>,
    t: TradeExecution,
    ob: Seq<TradeOrder>,
    os: Seq<TradeOrder>,
    bi: Seq<int>,
    si: Seq<int>,
    bm0: Seq<int>,
    sm0: Seq<int>,
    bm1: Seq<int>,
    sm1: Seq<int>,
    i: int,
    j: int,
    buy_done: bool,
    sell_done: bool,
)
    requires
        trades_exhaust(trades0, ob, os, bi, si, bm0, sm0),
        0 <= i < bm0.len(),
        0 <= j < sm0.len(),
        0 <= bm0[i] < ob.len(),
        0 <= sm0[j] < os.len(),
        fill_of(t, ob[bm0[i]], os[sm0[j]]),
        forall|a: int, b: int| 0 <= a < b < bm0.len() ==> #[trigger] bm0[a] < #[trigger] bm0[b],
        forall|a: int, b: int| 0 <= a < b < sm0.len() ==> #[trigger] sm0[a] < #[trigger] sm0[b],
        buy_done || sell_done,
        bm1 == if buy_done { bm0.remove(i) } else { bm0 },
        sm1 == if sell_done { sm0.remove(j) } else { sm0 },
    ensures
        trades_exhaust(trades0.push(t), ob, os, bi.push(bm0[i]), si.push(sm0[j]), bm1, sm1),
{
    let tr = trades0.push(t);
    let bi2 = bi.push(bm0[i]);
    let si2 = si.push(sm0[j]);
    assert forall|u: int| 0 <= u < tr.len() implies 0 <= #[trigger] bi2[u] < ob.len() && 0 <= si2[u] < os.len()
        && fill_of(tr[u], ob[bi2[u]], os[si2[u]]) by {
        if u < trades0.len() {
            assert(bi2[u] == bi[u] && si2[u] == si[u] && tr[u] == trades0[u]);
        }
    }
    assert forall|u: int| 0 <= u < tr.len() implies #[trigger] exhausted(bi2, bm1, u) || exhausted(si2, sm1, u) by {
        if u == trades0.len() {
            if buy_done {
                assert forall|k: int| 0 <= k < bm1.len() implies #[trigger] bm1[k] != bi2[u] by {
                    if k < i {
                        assert(bm1[k] == bm0[k] && bm0[k] < bm0[i]);
                    } else {
                        assert(bm1[k] == bm0[k + 1] && bm0[i] < bm0[k + 1]);
                    }
                }
            } else {
                assert forall|k: int| 0 <= k < sm1.len() implies #[trigger] sm1[k] != si2[u] by {
                    if k < j {
                        assert(sm1[k] == sm0[k] && sm0[k] < sm0[j]);
                    } else {
                        assert(sm1[k] == sm0[k + 1] && sm0[j] < sm0[k + 1]);
                    }
                }
            }
        } else {
            assert(bi2[u] == bi[u] && si2[u] == si[u]);
            if exhausted(bi, bm0, u) {
                assert(bm0[i] != bi[u]);
                assert forall|v: int| u < v < bi2.len() implies #[trigger] bi2[v] != bi2[u] by {
                    if v < bi.len() {
                        assert(bi2[v] == bi[v]);
                    }
                }
                assert forall|k: int| 0 <= k < bm1.len() implies #[trigger] bm1[k] != bi2[u] by {
                    if buy_done {
                        if k < i {
                            assert(bm1[k] == bm0[k]);
                        } else {
                            assert(bm1[k] == bm0[k + 1]);
                        }
                    }
                }
                assert(exhausted(bi2, bm1, u));
            } else {
                assert(exhausted(si, sm0, u));
                assert(sm0[j] != si[u]);
                assert forall|v: int| u < v < si2.len() implies #[trigger] si2[v] != si2[u] by {
                    if v < si.len() {
                        assert(si2[v] == si[v]);
                    }
                }
                assert forall|k: int| 0 <= k < sm1.len() implies #[trigger] sm1[k] != si2[u] by {
                    if sell_done {
                        if k < j {
                            assert(sm1[k] == sm0[k]);
                        } else {
                            assert(sm1[k] == sm0[k + 1]);
                        }
                    }
                }
                assert(exhausted(si2, sm1, u));
            }
        }
    }
}

proof fn lemma_kept_remove(now: Seq<TradeOrder>, before: Seq<TradeOrder>, map: Seq<int>, i: int)
    requires
        kept_in_order(now, before, map),
        0 <= i < now.len(),
    ensures
        kept_in_order(now.remove(i), before, map.remove(i)),
{
    let n2 = now.remove(i);
    let m2 = map.remove(i);
    assert forall|k: int| 0 <= k < n2.len() implies 0 <= #[trigger] m2[k] < before.len() && same_order(n2[k], before[m2[k]]) by {
        if k < i {
            assert(n2[k] == now[k] && m2[k] == map[k]);
        } else {
            assert(n2[k] == now[k + 1] && m2[k] == map[k + 1]);
        }
    }
    assert forall|a: int, b: int| 0 <= a < b < m2.len() implies #[trigger] m2[a] < #[trigger] m2[b] by {
        let a1 = if a < i { a } else { a + 1 };
        let b1 = if b < i { b } else { b + 1 };
        assert(m2[a] == map[a1] && m2[b] == map[b1]);
        assert(map[a1] < map[b1]);
    }
}

proof fn lemma_kept_update(now: Seq<TradeOrder>, before: Seq<TradeOrder>, map: Seq<int>, i: int, o: TradeOrder)
    requires
        kept_in_order(now, before, map),
        0 <= i < now.len(),
        same_order(o, now[i]),
    ensures
        kept_in_order(now.update(i, o), before, map),
{
    let n2 = now.update(i, o);
    assert forall|k: int| 0 <= k < n2.len() implies 0 <= #[trigger] map[k] < before.len() && same_order(n2[k], before[map[k]]) by {
        if k == i {
            assert(same_order(now[i], before[map[i]]));
        }
    }
}

/// `t` is a fill of the buy order `b` against the sell order `s`: they cross, and `t`
/// moves at most what either holds at the midpoint of their prices.
pub open spec fn fill_of(t: TradeExecution, b: TradeOrder, s: TradeOrder) -> bool {
    &&& crosses(b, s)
    &&& t.buyer_id == b.agent_id
    &&& t.seller_id == s.agent_id
    &&& t.resource == b.resource
    &&& t.price_per_unit == midpoint(b.price_per_unit as int, s.price_per_unit as int)
    &&& 0 < t.quantity <= b.quantity
    &&& t.quantity <= s.quantity
}

/// `t` fills an order of `buys` against an order of `sells`.
pub open spec fn fill_from(t: TradeExecution, buys: Seq<TradeOrder>, sells: Seq<TradeOrder>) -> bool {
    exists|b: int, s: int| 0 <= b < buys.len() && 0 <= s < sells.len() && fill_of(t, buys[b], sells[s])
}

/// Every execution of `trades` fills an order of `buys` against an order of `sells`.
pub open spec fn fills_of(
    trades: Seq<TradeExecution>,
    buys: Seq<TradeOrder>,
    sells: Seq<TradeOrder>,
) -> bool {
    forall|t: int| 0 <= t < trades.len() ==> fill_from(#[trigger] trades[t], buys, sells)
}

pub proof fn lemma_volume_update(s: Seq<TradeOrder>, i: int, o: TradeOrder, r: ResourceType)
    requires
        0 <= i < s.len(),
    ensures
        order_volume(s.update(i, o), r) == order_volume(s, r) - share(s[i], r) + share(o, r),
    decreases s.len(),
{
    if i == s.len() - 1 {
        assert(s.update(i, o).drop_last() == s.drop_last());
    } else {
        assert(s.update(i, o).drop_last() == s.drop_last().update(i, o));
        lemma_volume_update(s.drop_last(), i, o, r);
    }
}

pub proof fn lemma_volume_remove(s: Seq<TradeOrder>, i: int, r: ResourceType)
    requires
        0 <= i < s.len(),
    ensures
        order_volume(s.remove(i), r) == order_volume(s, r) - share(s[i], r),
    decreases s.len(),
{
    if i == s.len() - 1 {
        assert(s.remove(i) == s.drop_last());
    } else {
        assert(s.remove(i).drop_last() == s.drop_last().remove(i));
        lemma_volume_remove(s.drop_last(), i, r);
    }
}

pub proof fn lemma_traded_push(s: Seq<TradeExecution>, t: TradeExecution, r: ResourceType)
    ensures
        traded_volume(s.push(t), r) == traded_volume(s, r) + moved(t, r),
{
    assert(s.push(t).drop_last() == s);
}

/// The first sell order that `buy` crosses.
fn first_crossing(sells: &Vec<TradeOrder>, buy: &TradeOrder) -> (r: Option<usize>)
    ensures
        match r {
            Some(j) => j < sells@.len() && crosses(*buy, sells@[j as int]),
            None => forall|j: int| 0 <= j < sells@.len() ==> !crosses(*buy, #[trigger] sells@[j]),
        },
{
    let mut j: usize = 0;
    while j < sells.len()
        invariant
            j <= sells@.len(),
            forall|k: int| 0 <= k < j ==> !crosses(*buy, #[trigger] sells@[k]),
        decreases sells@.len() - j,
    {
        if sells[j].resource == buy.resource && buy.price_per_unit >= sells[j].price_per_unit {
            return Some(j);
        }
        j += 1;
    }
    None
}

fn midpoint_price(a: u64, b: u64) -> (p: u64)
    ensures
        p == midpoint(a as int, b as int),
{
    (((a as u128) + (b as u128)) / 2) as u64
}

impl Market {
    /// Matches buy orders against sell orders. Buy orders are taken in arrival order;
    /// each is matched against the first sell order it crosses, for the smaller of the
    /// two quantities at the midpoint price, until it is filled or crosses no sell
    /// order. Filled orders leave the book. Afterwards no pair of open orders crosses,
    /// and for each resource the units that left either side of the book are the
    /// units traded.
    pub fn match_orders(&mut self) -> (trades: Vec<TradeExecution>)
        requires
            old(self).wf(),
        ensures
            final(self).wf(),
            final(self).inventory == old(self).inventory,
            final(self).id == old(self).id,
            final(self).name == old(self).name,
            final(self).position == old(self).position,
            final(self).market_type == old(self).market_type,
            cleared(final(self).buy_orders@, final(self).sell_orders@),
            forall|r: ResourceType|
                #![trigger order_volume(old(self).buy_orders@, r)]
                order_volume(old(self).buy_orders@, r) == order_volume(final(self).buy_orders@, r)
                    + traded_volume(trades@, r),
            forall|r: ResourceType|
                #![trigger order_volume(old(self).sell_orders@, r)]
                order_volume(old(self).sell_orders@, r) == order_volume(
                    final(self).sell_orders@,
                    r,
                ) + traded_volume(trades@, r),
            fills_of(trades@, old(self).buy_orders@, old(self).sell_orders@),
            forall|t: int| 0 <= t < trades@.len() ==> (#[trigger] trades@[t]).market_id == old(self).id,
            drawn_from(final(self).buy_orders@, old(self).buy_orders@),
            drawn_from(final(self).sell_orders@, old(self).sell_orders@),
            in_arrival_order(final(self).buy_orders@, old(self).buy_orders@),
            in_arrival_order(final(self).sell_orders@, old(self).sell_orders@),
            each_trade_exhausts(
                trades@,
                old(self).buy_orders@,
                old(self).sell_orders@,
                final(self).buy_orders@,
                final(self).sell_orders@,
            ),
            final(self).transaction_count as int == if old(self).transaction_count + trades@.len()
                > u64::MAX {
                u64::MAX as int
            } else {
                old(self).transaction_count + trades@.len()
            },
    {
        let mut trades: Vec<TradeExecution> = Vec::new();
        let mut i: usize = 0;
        let ghost mut bmap: Seq<int> = Seq::new(self.buy_orders@.len(), |k: int| k);
        let ghost mut smap: Seq<int> = Seq::new(self.sell_orders@.len(), |k: int| k);
        let ghost mut bix: Seq<int> = Seq::empty();
        let ghost mut six: Seq<int> = Seq::empty();
        proof {
            assert(kept_in_order(self.buy_orders@, old(self).buy_orders@, bmap)) by {
                assert forall|k: int| 0 <= k < self.buy_orders@.len() implies 0 <= #[trigger] bmap[k] < old(self).buy_orders@.len()
                    && same_order(self.buy_orders@[k], old(self).buy_orders@[bmap[k]]) by {}
            }
            assert(kept_in_order(self.sell_orders@, old(self).sell_orders@, smap)) by {
                assert forall|k: int| 0 <= k < self.sell_orders@.len() implies 0 <= #[trigger] smap[k] < old(self).sell_orders@.len()
                    && same_order(self.sell_orders@[k], old(self).sell_orders@[smap[k]]) by {}
            }
            assert forall|k: int| 0 <= k < self.buy_orders@.len() implies in_book(
                #[trigger] self.buy_orders@[k],
                old(self).buy_orders@,
            ) by {
                assert(same_order(self.buy_orders@[k], old(self).buy_orders@[k]));
            }
            assert forall|k: int| 0 <= k < self.sell_orders@.len() implies in_book(
                #[trigger] self.sell_orders@[k],
                old(self).sell_orders@,
            ) by {
                assert(same_order(self.sell_orders@[k], old(self).sell_orders@[k]));
            }
        }
        while i < self.buy_orders.len()
            invariant
                self.wf(),
                self.inventory == old(self).inventory,
                self.id == old(self).id,
                self.name == old(self).name,
                self.position == old(self).position,
                self.market_type == old(self).market_type,
                i <= self.buy_orders@.len(),
                forall|k: int, j: int|
                    0 <= k < i && 0 <= j < self.sell_orders@.len() ==> !crosses(
                        #[trigger] self.buy_orders@[k],
                        #[trigger] self.sell_orders@[j],
                    ),
                forall|r: ResourceType|
                    #![trigger order_volume(old(self).buy_orders@, r)]
                    order_volume(old(self).buy_orders@, r) == order_volume(self.buy_orders@, r)
                        + traded_volume(trades@, r),
                forall|r: ResourceType|
                    #![trigger order_volume(old(self).sell_orders@, r)]
                    order_volume(old(self).sell_orders@, r) == order_volume(self.sell_orders@, r)
                        + traded_volume(trades@, r),
                fills_of(trades@, old(self).buy_orders@, old(self).sell_orders@),
                forall|t: int|
                    0 <= t < trades@.len() ==> (#[trigger] trades@[t]).market_id == old(self).id,
                drawn_from(self.buy_orders@, old(self).buy_orders@),
                kept_in_order(self.buy_orders@, old(self).buy_orders@, bmap),
                kept_in_order(self.sell_orders@, old(self).sell_orders@, smap),
                trades_exhaust(trades@, old(self).buy_orders@, old(self).sell_orders@, bix, six, bmap, smap),
                drawn_from(self.sell_orders@, old(self).sell_orders@),
                self.transaction_count as int == if old(self).transaction_count + trades@.len()
                    > u64::MAX {
                    u64::MAX as int
                } else {
                    old(self).transaction_count + trades@.len()
                },
            decreases self.buy_orders@.len() - i + self.sell_orders@.len(),
        {
            let buy = self.buy_orders[i];
            match first_crossing(&self.sell_orders, &buy) {
                None => {
                    i += 1;
                },
                Some(j) => {
                    let sell = self.sell_orders[j];
                    let q = if buy.quantity <= sell.quantity {
                        buy.quantity
                    } else {
                        sell.quantity
                    };
                    let price = midpoint_price(buy.price_per_unit, sell.price_per_unit);
                    let t = TradeExecution {
                        id: fresh_id(),
                        buyer_id: buy.agent_id,
                        seller_id: sell.agent_id,
                        resource: buy.resource,
                        quantity: q,
                        price_per_unit: price,
                        market_id: self.id,
                    };
                    let ghost trades0 = trades@;
                    let ghost buys0 = self.buy_orders@;
                    let ghost sells0 = self.sell_orders@;
                    proof {
                        assert(in_book(buys0[i as int], old(self).buy_orders@));
                        assert(in_book(sells0[j as int], old(self).sell_orders@));
                        let mb = choose|m: int|
                            0 <= m < old(self).buy_orders@.len() && same_order(
                                buys0[i as int],
                                old(self).buy_orders@[m],
                            );
                        let ms = choose|m: int|
                            0 <= m < old(self).sell_orders@.len() && same_order(
                                sells0[j as int],
                                old(self).sell_orders@[m],
                            );
                        assert(fill_of(t, old(self).buy_orders@[mb], old(self).sell_orders@[ms]));
                    }
                    let ghost bm0 = bmap;
                    let ghost sm0 = smap;
                    let ghost bix0 = bix;
                    let ghost six0 = six;
                    proof {
                        assert(same_order(buys0[i as int], old(self).buy_orders@[bm0[i as int]]));
                        assert(same_order(sells0[j as int], old(self).sell_orders@[sm0[j as int]]));
                        assert(fill_of(t, old(self).buy_orders@[bm0[i as int]], old(self).sell_orders@[sm0[j as int]]));
                        bix = bix.push(bm0[i as int]);
                        six = six.push(sm0[j as int]);
                    }
                    trades.push(t);
                    proof {
                        assert forall|k: int| 0 <= k < trades@.len() implies fill_from(
                            #[trigger] trades@[k],
                            old(self).buy_orders@,
                            old(self).sell_orders@,
                        ) by {
                            if k < trades0.len() {
                                assert(trades@[k] == trades0[k]);
                            }
                        }
                    }
                    self.transaction_count = self.transaction_count.saturating_add(1);
                    if buy.quantity == q {
                        self.buy_orders.remove(i);
                        proof {
                            lemma_kept_remove(buys0, old(self).buy_orders@, bmap, i as int);
                            bmap = bmap.remove(i as int);
                        }
                    } else {
                        let mut rest = buy;
                        rest.quantity = buy.quantity - q;
                        self.buy_orders.set(i, rest);
                        proof {
                            lemma_kept_update(buys0, old(self).buy_orders@, bmap, i as int, rest);
                        }
                    }
                    if sell.quantity == q {
                        self.sell_orders.remove(j);
                        proof {
                            lemma_kept_remove(sells0, old(self).sell_orders@, smap, j as int);
                            smap = smap.remove(j as int);
                        }
                    } else {
                        let mut rest = sell;
                        rest.quantity = sell.quantity - q;
                        self.sell_orders.set(j, rest);
                        proof {
                            lemma_kept_update(sells0, old(self).sell_orders@, smap, j as int, rest);
                        }
                    }
                    proof {
                        lemma_exhaust_step(
                            trades0,
                            t,
                            old(self).buy_orders@,
                            old(self).sell_orders@,
                            bix0,
                            six0,
                            bm0,
                            sm0,
                            bmap,
                            smap,
                            i as int,
                            j as int,
                            buys0[i as int].quantity == t.quantity,
                            sells0[j as int].quantity == t.quantity,
                        );
                        self.lemma_match_step(
                            old(self).buy_orders@,
                            old(self).sell_orders@,
                            buys0,
                            sells0,
                            trades0,
                            trades@,
                            i as int,
                            j as int,
                            t,
                        );
                    }
                },
            }
        }
        proof {
            assert(kept_in_order(self.buy_orders@, old(self).buy_orders@, bmap));
            assert(kept_in_order(self.sell_orders@, old(self).sell_orders@, smap));
            assert(trades_exhaust(trades@, old(self).buy_orders@, old(self).sell_orders@, bix, six, bmap, smap));
        }
        trades
    }

    proof fn lemma_match_step(
        &self,
        obuys: Seq<TradeOrder>,
        osells: Seq<TradeOrder>,
        buys0: Seq<TradeOrder>,
        sells0: Seq<TradeOrder>,
        trades0: Seq<TradeExecution>,
        trades1: Seq<TradeExecution>,
        i: int,
        j: int,
        t: TradeExecution,
    )
        requires
            0 <= i < buys0.len(),
            0 <= j < sells0.len(),
            crosses(buys0[i], sells0[j]),
            t.resource == buys0[i].resource,
            t.quantity == if buys0[i].quantity <= sells0[j].quantity {
                buys0[i].quantity
            } else {
                sells0[j].quantity
            },
            trades1 == trades0.push(t),
            forall|k: int| 0 <= k < buys0.len() ==> (#[trigger] buys0[k]).quantity > 0,
            forall|k: int| 0 <= k < sells0.len() ==> (#[trigger] sells0[k]).quantity > 0,
            self.buy_orders@ == if buys0[i].quantity == t.quantity {
                buys0.remove(i)
            } else {
                buys0.update(i, TradeOrder { quantity: (buys0[i].quantity - t.quantity) as u32, ..buys0[i] })
            },
            self.sell_orders@ == if sells0[j].quantity == t.quantity {
                sells0.remove(j)
            } else {
                sells0.update(
                    j,
                    TradeOrder { quantity: (sells0[j].quantity - t.quantity) as u32, ..sells0[j] },
                )
            },
            forall|k: int, jj: int|
                0 <= k < i && 0 <= jj < sells0.len() ==> !crosses(
                    #[trigger] buys0[k],
                    #[trigger] sells0[jj],
                ),
            forall|r: ResourceType|
                #![trigger order_volume(obuys, r)]
                order_volume(obuys, r) == order_volume(buys0, r) + traded_volume(trades0, r),
            forall|r: ResourceType|
                #![trigger order_volume(osells, r)]
                order_volume(osells, r) == order_volume(sells0, r) + traded_volume(trades0, r),
            drawn_from(buys0, obuys),
            drawn_from(sells0, osells),
        ensures
            forall|k: int| 0 <= k < self.buy_orders@.len() ==> (#[trigger] self.buy_orders@[k]).quantity > 0,
            forall|k: int| 0 <= k < self.sell_orders@.len() ==> (#[trigger] self.sell_orders@[k]).quantity > 0,
            i <= self.buy_orders@.len(),
            self.buy_orders@.len() - i + self.sell_orders@.len() < buys0.len() - i + sells0.len(),
            forall|k: int, jj: int|
                0 <= k < i && 0 <= jj < self.sell_orders@.len() ==> !crosses(
                    #[trigger] self.buy_orders@[k],
                    #[trigger] self.sell_orders@[jj],
                ),
            forall|r: ResourceType|
                #![trigger order_volume(obuys, r)]
                order_volume(obuys, r) == order_volume(self.buy_orders@, r) + traded_volume(
                    trades1,
                    r,
                ),
            forall|r: ResourceType|
                #![trigger order_volume(osells, r)]
                order_volume(osells, r) == order_volume(self.sell_orders@, r) + traded_volume(
                    trades1,
                    r,
                ),
            drawn_from(self.buy_orders@, obuys),
            drawn_from(self.sell_orders@, osells),
    {
        let nb = self.buy_orders@;
        let ns = self.sell_orders@;
        assert forall|r: ResourceType| #![trigger order_volume(obuys, r)]
            order_volume(obuys, r) == order_volume(nb, r) + traded_volume(trades1, r) by {
            lemma_traded_push(trades0, t, r);
            if buys0[i].quantity == t.quantity {
                lemma_volume_remove(buys0, i, r);
            } else {
                lemma_volume_update(
                    buys0,
                    i,
                    TradeOrder { quantity: (buys0[i].quantity - t.quantity) as u32, ..buys0[i] },
                    r,
                );
            }
        }
        assert forall|r: ResourceType| #![trigger order_volume(osells, r)]
            order_volume(osells, r) == order_volume(ns, r) + traded_volume(trades1, r) by {
            lemma_traded_push(trades0, t, r);
            if sells0[j].quantity == t.quantity {
                lemma_volume_remove(sells0, j, r);
            } else {
                lemma_volume_update(
                    sells0,
                    j,
                    TradeOrder { quantity: (sells0[j].quantity - t.quantity) as u32, ..sells0[j] },
                    r,
                );
            }
        }
        // each open sell order afterwards was an open sell order before
        assert forall|jj: int| 0 <= jj < ns.len() implies exists|m: int|
            0 <= m < sells0.len() && ns[jj].resource == sells0[m].resource
                && ns[jj].price_per_unit == sells0[m].price_per_unit && same_order(
                #[trigger] ns[jj],
                sells0[m],
            ) by {
            if sells0[j].quantity == t.quantity {
                if jj < j {
                    assert(same_order(ns[jj], sells0[jj]));
                } else {
                    assert(same_order(ns[jj], sells0[jj + 1]));
                }
            } else {
                assert(same_order(ns[jj], sells0[jj]));
            }
        }
        assert forall|k: int| 0 <= k < nb.len() implies exists|m: int|
            0 <= m < buys0.len() && same_order(#[trigger] nb[k], buys0[m]) && (k < i ==> m == k) by {
            if buys0[i].quantity == t.quantity {
                if k < i {
                    assert(same_order(nb[k], buys0[k]));
                } else {
                    assert(same_order(nb[k], buys0[k + 1]));
                }
            } else {
                assert(same_order(nb[k], buys0[k]));
            }
        }
        assert forall|k: int, jj: int| 0 <= k < i && 0 <= jj < ns.len() implies !crosses(
            #[trigger] nb[k],
            #[trigger] ns[jj],
        ) by {
            let m = choose|m: int|
                0 <= m < sells0.len() && ns[jj].resource == sells0[m].resource
                    && ns[jj].price_per_unit == sells0[m].price_per_unit && same_order(
                    #[trigger] ns[jj],
                    sells0[m],
                );
            assert(nb[k] == buys0[k]);
            assert(!crosses(buys0[k], sells0[m]));
        }
        assert forall|k: int| 0 <= k < nb.len() implies in_book(#[trigger] nb[k], obuys) by {
            let m0 = choose|m: int| 0 <= m < buys0.len() && same_order(#[trigger] nb[k], buys0[m]) && (k < i ==> m == k);
            assert(in_book(buys0[m0], obuys));
            let m1 = choose|m: int| 0 <= m < obuys.len() && same_order(buys0[m0], obuys[m]);
            assert(same_order(nb[k], obuys[m1]));
        }
        assert forall|k: int| 0 <= k < ns.len() implies in_book(#[trigger] ns[k], osells) by {
            let m0 = choose|m: int|
                0 <= m < sells0.len() && ns[k].resource == sells0[m].resource
                    && ns[k].price_per_unit == sells0[m].price_per_unit && same_order(
                    #[trigger] ns[k],
                    sells0[m],
                );
            assert(in_book(sells0[m0], osells));
            let m1 = choose|m: int| 0 <= m < osells.len() && same_order(sells0[m0], osells[m]);
            assert(same_order(ns[k], osells[m1]));
        }
        assert forall|k: int| 0 <= k < nb.len() implies (#[trigger] nb[k]).quantity > 0 by {
            if buys0[i].quantity == t.quantity {
                if k >= i {
                    assert(nb[k] == buys0[k + 1]);
                }
            }
        }
        assert forall|k: int| 0 <= k < ns.len() implies (#[trigger] ns[k]).quantity > 0 by {
            if sells0[j].quantity == t.quantity {
                if k >= j {
                    assert(ns[k] == sells0[k + 1]);
                }
            }
        }
    }
}

} // verus!
