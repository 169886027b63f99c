use crate::commands::{
    CancelOrderResult, CancelOrdersSummary, InstrumentId, ModifyOrderReject, ModifyOrderResult,
    ModifyOrderSuccess, PlaceOrderReject, PlaceOrderResult, PlaceOrderSuccess, modify_result_view,
    place_result_view,
};
use crate::events::{Event, EventSeq, Events, RejectReason};
use crate::orderbook::book_model::{
    BookState, all_on_side, at_least_as_good, crosses, holds_id, ids_disjoint, ids_distinct,
    in_priority_order, insert_by_priority, is_immediate, lemma_insert_by_priority,
    lemma_levels_prefix, lemma_liquidity_prefix, lemma_liquidity_tail, lemma_no_cross_behind,
    lemma_drop_front, lemma_priority_front_changes, lemma_priority_pos, lemma_priority_remove, lemma_rest, lemma_without, lemma_update_front, levels_fit, levels_of,
    liquidity, position_of, priority_pos, sweep, sweep_continues, trade_between, trade_events,
};
use crate::orderbook::level_info::{LevelInfo, LevelInfos, OrderbookLevelInfo};
use crate::orderbook::order::Order;
use crate::orderbook::order_modify::OrderModify;
use crate::orderbook::order_type::OrderType;
use crate::orderbook::side::Side;
use crate::orderbook::trade::{Trade, TradeInfo, Trades};
use crate::orderbook::types::{OrderId, OrderIds, Price, Quantity};
use std::collections::HashMap;
use vstd::prelude::*;

verus! {

broadcast use vstd::std_specs::hash::group_hash_axioms;

/// `out` lists the levels `lv`, quantities narrowed to `Quantity`.
pub open spec fn lists_levels(out: Seq<LevelInfo>, lv: Seq<(Price, int)>) -> bool {
    &&& out.len() == lv.len()
    &&& forall|k: int|
        0 <= k < out.len() ==> (#[trigger] out[k]).price == lv[k].0 && out[k].quantity == lv[k].1
}

fn price_crosses(taker_side: Side, limit: Price, maker_price: Price) -> (r: bool)
    ensures
        r == crosses(taker_side, limit, maker_price),
{
    match taker_side {
        Side::Buy => limit >= maker_price,
        Side::Sell => limit <= maker_price,
    }
}

fn ranks_at_least(side: Side, a: Price, b: Price) -> (r: bool)
    ensures
        r == at_least_as_good(side, a, b),
{
    match side {
        Side::Buy => a >= b,
        Side::Sell => a <= b,
    }
}

fn immediate(t: OrderType) -> (r: bool)
    ensures
        r == is_immediate(t),
{
    match t {
        OrderType::Market | OrderType::FillAndKill | OrderType::FillOrKill => true,
        OrderType::GoodTillCancel | OrderType::PostOnly => false,
    }
}

fn same_price(a: Option<Price>, b: Option<Price>) -> (r: bool)
    ensures
        r == (a == b),
{
    match (a, b) {
        (Some(x), Some(y)) => x == y,
        (None, None) => true,
        _ => false,
    }
}

fn make_trade(instrument_id: InstrumentId, taker: &Order, maker: &Order, q: Quantity) -> (r: Trade)
    ensures
        r == trade_between(instrument_id, *taker, *maker, q),
{
    let taker_info = TradeInfo::new(taker.order_id, taker.price, q);
    let maker_info = TradeInfo::new(maker.order_id, maker.price, q);
    match taker.side {
        Side::Buy => Trade::new(instrument_id, taker_info, maker_info, Side::Sell),
        Side::Sell => Trade::new(instrument_id, maker_info, taker_info, Side::Buy),
    }
}

/// The depth of one side, best level first.
fn side_levels(s: &Vec<Order>) -> (out: LevelInfos)
    requires
        levels_fit(s@),
    ensures
        lists_levels(out@, levels_of(s@)),
{
    let mut out: LevelInfos = Vec::new();
    let mut i: usize = 0;
    while i < s.len()
        invariant
            0 <= i <= s.len(),
            levels_fit(s@),
            lists_levels(out@, levels_of(s@.take(i as int))),
        decreases s.len() - i,
    {
        let o = s[i];
        proof {
            assert(s@.take(i + 1).drop_last() =~= s@.take(i as int));
            lemma_levels_prefix(s@, i + 1);
        }
        let n = out.len();
        if n > 0 && out[n - 1].price == o.price {
            let last = out[n - 1];
            proof {
                let lv = levels_of(s@.take(i + 1));
                assert(lv[n - 1].1 <= levels_of(s@)[n - 1].1);
            }
            out.set(n - 1, LevelInfo::new(o.price, last.quantity + o.remaining_quantity));
        } else {
            out.push(LevelInfo::new(o.price, o.remaining_quantity));
        }
        i = i + 1;
    }
    proof {
        assert(s@.take(s@.len() as int) =~= s@);
    }
    out
}

/// Whether every level of one side sums to a quantity that fits a `Quantity`.
fn side_levels_fit(s: &Vec<Order>) -> (r: bool)
    ensures
        r == levels_fit(s@),
{
    let mut last_price: Price = 0;
    let mut last_qty: u64 = 0;
    let mut n_levels: usize = 0;
    let mut i: usize = 0;
    while i < s.len()
        invariant
            0 <= i <= s.len(),
            levels_fit(s@.take(i as int)),
            n_levels == levels_of(s@.take(i as int)).len(),
            n_levels > 0 ==> last_price == levels_of(s@.take(i as int))[n_levels - 1].0
                && last_qty == levels_of(s@.take(i as int))[n_levels - 1].1,
            n_levels <= i,
        decreases s.len() - i,
    {
        let o = s[i];
        proof {
            assert(s@.take(i + 1).drop_last() =~= s@.take(i as int));
        }
        if n_levels > 0 && last_price == o.price {
            last_qty = last_qty + o.remaining_quantity as u64;
        } else {
            last_price = o.price;
            last_qty = o.remaining_quantity as u64;
            n_levels = n_levels + 1;
        }
        if last_qty > u32::MAX as u64 {
            proof {
                let t = s@.take(i + 1);
                assert(t.last() == o);
                assert(levels_of(t)[n_levels - 1].1 == last_qty);
                lemma_levels_prefix(s@, i + 1);
                assert(levels_of(s@)[n_levels - 1].1 >= last_qty);
            }
            return false;
        }
        i = i + 1;
    }
    proof {
        assert(s@.take(s@.len() as int) =~= s@);
    }
    true
}

/// The state of an order book and the operations on it, under the
/// well-formedness that `Orderbook` keeps as its type invariant.
///
/// Each side is one queue in priority order (best price first, earliest
/// arrival first among equal prices); `index` tells for every resting order
/// id the side it rests on. Every mutating operation appends the events it
/// emits to `pending`, numbered from `next_seq`.
pub(crate) struct BookCore {
    instrument_id: InstrumentId,
    bids: Vec<Order>,
    asks: Vec<Order>,
    index: HashMap<OrderId, Side>,
    next_seq: EventSeq,
    pending: Vec<Event>,
}

impl View for BookCore {
    type V = BookState;

    closed spec fn view(&self) -> BookState {
        BookState {
            instrument_id: self.instrument_id,
            bids: self.bids@,
            asks: self.asks@,
            next_seq: self.next_seq as nat,
            pending: self.pending@,
        }
    }
}

impl BookCore {
    /// The model is valid and `index` maps exactly the resting ids to their sides.
    pub closed spec fn wf(&self) -> bool {
        &&& self@.valid()
        &&& forall|id: OrderId| #[trigger] self.index@.contains_key(id) <==> self@.contains(id)
        &&& forall|i: int|
            0 <= i < self.bids.len() ==> self.index@[(#[trigger] self.bids@[i]).order_id]
                == Side::Buy
        &&& forall|i: int|
            0 <= i < self.asks.len() ==> self.index@[(#[trigger] self.asks@[i]).order_id]
                == Side::Sell
        &&& self.index@.len() == self.bids.len() + self.asks.len()
    }

    pub fn new(instrument_id: InstrumentId) -> (ob: Self)
        ensures
            ob.wf(),
            ob@ == BookState::empty(instrument_id),
            ob@.valid(),
    {
        let ob = Self {
            instrument_id,
            bids: Vec::new(),
            asks: Vec::new(),
            index: HashMap::new(),
            next_seq: 0,
            pending: Vec::new(),
        };
        assert(ob@.bids =~= Seq::<Order>::empty());
        assert(ob@.asks =~= Seq::<Order>::empty());
        assert(ob@.pending =~= Seq::<Event>::empty());
        ob
    }

    pub fn instrument_id(&self) -> (r: InstrumentId)
        ensures
            r == self@.instrument_id,
    {
        self.instrument_id
    }

    pub fn best_bid(&self) -> (r: Option<Price>)
        ensures
            r == self@.best_bid(),
    {
        if self.bids.len() > 0 {
            Some(self.bids[0].price)
        } else {
            None
        }
    }

    pub fn best_ask(&self) -> (r: Option<Price>)
        ensures
            r == self@.best_ask(),
    {
        if self.asks.len() > 0 {
            Some(self.asks[0].price)
        } else {
            None
        }
    }

    pub fn worst_bid(&self) -> (r: Option<Price>)
        ensures
            r == self@.worst_bid(),
    {
        let n = self.bids.len();
        if n > 0 {
            Some(self.bids[n - 1].price)
        } else {
            None
        }
    }

    pub fn worst_ask(&self) -> (r: Option<Price>)
        ensures
            r == self@.worst_ask(),
    {
        let n = self.asks.len();
        if n > 0 {
            Some(self.asks[n - 1].price)
        } else {
            None
        }
    }

    /// Number of resting orders.
    pub fn size(&self) -> (r: usize)
        requires
            self.wf(),
        ensures
            r == self@.size(),
    {
        self.index.len()
    }

    /// Whether sequence numbers are left for `extra` events beyond one per resting order.
    pub fn has_room(&self, extra: u128) -> (r: bool)
        requires
            self.wf(),
            extra <= u64::MAX,
        ensures
            r == (self@.next_seq + self@.size() + extra <= u64::MAX),
    {
        self.next_seq as u128 + self.index.len() as u128 + extra <= u64::MAX as u128
    }

    /// Whether an order on `side` limited at `price` would trade at once.
    pub fn can_match(&self, side: Side, price: Price) -> (r: bool)
        ensures
            r == self@.can_match(side, price),
    {
        match side {
            Side::Buy => {
                if self.asks.len() == 0 {
                    return false;
                }
                price >= self.asks[0].price
            },
            Side::Sell => {
                if self.bids.len() == 0 {
                    return false;
                }
                price <= self.bids[0].price
            },
        }
    }

    /// Whether an order on `side` limited at `price` could fill `quantity`
    /// at once from the resting orders at acceptable prices.
    pub fn can_fully_fill(&self, side: Side, price: Price, quantity: Quantity) -> (r: bool)
        requires
            self.wf(),
        ensures
            r == self@.can_fully_fill(side, price, quantity),
    {
        if !self.can_match(side, price) {
            return false;
        }
        let opp: &Vec<Order> = match side {
            Side::Buy => &self.asks,
            Side::Sell => &self.bids,
        };
        assert(opp@ == self@.opposite_orders(side));
        assert(in_priority_order(opp@, side.opposite_spec()));
        let mut acc: u64 = 0;
        let mut i: usize = 0;
        while i < opp.len()
            invariant
                0 <= i <= opp.len(),
                opp@ == self@.opposite_orders(side),
                in_priority_order(opp@, side.opposite_spec()),
                opp.len() > 0,
                crosses(side, price, opp@[0].price),
                acc == liquidity(opp@.take(i as int), side, price),
                i > 0 ==> acc < quantity,
                acc <= u32::MAX,
            decreases opp.len() - i,
        {
            let o = opp[i];
            if !price_crosses(side, price, o.price) {
                proof {
                    lemma_no_cross_behind(opp@, side, price, i as int);
                    lemma_liquidity_tail(opp@, side, price, i as int);
                }
                return false;
            }
            proof {
                assert(opp@.take(i + 1).drop_last() =~= opp@.take(i as int));
            }
            acc = acc + o.remaining_quantity as u64;
            i = i + 1;
            if acc >= quantity as u64 {
                proof {
                    lemma_liquidity_prefix(opp@, side, price, i as int);
                }
                return true;
            }
        }
        proof {
            assert(opp@.take(opp@.len() as int) =~= opp@);
        }
        false
    }

    /// Whether every depth level sums to a quantity that fits a `Quantity`,
    /// which `get_order_infos` needs.
    pub fn depth_fits(&self) -> (r: bool)
        ensures
            r == self@.depth_fits(),
    {
        side_levels_fit(&self.bids) && side_levels_fit(&self.asks)
    }

    /// Depth snapshot: bid levels highest first, ask levels lowest first.
    pub fn get_order_infos(&self) -> (r: OrderbookLevelInfo)
        requires
            self@.depth_fits(),
        ensures
            lists_levels(r@.0, levels_of(self@.bids)),
            lists_levels(r@.1, levels_of(self@.asks)),
    {
        let bid_infos = side_levels(&self.bids);
        let ask_infos = side_levels(&self.asks);
        OrderbookLevelInfo::new(bid_infos, ask_infos)
    }

    /// Hand out the events emitted since the last call.
    pub fn take_events(&mut self) -> (r: Events)
        ensures
            r@ == old(self)@.pending,
            final(self)@ == old(self)@.drained(),
            old(self).wf() ==> final(self).wf(),
    {
        let mut out: Events = Vec::new();
        std::mem::swap(&mut out, &mut self.pending);
        assert(self@.pending =~= Seq::<Event>::empty());
        out
    }

    fn opp_len(&self, side: Side) -> (r: usize)
        ensures
            r == self@.opposite_orders(side).len(),
    {
        match side {
            Side::Buy => self.asks.len(),
            Side::Sell => self.bids.len(),
        }
    }

    fn opp_at(&self, side: Side, i: usize) -> (r: Order)
        requires
            i < self@.opposite_orders(side).len(),
        ensures
            r == self@.opposite_orders(side)[i as int],
    {
        match side {
            Side::Buy => self.asks[i],
            Side::Sell => self.bids[i],
        }
    }

    /// Replace the opposite side's front order by `o`.
    fn opp_set_front(&mut self, side: Side, o: Order)
        requires
            old(self)@.opposite_orders(side).len() > 0,
        ensures
            final(self)@ == old(self)@.with_opposite(
                side,
                old(self)@.opposite_orders(side).update(0, o),
            ),
            final(self).index == old(self).index,
    {
        match side {
            Side::Buy => self.asks.set(0, o),
            Side::Sell => self.bids.set(0, o),
        }
    }

    /// Drop the opposite side's front order.
    fn opp_pop_front(&mut self, side: Side)
        requires
            old(self)@.opposite_orders(side).len() > 0,
        ensures
            final(self)@ == old(self)@.with_opposite(
                side,
                old(self)@.opposite_orders(side).drop_first(),
            ),
            final(self).index == old(self).index,
    {
        match side {
            Side::Buy => {
                self.asks.remove(0);
                assert(self.asks@ =~= old(self).asks@.drop_first());
            },
            Side::Sell => {
                self.bids.remove(0);
                assert(self.bids@ =~= old(self).bids@.drop_first());
            },
        }
    }

    /// Match `taker` against the opposite side until it is filled or no
    /// resting price is acceptable, emitting a `TradeExecuted` per trade.
    fn sweep_into(&mut self, taker: &mut Order) -> (trades: Vec<Trade>)
        requires
            old(self).wf(),
            !old(self)@.contains(old(taker).order_id),
            old(self)@.next_seq + old(self)@.opposite_orders(old(taker).side).len() + 3
                <= u64::MAX,
        ensures
            ({
                let side = old(taker).side;
                let sw = sweep(
                    old(self)@.instrument_id,
                    old(self)@.opposite_orders(side),
                    *old(taker),
                );
                &&& trades@ == sw.trades
                &&& *final(taker) == sw.taker
                &&& final(taker).order_id == old(taker).order_id
                &&& final(taker).side == side
                &&& final(taker).price == old(taker).price
                &&& final(self)@ == old(self)@.with_opposite(side, sw.makers).emit_trades(
                    sw.trades,
                )
                &&& final(self).wf()
                &&& !final(self)@.contains(old(taker).order_id)
                &&& final(self)@.next_seq + sw.makers.len() + 2 <= u64::MAX
                &&& (sw.taker.remaining_quantity > 0 || sw.trades.len() == 0) ==> (
                sw.makers.len() == 0 || !crosses(side, old(taker).price, sw.makers[0].price))
            }),
    {
        let side = taker.side;
        let ghost b0 = self@;
        let ghost t0 = *taker;
        let ghost g = sweep(b0.instrument_id, b0.opposite_orders(side), t0);
        let mut trades: Vec<Trade> = Vec::new();
        loop
            invariant_except_break
                self@.next_seq + self@.opposite_orders(side).len() + 3 <= u64::MAX,
                sweep_continues(
                    g,
                    trades@,
                    sweep(b0.instrument_id, self@.opposite_orders(side), *taker),
                ),
            invariant
                self.wf(),
                self@.instrument_id == b0.instrument_id,
                self@.side_orders(side) == b0.side_orders(side),
                self@.next_seq == b0.next_seq + trades@.len(),
                self@.pending == b0.pending + trade_events(
                    b0.next_seq,
                    b0.instrument_id,
                    trades@,
                ),
                taker.side == side,
                taker.order_id == t0.order_id,
                taker.price == t0.price,
                !self@.contains(t0.order_id),
            ensures
                trades@ == g.trades,
                *taker == g.taker,
                self@ == b0.with_opposite(side, g.makers).emit_trades(g.trades),
                self.wf(),
                !self@.contains(t0.order_id),
                self@.next_seq + g.makers.len() + 2 <= u64::MAX,
                (g.taker.remaining_quantity > 0 || g.trades.len() == 0) ==> (g.makers.len() == 0
                    || !crosses(side, t0.price, g.makers[0].price)),
            decreases self@.opposite_orders(side).len(),
        {
            let ghost opp = self@.opposite_orders(side);
            let ghost cur = sweep(b0.instrument_id, opp, *taker);
            if self.opp_len(side) == 0 {
                proof {
                    assert(trades@ + seq![] =~= trades@);
                    assert(self@ =~= b0.with_opposite(side, g.makers).emit_trades(g.trades));
                }
                break;
            }
            let m = self.opp_at(side, 0);
            if !price_crosses(side, taker.price, m.price) {
                proof {
                    assert(trades@ + seq![] =~= trades@);
                    assert(self@ =~= b0.with_opposite(side, g.makers).emit_trades(g.trades));
                }
                break;
            }
            let q: Quantity = if m.remaining_quantity <= taker.remaining_quantity {
                m.remaining_quantity
            } else {
                taker.remaining_quantity
            };
            let tr = make_trade(self.instrument_id, taker, &m, q);
            let ghost t_before = *taker;
            let mut m2 = m;
            let _ = m2.fill(q);
            let _ = taker.fill(q);
            let seq = self.next_seq;
            let ghost prev_trades = trades@;
            self.emit(Event::TradeExecuted { seq, instrument_id: self.instrument_id, trade: tr });
            trades.push(tr);
            proof {
                assert(trade_events(b0.next_seq, b0.instrument_id, trades@) =~= trade_events(
                    b0.next_seq,
                    b0.instrument_id,
                    prev_trades,
                ).push(Event::TradeExecuted { seq, instrument_id: b0.instrument_id, trade: tr }));
            }
            if m2.remaining_quantity > 0 {
                proof {
                    lemma_update_front(self@, side, m2);
                }
                self.opp_set_front(side, m2);
                proof {
                    assert(cur.trades =~= seq![tr]);
                    assert(trades@ =~= prev_trades + cur.trades);
                    assert(self@ =~= b0.with_opposite(side, g.makers).emit_trades(g.trades));
                    assert forall|i: int| 0 <= i < opp.len() implies #[trigger] opp.update(
                        0,
                        m2,
                    )[i].order_id == opp[i].order_id by {}
                }
                break;
            } else {
                let ghost b_before = self@;
                proof {
                    lemma_drop_front(self@, side);
                }
                self.opp_pop_front(side);
                self.index.remove(&m.order_id);
                proof {
                    assert forall|i: int| 0 <= i < opp.len() - 1 implies #[trigger] opp.drop_first()[i]
                        == opp[i + 1] by {}
                    assert(b_before.opposite_orders(side)[0] == m);
                    assert forall|i: int| 0 <= i < opp.len() - 1 implies (#[trigger] opp.drop_first()[i]).order_id
                        != m.order_id by {
                        assert(opp[i + 1].order_id != opp[0].order_id);
                    }
                    assert forall|i: int|
                        0 <= i < self@.side_orders(side).len() implies (#[trigger] self@.side_orders(
                        side,
                    )[i]).order_id != m.order_id by {
                        if side == Side::Buy {
                            assert(b_before.bids[i].order_id != b_before.asks[0].order_id);
                        } else {
                            assert(b_before.asks[i].order_id != b_before.bids[0].order_id);
                        }
                    }
                }
                if taker.remaining_quantity == 0 {
                    proof {
                        assert(cur.trades =~= seq![tr]);
                        assert(trades@ =~= prev_trades + cur.trades);
                        assert(self@ =~= b0.with_opposite(side, g.makers).emit_trades(g.trades));
                    }
                    break;
                }
                proof {
                    let rest = sweep(b0.instrument_id, opp.drop_first(), *taker);
                    assert(cur.trades =~= seq![tr] + rest.trades);
                    assert(trades@ + rest.trades =~= prev_trades + cur.trades);
                }
            }
        }
        trades
    }

    fn own_price(&self, side: Side, i: usize) -> (r: Price)
        requires
            i < self@.side_orders(side).len(),
        ensures
            r == self@.side_orders(side)[i as int].price,
    {
        match side {
            Side::Buy => self.bids[i].price,
            Side::Sell => self.asks[i].price,
        }
    }

    /// Queue `o` on its side behind every order ranking at least as well.
    fn rest(&mut self, o: Order)
        requires
            old(self).wf(),
            !old(self)@.contains(o.order_id),
            old(self)@.opposite_orders(o.side).len() == 0 || !crosses(
                o.side,
                o.price,
                old(self)@.opposite_orders(o.side)[0].price,
            ),
        ensures
            final(self).wf(),
            final(self)@ == old(self)@.with_side(
                o.side,
                insert_by_priority(old(self)@.side_orders(o.side), o.side, o),
            ),
    {
        let side = o.side;
        let ghost own = self@.side_orders(side);
        proof {
            lemma_priority_pos(own, side, o.price);
            lemma_rest(self@, o);
        }
        let mut i: usize = 0;
        let n = match side {
            Side::Buy => self.bids.len(),
            Side::Sell => self.asks.len(),
        };
        while i < n && ranks_at_least(side, self.own_price(side, i), o.price)
            invariant
                0 <= i <= n,
                n == own.len(),
                own == self@.side_orders(side),
                i <= priority_pos(own, side, o.price),
                0 <= priority_pos(own, side, o.price) <= own.len(),
                forall|j: int|
                    0 <= j < priority_pos(own, side, o.price) ==> at_least_as_good(
                        side,
                        (#[trigger] own[j]).price,
                        o.price,
                    ),
                forall|j: int|
                    priority_pos(own, side, o.price) <= j < own.len() ==> !at_least_as_good(
                        side,
                        (#[trigger] own[j]).price,
                        o.price,
                    ),
            decreases n - i,
        {
            i = i + 1;
        }
        assert(i == priority_pos(own, side, o.price));
        let ghost before = self@;
        match side {
            Side::Buy => self.bids.insert(i, o),
            Side::Sell => self.asks.insert(i, o),
        }
        self.index.insert(o.order_id, side);
        proof {
            let ins = insert_by_priority(own, side, o);
            assert(self@.side_orders(side) =~= ins);
            assert(self@ =~= before.with_side(side, ins));
            assert forall|j: int| 0 <= j < ins.len() implies #[trigger] ins[j] == (if j < i {
                own[j]
            } else if j == i {
                o
            } else {
                own[j - 1]
            }) by {}
            assert forall|id: OrderId| #[trigger]
                self.index@.contains_key(id) <==> self@.contains(id) by {}
            assert forall|j: int| 0 <= j < self.bids.len() implies self.index@[(
            #[trigger] self.bids@[j]).order_id] == Side::Buy by {
                if side == Side::Buy && j != i {
                    assert(self.bids@[j] == own[if j < i { j } else { j - 1 }]);
                }
            }
            assert forall|j: int| 0 <= j < self.asks.len() implies self.index@[(
            #[trigger] self.asks@[j]).order_id] == Side::Sell by {
                if side == Side::Sell && j != i {
                    assert(self.asks@[j] == own[if j < i { j } else { j - 1 }]);
                }
            }
        }
    }

    fn own_id(&self, side: Side, i: usize) -> (r: OrderId)
        requires
            i < self@.side_orders(side).len(),
        ensures
            r == self@.side_orders(side)[i as int].order_id,
    {
        match side {
            Side::Buy => self.bids[i].order_id,
            Side::Sell => self.asks[i].order_id,
        }
    }

    /// Which side the resting order `id` is on.
    fn side_of(&self, id: OrderId) -> (r: Option<Side>)
        requires
            self.wf(),
        ensures
            r is None <==> !self@.contains(id),
            r is Some ==> self@.contains(id) && r->0 == self@.find(id).side
                && r->0 == (if holds_id(self@.bids, id) {
                Side::Buy
            } else {
                Side::Sell
            }) && holds_id(self@.side_orders(r->0), id),
    {
        match self.index.get(&id) {
            Some(side) => {
                proof {
                    lemma_without(self@, id);
                    if holds_id(self@.bids, id) {
                        let k = choose|k: int|
                            0 <= k < self@.bids.len() && (#[trigger] self@.bids[k]).order_id == id;
                        assert(self.index@[self.bids@[k].order_id] == Side::Buy);
                    } else {
                        let k = choose|k: int|
                            0 <= k < self@.asks.len() && (#[trigger] self@.asks[k]).order_id == id;
                        assert(self.index@[self.asks@[k].order_id] == Side::Sell);
                    }
                }
                Some(*side)
            },
            None => None,
        }
    }

    /// Take the resting order `id` out of its queue.
    fn remove_resting(&mut self, id: OrderId) -> (o: Order)
        requires
            old(self).wf(),
            old(self)@.contains(id),
        ensures
            final(self).wf(),
            o == old(self)@.find(id),
            final(self)@ == old(self)@.without(id),
    {
        let side = match self.side_of(id) {
            Some(s) => s,
            None => Side::Buy,
        };
        let ghost own = self@.side_orders(side);
        let n = match side {
            Side::Buy => self.bids.len(),
            Side::Sell => self.asks.len(),
        };
        let mut i: usize = 0;
        while i < n && self.own_id(side, i) != id
            invariant
                0 <= i <= n,
                n == own.len(),
                own == self@.side_orders(side),
                holds_id(own, id),
                forall|j: int| 0 <= j < i ==> (#[trigger] own[j]).order_id != id,
            decreases n - i,
        {
            i = i + 1;
        }
        proof {
            let k = choose|k: int| 0 <= k < own.len() && (#[trigger] own[k]).order_id == id;
            assert(i < n);
            assert(k == i);
            assert(position_of(own, id) == i);
            lemma_without(self@, id);
        }
        let ghost before = self@;
        let o = match side {
            Side::Buy => self.bids.remove(i),
            Side::Sell => self.asks.remove(i),
        };
        self.index.remove(&id);
        proof {
            assert(self@ =~= before.without(id));
            let t = own.remove(i as int);
            assert forall|j: int| 0 <= j < t.len() implies #[trigger] t[j] == own[if j < i {
                j
            } else {
                j + 1
            }] by {}
            assert forall|x: OrderId| #[trigger]
                self.index@.contains_key(x) <==> self@.contains(x) by {}
            assert forall|j: int| 0 <= j < self.bids.len() implies self.index@[(
            #[trigger] self.bids@[j]).order_id] == Side::Buy by {
                if side == Side::Buy {
                    assert(self.bids@[j] == own[if j < i { j } else { j + 1 }]);
                    assert(own[if j < i { j } else { j + 1 }].order_id != id);
                } else {
                    assert(self.bids@[j] == before.bids[j]);
                    assert(before.bids[j].order_id != before.asks[i as int].order_id);
                }
            }
            assert forall|j: int| 0 <= j < self.asks.len() implies self.index@[(
            #[trigger] self.asks@[j]).order_id] == Side::Sell by {
                if side == Side::Sell {
                    assert(self.asks@[j] == own[if j < i { j } else { j + 1 }]);
                    assert(own[if j < i { j } else { j + 1 }].order_id != id);
                } else {
                    assert(self.asks@[j] == before.asks[j]);
                    assert(before.bids[i as int].order_id != before.asks[j].order_id);
                }
            }
        }
        o
    }

    /// Why `order` would be refused, if it would.
    fn rejection(&self, order: &Order) -> (r: Option<PlaceOrderReject>)
        requires
            self.wf(),
        ensures
            r == self@.rejection(*order),
    {
        if self.index.contains_key(&order.order_id) {
            return Some(PlaceOrderReject::DuplicateOrderId);
        }
        match order.order_type {
            OrderType::Market => {
                if self.opp_len(order.side) == 0 {
                    Some(PlaceOrderReject::NoLiquidityForMarket)
                } else {
                    None
                }
            },
            OrderType::PostOnly => {
                if self.can_match(order.side, order.price) {
                    Some(PlaceOrderReject::PostOnlyWouldTakeLiquidity)
                } else {
                    None
                }
            },
            OrderType::FillAndKill => {
                if !self.can_match(order.side, order.price) {
                    Some(PlaceOrderReject::FillAndKillNoMatch)
                } else {
                    None
                }
            },
            OrderType::FillOrKill => {
                if !self.can_fully_fill(order.side, order.price, order.initial_quantity) {
                    Some(PlaceOrderReject::FillOrKillInsufficientLiquidity)
                } else {
                    None
                }
            },
            OrderType::GoodTillCancel => None,
        }
    }

    /// Match an accepted order, then rest or cancel what is left of it.
    fn accept(&mut self, order: Order) -> (trades: Trades)
        requires
            old(self).wf(),
            old(self)@.rejection(order) is None,
            old(self)@.room(4),
        ensures
            final(self).wf(),
            final(self)@ == old(self)@.accept(order).0,
            trades@ == old(self)@.accept(order).1,
            final(self)@.next_seq < u64::MAX,
    {
        let ghost b = self@;
        let side = order.side;
        let mut taker = order;
        if order.order_type == OrderType::Market {
            let n = self.opp_len(side);
            let worst = self.opp_at(side, n - 1).price;
            let _ = taker.to_good_till_cancel(worst);
        }
        assert(taker == b.priced(order));
        let seq = self.next_seq;
        self.emit(
            Event::OrderAccepted {
                seq,
                instrument_id: self.instrument_id,
                order_id: order.order_id,
                side,
                price: taker.price,
                quantity: order.initial_quantity,
            },
        );
        let trades = self.sweep_into(&mut taker);
        if immediate(order.order_type) {
            if taker.remaining_quantity > 0 {
                self.emit_canceled(order.order_id, taker.remaining_quantity);
            }
        } else if trades.len() == 0 || taker.remaining_quantity > 0 {
            self.rest(taker);
        }
        trades
    }

    /// Place `order` without the final top-of-book report.
    fn place_core(&mut self, order: Order) -> (r: PlaceOrderResult)
        requires
            old(self).wf(),
            old(self)@.room(4),
        ensures
            final(self).wf(),
            (final(self)@, place_result_view(r)) == old(self)@.place_core(order),
            final(self)@.next_seq < u64::MAX,
    {
        match self.rejection(&order) {
            Some(reject) => {
                self.emit_rejected(order.order_id, RejectReason::from(reject));
                Err(reject)
            },
            None => {
                let trades = self.accept(order);
                Ok(PlaceOrderSuccess { trades })
            },
        }
    }

    /// Place `order`: refuse it, or match it and rest or cancel the rest.
    pub fn add_order(&mut self, order: Order) -> (r: PlaceOrderResult)
        requires
            old(self).wf(),
            old(self)@.room(8),
        ensures
            final(self).wf(),
            (final(self)@, place_result_view(r)) == old(self)@.place(order),
            final(self)@.valid(),
            final(self)@.instrument_id == old(self)@.instrument_id,
    {
        let ghost before = self@;
        let bid = self.best_bid();
        let ask = self.best_ask();
        let r = self.place_core(order);
        self.report_top(Ghost(before), bid, ask);
        r
    }

    /// Cancel `id` without the final top-of-book report.
    fn cancel_core(&mut self, id: OrderId) -> (found: bool)
        requires
            old(self).wf(),
            old(self)@.next_seq < u64::MAX,
        ensures
            final(self).wf(),
            (final(self)@, found) == old(self)@.cancel_core(id),
            final(self)@.next_seq <= old(self)@.next_seq + 1,
    {
        if self.index.contains_key(&id) {
            let o = self.remove_resting(id);
            self.emit_canceled(id, o.remaining_quantity);
            true
        } else {
            false
        }
    }

    /// Cancel the resting order `id`, if there is one.
    pub fn cancel_order(&mut self, order_id: OrderId) -> (r: CancelOrderResult)
        requires
            old(self).wf(),
            old(self)@.room(8),
        ensures
            final(self).wf(),
            (final(self)@, r) == old(self)@.cancel(order_id),
            final(self)@.valid(),
            final(self)@.instrument_id == old(self)@.instrument_id,
    {
        let ghost before = self@;
        let bid = self.best_bid();
        let ask = self.best_ask();
        let found = self.cancel_core(order_id);
        self.report_top(Ghost(before), bid, ask);
        if found {
            CancelOrderResult::Cancelled
        } else {
            CancelOrderResult::NotFound
        }
    }

    /// Cancel each of `order_ids` in turn, reporting the top of book once.
    pub fn cancel_orders(&mut self, order_ids: OrderIds) -> (r: CancelOrdersSummary)
        requires
            old(self).wf(),
            old(self)@.room((order_ids.len() + 8) as nat),
        ensures
            final(self).wf(),
            (final(self)@, r) == old(self)@.cancel_many(order_ids@),
            final(self)@.valid(),
            final(self)@.instrument_id == old(self)@.instrument_id,
    {
        let ghost before = self@;
        let bid = self.best_bid();
        let ask = self.best_ask();
        let mut cancelled: usize = 0;
        let mut not_found: usize = 0;
        let mut i: usize = 0;
        while i < order_ids.len()
            invariant
                0 <= i <= order_ids.len(),
                self.wf(),
                (self@, cancelled as nat, not_found as nat) == before.cancel_each(
                    order_ids@.take(i as int),
                ),
                cancelled + not_found == i,
                self@.next_seq <= before.next_seq + i,
                self@.instrument_id == before.instrument_id,
                before.room((order_ids.len() + 8) as nat),
            decreases order_ids.len() - i,
        {
            proof {
                assert(order_ids@.take(i + 1).drop_last() =~= order_ids@.take(i as int));
            }
            if self.cancel_core(order_ids[i]) {
                cancelled = cancelled + 1;
            } else {
                not_found = not_found + 1;
            }
            i = i + 1;
        }
        proof {
            assert(order_ids@.take(order_ids@.len() as int) =~= order_ids@);
        }
        self.report_top(Ghost(before), bid, ask);
        CancelOrdersSummary { cancelled, not_found }
    }

    /// Replace resting order `m.order_id` by a new order of the same type
    /// with the new price and quantity, losing its time priority.
    pub fn modify_order(&mut self, order_modify: OrderModify) -> (r: ModifyOrderResult)
        requires
            old(self).wf(),
            old(self)@.room(8),
        ensures
            final(self).wf(),
            (final(self)@, modify_result_view(r)) == old(self)@.modify(order_modify),
            final(self)@.valid(),
            final(self)@.instrument_id == old(self)@.instrument_id,
    {
        let ghost before = self@;
        let id = order_modify.order_id;
        let side = match self.side_of(id) {
            Some(side) => side,
            None => {
                self.emit_rejected(id, RejectReason::OrderNotFound);
                return Err(ModifyOrderReject::OrderNotFound);
            },
        };
        if side != order_modify.side {
            self.emit_rejected(id, RejectReason::SideChangeNotAllowed);
            return Err(ModifyOrderReject::SideChangeNotAllowed);
        }
        let bid = self.best_bid();
        let ask = self.best_ask();
        let o = self.remove_resting(id);
        self.emit_canceled(id, o.remaining_quantity);
        proof {
            lemma_without(before, id);
        }
        let replacement = order_modify.modify(o.order_type);
        let placed = self.place_core(replacement);
        self.report_top(Ghost(before), bid, ask);
        match placed {
            Ok(success) => Ok(ModifyOrderSuccess { trades: success.trades }),
            Err(reject) => Err(ModifyOrderReject::PlaceRejected(reject)),
        }
    }

    fn emit(&mut self, e: Event)
        requires
            old(self).next_seq < u64::MAX,
        ensures
            final(self)@ == old(self)@.emit(e),
            final(self).index == old(self).index,
            old(self).wf() ==> final(self).wf(),
    {
        self.pending.push(e);
        self.next_seq = self.next_seq + 1;
    }

    fn emit_rejected(&mut self, order_id: OrderId, reason: RejectReason)
        requires
            old(self).next_seq < u64::MAX,
        ensures
            final(self)@ == old(self)@.emit_rejected(order_id, reason),
            final(self).index == old(self).index,
            old(self).wf() ==> final(self).wf(),
    {
        let seq = self.next_seq;
        self.emit(
            Event::OrderRejected { seq, instrument_id: self.instrument_id, order_id, reason },
        );
    }

    fn emit_canceled(&mut self, order_id: OrderId, remaining: Quantity)
        requires
            old(self).next_seq < u64::MAX,
        ensures
            final(self)@ == old(self)@.emit_canceled(order_id, remaining),
            final(self).index == old(self).index,
            old(self).wf() ==> final(self).wf(),
    {
        let seq = self.next_seq;
        self.emit(
            Event::OrderCanceled {
                seq,
                instrument_id: self.instrument_id,
                order_id,
                remaining_quantity: remaining,
            },
        );
    }

    /// Emit `TopOfBookUpdated` when the best prices differ from `before`'s.
    fn report_top(
        &mut self,
        Ghost(before): Ghost<BookState>,
        bid_before: Option<Price>,
        ask_before: Option<Price>,
    )
        requires
            old(self).next_seq < u64::MAX,
            before.top() == (bid_before, ask_before),
        ensures
            final(self)@ == old(self)@.report_top(before),
            old(self).wf() ==> final(self).wf(),
    {
        let bid = self.best_bid();
        let ask = self.best_ask();
        if !same_price(bid, bid_before) || !same_price(ask, ask_before) {
            let seq = self.next_seq;
            self.emit(
                Event::TopOfBookUpdated {
                    seq,
                    instrument_id: self.instrument_id,
                    best_bid: bid,
                    best_ask: ask,
                },
            );
        }
    }
}

/// A price-time priority order book for one instrument.
///
/// Its model is a [`BookState`]: both queues in priority order, the next
/// event sequence number and the events not yet handed out. The model is
/// always valid, and every operation is exactly what the model says.
pub struct Orderbook {
    core: BookCore,
}

impl View for Orderbook {
    type V = BookState;

    closed spec fn view(&self) -> BookState {
        self.core@
    }
}

impl Orderbook {
    #[verifier::type_invariant]
    pub closed spec fn wf(&self) -> bool {
        self.core.wf()
    }

    /// A well-formed book is valid in the model, so the laws about
    /// `BookState` apply to it; `use_type_invariant` gives the premise.
    pub proof fn lemma_valid(&self)
        requires
            self.wf(),
        ensures
            self@.valid(),
    {
    }

    /// Take the state out, leaving an empty book for the same instrument in
    /// its place until the state is put back.
    fn take_core(&mut self) -> (core: BookCore)
        ensures
            core.wf(),
            core@ == old(self)@,
            final(self)@ == BookState::empty(old(self)@.instrument_id),
    {
        proof {
            use_type_invariant(&*self);
        }
        let mut core = BookCore::new(self.core.instrument_id());
        std::mem::swap(&mut core, &mut self.core);
        core
    }

    pub fn new(instrument_id: InstrumentId) -> (ob: Self)
        ensures
            ob@ == BookState::empty(instrument_id),
            ob@.valid(),
    {
        Orderbook { core: BookCore::new(instrument_id) }
    }

    pub fn instrument_id(&self) -> (r: InstrumentId)
        ensures
            r == self@.instrument_id,
    {
        self.core.instrument_id()
    }

    pub fn best_bid(&self) -> (r: Option<Price>)
        ensures
            r == self@.best_bid(),
    {
        self.core.best_bid()
    }

    pub fn best_ask(&self) -> (r: Option<Price>)
        ensures
            r == self@.best_ask(),
    {
        self.core.best_ask()
    }

    pub fn worst_bid(&self) -> (r: Option<Price>)
        ensures
            r == self@.worst_bid(),
    {
        self.core.worst_bid()
    }

    pub fn worst_ask(&self) -> (r: Option<Price>)
        ensures
            r == self@.worst_ask(),
    {
        self.core.worst_ask()
    }

    /// Number of resting orders.
    pub fn size(&self) -> (r: usize)
        ensures
            r == self@.size(),
    {
        proof {
            use_type_invariant(self);
        }
        self.core.size()
    }

    /// Whether sequence numbers are left for `extra` events beyond one per resting order.
    pub fn has_room(&self, extra: u128) -> (r: bool)
        requires
            extra <= u64::MAX,
        ensures
            r == (self@.next_seq + self@.size() + extra <= u64::MAX),
    {
        proof {
            use_type_invariant(self);
        }
        self.core.has_room(extra)
    }

    /// Whether an order on `side` limited at `price` would trade at once.
    pub fn can_match(&self, side: Side, price: Price) -> (r: bool)
        ensures
            r == self@.can_match(side, price),
    {
        self.core.can_match(side, price)
    }

    /// Whether an order on `side` limited at `price` could fill `quantity`
    /// at once from the resting orders at acceptable prices.
    pub fn can_fully_fill(&self, side: Side, price: Price, quantity: Quantity) -> (r: bool)
        ensures
            r == self@.can_fully_fill(side, price, quantity),
    {
        proof {
            use_type_invariant(self);
        }
        self.core.can_fully_fill(side, price, quantity)
    }

    /// Whether every depth level sums to a quantity that fits a `Quantity`,
    /// which `get_order_infos` needs.
    pub fn depth_fits(&self) -> (r: bool)
        ensures
            r == self@.depth_fits(),
    {
        self.core.depth_fits()
    }

    /// Depth snapshot: bid levels highest first, ask levels lowest first.
    pub fn get_order_infos(&self) -> (r: OrderbookLevelInfo)
        requires
            self@.depth_fits(),
        ensures
            lists_levels(r@.0, levels_of(self@.bids)),
            lists_levels(r@.1, levels_of(self@.asks)),
    {
        self.core.get_order_infos()
    }

    /// Hand out the events emitted since the last call.
    pub fn take_events(&mut self) -> (r: Events)
        ensures
            r@ == old(self)@.pending,
            final(self)@ == old(self)@.drained(),
    {
        let mut core = self.take_core();
        let r = core.take_events();
        self.core = core;
        r
    }

    /// Place `order`: refuse it, or match it and rest or cancel the rest.
    pub fn add_order(&mut self, order: Order) -> (r: PlaceOrderResult)
        requires
            old(self)@.room(8),
        ensures
            (final(self)@, place_result_view(r)) == old(self)@.place(order),
            final(self)@.valid(),
            final(self)@.instrument_id == old(self)@.instrument_id,
    {
        let mut core = self.take_core();
        let r = core.add_order(order);
        self.core = core;
        r
    }

    /// Cancel the resting order `order_id`, if there is one.
    pub fn cancel_order(&mut self, order_id: OrderId) -> (r: CancelOrderResult)
        requires
            old(self)@.room(8),
        ensures
            (final(self)@, r) == old(self)@.cancel(order_id),
            final(self)@.valid(),
            final(self)@.instrument_id == old(self)@.instrument_id,
    {
        let mut core = self.take_core();
        let r = core.cancel_order(order_id);
        self.core = core;
        r
    }

    /// Cancel each of `order_ids` in turn, reporting the top of book once.
    pub fn cancel_orders(&mut self, order_ids: OrderIds) -> (r: CancelOrdersSummary)
        requires
            old(self)@.room((order_ids.len() + 8) as nat),
        ensures
            (final(self)@, r) == old(self)@.cancel_many(order_ids@),
            final(self)@.valid(),
            final(self)@.instrument_id == old(self)@.instrument_id,
    {
        let mut core = self.take_core();
        let r = core.cancel_orders(order_ids);
        self.core = core;
        r
    }

    /// Replace resting order `order_modify.order_id` by a new order of the
    /// same type with the new price and quantity, losing its time priority.
    pub fn modify_order(&mut self, order_modify: OrderModify) -> (r: ModifyOrderResult)
        requires
            old(self)@.room(8),
        ensures
            (final(self)@, modify_result_view(r)) == old(self)@.modify(order_modify),
            final(self)@.valid(),
            final(self)@.instrument_id == old(self)@.instrument_id,
    {
        let mut core = self.take_core();
        let r = core.modify_order(order_modify);
        self.core = core;
        r
    }
}

impl Default for Orderbook {
    /// An empty book for instrument 0.
    fn default() -> (ob: Self)
        ensures
            ob@ == BookState::empty(0),
    {
        Self::new(0)
    }
}

} // verus!
