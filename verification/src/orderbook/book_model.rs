//! The mathematical model of an order book and of what each operation does
//! to it.
//!
//! Each side of the book is a sequence of resting orders in price-time
//! priority: the best price first, and among equal prices the earliest
//! arrival first. The operations below are stated over that model; the
//! executable book in `orderbook.rs` is proved to follow them exactly.

use crate::commands::{
    CancelOrderResult, CancelOrdersSummary, InstrumentId, ModifyOrderReject, PlaceOrderReject,
};
use crate::events::{reason_of, Event, RejectReason};
use crate::orderbook::order::{filled_by, Order};
use crate::orderbook::order_modify::OrderModify;
use crate::orderbook::order_type::OrderType;
use crate::orderbook::side::Side;
use crate::orderbook::trade::{Trade, TradeInfo};
use crate::orderbook::types::{OrderId, Price};
use vstd::prelude::*;

verus! {

/// Price `a` ranks at least as well as price `b` for an order resting on `side`.
pub open spec fn at_least_as_good(side: Side, a: Price, b: Price) -> bool {
    match side {
        Side::Buy => a >= b,
        Side::Sell => a <= b,
    }
}

/// A taker on `taker_side` with limit `limit` accepts a maker resting at `maker_price`.
pub open spec fn crosses(taker_side: Side, limit: Price, maker_price: Price) -> bool {
    match taker_side {
        Side::Buy => limit >= maker_price,
        Side::Sell => limit <= maker_price,
    }
}

pub open spec fn in_priority_order(s: Seq<Order>, side: Side) -> bool {
    forall|i: int, j: int|
        #![trigger s[i], s[j]]
        0 <= i < j < s.len() ==> at_least_as_good(side, s[i].price, s[j].price)
}

pub open spec fn all_on_side(s: Seq<Order>, side: Side) -> bool {
    forall|i: int| 0 <= i < s.len() ==> (#[trigger] s[i]).side == side
}

pub open spec fn ids_distinct(s: Seq<Order>) -> bool {
    forall|i: int, j: int|
        #![trigger s[i], s[j]]
        0 <= i < s.len() && 0 <= j < s.len() && i != j ==> s[i].order_id != s[j].order_id
}

pub open spec fn ids_disjoint(a: Seq<Order>, b: Seq<Order>) -> bool {
    forall|i: int, j: int|
        #![trigger a[i], b[j]]
        0 <= i < a.len() && 0 <= j < b.len() ==> a[i].order_id != b[j].order_id
}

pub open spec fn holds_id(s: Seq<Order>, id: OrderId) -> bool {
    exists|i: int| 0 <= i < s.len() && (#[trigger] s[i]).order_id == id
}

/// Where order `id` sits in `s` (meaningful when `holds_id(s, id)`).
pub open spec fn position_of(s: Seq<Order>, id: OrderId) -> int {
    choose|i: int| 0 <= i < s.len() && (#[trigger] s[i]).order_id == id
}

/// How many orders of `s` rank at least as well as `price`: where a new
/// order at `price` joins the queue, behind all of them.
pub open spec fn priority_pos(s: Seq<Order>, side: Side, price: Price) -> int
    decreases s.len(),
{
    if s.len() == 0 || !at_least_as_good(side, s[0].price, price) {
        0
    } else {
        1 + priority_pos(s.drop_first(), side, price)
    }
}

pub open spec fn insert_by_priority(s: Seq<Order>, side: Side, o: Order) -> Seq<Order> {
    s.insert(priority_pos(s, side, o.price), o)
}

/// Total remaining quantity of the makers in `s` that a taker on
/// `taker_side` limited at `limit` would accept.
pub open spec fn liquidity(s: Seq<Order>, taker_side: Side, limit: Price) -> int
    decreases s.len(),
{
    if s.len() == 0 {
        0
    } else {
        liquidity(s.drop_last(), taker_side, limit) + if crosses(
            taker_side,
            limit,
            s.last().price,
        ) {
            s.last().remaining_quantity as int
        } else {
            0
        }
    }
}

/// Depth of one side: consecutive orders at the same price merged into
/// one level carrying their summed remaining quantity.
pub open spec fn levels_of(s: Seq<Order>) -> Seq<(Price, int)>
    decreases s.len(),
{
    if s.len() == 0 {
        seq![]
    } else {
        let init = levels_of(s.drop_last());
        let o = s.last();
        if init.len() > 0 && init.last().0 == o.price {
            init.update(init.len() - 1, (o.price, init.last().1 + o.remaining_quantity))
        } else {
            init.push((o.price, o.remaining_quantity as int))
        }
    }
}

pub open spec fn levels_fit(s: Seq<Order>) -> bool {
    forall|k: int| 0 <= k < levels_of(s).len() ==> #[trigger] levels_of(s)[k].1 <= u32::MAX
}

/// The trade of `q` lots between `taker` and the resting `maker`.
pub open spec fn trade_between(
    instrument_id: InstrumentId,
    taker: Order,
    maker: Order,
    q: u32,
) -> Trade {
    let taker_info = TradeInfo { order_id: taker.order_id, price: taker.price, quantity: q };
    let maker_info = TradeInfo { order_id: maker.order_id, price: maker.price, quantity: q };
    match taker.side {
        Side::Buy => Trade {
            instrument_id,
            bids_trades: taker_info,
            asks_trades: maker_info,
            maker_side: Side::Sell,
        },
        Side::Sell => Trade {
            instrument_id,
            bids_trades: maker_info,
            asks_trades: taker_info,
            maker_side: Side::Buy,
        },
    }
}

pub open spec fn min_qty(a: u32, b: u32) -> u32 {
    if a <= b {
        a
    } else {
        b
    }
}

/// What is left of the makers, the trades made, and what is left of the taker.
pub struct SweepResult {
    pub makers: Seq<Order>,
    pub trades: Seq<Trade>,
    pub taker: Order,
}

/// The taker trades with the makers in priority order, each time for the
/// smaller of the two remaining quantities, while the front maker's price
/// is acceptable and the taker has quantity left. A filled maker leaves
/// the queue; a partly filled one keeps its place.
pub open spec fn sweep(instrument_id: InstrumentId, makers: Seq<Order>, taker: Order) -> SweepResult
    decreases makers.len(),
{
    if makers.len() == 0 || !crosses(taker.side, taker.price, makers[0].price) {
        SweepResult { makers, trades: seq![], taker }
    } else {
        let m = makers[0];
        let q = min_qty(m.remaining_quantity, taker.remaining_quantity);
        let m2 = filled_by(m, q as int);
        let t2 = filled_by(taker, q as int);
        let tr = trade_between(instrument_id, taker, m, q);
        if m2.remaining_quantity > 0 {
            SweepResult { makers: makers.update(0, m2), trades: seq![tr], taker: t2 }
        } else if t2.remaining_quantity == 0 {
            SweepResult { makers: makers.drop_first(), trades: seq![tr], taker: t2 }
        } else {
            let r = sweep(instrument_id, makers.drop_first(), t2);
            SweepResult { makers: r.makers, trades: seq![tr] + r.trades, taker: r.taker }
        }
    }
}

/// `whole` is what you get by making the trades in `prefix` and then sweeping on into `rest`.
pub open spec fn sweep_continues(whole: SweepResult, prefix: Seq<Trade>, rest: SweepResult) -> bool {
    &&& whole.makers == rest.makers
    &&& whole.trades == prefix + rest.trades
    &&& whole.taker == rest.taker
}

/// The `TradeExecuted` events for `trades`, numbered from `start`.
pub open spec fn trade_events(start: nat, instrument_id: InstrumentId, trades: Seq<Trade>) -> Seq<
    Event,
> {
    Seq::new(
        trades.len(),
        |i: int| Event::TradeExecuted { seq: (start + i) as u64, instrument_id, trade: trades[i] },
    )
}

/// Orders that never rest: whatever they cannot fill at once is cancelled.
pub open spec fn is_immediate(t: OrderType) -> bool {
    t == OrderType::Market || t == OrderType::FillAndKill || t == OrderType::FillOrKill
}


/// Where a new order at `price` joins a queue in priority order: behind
/// everything ranking at least as well, ahead of everything worse.
pub proof fn lemma_priority_pos(s: Seq<Order>, side: Side, price: Price)
    requires
        in_priority_order(s, side),
    ensures
        0 <= priority_pos(s, side, price) <= s.len(),
        forall|j: int|
            0 <= j < priority_pos(s, side, price) ==> at_least_as_good(
                side,
                (#[trigger] s[j]).price,
                price,
            ),
        forall|j: int|
            priority_pos(s, side, price) <= j < s.len() ==> !at_least_as_good(
                side,
                (#[trigger] s[j]).price,
                price,
            ),
    decreases s.len(),
{
    if s.len() == 0 {
    } else if !at_least_as_good(side, s[0].price, price) {
        assert forall|j: int| 0 <= j < s.len() implies !at_least_as_good(
            side,
            (#[trigger] s[j]).price,
            price,
        ) by {
            if j > 0 {
                assert(at_least_as_good(side, s[0].price, s[j].price));
            }
        }
    } else {
        let t = s.drop_first();
        assert forall|i: int, j: int| 0 <= i < j < t.len() implies at_least_as_good(
            side,
            (#[trigger] t[i]).price,
            (#[trigger] t[j]).price,
        ) by {
            assert(t[i] == s[i + 1] && t[j] == s[j + 1]);
        }
        lemma_priority_pos(t, side, price);
        assert forall|j: int|
            0 <= j < priority_pos(s, side, price) implies at_least_as_good(
            side,
            (#[trigger] s[j]).price,
            price,
        ) by {
            if j > 0 {
                assert(s[j] == t[j - 1]);
            }
        }
        assert forall|j: int|
            priority_pos(s, side, price) <= j < s.len() implies !at_least_as_good(
            side,
            (#[trigger] s[j]).price,
            price,
        ) by {
            assert(s[j] == t[j - 1]);
        }
    }
}

/// Joining the queue at its priority position keeps the queue in priority order.
pub proof fn lemma_insert_by_priority(s: Seq<Order>, side: Side, o: Order)
    requires
        in_priority_order(s, side),
    ensures
        in_priority_order(insert_by_priority(s, side, o), side),
        insert_by_priority(s, side, o).len() == s.len() + 1,
{
    lemma_priority_pos(s, side, o.price);
    let pos = priority_pos(s, side, o.price);
    let r = insert_by_priority(s, side, o);
    assert forall|i: int, j: int| 0 <= i < j < r.len() implies at_least_as_good(
        side,
        (#[trigger] r[i]).price,
        (#[trigger] r[j]).price,
    ) by {
        if j < pos {
            assert(r[i] == s[i] && r[j] == s[j]);
        } else if j == pos {
            assert(r[i] == s[i]);
        } else if i < pos {
            assert(r[i] == s[i] && r[j] == s[j - 1]);
        } else if i == pos {
            assert(r[j] == s[j - 1]);
            assert(!at_least_as_good(side, s[j - 1].price, o.price));
        } else {
            assert(r[i] == s[i - 1] && r[j] == s[j - 1]);
        }
    }
}

/// A queue keeps its priority order when it loses its front or when the
/// front order only changes its remaining quantity.
pub proof fn lemma_priority_front_changes(s: Seq<Order>, side: Side, o: Order)
    requires
        in_priority_order(s, side),
        s.len() > 0,
        o.price == s[0].price,
    ensures
        in_priority_order(s.drop_first(), side),
        in_priority_order(s.update(0, o), side),
{
    let t = s.drop_first();
    assert forall|i: int, j: int| 0 <= i < j < t.len() implies at_least_as_good(
        side,
        (#[trigger] t[i]).price,
        (#[trigger] t[j]).price,
    ) by {
        assert(t[i] == s[i + 1] && t[j] == s[j + 1]);
    }
    let u = s.update(0, o);
    assert forall|i: int, j: int| 0 <= i < j < u.len() implies at_least_as_good(
        side,
        (#[trigger] u[i]).price,
        (#[trigger] u[j]).price,
    ) by {
        assert(u[i].price == s[i].price && u[j].price == s[j].price);
    }
}

/// Removing any order keeps a queue in priority order.
pub proof fn lemma_priority_remove(s: Seq<Order>, side: Side, k: int)
    requires
        in_priority_order(s, side),
        0 <= k < s.len(),
    ensures
        in_priority_order(s.remove(k), side),
{
    let t = s.remove(k);
    assert forall|i: int, j: int| 0 <= i < j < t.len() implies at_least_as_good(
        side,
        (#[trigger] t[i]).price,
        (#[trigger] t[j]).price,
    ) by {
        let a = if i < k {
            i
        } else {
            i + 1
        };
        let b = if j < k {
            j
        } else {
            j + 1
        };
        assert(t[i] == s[a] && t[j] == s[b]);
    }
}

/// A prefix of the makers never offers more than all of them.
pub proof fn lemma_liquidity_prefix(s: Seq<Order>, taker_side: Side, limit: Price, i: int)
    requires
        0 <= i <= s.len(),
    ensures
        liquidity(s.take(i), taker_side, limit) <= liquidity(s, taker_side, limit),
        liquidity(s.take(i), taker_side, limit) >= 0,
    decreases s.len(),
{
    if i == s.len() {
        assert(s.take(i) =~= s);
        lemma_liquidity_nonneg(s, taker_side, limit);
    } else {
        assert(s.drop_last().take(i) =~= s.take(i));
        lemma_liquidity_prefix(s.drop_last(), taker_side, limit, i);
    }
}

pub proof fn lemma_liquidity_nonneg(s: Seq<Order>, taker_side: Side, limit: Price)
    ensures
        liquidity(s, taker_side, limit) >= 0,
    decreases s.len(),
{
    if s.len() > 0 {
        lemma_liquidity_nonneg(s.drop_last(), taker_side, limit);
    }
}

/// Makers that the taker does not accept add nothing.
pub proof fn lemma_liquidity_tail(s: Seq<Order>, taker_side: Side, limit: Price, i: int)
    requires
        0 <= i <= s.len(),
        forall|j: int| i <= j < s.len() ==> !crosses(taker_side, limit, (#[trigger] s[j]).price),
    ensures
        liquidity(s, taker_side, limit) == liquidity(s.take(i), taker_side, limit),
    decreases s.len(),
{
    if i == s.len() {
        assert(s.take(i) =~= s);
    } else {
        assert(s.drop_last().take(i) =~= s.take(i));
        assert(!crosses(taker_side, limit, s[s.len() - 1].price));
        lemma_liquidity_tail(s.drop_last(), taker_side, limit, i);
    }
}

/// Once a maker is too expensive for the taker, so is every maker queued behind it.
pub proof fn lemma_no_cross_behind(s: Seq<Order>, taker_side: Side, limit: Price, i: int)
    requires
        in_priority_order(s, taker_side.opposite_spec()),
        0 <= i < s.len(),
        !crosses(taker_side, limit, s[i].price),
    ensures
        forall|j: int| i <= j < s.len() ==> !crosses(taker_side, limit, (#[trigger] s[j]).price),
{
    assert forall|j: int| i <= j < s.len() implies !crosses(
        taker_side,
        limit,
        (#[trigger] s[j]).price,
    ) by {
        if j > i {
            assert(at_least_as_good(taker_side.opposite_spec(), s[i].price, s[j].price));
        }
    }
}

/// The depth of a prefix of a side is a prefix of its depth, the last
/// level possibly holding less.
pub proof fn lemma_levels_prefix(s: Seq<Order>, i: int)
    requires
        0 <= i <= s.len(),
    ensures
        levels_of(s.take(i)).len() <= levels_of(s).len(),
        forall|k: int|
            0 <= k < levels_of(s.take(i)).len() ==> (#[trigger] levels_of(s.take(i))[k]).0
                == levels_of(s)[k].0 && levels_of(s.take(i))[k].1 <= levels_of(s)[k].1,
    decreases s.len(),
{
    if i == s.len() {
        assert(s.take(i) =~= s);
    } else {
        assert(s.drop_last().take(i) =~= s.take(i));
        lemma_levels_prefix(s.drop_last(), i);
    }
}

/// Taking the front order off the opposite side keeps the book valid and
/// removes exactly that order's id.
pub proof fn lemma_drop_front(b: BookState, side: Side)
    requires
        b.valid(),
        b.opposite_orders(side).len() > 0,
    ensures
        ({
            let b2 = b.with_opposite(side, b.opposite_orders(side).drop_first());
            &&& b2.valid()
            &&& forall|id: OrderId| #[trigger]
                b2.contains(id) <==> (b.contains(id) && id != b.opposite_orders(side)[0].order_id)
        }),
{
    let opp = b.opposite_orders(side);
    let t = opp.drop_first();
    let b2 = b.with_opposite(side, t);
    lemma_priority_front_changes(opp, side.opposite_spec(), opp[0]);
    assert forall|i: int| 0 <= i < t.len() implies #[trigger] t[i] == opp[i + 1] by {}
    assert forall|id: OrderId| #[trigger]
        b2.contains(id) <==> (b.contains(id) && id != opp[0].order_id) by {
        if holds_id(t, id) {
            let k = choose|k: int| 0 <= k < t.len() && (#[trigger] t[k]).order_id == id;
            assert(opp[k + 1].order_id == id);
            assert(holds_id(opp, id));
        }
        if holds_id(opp, id) && id != opp[0].order_id {
            let k = choose|k: int| 0 <= k < opp.len() && (#[trigger] opp[k]).order_id == id;
            assert(k > 0);
            assert(t[k - 1].order_id == id);
        }
        if id == opp[0].order_id && holds_id(b.side_orders(side), id) {
            let own = b.side_orders(side);
            let k = choose|k: int| 0 <= k < own.len() && (#[trigger] own[k]).order_id == id;
            if side == Side::Buy {
                assert(b.bids[k].order_id != b.asks[0].order_id);
            } else {
                assert(b.asks[k].order_id != b.bids[0].order_id);
            }
        }
    }
    if side == Side::Buy {
        if b2.bids.len() > 0 && b2.asks.len() > 1 {
            assert(at_least_as_good(Side::Sell, b.asks[0].price, b.asks[1].price));
        }
    } else {
        if b2.asks.len() > 0 && b2.bids.len() > 1 {
            assert(at_least_as_good(Side::Buy, b.bids[0].price, b.bids[1].price));
        }
    }
}

/// Changing only the remaining quantity of the opposite front order keeps
/// the book valid and its ids.
pub proof fn lemma_update_front(b: BookState, side: Side, o: Order)
    requires
        b.valid(),
        b.opposite_orders(side).len() > 0,
        o.order_id == b.opposite_orders(side)[0].order_id,
        o.price == b.opposite_orders(side)[0].price,
        o.side == b.opposite_orders(side)[0].side,
    ensures
        ({
            let b2 = b.with_opposite(side, b.opposite_orders(side).update(0, o));
            &&& b2.valid()
            &&& forall|id: OrderId| #[trigger] b2.contains(id) <==> b.contains(id)
        }),
{
    let opp = b.opposite_orders(side);
    let u = opp.update(0, o);
    let b2 = b.with_opposite(side, u);
    lemma_priority_front_changes(opp, side.opposite_spec(), o);
    assert forall|i: int| 0 <= i < u.len() implies (#[trigger] u[i]).order_id == opp[i].order_id
        && u[i].side == opp[i].side && u[i].price == opp[i].price by {}
    assert forall|id: OrderId| #[trigger] b2.contains(id) <==> b.contains(id) by {
        if holds_id(u, id) {
            let k = choose|k: int| 0 <= k < u.len() && (#[trigger] u[k]).order_id == id;
            assert(opp[k].order_id == id);
        }
        if holds_id(opp, id) {
            let k = choose|k: int| 0 <= k < opp.len() && (#[trigger] opp[k]).order_id == id;
            assert(u[k].order_id == id);
        }
    }
}

/// Queueing a new order that does not cross the opposite front keeps the
/// book valid and adds exactly its id.
pub proof fn lemma_rest(b: BookState, o: Order)
    requires
        b.valid(),
        !b.contains(o.order_id),
        b.opposite_orders(o.side).len() == 0 || !crosses(
            o.side,
            o.price,
            b.opposite_orders(o.side)[0].price,
        ),
    ensures
        ({
            let b2 = b.with_side(o.side, insert_by_priority(b.side_orders(o.side), o.side, o));
            &&& b2.valid()
            &&& forall|id: OrderId| #[trigger]
                b2.contains(id) <==> (b.contains(id) || id == o.order_id)
        }),
{
    let side = o.side;
    let own = b.side_orders(side);
    let opp = b.opposite_orders(side);
    lemma_priority_pos(own, side, o.price);
    lemma_insert_by_priority(own, side, o);
    let i = priority_pos(own, side, o.price);
    let ins = insert_by_priority(own, side, o);
    let b2 = b.with_side(side, ins);
    assert forall|j: int| 0 <= j < ins.len() implies #[trigger] ins[j] == (if j < i {
        own[j]
    } else if j == i {
        o
    } else {
        own[j - 1]
    }) by {}
    assert forall|id: OrderId| #[trigger] b2.contains(id) <==> (b.contains(id) || id == o.order_id) by {
        if holds_id(ins, id) && id != o.order_id {
            let k = choose|k: int| 0 <= k < ins.len() && (#[trigger] ins[k]).order_id == id;
            if k < i {
                assert(own[k].order_id == id);
            } else {
                assert(own[k - 1].order_id == id);
            }
        }
        if holds_id(own, id) {
            let k = choose|k: int| 0 <= k < own.len() && (#[trigger] own[k]).order_id == id;
            if k < i {
                assert(ins[k].order_id == id);
            } else {
                assert(ins[k + 1].order_id == id);
            }
        }
        if id == o.order_id {
            assert(ins[i].order_id == id);
        }
    }
    assert forall|j: int, k: int|
        0 <= j < ins.len() && 0 <= k < ins.len() && j != k implies #[trigger] ins[j].order_id
        != #[trigger] ins[k].order_id by {
        if j == i {
            if holds_id(own, o.order_id) {
            }
            assert(ins[k] == own[if k < i { k } else { k - 1 }]);
            assert(!holds_id(own, o.order_id));
        } else if k == i {
            assert(ins[j] == own[if j < i { j } else { j - 1 }]);
            assert(!holds_id(own, o.order_id));
        } else {
            let jj = if j < i { j } else { j - 1 };
            let kk = if k < i { k } else { k - 1 };
            assert(ins[j] == own[jj] && ins[k] == own[kk]);
        }
    }
    assert forall|j: int, k: int| 0 <= j < ins.len() && 0 <= k < opp.len() implies #[trigger] ins[j].order_id
        != #[trigger] opp[k].order_id by {
        if j == i {
            assert(!holds_id(opp, o.order_id));
        } else {
            let jj = if j < i { j } else { j - 1 };
            assert(ins[j] == own[jj]);
            if side == Side::Buy {
                assert(b.bids[jj].order_id != b.asks[k].order_id);
            } else {
                assert(b.asks[jj].order_id != b.bids[k].order_id);
            }
        }
    }
    assert forall|j: int| 0 <= j < ins.len() implies (#[trigger] ins[j]).side == side by {
        if j != i {
            assert(ins[j] == own[if j < i { j } else { j - 1 }]);
        }
    }
    if side == Side::Buy {
        assert(ids_distinct(b2.bids));
        assert(ids_disjoint(b2.bids, b2.asks));
        assert(all_on_side(b2.bids, Side::Buy));
        if b2.bids.len() > 0 && b2.asks.len() > 0 {
            if i == 0 {
                assert(!crosses(side, o.price, opp[0].price));
            } else {
                assert(b2.bids[0] == b.bids[0]);
            }
        }
    } else {
        assert(ids_distinct(b2.asks));
        assert forall|j: int, k: int| 0 <= j < b2.bids.len() && 0 <= k < b2.asks.len() implies #[trigger] b2.bids[j].order_id
            != #[trigger] b2.asks[k].order_id by {
            assert(ins[k].order_id != opp[j].order_id);
        }
        assert(all_on_side(b2.asks, Side::Sell));
        if b2.bids.len() > 0 && b2.asks.len() > 0 {
            if i == 0 {
                assert(!crosses(side, o.price, opp[0].price));
            } else {
                assert(b2.asks[0] == b.asks[0]);
            }
        }
    }
}

/// Taking a resting order out of its queue keeps the book valid and
/// removes exactly its id.
pub proof fn lemma_without(b: BookState, id: OrderId)
    requires
        b.valid(),
        b.contains(id),
    ensures
        b.without(id).valid(),
        b.find(id).order_id == id,
        b.find(id).side == (if holds_id(b.bids, id) {
            Side::Buy
        } else {
            Side::Sell
        }),
        b.without(id).size() + 1 == b.size(),
        forall|x: OrderId| #[trigger]
            b.without(id).contains(x) <==> (b.contains(x) && x != id),
{
    let b2 = b.without(id);
    if holds_id(b.bids, id) {
        let s = b.bids;
        let k = position_of(s, id);
        let t = s.remove(k);
        lemma_priority_remove(s, Side::Buy, k);
        assert forall|j: int| 0 <= j < t.len() implies #[trigger] t[j] == s[if j < k {
            j
        } else {
            j + 1
        }] by {}
        assert forall|x: OrderId| #[trigger] b2.contains(x) <==> (b.contains(x) && x != id) by {
            if holds_id(t, x) {
                let j = choose|j: int| 0 <= j < t.len() && (#[trigger] t[j]).order_id == x;
                let jj = if j < k {
                    j
                } else {
                    j + 1
                };
                assert(s[jj].order_id == x);
                assert(jj != k);
            }
            if holds_id(s, x) && x != id {
                let j = choose|j: int| 0 <= j < s.len() && (#[trigger] s[j]).order_id == x;
                assert(j != k);
                assert(t[if j < k {
                    j
                } else {
                    j - 1
                }].order_id == x);
            }
            if x == id && holds_id(b.asks, x) {
                let j = choose|j: int| 0 <= j < b.asks.len() && (#[trigger] b.asks[j]).order_id == x;
                assert(s[k].order_id != b.asks[j].order_id);
            }
        }
        if b2.bids.len() > 0 && b2.asks.len() > 0 {
            if k == 0 {
                assert(at_least_as_good(Side::Buy, s[0].price, s[1].price));
            }
        }
    } else {
        let s = b.asks;
        let k = position_of(s, id);
        let t = s.remove(k);
        lemma_priority_remove(s, Side::Sell, k);
        assert forall|j: int| 0 <= j < t.len() implies #[trigger] t[j] == s[if j < k {
            j
        } else {
            j + 1
        }] by {}
        assert forall|x: OrderId| #[trigger] b2.contains(x) <==> (b.contains(x) && x != id) by {
            if holds_id(t, x) {
                let j = choose|j: int| 0 <= j < t.len() && (#[trigger] t[j]).order_id == x;
                let jj = if j < k {
                    j
                } else {
                    j + 1
                };
                assert(s[jj].order_id == x);
                assert(jj != k);
            }
            if holds_id(s, x) && x != id {
                let j = choose|j: int| 0 <= j < s.len() && (#[trigger] s[j]).order_id == x;
                assert(j != k);
                assert(t[if j < k {
                    j
                } else {
                    j - 1
                }].order_id == x);
            }
        }
        if b2.bids.len() > 0 && b2.asks.len() > 0 {
            if k == 0 {
                assert(at_least_as_good(Side::Sell, s[0].price, s[1].price));
            }
        }
    }
}

/// Total quantity of `trades`.
pub open spec fn traded(trades: Seq<Trade>) -> int
    decreases trades.len(),
{
    if trades.len() == 0 {
        0
    } else {
        trades[0].bids_trades.quantity + traded(trades.drop_first())
    }
}

/// Total remaining quantity of the orders in `s`.
pub open spec fn resting_qty(s: Seq<Order>) -> int
    decreases s.len(),
{
    if s.len() == 0 {
        0
    } else {
        s[0].remaining_quantity + resting_qty(s.drop_first())
    }
}

/// Trade `t` is one the taker `taker` made against a maker at a price its limit accepts.
pub open spec fn fair_trade(instrument_id: InstrumentId, taker: Order, t: Trade) -> bool {
    &&& t.instrument_id == instrument_id
    &&& t.maker_side == taker.side.opposite_spec()
    &&& t.taker_info().order_id == taker.order_id
    &&& t.taker_info().price == taker.price
    &&& t.bids_trades.quantity == t.asks_trades.quantity
    &&& crosses(taker.side, taker.price, t.maker_info().price)
}

/// What a sweep keeps: at most one trade per maker, every lot the taker
/// fills taken from the makers, every trade at an acceptable maker price,
/// and a trade whenever the front maker is acceptable.
pub proof fn lemma_sweep(instrument_id: InstrumentId, makers: Seq<Order>, taker: Order)
    ensures
        ({
            let r = sweep(instrument_id, makers, taker);
            &&& r.trades.len() <= makers.len()
            &&& r.makers.len() <= makers.len()
            &&& r.taker == filled_by(taker, taker.remaining_quantity - r.taker.remaining_quantity)
            &&& r.taker.remaining_quantity <= taker.remaining_quantity
            &&& r.taker.remaining_quantity + traded(r.trades) == taker.remaining_quantity
            &&& resting_qty(r.makers) + traded(r.trades) == resting_qty(makers)
            &&& forall|i: int|
                0 <= i < r.trades.len() ==> fair_trade(instrument_id, taker, #[trigger] r.trades[i])
            &&& (r.trades.len() == 0 <==> (makers.len() == 0 || !crosses(
                taker.side,
                taker.price,
                makers[0].price,
            )))
        }),
    decreases makers.len(),
{
    let r = sweep(instrument_id, makers, taker);
    if makers.len() == 0 || !crosses(taker.side, taker.price, makers[0].price) {
        assert(taker == filled_by(taker, 0));
    } else {
        let m = makers[0];
        let q = min_qty(m.remaining_quantity, taker.remaining_quantity);
        let m2 = filled_by(m, q as int);
        let t2 = filled_by(taker, q as int);
        let tr = trade_between(instrument_id, taker, m, q);
        assert(fair_trade(instrument_id, taker, tr));
        assert(seq![tr].drop_first() =~= Seq::<Trade>::empty());
        assert(traded(Seq::<Trade>::empty()) == 0);
        assert(tr.bids_trades.quantity == q);
        assert(makers.update(0, m2).drop_first() =~= makers.drop_first());
        if m2.remaining_quantity > 0 {
            assert(traded(seq![tr]) == q);
        } else if t2.remaining_quantity == 0 {
            assert(traded(seq![tr]) == q);
        } else {
            let rest = sweep(instrument_id, makers.drop_first(), t2);
            lemma_sweep(instrument_id, makers.drop_first(), t2);
            assert((seq![tr] + rest.trades).drop_first() =~= rest.trades);
            assert((seq![tr] + rest.trades)[0] == tr);
            assert forall|i: int| 0 <= i < r.trades.len() implies fair_trade(
                instrument_id,
                taker,
                #[trigger] r.trades[i],
            ) by {
                if i > 0 {
                    assert(r.trades[i] == rest.trades[i - 1]);
                    assert(fair_trade(instrument_id, t2, rest.trades[i - 1]));
                }
            }
        }
    }
}

pub proof fn lemma_emitted_refl(b: BookState)
    ensures
        b.emitted_into(b),
{
    assert(b.pending.subrange(0, b.pending.len() as int) =~= b.pending);
}

pub proof fn lemma_emitted_trans(a: BookState, b: BookState, c: BookState)
    requires
        a.emitted_into(b),
        b.emitted_into(c),
    ensures
        a.emitted_into(c),
{
    assert(c.pending.subrange(0, a.pending.len() as int) =~= b.pending.subrange(
        0,
        a.pending.len() as int,
    ));
    assert forall|i: int| a.pending.len() <= i < c.pending.len() implies (
    #[trigger] c.pending[i]).seq_spec() == a.next_seq + i - a.pending.len()
        && c.pending[i].instrument_spec() == a.instrument_id by {
        if i < b.pending.len() {
            assert(c.pending[i] == c.pending.subrange(0, b.pending.len() as int)[i]);
        }
    }
}

/// Changing the queues leaves the events alone.
pub proof fn lemma_emitted_sides(a: BookState, b: BookState, bids: Seq<Order>, asks: Seq<Order>)
    requires
        a.emitted_into(b),
    ensures
        a.emitted_into(BookState { bids, asks, ..b }),
{
}

pub proof fn lemma_emitted_emit(b: BookState, e: Event)
    requires
        b.next_seq <= u64::MAX,
        e.seq_spec() == b.next_seq as u64,
        e.instrument_spec() == b.instrument_id,
    ensures
        b.emitted_into(b.emit(e)),
{
    let b2 = b.emit(e);
    assert(b2.pending.subrange(0, b.pending.len() as int) =~= b.pending);
}

pub proof fn lemma_emitted_trades(b: BookState, trades: Seq<Trade>)
    requires
        b.next_seq + trades.len() <= u64::MAX + 1,
    ensures
        b.emitted_into(b.emit_trades(trades)),
{
    let b2 = b.emit_trades(trades);
    assert(b2.pending.subrange(0, b.pending.len() as int) =~= b.pending);
    assert forall|i: int| b.pending.len() <= i < b2.pending.len() implies (
    #[trigger] b2.pending[i]).seq_spec() == b.next_seq + i - b.pending.len()
        && b2.pending[i].instrument_spec() == b.instrument_id by {
        let k = i - b.pending.len();
        assert(b2.pending[i] == trade_events(b.next_seq, b.instrument_id, trades)[k]);
    }
}

pub proof fn lemma_emitted_report_top(before: BookState, b: BookState)
    requires
        b.next_seq <= u64::MAX,
    ensures
        b.emitted_into(b.report_top(before)),
        b.report_top(before).bids == b.bids,
        b.report_top(before).asks == b.asks,
{
    if b.top() != before.top() {
        lemma_emitted_emit(
            b,
            Event::TopOfBookUpdated {
                seq: b.next_seq as u64,
                instrument_id: b.instrument_id,
                best_bid: b.best_bid(),
                best_ask: b.best_ask(),
            },
        );
    } else {
        lemma_emitted_refl(b);
    }
}

/// Placing an order appends numbered events: one when refused; otherwise
/// one for the acceptance, one per trade, and at most one for a cancelled
/// remainder, so never more than three beyond one per opposite order.
pub proof fn lemma_place_core_events(b: BookState, o: Order)
    requires
        b.next_seq + b.opposite_orders(o.side).len() + 3 <= u64::MAX,
    ensures
        b.emitted_into(b.place_core(o).0),
        b.place_core(o).0.next_seq <= b.next_seq + b.opposite_orders(o.side).len() + 3,
{
    match b.rejection(o) {
        Some(r) => {
            lemma_emitted_emit(
                b,
                Event::OrderRejected {
                    seq: b.next_seq as u64,
                    instrument_id: b.instrument_id,
                    order_id: o.order_id,
                    reason: reason_of(r),
                },
            );
        },
        None => {
            let t = b.priced(o);
            let e = Event::OrderAccepted {
                seq: b.next_seq as u64,
                instrument_id: b.instrument_id,
                order_id: o.order_id,
                side: o.side,
                price: t.price,
                quantity: o.initial_quantity,
            };
            let b1 = b.emit(e);
            lemma_emitted_emit(b, e);
            let sw = sweep(b.instrument_id, b.opposite_orders(o.side), t);
            lemma_sweep(b.instrument_id, b.opposite_orders(o.side), t);
            let b1s = b1.with_opposite(o.side, sw.makers);
            lemma_emitted_sides(b, b1, b1s.bids, b1s.asks);
            let b2 = b1s.emit_trades(sw.trades);
            lemma_emitted_trades(b1s, sw.trades);
            lemma_emitted_trans(b, b1s, b2);
            if is_immediate(o.order_type) {
                if sw.taker.remaining_quantity > 0 {
                    let e2 = Event::OrderCanceled {
                        seq: b2.next_seq as u64,
                        instrument_id: b2.instrument_id,
                        order_id: o.order_id,
                        remaining_quantity: sw.taker.remaining_quantity,
                    };
                    lemma_emitted_emit(b2, e2);
                    lemma_emitted_trans(b, b2, b2.emit(e2));
                }
            } else if sw.trades.len() == 0 || sw.taker.remaining_quantity > 0 {
                let b3 = b2.with_side(o.side, insert_by_priority(b2.side_orders(o.side), o.side, sw.taker));
                lemma_emitted_sides(b, b2, b3.bids, b3.asks);
            }
        },
    }
}

/// Cancelling appends at most one numbered event.
pub proof fn lemma_cancel_core_events(b: BookState, id: OrderId)
    requires
        b.next_seq + 1 <= u64::MAX,
    ensures
        b.emitted_into(b.cancel_core(id).0),
        b.cancel_core(id).0.next_seq <= b.next_seq + 1,
        b.cancel_core(id).0.size() <= b.size(),
        b.valid() ==> b.cancel_core(id).0.valid(),
{
    if b.contains(id) {
        let w = b.without(id);
        lemma_emitted_refl(b);
        lemma_emitted_sides(b, b, w.bids, w.asks);
        let e = Event::OrderCanceled {
            seq: w.next_seq as u64,
            instrument_id: w.instrument_id,
            order_id: id,
            remaining_quantity: b.find(id).remaining_quantity,
        };
        lemma_emitted_emit(w, e);
        lemma_emitted_trans(b, w, w.emit(e));
        if holds_id(b.bids, id) {
            let k = choose|k: int| 0 <= k < b.bids.len() && (#[trigger] b.bids[k]).order_id == id;
            assert(0 <= position_of(b.bids, id) < b.bids.len());
        } else {
            let k = choose|k: int| 0 <= k < b.asks.len() && (#[trigger] b.asks[k]).order_id == id;
            assert(0 <= position_of(b.asks, id) < b.asks.len());
        }
        if b.valid() {
            lemma_without(b, id);
        }
    } else {
        lemma_emitted_refl(b);
    }
}

/// Cancelling a list of ids appends at most one numbered event per id and
/// reports each id as cancelled or not found.
pub proof fn lemma_cancel_each(b: BookState, ids: Seq<OrderId>)
    requires
        b.next_seq + ids.len() <= u64::MAX,
    ensures
        b.emitted_into(b.cancel_each(ids).0),
        b.cancel_each(ids).0.next_seq <= b.next_seq + ids.len(),
        b.cancel_each(ids).1 + b.cancel_each(ids).2 == ids.len(),
        b.cancel_each(ids).0.size() <= b.size(),
    decreases ids.len(),
{
    if ids.len() == 0 {
        lemma_emitted_refl(b);
    } else {
        lemma_cancel_each(b, ids.drop_last());
        let mid = b.cancel_each(ids.drop_last()).0;
        lemma_cancel_core_events(mid, ids.last());
        lemma_emitted_trans(b, mid, mid.cancel_core(ids.last()).0);
    }
}

/// The liquidity of a queue is its front's share plus that of the rest.
pub proof fn lemma_liquidity_first(s: Seq<Order>, taker_side: Side, limit: Price)
    requires
        s.len() > 0,
    ensures
        liquidity(s, taker_side, limit) == (if crosses(taker_side, limit, s[0].price) {
            s[0].remaining_quantity as int
        } else {
            0
        }) + liquidity(s.drop_first(), taker_side, limit),
    decreases s.len(),
{
    if s.len() == 1 {
        assert(s.drop_last() =~= Seq::<Order>::empty());
        assert(s.drop_first() =~= Seq::<Order>::empty());
    } else {
        lemma_liquidity_first(s.drop_last(), taker_side, limit);
        assert(s.drop_last().drop_first() =~= s.drop_first().drop_last());
        assert(s.drop_first().last() == s.last());
    }
}

/// The ids left after a sweep were there before it.
pub proof fn lemma_sweep_ids(instrument_id: InstrumentId, makers: Seq<Order>, taker: Order, id: OrderId)
    ensures
        holds_id(sweep(instrument_id, makers, taker).makers, id) ==> holds_id(makers, id),
    decreases makers.len(),
{
    let r = sweep(instrument_id, makers, taker);
    if makers.len() == 0 || !crosses(taker.side, taker.price, makers[0].price) {
    } else {
        let m = makers[0];
        let q = min_qty(m.remaining_quantity, taker.remaining_quantity);
        let m2 = filled_by(m, q as int);
        let t2 = filled_by(taker, q as int);
        if holds_id(r.makers, id) {
            let k = choose|k: int| 0 <= k < r.makers.len() && (#[trigger] r.makers[k]).order_id == id;
            if m2.remaining_quantity > 0 {
                assert(makers[k].order_id == id);
            } else if t2.remaining_quantity == 0 {
                assert(makers[k + 1].order_id == id);
            } else {
                lemma_sweep_ids(instrument_id, makers.drop_first(), t2, id);
                let j = choose|j: int|
                    0 <= j < makers.drop_first().len() && (#[trigger] makers.drop_first()[j]).order_id == id;
                assert(makers[j + 1].order_id == id);
            }
        }
    }
}

/// A taker whose limit accepts every maker ends filled or with no maker left.
pub proof fn lemma_sweep_all_cross(instrument_id: InstrumentId, makers: Seq<Order>, taker: Order)
    requires
        forall|i: int| 0 <= i < makers.len() ==> crosses(taker.side, taker.price, (#[trigger] makers[i]).price),
    ensures
        sweep(instrument_id, makers, taker).taker.remaining_quantity == 0 || sweep(
            instrument_id,
            makers,
            taker,
        ).makers.len() == 0,
    decreases makers.len(),
{
    if makers.len() > 0 {
        let m = makers[0];
        let q = min_qty(m.remaining_quantity, taker.remaining_quantity);
        let t2 = filled_by(taker, q as int);
        let rest = makers.drop_first();
        assert forall|i: int| 0 <= i < rest.len() implies crosses(t2.side, t2.price, (#[trigger] rest[i]).price) by {
            assert(rest[i] == makers[i + 1]);
        }
        lemma_sweep_all_cross(instrument_id, rest, t2);
    }
}

/// A taker facing at least its remaining quantity at acceptable prices is
/// filled completely.
pub proof fn lemma_sweep_fills(instrument_id: InstrumentId, makers: Seq<Order>, taker: Order)
    requires
        in_priority_order(makers, taker.side.opposite_spec()),
        makers.len() > 0,
        crosses(taker.side, taker.price, makers[0].price),
        taker.remaining_quantity <= liquidity(makers, taker.side, taker.price),
    ensures
        sweep(instrument_id, makers, taker).taker.remaining_quantity == 0,
    decreases makers.len(),
{
    let m = makers[0];
    let q = min_qty(m.remaining_quantity, taker.remaining_quantity);
    let m2 = filled_by(m, q as int);
    let t2 = filled_by(taker, q as int);
    if m2.remaining_quantity > 0 || t2.remaining_quantity == 0 {
    } else {
        let rest = makers.drop_first();
        lemma_liquidity_first(makers, taker.side, taker.price);
        assert(liquidity(rest, taker.side, taker.price) >= t2.remaining_quantity);
        assert forall|i: int, j: int| 0 <= i < j < rest.len() implies at_least_as_good(
            taker.side.opposite_spec(),
            (#[trigger] rest[i]).price,
            (#[trigger] rest[j]).price,
        ) by {
            assert(rest[i] == makers[i + 1] && rest[j] == makers[j + 1]);
        }
        if rest.len() == 0 {
            assert(liquidity(rest, taker.side, taker.price) == 0);
        } else if !crosses(taker.side, taker.price, rest[0].price) {
            lemma_no_cross_behind(rest, taker.side, taker.price, 0);
            lemma_liquidity_tail(rest, taker.side, taker.price, 0);
            assert(rest.take(0) =~= Seq::<Order>::empty());
            assert(liquidity(Seq::<Order>::empty(), taker.side, taker.price) == 0);
        } else {
            lemma_sweep_fills(instrument_id, rest, t2);
        }
    }
}

/// An order book: both sides in price-time priority, the next event
/// sequence number, and the events emitted but not yet collected.
pub struct BookState {
    pub instrument_id: InstrumentId,
    pub bids: Seq<Order>,
    pub asks: Seq<Order>,
    pub next_seq: nat,
    pub pending: Seq<Event>,
}

impl BookState {
    pub open spec fn empty(instrument_id: InstrumentId) -> BookState {
        BookState { instrument_id, bids: seq![], asks: seq![], next_seq: 0, pending: seq![] }
    }

    pub open spec fn side_orders(self, side: Side) -> Seq<Order> {
        match side {
            Side::Buy => self.bids,
            Side::Sell => self.asks,
        }
    }

    pub open spec fn opposite_orders(self, side: Side) -> Seq<Order> {
        match side {
            Side::Buy => self.asks,
            Side::Sell => self.bids,
        }
    }

    pub open spec fn with_side(self, side: Side, s: Seq<Order>) -> BookState {
        match side {
            Side::Buy => BookState { bids: s, ..self },
            Side::Sell => BookState { asks: s, ..self },
        }
    }

    pub open spec fn with_opposite(self, side: Side, s: Seq<Order>) -> BookState {
        match side {
            Side::Buy => BookState { asks: s, ..self },
            Side::Sell => BookState { bids: s, ..self },
        }
    }

    pub open spec fn best_bid(self) -> Option<Price> {
        if self.bids.len() > 0 {
            Some(self.bids[0].price)
        } else {
            None
        }
    }

    pub open spec fn best_ask(self) -> Option<Price> {
        if self.asks.len() > 0 {
            Some(self.asks[0].price)
        } else {
            None
        }
    }

    pub open spec fn worst_bid(self) -> Option<Price> {
        if self.bids.len() > 0 {
            Some(self.bids.last().price)
        } else {
            None
        }
    }

    pub open spec fn worst_ask(self) -> Option<Price> {
        if self.asks.len() > 0 {
            Some(self.asks.last().price)
        } else {
            None
        }
    }

    pub open spec fn top(self) -> (Option<Price>, Option<Price>) {
        (self.best_bid(), self.best_ask())
    }

    pub open spec fn size(self) -> nat {
        self.bids.len() + self.asks.len()
    }

    pub open spec fn contains(self, id: OrderId) -> bool {
        holds_id(self.bids, id) || holds_id(self.asks, id)
    }

    /// The resting order `id` (meaningful when `self.contains(id)`).
    pub open spec fn find(self, id: OrderId) -> Order {
        if holds_id(self.bids, id) {
            self.bids[position_of(self.bids, id)]
        } else {
            self.asks[position_of(self.asks, id)]
        }
    }

    /// The book with order `id` taken out of its queue.
    pub open spec fn without(self, id: OrderId) -> BookState {
        if holds_id(self.bids, id) {
            BookState { bids: self.bids.remove(position_of(self.bids, id)), ..self }
        } else {
            BookState { asks: self.asks.remove(position_of(self.asks, id)), ..self }
        }
    }

    /// Both sides in price-time priority, each order on its own side, order
    /// ids unique over the whole book, and the book not crossed.
    pub open spec fn valid(self) -> bool {
        &&& in_priority_order(self.bids, Side::Buy)
        &&& in_priority_order(self.asks, Side::Sell)
        &&& all_on_side(self.bids, Side::Buy)
        &&& all_on_side(self.asks, Side::Sell)
        &&& ids_distinct(self.bids)
        &&& ids_distinct(self.asks)
        &&& ids_disjoint(self.bids, self.asks)
        &&& (self.bids.len() > 0 && self.asks.len() > 0 ==> self.bids[0].price
            < self.asks[0].price)
    }

    /// Sequence numbers left for `extra` events beyond one per resting order.
    pub open spec fn room(self, extra: nat) -> bool {
        self.next_seq + self.size() + extra <= u64::MAX
    }

    /// Every level of both sides sums to a quantity that fits a `Quantity`.
    pub open spec fn depth_fits(self) -> bool {
        levels_fit(self.bids) && levels_fit(self.asks)
    }

    pub open spec fn emit(self, e: Event) -> BookState {
        BookState { pending: self.pending.push(e), next_seq: self.next_seq + 1, ..self }
    }

    pub open spec fn emit_trades(self, trades: Seq<Trade>) -> BookState {
        BookState {
            pending: self.pending + trade_events(self.next_seq, self.instrument_id, trades),
            next_seq: self.next_seq + trades.len(),
            ..self
        }
    }

    pub open spec fn emit_rejected(self, order_id: OrderId, reason: RejectReason) -> BookState {
        self.emit(
            Event::OrderRejected {
                seq: self.next_seq as u64,
                instrument_id: self.instrument_id,
                order_id,
                reason,
            },
        )
    }

    pub open spec fn emit_canceled(self, order_id: OrderId, remaining: u32) -> BookState {
        self.emit(
            Event::OrderCanceled {
                seq: self.next_seq as u64,
                instrument_id: self.instrument_id,
                order_id,
                remaining_quantity: remaining,
            },
        )
    }

    /// `self` followed, when the best prices differ from those of
    /// `before`, by a `TopOfBookUpdated` event.
    pub open spec fn report_top(self, before: BookState) -> BookState {
        if self.top() != before.top() {
            self.emit(
                Event::TopOfBookUpdated {
                    seq: self.next_seq as u64,
                    instrument_id: self.instrument_id,
                    best_bid: self.best_bid(),
                    best_ask: self.best_ask(),
                },
            )
        } else {
            self
        }
    }

    /// An order on `side` limited at `price` would trade at once.
    pub open spec fn can_match(self, side: Side, price: Price) -> bool {
        let opp = self.opposite_orders(side);
        opp.len() > 0 && crosses(side, price, opp[0].price)
    }

    /// An order on `side` limited at `price` could fill `quantity` at once.
    pub open spec fn can_fully_fill(self, side: Side, price: Price, quantity: u32) -> bool {
        self.can_match(side, price) && quantity <= liquidity(
            self.opposite_orders(side),
            side,
            price,
        )
    }

    /// Why `o` is refused, checked in this order: a duplicate id, then the
    /// condition of its order type.
    pub open spec fn rejection(self, o: Order) -> Option<PlaceOrderReject> {
        if self.contains(o.order_id) {
            Some(PlaceOrderReject::DuplicateOrderId)
        } else if o.order_type == OrderType::Market && self.opposite_orders(o.side).len() == 0 {
            Some(PlaceOrderReject::NoLiquidityForMarket)
        } else if o.order_type == OrderType::PostOnly && self.can_match(o.side, o.price) {
            Some(PlaceOrderReject::PostOnlyWouldTakeLiquidity)
        } else if o.order_type == OrderType::FillAndKill && !self.can_match(o.side, o.price) {
            Some(PlaceOrderReject::FillAndKillNoMatch)
        } else if o.order_type == OrderType::FillOrKill && !self.can_fully_fill(
            o.side,
            o.price,
            o.initial_quantity,
        ) {
            Some(PlaceOrderReject::FillOrKillInsufficientLiquidity)
        } else {
            None
        }
    }

    /// The order as it enters matching: a market order takes the worst
    /// opposite price as its limit, so that it may reach the whole side.
    pub open spec fn priced(self, o: Order) -> Order {
        if o.order_type == OrderType::Market {
            Order {
                price: self.opposite_orders(o.side).last().price,
                order_type: OrderType::GoodTillCancel,
                ..o
            }
        } else {
            o
        }
    }

    /// An accepted order: announced, matched against the opposite side, and
    /// then either rested in its queue or, for an immediate order,
    /// cancelled for what it could not fill.
    pub open spec fn accept(self, o: Order) -> (BookState, Seq<Trade>) {
        let t = self.priced(o);
        let b1 = self.emit(
            Event::OrderAccepted {
                seq: self.next_seq as u64,
                instrument_id: self.instrument_id,
                order_id: o.order_id,
                side: o.side,
                price: t.price,
                quantity: o.initial_quantity,
            },
        );
        let sw = sweep(self.instrument_id, self.opposite_orders(o.side), t);
        let b2 = b1.with_opposite(o.side, sw.makers).emit_trades(sw.trades);
        let b3 = if is_immediate(o.order_type) {
            if sw.taker.remaining_quantity > 0 {
                b2.emit_canceled(o.order_id, sw.taker.remaining_quantity)
            } else {
                b2
            }
        } else if sw.trades.len() == 0 || sw.taker.remaining_quantity > 0 {
            b2.with_side(o.side, insert_by_priority(b2.side_orders(o.side), o.side, sw.taker))
        } else {
            b2
        };
        (b3, sw.trades)
    }

    /// Placing `o`, without the final top-of-book report.
    pub open spec fn place_core(self, o: Order) -> (BookState, Result<Seq<Trade>, PlaceOrderReject>) {
        match self.rejection(o) {
            Some(r) => (self.emit_rejected(o.order_id, reason_of(r)), Err(r)),
            None => {
                let (b, trades) = self.accept(o);
                (b, Ok(trades))
            },
        }
    }

    pub open spec fn place(self, o: Order) -> (BookState, Result<Seq<Trade>, PlaceOrderReject>) {
        let (b, r) = self.place_core(o);
        (b.report_top(self), r)
    }

    /// Cancelling `id`, without the final top-of-book report; the flag
    /// tells whether the order was there.
    pub open spec fn cancel_core(self, id: OrderId) -> (BookState, bool) {
        if self.contains(id) {
            (self.without(id).emit_canceled(id, self.find(id).remaining_quantity), true)
        } else {
            (self, false)
        }
    }

    pub open spec fn cancel(self, id: OrderId) -> (BookState, CancelOrderResult) {
        let (b, found) = self.cancel_core(id);
        (
            b.report_top(self),
            if found {
                CancelOrderResult::Cancelled
            } else {
                CancelOrderResult::NotFound
            },
        )
    }

    /// Cancelling each of `ids` in turn: the book, how many were
    /// cancelled, how many were not found.
    pub open spec fn cancel_each(self, ids: Seq<OrderId>) -> (BookState, nat, nat)
        decreases ids.len(),
    {
        if ids.len() == 0 {
            (self, 0, 0)
        } else {
            let (b, c, n) = self.cancel_each(ids.drop_last());
            let (b2, found) = b.cancel_core(ids.last());
            if found {
                (b2, c + 1, n)
            } else {
                (b2, c, n + 1)
            }
        }
    }

    pub open spec fn cancel_many(self, ids: Seq<OrderId>) -> (BookState, CancelOrdersSummary) {
        let (b, c, n) = self.cancel_each(ids);
        (b.report_top(self), CancelOrdersSummary { cancelled: c as usize, not_found: n as usize })
    }

    /// Replacing order `m.order_id` by a fresh order of the same type with
    /// the new price and quantity; the side may not change.
    pub open spec fn modify(self, m: OrderModify) -> (BookState, Result<Seq<Trade>, ModifyOrderReject>) {
        if !self.contains(m.order_id) {
            (
                self.emit_rejected(m.order_id, RejectReason::OrderNotFound),
                Err(ModifyOrderReject::OrderNotFound),
            )
        } else if self.find(m.order_id).side != m.side {
            (
                self.emit_rejected(m.order_id, RejectReason::SideChangeNotAllowed),
                Err(ModifyOrderReject::SideChangeNotAllowed),
            )
        } else {
            let (b1, _) = self.cancel_core(m.order_id);
            let o = m.modified_spec(self.find(m.order_id).order_type);
            let (b2, r) = b1.place_core(o);
            (
                b2.report_top(self),
                match r {
                    Ok(trades) => Ok(trades),
                    Err(e) => Err(ModifyOrderReject::PlaceRejected(e)),
                },
            )
        }
    }

    /// `later` is `self` with events appended: numbered on from
    /// `self.next_seq`, each carrying this book's instrument, and with
    /// `next_seq` moved past them.
    pub open spec fn emitted_into(self, later: BookState) -> bool {
        &&& later.instrument_id == self.instrument_id
        &&& later.pending.len() >= self.pending.len()
        &&& later.pending.subrange(0, self.pending.len() as int) == self.pending
        &&& later.next_seq == self.next_seq + later.pending.len() - self.pending.len()
        &&& forall|i: int|
            self.pending.len() <= i < later.pending.len() ==> (#[trigger] later.pending[i]).seq_spec()
                == self.next_seq + i - self.pending.len() && later.pending[i].instrument_spec()
                == self.instrument_id
    }

    /// The book after its pending events have been handed out.
    pub open spec fn drained(self) -> BookState {
        BookState { pending: seq![], ..self }
    }
}

} // verus!
