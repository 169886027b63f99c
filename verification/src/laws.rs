//! Properties of the matching engine, its routing and its request handling,
//! proved over the models that the operations' contracts are stated in.

use crate::commands::{Command, ModifyOrderReject, PlaceOrderReject};
use crate::engine::{command_room, run_command};
use crate::commands::CancelOrderResult;
use crate::orderbook::book_model::{
    BookState, at_least_as_good, crosses, fair_trade, holds_id, insert_by_priority, is_immediate,
    lemma_cancel_core_events, lemma_cancel_each, lemma_emitted_emit, lemma_emitted_report_top,
    lemma_emitted_trans, lemma_place_core_events, lemma_priority_pos, lemma_sweep,
    lemma_sweep_all_cross, lemma_sweep_fills, lemma_sweep_ids, levels_of, min_qty, position_of, priority_pos,
    liquidity, lemma_liquidity_nonneg, lemma_liquidity_first, trade_between, in_priority_order,
    resting_qty, sweep, traded,
};
use crate::events::{reason_of, Event, RejectReason};
use crate::orderbook::order::{filled_by, Order};
use crate::orderbook::order_modify::OrderModify;
use crate::orderbook::order_type::OrderType;
use crate::orderbook::side::Side;
use crate::orderbook::types::{OrderId, Price};
use crate::gateway::handlers::{create_plan, modify_plan};
use crate::gateway::http_models::{CreateOrderRequest, ModifyOrderRequest};
use crate::gateway::parsing::{identity_problem, normalized, order_type_named, side_named};
use crate::orderbook::types::INVALID_PRICE;
use crate::commands::InstrumentId;
use crate::shard::ShardId;
use crate::shard_map::RoutingTable;
use vstd::prelude::*;

verus! {

/// The events a command emits are numbered consecutively on from the
/// book's next sequence number and carry the book's instrument, and the
/// book's next sequence number moves past them: a book numbers its events
/// 0, 1, 2, ... across all commands, independently of other books.
pub proof fn law_events_numbered(b: BookState, cmd: Command)
    requires
        command_room(b, cmd),
    ensures
        b.emitted_into(run_command(b, cmd).0),
{
    match cmd {
        Command::PlaceOrder { order, .. } => {
            lemma_place_core_events(b, order);
            let b1 = b.place_core(order).0;
            lemma_emitted_report_top(b, b1);
            lemma_emitted_trans(b, b1, b1.report_top(b));
        },
        Command::CancelOrder { order_id, .. } => {
            lemma_cancel_core_events(b, order_id);
            let b1 = b.cancel_core(order_id).0;
            lemma_emitted_report_top(b, b1);
            lemma_emitted_trans(b, b1, b1.report_top(b));
        },
        Command::CancelOrders { order_ids, .. } => {
            lemma_cancel_each(b, order_ids@);
            let b1 = b.cancel_each(order_ids@).0;
            lemma_emitted_report_top(b, b1);
            lemma_emitted_trans(b, b1, b1.report_top(b));
        },
        Command::ModifyOrder { modify, .. } => {
            let id = modify.order_id;
            if !b.contains(id) {
                lemma_emitted_emit(
                    b,
                    Event::OrderRejected {
                        seq: b.next_seq as u64,
                        instrument_id: b.instrument_id,
                        order_id: id,
                        reason: RejectReason::OrderNotFound,
                    },
                );
            } else if b.find(id).side != modify.side {
                lemma_emitted_emit(
                    b,
                    Event::OrderRejected {
                        seq: b.next_seq as u64,
                        instrument_id: b.instrument_id,
                        order_id: id,
                        reason: RejectReason::SideChangeNotAllowed,
                    },
                );
            } else {
                lemma_cancel_core_events(b, id);
                let b1 = b.cancel_core(id).0;
                let o = modify.modified_spec(b.find(id).order_type);
                assert(b1.opposite_orders(o.side).len() <= b1.size());
                lemma_place_core_events(b1, o);
                let b2 = b1.place_core(o).0;
                lemma_emitted_trans(b, b1, b2);
                lemma_emitted_report_top(b, b2);
                lemma_emitted_trans(b, b2, b2.report_top(b));
            }
        },
    }
}

/// In a valid book every bid is at or below the best bid, every ask at or
/// above the best ask, and the best bid is below the best ask.
pub proof fn law_best_prices(b: BookState)
    requires
        b.valid(),
    ensures
        forall|i: int| 0 <= i < b.bids.len() ==> (#[trigger] b.bids[i]).price <= b.bids[0].price,
        forall|i: int| 0 <= i < b.asks.len() ==> (#[trigger] b.asks[i]).price >= b.asks[0].price,
        b.bids.len() > 0 && b.asks.len() > 0 ==> b.best_bid()->0 < b.best_ask()->0,
{
    assert forall|i: int| 0 <= i < b.bids.len() implies (#[trigger] b.bids[i]).price
        <= b.bids[0].price by {
        if i > 0 {
            assert(at_least_as_good(Side::Buy, b.bids[0].price, b.bids[i].price));
        }
    }
    assert forall|i: int| 0 <= i < b.asks.len() implies (#[trigger] b.asks[i]).price
        >= b.asks[0].price by {
        if i > 0 {
            assert(at_least_as_good(Side::Sell, b.asks[0].price, b.asks[i].price));
        }
    }
}

/// A new order joins its queue behind every resting order whose price
/// ranks at least as well (price first, then time) and ahead of every
/// order ranking worse.
pub proof fn law_time_priority(s: Seq<Order>, side: Side, o: Order)
    requires
        crate::orderbook::book_model::in_priority_order(s, side),
    ensures
        ({
            let r = insert_by_priority(s, side, o);
            let pos = priority_pos(s, side, o.price);
            &&& 0 <= pos < r.len()
            &&& r[pos] == o
            &&& forall|j: int|
                0 <= j < pos ==> #[trigger] r[j] == s[j] && at_least_as_good(side, s[j].price, o.price)
            &&& forall|j: int|
                pos < j < r.len() ==> #[trigger] r[j] == s[j - 1] && !at_least_as_good(
                    side,
                    s[j - 1].price,
                    o.price,
                )
        }),
{
    lemma_priority_pos(s, side, o.price);
}

/// Every trade of an accepted order is made with a resting order of the
/// other side, at that order's price, which the incoming order's limit
/// accepts; the quantity traded is taken off the incoming order and off the
/// resting side alike.
pub proof fn law_trades_conserve(b: BookState, o: Order)
    ensures
        b.place(o).1 matches Ok(ts) ==> {
            &&& forall|i: int|
                0 <= i < ts.len() ==> fair_trade(b.instrument_id, b.priced(o), #[trigger] ts[i])
            &&& traded(ts) <= o.remaining_quantity
            &&& resting_qty(b.place(o).0.opposite_orders(o.side)) + traded(ts) == resting_qty(
                b.opposite_orders(o.side),
            )
        },
{
    if b.rejection(o) is None {
        let t = b.priced(o);
        lemma_sweep(b.instrument_id, b.opposite_orders(o.side), t);
        let sw = sweep(b.instrument_id, b.opposite_orders(o.side), t);
        let b3 = b.accept(o).0;
        assert(b3.opposite_orders(o.side) == sw.makers);
    }
}

/// A fill-or-kill order that is accepted trades its whole quantity.
pub proof fn law_fill_or_kill(b: BookState, o: Order)
    requires
        b.valid(),
        o.order_type == OrderType::FillOrKill,
        o.remaining_quantity == o.initial_quantity,
    ensures
        b.place(o).1 matches Ok(ts) ==> traded(ts) == o.initial_quantity,
{
    if b.rejection(o) is None {
        let opp = b.opposite_orders(o.side);
        assert(b.priced(o) == o);
        assert(crate::orderbook::book_model::in_priority_order(opp, o.side.opposite_spec()));
        lemma_sweep_fills(b.instrument_id, opp, o);
        lemma_sweep(b.instrument_id, opp, o);
    }
}

/// A market order that is accepted trades until it is filled or the
/// opposite side is empty.
pub proof fn law_market_order_sweeps(b: BookState, o: Order)
    requires
        b.valid(),
        o.order_type == OrderType::Market,
    ensures
        b.place(o).1 matches Ok(ts) ==> b.place(o).0.opposite_orders(o.side).len() == 0
            || traded(ts) == o.remaining_quantity,
{
    if b.rejection(o) is None {
        let opp = b.opposite_orders(o.side);
        let t = b.priced(o);
        assert forall|i: int| 0 <= i < opp.len() implies crosses(
            t.side,
            t.price,
            (#[trigger] opp[i]).price,
        ) by {
            if i < opp.len() - 1 {
                assert(at_least_as_good(o.side.opposite_spec(), opp[i].price, opp[opp.len() - 1].price));
            }
        }
        lemma_sweep_all_cross(b.instrument_id, opp, t);
        lemma_sweep(b.instrument_id, opp, t);
        let sw = sweep(b.instrument_id, opp, t);
        assert(b.accept(o).0.opposite_orders(o.side) == sw.makers);
    }
}

/// Market, fill-and-kill and fill-or-kill orders never rest in the book.
pub proof fn law_immediate_orders_do_not_rest(b: BookState, o: Order)
    requires
        is_immediate(o.order_type),
    ensures
        b.place(o).1 is Ok ==> !b.place(o).0.contains(o.order_id),
{
    if b.rejection(o) is None {
        let opp = b.opposite_orders(o.side);
        let t = b.priced(o);
        let sw = sweep(b.instrument_id, opp, t);
        lemma_sweep_ids(b.instrument_id, opp, t, o.order_id);
        let b3 = b.place(o).0;
        assert(b3.opposite_orders(o.side) == sw.makers);
        assert(b3.side_orders(o.side) == b.side_orders(o.side));
        if b3.contains(o.order_id) {
            if o.side == Side::Buy {
                assert(holds_id(b.bids, o.order_id) || holds_id(b.asks, o.order_id));
            } else {
                assert(holds_id(b.bids, o.order_id) || holds_id(b.asks, o.order_id));
            }
        }
    }
}

/// A post-only order that is accepted trades nothing and rests in the book.
pub proof fn law_post_only_rests(b: BookState, o: Order)
    requires
        b.valid(),
        o.order_type == OrderType::PostOnly,
    ensures
        b.place(o).1 matches Ok(ts) ==> ts.len() == 0 && b.place(o).0.contains(o.order_id),
{
    if b.rejection(o) is None {
        let own = b.side_orders(o.side);
        lemma_sweep(b.instrument_id, b.opposite_orders(o.side), o);
        let sw = sweep(b.instrument_id, b.opposite_orders(o.side), o);
        assert(sw.taker == o);
        assert(crate::orderbook::book_model::in_priority_order(own, o.side));
        lemma_priority_pos(own, o.side, o.price);
        let pos = priority_pos(own, o.side, o.price);
        let ins = insert_by_priority(own, o.side, o);
        assert(ins[pos] == o);
        assert(b.place(o).0.side_orders(o.side) == ins);
        assert(holds_id(ins, o.order_id));
    }
}

/// A refused duplicate id leaves both queues as they were.
pub proof fn law_duplicate_rejected(b: BookState, o: Order)
    requires
        b.contains(o.order_id),
    ensures
        b.place(o).1 == Err::<Seq<crate::orderbook::trade::Trade>, PlaceOrderReject>(
            PlaceOrderReject::DuplicateOrderId,
        ),
        b.place(o).0.bids == b.bids,
        b.place(o).0.asks == b.asks,
{
}

/// A refused order leaves both queues as they were, and the only event it
/// produces is its `OrderRejected`, with the reason it was refused for.
pub proof fn law_refused_order_changes_nothing(b: BookState, o: Order)
    ensures
        b.place(o).1 matches Err(r) ==> {
            &&& b.place(o).0.bids == b.bids
            &&& b.place(o).0.asks == b.asks
            &&& b.place(o).0.pending == b.pending.push(
                Event::OrderRejected {
                    seq: b.next_seq as u64,
                    instrument_id: b.instrument_id,
                    order_id: o.order_id,
                    reason: reason_of(r),
                },
            )
        },
{
}

/// A modification that would change the order's side is refused and leaves
/// both queues as they were.
pub proof fn law_side_change_rejected(b: BookState, m: OrderModify)
    requires
        b.contains(m.order_id),
        b.find(m.order_id).side != m.side,
    ensures
        b.modify(m).1 == Err::<Seq<crate::orderbook::trade::Trade>, ModifyOrderReject>(
            ModifyOrderReject::SideChangeNotAllowed,
        ),
        b.modify(m).0.bids == b.bids,
        b.modify(m).0.asks == b.asks,
{
}

/// Cancelling reports `Cancelled` exactly when the order rests in the book,
/// and afterwards the book holds every other order and not that one.
pub proof fn law_cancel_removes(b: BookState, id: OrderId)
    requires
        b.valid(),
    ensures
        (b.cancel(id).1 == CancelOrderResult::Cancelled) <==> b.contains(id),
        forall|x: OrderId| #[trigger]
            b.cancel(id).0.contains(x) <==> (b.contains(x) && x != id),
{
    let c = b.cancel(id).0;
    if b.contains(id) {
        crate::orderbook::book_model::lemma_without(b, id);
        let w = b.without(id);
        assert(c.bids == w.bids && c.asks == w.asks);
        assert forall|x: OrderId| #[trigger] c.contains(x) <==> (b.contains(x) && x != id) by {
            assert(c.contains(x) == w.contains(x));
        }
    } else {
        assert(c.bids == b.bids && c.asks == b.asks);
        assert forall|x: OrderId| #[trigger] c.contains(x) <==> (b.contains(x) && x != id) by {
            assert(c.contains(x) == b.contains(x));
        }
    }
}

/// Cancelling an order that was just placed and rested without trading
/// restores both queues.
pub proof fn law_cancel_undoes_resting_place(b: BookState, o: Order)
    requires
        b.valid(),
        !b.contains(o.order_id),
        o.order_type == OrderType::GoodTillCancel || o.order_type == OrderType::PostOnly,
        !b.can_match(o.side, o.price),
    ensures
        b.place(o).1 == Ok::<Seq<crate::orderbook::trade::Trade>, PlaceOrderReject>(seq![]),
        b.place(o).0.cancel(o.order_id).1 == CancelOrderResult::Cancelled,
        b.place(o).0.cancel(o.order_id).0.bids == b.bids,
        b.place(o).0.cancel(o.order_id).0.asks == b.asks,
{
    let own = b.side_orders(o.side);
    let opp = b.opposite_orders(o.side);
    lemma_sweep(b.instrument_id, opp, o);
    let sw = sweep(b.instrument_id, opp, o);
    assert(sw.taker == o && sw.makers == opp && sw.trades.len() == 0);
    assert(sw.trades =~= Seq::<crate::orderbook::trade::Trade>::empty());
    lemma_priority_pos(own, o.side, o.price);
    let pos = priority_pos(own, o.side, o.price);
    let ins = insert_by_priority(own, o.side, o);
    let b2 = b.place(o).0;
    assert(b2.side_orders(o.side) == ins);
    assert(b2.opposite_orders(o.side) == opp);
    assert(ins[pos] == o);
    assert forall|j: int| 0 <= j < ins.len() && j != pos implies (#[trigger] ins[j]).order_id
        != o.order_id by {
        let jj = if j < pos {
            j
        } else {
            j - 1
        };
        assert(ins[j] == own[jj]);
    }
    assert(holds_id(ins, o.order_id));
    assert(position_of(ins, o.order_id) == pos);
    assert(ins.remove(pos) =~= own);
    if o.side == Side::Sell {
        assert(!holds_id(b2.bids, o.order_id));
    }
}

/// A batch cancel reports every id as either cancelled or not found.
pub proof fn law_cancel_counts(b: BookState, ids: Seq<OrderId>)
    ensures
        b.cancel_each(ids).1 + b.cancel_each(ids).2 == ids.len(),
    decreases ids.len(),
{
    if ids.len() > 0 {
        law_cancel_counts(b, ids.drop_last());
    }
}

/// `later`'s events extend `earlier`'s, and none of the added ones
/// reports the top of book.
spec fn quiet_since(earlier: BookState, later: BookState) -> bool {
    &&& earlier.pending.len() <= later.pending.len()
    &&& later.pending.subrange(0, earlier.pending.len() as int) == earlier.pending
    &&& forall|i: int|
        earlier.pending.len() <= i < later.pending.len() ==> !((#[trigger] later.pending[i]) is TopOfBookUpdated)
}

/// The events `after` holds beyond `before`'s report the top of book at
/// most once: the last of them is a `TopOfBookUpdated` carrying the new
/// best prices exactly when those differ from `before`'s, and no other is.
pub open spec fn reports_top_once(before: BookState, after: BookState) -> bool {
    let n0 = before.pending.len();
    let n = after.pending.len();
    let changed = after.top() != before.top();
    &&& n0 <= n
    &&& after.pending.subrange(0, n0 as int) == before.pending
    &&& changed ==> n > n0 && (after.pending[n - 1] matches Event::TopOfBookUpdated {
        best_bid,
        best_ask,
        ..
    } && best_bid == after.best_bid() && best_ask == after.best_ask())
    &&& forall|i: int|
        n0 <= i < n && !(changed && i == n - 1) ==> !((#[trigger] after.pending[i]) is TopOfBookUpdated)
}

proof fn lemma_quiet_trans(a: BookState, b: BookState, c: BookState)
    requires
        quiet_since(a, b),
        quiet_since(b, c),
    ensures
        quiet_since(a, c),
{
    assert forall|i: int| 0 <= i < a.pending.len() implies c.pending[i] == a.pending[i] by {
        assert(c.pending.subrange(0, b.pending.len() as int)[i] == c.pending[i]);
        assert(b.pending.subrange(0, a.pending.len() as int)[i] == b.pending[i]);
    }
    assert(c.pending.subrange(0, a.pending.len() as int) =~= a.pending);
    assert forall|i: int| a.pending.len() <= i < c.pending.len() implies !((
    #[trigger] c.pending[i]) is TopOfBookUpdated) by {
        if i < b.pending.len() {
            assert(c.pending.subrange(0, b.pending.len() as int)[i] == c.pending[i]);
        }
    }
}

proof fn lemma_quiet_emit(b: BookState, e: Event)
    requires
        !(e is TopOfBookUpdated),
    ensures
        quiet_since(b, b.emit(e)),
{
    assert(b.emit(e).pending.subrange(0, b.pending.len() as int) =~= b.pending);
}

proof fn lemma_quiet_place_core(b: BookState, o: Order)
    ensures
        quiet_since(b, b.place_core(o).0),
{
    match b.rejection(o) {
        Some(r) => {
            lemma_quiet_emit(
                b,
                Event::OrderRejected {
                    seq: b.next_seq as u64,
                    instrument_id: b.instrument_id,
                    order_id: o.order_id,
                    reason: reason_of(r),
                },
            );
        },
        None => {
            let t = b.priced(o);
            let e = Event::OrderAccepted {
                seq: b.next_seq as u64,
                instrument_id: b.instrument_id,
                order_id: o.order_id,
                side: o.side,
                price: t.price,
                quantity: o.initial_quantity,
            };
            let b1 = b.emit(e);
            lemma_quiet_emit(b, e);
            let sw = sweep(b.instrument_id, b.opposite_orders(o.side), t);
            let b1s = b1.with_opposite(o.side, sw.makers);
            assert(b1s.pending == b1.pending);
            let b2 = b1s.emit_trades(sw.trades);
            assert(b2.pending.subrange(0, b1s.pending.len() as int) =~= b1s.pending);
            assert(quiet_since(b1s, b2));
            lemma_quiet_trans(b, b1s, b2);
            if is_immediate(o.order_type) {
                if sw.taker.remaining_quantity > 0 {
                    lemma_quiet_emit(
                        b2,
                        Event::OrderCanceled {
                            seq: b2.next_seq as u64,
                            instrument_id: b2.instrument_id,
                            order_id: o.order_id,
                            remaining_quantity: sw.taker.remaining_quantity,
                        },
                    );
                    lemma_quiet_trans(
                        b,
                        b2,
                        b2.emit_canceled(o.order_id, sw.taker.remaining_quantity),
                    );
                }
            }
        },
    }
}

proof fn lemma_quiet_cancel_core(b: BookState, id: OrderId)
    ensures
        quiet_since(b, b.cancel_core(id).0),
{
    if b.contains(id) {
        let w = b.without(id);
        assert(w.pending == b.pending);
        lemma_quiet_emit(
            w,
            Event::OrderCanceled {
                seq: w.next_seq as u64,
                instrument_id: w.instrument_id,
                order_id: id,
                remaining_quantity: b.find(id).remaining_quantity,
            },
        );
    } else {
        assert(b.pending.subrange(0, b.pending.len() as int) =~= b.pending);
    }
}

proof fn lemma_quiet_cancel_each(b: BookState, ids: Seq<OrderId>)
    ensures
        quiet_since(b, b.cancel_each(ids).0),
    decreases ids.len(),
{
    if ids.len() == 0 {
        assert(b.pending.subrange(0, b.pending.len() as int) =~= b.pending);
    } else {
        lemma_quiet_cancel_each(b, ids.drop_last());
        let b1 = b.cancel_each(ids.drop_last()).0;
        lemma_quiet_cancel_core(b1, ids.last());
        lemma_quiet_trans(b, b1, b1.cancel_core(ids.last()).0);
    }
}

proof fn lemma_report_once(before: BookState, core: BookState)
    requires
        quiet_since(before, core),
    ensures
        reports_top_once(before, core.report_top(before)),
{
    let after = core.report_top(before);
    assert(after.top() == core.top());
    if core.top() != before.top() {
        assert(after.pending.subrange(0, before.pending.len() as int) =~= before.pending) by {
            assert forall|i: int| 0 <= i < before.pending.len() implies after.pending[i]
                == before.pending[i] by {
                assert(core.pending.subrange(0, before.pending.len() as int)[i] == core.pending[i]);
            }
        }
    }
}

/// Every command reports the top of book at most once, as its last event,
/// with the new best bid and ask, and exactly when they changed: a batch
/// cancel of many orders gives one report, a command that leaves the best
/// prices as they were gives none.
pub proof fn law_top_of_book_reported_once(b: BookState, cmd: Command)
    ensures
        reports_top_once(b, run_command(b, cmd).0),
{
    match cmd {
        Command::PlaceOrder { order, .. } => {
            lemma_quiet_place_core(b, order);
            lemma_report_once(b, b.place_core(order).0);
        },
        Command::CancelOrder { order_id, .. } => {
            lemma_quiet_cancel_core(b, order_id);
            lemma_report_once(b, b.cancel_core(order_id).0);
        },
        Command::CancelOrders { order_ids, .. } => {
            lemma_quiet_cancel_each(b, order_ids@);
            lemma_report_once(b, b.cancel_each(order_ids@).0);
        },
        Command::ModifyOrder { modify, .. } => {
            let id = modify.order_id;
            if !b.contains(id) || b.find(id).side != modify.side {
                let reason = if !b.contains(id) {
                    RejectReason::OrderNotFound
                } else {
                    RejectReason::SideChangeNotAllowed
                };
                let e = Event::OrderRejected {
                    seq: b.next_seq as u64,
                    instrument_id: b.instrument_id,
                    order_id: id,
                    reason,
                };
                lemma_quiet_emit(b, e);
                assert(b.emit(e).top() == b.top());
            } else {
                lemma_quiet_cancel_core(b, id);
                let b1 = b.cancel_core(id).0;
                let o = modify.modified_spec(b.find(id).order_type);
                lemma_quiet_place_core(b1, o);
                let b2 = b1.place_core(o).0;
                lemma_quiet_trans(b, b1, b2);
                lemma_report_once(b, b2);
            }
        },
    }
}

proof fn lemma_sweep_in_queue_order(
    instrument_id: crate::commands::InstrumentId,
    makers: Seq<Order>,
    taker: Order,
)
    ensures
        ({
            let r = sweep(instrument_id, makers, taker);
            &&& r.trades.len() <= makers.len()
            &&& forall|i: int|
                0 <= i < r.trades.len() ==> (#[trigger] r.trades[i]).maker_info().order_id
                    == makers[i].order_id && r.trades[i].maker_info().price == makers[i].price
            &&& forall|i: int|
                0 <= i < r.trades.len() - 1 ==> (#[trigger] r.trades[i]).bids_trades.quantity
                    == makers[i].remaining_quantity
        }),
    decreases makers.len(),
{
    if makers.len() > 0 && crosses(taker.side, taker.price, makers[0].price) {
        let m = makers[0];
        let q = min_qty(m.remaining_quantity, taker.remaining_quantity);
        let m2 = filled_by(m, q as int);
        let t2 = filled_by(taker, q as int);
        if m2.remaining_quantity == 0 && t2.remaining_quantity > 0 {
            let r = sweep(instrument_id, makers, taker);
            let rest = sweep(instrument_id, makers.drop_first(), t2);
            lemma_sweep_in_queue_order(instrument_id, makers.drop_first(), t2);
            assert forall|i: int| 0 < i < r.trades.len() implies r.trades[i] == rest.trades[i
                - 1] && makers[i] == makers.drop_first()[i - 1] by {}
        }
    }
}

/// Matching follows price-time priority: the trades of an accepted order
/// are made with the resting orders of the other side in queue order (best
/// price first, earliest first at a price), each at that order's price, and
/// every one of them but the last is filled completely.
pub proof fn law_price_time_matching(b: BookState, o: Order)
    ensures
        b.place(o).1 matches Ok(ts) ==> {
            let opp = b.opposite_orders(o.side);
            &&& ts.len() <= opp.len()
            &&& forall|i: int|
                0 <= i < ts.len() ==> (#[trigger] ts[i]).maker_info().order_id == opp[i].order_id
                    && ts[i].maker_info().price == opp[i].price
            &&& forall|i: int|
                0 <= i < ts.len() - 1 ==> (#[trigger] ts[i]).bids_trades.quantity
                    == opp[i].remaining_quantity
        },
{
    if b.rejection(o) is None {
        lemma_sweep_in_queue_order(b.instrument_id, b.opposite_orders(o.side), b.priced(o));
    }
}

/// Depth levels `lv` of a side are best first, each price strictly better
/// than the next, so no price appears twice.
pub open spec fn levels_strictly_ordered(lv: Seq<(Price, int)>, side: Side) -> bool {
    forall|i: int, j: int|
        #![trigger lv[i], lv[j]]
        0 <= i < j < lv.len() ==> at_least_as_good(side, lv[i].0, lv[j].0) && lv[i].0 != lv[j].0
}

proof fn lemma_levels_ordered(s: Seq<Order>, side: Side)
    requires
        crate::orderbook::book_model::in_priority_order(s, side),
    ensures
        levels_strictly_ordered(levels_of(s), side),
        s.len() > 0 ==> levels_of(s).len() > 0 && levels_of(s)[0].0 == s[0].price
            && levels_of(s).last().0 == s.last().price,
    decreases s.len(),
{
    if s.len() > 0 {
        let t = s.drop_last();
        assert forall|i: int, j: int| 0 <= i < j < t.len() implies at_least_as_good(
            side,
            t[i].price,
            t[j].price,
        ) by {
            assert(t[i] == s[i] && t[j] == s[j]);
        }
        lemma_levels_ordered(t, side);
        let init = levels_of(t);
        let o = s.last();
        let lv = levels_of(s);
        if init.len() > 0 && init.last().0 == o.price {
            assert(lv == init.update(init.len() - 1, (o.price, init.last().1 + o.remaining_quantity)));
            assert forall|i: int, j: int| 0 <= i < j < lv.len() implies at_least_as_good(
                side,
                lv[i].0,
                lv[j].0,
            ) && lv[i].0 != lv[j].0 by {
                assert(lv[i].0 == init[i].0 && lv[j].0 == init[j].0);
            }
            if t.len() > 0 {
                assert(t[0] == s[0]);
            }
        } else {
            assert(lv == init.push((o.price, o.remaining_quantity as int)));
            if t.len() > 0 {
                let n = s.len() as int;
                assert(t.last() == s[n - 2]);
                assert(at_least_as_good(side, s[n - 2].price, s[n - 1].price));
                assert(t[0] == s[0]);
                assert forall|i: int, j: int| 0 <= i < j < lv.len() implies at_least_as_good(
                    side,
                    lv[i].0,
                    lv[j].0,
                ) && lv[i].0 != lv[j].0 by {
                    if j == lv.len() - 1 {
                        let k = init.len() - 1;
                        assert(lv[j].0 == o.price);
                        assert(init[k].0 == s[n - 2].price);
                        if i < k {
                            assert(at_least_as_good(side, init[i].0, init[k].0) && init[i].0
                                != init[k].0);
                        }
                        assert(lv[i] == init[i]);
                    } else {
                        assert(lv[i] == init[i] && lv[j] == init[j]);
                    }
                }
            } else {
                assert(init.len() == 0);
            }
        }
    }
}

/// The depth of a valid book lists each side's prices best first and each
/// price once: bid levels strictly falling, ask levels strictly rising, and
/// the first level of each side at its best price.
pub proof fn law_depth_levels_ordered(b: BookState)
    requires
        b.valid(),
    ensures
        levels_strictly_ordered(levels_of(b.bids), Side::Buy),
        levels_strictly_ordered(levels_of(b.asks), Side::Sell),
        b.bids.len() > 0 ==> levels_of(b.bids).len() > 0 && Some(levels_of(b.bids)[0].0)
            == b.best_bid(),
        b.asks.len() > 0 ==> levels_of(b.asks).len() > 0 && Some(levels_of(b.asks)[0].0)
            == b.best_ask(),
{
    lemma_levels_ordered(b.bids, Side::Buy);
    lemma_levels_ordered(b.asks, Side::Sell);
}

/// Every order of `s` has quantity left.
pub open spec fn all_positive(s: Seq<Order>) -> bool {
    forall|i: int| 0 <= i < s.len() ==> (#[trigger] s[i]).remaining_quantity > 0
}

proof fn lemma_sweep_positive(
    instrument_id: crate::commands::InstrumentId,
    makers: Seq<Order>,
    taker: Order,
)
    requires
        all_positive(makers),
        taker.remaining_quantity > 0,
    ensures
        ({
            let r = sweep(instrument_id, makers, taker);
            &&& all_positive(r.makers)
            &&& forall|i: int| 0 <= i < r.trades.len() ==> (#[trigger] r.trades[i]).bids_trades.quantity > 0
        }),
    decreases makers.len(),
{
    if makers.len() > 0 && crosses(taker.side, taker.price, makers[0].price) {
        let m = makers[0];
        let q = min_qty(m.remaining_quantity, taker.remaining_quantity);
        let m2 = filled_by(m, q as int);
        let t2 = filled_by(taker, q as int);
        let r = sweep(instrument_id, makers, taker);
        let tail = makers.drop_first();
        assert forall|i: int| 0 <= i < tail.len() implies (#[trigger] tail[i]).remaining_quantity
            > 0 by {
            assert(tail[i] == makers[i + 1]);
        }
        if m2.remaining_quantity > 0 {
            assert forall|i: int| 0 <= i < r.makers.len() implies (
            #[trigger] r.makers[i]).remaining_quantity > 0 by {
                if i > 0 {
                    assert(r.makers[i] == makers[i]);
                }
            }
        } else if t2.remaining_quantity > 0 {
            lemma_sweep_positive(instrument_id, tail, t2);
            let rest = sweep(instrument_id, tail, t2);
            assert forall|i: int| 0 <= i < r.trades.len() implies (
            #[trigger] r.trades[i]).bids_trades.quantity > 0 by {
                if i > 0 {
                    assert(r.trades[i] == rest.trades[i - 1]);
                }
            }
        }
    }
}

/// With positive quantities throughout, an accepted order trades only
/// positive quantities, leaves every resting order with quantity left, and
/// rests exactly when it may and is not filled: then it rests with what it
/// did not fill; otherwise it is not in the book.
pub proof fn law_positive_fills(b: BookState, o: Order)
    requires
        b.valid(),
        all_positive(b.bids),
        all_positive(b.asks),
        o.remaining_quantity > 0,
    ensures
        b.place(o).1 matches Ok(ts) ==> {
            let after = b.place(o).0;
            let rests = !is_immediate(o.order_type) && traded(ts) < o.remaining_quantity;
            &&& forall|i: int| 0 <= i < ts.len() ==> (#[trigger] ts[i]).bids_trades.quantity > 0
            &&& all_positive(after.bids)
            &&& all_positive(after.asks)
            &&& rests ==> after.side_orders(o.side).contains(
                filled_by(b.priced(o), traded(ts)),
            )
            &&& !rests ==> !after.contains(o.order_id)
        },
{
    if b.rejection(o) is None {
        let t = b.priced(o);
        let opp = b.opposite_orders(o.side);
        let own = b.side_orders(o.side);
        assert(t.remaining_quantity == o.remaining_quantity);
        assert(all_positive(opp));
        assert(all_positive(own));
        lemma_sweep(b.instrument_id, opp, t);
        lemma_sweep_positive(b.instrument_id, opp, t);
        lemma_sweep_ids(b.instrument_id, opp, t, o.order_id);
        let sw = sweep(b.instrument_id, opp, t);
        let after = b.place(o).0;
        assert(after.opposite_orders(o.side) == sw.makers);
        assert(sw.taker == filled_by(t, traded(sw.trades)));
        let rests = !is_immediate(o.order_type) && traded(sw.trades) < o.remaining_quantity;
        if rests {
            let pos = priority_pos(own, o.side, t.price);
            lemma_priority_pos(own, o.side, t.price);
            let ins = insert_by_priority(own, o.side, sw.taker);
            assert(after.side_orders(o.side) == ins);
            assert(ins[pos] == sw.taker);
            assert forall|i: int| 0 <= i < ins.len() implies (#[trigger] ins[i]).remaining_quantity
                > 0 by {
                if i < pos {
                    assert(ins[i] == own[i]);
                } else if i > pos {
                    assert(ins[i] == own[i - 1]);
                }
            }
        } else {
            assert(after.side_orders(o.side) == own);
            if after.contains(o.order_id) {
                assert(holds_id(b.bids, o.order_id) || holds_id(b.asks, o.order_id));
            }
        }
        if o.side == Side::Buy {
            assert(all_positive(after.bids) && all_positive(after.asks));
        } else {
            assert(all_positive(after.bids) && all_positive(after.asks));
        }
    }
}

/// What placing an order does to the queues and the outcome does not depend
/// on the book's events.
proof fn lemma_place_ignores_events(b: BookState, c: BookState, o: Order)
    requires
        b.instrument_id == c.instrument_id,
        b.bids == c.bids,
        b.asks == c.asks,
    ensures
        b.place(o).0.bids == c.place(o).0.bids,
        b.place(o).0.asks == c.place(o).0.asks,
        b.place(o).1 == c.place(o).1,
{
    assert(b.contains(o.order_id) == c.contains(o.order_id));
    assert(b.rejection(o) == c.rejection(o));
    assert(b.priced(o) == c.priced(o));
}

/// A modification of a resting order on its own side does to the queues
/// what cancelling the order and then placing the new one does, with the
/// same trades or the same placement refusal.
pub proof fn law_modify_is_cancel_then_place(b: BookState, m: OrderModify)
    requires
        b.contains(m.order_id),
        b.find(m.order_id).side == m.side,
    ensures
        ({
            let o = m.modified_spec(b.find(m.order_id).order_type);
            let via = b.cancel(m.order_id).0.place(o);
            &&& b.modify(m).0.bids == via.0.bids
            &&& b.modify(m).0.asks == via.0.asks
            &&& b.modify(m).1 == match via.1 {
                Ok(trades) => Ok(trades),
                Err(e) => Err(ModifyOrderReject::PlaceRejected(e)),
            }
        }),
{
    let o = m.modified_spec(b.find(m.order_id).order_type);
    let b1 = b.cancel_core(m.order_id).0;
    let c1 = b.cancel(m.order_id).0;
    assert(c1 == b1.report_top(b));
    lemma_place_ignores_events(b1, c1, o);
    assert(b.modify(m).0.bids == b1.place_core(o).0.bids);
    assert(b1.place(o).0.bids == b1.place_core(o).0.bids);
    assert(b1.place(o).0.asks == b1.place_core(o).0.asks);
}

/// Cancelling an id that does not rest reports `NotFound`, emits no event
/// and leaves the book as it was.
pub proof fn law_unknown_cancel_is_silent(b: BookState, id: OrderId)
    requires
        !b.contains(id),
    ensures
        b.cancel(id) == (b, CancelOrderResult::NotFound),
{
}

/// A modification refused because the order does not rest, or because it
/// would change side, emits only its `OrderRejected` with the reason of the
/// same name and leaves both queues as they were.
pub proof fn law_refused_modify_emits_reject_only(b: BookState, m: OrderModify)
    requires
        !b.contains(m.order_id) || b.find(m.order_id).side != m.side,
    ensures
        ({
            let reason = if !b.contains(m.order_id) {
                RejectReason::OrderNotFound
            } else {
                RejectReason::SideChangeNotAllowed
            };
            &&& b.modify(m).0.bids == b.bids
            &&& b.modify(m).0.asks == b.asks
            &&& b.modify(m).0.pending == b.pending.push(
                Event::OrderRejected {
                    seq: b.next_seq as u64,
                    instrument_id: b.instrument_id,
                    order_id: m.order_id,
                    reason,
                },
            )
            &&& b.modify(m).1 == Err::<Seq<crate::orderbook::trade::Trade>, ModifyOrderReject>(
                if !b.contains(m.order_id) {
                    ModifyOrderReject::OrderNotFound
                } else {
                    ModifyOrderReject::SideChangeNotAllowed
                },
            )
        }),
{
}

proof fn lemma_sweep_stops(
    instrument_id: crate::commands::InstrumentId,
    makers: Seq<Order>,
    taker: Order,
)
    ensures
        ({
            let r = sweep(instrument_id, makers, taker);
            ||| r.taker.remaining_quantity == 0
            ||| r.makers.len() == 0
            ||| !crosses(taker.side, taker.price, r.makers[0].price)
        }),
    decreases makers.len(),
{
    if makers.len() > 0 && crosses(taker.side, taker.price, makers[0].price) {
        let m = makers[0];
        let q = min_qty(m.remaining_quantity, taker.remaining_quantity);
        let m2 = filled_by(m, q as int);
        let t2 = filled_by(taker, q as int);
        if m2.remaining_quantity == 0 && t2.remaining_quantity > 0 {
            lemma_sweep_stops(instrument_id, makers.drop_first(), t2);
        }
    }
}

proof fn lemma_sweep_within_liquidity(
    instrument_id: crate::commands::InstrumentId,
    makers: Seq<Order>,
    taker: Order,
)
    ensures
        traded(sweep(instrument_id, makers, taker).trades) <= liquidity(
            makers,
            taker.side,
            taker.price,
        ),
    decreases makers.len(),
{
    lemma_liquidity_nonneg(makers, taker.side, taker.price);
    if makers.len() > 0 && crosses(taker.side, taker.price, makers[0].price) {
        let m = makers[0];
        let q = min_qty(m.remaining_quantity, taker.remaining_quantity);
        let m2 = filled_by(m, q as int);
        let t2 = filled_by(taker, q as int);
        let tr = trade_between(instrument_id, taker, m, q);
        let rest = makers.drop_first();
        lemma_liquidity_first(makers, taker.side, taker.price);
        lemma_liquidity_nonneg(rest, taker.side, taker.price);
        assert(seq![tr].drop_first() =~= Seq::<crate::orderbook::trade::Trade>::empty());
        assert(traded(Seq::<crate::orderbook::trade::Trade>::empty()) == 0);
        assert(tr.bids_trades.quantity == q);
        assert(traded(seq![tr]) == q);
        if m2.remaining_quantity == 0 && t2.remaining_quantity > 0 {
            lemma_sweep_within_liquidity(instrument_id, rest, t2);
            let r2 = sweep(instrument_id, rest, t2);
            assert((seq![tr] + r2.trades).drop_first() =~= r2.trades);
        }
    } else {
        assert(traded(sweep(instrument_id, makers, taker).trades) == 0);
    }
}

/// A priced order (every type but market) trades only at its own limit: in
/// each trade of an accepted order the order is the taker at its own price
/// and the maker's price is one that price accepts; and it stops only when
/// it is filled, when the other side is empty, or when the front of the
/// other side no longer crosses its own limit.
pub proof fn law_priced_orders_trade_at_own_limit(b: BookState, o: Order)
    requires
        o.order_type != OrderType::Market,
    ensures
        b.place(o).1 matches Ok(ts) ==> {
            let opp = b.place(o).0.opposite_orders(o.side);
            &&& forall|i: int|
                0 <= i < ts.len() ==> (#[trigger] ts[i]).taker_info().order_id == o.order_id
                    && ts[i].taker_info().price == o.price && crosses(
                    o.side,
                    o.price,
                    ts[i].maker_info().price,
                )
            &&& (traded(ts) == o.remaining_quantity || opp.len() == 0 || !crosses(
                o.side,
                o.price,
                opp[0].price,
            ))
        },
{
    if b.rejection(o) is None {
        assert(b.priced(o) == o);
        let opp = b.opposite_orders(o.side);
        lemma_sweep(b.instrument_id, opp, o);
        lemma_sweep_stops(b.instrument_id, opp, o);
        let sw = sweep(b.instrument_id, opp, o);
        assert(b.place(o).0.opposite_orders(o.side) == sw.makers);
        assert forall|i: int| 0 <= i < sw.trades.len() implies fair_trade(
            b.instrument_id,
            o,
            #[trigger] sw.trades[i],
        ) by {}
    }
}

/// Whether a book can fully fill `q` on `side` at limit `price` is whether
/// a fill-and-kill order of `q` at that limit, placed there, would be
/// accepted and trade all `q` lots.
pub proof fn law_can_fully_fill_is_fak_filling(b: BookState, o: Order)
    requires
        b.valid(),
        o.order_type == OrderType::FillAndKill,
        !b.contains(o.order_id),
        o.remaining_quantity == o.initial_quantity,
    ensures
        b.can_fully_fill(o.side, o.price, o.initial_quantity) <==> (b.place(o).1 matches Ok(ts)
            && traded(ts) == o.initial_quantity),
{
    let opp = b.opposite_orders(o.side);
    if b.can_match(o.side, o.price) {
        assert(b.rejection(o) is None);
        assert(b.priced(o) == o);
        lemma_sweep(b.instrument_id, opp, o);
        lemma_sweep_within_liquidity(b.instrument_id, opp, o);
        let sw = sweep(b.instrument_id, opp, o);
        assert(b.place(o).1 == Ok::<Seq<crate::orderbook::trade::Trade>, PlaceOrderReject>(
            sw.trades,
        ));
        if o.initial_quantity <= liquidity(opp, o.side, o.price) {
            assert(in_priority_order(opp, o.side.opposite_spec()));
            lemma_sweep_fills(b.instrument_id, opp, o);
        }
    } else {
        assert(b.rejection(o) == Some(PlaceOrderReject::FillAndKillNoMatch));
    }
}

/// A fill-or-kill order is accepted exactly when the same order as
/// fill-and-kill would be accepted and trade its whole quantity.
pub proof fn law_fill_or_kill_is_all_or_nothing_fak(b: BookState, o: Order)
    requires
        b.valid(),
        o.order_type == OrderType::FillOrKill,
        !b.contains(o.order_id),
        o.remaining_quantity == o.initial_quantity,
    ensures
        b.place(o).1 is Ok <==> (b.place(Order { order_type: OrderType::FillAndKill, ..o }).1 matches Ok(
            ts,
        ) && traded(ts) == o.initial_quantity),
{
    let fak = Order { order_type: OrderType::FillAndKill, ..o };
    law_can_fully_fill_is_fak_filling(b, fak);
    if b.can_fully_fill(o.side, o.price, o.initial_quantity) {
        assert(b.rejection(o) is None);
    } else {
        assert(b.rejection(o) == Some(PlaceOrderReject::FillOrKillInsufficientLiquidity));
    }
}

proof fn lemma_resting_qty_remove(s: Seq<Order>, k: int)
    requires
        0 <= k < s.len(),
    ensures
        resting_qty(s.remove(k)) + s[k].remaining_quantity == resting_qty(s),
    decreases k,
{
    if k == 0 {
        assert(s.remove(0) =~= s.drop_first());
    } else {
        lemma_resting_qty_remove(s.drop_first(), k - 1);
        assert(s.remove(k).drop_first() =~= s.drop_first().remove(k - 1));
        assert(s.remove(k)[0] == s[0]);
    }
}

/// Order `id` rests in `b` with `q` lots left.
pub open spec fn rests_with(b: BookState, id: OrderId, q: u32) -> bool {
    ||| exists|k: int|
        0 <= k < b.bids.len() && (#[trigger] b.bids[k]).order_id == id && b.bids[k].remaining_quantity
            == q
    ||| exists|k: int|
        0 <= k < b.asks.len() && (#[trigger] b.asks[k]).order_id == id && b.asks[k].remaining_quantity
            == q
}

/// The events a cancel of a resting order `id` starts with: its
/// `OrderCanceled`, carrying exactly what the order had left, so that the
/// book's resting quantity drops by that much.
proof fn lemma_cancel_core_reports(b: BookState, id: OrderId)
    requires
        b.valid(),
        b.contains(id),
    ensures
        ({
            let c = b.cancel_core(id).0;
            let n = b.pending.len() as int;
            &&& c.pending.len() == n + 1
            &&& c.pending[n] matches Event::OrderCanceled { order_id, remaining_quantity, .. }
                && order_id == id && rests_with(b, id, remaining_quantity) && resting_qty(c.bids)
                + resting_qty(c.asks) + remaining_quantity == resting_qty(b.bids) + resting_qty(
                b.asks,
            )
        }),
{
    if holds_id(b.bids, id) {
        let k = position_of(b.bids, id);
        lemma_resting_qty_remove(b.bids, k);
        assert(b.bids[k].order_id == id);
    } else {
        let k = position_of(b.asks, id);
        lemma_resting_qty_remove(b.asks, k);
        assert(b.asks[k].order_id == id);
    }
}

/// Cancelling a resting order reports, in the `OrderCanceled` event it
/// starts with, exactly the quantity the order had left, which is what the
/// book's resting quantity drops by.
pub proof fn law_cancel_reports_what_rests(b: BookState, id: OrderId)
    requires
        b.valid(),
        b.contains(id),
    ensures
        ({
            let after = b.cancel(id).0;
            let n = b.pending.len() as int;
            &&& after.pending.len() > n
            &&& after.pending[n] matches Event::OrderCanceled { order_id, remaining_quantity, .. }
                && order_id == id && rests_with(b, id, remaining_quantity) && resting_qty(
                after.bids,
            ) + resting_qty(after.asks) + remaining_quantity == resting_qty(b.bids) + resting_qty(
                b.asks,
            )
        }),
{
    lemma_cancel_core_reports(b, id);
    let c = b.cancel_core(id).0;
    let after = c.report_top(b);
    assert(after.bids == c.bids && after.asks == c.asks);
    assert(after.pending[b.pending.len() as int] == c.pending[b.pending.len() as int]);
}

/// A modification of a resting order starts with the `OrderCanceled` of the
/// old order, carrying exactly the quantity it had left.
pub proof fn law_modify_reports_what_rests(b: BookState, m: OrderModify)
    requires
        b.valid(),
        b.contains(m.order_id),
        b.find(m.order_id).side == m.side,
    ensures
        ({
            let after = b.modify(m).0;
            let n = b.pending.len() as int;
            &&& after.pending.len() > n
            &&& after.pending[n] matches Event::OrderCanceled { order_id, remaining_quantity, .. }
                && order_id == m.order_id && rests_with(b, m.order_id, remaining_quantity)
        }),
{
    let id = m.order_id;
    lemma_cancel_core_reports(b, id);
    let b1 = b.cancel_core(id).0;
    let o = m.modified_spec(b.find(id).order_type);
    lemma_quiet_place_core(b1, o);
    let b2 = b1.place_core(o).0;
    let n = b.pending.len() as int;
    assert(b2.pending.subrange(0, b1.pending.len() as int)[n] == b2.pending[n]);
    assert(b2.pending[n] == b1.pending[n]);
    let after = b2.report_top(b);
    assert(after.pending[n] == b2.pending[n]);
}

/// A create request that passes validation becomes an order with exactly
/// the request's id, side, order type and quantity, priced at the request's
/// price unless it is a market order; it is refused exactly when a check
/// fails, with the quantity refused only when it is 0.
pub proof fn law_create_request_keeps_its_order(req: CreateOrderRequest)
    ensures
        ({
            let side = side_named(normalized(req.side@));
            let t = order_type_named(normalized(req.order_type@));
            let ok = identity_problem(req.instrument_id, req.account_id, req.request_id) is None
                && side is Some && t is Some && req.quantity > 0 && (t != Some(OrderType::Market)
                ==> req.price is Some);
            &&& (create_plan(req) is Ok <==> ok)
            &&& (identity_problem(req.instrument_id, req.account_id, req.request_id) is None
                && side is Some && t is Some && req.quantity == 0 ==> create_plan(req) == Err::<
                Order,
                Seq<char>,
            >("quantity must be greater than 0"@))
            &&& (create_plan(req) matches Ok(o) ==> {
                &&& o.order_id == req.order_id
                &&& Some(o.side) == side
                &&& Some(o.order_type) == t
                &&& o.initial_quantity == req.quantity
                &&& o.remaining_quantity == req.quantity
                &&& (o.order_type == OrderType::Market ==> o.price == INVALID_PRICE)
                &&& (o.order_type != OrderType::Market ==> Some(o.price) == req.price)
            })
        }),
{
}

/// A modify request with valid identity fields and a known side is refused
/// for its quantity exactly when the quantity is 0; otherwise it becomes a
/// modification carrying the request's id, side, price and quantity.
pub proof fn law_modify_request_keeps_its_fields(req: ModifyOrderRequest)
    requires
        identity_problem(req.instrument_id, req.account_id, req.request_id) is None,
        side_named(normalized(req.side@)) is Some,
    ensures
        modify_plan(req) is Err <==> req.quantity == 0,
        req.quantity == 0 ==> modify_plan(req) == Err::<OrderModify, Seq<char>>(
            "quantity must be greater than 0"@,
        ),
        modify_plan(req) matches Ok(m) ==> m.order_id == req.order_id && Some(m.side)
            == side_named(normalized(req.side@)) && m.price == req.price && m.quantity
            == req.quantity,
{
}

/// The names of the sides: exactly "buy" and "sell".
pub proof fn law_side_names(s: Seq<char>)
    ensures
        side_named(s) == Some(Side::Buy) <==> s == "buy"@,
        side_named(s) == Some(Side::Sell) <==> s == "sell"@,
        side_named(s) is None <==> (s != "buy"@ && s != "sell"@),
{
    reveal_strlit("buy");
    reveal_strlit("sell");
    assert("buy"@.len() != "sell"@.len());
}

/// The names of the order types: each type has its own spellings, and
/// nothing else names a type.
pub proof fn law_order_type_names(s: Seq<char>)
    ensures
        order_type_named(s) == Some(OrderType::Market) <==> s == "market"@,
        order_type_named(s) == Some(OrderType::GoodTillCancel) <==> (s == "limit"@ || s == "gtc"@
            || s == "goodtillcancel"@ || s == "good_till_cancel"@),
        order_type_named(s) == Some(OrderType::FillAndKill) <==> (s == "fak"@ || s == "ioc"@ || s
            == "fillandkill"@ || s == "fill_and_kill"@),
        order_type_named(s) == Some(OrderType::FillOrKill) <==> (s == "fok"@ || s
            == "fillorkill"@ || s == "fill_or_kill"@),
        order_type_named(s) == Some(OrderType::PostOnly) <==> (s == "postonly"@ || s
            == "post_only"@ || s == "post-only"@),
{
    reveal_strlit("market");
    reveal_strlit("limit");
    reveal_strlit("gtc");
    reveal_strlit("goodtillcancel");
    reveal_strlit("good_till_cancel");
    reveal_strlit("fak");
    reveal_strlit("ioc");
    reveal_strlit("fillandkill");
    reveal_strlit("fill_and_kill");
    reveal_strlit("fok");
    reveal_strlit("fillorkill");
    reveal_strlit("fill_or_kill");
    reveal_strlit("postonly");
    reveal_strlit("post_only");
    reveal_strlit("post-only");
    // three-letter names differ in their first or second letter
    assert("gtc"@[0] != "fak"@[0] && "gtc"@[0] != "ioc"@[0] && "gtc"@[0] != "fok"@[0]);
    assert("fak"@[1] != "fok"@[1] && "ioc"@[0] != "fok"@[0] && "ioc"@[0] != "fak"@[0]);
    // longer names differ in length or in a letter
    assert("goodtillcancel"@.len() != "fillandkill"@.len());
    assert("fillandkill"@.len() != "fillorkill"@.len());
    assert("fillandkill"@.len() != "postonly"@.len());
    assert("fill_and_kill"@.len() != "fill_or_kill"@.len());
    assert("fill_and_kill"@.len() != "good_till_cancel"@.len());
    assert("fill_and_kill"@.len() != "post_only"@.len());
    assert("fill_and_kill"@.len() != "post-only"@.len());
    assert("fillorkill"@.len() != "postonly"@.len());
    assert("fill_or_kill"@.len() != "post_only"@.len());
    assert("market"@.len() != "limit"@.len());
    assert("goodtillcancel"@.len() != "fillorkill"@.len());
    assert("good_till_cancel"@.len() != "fill_or_kill"@.len());
    assert("goodtillcancel"@.len() != "postonly"@.len());
    assert("good_till_cancel"@.len() != "post_only"@.len());
    assert("good_till_cancel"@.len() != "post-only"@.len());
    assert("fillorkill"@.len() != "post_only"@.len());
}

/// A request's identity is accepted exactly when every field is non-zero;
/// otherwise the message names the first zero field, in the order
/// instrument, account, request.
pub proof fn law_identity_first_zero_field(instrument_id: u32, account_id: u64, request_id: u64)
    ensures
        identity_problem(instrument_id, account_id, request_id) is None <==> (instrument_id > 0
            && account_id > 0 && request_id > 0),
        instrument_id == 0 ==> identity_problem(instrument_id, account_id, request_id) == Some(
            "instrument_id must be greater than 0"@,
        ),
        instrument_id > 0 && account_id == 0 ==> identity_problem(
            instrument_id,
            account_id,
            request_id,
        ) == Some("account_id must be greater than 0"@),
        instrument_id > 0 && account_id > 0 && request_id == 0 ==> identity_problem(
            instrument_id,
            account_id,
            request_id,
        ) == Some("request_id must be greater than 0"@),
{
}

/// Routing: a pinned instrument goes to its pin, any other to its id
/// modulo the shard count, and pinning an instrument moves it and no other.
pub proof fn law_routing(t: RoutingTable, id: InstrumentId, other: InstrumentId, shard: ShardId)
    requires
        t.valid(),
        shard < t.shard_count,
        other != id,
    ensures
        t.overrides.contains_key(id) ==> t.shard_for(id) == t.overrides[id],
        !t.overrides.contains_key(id) ==> t.shard_for(id) as int == id as int % t.shard_count as int,
        t.shard_for(id) < t.shard_count,
        ({
            let pinned = RoutingTable {
                shard_count: t.shard_count,
                overrides: t.overrides.insert(id, shard),
            };
            &&& pinned.valid()
            &&& pinned.shard_for(id) == shard
            &&& pinned.shard_for(other) == t.shard_for(other)
        }),
{
    let n = t.shard_count as u32;
    assert((id % n) < n);
}

} // verus!
