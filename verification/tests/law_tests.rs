use engine::commands::{CancelOrderResult, CancelOrdersSummary, ModifyOrderReject, PlaceOrderReject};
use engine::orderbook::level_info::LevelInfo;
use engine::orderbook::order::{Order, OrderError};
use engine::orderbook::order_modify::OrderModify;
use engine::orderbook::order_type::OrderType;
use engine::orderbook::orderbook::Orderbook;
use engine::orderbook::side::Side;
use engine::orderbook::trade::{Trade, TradeInfo};
use engine::orderbook::types::INVALID_PRICE;
use engine::shard_map::ShardMap;

fn gtc(id: u64, side: Side, price: i32, qty: u32) -> Order {
    Order::new(id, side, OrderType::GoodTillCancel, price, qty)
}

fn levels(ob: &Orderbook) -> (Vec<LevelInfo>, Vec<LevelInfo>) {
    let infos = ob.get_order_infos();
    (infos.get_bids().clone(), infos.get_asks().clone())
}

#[test]
fn cancelling_a_resting_order_restores_the_book() {
    let mut ob = Orderbook::new(3);
    ob.add_order(gtc(1, Side::Buy, 100, 10)).unwrap();
    ob.add_order(gtc(2, Side::Sell, 110, 4)).unwrap();
    let before = levels(&ob);
    let r = ob.add_order(gtc(3, Side::Buy, 101, 7)).unwrap();
    assert!(r.trades.is_empty());
    assert_eq!(ob.best_bid(), Some(101));
    assert_eq!(ob.cancel_order(3), CancelOrderResult::Cancelled);
    assert_eq!(levels(&ob), before);
    assert_eq!(ob.size(), 2);
}

#[test]
fn cancel_orders_counts_found_and_missing() {
    let mut ob = Orderbook::new(1);
    ob.add_order(gtc(1, Side::Buy, 100, 10)).unwrap();
    ob.add_order(gtc(2, Side::Sell, 105, 10)).unwrap();
    let summary = ob.cancel_orders(vec![1, 7, 2, 1]);
    assert_eq!(summary, CancelOrdersSummary { cancelled: 2, not_found: 2 });
    assert_eq!(ob.size(), 0);
}

#[test]
fn trades_conserve_quantity_and_use_maker_price() {
    let mut ob = Orderbook::new(9);
    ob.add_order(gtc(1, Side::Sell, 100, 3)).unwrap();
    ob.add_order(gtc(2, Side::Sell, 101, 4)).unwrap();
    let trades = ob.add_order(gtc(3, Side::Buy, 105, 5)).unwrap().trades;
    assert_eq!(trades.len(), 2);
    assert_eq!((trades[0].price(), trades[0].quantity()), (100, 3));
    assert_eq!((trades[1].price(), trades[1].quantity()), (101, 2));
    assert_eq!(trades[0].maker_order_id(), 1);
    assert_eq!(trades[1].maker_order_id(), 2);
    assert_eq!(trades[1].taker_order_id(), 3);
    assert_eq!(trades[1].maker_side(), Side::Sell);
    let total: u32 = trades.iter().map(|t| t.quantity()).sum();
    assert_eq!(total, 5);
    // the rest of the maker at 101 stays, the taker is filled
    assert_eq!(ob.best_ask(), Some(101));
    assert_eq!(ob.best_bid(), None);
    assert_eq!(levels(&ob).1, vec![LevelInfo::new(101, 2)]);
}

#[test]
fn sell_taker_trades_at_bid_price() {
    let mut ob = Orderbook::new(2);
    ob.add_order(gtc(1, Side::Buy, 104, 6)).unwrap();
    let trades = ob.add_order(gtc(2, Side::Sell, 100, 6)).unwrap().trades;
    assert_eq!(trades.len(), 1);
    assert_eq!(trades[0].price(), 104);
    assert_eq!(trades[0].maker_side(), Side::Buy);
    assert_eq!(trades[0].bids_trades().order_id(), 1);
    assert_eq!(trades[0].asks_trades().order_id(), 2);
}

#[test]
fn market_order_rejected_on_empty_side() {
    let mut ob = Orderbook::new(1);
    ob.add_order(gtc(1, Side::Buy, 100, 10)).unwrap();
    let r = ob.add_order(Order::market(2, Side::Buy, OrderType::Market, 5));
    assert!(matches!(r, Err(PlaceOrderReject::NoLiquidityForMarket)));
    assert_eq!(ob.size(), 1);
}

#[test]
fn market_order_sweeps_every_level() {
    let mut ob = Orderbook::new(1);
    ob.add_order(gtc(1, Side::Buy, 100, 2)).unwrap();
    ob.add_order(gtc(2, Side::Buy, 90, 2)).unwrap();
    let trades = ob
        .add_order(Order::market(3, Side::Sell, OrderType::Market, 10))
        .unwrap()
        .trades;
    assert_eq!(trades.len(), 2);
    assert_eq!(trades[1].price(), 90);
    assert_eq!(ob.size(), 0);
}

#[test]
fn fill_or_kill_counts_only_prices_within_limit() {
    let mut ob = Orderbook::new(1);
    ob.add_order(gtc(1, Side::Sell, 100, 5)).unwrap();
    ob.add_order(gtc(2, Side::Sell, 102, 5)).unwrap();
    assert!(ob.can_fully_fill(Side::Buy, 101, 5));
    assert!(!ob.can_fully_fill(Side::Buy, 101, 6));
    assert!(ob.can_fully_fill(Side::Buy, 102, 10));
    assert!(!ob.can_fully_fill(Side::Buy, 99, 1));
    let r = ob.add_order(Order::new(3, Side::Buy, OrderType::FillOrKill, 101, 6));
    assert!(matches!(r, Err(PlaceOrderReject::FillOrKillInsufficientLiquidity)));
    assert_eq!(ob.size(), 2);
}

#[test]
fn worst_prices_are_the_far_ends() {
    let mut ob = Orderbook::new(1);
    assert_eq!(ob.worst_bid(), None);
    ob.add_order(gtc(1, Side::Buy, 100, 1)).unwrap();
    ob.add_order(gtc(2, Side::Buy, 97, 1)).unwrap();
    ob.add_order(gtc(3, Side::Sell, 105, 1)).unwrap();
    ob.add_order(gtc(4, Side::Sell, 109, 1)).unwrap();
    assert_eq!(ob.worst_bid(), Some(97));
    assert_eq!(ob.worst_ask(), Some(109));
}

#[test]
fn modify_keeps_order_type_and_loses_time_priority() {
    let mut ob = Orderbook::new(1);
    ob.add_order(gtc(1, Side::Sell, 100, 5)).unwrap();
    ob.add_order(gtc(2, Side::Sell, 100, 5)).unwrap();
    ob.modify_order(OrderModify::new(1, Side::Sell, 100, 5)).unwrap();
    let trades = ob.add_order(gtc(3, Side::Buy, 100, 5)).unwrap().trades;
    assert_eq!(trades[0].maker_order_id(), 2);
}

#[test]
fn modify_rejected_by_placement_reports_it() {
    let mut ob = Orderbook::new(1);
    ob.add_order(gtc(1, Side::Sell, 100, 5)).unwrap();
    ob.add_order(Order::new(2, Side::Buy, OrderType::PostOnly, 95, 5)).unwrap();
    let r = ob.modify_order(OrderModify::new(2, Side::Buy, 100, 5));
    assert!(matches!(
        r,
        Err(ModifyOrderReject::PlaceRejected(PlaceOrderReject::PostOnlyWouldTakeLiquidity))
    ));
}

#[test]
fn order_fill_and_errors() {
    let mut o = gtc(1, Side::Buy, 100, 10);
    assert_eq!(o.fill(4), Ok(()));
    assert_eq!(o.remaining_quantity(), 6);
    assert_eq!(o.filled_quantity(), 4);
    assert!(!o.is_filled());
    assert_eq!(o.fill(7), Err(OrderError::OverFill(1)));
    assert_eq!(o.remaining_quantity(), 6);
    assert_eq!(o.fill(6), Ok(()));
    assert!(o.is_filled());
    assert_eq!(o.initial_quantity(), 10);
    assert_eq!(o.to_good_till_cancel(120), Err(OrderError::InvalidPriceAdjustment(1)));
}

#[test]
fn market_order_becomes_good_till_cancel() {
    let mut o = Order::market(4, Side::Sell, OrderType::Market, 3);
    assert_eq!(o.price(), INVALID_PRICE);
    assert_eq!(o.to_good_till_cancel(99), Ok(()));
    assert_eq!(o.price(), 99);
    assert_eq!(o.order_type(), OrderType::GoodTillCancel);
}

#[test]
fn order_modify_builds_fresh_order() {
    let m = OrderModify::new(8, Side::Buy, 101, 12);
    let o = m.modify(OrderType::FillAndKill);
    assert_eq!(o, Order::new(8, Side::Buy, OrderType::FillAndKill, 101, 12));
    assert_eq!((m.order_id(), m.side(), m.price(), m.quantity()), (8, Side::Buy, 101, 12));
}

#[test]
fn trade_accessors() {
    let t = Trade::new(5, TradeInfo::new(1, 100, 3), TradeInfo::new(2, 100, 3), Side::Buy);
    assert_eq!(t.instrument_id(), 5);
    assert_eq!(t.maker_order_id(), 1);
    assert_eq!(t.taker_order_id(), 2);
    let t = Trade::new(5, TradeInfo::new(1, 100, 3), TradeInfo::new(2, 100, 3), Side::Sell);
    assert_eq!(t.maker_order_id(), 2);
    assert_eq!(t.taker_order_id(), 1);
    assert_eq!(t.price(), 100);
    assert_eq!(t.quantity(), 3);
}

#[test]
fn shard_for_stays_in_range() {
    let mut map = ShardMap::new(3).unwrap();
    for id in [0u32, 1, 2, 3, 4, 5, 1000, u32::MAX] {
        assert!(map.shard_for(id) < 3);
        assert_eq!(map.shard_for(id), (id % 3) as u16);
    }
    assert!(map.add_override(10, 3).is_err());
    assert_eq!(map.shard_for(10), 1);
    assert_eq!(map.overrides(), vec![]);
}

#[test]
fn with_overrides_applies_pins_in_order() {
    let map = ShardMap::with_overrides(4, &[(1, 3), (1, 2), (9, 0)]).unwrap();
    assert_eq!(map.shard_for(1), 2);
    assert_eq!(map.shard_for(9), 0);
    assert_eq!(map.shard_for(6), 2);
}

#[test]
fn depth_levels_are_strictly_ordered() {
    let mut ob = Orderbook::new(1);
    for (id, price) in [(1u64, 98), (2, 101), (3, 98), (4, 99), (5, 101)] {
        ob.add_order(gtc(id, Side::Buy, price, 2)).unwrap();
    }
    for (id, price) in [(6u64, 110), (7, 105), (8, 107), (9, 105)] {
        ob.add_order(gtc(id, Side::Sell, price, 3)).unwrap();
    }
    let (bids, asks) = levels(&ob);
    assert_eq!(bids, vec![LevelInfo::new(101, 4), LevelInfo::new(99, 2), LevelInfo::new(98, 4)]);
    assert_eq!(asks, vec![LevelInfo::new(105, 6), LevelInfo::new(107, 3), LevelInfo::new(110, 3)]);
    assert_eq!(Some(bids[0].price), ob.best_bid());
    assert_eq!(Some(asks[0].price), ob.best_ask());
}

#[test]
fn partially_filled_order_rests_with_what_is_left() {
    let mut ob = Orderbook::new(1);
    ob.add_order(gtc(1, Side::Sell, 100, 4)).unwrap();
    let trades = ob.add_order(gtc(2, Side::Buy, 100, 10)).unwrap().trades;
    assert_eq!(trades.len(), 1);
    assert!(trades[0].quantity() > 0);
    assert_eq!(levels(&ob).0, vec![LevelInfo::new(100, 6)]);
    assert_eq!(ob.cancel_order(2), CancelOrderResult::Cancelled);
    assert_eq!(ob.size(), 0);
}

#[test]
fn modify_matches_cancel_then_place() {
    let mut a = Orderbook::new(1);
    let mut b = Orderbook::new(1);
    for ob in [&mut a, &mut b] {
        ob.add_order(gtc(1, Side::Sell, 103, 5)).unwrap();
        ob.add_order(gtc(2, Side::Buy, 99, 8)).unwrap();
        ob.add_order(gtc(3, Side::Buy, 98, 8)).unwrap();
    }
    let via_modify = a.modify_order(OrderModify::new(3, Side::Buy, 104, 6)).unwrap().trades;
    assert_eq!(b.cancel_order(3), CancelOrderResult::Cancelled);
    let via_cancel = b.add_order(gtc(3, Side::Buy, 104, 6)).unwrap().trades;
    assert_eq!(via_modify, via_cancel);
    assert_eq!(levels(&a), levels(&b));
    assert_eq!(levels(&a).0, vec![LevelInfo::new(104, 1), LevelInfo::new(99, 8)]);
}
