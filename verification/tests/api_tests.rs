use engine::commands::{Command, ModifyOrderReject, PlaceOrderReject};
use engine::engine::Engine;
use engine::events::{Event, RejectReason};
use engine::gateway::handlers::{unknown_instrument_text, ApiError};
use engine::gateway::parsing::{order_type_from_normalized, side_from_normalized};
use engine::gateway::router::RouterError;
use engine::orderbook::order::Order;
use engine::orderbook::order_type::OrderType;
use engine::orderbook::orderbook::Orderbook;
use engine::orderbook::side::Side;
use engine::shard::{Shard, ShardReply, ShardRequest};
use engine::shard_map::ShardMapError;

#[test]
fn registered_instruments_lists_each_once() {
    let mut engine = Engine::default();
    assert!(engine.registered_instruments().is_empty());
    engine.register_instrument(3);
    engine.register_instrument(1);
    engine.register_instrument(3);
    let mut ids = engine.registered_instruments();
    ids.sort();
    assert_eq!(ids, vec![1, 3]);
    assert_eq!(engine.instrument_count(), 2);
}

#[test]
fn room_and_depth_checks_on_fresh_books() {
    let mut engine = Engine::new();
    engine.register_instrument(1);
    let cmd = Command::CancelOrders {
        instrument_id: 1,
        account_id: 1,
        request_id: 1,
        order_ids: vec![1, 2, 3],
    };
    assert!(engine.has_room(&cmd));
    assert!(engine.depth_fits(1));
    assert!(engine.depth_fits(2));
    let ob = Orderbook::default();
    assert_eq!(ob.instrument_id(), 0);
    assert!(ob.has_room(8));
    assert!(ob.has_room(u64::MAX as u128));
    assert!(ob.depth_fits());
}

#[test]
fn take_events_hands_out_and_clears() {
    let mut ob = Orderbook::new(4);
    ob.add_order(Order::new(1, Side::Buy, OrderType::GoodTillCancel, 100, 10)).unwrap();
    let events = ob.take_events();
    assert_eq!(events.len(), 2);
    assert!(matches!(events[0], Event::OrderAccepted { seq: 0, instrument_id: 4, .. }));
    assert!(ob.take_events().is_empty());
    assert!(!ob.has_room(u64::MAX as u128));
    assert!(ob.has_room(u64::MAX as u128 - 3));
    ob.cancel_order(1);
    let events = ob.take_events();
    assert_eq!(events[0].seq(), 2);
    assert_eq!(events[1].seq(), 3);
}

#[test]
fn snapshot_through_a_shard() {
    let mut shard = Shard::new(2);
    assert_eq!(shard.shard_id(), 2);
    shard.process(ShardRequest::RegisterInstrument(5));
    let place = Command::PlaceOrder {
        instrument_id: 5,
        account_id: 1,
        request_id: 1,
        order: Order::new(1, Side::Sell, OrderType::GoodTillCancel, 120, 7),
    };
    assert!(shard.is_ready_for(&ShardRequest::Execute(place.clone())));
    shard.process(ShardRequest::Execute(place));
    match shard.process(ShardRequest::OrderbookSnapshot(5)) {
        ShardReply::OrderbookSnapshot(Some(info)) => {
            assert!(info.get_bids().is_empty());
            assert_eq!(info.get_asks().len(), 1);
            assert_eq!((info.get_asks()[0].price, info.get_asks()[0].quantity), (120, 7));
        }
        other => panic!("unexpected reply: {other:?}"),
    }
}

#[test]
fn reject_messages() {
    assert_eq!(PlaceOrderReject::DuplicateOrderId.message(), "duplicate order id");
    assert_eq!(
        PlaceOrderReject::PostOnlyWouldTakeLiquidity.message(),
        "post-only order would take liquidity"
    );
    assert_eq!(PlaceOrderReject::NoLiquidityForMarket.message(), "no liquidity for market order");
    assert_eq!(PlaceOrderReject::FillAndKillNoMatch.message(), "fill-and-kill: no immediate match");
    assert_eq!(
        PlaceOrderReject::FillOrKillInsufficientLiquidity.message(),
        "fill-or-kill: insufficient liquidity at limit price"
    );
    assert_eq!(ModifyOrderReject::OrderNotFound.message(), "order not found");
    assert_eq!(
        ModifyOrderReject::SideChangeNotAllowed.message(),
        "side change not allowed on modify"
    );
    assert_eq!(
        ModifyOrderReject::PlaceRejected(PlaceOrderReject::FillAndKillNoMatch).message(),
        "fill-and-kill: no immediate match"
    );
}

#[test]
fn api_error_messages() {
    assert_eq!(ApiError::Invalid("bad").message(), "bad");
    assert_eq!(ApiError::OrderNotFound.message(), "order not found");
    assert_eq!(ApiError::SideChangeNotAllowed.message(), "side change not allowed on modify");
    assert_eq!(
        ApiError::PlaceRejected(PlaceOrderReject::DuplicateOrderId).message(),
        "duplicate order id"
    );
    assert_eq!(ApiError::UnexpectedOutput.message(), "unexpected command output");
    assert_eq!(ApiError::UnknownInstrument(9).message(), "unknown instrument: 9");
    assert_eq!(ApiError::UnknownInstrument(0).message(), "unknown instrument: 0");
    assert_eq!(ApiError::UnknownInstrument(10).message(), "unknown instrument: 10");
    assert_eq!(
        ApiError::UnknownInstrument(u32::MAX).message(),
        "unknown instrument: 4294967295"
    );
    assert_eq!(unknown_instrument_text(1203), "unknown instrument: 1203");
}

#[test]
fn normalized_names() {
    assert_eq!(side_from_normalized("buy"), Some(Side::Buy));
    assert_eq!(side_from_normalized("sell"), Some(Side::Sell));
    assert_eq!(side_from_normalized("Buy"), None);
    assert_eq!(side_from_normalized(" buy"), None);
    assert_eq!(order_type_from_normalized("post-only"), Some(OrderType::PostOnly));
    assert_eq!(order_type_from_normalized("fill_or_kill"), Some(OrderType::FillOrKill));
    assert_eq!(order_type_from_normalized("IOC"), None);
}

#[test]
fn reject_reasons_follow_place_rejects() {
    assert_eq!(RejectReason::from(PlaceOrderReject::DuplicateOrderId), RejectReason::DuplicateOrderId);
    assert_eq!(
        RejectReason::from(PlaceOrderReject::FillOrKillInsufficientLiquidity),
        RejectReason::FillOrKillInsufficientLiquidity
    );
    assert_eq!(
        RejectReason::from(PlaceOrderReject::NoLiquidityForMarket),
        RejectReason::NoLiquidityForMarket
    );
}

#[test]
fn router_error_wraps_map_error() {
    assert_eq!(
        RouterError::from(ShardMapError::ZeroShardCount),
        RouterError::ShardMap(ShardMapError::ZeroShardCount)
    );
}
