use engine::commands::{Command, EngineError, PlaceOrderReject};
use engine::engine::Engine;
use engine::gateway::config::{ConfigProblem, GatewayConfig};
use engine::gateway::engine_handle::{engine_top_of_book, submit_to_engine};
use engine::gateway::handlers::{
    cancel_order_response, check_instrument_query, check_register, create_order_response,
    health_response, modify_order_response, orderbook_response, plan_cancel_order,
    plan_create_order, plan_modify_order, register_response, top_of_book_response, ApiBody,
    ApiError, ApiResponse, HttpStatus,
};
use engine::gateway::http_models::{
    CancelOrderQuery, CreateOrderRequest, InstrumentQuery, ModifyOrderRequest,
    RegisterInstrumentRequest,
};
use engine::gateway::parsing::{parse_order_type, parse_side, validate_request_identity};
use engine::orderbook::order_type::OrderType;
use engine::orderbook::side::Side;
use engine::orderbook::types::INVALID_PRICE;

fn create_request(instrument_id: u32, order_id: u64, side: &str, price: i32) -> CreateOrderRequest {
    CreateOrderRequest {
        instrument_id,
        account_id: 42,
        request_id: order_id,
        order_id,
        side: side.to_string(),
        order_type: "limit".to_string(),
        price: Some(price),
        quantity: 10,
    }
}

fn invalid_message(resp: &ApiResponse) -> &'static str {
    assert_eq!(resp.status, HttpStatus::BadRequest);
    match resp.body {
        ApiBody::Error(ApiError::Invalid(m)) => m,
        _ => panic!("expected a validation error"),
    }
}

fn create(engine: &mut Engine, req: &CreateOrderRequest) -> ApiResponse {
    match plan_create_order(req) {
        Ok(cmd) => create_order_response(submit_to_engine(engine, cmd)),
        Err(resp) => resp,
    }
}

#[test]
fn default_dev_has_one_instrument() {
    let config = GatewayConfig::default_dev();
    assert_eq!(config.instruments, vec![1]);
}

#[test]
fn validate_accepts_listed_instruments() {
    let config = GatewayConfig { instruments: vec![1, 2, 3] };
    assert_eq!(config.clone().validate(), Ok(config));
}

#[test]
fn validate_rejects_empty_instrument_list() {
    let config = GatewayConfig { instruments: vec![] };
    assert_eq!(config.validate(), Err(ConfigProblem::EmptyInstruments));
}

#[test]
fn validate_rejects_zero_instrument_id() {
    let config = GatewayConfig { instruments: vec![0, 1] };
    assert_eq!(config.validate(), Err(ConfigProblem::InvalidInstrumentId));
}

#[test]
fn parse_side_ignores_case_and_surrounding_space() {
    assert_eq!(parse_side("buy"), Some(Side::Buy));
    assert_eq!(parse_side("  SELL \t"), Some(Side::Sell));
    assert_eq!(parse_side("Buy"), Some(Side::Buy));
    assert_eq!(parse_side("b uy"), None);
    assert_eq!(parse_side(""), None);
}

#[test]
fn parse_order_type_accepts_every_spelling() {
    assert_eq!(parse_order_type("market"), Some(OrderType::Market));
    for s in ["limit", "GTC", "GoodTillCancel", "good_till_cancel"] {
        assert_eq!(parse_order_type(s), Some(OrderType::GoodTillCancel), "{s}");
    }
    for s in ["fak", "IOC", "FillAndKill", " fill_and_kill "] {
        assert_eq!(parse_order_type(s), Some(OrderType::FillAndKill), "{s}");
    }
    for s in ["fok", "FillOrKill", "fill_or_kill"] {
        assert_eq!(parse_order_type(s), Some(OrderType::FillOrKill), "{s}");
    }
    for s in ["postonly", "POST_ONLY", "post-only"] {
        assert_eq!(parse_order_type(s), Some(OrderType::PostOnly), "{s}");
    }
    assert_eq!(parse_order_type("stop"), None);
}

#[test]
fn identity_validation_reports_first_zero_field() {
    assert_eq!(validate_request_identity(1, 1, 1), None);
    assert_eq!(
        validate_request_identity(0, 0, 0),
        Some("instrument_id must be greater than 0")
    );
    assert_eq!(validate_request_identity(1, 0, 0), Some("account_id must be greater than 0"));
    assert_eq!(validate_request_identity(1, 1, 0), Some("request_id must be greater than 0"));
}

#[test]
fn health_reports_ok() {
    let resp = health_response();
    assert_eq!(resp.status.code(), 200);
    match resp.body {
        ApiBody::Health(h) => assert_eq!(h.status, "ok"),
        _ => panic!("expected health body"),
    }
}

#[test]
fn status_codes() {
    assert_eq!(HttpStatus::Success.code(), 200);
    assert_eq!(HttpStatus::Created.code(), 201);
    assert_eq!(HttpStatus::BadRequest.code(), 400);
    assert_eq!(HttpStatus::NotFound.code(), 404);
    assert_eq!(HttpStatus::InternalServerError.code(), 500);
}

#[test]
fn create_order_rejects_invalid_identity_fields() {
    let mut req = create_request(0, 1, "buy", 100);
    let resp = plan_create_order(&req).err().expect("must be refused");
    assert_eq!(invalid_message(&resp), "instrument_id must be greater than 0");
    req.instrument_id = 1;
    req.account_id = 0;
    let resp = plan_create_order(&req).err().expect("must be refused");
    assert_eq!(invalid_message(&resp), "account_id must be greater than 0");
}

#[test]
fn create_order_validates_fields_in_order() {
    let mut req = create_request(1, 1, "up", 100);
    let resp = plan_create_order(&req).err().expect("bad side");
    assert_eq!(invalid_message(&resp), "invalid side, expected: buy | sell");
    req.side = "buy".to_string();
    req.order_type = "stop".to_string();
    let resp = plan_create_order(&req).err().expect("bad order type");
    assert_eq!(
        invalid_message(&resp),
        "invalid order_type, expected: market | limit | gtc | fok | fak | post_only"
    );
    req.order_type = "limit".to_string();
    req.quantity = 0;
    let resp = plan_create_order(&req).err().expect("zero quantity");
    assert_eq!(invalid_message(&resp), "quantity must be greater than 0");
    req.quantity = 10;
    req.price = None;
    let resp = plan_create_order(&req).err().expect("missing price");
    assert_eq!(invalid_message(&resp), "price is required for non-market orders");
}

#[test]
fn market_create_ignores_price() {
    let mut req = create_request(1, 5, "sell", 100);
    req.order_type = " Market ".to_string();
    match plan_create_order(&req) {
        Ok(Command::PlaceOrder { instrument_id, account_id, request_id, order }) => {
            assert_eq!((instrument_id, account_id, request_id), (1, 42, 5));
            assert_eq!(order.order_id(), 5);
            assert_eq!(order.side(), Side::Sell);
            assert_eq!(order.order_type(), OrderType::Market);
            assert_eq!(order.price(), INVALID_PRICE);
            assert_eq!(order.remaining_quantity(), 10);
        }
        _ => panic!("expected a place command"),
    }
}

#[test]
fn create_order_returns_not_found_for_unregistered_instrument() {
    let mut engine = Engine::new();
    engine.register_instrument(1);
    let resp = create(&mut engine, &create_request(99, 1, "buy", 100));
    assert_eq!(resp.status.code(), 404);
    match resp.body {
        ApiBody::Error(e) => {
            assert!(matches!(e, ApiError::UnknownInstrument(99)));
            assert_eq!(e.message(), "unknown instrument: 99");
        }
        _ => panic!("expected an error body"),
    }
}

#[test]
fn create_order_reports_trades_and_top_of_book() {
    let mut engine = Engine::new();
    engine.register_instrument(1);
    let resp = create(&mut engine, &create_request(1, 1, "sell", 100));
    assert_eq!(resp.status, HttpStatus::Success);
    match resp.body {
        ApiBody::Order(r) => {
            assert_eq!(r.trades, 0);
            assert_eq!(r.best_bid, None);
            assert_eq!(r.best_ask, Some(100));
        }
        _ => panic!("expected order result"),
    }
    let resp = create(&mut engine, &create_request(1, 2, "buy", 100));
    match resp.body {
        ApiBody::Order(r) => {
            assert_eq!(r.trades, 1);
            assert_eq!(r.best_bid, None);
            assert_eq!(r.best_ask, None);
        }
        _ => panic!("expected order result"),
    }
}

#[test]
fn create_order_rejected_by_book_is_bad_request() {
    let mut engine = Engine::new();
    engine.register_instrument(1);
    create(&mut engine, &create_request(1, 1, "buy", 100));
    let resp = create(&mut engine, &create_request(1, 1, "buy", 100));
    assert_eq!(resp.status, HttpStatus::BadRequest);
    assert!(matches!(
        resp.body,
        ApiBody::Error(ApiError::PlaceRejected(PlaceOrderReject::DuplicateOrderId))
    ));
}

#[test]
fn modify_order_returns_bad_request_for_side_change() {
    let mut engine = Engine::new();
    engine.register_instrument(1);
    create(&mut engine, &create_request(1, 7, "buy", 100));
    let req = ModifyOrderRequest {
        instrument_id: 1,
        account_id: 42,
        request_id: 101,
        order_id: 7,
        side: "sell".to_string(),
        price: 100,
        quantity: 10,
    };
    let cmd = plan_modify_order(&req).ok().expect("valid request");
    let resp = modify_order_response(submit_to_engine(&mut engine, cmd));
    assert_eq!(resp.status, HttpStatus::BadRequest);
    assert!(matches!(resp.body, ApiBody::Error(ApiError::SideChangeNotAllowed)));
}

#[test]
fn modify_unknown_order_is_not_found() {
    let mut engine = Engine::new();
    engine.register_instrument(1);
    let req = ModifyOrderRequest {
        instrument_id: 1,
        account_id: 42,
        request_id: 3,
        order_id: 9,
        side: "buy".to_string(),
        price: 100,
        quantity: 10,
    };
    let cmd = plan_modify_order(&req).ok().expect("valid request");
    let resp = modify_order_response(submit_to_engine(&mut engine, cmd));
    assert_eq!(resp.status, HttpStatus::NotFound);
    assert!(matches!(resp.body, ApiBody::Error(ApiError::OrderNotFound)));
}

#[test]
fn modify_rejects_zero_quantity() {
    let req = ModifyOrderRequest {
        instrument_id: 1,
        account_id: 42,
        request_id: 3,
        order_id: 9,
        side: "buy".to_string(),
        price: 100,
        quantity: 0,
    };
    let resp = plan_modify_order(&req).err().expect("must be refused");
    assert_eq!(invalid_message(&resp), "quantity must be greater than 0");
}

#[test]
fn cancel_order_rejects_invalid_identity_fields() {
    let query = CancelOrderQuery { instrument_id: 1, account_id: 0, request_id: 1 };
    let resp = plan_cancel_order(1, &query).err().expect("must be refused");
    assert_eq!(invalid_message(&resp), "account_id must be greater than 0");
}

#[test]
fn cancel_order_answers_top_of_book_or_not_found() {
    let mut engine = Engine::new();
    engine.register_instrument(1);
    create(&mut engine, &create_request(1, 1, "buy", 100));
    create(&mut engine, &create_request(1, 2, "buy", 99));
    let query = CancelOrderQuery { instrument_id: 1, account_id: 42, request_id: 3 };
    let cmd = plan_cancel_order(1, &query).ok().expect("valid query");
    let resp = cancel_order_response(submit_to_engine(&mut engine, cmd));
    assert_eq!(resp.status, HttpStatus::Success);
    match resp.body {
        ApiBody::TopOfBook(t) => {
            assert_eq!(t.best_bid, Some(99));
            assert_eq!(t.best_ask, None);
        }
        _ => panic!("expected top of book"),
    }
    let cmd = plan_cancel_order(1, &query).ok().expect("valid query");
    let resp = cancel_order_response(submit_to_engine(&mut engine, cmd));
    assert_eq!(resp.status, HttpStatus::NotFound);
    assert!(matches!(resp.body, ApiBody::Error(ApiError::OrderNotFound)));
}

#[test]
fn admin_register_instrument_is_idempotent() {
    let mut engine = Engine::new();
    let req = RegisterInstrumentRequest { instrument_id: 5 };
    assert!(check_register(&req).is_none());
    let created = engine.register_instrument(req.instrument_id);
    let resp = register_response(req.instrument_id, created);
    assert_eq!(resp.status.code(), 201);
    let created = engine.register_instrument(req.instrument_id);
    let resp = register_response(req.instrument_id, created);
    assert_eq!(resp.status.code(), 200);
    match resp.body {
        ApiBody::Registered(r) => {
            assert_eq!(r.instrument_id, 5);
            assert!(!r.created);
        }
        _ => panic!("expected registration body"),
    }
}

#[test]
fn admin_register_instrument_rejects_zero() {
    let resp = check_register(&RegisterInstrumentRequest { instrument_id: 0 }).expect("refused");
    assert_eq!(invalid_message(&resp), "instrument_id must be greater than 0");
}

#[test]
fn instrument_query_rejects_zero() {
    assert!(check_instrument_query(&InstrumentQuery { instrument_id: 3 }).is_none());
    let resp = check_instrument_query(&InstrumentQuery { instrument_id: 0 }).expect("refused");
    assert_eq!(invalid_message(&resp), "instrument_id must be greater than 0");
}

#[test]
fn top_of_book_and_depth_responses() {
    let mut engine = Engine::new();
    assert!(matches!(
        top_of_book_response(4, engine_top_of_book(&engine, 4)).body,
        ApiBody::Error(ApiError::UnknownInstrument(4))
    ));
    engine.register_instrument(4);
    create(&mut engine, &create_request(4, 1, "buy", 100));
    create(&mut engine, &create_request(4, 2, "buy", 100));
    create(&mut engine, &create_request(4, 3, "sell", 105));
    let resp = top_of_book_response(4, engine_top_of_book(&engine, 4));
    assert_eq!(resp.status, HttpStatus::Success);
    match resp.body {
        ApiBody::TopOfBook(t) => {
            assert_eq!(t.best_bid, Some(100));
            assert_eq!(t.best_ask, Some(105));
        }
        _ => panic!("expected top of book"),
    }
    let resp = orderbook_response(4, engine.get_orderbook_state(4));
    match resp.body {
        ApiBody::Orderbook(ob) => {
            assert_eq!(ob.bids.len(), 1);
            assert_eq!((ob.bids[0].price, ob.bids[0].quantity), (100, 20));
            assert_eq!(ob.asks.len(), 1);
            assert_eq!((ob.asks[0].price, ob.asks[0].quantity), (105, 10));
        }
        _ => panic!("expected depth"),
    }
    let resp = orderbook_response(8, engine.get_orderbook_state(8));
    assert_eq!(resp.status, HttpStatus::NotFound);
}

#[test]
fn submit_reports_unknown_instrument() {
    let mut engine = Engine::new();
    let req = create_request(3, 1, "buy", 100);
    let cmd = plan_create_order(&req).ok().expect("valid request");
    assert!(matches!(
        submit_to_engine(&mut engine, cmd),
        Err(EngineError::UnknownInstrument(3))
    ));
}
