//! What each HTTP endpoint decides: the command a request becomes, or the
//! client error that refuses it, and the status and body of the response
//! to the engine's reply.

use crate::commands::{
    modify_reject_text, place_reject_text, CancelOrderResult, Command, EngineError, InstrumentId,
    ModifyOrderReject, OutcomeView, PlaceOrderReject,
};
use crate::gateway::engine_handle::EngineReply;
use crate::gateway::http_models::{
    CancelOrderQuery, CreateOrderRequest, HealthResponse, InstrumentQuery, Level,
    ModifyOrderRequest, OrderResult, OrderbookResponse, RegisterInstrumentRequest,
    RegisterInstrumentResponse, TopOfBookResponse,
};
use crate::gateway::parsing::{
    identity_problem, normalized, order_type_named, parse_order_type, parse_side, side_named,
    validate_request_identity,
};
use crate::orderbook::level_info::{LevelInfo, OrderbookLevelInfo};
use crate::orderbook::order::{new_order, Order};
use crate::orderbook::order_modify::OrderModify;
use crate::orderbook::order_type::OrderType;
use crate::orderbook::types::{OrderId, Price, INVALID_PRICE};
use vstd::prelude::*;
use vstd::string::StringExecFns;

verus! {

#[derive(Debug, Clone, Copy, PartialEq, Eq, Structural)]
pub enum HttpStatus {
    Success,
    Created,
    BadRequest,
    NotFound,
    InternalServerError,
}

impl HttpStatus {
    pub open spec fn code_spec(self) -> u16 {
        match self {
            HttpStatus::Success => 200,
            HttpStatus::Created => 201,
            HttpStatus::BadRequest => 400,
            HttpStatus::NotFound => 404,
            HttpStatus::InternalServerError => 500,
        }
    }

    /// The numeric HTTP status code.
    pub fn code(&self) -> (r: u16)
        ensures
            r == self.code_spec(),
    {
        match self {
            HttpStatus::Success => 200,
            HttpStatus::Created => 201,
            HttpStatus::BadRequest => 400,
            HttpStatus::NotFound => 404,
            HttpStatus::InternalServerError => 500,
        }
    }
}

/// What went wrong with a request; the server renders it as the error text.
#[derive(Debug, Clone, Copy)]
pub enum ApiError {
    /// A request field is invalid; the message says which and how.
    Invalid(&'static str),
    /// The book refused the order.
    PlaceRejected(PlaceOrderReject),
    OrderNotFound,
    SideChangeNotAllowed,
    UnknownInstrument(InstrumentId),
    /// The engine answered with an output of another command.
    UnexpectedOutput,
}

/// The decimal digit `d`, for `d` below ten.
pub open spec fn digit_char(d: nat) -> char {
    if d == 0 {
        '0'
    } else if d == 1 {
        '1'
    } else if d == 2 {
        '2'
    } else if d == 3 {
        '3'
    } else if d == 4 {
        '4'
    } else if d == 5 {
        '5'
    } else if d == 6 {
        '6'
    } else if d == 7 {
        '7'
    } else if d == 8 {
        '8'
    } else {
        '9'
    }
}

/// `n` written in decimal, without leading zeros.
pub open spec fn decimal(n: nat) -> Seq<char>
    decreases n,
{
    if n < 10 {
        seq![digit_char(n)]
    } else {
        decimal(n / 10).push(digit_char(n % 10))
    }
}

fn digit_str(d: u32) -> (r: &'static str)
    requires
        d < 10,
    ensures
        r@ == seq![digit_char(d as nat)],
{
    if d == 0 {
        proof {
            reveal_strlit("0");
        }
        "0"
    } else if d == 1 {
        proof {
            reveal_strlit("1");
        }
        "1"
    } else if d == 2 {
        proof {
            reveal_strlit("2");
        }
        "2"
    } else if d == 3 {
        proof {
            reveal_strlit("3");
        }
        "3"
    } else if d == 4 {
        proof {
            reveal_strlit("4");
        }
        "4"
    } else if d == 5 {
        proof {
            reveal_strlit("5");
        }
        "5"
    } else if d == 6 {
        proof {
            reveal_strlit("6");
        }
        "6"
    } else if d == 7 {
        proof {
            reveal_strlit("7");
        }
        "7"
    } else if d == 8 {
        proof {
            reveal_strlit("8");
        }
        "8"
    } else {
        proof {
            reveal_strlit("9");
        }
        "9"
    }
}

/// Append `n` in decimal to `out`.
fn push_decimal(out: &mut String, n: u32)
    ensures
        final(out)@ == old(out)@ + decimal(n as nat),
    decreases n,
{
    if n >= 10 {
        push_decimal(out, n / 10);
    }
    let d = digit_str(n % 10);
    out.append(d);
    proof {
        if n >= 10 {
            assert(old(out)@ + decimal((n / 10) as nat) + seq![digit_char((n % 10) as nat)]
                =~= old(out)@ + decimal(n as nat));
        } else {
            assert(decimal(n as nat) == seq![digit_char(n as nat)]);
        }
    }
}

/// The error text for an instrument that is not registered.
pub open spec fn unknown_instrument_message(id: InstrumentId) -> Seq<char> {
    "unknown instrument: "@ + decimal(id as nat)
}

/// "unknown instrument: " followed by `id` in decimal.
pub fn unknown_instrument_text(id: InstrumentId) -> (r: String)
    ensures
        r@ == unknown_instrument_message(id),
{
    let mut out = "unknown instrument: ".to_owned();
    push_decimal(&mut out, id);
    out
}

/// The error text a response carries for `e`.
pub open spec fn error_text(e: ApiError) -> Seq<char> {
    match e {
        ApiError::Invalid(m) => m@,
        ApiError::PlaceRejected(r) => place_reject_text(r),
        ApiError::OrderNotFound => modify_reject_text(ModifyOrderReject::OrderNotFound),
        ApiError::SideChangeNotAllowed => modify_reject_text(ModifyOrderReject::SideChangeNotAllowed),
        ApiError::UnknownInstrument(id) => unknown_instrument_message(id),
        ApiError::UnexpectedOutput => "unexpected command output"@,
    }
}

impl ApiError {
    /// The error text the response carries.
    pub fn message(&self) -> (r: String)
        ensures
            r@ == error_text(*self),
    {
        match self {
            ApiError::Invalid(m) => (*m).to_owned(),
            ApiError::PlaceRejected(r) => r.message().to_owned(),
            ApiError::OrderNotFound => ModifyOrderReject::OrderNotFound.message().to_owned(),
            ApiError::SideChangeNotAllowed => {
                ModifyOrderReject::SideChangeNotAllowed.message().to_owned()
            },
            ApiError::UnknownInstrument(id) => unknown_instrument_text(*id),
            ApiError::UnexpectedOutput => "unexpected command output".to_owned(),
        }
    }
}

pub enum ApiBody {
    Health(HealthResponse),
    Error(ApiError),
    Order(OrderResult),
    TopOfBook(TopOfBookResponse),
    Orderbook(OrderbookResponse),
    Registered(RegisterInstrumentResponse),
}

pub struct ApiResponse {
    pub status: HttpStatus,
    pub body: ApiBody,
}

/// `r` is a response with `status` and error body `e`.
pub open spec fn is_error(r: ApiResponse, status: HttpStatus, e: ApiError) -> bool {
    &&& r.status == status
    &&& r.body == ApiBody::Error(e)
}

/// `r` is a 400 response whose error message is `m`.
pub open spec fn is_invalid(r: ApiResponse, m: Seq<char>) -> bool {
    &&& r.status == HttpStatus::BadRequest
    &&& r.body matches ApiBody::Error(ApiError::Invalid(text))
    &&& text@ == m
}

fn invalid(message: &'static str) -> (r: ApiResponse)
    ensures
        is_invalid(r, message@),
{
    ApiResponse { status: HttpStatus::BadRequest, body: ApiBody::Error(ApiError::Invalid(message)) }
}

fn error(status: HttpStatus, e: ApiError) -> (r: ApiResponse)
    ensures
        r.status == status,
        r.body == ApiBody::Error(e),
{
    ApiResponse { status, body: ApiBody::Error(e) }
}

/// The liveness answer.
pub fn health_response() -> (r: ApiResponse)
    ensures
        r.status == HttpStatus::Success,
        r.body matches ApiBody::Health(h) && h.status@ == "ok"@,
{
    ApiResponse { status: HttpStatus::Success, body: ApiBody::Health(HealthResponse { status: "ok" }) }
}

/// The order a create request asks for, or the message refusing it:
/// identity fields first, then side, order type, quantity, and the price
/// that every order but a market order needs.
pub open spec fn create_plan(req: CreateOrderRequest) -> Result<Order, Seq<char>> {
    match identity_problem(req.instrument_id, req.account_id, req.request_id) {
        Some(m) => Err(m),
        None => match side_named(normalized(req.side@)) {
            None => Err("invalid side, expected: buy | sell"@),
            Some(side) => match order_type_named(normalized(req.order_type@)) {
                None => Err(
                    "invalid order_type, expected: market | limit | gtc | fok | fak | post_only"@,
                ),
                Some(t) => if req.quantity == 0 {
                    Err("quantity must be greater than 0"@)
                } else if t == OrderType::Market {
                    Ok(new_order(req.order_id, side, t, INVALID_PRICE, req.quantity))
                } else {
                    match req.price {
                        None => Err("price is required for non-market orders"@),
                        Some(p) => Ok(new_order(req.order_id, side, t, p, req.quantity)),
                    }
                },
            },
        },
    }
}

/// The place command for a create request, or the 400 response refusing it.
pub fn plan_create_order(req: &CreateOrderRequest) -> (r: Result<Command, ApiResponse>)
    ensures
        match create_plan(*req) {
            Ok(o) => r == Ok::<Command, ApiResponse>(
                Command::PlaceOrder {
                    instrument_id: req.instrument_id,
                    account_id: req.account_id,
                    request_id: req.request_id,
                    order: o,
                },
            ),
            Err(m) => r matches Err(resp) && is_invalid(resp, m),
        },
{
    if let Some(message) = validate_request_identity(
        req.instrument_id,
        req.account_id,
        req.request_id,
    ) {
        return Err(invalid(message));
    }
    let side = match parse_side(req.side.as_str()) {
        Some(side) => side,
        None => return Err(invalid("invalid side, expected: buy | sell")),
    };
    let order_type = match parse_order_type(req.order_type.as_str()) {
        Some(order_type) => order_type,
        None => {
            return Err(
                invalid("invalid order_type, expected: market | limit | gtc | fok | fak | post_only"),
            );
        },
    };
    if req.quantity == 0 {
        return Err(invalid("quantity must be greater than 0"));
    }
    let order = if order_type == OrderType::Market {
        Order::market(req.order_id, side, order_type, req.quantity)
    } else {
        let price = match req.price {
            Some(price) => price,
            None => return Err(invalid("price is required for non-market orders")),
        };
        Order::new(req.order_id, side, order_type, price, req.quantity)
    };
    Ok(
        Command::PlaceOrder {
            instrument_id: req.instrument_id,
            account_id: req.account_id,
            request_id: req.request_id,
            order,
        },
    )
}

/// The response to a routed place command.
pub fn create_order_response(reply: Result<EngineReply, EngineError>) -> (r: ApiResponse)
    ensures
        match reply {
            Err(EngineError::UnknownInstrument(id)) => is_error(
                r,
                HttpStatus::NotFound,
                ApiError::UnknownInstrument(id),
            ),
            Ok(er) => match er.output@ {
                OutcomeView::PlaceOrder(Ok(trades)) => r.status == HttpStatus::Success && r.body
                    == ApiBody::Order(
                    OrderResult {
                        trades: trades.len() as usize,
                        best_bid: er.best_bid,
                        best_ask: er.best_ask,
                    },
                ),
                OutcomeView::PlaceOrder(Err(e)) => is_error(
                    r,
                    HttpStatus::BadRequest,
                    ApiError::PlaceRejected(e),
                ),
                _ => is_error(r, HttpStatus::InternalServerError, ApiError::UnexpectedOutput),
            },
        },
{
    match reply {
        Err(EngineError::UnknownInstrument(id)) => error(
            HttpStatus::NotFound,
            ApiError::UnknownInstrument(id),
        ),
        Ok(er) => match er.output {
            crate::commands::CommandOutput::PlaceOrder(Ok(success)) => ApiResponse {
                status: HttpStatus::Success,
                body: ApiBody::Order(
                    OrderResult {
                        trades: success.trades.len(),
                        best_bid: er.best_bid,
                        best_ask: er.best_ask,
                    },
                ),
            },
            crate::commands::CommandOutput::PlaceOrder(Err(e)) => error(
                HttpStatus::BadRequest,
                ApiError::PlaceRejected(e),
            ),
            _ => error(HttpStatus::InternalServerError, ApiError::UnexpectedOutput),
        },
    }
}

/// The modification a modify request asks for, or the message refusing it.
pub open spec fn modify_plan(req: ModifyOrderRequest) -> Result<OrderModify, Seq<char>> {
    match identity_problem(req.instrument_id, req.account_id, req.request_id) {
        Some(m) => Err(m),
        None => match side_named(normalized(req.side@)) {
            None => Err("invalid side, expected: buy | sell"@),
            Some(side) => if req.quantity == 0 {
                Err("quantity must be greater than 0"@)
            } else {
                Ok(
                    OrderModify {
                        order_id: req.order_id,
                        side,
                        price: req.price,
                        quantity: req.quantity,
                    },
                )
            },
        },
    }
}

/// The modify command for a modify request, or the 400 response refusing it.
pub fn plan_modify_order(req: &ModifyOrderRequest) -> (r: Result<Command, ApiResponse>)
    ensures
        match modify_plan(*req) {
            Ok(m) => r == Ok::<Command, ApiResponse>(
                Command::ModifyOrder {
                    instrument_id: req.instrument_id,
                    account_id: req.account_id,
                    request_id: req.request_id,
                    modify: m,
                },
            ),
            Err(m) => r matches Err(resp) && is_invalid(resp, m),
        },
{
    if let Some(message) = validate_request_identity(
        req.instrument_id,
        req.account_id,
        req.request_id,
    ) {
        return Err(invalid(message));
    }
    let side = match parse_side(req.side.as_str()) {
        Some(side) => side,
        None => return Err(invalid("invalid side, expected: buy | sell")),
    };
    if req.quantity == 0 {
        return Err(invalid("quantity must be greater than 0"));
    }
    let modify = OrderModify::new(req.order_id, side, req.price, req.quantity);
    Ok(
        Command::ModifyOrder {
            instrument_id: req.instrument_id,
            account_id: req.account_id,
            request_id: req.request_id,
            modify,
        },
    )
}

/// The response to a routed modify command.
pub fn modify_order_response(reply: Result<EngineReply, EngineError>) -> (r: ApiResponse)
    ensures
        match reply {
            Err(EngineError::UnknownInstrument(id)) => is_error(
                r,
                HttpStatus::NotFound,
                ApiError::UnknownInstrument(id),
            ),
            Ok(er) => match er.output@ {
                OutcomeView::ModifyOrder(Ok(trades)) => r.status == HttpStatus::Success && r.body
                    == ApiBody::Order(
                    OrderResult {
                        trades: trades.len() as usize,
                        best_bid: er.best_bid,
                        best_ask: er.best_ask,
                    },
                ),
                OutcomeView::ModifyOrder(Err(ModifyOrderReject::OrderNotFound)) => is_error(
                    r,
                    HttpStatus::NotFound,
                    ApiError::OrderNotFound,
                ),
                OutcomeView::ModifyOrder(Err(ModifyOrderReject::SideChangeNotAllowed)) => is_error(
                    r,
                    HttpStatus::BadRequest,
                    ApiError::SideChangeNotAllowed,
                ),
                OutcomeView::ModifyOrder(Err(ModifyOrderReject::PlaceRejected(e))) => is_error(
                    r,
                    HttpStatus::BadRequest,
                    ApiError::PlaceRejected(e),
                ),
                _ => is_error(r, HttpStatus::InternalServerError, ApiError::UnexpectedOutput),
            },
        },
{
    match reply {
        Err(EngineError::UnknownInstrument(id)) => error(
            HttpStatus::NotFound,
            ApiError::UnknownInstrument(id),
        ),
        Ok(er) => match er.output {
            crate::commands::CommandOutput::ModifyOrder(Ok(success)) => ApiResponse {
                status: HttpStatus::Success,
                body: ApiBody::Order(
                    OrderResult {
                        trades: success.trades.len(),
                        best_bid: er.best_bid,
                        best_ask: er.best_ask,
                    },
                ),
            },
            crate::commands::CommandOutput::ModifyOrder(Err(ModifyOrderReject::OrderNotFound)) => {
                error(HttpStatus::NotFound, ApiError::OrderNotFound)
            },
            crate::commands::CommandOutput::ModifyOrder(
                Err(ModifyOrderReject::SideChangeNotAllowed),
            ) => error(HttpStatus::BadRequest, ApiError::SideChangeNotAllowed),
            crate::commands::CommandOutput::ModifyOrder(
                Err(ModifyOrderReject::PlaceRejected(e)),
            ) => error(HttpStatus::BadRequest, ApiError::PlaceRejected(e)),
            _ => error(HttpStatus::InternalServerError, ApiError::UnexpectedOutput),
        },
    }
}

/// The cancel command for a cancel request, or the 400 response refusing it.
pub fn plan_cancel_order(order_id: OrderId, query: &CancelOrderQuery) -> (r: Result<
    Command,
    ApiResponse,
>)
    ensures
        match identity_problem(query.instrument_id, query.account_id, query.request_id) {
            None => r == Ok::<Command, ApiResponse>(
                Command::CancelOrder {
                    instrument_id: query.instrument_id,
                    account_id: query.account_id,
                    request_id: query.request_id,
                    order_id,
                },
            ),
            Some(m) => r matches Err(resp) && is_invalid(resp, m),
        },
{
    if let Some(message) = validate_request_identity(
        query.instrument_id,
        query.account_id,
        query.request_id,
    ) {
        return Err(invalid(message));
    }
    Ok(
        Command::CancelOrder {
            instrument_id: query.instrument_id,
            account_id: query.account_id,
            request_id: query.request_id,
            order_id,
        },
    )
}

/// The response to a routed cancel command.
pub fn cancel_order_response(reply: Result<EngineReply, EngineError>) -> (r: ApiResponse)
    ensures
        match reply {
            Err(EngineError::UnknownInstrument(id)) => is_error(
                r,
                HttpStatus::NotFound,
                ApiError::UnknownInstrument(id),
            ),
            Ok(er) => match er.output@ {
                OutcomeView::CancelOrder(CancelOrderResult::Cancelled) => r.status == HttpStatus::Success
                    && r.body == ApiBody::TopOfBook(
                    TopOfBookResponse { best_bid: er.best_bid, best_ask: er.best_ask },
                ),
                OutcomeView::CancelOrder(CancelOrderResult::NotFound) => is_error(
                    r,
                    HttpStatus::NotFound,
                    ApiError::OrderNotFound,
                ),
                _ => is_error(r, HttpStatus::InternalServerError, ApiError::UnexpectedOutput),
            },
        },
{
    match reply {
        Err(EngineError::UnknownInstrument(id)) => error(
            HttpStatus::NotFound,
            ApiError::UnknownInstrument(id),
        ),
        Ok(er) => match er.output {
            crate::commands::CommandOutput::CancelOrder(CancelOrderResult::Cancelled) => {
                ApiResponse {
                    status: HttpStatus::Success,
                    body: ApiBody::TopOfBook(
                        TopOfBookResponse { best_bid: er.best_bid, best_ask: er.best_ask },
                    ),
                }
            },
            crate::commands::CommandOutput::CancelOrder(CancelOrderResult::NotFound) => error(
                HttpStatus::NotFound,
                ApiError::OrderNotFound,
            ),
            _ => error(HttpStatus::InternalServerError, ApiError::UnexpectedOutput),
        },
    }
}

/// The 400 response refusing a query for instrument 0, if it is one.
pub fn check_instrument_query(query: &InstrumentQuery) -> (r: Option<ApiResponse>)
    ensures
        query.instrument_id == 0 <==> r is Some,
        r matches Some(resp) ==> is_invalid(resp, "instrument_id must be greater than 0"@),
{
    if query.instrument_id == 0 {
        return Some(invalid("instrument_id must be greater than 0"));
    }
    None
}

/// `out` lists the levels `levels` with the same prices and quantities.
pub open spec fn same_levels(out: Seq<Level>, levels: Seq<LevelInfo>) -> bool {
    &&& out.len() == levels.len()
    &&& forall|k: int|
        0 <= k < out.len() ==> (#[trigger] out[k]).price == levels[k].price && out[k].quantity
            == levels[k].quantity
}

fn to_levels(levels: &Vec<LevelInfo>) -> (out: Vec<Level>)
    ensures
        same_levels(out@, levels@),
{
    let mut out: Vec<Level> = Vec::new();
    let mut i: usize = 0;
    while i < levels.len()
        invariant
            0 <= i <= levels.len(),
            out@.len() == i,
            forall|k: int|
                0 <= k < i ==> (#[trigger] out@[k]).price == levels@[k].price && out@[k].quantity
                    == levels@[k].quantity,
        decreases levels.len() - i,
    {
        out.push(Level { price: levels[i].price, quantity: levels[i].quantity });
        i = i + 1;
    }
    out
}

/// The response to a depth snapshot of `instrument_id`.
pub fn orderbook_response(instrument_id: InstrumentId, snapshot: Option<OrderbookLevelInfo>) -> (r:
    ApiResponse)
    ensures
        match snapshot {
            None => is_error(r, HttpStatus::NotFound, ApiError::UnknownInstrument(instrument_id)),
            Some(info) => r.status == HttpStatus::Success && (r.body matches ApiBody::Orderbook(ob)
                && same_levels(ob.bids@, info@.0) && same_levels(ob.asks@, info@.1)),
        },
{
    match snapshot {
        None => error(HttpStatus::NotFound, ApiError::UnknownInstrument(instrument_id)),
        Some(info) => {
            let bids = to_levels(info.get_bids());
            let asks = to_levels(info.get_asks());
            ApiResponse {
                status: HttpStatus::Success,
                body: ApiBody::Orderbook(OrderbookResponse { bids, asks }),
            }
        },
    }
}

/// The response to a top-of-book read of `instrument_id`.
pub fn top_of_book_response(
    instrument_id: InstrumentId,
    top: Option<(Option<Price>, Option<Price>)>,
) -> (r: ApiResponse)
    ensures
        match top {
            None => is_error(r, HttpStatus::NotFound, ApiError::UnknownInstrument(instrument_id)),
            Some((best_bid, best_ask)) => r.status == HttpStatus::Success && r.body == ApiBody::TopOfBook(
                TopOfBookResponse { best_bid, best_ask },
            ),
        },
{
    match top {
        None => error(HttpStatus::NotFound, ApiError::UnknownInstrument(instrument_id)),
        Some((best_bid, best_ask)) => ApiResponse {
            status: HttpStatus::Success,
            body: ApiBody::TopOfBook(TopOfBookResponse { best_bid, best_ask }),
        },
    }
}

/// The 400 response refusing the registration of instrument 0, if it is one.
pub fn check_register(req: &RegisterInstrumentRequest) -> (r: Option<ApiResponse>)
    ensures
        req.instrument_id == 0 <==> r is Some,
        r matches Some(resp) ==> is_invalid(resp, "instrument_id must be greater than 0"@),
{
    if req.instrument_id == 0 {
        return Some(invalid("instrument_id must be greater than 0"));
    }
    None
}

/// The response to a registration: 201 when it created the book, 200 when
/// the instrument was already registered.
pub fn register_response(instrument_id: InstrumentId, created: bool) -> (r: ApiResponse)
    ensures
        r.status == (if created {
            HttpStatus::Created
        } else {
            HttpStatus::Success
        }),
        r.body == ApiBody::Registered(RegisterInstrumentResponse { instrument_id, created }),
{
    ApiResponse {
        status: if created {
            HttpStatus::Created
        } else {
            HttpStatus::Success
        },
        body: ApiBody::Registered(RegisterInstrumentResponse { instrument_id, created }),
    }
}

} // verus!
