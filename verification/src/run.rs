//! The configuration and the state of the live trading bot.
use crate::clock::is_moment;
use crate::number::{hundred, hundred_spec, zero, zero_spec, Number};
use crate::state::{OpenOrderModel, State};
use crate::text::{result_model, same_text};
use std::collections::HashMap;
use vstd::prelude::*;

verus! {

/// The instrument that is traded unless another is chosen.
pub const DEFAULT_SYMBOL: &'static str = "SOXL";

/// The lifetime of a buy order.
pub const BUY_ORDER_TTL: i128 = 5_000_000_000;

/// The lifetime of a sell order.
pub const SELL_ORDER_TTL: i128 = 30_000_000_000;

/// The lifetime of a sell order during liquidation.
pub const LIQUIDATION_SELL_ORDER_TTL: i128 = 60_000_000_000;

/// The age after which a quote is no longer used.
pub const QUOTE_MAX_AGE: i128 = 300_000_000_000;

/// The time between two attempts to cancel one order.
pub const CANCEL_RETRY_DELAY: i128 = 10_000_000_000;

/// The text that begins the reference of every managed order.
pub const ORDER_REF_PREFIX: &'static str = "stockholm:";

/// The account-summary field that reports equity including loan value.
pub const EQUITY_WITH_LOAN_VALUE: &'static str = "EquityWithLoanValue";

/// The account-summary field that reports the initial margin requirement.
pub const INIT_MARGIN_REQ: &'static str = "InitMarginReq";

/// The configuration of the trading bot.
pub struct Args<N> {
    /// Symbol whose live market data should be streamed.
    pub symbol: String,
    /// Percentage of equity withheld when calculating buying power.
    pub buying_power_buffer: N,
    /// Initial margin requirement as a percentage in the range (0, 100].
    pub initial_margin_requirement: N,
}

impl<N: Number> Default for Args<N> {
    fn default() -> (result: Self)
        ensures
            result.symbol@ == DEFAULT_SYMBOL@,
            result.buying_power_buffer == N::ratio_spec(20, 1),
            result.initial_margin_requirement == N::ratio_spec(75, 1),
    {
        Args {
            symbol: DEFAULT_SYMBOL.to_owned(),
            buying_power_buffer: N::ratio(20, 1),
            initial_margin_requirement: N::ratio(75, 1),
        }
    }
}

/// The percentage that a text stands for, from above zero to one hundred.
pub open spec fn positive_percent_of<N: Number>(value: Seq<char>) -> Result<N, Seq<char>> {
    match N::parse_spec(value) {
        Ok(number) if zero_spec::<N>().below_spec(number) && number.at_most_spec(
            hundred_spec(),
        ) => Ok(number),
        _ => Err("The percentage must be a finite number in the range (0, 100]."@),
    }
}

/// The percentage that a text stands for, from zero to one hundred.
pub open spec fn percent_of<N: Number>(value: Seq<char>) -> Result<N, Seq<char>> {
    match N::parse_spec(value) {
        Ok(number) if zero_spec::<N>().at_most_spec(number) && number.at_most_spec(
            hundred_spec(),
        ) => Ok(number),
        _ => Err("The percentage must be a finite number in the range [0, 100]."@),
    }
}

/// Parse a finite percentage that is strictly positive and at most one hundred.
pub fn parse_positive_percent<N: Number>(value: &str) -> (result: Result<N, String>)
    ensures
        result_model(result) == positive_percent_of::<N>(value@),
{
    if let Ok(number) = N::parse(value) {
        if zero::<N>().below(number) && number.at_most(hundred()) {
            return Ok(number);
        }
    }
    Err("The percentage must be a finite number in the range (0, 100].".to_owned())
}

/// Parse a finite percentage in the inclusive range from zero to one hundred.
pub fn parse_percent<N: Number>(value: &str) -> (result: Result<N, String>)
    ensures
        result_model(result) == percent_of::<N>(value@),
{
    if let Ok(number) = N::parse(value) {
        if zero::<N>().at_most(number) && number.at_most(hundred()) {
            return Ok(number);
        }
    }
    Err("The percentage must be a finite number in the range [0, 100].".to_owned())
}

/// Whether an order buys or sells shares.
#[derive(Clone, Copy, Debug, PartialEq, Eq, Structural)]
pub enum Side {
    Buy,
    Sell,
}

/// The connection-local details of one open order.
pub struct VolatileOrder<N> {
    /// The stable reference attached to the order.
    pub order_ref: String,
    /// The instrument being traded.
    pub symbol: String,
    /// The limit price.
    pub price: N,
    pub side: Side,
    /// The number of shares filled so far.
    pub filled_shares: N,
    /// The number of shares still awaiting execution.
    pub remaining_shares: N,
}

/// The mathematical model of a [`VolatileOrder`].
#[verifier::ext_equal]
pub struct VolatileOrderModel<N> {
    pub order_ref: Seq<char>,
    pub symbol: Seq<char>,
    pub price: N,
    pub side: Side,
    pub filled_shares: N,
    pub remaining_shares: N,
}

impl<N> View for VolatileOrder<N> {
    type V = VolatileOrderModel<N>;

    open spec fn view(&self) -> VolatileOrderModel<N> {
        VolatileOrderModel {
            order_ref: self.order_ref@,
            symbol: self.symbol@,
            price: self.price,
            side: self.side,
            filled_shares: self.filled_shares,
            remaining_shares: self.remaining_shares,
        }
    }
}

/// The models of open orders, by their connection-specific identifiers.
pub open spec fn order_models<N>(orders: Map<i32, VolatileOrder<N>>) -> Map<
    i32,
    VolatileOrderModel<N>,
> {
    orders.map_values(|order: VolatileOrder<N>| order@)
}

/// The state that is rebuilt for each connection.
pub struct VolatileState<N> {
    /// The open orders, by their connection-specific identifiers.
    pub open_orders: HashMap<i32, VolatileOrder<N>>,
    /// The position in the configured symbol, once its initial snapshot has arrived.
    pub position_shares: Option<N>,
    /// The most recently reported account equity including loan value.
    pub equity_with_loan_value: Option<N>,
    /// The most recently reported initial margin requirement.
    pub init_margin_req: Option<N>,
    /// The most recently observed bid price, if one is available.
    pub bid_price: Option<N>,
    /// The moment of the most recently observed valid bid price.
    pub bid_price_timestamp: Option<i128>,
    /// The most recently observed ask price, if one is available.
    pub ask_price: Option<N>,
    /// The moment of the most recently observed valid ask price.
    pub ask_price_timestamp: Option<i128>,
}

/// The mathematical model of a [`VolatileState`].
#[verifier::ext_equal]
pub struct VolatileModel<N> {
    pub open_orders: Map<i32, VolatileOrderModel<N>>,
    pub position_shares: Option<N>,
    pub equity_with_loan_value: Option<N>,
    pub init_margin_req: Option<N>,
    pub bid_price: Option<N>,
    pub bid_price_timestamp: Option<i128>,
    pub ask_price: Option<N>,
    pub ask_price_timestamp: Option<i128>,
}

impl<N> View for VolatileState<N> {
    type V = VolatileModel<N>;

    open spec fn view(&self) -> VolatileModel<N> {
        VolatileModel {
            open_orders: order_models(self.open_orders@),
            position_shares: self.position_shares,
            equity_with_loan_value: self.equity_with_loan_value,
            init_margin_req: self.init_margin_req,
            bid_price: self.bid_price,
            bid_price_timestamp: self.bid_price_timestamp,
            ask_price: self.ask_price,
            ask_price_timestamp: self.ask_price_timestamp,
        }
    }
}

/// Durable and connection-local state.
pub struct RuntimeState<N> {
    /// The state kept on disk and retained across connections.
    pub persistent: State,
    /// The state rebuilt for each connection.
    pub volatile: VolatileState<N>,
}

/// The mathematical model of a [`RuntimeState`].
#[verifier::ext_equal]
pub struct RuntimeModel<N> {
    pub persistent: Seq<OpenOrderModel>,
    pub volatile: VolatileModel<N>,
}

impl<N> View for RuntimeState<N> {
    type V = RuntimeModel<N>;

    open spec fn view(&self) -> RuntimeModel<N> {
        RuntimeModel { persistent: self.persistent@, volatile: self.volatile@ }
    }
}

/// The connection-local state before broker snapshots arrive.
pub open spec fn empty_volatile<N>() -> VolatileModel<N> {
    VolatileModel {
        open_orders: Map::empty(),
        position_shares: None,
        equity_with_loan_value: None,
        init_margin_req: None,
        bid_price: None,
        bid_price_timestamp: None,
        ask_price: None,
        ask_price_timestamp: None,
    }
}

/// Construct empty connection-local state before broker snapshots arrive.
pub fn initial_volatile_state<N: Number>() -> (result: VolatileState<N>)
    ensures
        result@ == empty_volatile::<N>(),
{
    let result = VolatileState {
        open_orders: HashMap::new(),
        position_shares: None,
        equity_with_loan_value: None,
        init_margin_req: None,
        bid_price: None,
        bid_price_timestamp: None,
        ask_price: None,
        ask_price_timestamp: None,
    };
    assert(result@ =~= empty_volatile::<N>());
    result
}

// Account metrics

/// The state after an account-summary field has been reported. Only finite numbers of tracked
/// fields are retained.
pub open spec fn with_metric<N: Number>(
    state: VolatileModel<N>,
    tag: Seq<char>,
    value: Seq<char>,
) -> VolatileModel<N> {
    match N::parse_spec(value) {
        Ok(number) if number.is_finite_spec() => if tag == EQUITY_WITH_LOAN_VALUE@ {
            VolatileModel { equity_with_loan_value: Some(number), ..state }
        } else if tag == INIT_MARGIN_REQ@ {
            VolatileModel { init_margin_req: Some(number), ..state }
        } else {
            state
        },
        _ => state,
    }
}

/// Update tracked metrics from matching account-summary fields.
pub fn update_account_metric<N: Number>(state: &mut VolatileState<N>, tag: &str, value: &str)
    ensures
        final(state)@ == with_metric(old(state)@, tag@, value@),
{
    // Ignore nonnumeric and nonfinite account-summary values.
    let number: N = match N::parse(value) {
        Ok(number) => number,
        Err(_) => {
            return;
        },
    };
    if !number.is_finite() {
        return;
    }

    // Ignore unrelated fields and retain recognized metrics.
    if same_text(tag, EQUITY_WITH_LOAN_VALUE) {
        state.equity_with_loan_value = Some(number);
    } else if same_text(tag, INIT_MARGIN_REQ) {
        state.init_margin_req = Some(number);
    }
}

// Positions and quotes

/// An update of the positions held.
pub enum PositionUpdate<N> {
    /// The shares held of a symbol.
    Position { symbol: String, shares: N },
    /// The end of the initial snapshot.
    PositionEnd,
}

/// The state after a position update. A symbol that the initial snapshot omits is held at zero.
pub open spec fn with_position<N: Number>(
    state: VolatileModel<N>,
    symbol: Seq<char>,
    update: PositionUpdate<N>,
) -> VolatileModel<N> {
    match update {
        PositionUpdate::Position { symbol: updated, shares } => if updated@ == symbol {
            VolatileModel { position_shares: Some(shares), ..state }
        } else {
            state
        },
        PositionUpdate::PositionEnd => match state.position_shares {
            Some(_) => state,
            None => VolatileModel { position_shares: Some(zero_spec()), ..state },
        },
    }
}

/// Retain the matching position, and zero when the initial snapshot omits the symbol.
pub fn update_position<N: Number>(
    state: &mut VolatileState<N>,
    symbol: &str,
    update: &PositionUpdate<N>,
)
    ensures
        final(state)@ == with_position(old(state)@, symbol@, *update),
{
    match update {
        PositionUpdate::Position { symbol: updated, shares } => {
            if same_text(updated, symbol) {
                state.position_shares = Some(*shares);
            }
        },
        PositionUpdate::PositionEnd => {
            if state.position_shares.is_none() {
                state.position_shares = Some(zero());
            }
        },
    }
}

/// A price if it is positive.
pub open spec fn positive_price<N: Number>(price: N) -> Option<N> {
    if zero_spec::<N>().below_spec(price) {
        Some(price)
    } else {
        None
    }
}

/// The moment of a quote whose price is valid.
pub open spec fn price_moment<N: Number>(price: N, moment: i128) -> Option<i128> {
    if zero_spec::<N>().below_spec(price) {
        Some(moment)
    } else {
        None
    }
}

/// The state after a quote. Both sides are replaced, each with its moment or with nothing.
pub open spec fn with_quote<N: Number>(
    state: VolatileModel<N>,
    bid_price: N,
    ask_price: N,
    moment: i128,
) -> VolatileModel<N> {
    VolatileModel {
        bid_price: positive_price(bid_price),
        bid_price_timestamp: price_moment(bid_price, moment),
        ask_price: positive_price(ask_price),
        ask_price_timestamp: price_moment(ask_price, moment),
        ..state
    }
}

/// Update both sides of the quote.
pub fn update_quote<N: Number>(
    state: &mut VolatileState<N>,
    bid_price: N,
    ask_price: N,
    moment: i128,
)
    ensures
        final(state)@ == with_quote(old(state)@, bid_price, ask_price, moment),
{
    if zero::<N>().below(bid_price) {
        state.bid_price = Some(bid_price);
        state.bid_price_timestamp = Some(moment);
    } else {
        state.bid_price = None;
        state.bid_price_timestamp = None;
    }
    if zero::<N>().below(ask_price) {
        state.ask_price = Some(ask_price);
        state.ask_price_timestamp = Some(moment);
    } else {
        state.ask_price = None;
        state.ask_price_timestamp = None;
    }
}

/// Whether a quote is older than the age limit.
pub open spec fn stale(timestamp: Option<i128>, now: i128) -> bool {
    timestamp matches Some(moment) && moment < now - QUOTE_MAX_AGE
}

/// The state after quotes that are too old have been cleared, each side by itself.
pub open spec fn without_stale_quotes<N>(state: VolatileModel<N>, now: i128) -> VolatileModel<N> {
    let bid_stale = stale(state.bid_price_timestamp, now);
    let ask_stale = stale(state.ask_price_timestamp, now);
    VolatileModel {
        bid_price: if bid_stale { None } else { state.bid_price },
        bid_price_timestamp: if bid_stale { None } else { state.bid_price_timestamp },
        ask_price: if ask_stale { None } else { state.ask_price },
        ask_price_timestamp: if ask_stale { None } else { state.ask_price_timestamp },
        ..state
    }
}

/// Clear each quote side independently once its source timestamp exceeds the age limit.
pub fn clear_stale_quote_prices<N: Number>(state: &mut VolatileState<N>, now: i128)
    requires
        is_moment(now as int),
    ensures
        final(state)@ == without_stale_quotes(old(state)@, now),
{
    let cutoff: i128 = now - QUOTE_MAX_AGE;

    // Clear a stale bid and its timestamp together.
    if let Some(timestamp) = state.bid_price_timestamp {
        if timestamp < cutoff {
            state.bid_price = None;
            state.bid_price_timestamp = None;
        }
    }

    // Clear a stale ask and its timestamp together.
    if let Some(timestamp) = state.ask_price_timestamp {
        if timestamp < cutoff {
            state.ask_price = None;
            state.ask_price_timestamp = None;
        }
    }
}

} // verus!
