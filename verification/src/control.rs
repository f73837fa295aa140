//! One step of the trading loop: which orders to place, and at which limits.
use crate::cancellation::{
    cancel_expired_orders, cancellation_models, cancellations, with_attempts,
};
use crate::clock::{has_eastern_date, is_liquidating, liquidating};
use crate::number::{hundred, hundred_spec, one, one_spec, sum, total, zero, zero_spec, Number};
use crate::orders::{is_walk, walk};
use crate::run::{
    order_models, RuntimeState, Side, VolatileModel, VolatileOrder, VolatileOrderModel,
    VolatileState,
};
use crate::text::{digits, joined, joined6, same_text, show_count};
use std::collections::HashMap;
use vstd::prelude::*;

verus! {

// Rounding

/// A price rounded down to a whole number of cents.
pub open spec fn rounded_down<N: Number>(price: N) -> N {
    price.times_spec(hundred_spec()).floor_spec().over_spec(hundred_spec())
}

/// A price rounded up to a whole number of cents.
pub open spec fn rounded_up<N: Number>(price: N) -> N {
    price.times_spec(hundred_spec()).ceiling_spec().over_spec(hundred_spec())
}

/// Round a positive limit price down to an accepted cent boundary.
pub fn round_down_to_cent<N: Number>(price: N) -> (result: N)
    ensures
        result == rounded_down(price),
{
    price.times(hundred()).floor().over(hundred())
}

/// Round a positive limit price up to an accepted cent boundary.
pub fn round_up_to_cent<N: Number>(price: N) -> (result: N)
    ensures
        result == rounded_up(price),
{
    price.times(hundred()).ceiling().over(hundred())
}

// Reserved resources

/// The notional that each buy order on a walk still reserves.
pub open spec fn buy_values<N: Number>(
    ids: Seq<i32>,
    orders: Map<i32, VolatileOrderModel<N>>,
) -> Seq<N>
    decreases ids.len(),
{
    if ids.len() == 0 {
        Seq::empty()
    } else {
        let earlier = buy_values(ids.drop_last(), orders);
        let order = orders[ids.last()];
        if order.side is Buy {
            earlier.push(order.price.times_spec(order.remaining_shares))
        } else {
            earlier
        }
    }
}

/// The shares of a symbol that each sell order on a walk still reserves.
pub open spec fn sell_shares<N: Number>(
    ids: Seq<i32>,
    orders: Map<i32, VolatileOrderModel<N>>,
    symbol: Seq<char>,
) -> Seq<N>
    decreases ids.len(),
{
    if ids.len() == 0 {
        Seq::empty()
    } else {
        let earlier = sell_shares(ids.drop_last(), orders, symbol);
        let order = orders[ids.last()];
        if order.symbol == symbol && order.side is Sell {
            earlier.push(order.remaining_shares)
        } else {
            earlier
        }
    }
}

/// Total the notional still reserved by buy orders, walked in a given order.
pub fn open_buy_order_value_along<N: Number>(
    ids: &Vec<i32>,
    open_orders: &HashMap<i32, VolatileOrder<N>>,
) -> (result: N)
    requires
        is_walk(ids@, open_orders@),
    ensures
        result == total(buy_values(ids@, order_models(open_orders@))),
{
    let ghost orders = order_models(open_orders@);
    let mut values: Vec<N> = Vec::new();
    for index in 0..ids.len()
        invariant
            is_walk(ids@, open_orders@),
            orders == order_models(open_orders@),
            values@ == buy_values(ids@.take(index as int), orders),
    {
        let id: i32 = ids[index];
        assert(ids@.contains(id));
        assert(ids@.take(index + 1).drop_last() =~= ids@.take(index as int));
        if let Some(order) = open_orders.get(&id) {
            assert(order@ == orders[id]);
            if order.side == Side::Buy {
                values.push(order.price.times(order.remaining_shares));
            }
        }
    }
    assert(ids@.take(ids.len() as int) =~= ids@);
    sum(&values)
}

/// Total the shares of a symbol still reserved by sell orders, walked in a given order.
pub fn open_sell_shares_along<N: Number>(
    ids: &Vec<i32>,
    open_orders: &HashMap<i32, VolatileOrder<N>>,
    symbol: &str,
) -> (result: N)
    requires
        is_walk(ids@, open_orders@),
    ensures
        result == total(sell_shares(ids@, order_models(open_orders@), symbol@)),
{
    let ghost orders = order_models(open_orders@);
    let mut shares: Vec<N> = Vec::new();
    for index in 0..ids.len()
        invariant
            is_walk(ids@, open_orders@),
            orders == order_models(open_orders@),
            shares@ == sell_shares(ids@.take(index as int), orders, symbol@),
    {
        let id: i32 = ids[index];
        assert(ids@.contains(id));
        assert(ids@.take(index + 1).drop_last() =~= ids@.take(index as int));
        if let Some(order) = open_orders.get(&id) {
            assert(order@ == orders[id]);
            if order.side == Side::Sell && same_text(&order.symbol, symbol) {
                shares.push(order.remaining_shares);
            }
        }
    }
    assert(ids@.take(ids.len() as int) =~= ids@);
    sum(&shares)
}

/// Total the notional still reserved by active buy orders.
pub fn calculate_open_buy_order_value<N: Number>(
    open_orders: &HashMap<i32, VolatileOrder<N>>,
) -> (result: N)
    ensures
        exists|ids: Seq<i32>| #[trigger]
            is_walk(ids, order_models(open_orders@)) && result == total(
                buy_values(ids, order_models(open_orders@)),
            ),
{
    let ids = walk(open_orders);
    open_buy_order_value_along(&ids, open_orders)
}

/// Total the shares still reserved by active sell orders.
pub fn calculate_open_sell_shares<N: Number>(
    open_orders: &HashMap<i32, VolatileOrder<N>>,
    symbol: &str,
) -> (result: N)
    ensures
        exists|ids: Seq<i32>| #[trigger]
            is_walk(ids, order_models(open_orders@)) && result == total(
                sell_shares(ids, order_models(open_orders@), symbol@),
            ),
{
    let ids = walk(open_orders);
    open_sell_shares_along(&ids, open_orders, symbol)
}

// Buying power

/// The value of the shares that the account can still buy, rounded down to a cent: its equity
/// less the buffer, the margin in use, and the margin of open buys, over the margin ratio.
pub open spec fn buying_power<N: Number>(
    equity: N,
    margin: N,
    buffer_percent: N,
    requirement_percent: N,
    open_buy_value: N,
) -> N {
    let margin_ratio = requirement_percent.over_spec(hundred_spec());
    let effective_equity = equity.times_spec(
        one_spec::<N>().minus_spec(buffer_percent.over_spec(hundred_spec())),
    );
    let capacity = effective_equity.minus_spec(margin).minus_spec(
        open_buy_value.times_spec(margin_ratio),
    ).maximum_spec(zero_spec());
    rounded_down(capacity.over_spec(margin_ratio))
}

/// Calculate buffered buying power and round it down to the nearest cent.
pub fn calculate_buying_power<N: Number>(
    equity_with_loan_value: N,
    init_margin_req: N,
    buying_power_buffer: N,
    initial_margin_requirement: N,
    open_buy_order_value: N,
) -> (result: N)
    ensures
        result == buying_power(
            equity_with_loan_value,
            init_margin_req,
            buying_power_buffer,
            initial_margin_requirement,
            open_buy_order_value,
        ),
{
    // Reserve buffered equity and the margin needed by unfilled buy orders.
    let margin_ratio = initial_margin_requirement.over(hundred());
    let effective_equity = equity_with_loan_value.times(
        one::<N>().minus(buying_power_buffer.over(hundred())),
    );
    let open_buy_order_margin = open_buy_order_value.times(margin_ratio);
    let margin_capacity = effective_equity.minus(init_margin_req).minus(
        open_buy_order_margin,
    ).maximum(zero());
    round_down_to_cent(margin_capacity.over(margin_ratio))
}

// Limits

/// The discount from the bid at which shares are bought: 0.7 percent.
pub open spec fn buy_discount<N: Number>() -> N {
    N::ratio_spec(7, 10)
}

/// The markup on the ask at which shares are sold: 0.9 percent.
pub open spec fn sell_markup<N: Number>() -> N {
    N::ratio_spec(9, 10)
}

/// The limits at which to buy and to sell. During liquidation nothing is bought, and shares are
/// offered at the ask.
pub open spec fn order_limits<N: Number>(
    bid_price: Option<N>,
    ask_price: Option<N>,
    liquidating: bool,
) -> (Option<N>, Option<N>) {
    if liquidating {
        (
            None,
            match ask_price {
                Some(price) => Some(rounded_up(price)),
                None => None,
            },
        )
    } else {
        (
            match bid_price {
                Some(price) => Some(
                    rounded_down(
                        price.times_spec(
                            one_spec::<N>().minus_spec(
                                buy_discount::<N>().over_spec(hundred_spec()),
                            ),
                        ),
                    ),
                ),
                None => None,
            },
            match ask_price {
                Some(price) => Some(
                    rounded_up(
                        price.times_spec(
                            one_spec::<N>().plus_spec(
                                sell_markup::<N>().over_spec(hundred_spec()),
                            ),
                        ),
                    ),
                ),
                None => None,
            },
        )
    }
}

/// Calculate the limits used by the current normal or liquidation behavior.
pub fn calculate_order_limits<N: Number>(
    bid_price: Option<N>,
    ask_price: Option<N>,
    liquidating: bool,
) -> (result: (Option<N>, Option<N>))
    ensures
        result == order_limits(bid_price, ask_price, liquidating),
{
    if liquidating {
        let sell_limit = match ask_price {
            Some(price) => Some(round_up_to_cent(price)),
            None => None,
        };
        (None, sell_limit)
    } else {
        let buy_limit = match bid_price {
            Some(price) => {
                let discount: N = N::ratio(7, 10);
                Some(
                    round_down_to_cent(price.times(one::<N>().minus(discount.over(hundred())))),
                )
            },
            None => None,
        };
        let sell_limit = match ask_price {
            Some(price) => {
                let markup: N = N::ratio(9, 10);
                Some(round_up_to_cent(price.times(one::<N>().plus(markup.over(hundred())))))
            },
            None => None,
        };
        (buy_limit, sell_limit)
    }
}

// Decisions

/// An order to place: a number of shares at a limit.
pub struct LimitOrderRequest<N> {
    pub shares: N,
    pub limit: N,
}

/// What one step of the trading loop decides.
pub struct ControlStep<N> {
    /// The buy order to place.
    pub buy: Option<LimitOrderRequest<N>>,
    /// The sell order to place.
    pub sell: Option<LimitOrderRequest<N>>,
    /// A line that describes the account and the market.
    pub status: String,
}

/// The buying power, once the account has reported what it depends on.
pub open spec fn available_power<N: Number>(
    state: VolatileModel<N>,
    ids: Seq<i32>,
    buffer_percent: N,
    requirement_percent: N,
) -> Option<N> {
    match (state.equity_with_loan_value, state.init_margin_req) {
        (Some(equity), Some(margin)) => Some(
            buying_power(
                equity,
                margin,
                buffer_percent,
                requirement_percent,
                total(buy_values(ids, state.open_orders)),
            ),
        ),
        _ => None,
    }
}

/// The whole shares held that no sell order reserves, once the position is known.
pub open spec fn sellable_shares<N: Number>(
    state: VolatileModel<N>,
    ids: Seq<i32>,
    symbol: Seq<char>,
) -> Option<N> {
    match state.position_shares {
        Some(shares) => Some(
            shares.minus_spec(
                total(sell_shares(ids, state.open_orders, symbol)),
            ).maximum_spec(zero_spec()).floor_spec(),
        ),
        None => None,
    }
}

/// The order that spends all buying power on whole shares, if it affords one.
pub open spec fn buy_request<N: Number>(
    power: Option<N>,
    limit: Option<N>,
) -> Option<LimitOrderRequest<N>> {
    match (power, limit) {
        (Some(power), Some(limit)) => {
            let shares = power.over_spec(limit).floor_spec();
            if zero_spec::<N>().below_spec(limit) && one_spec::<N>().at_most_spec(shares) {
                Some(LimitOrderRequest { shares, limit })
            } else {
                None
            }
        },
        _ => None,
    }
}

/// The order that offers all sellable shares, if there are any.
pub open spec fn sell_request<N: Number>(
    limit: Option<N>,
    shares: Option<N>,
) -> Option<LimitOrderRequest<N>> {
    match (limit, shares) {
        (Some(limit), Some(shares)) => if zero_spec::<N>().below_spec(limit)
            && zero_spec::<N>().below_spec(shares) {
            Some(LimitOrderRequest { shares, limit })
        } else {
            None
        },
        _ => None,
    }
}

/// The text of a number that may be unavailable.
pub open spec fn shown<N: Number>(value: Option<N>) -> Seq<char> {
    match value {
        Some(number) => number.show_spec(),
        None => "unavailable"@,
    }
}

fn show_optional<N: Number>(value: Option<N>) -> (result: String)
    ensures
        result@ == shown(value),
{
    match value {
        Some(number) => number.show(),
        None => "unavailable".to_owned(),
    }
}

/// The line that describes the account and the market.
pub open spec fn status_line<N: Number>(
    state: VolatileModel<N>,
    power: Option<N>,
    liquidating: bool,
) -> Seq<char> {
    "Equity: "@ + shown(state.equity_with_loan_value) + "; buying power: "@ + shown(power)
        + "; open orders: "@ + digits(state.open_orders.dom().len()) + (
    "; bid: "@ + shown(state.bid_price) + "; ask: "@ + shown(state.ask_price)
        + "; liquidating: "@ + if liquidating {
        "true"@
    } else {
        "false"@
    })
}

fn show_status<N: Number>(
    state: &VolatileState<N>,
    power: Option<N>,
    liquidating: bool,
) -> (result: String)
    ensures
        result@ == status_line(state@, power, liquidating),
{
    let flag = if liquidating {
        "true"
    } else {
        "false"
    };
    assert(state@.open_orders.dom() =~= state.open_orders@.dom());
    let account = joined6(
        "Equity: ",
        &show_optional(state.equity_with_loan_value),
        "; buying power: ",
        &show_optional(power),
        "; open orders: ",
        &show_count(state.open_orders.len()),
    );
    let market = joined6(
        "; bid: ",
        &show_optional(state.bid_price),
        "; ask: ",
        &show_optional(state.ask_price),
        "; liquidating: ",
        flag,
    );
    joined(&account, &market)
}

/// Whether a step decides what the resources and quotes call for, with open orders walked in a
/// given order.
pub open spec fn is_control_step<N: Number>(
    step: ControlStep<N>,
    state: VolatileModel<N>,
    ids: Seq<i32>,
    symbol: Seq<char>,
    buffer_percent: N,
    requirement_percent: N,
    liquidating: bool,
) -> bool {
    let power = available_power(state, ids, buffer_percent, requirement_percent);
    let limits = order_limits(state.bid_price, state.ask_price, liquidating);
    &&& step.buy == buy_request(power, limits.0)
    &&& step.sell == sell_request(limits.1, sellable_shares(state, ids, symbol))
    &&& step.status@ == status_line(state, power, liquidating)
}

/// Decide on orders for currently available resources, with open orders walked in a given order.
pub fn run_control_step_along<N: Number>(
    state: &VolatileState<N>,
    ids: &Vec<i32>,
    symbol: &str,
    buying_power_buffer: N,
    initial_margin_requirement: N,
    liquidating: bool,
) -> (step: ControlStep<N>)
    requires
        is_walk(ids@, state@.open_orders),
    ensures
        is_control_step(
            step,
            state@,
            ids@,
            symbol@,
            buying_power_buffer,
            initial_margin_requirement,
            liquidating,
        ),
{
    assert forall|id: i32| ids@.contains(id) <==> #[trigger] state.open_orders@.contains_key(
        id,
    ) by {
        assert(state@.open_orders.contains_key(id) <==> state.open_orders@.contains_key(id));
    }

    // Measure what open orders leave available.
    let open_buy_order_value = open_buy_order_value_along(ids, &state.open_orders);
    let buying_power = match (state.equity_with_loan_value, state.init_margin_req) {
        (Some(equity), Some(margin)) => Some(
            calculate_buying_power(
                equity,
                margin,
                buying_power_buffer,
                initial_margin_requirement,
                open_buy_order_value,
            ),
        ),
        _ => None,
    };
    let reserved_sell_shares = open_sell_shares_along(ids, &state.open_orders, symbol);
    let sellable = match state.position_shares {
        Some(shares) => Some(shares.minus(reserved_sell_shares).maximum(zero()).floor()),
        None => None,
    };
    let status = show_status(state, buying_power, liquidating);

    // Choose ordinary market-making limits or a liquidation limit at the ask.
    let (buy_limit, sell_limit) = calculate_order_limits(
        state.bid_price,
        state.ask_price,
        liquidating,
    );

    // Use all available buying power for one whole-share discounted limit order.
    let mut buy: Option<LimitOrderRequest<N>> = None;
    if let (Some(power), Some(limit)) = (buying_power, buy_limit) {
        if zero::<N>().below(limit) {
            let shares = power.over(limit).floor();
            if one::<N>().at_most(shares) {
                buy = Some(LimitOrderRequest { shares, limit });
            }
        }
    }

    // Offer shares only after the initial position snapshot establishes inventory.
    let mut sell: Option<LimitOrderRequest<N>> = None;
    if let (Some(limit), Some(shares)) = (sell_limit, sellable) {
        if zero::<N>().below(limit) && zero::<N>().below(shares) {
            sell = Some(LimitOrderRequest { shares, limit });
        }
    }
    ControlStep { buy, sell, status }
}

/// Decide on orders for currently available resources.
pub fn run_control_step<N: Number>(
    state: &VolatileState<N>,
    symbol: &str,
    buying_power_buffer: N,
    initial_margin_requirement: N,
    liquidating: bool,
) -> (step: ControlStep<N>)
    ensures
        exists|ids: Seq<i32>| #[trigger]
            is_walk(ids, state@.open_orders) && is_control_step(
                step,
                state@,
                ids,
                symbol@,
                buying_power_buffer,
                initial_margin_requirement,
                liquidating,
            ),
{
    let ids = walk(&state.open_orders);
    run_control_step_along(
        state,
        &ids,
        symbol,
        buying_power_buffer,
        initial_margin_requirement,
        liquidating,
    )
}

/// Begin a step at a moment: select its behavior from the Eastern clock, and record the
/// cancellation attempts that are due. The result tells whether the bot is liquidating, and
/// lists the orders to cancel.
pub fn begin_control_step<N: Number>(
    state: &mut RuntimeState<N>,
    symbol: &str,
    now: i128,
) -> (result: (bool, Vec<(i32, String)>))
    requires
        has_eastern_date(now as int),
    ensures
        result.0 == liquidating(now as int),
        exists|ids: Seq<i32>| #[trigger]
            is_walk(ids, old(state)@.volatile.open_orders) && final(state)@ == with_attempts(
                ids,
                old(state)@,
                symbol@,
                result.0,
                now,
            ) && cancellation_models(result.1@) == cancellations(
                ids,
                old(state)@.volatile.open_orders,
                old(state)@.persistent,
                symbol@,
                result.0,
                now,
            ),
{
    let liquidating_now = is_liquidating(now);
    let attempts = cancel_expired_orders(state, symbol, liquidating_now, now);
    (liquidating_now, attempts)
}

} // verus!
