//! Laws that say in decimal arithmetic what amounts, limits, and rates are.
//!
//! A decimal number is a whole number of millionths. The laws relate those whole numbers exactly,
//! with the bounds that rounding leaves: each product and each quotient is rounded down to a
//! whole millionth.
use crate::control::{
    buy_request, buy_values, buying_power, is_control_step, order_limits, rounded_down,
    sell_request, sell_shares, sellable_shares, ControlStep, LimitOrderRequest,
};
use crate::fixed::Fixed;
use crate::laws::arithmetic::law_limits_are_rounded_conservatively;
use crate::market_maker::{
    after_bar, after_fills, buy_limit, fill_buys, fill_sells, sell_limit, without_expired,
    AccountModel, Bar, Fills, LimitOrder, MarketMakerConfig,
};
use crate::number::{hundred_spec, one_spec, total, zero_spec, Number};
use crate::run::{Side, VolatileModel, VolatileOrderModel};
use vstd::prelude::*;

verus! {

// Arithmetic

pub(crate) proof fn lemma_floor(dividend: int, divisor: int)
    requires
        divisor > 0,
    ensures
        dividend / divisor * divisor <= dividend < dividend / divisor * divisor + divisor,
{
    let quotient = dividend / divisor;
    assert(quotient * divisor <= dividend < quotient * divisor + divisor) by (nonlinear_arith)
        requires
            divisor > 0,
            quotient == dividend / divisor,
    ;
}

/// The largest product of two numbers of millionths whose result is in range.
pub open spec fn product_limit() -> int {
    9_000_000_000_000_000_000_000_000
}

pub(crate) proof fn lemma_times(left: Fixed, right: Fixed)
    requires
        -product_limit() <= left.units * right.units <= product_limit(),
    ensures
        left.times_spec(right).units * 1_000_000 <= left.units * right.units
            < left.times_spec(right).units * 1_000_000 + 1_000_000,
{
    lemma_floor(left.units * right.units, 1_000_000);
}

pub(crate) proof fn lemma_over(left: Fixed, right: Fixed)
    requires
        right.units > 0,
        -9_000_000_000_000_000_000 * right.units <= left.units * 1_000_000
            <= 9_000_000_000_000_000_000 * right.units,
    ensures
        left.over_spec(right).units * right.units <= left.units * 1_000_000
            < left.over_spec(right).units * right.units + right.units,
{
    let (dividend, divisor) = (left.units * 1_000_000, right.units as int);
    lemma_floor(dividend, divisor);
    let quotient = dividend / divisor;
    assert(-9_000_000_000_000_000_001 <= quotient <= 9_000_000_000_000_000_000)
        by (nonlinear_arith)
        requires
            divisor > 0,
            quotient * divisor <= dividend < quotient * divisor + divisor,
            -9_000_000_000_000_000_000 * divisor <= dividend
                <= 9_000_000_000_000_000_000 * divisor,
    ;
}

pub(crate) proof fn lemma_whole(value: int)
    requires
        0 <= value <= 1_000,
    ensures
        Fixed::ratio_spec(value, 1).units == value * 1_000_000,
{
    let denominator: int = 1;
    assert((2 * value * 1_000_000 + denominator) / (2 * denominator) == value * 1_000_000)
        by (nonlinear_arith)
        requires
            0 <= value <= 1_000,
            denominator == 1,
    ;
}

pub(crate) proof fn lemma_constants()
    ensures
        zero_spec::<Fixed>().units == 0,
        one_spec::<Fixed>().units == 1_000_000,
        hundred_spec::<Fixed>().units == 100_000_000,
{
    lemma_whole(0);
    lemma_whole(1);
    lemma_whole(100);
}

/// A hundredth of a number is a whole number of millionths for every hundred of them.
pub(crate) proof fn lemma_percent(percent: Fixed)
    ensures
        percent.over_spec(hundred_spec()).units == percent.units as int / 100,
{
    lemma_constants();
    let units = percent.units as int;
    assert(units * 1_000_000 / 100_000_000 == units / 100) by (nonlinear_arith);
}

// Limits of the simulation

/// Whether a price lies a percentage above another, up to rounding: a hundred of it are the other
/// price a hundred and some times.
pub open spec fn is_marked_up(price: Fixed, close: Fixed, percent: Fixed) -> bool {
    0 <= close.units * (100_000_000 + percent.units) - 100_000_000 * price.units < 100 * close.units
        + 100_000_000
}

/// Whether a price lies a percentage below another, up to rounding: a hundred of it are the other
/// price a hundred less some times.
pub open spec fn is_discounted(price: Fixed, close: Fixed, percent: Fixed) -> bool {
    -100 * close.units <= close.units * (100_000_000 - percent.units) - 100_000_000 * price.units
        < 100_000_000
}

/// Whether a bar and a configuration stay inside the range of decimal numbers.
pub open spec fn limits_in_range(bar: Bar<Fixed>, config: MarketMakerConfig<Fixed>) -> bool {
    &&& 0 <= bar.close.units
    &&& 0 <= config.discount_percent.units <= 100_000_000
    &&& 0 <= config.markup_percent.units <= 100_000_000_000_000_000
    &&& bar.close.units * (100_000_000 + config.markup_percent.units)
        <= 900_000_000_000_000_000_000_000_000
}

pub(crate) proof fn lemma_sell_limit(bar: Bar<Fixed>, config: MarketMakerConfig<Fixed>)
    requires
        limits_in_range(bar, config),
    ensures
        is_marked_up(sell_limit(bar, config), bar.close, config.markup_percent),
{
    lemma_constants();
    lemma_percent(config.markup_percent);
    let (close, percent) = (bar.close.units as int, config.markup_percent.units as int);
    let hundredth = percent / 100;
    let factor = one_spec::<Fixed>().plus_spec(
        config.markup_percent.over_spec(hundred_spec()),
    );
    assert(factor.units == 1_000_000 + hundredth);
    assert(0 <= percent - 100 * hundredth < 100);
    let product = close * (1_000_000 + hundredth);
    assert(0 <= product && 100 * product <= close * (100_000_000 + percent)
        && close * (100_000_000 + percent) - 100 * product <= 99 * close) by (nonlinear_arith)
        requires
            product == close * (1_000_000 + hundredth),
            0 <= close,
            0 <= hundredth,
            0 <= percent - 100 * hundredth < 100,
    ;
    lemma_times(bar.close, factor);
}

pub(crate) proof fn lemma_buy_limit(bar: Bar<Fixed>, config: MarketMakerConfig<Fixed>)
    requires
        limits_in_range(bar, config),
    ensures
        is_discounted(buy_limit(bar, config), bar.close, config.discount_percent),
        buy_limit(bar, config).units >= 0,
{
    lemma_constants();
    lemma_percent(config.discount_percent);
    let (close, percent) = (bar.close.units as int, config.discount_percent.units as int);
    let hundredth = percent / 100;
    let factor = one_spec::<Fixed>().minus_spec(
        config.discount_percent.over_spec(hundred_spec()),
    );
    assert(factor.units == 1_000_000 - hundredth);
    assert(0 <= percent - 100 * hundredth < 100);
    assert(0 <= hundredth <= 1_000_000);
    let product = close * (1_000_000 - hundredth);
    let markup = config.markup_percent.units as int;
    assert(0 <= product && 100 * product >= close * (100_000_000 - percent)
        && 100 * product - close * (100_000_000 - percent) <= 99 * close && 100 * product
        <= close * (100_000_000 + markup)) by (nonlinear_arith)
        requires
            product == close * (1_000_000 - hundredth),
            0 <= close,
            0 <= markup,
            0 <= hundredth <= 1_000_000,
            0 <= percent - 100 * hundredth < 100,
    ;
    lemma_times(bar.close, factor);
}

/// An order of a simulated account stands for shares at a price since a Unix second.
pub open spec fn same_terms(left: LimitOrder<Fixed>, right: LimitOrder<Fixed>) -> bool {
    left.placed_timestamp == right.placed_timestamp && left.price == right.price
}

/// Whether an order was open before a bar, at the same price and since the same Unix second.
pub open spec fn was_open(orders: Seq<LimitOrder<Fixed>>, order: LimitOrder<Fixed>) -> bool {
    exists|index: int| 0 <= index < orders.len() && same_terms(#[trigger] orders[index], order)
}

proof fn lemma_kept_terms(
    orders: Seq<LimitOrder<Fixed>>,
    keeps: spec_fn(LimitOrder<Fixed>) -> bool,
    index: int,
)
    requires
        0 <= index < orders.filter(keeps).len(),
    ensures
        orders.contains(orders.filter(keeps)[index]),
{
    let kept = orders.filter(keeps);
    assert(kept.contains(kept[index]));
    orders.lemma_filter_contains_rev(keeps, kept[index]);
}

proof fn lemma_filled_terms(
    start: Fills<Fixed>,
    orders: Seq<LimitOrder<Fixed>>,
    bar: Bar<Fixed>,
    logger: Option<Seq<char>>,
)
    requires
        start.orders.len() == 0,
    ensures
        fill_buys(start, orders, bar, logger).orders.len() == orders.len(),
        fill_sells(start, orders, bar, logger).orders.len() == orders.len(),
        forall|index: int|
            0 <= index < orders.len() ==> same_terms(
                orders[index],
                #[trigger] fill_buys(start, orders, bar, logger).orders[index],
            ),
        forall|index: int|
            0 <= index < orders.len() ==> same_terms(
                orders[index],
                #[trigger] fill_sells(start, orders, bar, logger).orders[index],
            ),
    decreases orders.len(),
{
    if orders.len() > 0 {
        let rest = orders.drop_last();
        lemma_filled_terms(start, rest, bar, logger);
        let bought = fill_buys(start, orders, bar, logger).orders;
        let sold = fill_sells(start, orders, bar, logger).orders;
        assert forall|index: int| 0 <= index < orders.len() implies same_terms(
            orders[index],
            #[trigger] bought[index],
        ) by {
            if index < rest.len() {
                assert(bought[index] == fill_buys(start, rest, bar, logger).orders[index]);
            }
        }
        assert forall|index: int| 0 <= index < orders.len() implies same_terms(
            orders[index],
            #[trigger] sold[index],
        ) by {
            if index < rest.len() {
                assert(sold[index] == fill_sells(start, rest, bar, logger).orders[index]);
            }
        }
    }
}

proof fn lemma_traded_terms(
    account: AccountModel<Fixed>,
    bar: Bar<Fixed>,
    config: MarketMakerConfig<Fixed>,
    logger: Option<Seq<char>>,
)
    ensures
        ({
            let alive = without_expired(
                account,
                bar.timestamp,
                config.buy_ttl as i64,
                config.sell_ttl as i64,
            );
            let traded = after_fills(alive, bar, config, logger);
            &&& forall|index: int|
                0 <= index < traded.buy_orders.len() ==> was_open(
                    account.buy_orders,
                    #[trigger] traded.buy_orders[index],
                )
            &&& forall|index: int|
                0 <= index < traded.sell_orders.len() ==> was_open(
                    account.sell_orders,
                    #[trigger] traded.sell_orders[index],
                )
        }),
{
    let (buy_ttl, sell_ttl) = (config.buy_ttl as i64, config.sell_ttl as i64);
    let alive = without_expired(account, bar.timestamp, buy_ttl, sell_ttl);
    let traded = after_fills(alive, bar, config, logger);
    let buy_start = Fills {
        orders: Seq::empty(),
        proceeds: alive.shares,
        volume: config.bar_volume_limit,
        log: alive.log,
    };
    let buys = fill_buys(buy_start, alive.buy_orders, bar, logger);
    lemma_filled_terms(buy_start, alive.buy_orders, bar, logger);
    let sell_start = Fills {
        orders: Seq::empty(),
        proceeds: alive.cash,
        volume: buys.volume,
        log: buys.log,
    };
    let sells = fill_sells(sell_start, alive.sell_orders, bar, logger);
    lemma_filled_terms(sell_start, alive.sell_orders, bar, logger);
    let open = |order: LimitOrder<Fixed>|
        zero_spec::<Fixed>().below_spec(order.remaining_shares);
    assert forall|index: int| 0 <= index < traded.buy_orders.len() implies was_open(
        account.buy_orders,
        #[trigger] traded.buy_orders[index],
    ) by {
        lemma_kept_terms(buys.orders, open, index);
        let filled = choose|place: int|
            0 <= place < buys.orders.len() && buys.orders[place] == traded.buy_orders[index];
        assert(same_terms(alive.buy_orders[filled], buys.orders[filled]));
        lemma_kept_terms(
            account.buy_orders,
            |order: LimitOrder<Fixed>|
                !crate::market_maker::expired(order, bar.timestamp, buy_ttl),
            filled,
        );
        let place = choose|place: int|
            0 <= place < account.buy_orders.len() && account.buy_orders[place]
                == alive.buy_orders[filled];
        assert(same_terms(account.buy_orders[place], traded.buy_orders[index]));
    }
    assert forall|index: int| 0 <= index < traded.sell_orders.len() implies was_open(
        account.sell_orders,
        #[trigger] traded.sell_orders[index],
    ) by {
        lemma_kept_terms(sells.orders, open, index);
        let filled = choose|place: int|
            0 <= place < sells.orders.len() && sells.orders[place] == traded.sell_orders[index];
        assert(same_terms(alive.sell_orders[filled], sells.orders[filled]));
        lemma_kept_terms(
            account.sell_orders,
            |order: LimitOrder<Fixed>|
                !crate::market_maker::expired(order, bar.timestamp, sell_ttl),
            filled,
        );
        let place = choose|place: int|
            0 <= place < account.sell_orders.len() && account.sell_orders[place]
                == alive.sell_orders[filled];
        assert(same_terms(account.sell_orders[place], traded.sell_orders[index]));
    }
}

/// Outside liquidation, a bar offers all shares that are not yet offered: an order that was not
/// open before it is one at the bar's close marked up by the configured percentage, and no share
/// is left without an order.
pub proof fn law_sells_are_marked_up(
    account: AccountModel<Fixed>,
    bar: Bar<Fixed>,
    config: MarketMakerConfig<Fixed>,
    logger: Option<Seq<char>>,
    index: int,
)
    requires
        !bar.liquidate,
        limits_in_range(bar, config),
    ensures
        ({
            let after = after_bar(account, bar, config, logger);
            &&& after.shares.units <= 0
            &&& 0 <= index < after.sell_orders.len() ==> {
                let order = after.sell_orders[index];
                was_open(account.sell_orders, order) || {
                    &&& order.placed_timestamp == bar.timestamp
                    &&& is_marked_up(order.price, bar.close, config.markup_percent)
                }
            }
        }),
{
    lemma_constants();
    lemma_sell_limit(bar, config);
    lemma_traded_terms(account, bar, config, logger);
}

/// Outside liquidation, an order to buy that was not open before a bar is one at the bar's close
/// discounted by the configured percentage, for a whole number of shares.
pub proof fn law_buys_are_discounted(
    account: AccountModel<Fixed>,
    bar: Bar<Fixed>,
    config: MarketMakerConfig<Fixed>,
    logger: Option<Seq<char>>,
    index: int,
)
    requires
        !bar.liquidate,
        limits_in_range(bar, config),
    ensures
        ({
            let after = after_bar(account, bar, config, logger);
            0 <= index < after.buy_orders.len() ==> {
                let order = after.buy_orders[index];
                was_open(account.buy_orders, order) || {
                    &&& order.placed_timestamp == bar.timestamp
                    &&& is_discounted(order.price, bar.close, config.discount_percent)
                    &&& order.remaining_shares.units >= 1_000_000
                }
            }
        }),
{
    lemma_constants();
    lemma_buy_limit(bar, config);
    lemma_traded_terms(account, bar, config, logger);
}

// Live limits

/// The millionths in a cent.
pub const CENT: i64 = 10_000;

/// Whether a limit is a price less seven tenths of a percent, rounded down to a whole cent.
pub open spec fn is_buy_limit(limit: Fixed, bid: Fixed) -> bool {
    &&& limit.units % CENT == 0
    &&& 1_000 * limit.units <= 993 * bid.units < 1_000 * (limit.units + CENT)
}

/// Whether a limit is a price and nine tenths of a percent more, rounded up to a whole cent. It
/// may fall short by less than a millionth.
pub open spec fn is_sell_limit(limit: Fixed, ask: Fixed) -> bool {
    &&& limit.units % CENT == 0
    &&& 1_000 * (limit.units - CENT) < 1_009 * ask.units < 1_000 * (limit.units + 1)
}

/// Whether a limit is a price rounded up to a whole cent.
pub open spec fn is_rounded_up(limit: Fixed, ask: Fixed) -> bool {
    &&& limit.units % CENT == 0
    &&& ask.units <= limit.units < ask.units + CENT
}

/// Whether a price is one for which limits stay inside the range of decimal numbers.
pub open spec fn quote_in_range(price: Option<Fixed>) -> bool {
    price matches Some(quote) ==> 0 <= quote.units <= 80_000_000_000_000_000
}

proof fn lemma_scaled(price: Fixed, factor: Fixed, units: int)
    requires
        0 <= price.units <= 80_000_000_000_000_000,
        factor.units == units,
        0 <= units <= 1_100_000,
    ensures
        price.times_spec(factor).units * 1_000_000 <= price.units * units < price.times_spec(
            factor,
        ).units * 1_000_000 + 1_000_000,
{
    let value = price.units as int;
    assert(0 <= value * units <= 80_000_000_000_000_000 * 1_100_000) by (nonlinear_arith)
        requires
            0 <= value <= 80_000_000_000_000_000,
            0 <= units <= 1_100_000,
    ;
    lemma_times(price, factor);
}

/// Outside liquidation, shares are bought seven tenths of a percent below the bid and sold nine
/// tenths of a percent above the ask, to the cent. During liquidation none are bought, and shares
/// are sold at the ask, rounded up to a cent. There is a limit wherever there is a quote for it.
pub proof fn law_limits_follow_the_quotes(
    bid_price: Option<Fixed>,
    ask_price: Option<Fixed>,
    liquidating: bool,
)
    requires
        quote_in_range(bid_price),
        quote_in_range(ask_price),
    ensures
        ({
            let (buy, sell) = order_limits(bid_price, ask_price, liquidating);
            &&& match (buy, bid_price) {
                (Some(limit), Some(bid)) => !liquidating && is_buy_limit(limit, bid),
                (Some(_), None) => false,
                (None, bid) => liquidating || bid is None,
            }
            &&& match (sell, ask_price) {
                (Some(limit), Some(ask)) => if liquidating {
                    is_rounded_up(limit, ask)
                } else {
                    is_sell_limit(limit, ask)
                },
                (None, None) => true,
                _ => false,
            }
        }),
{
    lemma_constants();
    assert(Fixed::ratio_spec(7, 10).units == 700_000) by {
        let (numerator, denominator): (int, int) = (7, 10);
        assert((2 * numerator * 1_000_000 + denominator) / (2 * denominator) == 700_000)
            by (nonlinear_arith)
            requires
                numerator == 7,
                denominator == 10,
        ;
    }
    assert(Fixed::ratio_spec(9, 10).units == 900_000) by {
        let (numerator, denominator): (int, int) = (9, 10);
        assert((2 * numerator * 1_000_000 + denominator) / (2 * denominator) == 900_000)
            by (nonlinear_arith)
            requires
                numerator == 9,
                denominator == 10,
        ;
    }
    lemma_percent(Fixed::ratio_spec(7, 10));
    lemma_percent(Fixed::ratio_spec(9, 10));
    if let Some(bid) = bid_price {
        let factor = Fixed { units: 993_000 };
        lemma_scaled(bid, factor, 993_000);
        law_limits_are_rounded_conservatively(bid.times_spec(factor));
    }
    if let Some(ask) = ask_price {
        let factor = Fixed { units: 1_009_000 };
        lemma_scaled(ask, factor, 1_009_000);
        law_limits_are_rounded_conservatively(ask.times_spec(factor));
        law_limits_are_rounded_conservatively(ask);
    }
}

// Buying power

/// Whether amounts are such that the buying power stays inside the range of decimal numbers.
pub open spec fn power_in_range(
    equity: Fixed,
    margin: Fixed,
    buffer_percent: Fixed,
    requirement_percent: Fixed,
    open_buy_value: Fixed,
) -> bool {
    &&& 0 <= equity.units <= 1_000_000_000_000_000
    &&& 0 <= margin.units <= 1_000_000_000_000_000
    &&& 0 <= open_buy_value.units <= 1_000_000_000_000_000
    &&& 0 <= buffer_percent.units <= 100_000_000
    &&& 2_000_000 <= requirement_percent.units <= 100_000_000
}

/// What the buying power times the requirement comes to, in hundredths of a millionth of a
/// millionth: the equity less the buffer, the margin in use, and the margin of open buys.
pub open spec fn free_margin(
    equity: Fixed,
    margin: Fixed,
    buffer_percent: Fixed,
    requirement_percent: Fixed,
    open_buy_value: Fixed,
) -> int {
    equity.units * (100_000_000 - buffer_percent.units) - 100_000_000 * margin.units
        - open_buy_value.units * requirement_percent.units
}

/// Whether a buying power is a whole number of cents, and the largest whose margin requirement
/// the free margin covers, up to rounding.
pub open spec fn is_covered_power(
    power: Fixed,
    equity: Fixed,
    margin: Fixed,
    buffer_percent: Fixed,
    requirement_percent: Fixed,
    open_buy_value: Fixed,
) -> bool {
    let free = free_margin(equity, margin, buffer_percent, requirement_percent, open_buy_value);
    let rounding = 100 * (equity.units + open_buy_value.units) + 100_000_000;
    &&& power.units >= 0
    &&& power.units % CENT == 0
    &&& power.units == 0 || power.units * requirement_percent.units <= free + rounding + 100
        * power.units
    &&& free < (power.units + CENT) * requirement_percent.units + rounding
}

/// Buying power is a whole number of cents, and the largest whose margin requirement the free
/// margin covers, up to rounding. It is zero where no margin is free.
pub proof fn law_buying_power_uses_the_free_margin(
    equity: Fixed,
    margin: Fixed,
    buffer_percent: Fixed,
    requirement_percent: Fixed,
    open_buy_value: Fixed,
)
    requires
        power_in_range(equity, margin, buffer_percent, requirement_percent, open_buy_value),
    ensures
        is_covered_power(
            buying_power(
                equity,
                margin,
                buffer_percent,
                requirement_percent,
                open_buy_value,
            ),
            equity,
            margin,
            buffer_percent,
            requirement_percent,
            open_buy_value,
        ),
        0 <= buying_power(
            equity,
            margin,
            buffer_percent,
            requirement_percent,
            open_buy_value,
        ).units <= 50_000_000_000_000_000,
{
    lemma_constants();
    lemma_percent(buffer_percent);
    lemma_percent(requirement_percent);
    let (e, m, o) = (equity.units as int, margin.units as int, open_buy_value.units as int);
    let (buffer, requirement) = (
        buffer_percent.units as int,
        requirement_percent.units as int,
    );
    let (b, q) = (buffer / 100, requirement / 100);
    let ratio = requirement_percent.over_spec(hundred_spec());
    let share = one_spec::<Fixed>().minus_spec(buffer_percent.over_spec(hundred_spec()));
    assert(share.units == 1_000_000 - b && ratio.units == q);
    assert(0 <= e * (1_000_000 - b) <= 1_000_000 * e) by (nonlinear_arith)
        requires
            0 <= e,
            0 <= b <= 1_000_000,
    ;
    assert(0 <= o * q <= 1_000_000 * o) by (nonlinear_arith)
        requires
            0 <= o,
            0 <= q <= 1_000_000,
    ;
    lemma_times(equity, share);
    lemma_times(open_buy_value, ratio);
    let effective = equity.times_spec(share);
    let open_margin = open_buy_value.times_spec(ratio);
    let (x, y) = (effective.units as int, open_margin.units as int);
    assert(0 <= x <= e && 0 <= y <= o);
    let capacity = effective.minus_spec(margin).minus_spec(open_margin).maximum_spec(zero_spec());
    let c = if x - m - y > 0 {
        x - m - y
    } else {
        0
    };
    assert(capacity.units == c);
    let quotient = capacity.over_spec(ratio);
    assert(c * 1_000_000 <= 50_000_000_000_000_000 * q) by (nonlinear_arith)
        requires
            0 <= c <= 1_000_000_000_000_000,
            q >= 20_000,
    ;
    lemma_over(capacity, ratio);
    let w = quotient.units as int;
    assert(0 <= w <= 50_000_000_000_000_000) by (nonlinear_arith)
        requires
            w * q <= c * 1_000_000 < w * q + q,
            c * 1_000_000 <= 50_000_000_000_000_000 * q,
            q >= 20_000,
            c >= 0,
    ;
    law_limits_are_rounded_conservatively(quotient);
    let p = rounded_down(quotient).units as int;
    assert(0 <= p <= w < p + 10_000);
    let (t, s) = (buffer - 100 * b, requirement - 100 * q);
    assert(0 <= t < 100 && 0 <= s < 100);
    // How far the capacity is off.
    let free = e * (100_000_000 - buffer) - 100_000_000 * m - o * requirement;
    let rounding = 100 * (e + o) + 100_000_000;
    assert(-rounding < 100_000_000 * (x - m - y) - free < rounding) by (nonlinear_arith)
        requires
            x * 1_000_000 <= e * (1_000_000 - b) < x * 1_000_000 + 1_000_000,
            y * 1_000_000 <= o * q < y * 1_000_000 + 1_000_000,
            free == e * (100_000_000 - buffer) - 100_000_000 * m - o * requirement,
            rounding == 100 * (e + o) + 100_000_000,
            buffer == 100 * b + t,
            requirement == 100 * q + s,
            0 <= t < 100,
            0 <= s < 100,
            e >= 0,
            o >= 0,
    ;
    // How far the quotient is off.
    assert(p * requirement <= 100_000_000 * c + 100 * p) by (nonlinear_arith)
        requires
            w * q <= c * 1_000_000,
            0 <= p <= w,
            requirement == 100 * q + s,
            0 <= s < 100,
            q > 0,
    ;
    assert(100_000_000 * c < (p + 10_000) * requirement) by (nonlinear_arith)
        requires
            c * 1_000_000 < w * q + q,
            0 <= w < p + 10_000,
            requirement == 100 * q + s,
            0 <= s < 100,
            q > 0,
            p >= 0,
    ;
    if c == 0 {
        assert(w == 0) by (nonlinear_arith)
            requires
                w * q <= c * 1_000_000,
                c == 0,
                w >= 0,
                q > 0,
        ;
    }
}

// Requests

pub(crate) proof fn lemma_whole_shares(amount: Fixed, price: Fixed)
    requires
        amount.units >= 0,
        price.units > 0,
        amount.units * 1_000_000 <= 9_000_000_000_000_000_000 * price.units,
    ensures
        ({
            let shares = amount.over_spec(price).floor_spec().units;
            &&& shares >= 0
            &&& shares % 1_000_000 == 0
            &&& shares as int / 1_000_000 * price.units <= amount.units < (shares as int / 1_000_000
                + 1) * price.units
        }),
{
    lemma_over(amount, price);
    let (a, p) = (amount.units as int, price.units as int);
    let w = amount.over_spec(price).units as int;
    let n = w / 1_000_000;
    assert(w >= 0) by (nonlinear_arith)
        requires
            a >= 0,
            p > 0,
            a * 1_000_000 < w * p + p,
    ;
    assert(n * p <= a && a < (n + 1) * p) by (nonlinear_arith)
        requires
            w * p <= a * 1_000_000 < w * p + p,
            n * 1_000_000 <= w < n * 1_000_000 + 1_000_000,
            p > 0,
    ;
}

/// A buy order is for as many whole shares as the buying power pays for at the limit: they cost
/// no more than it, and one more share would. None is placed where it pays for no share.
pub proof fn law_buys_use_the_buying_power(power: Fixed, limit: Fixed)
    requires
        0 <= power.units,
        0 < limit.units,
        power.units * 1_000_000 <= 9_000_000_000_000_000_000 * limit.units,
    ensures
        match buy_request(Some(power), Some(limit)) {
            Some(request) => {
                let whole = request.shares.units as int / 1_000_000;
                &&& request.limit == limit
                &&& request.shares.units % 1_000_000 == 0
                &&& whole >= 1
                &&& whole * limit.units <= power.units < (whole + 1) * limit.units
            },
            None => power.units < limit.units,
        },
{
    lemma_constants();
    lemma_whole_shares(power, limit);
    let shares = power.over_spec(limit).floor_spec();
    let (whole, price) = (shares.units as int / 1_000_000, limit.units as int);
    assert(whole * price <= power.units < (whole + 1) * price);
    if buy_request(Some(power), Some(limit)) is None {
        assert(whole == 0);
        assert((whole + 1) * price == price) by (nonlinear_arith)
            requires
                whole == 0,
        ;
    } else {
        assert(buy_request(Some(power), Some(limit))->0.shares == shares);
        assert(whole >= 1);
    }
}

/// A sell order is for all whole shares that are held beyond those that open orders offer. None
/// is placed where there is no such share.
pub proof fn law_sells_offer_the_position(
    state: VolatileModel<Fixed>,
    ids: Seq<i32>,
    symbol: Seq<char>,
    limit: Fixed,
    held: Fixed,
)
    requires
        0 < limit.units,
        state.position_shares == Some(held),
        -1_000_000_000_000_000_000 <= held.units <= 1_000_000_000_000_000_000,
        0 <= total(sell_shares(ids, state.open_orders, symbol)).units
            <= 1_000_000_000_000_000_000,
    ensures
        ({
            let free = held.units - total(sell_shares(ids, state.open_orders, symbol)).units;
            match sell_request(Some(limit), sellable_shares(state, ids, symbol)) {
                Some(request) => {
                    &&& request.limit == limit
                    &&& request.shares.units % 1_000_000 == 0
                    &&& request.shares.units >= 1_000_000
                    &&& request.shares.units <= free < request.shares.units + 1_000_000
                },
                None => free < 1_000_000,
            }
        }),
{
    lemma_constants();
}

/// What the buy orders on a walk reserve, in millionths of a millionth.
pub open spec fn exact_buys(ids: Seq<i32>, orders: Map<i32, VolatileOrderModel<Fixed>>) -> int
    decreases ids.len(),
{
    if ids.len() == 0 {
        0
    } else {
        let order = orders[ids.last()];
        exact_buys(ids.drop_last(), orders) + if order.side == Side::Buy {
            order.price.units * order.remaining_shares.units
        } else {
            0
        }
    }
}

/// What the sell orders for a symbol on a walk reserve.
pub open spec fn exact_sells(
    ids: Seq<i32>,
    orders: Map<i32, VolatileOrderModel<Fixed>>,
    symbol: Seq<char>,
) -> int
    decreases ids.len(),
{
    if ids.len() == 0 {
        0
    } else {
        let order = orders[ids.last()];
        exact_sells(ids.drop_last(), orders, symbol) + if order.side == Side::Sell && order.symbol
            == symbol {
            order.remaining_shares.units as int
        } else {
            0
        }
    }
}

/// Whether the orders on a walk have prices and shares that are not negative.
pub open spec fn orders_sound(ids: Seq<i32>, orders: Map<i32, VolatileOrderModel<Fixed>>) -> bool {
    forall|index: int|
        0 <= index < ids.len() ==> {
            let order = orders[#[trigger] ids[index]];
            order.price.units >= 0 && order.remaining_shares.units >= 0
        }
}

proof fn lemma_sound_walk(ids: Seq<i32>, orders: Map<i32, VolatileOrderModel<Fixed>>)
    requires
        ids.len() > 0,
        orders_sound(ids, orders),
    ensures
        orders_sound(ids.drop_last(), orders),
        orders[ids.last()].price.units >= 0,
        orders[ids.last()].remaining_shares.units >= 0,
{
    assert(ids[ids.len() - 1] == ids.last());
    assert forall|index: int| 0 <= index < ids.drop_last().len() implies {
        let order = orders[#[trigger] ids.drop_last()[index]];
        order.price.units >= 0 && order.remaining_shares.units >= 0
    } by {
        assert(ids.drop_last()[index] == ids[index]);
    }
}

/// Open buy orders reserve the price of their unfilled shares, up to a millionth for each order.
/// Orders to sell reserve no cash.
pub proof fn law_open_buys_reserve_their_price(
    ids: Seq<i32>,
    orders: Map<i32, VolatileOrderModel<Fixed>>,
)
    requires
        orders_sound(ids, orders),
        exact_buys(ids, orders) <= product_limit(),
    ensures
        ({
            let reserved = total(buy_values(ids, orders)).units;
            &&& reserved >= 0
            &&& reserved * 1_000_000 <= exact_buys(ids, orders) <= (reserved + ids.len())
                * 1_000_000
        }),
    decreases ids.len(),
{
    if ids.len() > 0 {
        lemma_sound_walk(ids, orders);
        let rest = ids.drop_last();
        let order = orders[ids.last()];
        let product = order.price.units * order.remaining_shares.units;
        assert(product >= 0) by (nonlinear_arith)
            requires
                order.price.units >= 0,
                order.remaining_shares.units >= 0,
                product == order.price.units * order.remaining_shares.units,
        ;
        lemma_exact_buys(rest, orders);
        law_open_buys_reserve_their_price(rest, orders);
        let values = buy_values(rest, orders);
        if order.side == Side::Buy {
            lemma_times(order.price, order.remaining_shares);
            let value = order.price.times_spec(order.remaining_shares);
            assert(values.push(value).drop_last() =~= values);
            assert(total(values.push(value)) == total(values).plus_spec(value));
        }
    }
}

proof fn lemma_exact_buys(ids: Seq<i32>, orders: Map<i32, VolatileOrderModel<Fixed>>)
    requires
        orders_sound(ids, orders),
    ensures
        exact_buys(ids, orders) >= 0,
    decreases ids.len(),
{
    if ids.len() > 0 {
        lemma_sound_walk(ids, orders);
        lemma_exact_buys(ids.drop_last(), orders);
        let order = orders[ids.last()];
        assert(order.price.units * order.remaining_shares.units >= 0) by (nonlinear_arith)
            requires
                order.price.units >= 0,
                order.remaining_shares.units >= 0,
        ;
    }
}

/// Open sell orders for a symbol reserve their unfilled shares. Orders to buy and orders for
/// other symbols reserve none.
pub proof fn law_open_sells_reserve_their_shares(
    ids: Seq<i32>,
    orders: Map<i32, VolatileOrderModel<Fixed>>,
    symbol: Seq<char>,
)
    requires
        orders_sound(ids, orders),
        exact_sells(ids, orders, symbol) <= i64::MAX,
    ensures
        total(sell_shares(ids, orders, symbol)).units == exact_sells(ids, orders, symbol),
        exact_sells(ids, orders, symbol) >= 0,
    decreases ids.len(),
{
    if ids.len() > 0 {
        lemma_sound_walk(ids, orders);
        let rest = ids.drop_last();
        law_open_sells_reserve_their_shares(rest, orders, symbol);
        let order = orders[ids.last()];
        let shares = sell_shares(rest, orders, symbol);
        assert(shares.push(order.remaining_shares).drop_last() =~= shares);
    }
}

// Steps

/// Whether the state of a connection stays inside the range of decimal numbers.
pub open spec fn state_in_range(
    state: VolatileModel<Fixed>,
    ids: Seq<i32>,
    symbol: Seq<char>,
    buffer_percent: Fixed,
    requirement_percent: Fixed,
) -> bool {
    &&& quote_in_range(state.bid_price)
    &&& quote_in_range(state.ask_price)
    &&& orders_sound(ids, state.open_orders)
    &&& exact_buys(ids, state.open_orders) <= 1_000_000_000_000_000_000_000
    &&& exact_sells(ids, state.open_orders, symbol) <= 1_000_000_000_000_000_000
    &&& state.position_shares matches Some(held) ==> -1_000_000_000_000_000_000 <= held.units
        <= 1_000_000_000_000_000_000
    &&& state.equity_with_loan_value matches Some(equity) ==> 0 <= equity.units
        <= 1_000_000_000_000_000
    &&& state.init_margin_req matches Some(margin) ==> 0 <= margin.units <= 1_000_000_000_000_000
    &&& 0 <= buffer_percent.units <= 100_000_000
    &&& 2_000_000 <= requirement_percent.units <= 100_000_000
}

/// Whether a buy order, or none, is what an account calls for at a limit: as many whole shares as
/// the buying power pays for.
pub open spec fn spends(
    request: Option<LimitOrderRequest<Fixed>>,
    power: Fixed,
    limit: Fixed,
) -> bool {
    match request {
        Some(order) => {
            let whole = order.shares.units as int / 1_000_000;
            &&& order.limit == limit
            &&& order.shares.units % 1_000_000 == 0
            &&& whole >= 1
            &&& whole * limit.units <= power.units < (whole + 1) * limit.units
        },
        None => power.units < limit.units || limit.units <= 0,
    }
}

/// A step outside liquidation places the buy order that the account and the bid call for. It has
/// one unless the account has reported nothing, there is no bid, or no share is paid for. During
/// liquidation it has none.
pub proof fn law_steps_buy_what_the_account_affords(
    step: ControlStep<Fixed>,
    state: VolatileModel<Fixed>,
    ids: Seq<i32>,
    symbol: Seq<char>,
    buffer_percent: Fixed,
    requirement_percent: Fixed,
    liquidating: bool,
)
    requires
        is_control_step(
            step,
            state,
            ids,
            symbol,
            buffer_percent,
            requirement_percent,
            liquidating,
        ),
        state_in_range(state, ids, symbol, buffer_percent, requirement_percent),
    ensures
        match (state.equity_with_loan_value, state.init_margin_req, state.bid_price) {
            (Some(equity), Some(margin), Some(bid)) => if liquidating {
                step.buy is None
            } else {
                exists|power: Fixed, limit: Fixed, open: Fixed|
                    {
                        &&& open.units * 1_000_000 <= exact_buys(ids, state.open_orders) <= (
                        open.units + ids.len()) * 1_000_000
                        &&& #[trigger] is_covered_power(
                            power,
                            equity,
                            margin,
                            buffer_percent,
                            requirement_percent,
                            open,
                        )
                        &&& #[trigger] is_buy_limit(limit, bid)
                        &&& spends(step.buy, power, limit)
                    }
            },
            _ => step.buy is None,
        },
{
    law_open_buys_reserve_their_price(ids, state.open_orders);
    law_limits_follow_the_quotes(state.bid_price, state.ask_price, liquidating);
    if let (Some(equity), Some(margin), Some(bid)) = (
        state.equity_with_loan_value,
        state.init_margin_req,
        state.bid_price,
    ) {
        let open = total(buy_values(ids, state.open_orders));
        law_buying_power_uses_the_free_margin(
            equity,
            margin,
            buffer_percent,
            requirement_percent,
            open,
        );
        let power = buying_power(equity, margin, buffer_percent, requirement_percent, open);
        if !liquidating {
            let limit = order_limits(state.bid_price, state.ask_price, liquidating).0->0;
            lemma_constants();
            if limit.units > 0 {
                assert(limit.units >= 10_000);
                law_buys_use_the_buying_power(power, limit);
            }
            assert(spends(step.buy, power, limit));
            assert(is_buy_limit(limit, bid));
        }
    }
}

/// A step offers all whole shares that are held and not offered yet, at the limit that the ask
/// calls for. It has no sell order only where there is no ask, no such share, or no position.
pub proof fn law_steps_sell_what_is_held(
    step: ControlStep<Fixed>,
    state: VolatileModel<Fixed>,
    ids: Seq<i32>,
    symbol: Seq<char>,
    buffer_percent: Fixed,
    requirement_percent: Fixed,
    liquidating: bool,
)
    requires
        is_control_step(
            step,
            state,
            ids,
            symbol,
            buffer_percent,
            requirement_percent,
            liquidating,
        ),
        state_in_range(state, ids, symbol, buffer_percent, requirement_percent),
    ensures
        match (step.sell, state.position_shares, state.ask_price) {
            (Some(order), Some(held), Some(ask)) => {
                let free = held.units - exact_sells(ids, state.open_orders, symbol);
                &&& order.shares.units % 1_000_000 == 0
                &&& order.shares.units >= 1_000_000
                &&& order.shares.units <= free < order.shares.units + 1_000_000
                &&& if liquidating {
                    is_rounded_up(order.limit, ask)
                } else {
                    is_sell_limit(order.limit, ask)
                }
            },
            (Some(_), _, _) => false,
            (None, Some(held), Some(ask)) => held.units - exact_sells(
                ids,
                state.open_orders,
                symbol,
            ) < 1_000_000 || ask.units <= 0,
            (None, _, _) => true,
        },
{
    lemma_constants();
    law_open_sells_reserve_their_shares(ids, state.open_orders, symbol);
    law_limits_follow_the_quotes(state.bid_price, state.ask_price, liquidating);
    if let (Some(held), Some(ask)) = (state.position_shares, state.ask_price) {
        let limit = order_limits(state.bid_price, state.ask_price, liquidating).1->0;
        if limit.units > 0 {
            law_sells_offer_the_position(state, ids, symbol, limit, held);
        }
    }
}

} // verus!
