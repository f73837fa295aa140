//! A simulation of a strategy that buys below and sells above the market price.
use crate::number::{
    hundred, hundred_spec, one, one_spec, sum, total, zero, zero_spec, Number,
};
use crate::text::{decimal, joined, show_signed, texts};
use vstd::prelude::*;

verus! {

/// One interval of historical prices.
#[derive(Clone, Copy)]
pub struct Bar<N> {
    /// The start of the interval in Unix seconds.
    pub timestamp: i64,
    /// The lowest price traded.
    pub low: N,
    /// The highest price traded.
    pub high: N,
    /// The last price traded.
    pub close: N,
    /// Whether the interval lies inside the daily liquidation window.
    pub liquidate: bool,
}

/// One trading day, with the name of the file it was read from.
pub struct Day<N> {
    pub filename: String,
    pub bars: Vec<Bar<N>>,
}

/// The mathematical model of a [`Day`].
#[verifier::ext_equal]
pub struct DayModel<N> {
    pub filename: Seq<char>,
    pub bars: Seq<Bar<N>>,
}

impl<N> View for Day<N> {
    type V = DayModel<N>;

    open spec fn view(&self) -> DayModel<N> {
        DayModel { filename: self.filename@, bars: self.bars@ }
    }
}

/// The models of a sequence of days.
pub open spec fn day_models<N>(days: Seq<Day<N>>) -> Seq<DayModel<N>> {
    days.map_values(|day: Day<N>| day@)
}

/// An order that reserves either cash or shares until it fills or expires.
#[derive(Clone, Copy)]
pub struct LimitOrder<N> {
    /// The Unix second of the bar that placed the order.
    pub placed_timestamp: i64,
    pub price: N,
    pub remaining_shares: N,
}

/// The parameters of one simulation.
#[derive(Clone, Copy)]
pub struct MarketMakerConfig<N> {
    pub initial_cash: N,
    /// The most shares that may fill during one bar.
    pub bar_volume_limit: N,
    /// The lifetime of a buy order in seconds.
    pub buy_ttl: u64,
    /// The lifetime of a sell order in seconds.
    pub sell_ttl: u64,
    pub discount_percent: N,
    pub markup_percent: N,
    /// The percentage of the account value that may be spent on buy orders.
    pub bet_size: N,
}

/// The statistics of one simulation across all trading days.
pub struct MarketMakerResult<N> {
    pub final_value: N,
    /// The annualized Sharpe ratio, which takes at least two daily returns.
    pub annualized_sharpe: Option<N>,
    pub daily_returns: Vec<N>,
    /// The lines logged, in order.
    pub log: Vec<String>,
}

/// The mathematical model of a [`MarketMakerResult`].
#[verifier::ext_equal]
pub struct ResultModel<N> {
    pub final_value: N,
    pub annualized_sharpe: Option<N>,
    pub daily_returns: Seq<N>,
    pub log: Seq<Seq<char>>,
}

impl<N> View for MarketMakerResult<N> {
    type V = ResultModel<N>;

    open spec fn view(&self) -> ResultModel<N> {
        ResultModel {
            final_value: self.final_value,
            annualized_sharpe: self.annualized_sharpe,
            daily_returns: self.daily_returns@,
            log: texts(self.log@),
        }
    }
}

/// A logger of the executions of one trading day.
pub struct MarketMakerLogger<'a> {
    pub enabled: bool,
    pub filename: &'a str,
}

/// The cash, shares, and pending orders of one simulated day, and the lines logged so far.
pub struct Account<N> {
    pub cash: N,
    pub shares: N,
    pub buy_orders: Vec<LimitOrder<N>>,
    pub sell_orders: Vec<LimitOrder<N>>,
    pub log: Vec<String>,
}

/// The mathematical model of an [`Account`].
#[verifier::ext_equal]
pub struct AccountModel<N> {
    pub cash: N,
    pub shares: N,
    pub buy_orders: Seq<LimitOrder<N>>,
    pub sell_orders: Seq<LimitOrder<N>>,
    pub log: Seq<Seq<char>>,
}

impl<N> View for Account<N> {
    type V = AccountModel<N>;

    open spec fn view(&self) -> AccountModel<N> {
        AccountModel {
            cash: self.cash,
            shares: self.shares,
            buy_orders: self.buy_orders@,
            sell_orders: self.sell_orders@,
            log: texts(self.log@),
        }
    }
}

// Logging

/// The line that reports a full or partial execution of an order.
pub open spec fn execution_line<N: Number>(
    filename: Seq<char>,
    timestamp: i64,
    side: Seq<char>,
    filled_shares: N,
    order: LimitOrder<N>,
) -> Seq<char> {
    filename + " @ "@ + decimal(timestamp as int) + ": Executed "@
        + filled_shares.show_spec() + " shares of "@ + side + " order from timestamp "@
        + decimal(order.placed_timestamp as int) + " @ $"@
        + order.price.show_fixed_spec(2) + " ("@ + order.remaining_shares.show_spec()
        + " remaining)"@
}

/// The line that reports shares sold during the liquidation window.
pub open spec fn liquidation_line<N: Number>(
    filename: Seq<char>,
    timestamp: i64,
    shares: N,
    price: N,
) -> Seq<char> {
    filename + " @ "@ + decimal(timestamp as int)
        + ": Executed liquidation sell for "@ + shares.show_spec() + " shares @ $"@
        + price.show_fixed_spec(2)
}

/// The filename that begins each line of a day's log, if lines are logged at all.
pub open spec fn logger_of(enabled: bool, filename: Seq<char>) -> Option<Seq<char>> {
    if enabled {
        Some(filename)
    } else {
        None
    }
}

/// A log, extended by the line of one execution if logging is enabled.
pub open spec fn logged_execution<N: Number>(
    log: Seq<Seq<char>>,
    logger: Option<Seq<char>>,
    timestamp: i64,
    side: Seq<char>,
    filled_shares: N,
    order: LimitOrder<N>,
) -> Seq<Seq<char>> {
    match logger {
        Some(filename) => log.push(
            execution_line(filename, timestamp, side, filled_shares, order),
        ),
        None => log,
    }
}

/// A log, extended by the line of one liquidation if logging is enabled and shares were sold.
pub open spec fn logged_liquidation<N: Number>(
    log: Seq<Seq<char>>,
    logger: Option<Seq<char>>,
    timestamp: i64,
    shares: N,
    price: N,
) -> Seq<Seq<char>> {
    match logger {
        Some(filename) if zero_spec::<N>().below_spec(shares) => log.push(
            liquidation_line(filename, timestamp, shares, price),
        ),
        _ => log,
    }
}

impl<'a> View for MarketMakerLogger<'a> {
    type V = Option<Seq<char>>;

    /// The filename that begins each line, if lines are logged at all.
    open spec fn view(&self) -> Option<Seq<char>> {
        logger_of(self.enabled, self.filename@)
    }
}

impl<'a> MarketMakerLogger<'a> {
    /// Log a full or partial execution with enough information to correlate the order.
    pub fn execution<N: Number>(
        &self,
        timestamp: i64,
        side: &str,
        filled_shares: N,
        order: &LimitOrder<N>,
        log: &mut Vec<String>,
    )
        ensures
            texts(final(log)@) == logged_execution(
                texts(old(log)@),
                self@,
                timestamp,
                side@,
                filled_shares,
                *order,
            ),
    {
        if self.enabled {
            let mut line = joined(self.filename, " @ ");
            line.append(&show_signed(timestamp));
            line.append(": Executed ");
            line.append(&filled_shares.show());
            line.append(" shares of ");
            line.append(side);
            line.append(" order from timestamp ");
            line.append(&show_signed(order.placed_timestamp));
            line.append(" @ $");
            line.append(&order.price.show_fixed(2));
            line.append(" (");
            line.append(&order.remaining_shares.show());
            line.append(" remaining)");
            log.push(line);
            assert(texts(log@) =~= logged_execution(
                texts(old(log)@),
                self@,
                timestamp,
                side@,
                filled_shares,
                *order,
            ));
        }
    }

    /// Log shares sold directly during the liquidation window.
    pub fn liquidation<N: Number>(
        &self,
        timestamp: i64,
        shares: N,
        price: N,
        log: &mut Vec<String>,
    )
        ensures
            texts(final(log)@) == logged_liquidation(
                texts(old(log)@),
                self@,
                timestamp,
                shares,
                price,
            ),
    {
        if self.enabled && zero::<N>().below(shares) {
            let mut line = joined(self.filename, " @ ");
            line.append(&show_signed(timestamp));
            line.append(": Executed liquidation sell for ");
            line.append(&shares.show());
            line.append(" shares @ $");
            line.append(&price.show_fixed(2));
            log.push(line);
            assert(texts(log@) =~= logged_liquidation(
                texts(old(log)@),
                self@,
                timestamp,
                shares,
                price,
            ));
        }
    }
}

// Reserved resources

/// The unfilled shares across a sequence of orders.
pub open spec fn reserved_shares<N: Number>(orders: Seq<LimitOrder<N>>) -> N {
    total(orders.map_values(|order: LimitOrder<N>| order.remaining_shares))
}

/// The cash that a sequence of buy orders still reserves.
pub open spec fn reserved_cash<N: Number>(orders: Seq<LimitOrder<N>>) -> N {
    total(
        orders.map_values(
            |order: LimitOrder<N>| order.remaining_shares.times_spec(order.price),
        ),
    )
}

/// Total the unfilled shares across limit orders.
pub fn sum_remaining_shares<N: Number>(orders: &Vec<LimitOrder<N>>) -> (result: N)
    ensures
        result == reserved_shares(orders@),
{
    let mut values: Vec<N> = Vec::new();
    for index in 0..orders.len()
        invariant
            values@ == orders@.take(index as int).map_values(
                |order: LimitOrder<N>| order.remaining_shares,
            ),
    {
        values.push(orders[index].remaining_shares);
        assert(values@ =~= orders@.take(index + 1).map_values(
            |order: LimitOrder<N>| order.remaining_shares,
        ));
    }
    assert(orders@.take(orders.len() as int) =~= orders@);
    sum(&values)
}

/// Total the cash reserved by buy orders.
pub fn sum_reserved_cash<N: Number>(orders: &Vec<LimitOrder<N>>) -> (result: N)
    ensures
        result == reserved_cash(orders@),
{
    let mut values: Vec<N> = Vec::new();
    for index in 0..orders.len()
        invariant
            values@ == orders@.take(index as int).map_values(
                |order: LimitOrder<N>| order.remaining_shares.times_spec(order.price),
            ),
    {
        values.push(orders[index].remaining_shares.times(orders[index].price));
        assert(values@ =~= orders@.take(index + 1).map_values(
            |order: LimitOrder<N>| order.remaining_shares.times_spec(order.price),
        ));
    }
    assert(orders@.take(orders.len() as int) =~= orders@);
    sum(&values)
}

// Expiry

/// The difference of two timestamps, kept inside the range of a timestamp.
pub open spec fn elapsed(timestamp: i64, placed_timestamp: i64) -> int {
    let difference = timestamp - placed_timestamp;
    if difference < i64::MIN {
        i64::MIN as int
    } else if difference > i64::MAX {
        i64::MAX as int
    } else {
        difference
    }
}

/// Whether an order has outlived its lifetime at a timestamp.
pub open spec fn expired<N>(order: LimitOrder<N>, timestamp: i64, ttl: i64) -> bool {
    elapsed(timestamp, order.placed_timestamp) > ttl
}

/// The orders that are still alive at a timestamp.
pub open spec fn unexpired<N>(
    orders: Seq<LimitOrder<N>>,
    timestamp: i64,
    ttl: i64,
) -> Seq<LimitOrder<N>> {
    orders.filter(|order: LimitOrder<N>| !expired(order, timestamp, ttl))
}

/// The orders that have outlived their lifetime at a timestamp.
pub open spec fn outlived<N>(
    orders: Seq<LimitOrder<N>>,
    timestamp: i64,
    ttl: i64,
) -> Seq<LimitOrder<N>> {
    orders.filter(|order: LimitOrder<N>| expired(order, timestamp, ttl))
}

/// Cash after the reservations of buy orders have been paid back one by one.
pub open spec fn refunded<N: Number>(cash: N, orders: Seq<LimitOrder<N>>) -> N
    decreases orders.len(),
{
    if orders.len() == 0 {
        cash
    } else {
        refunded(cash, orders.drop_last()).plus_spec(
            orders.last().remaining_shares.times_spec(orders.last().price),
        )
    }
}

/// Shares after the reservations of sell orders have been released one by one.
pub open spec fn released<N: Number>(shares: N, orders: Seq<LimitOrder<N>>) -> N
    decreases orders.len(),
{
    if orders.len() == 0 {
        shares
    } else {
        released(shares, orders.drop_last()).plus_spec(orders.last().remaining_shares)
    }
}

fn has_expired<N: Number>(order: &LimitOrder<N>, timestamp: i64, ttl: i64) -> (result: bool)
    ensures
        result == expired(*order, timestamp, ttl),
{
    let difference: i128 = timestamp as i128 - order.placed_timestamp as i128;
    if difference > i64::MAX as i128 {
        i64::MAX > ttl
    } else if difference < i64::MIN as i128 {
        i64::MIN > ttl
    } else {
        difference > ttl as i128
    }
}

/// Cancel expired orders and return their reserved resources to the portfolio.
pub fn expire_market_maker_orders<N: Number>(
    timestamp: i64,
    buy_ttl: i64,
    sell_ttl: i64,
    available_cash: &mut N,
    available_shares: &mut N,
    buy_orders: &mut Vec<LimitOrder<N>>,
    sell_orders: &mut Vec<LimitOrder<N>>,
)
    ensures
        *final(available_cash) == refunded(
            *old(available_cash),
            outlived(old(buy_orders)@, timestamp, buy_ttl),
        ),
        *final(available_shares) == released(
            *old(available_shares),
            outlived(old(sell_orders)@, timestamp, sell_ttl),
        ),
        final(buy_orders)@ == unexpired(old(buy_orders)@, timestamp, buy_ttl),
        final(sell_orders)@ == unexpired(old(sell_orders)@, timestamp, sell_ttl),
{
    let mut cash = *available_cash;
    let mut kept_buys: Vec<LimitOrder<N>> = Vec::new();
    for index in 0..buy_orders.len()
        invariant
            buy_orders@ == old(buy_orders)@,
            kept_buys@ == unexpired(buy_orders@.take(index as int), timestamp, buy_ttl),
            cash == refunded(
                *old(available_cash),
                outlived(buy_orders@.take(index as int), timestamp, buy_ttl),
            ),
    {
        let order = buy_orders[index];
        proof {
            reveal(Seq::filter);
            assert(buy_orders@.take(index + 1).drop_last() =~= buy_orders@.take(index as int));
            let gone = outlived(buy_orders@.take(index as int), timestamp, buy_ttl);
            assert(gone.push(order).drop_last() =~= gone);
        }
        if has_expired(&order, timestamp, buy_ttl) {
            cash = cash.plus(order.remaining_shares.times(order.price));
        } else {
            kept_buys.push(order);
        }
    }
    assert(buy_orders@.take(buy_orders.len() as int) =~= buy_orders@);

    let mut shares = *available_shares;
    let mut kept_sells: Vec<LimitOrder<N>> = Vec::new();
    for index in 0..sell_orders.len()
        invariant
            sell_orders@ == old(sell_orders)@,
            kept_sells@ == unexpired(sell_orders@.take(index as int), timestamp, sell_ttl),
            shares == released(
                *old(available_shares),
                outlived(sell_orders@.take(index as int), timestamp, sell_ttl),
            ),
    {
        let order = sell_orders[index];
        proof {
            reveal(Seq::filter);
            assert(sell_orders@.take(index + 1).drop_last() =~= sell_orders@.take(index as int));
            let gone = outlived(sell_orders@.take(index as int), timestamp, sell_ttl);
            assert(gone.push(order).drop_last() =~= gone);
        }
        if has_expired(&order, timestamp, sell_ttl) {
            shares = shares.plus(order.remaining_shares);
        } else {
            kept_sells.push(order);
        }
    }
    assert(sell_orders@.take(sell_orders.len() as int) =~= sell_orders@);

    *available_cash = cash;
    *available_shares = shares;
    *buy_orders = kept_buys;
    *sell_orders = kept_sells;
}

// Fills

/// What remains after orders have been filled against the volume of one bar.
#[verifier::ext_equal]
pub struct Fills<N> {
    /// The orders handled so far, with the shares that are still unfilled.
    pub orders: Seq<LimitOrder<N>>,
    /// The resource that the fills pay into: shares for buys, cash for sells.
    pub proceeds: N,
    /// The volume of the bar that is still unused.
    pub volume: N,
    pub log: Seq<Seq<char>>,
}

/// The part of an order that fills: what is left of it, or what is left of the volume.
pub open spec fn filled_part<N: Number>(order: LimitOrder<N>, volume: N) -> N {
    order.remaining_shares.minimum_spec(volume)
}

/// An order after some of its shares have filled.
pub open spec fn after_fill<N: Number>(order: LimitOrder<N>, filled_shares: N) -> LimitOrder<N> {
    LimitOrder { remaining_shares: order.remaining_shares.minus_spec(filled_shares), ..order }
}

/// Fill one buy order if volume is left and the bar's low reaches its price.
pub open spec fn fill_buy<N: Number>(
    state: Fills<N>,
    order: LimitOrder<N>,
    bar: Bar<N>,
    logger: Option<Seq<char>>,
) -> Fills<N> {
    if !state.volume.at_most_spec(zero_spec()) && bar.low.at_most_spec(order.price) {
        let filled_shares = filled_part(order, state.volume);
        let rest = after_fill(order, filled_shares);
        Fills {
            orders: state.orders.push(rest),
            proceeds: state.proceeds.plus_spec(filled_shares),
            volume: state.volume.minus_spec(filled_shares),
            log: logged_execution(
                state.log,
                logger,
                bar.timestamp,
                "buy"@,
                filled_shares,
                rest,
            ),
        }
    } else {
        Fills { orders: state.orders.push(order), ..state }
    }
}

/// Fill one sell order if volume is left and the bar's high reaches its price.
pub open spec fn fill_sell<N: Number>(
    state: Fills<N>,
    order: LimitOrder<N>,
    bar: Bar<N>,
    logger: Option<Seq<char>>,
) -> Fills<N> {
    if !state.volume.at_most_spec(zero_spec()) && order.price.at_most_spec(bar.high) {
        let filled_shares = filled_part(order, state.volume);
        let rest = after_fill(order, filled_shares);
        Fills {
            orders: state.orders.push(rest),
            proceeds: state.proceeds.plus_spec(filled_shares.times_spec(order.price)),
            volume: state.volume.minus_spec(filled_shares),
            log: logged_execution(
                state.log,
                logger,
                bar.timestamp,
                "sell"@,
                filled_shares,
                rest,
            ),
        }
    } else {
        Fills { orders: state.orders.push(order), ..state }
    }
}

/// Fill buy orders from the oldest to the newest.
pub open spec fn fill_buys<N: Number>(
    start: Fills<N>,
    orders: Seq<LimitOrder<N>>,
    bar: Bar<N>,
    logger: Option<Seq<char>>,
) -> Fills<N>
    decreases orders.len(),
{
    if orders.len() == 0 {
        start
    } else {
        fill_buy(fill_buys(start, orders.drop_last(), bar, logger), orders.last(), bar, logger)
    }
}

/// Fill sell orders from the oldest to the newest.
pub open spec fn fill_sells<N: Number>(
    start: Fills<N>,
    orders: Seq<LimitOrder<N>>,
    bar: Bar<N>,
    logger: Option<Seq<char>>,
) -> Fills<N>
    decreases orders.len(),
{
    if orders.len() == 0 {
        start
    } else {
        fill_sell(fill_sells(start, orders.drop_last(), bar, logger), orders.last(), bar, logger)
    }
}

/// The orders that still have shares to fill.
pub open spec fn unfilled<N: Number>(orders: Seq<LimitOrder<N>>) -> Seq<LimitOrder<N>> {
    orders.filter(
        |order: LimitOrder<N>| zero_spec::<N>().below_spec(order.remaining_shares),
    )
}

/// Keep the orders that still have shares to fill.
fn retain_unfilled<N: Number>(orders: &mut Vec<LimitOrder<N>>)
    ensures
        final(orders)@ == unfilled(old(orders)@),
{
    let mut kept: Vec<LimitOrder<N>> = Vec::new();
    for index in 0..orders.len()
        invariant
            orders@ == old(orders)@,
            kept@ == unfilled(orders@.take(index as int)),
    {
        let order = orders[index];
        proof {
            reveal(Seq::filter);
            assert(orders@.take(index + 1).drop_last() =~= orders@.take(index as int));
        }
        if zero::<N>().below(order.remaining_shares) {
            kept.push(order);
        }
    }
    assert(orders@.take(orders.len() as int) =~= orders@);
    *orders = kept;
}

/// Partially fill eligible buy orders while preserving volume for later orders.
fn fill_buy_orders<N: Number>(
    orders: &mut Vec<LimitOrder<N>>,
    available_shares: &mut N,
    remaining_bar_volume: &mut N,
    log: &mut Vec<String>,
    bar: &Bar<N>,
    logger: &MarketMakerLogger,
)
    ensures
        (Fills {
            orders: final(orders)@,
            proceeds: *final(available_shares),
            volume: *final(remaining_bar_volume),
            log: texts(final(log)@),
        }) == fill_buys(
            (Fills {
                orders: Seq::empty(),
                proceeds: *old(available_shares),
                volume: *old(remaining_bar_volume),
                log: texts(old(log)@),
            }),
            old(orders)@,
            *bar,
            logger@,
        ),
{
    let ghost before = orders@;
    let ghost start = Fills {
        orders: Seq::empty(),
        proceeds: *available_shares,
        volume: *remaining_bar_volume,
        log: texts(log@),
    };
    let mut filled: Vec<LimitOrder<N>> = Vec::new();
    for index in 0..orders.len()
        invariant
            orders@ == before,
            (Fills {
                orders: filled@,
                proceeds: *available_shares,
                volume: *remaining_bar_volume,
                log: texts(log@),
            }) == fill_buys(start, before.take(index as int), *bar, logger@),
    {
        let mut order = orders[index];
        assert(before.take(index + 1).drop_last() =~= before.take(index as int));
        if !remaining_bar_volume.at_most(zero()) && bar.low.at_most(order.price) {
            let filled_shares = order.remaining_shares.minimum(*remaining_bar_volume);
            *available_shares = available_shares.plus(filled_shares);
            order.remaining_shares = order.remaining_shares.minus(filled_shares);
            *remaining_bar_volume = remaining_bar_volume.minus(filled_shares);
            logger.execution(bar.timestamp, "buy", filled_shares, &order, log);
        }
        filled.push(order);
    }
    assert(before.take(before.len() as int) =~= before);
    *orders = filled;
}

/// Partially fill eligible sell orders with the volume left after buy executions.
fn fill_sell_orders<N: Number>(
    orders: &mut Vec<LimitOrder<N>>,
    available_cash: &mut N,
    remaining_bar_volume: &mut N,
    log: &mut Vec<String>,
    bar: &Bar<N>,
    logger: &MarketMakerLogger,
)
    ensures
        (Fills {
            orders: final(orders)@,
            proceeds: *final(available_cash),
            volume: *final(remaining_bar_volume),
            log: texts(final(log)@),
        }) == fill_sells(
            (Fills {
                orders: Seq::empty(),
                proceeds: *old(available_cash),
                volume: *old(remaining_bar_volume),
                log: texts(old(log)@),
            }),
            old(orders)@,
            *bar,
            logger@,
        ),
{
    let ghost before = orders@;
    let ghost start = Fills {
        orders: Seq::empty(),
        proceeds: *available_cash,
        volume: *remaining_bar_volume,
        log: texts(log@),
    };
    let mut filled: Vec<LimitOrder<N>> = Vec::new();
    for index in 0..orders.len()
        invariant
            orders@ == before,
            (Fills {
                orders: filled@,
                proceeds: *available_cash,
                volume: *remaining_bar_volume,
                log: texts(log@),
            }) == fill_sells(start, before.take(index as int), *bar, logger@),
    {
        let mut order = orders[index];
        assert(before.take(index + 1).drop_last() =~= before.take(index as int));
        if !remaining_bar_volume.at_most(zero()) && order.price.at_most(bar.high) {
            let filled_shares = order.remaining_shares.minimum(*remaining_bar_volume);
            *available_cash = available_cash.plus(filled_shares.times(order.price));
            order.remaining_shares = order.remaining_shares.minus(filled_shares);
            *remaining_bar_volume = remaining_bar_volume.minus(filled_shares);
            logger.execution(bar.timestamp, "sell", filled_shares, &order, log);
        }
        filled.push(order);
    }
    assert(before.take(before.len() as int) =~= before);
    *orders = filled;
}

// One bar

/// The account after a bar inside the liquidation window: every order is cancelled, and up to
/// one bar's volume of shares is sold at the close.
pub open spec fn liquidated<N: Number>(
    account: AccountModel<N>,
    bar: Bar<N>,
    config: MarketMakerConfig<N>,
    logger: Option<Seq<char>>,
) -> AccountModel<N> {
    let cash = account.cash.plus_spec(reserved_cash(account.buy_orders));
    let shares = account.shares.plus_spec(reserved_shares(account.sell_orders));
    let sold = shares.minimum_spec(config.bar_volume_limit);
    AccountModel {
        cash: cash.plus_spec(sold.times_spec(bar.close)),
        shares: shares.minus_spec(sold),
        buy_orders: Seq::empty(),
        sell_orders: Seq::empty(),
        log: logged_liquidation(account.log, logger, bar.timestamp, sold, bar.close),
    }
}

/// The account after the orders that outlived their lifetimes have been cancelled.
pub open spec fn without_expired<N: Number>(
    account: AccountModel<N>,
    timestamp: i64,
    buy_ttl: i64,
    sell_ttl: i64,
) -> AccountModel<N> {
    AccountModel {
        cash: refunded(account.cash, outlived(account.buy_orders, timestamp, buy_ttl)),
        shares: released(account.shares, outlived(account.sell_orders, timestamp, sell_ttl)),
        buy_orders: unexpired(account.buy_orders, timestamp, buy_ttl),
        sell_orders: unexpired(account.sell_orders, timestamp, sell_ttl),
        log: account.log,
    }
}

/// The account after one bar's volume has filled first its buy orders, then its sell orders.
pub open spec fn after_fills<N: Number>(
    account: AccountModel<N>,
    bar: Bar<N>,
    config: MarketMakerConfig<N>,
    logger: Option<Seq<char>>,
) -> AccountModel<N> {
    let buys = fill_buys(
        (Fills {
            orders: Seq::empty(),
            proceeds: account.shares,
            volume: config.bar_volume_limit,
            log: account.log,
        }),
        account.buy_orders,
        bar,
        logger,
    );
    let sells = fill_sells(
        (Fills {
            orders: Seq::empty(),
            proceeds: account.cash,
            volume: buys.volume,
            log: buys.log,
        }),
        account.sell_orders,
        bar,
        logger,
    );
    AccountModel {
        cash: sells.proceeds,
        shares: buys.proceeds,
        buy_orders: unfilled(buys.orders),
        sell_orders: unfilled(sells.orders),
        log: sells.log,
    }
}

/// Cash, reservations, and shares at a price.
pub open spec fn account_value<N: Number>(account: AccountModel<N>, price: N) -> N {
    account.cash.plus_spec(reserved_cash(account.buy_orders)).plus_spec(
        account.shares.plus_spec(reserved_shares(account.sell_orders)).times_spec(price),
    )
}

/// One minus a percentage.
pub open spec fn complement<N: Number>(percent: N) -> N {
    one_spec::<N>().minus_spec(percent.over_spec(hundred_spec()))
}

/// The price at which a bar's buy order is placed.
pub open spec fn buy_limit<N: Number>(bar: Bar<N>, config: MarketMakerConfig<N>) -> N {
    bar.close.times_spec(complement(config.discount_percent))
}

/// The price at which a bar's sell order is placed.
pub open spec fn sell_limit<N: Number>(bar: Bar<N>, config: MarketMakerConfig<N>) -> N {
    bar.close.times_spec(
        one_spec::<N>().plus_spec(config.markup_percent.over_spec(hundred_spec())),
    )
}

/// The whole shares that the cash above the floor buys at the discounted price.
pub open spec fn buy_shares<N: Number>(
    account: AccountModel<N>,
    bar: Bar<N>,
    config: MarketMakerConfig<N>,
) -> N {
    let cash_floor = account_value(account, bar.close).times_spec(complement(config.bet_size));
    account.cash.minus_spec(cash_floor).maximum_spec(zero_spec()).over_spec(
        buy_limit(bar, config),
    ).floor_spec()
}

/// The account after a buy order for the usable cash has been placed, if it buys a share.
pub open spec fn with_buy_order<N: Number>(
    account: AccountModel<N>,
    bar: Bar<N>,
    config: MarketMakerConfig<N>,
) -> AccountModel<N> {
    let shares = buy_shares(account, bar, config);
    let price = buy_limit(bar, config);
    if one_spec::<N>().at_most_spec(shares) {
        AccountModel {
            cash: account.cash.minus_spec(shares.times_spec(price)),
            buy_orders: account.buy_orders.push(
                LimitOrder {
                    placed_timestamp: bar.timestamp,
                    price,
                    remaining_shares: shares,
                },
            ),
            ..account
        }
    } else {
        account
    }
}

/// The account after every available share has been offered in one sell order.
pub open spec fn with_sell_order<N: Number>(
    account: AccountModel<N>,
    bar: Bar<N>,
    config: MarketMakerConfig<N>,
) -> AccountModel<N> {
    if zero_spec::<N>().below_spec(account.shares) {
        AccountModel {
            shares: zero_spec(),
            sell_orders: account.sell_orders.push(
                LimitOrder {
                    placed_timestamp: bar.timestamp,
                    price: sell_limit(bar, config),
                    remaining_shares: account.shares,
                },
            ),
            ..account
        }
    } else {
        account
    }
}

/// The account after one bar.
pub open spec fn after_bar<N: Number>(
    account: AccountModel<N>,
    bar: Bar<N>,
    config: MarketMakerConfig<N>,
    logger: Option<Seq<char>>,
) -> AccountModel<N> {
    if bar.liquidate {
        liquidated(account, bar, config, logger)
    } else {
        let alive = without_expired(
            account,
            bar.timestamp,
            config.buy_ttl as i64,
            config.sell_ttl as i64,
        );
        let traded = after_fills(alive, bar, config, logger);
        with_sell_order(with_buy_order(traded, bar, config), bar, config)
    }
}

/// The account after a sequence of bars.
pub open spec fn after_bars<N: Number>(
    account: AccountModel<N>,
    bars: Seq<Bar<N>>,
    config: MarketMakerConfig<N>,
    logger: Option<Seq<char>>,
) -> AccountModel<N>
    decreases bars.len(),
{
    if bars.len() == 0 {
        account
    } else {
        after_bar(
            after_bars(account, bars.drop_last(), config, logger),
            bars.last(),
            config,
            logger,
        )
    }
}

impl<N: Number> Account<N> {
    /// Start a day with the entire account value available as cash.
    pub fn open(initial_value: N) -> (result: Self)
        ensures
            result@ == opening_account(initial_value),
    {
        let result = Account {
            cash: initial_value,
            shares: zero(),
            buy_orders: Vec::new(),
            sell_orders: Vec::new(),
            log: Vec::new(),
        };
        assert(result@ =~= opening_account(initial_value));
        result
    }

    /// The value of the account at a price.
    pub fn value(&self, price: N) -> (result: N)
        ensures
            result == account_value(self@, price),
    {
        let reserved_cash = sum_reserved_cash(&self.buy_orders);
        let reserved_shares = sum_remaining_shares(&self.sell_orders);
        self.cash.plus(reserved_cash).plus(self.shares.plus(reserved_shares).times(price))
    }

    /// Cancel pending orders and sell up to one bar's volume at the current close.
    fn liquidate(
        &mut self,
        bar: &Bar<N>,
        config: &MarketMakerConfig<N>,
        logger: &MarketMakerLogger,
    )
        ensures
            final(self)@ == liquidated(old(self)@, *bar, *config, logger@),
    {
        self.cash = self.cash.plus(sum_reserved_cash(&self.buy_orders));
        self.shares = self.shares.plus(sum_remaining_shares(&self.sell_orders));
        self.buy_orders = Vec::new();
        self.sell_orders = Vec::new();
        let filled_shares = self.shares.minimum(config.bar_volume_limit);
        self.cash = self.cash.plus(filled_shares.times(bar.close));
        self.shares = self.shares.minus(filled_shares);
        logger.liquidation(bar.timestamp, filled_shares, bar.close, &mut self.log);
        assert(self@ =~= liquidated(old(self)@, *bar, *config, logger@));
    }

    /// Reserve usable cash for the largest whole-share discounted buy order.
    fn place_buy_order(&mut self, bar: &Bar<N>, config: &MarketMakerConfig<N>)
        ensures
            final(self)@ == with_buy_order(old(self)@, *bar, *config),
    {
        let liquidation_value = self.value(bar.close);
        let cash_floor = liquidation_value.times(
            one::<N>().minus(config.bet_size.over(hundred())),
        );
        let cash_available_to_bet = self.cash.minus(cash_floor).maximum(zero());
        let buy_limit = bar.close.times(
            one::<N>().minus(config.discount_percent.over(hundred())),
        );
        let buy_shares = cash_available_to_bet.over(buy_limit).floor();
        if one::<N>().at_most(buy_shares) {
            self.cash = self.cash.minus(buy_shares.times(buy_limit));
            self.buy_orders.push(
                LimitOrder {
                    placed_timestamp: bar.timestamp,
                    price: buy_limit,
                    remaining_shares: buy_shares,
                },
            );
        }
        assert(self@ =~= with_buy_order(old(self)@, *bar, *config));
    }

    /// Reserve every available share for one marked-up sell order.
    fn place_sell_order(&mut self, bar: &Bar<N>, config: &MarketMakerConfig<N>)
        ensures
            final(self)@ == with_sell_order(old(self)@, *bar, *config),
    {
        if zero::<N>().below(self.shares) {
            let sell_limit = bar.close.times(
                one::<N>().plus(config.markup_percent.over(hundred())),
            );
            self.sell_orders.push(
                LimitOrder {
                    placed_timestamp: bar.timestamp,
                    price: sell_limit,
                    remaining_shares: self.shares,
                },
            );
            self.shares = zero();
        }
        assert(self@ =~= with_sell_order(old(self)@, *bar, *config));
    }

    /// Cancel, fill, and replace orders for one bar.
    pub fn advance(
        &mut self,
        bar: &Bar<N>,
        config: &MarketMakerConfig<N>,
        logger: &MarketMakerLogger,
    )
        requires
            config.buy_ttl <= i64::MAX,
            config.sell_ttl <= i64::MAX,
        ensures
            final(self)@ == after_bar(old(self)@, *bar, *config, logger@),
    {
        if bar.liquidate {
            self.liquidate(bar, config, logger);
            return;
        }
        let ghost alive = without_expired(
            self@,
            bar.timestamp,
            config.buy_ttl as i64,
            config.sell_ttl as i64,
        );
        expire_market_maker_orders(
            bar.timestamp,
            config.buy_ttl as i64,
            config.sell_ttl as i64,
            &mut self.cash,
            &mut self.shares,
            &mut self.buy_orders,
            &mut self.sell_orders,
        );
        assert(self@ =~= alive);

        // Share one fill budget across every order eligible during this bar.
        let mut remaining_bar_volume = config.bar_volume_limit;
        fill_buy_orders(
            &mut self.buy_orders,
            &mut self.shares,
            &mut remaining_bar_volume,
            &mut self.log,
            bar,
            logger,
        );
        retain_unfilled(&mut self.buy_orders);
        fill_sell_orders(
            &mut self.sell_orders,
            &mut self.cash,
            &mut remaining_bar_volume,
            &mut self.log,
            bar,
            logger,
        );
        retain_unfilled(&mut self.sell_orders);
        assert(self@ =~= after_fills(alive, *bar, *config, logger@));

        self.place_buy_order(bar, config);
        self.place_sell_order(bar, config);
    }
}

// One day

/// The account at the start of a day.
pub open spec fn opening_account<N: Number>(initial_value: N) -> AccountModel<N> {
    AccountModel {
        cash: initial_value,
        shares: zero_spec(),
        buy_orders: Seq::empty(),
        sell_orders: Seq::empty(),
        log: Seq::empty(),
    }
}

/// Whether the order lifetimes of a configuration fit into a signed timestamp.
pub open spec fn lifetimes_fit<N>(config: MarketMakerConfig<N>) -> bool {
    config.buy_ttl <= i64::MAX && config.sell_ttl <= i64::MAX
}

/// The message about an integer that does not fit into the type it is converted to.
pub open spec fn conversion_error_text() -> Seq<char> {
    "out of range integral type conversion attempted"@
}

fn conversion_error() -> (result: String)
    ensures
        result@ == conversion_error_text(),
{
    "out of range integral type conversion attempted".to_owned()
}

/// The account at the end of a day.
pub open spec fn closing_account<N: Number>(
    bars: Seq<Bar<N>>,
    initial_value: N,
    config: MarketMakerConfig<N>,
    logger: Option<Seq<char>>,
) -> AccountModel<N> {
    after_bars(opening_account(initial_value), bars, config, logger)
}

/// The value of an account after a day, marked to the final close.
pub open spec fn day_value<N: Number>(
    bars: Seq<Bar<N>>,
    initial_value: N,
    config: MarketMakerConfig<N>,
    logger: Option<Seq<char>>,
) -> N {
    account_value(closing_account(bars, initial_value, config, logger), bars.last().close)
}

/// Simulate one market-maker configuration over one trading day, and return the final account
/// value with the lines logged.
pub fn simulate_market_maker_day<N: Number>(
    bars: &Vec<Bar<N>>,
    initial_value: N,
    config: MarketMakerConfig<N>,
    filename: &str,
    log_orders: bool,
) -> (result: Result<(N, Vec<String>), String>)
    requires
        bars@.len() > 0 || !lifetimes_fit(config),
    ensures
        result is Ok <==> lifetimes_fit(config),
        result matches Ok(outcome) ==> {
            let logger = logger_of(log_orders, filename@);
            &&& outcome.0 == day_value(bars@, initial_value, config, logger)
            &&& texts(outcome.1@) == closing_account(bars@, initial_value, config, logger).log
        },
        result matches Err(message) ==> message@ == conversion_error_text(),
{
    if config.buy_ttl > i64::MAX as u64 || config.sell_ttl > i64::MAX as u64 {
        return Err(conversion_error());
    }
    let logger = MarketMakerLogger { enabled: log_orders, filename };
    let mut account = Account::open(initial_value);
    for index in 0..bars.len()
        invariant
            lifetimes_fit(config),
            account@ == after_bars(
                opening_account(initial_value),
                bars@.take(index as int),
                config,
                logger@,
            ),
    {
        assert(bars@.take(index + 1).drop_last() =~= bars@.take(index as int));
        account.advance(&bars[index], &config, &logger);
    }
    assert(bars@.take(bars.len() as int) =~= bars@);

    // Mark reserved cash and all held shares to the final close.
    let final_price = bars[bars.len() - 1].close;
    let final_value = account.value(final_price);
    Ok((final_value, account.log))
}

// Many days

/// The trading days by which statistics of one return per day are annualized.
pub const TRADING_DAYS_PER_YEAR: u32 = 252;

/// The Sharpe ratio of daily returns: their mean over their sample standard deviation. Returns
/// that do not vary are ranked by the sign of their mean.
pub open spec fn daily_sharpe<N: Number>(rates: Seq<N>) -> N {
    let count = N::count_spec(rates.len());
    let mean_return = total(rates).over_spec(count);
    let squares = rates.map_values(|value: N| value.minus_spec(mean_return).squared_spec());
    let deviation = total(squares).over_spec(count.minus_spec(one_spec())).square_root_spec();
    if deviation.same_spec(zero_spec()) {
        if zero_spec::<N>().total_below_spec(mean_return) {
            N::infinity_spec()
        } else if mean_return.total_below_spec(zero_spec()) {
            N::negative_infinity_spec()
        } else {
            zero_spec()
        }
    } else {
        mean_return.over_spec(deviation)
    }
}

/// The annualized Sharpe ratio, which takes at least two returns.
pub open spec fn annualized_sharpe<N: Number>(rates: Seq<N>) -> Option<N> {
    if rates.len() < 2 {
        None
    } else {
        Some(
            daily_sharpe(rates).times_spec(
                N::ratio_spec(TRADING_DAYS_PER_YEAR as int, 1).square_root_spec(),
            ),
        )
    }
}

/// Calculate annualized excess return per unit of risk from daily return rates.
pub fn annualized_sharpe_ratio<N: Number>(rates: &Vec<N>) -> (result: Result<Option<N>, String>)
    ensures
        result is Ok <==> rates@.len() <= u32::MAX,
        result matches Ok(ratio) ==> ratio == annualized_sharpe(rates@),
        result matches Err(message) ==> message@ == conversion_error_text(),
{
    // At least two observations are needed to estimate historical return variability.
    if rates.len() < 2 {
        return Ok(None);
    }
    if rates.len() > u32::MAX as usize {
        return Err(conversion_error());
    }

    // Use a zero risk-free rate so the metric ranks return per unit of variability.
    let count = N::count(rates.len());
    let mean_return = sum(rates).over(count);

    // Estimate historical daily volatility with the sample standard deviation.
    let mut squares: Vec<N> = Vec::new();
    for index in 0..rates.len()
        invariant
            squares@ == rates@.take(index as int).map_values(
                |value: N| value.minus_spec(mean_return).squared_spec(),
            ),
    {
        squares.push(rates[index].minus(mean_return).squared());
        assert(squares@ =~= rates@.take(index + 1).map_values(
            |value: N| value.minus_spec(mean_return).squared_spec(),
        ));
    }
    assert(rates@.take(rates.len() as int) =~= rates@);
    let variance = sum(&squares).over(count.minus(one()));
    let standard_deviation = variance.square_root();

    // Give constant-return strategies an ordered result.
    let daily_sharpe = if standard_deviation.same(zero()) {
        if zero::<N>().total_below(mean_return) {
            N::infinity()
        } else if mean_return.total_below(zero()) {
            N::negative_infinity()
        } else {
            zero()
        }
    } else {
        mean_return.over(standard_deviation)
    };

    // Scale the daily ratio under the conventional zero-serial-correlation assumption.
    Ok(Some(daily_sharpe.times(N::ratio(TRADING_DAYS_PER_YEAR, 1).square_root())))
}

/// The account value after a sequence of days, each of which starts with the value that the
/// day before ended with.
pub open spec fn compounded_value<N: Number>(
    days: Seq<DayModel<N>>,
    config: MarketMakerConfig<N>,
    log_orders: bool,
) -> N
    decreases days.len(),
{
    if days.len() == 0 {
        config.initial_cash
    } else {
        day_value(
            days.last().bars,
            compounded_value(days.drop_last(), config, log_orders),
            config,
            logger_of(log_orders, days.last().filename),
        )
    }
}

/// The return of each of a sequence of days.
pub open spec fn daily_returns<N: Number>(
    days: Seq<DayModel<N>>,
    config: MarketMakerConfig<N>,
    log_orders: bool,
) -> Seq<N>
    decreases days.len(),
{
    if days.len() == 0 {
        Seq::empty()
    } else {
        daily_returns(days.drop_last(), config, log_orders).push(
            compounded_value(days, config, log_orders).over_spec(
                compounded_value(days.drop_last(), config, log_orders),
            ).minus_spec(one_spec()),
        )
    }
}

/// The lines logged over a sequence of days.
pub open spec fn daily_logs<N: Number>(
    days: Seq<DayModel<N>>,
    config: MarketMakerConfig<N>,
    log_orders: bool,
) -> Seq<Seq<char>>
    decreases days.len(),
{
    if days.len() == 0 {
        Seq::empty()
    } else {
        daily_logs(days.drop_last(), config, log_orders) + closing_account(
            days.last().bars,
            compounded_value(days.drop_last(), config, log_orders),
            config,
            logger_of(log_orders, days.last().filename),
        ).log
    }
}

/// The outcome of simulating a configuration over a sequence of days.
pub open spec fn simulation<N: Number>(
    days: Seq<DayModel<N>>,
    config: MarketMakerConfig<N>,
    log_orders: bool,
) -> Result<ResultModel<N>, Seq<char>> {
    if days.len() > 0 && !lifetimes_fit(config) || days.len() > u32::MAX {
        Err(conversion_error_text())
    } else {
        Ok(
            ResultModel {
                final_value: compounded_value(days, config, log_orders),
                annualized_sharpe: annualized_sharpe(daily_returns(days, config, log_orders)),
                daily_returns: daily_returns(days, config, log_orders),
                log: daily_logs(days, config, log_orders),
            },
        )
    }
}

/// The model of a simulation's outcome.
pub open spec fn outcome_model<N>(
    outcome: Result<MarketMakerResult<N>, String>,
) -> Result<ResultModel<N>, Seq<char>> {
    match outcome {
        Ok(result) => Ok(result@),
        Err(message) => Err(message@),
    }
}

/// Whether every day holds at least one bar.
pub open spec fn days_have_bars<N>(days: Seq<Day<N>>) -> bool {
    forall|index: int| 0 <= index < days.len() ==> (#[trigger] days[index]).bars@.len() > 0
}

/// Simulate one market-maker configuration over each parsed trading day.
pub fn simulate_market_maker<N: Number>(
    days: &Vec<Day<N>>,
    config: MarketMakerConfig<N>,
    log_orders: bool,
) -> (result: Result<MarketMakerResult<N>, String>)
    requires
        days_have_bars(days@) || !lifetimes_fit(config),
    ensures
        outcome_model(result) == simulation(day_models(days@), config, log_orders),
{
    // Compound account value across days while retaining each daily return.
    let ghost models = day_models(days@);
    let mut final_value = config.initial_cash;
    let mut rates: Vec<N> = Vec::new();
    let mut log: Vec<String> = Vec::new();
    for index in 0..days.len()
        invariant
            models == day_models(days@),
            days_have_bars(days@) || !lifetimes_fit(config),
            index > 0 ==> lifetimes_fit(config),
            final_value == compounded_value(models.take(index as int), config, log_orders),
            rates@ == daily_returns(models.take(index as int), config, log_orders),
            rates@.len() == index,
            texts(log@) == daily_logs(models.take(index as int), config, log_orders),
    {
        assert(models.take(index + 1).drop_last() =~= models.take(index as int));
        assert(models[index as int] == days@[index as int]@);
        let day = &days[index];
        let initial_value = final_value;
        match simulate_market_maker_day(
            &day.bars,
            initial_value,
            config,
            &day.filename,
            log_orders,
        ) {
            Ok((value, lines)) => {
                final_value = value;
                rates.push(final_value.over(initial_value).minus(one()));
                let mut lines = lines;
                let ghost logged = log@;
                let ghost added = lines@;
                log.append(&mut lines);
                assert(texts(log@) =~= texts(logged) + texts(added));
            },
            Err(message) => {
                return Err(message);
            },
        }
    }
    assert(models.take(days.len() as int) =~= models);
    match annualized_sharpe_ratio(&rates) {
        Ok(annualized_sharpe) => {
            Ok(
                MarketMakerResult {
                    final_value,
                    annualized_sharpe,
                    daily_returns: rates,
                    log,
                },
            )
        },
        Err(message) => Err(message),
    }
}

} // verus!
