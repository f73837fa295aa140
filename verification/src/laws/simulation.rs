//! Laws that say in decimal arithmetic what a simulation does with cash and shares.
use crate::fixed::Fixed;
use crate::laws::amounts::{
    is_discounted, is_marked_up, lemma_buy_limit, lemma_constants, lemma_over, lemma_percent,
    lemma_sell_limit, lemma_times, lemma_whole_shares, limits_in_range, product_limit,
};
use crate::laws::solvency::{
    exact_cash, exact_shares, law_bars_keep_accounts_solvent,
    law_placing_orders_keeps_the_decimal_value, lemma_exact_reservations, solvent, sound_config,
    sound_orders,
};
use crate::market_maker::{
    account_value, after_bar, after_fills, buy_limit, closing_account, complement,
    compounded_value, daily_returns, day_value, expired, fill_buys, fill_sells, opening_account,
    unexpired, unfilled, without_expired, AccountModel, Bar, DayModel, Fills, LimitOrder,
    MarketMakerConfig,
};
use crate::number::{one_spec, zero_spec, Number};
use vstd::prelude::*;

verus! {

// Value

/// All cash of an account, reserved or not.
pub open spec fn all_cash(account: AccountModel<Fixed>) -> int {
    account.cash.units + exact_cash(account.buy_orders)
}

/// All shares of an account, reserved or not.
pub open spec fn all_shares(account: AccountModel<Fixed>) -> int {
    account.shares.units + exact_shares(account.sell_orders)
}

/// Whether an account at a price stays inside the range of decimal numbers.
pub open spec fn value_in_range(account: AccountModel<Fixed>, price: Fixed) -> bool {
    &&& solvent(account)
    &&& price.units >= 0
    &&& all_cash(account) <= 1_000_000_000_000_000_000
    &&& all_shares(account) <= 1_000_000_000_000_000_000
    &&& all_shares(account) * price.units <= 1_000_000_000_000_000_000_000_000
}

/// The value of an account is its cash and its shares at the price, reserved or not, rounded down
/// to a millionth.
pub proof fn law_accounts_are_marked_to_the_price(account: AccountModel<Fixed>, price: Fixed)
    requires
        value_in_range(account, price),
    ensures
        ({
            let value = account_value(account, price).units;
            &&& value >= 0
            &&& value * 1_000_000 <= all_cash(account) * 1_000_000 + all_shares(account)
                * price.units < value * 1_000_000 + 1_000_000
        }),
{
    lemma_exact_reservations(account.buy_orders);
    lemma_exact_reservations(account.sell_orders);
    let (shares, units) = (all_shares(account), price.units as int);
    let held = account.shares.plus_spec(
        crate::market_maker::reserved_shares(account.sell_orders),
    );
    assert(held.units == shares);
    assert(shares * units >= 0) by (nonlinear_arith)
        requires
            shares >= 0,
            units >= 0,
    ;
    lemma_times(held, price);
}

// Bets

/// Whether an account has no open order.
pub open spec fn idle(account: AccountModel<Fixed>) -> bool {
    account.buy_orders.len() == 0 && account.sell_orders.len() == 0
}

proof fn lemma_idle(
    account: AccountModel<Fixed>,
    bar: Bar<Fixed>,
    config: MarketMakerConfig<Fixed>,
    logger: Option<Seq<char>>,
)
    requires
        idle(account),
        !bar.liquidate,
    ensures
        after_bar(account, bar, config, logger) == crate::market_maker::with_sell_order(
            crate::market_maker::with_buy_order(account, bar, config),
            bar,
            config,
        ),
{
    reveal(Seq::filter);
    let (buy_ttl, sell_ttl) = (config.buy_ttl as i64, config.sell_ttl as i64);
    let alive = crate::market_maker::without_expired(account, bar.timestamp, buy_ttl, sell_ttl);
    assert(alive =~= account);
    let traded = crate::market_maker::after_fills(account, bar, config, logger);
    assert(traded =~= account);
}

/// A bar bets the configured share of an idle account. It buys whole shares at the discounted
/// close: the rest of the value stays in cash, and one share more would leave less than that, up
/// to rounding. What it spends is what the order costs.
pub proof fn law_buys_spend_the_bet(
    account: AccountModel<Fixed>,
    bar: Bar<Fixed>,
    config: MarketMakerConfig<Fixed>,
    logger: Option<Seq<char>>,
)
    requires
        idle(account),
        !bar.liquidate,
        value_in_range(account, bar.close),
        account_value(account, bar.close).units <= 1_000_000_000_000_000_000,
        limits_in_range(bar, config),
        bar.close.units >= 100,
        config.discount_percent.units <= 99_000_000,
        0 <= config.bet_size.units <= 100_000_000,
        account.cash.units <= 1_000_000_000_000,
    ensures
        ({
            let after = after_bar(account, bar, config, logger);
            let value = account_value(account, bar.close).units;
            let kept = value * (100_000_000 - config.bet_size.units);
            if after.buy_orders.len() == 0 {
                &&& after.cash == account.cash
                &&& exists|limit: Fixed| #[trigger]
                    is_discounted(limit, bar.close, config.discount_percent) && 100_000_000 * (
                    account.cash.units - limit.units) < kept + 100 * value
            } else {
                let order = after.buy_orders[0];
                let limit = order.price;
                &&& after.buy_orders.len() == 1
                &&& order.placed_timestamp == bar.timestamp
                &&& is_discounted(limit, bar.close, config.discount_percent)
                &&& order.remaining_shares.units % 1_000_000 == 0
                &&& order.remaining_shares.units >= 1_000_000
                &&& account.cash.units - after.cash.units == order.remaining_shares.units as int
                    / 1_000_000 * limit.units
                &&& 100_000_000 * after.cash.units > kept - 100_000_000
                &&& 100_000_000 * (after.cash.units - limit.units) < kept + 100 * value
            }
        }),
{
    lemma_constants();
    lemma_idle(account, bar, config, logger);
    lemma_buy_limit(bar, config);
    law_accounts_are_marked_to_the_price(account, bar.close);
    lemma_percent(config.bet_size);
    let limit = buy_limit(bar, config);
    let (l, close, discount) = (
        limit.units as int,
        bar.close.units as int,
        config.discount_percent.units as int,
    );
    assert(l > 0) by (nonlinear_arith)
        requires
            close * (100_000_000 - discount) - 100_000_000 * l < 100_000_000,
            close >= 100,
            0 <= discount <= 99_000_000,
    ;
    let value = account_value(account, bar.close);
    let (v, bet) = (value.units as int, config.bet_size.units as int);
    let hundredth = bet / 100;
    let share = complement(config.bet_size);
    assert(share.units == 1_000_000 - hundredth);
    assert(0 <= v * (1_000_000 - hundredth) <= v * 1_000_000) by (nonlinear_arith)
        requires
            v >= 0,
            0 <= hundredth <= 1_000_000,
    ;
    lemma_times(value, share);
    let floor = value.times_spec(share);
    let f = floor.units as int;
    let kept = v * (100_000_000 - bet);
    assert(kept - 100_000_000 < 100_000_000 * f <= kept + 99 * v) by (nonlinear_arith)
        requires
            kept == v * (100_000_000 - bet),
            0 <= bet - 100 * hundredth < 100,
            f * 1_000_000 <= v * (1_000_000 - hundredth) < f * 1_000_000 + 1_000_000,
            v >= 0,
    ;
    let usable = account.cash.minus_spec(floor).maximum_spec(zero_spec());
    assert(0 <= f <= v);
    assert(usable.units >= 0 && usable.units <= account.cash.units);
    lemma_whole_shares(usable, limit);
    let shares = usable.over_spec(limit).floor_spec();
    let n = shares.units as int / 1_000_000;
    assert(shares.units == n * 1_000_000);
    let cost = n * l;
    assert(shares.units * l == cost * 1_000_000) by (nonlinear_arith)
        requires
            shares.units == n * 1_000_000,
            cost == n * l,
    ;
    lemma_times(shares, limit);
    assert(shares.times_spec(limit).units == cost);
    assert((n + 1) * l == cost + l) by (nonlinear_arith)
        requires
            cost == n * l,
    ;
    assert(shares == crate::market_maker::buy_shares(account, bar, config));
    if n == 0 {
        assert(cost == 0);
        assert(is_discounted(limit, bar.close, config.discount_percent));
    }
}

/// A bar offers all shares of an idle account in one order, at its close marked up by the
/// configured percentage. One without shares offers none.
pub proof fn law_sells_offer_all_shares(
    account: AccountModel<Fixed>,
    bar: Bar<Fixed>,
    config: MarketMakerConfig<Fixed>,
    logger: Option<Seq<char>>,
)
    requires
        idle(account),
        !bar.liquidate,
        limits_in_range(bar, config),
    ensures
        ({
            let after = after_bar(account, bar, config, logger);
            if account.shares.units > 0 {
                &&& after.shares.units == 0
                &&& after.sell_orders.len() == 1
                &&& after.sell_orders[0].remaining_shares == account.shares
                &&& after.sell_orders[0].placed_timestamp == bar.timestamp
                &&& is_marked_up(after.sell_orders[0].price, bar.close, config.markup_percent)
            } else {
                after.shares == account.shares && after.sell_orders.len() == 0
            }
        }),
{
    lemma_constants();
    lemma_idle(account, bar, config, logger);
    lemma_sell_limit(bar, config);
}

// Fills

/// What orders have been filled by, times their prices, between two states of the same orders.
pub open spec fn exact_proceeds(
    before: Seq<LimitOrder<Fixed>>,
    after: Seq<LimitOrder<Fixed>>,
) -> int
    decreases before.len(),
{
    if before.len() == 0 {
        0
    } else {
        exact_proceeds(before.drop_last(), after.drop_last()) + (
        before.last().remaining_shares.units - after.last().remaining_shares.units)
            * before.last().price.units
    }
}

/// What orders have been filled by between two states of the same orders.
pub open spec fn exact_fills(
    before: Seq<LimitOrder<Fixed>>,
    after: Seq<LimitOrder<Fixed>>,
) -> int
    decreases before.len(),
{
    if before.len() == 0 {
        0
    } else {
        exact_fills(before.drop_last(), after.drop_last())
            + before.last().remaining_shares.units - after.last().remaining_shares.units
    }
}

/// Whether an order keeps its terms, and is filled only if a bar reaches it. A reached order
/// stays open only if the volume of the bar is used up.
pub open spec fn is_filled(
    before: LimitOrder<Fixed>,
    after: LimitOrder<Fixed>,
    reached: bool,
    volume: Fixed,
) -> bool {
    &&& after.price == before.price
    &&& after.placed_timestamp == before.placed_timestamp
    &&& 0 <= after.remaining_shares.units <= before.remaining_shares.units
    &&& !reached ==> after.remaining_shares == before.remaining_shares
    &&& reached && after.remaining_shares.units > 0 ==> volume.units == 0
}

/// Buys fill at a bar's low and pay in shares: every reached order is filled as far as the bar's
/// volume goes, the shares gained are the shares filled, and the volume lost is too.
pub proof fn law_buys_fill_at_the_low(
    start: Fills<Fixed>,
    orders: Seq<LimitOrder<Fixed>>,
    bar: Bar<Fixed>,
    logger: Option<Seq<char>>,
    index: int,
)
    requires
        start.orders.len() == 0,
        sound_orders(orders),
        0 <= start.volume.units <= 1_000_000_000_000_000_000,
        0 <= start.proceeds.units <= 1_000_000_000_000_000_000,
    ensures
        ({
            let end = fill_buys(start, orders, bar, logger);
            &&& end.orders.len() == orders.len()
            &&& 0 <= end.volume.units <= start.volume.units
            &&& start.volume.units - end.volume.units == exact_fills(orders, end.orders)
            &&& end.proceeds.units - start.proceeds.units == exact_fills(orders, end.orders)
            &&& 0 <= index < orders.len() ==> is_filled(
                orders[index],
                end.orders[index],
                bar.low.units <= orders[index].price.units,
                end.volume,
            )
        }),
    decreases orders.len(),
{
    lemma_constants();
    if orders.len() > 0 {
        let rest = orders.drop_last();
        crate::laws::solvency::lemma_sound_rest(orders);
        law_buys_fill_at_the_low(start, rest, bar, logger, index);
        let before = fill_buys(start, rest, bar, logger);
        let end = fill_buys(start, orders, bar, logger);
        assert(end.orders.drop_last() =~= before.orders);
        if 0 <= index < rest.len() {
            assert(end.orders[index] == before.orders[index]);
            assert(orders[index] == rest[index]);
        }
    }
}

/// Sells fill at a bar's high and pay in cash at their own prices: every reached order is filled
/// as far as the bar's volume goes, the volume lost is the shares filled, and the cash gained is
/// their price, up to a millionth for each order.
pub proof fn law_sells_fill_at_the_high(
    start: Fills<Fixed>,
    orders: Seq<LimitOrder<Fixed>>,
    bar: Bar<Fixed>,
    logger: Option<Seq<char>>,
    index: int,
)
    requires
        start.orders.len() == 0,
        sound_orders(orders),
        0 <= start.volume.units <= 1_000_000_000_000_000_000,
        0 <= start.proceeds.units,
        start.proceeds.units * 1_000_000 + exact_worth(orders) <= product_limit(),
    ensures
        ({
            let end = fill_sells(start, orders, bar, logger);
            let gain = end.proceeds.units - start.proceeds.units;
            &&& end.orders.len() == orders.len()
            &&& 0 <= end.volume.units <= start.volume.units
            &&& start.volume.units - end.volume.units == exact_fills(orders, end.orders)
            &&& gain >= 0
            &&& gain * 1_000_000 <= exact_proceeds(orders, end.orders) <= (gain + orders.len())
                * 1_000_000
            &&& exact_proceeds(orders, end.orders) <= exact_worth(orders)
            &&& 0 <= index < orders.len() ==> is_filled(
                orders[index],
                end.orders[index],
                orders[index].price.units <= bar.high.units,
                end.volume,
            )
        }),
    decreases orders.len(),
{
    lemma_constants();
    if orders.len() > 0 {
        let rest = orders.drop_last();
        let order = orders.last();
        crate::laws::solvency::lemma_sound_rest(orders);
        let (size, price) = (order.remaining_shares.units as int, order.price.units as int);
        assert(size * price >= 0) by (nonlinear_arith)
            requires
                size >= 0,
                price >= 0,
        ;
        law_sells_fill_at_the_high(start, rest, bar, logger, index);
        let before = fill_sells(start, rest, bar, logger);
        let end = fill_sells(start, orders, bar, logger);
        assert(end.orders.drop_last() =~= before.orders);
        if 0 <= index < rest.len() {
            assert(end.orders[index] == before.orders[index]);
            assert(orders[index] == rest[index]);
        }
        let filled = size - end.orders.last().remaining_shares.units;
        assert(0 <= filled * price <= size * price) by (nonlinear_arith)
            requires
                0 <= filled <= size,
                price >= 0,
        ;
        if before.volume.units > 0 && price <= bar.high.units {
            let part = crate::market_maker::filled_part(order, before.volume);
            assert(part.units == filled);
            lemma_times(part, order.price);
        } else {
            assert(filled * price == 0) by (nonlinear_arith)
                requires
                    filled == 0,
            ;
        }
    }
}

/// What orders would fetch if they were filled whole, in millionths of a millionth.
pub open spec fn exact_worth(orders: Seq<LimitOrder<Fixed>>) -> int
    decreases orders.len(),
{
    if orders.len() == 0 {
        0
    } else {
        exact_worth(orders.drop_last()) + orders.last().remaining_shares.units
            * orders.last().price.units
    }
}

proof fn lemma_unfilled(orders: Seq<LimitOrder<Fixed>>)
    requires
        forall|index: int|
            0 <= index < orders.len() ==> 0 <= #[trigger] orders[index].remaining_shares.units,
    ensures
        exact_shares(unfilled(orders)) == exact_shares(orders),
        exact_worth(unfilled(orders)) == exact_worth(orders),
        forall|index: int|
            0 <= index < unfilled(orders).len() ==> orders.contains(
                #[trigger] unfilled(orders)[index],
            ) && unfilled(orders)[index].remaining_shares.units > 0,
    decreases orders.len(),
{
    lemma_constants();
    reveal(Seq::filter);
    if orders.len() > 0 {
        let rest = orders.drop_last();
        let last = orders.last();
        assert forall|index: int| 0 <= index < rest.len() implies 0
            <= #[trigger] rest[index].remaining_shares.units by {
            assert(rest[index] == orders[index]);
        }
        lemma_unfilled(rest);
        assert(orders[orders.len() - 1].remaining_shares.units >= 0);
        assert(last.remaining_shares.units == 0 ==> last.remaining_shares.units * last.price.units
            == 0) by (nonlinear_arith);
        let kept = unfilled(orders);
        if last.remaining_shares.units > 0 {
            assert(kept =~= unfilled(rest).push(last));
            assert(kept.drop_last() =~= unfilled(rest));
        } else {
            assert(kept =~= unfilled(rest));
        }
        assert forall|index: int| 0 <= index < kept.len() implies orders.contains(
            #[trigger] kept[index],
        ) && kept[index].remaining_shares.units > 0 by {
            if index < unfilled(rest).len() {
                assert(kept[index] == unfilled(rest)[index]);
                let place = choose|place: int|
                    0 <= place < rest.len() && rest[place] == kept[index];
                assert(orders[place] == kept[index]);
            } else {
                assert(orders[orders.len() - 1] == kept[index]);
            }
        }
    }
}

proof fn lemma_fill_sums(before: Seq<LimitOrder<Fixed>>, after: Seq<LimitOrder<Fixed>>)
    requires
        before.len() == after.len(),
        forall|index: int|
            0 <= index < before.len() ==> #[trigger] after[index].price == before[index].price,
    ensures
        exact_fills(before, after) == exact_shares(before) - exact_shares(after),
        exact_proceeds(before, after) == exact_worth(before) - exact_worth(after),
    decreases before.len(),
{
    if before.len() > 0 {
        let (first, second) = (before.drop_last(), after.drop_last());
        assert forall|index: int| 0 <= index < first.len() implies #[trigger] second[index].price
            == first[index].price by {
            assert(after[index].price == before[index].price);
        }
        lemma_fill_sums(first, second);
        assert(after[before.len() - 1].price == before[before.len() - 1].price);
        let (old_shares, new_shares, price) = (
            before.last().remaining_shares.units as int,
            after.last().remaining_shares.units as int,
            before.last().price.units as int,
        );
        assert((old_shares - new_shares) * price == old_shares * price - new_shares * price)
            by (nonlinear_arith);
    }
}

/// One bar's volume fills its orders: the shares bought arrive, the shares sold are paid for at the
/// prices of their orders up to a millionth for each order, and both together are no more than the
/// volume limit. While some of it is left, no order that the bar reaches stays open.
pub proof fn law_bars_fill_within_their_volume(
    account: AccountModel<Fixed>,
    bar: Bar<Fixed>,
    config: MarketMakerConfig<Fixed>,
    logger: Option<Seq<char>>,
)
    requires
        solvent(account),
        0 <= config.bar_volume_limit.units <= 1_000_000_000_000_000_000,
        account.shares.units <= 1_000_000_000_000_000_000,
        account.cash.units * 1_000_000 + exact_worth(account.sell_orders) <= product_limit(),
    ensures
        ({
            let after = after_fills(account, bar, config, logger);
            let bought = exact_shares(account.buy_orders) - exact_shares(after.buy_orders);
            let sold = exact_shares(account.sell_orders) - exact_shares(after.sell_orders);
            let worth = exact_worth(account.sell_orders) - exact_worth(after.sell_orders);
            let gain = after.cash.units - account.cash.units;
            &&& after.shares.units - account.shares.units == bought
            &&& gain * 1_000_000 <= worth <= (gain + account.sell_orders.len()) * 1_000_000
            &&& 0 <= bought
            &&& 0 <= sold
            &&& bought + sold <= config.bar_volume_limit.units
            &&& bought + sold < config.bar_volume_limit.units ==> {
                &&& forall|index: int|
                    0 <= index < after.buy_orders.len() ==> bar.low.units > (
                    #[trigger] after.buy_orders[index]).price.units
                &&& forall|index: int|
                    0 <= index < after.sell_orders.len() ==> (
                    #[trigger] after.sell_orders[index]).price.units > bar.high.units
            }
        }),
{
    let buy_start = Fills {
        orders: Seq::empty(),
        proceeds: account.shares,
        volume: config.bar_volume_limit,
        log: account.log,
    };
    let buys = fill_buys(buy_start, account.buy_orders, bar, logger);
    law_buys_fill_at_the_low(buy_start, account.buy_orders, bar, logger, 0);
    assert forall|index: int| 0 <= index < account.buy_orders.len() implies is_filled(
        account.buy_orders[index],
        #[trigger] buys.orders[index],
        bar.low.units <= account.buy_orders[index].price.units,
        buys.volume,
    ) by {
        law_buys_fill_at_the_low(buy_start, account.buy_orders, bar, logger, index);
    }
    lemma_fill_sums(account.buy_orders, buys.orders);
    lemma_unfilled(buys.orders);
    let sell_start = Fills {
        orders: Seq::empty(),
        proceeds: account.cash,
        volume: buys.volume,
        log: buys.log,
    };
    let sells = fill_sells(sell_start, account.sell_orders, bar, logger);
    law_sells_fill_at_the_high(sell_start, account.sell_orders, bar, logger, 0);
    assert forall|index: int| 0 <= index < account.sell_orders.len() implies is_filled(
        account.sell_orders[index],
        #[trigger] sells.orders[index],
        account.sell_orders[index].price.units <= bar.high.units,
        sells.volume,
    ) by {
        law_sells_fill_at_the_high(sell_start, account.sell_orders, bar, logger, index);
    }
    lemma_fill_sums(account.sell_orders, sells.orders);
    lemma_unfilled(sells.orders);
    let after = after_fills(account, bar, config, logger);
    assert(after.buy_orders == unfilled(buys.orders));
    assert(after.sell_orders == unfilled(sells.orders));
    if sells.volume.units > 0 {
        assert forall|index: int| 0 <= index < after.buy_orders.len() implies bar.low.units > (
        #[trigger] after.buy_orders[index]).price.units by {
            assert(buys.orders.contains(unfilled(buys.orders)[index]));
        }
        assert forall|index: int| 0 <= index < after.sell_orders.len() implies (
        #[trigger] after.sell_orders[index]).price.units > bar.high.units by {
            assert(sells.orders.contains(unfilled(sells.orders)[index]));
        }
    }
}

// Expiry

/// After a bar outside liquidation, no open order is older than its lifetime in seconds, and every
/// order that was not older before is kept or filled.
pub proof fn law_orders_expire_after_their_lifetime<N: Number>(
    account: AccountModel<N>,
    bar: Bar<N>,
    config: MarketMakerConfig<N>,
    logger: Option<Seq<char>>,
    index: int,
)
    requires
        !bar.liquidate,
        config.buy_ttl < i64::MAX,
        config.sell_ttl < i64::MAX,
    ensures
        ({
            let after = after_bar(account, bar, config, logger);
            let (buys, sells) = (after.buy_orders, after.sell_orders);
            &&& 0 <= index < buys.len() ==> bar.timestamp - buys[index].placed_timestamp
                <= config.buy_ttl
            &&& 0 <= index < sells.len() ==> bar.timestamp - sells[index].placed_timestamp
                <= config.sell_ttl
        }),
        ({
            let (buy_ttl, sell_ttl) = (config.buy_ttl as i64, config.sell_ttl as i64);
            let alive = without_expired(account, bar.timestamp, buy_ttl, sell_ttl);
            let (buys, sells) = (account.buy_orders, account.sell_orders);
            &&& 0 <= index < buys.len() && bar.timestamp - buys[index].placed_timestamp <= buy_ttl
                ==> alive.buy_orders.contains(buys[index])
            &&& 0 <= index < sells.len() && bar.timestamp - sells[index].placed_timestamp
                <= sell_ttl ==> alive.sell_orders.contains(sells[index])
        }),
{
    let (buy_ttl, sell_ttl) = (config.buy_ttl as i64, config.sell_ttl as i64);
    crate::laws::backtest::law_no_order_outlives_its_lifetime(account, bar, config, logger);
    let after = after_bar(account, bar, config, logger);
    if 0 <= index < after.buy_orders.len() {
        assert(!expired(after.buy_orders[index], bar.timestamp, buy_ttl));
    }
    if 0 <= index < after.sell_orders.len() {
        assert(!expired(after.sell_orders[index], bar.timestamp, sell_ttl));
    }
    lemma_kept(account.buy_orders, bar.timestamp, buy_ttl, index);
    lemma_kept(account.sell_orders, bar.timestamp, sell_ttl, index);
}

proof fn lemma_kept<N>(orders: Seq<LimitOrder<N>>, timestamp: i64, ttl: i64, index: int)
    ensures
        0 <= index < orders.len() && timestamp - orders[index].placed_timestamp <= ttl
            ==> unexpired(orders, timestamp, ttl).contains(orders[index]),
{
    let keeps = |order: LimitOrder<N>| !expired(order, timestamp, ttl);
    if 0 <= index < orders.len() && timestamp - orders[index].placed_timestamp <= ttl {
        assert(keeps(orders[index]));
        orders.lemma_filter_contains(keeps, index);
    }
}

// Liquidation

/// A bar inside the liquidation window sells as many shares as its volume takes, those of
/// cancelled orders included, at its close. All reserved cash is cash again.
pub proof fn law_liquidation_sells_at_the_close(
    account: AccountModel<Fixed>,
    bar: Bar<Fixed>,
    config: MarketMakerConfig<Fixed>,
    logger: Option<Seq<char>>,
)
    requires
        bar.liquidate,
        value_in_range(account, bar.close),
        config.bar_volume_limit.units > 0,
    ensures
        ({
            let after = after_bar(account, bar, config, logger);
            let sold = all_shares(account) - after.shares.units;
            &&& idle(after)
            &&& sold == if all_shares(account) <= config.bar_volume_limit.units {
                all_shares(account)
            } else {
                config.bar_volume_limit.units as int
            }
            &&& after.cash.units * 1_000_000 <= all_cash(account) * 1_000_000 + sold
                * bar.close.units < after.cash.units * 1_000_000 + 1_000_000
        }),
{
    lemma_exact_reservations(account.buy_orders);
    lemma_exact_reservations(account.sell_orders);
    let (shares, close) = (all_shares(account), bar.close.units as int);
    let held = account.shares.plus_spec(
        crate::market_maker::reserved_shares(account.sell_orders),
    );
    assert(held.units == shares);
    let sold = held.minimum_spec(config.bar_volume_limit);
    assert(0 <= sold.units * close <= shares * close) by (nonlinear_arith)
        requires
            0 <= sold.units <= shares,
            close >= 0,
    ;
    lemma_times(sold, bar.close);
}

// Days

proof fn lemma_opening_bar(
    bar: Bar<Fixed>,
    initial_value: Fixed,
    config: MarketMakerConfig<Fixed>,
    logger: Option<Seq<char>>,
)
    requires
        0 <= initial_value.units,
        sound_config(config),
        0 <= bar.close.units,
    ensures
        ({
            let after = after_bar(opening_account(initial_value), bar, config, logger);
            &&& solvent(after)
            &&& all_cash(after) == initial_value.units
            &&& all_shares(after) == 0
        }),
{
    lemma_constants();
    let opening = opening_account(initial_value);
    let after = after_bar(opening, bar, config, logger);
    law_bars_keep_accounts_solvent(opening, bar, config, logger);
    lemma_exact_reservations(after.buy_orders);
    lemma_exact_reservations(after.sell_orders);
    if bar.liquidate {
        lemma_exact_reservations(opening.buy_orders);
        lemma_exact_reservations(opening.sell_orders);
        let none = Fixed { units: 0 };
        assert(none.times_spec(bar.close) == none);
    } else {
        lemma_idle(opening, bar, config, logger);
        let bought = crate::market_maker::with_buy_order(opening, bar, config);
        let none = Fixed { units: 0 };
        law_placing_orders_keeps_the_decimal_value(opening, bar, config, none);
        assert(after == bought);
        assert(all_shares(after) == 0);
        assert(none.times_spec(none) == none);
        assert(account_value(opening, none) == initial_value);
        let reserved = crate::market_maker::reserved_cash(after.buy_orders);
        assert(account_value(after, none) == after.cash.plus_spec(reserved).plus_spec(none));
        lemma_opening_buy(opening, bar, config);
    }
}

/// The order that an opening account places costs what the account spends.
proof fn lemma_opening_buy(
    account: AccountModel<Fixed>,
    bar: Bar<Fixed>,
    config: MarketMakerConfig<Fixed>,
)
    requires
        idle(account),
    ensures
        ({
            let after = crate::market_maker::with_buy_order(account, bar, config);
            let shares = crate::market_maker::buy_shares(account, bar, config);
            exact_cash(after.buy_orders) == if one_spec::<Fixed>().at_most_spec(shares) {
                shares.times_spec(buy_limit(bar, config)).units as int
            } else {
                0
            }
        }),
{
    let after = crate::market_maker::with_buy_order(account, bar, config);
    reveal_with_fuel(exact_cash, 2);
    if after.buy_orders.len() > 0 {
        assert(after.buy_orders.drop_last() =~= account.buy_orders);
    }
}

/// A day starts with nothing but its initial value in cash. If no bar but the first is outside
/// liquidation, no order is ever filled, and the day ends with the value that it started with.
pub proof fn law_untraded_days_keep_their_value(
    bars: Seq<Bar<Fixed>>,
    initial_value: Fixed,
    config: MarketMakerConfig<Fixed>,
    logger: Option<Seq<char>>,
)
    requires
        bars.len() > 0,
        0 <= initial_value.units <= 1_000_000_000_000_000_000,
        sound_config(config),
        forall|index: int| 0 <= index < bars.len() ==> (#[trigger] bars[index]).close.units >= 0,
        forall|index: int| 0 < index < bars.len() ==> (#[trigger] bars[index]).liquidate,
    ensures
        day_value(bars, initial_value, config, logger) == initial_value,
{
    lemma_untraded(bars, initial_value, config, logger);
    let after = closing_account(bars, initial_value, config, logger);
    assert(bars[bars.len() - 1].close.units >= 0);
    assert(0 * bars.last().close.units == 0);
    law_accounts_are_marked_to_the_price(after, bars.last().close);
}

proof fn lemma_untraded(
    bars: Seq<Bar<Fixed>>,
    initial_value: Fixed,
    config: MarketMakerConfig<Fixed>,
    logger: Option<Seq<char>>,
)
    requires
        bars.len() > 0,
        0 <= initial_value.units <= 1_000_000_000_000_000_000,
        sound_config(config),
        forall|index: int| 0 <= index < bars.len() ==> (#[trigger] bars[index]).close.units >= 0,
        forall|index: int| 0 < index < bars.len() ==> (#[trigger] bars[index]).liquidate,
    ensures
        ({
            let after = closing_account(bars, initial_value, config, logger);
            &&& solvent(after)
            &&& all_cash(after) == initial_value.units
            &&& all_shares(after) == 0
        }),
    decreases bars.len(),
{
    let last = bars[bars.len() - 1];
    assert(last.close.units >= 0);
    let rest = bars.drop_last();
    if rest.len() == 0 {
        assert(closing_account(rest, initial_value, config, logger) == opening_account(
            initial_value,
        ));
        lemma_opening_bar(last, initial_value, config, logger);
    } else {
        assert forall|index: int| 0 <= index < rest.len() implies (
        #[trigger] rest[index]).close.units >= 0 && (index > 0 ==> rest[index].liquidate) by {
            assert(rest[index] == bars[index]);
        }
        lemma_untraded(rest, initial_value, config, logger);
        let before = closing_account(rest, initial_value, config, logger);
        assert(0 * last.close.units == 0);
        law_liquidation_sells_at_the_close(before, last, config, logger);
        law_bars_keep_accounts_solvent(before, last, config, logger);
    }
}

/// The return of a day is what its end value is of its start value, less one, rounded down to a
/// millionth.
pub proof fn law_returns_are_relative(
    days: Seq<DayModel<Fixed>>,
    config: MarketMakerConfig<Fixed>,
    log_orders: bool,
    index: int,
)
    requires
        0 <= index < days.len(),
        ({
            let start = compounded_value(days.take(index), config, log_orders).units;
            let end = compounded_value(days.take(index + 1), config, log_orders).units;
            &&& start > 0
            &&& 0 <= end
            &&& end * 1_000_000 <= 1_000_000_000_000_000_000 * start
        }),
    ensures
        ({
            let start = compounded_value(days.take(index), config, log_orders).units;
            let end = compounded_value(days.take(index + 1), config, log_orders).units;
            let rate = daily_returns(days, config, log_orders)[index].units;
            (rate + 1_000_000) * start <= end * 1_000_000 < (rate + 1_000_000) * start + start
        }),
    decreases days.len(),
{
    lemma_constants();
    crate::laws::backtest::law_one_return_per_day(days, config, log_orders);
    crate::laws::backtest::law_one_return_per_day(days.drop_last(), config, log_orders);
    if index < days.len() - 1 {
        assert(days.drop_last().take(index) =~= days.take(index));
        assert(days.drop_last().take(index + 1) =~= days.take(index + 1));
        law_returns_are_relative(days.drop_last(), config, log_orders, index);
    } else {
        assert(days.take(index) =~= days.drop_last());
        assert(days.take(index + 1) =~= days);
        let start = compounded_value(days.drop_last(), config, log_orders);
        let end = compounded_value(days, config, log_orders);
        lemma_over(end, start);
        let quotient = end.over_spec(start).units as int;
        assert(-1 <= quotient <= 1_000_000_000_000_000_001) by (nonlinear_arith)
            requires
                start.units > 0,
                end.units >= 0,
                quotient * start.units <= end.units * 1_000_000 < quotient * start.units
                    + start.units,
                end.units * 1_000_000 <= 1_000_000_000_000_000_000 * start.units,
        ;
    }
}

} // verus!
