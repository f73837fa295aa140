//! Laws that hold in decimal arithmetic: nothing is spent or sold that is not there.
use crate::control::{buy_request, sell_request, sellable_shares};
use crate::fixed::Fixed;
use crate::market_maker::{
    account_value, after_bar, after_bars, after_fills, complement, fill_buys, fill_sells, outlived,
    refunded, released, reserved_cash, reserved_shares, unexpired, unfilled, with_buy_order,
    with_sell_order, without_expired, AccountModel, Bar, Fills, LimitOrder, MarketMakerConfig,
};
use crate::number::{hundred_spec, one_spec, total, zero_spec, Number};
use crate::run::VolatileModel;
use vstd::prelude::*;

verus! {

proof fn lemma_constants()
    ensures
        zero_spec::<Fixed>().units == 0,
        one_spec::<Fixed>().units == 1_000_000,
        hundred_spec::<Fixed>().units == 100_000_000,
{
    lemma_whole(0);
    lemma_whole(1);
    lemma_whole(100);
}

proof fn lemma_whole(value: int)
    requires
        0 <= value <= 1_000,
    ensures
        Fixed::ratio_spec(value, 1).units == value * 1_000_000,
{
    let denominator: int = 1;
    assert((2 * value * 1_000_000 + denominator) / (2 * denominator) == value * 1_000_000)
        by (nonlinear_arith)
        requires
            0 <= value <= 1_000,
            denominator == 1,
    ;
}

proof fn lemma_product(left: Fixed, right: Fixed)
    requires
        left.units >= 0,
        right.units >= 0,
    ensures
        left.times_spec(right).units >= 0,
{
    assert(left.units * right.units / 1_000_000 >= 0) by (nonlinear_arith)
        requires
            left.units >= 0,
            right.units >= 0,
    ;
}

/// The whole number of shares that an amount buys costs no more than the amount.
proof fn lemma_cost(amount: Fixed, price: Fixed)
    requires
        amount.units >= 0,
        price.units >= 0,
    ensures
        amount.over_spec(price).floor_spec().units >= 0,
        0 <= amount.over_spec(price).floor_spec().times_spec(price).units <= amount.units,
{
    let shares = amount.over_spec(price).floor_spec();
    if price.units > 0 {
        let (cash, cost): (int, int) = (amount.units as int, price.units as int);
        let exact = cash * 1_000_000 / cost;
        assert(exact >= 0 && exact * cost <= cash * 1_000_000) by (nonlinear_arith)
            requires
                cash >= 0,
                cost > 0,
                exact == cash * 1_000_000 / cost,
        ;
        assert(0 <= shares.units <= exact);
        let units = shares.units as int;
        assert(0 <= units * cost / 1_000_000 <= cash) by (nonlinear_arith)
            requires
                0 <= units <= exact,
                exact * cost <= cash * 1_000_000,
                cost > 0,
                cash >= 0,
        ;
    } else {
        assert(shares.units >= 0);
        assert(shares.units * 0 == 0);
    }
}

proof fn lemma_sum(values: Seq<Fixed>)
    requires
        forall|index: int| 0 <= index < values.len() ==> (#[trigger] values[index]).units >= 0,
    ensures
        total(values).units >= 0,
    decreases values.len(),
{
    if values.len() > 0 {
        assert forall|index: int| 0 <= index < values.drop_last().len() implies (
        #[trigger] values.drop_last()[index]).units >= 0 by {
            assert(values[index].units >= 0);
        }
        lemma_sum(values.drop_last());
        assert(values[values.len() - 1].units >= 0);
    }
}

// Live orders

/// A buy order never costs more than the buying power.
pub proof fn law_buys_fit_the_buying_power(power: Fixed, limit: Fixed)
    requires
        power.units >= 0,
    ensures
        buy_request(Some(power), Some(limit)) matches Some(request)
            ==> request.shares.times_spec(request.limit).units <= power.units,
{
    lemma_constants();
    if limit.units > 0 {
        lemma_cost(power, limit);
    }
}

/// A sell order never offers more shares than are held beyond those already offered.
pub proof fn law_sells_fit_the_position(
    state: VolatileModel<Fixed>,
    ids: Seq<i32>,
    symbol: Seq<char>,
    limit: Fixed,
)
    ensures
        sell_request(Some(limit), sellable_shares(state, ids, symbol)) matches Some(request) ==> {
            let reserved = total(crate::control::sell_shares(ids, state.open_orders, symbol));
            state.position_shares matches Some(held) && request.shares.units <= held.minus_spec(
                reserved,
            ).units
        },
{
    lemma_constants();
}

// Simulated accounts

/// Whether an order has shares to fill and a price that is not negative.
pub open spec fn sound_order(order: LimitOrder<Fixed>) -> bool {
    order.remaining_shares.units > 0 && order.price.units >= 0
}

/// Whether all orders are sound.
pub open spec fn sound_orders(orders: Seq<LimitOrder<Fixed>>) -> bool {
    forall|index: int| 0 <= index < orders.len() ==> sound_order(#[trigger] orders[index])
}

/// Whether an account owes neither cash nor shares, and its orders are sound.
pub open spec fn solvent(account: AccountModel<Fixed>) -> bool {
    &&& account.cash.units >= 0
    &&& account.shares.units >= 0
    &&& sound_orders(account.buy_orders)
    &&& sound_orders(account.sell_orders)
}

/// Whether a configuration is within the ranges that its parsers accept.
pub open spec fn sound_config(config: MarketMakerConfig<Fixed>) -> bool {
    &&& config.bar_volume_limit.units > 0
    &&& 0 <= config.discount_percent.units <= 100_000_000
    &&& config.markup_percent.units >= 0
    &&& 0 <= config.bet_size.units <= 100_000_000
}

proof fn lemma_reserved(orders: Seq<LimitOrder<Fixed>>)
    requires
        sound_orders(orders),
    ensures
        reserved_cash(orders).units >= 0,
        reserved_shares(orders).units >= 0,
{
    let cash = |order: LimitOrder<Fixed>| order.remaining_shares.times_spec(order.price);
    let shares = |order: LimitOrder<Fixed>| order.remaining_shares;
    assert forall|index: int| 0 <= index < orders.len() implies (
    #[trigger] orders.map_values(cash)[index]).units >= 0 by {
        assert(sound_order(orders[index]));
        lemma_product(orders[index].remaining_shares, orders[index].price);
    }
    assert forall|index: int| 0 <= index < orders.len() implies (
    #[trigger] orders.map_values(shares)[index]).units >= 0 by {
        assert(sound_order(orders[index]));
    }
    lemma_sum(orders.map_values(cash));
    lemma_sum(orders.map_values(shares));
}

proof fn lemma_returned(start: Fixed, orders: Seq<LimitOrder<Fixed>>)
    requires
        start.units >= 0,
        sound_orders(orders),
    ensures
        refunded(start, orders).units >= 0,
        released(start, orders).units >= 0,
    decreases orders.len(),
{
    if orders.len() > 0 {
        let rest = orders.drop_last();
        assert forall|index: int| 0 <= index < rest.len() implies sound_order(
            #[trigger] rest[index],
        ) by {
            assert(sound_order(orders[index]));
        }
        lemma_returned(start, rest);
        assert(sound_order(orders[orders.len() - 1]));
        lemma_product(orders.last().remaining_shares, orders.last().price);
    }
}

proof fn lemma_kept_orders(
    orders: Seq<LimitOrder<Fixed>>,
    keeps: spec_fn(LimitOrder<Fixed>) -> bool,
)
    requires
        sound_orders(orders),
    ensures
        sound_orders(orders.filter(keeps)),
{
    let kept = orders.filter(keeps);
    assert forall|index: int| 0 <= index < kept.len() implies sound_order(
        #[trigger] kept[index],
    ) by {
        assert(kept.contains(kept[index]));
        orders.lemma_filter_contains_rev(keeps, kept[index]);
        let place = choose|place: int|
            0 <= place < orders.len() && orders[place] == kept[index];
        assert(sound_order(orders[place]));
    }
}

/// Whether fills so far owe nothing.
spec fn covered(state: Fills<Fixed>) -> bool {
    &&& state.proceeds.units >= 0
    &&& state.volume.units >= 0
    &&& forall|index: int|
        0 <= index < state.orders.len() ==> {
            let order = #[trigger] state.orders[index];
            order.remaining_shares.units >= 0 && order.price.units >= 0
        }
}

proof fn lemma_fills_cover(
    start: Fills<Fixed>,
    orders: Seq<LimitOrder<Fixed>>,
    bar: Bar<Fixed>,
    logger: Option<Seq<char>>,
)
    requires
        covered(start),
        sound_orders(orders),
    ensures
        covered(fill_buys(start, orders, bar, logger)),
        covered(fill_sells(start, orders, bar, logger)),
    decreases orders.len(),
{
    lemma_constants();
    if orders.len() > 0 {
        let rest = orders.drop_last();
        assert forall|index: int| 0 <= index < rest.len() implies sound_order(
            #[trigger] rest[index],
        ) by {
            assert(sound_order(orders[index]));
        }
        lemma_fills_cover(start, rest, bar, logger);
        let order = orders.last();
        assert(sound_order(orders[orders.len() - 1]));
        let buys = fill_buys(start, rest, bar, logger);
        let sells = fill_sells(start, rest, bar, logger);
        lemma_product(order.remaining_shares.minimum_spec(sells.volume), order.price);
        let bought = fill_buys(start, orders, bar, logger);
        let sold = fill_sells(start, orders, bar, logger);
        assert forall|index: int| 0 <= index < bought.orders.len() implies {
            let item = #[trigger] bought.orders[index];
            item.remaining_shares.units >= 0 && item.price.units >= 0
        } by {
            if index < buys.orders.len() {
                assert(bought.orders[index] == buys.orders[index]);
            }
        }
        assert forall|index: int| 0 <= index < sold.orders.len() implies {
            let item = #[trigger] sold.orders[index];
            item.remaining_shares.units >= 0 && item.price.units >= 0
        } by {
            if index < sells.orders.len() {
                assert(sold.orders[index] == sells.orders[index]);
            }
        }
    }
}

proof fn lemma_unfilled_orders(state: Fills<Fixed>)
    requires
        covered(state),
    ensures
        sound_orders(unfilled(state.orders)),
{
    lemma_constants();
    let open = |order: LimitOrder<Fixed>|
        zero_spec::<Fixed>().below_spec(order.remaining_shares);
    let kept = unfilled(state.orders);
    assert forall|index: int| 0 <= index < kept.len() implies sound_order(
        #[trigger] kept[index],
    ) by {
        state.orders.lemma_filter_pred(open, index);
        assert(kept.contains(kept[index]));
        state.orders.lemma_filter_contains_rev(open, kept[index]);
        let place = choose|place: int|
            0 <= place < state.orders.len() && state.orders[place] == kept[index];
        assert(state.orders[place].price.units >= 0);
    }
}

proof fn lemma_without_expired(
    account: AccountModel<Fixed>,
    timestamp: i64,
    buy_ttl: i64,
    sell_ttl: i64,
)
    requires
        solvent(account),
    ensures
        solvent(without_expired(account, timestamp, buy_ttl, sell_ttl)),
{
    let buy_gone = |order: LimitOrder<Fixed>|
        crate::market_maker::expired(order, timestamp, buy_ttl);
    let buy_alive = |order: LimitOrder<Fixed>|
        !crate::market_maker::expired(order, timestamp, buy_ttl);
    let sell_gone = |order: LimitOrder<Fixed>|
        crate::market_maker::expired(order, timestamp, sell_ttl);
    let sell_alive = |order: LimitOrder<Fixed>|
        !crate::market_maker::expired(order, timestamp, sell_ttl);
    lemma_kept_orders(account.buy_orders, buy_gone);
    lemma_kept_orders(account.buy_orders, buy_alive);
    lemma_kept_orders(account.sell_orders, sell_gone);
    lemma_kept_orders(account.sell_orders, sell_alive);
    lemma_returned(account.cash, outlived(account.buy_orders, timestamp, buy_ttl));
    lemma_returned(account.shares, outlived(account.sell_orders, timestamp, sell_ttl));
}

proof fn lemma_after_fills(
    account: AccountModel<Fixed>,
    bar: Bar<Fixed>,
    config: MarketMakerConfig<Fixed>,
    logger: Option<Seq<char>>,
)
    requires
        solvent(account),
        sound_config(config),
    ensures
        solvent(after_fills(account, bar, config, logger)),
{
    let buy_start = Fills {
        orders: Seq::empty(),
        proceeds: account.shares,
        volume: config.bar_volume_limit,
        log: account.log,
    };
    lemma_fills_cover(buy_start, account.buy_orders, bar, logger);
    let buys = fill_buys(buy_start, account.buy_orders, bar, logger);
    let sell_start = Fills {
        orders: Seq::empty(),
        proceeds: account.cash,
        volume: buys.volume,
        log: buys.log,
    };
    lemma_fills_cover(sell_start, account.sell_orders, bar, logger);
    let sells = fill_sells(sell_start, account.sell_orders, bar, logger);
    lemma_unfilled_orders(buys);
    lemma_unfilled_orders(sells);
}

/// One less a percentage from zero to one hundred is from zero to one.
proof fn lemma_complement(percent: Fixed)
    requires
        0 <= percent.units <= 100_000_000,
    ensures
        0 <= complement(percent).units <= 1_000_000,
{
    lemma_constants();
    let part = percent.over_spec(hundred_spec());
    assert(part.units == percent.units * 1_000_000 / 100_000_000);
}

proof fn lemma_buy_order(
    account: AccountModel<Fixed>,
    bar: Bar<Fixed>,
    config: MarketMakerConfig<Fixed>,
)
    requires
        solvent(account),
        sound_config(config),
        bar.close.units >= 0,
    ensures
        solvent(with_buy_order(account, bar, config)),
{
    lemma_constants();
    lemma_complement(config.discount_percent);
    lemma_complement(config.bet_size);
    let price = crate::market_maker::buy_limit(bar, config);
    lemma_product(bar.close, complement(config.discount_percent));
    lemma_reserved(account.buy_orders);
    lemma_reserved(account.sell_orders);
    lemma_product(
        account.shares.plus_spec(reserved_shares(account.sell_orders)),
        bar.close,
    );
    let value = account_value(account, bar.close);
    lemma_product(value, complement(config.bet_size));
    let floor = value.times_spec(complement(config.bet_size));
    let usable = account.cash.minus_spec(floor).maximum_spec(zero_spec());
    assert(0 <= usable.units <= account.cash.units);
    lemma_cost(usable, price);
    let after = with_buy_order(account, bar, config);
    assert(sound_orders(after.buy_orders)) by {
        assert forall|index: int| 0 <= index < after.buy_orders.len() implies sound_order(
            #[trigger] after.buy_orders[index],
        ) by {
            if index < account.buy_orders.len() {
                assert(sound_order(account.buy_orders[index]));
                assert(after.buy_orders[index] == account.buy_orders[index]);
            }
        }
    }
}

proof fn lemma_sell_order(
    account: AccountModel<Fixed>,
    bar: Bar<Fixed>,
    config: MarketMakerConfig<Fixed>,
)
    requires
        solvent(account),
        sound_config(config),
        bar.close.units >= 0,
    ensures
        solvent(with_sell_order(account, bar, config)),
{
    lemma_constants();
    let markup = config.markup_percent.over_spec(hundred_spec());
    assert(markup.units >= 0) by {
        assert(config.markup_percent.units * 1_000_000 / 100_000_000 >= 0);
    }
    lemma_product(bar.close, one_spec::<Fixed>().plus_spec(markup));
    let after = with_sell_order(account, bar, config);
    assert forall|index: int| 0 <= index < after.sell_orders.len() implies sound_order(
        #[trigger] after.sell_orders[index],
    ) by {
        if index < account.sell_orders.len() {
            assert(sound_order(account.sell_orders[index]));
            assert(after.sell_orders[index] == account.sell_orders[index]);
        }
    }
}

/// A bar leaves a solvent account solvent: it spends no cash and sells no shares that the account
/// does not have.
pub proof fn law_bars_keep_accounts_solvent(
    account: AccountModel<Fixed>,
    bar: Bar<Fixed>,
    config: MarketMakerConfig<Fixed>,
    logger: Option<Seq<char>>,
)
    requires
        solvent(account),
        sound_config(config),
        bar.close.units >= 0,
    ensures
        solvent(after_bar(account, bar, config, logger)),
{
    if bar.liquidate {
        lemma_reserved(account.buy_orders);
        lemma_reserved(account.sell_orders);
        let shares = account.shares.plus_spec(reserved_shares(account.sell_orders));
        lemma_product(shares.minimum_spec(config.bar_volume_limit), bar.close);
    } else {
        let buy_ttl = config.buy_ttl as i64;
        let sell_ttl = config.sell_ttl as i64;
        lemma_without_expired(account, bar.timestamp, buy_ttl, sell_ttl);
        let alive = without_expired(account, bar.timestamp, buy_ttl, sell_ttl);
        lemma_after_fills(alive, bar, config, logger);
        let traded = after_fills(alive, bar, config, logger);
        lemma_buy_order(traded, bar, config);
        lemma_sell_order(with_buy_order(traded, bar, config), bar, config);
    }
}

/// Over any bars, a solvent account stays solvent.
pub proof fn law_accounts_stay_solvent(
    account: AccountModel<Fixed>,
    bars: Seq<Bar<Fixed>>,
    config: MarketMakerConfig<Fixed>,
    logger: Option<Seq<char>>,
)
    requires
        solvent(account),
        sound_config(config),
        forall|index: int| 0 <= index < bars.len() ==> (#[trigger] bars[index]).close.units >= 0,
    ensures
        solvent(after_bars(account, bars, config, logger)),
    decreases bars.len(),
{
    if bars.len() > 0 {
        let rest = bars.drop_last();
        assert forall|index: int| 0 <= index < rest.len() implies (
        #[trigger] rest[index]).close.units >= 0 by {
            assert(bars[index].close.units >= 0);
        }
        law_accounts_stay_solvent(account, rest, config, logger);
        assert(bars[bars.len() - 1].close.units >= 0);
        law_bars_keep_accounts_solvent(
            after_bars(account, rest, config, logger),
            bars.last(),
            config,
            logger,
        );
    }
}

// Value

/// The exact number of units of cash that buy orders reserve.
pub open spec fn exact_cash(orders: Seq<LimitOrder<Fixed>>) -> int
    decreases orders.len(),
{
    if orders.len() == 0 {
        0
    } else {
        exact_cash(orders.drop_last()) + orders.last().remaining_shares.times_spec(
            orders.last().price,
        ).units
    }
}

/// The exact number of units of shares that sell orders reserve.
pub open spec fn exact_shares(orders: Seq<LimitOrder<Fixed>>) -> int
    decreases orders.len(),
{
    if orders.len() == 0 {
        0
    } else {
        exact_shares(orders.drop_last()) + orders.last().remaining_shares.units
    }
}

/// Whether the cash and the shares of an account, reserved or not, are inside the range.
pub open spec fn fits(account: AccountModel<Fixed>) -> bool {
    &&& account.cash.units + exact_cash(account.buy_orders) <= i64::MAX
    &&& account.shares.units + exact_shares(account.sell_orders) <= i64::MAX
}

pub(crate) proof fn lemma_sound_rest(orders: Seq<LimitOrder<Fixed>>)
    requires
        sound_orders(orders),
        orders.len() > 0,
    ensures
        sound_orders(orders.drop_last()),
        sound_order(orders.last()),
        orders.last().remaining_shares.times_spec(orders.last().price).units >= 0,
{
    assert forall|index: int| 0 <= index < orders.drop_last().len() implies sound_order(
        #[trigger] orders.drop_last()[index],
    ) by {
        assert(sound_order(orders[index]));
    }
    assert(sound_order(orders[orders.len() - 1]));
    lemma_product(orders.last().remaining_shares, orders.last().price);
}

pub(crate) proof fn lemma_exact_reservations(orders: Seq<LimitOrder<Fixed>>)
    requires
        sound_orders(orders),
    ensures
        exact_cash(orders) >= 0,
        exact_shares(orders) >= 0,
        exact_cash(orders) <= i64::MAX ==> reserved_cash(orders).units == exact_cash(orders),
        exact_shares(orders) <= i64::MAX ==> reserved_shares(orders).units == exact_shares(orders),
    decreases orders.len(),
{
    let cash = |order: LimitOrder<Fixed>| order.remaining_shares.times_spec(order.price);
    let shares = |order: LimitOrder<Fixed>| order.remaining_shares;
    if orders.len() > 0 {
        lemma_sound_rest(orders);
        lemma_exact_reservations(orders.drop_last());
        assert(orders.map_values(cash).drop_last() =~= orders.drop_last().map_values(cash));
        assert(orders.map_values(shares).drop_last() =~= orders.drop_last().map_values(shares));
    }
}

proof fn lemma_exact_returns(start: Fixed, orders: Seq<LimitOrder<Fixed>>)
    requires
        start.units >= 0,
        sound_orders(orders),
    ensures
        start.units + exact_cash(orders) <= i64::MAX ==> refunded(start, orders).units
            == start.units + exact_cash(orders),
        start.units + exact_shares(orders) <= i64::MAX ==> released(start, orders).units
            == start.units + exact_shares(orders),
    decreases orders.len(),
{
    if orders.len() > 0 {
        lemma_sound_rest(orders);
        lemma_exact_returns(start, orders.drop_last());
    }
}

proof fn lemma_exact_parts(orders: Seq<LimitOrder<Fixed>>, timestamp: i64, ttl: i64)
    ensures
        exact_cash(outlived(orders, timestamp, ttl)) + exact_cash(
            unexpired(orders, timestamp, ttl),
        ) == exact_cash(orders),
        exact_shares(outlived(orders, timestamp, ttl)) + exact_shares(
            unexpired(orders, timestamp, ttl),
        ) == exact_shares(orders),
    decreases orders.len(),
{
    reveal(Seq::filter);
    if orders.len() > 0 {
        let rest = orders.drop_last();
        let order = orders.last();
        lemma_exact_parts(rest, timestamp, ttl);
        let gone = outlived(rest, timestamp, ttl);
        let alive = unexpired(rest, timestamp, ttl);
        assert(gone.push(order).drop_last() =~= gone);
        assert(alive.push(order).drop_last() =~= alive);
    }
}

/// In a solvent account inside the range, expiry moves cash and shares and loses none: cash
/// together with what buys reserve stays the same, and so do shares together with what sells
/// reserve.
pub proof fn law_expiry_returns_decimal_reservations(
    account: AccountModel<Fixed>,
    timestamp: i64,
    buy_ttl: i64,
    sell_ttl: i64,
)
    requires
        solvent(account),
        fits(account),
    ensures
        ({
            let after = without_expired(account, timestamp, buy_ttl, sell_ttl);
            &&& after.cash.plus_spec(reserved_cash(after.buy_orders)) == account.cash.plus_spec(
                reserved_cash(account.buy_orders),
            )
            &&& after.shares.plus_spec(reserved_shares(after.sell_orders))
                == account.shares.plus_spec(reserved_shares(account.sell_orders))
        }),
{
    let after = without_expired(account, timestamp, buy_ttl, sell_ttl);
    lemma_without_expired(account, timestamp, buy_ttl, sell_ttl);
    let buys_gone = outlived(account.buy_orders, timestamp, buy_ttl);
    let sells_gone = outlived(account.sell_orders, timestamp, sell_ttl);
    lemma_kept_orders(
        account.buy_orders,
        |order: LimitOrder<Fixed>| crate::market_maker::expired(order, timestamp, buy_ttl),
    );
    lemma_kept_orders(
        account.sell_orders,
        |order: LimitOrder<Fixed>| crate::market_maker::expired(order, timestamp, sell_ttl),
    );
    lemma_exact_parts(account.buy_orders, timestamp, buy_ttl);
    lemma_exact_parts(account.sell_orders, timestamp, sell_ttl);
    lemma_exact_reservations(account.buy_orders);
    lemma_exact_reservations(account.sell_orders);
    lemma_exact_reservations(after.buy_orders);
    lemma_exact_reservations(after.sell_orders);
    lemma_exact_reservations(buys_gone);
    lemma_exact_reservations(sells_gone);
    lemma_exact_returns(account.cash, buys_gone);
    lemma_exact_returns(account.shares, sells_gone);
}

/// The value of a solvent account inside the range does not change when orders expire.
pub proof fn law_expiry_keeps_the_decimal_value(
    account: AccountModel<Fixed>,
    timestamp: i64,
    buy_ttl: i64,
    sell_ttl: i64,
    price: Fixed,
)
    requires
        solvent(account),
        fits(account),
    ensures
        account_value(without_expired(account, timestamp, buy_ttl, sell_ttl), price)
            == account_value(account, price),
{
    law_expiry_returns_decimal_reservations(account, timestamp, buy_ttl, sell_ttl);
}

/// The value of a solvent account inside the range does not change when it places orders.
pub proof fn law_placing_orders_keeps_the_decimal_value(
    account: AccountModel<Fixed>,
    bar: Bar<Fixed>,
    config: MarketMakerConfig<Fixed>,
    price: Fixed,
)
    requires
        solvent(account),
        fits(account),
        sound_config(config),
        bar.close.units >= 0,
    ensures
        account_value(with_buy_order(account, bar, config), price) == account_value(
            account,
            price,
        ),
        account_value(with_sell_order(account, bar, config), price) == account_value(
            account,
            price,
        ),
{
    lemma_constants();
    lemma_exact_reservations(account.buy_orders);
    lemma_exact_reservations(account.sell_orders);
    let bought = with_buy_order(account, bar, config);
    lemma_buy_order(account, bar, config);
    lemma_exact_reservations(bought.buy_orders);
    if one_spec::<Fixed>().at_most_spec(crate::market_maker::buy_shares(account, bar, config)) {
        assert(bought.buy_orders.drop_last() =~= account.buy_orders);
        lemma_sound_rest(bought.buy_orders);
    }
    let sold = with_sell_order(account, bar, config);
    lemma_sell_order(account, bar, config);
    lemma_exact_reservations(sold.sell_orders);
    if zero_spec::<Fixed>().below_spec(account.shares) {
        assert(sold.sell_orders.drop_last() =~= account.sell_orders);
    }
}

} // verus!
