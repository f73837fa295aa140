//! Laws of backtests.
use crate::backtest::{
    bars_of, day_of, days_of, file_days, is_grid_outcome, is_search_outcome, row_timestamp,
    unreliable, Args, BarColumns,
};
use crate::clock::{liquidating, moment_of};
use crate::files::{file_name_of, FileModel};
use crate::grid::{
    bet_configs, candidates_of, discount_configs, for_each, highest_return, highest_sharpe,
    joined_candidates, lemma_candidate_count, lemma_candidates_join, markup_configs,
    sell_ttl_configs, CandidateModel, GridResult,
};
use crate::market_maker::{
    account_value, after_bar, after_bars, after_fills, compounded_value, daily_returns, day_value,
    expired, fill_buy, fill_buys, fill_sell, fill_sells, lifetimes_fit, logger_of, outlived,
    refunded, released, reserved_cash, reserved_shares, simulation, unexpired, unfilled,
    with_buy_order, with_sell_order, without_expired, AccountModel, Bar, DayModel, Fills,
    LimitOrder, MarketMakerConfig,
};
use crate::number::{
    lemma_exchange, lemma_transfer, on_one_line, orders_strictly, sums_exactly, zero_spec,
    Number,
};
use crate::table::field;
use vstd::prelude::*;

verus! {

// Lifetimes

proof fn lemma_filter_splits<A>(
    items: Seq<A>,
    first: spec_fn(A) -> bool,
    second: spec_fn(A) -> bool,
)
    requires
        forall|item: A| #[trigger] first(item) <==> !second(item),
    ensures
        items.filter(first).len() + items.filter(second).len() == items.len(),
    decreases items.len(),
{
    reveal(Seq::filter);
    if items.len() > 0 {
        lemma_filter_splits(items.drop_last(), first, second);
        assert(first(items.last()) <==> !second(items.last()));
    }
}

/// At any moment, every order is either alive or has outlived its lifetime: the two groups hold
/// all orders, and no order is in both.
pub proof fn law_expiry_parts_orders<N>(orders: Seq<LimitOrder<N>>, timestamp: i64, ttl: i64)
    ensures
        unexpired(orders, timestamp, ttl).len() + outlived(orders, timestamp, ttl).len()
            == orders.len(),
        forall|index: int|
            0 <= index < unexpired(orders, timestamp, ttl).len() ==> !expired(
                #[trigger] unexpired(orders, timestamp, ttl)[index],
                timestamp,
                ttl,
            ),
        forall|index: int|
            0 <= index < outlived(orders, timestamp, ttl).len() ==> expired(
                #[trigger] outlived(orders, timestamp, ttl)[index],
                timestamp,
                ttl,
            ),
{
    let alive = |order: LimitOrder<N>| !expired(order, timestamp, ttl);
    let gone = |order: LimitOrder<N>| expired(order, timestamp, ttl);
    lemma_filter_splits(orders, alive, gone);
    assert forall|index: int| 0 <= index < unexpired(orders, timestamp, ttl).len() implies !expired(
        #[trigger] unexpired(orders, timestamp, ttl)[index],
        timestamp,
        ttl,
    ) by {
        orders.lemma_filter_pred(alive, index);
    }
    assert forall|index: int| 0 <= index < outlived(orders, timestamp, ttl).len() implies expired(
        #[trigger] outlived(orders, timestamp, ttl)[index],
        timestamp,
        ttl,
    ) by {
        orders.lemma_filter_pred(gone, index);
    }
}

/// Fills change only the remaining shares of orders, and keep their order.
proof fn lemma_fills_keep_terms<N: Number>(
    start: Fills<N>,
    orders: Seq<LimitOrder<N>>,
    bar: Bar<N>,
    logger: Option<Seq<char>>,
)
    requires
        start.orders.len() == 0,
    ensures
        fill_buys(start, orders, bar, logger).orders.len() == orders.len(),
        fill_sells(start, orders, bar, logger).orders.len() == orders.len(),
        forall|index: int|
            0 <= index < orders.len() ==> {
                let bought = #[trigger] fill_buys(start, orders, bar, logger).orders[index];
                bought.placed_timestamp == orders[index].placed_timestamp && bought.price
                    == orders[index].price
            },
        forall|index: int|
            0 <= index < orders.len() ==> {
                let sold = #[trigger] fill_sells(start, orders, bar, logger).orders[index];
                sold.placed_timestamp == orders[index].placed_timestamp && sold.price
                    == orders[index].price
            },
    decreases orders.len(),
{
    if orders.len() > 0 {
        lemma_fills_keep_terms(start, orders.drop_last(), bar, logger);
        let bought = fill_buys(start, orders.drop_last(), bar, logger).orders;
        let sold = fill_sells(start, orders.drop_last(), bar, logger).orders;
        assert forall|index: int| 0 <= index < orders.len() implies {
            let filled = #[trigger] fill_buys(start, orders, bar, logger).orders[index];
            filled.placed_timestamp == orders[index].placed_timestamp && filled.price
                == orders[index].price
        } by {
            if index < orders.len() - 1 {
                assert(fill_buys(start, orders, bar, logger).orders[index] == bought[index]);
            }
        }
        assert forall|index: int| 0 <= index < orders.len() implies {
            let filled = #[trigger] fill_sells(start, orders, bar, logger).orders[index];
            filled.placed_timestamp == orders[index].placed_timestamp && filled.price
                == orders[index].price
        } by {
            if index < orders.len() - 1 {
                assert(fill_sells(start, orders, bar, logger).orders[index] == sold[index]);
            }
        }
    }
}

/// Whether no order has outlived its lifetime at a timestamp.
pub open spec fn all_alive<N>(orders: Seq<LimitOrder<N>>, timestamp: i64, ttl: i64) -> bool {
    forall|index: int|
        0 <= index < orders.len() ==> !expired(#[trigger] orders[index], timestamp, ttl)
}

proof fn lemma_unfilled_alive<N: Number>(orders: Seq<LimitOrder<N>>, timestamp: i64, ttl: i64)
    requires
        all_alive(orders, timestamp, ttl),
    ensures
        all_alive(unfilled(orders), timestamp, ttl),
{
    let open = |order: LimitOrder<N>| zero_spec::<N>().below_spec(order.remaining_shares);
    let kept = unfilled(orders);
    assert forall|index: int| 0 <= index < kept.len() implies !expired(
        #[trigger] kept[index],
        timestamp,
        ttl,
    ) by {
        assert(kept.contains(kept[index]));
        orders.lemma_filter_contains_rev(open, kept[index]);
        let place = choose|place: int|
            0 <= place < orders.len() && orders[place] == kept[index];
        assert(!expired(orders[place], timestamp, ttl));
    }
}

/// After every bar outside liquidation, no order has outlived its lifetime: not those that were
/// open before, filled in part or not, and not those that the bar placed.
pub proof fn law_no_order_outlives_its_lifetime<N: Number>(
    account: AccountModel<N>,
    bar: Bar<N>,
    config: MarketMakerConfig<N>,
    logger: Option<Seq<char>>,
)
    requires
        !bar.liquidate,
        lifetimes_fit(config),
    ensures
        all_alive(
            after_bar(account, bar, config, logger).buy_orders,
            bar.timestamp,
            config.buy_ttl as i64,
        ),
        all_alive(
            after_bar(account, bar, config, logger).sell_orders,
            bar.timestamp,
            config.sell_ttl as i64,
        ),
{
    let buy_ttl = config.buy_ttl as i64;
    let sell_ttl = config.sell_ttl as i64;
    let alive = without_expired(account, bar.timestamp, buy_ttl, sell_ttl);
    law_expiry_parts_orders(account.buy_orders, bar.timestamp, buy_ttl);
    law_expiry_parts_orders(account.sell_orders, bar.timestamp, sell_ttl);
    let buy_start = Fills {
        orders: Seq::empty(),
        proceeds: alive.shares,
        volume: config.bar_volume_limit,
        log: alive.log,
    };
    let buys = fill_buys(buy_start, alive.buy_orders, bar, logger);
    lemma_fills_keep_terms(buy_start, alive.buy_orders, bar, logger);
    assert forall|index: int| 0 <= index < buys.orders.len() implies !expired(
        #[trigger] buys.orders[index],
        bar.timestamp,
        buy_ttl,
    ) by {
        assert(!expired(alive.buy_orders[index], bar.timestamp, buy_ttl));
    }
    lemma_unfilled_alive(buys.orders, bar.timestamp, buy_ttl);
    let sell_start = Fills {
        orders: Seq::empty(),
        proceeds: alive.cash,
        volume: buys.volume,
        log: buys.log,
    };
    let sells = fill_sells(sell_start, alive.sell_orders, bar, logger);
    lemma_fills_keep_terms(sell_start, alive.sell_orders, bar, logger);
    assert forall|index: int| 0 <= index < sells.orders.len() implies !expired(
        #[trigger] sells.orders[index],
        bar.timestamp,
        sell_ttl,
    ) by {
        assert(!expired(alive.sell_orders[index], bar.timestamp, sell_ttl));
    }
    lemma_unfilled_alive(sells.orders, bar.timestamp, sell_ttl);
}

/// A bar inside the liquidation window leaves no order open.
pub proof fn law_liquidation_closes_all_orders<N: Number>(
    account: AccountModel<N>,
    bar: Bar<N>,
    config: MarketMakerConfig<N>,
    logger: Option<Seq<char>>,
)
    requires
        bar.liquidate,
    ensures
        after_bar(account, bar, config, logger).buy_orders.len() == 0,
        after_bar(account, bar, config, logger).sell_orders.len() == 0,
{
}

// Fills

/// An order whose price a bar does not reach is left as it is: a buy below the low, a sell above
/// the high. So is every order once the bar's volume is used up.
pub proof fn law_unreached_orders_are_untouched<N: Number>(
    state: Fills<N>,
    order: LimitOrder<N>,
    bar: Bar<N>,
    logger: Option<Seq<char>>,
)
    ensures
        !bar.low.at_most_spec(order.price) || state.volume.at_most_spec(zero_spec()) ==> fill_buy(
            state,
            order,
            bar,
            logger,
        ) == (Fills { orders: state.orders.push(order), ..state }),
        !order.price.at_most_spec(bar.high) || state.volume.at_most_spec(zero_spec())
            ==> fill_sell(state, order, bar, logger) == (Fills {
            orders: state.orders.push(order),
            ..state
        }),
{
}

/// Where sums are exact, all buys of a bar together are paid out of one volume: what they gain in
/// shares is what the volume loses.
pub proof fn law_buys_share_one_volume<N: Number>(
    start: Fills<N>,
    orders: Seq<LimitOrder<N>>,
    bar: Bar<N>,
    logger: Option<Seq<char>>,
)
    requires
        sums_exactly::<N>(),
    ensures
        ({
            let end = fill_buys(start, orders, bar, logger);
            end.proceeds.plus_spec(end.volume) == start.proceeds.plus_spec(start.volume)
        }),
    decreases orders.len(),
{
    if orders.len() > 0 {
        law_buys_share_one_volume(start, orders.drop_last(), bar, logger);
        let before = fill_buys(start, orders.drop_last(), bar, logger);
        let amount = crate::market_maker::filled_part(orders.last(), before.volume);
        lemma_transfer(before.proceeds, before.volume, amount);
    }
}

proof fn lemma_reserved_push<N: Number>(orders: Seq<LimitOrder<N>>, order: LimitOrder<N>)
    ensures
        reserved_shares(orders.push(order)) == reserved_shares(orders).plus_spec(
            order.remaining_shares,
        ),
        reserved_cash(orders.push(order)) == reserved_cash(orders).plus_spec(
            order.remaining_shares.times_spec(order.price),
        ),
{
    let shares = |order: LimitOrder<N>| order.remaining_shares;
    let cash = |order: LimitOrder<N>| order.remaining_shares.times_spec(order.price);
    assert(orders.push(order).map_values(shares).drop_last() =~= orders.map_values(shares));
    assert(orders.push(order).map_values(cash).drop_last() =~= orders.map_values(cash));
}

/// Where sums are exact, what a bar's sells take off the open orders is what they take off its
/// volume.
pub proof fn law_sells_share_one_volume<N: Number>(
    start: Fills<N>,
    orders: Seq<LimitOrder<N>>,
    bar: Bar<N>,
    logger: Option<Seq<char>>,
)
    requires
        sums_exactly::<N>(),
        start.orders.len() == 0,
    ensures
        ({
            let end = fill_sells(start, orders, bar, logger);
            reserved_shares(end.orders).plus_spec(start.volume) == reserved_shares(
                orders,
            ).plus_spec(end.volume)
        }),
    decreases orders.len(),
{
    if orders.len() == 0 {
        assert(start.orders =~= orders);
    } else {
        let rest = orders.drop_last();
        let order = orders.last();
        law_sells_share_one_volume(start, rest, bar, logger);
        let before = fill_sells(start, rest, bar, logger);
        let end = fill_sells(start, orders, bar, logger);
        assert(orders =~= rest.push(order));
        lemma_reserved_push(rest, order);
        lemma_reserved_push(before.orders, end.orders.last());
        assert(end.orders =~= before.orders.push(end.orders.last()));
        let open = reserved_shares(before.orders);
        let all = reserved_shares(rest);
        let shares = order.remaining_shares;
        if !before.volume.at_most_spec(zero_spec()) && order.price.at_most_spec(bar.high) {
            let amount = crate::market_maker::filled_part(order, before.volume);
            let kept = shares.minus_spec(amount);
            let left = before.volume.minus_spec(amount);
            lemma_exchange(open, kept, start.volume);
            assert(open.plus_spec(kept).plus_spec(start.volume) == all.plus_spec(
                before.volume,
            ).plus_spec(kept));
            lemma_exchange(all, before.volume, kept);
            lemma_exchange(all, shares, left);
            lemma_pair(before.volume, shares, amount);
        } else {
            lemma_exchange(open, shares, start.volume);
            lemma_exchange(all, before.volume, shares);
        }
    }
}

/// Where sums are exact, it does not matter from which of two terms an amount is taken.
proof fn lemma_pair<N: Number>(left: N, right: N, amount: N)
    requires
        sums_exactly::<N>(),
    ensures
        left.plus_spec(right.minus_spec(amount)) == right.plus_spec(left.minus_spec(amount)),
{
    let fewer = right.minus_spec(amount);
    let less = left.minus_spec(amount);
    reveal(sums_exactly);
    assert(fewer.plus_spec(amount) == right);
    assert(less.plus_spec(amount) == left);
    assert(less.plus_spec(amount).plus_spec(fewer) == less.plus_spec(amount.plus_spec(fewer)));
    assert(amount.plus_spec(fewer) == fewer.plus_spec(amount));
    assert(less.plus_spec(right) == right.plus_spec(less));
}

// Value

proof fn lemma_refund<N: Number>(
    cash: N,
    orders: Seq<LimitOrder<N>>,
    timestamp: i64,
    ttl: i64,
)
    requires
        sums_exactly::<N>(),
    ensures
        refunded(cash, outlived(orders, timestamp, ttl)).plus_spec(
            reserved_cash(unexpired(orders, timestamp, ttl)),
        ) == cash.plus_spec(reserved_cash(orders)),
    decreases orders.len(),
{
    reveal(Seq::filter);
    if orders.len() > 0 {
        let rest = orders.drop_last();
        let order = orders.last();
        let value = order.remaining_shares.times_spec(order.price);
        lemma_refund(cash, rest, timestamp, ttl);
        assert(orders =~= rest.push(order));
        lemma_reserved_push(rest, order);
        let gone = outlived(rest, timestamp, ttl);
        let alive = unexpired(rest, timestamp, ttl);
        lemma_exchange(cash, reserved_cash(rest), value);
        lemma_exchange(refunded(cash, gone), reserved_cash(alive), value);
        if expired(order, timestamp, ttl) {
            assert(gone.push(order).drop_last() =~= gone);
        } else {
            lemma_reserved_push(alive, order);
        }
    } else {
        assert(outlived(orders, timestamp, ttl) =~= Seq::empty());
        assert(unexpired(orders, timestamp, ttl) =~= orders);
    }
}

proof fn lemma_release<N: Number>(
    shares: N,
    orders: Seq<LimitOrder<N>>,
    timestamp: i64,
    ttl: i64,
)
    requires
        sums_exactly::<N>(),
    ensures
        released(shares, outlived(orders, timestamp, ttl)).plus_spec(
            reserved_shares(unexpired(orders, timestamp, ttl)),
        ) == shares.plus_spec(reserved_shares(orders)),
    decreases orders.len(),
{
    reveal(Seq::filter);
    if orders.len() > 0 {
        let rest = orders.drop_last();
        let order = orders.last();
        let amount = order.remaining_shares;
        lemma_release(shares, rest, timestamp, ttl);
        assert(orders =~= rest.push(order));
        lemma_reserved_push(rest, order);
        let gone = outlived(rest, timestamp, ttl);
        let alive = unexpired(rest, timestamp, ttl);
        lemma_exchange(shares, reserved_shares(rest), amount);
        lemma_exchange(released(shares, gone), reserved_shares(alive), amount);
        if expired(order, timestamp, ttl) {
            assert(gone.push(order).drop_last() =~= gone);
        } else {
            lemma_reserved_push(alive, order);
        }
    } else {
        assert(outlived(orders, timestamp, ttl) =~= Seq::empty());
        assert(unexpired(orders, timestamp, ttl) =~= orders);
    }
}

/// Expiry keeps the orders that are alive as they are and in their order, and nothing is left to
/// expire: a second expiry at the same time and with the same lifetimes changes nothing.
pub proof fn law_expiry_happens_once<N: Number>(
    account: AccountModel<N>,
    timestamp: i64,
    buy_ttl: i64,
    sell_ttl: i64,
)
    ensures
        ({
            let after = without_expired(account, timestamp, buy_ttl, sell_ttl);
            &&& after.buy_orders == unexpired(account.buy_orders, timestamp, buy_ttl)
            &&& after.sell_orders == unexpired(account.sell_orders, timestamp, sell_ttl)
            &&& all_alive(after.buy_orders, timestamp, buy_ttl)
            &&& all_alive(after.sell_orders, timestamp, sell_ttl)
            &&& without_expired(after, timestamp, buy_ttl, sell_ttl) == after
        }),
{
    let after = without_expired(account, timestamp, buy_ttl, sell_ttl);
    law_expiry_parts_orders(account.buy_orders, timestamp, buy_ttl);
    law_expiry_parts_orders(account.sell_orders, timestamp, sell_ttl);
    lemma_alive_are_kept(after.buy_orders, timestamp, buy_ttl);
    lemma_alive_are_kept(after.sell_orders, timestamp, sell_ttl);
}

proof fn lemma_alive_are_kept<N: Number>(orders: Seq<LimitOrder<N>>, timestamp: i64, ttl: i64)
    requires
        all_alive(orders, timestamp, ttl),
    ensures
        unexpired(orders, timestamp, ttl) == orders,
        outlived(orders, timestamp, ttl).len() == 0,
    decreases orders.len(),
{
    reveal(Seq::filter);
    if orders.len() > 0 {
        let rest = orders.drop_last();
        assert forall|index: int| 0 <= index < rest.len() implies !expired(
            #[trigger] rest[index],
            timestamp,
            ttl,
        ) by {
            assert(!expired(orders[index], timestamp, ttl));
        }
        lemma_alive_are_kept(rest, timestamp, ttl);
        assert(!expired(orders[orders.len() - 1], timestamp, ttl));
        assert(rest.push(orders.last()) =~= orders);
    } else {
        assert(unexpired(orders, timestamp, ttl) =~= orders);
    }
}

/// Where sums are exact, expiry moves cash and shares and loses none: the cash of an account
/// together with what its buys reserve stays the same, and so do its shares together with what
/// its sells reserve.
pub proof fn law_expiry_returns_reservations<N: Number>(
    account: AccountModel<N>,
    timestamp: i64,
    buy_ttl: i64,
    sell_ttl: i64,
)
    requires
        sums_exactly::<N>(),
    ensures
        ({
            let after = without_expired(account, timestamp, buy_ttl, sell_ttl);
            &&& after.cash.plus_spec(reserved_cash(after.buy_orders)) == account.cash.plus_spec(
                reserved_cash(account.buy_orders),
            )
            &&& after.shares.plus_spec(reserved_shares(after.sell_orders))
                == account.shares.plus_spec(reserved_shares(account.sell_orders))
        }),
{
    lemma_refund(account.cash, account.buy_orders, timestamp, buy_ttl);
    lemma_release(account.shares, account.sell_orders, timestamp, sell_ttl);
}

/// A sum that starts from a number, added up from the first term to the last.
pub open spec fn sum_from<N: Number>(start: N, terms: Seq<N>) -> N
    decreases terms.len(),
{
    if terms.len() == 0 {
        start
    } else {
        sum_from(start, terms.drop_last()).plus_spec(terms.last())
    }
}

/// The exact sum of terms, each measured in a unit of which all numbers are multiples.
pub open spec fn exact_sum<N>(terms: Seq<N>, measure: spec_fn(N) -> int) -> int
    decreases terms.len(),
{
    if terms.len() == 0 {
        0
    } else {
        exact_sum(terms.drop_last(), measure) + measure(terms.last())
    }
}

/// Whether two measures differ by at most an error.
pub open spec fn within(left: int, right: int, error: int) -> bool {
    -error <= left - right <= error
}

/// Whether an addition is rounded by at most an error.
pub open spec fn adds_within<N: Number>(
    left: N,
    right: N,
    measure: spec_fn(N) -> int,
    error: int,
) -> bool {
    within(measure(left.plus_spec(right)), measure(left) + measure(right), error)
}

/// Whether each addition of a sum is rounded by at most an error.
pub open spec fn sums_within<N: Number>(
    start: N,
    terms: Seq<N>,
    measure: spec_fn(N) -> int,
    error: int,
) -> bool
    decreases terms.len(),
{
    terms.len() > 0 ==> {
        &&& sums_within(start, terms.drop_last(), measure, error)
        &&& adds_within(sum_from(start, terms.drop_last()), terms.last(), measure, error)
    }
}

proof fn lemma_sum_within<N: Number>(
    start: N,
    terms: Seq<N>,
    measure: spec_fn(N) -> int,
    error: int,
)
    requires
        error >= 0,
        sums_within(start, terms, measure, error),
    ensures
        within(
            measure(sum_from(start, terms)),
            measure(start) + exact_sum(terms, measure),
            error * terms.len(),
        ),
    decreases terms.len(),
{
    if terms.len() > 0 {
        lemma_sum_within(start, terms.drop_last(), measure, error);
        let count = terms.len() as int;
        assert(error * count == error * (count - 1) + error) by (nonlinear_arith);
    } else {
        assert(error * 0 == 0);
    }
}

/// The cash that each buy order reserves.
pub open spec fn cash_terms<N: Number>(orders: Seq<LimitOrder<N>>) -> Seq<N> {
    orders.map_values(|order: LimitOrder<N>| order.remaining_shares.times_spec(order.price))
}

/// The shares that each sell order reserves.
pub open spec fn share_terms<N: Number>(orders: Seq<LimitOrder<N>>) -> Seq<N> {
    orders.map_values(|order: LimitOrder<N>| order.remaining_shares)
}

proof fn lemma_total_is_sum<N: Number>(terms: Seq<N>)
    ensures
        crate::number::total(terms) == sum_from(N::empty_sum_spec(), terms),
    decreases terms.len(),
{
    if terms.len() > 0 {
        lemma_total_is_sum(terms.drop_last());
    }
}

proof fn lemma_returns_are_sums<N: Number>(start: N, orders: Seq<LimitOrder<N>>)
    ensures
        refunded(start, orders) == sum_from(start, cash_terms(orders)),
        released(start, orders) == sum_from(start, share_terms(orders)),
    decreases orders.len(),
{
    if orders.len() > 0 {
        let rest = orders.drop_last();
        lemma_returns_are_sums(start, rest);
        assert(cash_terms(orders).drop_last() =~= cash_terms(rest));
        assert(share_terms(orders).drop_last() =~= share_terms(rest));
    }
}

proof fn lemma_exact_sum_parts<N: Number>(
    orders: Seq<LimitOrder<N>>,
    timestamp: i64,
    ttl: i64,
    measure: spec_fn(N) -> int,
)
    ensures
        exact_sum(cash_terms(outlived(orders, timestamp, ttl)), measure) + exact_sum(
            cash_terms(unexpired(orders, timestamp, ttl)),
            measure,
        ) == exact_sum(cash_terms(orders), measure),
        exact_sum(share_terms(outlived(orders, timestamp, ttl)), measure) + exact_sum(
            share_terms(unexpired(orders, timestamp, ttl)),
            measure,
        ) == exact_sum(share_terms(orders), measure),
    decreases orders.len(),
{
    reveal(Seq::filter);
    if orders.len() > 0 {
        let rest = orders.drop_last();
        let order = orders.last();
        lemma_exact_sum_parts(rest, timestamp, ttl, measure);
        let gone = outlived(rest, timestamp, ttl);
        let alive = unexpired(rest, timestamp, ttl);
        assert(cash_terms(orders).drop_last() =~= cash_terms(rest));
        assert(share_terms(orders).drop_last() =~= share_terms(rest));
        assert(cash_terms(gone.push(order)).drop_last() =~= cash_terms(gone));
        assert(share_terms(gone.push(order)).drop_last() =~= share_terms(gone));
        assert(cash_terms(alive.push(order)).drop_last() =~= cash_terms(alive));
        assert(share_terms(alive.push(order)).drop_last() =~= share_terms(alive));
    }
}

/// Whether every addition that an expiry and the two totals of cash around it make is rounded by
/// at most an error.
pub open spec fn cash_rounds_within<N: Number>(
    cash: N,
    orders: Seq<LimitOrder<N>>,
    timestamp: i64,
    ttl: i64,
    measure: spec_fn(N) -> int,
    error: int,
) -> bool {
    let gone = outlived(orders, timestamp, ttl);
    let alive = unexpired(orders, timestamp, ttl);
    &&& sums_within(cash, cash_terms(gone), measure, error)
    &&& sums_within(N::empty_sum_spec(), cash_terms(orders), measure, error)
    &&& sums_within(N::empty_sum_spec(), cash_terms(alive), measure, error)
    &&& adds_within(cash, reserved_cash(orders), measure, error)
    &&& adds_within(refunded(cash, gone), reserved_cash(alive), measure, error)
}

/// Whether every addition that an expiry and the two totals of shares around it make is rounded
/// by at most an error.
pub open spec fn shares_round_within<N: Number>(
    shares: N,
    orders: Seq<LimitOrder<N>>,
    timestamp: i64,
    ttl: i64,
    measure: spec_fn(N) -> int,
    error: int,
) -> bool {
    let gone = outlived(orders, timestamp, ttl);
    let alive = unexpired(orders, timestamp, ttl);
    &&& sums_within(shares, share_terms(gone), measure, error)
    &&& sums_within(N::empty_sum_spec(), share_terms(orders), measure, error)
    &&& sums_within(N::empty_sum_spec(), share_terms(alive), measure, error)
    &&& adds_within(shares, reserved_shares(orders), measure, error)
    &&& adds_within(released(shares, gone), reserved_shares(alive), measure, error)
}

/// Up to rounding, expiry moves cash and shares and loses none, in whatever arithmetic: measured
/// in a unit of which all its numbers are multiples, the two totals change by no more than the
/// roundings of the additions that they take, which are two for each order and two more.
pub proof fn law_expiry_returns_reservations_up_to_rounding<N: Number>(
    account: AccountModel<N>,
    timestamp: i64,
    buy_ttl: i64,
    sell_ttl: i64,
    measure: spec_fn(N) -> int,
    error: int,
)
    requires
        error >= 0,
        measure(N::empty_sum_spec()) == 0,
        cash_rounds_within(
            account.cash,
            account.buy_orders,
            timestamp,
            buy_ttl,
            measure,
            error,
        ),
        shares_round_within(
            account.shares,
            account.sell_orders,
            timestamp,
            sell_ttl,
            measure,
            error,
        ),
    ensures
        ({
            let after = without_expired(account, timestamp, buy_ttl, sell_ttl);
            &&& within(
                measure(after.cash.plus_spec(reserved_cash(after.buy_orders))),
                measure(account.cash.plus_spec(reserved_cash(account.buy_orders))),
                error * (2 * account.buy_orders.len() + 2),
            )
            &&& within(
                measure(after.shares.plus_spec(reserved_shares(after.sell_orders))),
                measure(account.shares.plus_spec(reserved_shares(account.sell_orders))),
                error * (2 * account.sell_orders.len() + 2),
            )
        }),
{
    let nothing = N::empty_sum_spec();
    let buys = account.buy_orders;
    let buys_gone = outlived(buys, timestamp, buy_ttl);
    let buys_alive = unexpired(buys, timestamp, buy_ttl);
    law_expiry_parts_orders(buys, timestamp, buy_ttl);
    lemma_returns_are_sums(account.cash, buys_gone);
    lemma_total_is_sum(cash_terms(buys));
    lemma_total_is_sum(cash_terms(buys_alive));
    lemma_sum_within(account.cash, cash_terms(buys_gone), measure, error);
    lemma_sum_within(nothing, cash_terms(buys), measure, error);
    lemma_sum_within(nothing, cash_terms(buys_alive), measure, error);
    lemma_exact_sum_parts(buys, timestamp, buy_ttl, measure);
    lemma_error_count(error, buys_gone.len() as int, buys_alive.len() as int);
    let sells = account.sell_orders;
    let sells_gone = outlived(sells, timestamp, sell_ttl);
    let sells_alive = unexpired(sells, timestamp, sell_ttl);
    law_expiry_parts_orders(sells, timestamp, sell_ttl);
    lemma_returns_are_sums(account.shares, sells_gone);
    lemma_total_is_sum(share_terms(sells));
    lemma_total_is_sum(share_terms(sells_alive));
    lemma_sum_within(account.shares, share_terms(sells_gone), measure, error);
    lemma_sum_within(nothing, share_terms(sells), measure, error);
    lemma_sum_within(nothing, share_terms(sells_alive), measure, error);
    lemma_exact_sum_parts(sells, timestamp, sell_ttl, measure);
    lemma_error_count(error, sells_gone.len() as int, sells_alive.len() as int);
}

proof fn lemma_error_count(error: int, gone: int, alive: int)
    ensures
        error * gone + error * (gone + alive) + error * alive + 2 * error == error * (2 * (gone
            + alive) + 2),
{
    assert(error * gone + error * (gone + alive) + error * alive + 2 * error == error * (2 * (gone
        + alive) + 2)) by (nonlinear_arith);
}

/// Where sums are exact, the value of an account does not change when orders expire: their
/// reservations go back to where they came from.
pub proof fn law_expiry_keeps_the_value<N: Number>(
    account: AccountModel<N>,
    timestamp: i64,
    buy_ttl: i64,
    sell_ttl: i64,
    price: N,
)
    requires
        sums_exactly::<N>(),
    ensures
        account_value(without_expired(account, timestamp, buy_ttl, sell_ttl), price)
            == account_value(account, price),
{
    law_expiry_returns_reservations(account, timestamp, buy_ttl, sell_ttl);
}

/// Where sums are exact, the value of an account does not change when it places orders: what it
/// spends or offers is reserved.
pub proof fn law_placing_orders_keeps_the_value<N: Number>(
    account: AccountModel<N>,
    bar: Bar<N>,
    config: MarketMakerConfig<N>,
    price: N,
)
    requires
        sums_exactly::<N>(),
    ensures
        account_value(with_buy_order(account, bar, config), price) == account_value(
            account,
            price,
        ),
        account_value(with_sell_order(account, bar, config), price) == account_value(
            account,
            price,
        ),
{
    let shares = crate::market_maker::buy_shares(account, bar, config);
    let limit = crate::market_maker::buy_limit(bar, config);
    let bought = with_buy_order(account, bar, config);
    if bought.buy_orders != account.buy_orders {
        lemma_reserved_push(account.buy_orders, bought.buy_orders.last());
        lemma_transfer(
            account.cash,
            reserved_cash(account.buy_orders),
            shares.times_spec(limit),
        );
    }
    let sold = with_sell_order(account, bar, config);
    if zero_spec::<N>().below_spec(account.shares) {
        lemma_reserved_push(account.sell_orders, sold.sell_orders.last());
        reveal(sums_exactly);
        let reserved = reserved_shares(account.sell_orders);
        assert(zero_spec::<N>().plus_spec(reserved.plus_spec(account.shares))
            == reserved.plus_spec(account.shares));
        assert(reserved.plus_spec(account.shares) == account.shares.plus_spec(reserved));
    }
}

// Days

/// Whether two accounts differ at most in what they have logged.
pub open spec fn same_portfolio<N>(left: AccountModel<N>, right: AccountModel<N>) -> bool {
    &&& left.cash == right.cash
    &&& left.shares == right.shares
    &&& left.buy_orders == right.buy_orders
    &&& left.sell_orders == right.sell_orders
}

proof fn lemma_fills_ignore_logs<N: Number>(
    left: Fills<N>,
    right: Fills<N>,
    orders: Seq<LimitOrder<N>>,
    bar: Bar<N>,
    first: Option<Seq<char>>,
    second: Option<Seq<char>>,
)
    requires
        left.orders == right.orders,
        left.proceeds == right.proceeds,
        left.volume == right.volume,
    ensures
        ({
            let (one, other) = (
                fill_buys(left, orders, bar, first),
                fill_buys(right, orders, bar, second),
            );
            one.orders == other.orders && one.proceeds == other.proceeds && one.volume
                == other.volume
        }),
        ({
            let (one, other) = (
                fill_sells(left, orders, bar, first),
                fill_sells(right, orders, bar, second),
            );
            one.orders == other.orders && one.proceeds == other.proceeds && one.volume
                == other.volume
        }),
    decreases orders.len(),
{
    if orders.len() > 0 {
        lemma_fills_ignore_logs(left, right, orders.drop_last(), bar, first, second);
    }
}

/// Whether two configurations differ at most in the cash they start with.
pub open spec fn same_strategy<N>(left: MarketMakerConfig<N>, right: MarketMakerConfig<N>) -> bool {
    left == (MarketMakerConfig { initial_cash: left.initial_cash, ..right })
}

proof fn lemma_bar_ignores_logs<N: Number>(
    left: AccountModel<N>,
    right: AccountModel<N>,
    bar: Bar<N>,
    config: MarketMakerConfig<N>,
    other: MarketMakerConfig<N>,
    first: Option<Seq<char>>,
    second: Option<Seq<char>>,
)
    requires
        same_portfolio(left, right),
        same_strategy(config, other),
    ensures
        same_portfolio(
            after_bar(left, bar, config, first),
            after_bar(right, bar, other, second),
        ),
{
    if !bar.liquidate {
        let buy_ttl = config.buy_ttl as i64;
        let sell_ttl = config.sell_ttl as i64;
        let one = without_expired(left, bar.timestamp, buy_ttl, sell_ttl);
        let two = without_expired(right, bar.timestamp, buy_ttl, sell_ttl);
        let one_start = Fills {
            orders: Seq::empty(),
            proceeds: one.shares,
            volume: config.bar_volume_limit,
            log: one.log,
        };
        let two_start = Fills { log: two.log, ..one_start };
        lemma_fills_ignore_logs(one_start, two_start, one.buy_orders, bar, first, second);
        let one_buys = fill_buys(one_start, one.buy_orders, bar, first);
        let two_buys = fill_buys(two_start, two.buy_orders, bar, second);
        let one_sell_start = Fills {
            orders: Seq::empty(),
            proceeds: one.cash,
            volume: one_buys.volume,
            log: one_buys.log,
        };
        let two_sell_start = Fills { log: two_buys.log, ..one_sell_start };
        lemma_fills_ignore_logs(
            one_sell_start,
            two_sell_start,
            one.sell_orders,
            bar,
            first,
            second,
        );
        let one_traded = after_fills(one, bar, config, first);
        let two_traded = after_fills(two, bar, other, second);
        assert(same_portfolio(one_traded, two_traded));
        assert(same_portfolio(
            with_buy_order(one_traded, bar, config),
            with_buy_order(two_traded, bar, other),
        ));
    }
}

proof fn lemma_bars_ignore_logs<N: Number>(
    left: AccountModel<N>,
    right: AccountModel<N>,
    bars: Seq<Bar<N>>,
    config: MarketMakerConfig<N>,
    other: MarketMakerConfig<N>,
    first: Option<Seq<char>>,
    second: Option<Seq<char>>,
)
    requires
        same_portfolio(left, right),
        same_strategy(config, other),
    ensures
        same_portfolio(
            after_bars(left, bars, config, first),
            after_bars(right, bars, other, second),
        ),
    decreases bars.len(),
{
    if bars.len() > 0 {
        lemma_bars_ignore_logs(left, right, bars.drop_last(), config, other, first, second);
        lemma_bar_ignores_logs(
            after_bars(left, bars.drop_last(), config, first),
            after_bars(right, bars.drop_last(), other, second),
            bars.last(),
            config,
            other,
            first,
            second,
        );
    }
}

/// What a day is worth at its end depends on its bars, on the value that it began with, and on
/// the strategy: neither the name of its file, nor whether executions are logged, nor the cash
/// that the first day began with matters.
pub proof fn law_days_depend_on_their_bars<N: Number>(
    bars: Seq<Bar<N>>,
    initial_value: N,
    config: MarketMakerConfig<N>,
    initial_cash: N,
    logger: Option<Seq<char>>,
    other_logger: Option<Seq<char>>,
)
    ensures
        day_value(bars, initial_value, config, logger) == day_value(
            bars,
            initial_value,
            MarketMakerConfig { initial_cash, ..config },
            other_logger,
        ),
{
    let account = crate::market_maker::opening_account(initial_value);
    let other = MarketMakerConfig { initial_cash, ..config };
    lemma_bars_ignore_logs(account, account, bars, config, other, logger, other_logger);
}

/// A simulation yields the same for days with the same bars, whatever their files are called.
pub proof fn law_file_names_do_not_matter<N: Number>(
    days: Seq<DayModel<N>>,
    renamed: Seq<DayModel<N>>,
    config: MarketMakerConfig<N>,
    log_orders: bool,
)
    requires
        days.len() == renamed.len(),
        forall|index: int|
            0 <= index < days.len() ==> (#[trigger] days[index]).bars == renamed[index].bars,
    ensures
        compounded_value(days, config, log_orders) == compounded_value(
            renamed,
            config,
            log_orders,
        ),
        daily_returns(days, config, log_orders) == daily_returns(renamed, config, log_orders),
    decreases days.len(),
{
    if days.len() > 0 {
        let (rest, other) = (days.drop_last(), renamed.drop_last());
        assert forall|index: int| 0 <= index < rest.len() implies (#[trigger] rest[index]).bars
            == other[index].bars by {
            assert(days[index].bars == renamed[index].bars);
        }
        law_file_names_do_not_matter(rest, other, config, log_orders);
        assert(days[days.len() - 1].bars == renamed[days.len() - 1].bars);
        law_days_depend_on_their_bars(
            days.last().bars,
            compounded_value(rest, config, log_orders),
            config,
            config.initial_cash,
            logger_of(log_orders, days.last().filename),
            logger_of(log_orders, renamed.last().filename),
        );
    }
}

/// Logging executions does not change what a simulation yields.
pub proof fn law_logging_changes_nothing<N: Number>(
    days: Seq<DayModel<N>>,
    config: MarketMakerConfig<N>,
)
    ensures
        compounded_value(days, config, true) == compounded_value(days, config, false),
        daily_returns(days, config, true) == daily_returns(days, config, false),
    decreases days.len(),
{
    if days.len() > 0 {
        let rest = days.drop_last();
        law_logging_changes_nothing(rest, config);
        let account = crate::market_maker::opening_account(compounded_value(rest, config, true));
        lemma_bars_ignore_logs(
            account,
            account,
            days.last().bars,
            config,
            config,
            logger_of(true, days.last().filename),
            logger_of(false, days.last().filename),
        );
    }
}

/// Days compound: a simulation over some days, continued over more from the value that it ended
/// with, yields what a simulation over all of them yields.
pub proof fn law_days_compound<N: Number>(
    first: Seq<DayModel<N>>,
    second: Seq<DayModel<N>>,
    config: MarketMakerConfig<N>,
    log_orders: bool,
)
    ensures
        ({
            let continued = MarketMakerConfig {
                initial_cash: compounded_value(first, config, log_orders),
                ..config
            };
            &&& compounded_value(first + second, config, log_orders) == compounded_value(
                second,
                continued,
                log_orders,
            )
            &&& daily_returns(first + second, config, log_orders) == daily_returns(
                first,
                config,
                log_orders,
            ) + daily_returns(second, continued, log_orders)
        }),
    decreases second.len(),
{
    let continued = MarketMakerConfig {
        initial_cash: compounded_value(first, config, log_orders),
        ..config
    };
    if second.len() == 0 {
        assert(first + second =~= first);
        assert(daily_returns(first, config, log_orders) + daily_returns(
            second,
            continued,
            log_orders,
        ) =~= daily_returns(first, config, log_orders));
    } else {
        let rest = second.drop_last();
        let day = second.last();
        law_days_compound(first, rest, config, log_orders);
        assert((first + second).drop_last() =~= first + rest);
        assert((first + second).last() == day);
        let account = crate::market_maker::opening_account(
            compounded_value(rest, continued, log_orders),
        );
        let logger = logger_of(log_orders, day.filename);
        lemma_bars_ignore_logs(account, account, day.bars, config, continued, logger, logger);
        assert(daily_returns(first + second, config, log_orders) =~= daily_returns(
            first,
            config,
            log_orders,
        ) + daily_returns(second, continued, log_orders));
    }
}

/// A simulation has one return for each day, and a Sharpe ratio from two days on.
pub proof fn law_one_return_per_day<N: Number>(
    days: Seq<DayModel<N>>,
    config: MarketMakerConfig<N>,
    log_orders: bool,
)
    ensures
        simulation(days, config, log_orders) matches Ok(result) ==> {
            &&& result.daily_returns.len() == days.len()
            &&& result.annualized_sharpe is Some <==> days.len() >= 2
        },
        daily_returns(days, config, log_orders).len() == days.len(),
    decreases days.len(),
{
    if days.len() > 0 {
        law_one_return_per_day(days.drop_last(), config, log_orders);
    }
}

// Data

/// Every bar of a file is reliable, has finite positive prices, and is marked for liquidation by
/// the Eastern clock.
pub proof fn law_bars_are_reliable<N: Number>(
    rows: Seq<Seq<Seq<char>>>,
    path: Seq<char>,
    columns: BarColumns,
    index: int,
)
    requires
        bars_of::<N>(rows, path, columns) is Ok,
        0 <= index < bars_of::<N>(rows, path, columns)->Ok_0.len(),
    ensures
        ({
            let bar = bars_of::<N>(rows, path, columns)->Ok_0[index];
            &&& !unreliable(bar.timestamp)
            &&& bar.liquidate == liquidating(moment_of(bar.timestamp))
            &&& bar.low.is_finite_spec() && !bar.low.at_most_spec(zero_spec())
            &&& bar.high.is_finite_spec() && !bar.high.at_most_spec(zero_spec())
            &&& bar.close.is_finite_spec() && !bar.close.at_most_spec(zero_spec())
        }),
    decreases rows.len(),
{
    if rows.len() > 0 {
        let earlier = bars_of::<N>(rows.drop_last(), path, columns)->Ok_0;
        if index < earlier.len() {
            law_bars_are_reliable::<N>(rows.drop_last(), path, columns, index);
        }
    }
}

/// What the unreliable rows of a file say besides their dates does not matter.
pub proof fn law_unreliable_prices_do_not_matter<N: Number>(
    left: Seq<Seq<Seq<char>>>,
    right: Seq<Seq<Seq<char>>>,
    path: Seq<char>,
    columns: BarColumns,
)
    requires
        left.len() == right.len(),
        forall|index: int|
            0 <= index < left.len() ==> #[trigger] left[index] == right[index] || {
                let date = row_timestamp(
                    left[index],
                    path,
                    (index + 2) as nat,
                    columns.timestamp as int,
                );
                &&& field(left[index], columns.timestamp as int) == field(
                    right[index],
                    columns.timestamp as int,
                )
                &&& date is Ok && unreliable(date->Ok_0)
            },
    ensures
        bars_of::<N>(left, path, columns) == bars_of::<N>(right, path, columns),
    decreases left.len(),
{
    if left.len() > 0 {
        assert forall|index: int|
            0 <= index < left.drop_last().len() implies #[trigger] left.drop_last()[index]
            == right.drop_last()[index] || {
            let date = row_timestamp(
                left.drop_last()[index],
                path,
                (index + 2) as nat,
                columns.timestamp as int,
            );
            &&& field(left.drop_last()[index], columns.timestamp as int) == field(
                right.drop_last()[index],
                columns.timestamp as int,
            )
            &&& date is Ok && unreliable(date->Ok_0)
        } by {
            assert(left[index] == left.drop_last()[index]);
        }
        law_unreliable_prices_do_not_matter::<N>(
            left.drop_last(),
            right.drop_last(),
            path,
            columns,
        );
        assert(left[left.len() - 1] == left.last());
    }
}

proof fn lemma_day_count<N: Number>(files: Seq<FileModel>)
    requires
        file_days::<N>(files) is Ok,
    ensures
        file_days::<N>(files)->Ok_0.len() == files.len(),
    decreases files.len(),
{
    if files.len() > 0 {
        lemma_day_count::<N>(files.drop_last());
    }
}

/// Every file makes one day, in the order of the files, and every day has a bar.
pub proof fn law_every_file_is_a_day<N: Number>(files: Seq<FileModel>, index: int)
    requires
        file_days::<N>(files) is Ok,
        0 <= index < files.len(),
    ensures
        ({
            let days = file_days::<N>(files)->Ok_0;
            &&& days.len() == files.len()
            &&& day_of::<N>(files[index]) == Ok::<DayModel<N>, Seq<char>>(days[index])
            &&& days[index].filename == file_name_of(files[index].path)
            &&& days[index].bars.len() > 0
        }),
    decreases files.len(),
{
    lemma_day_count::<N>(files);
    lemma_day_count::<N>(files.drop_last());
    if index < files.len() - 1 {
        law_every_file_is_a_day::<N>(files.drop_last(), index);
    }
}

// Grids

proof fn lemma_for_each_length<A, B>(items: Seq<A>, f: spec_fn(A) -> Seq<B>, length: nat)
    requires
        forall|item: A| (#[trigger] f(item)).len() == length,
    ensures
        for_each(items, f).len() == items.len() * length,
    decreases items.len(),
{
    if items.len() > 0 {
        lemma_for_each_length(items.drop_last(), f, length);
        assert(f(items.last()).len() == length);
        assert((items.len() - 1) * length + length == items.len() * length) by (nonlinear_arith);
    }
}

proof fn lemma_for_each_contains<A, B>(
    items: Seq<A>,
    f: spec_fn(A) -> Seq<B>,
    place: int,
    result: B,
)
    requires
        0 <= place < items.len(),
        f(items[place]).contains(result),
    ensures
        for_each(items, f).contains(result),
    decreases items.len(),
{
    let earlier = for_each(items.drop_last(), f);
    let last = f(items.last());
    if place < items.len() - 1 {
        lemma_for_each_contains(items.drop_last(), f, place, result);
        let index = choose|index: int| 0 <= index < earlier.len() && earlier[index] == result;
        assert((earlier + last)[index] == result);
    } else {
        let index = choose|index: int| 0 <= index < last.len() && last[index] == result;
        assert((earlier + last)[earlier.len() + index] == result);
    }
}

/// A grid has as many combinations as the product of the numbers of choices.
pub proof fn law_grid_size<N: Number>(args: Args<N>)
    ensures
        args.combinations().len() == args.buy_ttls@.len() * (args.sell_ttls@.len() * (
        args.discount_percentages@.len() * (args.markup_percentages@.len()
            * args.bet_sizes@.len()))),
{
    let bets = args.bet_sizes@;
    let markups = args.markup_percentages@;
    let discounts = args.discount_percentages@;
    let sell_ttls = args.sell_ttls@;
    let buy_ttls = args.buy_ttls@;
    assert forall|base: MarketMakerConfig<N>| (#[trigger] markup_configs(
        base,
        markups,
        bets,
    )).len() == markups.len() * bets.len() by {
        lemma_for_each_length(
            markups,
            |markup_percent: N| bet_configs(MarketMakerConfig { markup_percent, ..base }, bets),
            bets.len(),
        );
    }
    assert forall|base: MarketMakerConfig<N>| (#[trigger] discount_configs(
        base,
        discounts,
        markups,
        bets,
    )).len() == discounts.len() * (markups.len() * bets.len()) by {
        lemma_for_each_length(
            discounts,
            |discount_percent: N|
                markup_configs(MarketMakerConfig { discount_percent, ..base }, markups, bets),
            markups.len() * bets.len(),
        );
    }
    assert forall|base: MarketMakerConfig<N>| (#[trigger] sell_ttl_configs(
        base,
        sell_ttls,
        discounts,
        markups,
        bets,
    )).len() == sell_ttls.len() * (discounts.len() * (markups.len() * bets.len())) by {
        lemma_for_each_length(
            sell_ttls,
            |sell_ttl: u64|
                discount_configs(
                    MarketMakerConfig { sell_ttl, ..base },
                    discounts,
                    markups,
                    bets,
                ),
            discounts.len() * (markups.len() * bets.len()),
        );
    }
    let base = args.base();
    lemma_for_each_length(
        buy_ttls,
        |buy_ttl: u64|
            sell_ttl_configs(
                MarketMakerConfig { buy_ttl, ..base },
                sell_ttls,
                discounts,
                markups,
                bets,
            ),
        sell_ttls.len() * (discounts.len() * (markups.len() * bets.len())),
    );
}

/// A grid holds every combination of one choice for each parameter.
pub proof fn law_grid_is_complete<N: Number>(
    args: Args<N>,
    buy: int,
    sell: int,
    discount: int,
    markup: int,
    bet: int,
)
    requires
        0 <= buy < args.buy_ttls@.len(),
        0 <= sell < args.sell_ttls@.len(),
        0 <= discount < args.discount_percentages@.len(),
        0 <= markup < args.markup_percentages@.len(),
        0 <= bet < args.bet_sizes@.len(),
    ensures
        args.combinations().contains(
            (MarketMakerConfig {
                initial_cash: args.initial_cash,
                bar_volume_limit: args.bar_volume_limit,
                buy_ttl: args.buy_ttls@[buy],
                sell_ttl: args.sell_ttls@[sell],
                discount_percent: args.discount_percentages@[discount],
                markup_percent: args.markup_percentages@[markup],
                bet_size: args.bet_sizes@[bet],
            }),
        ),
{
    let bets = args.bet_sizes@;
    let markups = args.markup_percentages@;
    let discounts = args.discount_percentages@;
    let sell_ttls = args.sell_ttls@;
    let buy_ttls = args.buy_ttls@;
    let base = args.base();
    let with_buy = MarketMakerConfig { buy_ttl: buy_ttls[buy], ..base };
    let with_sell = MarketMakerConfig { sell_ttl: sell_ttls[sell], ..with_buy };
    let with_discount = MarketMakerConfig { discount_percent: discounts[discount], ..with_sell };
    let with_markup = MarketMakerConfig { markup_percent: markups[markup], ..with_discount };
    let config = MarketMakerConfig { bet_size: bets[bet], ..with_markup };
    assert(bet_configs(with_markup, bets)[bet] == config);
    lemma_for_each_contains(
        markups,
        |markup_percent: N|
            bet_configs(MarketMakerConfig { markup_percent, ..with_discount }, bets),
        markup,
        config,
    );
    lemma_for_each_contains(
        discounts,
        |discount_percent: N|
            markup_configs(MarketMakerConfig { discount_percent, ..with_sell }, markups, bets),
        discount,
        config,
    );
    lemma_for_each_contains(
        sell_ttls,
        |sell_ttl: u64|
            discount_configs(
                MarketMakerConfig { sell_ttl, ..with_buy },
                discounts,
                markups,
                bets,
            ),
        sell,
        config,
    );
    lemma_for_each_contains(
        buy_ttls,
        |buy_ttl: u64|
            sell_ttl_configs(
                MarketMakerConfig { buy_ttl, ..base },
                sell_ttls,
                discounts,
                markups,
                bets,
            ),
        buy,
        config,
    );
}

/// Groups make the search: evaluating one group of configurations after another yields the
/// candidates of all of them, or the first failure among all of them.
pub proof fn law_groups_make_the_search<N: Number>(
    days: Seq<DayModel<N>>,
    groups: Seq<Seq<MarketMakerConfig<N>>>,
)
    ensures
        candidates_of(days, groups.flatten()) == candidates_by_group(days, groups),
    decreases groups.len(),
{
    if groups.len() == 0 {
        assert(groups.flatten() =~= Seq::empty());
    } else {
        let rest = groups.drop_last();
        law_groups_make_the_search(days, rest);
        groups.lemma_flatten_and_flatten_alt_are_equivalent();
        rest.lemma_flatten_and_flatten_alt_are_equivalent();
        assert(groups.flatten() =~= rest.flatten() + groups.last());
        lemma_candidates_join(days, rest.flatten(), groups.last());
    }
}

/// The candidates of groups of configurations that are evaluated one after another, or the
/// message of the first failure.
pub open spec fn candidates_by_group<N: Number>(
    days: Seq<DayModel<N>>,
    groups: Seq<Seq<MarketMakerConfig<N>>>,
) -> Result<Seq<CandidateModel<N>>, Seq<char>>
    decreases groups.len(),
{
    if groups.len() == 0 {
        Ok(Seq::empty())
    } else {
        joined_candidates(
            candidates_by_group(days, groups.drop_last()),
            candidates_of(days, groups.last()),
        )
    }
}

/// In whichever groups the combinations of a search are evaluated, the outcome is that of the
/// whole search.
pub proof fn law_groups_do_not_change_the_outcome<N: Number>(
    files: Seq<FileModel>,
    args: Args<N>,
    days: Seq<DayModel<N>>,
    groups: Seq<Seq<MarketMakerConfig<N>>>,
    result: Result<GridResult<N>, String>,
)
    ensures
        days_of::<N>(files) == Ok::<_, Seq<char>>(days) && groups.flatten() == args.combinations()
            ==> (is_search_outcome(result, candidates_by_group(days, groups)) <==> is_grid_outcome(
            result,
            files,
            args,
        )),
{
    law_groups_make_the_search(days, groups);
}

/// A search has one candidate for each combination, in the same order.
pub proof fn law_one_candidate_per_combination<N: Number>(
    days: Seq<DayModel<N>>,
    configs: Seq<MarketMakerConfig<N>>,
    index: int,
)
    requires
        candidates_of(days, configs) is Ok,
        0 <= index < configs.len(),
    ensures
        ({
            let candidates = candidates_of(days, configs)->Ok_0;
            &&& candidates.len() == configs.len()
            &&& candidates[index].config == configs[index]
            &&& simulation(days, configs[index], false) == Ok::<_, Seq<char>>(
                candidates[index].result,
            )
        }),
    decreases configs.len(),
{
    lemma_candidate_count(days, configs);
    lemma_candidate_count(days, configs.drop_last());
    if index < configs.len() - 1 {
        law_one_candidate_per_combination(days, configs.drop_last(), index);
    }
}

/// The winner by return is a candidate, there is one whenever there is a candidate, and no
/// candidate ends with more.
pub proof fn law_no_candidate_beats_the_return<N: Number>(candidates: Seq<CandidateModel<N>>)
    requires
        orders_strictly::<N>(),
    ensures
        match highest_return(candidates) {
            Some(winner) => {
                &&& candidates.contains(winner)
                &&& forall|index: int|
                    0 <= index < candidates.len() ==> !winner.result.final_value.below_spec(
                        (#[trigger] candidates[index]).result.final_value,
                    )
            },
            None => candidates.len() == 0,
        },
    decreases candidates.len(),
{
    reveal(orders_strictly);
    if candidates.len() > 0 {
        let rest = candidates.drop_last();
        law_no_candidate_beats_the_return(rest);
        let last = candidates.last();
        let winner = highest_return(candidates)->0;
        assert(candidates[candidates.len() - 1] == last);
        if rest.len() > 0 {
            let earlier = highest_return(rest)->0;
            let place = choose|place: int| 0 <= place < rest.len() && rest[place] == earlier;
            assert(candidates[place] == earlier);
            assert forall|index: int|
                0 <= index < candidates.len() implies !winner.result.final_value.below_spec(
                (#[trigger] candidates[index]).result.final_value,
            ) by {
                let value = candidates[index].result.final_value;
                if index < rest.len() {
                    assert(rest[index] == candidates[index]);
                    assert(!earlier.result.final_value.below_spec(value));
                }
            }
        }
    }
}

/// Whether a candidate has no Sharpe ratio, or one that another ratio is not below.
pub open spec fn not_above<N: Number>(candidate: CandidateModel<N>, sharpe: N) -> bool {
    candidate.result.annualized_sharpe matches Some(other) ==> !sharpe.below_spec(other)
}

/// The winner by Sharpe ratio is a candidate that has one, there is one whenever a candidate has
/// one, and no candidate has a higher one.
pub proof fn law_no_candidate_beats_the_sharpe_ratio<N: Number>(
    candidates: Seq<CandidateModel<N>>,
)
    requires
        orders_strictly::<N>(),
    ensures
        match highest_sharpe(candidates) {
            Some(winner) => {
                &&& candidates.contains(winner)
                &&& winner.result.annualized_sharpe is Some
                &&& forall|index: int|
                    0 <= index < candidates.len() ==> not_above(
                        #[trigger] candidates[index],
                        winner.result.annualized_sharpe->0,
                    )
            },
            None => forall|index: int|
                0 <= index < candidates.len() ==> (
                #[trigger] candidates[index]).result.annualized_sharpe is None,
        },
    decreases candidates.len(),
{
    reveal(orders_strictly);
    if candidates.len() > 0 {
        let rest = candidates.drop_last();
        law_no_candidate_beats_the_sharpe_ratio(rest);
        let last = candidates.last();
        assert(candidates[candidates.len() - 1] == last);
        assert forall|index: int| 0 <= index < rest.len() implies #[trigger] rest[index]
            == candidates[index] by {}
        if let Some(earlier) = highest_sharpe(rest) {
            let place = choose|place: int| 0 <= place < rest.len() && rest[place] == earlier;
            assert(candidates[place] == earlier);
        }
        if let Some(winner) = highest_sharpe(candidates) {
            assert forall|index: int| 0 <= index < candidates.len() implies not_above(
                #[trigger] candidates[index],
                winner.result.annualized_sharpe->0,
            ) by {
                if index < rest.len() {
                    assert(rest[index] == candidates[index]);
                    if let Some(earlier) = highest_sharpe(rest) {
                        assert(not_above(rest[index], earlier.result.annualized_sharpe->0));
                    }
                }
            }
        } else {
            assert forall|index: int| 0 <= index < candidates.len() implies (
            #[trigger] candidates[index]).result.annualized_sharpe is None by {
                if index < rest.len() {
                    assert(rest[index] == candidates[index]);
                }
            }
        }
    }
}

/// Whether the values that candidates end with lie on one line, as finite numbers do.
pub open spec fn returns_on_one_line<N: Number>(candidates: Seq<CandidateModel<N>>) -> bool {
    forall|first: int, second: int, third: int|
        #![trigger candidates[first], candidates[second], candidates[third]]
        0 <= first < candidates.len() && 0 <= second < candidates.len() && 0 <= third
            < candidates.len() ==> on_one_line(
            candidates[first].result.final_value,
            candidates[second].result.final_value,
            candidates[third].result.final_value,
        )
}

/// Whether the candidate at a place is the winner by return: every candidate before it ends with
/// less, and none ends with more.
pub open spec fn wins_by_return<N: Number>(
    candidates: Seq<CandidateModel<N>>,
    place: int,
) -> bool {
    &&& 0 <= place < candidates.len()
    &&& forall|earlier: int|
        0 <= earlier < place ==> (#[trigger] candidates[earlier]).result.final_value.below_spec(
            candidates[place].result.final_value,
        )
    &&& forall|index: int|
        0 <= index < candidates.len() ==> !candidates[place].result.final_value.below_spec(
            (#[trigger] candidates[index]).result.final_value,
        )
}

/// In a tie by return the first candidate wins: exactly one place has no candidate as good before
/// it and none better anywhere, and the winner is the candidate there.
pub proof fn law_the_first_of_the_best_returns_wins<N: Number>(
    candidates: Seq<CandidateModel<N>>,
)
    requires
        orders_strictly::<N>(),
        returns_on_one_line(candidates),
        candidates.len() > 0,
    ensures
        exists|place: int| #[trigger] wins_by_return(candidates, place),
        forall|place: int| #[trigger]
            wins_by_return(candidates, place) ==> highest_return(candidates) == Some(
                candidates[place],
            ),
{
    let winner = lemma_first_best_return(candidates);
    assert forall|place: int| #[trigger] wins_by_return(candidates, place) implies highest_return(
        candidates,
    ) == Some(candidates[place]) by {
        if place < winner {
            assert(candidates[place].result.final_value.below_spec(
                candidates[winner].result.final_value,
            ));
        } else if winner < place {
            assert(candidates[winner].result.final_value.below_spec(
                candidates[place].result.final_value,
            ));
        }
    }
}

proof fn lemma_first_best_return<N: Number>(candidates: Seq<CandidateModel<N>>) -> (place: int)
    requires
        orders_strictly::<N>(),
        returns_on_one_line(candidates),
        candidates.len() > 0,
    ensures
        wins_by_return(candidates, place),
        highest_return(candidates) == Some(candidates[place]),
    decreases candidates.len(),
{
    reveal(orders_strictly);
    let rest = candidates.drop_last();
    let last = candidates.len() - 1;
    assert(candidates[last] == candidates.last());
    if rest.len() == 0 {
        assert(highest_return(rest) is None);
        last
    } else {
        assert forall|index: int| 0 <= index < rest.len() implies candidates[index]
            == #[trigger] rest[index] by {}
        let earlier = lemma_first_best_return(rest);
        let best = rest[earlier].result.final_value;
        let value = candidates.last().result.final_value;
        assert(candidates[earlier].result.final_value == best);
        if best.below_spec(value) {
            assert forall|index: int| 0 <= index < last implies (
            #[trigger] candidates[index]).result.final_value.below_spec(value) by {
                assert(!best.below_spec(rest[index].result.final_value));
                assert(on_one_line(
                    candidates[earlier].result.final_value,
                    candidates[last].result.final_value,
                    candidates[index].result.final_value,
                ));
            }
            assert forall|index: int| 0 <= index < candidates.len() implies !value.below_spec(
                (#[trigger] candidates[index]).result.final_value,
            ) by {
                if index < last {
                    assert(candidates[index].result.final_value.below_spec(value));
                }
            }
            last
        } else {
            assert forall|index: int| 0 <= index < earlier implies (
            #[trigger] candidates[index]).result.final_value.below_spec(best) by {
                assert(rest[index].result.final_value.below_spec(best));
            }
            assert forall|index: int| 0 <= index < candidates.len() implies !best.below_spec(
                (#[trigger] candidates[index]).result.final_value,
            ) by {
                if index < last {
                    assert(!best.below_spec(rest[index].result.final_value));
                }
            }
            earlier
        }
    }
}

/// Whether the Sharpe ratios of candidates lie on one line, as finite numbers do.
pub open spec fn sharpe_ratios_on_one_line<N: Number>(candidates: Seq<CandidateModel<N>>) -> bool {
    forall|first: int, second: int, third: int|
        #![trigger candidates[first], candidates[second], candidates[third]]
        0 <= first < candidates.len() && 0 <= second < candidates.len() && 0 <= third
            < candidates.len() ==> match (
            candidates[first].result.annualized_sharpe,
            candidates[second].result.annualized_sharpe,
            candidates[third].result.annualized_sharpe,
        ) {
            (Some(one), Some(other), Some(another)) => on_one_line(one, other, another),
            _ => true,
        }
}

/// Whether a candidate has no Sharpe ratio, or one that is below another ratio.
pub open spec fn is_below<N: Number>(candidate: CandidateModel<N>, sharpe: N) -> bool {
    candidate.result.annualized_sharpe matches Some(other) ==> other.below_spec(sharpe)
}

/// Whether the candidate at a place is the winner by Sharpe ratio: every ratio before it is
/// lower, and none is higher.
pub open spec fn wins_by_sharpe_ratio<N: Number>(
    candidates: Seq<CandidateModel<N>>,
    place: int,
) -> bool {
    &&& 0 <= place < candidates.len()
    &&& candidates[place].result.annualized_sharpe matches Some(sharpe) && {
        &&& forall|earlier: int|
            0 <= earlier < place ==> is_below(#[trigger] candidates[earlier], sharpe)
        &&& forall|index: int|
            0 <= index < candidates.len() ==> not_above(#[trigger] candidates[index], sharpe)
    }
}

/// In a tie by Sharpe ratio the first candidate wins: if any candidate has a ratio, exactly one
/// place has no ratio as high before it and none higher anywhere, and the winner is the candidate
/// there.
pub proof fn law_the_first_of_the_best_sharpe_ratios_wins<N: Number>(
    candidates: Seq<CandidateModel<N>>,
)
    requires
        orders_strictly::<N>(),
        sharpe_ratios_on_one_line(candidates),
    ensures
        (exists|place: int| #[trigger] wins_by_sharpe_ratio(candidates, place)) <==> (exists|
            index: int,
        |
            0 <= index < candidates.len() && (
            #[trigger] candidates[index]).result.annualized_sharpe is Some),
        forall|place: int| #[trigger]
            wins_by_sharpe_ratio(candidates, place) ==> highest_sharpe(candidates) == Some(
                candidates[place],
            ),
{
    match lemma_first_best_sharpe_ratio(candidates) {
        Some(winner) => {
            assert(candidates[winner].result.annualized_sharpe is Some);
            assert forall|place: int| #[trigger]
                wins_by_sharpe_ratio(candidates, place) implies highest_sharpe(candidates) == Some(
                candidates[place],
            ) by {
                let best = candidates[winner].result.annualized_sharpe->0;
                let sharpe = candidates[place].result.annualized_sharpe->0;
                assert(not_above(candidates[place], best));
                assert(not_above(candidates[winner], sharpe));
                if place < winner {
                    assert(is_below(candidates[place], best));
                } else if winner < place {
                    assert(is_below(candidates[winner], sharpe));
                }
            }
        },
        None => {
            assert forall|place: int| !#[trigger] wins_by_sharpe_ratio(candidates, place) by {
                if 0 <= place < candidates.len() {
                    assert(candidates[place].result.annualized_sharpe is None);
                }
            }
        },
    }
}

proof fn lemma_first_best_sharpe_ratio<N: Number>(candidates: Seq<CandidateModel<N>>) -> (result:
    Option<int>)
    requires
        orders_strictly::<N>(),
        sharpe_ratios_on_one_line(candidates),
    ensures
        match result {
            Some(place) => {
                &&& wins_by_sharpe_ratio(candidates, place)
                &&& highest_sharpe(candidates) == Some(candidates[place])
            },
            None => {
                &&& highest_sharpe(candidates) is None
                &&& forall|index: int|
                    0 <= index < candidates.len() ==> (
                    #[trigger] candidates[index]).result.annualized_sharpe is None
            },
        },
    decreases candidates.len(),
{
    reveal(orders_strictly);
    if candidates.len() == 0 {
        None
    } else {
        let rest = candidates.drop_last();
        let last = candidates.len() - 1;
        assert(candidates[last] == candidates.last());
        assert forall|index: int| 0 <= index < rest.len() implies candidates[index]
            == #[trigger] rest[index] by {}
        let earlier = lemma_first_best_sharpe_ratio(rest);
        match (earlier, candidates.last().result.annualized_sharpe) {
            (None, None) => {
                assert forall|index: int| 0 <= index < candidates.len() implies (
                #[trigger] candidates[index]).result.annualized_sharpe is None by {
                    if index < last {
                        assert(rest[index].result.annualized_sharpe is None);
                    }
                }
                None
            },
            (None, Some(sharpe)) => {
                assert forall|index: int| 0 <= index < last implies (
                #[trigger] candidates[index]).result.annualized_sharpe is None by {
                    assert(rest[index].result.annualized_sharpe is None);
                }
                Some(last)
            },
            (Some(place), sharpe) => {
                let best = rest[place].result.annualized_sharpe->0;
                assert(candidates[place] == rest[place]);
                if sharpe matches Some(value) && best.below_spec(value) {
                    let value = sharpe->0;
                    assert forall|index: int| 0 <= index < last implies is_below(
                        #[trigger] candidates[index],
                        value,
                    ) by {
                        assert(not_above(rest[index], best));
                        if let Some(ratio) = candidates[index].result.annualized_sharpe {
                            assert(candidates[last].result.annualized_sharpe == Some(value));
                            assert(on_one_line(best, value, ratio));
                        }
                    }
                    assert forall|index: int| 0 <= index < candidates.len() implies not_above(
                        #[trigger] candidates[index],
                        value,
                    ) by {
                        if index < last {
                            assert(is_below(candidates[index], value));
                        }
                    }
                    Some(last)
                } else {
                    assert forall|index: int| 0 <= index < place implies is_below(
                        #[trigger] candidates[index],
                        best,
                    ) by {
                        assert(is_below(rest[index], best));
                    }
                    assert forall|index: int| 0 <= index < candidates.len() implies not_above(
                        #[trigger] candidates[index],
                        best,
                    ) by {
                        if index < last {
                            assert(not_above(rest[index], best));
                        }
                    }
                    Some(place)
                }
            },
        }
    }
}

} // verus!
