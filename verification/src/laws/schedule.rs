//! Laws that say by the clock, in seconds, and in decimal numbers when the library acts and what
//! it accepts.
use crate::backtest::{
    discount_of, nonnegative_of, percent_of as argument_percent_of, positive_of, unreliable,
};
use crate::cancellation::due;
use crate::clock::{eastern_clock, liquidating, moment_of};
use crate::fixed::Fixed;
use crate::historical::{bar_seconds, BarSize};
use crate::infer::valid_normalization;
use crate::laws::amounts::{lemma_constants, lemma_times};
use crate::metrics::percent_text;
use crate::number::{hundred_spec, Number};
use crate::orders::{reported_order, Action, OrderData};
use crate::report::day_line;
use crate::run::{
    percent_of, positive_percent_of, with_position, with_quote, without_stale_quotes,
    PositionUpdate, Side, VolatileModel,
};
use crate::series::usable;
use crate::state::OpenOrderModel;
use crate::text::digits;
use vstd::prelude::*;

verus! {

// The clock

/// Whether an hour and a minute are at or after others.
pub open spec fn not_before(hour: u8, minute: u8, from_hour: u8, from_minute: u8) -> bool {
    hour > from_hour || (hour == from_hour && minute >= from_minute)
}

/// Positions are liquidated from 15:45 until 20:05 on a clock in New York.
pub proof fn law_liquidation_follows_the_clock(moment: int)
    ensures
        eastern_clock(moment).1 < 60 && eastern_clock(moment).2 < 60 ==> {
            let (hour, minute, _, _) = eastern_clock(moment);
            liquidating(moment) <==> not_before(hour, minute, 15, 45) && !not_before(
                hour,
                minute,
                20,
                5,
            )
        },
{
}

/// Trade reports are unreliable from 4:00 until 4:15 on a clock in New York.
pub proof fn law_early_data_follows_the_clock(timestamp: i64)
    ensures
        ({
            let (hour, minute, second, _) = eastern_clock(moment_of(timestamp));
            minute < 60 && second < 60 ==> (unreliable(timestamp) <==> hour == 4 && minute < 15)
        }),
{
}

/// The prices that models are trained on are those of the regular session, from 9:30 until 16:00
/// on a clock in New York.
pub proof fn law_training_data_follows_the_clock(timestamp: i64)
    ensures
        ({
            let (hour, minute, second, _) = eastern_clock(moment_of(timestamp));
            minute < 60 && second < 60 ==> (usable(timestamp) <==> not_before(hour, minute, 9, 30)
                && hour < 16)
        }),
{
}

// Ages

/// An order that was never tried is cancelled as soon as it is 5 seconds old if it buys and 30 if
/// it sells. During liquidation it is cancelled at once if it buys, and at 60 seconds if it sells.
pub proof fn law_orders_expire_by_their_age(
    order: OpenOrderModel,
    side: Side,
    liquidating: bool,
    now: i128,
)
    requires
        order.last_cancelled_at is None,
    ensures
        ({
            let age = now - order.created_at;
            due(order, side, liquidating, now) <==> match side {
                Side::Buy => age >= 5_000_000_000 || (liquidating && age >= 0),
                Side::Sell => age >= 60_000_000_000 || (!liquidating && age >= 30_000_000_000),
            }
        }),
{
}

/// A side of the quote is cleared exactly if it is more than five minutes old, with its moment.
/// Nothing else changes.
pub proof fn law_quotes_expire_by_their_age<N>(state: VolatileModel<N>, now: i128)
    ensures
        ({
            let after = without_stale_quotes(state, now);
            &&& state.bid_price_timestamp matches Some(moment) ==> if now - moment
                > 300_000_000_000 {
                after.bid_price is None && after.bid_price_timestamp is None
            } else {
                after.bid_price == state.bid_price && after.bid_price_timestamp
                    == state.bid_price_timestamp
            }
            &&& state.ask_price_timestamp matches Some(moment) ==> if now - moment
                > 300_000_000_000 {
                after.ask_price is None && after.ask_price_timestamp is None
            } else {
                after.ask_price == state.ask_price && after.ask_price_timestamp
                    == state.ask_price_timestamp
            }
            &&& after.position_shares == state.position_shares
            &&& after.equity_with_loan_value == state.equity_with_loan_value
            &&& after.init_margin_req == state.init_margin_req
            &&& after.open_orders == state.open_orders
        }),
{
}

// Reports

/// A quote is retained on each side that is above zero, and clears the other.
pub proof fn law_quotes_are_positive(
    state: VolatileModel<Fixed>,
    bid: Fixed,
    ask: Fixed,
    moment: i128,
)
    ensures
        ({
            let after = with_quote(state, bid, ask, moment);
            &&& after.bid_price == if bid.units > 0 {
                Some(bid)
            } else {
                None
            }
            &&& after.ask_price == if ask.units > 0 {
                Some(ask)
            } else {
                None
            }
            &&& after.position_shares == state.position_shares
        }),
{
    lemma_constants();
}

/// The last position reported of the symbol counts, and the end of the snapshot means zero only
/// if there was none.
pub proof fn law_the_last_position_counts(
    state: VolatileModel<Fixed>,
    symbol: Seq<char>,
    reported: String,
    shares: Fixed,
)
    requires
        reported@ == symbol,
    ensures
        ({
            let held = with_position(
                state,
                symbol,
                PositionUpdate::Position { symbol: reported, shares },
            );
            let ended = with_position(held, symbol, PositionUpdate::PositionEnd);
            &&& held.position_shares == Some(shares)
            &&& ended.position_shares == Some(shares)
        }),
        state.position_shares is None ==> with_position(
            state,
            symbol,
            PositionUpdate::PositionEnd,
        ).position_shares == Some(Fixed { units: 0 }),
{
    lemma_constants();
}

/// What is filled of a reported order and what remains of it are its total.
pub proof fn law_reported_shares_add_up(data: OrderData<Fixed>)
    requires
        0 <= data.filled_quantity.units <= data.total_quantity.units,
    ensures
        reported_order(data) matches Ok(order) ==> {
            &&& order.filled_shares.units + order.remaining_shares.units
                == data.total_quantity.units
            &&& order.filled_shares == data.filled_quantity
            &&& data.limit_price == Some(order.price)
            &&& order.side == Side::Buy <==> data.action == Action::Buy
            &&& order.side == Side::Sell <==> data.action == Action::Sell
        },
{
}

/// A percentage is at most one hundred and, if it has to be positive, above zero. Every decimal
/// number in that range is accepted as it is.
pub proof fn law_percentages_are_in_range(text: Seq<char>)
    ensures
        match Fixed::parse_spec(text) {
            Ok(number) => {
                &&& 0 < number.units <= 100_000_000 <==> positive_percent_of::<Fixed>(text) is Ok
                &&& 0 <= number.units <= 100_000_000 <==> percent_of::<Fixed>(text) is Ok
                &&& positive_percent_of::<Fixed>(text) matches Ok(percent) ==> percent == number
                &&& percent_of::<Fixed>(text) matches Ok(percent) ==> percent == number
            },
            Err(_) => positive_percent_of::<Fixed>(text) is Err && percent_of::<Fixed>(
                text,
            ) is Err,
        },
{
    lemma_constants();
}

// Arguments

/// An argument that has to be positive is any finite decimal number above zero, one that must not
/// be negative may also be zero, and a percentage is also at most one hundred, a discount less than
/// that. Each is taken as it is.
pub proof fn law_arguments_are_in_range(text: Seq<char>)
    ensures
        match Fixed::parse_spec(text) {
            Ok(number) => {
                let finite = i64::MIN < number.units < i64::MAX;
                &&& positive_of::<Fixed>(text) is Ok <==> finite && number.units > 0
                &&& nonnegative_of::<Fixed>(text) is Ok <==> finite && number.units >= 0
                &&& argument_percent_of::<Fixed>(text) is Ok <==> 0 <= number.units <= 100_000_000
                &&& discount_of::<Fixed>(text) is Ok <==> 0 <= number.units < 100_000_000
                &&& discount_of::<Fixed>(text) matches Ok(value) ==> value == number
                &&& positive_of::<Fixed>(text) matches Ok(value) ==> value == number
                &&& nonnegative_of::<Fixed>(text) matches Ok(value) ==> value == number
                &&& argument_percent_of::<Fixed>(text) matches Ok(value) ==> value == number
            },
            Err(message) => {
                &&& positive_of::<Fixed>(text) == Err::<Fixed, Seq<char>>(message)
                &&& nonnegative_of::<Fixed>(text) == Err::<Fixed, Seq<char>>(message)
                &&& argument_percent_of::<Fixed>(text) == Err::<Fixed, Seq<char>>(message)
            },
        },
{
    lemma_constants();
}

/// Returns can be normalized by a finite mean and by a finite deviation of more than a millionth.
pub proof fn law_normalization_needs_a_deviation(mean: Fixed, deviation: Fixed)
    ensures
        valid_normalization(mean, deviation) <==> i64::MIN < mean.units < i64::MAX && 1
            < deviation.units < i64::MAX,
{
}

// Reports

/// Rates are reported in percent: what is shown, to two decimal places, is a hundred times the
/// rate.
pub proof fn law_rates_are_shown_in_percent(rate: Fixed, day: nat)
    requires
        -90_000_000_000_000_000 <= rate.units <= 90_000_000_000_000_000,
    ensures
        ({
            let percent = Fixed { units: (rate.units * 100) as i64 };
            &&& percent_text(rate) == percent.show_fixed_spec(2)
            &&& day_line(day, rate) == "  Day "@ + digits(day) + ": "@ + percent.show_fixed_spec(2)
                + "%"@
        }),
{
    lemma_constants();
    lemma_times(rate, hundred_spec());
    lemma_times(hundred_spec(), rate);
}

// Bars

/// Bar sizes are multiples of one another: a minute has 60 seconds, an hour 60 minutes, a day 24
/// hours, a week seven days, and a month at most 31.
pub proof fn law_bar_sizes_are_multiples()
    ensures
        ({
            let (second, minute) = (bar_seconds(BarSize::Sec), bar_seconds(BarSize::Min));
            let (hour, day) = (bar_seconds(BarSize::Hour), bar_seconds(BarSize::Day));
            &&& second == 1
            &&& bar_seconds(BarSize::Sec5) == 5 * second
            &&& bar_seconds(BarSize::Sec10) == 10 * second
            &&& bar_seconds(BarSize::Sec15) == 15 * second
            &&& bar_seconds(BarSize::Sec30) == 30 * second
            &&& minute == 60 * second
            &&& bar_seconds(BarSize::Min2) == 2 * minute
            &&& bar_seconds(BarSize::Min3) == 3 * minute
            &&& bar_seconds(BarSize::Min4) == 4 * minute
            &&& bar_seconds(BarSize::Min5) == 5 * minute
            &&& bar_seconds(BarSize::Min10) == 10 * minute
            &&& bar_seconds(BarSize::Min15) == 15 * minute
            &&& bar_seconds(BarSize::Min20) == 20 * minute
            &&& bar_seconds(BarSize::Min30) == 30 * minute
            &&& hour == 60 * minute
            &&& bar_seconds(BarSize::Hour2) == 2 * hour
            &&& bar_seconds(BarSize::Hour3) == 3 * hour
            &&& bar_seconds(BarSize::Hour4) == 4 * hour
            &&& bar_seconds(BarSize::Hour8) == 8 * hour
            &&& day == 24 * hour
            &&& bar_seconds(BarSize::Week) == 7 * day
            &&& bar_seconds(BarSize::Month) == 31 * day
        }),
{
}

} // verus!
