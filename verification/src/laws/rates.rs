//! Laws that say in decimal arithmetic what labels, normalized returns, and rates are.
use crate::backtest::{boundary_of, file_boundaries, held_value};
use crate::files::FileModel;
use crate::fixed::Fixed;
use crate::infer::Predictor;
use crate::laws::amounts::{lemma_constants, lemma_over, lemma_times};
use crate::laws::learning::law_the_first_crossing_decides;
use crate::number::Number;
use crate::series::returns_of;
use crate::train::{
    barriers, crossing, first_crossing, normalized_returns, outcome_of, windows_of,
    PriceOutcome,
};
use vstd::prelude::*;

verus! {

// Labels

/// Whether a price is more than half a percent above a reference.
pub open spec fn rises(price: Fixed, reference: Fixed) -> bool {
    1_000 * price.units > 1_005 * reference.units
}

/// Whether a price is more than half a percent below a reference, by a whole millionth if the
/// barrier is not a whole number of them.
pub open spec fn falls(price: Fixed, reference: Fixed) -> bool {
    1_000 * (price.units + 1) <= 995 * reference.units
}

/// Whether some price after one place up to another rises above that at the first place, and none
/// before it falls.
pub open spec fn rises_first(prices: Seq<Fixed>, now: int, last: int) -> bool {
    exists|place: int|
        now < place <= last && #[trigger] rises(prices[place], prices[now]) && forall|earlier: int|
            now < earlier < place ==> !(#[trigger] falls(prices[earlier], prices[now]))
}

/// Whether some price after one place up to another falls below that at the first place, and none
/// before it rises.
pub open spec fn falls_first(prices: Seq<Fixed>, now: int, last: int) -> bool {
    exists|place: int|
        now < place <= last && #[trigger] falls(prices[place], prices[now]) && forall|earlier: int|
            now < earlier < place ==> !(#[trigger] rises(prices[earlier], prices[now]))
}

proof fn lemma_barriers(price: Fixed, reference: Fixed)
    requires
        0 < reference.units <= 1_000_000_000_000_000_000,
    ensures
        ({
            let (lower, upper) = barriers(reference);
            crossing(price, lower, upper) == if rises(price, reference) {
                Some(PriceOutcome::UpperFirst)
            } else if falls(price, reference) {
                Some(PriceOutcome::LowerFirst)
            } else {
                None
            }
        }),
        !(rises(price, reference) && falls(price, reference)),
{
    lemma_constants();
    let step = Fixed::ratio_spec(5, 1_000);
    let (numerator, denominator): (int, int) = (5, 1_000);
    assert((2 * numerator * 1_000_000 + denominator) / (2 * denominator) == 5_000)
        by (nonlinear_arith)
        requires
            numerator == 5,
            denominator == 1_000,
    ;
    assert(step.units == 5_000);
    let (lower, upper) = barriers(reference);
    let units = reference.units as int;
    assert(lower.units == units * 995_000 / 1_000_000);
    assert(upper.units == units * 1_005_000 / 1_000_000);
}

/// A window is labelled by the first move of more than half a percent from its last observed
/// price: as one that rises exactly if some future price is more than half a percent above it and
/// none before that is more than half a percent below it, as one that falls the other way round,
/// and otherwise as neither.
pub proof fn law_labels_follow_half_percent_moves(
    prices: Seq<Fixed>,
    inputs: int,
    outputs: int,
    mean: Fixed,
    deviation: Fixed,
    start: int,
)
    requires
        0 <= inputs,
        0 <= outputs,
        0 <= start,
        start + inputs + outputs < prices.len(),
        0 < prices[start + inputs].units <= 1_000_000_000_000_000_000,
    ensures
        ({
            let target = windows_of(prices, inputs, outputs, mean, deviation)[start].target;
            let now = start + inputs;
            &&& target == PriceOutcome::UpperFirst <==> rises_first(prices, now, now + outputs)
            &&& target == PriceOutcome::LowerFirst <==> falls_first(prices, now, now + outputs)
            &&& target == PriceOutcome::Neither <==> forall|place: int|
                now < place <= now + outputs ==> !(#[trigger] rises(prices[place], prices[now]))
                    && !falls(prices[place], prices[now])
        }),
{
    let length = inputs + outputs + 1;
    let window = prices.subrange(start, start + length);
    let now = start + inputs;
    let last = now + outputs;
    let reference = prices[now];
    assert(window[inputs] == reference);
    let future = window.skip(inputs + 1);
    let (lower, upper) = barriers(reference);
    let target = windows_of(prices, inputs, outputs, mean, deviation)[start].target;
    assert(target == outcome_of(window, inputs));
    law_the_first_crossing_decides(future, lower, upper);
    assert forall|place: int| now < place <= last implies {
        &&& #[trigger] prices[place] == future[place - now - 1]
        &&& crossing(prices[place], lower, upper) == if rises(prices[place], reference) {
            Some(PriceOutcome::UpperFirst)
        } else if falls(prices[place], reference) {
            Some(PriceOutcome::LowerFirst)
        } else {
            None
        }
        &&& !(rises(prices[place], reference) && falls(prices[place], reference))
    } by {
        lemma_barriers(prices[place], reference);
    }
    if let Some(outcome) = first_crossing(future, lower, upper) {
        let index = choose|index: int|
            0 <= index < future.len() && #[trigger] crossing(future[index], lower, upper) == Some(
                outcome,
            ) && forall|earlier: int|
                0 <= earlier < index ==> #[trigger] crossing(
                    future[earlier],
                    lower,
                    upper,
                ) is None;
        let place = now + 1 + index;
        assert(prices[place] == future[index]);
        assert forall|earlier: int| now < earlier < place implies !(#[trigger] rises(
            prices[earlier],
            reference,
        )) && !falls(prices[earlier], reference) by {
            assert(crossing(future[earlier - now - 1], lower, upper) is None);
        }
        assert(rises(prices[place], reference) || falls(prices[place], reference));
    } else {
        assert forall|place: int| now < place <= last implies !(#[trigger] rises(
            prices[place],
            reference,
        )) && !falls(prices[place], reference) by {
            assert(crossing(future[place - now - 1], lower, upper) is None);
        }
    }
}

/// Scaling all prices of a window by a whole factor keeps its label, if half a percent of its
/// last observed price is a whole number of millionths.
pub proof fn law_labels_do_not_depend_on_the_scale(
    prices: Seq<Fixed>,
    scaled: Seq<Fixed>,
    factor: int,
    inputs: int,
    outputs: int,
    mean: Fixed,
    deviation: Fixed,
    start: int,
)
    requires
        0 <= inputs,
        0 <= outputs,
        0 <= start,
        start + inputs + outputs < prices.len(),
        0 < prices[start + inputs].units,
        prices[start + inputs].units % 200 == 0,
        scaled[start + inputs].units <= 1_000_000_000_000_000_000,
        factor >= 1,
        scaled.len() == prices.len(),
        forall|place: int|
            0 <= place < prices.len() ==> #[trigger] scaled[place].units == factor
                * prices[place].units,
    ensures
        windows_of(scaled, inputs, outputs, mean, deviation)[start].target == windows_of(
            prices,
            inputs,
            outputs,
            mean,
            deviation,
        )[start].target,
{
    let now = start + inputs;
    let last = now + outputs;
    let (small, large) = (prices[now], scaled[now]);
    assert(small.units <= large.units) by (nonlinear_arith)
        requires
            large.units == factor * small.units,
            factor >= 1,
            small.units > 0,
    ;
    law_labels_follow_half_percent_moves(prices, inputs, outputs, mean, deviation, start);
    law_labels_follow_half_percent_moves(scaled, inputs, outputs, mean, deviation, start);
    assert forall|place: int| now < place <= last implies {
        &&& #[trigger] rises(scaled[place], large) <==> rises(prices[place], small)
        &&& falls(scaled[place], large) <==> falls(prices[place], small)
    } by {
        let (price, reference) = (prices[place].units as int, small.units as int);
        let barrier = reference / 200;
        assert(reference == 200 * barrier);
        let (above, below) = (price - 201 * barrier, 199 * barrier - price);
        assert(scaled[place].units - 201 * (factor * barrier) == factor * above
            && 199 * (factor * barrier) - scaled[place].units == factor * below
            && large.units == 200 * (factor * barrier)) by (nonlinear_arith)
            requires
                scaled[place].units == factor * price,
                large.units == factor * reference,
                reference == 200 * barrier,
                above == price - 201 * barrier,
                below == 199 * barrier - price,
        ;
        assert((factor * above > 0 <==> above > 0) && (factor * below >= 1 <==> below >= 1))
            by (nonlinear_arith)
            requires
                factor >= 1,
        ;
    }
    if rises_first(prices, now, last) {
        let place = choose|place: int|
            now < place <= last && #[trigger] rises(prices[place], small) && forall|earlier: int|
                now < earlier < place ==> !(#[trigger] falls(prices[earlier], small));
        assert(rises(scaled[place], large));
        assert forall|earlier: int| now < earlier < place implies !(#[trigger] falls(
            scaled[earlier],
            large,
        )) by {
            assert(rises(scaled[earlier], large) <==> rises(prices[earlier], small));
            assert(!falls(prices[earlier], small));
        }
        assert(rises_first(scaled, now, last));
    } else if falls_first(prices, now, last) {
        let place = choose|place: int|
            now < place <= last && #[trigger] falls(prices[place], small) && forall|earlier: int|
                now < earlier < place ==> !(#[trigger] rises(prices[earlier], small));
        assert(rises(scaled[place], large) <==> rises(prices[place], small));
        assert(falls(scaled[place], large));
        assert forall|earlier: int| now < earlier < place implies !(#[trigger] rises(
            scaled[earlier],
            large,
        )) by {
            assert(!rises(prices[earlier], small));
        }
        assert(falls_first(scaled, now, last));
    } else {
        let target = windows_of(prices, inputs, outputs, mean, deviation)[start].target;
        assert(target == PriceOutcome::Neither);
        assert forall|place: int| now < place <= last implies !(#[trigger] rises(
            scaled[place],
            large,
        )) && !falls(scaled[place], large) by {
            assert(!rises(prices[place], prices[now]));
        }
    }
}

// Normalization

/// Whether a normalized value counts the deviations between a return and the mean, up to a
/// millionth: times the deviation it is their difference, and where the difference is a whole
/// number of deviations, it is that number.
pub open spec fn counts_deviations(
    normalized: Fixed,
    value: Fixed,
    mean: Fixed,
    deviation: Fixed,
) -> bool {
    &&& normalized.units * deviation.units <= (value.units - mean.units) * 1_000_000
        < normalized.units * deviation.units + deviation.units
    &&& forall|count: int|
        #![trigger count * deviation.units]
        value.units - mean.units == count * deviation.units ==> normalized.units == count
            * 1_000_000
}

/// Whether a return can be normalized inside the range of decimal numbers.
pub open spec fn deviations_in_range(value: Fixed, mean: Fixed, deviation: Fixed) -> bool {
    &&& deviation.units > 0
    &&& -4_000_000_000_000_000_000 <= value.units <= 4_000_000_000_000_000_000
    &&& -4_000_000_000_000_000_000 <= mean.units <= 4_000_000_000_000_000_000
    &&& -9_000_000_000_000 * deviation.units <= value.units - mean.units <= 9_000_000_000_000
        * deviation.units
}

/// Each input is the return's distance from the mean in deviations, rounded down to a millionth.
pub proof fn law_inputs_count_deviations(
    prices: Seq<Fixed>,
    mean: Fixed,
    deviation: Fixed,
    index: int,
)
    requires
        0 <= index < prices.len() - 1,
        deviations_in_range(returns_of(prices)[index], mean, deviation),
    ensures
        counts_deviations(
            normalized_returns(prices, mean, deviation)[index],
            returns_of(prices)[index],
            mean,
            deviation,
        ),
{
    let value = returns_of(prices)[index];
    let shown = normalized_returns(prices, mean, deviation)[index];
    let (units, step) = (shown.units as int, deviation.units as int);
    let distance = value.units - mean.units;
    lemma_over(value.minus_spec(mean), deviation);
    assert forall|count: int|
        #![trigger count * deviation.units]
        distance == count * deviation.units implies units == count * 1_000_000 by {
        assert(units == count * 1_000_000) by (nonlinear_arith)
            requires
                step > 0,
                units * step <= distance * 1_000_000 < units * step + step,
                distance == count * step,
        ;
    }
}

/// A window shows the model, for each step between its observed prices, how many deviations the
/// return of that step lies from the mean.
pub proof fn law_windows_count_deviations(
    prices: Seq<Fixed>,
    inputs: int,
    outputs: int,
    mean: Fixed,
    deviation: Fixed,
    start: int,
    index: int,
)
    requires
        0 <= index < inputs,
        0 <= outputs,
        0 <= start,
        start + inputs + outputs < prices.len(),
        deviations_in_range(returns_of(prices)[start + index], mean, deviation),
    ensures
        windows_of(prices, inputs, outputs, mean, deviation)[start].inputs.len() == inputs,
        counts_deviations(
            windows_of(prices, inputs, outputs, mean, deviation)[start].inputs[index],
            returns_of(prices)[start + index],
            mean,
            deviation,
        ),
{
    let window = prices.subrange(start, start + inputs + outputs + 1).take(inputs + 1);
    assert(window[index] == prices[start + index]);
    assert(window[index + 1] == prices[start + index + 1]);
    assert(returns_of(window)[index] == returns_of(prices)[start + index]);
    law_inputs_count_deviations(window, mean, deviation, index);
}

/// A predictor shows the model how many of its deviations each return lies from its mean.
pub proof fn law_predictors_count_deviations(
    predictor: Predictor<Fixed>,
    prices: Seq<Fixed>,
    index: int,
)
    requires
        0 <= index < prices.len() - 1,
        deviations_in_range(
            returns_of(prices)[index],
            predictor.return_mean,
            predictor.return_deviation,
        ),
    ensures
        predictor.inputs(prices).len() == prices.len() - 1,
        counts_deviations(
            predictor.inputs(prices)[index],
            returns_of(prices)[index],
            predictor.return_mean,
            predictor.return_deviation,
        ),
{
    law_inputs_count_deviations(
        prices,
        predictor.return_mean,
        predictor.return_deviation,
        index,
    );
}

/// Where multiplying by the deviation undoes dividing by it and adding the mean undoes subtracting
/// it, as in exact arithmetic, each input times the deviation plus the mean is the return.
pub proof fn law_normalization_is_undone<N: Number>(
    prices: Seq<N>,
    mean: N,
    deviation: N,
    index: int,
)
    requires
        0 <= index < prices.len() - 1,
        ({
            let value = returns_of(prices)[index];
            let distance = value.minus_spec(mean);
            &&& distance.plus_spec(mean) == value
            &&& distance.over_spec(deviation).times_spec(deviation) == distance
        }),
    ensures
        normalized_returns(prices, mean, deviation)[index].times_spec(deviation).plus_spec(mean)
            == returns_of(prices)[index],
{
    let value = returns_of(prices)[index];
    let distance = value.minus_spec(mean);
    assert(normalized_returns(prices, mean, deviation)[index] == distance.over_spec(deviation));
}

// Buying and holding

/// Whether cash can be invested at one price and valued at another inside the range of decimal
/// numbers.
pub open spec fn holding_in_range(cash: Fixed, open: Fixed, close: Fixed) -> bool {
    &&& cash.units >= 0
    &&& open.units > 0
    &&& close.units >= 0
    &&& cash.units * 1_000_000 <= 9_000_000_000_000_000_000 * open.units
    &&& cash.units * close.units <= 9_000_000_000_000_000_000 * open.units
}

proof fn lemma_held(cash: Fixed, open: Fixed, close: Fixed)
    requires
        holding_in_range(cash, open, close),
    ensures
        ({
            let shares = cash.over_spec(open);
            let value = shares.times_spec(close).units;
            &&& shares.units >= 0
            &&& shares.units * open.units <= cash.units * 1_000_000 < shares.units * open.units
                + open.units
            &&& value * 1_000_000 <= shares.units * close.units < value * 1_000_000 + 1_000_000
            &&& value >= 0
        }),
{
    lemma_over(cash, open);
    let shares = cash.over_spec(open);
    let (s, k, o, c) = (
        shares.units as int,
        cash.units as int,
        open.units as int,
        close.units as int,
    );
    assert(s >= 0) by (nonlinear_arith)
        requires
            k * 1_000_000 < s * o + o,
            k >= 0,
            o > 0,
    ;
    assert(s * c * o <= k * c * 1_000_000) by (nonlinear_arith)
        requires
            s * o <= k * 1_000_000,
            c >= 0,
    ;
    assert(0 <= s * c <= 9_000_000_000_000_000_000_000_000) by (nonlinear_arith)
        requires
            s * c * o <= k * c * 1_000_000,
            k * c <= 9_000_000_000_000_000_000 * o,
            o > 0,
            s >= 0,
            c >= 0,
    ;
    lemma_times(shares, close);
}

proof fn lemma_boundaries<N: Number>(files: Seq<FileModel>, index: int)
    requires
        0 <= index < files.len(),
        file_boundaries::<N>(files) is Ok,
    ensures
        file_boundaries::<N>(files)->Ok_0.len() == files.len(),
        boundary_of::<N>(files[index]) == Ok::<(N, N), Seq<char>>(
            file_boundaries::<N>(files)->Ok_0[index],
        ),
    decreases files.len(),
{
    let rest = files.drop_last();
    if index < rest.len() {
        lemma_boundaries::<N>(rest, index);
        assert(rest[index] == files[index]);
    } else if rest.len() > 0 {
        lemma_boundaries::<N>(rest, 0);
    }
}

/// Buying and holding multiplies the cash by the last close over the first open: the value times
/// the open is the cash times the close, up to the rounding of the shares and of the value. Where
/// the shares come out exactly, only the value is rounded, so an unchanged price gives the cash
/// back.
pub proof fn law_holding_follows_the_price(files: Seq<FileModel>, cash: Fixed)
    ensures
        held_value(files, cash) matches Ok(value) ==> {
            &&& files.len() > 0
            &&& boundary_of::<Fixed>(files.first()) matches Ok((open, _))
                && boundary_of::<Fixed>(files.last()) matches Ok((_, close))
                && (holding_in_range(cash, open, close) ==> {
                let gap = cash.units * close.units - value.units * open.units;
                &&& 0 <= gap
                &&& 1_000_000 * gap < open.units * (1_000_000 + close.units)
                &&& cash.units * 1_000_000 % open.units as int == 0 ==> gap < open.units
                &&& cash.units * 1_000_000 % open.units as int == 0 && close == open ==> value
                    == cash
            })
        },
{
    if let Ok(value) = held_value(files, cash) {
        lemma_boundaries::<Fixed>(files, 0);
        lemma_boundaries::<Fixed>(files, files.len() - 1);
        let boundaries = file_boundaries::<Fixed>(files)->Ok_0;
        let (open, close) = (boundaries.first().0, boundaries.last().1);
        if holding_in_range(cash, open, close) {
            lemma_held(cash, open, close);
            let shares = cash.over_spec(open);
            let (s, k, o, c, v) = (
                shares.units as int,
                cash.units as int,
                open.units as int,
                close.units as int,
                value.units as int,
            );
            let gap = k * c - v * o;
            assert(0 <= gap && 1_000_000 * gap < o * (1_000_000 + c)) by (nonlinear_arith)
                requires
                    gap == k * c - v * o,
                    s * o <= k * 1_000_000 < s * o + o,
                    v * 1_000_000 <= s * c < v * 1_000_000 + 1_000_000,
                    o > 0,
                    c >= 0,
            ;
            if k * 1_000_000 % o == 0 {
                assert(s * o == k * 1_000_000) by (nonlinear_arith)
                    requires
                        k * 1_000_000 % o == 0,
                        s * o <= k * 1_000_000 < s * o + o,
                        o > 0,
                ;
                assert(gap < o) by (nonlinear_arith)
                    requires
                        gap == k * c - v * o,
                        s * o == k * 1_000_000,
                        s * c < v * 1_000_000 + 1_000_000,
                        o > 0,
                ;
                if c == o {
                    assert(v == k) by (nonlinear_arith)
                        requires
                            0 <= k * o - v * o < o,
                            o > 0,
                    ;
                }
            }
        }
    }
}

/// At half the first open the same cash is worth twice as much at the same last close, up to the
/// rounding of the shares and of the values.
pub proof fn law_half_the_open_doubles_the_value(
    files: Seq<FileModel>,
    cheaper: Seq<FileModel>,
    cash: Fixed,
)
    ensures
        held_value(files, cash) matches Ok(value) ==> held_value(cheaper, cash) matches Ok(more)
            ==> boundary_of::<Fixed>(files.first()) matches Ok((open, _)) ==> boundary_of::<Fixed>(
            cheaper.first(),
        ) matches Ok((half, _)) ==> boundary_of::<Fixed>(files.last()) matches Ok((_, close))
            ==> boundary_of::<Fixed>(cheaper.last()) matches Ok((_, same)) ==> open.units == 2
            * half.units && same == close && holding_in_range(cash, half, close) ==> 0 <= (
        more.units - 2 * value.units) * 1_000_000 < 2_000_000 + close.units,
{
    if held_value(files, cash) is Ok && held_value(cheaper, cash) is Ok {
        lemma_boundaries::<Fixed>(files, 0);
        lemma_boundaries::<Fixed>(files, files.len() - 1);
        lemma_boundaries::<Fixed>(cheaper, 0);
        lemma_boundaries::<Fixed>(cheaper, cheaper.len() - 1);
        let first = file_boundaries::<Fixed>(files)->Ok_0;
        let second = file_boundaries::<Fixed>(cheaper)->Ok_0;
        let (open, half, close) = (first.first().0, second.first().0, first.last().1);
        if open.units == 2 * half.units && second.last().1 == close && holding_in_range(
            cash,
            half,
            close,
        ) {
            lemma_held(cash, open, close);
            lemma_held(cash, half, close);
            let (s, t, k, h, c) = (
                cash.over_spec(open).units as int,
                cash.over_spec(half).units as int,
                cash.units as int,
                half.units as int,
                close.units as int,
            );
            assert(2 * s <= t <= 2 * s + 1) by (nonlinear_arith)
                requires
                    s * (2 * h) <= k * 1_000_000 < s * (2 * h) + 2 * h,
                    t * h <= k * 1_000_000 < t * h + h,
                    h > 0,
            ;
            assert(2 * (s * c) <= t * c <= 2 * (s * c) + c) by (nonlinear_arith)
                requires
                    2 * s <= t <= 2 * s + 1,
                    c >= 0,
            ;
        }
    }
}

} // verus!
