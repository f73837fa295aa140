//! Laws that say in decimal arithmetic what means, deviations, returns, and shares are.
use crate::fixed::{is_root, root_of, Fixed};
use crate::laws::amounts::{lemma_constants, lemma_over, lemma_times, lemma_whole};
use crate::market_maker::annualized_sharpe;
use crate::metrics::{
    baseline_accuracy, target_count, target_rate, ClassificationMetrics, Evaluation,
};
use crate::number::{one_spec, total, Number};
use crate::series::returns_of;
use crate::train::{
    deviation_of, flat, mean_of, prepared, series_returns, ItemModel, PriceOutcome,
};
use vstd::prelude::*;

verus! {

// Sums

/// The sum of decimal numbers, in millionths.
pub open spec fn exact_total(values: Seq<Fixed>) -> int
    decreases values.len(),
{
    if values.len() == 0 {
        0
    } else {
        exact_total(values.drop_last()) + values.last().units
    }
}

/// The sum of the squares of the distances of decimal numbers from a mean.
pub open spec fn exact_squares(values: Seq<Fixed>, mean: int) -> int
    decreases values.len(),
{
    if values.len() == 0 {
        0
    } else {
        exact_squares(values.drop_last(), mean) + (values.last().units - mean) * (
        values.last().units - mean)
    }
}

/// Whether the statistics of values stay inside the range of decimal numbers: there are no more
/// than a million, none beyond a thousand.
pub open spec fn statistics_in_range(values: Seq<Fixed>) -> bool {
    &&& 1 <= values.len() <= 1_000_000
    &&& forall|index: int|
        0 <= index < values.len() ==> -1_000_000_000 <= #[trigger] values[index].units
            <= 1_000_000_000
}

proof fn lemma_total(values: Seq<Fixed>, bound: int)
    requires
        0 <= bound,
        values.len() * bound <= 9_000_000_000_000_000_000,
        forall|index: int|
            0 <= index < values.len() ==> -bound <= #[trigger] values[index].units <= bound,
    ensures
        total(values).units == exact_total(values),
        -(values.len() * bound) <= exact_total(values) <= values.len() * bound,
    decreases values.len(),
{
    if values.len() > 0 {
        let rest = values.drop_last();
        let count = rest.len() as int;
        assert((count + 1) * bound == count * bound + bound) by (nonlinear_arith);
        assert forall|index: int| 0 <= index < rest.len() implies -bound
            <= #[trigger] rest[index].units <= bound by {
            assert(rest[index] == values[index]);
        }
        lemma_total(rest, bound);
        assert(-bound <= values[count].units <= bound);
    } else {
        assert(0 * bound == 0) by (nonlinear_arith);
    }
}

proof fn lemma_root_exists(value: int)
    requires
        value >= 0,
    ensures
        is_root(root_of(value), value),
    decreases value,
{
    if value == 0 {
        assert(is_root(0, 0));
    } else {
        lemma_root_exists(value - 1);
        let root = root_of(value - 1);
        let next = root + 1;
        assert((next + 1) * (next + 1) > next * next) by (nonlinear_arith)
            requires
                next > 0,
        ;
        if next * next <= value {
            assert(is_root(next, value));
        } else {
            assert(is_root(root, value));
        }
    }
}

// Means and deviations

/// Whether a number of millionths is the mean of values, rounded down.
pub open spec fn is_mean(mean: int, values: Seq<Fixed>) -> bool {
    mean * values.len() <= exact_total(values) < mean * values.len() + values.len()
}

/// Whether a number of millionths is the root of the mean of the squared distances from a mean,
/// where the mean is taken over a number of degrees of freedom, up to the rounding of each square
/// and of their mean.
pub open spec fn is_deviation(
    deviation: int,
    values: Seq<Fixed>,
    mean: int,
    freedom: int,
) -> bool {
    &&& 0 <= deviation
    &&& deviation * deviation * freedom <= exact_squares(values, mean)
    &&& exact_squares(values, mean) < (deviation + 1) * (deviation + 1) * freedom + 1_000_000 * (
    freedom + values.len())
}

proof fn lemma_mean(values: Seq<Fixed>)
    requires
        statistics_in_range(values),
    ensures
        ({
            let mean = total(values).over_spec(Fixed::count_spec(values.len()));
            &&& is_mean(mean.units as int, values)
            &&& -1_000_000_000 <= mean.units <= 1_000_000_000
        }),
{
    let count = values.len() as int;
    assert(count * 1_000_000_000 <= 9_000_000_000_000_000_000);
    lemma_total(values, 1_000_000_000);
    let (sum, divisor) = (total(values), Fixed::count_spec(values.len()));
    assert(divisor.units == count * 1_000_000);
    lemma_over(sum, divisor);
    let (mean, whole) = (sum.over_spec(divisor).units as int, exact_total(values));
    assert(mean * count <= whole < mean * count + count) by (nonlinear_arith)
        requires
            mean * (count * 1_000_000) <= whole * 1_000_000 < mean * (count * 1_000_000) + count
                * 1_000_000,
    ;
    assert(-1_000_000_000 <= mean <= 1_000_000_000) by (nonlinear_arith)
        requires
            mean * count <= whole < mean * count + count,
            -(count * 1_000_000_000) <= whole <= count * 1_000_000_000,
            count > 0,
    ;
}

/// The squares of the distances of decimal numbers from a mean, each rounded down.
spec fn squares_of(values: Seq<Fixed>, mean: Fixed) -> Seq<Fixed> {
    values.map_values(|value: Fixed| value.minus_spec(mean).squared_spec())
}

proof fn lemma_squares(values: Seq<Fixed>, mean: Fixed)
    requires
        forall|index: int|
            0 <= index < values.len() ==> -1_000_000_000 <= #[trigger] values[index].units
                <= 1_000_000_000,
        -1_000_000_000 <= mean.units <= 1_000_000_000,
    ensures
        ({
            let squares = squares_of(values, mean);
            &&& squares.len() == values.len()
            &&& forall|index: int|
                0 <= index < squares.len() ==> 0 <= #[trigger] squares[index].units
                    <= 4_000_000_000_000
            &&& exact_total(squares) >= 0
            &&& exact_total(squares) * 1_000_000 <= exact_squares(values, mean.units as int)
                <= exact_total(squares) * 1_000_000 + values.len() * 1_000_000
        }),
    decreases values.len(),
{
    let squares = squares_of(values, mean);
    if values.len() > 0 {
        let rest = values.drop_last();
        assert forall|index: int| 0 <= index < rest.len() implies -1_000_000_000
            <= #[trigger] rest[index].units <= 1_000_000_000 by {
            assert(rest[index] == values[index]);
        }
        lemma_squares(rest, mean);
        assert(squares.drop_last() =~= squares_of(rest, mean));
        assert(-1_000_000_000 <= values[values.len() - 1].units <= 1_000_000_000);
        let distance = values.last().minus_spec(mean);
        let units = distance.units as int;
        assert(0 <= units * units <= 4_000_000_000_000_000_000) by (nonlinear_arith)
            requires
                -2_000_000_000 <= units <= 2_000_000_000,
        ;
        lemma_times(distance, distance);
        assert forall|index: int| 0 <= index < squares.len() implies 0
            <= #[trigger] squares[index].units <= 4_000_000_000_000 by {
            if index < rest.len() {
                assert(squares[index] == squares_of(rest, mean)[index]);
            }
        }
    }
}

proof fn lemma_deviation(values: Seq<Fixed>, mean: Fixed, divisor: Fixed, freedom: int)
    requires
        statistics_in_range(values),
        -1_000_000_000 <= mean.units <= 1_000_000_000,
        1 <= freedom <= values.len(),
        values.len() <= 2 * freedom,
        divisor.units == freedom * 1_000_000,
    ensures
        is_deviation(
            total(squares_of(values, mean)).over_spec(divisor).square_root_spec().units as int,
            values,
            mean.units as int,
            freedom,
        ),
{
    let count = values.len() as int;
    let squares = squares_of(values, mean);
    lemma_squares(values, mean);
    lemma_total(squares, 4_000_000_000_000);
    let sum = total(squares);
    let all = sum.units as int;
    lemma_over(sum, divisor);
    let variance = sum.over_spec(divisor).units as int;
    assert(variance * freedom <= all < variance * freedom + freedom) by (nonlinear_arith)
        requires
            variance * (freedom * 1_000_000) <= all * 1_000_000 < variance * (freedom * 1_000_000)
                + freedom * 1_000_000,
    ;
    assert(0 <= variance <= 8_000_000_000_000) by (nonlinear_arith)
        requires
            variance * freedom <= all < variance * freedom + freedom,
            0 <= all <= count * 4_000_000_000_000,
            count <= 2 * freedom,
            freedom >= 1,
    ;
    lemma_root_exists(variance * 1_000_000);
    let root = root_of(variance * 1_000_000);
    assert(root <= 3_000_000_000) by (nonlinear_arith)
        requires
            root * root <= variance * 1_000_000,
            variance <= 8_000_000_000_000,
            root >= 0,
    ;
    let exact = exact_squares(values, mean.units as int);
    let (low, high) = (root * root, (root + 1) * (root + 1));
    assert(low * freedom <= exact && exact < high * freedom + 1_000_000 * (freedom + count))
        by (nonlinear_arith)
        requires
            low <= variance * 1_000_000 < high,
            variance * freedom <= all < variance * freedom + freedom,
            all * 1_000_000 <= exact <= all * 1_000_000 + count * 1_000_000,
            freedom >= 1,
    ;
}

/// Training fits the normalization to the returns of the training series: their mean, and the
/// root of the mean of their squared distances from it.
pub proof fn law_training_fits_the_returns(
    training: Seq<Seq<Fixed>>,
    validation: Seq<Seq<Fixed>>,
    inputs: int,
    outputs: int,
)
    requires
        statistics_in_range(flat(series_returns(training))),
    ensures
        prepared(training, validation, inputs, outputs) matches Ok(data) ==> {
            let values = flat(series_returns(training));
            &&& is_mean(data.mean.units as int, values)
            &&& is_deviation(
                data.deviation.units as int,
                values,
                data.mean.units as int,
                values.len() as int,
            )
            &&& data.deviation.units > 1
        },
{
    let values = flat(series_returns(training));
    lemma_mean(values);
    let mean = mean_of(values);
    lemma_deviation(values, mean, Fixed::count_spec(values.len()), values.len() as int);
    assert(deviation_of(values, mean) == total(squares_of(values, mean)).over_spec(
        Fixed::count_spec(values.len()),
    ).square_root_spec());
}

// The Sharpe ratio

/// The annualized Sharpe ratio is the mean of the returns over their sample deviation, which has
/// one degree of freedom less than there are returns, times the root of the 252 trading days of a
/// year. Returns that do not deviate are ranked by the sign of their mean.
pub proof fn law_sharpe_ratios_weigh_return_by_risk(rates: Seq<Fixed>)
    requires
        statistics_in_range(rates),
        rates.len() >= 2,
    ensures
        annualized_sharpe(rates) matches Some(ratio) && exists|mean: int, deviation: int|
            {
                &&& #[trigger] is_deviation(deviation, rates, mean, rates.len() - 1)
                &&& is_mean(mean, rates)
                &&& if deviation == 0 {
                    ratio.units == if mean > 0 {
                        i64::MAX as int
                    } else if mean < 0 {
                        i64::MIN as int
                    } else {
                        0
                    }
                } else {
                    is_annual_ratio(ratio.units as int, mean, deviation)
                }
            },
{
    let count = Fixed::count_spec(rates.len());
    lemma_constants();
    lemma_mean(rates);
    let mean = total(rates).over_spec(count);
    let freedom = count.minus_spec(one_spec());
    assert(freedom.units == (rates.len() - 1) * 1_000_000);
    lemma_deviation(rates, mean, freedom, rates.len() - 1);
    let deviation = total(squares_of(rates, mean)).over_spec(freedom).square_root_spec();
    lemma_whole(252);
    lemma_root_exists(252_000_000_000_000);
    let root = root_of(252_000_000_000_000);
    assert(root == 15_874_507) by (nonlinear_arith)
        requires
            0 <= root,
            root * root <= 252_000_000_000_000 < (root + 1) * (root + 1),
    ;
    let year = Fixed::ratio_spec(252, 1).square_root_spec();
    assert(year.units == 15_874_507);
    let (m, d) = (mean.units as int, deviation.units as int);
    let daily = crate::market_maker::daily_sharpe(rates);
    assert(squares_of(rates, mean) == rates.map_values(
        |value: Fixed| value.minus_spec(mean).squared_spec(),
    ));
    if d != 0 {
        lemma_over(mean, deviation);
        let q = mean.over_spec(deviation).units as int;
        assert(-1_000_000_000_000_001 <= q <= 1_000_000_000_000_000) by (nonlinear_arith)
            requires
                q * d <= m * 1_000_000 < q * d + d,
                -1_000_000_000 <= m <= 1_000_000_000,
                d >= 1,
        ;
        lemma_times(daily, year);
        let ratio = annualized_sharpe(rates)->0.units as int;
        lemma_annual_ratio(ratio, q, m, d);
    }
    assert(is_deviation(d, rates, m, rates.len() - 1));
}

/// Whether a number of millionths is the annualized quotient of a mean and a deviation, up to
/// rounding: times the deviation it is the mean times the root of the trading days of a year.
pub open spec fn is_annual_ratio(ratio: int, mean: int, deviation: int) -> bool {
    0 <= mean * 15_874_507 - ratio * deviation < 17 * deviation
}

proof fn lemma_annual_ratio(ratio: int, daily: int, mean: int, deviation: int)
    requires
        deviation > 0,
        daily * deviation <= mean * 1_000_000 < daily * deviation + deviation,
        ratio * 1_000_000 <= daily * 15_874_507 < ratio * 1_000_000 + 1_000_000,
    ensures
        is_annual_ratio(ratio, mean, deviation),
{
    let (first, second) = (daily * deviation, ratio * deviation);
    assert(second * 1_000_000 <= first * 15_874_507 < second * 1_000_000 + deviation * 1_000_000)
        by (nonlinear_arith)
        requires
            first == daily * deviation,
            second == ratio * deviation,
            deviation > 0,
            ratio * 1_000_000 <= daily * 15_874_507 < ratio * 1_000_000 + 1_000_000,
    ;
}

// Returns

/// The logarithm of a decimal number lies between the first term of its series and four thirds of
/// it.
proof fn lemma_logarithm(value: Fixed)
    requires
        0 <= value.units <= 9_000_000_000_000_000_000,
        value.units > 0,
    ensures
        ({
            let (units, log) = (value.units as int, value.natural_log_spec().units as int);
            let term = value.minus_spec(one_spec()).over_spec(value.plus_spec(one_spec())).units;
            &&& term * (units + 1_000_000) <= (units - 1_000_000) * 1_000_000 < (term + 1) * (units
                + 1_000_000)
            &&& -1_000_000 <= term < 1_000_000
            &&& units >= 1_000_000 ==> term >= 0 && 2 * term <= log && 3 * log <= 8 * term
            &&& units < 1_000_000 ==> term < 0 && 8 * term - 6 <= 3 * log && log <= 2 * term
        }),
{
    lemma_constants();
    let units = value.units as int;
    let (difference, sum) = (value.minus_spec(one_spec()), value.plus_spec(one_spec()));
    assert(difference.units == units - 1_000_000 && sum.units == units + 1_000_000);
    lemma_over(difference, sum);
    let ratio = difference.over_spec(sum);
    let term = ratio.units as int;
    assert((term + 1) * (units + 1_000_000) == term * (units + 1_000_000) + units + 1_000_000)
        by (nonlinear_arith);
    assert(-1_000_000 <= term < 1_000_000) by (nonlinear_arith)
        requires
            term * (units + 1_000_000) <= (units - 1_000_000) * 1_000_000 < (term + 1) * (units
                + 1_000_000),
            units > 0,
    ;
    assert((units >= 1_000_000 ==> term >= 0) && (units < 1_000_000 ==> term < 0))
        by (nonlinear_arith)
        requires
            term * (units + 1_000_000) <= (units - 1_000_000) * 1_000_000 < (term + 1) * (units
                + 1_000_000),
            units > 0,
    ;
    assert(0 <= term * term <= 1_000_000_000_000) by (nonlinear_arith)
        requires
            -1_000_000 <= term < 1_000_000,
    ;
    lemma_times(ratio, ratio);
    let square = ratio.times_spec(ratio);
    let s = square.units as int;
    let size = if term >= 0 {
        term
    } else {
        -term
    };
    assert(0 <= s <= size) by (nonlinear_arith)
        requires
            s * 1_000_000 <= term * term < s * 1_000_000 + 1_000_000,
            size == term || size == -term,
            0 <= size <= 1_000_000,
            0 <= term * term,
    ;
    assert(term >= 0 ==> 0 <= s * term <= 1_000_000 * s) by (nonlinear_arith)
        requires
            0 <= s,
            term <= 1_000_000,
    ;
    assert(term < 0 ==> -1_000_000 * s <= s * term <= 0) by (nonlinear_arith)
        requires
            0 <= s,
            -1_000_000 <= term,
    ;
    lemma_times(square, ratio);
    let cube = square.times_spec(ratio);
    let third = cube.over_spec(Fixed { units: 3_000_000 });
    lemma_over(cube, Fixed { units: 3_000_000 });
    let both = ratio.plus_spec(third);
    lemma_times(Fixed { units: 2_000_000 }, both);
    assert(value.natural_log_spec() == Fixed { units: 2_000_000 }.times_spec(both));
}

/// The return of a step is positive, zero, or negative as the price rises, stays, or falls. Its
/// size is that of a logarithm: at least twice the difference of the prices over their sum, and at
/// most four thirds of that, up to rounding.
pub proof fn law_returns_are_logarithmic(prices: Seq<Fixed>, index: int)
    requires
        0 <= index < prices.len() - 1,
        0 < prices[index].units,
        0 < prices[index + 1].units,
        1_000_000 * prices[index + 1].units <= 9_000_000_000_000_000_000 * prices[index].units,
        prices[index].units <= 1_000_000 * prices[index + 1].units,
    ensures
        ({
            let (before, after) = (prices[index].units as int, prices[index + 1].units as int);
            let value = returns_of(prices)[index].units as int;
            let (step, sum) = (after - before, after + before);
            &&& step == 0 ==> value == 0
            &&& step >= 0 ==> value >= 0 && 2_000_000 * step - 6 * sum <= value * sum && 3 * (value
                * sum) <= 8_000_000 * step
            &&& step < 0 ==> value < 0 && 8_000_000 * step - 30 * sum <= 3 * (value * sum)
                && value * sum <= 2_000_000 * step
        }),
{
    lemma_constants();
    let (before, after) = (prices[index], prices[index + 1]);
    let (a, b) = (before.units as int, after.units as int);
    let quotient = after.over_spec(before);
    lemma_over(after, before);
    let q = quotient.units as int;
    assert(0 < q <= 9_000_000_000_000_000_000 && (b >= a ==> q >= 1_000_000) && (b < a ==> q
        < 1_000_000)) by (nonlinear_arith)
        requires
            q * a <= b * 1_000_000 < q * a + a,
            0 < a <= 1_000_000 * b,
            1_000_000 * b <= 9_000_000_000_000_000_000 * a,
    ;
    lemma_logarithm(quotient);
    let ratio = quotient.minus_spec(one_spec()).over_spec(quotient.plus_spec(one_spec()));
    let term = ratio.units as int;
    lemma_step(a, b, q, term);
    let value = returns_of(prices)[index].units as int;
    assert(value == quotient.natural_log_spec().units);
    let (step, sum) = (b - a, b + a);
    let (scaled, product) = (term * sum, value * sum);
    assert((b >= a ==> 2 * scaled <= product && 3 * product <= 8 * scaled) && (b < a ==> 8 * scaled
        - 6 * sum <= 3 * product && product <= 2 * scaled)) by (nonlinear_arith)
        requires
            scaled == term * sum,
            product == value * sum,
            sum > 0,
            b >= a ==> 2 * term <= value && 3 * value <= 8 * term,
            b < a ==> 8 * term - 6 <= 3 * value && value <= 2 * term,
    ;
    if step == 0 {
        assert(value == 0) by (nonlinear_arith)
            requires
                0 <= value,
                3 * (value * sum) <= 0,
                sum > 0,
        ;
    }
}

/// The first term of the series for the logarithm of a quotient of prices is their difference over
/// their sum, up to three millionths.
proof fn lemma_step(before: int, after: int, quotient: int, term: int)
    requires
        before > 0,
        after > 0,
        quotient > 0,
        quotient * before <= after * 1_000_000 < quotient * before + before,
        term * (quotient + 1_000_000) <= (quotient - 1_000_000) * 1_000_000 < (term + 1) * (quotient
            + 1_000_000),
        -1_000_000 <= term < 1_000_000,
    ensures
        term * (after + before) <= 1_000_000 * (after - before) <= term * (after + before) + 3 * (
        after + before),
{
    let (rest, whole) = (1_000_000 - term, 1_000_000 + term);
    assert(quotient * rest >= 1_000_000 * whole) by (nonlinear_arith)
        requires
            term * (quotient + 1_000_000) <= (quotient - 1_000_000) * 1_000_000,
            rest == 1_000_000 - term,
            whole == 1_000_000 + term,
    ;
    assert(whole * before <= rest * after) by (nonlinear_arith)
        requires
            quotient * rest >= 1_000_000 * whole,
            quotient * before <= after * 1_000_000,
            before > 0,
            rest > 0,
    ;
    assert(term * (after + before) <= 1_000_000 * (after - before)) by (nonlinear_arith)
        requires
            whole * before <= rest * after,
            rest == 1_000_000 - term,
            whole == 1_000_000 + term,
    ;
    let (less, more) = (rest - 1, whole + 1);
    assert(quotient * less < 1_000_000 * more) by (nonlinear_arith)
        requires
            (quotient - 1_000_000) * 1_000_000 < (term + 1) * (quotient + 1_000_000),
            less == 1_000_000 - term - 1,
            more == 1_000_000 + term + 1,
    ;
    assert(1_000_000 * (after * less) <= before * (1_000_000 * more + less)) by (nonlinear_arith)
        requires
            quotient * less < 1_000_000 * more,
            after * 1_000_000 < quotient * before + before,
            before > 0,
            less >= 0,
    ;
    assert(1_000_000 * (after * less) <= 1_000_000 * (before * more) + 2_000_000 * before)
        by (nonlinear_arith)
        requires
            1_000_000 * (after * less) <= before * (1_000_000 * more + less),
            0 <= less <= 2_000_000,
            before > 0,
    ;
    assert(1_000_000 * (after - before) <= term * (after + before) + 3 * (after + before))
        by (nonlinear_arith)
        requires
            after * less <= before * more + 2 * before,
            less == 1_000_000 - term - 1,
            more == 1_000_000 + term + 1,
            after > 0,
            before > 0,
    ;
}

// Shares

/// Whether a number is a part of a whole, rounded down to a millionth.
pub open spec fn is_share(share: Fixed, part: int, whole: int) -> bool {
    share.units * whole <= part * 1_000_000 < share.units * whole + whole
}

proof fn lemma_share(part: nat, whole: nat)
    requires
        0 < whole <= 9_000_000_000_000,
        part <= whole,
    ensures
        is_share(
            Fixed::count_spec(part).over_spec(Fixed::count_spec(whole)),
            part as int,
            whole as int,
        ),
{
    let (left, right) = (Fixed::count_spec(part), Fixed::count_spec(whole));
    lemma_over(left, right);
    let share = left.over_spec(right).units as int;
    let (p, w) = (part as int, whole as int);
    assert(share * w <= p * 1_000_000 < share * w + w) by (nonlinear_arith)
        requires
            share * (w * 1_000_000) <= p * 1_000_000 * 1_000_000 < share * (w * 1_000_000) + w
                * 1_000_000,
    ;
}

/// The accuracy is the share of classifications that are right. The precision of an outcome is the
/// share of its predictions that are right, and its recall the share of its occurrences that are
/// predicted; of none, both are zero.
pub proof fn law_qualities_are_shares(
    metrics: ClassificationMetrics<Fixed>,
    outcome: PriceOutcome,
)
    requires
        metrics.consistent(),
        metrics.total <= 9_000_000_000_000,
    ensures
        metrics.total > 0 ==> is_share(
            metrics.accuracy_spec(),
            metrics.correct as int,
            metrics.total as int,
        ),
        ({
            let right = metrics.true_positives.of(outcome) as int;
            let (predicted, actual) = (
                metrics.predicted_positives.of(outcome) as int,
                metrics.actual_positives.of(outcome) as int,
            );
            &&& predicted > 0 ==> is_share(metrics.precision_spec(outcome), right, predicted)
            &&& predicted == 0 ==> metrics.precision_spec(outcome).units == 0
            &&& actual > 0 ==> is_share(metrics.recall_spec(outcome), right, actual)
            &&& actual == 0 ==> metrics.recall_spec(outcome).units == 0
        }),
{
    lemma_constants();
    let right = metrics.true_positives.of(outcome);
    let predicted = metrics.predicted_positives.of(outcome);
    let actual = metrics.actual_positives.of(outcome);
    if metrics.total > 0 {
        lemma_share(metrics.correct as nat, metrics.total as nat);
    }
    if predicted > 0 {
        lemma_share(right as nat, predicted as nat);
    }
    if actual > 0 {
        lemma_share(right as nat, actual as nat);
    }
}

proof fn lemma_target_counts(items: Seq<ItemModel<Fixed>>)
    ensures
        target_count(items, PriceOutcome::LowerFirst) + target_count(
            items,
            PriceOutcome::UpperFirst,
        ) + target_count(items, PriceOutcome::Neither) == items.len(),
    decreases items.len(),
{
    if items.len() > 0 {
        lemma_target_counts(items.drop_last());
    }
}

/// The rate of an outcome is its share of the targets. The baseline accuracy is the rate of the
/// most frequent outcome: no rate is above it, and it is one of them.
pub proof fn law_the_baseline_is_the_largest_rate(
    items: Seq<ItemModel<Fixed>>,
    outcome: PriceOutcome,
)
    requires
        0 < items.len() <= 9_000_000_000_000,
    ensures
        is_share(
            target_rate(items, outcome),
            target_count(items, outcome) as int,
            items.len() as int,
        ),
        target_rate(items, outcome).units <= baseline_accuracy(items).units,
        exists|frequent: PriceOutcome|
            #[trigger] target_rate(items, frequent) == baseline_accuracy(items) && target_count(
                items,
                outcome,
            ) <= target_count(items, frequent),
{
    lemma_constants();
    lemma_target_counts(items);
    let (lower, upper, neither) = (
        target_count(items, PriceOutcome::LowerFirst),
        target_count(items, PriceOutcome::UpperFirst),
        target_count(items, PriceOutcome::Neither),
    );
    lemma_share(lower, items.len());
    lemma_share(upper, items.len());
    lemma_share(neither, items.len());
    lemma_shares_are_ordered(lower, upper, items.len());
    lemma_shares_are_ordered(upper, lower, items.len());
    lemma_shares_are_ordered(lower, neither, items.len());
    lemma_shares_are_ordered(neither, lower, items.len());
    lemma_shares_are_ordered(upper, neither, items.len());
    lemma_shares_are_ordered(neither, upper, items.len());
    let frequent = if upper <= lower && neither <= lower {
        PriceOutcome::LowerFirst
    } else if neither <= upper {
        PriceOutcome::UpperFirst
    } else {
        PriceOutcome::Neither
    };
    assert(target_rate::<Fixed>(items, frequent) == baseline_accuracy::<Fixed>(items));
}

proof fn lemma_shares_are_ordered(small: nat, large: nat, whole: nat)
    requires
        0 < whole <= 9_000_000_000_000,
        small <= whole,
        large <= whole,
    ensures
        small <= large ==> 0 <= Fixed::count_spec(small).over_spec(
            Fixed::count_spec(whole),
        ).units <= Fixed::count_spec(large).over_spec(Fixed::count_spec(whole)).units,
{
    lemma_share(small, whole);
    lemma_share(large, whole);
    let first = Fixed::count_spec(small).over_spec(Fixed::count_spec(whole)).units as int;
    let second = Fixed::count_spec(large).over_spec(Fixed::count_spec(whole)).units as int;
    if small <= large {
        assert(0 <= first <= second) by (nonlinear_arith)
            requires
                first * whole <= small * 1_000_000 < first * whole + whole,
                second * whole <= large * 1_000_000 < second * whole + whole,
                small <= large,
                whole > 0,
        ;
    }
}

// Losses

/// A batch adds its loss once for each of its targets.
pub proof fn law_losses_are_weighed_by_their_targets(
    evaluation: Evaluation<Fixed>,
    loss: Fixed,
    logits: Seq<Fixed>,
    targets: Seq<i32>,
)
    requires
        targets.len() <= 1_000_000,
        -1_000_000_000_000 <= loss.units <= 1_000_000_000_000,
        -4_000_000_000_000_000_000 <= evaluation.total_loss.units <= 4_000_000_000_000_000_000,
    ensures
        evaluation.with_batch(loss, logits, targets).total_loss.units
            - evaluation.total_loss.units == loss.units * targets.len(),
{
    let (units, count) = (loss.units as int, targets.len() as int);
    let product = units * count;
    assert(-1_000_000_000_000_000_000 <= product <= 1_000_000_000_000_000_000
        && units * (count * 1_000_000) == product * 1_000_000) by (nonlinear_arith)
        requires
            product == units * count,
            -1_000_000_000_000 <= units <= 1_000_000_000_000,
            0 <= count <= 1_000_000,
    ;
    lemma_times(loss, Fixed::count_spec(targets.len()));
}

/// The final loss is the mean over all classifications, rounded down to a millionth.
pub proof fn law_the_loss_is_a_mean(evaluation: Evaluation<Fixed>)
    requires
        0 < evaluation.metrics.total <= 9_000_000_000_000,
        -9_000_000_000_000_000_000 <= evaluation.total_loss.units <= 9_000_000_000_000_000_000,
    ensures
        ({
            let (loss, count) = (
                evaluation.finished().loss.units,
                evaluation.metrics.total as int,
            );
            loss * count <= evaluation.total_loss.units < loss * count + count
        }),
        evaluation.finished().total == evaluation.metrics.total,
        evaluation.finished().correct == evaluation.metrics.correct,
{
    let count = evaluation.metrics.total as int;
    let divisor = Fixed::count_spec(count as nat);
    let whole = evaluation.total_loss.units as int;
    lemma_over(evaluation.total_loss, divisor);
    let loss = evaluation.finished().loss.units as int;
    assert(loss * count <= whole < loss * count + count) by (nonlinear_arith)
        requires
            loss * (count * 1_000_000) <= whole * 1_000_000 < loss * (count * 1_000_000) + count
                * 1_000_000,
    ;
}

} // verus!
