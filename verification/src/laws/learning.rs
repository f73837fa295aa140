//! Laws of training and inference.
use crate::infer::{
    are_outputs, batch_count, batch_end_of, batch_inputs_of, batch_size_of, below_header, gives,
    header_row, inference_rows, inference_series, is_file_inference, is_inference, is_prediction,
    lemma_batch_length, predicted_from, prediction_row, prediction_rows, shown_for,
    OutcomeProbabilities, Predictor,
};
use crate::metrics::largest;
use crate::number::{orders_totally, zero_spec, Number};
use crate::series::{
    price_in_row, price_series, prices_of, series_in, usable, with_price, TimestampedPrice,
};
use crate::text::{decimal, list_model};
use crate::train::{
    checkpoints_from, crossing, first_crossing, items_of, prepared, window_count, windows_of,
    ModelConfig, BATCH_SIZE, INPUTS,
};
use vstd::prelude::*;

verus! {

// Series

/// Whether the prices of a series are one second apart.
pub open spec fn contiguous<N>(series: Seq<TimestampedPrice<N>>) -> bool {
    forall|index: int|
        0 < index < series.len() ==> (#[trigger] series[index]).timestamp == series[index
            - 1].timestamp + 1
}

/// Whether the prices of a series are such as a row may hold.
pub open spec fn prices_usable<N: Number>(series: Seq<TimestampedPrice<N>>) -> bool {
    forall|index: int|
        0 <= index < series.len() ==> {
            let price = #[trigger] series[index];
            &&& usable(price.timestamp)
            &&& price.price.is_finite_spec()
            &&& !price.price.at_most_spec(zero_spec())
        }
}

/// Whether series are split exactly where the seconds have a gap.
pub open spec fn well_split<N: Number>(series: Seq<Seq<TimestampedPrice<N>>>) -> bool {
    &&& forall|index: int|
        0 <= index < series.len() ==> {
            let prices = #[trigger] series[index];
            prices.len() > 0 && contiguous(prices) && prices_usable(prices)
        }
    &&& forall|index: int|
        0 < index < series.len() ==> (#[trigger] series[index]).first().timestamp != series[index
            - 1].last().timestamp + 1
}

proof fn lemma_with_price<N: Number>(
    series: Seq<Seq<TimestampedPrice<N>>>,
    price: TimestampedPrice<N>,
)
    requires
        well_split(series),
        usable(price.timestamp),
        price.price.is_finite_spec(),
        !price.price.at_most_spec(zero_spec()),
    ensures
        well_split(with_price(series, price)),
{
    let after = with_price(series, price);
    if series.len() > 0 && series.last().last().timestamp + 1 == price.timestamp {
        let last = series.last();
        let place = series.len() - 1;
        assert(series[place] == last);
        let grown = last.push(price);
        assert(contiguous(grown)) by {
            assert forall|index: int| 0 < index < grown.len() implies (
            #[trigger] grown[index]).timestamp == grown[index - 1].timestamp + 1 by {
                if index < last.len() {
                    assert(last[index].timestamp == last[index - 1].timestamp + 1);
                }
            }
        }
        assert(prices_usable(grown)) by {
            assert forall|index: int| 0 <= index < grown.len() implies {
                let item = #[trigger] grown[index];
                &&& usable(item.timestamp)
                &&& item.price.is_finite_spec()
                &&& !item.price.at_most_spec(zero_spec())
            } by {
                if index < last.len() {
                    assert(grown[index] == last[index]);
                }
            }
        }
        assert forall|index: int| 0 <= index < after.len() implies {
            let prices = #[trigger] after[index];
            prices.len() > 0 && contiguous(prices) && prices_usable(prices)
        } by {
            if index < place {
                assert(after[index] == series[index]);
            }
        }
        assert forall|index: int| 0 < index < after.len() implies (
        #[trigger] after[index]).first().timestamp != after[index - 1].last().timestamp + 1 by {
            assert(series[index].first().timestamp != series[index - 1].last().timestamp + 1);
            assert(after[index].first() == series[index].first());
            assert(after[index - 1] == series[index - 1]);
        }
    } else {
        let single = seq![price];
        assert(contiguous(single));
        assert(prices_usable(single));
        assert forall|index: int| 0 <= index < after.len() implies {
            let prices = #[trigger] after[index];
            prices.len() > 0 && contiguous(prices) && prices_usable(prices)
        } by {
            if index < series.len() {
                assert(after[index] == series[index]);
            }
        }
        assert forall|index: int| 0 < index < after.len() implies (
        #[trigger] after[index]).first().timestamp != after[index - 1].last().timestamp + 1 by {
            if index < series.len() {
                assert(after[index] == series[index]);
                assert(after[index - 1] == series[index - 1]);
                assert(series[index].first().timestamp != series[index - 1].last().timestamp
                    + 1);
            }
        }
    }
}

/// The series of a table hold only finite positive prices from the regular session outside the
/// unreliable window. Inside a series the prices are one second apart, and where one series ends
/// the next does not continue it.
pub proof fn law_series_are_well_split<N: Number>(
    records: Seq<Result<Seq<Seq<char>>, Seq<char>>>,
    timestamp_index: int,
    open_index: int,
)
    ensures
        series_in::<N>(records, timestamp_index, open_index) matches Ok(series) ==> well_split(
            series,
        ),
    decreases records.len(),
{
    if records.len() > 0 {
        law_series_are_well_split::<N>(records.drop_last(), timestamp_index, open_index);
        if let Ok(series) = series_in::<N>(records.drop_last(), timestamp_index, open_index) {
            if let Ok(row) = records.last() {
                if let Ok(Some(price)) = price_in_row::<N>(
                    row,
                    records.len() + 1,
                    timestamp_index,
                    open_index,
                ) {
                    lemma_with_price(series, price);
                }
            }
        }
    }
}

// Windows

/// A series of at least one window's length makes one example for each place at which a window
/// fits, and each example shows the model as many returns as it has inputs.
pub proof fn law_every_window_is_an_example<N: Number>(
    prices: Seq<N>,
    inputs: int,
    outputs: int,
    mean: N,
    deviation: N,
    index: int,
)
    requires
        0 <= inputs,
        0 <= outputs,
        inputs + outputs < prices.len(),
        0 <= index < windows_of(prices, inputs, outputs, mean, deviation).len(),
    ensures
        windows_of(prices, inputs, outputs, mean, deviation).len() == prices.len() - inputs
            - outputs,
        windows_of(prices, inputs, outputs, mean, deviation)[index].inputs.len() == inputs,
{
    let window = prices.subrange(index, index + inputs + outputs + 1);
    assert(window.take(inputs + 1).len() == inputs + 1);
}

/// Combining series adds no window across their boundary: the examples of two lists of series
/// are those of the first followed by those of the second.
pub proof fn law_windows_stay_inside_their_series<N: Number>(
    first: Seq<Seq<N>>,
    second: Seq<Seq<N>>,
    inputs: int,
    outputs: int,
    mean: N,
    deviation: N,
)
    ensures
        items_of(first + second, inputs, outputs, mean, deviation) == items_of(
            first,
            inputs,
            outputs,
            mean,
            deviation,
        ) + items_of(second, inputs, outputs, mean, deviation),
    decreases second.len(),
{
    let left = items_of(first, inputs, outputs, mean, deviation);
    if second.len() == 0 {
        assert(first + second =~= first);
        assert(left + items_of(second, inputs, outputs, mean, deviation) =~= left);
    } else {
        let rest = second.drop_last();
        law_windows_stay_inside_their_series(first, rest, inputs, outputs, mean, deviation);
        assert((first + second).drop_last() =~= first + rest);
        let middle = items_of(rest, inputs, outputs, mean, deviation);
        let last = windows_of(second.last(), inputs, outputs, mean, deviation);
        assert((left + middle) + last =~= left + (middle + last));
    }
}

/// Validation data never enters training: neither the training examples nor the normalization
/// depend on the validation series.
pub proof fn law_validation_stays_out_of_training<N: Number>(
    training: Seq<Seq<N>>,
    validation: Seq<Seq<N>>,
    other: Seq<Seq<N>>,
    inputs: int,
    outputs: int,
)
    requires
        prepared(training, validation, inputs, outputs) is Ok,
        prepared(training, other, inputs, outputs) is Ok,
    ensures
        ({
            let data = prepared(training, validation, inputs, outputs)->Ok_0;
            let changed = prepared(training, other, inputs, outputs)->Ok_0;
            &&& data.training == changed.training
            &&& data.mean == changed.mean
            &&& data.deviation == changed.deviation
        }),
{
}

/// The outcome of a window is decided by the first future price beyond a barrier: it names the
/// barrier that this price is beyond, and no price before it is beyond one.
pub proof fn law_the_first_crossing_decides<N: Number>(prices: Seq<N>, lower: N, upper: N)
    ensures
        match first_crossing(prices, lower, upper) {
            Some(outcome) => exists|index: int|
                0 <= index < prices.len() && #[trigger] crossing(prices[index], lower, upper)
                    == Some(outcome) && forall|earlier: int|
                    0 <= earlier < index ==> #[trigger] crossing(
                        prices[earlier],
                        lower,
                        upper,
                    ) is None,
            None => forall|index: int|
                0 <= index < prices.len() ==> #[trigger] crossing(
                    prices[index],
                    lower,
                    upper,
                ) is None,
        },
    decreases prices.len(),
{
    if prices.len() > 0 {
        let rest = prices.drop_last();
        law_the_first_crossing_decides(rest, lower, upper);
        assert forall|index: int| 0 <= index < rest.len() implies #[trigger] crossing(
            prices[index],
            lower,
            upper,
        ) == crossing(rest[index], lower, upper) by {}
        if let Some(outcome) = first_crossing(rest, lower, upper) {
            let index = choose|index: int|
                0 <= index < rest.len() && #[trigger] crossing(rest[index], lower, upper) == Some(
                    outcome,
                ) && forall|earlier: int|
                    0 <= earlier < index ==> #[trigger] crossing(
                        rest[earlier],
                        lower,
                        upper,
                    ) is None;
            assert(crossing(prices[index], lower, upper) == Some(outcome));
            assert forall|earlier: int| 0 <= earlier < index implies #[trigger] crossing(
                prices[earlier],
                lower,
                upper,
            ) is None by {
                assert(crossing(rest[earlier], lower, upper) is None);
            }
        } else {
            let last = prices.len() - 1;
            assert forall|index: int| 0 <= index < last implies #[trigger] crossing(
                prices[index],
                lower,
                upper,
            ) is None by {
                assert(crossing(rest[index], lower, upper) is None);
            }
            assert(prices[last] == prices.last());
            assert(crossing(prices[last], lower, upper) == first_crossing(prices, lower, upper));
        }
    }
}

// Predictions

/// The predicted class has a largest logit: none comes after it in the total order of values.
pub proof fn law_predictions_have_the_largest_logit<N: Number>(logits: Seq<N>, index: int)
    requires
        orders_totally::<N>(),
        0 <= index < logits.len(),
    ensures
        0 <= largest(logits) < logits.len(),
        !logits[largest(logits)].total_below_spec(logits[index]),
    decreases logits.len(),
{
    reveal(orders_totally);
    if logits.len() > 1 {
        let rest = logits.drop_last();
        let earlier = largest(rest);
        law_predictions_have_the_largest_logit(rest, 0);
        assert(rest[earlier] == logits[earlier]);
        if index < rest.len() {
            law_predictions_have_the_largest_logit(rest, index);
            assert(rest[index] == logits[index]);
        }
    }
}

// Checkpoints

/// A training run saves one checkpoint for each epoch that is left: each counts the epochs that
/// the model has had by then and keeps every other setting, and the last is the configuration
/// that was asked for.
pub proof fn law_every_epoch_is_saved<D, N>(config: ModelConfig<D, N>, completed: int, index: int)
    requires
        0 <= completed <= config.epochs,
        0 <= index < config.epochs - completed,
    ensures
        checkpoints_from(config, completed).len() == config.epochs - completed,
        checkpoints_from(config, completed)[index] == (ModelConfig {
            epochs: (completed + index + 1) as usize,
            ..config
        }),
        checkpoints_from(config, completed).last() == config,
    decreases config.epochs - completed,
{
    let rest = checkpoints_from(config, completed + 1);
    if completed + 1 < config.epochs {
        law_every_epoch_is_saved(
            config,
            completed + 1,
            if index > 0 {
                index - 1
            } else {
                0
            },
        );
        assert(checkpoints_from(config, completed).last() == rest.last());
    } else {
        assert(rest.len() == 0);
    }
}

// Batches

/// Batches take the windows of a series one after another: each holds at least one window and at
/// most a full batch, and every batch but the last is full.
pub proof fn law_batches_advance(batch_start: int, window_count: int)
    requires
        0 <= batch_start < window_count,
    ensures
        batch_start < batch_end_of(batch_start, window_count) <= window_count,
        batch_end_of(batch_start, window_count) - batch_start <= BATCH_SIZE,
        batch_end_of(batch_start, window_count) < window_count ==> batch_end_of(
            batch_start,
            window_count,
        ) - batch_start == BATCH_SIZE,
{
}

/// A batch holds a full row of inputs for each of its windows, and the inputs of a window stand
/// where its place in the batch says.
pub proof fn law_batches_hold_whole_windows<N: Number>(
    predictor: Predictor<N>,
    prices: Seq<N>,
    start: int,
    end: int,
    window: int,
)
    requires
        0 <= start <= window < end,
        end + INPUTS <= prices.len(),
    ensures
        batch_inputs_of(predictor, prices, start, end).len() == (end - start) * INPUTS,
        batch_inputs_of(predictor, prices, start, end).subrange(
            (window - start) * INPUTS,
            (window - start + 1) * INPUTS,
        ) == predictor.inputs(prices.subrange(window, window + INPUTS + 1)),
    decreases end - start,
{
    lemma_batch_length(predictor, prices, start, end);
    lemma_batch_length(predictor, prices, start, end - 1);
    let earlier = batch_inputs_of(predictor, prices, start, end - 1);
    let last = predictor.inputs(prices.subrange(end - 1, end + INPUTS));
    let all = batch_inputs_of(predictor, prices, start, end);
    let low = (window - start) * INPUTS;
    let high = (window - start + 1) * INPUTS;
    if window < end - 1 {
        law_batches_hold_whole_windows(predictor, prices, start, end - 1, window);
        assert(0 <= low <= high <= earlier.len());
        assert(all.subrange(low, high) =~= earlier.subrange(low, high));
    } else {
        assert(low == earlier.len());
        assert(all.subrange(low, high) =~= last);
    }
}

/// Each distribution is reported beside the second that ends its window: that of the last price
/// that the model was shown for it.
pub proof fn law_predictions_follow_their_windows<N: Number>(
    series: Seq<TimestampedPrice<N>>,
    batch_start: int,
    probabilities: Seq<N>,
    offset: int,
)
    requires
        0 <= batch_start,
        0 <= offset < probabilities.len() as int / 3,
        batch_start + probabilities.len() as int / 3 + INPUTS <= series.len(),
    ensures
        ({
            let window = series.subrange(
                batch_start + offset,
                batch_start + offset + INPUTS + 1,
            );
            prediction_rows(series, batch_start, probabilities)[offset] == prediction_row(
                window.last().timestamp,
                probabilities.subrange(offset * 3, offset * 3 + 3),
            )
        }),
{
}

/// Whether probabilities are those of a number of windows, one window after another.
pub open spec fn are_distributions<N>(
    inputs: Seq<N>,
    output: Seq<N>,
    count: int,
    distribution: spec_fn(Seq<N>) -> Seq<N>,
) -> bool {
    &&& output.len() == count * 3
    &&& forall|window: int|
        0 <= window < count ==> #[trigger] output.subrange(window * 3, window * 3 + 3)
            == distribution(inputs.subrange(window * INPUTS, (window + 1) * INPUTS))
}

/// Whether a model gave, for each batch of a series, the three probabilities of each window.
pub open spec fn evaluated_by<N: Number>(
    predictor: Predictor<N>,
    series: Seq<TimestampedPrice<N>>,
    outputs: Seq<Seq<N>>,
    distribution: spec_fn(Seq<N>) -> Seq<N>,
) -> bool {
    forall|index: int|
        0 <= index < outputs.len() ==> are_distributions(
            shown_for(predictor, series, index),
            #[trigger] outputs[index],
            batch_size_of(series, index),
            distribution,
        )
}

/// Inference reports every window of a series once and in order: row after row, the Unix second
/// that ends the window and the probabilities that the model gives for its normalized returns. In
/// which batches the windows are evaluated does not matter.
pub proof fn law_inference_reports_every_window<N: Number>(
    predictor: Predictor<N>,
    series: Seq<TimestampedPrice<N>>,
    outputs: Seq<Seq<N>>,
    distribution: spec_fn(Seq<N>) -> Seq<N>,
    window: int,
)
    requires
        series.len() > INPUTS,
        outputs.len() == batch_count(series.len() - INPUTS),
        evaluated_by(predictor, series, outputs, distribution),
        0 <= window < series.len() - INPUTS,
    ensures
        inference_rows(series, outputs).len() == series.len() - INPUTS,
        inference_rows(series, outputs)[window] == prediction_row(
            series[window + INPUTS].timestamp,
            distribution(
                predictor.inputs(prices_of(series).subrange(window, window + INPUTS + 1)),
            ),
        ),
{
    lemma_rows_of_batches(predictor, series, outputs, distribution, window);
}

proof fn lemma_rows_of_batches<N: Number>(
    predictor: Predictor<N>,
    series: Seq<TimestampedPrice<N>>,
    outputs: Seq<Seq<N>>,
    distribution: spec_fn(Seq<N>) -> Seq<N>,
    window: int,
)
    requires
        series.len() > INPUTS,
        outputs.len() <= batch_count(series.len() - INPUTS),
        evaluated_by(predictor, series, outputs, distribution),
    ensures
        ({
            let rows = inference_rows(series, outputs);
            let count = series.len() - INPUTS;
            &&& rows.len() == if outputs.len() * BATCH_SIZE < count {
                outputs.len() * BATCH_SIZE
            } else {
                count
            }
            &&& 0 <= window < rows.len() ==> rows[window] == prediction_row(
                series[window + INPUTS].timestamp,
                distribution(
                    predictor.inputs(prices_of(series).subrange(window, window + INPUTS + 1)),
                ),
            )
        }),
    decreases outputs.len(),
{
    if outputs.len() > 0 {
        let index = outputs.len() - 1;
        let rest = outputs.drop_last();
        assert forall|earlier: int| 0 <= earlier < rest.len() implies are_distributions(
            shown_for(predictor, series, earlier),
            #[trigger] rest[earlier],
            batch_size_of(series, earlier),
            distribution,
        ) by {
            assert(rest[earlier] == outputs[earlier]);
        }
        lemma_rows_of_batches(predictor, series, rest, distribution, window);
        let start = index * BATCH_SIZE;
        let size = batch_size_of(series, index);
        let inputs = shown_for(predictor, series, index);
        assert(are_distributions(inputs, outputs[index], size, distribution));
        assert(prediction_rows(series, start, outputs.last()).len() == size);
        if start <= window < start + size {
            law_batches_hold_whole_windows(
                predictor,
                prices_of(series),
                start,
                start + size,
                window,
            );
            let offset = window - start;
            assert(outputs[index].subrange(offset * 3, offset * 3 + 3) == distribution(
                inputs.subrange(offset * INPUTS, (offset + 1) * INPUTS),
            ));
        }
    }
}

/// Whether a model treats windows one by one: whenever it does not fail on a number of windows, it
/// gives the three probabilities of each.
pub open spec fn distributes<N: Number, F: Fn(Vec<N>) -> Result<Vec<N>, String>>(
    model: F,
    distribution: spec_fn(Seq<N>) -> Seq<N>,
) -> bool {
    forall|inputs: Vec<N>, output: Vec<N>| #[trigger]
        call_ensures(model, (inputs,), Ok::<Vec<N>, String>(output)) ==> are_distributions(
            inputs@,
            output@,
            inputs@.len() as int / INPUTS as int,
            distribution,
        )
}

/// Inference over a series yields one row for each of its windows, in order: the Unix second that
/// ends the window and the probabilities that the model gives for it. Those are the probabilities
/// of a prediction from the prices of that window alone.
pub proof fn law_inference_predicts_every_window<
    N: Number,
    F: Fn(Vec<N>) -> Result<Vec<N>, String>,
>(
    model: F,
    predictor: Predictor<N>,
    series: Seq<TimestampedPrice<N>>,
    rows: Seq<Seq<Seq<char>>>,
    distribution: spec_fn(Seq<N>) -> Seq<N>,
    window: int,
    prediction: OutcomeProbabilities<N>,
)
    requires
        series.len() > INPUTS,
        is_inference(model, predictor, series, Ok(rows)),
        distributes(model, distribution),
        0 <= window < series.len() - INPUTS,
    ensures
        rows.len() == series.len() - INPUTS,
        rows[window] == prediction_row(
            series[window + INPUTS].timestamp,
            distribution(
                predictor.inputs(prices_of(series).subrange(window, window + INPUTS + 1)),
            ),
        ),
        is_prediction(
            model,
            predictor,
            prices_of(series).subrange(window, window + INPUTS + 1),
            Ok(prediction),
        ) ==> rows[window] == seq![
            decimal(series[window + INPUTS].timestamp as int),
            prediction.lower.show_spec(),
            prediction.upper.show_spec(),
            prediction.neither.show_spec(),
        ],
{
    let outputs = choose|outputs: Seq<Seq<N>>|
        {
            &&& #[trigger] are_outputs(model, predictor, series, outputs)
            &&& outputs.len() == batch_count(series.len() - INPUTS)
            &&& rows == inference_rows(series, outputs)
        };
    assert forall|index: int| 0 <= index < outputs.len() implies are_distributions(
        shown_for(predictor, series, index),
        #[trigger] outputs[index],
        batch_size_of(series, index),
        distribution,
    ) by {
        let inputs = shown_for(predictor, series, index);
        let start = index * BATCH_SIZE;
        lemma_batch_length(
            predictor,
            prices_of(series),
            start,
            start + batch_size_of(series, index),
        );
        assert(gives(model, inputs, Ok(outputs[index])));
        let (shown, values) = choose|shown: Vec<N>, values: Result<Vec<N>, String>|
            {
                &&& #[trigger] call_ensures(model, (shown,), values)
                &&& shown@ == inputs
                &&& list_model(values) == Ok::<Seq<N>, Seq<char>>(outputs[index])
            };
        assert(call_ensures(model, (shown,), Ok::<Vec<N>, String>(values->Ok_0)));
    }
    law_inference_reports_every_window(predictor, series, outputs, distribution, window);
    let prices = prices_of(series).subrange(window, window + INPUTS + 1);
    if is_prediction(model, predictor, prices, Ok(prediction)) {
        let inputs = predictor.inputs(prices);
        let (shown, output) = choose|shown: Vec<N>, output: Result<Vec<N>, String>|
            {
                &&& #[trigger] call_ensures(model, (shown,), output)
                &&& shown@ == inputs
                &&& Ok::<OutcomeProbabilities<N>, Seq<char>>(prediction) == predicted_from(output)
            };
        let values = output->Ok_0;
        assert(call_ensures(model, (shown,), Ok::<Vec<N>, String>(values)));
        assert(inputs.len() == INPUTS);
        assert(are_distributions(inputs, values@, 1, distribution));
        let only: int = 0;
        assert(values@.subrange(only * 3, only * 3 + 3) =~= values@);
        assert(inputs.subrange(only * INPUTS, (only + 1) * INPUTS) =~= inputs);
    }
}

/// Inference over a file is refused if its latest series has at most as many prices as a window
/// has returns, or if it has no series.
pub proof fn law_short_series_are_refused<N: Number, F: Fn(Vec<N>) -> Result<Vec<N>, String>>(
    model: F,
    predictor: Predictor<N>,
    path: Seq<char>,
    contents: Seq<char>,
    series: Seq<Seq<TimestampedPrice<N>>>,
    outcome: Result<Seq<Seq<Seq<char>>>, Seq<char>>,
)
    ensures
        price_series::<N>(contents) == Ok::<_, Seq<char>>(series) ==> {
            &&& inference_series::<N>(path, contents) is Err <==> (series.len() == 0
                || series.last().len() <= INPUTS)
            &&& is_file_inference(model, predictor, path, contents, outcome) && (series.len() == 0
                || series.last().len() <= INPUTS) ==> outcome is Err
        },
{
}

/// Inference over a file whose latest series is long enough succeeds with a model that does not
/// fail, and yields the names of the columns and below them one row for each window of that
/// series, in order.
pub proof fn law_files_are_predicted_window_by_window<
    N: Number,
    F: Fn(Vec<N>) -> Result<Vec<N>, String>,
>(
    model: F,
    predictor: Predictor<N>,
    path: Seq<char>,
    contents: Seq<char>,
    series: Seq<Seq<TimestampedPrice<N>>>,
    outcome: Result<Seq<Seq<Seq<char>>>, Seq<char>>,
    distribution: spec_fn(Seq<N>) -> Seq<N>,
    window: int,
)
    requires
        distributes(model, distribution),
        forall|inputs: Vec<N>, output: Result<Vec<N>, String>| #[trigger]
            call_ensures(model, (inputs,), output) ==> output is Ok,
    ensures
        ({
            &&& price_series::<N>(contents) == Ok::<_, Seq<char>>(series)
            &&& series.len() > 0
            &&& series.last().len() > INPUTS
            &&& is_file_inference(model, predictor, path, contents, outcome)
            &&& 0 <= window < series.last().len() - INPUTS
        }) ==> {
            let latest = series.last();
            &&& outcome matches Ok(rows)
            &&& rows.len() == 1 + latest.len() - INPUTS
            &&& rows[0] == header_row()
            &&& rows[1 + window] == prediction_row(
                latest[window + INPUTS].timestamp,
                distribution(
                    predictor.inputs(prices_of(latest).subrange(window, window + INPUTS + 1)),
                ),
            )
        },
{
    if price_series::<N>(contents) == Ok::<_, Seq<char>>(series) && series.len() > 0
        && series.last().len() > INPUTS && is_file_inference(
        model,
        predictor,
        path,
        contents,
        outcome,
    ) && 0 <= window < series.last().len() - INPUTS {
        let latest = series.last();
        let predictions = choose|predictions: Result<Seq<Seq<Seq<char>>>, Seq<char>>|
            {
                &&& #[trigger] is_inference(model, predictor, latest, predictions)
                &&& outcome == below_header(predictions)
            };
        assert(predictions is Ok) by {
            if let Err(message) = predictions {
                let outputs = choose|outputs: Seq<Seq<N>>|
                    {
                        &&& #[trigger] are_outputs(model, predictor, latest, outputs)
                        &&& gives(
                            model,
                            shown_for(predictor, latest, outputs.len() as int),
                            Err(message),
                        )
                    };
                assert(gives(
                    model,
                    shown_for(predictor, latest, outputs.len() as int),
                    Err::<Seq<N>, Seq<char>>(message),
                ));
            }
        }
        let rows = predictions->Ok_0;
        law_inference_predicts_every_window(
            model,
            predictor,
            latest,
            rows,
            distribution,
            window,
            arbitrary(),
        );
        assert((seq![header_row()] + rows)[1 + window] == rows[window]);
    }
}

} // verus!
