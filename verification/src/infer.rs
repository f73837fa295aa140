//! Inference over a price series, around the evaluation of a trained model.
use crate::number::Number;
use crate::series::{price_series, prices_of, series_prices, TimestampedPrice};
use crate::text::{
    decimal, digits, joined3, joined4, list_model, result_model, show_count, show_signed, texts,
};
use crate::train::{
    normalize_returns, normalized_returns, BATCH_SIZE, INPUTS, OUTCOME_COUNT,
};
use vstd::prelude::*;

verus! {

/// The probabilities of the three outcomes.
#[derive(Clone, Copy)]
pub struct OutcomeProbabilities<N> {
    pub lower: N,
    pub upper: N,
    pub neither: N,
}

/// Whether returns can be normalized by a mean and a deviation.
pub open spec fn valid_normalization<N: Number>(mean: N, deviation: N) -> bool {
    mean.is_finite_spec() && deviation.is_finite_spec() && !deviation.at_most_spec(
        N::epsilon_spec(),
    )
}

/// The distribution that a model's output stands for.
pub open spec fn probabilities_of<N>(values: Seq<N>) -> Result<OutcomeProbabilities<N>, Seq<char>> {
    if values.len() == 3 {
        Ok(OutcomeProbabilities { lower: values[0], upper: values[1], neither: values[2] })
    } else {
        Err("the model returned an unexpected number of outcomes"@)
    }
}

/// Name the probabilities that a model returned for one window.
pub fn name_probabilities<N: Number>(values: &Vec<N>) -> (result: Result<
    OutcomeProbabilities<N>,
    String,
>)
    ensures
        result_model(result) == probabilities_of(values@),
{
    if values.len() != OUTCOME_COUNT {
        return Err("the model returned an unexpected number of outcomes".to_owned());
    }
    Ok(OutcomeProbabilities { lower: values[0], upper: values[1], neither: values[2] })
}

/// The normalization of a loaded model.
#[derive(Clone, Copy)]
pub struct Predictor<N> {
    pub return_mean: N,
    pub return_deviation: N,
}

impl<N: Number> Predictor<N> {
    /// Accept the normalization of a saved model if it is valid.
    pub fn load(return_mean: N, return_deviation: N) -> (result: Result<Self, String>)
        ensures
            match result {
                Ok(predictor) => {
                    &&& valid_normalization(return_mean, return_deviation)
                    &&& predictor == (Predictor { return_mean, return_deviation })
                },
                Err(message) => {
                    &&& !valid_normalization(return_mean, return_deviation)
                    &&& message@ == "model configuration contains invalid normalization values"@
                },
            },
    {
        if !return_mean.is_finite() || !return_deviation.is_finite() || return_deviation.at_most(
            N::epsilon(),
        ) {
            return Err(
                "model configuration contains invalid normalization values".to_owned(),
            );
        }
        Ok(Predictor { return_mean, return_deviation })
    }

    /// The values that the model is shown for some prices.
    pub open spec fn inputs(self, prices: Seq<N>) -> Seq<N> {
        normalized_returns(prices, self.return_mean, self.return_deviation)
    }

    /// The values that the model is shown for exactly one complete price window.
    pub open spec fn window_inputs(self, prices: Seq<N>) -> Result<Seq<N>, Seq<char>> {
        if prices.len() == INPUTS + 1 {
            Ok(self.inputs(prices))
        } else {
            Err("inference requires exactly "@ + digits((INPUTS + 1) as nat) + " prices"@)
        }
    }

    /// Normalize the returns of exactly one complete price window as they were during training.
    pub fn prepare(&self, prices: &Vec<N>) -> (result: Result<Vec<N>, String>)
        ensures
            list_model(result) == self.window_inputs(prices@),
    {
        if prices.len() != INPUTS + 1 {
            return Err(
                joined3("inference requires exactly ", &show_count(INPUTS + 1), " prices"),
            );
        }
        assert(prices@.subrange(0, INPUTS + 1) =~= prices@);
        Ok(normalize_returns(prices, 0, INPUTS + 1, self.return_mean, self.return_deviation))
    }

    /// Predict one outcome distribution from exactly one complete price window. The model is
    /// shown the normalized returns, and gives the probabilities of the outcomes or an error.
    pub fn predict<F: Fn(Vec<N>) -> Result<Vec<N>, String>>(&self, prices: &Vec<N>, model: F) -> (
        result: Result<OutcomeProbabilities<N>, String>)
        requires
            forall|inputs: Vec<N>| inputs@.len() == INPUTS ==> #[trigger] call_requires(
                model,
                (inputs,),
            ),
        ensures
            is_prediction(model, *self, prices@, result_model(result)),
    {
        let inputs = match self.prepare(prices) {
            Ok(inputs) => inputs,
            Err(message) => {
                return Err(message);
            },
        };
        let ghost shown = inputs;
        let output = model(inputs);
        assert(call_ensures(model, (shown,), output));
        match output {
            Ok(values) => name_probabilities(&values),
            Err(message) => Err(message),
        }
    }
}

/// Whether an outcome is that of a prediction from some prices: the distribution that the model
/// gives for the normalized returns of one window, or a failure.
pub open spec fn is_prediction<N: Number, F: Fn(Vec<N>) -> Result<Vec<N>, String>>(
    model: F,
    predictor: Predictor<N>,
    prices: Seq<N>,
    outcome: Result<OutcomeProbabilities<N>, Seq<char>>,
) -> bool {
    match predictor.window_inputs(prices) {
        Err(message) => outcome == Err::<OutcomeProbabilities<N>, Seq<char>>(message),
        Ok(inputs) => exists|shown: Vec<N>, output: Result<Vec<N>, String>|
            {
                &&& #[trigger] call_ensures(model, (shown,), output)
                &&& shown@ == inputs
                &&& outcome == predicted_from(output)
            },
    }
}

/// The distribution that the outcome of evaluating a model stands for.
pub open spec fn predicted_from<N>(
    output: Result<Vec<N>, String>,
) -> Result<OutcomeProbabilities<N>, Seq<char>> {
    match output {
        Ok(values) => probabilities_of(values@),
        Err(message) => Err(message@),
    }
}

// Series

/// The latest series of a table, if it holds at least one input window.
pub open spec fn latest_series_of<N>(series: Seq<Seq<TimestampedPrice<N>>>) -> Result<
    Seq<TimestampedPrice<N>>,
    Seq<char>,
> {
    if series.len() == 0 {
        Err("the CSV file contains no reliable market-hours price data"@)
    } else if series.last().len() <= INPUTS {
        Err("inference requires at least "@ + digits((INPUTS + 1) as nat) + " prices"@)
    } else {
        Ok(series.last())
    }
}

/// Take the latest series.
pub fn latest_series<N: Number>(series: Vec<Vec<TimestampedPrice<N>>>) -> (result: Result<
    Vec<TimestampedPrice<N>>,
    String,
>)
    ensures
        list_model(result) == latest_series_of(crate::series::nested(series@)),
{
    let mut series = series;
    match series.pop() {
        None => Err("the CSV file contains no reliable market-hours price data".to_owned()),
        Some(latest) => {
            if latest.len() <= INPUTS {
                return Err(
                    joined3("inference requires at least ", &show_count(INPUTS + 1), " prices"),
                );
            }
            Ok(latest)
        },
    }
}

/// The series over which to infer, from the text of a file.
pub open spec fn inference_series<N: Number>(path: Seq<char>, contents: Seq<char>) -> Result<
    Seq<TimestampedPrice<N>>,
    Seq<char>,
> {
    match price_series::<N>(contents) {
        Err(message) => Err("failed to parse "@ + path + ": "@ + message),
        Ok(series) => latest_series_of(series),
    }
}

/// Parse the latest reliable series with each price attached to its source timestamp.
pub fn load_latest_series<N: Number>(path: &str, contents: &str) -> (result: Result<
    Vec<TimestampedPrice<N>>,
    String,
>)
    ensures
        list_model(result) == inference_series::<N>(path@, contents@),
{
    match crate::series::parse_price_series(contents) {
        Err(message) => Err(joined4("failed to parse ", path, ": ", &message)),
        Ok(series) => latest_series(series),
    }
}

// Batches

/// The end of the batch of windows that begins at a window.
pub open spec fn batch_end_of(batch_start: int, window_count: int) -> int {
    if batch_start + BATCH_SIZE < window_count {
        batch_start + BATCH_SIZE
    } else {
        window_count
    }
}

/// A batch of overlapping windows.
#[derive(Clone, Copy, Debug, PartialEq, Eq, Structural)]
pub struct Batch {
    /// The first window.
    pub start: usize,
    /// The window after the last.
    pub end: usize,
}

/// The next batch of the windows of a series, of which some have been evaluated.
pub fn next_batch<N: Number>(series: &Vec<TimestampedPrice<N>>, evaluated: usize) -> (result:
    Option<Batch>)
    requires
        series@.len() > INPUTS,
    ensures
        match result {
            Some(batch) => {
                &&& batch.start == evaluated < series@.len() - INPUTS
                &&& batch.end == batch_end_of(evaluated as int, series@.len() - INPUTS)
            },
            None => evaluated >= series@.len() - INPUTS,
        },
{
    let window_count: usize = series.len() - INPUTS;
    if evaluated >= window_count {
        return None;
    }
    let end: usize = if window_count - evaluated > BATCH_SIZE {
        evaluated + BATCH_SIZE
    } else {
        window_count
    };
    Some(Batch { start: evaluated, end })
}

/// The values that the model is shown for the windows of a batch, one window after another.
pub open spec fn batch_inputs_of<N: Number>(
    predictor: Predictor<N>,
    prices: Seq<N>,
    start: int,
    end: int,
) -> Seq<N>
    decreases end - start,
{
    if end <= start {
        Seq::empty()
    } else {
        batch_inputs_of(predictor, prices, start, end - 1) + predictor.inputs(
            prices.subrange(end - 1, end + INPUTS),
        )
    }
}

/// Normalize the windows of a batch.
pub fn batch_inputs<N: Number>(
    predictor: &Predictor<N>,
    series: &Vec<TimestampedPrice<N>>,
    batch: Batch,
) -> (result: Vec<N>)
    requires
        batch.start <= batch.end,
        batch.end + INPUTS <= series@.len(),
    ensures
        result@ == batch_inputs_of(
            *predictor,
            prices_of(series@),
            batch.start as int,
            batch.end as int,
        ),
{
    let prices = series_prices(series);
    let mut result: Vec<N> = Vec::new();
    for index in batch.start..batch.end
        invariant
            batch.end + INPUTS <= prices.len(),
            batch.start <= batch.end,
            result@ == batch_inputs_of(
                *predictor,
                prices@,
                batch.start as int,
                index as int,
            ),
    {
        let mut window = normalize_returns(
            &prices,
            index,
            index + INPUTS + 1,
            predictor.return_mean,
            predictor.return_deviation,
        );
        result.append(&mut window);
    }
    result
}

/// The row that reports the distribution of the window that ends at a Unix second.
pub open spec fn prediction_row<N: Number>(timestamp: i64, outcomes: Seq<N>) -> Seq<Seq<char>> {
    seq![
        decimal(timestamp as int),
        outcomes[0].show_spec(),
        outcomes[1].show_spec(),
        outcomes[2].show_spec(),
    ]
}

/// The rows that report the distributions of a batch. Each group of three probabilities is
/// paired with the Unix second that ends its window.
pub open spec fn prediction_rows<N: Number>(
    series: Seq<TimestampedPrice<N>>,
    batch_start: int,
    probabilities: Seq<N>,
) -> Seq<Seq<Seq<char>>> {
    Seq::new(
        probabilities.len() / 3,
        |offset: int|
            prediction_row(
                series[batch_start + offset + INPUTS].timestamp,
                probabilities.subrange(offset * 3, offset * 3 + 3),
            ),
    )
}

/// The texts of rows.
pub open spec fn rows_of(rows: Seq<Vec<String>>) -> Seq<Seq<Seq<char>>> {
    rows.map_values(|row: Vec<String>| texts(row@))
}

/// Pair each outcome distribution with the timestamp ending its input window.
pub fn report_predictions<N: Number>(
    series: &Vec<TimestampedPrice<N>>,
    batch_start: usize,
    probabilities: &Vec<N>,
) -> (rows: Vec<Vec<String>>)
    requires
        batch_start + probabilities@.len() / 3 + INPUTS <= series@.len(),
    ensures
        rows_of(rows@) == prediction_rows(series@, batch_start as int, probabilities@),
{
    let ghost expected = prediction_rows(series@, batch_start as int, probabilities@);
    let mut rows: Vec<Vec<String>> = Vec::new();
    let count: usize = probabilities.len() / OUTCOME_COUNT;
    assert(rows_of(rows@) =~= expected.take(0));
    for offset in 0..count
        invariant
            count == probabilities@.len() / 3,
            count * 3 <= probabilities.len(),
            batch_start + count + INPUTS <= series.len(),
            expected == prediction_rows(series@, batch_start as int, probabilities@),
            rows_of(rows@) == expected.take(offset as int),
    {
        let first: usize = offset * 3;
        let mut row: Vec<String> = Vec::new();
        row.push(show_signed(series[batch_start + offset + INPUTS].timestamp));
        row.push(probabilities[first].show());
        row.push(probabilities[first + 1].show());
        row.push(probabilities[first + 2].show());
        let ghost before = rows@;
        rows.push(row);
        assert(texts(row@) =~= expected[offset as int]);
        assert(rows_of(rows@) =~= rows_of(before).push(texts(row@)));
        assert(rows_of(rows@) =~= expected.take(offset + 1));
    }
    assert(expected.take(count as int) =~= expected);
    rows
}

// Whole series

/// The number of batches that the windows of a series make.
pub open spec fn batch_count(window_count: int) -> int {
    (window_count + BATCH_SIZE - 1) / BATCH_SIZE as int
}

/// The number of windows in a batch of a series.
pub open spec fn batch_size_of<N>(series: Seq<TimestampedPrice<N>>, index: int) -> int {
    batch_end_of(index * BATCH_SIZE, series.len() - INPUTS) - index * BATCH_SIZE
}

/// The values that the model is shown for a batch of a series.
pub open spec fn shown_for<N: Number>(
    predictor: Predictor<N>,
    series: Seq<TimestampedPrice<N>>,
    index: int,
) -> Seq<N> {
    let start = index * BATCH_SIZE;
    batch_inputs_of(
        predictor,
        prices_of(series),
        start,
        start + batch_size_of(series, index),
    )
}

/// Whether a model may give an output for some inputs.
pub open spec fn gives<N, F: Fn(Vec<N>) -> Result<Vec<N>, String>>(
    model: F,
    inputs: Seq<N>,
    output: Result<Seq<N>, Seq<char>>,
) -> bool {
    exists|shown: Vec<N>, values: Result<Vec<N>, String>|
        {
            &&& #[trigger] call_ensures(model, (shown,), values)
            &&& shown@ == inputs
            &&& list_model(values) == output
        }
}

/// Whether outputs are what a model gave for the first batches of a series.
pub open spec fn are_outputs<N: Number, F: Fn(Vec<N>) -> Result<Vec<N>, String>>(
    model: F,
    predictor: Predictor<N>,
    series: Seq<TimestampedPrice<N>>,
    outputs: Seq<Seq<N>>,
) -> bool {
    forall|index: int|
        0 <= index < outputs.len() ==> gives(
            model,
            shown_for(predictor, series, index),
            Ok(#[trigger] outputs[index]),
        )
}

/// The rows that report the outputs for the first batches of a series, batch after batch.
pub open spec fn inference_rows<N: Number>(
    series: Seq<TimestampedPrice<N>>,
    outputs: Seq<Seq<N>>,
) -> Seq<Seq<Seq<char>>>
    decreases outputs.len(),
{
    if outputs.len() == 0 {
        Seq::empty()
    } else {
        inference_rows(series, outputs.drop_last()) + prediction_rows(
            series,
            (outputs.len() - 1) * BATCH_SIZE,
            outputs.last(),
        )
    }
}

/// The texts of rows, or of the error in their place.
pub open spec fn rows_model(result: Result<Vec<Vec<String>>, String>) -> Result<
    Seq<Seq<Seq<char>>>,
    Seq<char>,
> {
    match result {
        Ok(rows) => Ok(rows_of(rows@)),
        Err(message) => Err(message@),
    }
}

/// Whether an outcome is that of inference over a whole series: the rows of all batches, or the
/// message of the first batch for which the model fails.
pub open spec fn is_inference<N: Number, F: Fn(Vec<N>) -> Result<Vec<N>, String>>(
    model: F,
    predictor: Predictor<N>,
    series: Seq<TimestampedPrice<N>>,
    outcome: Result<Seq<Seq<Seq<char>>>, Seq<char>>,
) -> bool {
    let count = batch_count(series.len() - INPUTS);
    exists|outputs: Seq<Seq<N>>|
        {
            &&& #[trigger] are_outputs(model, predictor, series, outputs)
            &&& match outcome {
                Ok(rows) => {
                    &&& outputs.len() == count
                    &&& rows == inference_rows(series, outputs)
                },
                Err(message) => {
                    &&& outputs.len() < count
                    &&& gives(
                        model,
                        shown_for(predictor, series, outputs.len() as int),
                        Err(message),
                    )
                },
            }
        }
}

/// Whether a model can be shown any whole number of windows, and gives at most one distribution
/// for each.
pub open spec fn evaluates_windows<N, F: Fn(Vec<N>) -> Result<Vec<N>, String>>(model: F) -> bool {
    &&& forall|inputs: Vec<N>|
        0 < inputs@.len() && inputs@.len() % INPUTS as nat == 0 ==> #[trigger] call_requires(
            model,
            (inputs,),
        )
    &&& forall|inputs: Vec<N>, values: Vec<N>| #[trigger]
        call_ensures(model, (inputs,), Ok::<Vec<N>, String>(values)) ==> values@.len() / 3
            <= inputs@.len() / INPUTS as nat
}

/// A batch holds a full row of inputs for each of its windows.
pub(crate) proof fn lemma_batch_length<N: Number>(
    predictor: Predictor<N>,
    prices: Seq<N>,
    start: int,
    end: int,
)
    requires
        0 <= start <= end,
        end + INPUTS <= prices.len(),
    ensures
        batch_inputs_of(predictor, prices, start, end).len() == (end - start) * INPUTS,
    decreases end - start,
{
    if start < end {
        lemma_batch_length(predictor, prices, start, end - 1);
        assert(prices.subrange(end - 1, end + INPUTS).len() == INPUTS + 1);
    }
}

impl<N: Number> Predictor<N> {
    /// Predict an outcome distribution for every window of a series, in bounded batches. The
    /// model is shown the normalized returns of the windows of a batch, and gives the
    /// probabilities of their outcomes or an error.
    pub fn predict_series<F: Fn(Vec<N>) -> Result<Vec<N>, String>>(
        &self,
        series: &Vec<TimestampedPrice<N>>,
        model: F,
    ) -> (result: Result<Vec<Vec<String>>, String>)
        requires
            series@.len() > INPUTS,
            evaluates_windows(model),
        ensures
            is_inference(model, *self, series@, rows_model(result)),
    {
        let ghost window_count = series@.len() - INPUTS;
        let ghost mut outputs: Seq<Seq<N>> = Seq::empty();
        let mut rows: Vec<Vec<String>> = Vec::new();
        let mut evaluated: usize = 0;
        assert(rows_of(rows@) =~= inference_rows(series@, outputs));
        loop
            invariant
                window_count == series@.len() - INPUTS,
                series@.len() > INPUTS,
                evaluates_windows(model),
                evaluated <= window_count,
                evaluated < window_count ==> evaluated == outputs.len() * BATCH_SIZE,
                evaluated == window_count ==> outputs.len() == batch_count(window_count),
                are_outputs(model, *self, series@, outputs),
                rows_of(rows@) == inference_rows(series@, outputs),
            decreases window_count - evaluated,
        {
            let batch = match next_batch(series, evaluated) {
                Some(batch) => batch,
                None => {
                    return Ok(rows);
                },
            };
            let inputs = batch_inputs(self, series, batch);
            let ghost shown = inputs;
            proof {
                lemma_batch_length(
                    *self,
                    prices_of(series@),
                    batch.start as int,
                    batch.end as int,
                );
                assert(shown@ == shown_for(*self, series@, outputs.len() as int));
            }
            let output = model(inputs);
            assert(call_ensures(model, (shown,), output));
            match output {
                Err(message) => {
                    return Err(message);
                },
                Ok(probabilities) => {
                    let mut reported = report_predictions(series, batch.start, &probabilities);
                    let ghost earlier = rows@;
                    let ghost added = reported@;
                    rows.append(&mut reported);
                    proof {
                        let before = outputs;
                        outputs = outputs.push(probabilities@);
                        assert(outputs.drop_last() =~= before);
                        assert(rows_of(rows@) =~= rows_of(earlier) + rows_of(added));
                        assert forall|index: int| 0 <= index < outputs.len() implies gives(
                            model,
                            shown_for(*self, series@, index),
                            Ok(#[trigger] outputs[index]),
                        ) by {
                            if index < before.len() {
                                assert(outputs[index] == before[index]);
                            }
                        }
                    }
                },
            }
            evaluated = batch.end;
        }
    }
}

// Whole files

/// The names of the columns of predictions.
pub open spec fn header_row() -> Seq<Seq<char>> {
    seq!["timestamp"@, "lower_probability"@, "upper_probability"@, "neither_probability"@]
}

/// Name the columns of predictions.
pub fn prediction_header() -> (result: Vec<String>)
    ensures
        texts(result@) == header_row(),
{
    let mut result: Vec<String> = Vec::new();
    result.push("timestamp".to_owned());
    result.push("lower_probability".to_owned());
    result.push("upper_probability".to_owned());
    result.push("neither_probability".to_owned());
    assert(texts(result@) =~= header_row());
    result
}

/// Predictions below the names of their columns.
pub open spec fn below_header(outcome: Result<Seq<Seq<Seq<char>>>, Seq<char>>) -> Result<
    Seq<Seq<Seq<char>>>,
    Seq<char>,
> {
    match outcome {
        Ok(rows) => Ok(seq![header_row()] + rows),
        Err(message) => Err(message),
    }
}

/// Whether an outcome is that of inference over a file: the predictions for its latest series
/// below the names of their columns, or why there are none.
pub open spec fn is_file_inference<N: Number, F: Fn(Vec<N>) -> Result<Vec<N>, String>>(
    model: F,
    predictor: Predictor<N>,
    path: Seq<char>,
    contents: Seq<char>,
    outcome: Result<Seq<Seq<Seq<char>>>, Seq<char>>,
) -> bool {
    match inference_series::<N>(path, contents) {
        Err(message) => outcome == Err::<Seq<Seq<Seq<char>>>, Seq<char>>(message),
        Ok(series) => exists|predictions: Result<Seq<Seq<Seq<char>>>, Seq<char>>|
            {
                &&& #[trigger] is_inference(model, predictor, series, predictions)
                &&& outcome == below_header(predictions)
            },
    }
}

/// Predict an outcome distribution for every complete window of the latest series in a file. The
/// result is the table to save, from the names of its columns on.
pub fn run<N: Number, F: Fn(Vec<N>) -> Result<Vec<N>, String>>(
    predictor: &Predictor<N>,
    path: &str,
    contents: &str,
    model: F,
) -> (result: Result<Vec<Vec<String>>, String>)
    requires
        evaluates_windows(model),
    ensures
        is_file_inference(model, *predictor, path@, contents@, rows_model(result)),
{
    // Parse the latest reliable series with each price attached to its source timestamp.
    let series: Vec<TimestampedPrice<N>> = match load_latest_series(path, contents) {
        Ok(series) => series,
        Err(message) => {
            return Err(message);
        },
    };

    // Normalize and evaluate overlapping windows in bounded batches.
    let predictions = predictor.predict_series(&series, model);
    let ghost outcome = rows_model(predictions);
    assert(is_inference(model, *predictor, series@, outcome));
    assert(inference_series::<N>(path@, contents@)->Ok_0 == series@);
    assert(is_file_inference(model, *predictor, path@, contents@, below_header(outcome)));
    match predictions {
        Err(message) => Err(message),
        Ok(rows) => {
            let mut rows = rows;
            let ghost predicted = rows@;
            let mut table: Vec<Vec<String>> = Vec::new();
            table.push(prediction_header());
            table.append(&mut rows);
            assert(rows_of(table@) =~= seq![header_row()] + rows_of(predicted));
            Ok(table)
        },
    }
}

} // verus!
