//! Preparation of training data and measurement of trained models.
use crate::metrics::{epoch_label, epoch_text};
use crate::number::{one, one_spec, sum, total, zero, zero_spec, Number};
use crate::series::{log_returns, nested, returns_of};
use crate::text::{
    count_error, digits, integer_value, joined, joined3, joined4, read_count, result_model,
    show_count,
};
use vstd::prelude::*;

verus! {

/// The number of returns that the model is shown.
pub const INPUTS: usize = 128;

/// The number of future prices in which a crossing counts.
pub const OUTPUTS: usize = 128;

/// The number of windows that are evaluated together.
pub const BATCH_SIZE: usize = 64;

/// The number of adjacent returns that are averaged before the learned layers.
pub const POOL_SIZE: usize = 8;

/// The number of averages that the learned layers are shown.
pub const POOLED_LENGTH: usize = 16;

/// The width of the hidden layer.
pub const LINEAR_OUTPUTS: usize = 128;

/// The number of mutually exclusive outcomes.
pub const OUTCOME_COUNT: usize = 3;

/// The model, training, and preprocessing settings that are saved with a model.
pub struct ModelConfig<D, N> {
    pub epochs: usize,
    pub learning_rate: D,
    pub dropout: D,
    pub seed: u64,
    pub return_mean: N,
    pub return_deviation: N,
}

// Outcomes

/// Which price barrier is reached first.
#[derive(Clone, Copy, Debug, PartialEq, Eq, Structural)]
pub enum PriceOutcome {
    LowerFirst,
    UpperFirst,
    Neither,
}

impl PriceOutcome {
    /// The stable index of an outcome.
    pub open spec fn class(self) -> int {
        match self {
            PriceOutcome::LowerFirst => 0,
            PriceOutcome::UpperFirst => 1,
            PriceOutcome::Neither => 2,
        }
    }

    /// The stable index of an outcome.
    pub fn index(self) -> (result: usize)
        ensures
            result == self.class(),
            result < OUTCOME_COUNT,
    {
        match self {
            PriceOutcome::LowerFirst => 0,
            PriceOutcome::UpperFirst => 1,
            PriceOutcome::Neither => 2,
        }
    }
}

/// The barriers around a price: half a percent below it and half a percent above it.
pub open spec fn barriers<N: Number>(reference: N) -> (N, N) {
    let step = N::ratio_spec(5, 1_000);
    (
        reference.times_spec(one_spec::<N>().minus_spec(step)),
        reference.times_spec(one_spec::<N>().plus_spec(step)),
    )
}

/// The barrier that a price is beyond, if any.
pub open spec fn crossing<N: Number>(price: N, lower: N, upper: N) -> Option<PriceOutcome> {
    if upper.below_spec(price) {
        Some(PriceOutcome::UpperFirst)
    } else if price.below_spec(lower) {
        Some(PriceOutcome::LowerFirst)
    } else {
        None
    }
}

/// The barrier that the first price beyond one is beyond.
pub open spec fn first_crossing<N: Number>(
    prices: Seq<N>,
    lower: N,
    upper: N,
) -> Option<PriceOutcome>
    decreases prices.len(),
{
    if prices.len() == 0 {
        None
    } else {
        match first_crossing(prices.drop_last(), lower, upper) {
            Some(outcome) => Some(outcome),
            None => crossing(prices.last(), lower, upper),
        }
    }
}

/// A crossing among some prices is the first among more.
proof fn lemma_first_crossing<N: Number>(prices: Seq<N>, lower: N, upper: N, count: int)
    requires
        0 <= count <= prices.len(),
        first_crossing(prices.take(count), lower, upper) is Some,
    ensures
        first_crossing(prices, lower, upper) == first_crossing(prices.take(count), lower, upper),
    decreases prices.len(),
{
    if count < prices.len() {
        assert(prices.drop_last().take(count) =~= prices.take(count));
        lemma_first_crossing(prices.drop_last(), lower, upper, count);
    } else {
        assert(prices.take(count) =~= prices);
    }
}

/// The outcome of a window: the barriers are those around its last observed price.
pub open spec fn outcome_of<N: Number>(window: Seq<N>, inputs: int) -> PriceOutcome {
    let (lower, upper) = barriers(window[inputs]);
    match first_crossing(window.skip(inputs + 1), lower, upper) {
        Some(outcome) => outcome,
        None => PriceOutcome::Neither,
    }
}

/// Label a window by its future prices.
fn label_window<N: Number>(window: &Vec<N>, inputs: usize) -> (result: PriceOutcome)
    requires
        inputs < window@.len(),
    ensures
        result == outcome_of(window@, inputs as int),
{
    // Calculate both barriers from the final price observed by the model.
    let reference: N = window[inputs];
    let upper = reference.times(one::<N>().plus(N::ratio(5, 1_000)));
    let lower = reference.times(one::<N>().minus(N::ratio(5, 1_000)));
    let ghost future = window@.skip(inputs + 1);
    assert(future.take(0) =~= Seq::empty());
    for index in (inputs + 1)..window.len()
        invariant
            inputs < window@.len(),
            future == window@.skip(inputs + 1),
            barriers(window@[inputs as int]) == (lower, upper),
            first_crossing(future.take(index - inputs - 1), lower, upper) is None,
    {
        let ghost count = index - inputs;
        assert(future.take(count).drop_last() =~= future.take(count - 1));
        assert(future.take(count).last() == window@[index as int]);
        let price: N = window[index];
        if upper.below(price) {
            proof {
                lemma_first_crossing(future, lower, upper, count);
            }
            return PriceOutcome::UpperFirst;
        }
        if price.below(lower) {
            proof {
                lemma_first_crossing(future, lower, upper, count);
            }
            return PriceOutcome::LowerFirst;
        }
    }
    assert(future.take(window@.len() - inputs - 1) =~= future);
    PriceOutcome::Neither
}

// Windows

/// One normalized input window and its outcome.
pub struct SeriesItem<N> {
    pub inputs: Vec<N>,
    pub target: PriceOutcome,
}

/// The mathematical model of a [`SeriesItem`].
#[verifier::ext_equal]
pub struct ItemModel<N> {
    pub inputs: Seq<N>,
    pub target: PriceOutcome,
}

impl<N> View for SeriesItem<N> {
    type V = ItemModel<N>;

    open spec fn view(&self) -> ItemModel<N> {
        ItemModel { inputs: self.inputs@, target: self.target }
    }
}

/// The models of a list of items.
pub open spec fn item_models<N>(items: Seq<SeriesItem<N>>) -> Seq<ItemModel<N>> {
    items.map_values(|item: SeriesItem<N>| item@)
}

/// A value in units of the deviation from the mean.
pub open spec fn normalized<N: Number>(value: N, mean: N, deviation: N) -> N {
    value.minus_spec(mean).over_spec(deviation)
}

/// The normalized returns of prices.
pub open spec fn normalized_returns<N: Number>(prices: Seq<N>, mean: N, deviation: N) -> Seq<N> {
    returns_of(prices).map_values(|value: N| normalized(value, mean, deviation))
}

/// Normalize the returns of some consecutive prices.
pub fn normalize_returns<N: Number>(
    prices: &Vec<N>,
    start: usize,
    end: usize,
    mean: N,
    deviation: N,
) -> (result: Vec<N>)
    requires
        start <= end <= prices@.len(),
    ensures
        result@ == normalized_returns(prices@.subrange(start as int, end as int), mean, deviation),
{
    let window = copy_range(prices, start, end);
    let returns_list = log_returns(&window);
    let mut result: Vec<N> = Vec::new();
    let ghost expected = normalized_returns(window@, mean, deviation);
    for index in 0..returns_list.len()
        invariant
            returns_list@ == returns_of(window@),
            expected == normalized_returns(window@, mean, deviation),
            result@ == expected.take(index as int),
    {
        result.push(returns_list[index].minus(mean).over(deviation));
        assert(result@ =~= expected.take(index + 1));
    }
    assert(expected.take(returns_list.len() as int) =~= expected);
    result
}

/// Copy some consecutive values.
fn copy_range<N: Number>(values: &Vec<N>, start: usize, end: usize) -> (result: Vec<N>)
    requires
        start <= end <= values@.len(),
    ensures
        result@ == values@.subrange(start as int, end as int),
{
    let mut result: Vec<N> = Vec::new();
    for index in start..end
        invariant
            end <= values@.len(),
            result@ == values@.subrange(start as int, index as int),
    {
        result.push(values[index]);
        assert(result@ =~= values@.subrange(start as int, index + 1));
    }
    assert(result@ =~= values@.subrange(start as int, end as int));
    result
}

/// The example that a window makes.
pub open spec fn item_of<N: Number>(
    window: Seq<N>,
    inputs: int,
    mean: N,
    deviation: N,
) -> ItemModel<N> {
    ItemModel {
        inputs: normalized_returns(window.take(inputs + 1), mean, deviation),
        target: outcome_of(window, inputs),
    }
}

/// The number of windows of a length in a series.
pub open spec fn window_count(prices: int, length: int) -> nat {
    if prices < length {
        0
    } else {
        (prices - length + 1) as nat
    }
}

/// The examples that a series makes, one for each place at which a window fits.
pub open spec fn windows_of<N: Number>(
    prices: Seq<N>,
    inputs: int,
    outputs: int,
    mean: N,
    deviation: N,
) -> Seq<ItemModel<N>> {
    let length = inputs + outputs + 1;
    Seq::new(
        window_count(prices.len() as int, length),
        |start: int| item_of(prices.subrange(start, start + length), inputs, mean, deviation),
    )
}

/// Create chronological examples labeled by future crossings of the target price.
pub fn windows<N: Number>(
    prices: &Vec<N>,
    inputs: usize,
    outputs: usize,
    mean: N,
    deviation: N,
) -> (result: Vec<SeriesItem<N>>)
    requires
        inputs + outputs + 1 <= usize::MAX,
    ensures
        item_models(result@) == windows_of(
            prices@,
            inputs as int,
            outputs as int,
            mean,
            deviation,
        ),
{
    let length: usize = inputs + outputs + 1;
    let ghost expected = windows_of(prices@, inputs as int, outputs as int, mean, deviation);
    let mut result: Vec<SeriesItem<N>> = Vec::new();
    if prices.len() >= length {
        let count: usize = prices.len() - length + 1;
        assert(item_models(result@) =~= expected.take(0));
        for start in 0..count
            invariant
                length == inputs + outputs + 1,
                count == prices@.len() - length + 1,
                prices@.len() <= usize::MAX,
                expected == windows_of(
                    prices@,
                    inputs as int,
                    outputs as int,
                    mean,
                    deviation,
                ),
                item_models(result@) == expected.take(start as int),
        {
            let ghost before = result@;
            let window = copy_range(prices, start, start + length);
            let target = label_window(&window, inputs);

            // Normalize only the returns presented to the model, leaving the label exact.
            let normalized_inputs = normalize_returns(&window, 0, inputs + 1, mean, deviation);
            assert(window@.subrange(0, inputs + 1) =~= window@.take(inputs + 1));
            let item = SeriesItem { inputs: normalized_inputs, target };
            result.push(item);
            assert(item@ == expected[start as int]);
            assert(item_models(result@) =~= item_models(before).push(item@));
            assert(item_models(result@) =~= expected.take(start + 1));
        }
        assert(expected.take(count as int) =~= expected);
    }
    assert(item_models(result@) =~= expected);
    result
}

/// The examples that several series make. None crosses from one series into the next.
pub open spec fn items_of<N: Number>(
    series: Seq<Seq<N>>,
    inputs: int,
    outputs: int,
    mean: N,
    deviation: N,
) -> Seq<ItemModel<N>>
    decreases series.len(),
{
    if series.len() == 0 {
        Seq::empty()
    } else {
        items_of(series.drop_last(), inputs, outputs, mean, deviation) + windows_of(
            series.last(),
            inputs,
            outputs,
            mean,
            deviation,
        )
    }
}

/// Create the examples that several series make.
fn create_items<N: Number>(
    series: &Vec<Vec<N>>,
    inputs: usize,
    outputs: usize,
    mean: N,
    deviation: N,
) -> (result: Vec<SeriesItem<N>>)
    requires
        inputs + outputs + 1 <= usize::MAX,
    ensures
        item_models(result@) == items_of(
            nested(series@),
            inputs as int,
            outputs as int,
            mean,
            deviation,
        ),
{
    let ghost lists = nested(series@);
    let mut result: Vec<SeriesItem<N>> = Vec::new();
    assert(item_models(result@) =~= Seq::empty());
    for index in 0..series.len()
        invariant
            inputs + outputs + 1 <= usize::MAX,
            lists == nested(series@),
            item_models(result@) == items_of(
                lists.take(index as int),
                inputs as int,
                outputs as int,
                mean,
                deviation,
            ),
    {
        assert(lists.take(index + 1).drop_last() =~= lists.take(index as int));
        let ghost before = result@;
        let mut items = windows(&series[index], inputs, outputs, mean, deviation);
        let ghost added = items@;
        result.append(&mut items);
        assert(item_models(result@) =~= item_models(before) + item_models(added));
    }
    assert(lists.take(series.len() as int) =~= lists);
    result
}

// Normalization

/// The returns of each series.
pub open spec fn series_returns<N: Number>(series: Seq<Seq<N>>) -> Seq<Seq<N>> {
    series.map_values(|prices: Seq<N>| returns_of(prices))
}

/// The values of several lists, one list after another.
pub open spec fn flat<T>(lists: Seq<Seq<T>>) -> Seq<T>
    decreases lists.len(),
{
    if lists.len() == 0 {
        Seq::empty()
    } else {
        flat(lists.drop_last()) + lists.last()
    }
}

/// The mean of values.
pub open spec fn mean_of<N: Number>(values: Seq<N>) -> N {
    total(values).over_spec(N::count_spec(values.len()))
}

/// The standard deviation of values from a mean.
pub open spec fn deviation_of<N: Number>(values: Seq<N>, mean: N) -> N {
    total(values.map_values(|value: N| value.minus_spec(mean).squared_spec())).over_spec(
        N::count_spec(values.len()),
    ).square_root_spec()
}

/// The first list that is shorter than a length.
pub open spec fn first_short<T>(lists: Seq<Seq<T>>, length: int) -> Option<int>
    decreases lists.len(),
{
    if lists.len() == 0 {
        None
    } else {
        match first_short(lists.drop_last(), length) {
            Some(index) => Some(index),
            None => if lists.last().len() < length {
                Some(lists.len() - 1)
            } else {
                None
            },
        }
    }
}

/// A short list among some is the first short list of more.
proof fn lemma_first_short<T>(lists: Seq<Seq<T>>, length: int, count: int)
    requires
        0 <= count <= lists.len(),
        first_short(lists.take(count), length) is Some,
    ensures
        first_short(lists, length) == first_short(lists.take(count), length),
    decreases lists.len(),
{
    if count < lists.len() {
        assert(lists.drop_last().take(count) =~= lists.take(count));
        lemma_first_short(lists.drop_last(), length, count);
    } else {
        assert(lists.take(count) =~= lists);
    }
}

/// Why a list of series cannot be used, if it cannot: it is empty, or one of them does not hold
/// one complete window.
pub open spec fn series_problem<N>(
    kind: Seq<char>,
    returns_lists: Seq<Seq<N>>,
    inputs: int,
    outputs: int,
) -> Option<Seq<char>> {
    if returns_lists.len() == 0 {
        Some("at least one "@ + kind + " series is required"@)
    } else {
        match first_short(returns_lists, inputs + outputs) {
            Some(index) => Some(
                kind + " series "@ + digits((index + 1) as nat) + " is too short for "@ + (digits(
                    inputs as nat,
                ) + " inputs and "@ + digits(outputs as nat) + " outputs"@),
            ),
            None => None,
        }
    }
}

/// Require every series to contain at least one complete model window.
fn check_series<N: Number>(
    kind: &str,
    returns_lists: &Vec<Vec<N>>,
    inputs: usize,
    outputs: usize,
) -> (result: Result<(), String>)
    requires
        inputs + outputs <= usize::MAX,
    ensures
        match result {
            Ok(_) => series_problem(
                kind@,
                nested(returns_lists@),
                inputs as int,
                outputs as int,
            ) is None,
            Err(message) => series_problem(
                kind@,
                nested(returns_lists@),
                inputs as int,
                outputs as int,
            ) == Some(message@),
        },
{
    if returns_lists.len() == 0 {
        return Err(joined3("at least one ", kind, " series is required"));
    }
    let ghost lists = nested(returns_lists@);
    for index in 0..returns_lists.len()
        invariant
            inputs + outputs <= usize::MAX,
            lists == nested(returns_lists@),
            first_short(lists.take(index as int), inputs + outputs) is None,
    {
        assert(lists.take(index + 1).drop_last() =~= lists.take(index as int));
        if returns_lists[index].len() < inputs + outputs {
            proof {
                lemma_first_short(lists, inputs + outputs, index + 1);
            }
            let head = joined4(kind, " series ", &show_count(index + 1), " is too short for ");
            let tail = joined4(
                &show_count(inputs),
                " inputs and ",
                &show_count(outputs),
                " outputs",
            );
            return Err(joined(&head, &tail));
        }
    }
    assert(lists.take(returns_lists.len() as int) =~= lists);
    Ok(())
}

/// Convert each price series independently.
fn convert_series<N: Number>(series: &Vec<Vec<N>>) -> (result: Vec<Vec<N>>)
    ensures
        nested(result@) == series_returns(nested(series@)),
{
    let ghost expected = series_returns(nested(series@));
    let mut result: Vec<Vec<N>> = Vec::new();
    for index in 0..series.len()
        invariant
            expected == series_returns(nested(series@)),
            nested(result@) == expected.take(index as int),
    {
        let ghost before = result@;
        let converted = log_returns(&series[index]);
        result.push(converted);
        assert(nested(result@) =~= nested(before).push(converted@));
        assert(nested(result@) =~= expected.take(index + 1));
    }
    assert(expected.take(series.len() as int) =~= expected);
    result
}

/// Write several lists one after another.
fn flatten<N: Number>(lists: Vec<Vec<N>>) -> (result: Vec<N>)
    ensures
        result@ == flat(nested(lists@)),
{
    let ghost models = nested(lists@);
    let ghost originals = lists@;
    let mut result: Vec<N> = Vec::new();
    for list in iterator: lists
        invariant
            iterator.seq() == originals,
            models == nested(originals),
            result@ == flat(models.take(iterator.index() as int)),
    {
        let ghost index = iterator.index() as int;
        assert(models.take(index + 1).drop_last() =~= models.take(index));
        assert(models.take(index + 1).last() == list@);
        let mut list: Vec<N> = list;
        result.append(&mut list);
    }
    assert(models.take(models.len() as int) =~= models);
    result
}

/// Calculate the mean of values.
fn calculate_mean<N: Number>(values: &Vec<N>) -> (result: N)
    ensures
        result == mean_of(values@),
{
    sum(values).over(N::count(values.len()))
}

/// Calculate the standard deviation of values from a mean.
fn calculate_deviation<N: Number>(values: &Vec<N>, mean: N) -> (result: N)
    ensures
        result == deviation_of(values@, mean),
{
    let ghost expected = values@.map_values(
        |value: N| value.minus_spec(mean).squared_spec(),
    );
    let mut squares: Vec<N> = Vec::new();
    for index in 0..values.len()
        invariant
            expected == values@.map_values(|value: N| value.minus_spec(mean).squared_spec()),
            squares@ == expected.take(index as int),
    {
        squares.push(values[index].minus(mean).squared());
        assert(squares@ =~= expected.take(index + 1));
    }
    assert(expected.take(values.len() as int) =~= expected);
    sum(&squares).over(N::count(values.len())).square_root()
}

/// Prepared datasets and their normalization parameters.
pub struct PreparedData<N> {
    pub training: Vec<SeriesItem<N>>,
    pub validation: Vec<SeriesItem<N>>,
    pub mean: N,
    pub deviation: N,
}

/// The mathematical model of [`PreparedData`].
#[verifier::ext_equal]
pub struct DataModel<N> {
    pub training: Seq<ItemModel<N>>,
    pub validation: Seq<ItemModel<N>>,
    pub mean: N,
    pub deviation: N,
}

impl<N> View for PreparedData<N> {
    type V = DataModel<N>;

    open spec fn view(&self) -> DataModel<N> {
        DataModel {
            training: item_models(self.training@),
            validation: item_models(self.validation@),
            mean: self.mean,
            deviation: self.deviation,
        }
    }
}

/// The prepared datasets, or why they cannot be prepared. Only the training series decide on
/// the normalization.
pub open spec fn prepared<N: Number>(
    training: Seq<Seq<N>>,
    validation: Seq<Seq<N>>,
    inputs: int,
    outputs: int,
) -> Result<DataModel<N>, Seq<char>> {
    let values = flat(series_returns(training));
    let mean = mean_of(values);
    let deviation = deviation_of(values, mean);
    match (
        series_problem("training"@, series_returns(training), inputs, outputs),
        series_problem("validation"@, series_returns(validation), inputs, outputs),
    ) {
        (Some(message), _) => Err(message),
        (None, Some(message)) => Err(message),
        (None, None) => if !deviation.is_finite_spec() || deviation.at_most_spec(
            N::epsilon_spec(),
        ) {
            Err("training returns must have nonzero finite variance"@)
        } else {
            Ok(
                DataModel {
                    training: items_of(training, inputs, outputs, mean, deviation),
                    validation: items_of(validation, inputs, outputs, mean, deviation),
                    mean,
                    deviation,
                },
            )
        },
    }
}

/// Transform and normalize raw prices before windowing every independent series.
pub fn prepare_data<N: Number>(
    training_prices: &Vec<Vec<N>>,
    validation_prices: &Vec<Vec<N>>,
    inputs: usize,
    outputs: usize,
) -> (result: Result<PreparedData<N>, String>)
    requires
        inputs + outputs + 1 <= usize::MAX,
    ensures
        match (
            result,
            prepared(
                nested(training_prices@),
                nested(validation_prices@),
                inputs as int,
                outputs as int,
            ),
        ) {
            (Ok(data), Ok(expected)) => data@ == expected,
            (Err(message), Err(expected)) => message@ == expected,
            _ => false,
        },
{
    // Convert each price series independently so normalization never crosses a timestamp gap.
    let training_series = convert_series(training_prices);
    let validation_series = convert_series(validation_prices);

    // Require every series to contain at least one complete model window.
    if let Err(message) = check_series("training", &training_series, inputs, outputs) {
        return Err(message);
    }
    if let Err(message) = check_series("validation", &validation_series, inputs, outputs) {
        return Err(message);
    }

    // Fit normalization exclusively to returns from the training series.
    let values = flatten(training_series);
    let mean = calculate_mean(&values);
    let deviation = calculate_deviation(&values, mean);
    if !deviation.is_finite() || deviation.at_most(N::epsilon()) {
        return Err("training returns must have nonzero finite variance".to_owned());
    }

    // Normalize and label each price window separately so no example crosses a timestamp gap.
    let training = create_items(training_prices, inputs, outputs, mean, deviation);
    let validation = create_items(validation_prices, inputs, outputs, mean, deviation);
    Ok(PreparedData { training, validation, mean, deviation })
}

// Epochs

/// A pass over the training data that is to be made.
pub struct Epoch<D, N> {
    /// The number of the pass, from one on.
    pub number: usize,
    /// The label of its metrics.
    pub label: String,
    /// The configuration to save with the model once the pass is complete. It counts the passes
    /// that the model has had.
    pub saved: ModelConfig<D, N>,
}

/// The configuration that is saved after a number of epochs.
pub open spec fn saved_after<D, N>(config: ModelConfig<D, N>, epochs: int) -> ModelConfig<D, N> {
    ModelConfig { epochs: epochs as usize, ..config }
}

/// The configurations that are saved in turn by a training run of which some epochs are
/// complete.
pub open spec fn checkpoints_from<D, N>(config: ModelConfig<D, N>, completed: int) -> Seq<
    ModelConfig<D, N>,
>
    decreases config.epochs - completed,
{
    if completed >= config.epochs {
        Seq::empty()
    } else {
        seq![saved_after(config, completed + 1)] + checkpoints_from(config, completed + 1)
    }
}

/// The next epoch of a training run of which some epochs are complete and saved. There is none
/// once as many are as were requested.
pub fn next_epoch<D: Number, N: Number>(config: &ModelConfig<D, N>, completed: usize) -> (result:
    Option<Epoch<D, N>>)
    ensures
        match result {
            Some(epoch) => {
                &&& epoch.number == completed + 1 <= config.epochs
                &&& epoch.label@ == epoch_text(epoch.number as nat, config.epochs as nat)
                &&& epoch.saved == (ModelConfig { epochs: epoch.number, ..*config })
                &&& checkpoints_from(*config, completed as int) == seq![epoch.saved]
                    + checkpoints_from(*config, epoch.number as int)
            },
            None => {
                &&& completed >= config.epochs
                &&& checkpoints_from(*config, completed as int) == Seq::<
                    ModelConfig<D, N>,
                >::empty()
            },
        },
{
    if completed >= config.epochs {
        return None;
    }
    let number: usize = completed + 1;
    let saved = ModelConfig {
        epochs: number,
        learning_rate: config.learning_rate,
        dropout: config.dropout,
        seed: config.seed,
        return_mean: config.return_mean,
        return_deviation: config.return_deviation,
    };
    Some(Epoch { number, label: epoch_label(number, config.epochs), saved })
}

// Arguments

/// The positive count that a text stands for.
pub open spec fn positive_count_of(value: Seq<char>) -> Result<usize, Seq<char>> {
    match integer_value(value) {
        Some(number) if value[0] != '-' && number <= usize::MAX => if number == 0 {
            Err("value must be greater than zero"@)
        } else {
            Ok(number as usize)
        },
        _ => Err(count_error(value)),
    }
}

/// Parse a strictly positive model dimension from the command line.
pub fn parse_positive_usize(value: &str) -> (result: Result<usize, String>)
    ensures
        result_model(result) == positive_count_of(value@),
{
    let parsed: usize = match read_count(value) {
        Ok(parsed) => parsed,
        Err(message) => {
            return Err(message);
        },
    };
    if parsed == 0 {
        return Err("value must be greater than zero".to_owned());
    }
    Ok(parsed)
}

/// The finite positive number that a text stands for.
pub open spec fn positive_number_of<D: Number>(value: Seq<char>) -> Result<D, Seq<char>> {
    match D::parse_spec(value) {
        Err(message) => Err(message),
        Ok(number) => if !number.is_finite_spec() || number.at_most_spec(zero_spec()) {
            Err("value must be finite and greater than zero"@)
        } else {
            Ok(number)
        },
    }
}

/// Parse a finite positive floating-point parameter from the command line.
pub fn parse_positive_number<D: Number>(value: &str) -> (result: Result<D, String>)
    ensures
        result_model(result) == positive_number_of::<D>(value@),
{
    let parsed: D = match D::parse(value) {
        Ok(parsed) => parsed,
        Err(message) => {
            return Err(message);
        },
    };
    if !parsed.is_finite() || parsed.at_most(zero()) {
        return Err("value must be finite and greater than zero".to_owned());
    }
    Ok(parsed)
}

/// The dropout probability that a text stands for.
pub open spec fn dropout_of<D: Number>(value: Seq<char>) -> Result<D, Seq<char>> {
    match D::parse_spec(value) {
        Err(message) => Err(message),
        Ok(number) => if number.is_finite_spec() && zero_spec::<D>().at_most_spec(number)
            && number.below_spec(one_spec()) {
            Ok(number)
        } else {
            Err("value must be finite, nonnegative, and less than one"@)
        },
    }
}

/// Parse a finite dropout probability that leaves some activations enabled.
pub fn parse_dropout<D: Number>(value: &str) -> (result: Result<D, String>)
    ensures
        result_model(result) == dropout_of::<D>(value@),
{
    let parsed: D = match D::parse(value) {
        Ok(parsed) => parsed,
        Err(message) => {
            return Err(message);
        },
    };
    if parsed.is_finite() && zero::<D>().at_most(parsed) && parsed.below(one()) {
        Ok(parsed)
    } else {
        Err("value must be finite, nonnegative, and less than one".to_owned())
    }
}

} // verus!
