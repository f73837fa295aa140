use stockholm::clock::{
    eastern_second_of_day, is_inside_window, second_of_day, start_of_second,
    EARLIEST_EASTERN_TIMESTAMP, EARLIEST_TIMESTAMP, LATEST_TIMESTAMP,
};
use stockholm::infer::{
    batch_inputs, latest_series, load_latest_series, name_probabilities, next_batch,
    prediction_header, report_predictions, run, Batch, Predictor,
};
use stockholm::metrics::{
    count_targets, epoch_label, report_metrics, report_rates, report_sizes,
    ClassificationMetrics, Evaluation,
};
use stockholm::number::Number;
use stockholm::series::{
    extend_series, log_returns, parse_price_at, parse_price_series, parse_table_series,
    parse_training_prices, TimestampedPrice,
};
use stockholm::table::Table;
use stockholm::train::{
    next_epoch, parse_dropout, parse_positive_number, parse_positive_usize, prepare_data, windows,
    ModelConfig, PriceOutcome, INPUTS,
};

// Single-precision arithmetic.
#[derive(Clone, Copy, Debug, PartialEq)]
struct Single(f32);

impl Number for Single {
    fn plus(self, other: Self) -> Self {
        Single(self.0 + other.0)
    }

    fn minus(self, other: Self) -> Self {
        Single(self.0 - other.0)
    }

    fn times(self, other: Self) -> Self {
        Single(self.0 * other.0)
    }

    fn over(self, other: Self) -> Self {
        Single(self.0 / other.0)
    }

    fn minimum(self, other: Self) -> Self {
        Single(self.0.min(other.0))
    }

    fn maximum(self, other: Self) -> Self {
        Single(self.0.max(other.0))
    }

    fn floor(self) -> Self {
        Single(self.0.floor())
    }

    fn ceiling(self) -> Self {
        Single(self.0.ceil())
    }

    fn square_root(self) -> Self {
        Single(self.0.sqrt())
    }

    fn natural_log(self) -> Self {
        Single(self.0.ln())
    }

    fn squared(self) -> Self {
        Single(self.0.powi(2))
    }

    fn below(self, other: Self) -> bool {
        self.0 < other.0
    }

    fn at_most(self, other: Self) -> bool {
        self.0 <= other.0
    }

    fn same(self, other: Self) -> bool {
        self.0 == other.0
    }

    fn total_below(self, other: Self) -> bool {
        self.0.total_cmp(&other.0).is_lt()
    }

    fn is_finite(self) -> bool {
        self.0.is_finite()
    }

    fn infinity() -> Self {
        Single(f32::INFINITY)
    }

    fn negative_infinity() -> Self {
        Single(f32::NEG_INFINITY)
    }

    fn epsilon() -> Self {
        Single(f32::EPSILON)
    }

    fn empty_sum() -> Self {
        Single(std::iter::empty::<f32>().sum())
    }

    fn ratio(numerator: u32, denominator: u32) -> Self {
        Single(numerator as f32 / denominator as f32)
    }

    fn count(value: usize) -> Self {
        Single(value as f32)
    }

    fn parse(text: &str) -> Result<Self, String> {
        text.parse::<f32>().map(Single).map_err(|error| error.to_string())
    }

    fn show(self) -> String {
        self.0.to_string()
    }

    fn show_fixed(self, places: usize) -> String {
        format!("{:.*}", places, self.0)
    }
}
// Double-precision arithmetic.
#[derive(Clone, Copy, Debug, PartialEq)]
struct Double(f64);

impl Number for Double {
    fn plus(self, other: Self) -> Self {
        Double(self.0 + other.0)
    }

    fn minus(self, other: Self) -> Self {
        Double(self.0 - other.0)
    }

    fn times(self, other: Self) -> Self {
        Double(self.0 * other.0)
    }

    fn over(self, other: Self) -> Self {
        Double(self.0 / other.0)
    }

    fn minimum(self, other: Self) -> Self {
        Double(self.0.min(other.0))
    }

    fn maximum(self, other: Self) -> Self {
        Double(self.0.max(other.0))
    }

    fn floor(self) -> Self {
        Double(self.0.floor())
    }

    fn ceiling(self) -> Self {
        Double(self.0.ceil())
    }

    fn square_root(self) -> Self {
        Double(self.0.sqrt())
    }

    fn natural_log(self) -> Self {
        Double(self.0.ln())
    }

    fn squared(self) -> Self {
        Double(self.0.powi(2))
    }

    fn below(self, other: Self) -> bool {
        self.0 < other.0
    }

    fn at_most(self, other: Self) -> bool {
        self.0 <= other.0
    }

    fn same(self, other: Self) -> bool {
        self.0 == other.0
    }

    fn total_below(self, other: Self) -> bool {
        self.0.total_cmp(&other.0).is_lt()
    }

    fn is_finite(self) -> bool {
        self.0.is_finite()
    }

    fn infinity() -> Self {
        Double(f64::INFINITY)
    }

    fn negative_infinity() -> Self {
        Double(f64::NEG_INFINITY)
    }

    fn epsilon() -> Self {
        Double(f64::EPSILON)
    }

    fn empty_sum() -> Self {
        Double(std::iter::empty::<f64>().sum())
    }

    fn ratio(numerator: u32, denominator: u32) -> Self {
        Double(f64::from(numerator) / f64::from(denominator))
    }

    fn count(value: usize) -> Self {
        Double(value as f64)
    }

    fn parse(text: &str) -> Result<Self, String> {
        text.parse::<f64>().map(Double).map_err(|error| error.to_string())
    }

    fn show(self) -> String {
        self.0.to_string()
    }

    fn show_fixed(self, places: usize) -> String {
        format!("{:.*}", places, self.0)
    }
}

// Name the prices of each series as plain numbers.
fn plain(series: Vec<Vec<Single>>) -> Vec<Vec<f32>> {
    series
        .into_iter()
        .map(|prices| prices.into_iter().map(|price| price.0).collect())
        .collect()
}

fn singles(values: &[f32]) -> Vec<Single> {
    values.iter().map(|value| Single(*value)).collect()
}

fn rising_prices() -> Vec<Single> {
    (1_u16..=101).map(|price| Single(f32::from(price))).collect()
}

// The barriers around a price of one hundred.
fn lower_and_upper() -> (f32, f32) {
    (100.0_f32 * (1.0_f32 - 0.005_f32), 100.0_f32 * (1.0_f32 + 0.005_f32))
}

fn price_line(count: i64) -> Vec<TimestampedPrice<Single>> {
    (0..count)
        .map(|second| TimestampedPrice {
            timestamp: 1_784_035_800 + second,
            price: Single(100.0 + second as f32),
        })
        .collect()
}

#[test]
fn validate_dropout_probability() {
    // Accept disabled and partial dropout while rejecting invalid scaling probabilities.
    assert!(parse_dropout::<Double>("0").unwrap().0.abs() < f64::EPSILON);
    assert!((parse_dropout::<Double>("0.5").unwrap().0 - 0.5_f64).abs() < f64::EPSILON);
    for value in ["-0.1", "1", "NaN", "infinity"] {
        assert!(parse_dropout::<Double>(value).is_err());
    }
}

#[test]
fn parse_price_lines() {
    // Confirm the header and unused historical columns do not alter opening prices.
    let prices = parse_training_prices(
        "date,open,high,low,close,volume,wap,count\n\
         1784035800,100,900,1,2,3,4,5\n\
         1784035801,101.5,800,1,2,3,4,5\n\
         1784035802,99,700,1,2,3,4,5\n",
    )
    .unwrap();

    assert_eq!(plain(prices), vec![vec![100.0_f32, 101.5_f32, 99.0_f32]]);
}

#[test]
fn discard_unreliable_training_prices_across_eastern_time_offsets() {
    // Ignore premarket, unreliable, and closing rows while retaining the regular session.
    for start in [1_784_016_000_i64, 1_767_949_200_i64] {
        let contents = format!(
            "date,open\n{},invalid\n{},invalid\n{},invalid\n{},99\n{},100\n{},invalid\n",
            start - 1,
            start,
            start + 899,
            start + 19_800,
            start + 19_801,
            start + 43_200,
        );

        assert_eq!(
            plain(parse_training_prices(&contents).unwrap()),
            vec![vec![99.0_f32, 100.0_f32]],
        );
        assert_eq!(
            parse_price_series::<Single>(&contents).unwrap()[0]
                .iter()
                .map(|price| price.timestamp)
                .collect::<Vec<_>>(),
            vec![start + 19_800, start + 19_801],
        );
    }
}

#[test]
fn split_prices_at_timestamp_gaps() {
    // Keep one-second observations together while separating gaps and reversed timestamps.
    let prices = parse_training_prices(
        "date,open\n\
         1784035800,100\n\
         1784035801,101\n\
         1784035803,102\n\
         1784035804,103\n\
         1784035802,104\n",
    )
    .unwrap();

    assert_eq!(
        plain(prices),
        vec![
            vec![100.0_f32, 101.0_f32],
            vec![102.0_f32, 103.0_f32],
            vec![104.0_f32],
        ],
    );
}

#[test]
fn reject_nonpositive_prices() {
    // Confirm price parsing rejects values outside the logarithmic return domain.
    let error =
        parse_training_prices::<Single>("date,open\n1784035800,100\n1784035801,0\n").unwrap_err();

    assert!(error.to_string().contains("finite and positive"));
}

#[test]
fn create_separate_training_and_validation_windows() {
    // Confirm raw price series contribute only to their selected dataset.
    let series = vec![rising_prices()];
    let data = prepare_data(&series, &series, 4, 2).unwrap();

    assert_eq!(data.training.len(), 95);
    assert_eq!(data.validation.len(), 95);
    assert!(
        data.training
            .iter()
            .all(|item| item.target == PriceOutcome::UpperFirst),
    );
}

#[test]
fn label_future_price_crossings() {
    // Distinguish strict upper-first, lower-first, and unresolved future paths.
    let (lower_limit, upper_target) = lower_and_upper();
    let label = |first: f32, second: f32| {
        windows(
            &singles(&[90.0_f32, 95.0, 100.0, first, second]),
            2,
            2,
            Single(0.0),
            Single(1.0),
        )
    };
    let crossing = label(lower_limit, upper_target + 0.1_f32);
    let no_gain = label(upper_target, upper_target);
    let loss_before_gain = label(lower_limit - 0.1_f32, upper_target + 0.1_f32);
    let loss_after_gain = label(upper_target + 0.1_f32, lower_limit - 0.1_f32);

    assert_eq!(crossing[0].inputs.len(), 2);
    assert_eq!(crossing[0].target, PriceOutcome::UpperFirst);
    assert_eq!(no_gain[0].target, PriceOutcome::Neither);
    assert_eq!(loss_before_gain[0].target, PriceOutcome::LowerFirst);
    assert_eq!(loss_after_gain[0].target, PriceOutcome::UpperFirst);
}

#[test]
fn keep_series_windows_separate() {
    // Confirm combining series does not add windows across their boundary.
    let series = vec![rising_prices(), rising_prices()];
    let data = prepare_data(&series, &series, 4, 2).unwrap();

    assert_eq!(data.training.len(), 190);
    assert_eq!(data.validation.len(), 190);
}

#[test]
fn returns_are_logarithms() {
    assert!(log_returns::<Single>(&Vec::new()).is_empty());
    assert!(log_returns(&singles(&[5.0])).is_empty());
    assert_eq!(
        log_returns(&singles(&[1.0, 2.0, 1.0])),
        vec![Single(2.0_f32.ln()), Single(0.5_f32.ln())],
    );
}

#[test]
fn normalization_comes_from_training() {
    let training = vec![singles(&[1.0, 2.0, 2.0])];
    let validation = vec![singles(&[1.0, 1.0, 8.0])];
    let data = prepare_data(&training, &validation, 1, 1).unwrap();
    let mean = 2.0_f32.ln() / 2.0;
    assert_eq!(data.mean, Single(mean));
    assert_eq!(data.training.len(), 1);
    assert_eq!(data.training[0].inputs.len(), 1);
    assert_eq!(data.training[0].target, PriceOutcome::Neither);
    assert_eq!(data.validation[0].inputs[0], Single((0.0 - mean) / data.deviation.0));
    assert_eq!(data.validation[0].target, PriceOutcome::UpperFirst);
}

#[test]
fn unusable_series_are_refused() {
    let long = vec![rising_prices()];
    let short = vec![rising_prices(), singles(&[1.0, 2.0])];
    let flat = vec![singles(&[3.0, 3.0, 3.0, 3.0])];
    let problem = |training: &Vec<Vec<Single>>, validation: &Vec<Vec<Single>>| {
        prepare_data(training, validation, 1, 2).err()
    };
    assert_eq!(
        problem(&Vec::new(), &long),
        Some("at least one training series is required".to_string()),
    );
    assert_eq!(
        problem(&long, &Vec::new()),
        Some("at least one validation series is required".to_string()),
    );
    assert_eq!(
        problem(&short, &long),
        Some("training series 2 is too short for 1 inputs and 2 outputs".to_string()),
    );
    assert_eq!(
        problem(&flat, &long),
        Some("training returns must have nonzero finite variance".to_string()),
    );
}

#[test]
fn malformed_tables_are_refused() {
    let problem = |contents: &str| parse_price_series::<Single>(contents).err();
    let message = |text: &str| Some(text.to_string());
    assert_eq!(problem("date\n1\n"), message("the CSV file must contain an open column"));
    assert_eq!(problem("open\n1\n"), message("the CSV file must contain a date column"));
    assert_eq!(
        problem("date,open\nword,1\n"),
        message("invalid timestamp on line 2: invalid digit found in string"),
    );
    assert_eq!(
        problem("date,open\n1784035800,word\n"),
        message("invalid opening price on line 2: invalid float literal"),
    );
    assert_eq!(
        problem("date,open\n1784035800,1\n1784035801,-1\n"),
        message("opening price on line 3 must be finite and positive"),
    );
    assert!(problem("date,open\n99999999999999,1\n").unwrap().starts_with("invalid timestamp on line 2: "));
    assert!(problem("date,open\n1784035800\n").is_some());
}

#[test]
fn series_are_collected_over_files() {
    let mut series = Vec::<Vec<Single>>::new();
    extend_series(&mut series, "a.csv", "date,open\n1784035800,1\n1784035801,2\n").unwrap();
    extend_series(&mut series, "b.csv", "date,open\n1784035802,3\n").unwrap();
    assert_eq!(
        extend_series(&mut series, "c.csv", "date\n1\n"),
        Err("failed to parse c.csv: the CSV file must contain an open column".to_string()),
    );
    assert_eq!(plain(series), vec![vec![1.0, 2.0], vec![3.0]]);
}

#[test]
fn counts_and_rates_are_validated() {
    assert_eq!(parse_positive_usize("5"), Ok(5));
    assert_eq!(parse_positive_usize("+7"), Ok(7));
    assert_eq!(parse_positive_usize("0"), Err("value must be greater than zero".to_string()));
    assert_eq!(
        parse_positive_usize("-1"),
        Err("invalid digit found in string".to_string()),
    );
    assert_eq!(parse_positive_number("0.0001"), Ok(Double(0.0001)));
    assert_eq!(
        parse_positive_number::<Double>("0"),
        Err("value must be finite and greater than zero".to_string()),
    );
    assert_eq!(
        parse_dropout::<Double>("1"),
        Err("value must be finite, nonnegative, and less than one".to_string()),
    );
}

#[test]
fn evaluations_count_classifications() {
    let mut evaluation = Evaluation::<Single>::new();
    let logits = singles(&[3.0, 1.0, 2.0, 1.0, 1.0, 0.0, 5.0, 0.0, 5.0, 0.0, 9.0, 1.0]);
    evaluation.add_batch(Single(0.5), &logits, &vec![0, 0, 2, 1]);
    evaluation.add_batch(Single(1.0), &singles(&[1.0, 0.0, 0.0]), &vec![1]);
    let metrics = evaluation.finish();
    assert_eq!(metrics.total, 5);
    assert_eq!(metrics.correct, 3);
    assert_eq!(metrics.loss, Single(3.0 / 5.0));
    assert_eq!(metrics.accuracy(), Single(3.0 / 5.0));
    assert_eq!(metrics.precision(PriceOutcome::LowerFirst), Single(0.5));
    assert_eq!(metrics.recall(PriceOutcome::LowerFirst), Single(0.5));
    assert_eq!(metrics.precision(PriceOutcome::UpperFirst), Single(0.5));
    assert_eq!(metrics.recall(PriceOutcome::UpperFirst), Single(0.5));
    assert_eq!(metrics.precision(PriceOutcome::Neither), Single(1.0));
    assert_eq!(metrics.recall(PriceOutcome::Neither), Single(1.0));
    assert_eq!(
        report_metrics(&epoch_label(3, 12), &metrics, &metrics),
        "Epoch  3/12: train loss 0.6000, accuracy 60.00%; validation loss 0.6000, accuracy \
         60.00%; lower precision 50.00%, recall 50.00%; upper precision 50.00%, recall 50.00%; \
         neither precision 100.00%, recall 100.00%",
    );
    assert_eq!(epoch_label(10, 12), "Epoch 10/12");
}

#[test]
fn empty_classes_count_as_zero() {
    let metrics = ClassificationMetrics::<Single>::empty();
    assert_eq!(metrics.precision(PriceOutcome::Neither), Single(0.0));
    assert_eq!(metrics.recall(PriceOutcome::Neither), Single(0.0));
    assert!(metrics.accuracy().0.is_nan());
}

#[test]
fn datasets_are_reported() {
    let series = vec![rising_prices()];
    let data = prepare_data(&series, &series, 4, 2).unwrap();
    assert_eq!(report_sizes(&data), "Training on 95 windows and validating on 95 windows…");
    assert_eq!(
        report_rates(&data),
        "Validation rates: lower first 0.00%, upper first 100.00%, neither 0.00%; majority \
         baseline accuracy: 100.00%",
    );
    let counts = count_targets(&data.validation);
    assert_eq!(counts.upper_first, 95);
    assert_eq!(counts.lower_first + counts.neither, 0);
}

#[test]
fn predictors_validate_their_model() {
    let message = "model configuration contains invalid normalization values".to_string();
    assert!(Predictor::load(Single(0.1), Single(0.2)).is_ok());
    assert_eq!(Predictor::load(Single(f32::NAN), Single(0.2)).err(), Some(message.clone()));
    assert_eq!(Predictor::load(Single(0.1), Single(f32::INFINITY)).err(), Some(message.clone()));
    assert_eq!(Predictor::load(Single(0.1), Single(f32::EPSILON)).err(), Some(message));
}

#[test]
fn predictors_take_exactly_one_window() {
    let predictor = Predictor::load(Single(0.5), Single(2.0)).unwrap();
    let prices = vec![Single(1.0); INPUTS + 1];
    assert_eq!(predictor.prepare(&prices).unwrap(), vec![Single(-0.25); INPUTS]);
    assert_eq!(
        predictor.prepare(&singles(&[1.0])).err(),
        Some("inference requires exactly 129 prices".to_string()),
    );
    let constant = vec![Single(1.0); INPUTS + 1];
    let model = |inputs: Vec<Single>| {
        assert_eq!(inputs, vec![Single(-0.25); INPUTS]);
        Ok(singles(&[0.5, 0.25, 0.25]))
    };
    assert_eq!(predictor.predict(&constant, model).unwrap().lower, Single(0.5));
    let broken = |_inputs: Vec<Single>| Err("no model".to_string());
    assert_eq!(predictor.predict(&constant, broken).err(), Some("no model".to_string()));
    let unused = |_inputs: Vec<Single>| panic!("the model must not be evaluated");
    assert_eq!(
        predictor.predict(&singles(&[1.0]), unused).err(),
        Some("inference requires exactly 129 prices".to_string()),
    );
    let named = name_probabilities(&singles(&[0.25, 0.5, 0.125])).unwrap();
    assert_eq!((named.lower.0, named.upper.0, named.neither.0), (0.25, 0.5, 0.125));
    assert_eq!(
        name_probabilities(&singles(&[1.0])).err(),
        Some("the model returned an unexpected number of outcomes".to_string()),
    );
}

#[test]
fn inference_takes_the_latest_series() {
    assert_eq!(
        latest_series::<Single>(Vec::new()).err(),
        Some("the CSV file contains no reliable market-hours price data".to_string()),
    );
    assert_eq!(
        latest_series(vec![price_line(200), price_line(128)]).err(),
        Some("inference requires at least 129 prices".to_string()),
    );
    assert_eq!(latest_series(vec![price_line(1), price_line(129)]).unwrap().len(), 129);
    assert_eq!(
        load_latest_series::<Single>("x.csv", "date\n1\n").err(),
        Some("failed to parse x.csv: the CSV file must contain an open column".to_string()),
    );
}

#[test]
fn inference_batches_every_window() {
    let series = price_line(128 + 70);
    let predictor = Predictor::load(Single(0.0), Single(1.0)).unwrap();
    let first = next_batch(&series, 0).unwrap();
    assert_eq!(first, Batch { start: 0, end: 64 });
    let second = next_batch(&series, first.end).unwrap();
    assert_eq!(second, Batch { start: 64, end: 70 });
    assert_eq!(next_batch(&series, second.end), None);
    let inputs = batch_inputs(&predictor, &series, second);
    assert_eq!(inputs.len(), 6 * INPUTS);
    assert_eq!(inputs[0], Single((165.0_f32 / 164.0_f32).ln()));
    let probabilities = singles(&[0.5, 0.25, 0.25, 0.125, 0.75, 0.125]);
    let rows = report_predictions(&series, second.start, &probabilities);
    assert_eq!(rows.len(), 2);
    assert_eq!(rows[0], vec![(1_784_035_800_i64 + 64 + 128).to_string(), "0.5".to_string(), "0.25".to_string(), "0.25".to_string()]);
    assert_eq!(rows[1][0], (1_784_035_800_i64 + 65 + 128).to_string());
    assert_eq!(
        prediction_header(),
        row(&["timestamp", "lower_probability", "upper_probability", "neither_probability"]),
    );
}

#[test]
fn validation_does_not_change_training() {
    let training = vec![singles(&[1.0, 2.0, 2.0, 3.0])];
    let first = prepare_data(&training, &vec![singles(&[1.0, 1.0, 8.0])], 1, 1).unwrap();
    let second = prepare_data(&training, &vec![singles(&[5.0, 4.0, 3.0])], 1, 1).unwrap();
    assert_eq!(first.mean, second.mean);
    assert_eq!(first.deviation, second.deviation);
    assert_eq!(first.training.len(), second.training.len());
    for (left, right) in first.training.iter().zip(&second.training) {
        assert_eq!(left.inputs, right.inputs);
        assert_eq!(left.target, right.target);
    }
}

#[test]
fn the_calendar_ends_where_the_eastern_clock_does() {
    let contents = |timestamp: i64| format!("date,open\n{timestamp},invalid\n");
    let problem = |timestamp: i64| parse_price_series::<Single>(&contents(timestamp)).err();
    assert_eq!(
        problem(EARLIEST_TIMESTAMP),
        Some("invalid timestamp on line 2: out of range".to_string()),
    );
    assert_eq!(
        problem(EARLIEST_EASTERN_TIMESTAMP - 1),
        Some("invalid timestamp on line 2: out of range".to_string()),
    );
    assert_eq!(problem(EARLIEST_EASTERN_TIMESTAMP), None);
    assert_eq!(eastern_second_of_day(start_of_second(EARLIEST_EASTERN_TIMESTAMP)), 0);
    assert_eq!(problem(LATEST_TIMESTAMP), None);
    assert_eq!(eastern_second_of_day(start_of_second(LATEST_TIMESTAMP)), 68_399);
    assert!(problem(EARLIEST_TIMESTAMP - 1).is_some_and(|message| !message.ends_with("out of range")));
    assert!(problem(LATEST_TIMESTAMP + 1).is_some());
}

fn row(fields: &[&str]) -> Vec<String> {
    fields.iter().map(|field| field.to_string()).collect()
}

#[test]
fn clocks_are_read_in_seconds() {
    assert_eq!(second_of_day(0, 0, 0), 0);
    assert_eq!(second_of_day(9, 30, 0), 34_200);
    assert_eq!(second_of_day(23, 59, 59), 86_399);
    assert!(!is_inside_window(9, 10, 20));
    assert!(is_inside_window(10, 10, 20));
    assert!(is_inside_window(19, 10, 20));
    assert!(!is_inside_window(20, 10, 20));
}

#[test]
fn series_are_parsed_from_tables() {
    let table = Table {
        headers: Ok(row(&["open", "date"])),
        records: vec![
            Ok(row(&["invalid", "1784035799"])),
            Ok(row(&["100", "1784035800"])),
            Ok(row(&["101", "1784035801"])),
            Ok(row(&["102", "1784035803"])),
        ],
    };
    let series = parse_table_series::<Single>(&table).unwrap();
    assert_eq!(series.len(), 2);
    assert_eq!(series[0].len(), 2);
    assert_eq!(series[0][1].timestamp, 1_784_035_801);
    assert_eq!(series[0][1].price, Single(101.0));
    assert_eq!(series[1].len(), 1);
    assert_eq!(series[1][0].timestamp, 1_784_035_803);
    assert_eq!(series[1][0].price, Single(102.0));

    let broken = Table { headers: Err("no header".to_string()), records: vec![] };
    assert_eq!(parse_table_series::<Single>(&broken).err(), Some("no header".to_string()));
    let broken = Table {
        headers: Ok(row(&["open", "date"])),
        records: vec![Ok(row(&["100", "1784035800"])), Err("bad row".to_string())],
    };
    assert!(parse_table_series::<Single>(&broken).err().unwrap().contains("bad row"));
}

#[test]
fn the_session_decides_about_prices() {
    let prices = row(&["7", "100"]);
    let parse = |second: u32| parse_price_at::<Single>(&prices, 2, 7, second, 1).unwrap();
    assert!(parse(14_400).is_none());
    assert!(parse(34_199).is_none());
    assert_eq!(parse(34_200).unwrap().timestamp, 7);
    assert_eq!(parse(57_599).unwrap().price, Single(100.0));
    assert!(parse(57_600).is_none());

    // Prices outside the session are not read.
    let invalid = row(&["7", "none"]);
    assert!(parse_price_at::<Single>(&invalid, 2, 7, 34_199, 1).unwrap().is_none());
    assert!(parse_price_at::<Single>(&invalid, 2, 7, 34_200, 1).is_err());
}

#[test]
fn inference_reports_every_window() {
    let series = price_line(128 + 70);
    let predictor = Predictor::load(Single(0.0), Single(1.0)).unwrap();

    // A model that tells windows apart by their first return.
    let model = |inputs: Vec<Single>| {
        Ok(inputs
            .chunks(INPUTS)
            .flat_map(|window| [window[0], Single(0.25), Single(0.5)])
            .collect())
    };
    let rows = predictor.predict_series(&series, model).unwrap();
    assert_eq!(rows.len(), 70);
    for (window, row) in rows.iter().enumerate() {
        let price = 100.0_f32 + window as f32;
        let timestamp = 1_784_035_800_i64 + 128 + window as i64;
        assert_eq!(row[0], timestamp.to_string());
        assert_eq!(row[1], ((price + 1.0_f32) / price).ln().to_string());
        assert_eq!(row[2..], ["0.25".to_string(), "0.5".to_string()]);
    }

    // The first failure ends inference.
    let failing = |inputs: Vec<Single>| {
        if inputs.len() == 64 * INPUTS {
            Ok(singles(&[0.0; 192]))
        } else {
            Err(format!("failed on {} inputs", inputs.len()))
        }
    };
    assert_eq!(
        predictor.predict_series(&series, failing).err(),
        Some("failed on 768 inputs".to_string()),
    );
}

#[test]
fn every_epoch_is_saved() {
    let config = ModelConfig {
        epochs: 2,
        learning_rate: Double(0.5),
        dropout: Double(0.25),
        seed: 42,
        return_mean: Single(1.0),
        return_deviation: Single(2.0),
    };
    let first = next_epoch(&config, 0).unwrap();
    assert_eq!((first.number, first.label.as_str()), (1, "Epoch  1/2"));
    assert_eq!((first.saved.epochs, first.saved.seed), (1, 42));
    assert_eq!(first.saved.learning_rate, Double(0.5));
    assert_eq!(first.saved.dropout, Double(0.25));
    assert_eq!(first.saved.return_mean, Single(1.0));
    assert_eq!(first.saved.return_deviation, Single(2.0));
    let second = next_epoch(&config, first.number).unwrap();
    assert_eq!((second.number, second.saved.epochs), (2, 2));
    assert_eq!(second.label, "Epoch  2/2");
    assert!(next_epoch(&config, second.number).is_none());
}

#[test]
fn files_are_predicted_window_by_window() {
    let predictor = Predictor::load(Single(0.0), Single(1.0)).unwrap();
    let model = |inputs: Vec<Single>| {
        Ok(inputs
            .chunks(INPUTS)
            .flat_map(|window| [window[0], Single(0.25), Single(0.5)])
            .collect())
    };
    let contents = |count: i64| {
        let mut text = "date,open\n".to_string();
        for second in 0..count {
            text.push_str(&format!("{},{}\n", 1_784_035_800 + second, 100 + second));
        }
        text
    };

    // Each row agrees with a prediction from the prices of its window.
    let rows = run(&predictor, "x.csv", &contents(128 + 66), model).unwrap();
    assert_eq!(rows.len(), 1 + 66);
    assert_eq!(rows[0], prediction_header());
    for window in [0_usize, 63, 64, 65] {
        let prices = (0..=INPUTS)
            .map(|offset| Single(100.0_f32 + (window + offset) as f32))
            .collect();
        let prediction = predictor.predict(&prices, model).unwrap();
        assert_eq!(
            rows[1 + window],
            vec![
                (1_784_035_800 + window + INPUTS).to_string(),
                prediction.lower.show(),
                prediction.upper.show(),
                prediction.neither.show(),
            ],
        );
    }

    // A series without a complete window is refused before the model is shown anything.
    let unused = |_inputs: Vec<Single>| panic!("the model must not be evaluated");
    assert_eq!(
        run(&predictor, "x.csv", &contents(128), unused).err(),
        Some("inference requires at least 129 prices".to_string()),
    );
    let broken = |_inputs: Vec<Single>| Err("no model".to_string());
    assert_eq!(
        run(&predictor, "x.csv", &contents(129), broken).err(),
        Some("no model".to_string()),
    );
}
