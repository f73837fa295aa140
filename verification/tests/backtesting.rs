use stockholm::backtest::{
    buy_and_hold, is_unreliable_early_data, market_maker, market_maker_grid, parse_bar_at,
    parse_boundary_table, parse_day, parse_day_table, parse_days, parse_discount_percent,
    parse_nonnegative_number, parse_percent, parse_positive_number, run, Args, BarColumns,
    GridSearch, Strategy,
};
use stockholm::files::{choose_name, file_name, insertion_point, order_files, SourceFile};
use stockholm::grid::{evaluate_candidates, select_winners};
use stockholm::market_maker::{
    annualized_sharpe_ratio, expire_market_maker_orders, simulate_market_maker, Bar, Day,
    LimitOrder, MarketMakerConfig, TRADING_DAYS_PER_YEAR,
};
use stockholm::number::Number;
use stockholm::report::report_progress;
use stockholm::table::{read_table, Table};
use time::Time;

// Double-precision arithmetic.
#[derive(Clone, Copy, Debug, PartialEq)]
struct Double(f64);

impl Number for Double {
    fn plus(self, other: Self) -> Self {
        Double(self.0 + other.0)
    }

    fn minus(self, other: Self) -> Self {
        Double(self.0 - other.0)
    }

    fn times(self, other: Self) -> Self {
        Double(self.0 * other.0)
    }

    fn over(self, other: Self) -> Self {
        Double(self.0 / other.0)
    }

    fn minimum(self, other: Self) -> Self {
        Double(self.0.min(other.0))
    }

    fn maximum(self, other: Self) -> Self {
        Double(self.0.max(other.0))
    }

    fn floor(self) -> Self {
        Double(self.0.floor())
    }

    fn ceiling(self) -> Self {
        Double(self.0.ceil())
    }

    fn square_root(self) -> Self {
        Double(self.0.sqrt())
    }

    fn natural_log(self) -> Self {
        Double(self.0.ln())
    }

    fn squared(self) -> Self {
        Double(self.0.powi(2))
    }

    fn below(self, other: Self) -> bool {
        self.0 < other.0
    }

    fn at_most(self, other: Self) -> bool {
        self.0 <= other.0
    }

    fn same(self, other: Self) -> bool {
        self.0 == other.0
    }

    fn total_below(self, other: Self) -> bool {
        self.0.total_cmp(&other.0).is_lt()
    }

    fn is_finite(self) -> bool {
        self.0.is_finite()
    }

    fn infinity() -> Self {
        Double(f64::INFINITY)
    }

    fn negative_infinity() -> Self {
        Double(f64::NEG_INFINITY)
    }

    fn epsilon() -> Self {
        Double(f64::EPSILON)
    }

    fn empty_sum() -> Self {
        Double(std::iter::empty::<f64>().sum())
    }

    fn ratio(numerator: u32, denominator: u32) -> Self {
        Double(f64::from(numerator) / f64::from(denominator))
    }

    fn count(value: usize) -> Self {
        Double(value as f64)
    }

    fn parse(text: &str) -> Result<Self, String> {
        text.parse::<f64>().map(Double).map_err(|error| error.to_string())
    }

    fn show(self) -> String {
        self.0.to_string()
    }

    fn show_fixed(self, places: usize) -> String {
        format!("{:.*}", places, self.0)
    }
}

fn file(path: &str, contents: &str) -> SourceFile {
    SourceFile {
        path: path.to_string(),
        contents: contents.to_string(),
    }
}

fn bar(timestamp: i64, low: f64, high: f64, close: f64, liquidate: bool) -> Bar<Double> {
    Bar {
        timestamp,
        low: Double(low),
        high: Double(high),
        close: Double(close),
        liquidate,
    }
}

fn config(bar_volume_limit: f64) -> MarketMakerConfig<Double> {
    MarketMakerConfig {
        initial_cash: Double(1_000.0),
        bar_volume_limit: Double(bar_volume_limit),
        buy_ttl: 3_600,
        sell_ttl: 14_400,
        discount_percent: Double(1.0),
        markup_percent: Double(1.0),
        bet_size: Double(100.0),
    }
}

fn simulate(bars: Vec<Bar<Double>>, config: MarketMakerConfig<Double>) -> f64 {
    let days = vec![Day { filename: "prices.csv".to_string(), bars }];
    simulate_market_maker(&days, config, false).unwrap().final_value.0
}

// Construct focused market-maker settings without invoking command-line parsing.
fn market_maker_args(initial_cash: f64, buy_ttl: u64, sell_ttl: u64) -> Args<Double> {
    let percentages = [0.01, 0.03, 0.1, 0.3, 1.0, 3.0, 10.0];
    Args {
        strategy: Strategy::MarketMaker,
        data_paths: Vec::new(),
        initial_cash: Double(initial_cash),
        buy_ttl,
        sell_ttl,
        discount_percent: Double(1.0),
        markup_percent: Double(1.0),
        bet_size: Double(100.0),
        buy_ttls: vec![
            5, 15, 30, 60, 120, 300, 900, 3_600, 7_200, 14_400, 43_200, 86_400,
        ],
        sell_ttls: vec![
            5, 15, 30, 60, 120, 300, 900, 3_600, 7_200, 14_400, 43_200, 86_400,
        ],
        discount_percentages: percentages.map(Double).to_vec(),
        markup_percentages: percentages.map(Double).to_vec(),
        bet_sizes: vec![Double(100.0)],
        bar_volume_limit: Double(1_000.0),
    }
}

#[test]
fn mark_liquidation_by_eastern_time() {
    // Apply the shared inclusive start and exclusive end to historical bars.
    let files = vec![file(
        "prices.csv",
        "date,low,high,close\n\
         1786391099,100,100,100\n\
         1786391100,100,100,100\n\
         1786406699,100,100,100\n\
         1786406700,100,100,100\n",
    )];

    let days = parse_days::<Double>(&files).unwrap();
    let liquidation_flags = days[0]
        .bars
        .iter()
        .map(|bar| bar.liquidate)
        .collect::<Vec<_>>();

    assert_eq!(liquidation_flags, vec![false, true, true, false]);
}

#[test]
fn exclude_early_data_across_eastern_time_offsets() {
    // Apply the same inclusive start and exclusive end in daylight and standard time.
    for start in [1_784_016_000_i64, 1_767_949_200_i64] {
        assert!(!is_unreliable_early_data(start - 1));
        assert!(is_unreliable_early_data(start));
        assert!(is_unreliable_early_data(start + 899));
        assert!(!is_unreliable_early_data(start + 900));
    }
}

#[test]
fn discard_unreliable_rows_before_parsing_market_maker_prices() {
    // Ignore malformed prices in the excluded window and retain the 4:15 a.m. boundary.
    let files = vec![file(
        "prices.csv",
        "date,low,high,close\n\
         1784016000,invalid,invalid,invalid\n\
         1784016899,invalid,invalid,invalid\n\
         1784016900,100,101,100\n",
    )];

    let days = parse_days::<Double>(&files).unwrap();

    assert_eq!(days[0].bars.len(), 1);
    assert_eq!(days[0].bars[0].timestamp, 1_784_016_900);
}

#[test]
fn calculate_buy_and_hold_from_chronological_files() {
    // Confirm the strategy uses the first open and final close it receives.
    let files = vec![
        file("monday.csv", "date,open,close\n1000,100,110\n1001,110,120\n"),
        file("tuesday.csv", "date,open,close\n2000,200,210\n2001,210,230\n"),
    ];

    let value = buy_and_hold(&files, Double(1_000.0)).unwrap();
    assert!((value.0 - 2_300.0).abs() < f64::EPSILON);
}

#[test]
fn discard_unreliable_rows_before_parsing_buy_and_hold_prices() {
    // Invest at the first reliable open without validating excluded trade-report prices.
    let files = vec![file(
        "prices.csv",
        "date,open,close\n\
         1784016000,invalid,invalid\n\
         1784016900,100,120\n",
    )];

    let value = buy_and_hold(&files, Double(1_000.0)).unwrap();
    assert!((value.0 - 1_200.0).abs() < f64::EPSILON);
}

#[test]
fn fill_market_maker_orders() {
    // Confirm discounted buys and marked-up sells reserve and return resources.
    let files = vec![file(
        "prices.csv",
        "date,low,high,close\n\
         36000,100,100,100\n\
         36001,99,100,100\n\
         36002,100,101,100\n",
    )];
    let args = market_maker_args(1_000.0, 3_600, 14_400);

    let result = market_maker(&files, &args).unwrap();
    assert!((result.final_value.0 - 1_020.0).abs() < f64::EPSILON);
    assert_eq!(result.annualized_sharpe, None);
}

#[test]
fn limit_market_maker_bet_size() {
    // Confirm the configured cash floor limits the size of new buy orders.
    let files = vec![file(
        "prices.csv",
        "date,low,high,close\n\
         36000,100,100,100\n\
         36001,99,100,100\n\
         36002,100,101,100\n",
    )];
    let mut args = market_maker_args(1_000.0, 3_600, 14_400);
    args.bet_size = Double(80.0_f64);

    let result = market_maker(&files, &args).unwrap();
    assert!((result.final_value.0 - 1_016.0).abs() < f64::EPSILON);
}

#[test]
fn compound_market_maker_days() {
    // Confirm each file produces one daily return and passes its final value to the next day.
    let files = vec![
        file(
            "monday.csv",
            "date,low,high,close\n36000,100,100,100\n36001,99,100,100\n36002,100,101,100\n",
        ),
        file(
            "tuesday.csv",
            "date,low,high,close\n122400,100,100,100\n122401,99,100,100\n122402,100,101,100\n",
        ),
    ];
    let args = market_maker_args(1_000.0, 3_600, 14_400);

    let result = market_maker(&files, &args).unwrap();
    assert!((result.final_value.0 - 1_040.0).abs() < f64::EPSILON);
    assert!(
        result
            .annualized_sharpe
            .is_some_and(|sharpe| sharpe.0.is_finite() && sharpe.0 > 0.0_f64),
    );
}

#[test]
fn refund_expired_market_maker_orders() {
    // Confirm canceling an expired buy restores its reserved cash.
    let files = vec![file(
        "prices.csv",
        "date,low,high,close\n36000,100,100,100\n36001,200,200,200\n",
    )];
    let args = market_maker_args(1_000.0, 0, 14_400);

    let result = market_maker(&files, &args).unwrap();
    assert!((result.final_value.0 - 1_000.0).abs() < f64::EPSILON);
    assert_eq!(result.annualized_sharpe, None);
}

#[test]
fn liquidate_market_maker_inventory() {
    // Confirm the liquidation window cancels orders and sells every held share at the close.
    let bars = vec![
        bar(1_000, 100.0, 100.0, 100.0, false),
        bar(1_001, 99.0, 100.0, 100.0, false),
        bar(1_002, 90.0, 90.0, 90.0, true),
    ];

    assert!((simulate(bars, config(1_000.0)) - 910.0).abs() < f64::EPSILON);
}

#[test]
fn select_best_market_maker_grid_candidate() {
    // Confirm the grid chooses the reproducible parameters with the highest final value.
    let files = vec![file(
        "prices.csv",
        "date,low,high,close\n\
         36000,100,100,100\n\
         36001,99,100,100\n\
         36002,100,102,100\n",
    )];
    let args = market_maker_args(1_000.0, 10, 10);
    let result = market_maker_grid(&files, &args).unwrap();

    assert!((result.highest_return.result.final_value.0 - 1_020.0).abs() < f64::EPSILON);
    assert!((result.highest_return.config.discount_percent.0 - 1.0).abs() < f64::EPSILON);
    assert!((result.highest_return.config.markup_percent.0 - 1.0).abs() < f64::EPSILON);
    assert_eq!(result.highest_return.config.buy_ttl, 5);
    assert_eq!(result.highest_return.config.sell_ttl, 5);
    assert!(result.highest_annualized_sharpe.is_none());
}

#[test]
fn partially_fill_market_maker_orders() {
    // Confirm an eligible order needs multiple bars when it exceeds the volume limit.
    let bars = vec![
        bar(1_000, 100.0, 100.0, 100.0, false),
        bar(1_001, 99.0, 100.0, 100.0, false),
        bar(1_002, 100.0, 101.0, 100.0, false),
    ];

    assert!((simulate(bars, config(5.0)) - 1_010.0).abs() < f64::EPSILON);
}

#[test]
fn share_volume_limit_across_market_maker_orders() {
    // Create two pending buy orders before making both eligible on the same bar.
    let bars = vec![
        bar(1_000, 100.0, 100.0, 100.0, false),
        bar(1_001, 99.0, 100.0, 100.0, false),
        bar(1_002, 99.0, 100.0, 100.0, false),
        bar(1_003, 100.0, 101.0, 100.0, false),
        bar(1_004, 99.0, 100.0, 100.0, false),
        bar(1_005, 90.0, 90.0, 90.0, true),
    ];

    // Confirm the two eligible buys consume at most two shares of volume in total.
    assert!((simulate(bars, config(2.0)) - 968.0).abs() < f64::EPSILON);
}

#[test]
fn calculate_annualized_sharpe_from_daily_returns() {
    // Annualize mean excess return divided by the sample standard deviation.
    let sharpe = annualized_sharpe_ratio(&vec![Double(0.1_f64), Double(0.2_f64)])
        .unwrap()
        .unwrap();
    let expected =
        (0.15_f64 / 0.005_f64.sqrt()) * f64::from(TRADING_DAYS_PER_YEAR).sqrt();

    assert!((sharpe.0 - expected).abs() < 1e-12_f64);
    assert_eq!(
        annualized_sharpe_ratio(&vec![Double(0.0_f64), Double(0.0_f64)]).unwrap(),
        Some(Double(0.0_f64)),
    );
    assert_eq!(annualized_sharpe_ratio(&vec![Double(0.1_f64)]).unwrap(), None);
}

#[test]
fn constant_returns_are_ranked_by_their_sign() {
    let gains = vec![Double(0.25), Double(0.25)];
    let losses = vec![Double(-0.25), Double(-0.25)];
    assert_eq!(annualized_sharpe_ratio(&gains), Ok(Some(Double(f64::INFINITY))));
    assert_eq!(annualized_sharpe_ratio(&losses), Ok(Some(Double(f64::NEG_INFINITY))));
}

#[test]
fn expiry_returns_reservations() {
    let mut cash = Double(10.0);
    let mut shares = Double(1.0);
    let order = |placed_timestamp: i64| LimitOrder {
        placed_timestamp,
        price: Double(2.0),
        remaining_shares: Double(3.0),
    };
    let mut buys = vec![order(0), order(5)];
    let mut sells = vec![order(0), order(9)];
    expire_market_maker_orders(10, 5, 9, &mut cash, &mut shares, &mut buys, &mut sells);
    assert_eq!(cash, Double(16.0));
    assert_eq!(shares, Double(4.0));
    assert_eq!(buys.len(), 1);
    assert_eq!(buys[0].placed_timestamp, 5);
    assert_eq!(sells.len(), 1);
    assert_eq!(sells[0].placed_timestamp, 9);

    // A second expiry at the same time changes nothing.
    expire_market_maker_orders(10, 5, 9, &mut cash, &mut shares, &mut buys, &mut sells);
    assert_eq!((cash, shares), (Double(16.0), Double(4.0)));
    assert_eq!((buys.len(), sells.len()), (1, 1));
}

#[test]
fn expiry_loses_nothing_but_rounding() {
    // Prices and shares that binary fractions cannot hold exactly.
    let order = |placed_timestamp: i64| LimitOrder {
        placed_timestamp,
        price: Double(0.1),
        remaining_shares: Double(0.3 + placed_timestamp as f64),
    };
    let mut cash = Double(0.7);
    let mut shares = Double(1.1);
    let mut buys: Vec<_> = (0..10).map(order).collect();
    let mut sells: Vec<_> = (0..10).map(order).collect();
    let total_cash = |cash: Double, buys: &[LimitOrder<Double>]| {
        cash.0 + buys.iter().map(|buy| buy.remaining_shares.0 * buy.price.0).sum::<f64>()
    };
    let total_shares = |shares: Double, sells: &[LimitOrder<Double>]| {
        shares.0 + sells.iter().map(|sell| sell.remaining_shares.0).sum::<f64>()
    };
    let before = (total_cash(cash, &buys), total_shares(shares, &sells));
    expire_market_maker_orders(9, 4, 6, &mut cash, &mut shares, &mut buys, &mut sells);
    let after = (total_cash(cash, &buys), total_shares(shares, &sells));
    assert_eq!((buys.len(), sells.len()), (5, 7));

    // Every sum stays below 64, so that no addition is off by more than one part in 2^47.
    let error = 22.0_f64 / 2.0_f64.powi(47);
    assert!((before.0 - after.0).abs() <= error);
    assert!((before.1 - after.1).abs() <= error);
}

fn paths(files: &[SourceFile]) -> Vec<&str> {
    files.iter().map(|file| file.path.as_str()).collect()
}

#[test]
fn files_are_ordered_by_path() {
    // Components are compared one by one, not character by character.
    let given = ["data/b.csv", "data/a.csv", "data-old/c.csv", "data/a.csv"];
    let expected = vec!["data/a.csv", "data/a.csv", "data/b.csv", "data-old/c.csv"];
    let files = |order: [usize; 4]| order.map(|index| file(given[index], "")).into();
    assert_eq!(paths(&order_files(files([0, 1, 2, 3]))), expected);
    assert_eq!(paths(&order_files(files([3, 2, 1, 0]))), expected);
    assert_eq!(paths(&order_files(files([2, 3, 0, 1]))), expected);
    assert!(order_files(Vec::new()).is_empty());

    // Files whose paths are alike keep their order.
    let alike = order_files(vec![file("x//y", "1"), file("a", "2"), file("x/y", "3")]);
    assert_eq!(paths(&alike), vec!["a", "x//y", "x/y"]);
    assert_eq!(alike[1].contents, "1");

    let mut args = market_maker_args(1.0, 1, 1);
    args.data_paths = vec!["2026-02.csv".to_string(), "2026-01.csv".to_string()];
    let pending = args.data_files();
    assert_eq!(paths(&pending), vec!["2026-01.csv", "2026-02.csv"]);
    assert!(pending.iter().all(|file| file.contents.is_empty()));
}

#[test]
fn the_given_order_of_files_does_not_matter() {
    // Two spellings of one path lead to the same text, and the report is the same.
    let contents = |path: &str| match path {
        "a.csv" => "date,open,close\n1000,100,110\n",
        _ => "date,open,close\n2000,200,230\n",
    };
    let report = |paths: [&str; 3]| {
        let mut args = market_maker_args(1_000.0, 10, 10);
        args.strategy = Strategy::BuyAndHold;
        args.data_paths = paths.map(|path| path.to_string()).to_vec();
        let mut files = args.data_files();
        for file in &mut files {
            file.contents = contents(&file.path).to_string();
        }
        run(&files, &args).unwrap().report
    };
    let expected = vec!["2300".to_string()];
    assert_eq!(report(["x/b.csv", "a.csv", "x//b.csv"]), expected);
    assert_eq!(report(["x//b.csv", "x/b.csv", "a.csv"]), expected);
    assert_eq!(report(["a.csv", "x//b.csv", "x/b.csv"]), expected);
}

#[test]
fn items_are_inserted_behind_their_equals() {
    assert_eq!(insertion_point(&vec![]), 0);
    assert_eq!(insertion_point(&vec![true, true]), 0);
    assert_eq!(insertion_point(&vec![false, true]), 1);
    assert_eq!(insertion_point(&vec![false, false]), 2);
}

#[test]
fn files_are_named_after_their_paths() {
    assert_eq!(file_name("data/monday.csv"), "monday.csv");
    assert_eq!(file_name("monday.csv"), "monday.csv");
    assert_eq!(file_name(".."), "..");
    assert_eq!(choose_name(Some("a".to_string()), "b/a"), "a");
    assert_eq!(choose_name(None, "b/.."), "b/..");
}

#[test]
fn groups_make_the_search() {
    // Evaluating the grid group by group ends with the winners of the whole search.
    let files = vec![file(
        "prices.csv",
        "date,low,high,close\n\
         36000,100,100,100\n\
         36001,99,100,100\n\
         36002,100,102,100\n",
    )];
    let mut args = market_maker_args(1_000.0, 10, 10);
    args.buy_ttls = vec![5, 15];
    args.sell_ttls = vec![5];
    let mut search = GridSearch::new(&files, &args).unwrap();
    assert_eq!((search.configs.len(), search.group), (98, 49));
    assert_eq!(search.progress(), "Searched 0/98 configurations (0.0%)");
    assert_eq!(search.advance(), Ok(true));
    assert_eq!(search.progress(), "Searched 49/98 configurations (50.0%)");
    assert_eq!(search.advance(), Ok(true));
    assert_eq!(search.advance(), Ok(false));
    assert_eq!(search.candidates.len(), 98);
    let winner = search.finish().unwrap().highest_return;
    let whole = market_maker_grid(&files, &args).unwrap().highest_return;
    assert_eq!(winner.result.final_value, whole.result.final_value);
    assert_eq!(winner.config.buy_ttl, whole.config.buy_ttl);
    assert_eq!(winner.config.discount_percent, whole.config.discount_percent);

    // The lifetimes do not matter here, and the first of them wins the tie.
    assert_eq!(winner.config.buy_ttl, 5);

    args.sell_ttls = vec![u64::MAX];
    let mut failing = GridSearch::new(&files, &args).unwrap();
    assert_eq!(
        failing.advance(),
        Err("out of range integral type conversion attempted".to_string()),
    );
    assert!(failing.candidates.is_empty());
    args.sell_ttls = Vec::new();
    let mut empty = GridSearch::new(&files, &args).unwrap();
    assert_eq!(empty.advance(), Ok(false));
    assert_eq!(
        empty.finish().err(),
        Some("the parameter grid contains no valid candidates".to_string()),
    );
    assert_eq!(
        GridSearch::<Double>::new(&Vec::new(), &args).err(),
        Some("at least one data file is required".to_string()),
    );
}

#[test]
fn ties_go_to_the_first_candidate() {
    let day = |filename: &str| Day {
        filename: filename.to_string(),
        bars: vec![bar(1_000, 100.0, 100.0, 100.0, false)],
    };
    let configs = vec![
        MarketMakerConfig { buy_ttl: 1, ..config(1.0) },
        MarketMakerConfig { buy_ttl: 2, ..config(1.0) },
    ];
    let days = vec![day("a.csv"), day("b.csv")];
    let winners = select_winners(&evaluate_candidates(&days, &configs).unwrap()).unwrap();
    assert_eq!(winners.highest_return.config.buy_ttl, 1);
}

#[test]
fn days_depend_on_their_bars() {
    // Neither the name of a file nor a log changes the value of a day.
    let bars = || {
        vec![
            bar(1_000, 100.0, 100.0, 100.0, false),
            bar(1_001, 99.0, 100.0, 100.0, false),
            bar(1_002, 100.0, 101.0, 100.0, false),
        ]
    };
    let value = |filename: &str, log: bool| {
        let days = vec![Day { filename: filename.to_string(), bars: bars() }];
        simulate_market_maker(&days, config(1_000.0), log).unwrap().final_value
    };
    assert_eq!(value("a.csv", false), value("b.csv", true));
}

#[test]
fn lifetimes_beyond_timestamps_are_refused() {
    let days = vec![Day {
        filename: "prices.csv".to_string(),
        bars: vec![bar(0, 1.0, 1.0, 1.0, false)],
    }];
    let mut long = config(1.0);
    long.buy_ttl = u64::MAX;
    assert_eq!(
        simulate_market_maker(&days, long, false).err(),
        Some("out of range integral type conversion attempted".to_string()),
    );
}

#[test]
fn malformed_files_are_refused() {
    let problem = |contents: &str| parse_days::<Double>(&vec![file("x.csv", contents)]).err();
    assert_eq!(
        parse_days::<Double>(&Vec::new()).err(),
        Some("at least one data file is required".to_string()),
    );
    assert_eq!(
        problem("date,low,high,close\n"),
        Some("x.csv must contain at least one data row".to_string()),
    );
    assert_eq!(
        problem("date,low,high,close\nword,1,1,1\n"),
        Some("invalid date on line 2 in x.csv: invalid digit found in string".to_string()),
    );
    assert_eq!(
        problem("date,low,high,close\n36000,0,1,1\n"),
        Some("low on line 2 price in x.csv must be finite and positive".to_string()),
    );
    assert_eq!(
        problem("date,low,high,close\n36000,1,1,word\n"),
        Some("invalid close on line 2 price in x.csv: invalid float literal".to_string()),
    );
    assert!(problem("date,low,high,close\n36000,1\n").is_some());
    assert!(problem("low,high,close\n1,1,1\n").is_some());
}

#[test]
fn buy_and_hold_needs_reliable_rows() {
    let files = vec![file("x.csv", "date,open,close\n1784016000,1,1\n")];
    assert!(buy_and_hold(&files, Double(1.0)).is_err());
    assert_eq!(
        buy_and_hold(&Vec::new(), Double(1.0)).err(),
        Some("at least one data file is required".to_string()),
    );
}

#[test]
fn executions_are_logged() {
    let days = vec![Day {
        filename: "prices.csv".to_string(),
        bars: vec![
            bar(1_000, 100.0, 100.0, 100.0, false),
            bar(1_001, 99.0, 100.0, 100.0, false),
            bar(1_002, 90.0, 90.0, 90.0, true),
        ],
    }];
    let result = simulate_market_maker(&days, config(5.0), true).unwrap();
    assert_eq!(
        result.log,
        vec![
            "prices.csv @ 1001: Executed 5 shares of buy order from timestamp 1000 @ $99.00 (5 remaining)"
                .to_string(),
            "prices.csv @ 1002: Executed liquidation sell for 5 shares @ $90.00".to_string(),
        ],
    );
    let silent = simulate_market_maker(&days, config(5.0), false).unwrap();
    assert!(silent.log.is_empty());
    assert_eq!(silent.final_value, result.final_value);
}

#[test]
fn reports_describe_a_simulation() {
    let files = vec![file(
        "prices.csv",
        "date,low,high,close\n36000,100,100,100\n36001,99,100,100\n36002,100,101,100\n",
    )];
    let args = market_maker_args(1_000.0, 3_600, 14_400);
    let output = run(&files, &args).unwrap();
    let start = Time::from_hms(15, 45, 0).unwrap();
    let end = Time::from_hms(20, 5, 0).unwrap();
    assert_eq!(
        output.report,
        vec![
            "Final account value: 1020.00".to_string(),
            "Annualized Sharpe ratio: unavailable (requires at least two daily returns)".to_string(),
            "Daily returns:".to_string(),
            "  Day 1: 2.00%".to_string(),
            "Configuration:".to_string(),
            "  Initial cash: 1000.00".to_string(),
            format!("  Liquidation start time (ET): {start}"),
            format!("  Liquidation end time (ET): {end}"),
            "  Bar volume limit: 1000".to_string(),
            "  Buy TTL: 3600".to_string(),
            "  Sell TTL: 14400".to_string(),
            "  Discount: 1%".to_string(),
            "  Markup: 1%".to_string(),
            "  Bet size: 100%".to_string(),
        ],
    );
    assert_eq!(output.log.len(), 2);
}

#[test]
fn reports_describe_other_strategies() {
    let held = vec![file("x.csv", "date,open,close\n1000,100,110\n")];
    let mut args = market_maker_args(1_000.0, 3_600, 14_400);
    args.strategy = Strategy::BuyAndHold;
    assert_eq!(run(&held, &args).unwrap().report, vec!["1100".to_string()]);

    let files = vec![file("x.csv", "date,low,high,close\n36000,100,100,100\n")];
    args.strategy = Strategy::MarketMakerGrid;
    args.buy_ttls = vec![5];
    args.sell_ttls = vec![5];
    let report = run(&files, &args).unwrap().report;
    assert_eq!(report[0], "Highest return");
    assert_eq!(report[report.len() - 3], "");
    assert_eq!(report[report.len() - 2], "Highest Sharpe ratio");
}

#[test]
fn grids_try_every_combination_in_order() {
    let mut args = market_maker_args(1_000.0, 1, 1);
    args.buy_ttls = vec![1, 2];
    args.sell_ttls = vec![3];
    args.discount_percentages = vec![Double(1.0)];
    args.markup_percentages = vec![Double(2.0), Double(3.0)];
    args.bet_sizes = vec![Double(50.0), Double(60.0)];
    let combinations = args
        .configs()
        .iter()
        .map(|config| (config.buy_ttl, config.markup_percent.0, config.bet_size.0))
        .collect::<Vec<_>>();
    assert_eq!(
        combinations,
        vec![
            (1, 2.0, 50.0),
            (1, 2.0, 60.0),
            (1, 3.0, 50.0),
            (1, 3.0, 60.0),
            (2, 2.0, 50.0),
            (2, 2.0, 60.0),
            (2, 3.0, 50.0),
            (2, 3.0, 60.0),
        ],
    );
}

#[test]
fn candidates_keep_the_order_of_configurations() {
    let days = vec![Day {
        filename: "prices.csv".to_string(),
        bars: vec![
            bar(1_000, 100.0, 100.0, 100.0, false),
            bar(1_001, 99.0, 100.0, 100.0, false),
            bar(1_002, 100.0, 101.0, 100.0, false),
        ],
    }];
    let configs = vec![config(5.0), config(1_000.0), config(1_000.0)];
    let candidates = evaluate_candidates(&days, &configs).unwrap();
    let values = candidates
        .iter()
        .map(|candidate| candidate.result.final_value.0)
        .collect::<Vec<_>>();
    assert_eq!(values, vec![1_010.0, 1_020.0, 1_020.0]);
    let winners = select_winners(&candidates).unwrap();
    assert_eq!(winners.highest_return.result.final_value, Double(1_020.0));
    assert_eq!(
        select_winners::<Double>(&Vec::new()).err(),
        Some("the parameter grid contains no valid candidates".to_string()),
    );
}

#[test]
fn progress_is_reported_in_tenths() {
    assert_eq!(report_progress(49, 7_056), "Searched 49/7056 configurations (0.6%)");
    assert_eq!(report_progress(10, 10), "Searched 10/10 configurations (100.0%)");
}

#[test]
fn arguments_are_validated() {
    assert_eq!(parse_positive_number("2.5"), Ok(Double(2.5)));
    assert!(parse_positive_number::<Double>("0").is_err());
    assert!(parse_positive_number::<Double>("inf").is_err());
    assert_eq!(parse_nonnegative_number("0"), Ok(Double(0.0)));
    assert!(parse_nonnegative_number::<Double>("-1").is_err());
    assert_eq!(
        parse_discount_percent::<Double>("100"),
        Err("value must be less than 100".to_string()),
    );
    assert_eq!(parse_percent("100"), Ok(Double(100.0)));
    assert_eq!(
        parse_percent::<Double>("100.5"),
        Err("value must be at most 100".to_string()),
    );
}

#[test]
fn continued_simulations_compound() {
    let day = |filename: &str| Day {
        filename: filename.to_string(),
        bars: vec![
            bar(1_000, 100.0, 100.0, 100.0, false),
            bar(1_001, 99.0, 100.0, 100.0, false),
            bar(1_002, 100.0, 101.0, 100.0, false),
        ],
    };
    let whole = vec![day("monday.csv"), day("tuesday.csv")];
    let both = simulate_market_maker(&whole, config(7.0), false).unwrap();
    let first = simulate_market_maker(&vec![day("monday.csv")], config(7.0), false).unwrap();
    let mut continued = config(7.0);
    continued.initial_cash = first.final_value;
    let second = simulate_market_maker(&vec![day("tuesday.csv")], continued, false).unwrap();
    assert_eq!(both.final_value, second.final_value);
    assert_eq!(both.daily_returns, vec![first.daily_returns[0], second.daily_returns[0]]);
}

fn row(fields: &[&str]) -> Vec<String> {
    fields.iter().map(|field| field.to_string()).collect()
}

#[test]
fn texts_are_read_as_tables() {
    // Quotes and line ends belong to the format, and a short row is reported in its place.
    let table = read_table("date,\"open, adjusted\"\n1,\"2\"\"3\"\n4\n");
    assert_eq!(table.headers, Ok(row(&["date", "open, adjusted"])));
    assert_eq!(table.records.len(), 2);
    assert_eq!(table.records[0], Ok(row(&["1", "2\"3"])));
    assert_eq!(
        table.records[1],
        Err(
            "CSV error: record 2 (line: 3, byte: 31): found record with 1 fields, but the \
             previous record has 2 fields"
                .to_string(),
        ),
    );
}

#[test]
fn days_are_parsed_from_tables() {
    // A table that is already read gives the same day as the text that it was read from.
    let table = Table {
        headers: Ok(row(&["date", "low", "high", "close"])),
        records: vec![
            Ok(row(&["1784016000", "invalid", "invalid", "invalid"])),
            Ok(row(&["1784016900", "1", "3", "2"])),
            Ok(row(&["1784058300", "4", "6", "5"])),
        ],
    };
    let contents = "date,low,high,close\n\
                    1784016000,invalid,invalid,invalid\n\
                    1784016900,1,3,2\n\
                    1784058300,4,6,5\n";
    let days = [
        parse_day_table::<Double>(&table, "data/monday.csv", "monday.csv").unwrap(),
        parse_day::<Double>(&SourceFile {
            path: "data/monday.csv".to_string(),
            contents: contents.to_string(),
        })
        .unwrap(),
    ];
    for day in days {
        assert_eq!(day.filename, "monday.csv");
        assert_eq!(day.bars.len(), 2);
        assert_eq!(day.bars[0].timestamp, 1_784_016_900);
        assert_eq!(day.bars[0].low, Double(1.0));
        assert_eq!(day.bars[0].high, Double(3.0));
        assert_eq!(day.bars[0].close, Double(2.0));
        assert!(!day.bars[0].liquidate);
        assert_eq!(day.bars[1].timestamp, 1_784_058_300);
        assert!(day.bars[1].liquidate);
    }
}

#[test]
fn malformed_tables_have_no_day() {
    let broken = Table { headers: Err("no header".to_string()), records: vec![] };
    assert_eq!(
        parse_day_table::<Double>(&broken, "a.csv", "a.csv").err(),
        Some("no header".to_string()),
    );
    assert_eq!(
        parse_boundary_table::<Double>(&broken, "a.csv").err(),
        Some("no header".to_string()),
    );

    let broken = Table {
        headers: Ok(row(&["date", "open", "low", "high", "close"])),
        records: vec![
            Ok(row(&["1784016900", "zero", "zero", "zero", "zero"])),
            Err("bad row".to_string()),
        ],
    };
    assert_eq!(
        parse_day_table::<Double>(&broken, "a.csv", "a.csv").err(),
        Some("bad row".to_string()),
    );
    assert_eq!(
        parse_boundary_table::<Double>(&broken, "a.csv").err(),
        Some("bad row".to_string()),
    );
}

#[test]
fn boundaries_are_parsed_from_tables() {
    // The first open and the last close are read from the reliable rows.
    let table = Table {
        headers: Ok(row(&["date", "open", "close"])),
        records: vec![
            Ok(row(&["1784016000", "invalid", "invalid"])),
            Ok(row(&["1784016900", "100", "invalid"])),
            Ok(row(&["1784016901", "invalid", "120"])),
        ],
    };
    assert_eq!(
        parse_boundary_table::<Double>(&table, "a.csv"),
        Ok((Double(100.0), Double(120.0))),
    );
}

#[test]
fn the_clock_decides_about_rows() {
    let columns = BarColumns { timestamp: 0, low: 1, high: 2, close: 3 };
    let prices = row(&["7", "1", "3", "2"]);
    let parse = |second: u32| parse_bar_at::<Double>(&prices, "a.csv", 2, 7, second, columns);

    // Reports are unreliable from 4:00 until 4:15.
    assert!(parse(14_399).unwrap().is_some());
    assert!(parse(14_400).unwrap().is_none());
    assert!(parse(15_299).unwrap().is_none());
    assert!(parse(15_300).unwrap().is_some());

    // Inventory is liquidated from 15:45 until 20:05.
    for (second, liquidate) in
        [(56_699, false), (56_700, true), (72_299, true), (72_300, false)]
    {
        let parsed = parse(second).unwrap().unwrap();
        assert_eq!(parsed.timestamp, 7);
        assert_eq!(parsed.low, Double(1.0));
        assert_eq!(parsed.high, Double(3.0));
        assert_eq!(parsed.close, Double(2.0));
        assert_eq!(parsed.liquidate, liquidate);
    }

    // Prices of unreliable rows are not read.
    let invalid = row(&["7", "one", "3", "2"]);
    assert!(parse_bar_at::<Double>(&invalid, "a.csv", 2, 7, 14_400, columns).unwrap().is_none());
    assert!(parse_bar_at::<Double>(&invalid, "a.csv", 2, 7, 20_000, columns).is_err());
}
