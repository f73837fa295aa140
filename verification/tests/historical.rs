use stockholm::historical::{
    bar_size_seconds, check_range, chunk_rows, historical_chunk_seconds,
    historical_request_start, next_chunk, parse_datetime, parse_interval as read_interval, Args,
    BarSize, Chunk, HistoricalBar, HISTORICAL_HEADER,
};
use stockholm::number::Number;
use stockholm::run::DEFAULT_SYMBOL;
use clap::{Arg, Command};

const SECOND: i128 = 1_000_000_000;

// Double-precision arithmetic.
#[derive(Clone, Copy, Debug, PartialEq)]
struct Double(f64);

impl Number for Double {
    fn plus(self, other: Self) -> Self {
        Double(self.0 + other.0)
    }

    fn minus(self, other: Self) -> Self {
        Double(self.0 - other.0)
    }

    fn times(self, other: Self) -> Self {
        Double(self.0 * other.0)
    }

    fn over(self, other: Self) -> Self {
        Double(self.0 / other.0)
    }

    fn minimum(self, other: Self) -> Self {
        Double(self.0.min(other.0))
    }

    fn maximum(self, other: Self) -> Self {
        Double(self.0.max(other.0))
    }

    fn floor(self) -> Self {
        Double(self.0.floor())
    }

    fn ceiling(self) -> Self {
        Double(self.0.ceil())
    }

    fn square_root(self) -> Self {
        Double(self.0.sqrt())
    }

    fn natural_log(self) -> Self {
        Double(self.0.ln())
    }

    fn squared(self) -> Self {
        Double(self.0.powi(2))
    }

    fn below(self, other: Self) -> bool {
        self.0 < other.0
    }

    fn at_most(self, other: Self) -> bool {
        self.0 <= other.0
    }

    fn same(self, other: Self) -> bool {
        self.0 == other.0
    }

    fn total_below(self, other: Self) -> bool {
        self.0.total_cmp(&other.0).is_lt()
    }

    fn is_finite(self) -> bool {
        self.0.is_finite()
    }

    fn infinity() -> Self {
        Double(f64::INFINITY)
    }

    fn negative_infinity() -> Self {
        Double(f64::NEG_INFINITY)
    }

    fn epsilon() -> Self {
        Double(f64::EPSILON)
    }

    fn empty_sum() -> Self {
        Double(std::iter::empty::<f64>().sum())
    }

    fn ratio(numerator: u32, denominator: u32) -> Self {
        Double(f64::from(numerator) / f64::from(denominator))
    }

    fn count(value: usize) -> Self {
        Double(value as f64)
    }

    fn parse(text: &str) -> Result<Self, String> {
        text.parse::<f64>().map(Double).map_err(|error| error.to_string())
    }

    fn show(self) -> String {
        self.0.to_string()
    }

    fn show_fixed(self, places: usize) -> String {
        format!("{:.*}", places, self.0)
    }
}

// Parse the arguments of a request with the parsers of the library.
fn parse_args(line: &[&'static str]) -> Result<Args, clap::Error> {
    let mut matches = Command::new("historical")
        .arg(Arg::new("start").long("start").required(true).value_parser(parse_datetime))
        .arg(Arg::new("end").long("end").required(true).value_parser(parse_datetime))
        .arg(Arg::new("symbol").long("symbol").default_value(DEFAULT_SYMBOL))
        .arg(
            Arg::new("interval")
                .long("interval")
                .default_value("SEC")
                .value_parser(read_interval),
        )
        .try_get_matches_from(line)?;
    Ok(Args {
        start: matches.remove_one("start").unwrap(),
        end: matches.remove_one("end").unwrap(),
        symbol: matches.remove_one("symbol").unwrap(),
        interval: matches.remove_one("interval").unwrap(),
    })
}

fn bar(seconds: i128) -> HistoricalBar<Double> {
    HistoricalBar {
        moment: seconds * SECOND,
        date: seconds.to_string(),
        open: Double(1.5),
        high: Double(2.0),
        low: Double(1.0),
        close: Double(1.75),
        volume: Double(300.0),
        wap: Double(1.625),
        count: -1,
    }
}

#[test]
fn parse_range() {
    // Confirm the historical subcommand accepts explicit datetime bounds.
    let args = parse_args(&[
        "historical",
        "--start",
        "2026-07-31T09:30:00-04:00",
        "--end",
        "2026-07-31T16:00:00-04:00",
    ])
    .unwrap();

    assert_eq!((args.end - args.start) / SECOND, 23_400);
    assert_eq!(args.symbol, "SOXL");
    assert_eq!(args.interval, BarSize::Sec);
}

#[test]
fn parse_interval() {
    // Confirm the historical subcommand accepts an explicit bar interval.
    let args = parse_args(&[
        "historical",
        "--start",
        "2026-07-31T09:30:00-04:00",
        "--end",
        "2026-07-31T16:00:00-04:00",
        "--interval",
        "MIN5",
    ])
    .unwrap();

    assert_eq!(args.interval, BarSize::Min5);
}

#[test]
fn pad_short_request() {
    // Confirm a short output window is requested using IBKR's minimum duration.
    let chunk_start = 1_785_527_995 * SECOND;
    let chunk_end = 1_785_528_005 * SECOND;
    let request_start = historical_request_start(chunk_start, chunk_end, BarSize::Sec);

    assert_eq!((chunk_end - request_start) / SECOND, 60);
}

#[test]
fn overlap_full_request() {
    // Confirm a full output window retains the preceding-second overlap.
    let chunk_start = 1_785_504_600 * SECOND;
    let chunk_end = 1_785_506_400 * SECOND;
    let request_start = historical_request_start(chunk_start, chunk_end, BarSize::Sec);

    assert_eq!((chunk_start - request_start) / SECOND, 1);
}

#[test]
fn expand_chunks_for_large_intervals() {
    // Confirm each request window can contain at least one selected bar.
    assert_eq!(historical_chunk_seconds(BarSize::Hour), 3_600);
    assert_eq!(historical_chunk_seconds(BarSize::Day), 86_400);
}

#[test]
fn every_interval_has_its_name() {
    let names = [
        ("SEC", BarSize::Sec, 1),
        ("SEC5", BarSize::Sec5, 5),
        ("SEC10", BarSize::Sec10, 10),
        ("SEC15", BarSize::Sec15, 15),
        ("SEC30", BarSize::Sec30, 30),
        ("MIN", BarSize::Min, 60),
        ("MIN2", BarSize::Min2, 120),
        ("MIN3", BarSize::Min3, 180),
        ("MIN4", BarSize::Min4, 240),
        ("MIN5", BarSize::Min5, 300),
        ("MIN10", BarSize::Min10, 600),
        ("MIN15", BarSize::Min15, 900),
        ("MIN20", BarSize::Min20, 1_200),
        ("MIN30", BarSize::Min30, 1_800),
        ("HOUR", BarSize::Hour, 3_600),
        ("HOUR2", BarSize::Hour2, 7_200),
        ("HOUR3", BarSize::Hour3, 10_800),
        ("HOUR4", BarSize::Hour4, 14_400),
        ("HOUR8", BarSize::Hour8, 28_800),
        ("DAY", BarSize::Day, 86_400),
        ("WEEK", BarSize::Week, 604_800),
        ("MONTH", BarSize::Month, 2_678_400),
    ];
    for (name, interval, seconds) in names {
        assert_eq!(read_interval(name), Ok(interval));
        assert_eq!(bar_size_seconds(interval), seconds);
    }
    assert_eq!(read_interval("min5"), Ok(BarSize::Min5));
    assert_eq!(read_interval("MIN7"), Err("Invalid BarSize input 'MIN7'".to_string()));
}

#[test]
fn datetimes_are_moments() {
    assert_eq!(parse_datetime("1970-01-01T00:00:01Z"), Ok(SECOND));
    assert_eq!(parse_datetime("1970-01-01T01:00:00+01:00"), Ok(0));
    assert!(parse_datetime("1970-01-01").is_err());
    assert!(parse_datetime("yesterday").is_err());
}

#[test]
fn empty_and_reversed_ranges_are_refused() {
    let message = "end datetime must be after start datetime".to_string();
    assert_eq!(check_range(5, 5), Err(message.clone()));
    assert_eq!(check_range(6, 5), Err(message));
    assert_eq!(check_range(4, 5), Ok(()));
}

#[test]
fn chunks_follow_one_another() {
    let end = 4_000 * SECOND;
    let first = next_chunk(0, end, BarSize::Sec).unwrap();
    assert_eq!(
        first,
        Chunk { start: 0, end: 1_800 * SECOND, request_start: -SECOND },
    );
    let second = next_chunk(first.end, end, BarSize::Sec).unwrap();
    let third = next_chunk(second.end, end, BarSize::Sec).unwrap();
    assert_eq!(third.start, 3_600 * SECOND);
    assert_eq!(third.end, end);
    assert_eq!(next_chunk(third.end, end, BarSize::Sec), None);
    let short = next_chunk(3_990 * SECOND, end, BarSize::Sec).unwrap();
    assert_eq!(short.request_start, 3_940 * SECOND);
}

#[test]
fn rows_hold_the_bars_of_their_chunk() {
    let chunk = Chunk { start: 10 * SECOND, end: 12 * SECOND, request_start: 0 };
    let bars = vec![bar(9), bar(10), bar(11), bar(12)];
    assert_eq!(
        chunk_rows(&chunk, &bars),
        vec![
            "10,1.5,2,1,1.75,300,1.625,-1".to_string(),
            "11,1.5,2,1,1.75,300,1.625,-1".to_string(),
        ],
    );
    assert_eq!(HISTORICAL_HEADER, "date,open,high,low,close,volume,wap,count");
}
