//! Contiguous series of opening prices.
use crate::clock::{
    check_timestamp, eastern_second, eastern_second_of_day, inside_window, is_eastern_timestamp,
    is_inside_window, moment_of, start_of_second, timestamp_error, EARLIEST_EASTERN_TIMESTAMP,
    EARLIEST_TIMESTAMP, LATEST_TIMESTAMP, MARKET_CLOSE_TIME, MARKET_OPEN_TIME,
    UNRELIABLE_DATA_END_TIME, UNRELIABLE_DATA_START_TIME,
};
use crate::number::{zero, zero_spec, Number};
use crate::table::{
    column_position, field, field_at, optional_text, position, read_table, row_model, rows_model,
    table_of, Table, TableModel,
};
use crate::text::{
    digits, integer_value, joined3, joined4, read_signed, result_model, show_unsigned,
    signed_error, texts,
};
use vstd::prelude::*;

verus! {

/// A price with the Unix second at which it was observed.
#[derive(Clone, Copy)]
pub struct TimestampedPrice<N> {
    pub timestamp: i64,
    pub price: N,
}

/// The lists in a list.
pub open spec fn nested<T>(lists: Seq<Vec<T>>) -> Seq<Seq<T>> {
    lists.map_values(|list: Vec<T>| list@)
}

/// The lists of a nested result, or the text of its error.
pub open spec fn nested_model<T>(
    result: Result<Vec<Vec<T>>, String>,
) -> Result<Seq<Seq<T>>, Seq<char>> {
    match result {
        Ok(lists) => Ok(nested(lists@)),
        Err(message) => Err(message@),
    }
}

// Returns

/// The successive logarithmic returns of prices, one fewer than there are prices.
pub open spec fn returns_of<N: Number>(prices: Seq<N>) -> Seq<N> {
    Seq::new(
        if prices.len() < 2 {
            0
        } else {
            (prices.len() - 1) as nat
        },
        |index: int| prices[index + 1].over_spec(prices[index]).natural_log_spec(),
    )
}

/// Convert raw prices into successive logarithmic returns.
pub fn log_returns<N: Number>(prices: &Vec<N>) -> (result: Vec<N>)
    ensures
        result@ == returns_of(prices@),
{
    let mut result: Vec<N> = Vec::new();
    if prices.len() >= 2 {
        for index in 1..prices.len()
            invariant
                prices.len() >= 2,
                result@ == returns_of(prices@).take(index - 1),
        {
            result.push(prices[index].over(prices[index - 1]).natural_log());
            assert(result@ =~= returns_of(prices@).take(index as int));
        }
        assert(returns_of(prices@).take(prices.len() - 1) =~= returns_of(prices@));
    }
    assert(result@ =~= returns_of(prices@));
    result
}

// Rows

/// Whether a second of the Eastern day is one whose prices are used: inside the regular session,
/// and outside the window of unreliable trade reports.
pub open spec fn usable_second(second: int) -> bool {
    &&& !inside_window(second, UNRELIABLE_DATA_START_TIME, UNRELIABLE_DATA_END_TIME)
    &&& inside_window(second, MARKET_OPEN_TIME, MARKET_CLOSE_TIME)
}

/// Whether a Unix second is one whose prices are used.
pub open spec fn usable(timestamp: i64) -> bool {
    usable_second(eastern_second(moment_of(timestamp)))
}

/// The message that a field is malformed.
pub open spec fn malformed(name: Seq<char>, line: nat, reason: Seq<char>) -> Seq<char> {
    "invalid "@ + name + (" on line "@ + digits(line) + ": "@ + reason)
}

fn show_malformed(name: &str, line: u128, reason: &str) -> (result: String)
    ensures
        result@ == malformed(name@, line as nat, reason@),
{
    let place = joined4(" on line ", &show_unsigned(line), ": ", reason);
    joined3("invalid ", name, &place)
}

/// The Unix second that a field holds. One without an Eastern date is out of range.
pub open spec fn observed_at(value: Option<Seq<char>>, line: nat) -> Result<i64, Seq<char>> {
    match value {
        None => Err("missing timestamp on line "@ + digits(line)),
        Some(text) => match integer_value(text) {
            Some(number) if i64::MIN <= number <= i64::MAX => if !(EARLIEST_TIMESTAMP <= number
                <= LATEST_TIMESTAMP) {
                Err(malformed("timestamp"@, line, timestamp_error(number as i64)))
            } else if number < EARLIEST_EASTERN_TIMESTAMP {
                Err(malformed("timestamp"@, line, "out of range"@))
            } else {
                Ok(number as i64)
            },
            _ => Err(malformed("timestamp"@, line, signed_error(text))),
        },
    }
}

fn parse_observed_at(value: Option<&str>, line: u128) -> (result: Result<i64, String>)
    ensures
        result_model(result) == observed_at(optional_text(value), line as nat),
        result matches Ok(timestamp) ==> is_eastern_timestamp(timestamp),
{
    let text = match value {
        Some(text) => text,
        None => {
            return Err(
                crate::text::joined("missing timestamp on line ", &show_unsigned(line)),
            );
        },
    };
    let timestamp: i64 = match read_signed(text) {
        Ok(timestamp) => timestamp,
        Err(error) => {
            return Err(show_malformed("timestamp", line, &error));
        },
    };
    match check_timestamp(timestamp) {
        Ok(_) => if timestamp < EARLIEST_EASTERN_TIMESTAMP {
            Err(show_malformed("timestamp", line, "out of range"))
        } else {
            Ok(timestamp)
        },
        Err(error) => Err(show_malformed("timestamp", line, &error)),
    }
}

/// The finite positive opening price that a field holds.
pub open spec fn opening_price<N: Number>(
    value: Option<Seq<char>>,
    line: nat,
) -> Result<N, Seq<char>> {
    match value {
        None => Err("missing opening price on line "@ + digits(line)),
        Some(text) => match N::parse_spec(text) {
            Err(reason) => Err(malformed("opening price"@, line, reason)),
            Ok(price) => if !price.is_finite_spec() || price.at_most_spec(zero_spec()) {
                Err("opening price on line "@ + digits(line) + " must be finite and positive"@)
            } else {
                Ok(price)
            },
        },
    }
}

fn parse_opening_price<N: Number>(value: Option<&str>, line: u128) -> (result: Result<N, String>)
    ensures
        result_model(result) == opening_price::<N>(optional_text(value), line as nat),
{
    let text = match value {
        Some(text) => text,
        None => {
            return Err(
                crate::text::joined("missing opening price on line ", &show_unsigned(line)),
            );
        },
    };
    let price: N = match N::parse(text) {
        Ok(price) => price,
        Err(error) => {
            return Err(show_malformed("opening price", line, &error));
        },
    };
    if !price.is_finite() || price.at_most(zero()) {
        return Err(
            joined3(
                "opening price on line ",
                &show_unsigned(line),
                " must be finite and positive",
            ),
        );
    }
    Ok(price)
}

/// The price that a row holds, at a Unix second at which the Eastern clock shows a second of the
/// day, or none if that second is not one that is used.
pub open spec fn price_at<N: Number>(
    row: Seq<Seq<char>>,
    line: nat,
    timestamp: i64,
    second: int,
    open_index: int,
) -> Result<Option<TimestampedPrice<N>>, Seq<char>> {
    if !usable_second(second) {
        Ok(None)
    } else {
        match opening_price::<N>(field(row, open_index), line) {
            Err(message) => Err(message),
            Ok(price) => Ok(Some(TimestampedPrice { timestamp, price })),
        }
    }
}

/// The price that a row holds, or none if its Unix second is not one that is used.
pub open spec fn price_in_row<N: Number>(
    row: Seq<Seq<char>>,
    line: nat,
    timestamp_index: int,
    open_index: int,
) -> Result<Option<TimestampedPrice<N>>, Seq<char>> {
    match observed_at(field(row, timestamp_index), line) {
        Err(message) => Err(message),
        Ok(timestamp) => price_at(
            row,
            line,
            timestamp,
            eastern_second(moment_of(timestamp)),
            open_index,
        ),
    }
}

/// Parse one row at a second of the Eastern day. Its price is read only if it is used.
pub fn parse_price_at<N: Number>(
    row: &Vec<String>,
    line: u128,
    timestamp: i64,
    second: u32,
    open_index: usize,
) -> (result: Result<Option<TimestampedPrice<N>>, String>)
    ensures
        result_model(result) == price_at::<N>(
            texts(row@),
            line as nat,
            timestamp,
            second as int,
            open_index as int,
        ),
{
    if is_inside_window(second, UNRELIABLE_DATA_START_TIME, UNRELIABLE_DATA_END_TIME)
        || !is_inside_window(second, MARKET_OPEN_TIME, MARKET_CLOSE_TIME) {
        return Ok(None);
    }
    match parse_opening_price(field_at(row, open_index), line) {
        Ok(price) => Ok(Some(TimestampedPrice { timestamp, price })),
        Err(message) => Err(message),
    }
}

fn parse_row<N: Number>(row: &Vec<String>, line: u128, timestamp_index: usize, open_index: usize)
    -> (result: Result<Option<TimestampedPrice<N>>, String>)
    ensures
        result_model(result) == price_in_row::<N>(
            texts(row@),
            line as nat,
            timestamp_index as int,
            open_index as int,
        ),
{
    match parse_observed_at(field_at(row, timestamp_index), line) {
        Ok(timestamp) => {
            let second: u32 = eastern_second_of_day(start_of_second(timestamp));
            parse_price_at(row, line, timestamp, second, open_index)
        },
        Err(message) => Err(message),
    }
}

// Series

/// The series after a price: it continues the last one if it comes one second after its last
/// price, and begins a new one otherwise.
pub open spec fn with_price<N>(
    series: Seq<Seq<TimestampedPrice<N>>>,
    price: TimestampedPrice<N>,
) -> Seq<Seq<TimestampedPrice<N>>> {
    if series.len() > 0 && series.last().last().timestamp + 1 == price.timestamp {
        series.drop_last().push(series.last().push(price))
    } else {
        series.push(seq![price])
    }
}

/// The series that the rows of a table hold, or the message of the first malformed one. The
/// first row below the header stands on the second line.
pub open spec fn series_in<N: Number>(
    records: Seq<Result<Seq<Seq<char>>, Seq<char>>>,
    timestamp_index: int,
    open_index: int,
) -> Result<Seq<Seq<TimestampedPrice<N>>>, Seq<char>>
    decreases records.len(),
{
    if records.len() == 0 {
        Ok(Seq::empty())
    } else {
        match series_in::<N>(records.drop_last(), timestamp_index, open_index) {
            Err(message) => Err(message),
            Ok(series) => match records.last() {
                Err(message) => Err(message),
                Ok(row) => match price_in_row::<N>(
                    row,
                    records.len() + 1,
                    timestamp_index,
                    open_index,
                ) {
                    Err(message) => Err(message),
                    Ok(None) => Ok(series),
                    Ok(Some(price)) => Ok(with_price(series, price)),
                },
            },
        }
    }
}

/// The series that a table holds.
pub open spec fn table_series<N: Number>(table: TableModel) -> Result<
    Seq<Seq<TimestampedPrice<N>>>,
    Seq<char>,
> {
    match table.headers {
        Err(message) => Err(message),
        Ok(headers) => match (position(headers, "open"@), position(headers, "date"@)) {
            (None, _) => Err("the CSV file must contain an open column"@),
            (_, None) => Err("the CSV file must contain a date column"@),
            (Some(open_index), Some(timestamp_index)) => series_in(
                table.records,
                timestamp_index,
                open_index,
            ),
        },
    }
}

/// The series that a text holds.
pub open spec fn price_series<N: Number>(contents: Seq<char>) -> Result<
    Seq<Seq<TimestampedPrice<N>>>,
    Seq<char>,
> {
    table_series(table_of(contents))
}

/// A malformed row among some is the first malformed row of more.
proof fn lemma_series_error<N: Number>(
    records: Seq<Result<Seq<Seq<char>>, Seq<char>>>,
    timestamp_index: int,
    open_index: int,
    count: int,
)
    requires
        0 <= count <= records.len(),
        series_in::<N>(records.take(count), timestamp_index, open_index) is Err,
    ensures
        series_in::<N>(records, timestamp_index, open_index) == series_in::<N>(
            records.take(count),
            timestamp_index,
            open_index,
        ),
    decreases records.len(),
{
    if count < records.len() {
        assert(records.drop_last().take(count) =~= records.take(count));
        lemma_series_error::<N>(records.drop_last(), timestamp_index, open_index, count);
    } else {
        assert(records.take(count) =~= records);
    }
}

/// Whether series are grown one price at a time: each holds a price.
spec fn grown<N>(series: Seq<Vec<TimestampedPrice<N>>>, previous: Option<i64>) -> bool {
    &&& forall|index: int| 0 <= index < series.len() ==> (#[trigger] series[index])@.len() > 0
    &&& match previous {
        Some(timestamp) => series.len() > 0 && series.last()@.last().timestamp == timestamp,
        None => series.len() == 0,
    }
}

/// Add a price to the last series, or begin a new one with it.
fn add_price<N: Number>(
    series: &mut Vec<Vec<TimestampedPrice<N>>>,
    previous: Option<i64>,
    price: TimestampedPrice<N>,
)
    requires
        grown(old(series)@, previous),
    ensures
        nested(final(series)@) == with_price(nested(old(series)@), price),
        grown(final(series)@, Some(price.timestamp)),
{
    let ghost before = series@;
    let continues = match previous {
        Some(timestamp) => timestamp < i64::MAX && timestamp + 1 == price.timestamp,
        None => false,
    };
    if continues {
        if let Some(current) = series.pop() {
            let mut current = current;
            let ghost earlier = current@;
            current.push(price);
            series.push(current);
            assert(nested(series@) =~= nested(before).drop_last().push(earlier.push(price)));
        }
    } else {
        let mut current: Vec<TimestampedPrice<N>> = Vec::new();
        current.push(price);
        series.push(current);
        assert(current@ =~= seq![price]);
        assert(nested(series@) =~= nested(before).push(seq![price]));
        assert(before.len() > 0 ==> nested(before).last() == before.last()@);
    }
}

/// Parse the series that the rows of a table hold.
fn parse_records<N: Number>(
    records: &Vec<Result<Vec<String>, String>>,
    timestamp_index: usize,
    open_index: usize,
) -> (result: Result<Vec<Vec<TimestampedPrice<N>>>, String>)
    ensures
        nested_model(result) == series_in::<N>(
            rows_model(records@),
            timestamp_index as int,
            open_index as int,
        ),
{
    let ghost models = rows_model(records@);
    let mut series: Vec<Vec<TimestampedPrice<N>>> = Vec::new();
    let mut previous: Option<i64> = None;
    assert(nested(series@) =~= Seq::empty());
    for index in 0..records.len()
        invariant
            models == rows_model(records@),
            grown(series@, previous),
            series_in::<N>(
                models.take(index as int),
                timestamp_index as int,
                open_index as int,
            ) == Ok::<_, Seq<char>>(nested(series@)),
    {
        assert(models.take(index + 1).drop_last() =~= models.take(index as int));
        assert(models[index as int] == row_model(records@[index as int]));
        let row = match &records[index] {
            Ok(row) => row,
            Err(message) => {
                proof {
                    lemma_series_error::<N>(
                        models,
                        timestamp_index as int,
                        open_index as int,
                        index + 1,
                    );
                }
                return Err(message.clone());
            },
        };
        let line: u128 = index as u128 + 2;
        match parse_row(row, line, timestamp_index, open_index) {
            Err(message) => {
                proof {
                    lemma_series_error::<N>(
                        models,
                        timestamp_index as int,
                        open_index as int,
                        index + 1,
                    );
                }
                return Err(message);
            },
            Ok(None) => {},
            Ok(Some(price)) => {
                add_price(&mut series, previous, price);
                previous = Some(price.timestamp);
            },
        }
    }
    assert(models.take(records.len() as int) =~= models);
    Ok(series)
}

/// Parse the contiguous market-hours series of a table.
pub fn parse_table_series<N: Number>(table: &Table) -> (result: Result<
    Vec<Vec<TimestampedPrice<N>>>,
    String,
>)
    ensures
        nested_model(result) == table_series::<N>(table@),
{
    // Locate required columns by name so their order remains explicit.
    let headers = match &table.headers {
        Ok(headers) => headers,
        Err(message) => {
            return Err(message.clone());
        },
    };
    let open_index: usize = match column_position(headers, "open") {
        Some(index) => index,
        None => {
            return Err("the CSV file must contain an open column".to_owned());
        },
    };
    let timestamp_index: usize = match column_position(headers, "date") {
        Some(index) => index,
        None => {
            return Err("the CSV file must contain a date column".to_owned());
        },
    };

    // Split retained prices whenever consecutive source timestamps are not one second apart.
    parse_records(&table.records, timestamp_index, open_index)
}

/// Parse contiguous market-hours series while retaining timestamps beside their prices.
pub fn parse_price_series<N: Number>(contents: &str) -> (result: Result<
    Vec<Vec<TimestampedPrice<N>>>,
    String,
>)
    ensures
        nested_model(result) == price_series::<N>(contents@),
{
    parse_table_series(&read_table(contents))
}

/// The prices of a series.
pub open spec fn prices_of<N>(series: Seq<TimestampedPrice<N>>) -> Seq<N> {
    series.map_values(|price: TimestampedPrice<N>| price.price)
}

/// Discard the timestamps of a series.
pub fn series_prices<N: Number>(series: &Vec<TimestampedPrice<N>>) -> (result: Vec<N>)
    ensures
        result@ == prices_of(series@),
{
    let mut result: Vec<N> = Vec::new();
    for index in 0..series.len()
        invariant
            result@ == prices_of(series@).take(index as int),
    {
        result.push(series[index].price);
        assert(result@ =~= prices_of(series@).take(index + 1));
    }
    assert(prices_of(series@).take(series.len() as int) =~= prices_of(series@));
    result
}

/// The price series that a table holds, without their timestamps.
pub open spec fn training_prices<N: Number>(contents: Seq<char>) -> Result<
    Seq<Seq<N>>,
    Seq<char>,
> {
    match price_series::<N>(contents) {
        Ok(series) => Ok(
            series.map_values(|prices: Seq<TimestampedPrice<N>>| prices_of(prices)),
        ),
        Err(message) => Err(message),
    }
}

/// Discard timestamps after parsing because training consumes only price values.
pub fn parse_training_prices<N: Number>(contents: &str) -> (result: Result<Vec<Vec<N>>, String>)
    ensures
        nested_model(result) == training_prices::<N>(contents@),
{
    let series: Vec<Vec<TimestampedPrice<N>>> = match parse_price_series(contents) {
        Ok(series) => series,
        Err(message) => {
            return Err(message);
        },
    };
    let ghost expected = nested(series@).map_values(
        |prices: Seq<TimestampedPrice<N>>| prices_of(prices),
    );
    let mut result: Vec<Vec<N>> = Vec::new();
    for index in 0..series.len()
        invariant
            expected == nested(series@).map_values(
                |prices: Seq<TimestampedPrice<N>>| prices_of(prices),
            ),
            nested(result@) == expected.take(index as int),
    {
        let ghost before = result@;
        let prices = series_prices(&series[index]);
        result.push(prices);
        assert(nested(result@) =~= nested(before).push(prices@));
        assert(nested(result@) =~= expected.take(index + 1));
    }
    assert(expected.take(series.len() as int) =~= expected);
    Ok(result)
}

/// Append every independent segment that a file holds.
pub fn extend_series<N: Number>(series: &mut Vec<Vec<N>>, path: &str, contents: &str) -> (result:
    Result<(), String>)
    ensures
        match (result, training_prices::<N>(contents@)) {
            (Ok(_), Ok(parsed)) => nested(final(series)@) == nested(old(series)@) + parsed,
            (Err(message), Err(reason)) => {
                &&& message@ == "failed to parse "@ + path@ + ": "@ + reason
                &&& final(series)@ == old(series)@
            },
            _ => false,
        },
{
    match parse_training_prices(contents) {
        Ok(parsed) => {
            let mut parsed: Vec<Vec<N>> = parsed;
            let ghost added = parsed@;
            series.append(&mut parsed);
            assert(nested(series@) =~= nested(old(series)@) + nested(added));
            Ok(())
        },
        Err(error) => Err(joined4("failed to parse ", path, ": ", &error)),
    }
}

} // verus!
