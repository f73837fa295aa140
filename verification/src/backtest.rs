//! Backtests over historical prices.
use crate::clock::{
    check_timestamp, eastern_second, eastern_second_of_day, inside, inside_window,
    is_eastern_timestamp, is_inside, is_inside_window, moment_of, start_of_second,
    timestamp_error, EARLIEST_EASTERN_TIMESTAMP, EARLIEST_TIMESTAMP, LATEST_TIMESTAMP,
    LIQUIDATION_END_TIME, LIQUIDATION_START_TIME, UNRELIABLE_DATA_END_TIME,
    UNRELIABLE_DATA_START_TIME,
};
use crate::files::{
    file_models, file_name, file_name_of, is_ordering, order_files, FileModel, SourceFile,
};
use crate::grid::{
    candidate_models, candidates_of, evaluate_candidates, highest_return, highest_sharpe,
    lemma_candidate_count, lemma_candidates_error, lemma_candidates_join, no_candidates_text,
    select_winners, CandidateModel, GridCandidate, GridResult,
};
use crate::laws::backtest::law_grid_size;
use crate::market_maker::{
    day_models, days_have_bars, outcome_model, simulate_market_maker, simulation, Bar, Day,
    DayModel, MarketMakerConfig, MarketMakerResult, ResultModel,
};
use crate::number::{hundred, hundred_spec, zero, zero_spec, Number};
use crate::report::{
    grid_lines, progress_line, report_grid_result, report_market_maker_result, report_progress,
    result_lines,
};
use crate::table::{
    column_position, field, field_at, optional_text, position, read_table, row_model, rows_model,
    table_of, Table, TableModel,
};
use crate::text::{
    digits, integer_value, joined, joined4, joined6, list_model, read_signed, result_model,
    show_unsigned, signed_error, texts,
};
use vstd::prelude::*;

verus! {

/// The strategies that a backtest can evaluate.
#[derive(Clone, Copy, Debug, PartialEq, Eq, Structural)]
pub enum Strategy {
    BuyAndHold,
    MarketMaker,
    MarketMakerGrid,
}

/// The arguments of a backtest.
pub struct Args<N> {
    /// The strategy to evaluate.
    pub strategy: Strategy,
    /// The paths of the files of historical market data.
    pub data_paths: Vec<String>,
    /// The starting cash.
    pub initial_cash: N,
    /// The most shares that may fill during one bar.
    pub bar_volume_limit: N,
    /// The buy-order lifetime of a single simulation, in seconds.
    pub buy_ttl: u64,
    /// The sell-order lifetime of a single simulation, in seconds.
    pub sell_ttl: u64,
    /// The buy-limit discount of a single simulation.
    pub discount_percent: N,
    /// The sell-limit markup of a single simulation.
    pub markup_percent: N,
    /// The share of account value that a single simulation may spend on buy orders.
    pub bet_size: N,
    /// The buy-order lifetimes that a search combines.
    pub buy_ttls: Vec<u64>,
    /// The sell-order lifetimes that a search combines.
    pub sell_ttls: Vec<u64>,
    /// The discounts that a search combines.
    pub discount_percentages: Vec<N>,
    /// The markups that a search combines.
    pub markup_percentages: Vec<N>,
    /// The bet sizes that a search combines.
    pub bet_sizes: Vec<N>,
}

/// The files at some paths, before they are read.
pub open spec fn unread(paths: Seq<Seq<char>>) -> Seq<FileModel> {
    paths.map_values(|path: Seq<char>| FileModel { path, contents: Seq::empty() })
}

impl<N> Args<N> {
    /// List the files to read, in the order in which the strategies receive them.
    pub fn data_files(&self) -> (result: Vec<SourceFile>)
        ensures
            is_ordering(file_models(result@), unread(texts(self.data_paths@))),
    {
        let ghost expected = unread(texts(self.data_paths@));
        let mut files: Vec<SourceFile> = Vec::new();
        assert(file_models(files@) =~= expected.take(0));
        for index in 0..self.data_paths.len()
            invariant
                expected == unread(texts(self.data_paths@)),
                file_models(files@) == expected.take(index as int),
        {
            let ghost before = files@;
            let file = SourceFile {
                path: self.data_paths[index].clone(),
                contents: String::new(),
            };
            files.push(file);
            assert(file@ == expected[index as int]);
            assert(file_models(files@) =~= file_models(before).push(file@));
            assert(file_models(files@) =~= expected.take(index + 1));
        }
        assert(expected.take(self.data_paths.len() as int) =~= expected);
        order_files(files)
    }
}

// Fields

/// Whether a Unix second is inside the window of unreliable early-morning trade reports.
pub open spec fn unreliable(timestamp: i64) -> bool {
    inside(moment_of(timestamp), UNRELIABLE_DATA_START_TIME, UNRELIABLE_DATA_END_TIME)
}

/// Identify trade reports that cannot be treated as contemporaneous fill opportunities.
pub fn is_unreliable_early_data(timestamp: i64) -> (result: bool)
    requires
        is_eastern_timestamp(timestamp),
    ensures
        result == unreliable(timestamp),
{
    is_inside(
        start_of_second(timestamp),
        UNRELIABLE_DATA_START_TIME,
        UNRELIABLE_DATA_END_TIME,
    )
}

/// The message that a field is malformed.
pub open spec fn invalid_text(
    description: Seq<char>,
    path: Seq<char>,
    reason: Seq<char>,
) -> Seq<char> {
    "invalid "@ + description + " in "@ + path + ": "@ + reason
}

/// The Unix second that a field holds.
pub open spec fn timestamp_of(
    value: Option<Seq<char>>,
    path: Seq<char>,
    description: Seq<char>,
) -> Result<i64, Seq<char>> {
    match value {
        None => Err(path + " is missing its "@ + description),
        Some(text) => match integer_value(text) {
            Some(number) if i64::MIN <= number <= i64::MAX => if EARLIEST_TIMESTAMP <= number
                <= LATEST_TIMESTAMP {
                Ok(number as i64)
            } else {
                Err(invalid_text(description, path, timestamp_error(number as i64)))
            },
            _ => Err(invalid_text(description, path, signed_error(text))),
        },
    }
}

/// Parse one required Unix timestamp with a contextual error.
pub fn parse_timestamp(value: Option<&str>, path: &str, description: &str) -> (result: Result<
    i64,
    String,
>)
    ensures
        result_model(result) == timestamp_of(optional_text(value), path@, description@),
{
    // Reject missing, noninteger, and out-of-range timestamps.
    let text = match value {
        Some(text) => text,
        None => {
            return Err(crate::text::joined3(path, " is missing its ", description));
        },
    };
    let timestamp: i64 = match read_signed(text) {
        Ok(timestamp) => timestamp,
        Err(error) => {
            return Err(joined6("invalid ", description, " in ", path, ": ", &error));
        },
    };
    match check_timestamp(timestamp) {
        Ok(_) => Ok(timestamp),
        Err(error) => Err(joined6("invalid ", description, " in ", path, ": ", &error)),
    }
}

/// The finite positive price that a field holds.
pub open spec fn price_of<N: Number>(
    value: Option<Seq<char>>,
    path: Seq<char>,
    description: Seq<char>,
) -> Result<N, Seq<char>> {
    match value {
        None => Err(path + " is missing its "@ + description + " price"@),
        Some(text) => match N::parse_spec(text) {
            Ok(price) => if !price.is_finite_spec() || price.at_most_spec(zero_spec()) {
                Err(description + " price in "@ + path + " must be finite and positive"@)
            } else {
                Ok(price)
            },
            Err(reason) => Err(invalid_text(description + " price"@, path, reason)),
        },
    }
}

/// Parse one required boundary price with a contextual error.
pub fn parse_price<N: Number>(value: Option<&str>, path: &str, description: &str) -> (result:
    Result<N, String>)
    ensures
        result_model(result) == price_of::<N>(optional_text(value), path@, description@),
{
    // Reject missing, nonnumeric, nonfinite, and nonpositive prices consistently.
    let text = match value {
        Some(text) => text,
        None => {
            return Err(joined4(path, " is missing its ", description, " price"));
        },
    };
    let price: N = match N::parse(text) {
        Ok(price) => price,
        Err(error) => {
            let subject = joined(description, " price");
            return Err(joined6("invalid ", &subject, " in ", path, ": ", &error));
        },
    };
    if !price.is_finite() || price.at_most(zero()) {
        return Err(joined4(description, " price in ", path, " must be finite and positive"));
    }
    Ok(price)
}

/// The position of a required column.
pub open spec fn column_of(
    headers: Seq<Seq<char>>,
    path: Seq<char>,
    name: Seq<char>,
    article: Seq<char>,
) -> Result<int, Seq<char>> {
    match position(headers, name) {
        Some(index) => Ok(index),
        None => Err(path + " must contain "@ + article + name + " column"@),
    }
}

/// Locate one required column, whose name takes an article in the message about its absence.
fn named_column(headers: &Vec<String>, path: &str, name: &str, article: &str) -> (result: Result<
    usize,
    String,
>)
    ensures
        match result {
            Ok(index) => column_of(texts(headers@), path@, name@, article@) == Ok::<
                int,
                Seq<char>,
            >(index as int),
            Err(message) => column_of(texts(headers@), path@, name@, article@) == Err::<
                int,
                Seq<char>,
            >(message@),
        },
{
    match column_position(headers, name) {
        Some(index) => Ok(index),
        None => Err(crate::text::joined5(path, " must contain ", article, name, " column")),
    }
}

/// Locate one required price column.
pub fn column_index(headers: &Vec<String>, path: &str, name: &str) -> (result: Result<
    usize,
    String,
>)
    ensures
        match result {
            Ok(index) => column_of(texts(headers@), path@, name@, "a "@) == Ok::<int, Seq<char>>(
                index as int,
            ),
            Err(message) => column_of(texts(headers@), path@, name@, "a "@) == Err::<
                int,
                Seq<char>,
            >(message@),
        },
{
    named_column(headers, path, name, "a ")
}

// Rows

/// The rows of a table, or the message of the first malformed one.
pub open spec fn collected(
    records: Seq<Result<Seq<Seq<char>>, Seq<char>>>,
) -> Result<Seq<Seq<Seq<char>>>, Seq<char>>
    decreases records.len(),
{
    if records.len() == 0 {
        Ok(Seq::empty())
    } else {
        match (collected(records.drop_last()), records.last()) {
            (Err(message), _) => Err(message),
            (Ok(_), Err(message)) => Err(message),
            (Ok(rows), Ok(row)) => Ok(rows.push(row)),
        }
    }
}

/// The texts of rows.
pub open spec fn row_texts(rows: Seq<Vec<String>>) -> Seq<Seq<Seq<char>>> {
    rows.map_values(|row: Vec<String>| texts(row@))
}

/// The first malformed row of some is the first of more.
proof fn lemma_collected_error(records: Seq<Result<Seq<Seq<char>>, Seq<char>>>, count: int)
    requires
        0 <= count <= records.len(),
        collected(records.take(count)) is Err,
    ensures
        collected(records) == collected(records.take(count)),
    decreases records.len(),
{
    if count < records.len() {
        assert(records.drop_last().take(count) =~= records.take(count));
        lemma_collected_error(records.drop_last(), count);
    } else {
        assert(records.take(count) =~= records);
    }
}

/// Collect the rows of a table, or report the first malformed one.
fn collect_records(records: &Vec<Result<Vec<String>, String>>) -> (result: Result<
    Vec<Vec<String>>,
    String,
>)
    ensures
        match result {
            Ok(rows) => collected(rows_model(records@)) == Ok::<_, Seq<char>>(row_texts(rows@)),
            Err(message) => collected(rows_model(records@)) == Err::<
                Seq<Seq<Seq<char>>>,
                Seq<char>,
            >(message@),
        },
{
    let ghost models = rows_model(records@);
    let mut rows: Vec<Vec<String>> = Vec::new();
    assert(row_texts(rows@) =~= Seq::empty());
    for index in 0..records.len()
        invariant
            models == rows_model(records@),
            collected(models.take(index as int)) == Ok::<_, Seq<char>>(row_texts(rows@)),
    {
        assert(models.take(index + 1).drop_last() =~= models.take(index as int));
        assert(models[index as int] == row_model(records@[index as int]));
        match &records[index] {
            Ok(fields) => {
                let ghost before = rows@;
                let row = copy_row(fields);
                rows.push(row);
                assert(row_texts(rows@) =~= row_texts(before).push(texts(row@)));
            },
            Err(message) => {
                proof {
                    lemma_collected_error(models, index + 1);
                }
                return Err(message.clone());
            },
        }
    }
    assert(models.take(records.len() as int) =~= models);
    Ok(rows)
}

/// Copy the fields of a row.
fn copy_row(fields: &Vec<String>) -> (result: Vec<String>)
    ensures
        result@ == fields@,
{
    let mut result: Vec<String> = Vec::new();
    for index in 0..fields.len()
        invariant
            result@ == fields@.take(index as int),
    {
        result.push(fields[index].clone());
        assert(result@ =~= fields@.take(index + 1));
    }
    assert(fields@.take(fields.len() as int) =~= fields@);
    result
}

/// The description of a field that stands in a row of a file.
pub open spec fn on_line(name: Seq<char>, line: nat) -> Seq<char> {
    name + " on line "@ + digits(line)
}

/// The description of a field that stands in a row of a file.
fn describe(name: &str, line: u128) -> (result: String)
    ensures
        result@ == on_line(name@, line as nat),
{
    crate::text::joined3(name, " on line ", &show_unsigned(line))
}

/// The Unix second of a row. One without an Eastern date is out of range.
pub open spec fn row_timestamp(
    row: Seq<Seq<char>>,
    path: Seq<char>,
    line: nat,
    timestamp_index: int,
) -> Result<i64, Seq<char>> {
    let description = on_line("date"@, line);
    match timestamp_of(field(row, timestamp_index), path, description) {
        Err(message) => Err(message),
        Ok(timestamp) => if is_eastern_timestamp(timestamp) {
            Ok(timestamp)
        } else {
            Err(invalid_text(description, path, "out of range"@))
        },
    }
}

/// Parse the Unix second of a row.
fn parse_row_timestamp(row: &Vec<String>, path: &str, line: u128, timestamp_index: usize) -> (
    result: Result<i64, String>)
    ensures
        result_model(result) == row_timestamp(
            texts(row@),
            path@,
            line as nat,
            timestamp_index as int,
        ),
        result matches Ok(timestamp) ==> is_eastern_timestamp(timestamp),
{
    let description = describe("date", line);
    match parse_timestamp(field_at(row, timestamp_index), path, &description) {
        Err(message) => Err(message),
        Ok(timestamp) => if EARLIEST_EASTERN_TIMESTAMP <= timestamp && timestamp
            <= LATEST_TIMESTAMP {
            Ok(timestamp)
        } else {
            Err(joined6("invalid ", &description, " in ", path, ": ", "out of range"))
        },
    }
}

/// The positions of the columns that the market maker reads.
#[derive(Clone, Copy)]
pub struct BarColumns {
    pub timestamp: usize,
    pub low: usize,
    pub high: usize,
    pub close: usize,
}

/// The bar that a row holds, at a Unix second at which the Eastern clock shows a second of the
/// day, or none if the row is unreliable.
pub open spec fn bar_at<N: Number>(
    row: Seq<Seq<char>>,
    path: Seq<char>,
    line: nat,
    timestamp: i64,
    second: int,
    columns: BarColumns,
) -> Result<Option<Bar<N>>, Seq<char>> {
    if inside_window(second, UNRELIABLE_DATA_START_TIME, UNRELIABLE_DATA_END_TIME) {
        Ok(None)
    } else {
        let low = price_of::<N>(field(row, columns.low as int), path, on_line("low"@, line));
        let high = price_of::<N>(field(row, columns.high as int), path, on_line("high"@, line));
        let close = price_of::<N>(
            field(row, columns.close as int),
            path,
            on_line("close"@, line),
        );
        match (low, high, close) {
            (Err(message), _, _) => Err(message),
            (Ok(_), Err(message), _) => Err(message),
            (Ok(_), Ok(_), Err(message)) => Err(message),
            (Ok(low), Ok(high), Ok(close)) => Ok(
                Some(
                    Bar {
                        timestamp,
                        low,
                        high,
                        close,
                        liquidate: inside_window(
                            second,
                            LIQUIDATION_START_TIME,
                            LIQUIDATION_END_TIME,
                        ),
                    },
                ),
            ),
        }
    }
}

/// The bar that a row holds, or none if the row is unreliable.
pub open spec fn bar_of<N: Number>(
    row: Seq<Seq<char>>,
    path: Seq<char>,
    line: nat,
    columns: BarColumns,
) -> Result<Option<Bar<N>>, Seq<char>> {
    match row_timestamp(row, path, line, columns.timestamp as int) {
        Err(message) => Err(message),
        Ok(timestamp) => bar_at(
            row,
            path,
            line,
            timestamp,
            eastern_second(moment_of(timestamp)),
            columns,
        ),
    }
}

/// Parse one row at a second of the Eastern day. Its prices are read only if it is reliable.
pub fn parse_bar_at<N: Number>(
    row: &Vec<String>,
    path: &str,
    line: u128,
    timestamp: i64,
    second: u32,
    columns: BarColumns,
) -> (result: Result<Option<Bar<N>>, String>)
    ensures
        result_model(result) == bar_at::<N>(
            texts(row@),
            path@,
            line as nat,
            timestamp,
            second as int,
            columns,
        ),
{
    if is_inside_window(second, UNRELIABLE_DATA_START_TIME, UNRELIABLE_DATA_END_TIME) {
        return Ok(None);
    }
    let low: N = match parse_price(field_at(row, columns.low), path, &describe("low", line)) {
        Ok(price) => price,
        Err(message) => {
            return Err(message);
        },
    };
    let high: N = match parse_price(field_at(row, columns.high), path, &describe("high", line)) {
        Ok(price) => price,
        Err(message) => {
            return Err(message);
        },
    };
    let close: N = match parse_price(
        field_at(row, columns.close),
        path,
        &describe("close", line),
    ) {
        Ok(price) => price,
        Err(message) => {
            return Err(message);
        },
    };
    let liquidate = is_inside_window(second, LIQUIDATION_START_TIME, LIQUIDATION_END_TIME);
    Ok(Some(Bar { timestamp, low, high, close, liquidate }))
}

/// Parse one row.
fn parse_bar<N: Number>(row: &Vec<String>, path: &str, line: u128, columns: BarColumns) -> (result:
    Result<Option<Bar<N>>, String>)
    ensures
        result_model(result) == bar_of::<N>(texts(row@), path@, line as nat, columns),
{
    match parse_row_timestamp(row, path, line, columns.timestamp) {
        Ok(timestamp) => {
            let second: u32 = eastern_second_of_day(start_of_second(timestamp));
            parse_bar_at(row, path, line, timestamp, second, columns)
        },
        Err(message) => Err(message),
    }
}

/// The bars of the reliable rows of a file, or the message about the first malformed row.
/// Rows are numbered from the second line on.
pub open spec fn bars_of<N: Number>(
    rows: Seq<Seq<Seq<char>>>,
    path: Seq<char>,
    columns: BarColumns,
) -> Result<Seq<Bar<N>>, Seq<char>>
    decreases rows.len(),
{
    if rows.len() == 0 {
        Ok(Seq::empty())
    } else {
        match bars_of::<N>(rows.drop_last(), path, columns) {
            Err(message) => Err(message),
            Ok(bars) => match bar_of::<N>(rows.last(), path, rows.len() + 1, columns) {
                Err(message) => Err(message),
                Ok(None) => Ok(bars),
                Ok(Some(bar)) => Ok(bars.push(bar)),
            },
        }
    }
}

/// The first malformed row of some is the first of more.
proof fn lemma_bars_error<N: Number>(
    rows: Seq<Seq<Seq<char>>>,
    path: Seq<char>,
    columns: BarColumns,
    count: int,
)
    requires
        0 <= count <= rows.len(),
        bars_of::<N>(rows.take(count), path, columns) is Err,
    ensures
        bars_of::<N>(rows, path, columns) == bars_of::<N>(rows.take(count), path, columns),
    decreases rows.len(),
{
    if count < rows.len() {
        assert(rows.drop_last().take(count) =~= rows.take(count));
        lemma_bars_error::<N>(rows.drop_last(), path, columns, count);
    } else {
        assert(rows.take(count) =~= rows);
    }
}

/// Parse the reliable rows of a file.
fn parse_bars<N: Number>(rows: &Vec<Vec<String>>, path: &str, columns: BarColumns) -> (result:
    Result<Vec<Bar<N>>, String>)
    ensures
        list_model(result) == bars_of::<N>(row_texts(rows@), path@, columns),
{
    let ghost models = row_texts(rows@);
    let mut bars: Vec<Bar<N>> = Vec::new();
    for index in 0..rows.len()
        invariant
            models == row_texts(rows@),
            bars_of::<N>(models.take(index as int), path@, columns) == Ok::<_, Seq<char>>(bars@),
    {
        assert(models.take(index + 1).drop_last() =~= models.take(index as int));
        assert(models[index as int] == texts(rows@[index as int]@));
        match parse_bar::<N>(&rows[index], path, index as u128 + 2, columns) {
            Ok(None) => {},
            Ok(Some(bar)) => {
                bars.push(bar);
            },
            Err(message) => {
                proof {
                    lemma_bars_error::<N>(models, path@, columns, index + 1);
                }
                return Err(message);
            },
        }
    }
    assert(models.take(rows.len() as int) =~= models);
    Ok(bars)
}

// Files

/// The message that a file holds only rows of the unreliable window.
pub open spec fn only_unreliable_text(path: Seq<char>) -> Seq<char> {
    path + " must contain at least one row outside the unreliable early-data window"@
}

/// The message that no file was given.
pub open spec fn no_files_text() -> Seq<char> {
    "at least one data file is required"@
}

/// The trading day that a table holds, which is named after the file that it comes from.
pub open spec fn day_in<N: Number>(
    table: TableModel,
    path: Seq<char>,
    filename: Seq<char>,
) -> Result<DayModel<N>, Seq<char>> {
    match table.headers {
        Err(message) => Err(message),
        Ok(headers) => match (
            column_of(headers, path, "date"@, "a "@),
            column_of(headers, path, "low"@, "a "@),
            column_of(headers, path, "high"@, "a "@),
            column_of(headers, path, "close"@, "a "@),
        ) {
            (Err(message), _, _, _) => Err(message),
            (Ok(_), Err(message), _, _) => Err(message),
            (Ok(_), Ok(_), Err(message), _) => Err(message),
            (Ok(_), Ok(_), Ok(_), Err(message)) => Err(message),
            (Ok(timestamp), Ok(low), Ok(high), Ok(close)) => match collected(table.records) {
                Err(message) => Err(message),
                Ok(rows) => if rows.len() == 0 {
                    Err(path + " must contain at least one data row"@)
                } else {
                    let columns = BarColumns {
                        timestamp: timestamp as usize,
                        low: low as usize,
                        high: high as usize,
                        close: close as usize,
                    };
                    match bars_of::<N>(rows, path, columns) {
                        Err(message) => Err(message),
                        Ok(bars) => if bars.len() == 0 {
                            Err(only_unreliable_text(path))
                        } else {
                            Ok(DayModel { filename, bars })
                        },
                    }
                },
            },
        },
    }
}

/// The trading day that a file holds.
pub open spec fn day_of<N: Number>(file: FileModel) -> Result<DayModel<N>, Seq<char>> {
    day_in(table_of(file.contents), file.path, file_name_of(file.path))
}

/// The model of a parsed day, or the text of its error.
pub open spec fn day_result_model<N>(
    result: Result<Day<N>, String>,
) -> Result<DayModel<N>, Seq<char>> {
    match result {
        Ok(day) => Ok(day@),
        Err(message) => Err(message@),
    }
}

/// Parse one table as one trading day.
pub fn parse_day_table<N: Number>(table: &Table, path: &str, filename: &str) -> (result: Result<
    Day<N>,
    String,
>)
    ensures
        day_result_model(result) == day_in::<N>(table@, path@, filename@),
        result matches Ok(day) ==> day.bars@.len() > 0,
{
    let headers = match &table.headers {
        Ok(headers) => headers,
        Err(message) => {
            return Err(message.clone());
        },
    };
    let timestamp: usize = match column_index(headers, path, "date") {
        Ok(index) => index,
        Err(message) => {
            return Err(message);
        },
    };
    let low: usize = match column_index(headers, path, "low") {
        Ok(index) => index,
        Err(message) => {
            return Err(message);
        },
    };
    let high: usize = match column_index(headers, path, "high") {
        Ok(index) => index,
        Err(message) => {
            return Err(message);
        },
    };
    let close: usize = match column_index(headers, path, "close") {
        Ok(index) => index,
        Err(message) => {
            return Err(message);
        },
    };
    let rows = match collect_records(&table.records) {
        Ok(rows) => rows,
        Err(message) => {
            return Err(message);
        },
    };
    if rows.len() == 0 {
        return Err(joined(path, " must contain at least one data row"));
    }
    let columns = BarColumns { timestamp, low, high, close };
    let bars: Vec<Bar<N>> = match parse_bars(&rows, path, columns) {
        Ok(bars) => bars,
        Err(message) => {
            return Err(message);
        },
    };

    // Require at least one usable bar after applying the early-data filter.
    if bars.len() == 0 {
        return Err(
            joined(
                path,
                " must contain at least one row outside the unreliable early-data window",
            ),
        );
    }
    Ok(Day { filename: filename.to_owned(), bars })
}

/// Parse one file as one trading day.
pub fn parse_day<N: Number>(file: &SourceFile) -> (result: Result<Day<N>, String>)
    ensures
        day_result_model(result) == day_of::<N>(file@),
        result matches Ok(day) ==> day.bars@.len() > 0,
{
    parse_day_table(&read_table(&file.contents), &file.path, &file_name(&file.path))
}

/// The trading days of a list of files, or the message about the first malformed file.
pub open spec fn file_days<N: Number>(
    files: Seq<FileModel>,
) -> Result<Seq<DayModel<N>>, Seq<char>>
    decreases files.len(),
{
    if files.len() == 0 {
        Ok(Seq::empty())
    } else {
        match file_days::<N>(files.drop_last()) {
            Err(message) => Err(message),
            Ok(days) => match day_of::<N>(files.last()) {
                Err(message) => Err(message),
                Ok(day) => Ok(days.push(day)),
            },
        }
    }
}

/// The trading days of a list of at least one file.
pub open spec fn days_of<N: Number>(files: Seq<FileModel>) -> Result<Seq<DayModel<N>>, Seq<char>> {
    if files.len() == 0 {
        Err(no_files_text())
    } else {
        file_days(files)
    }
}

/// The first malformed file of some is the first of more.
proof fn lemma_file_days_error<N: Number>(files: Seq<FileModel>, count: int)
    requires
        0 <= count <= files.len(),
        file_days::<N>(files.take(count)) is Err,
    ensures
        file_days::<N>(files) == file_days::<N>(files.take(count)),
    decreases files.len(),
{
    if count < files.len() {
        assert(files.drop_last().take(count) =~= files.take(count));
        lemma_file_days_error::<N>(files.drop_last(), count);
    } else {
        assert(files.take(count) =~= files);
    }
}

/// The models of parsed days, or the text of their error.
pub open spec fn days_result_model<N>(
    result: Result<Vec<Day<N>>, String>,
) -> Result<Seq<DayModel<N>>, Seq<char>> {
    match result {
        Ok(days) => Ok(day_models(days@)),
        Err(message) => Err(message@),
    }
}

/// Parse the low, high, and closing prices from every input file as one trading day.
pub fn parse_days<N: Number>(files: &Vec<SourceFile>) -> (result: Result<Vec<Day<N>>, String>)
    ensures
        days_result_model(result) == days_of::<N>(file_models(files@)),
        result matches Ok(days) ==> days_have_bars(days@) && days@.len() == files@.len(),
{
    let ghost models = file_models(files@);
    let mut days: Vec<Day<N>> = Vec::new();
    assert(day_models(days@) =~= Seq::empty());
    for index in 0..files.len()
        invariant
            models == file_models(files@),
            days@.len() == index,
            days_have_bars(days@),
            file_days::<N>(models.take(index as int)) == Ok::<_, Seq<char>>(day_models(days@)),
    {
        assert(models.take(index + 1).drop_last() =~= models.take(index as int));
        assert(models[index as int] == files@[index as int]@);
        match parse_day::<N>(&files[index]) {
            Ok(day) => {
                let ghost before = days@;
                days.push(day);
                assert(day_models(days@) =~= day_models(before).push(day@));
            },
            Err(message) => {
                proof {
                    lemma_file_days_error::<N>(models, index + 1);
                }
                return Err(message);
            },
        }
    }
    assert(models.take(files.len() as int) =~= models);
    if days.len() == 0 {
        return Err("at least one data file is required".to_owned());
    }
    Ok(days)
}

// Buy and hold

/// The rows outside the unreliable window, or the message about the first malformed date.
pub open spec fn reliable_rows(
    rows: Seq<Seq<Seq<char>>>,
    path: Seq<char>,
    timestamp_index: int,
) -> Result<Seq<Seq<Seq<char>>>, Seq<char>>
    decreases rows.len(),
{
    if rows.len() == 0 {
        Ok(Seq::empty())
    } else {
        match reliable_rows(rows.drop_last(), path, timestamp_index) {
            Err(message) => Err(message),
            Ok(reliable) => match row_timestamp(
                rows.last(),
                path,
                rows.len() + 1,
                timestamp_index,
            ) {
                Err(message) => Err(message),
                Ok(timestamp) => if unreliable(timestamp) {
                    Ok(reliable)
                } else {
                    Ok(reliable.push(rows.last()))
                },
            },
        }
    }
}

/// The first malformed date of some rows is the first of more.
proof fn lemma_reliable_error(
    rows: Seq<Seq<Seq<char>>>,
    path: Seq<char>,
    timestamp_index: int,
    count: int,
)
    requires
        0 <= count <= rows.len(),
        reliable_rows(rows.take(count), path, timestamp_index) is Err,
    ensures
        reliable_rows(rows, path, timestamp_index) == reliable_rows(
            rows.take(count),
            path,
            timestamp_index,
        ),
    decreases rows.len(),
{
    if count < rows.len() {
        assert(rows.drop_last().take(count) =~= rows.take(count));
        lemma_reliable_error(rows.drop_last(), path, timestamp_index, count);
    } else {
        assert(rows.take(count) =~= rows);
    }
}

/// Find the first and the last row outside the unreliable window.
fn find_reliable_rows(rows: &Vec<Vec<String>>, path: &str, timestamp_index: usize) -> (result:
    Result<Option<(usize, usize)>, String>)
    ensures
        match (result, reliable_rows(row_texts(rows@), path@, timestamp_index as int)) {
            (Err(message), Err(expected)) => message@ == expected,
            (Ok(None), Ok(reliable)) => reliable.len() == 0,
            (Ok(Some((first, last))), Ok(reliable)) => {
                &&& reliable.len() > 0
                &&& first < rows@.len()
                &&& last < rows@.len()
                &&& texts(rows@[first as int]@) == reliable.first()
                &&& texts(rows@[last as int]@) == reliable.last()
            },
            _ => false,
        },
{
    let ghost models = row_texts(rows@);
    let mut found: Option<(usize, usize)> = None;
    for index in 0..rows.len()
        invariant
            models == row_texts(rows@),
            reliable_rows(models.take(index as int), path@, timestamp_index as int) matches Ok(
                reliable,
            ) && match found {
                None => reliable.len() == 0,
                Some((first, last)) => {
                    &&& reliable.len() > 0
                    &&& first < index
                    &&& last < index
                    &&& texts(rows@[first as int]@) == reliable.first()
                    &&& texts(rows@[last as int]@) == reliable.last()
                },
            },
    {
        assert(models.take(index + 1).drop_last() =~= models.take(index as int));
        assert(models[index as int] == texts(rows@[index as int]@));
        match parse_row_timestamp(&rows[index], path, index as u128 + 2, timestamp_index) {
            Ok(timestamp) => {
                if !is_unreliable_early_data(timestamp) {
                    found = match found {
                        None => Some((index, index)),
                        Some((first, _)) => Some((first, index)),
                    };
                }
            },
            Err(message) => {
                proof {
                    lemma_reliable_error(models, path@, timestamp_index as int, index + 1);
                }
                return Err(message);
            },
        }
    }
    assert(models.take(rows.len() as int) =~= models);
    Ok(found)
}

/// The first reliable opening price and the last reliable closing price of a table.
pub open spec fn boundary_in<N: Number>(table: TableModel, path: Seq<char>) -> Result<
    (N, N),
    Seq<char>,
> {
    match table.headers {
        Err(message) => Err(message),
        Ok(headers) => match (
            column_of(headers, path, "date"@, "a "@),
            column_of(headers, path, "open"@, "an "@),
            column_of(headers, path, "close"@, "a "@),
        ) {
            (Err(message), _, _) => Err(message),
            (Ok(_), Err(message), _) => Err(message),
            (Ok(_), Ok(_), Err(message)) => Err(message),
            (Ok(timestamp_index), Ok(open_index), Ok(close_index)) => match collected(
                table.records,
            ) {
                Err(message) => Err(message),
                Ok(rows) => match reliable_rows(rows, path, timestamp_index) {
                    Err(message) => Err(message),
                    Ok(reliable) => if reliable.len() == 0 {
                        Err(only_unreliable_text(path))
                    } else {
                        let open = price_of::<N>(
                            field(reliable.first(), open_index),
                            path,
                            "opening"@,
                        );
                        let close = price_of::<N>(
                            field(reliable.last(), close_index),
                            path,
                            "closing"@,
                        );
                        match (open, close) {
                            (Err(message), _) => Err(message),
                            (Ok(_), Err(message)) => Err(message),
                            (Ok(open), Ok(close)) => Ok((open, close)),
                        }
                    },
                },
            },
        },
    }
}

/// The first reliable opening price and the last reliable closing price of a file.
pub open spec fn boundary_of<N: Number>(file: FileModel) -> Result<(N, N), Seq<char>> {
    boundary_in(table_of(file.contents), file.path)
}

/// Parse the first reliable opening price and the last reliable closing price of a table.
pub fn parse_boundary_table<N: Number>(table: &Table, path: &str) -> (result: Result<
    (N, N),
    String,
>)
    ensures
        result_model(result) == boundary_in::<N>(table@, path@),
{
    let headers = match &table.headers {
        Ok(headers) => headers,
        Err(message) => {
            return Err(message.clone());
        },
    };
    let timestamp_index: usize = match column_index(headers, path, "date") {
        Ok(index) => index,
        Err(message) => {
            return Err(message);
        },
    };
    let open_index: usize = match named_column(headers, path, "open", "an ") {
        Ok(index) => index,
        Err(message) => {
            return Err(message);
        },
    };
    let close_index: usize = match column_index(headers, path, "close") {
        Ok(index) => index,
        Err(message) => {
            return Err(message);
        },
    };
    let rows = match collect_records(&table.records) {
        Ok(rows) => rows,
        Err(message) => {
            return Err(message);
        },
    };
    let (first, last) = match find_reliable_rows(&rows, path, timestamp_index) {
        Ok(Some(found)) => found,
        Ok(None) => {
            return Err(
                joined(
                    path,
                    " must contain at least one row outside the unreliable early-data window",
                ),
            );
        },
        Err(message) => {
            return Err(message);
        },
    };

    // Parse finite positive prices before using the boundary records.
    let open: N = match parse_price(field_at(&rows[first], open_index), path, "opening") {
        Ok(price) => price,
        Err(message) => {
            return Err(message);
        },
    };
    let close: N = match parse_price(field_at(&rows[last], close_index), path, "closing") {
        Ok(price) => price,
        Err(message) => {
            return Err(message);
        },
    };
    Ok((open, close))
}

/// Parse the first reliable opening price and the last reliable closing price of a file.
fn parse_boundary<N: Number>(file: &SourceFile) -> (result: Result<(N, N), String>)
    ensures
        result_model(result) == boundary_of::<N>(file@),
{
    parse_boundary_table(&read_table(&file.contents), &file.path)
}

/// The opening and closing prices of a list of files, or the message about the first malformed
/// file.
pub open spec fn file_boundaries<N: Number>(files: Seq<FileModel>) -> Result<
    Seq<(N, N)>,
    Seq<char>,
>
    decreases files.len(),
{
    if files.len() == 0 {
        Ok(Seq::empty())
    } else {
        match file_boundaries::<N>(files.drop_last()) {
            Err(message) => Err(message),
            Ok(boundaries) => match boundary_of::<N>(files.last()) {
                Err(message) => Err(message),
                Ok(boundary) => Ok(boundaries.push(boundary)),
            },
        }
    }
}

/// The first malformed file of some is the first of more.
proof fn lemma_file_boundaries_error<N: Number>(files: Seq<FileModel>, count: int)
    requires
        0 <= count <= files.len(),
        file_boundaries::<N>(files.take(count)) is Err,
    ensures
        file_boundaries::<N>(files) == file_boundaries::<N>(files.take(count)),
    decreases files.len(),
{
    if count < files.len() {
        assert(files.drop_last().take(count) =~= files.take(count));
        lemma_file_boundaries_error::<N>(files.drop_last(), count);
    } else {
        assert(files.take(count) =~= files);
    }
}

/// The value of shares that are bought at the first opening price of the first file, marked to
/// the last closing price of the last file.
pub open spec fn held_value<N: Number>(files: Seq<FileModel>, initial_cash: N) -> Result<
    N,
    Seq<char>,
> {
    match file_boundaries::<N>(files) {
        Err(message) => Err(message),
        Ok(boundaries) => if boundaries.len() == 0 {
            Err(no_files_text())
        } else {
            Ok(
                initial_cash.over_spec(boundaries.first().0).times_spec(boundaries.last().1),
            )
        },
    }
}

/// Calculate the final value produced by buying first and marking to the final close.
pub fn buy_and_hold<N: Number>(files: &Vec<SourceFile>, initial_cash: N) -> (result: Result<
    N,
    String,
>)
    ensures
        result_model(result) == held_value(file_models(files@), initial_cash),
{
    // Read the first open and final close while requiring data in every input file.
    let ghost models = file_models(files@);
    let mut boundary: Option<(N, N)> = None;
    for index in 0..files.len()
        invariant
            models == file_models(files@),
            file_boundaries::<N>(models.take(index as int)) matches Ok(boundaries)
                && match boundary {
                None => boundaries.len() == 0,
                Some((first_open, last_close)) => {
                    &&& boundaries.len() > 0
                    &&& boundaries.first().0 == first_open
                    &&& boundaries.last().1 == last_close
                },
            },
    {
        assert(models.take(index + 1).drop_last() =~= models.take(index as int));
        assert(models[index as int] == files@[index as int]@);
        match parse_boundary::<N>(&files[index]) {
            Ok((open, close)) => {
                boundary = match boundary {
                    None => Some((open, close)),
                    Some((first_open, _)) => Some((first_open, close)),
                };
            },
            Err(message) => {
                proof {
                    lemma_file_boundaries_error::<N>(models, index + 1);
                }
                return Err(message);
            },
        }
    }
    assert(models.take(files.len() as int) =~= models);
    match boundary {
        None => Err("at least one data file is required".to_owned()),
        Some((first_open, last_close)) => {
            let shares = initial_cash.over(first_open);
            Ok(shares.times(last_close))
        },
    }
}

// Market maker

/// The configuration of a single simulation.
pub open spec fn config_of<N>(args: Args<N>) -> MarketMakerConfig<N> {
    MarketMakerConfig {
        initial_cash: args.initial_cash,
        bar_volume_limit: args.bar_volume_limit,
        buy_ttl: args.buy_ttl,
        sell_ttl: args.sell_ttl,
        discount_percent: args.discount_percent,
        markup_percent: args.markup_percent,
        bet_size: args.bet_size,
    }
}

/// Copy market-maker arguments into one simulation configuration.
pub fn market_maker_config<N: Number>(args: &Args<N>) -> (result: MarketMakerConfig<N>)
    ensures
        result == config_of(*args),
{
    MarketMakerConfig {
        initial_cash: args.initial_cash,
        bar_volume_limit: args.bar_volume_limit,
        buy_ttl: args.buy_ttl,
        sell_ttl: args.sell_ttl,
        discount_percent: args.discount_percent,
        markup_percent: args.markup_percent,
        bet_size: args.bet_size,
    }
}

/// The outcome of the market maker over the days of a list of files.
pub open spec fn market_maker_outcome<N: Number>(files: Seq<FileModel>, args: Args<N>) -> Result<
    ResultModel<N>,
    Seq<char>,
> {
    match days_of::<N>(files) {
        Err(message) => Err(message),
        Ok(days) => simulation(days, config_of(args), true),
    }
}

/// Simulate repeatedly buying below and selling above the current market price.
pub fn market_maker<N: Number>(files: &Vec<SourceFile>, args: &Args<N>) -> (result: Result<
    MarketMakerResult<N>,
    String,
>)
    ensures
        outcome_model(result) == market_maker_outcome(file_models(files@), *args),
{
    // Parse each chronological trading day before changing the simulated portfolio.
    match parse_days(files) {
        Err(message) => Err(message),
        Ok(days) => simulate_market_maker(&days, market_maker_config(args), true),
    }
}

/// The candidates of a search over the days of a list of files.
pub open spec fn grid_candidates<N: Number>(files: Seq<FileModel>, args: Args<N>) -> Result<
    Seq<CandidateModel<N>>,
    Seq<char>,
> {
    match days_of::<N>(files) {
        Err(message) => Err(message),
        Ok(days) => candidates_of(days, args.combinations()),
    }
}

/// Whether winners are those of the candidates of a search.
pub open spec fn are_winners<N: Number>(
    winners: GridResult<N>,
    candidates: Seq<CandidateModel<N>>,
) -> bool {
    &&& highest_return(candidates) == Some(winners.highest_return@)
    &&& match winners.highest_annualized_sharpe {
        Some(winner) => highest_sharpe(candidates) == Some(winner@),
        None => highest_sharpe(candidates) is None,
    }
}

/// Whether a result is what a search with given candidates yields.
pub open spec fn is_search_outcome<N: Number>(
    result: Result<GridResult<N>, String>,
    candidates: Result<Seq<CandidateModel<N>>, Seq<char>>,
) -> bool {
    match candidates {
        Err(message) => result matches Err(reported) && reported@ == message,
        Ok(candidates) => if candidates.len() == 0 {
            result matches Err(reported) && reported@ == no_candidates_text()
        } else {
            result matches Ok(winners) && are_winners(winners, candidates)
        },
    }
}

/// Whether a result is what a search over the days of a list of files yields.
pub open spec fn is_grid_outcome<N: Number>(
    result: Result<GridResult<N>, String>,
    files: Seq<FileModel>,
    args: Args<N>,
) -> bool {
    is_search_outcome(result, grid_candidates(files, args))
}

/// A search that evaluates its configurations group by group, so that its progress can be shown.
pub struct GridSearch<N> {
    /// The trading days, which every candidate is simulated over.
    pub days: Vec<Day<N>>,
    /// All configurations, in search order.
    pub configs: Vec<MarketMakerConfig<N>>,
    /// The number of configurations in a group: those that share both order lifetimes.
    pub group: usize,
    /// The candidates evaluated so far.
    pub candidates: Vec<GridCandidate<N>>,
}

impl<N: Number> GridSearch<N> {
    /// Whether the candidates are those of the first configurations.
    pub open spec fn well_formed(self) -> bool {
        &&& days_have_bars(self.days@)
        &&& self.group > 0
        &&& self.candidates@.len() <= self.configs@.len()
        &&& candidates_of(
            day_models(self.days@),
            self.configs@.take(self.candidates@.len() as int),
        ) == Ok::<_, Seq<char>>(candidate_models(self.candidates@))
    }

    /// The candidates of all configurations.
    pub open spec fn all_candidates(self) -> Result<Seq<CandidateModel<N>>, Seq<char>> {
        candidates_of(day_models(self.days@), self.configs@)
    }

    /// Whether every configuration has been evaluated.
    pub open spec fn complete(self) -> bool {
        self.candidates@.len() == self.configs@.len()
    }

    /// Parse the historical days and build every configuration.
    pub fn new(files: &Vec<SourceFile>, args: &Args<N>) -> (result: Result<Self, String>)
        ensures
            match result {
                Ok(search) => {
                    &&& search.well_formed()
                    &&& search.candidates@.len() == 0
                    &&& days_of::<N>(file_models(files@)) == Ok::<_, Seq<char>>(
                        day_models(search.days@),
                    )
                    &&& search.configs@ == args.combinations()
                    &&& search.configs@.len() > 0 ==> search.group
                        == args.discount_percentages@.len() * (args.markup_percentages@.len()
                        * args.bet_sizes@.len())
                    &&& search.all_candidates() == grid_candidates(file_models(files@), *args)
                },
                Err(message) => days_of::<N>(file_models(files@)) == Err::<
                    Seq<DayModel<N>>,
                    Seq<char>,
                >(message@),
            },
    {
        // Parse the historical days once because every candidate uses identical market data.
        let days = match parse_days(files) {
            Ok(days) => days,
            Err(message) => {
                return Err(message);
            },
        };
        let configs = args.configs();
        let group: usize = if configs.len() == 0 {
            1
        } else {
            proof {
                law_grid_size(*args);
                lemma_group_fits(
                    args.buy_ttls@.len() as int,
                    args.sell_ttls@.len() as int,
                    args.discount_percentages@.len() as int,
                    args.markup_percentages@.len() as int,
                    args.bet_sizes@.len() as int,
                );
            }
            args.discount_percentages.len() * (args.markup_percentages.len()
                * args.bet_sizes.len())
        };
        let search = GridSearch { days, configs, group, candidates: Vec::new() };
        assert(search.configs@.take(0) =~= Seq::empty());
        assert(candidate_models(search.candidates@) =~= Seq::empty());
        Ok(search)
    }

    /// Report how many configurations have been evaluated.
    pub fn progress(&self) -> (line: String)
        requires
            self.well_formed(),
            self.configs@.len() > 0,
        ensures
            line@ == progress_line(self.candidates@.len(), self.configs@.len()),
    {
        report_progress(self.candidates.len(), self.configs.len())
    }

    /// Select the winners of a search that is complete.
    pub fn finish(&self) -> (result: Result<GridResult<N>, String>)
        requires
            self.well_formed(),
            self.complete(),
        ensures
            is_search_outcome(result, self.all_candidates()),
    {
        assert(self.configs@.take(self.configs@.len() as int) =~= self.configs@);
        select_winners(&self.candidates)
    }
}

/// The configurations that share both order lifetimes are no more than all.
proof fn lemma_group_fits(buys: int, sells: int, discounts: int, markups: int, bets: int)
    requires
        buys >= 0,
        sells >= 0,
        discounts >= 0,
        markups >= 0,
        bets >= 0,
        buys * (sells * (discounts * (markups * bets))) > 0,
    ensures
        0 < markups * bets <= discounts * (markups * bets),
        0 < discounts * (markups * bets) <= buys * (sells * (discounts * (markups * bets))),
{
    let inner = markups * bets;
    let group = discounts * inner;
    let half = sells * group;
    assert(inner >= 0) by (nonlinear_arith)
        requires
            markups >= 0,
            bets >= 0,
            inner == markups * bets,
    ;
    assert(group >= 0) by (nonlinear_arith)
        requires
            discounts >= 0,
            inner >= 0,
            group == discounts * inner,
    ;
    assert(half >= 0) by (nonlinear_arith)
        requires
            sells >= 0,
            group >= 0,
            half == sells * group,
    ;
    assert(half > 0 && buys * half >= half) by (nonlinear_arith)
        requires
            half >= 0,
            buys >= 0,
            buys * half > 0,
    ;
    assert(group > 0 && half >= group) by (nonlinear_arith)
        requires
            group >= 0,
            sells >= 0,
            half == sells * group,
            half > 0,
    ;
    assert(inner > 0 && group >= inner) by (nonlinear_arith)
        requires
            inner >= 0,
            discounts >= 0,
            group == discounts * inner,
            group > 0,
    ;
}

impl<N: Number + Send + Sync> GridSearch<N> {
    /// Evaluate the next group. The result tells whether there was one left.
    pub fn advance(&mut self) -> (result: Result<bool, String>)
        requires
            old(self).well_formed(),
        ensures
            final(self).days == old(self).days,
            final(self).configs == old(self).configs,
            final(self).group == old(self).group,
            match result {
                Ok(advanced) => {
                    &&& advanced == !old(self).complete()
                    &&& final(self).well_formed()
                    &&& final(self).candidates@.len() == if old(self).configs@.len()
                        - old(self).candidates@.len() > old(self).group {
                        old(self).candidates@.len() + old(self).group
                    } else {
                        old(self).configs@.len() as int
                    }
                },
                Err(message) => {
                    &&& old(self).all_candidates() == Err::<
                        Seq<CandidateModel<N>>,
                        Seq<char>,
                    >(message@)
                    &&& final(self).candidates == old(self).candidates
                },
            },
    {
        let start: usize = self.candidates.len();
        let count: usize = self.configs.len();
        if start == count {
            return Ok(false);
        }
        let end: usize = if count - start > self.group {
            start + self.group
        } else {
            count
        };
        let mut part: Vec<MarketMakerConfig<N>> = Vec::new();
        for index in start..end
            invariant
                end <= self.configs@.len(),
                start <= end,
                part@ == self.configs@.subrange(start as int, index as int),
        {
            part.push(self.configs[index]);
            assert(part@ =~= self.configs@.subrange(start as int, index + 1));
        }
        let ghost days = day_models(self.days@);
        proof {
            lemma_candidates_join(days, self.configs@.take(start as int), part@);
            assert(self.configs@.take(start as int) + part@ =~= self.configs@.take(end as int));
        }
        match evaluate_candidates(&self.days, &part) {
            Err(message) => {
                proof {
                    lemma_candidates_error(days, self.configs@, end as int);
                }
                Err(message)
            },
            Ok(evaluated) => {
                let mut evaluated = evaluated;
                let ghost earlier = self.candidates@;
                let ghost later = evaluated@;
                self.candidates.append(&mut evaluated);
                proof {
                    assert(candidate_models(self.candidates@) =~= candidate_models(earlier)
                        + candidate_models(later));
                    lemma_candidate_count(days, self.configs@.take(end as int));
                }
                Ok(true)
            },
        }
    }
}

/// Evaluate parameter combinations and return the winners by return and Sharpe ratio.
pub fn market_maker_grid<N: Number + Send + Sync>(files: &Vec<SourceFile>, args: &Args<N>) -> (
    result: Result<GridResult<N>, String>)
    ensures
        is_grid_outcome(result, file_models(files@), *args),
{
    let mut search = match GridSearch::new(files, args) {
        Ok(search) => search,
        Err(message) => {
            return Err(message);
        },
    };
    loop
        invariant
            search.well_formed(),
            search.all_candidates() == grid_candidates(file_models(files@), *args),
        decreases search.configs@.len() - search.candidates@.len(),
    {
        match search.advance() {
            Ok(advanced) => {
                if !advanced {
                    return search.finish();
                }
            },
            Err(message) => {
                return Err(message);
            },
        }
    }
}

// Reports

/// What a backtest writes: the lines of its log and the lines of its report.
pub struct Output {
    pub log: Vec<String>,
    pub report: Vec<String>,
}

/// Whether a result is what a backtest of a list of files yields.
pub open spec fn is_backtest<N: Number>(
    result: Result<Output, String>,
    files: Seq<FileModel>,
    args: Args<N>,
) -> bool {
    match args.strategy {
        Strategy::BuyAndHold => match held_value(files, args.initial_cash) {
            Err(message) => result matches Err(reported) && reported@ == message,
            Ok(value) => {
                &&& result matches Ok(output)
                &&& output.log@.len() == 0
                &&& texts(output.report@) == seq![value.show_spec()]
            },
        },
        Strategy::MarketMaker => match market_maker_outcome(files, args) {
            Err(message) => result matches Err(reported) && reported@ == message,
            Ok(statistics) => {
                &&& result matches Ok(output)
                &&& texts(output.log@) == statistics.log
                &&& texts(output.report@) == result_lines(None, statistics, config_of(args))
            },
        },
        Strategy::MarketMakerGrid => exists|outcome: Result<GridResult<N>, String>|
            {
                &&& #[trigger] is_grid_outcome(outcome, files, args)
                &&& match outcome {
                    Err(message) => result matches Err(reported) && reported@ == message@,
                    Ok(winners) => {
                        &&& result matches Ok(output)
                        &&& output.log@.len() == 0
                        &&& texts(output.report@) == grid_lines(winners)
                    },
                }
            },
    }
}

/// Evaluate the selected strategy over files that are given in chronological order.
pub fn run<N: Number + Send + Sync>(files: &Vec<SourceFile>, args: &Args<N>) -> (result: Result<
    Output,
    String,
>)
    ensures
        is_backtest(result, file_models(files@), *args),
{
    match args.strategy {
        Strategy::BuyAndHold => match buy_and_hold(files, args.initial_cash) {
            Err(message) => Err(message),
            Ok(value) => {
                let mut report: Vec<String> = Vec::new();
                report.push(value.show());
                assert(texts(report@) =~= seq![value.show_spec()]);
                Ok(Output { log: Vec::new(), report })
            },
        },
        Strategy::MarketMaker => match market_maker(files, args) {
            Err(message) => Err(message),
            Ok(result) => {
                let report = report_market_maker_result(
                    None,
                    &result,
                    market_maker_config(args),
                );
                Ok(Output { log: result.log, report })
            },
        },
        Strategy::MarketMakerGrid => {
            let outcome = market_maker_grid(files, args);
            assert(is_grid_outcome(outcome, file_models(files@), *args));
            match outcome {
                Err(message) => Err(message),
                Ok(winners) => {
                    let report = report_grid_result(&winners);
                    Ok(Output { log: Vec::new(), report })
                },
            }
        },
    }
}

// Arguments

/// The finite positive number that an argument holds.
pub open spec fn positive_of<N: Number>(text: Seq<char>) -> Result<N, Seq<char>> {
    match N::parse_spec(text) {
        Err(message) => Err(message),
        Ok(value) => if !value.is_finite_spec() || value.at_most_spec(zero_spec()) {
            Err("value must be finite and greater than zero"@)
        } else {
            Ok(value)
        },
    }
}

/// Parse a finite positive argument.
pub fn parse_positive_number<N: Number>(value: &str) -> (result: Result<N, String>)
    ensures
        result_model(result) == positive_of::<N>(value@),
{
    let value: N = match N::parse(value) {
        Ok(value) => value,
        Err(message) => {
            return Err(message);
        },
    };
    if !value.is_finite() || value.at_most(zero()) {
        return Err("value must be finite and greater than zero".to_owned());
    }
    Ok(value)
}

/// The finite nonnegative number that an argument holds.
pub open spec fn nonnegative_of<N: Number>(text: Seq<char>) -> Result<N, Seq<char>> {
    match N::parse_spec(text) {
        Err(message) => Err(message),
        Ok(value) => if !value.is_finite_spec() || value.below_spec(zero_spec()) {
            Err("value must be finite and nonnegative"@)
        } else {
            Ok(value)
        },
    }
}

/// Parse a finite nonnegative argument.
pub fn parse_nonnegative_number<N: Number>(value: &str) -> (result: Result<N, String>)
    ensures
        result_model(result) == nonnegative_of::<N>(value@),
{
    let value: N = match N::parse(value) {
        Ok(value) => value,
        Err(message) => {
            return Err(message);
        },
    };
    if !value.is_finite() || value.below(zero()) {
        return Err("value must be finite and nonnegative".to_owned());
    }
    Ok(value)
}

/// The discount that an argument holds.
pub open spec fn discount_of<N: Number>(text: Seq<char>) -> Result<N, Seq<char>> {
    match nonnegative_of::<N>(text) {
        Err(message) => Err(message),
        Ok(value) => if hundred_spec::<N>().at_most_spec(value) {
            Err("value must be less than 100"@)
        } else {
            Ok(value)
        },
    }
}

/// Parse a discount percentage that always produces a positive limit price.
pub fn parse_discount_percent<N: Number>(value: &str) -> (result: Result<N, String>)
    ensures
        result_model(result) == discount_of::<N>(value@),
{
    // Reject discounts at or above one hundred percent to keep buy limits valid.
    let value: N = match parse_nonnegative_number(value) {
        Ok(value) => value,
        Err(message) => {
            return Err(message);
        },
    };
    if hundred::<N>().at_most(value) {
        return Err("value must be less than 100".to_owned());
    }
    Ok(value)
}

/// The percentage that an argument holds.
pub open spec fn percent_of<N: Number>(text: Seq<char>) -> Result<N, Seq<char>> {
    match nonnegative_of::<N>(text) {
        Err(message) => Err(message),
        Ok(value) => if hundred_spec::<N>().below_spec(value) {
            Err("value must be at most 100"@)
        } else {
            Ok(value)
        },
    }
}

/// Parse a percentage that may span the entire inclusive range from zero to one hundred.
pub fn parse_percent<N: Number>(value: &str) -> (result: Result<N, String>)
    ensures
        result_model(result) == percent_of::<N>(value@),
{
    let value: N = match parse_nonnegative_number(value) {
        Ok(value) => value,
        Err(message) => {
            return Err(message);
        },
    };
    if hundred::<N>().below(value) {
        return Err("value must be at most 100".to_owned());
    }
    Ok(value)
}

} // verus!
