//! Requests for historical market data.
use crate::clock::{is_moment, iso8601_moment, parse_iso8601, NANOSECONDS_PER_SECOND};
use crate::number::Number;
use crate::text::{decimal, joined, joined6, result_model, show_signed, texts};
use ibapi::market_data::historical::BarSize as BrokerBarSize;
use vstd::prelude::*;

verus! {

/// The shortest span of a chunk, in seconds.
pub const HISTORICAL_MINIMUM_CHUNK_SECONDS: i64 = 1_800;

/// The shortest span of a request, in seconds.
pub const HISTORICAL_MINIMUM_SECONDS: i64 = 60;

/// The header of the rows that are printed.
pub const HISTORICAL_HEADER: &'static str = "date,open,high,low,close,volume,wap,count";

/// The span of one historical bar.
#[derive(Clone, Copy, Debug, PartialEq, Eq, Structural)]
pub enum BarSize {
    Sec,
    Sec5,
    Sec10,
    Sec15,
    Sec30,
    Min,
    Min2,
    Min3,
    Min4,
    Min5,
    Min10,
    Min15,
    Min20,
    Min30,
    Hour,
    Hour2,
    Hour3,
    Hour4,
    Hour8,
    Day,
    Week,
    Month,
}

/// What a historical request asks for.
pub struct Args {
    /// Beginning of the requested range.
    pub start: i128,
    /// End of the requested range.
    pub end: i128,
    /// Symbol whose historical data should be fetched.
    pub symbol: String,
    /// Interval represented by each historical bar.
    pub interval: BarSize,
}

// Intervals

/// The name by which an interval is chosen.
pub open spec fn bar_size_name(interval: BarSize) -> Seq<char> {
    match interval {
        BarSize::Sec => "SEC"@,
        BarSize::Sec5 => "SEC5"@,
        BarSize::Sec10 => "SEC10"@,
        BarSize::Sec15 => "SEC15"@,
        BarSize::Sec30 => "SEC30"@,
        BarSize::Min => "MIN"@,
        BarSize::Min2 => "MIN2"@,
        BarSize::Min3 => "MIN3"@,
        BarSize::Min4 => "MIN4"@,
        BarSize::Min5 => "MIN5"@,
        BarSize::Min10 => "MIN10"@,
        BarSize::Min15 => "MIN15"@,
        BarSize::Min20 => "MIN20"@,
        BarSize::Min30 => "MIN30"@,
        BarSize::Hour => "HOUR"@,
        BarSize::Hour2 => "HOUR2"@,
        BarSize::Hour3 => "HOUR3"@,
        BarSize::Hour4 => "HOUR4"@,
        BarSize::Hour8 => "HOUR8"@,
        BarSize::Day => "DAY"@,
        BarSize::Week => "WEEK"@,
        BarSize::Month => "MONTH"@,
    }
}

/// The place of an interval in the list of intervals, from the shortest to the longest.
pub open spec fn bar_size_place(interval: BarSize) -> u8 {
    match interval {
        BarSize::Sec => 0,
        BarSize::Sec5 => 1,
        BarSize::Sec10 => 2,
        BarSize::Sec15 => 3,
        BarSize::Sec30 => 4,
        BarSize::Min => 5,
        BarSize::Min2 => 6,
        BarSize::Min3 => 7,
        BarSize::Min4 => 8,
        BarSize::Min5 => 9,
        BarSize::Min10 => 10,
        BarSize::Min15 => 11,
        BarSize::Min20 => 12,
        BarSize::Min30 => 13,
        BarSize::Hour => 14,
        BarSize::Hour2 => 15,
        BarSize::Hour3 => 16,
        BarSize::Hour4 => 17,
        BarSize::Hour8 => 18,
        BarSize::Day => 19,
        BarSize::Week => 20,
        BarSize::Month => 21,
    }
}

/// What `BarSize::from_str` of `ibapi` makes of a text: the place of an interval in its list,
/// or the message of its error.
pub uninterp spec fn bar_size_parsed(text: Seq<char>) -> Result<u8, Seq<char>>;

/// Read an interval with `BarSize::from_str` of `ibapi`, and give its place in the list.
///
/// The list has the intervals of [`BarSize`] in the same order. An interval's own name in upper
/// case reads as that interval. A text that is refused stands in the message. Which other texts
/// read as an interval rests on the upper case of Unicode and is left unsaid.
#[verifier::external_body]
fn read_bar_size(text: &str) -> (result: Result<u8, String>)
    ensures
        result_model(result) == bar_size_parsed(text@),
        result matches Ok(place) ==> place < 22,
        forall|interval: BarSize|
            text@ == #[trigger] bar_size_name(interval) ==> result is Ok && result->Ok_0
                == bar_size_place(interval),
        result matches Err(message) ==> message@ == "Invalid BarSize input '"@ + text@ + "'"@,
{
    match text.parse::<BrokerBarSize>() {
        Ok(interval) => Ok(interval as u8),
        Err(error) => Err(error.to_string()),
    }
}

/// The interval at a place in the list of intervals.
pub fn bar_size_at(place: u8) -> (interval: BarSize)
    requires
        place < 22,
    ensures
        bar_size_place(interval) == place,
{
    match place {
        0 => BarSize::Sec,
        1 => BarSize::Sec5,
        2 => BarSize::Sec10,
        3 => BarSize::Sec15,
        4 => BarSize::Sec30,
        5 => BarSize::Min,
        6 => BarSize::Min2,
        7 => BarSize::Min3,
        8 => BarSize::Min4,
        9 => BarSize::Min5,
        10 => BarSize::Min10,
        11 => BarSize::Min15,
        12 => BarSize::Min20,
        13 => BarSize::Min30,
        14 => BarSize::Hour,
        15 => BarSize::Hour2,
        16 => BarSize::Hour3,
        17 => BarSize::Hour4,
        18 => BarSize::Hour8,
        19 => BarSize::Day,
        20 => BarSize::Week,
        _ => BarSize::Month,
    }
}

/// Parse the interval represented by each historical bar.
pub fn parse_interval(value: &str) -> (result: Result<BarSize, String>)
    ensures
        match result {
            Ok(interval) => bar_size_parsed(value@) == Ok::<u8, Seq<char>>(
                bar_size_place(interval),
            ),
            Err(message) => {
                &&& bar_size_parsed(value@) == Err::<u8, Seq<char>>(message@)
                &&& message@ == "Invalid BarSize input '"@ + value@ + "'"@
            },
        },
        forall|interval: BarSize|
            value@ == #[trigger] bar_size_name(interval) ==> result == Ok::<BarSize, String>(
                interval,
            ),
{
    match read_bar_size(value) {
        Ok(place) => Ok(bar_size_at(place)),
        Err(message) => Err(message),
    }
}

/// Parse an ISO 8601 datetime with an explicit UTC offset.
pub fn parse_datetime(value: &str) -> (result: Result<i128, String>)
    ensures
        result_model(result) == iso8601_moment(value@),
        result matches Ok(moment) ==> is_moment(moment as int),
{
    parse_iso8601(value)
}

/// The span of a bar in seconds. A month is taken to be as long as the longest.
pub open spec fn bar_seconds(interval: BarSize) -> int {
    match interval {
        BarSize::Sec => 1,
        BarSize::Sec5 => 5,
        BarSize::Sec10 => 10,
        BarSize::Sec15 => 15,
        BarSize::Sec30 => 30,
        BarSize::Min => 60,
        BarSize::Min2 => 120,
        BarSize::Min3 => 180,
        BarSize::Min4 => 240,
        BarSize::Min5 => 300,
        BarSize::Min10 => 600,
        BarSize::Min15 => 900,
        BarSize::Min20 => 1200,
        BarSize::Min30 => 1800,
        BarSize::Hour => 3600,
        BarSize::Hour2 => 7200,
        BarSize::Hour3 => 10800,
        BarSize::Hour4 => 14400,
        BarSize::Hour8 => 28800,
        BarSize::Day => 86400,
        BarSize::Week => 604800,
        BarSize::Month => 2678400,
    }
}

/// Convert each bar size to a conservative duration in seconds.
pub fn bar_size_seconds(interval: BarSize) -> (result: i64)
    ensures
        result == bar_seconds(interval),
{
    match interval {
        BarSize::Sec => 1,
        BarSize::Sec5 => 5,
        BarSize::Sec10 => 10,
        BarSize::Sec15 => 15,
        BarSize::Sec30 => 30,
        BarSize::Min => 60,
        BarSize::Min2 => 120,
        BarSize::Min3 => 180,
        BarSize::Min4 => 240,
        BarSize::Min5 => 300,
        BarSize::Min10 => 600,
        BarSize::Min15 => 900,
        BarSize::Min20 => 1_200,
        BarSize::Min30 => 1_800,
        BarSize::Hour => 3_600,
        BarSize::Hour2 => 7_200,
        BarSize::Hour3 => 10_800,
        BarSize::Hour4 => 14_400,
        BarSize::Hour8 => 28_800,
        BarSize::Day => 86_400,
        BarSize::Week => 604_800,
        BarSize::Month => 2_678_400,
    }
}

/// The larger of two integers.
pub open spec fn larger(left: int, right: int) -> int {
    if left < right {
        right
    } else {
        left
    }
}

/// The smaller of two integers.
pub open spec fn smaller(left: int, right: int) -> int {
    if right < left {
        right
    } else {
        left
    }
}

/// Use chunks that can contain at least one bar without shrinking one-second requests.
pub fn historical_chunk_seconds(interval: BarSize) -> (result: i64)
    ensures
        result == larger(HISTORICAL_MINIMUM_CHUNK_SECONDS as int, bar_seconds(interval)),
{
    let bar: i64 = bar_size_seconds(interval);
    if HISTORICAL_MINIMUM_CHUNK_SECONDS < bar {
        bar
    } else {
        HISTORICAL_MINIMUM_CHUNK_SECONDS
    }
}

/// The moment from which a chunk is requested: a second before it begins, or earlier where the
/// request would otherwise be shorter than the minimum or than one bar.
pub open spec fn request_start_of(start: int, end: int, interval: BarSize) -> int {
    let minimum = larger(HISTORICAL_MINIMUM_SECONDS as int, bar_seconds(interval));
    smaller(start - NANOSECONDS_PER_SECOND, end - minimum * NANOSECONDS_PER_SECOND)
}

/// Include the preceding second while requesting enough time for the selected bar size.
pub fn historical_request_start(chunk_start: i128, chunk_end: i128, interval: BarSize) -> (result:
    i128)
    requires
        is_moment(chunk_start as int),
        is_moment(chunk_end as int),
    ensures
        result == request_start_of(chunk_start as int, chunk_end as int, interval),
{
    // Pad short final chunks to the minimum duration or one complete bar.
    let bar: i64 = bar_size_seconds(interval);
    let minimum_seconds: i64 = if HISTORICAL_MINIMUM_SECONDS < bar {
        bar
    } else {
        HISTORICAL_MINIMUM_SECONDS
    };
    let overlapping: i128 = chunk_start - NANOSECONDS_PER_SECOND;
    let padded: i128 = chunk_end - minimum_seconds as i128 * NANOSECONDS_PER_SECOND;
    if padded < overlapping {
        padded
    } else {
        overlapping
    }
}

// Chunks

/// A part of the requested range, and the moment from which it is requested.
#[derive(Clone, Copy, Debug, PartialEq, Eq, Structural)]
pub struct Chunk {
    pub start: i128,
    pub end: i128,
    pub request_start: i128,
}

/// The end of the chunk that begins at a moment.
pub open spec fn chunk_end_of(start: int, end: int, interval: BarSize) -> int {
    smaller(
        start + larger(HISTORICAL_MINIMUM_CHUNK_SECONDS as int, bar_seconds(interval))
            * NANOSECONDS_PER_SECOND,
        end,
    )
}

/// The chunk that begins at a moment.
pub open spec fn chunk_of(start: int, end: int, interval: BarSize) -> Chunk {
    let chunk_end = chunk_end_of(start, end, interval);
    Chunk {
        start: start as i128,
        end: chunk_end as i128,
        request_start: request_start_of(start, chunk_end, interval) as i128,
    }
}

/// The chunks of a range, from the first to the last. Each begins where the one before it ends.
pub open spec fn chunks_of(start: int, end: int, interval: BarSize) -> Seq<Chunk>
    decreases end - start,
{
    if start >= end {
        Seq::empty()
    } else {
        seq![chunk_of(start, end, interval)] + chunks_of(
            chunk_end_of(start, end, interval),
            end,
            interval,
        )
    }
}

/// Reject empty and reversed ranges before submitting requests.
pub fn check_range(start: i128, end: i128) -> (result: Result<(), String>)
    ensures
        match result {
            Ok(_) => start < end,
            Err(message) => {
                &&& end <= start
                &&& message@ == "end datetime must be after start datetime"@
            },
        },
{
    if end <= start {
        return Err("end datetime must be after start datetime".to_owned());
    }
    Ok(())
}

/// The next chunk of a range, of which everything before a moment has been requested.
pub fn next_chunk(position: i128, end: i128, interval: BarSize) -> (result: Option<Chunk>)
    requires
        is_moment(position as int),
        is_moment(end as int),
    ensures
        match result {
            Some(chunk) => {
                &&& position < end
                &&& chunk == chunk_of(position as int, end as int, interval)
                &&& chunks_of(position as int, end as int, interval) == seq![chunk] + chunks_of(
                    chunk.end as int,
                    end as int,
                    interval,
                )
            },
            None => {
                &&& end <= position
                &&& chunks_of(position as int, end as int, interval) == Seq::<Chunk>::empty()
            },
        },
{
    if position >= end {
        return None;
    }
    let chunk_seconds: i64 = historical_chunk_seconds(interval);
    let full_end: i128 = position + chunk_seconds as i128 * NANOSECONDS_PER_SECOND;
    let chunk_end: i128 = if end < full_end {
        end
    } else {
        full_end
    };
    let request_start: i128 = historical_request_start(position, chunk_end, interval);
    Some(Chunk { start: position, end: chunk_end, request_start })
}

// Rows

/// A bar that the broker returned.
pub struct HistoricalBar<N> {
    /// The moment at which the bar starts. A bar of a whole day starts at midnight UTC.
    pub moment: i128,
    /// The text of its timestamp.
    pub date: String,
    pub open: N,
    pub high: N,
    pub low: N,
    pub close: N,
    pub volume: N,
    pub wap: N,
    pub count: i32,
}

/// The row that is printed for a bar.
pub open spec fn bar_row<N: Number>(bar: HistoricalBar<N>) -> Seq<char> {
    bar.date@ + ","@ + bar.open.show_spec() + ","@ + bar.high.show_spec() + ","@ + (
    bar.low.show_spec() + ","@ + bar.close.show_spec() + ","@ + bar.volume.show_spec() + ","@) + (
    bar.wap.show_spec() + ","@ + decimal(bar.count as int))
}

/// Whether a bar starts inside a chunk.
pub open spec fn starts_inside<N>(bar: HistoricalBar<N>, chunk: Chunk) -> bool {
    chunk.start <= bar.moment < chunk.end
}

/// The rows of the bars that start inside a chunk, in their order.
pub open spec fn chunk_rows_of<N: Number>(
    chunk: Chunk,
    bars: Seq<HistoricalBar<N>>,
) -> Seq<Seq<char>>
    decreases bars.len(),
{
    if bars.len() == 0 {
        Seq::empty()
    } else {
        let earlier = chunk_rows_of(chunk, bars.drop_last());
        if starts_inside(bars.last(), chunk) {
            earlier.push(bar_row(bars.last()))
        } else {
            earlier
        }
    }
}

fn show_bar<N: Number>(bar: &HistoricalBar<N>) -> (result: String)
    ensures
        result@ == bar_row(*bar),
{
    let head = joined6(
        &bar.date,
        ",",
        &bar.open.show(),
        ",",
        &bar.high.show(),
        ",",
    );
    let middle = joined6(
        &bar.low.show(),
        ",",
        &bar.close.show(),
        ",",
        &bar.volume.show(),
        ",",
    );
    let mut tail = joined(&bar.wap.show(), ",");
    tail.append(&show_signed(bar.count as i64));
    let mut row = joined(&head, &middle);
    row.append(&tail);
    row
}

/// The rows to print for the bars that a request returned: those that start inside its chunk.
pub fn chunk_rows<N: Number>(chunk: &Chunk, bars: &Vec<HistoricalBar<N>>) -> (rows: Vec<String>)
    ensures
        texts(rows@) == chunk_rows_of(*chunk, bars@),
{
    let mut rows: Vec<String> = Vec::new();
    assert(texts(rows@) =~= Seq::empty());
    for index in 0..bars.len()
        invariant
            texts(rows@) == chunk_rows_of(*chunk, bars@.take(index as int)),
    {
        assert(bars@.take(index + 1).drop_last() =~= bars@.take(index as int));
        let bar = &bars[index];
        let ghost earlier = rows@;
        if bar.moment >= chunk.start && bar.moment < chunk.end {
            rows.push(show_bar(bar));
            assert(texts(rows@) =~= texts(earlier).push(bar_row(*bar)));
        }
    }
    assert(bars@.take(bars.len() as int) =~= bars@);
    rows
}

} // verus!
