//! Moments, the Eastern clock, and the daily windows that are bounded by it.
//!
//! A moment is a number of nanoseconds since the Unix epoch.
use time::format_description::well_known::Iso8601;
use time::OffsetDateTime;
use time_tz::timezones::db::america::NEW_YORK;
use time_tz::OffsetDateTimeExt;
use vstd::prelude::*;

verus! {

/// The nanoseconds in a second.
pub const NANOSECONDS_PER_SECOND: i128 = 1_000_000_000;

/// The first Unix second of the calendar, at the start of the year -9999.
pub const EARLIEST_TIMESTAMP: i64 = -377_705_116_800;

/// The last Unix second of the calendar, at the end of the year 9999.
pub const LATEST_TIMESTAMP: i64 = 253_402_300_799;

/// The first Unix second whose Eastern date lies inside the calendar. Local mean time in New
/// York is 17,762 seconds behind universal time.
pub const EARLIEST_EASTERN_TIMESTAMP: i64 = -377_705_099_038;

/// A bound on moments that no calendar date reaches, and that leaves room for durations.
pub const MOMENT_LIMIT: i128 = 1_000_000_000_000_000_000_000;

/// When the daily liquidation window opens, 15:45, in Eastern seconds since midnight.
pub const LIQUIDATION_START_TIME: u32 = 56_700;

/// When the daily liquidation window closes, 20:05, in Eastern seconds since midnight.
pub const LIQUIDATION_END_TIME: u32 = 72_300;

/// When early-morning trade reports stop being reliable, 4:00, in Eastern seconds since
/// midnight.
pub const UNRELIABLE_DATA_START_TIME: u32 = 14_400;

/// When trade reports become reliable again, 4:15, in Eastern seconds since midnight.
pub const UNRELIABLE_DATA_END_TIME: u32 = 15_300;

/// When the regular market session opens, 9:30, in Eastern seconds since midnight.
pub const MARKET_OPEN_TIME: u32 = 34_200;

/// When the regular market session closes, 16:00, in Eastern seconds since midnight.
pub const MARKET_CLOSE_TIME: u32 = 57_600;

/// Whether a moment is one that durations can be added to.
pub open spec fn is_moment(moment: int) -> bool {
    -MOMENT_LIMIT <= moment <= MOMENT_LIMIT
}

/// Whether a moment has an Eastern date inside the calendar.
pub open spec fn has_eastern_date(moment: int) -> bool {
    EARLIEST_EASTERN_TIMESTAMP * NANOSECONDS_PER_SECOND <= moment
        < (LATEST_TIMESTAMP + 1) * NANOSECONDS_PER_SECOND
}

/// The hour, minute, second, and nanosecond that a clock in New York shows at a moment.
pub uninterp spec fn eastern_clock(moment: int) -> (u8, u8, u8, u32);

/// The Eastern seconds since midnight at a moment.
pub open spec fn eastern_second(moment: int) -> int {
    eastern_clock(moment).0 * 3_600 + eastern_clock(moment).1 * 60 + eastern_clock(moment).2
}

/// Whether a second of the day is inside a window that holds its start but not its end.
pub open spec fn inside_window(second: int, start: u32, end: u32) -> bool {
    start <= second < end
}

/// Whether the Eastern clock is inside a window that holds its start but not its end.
pub open spec fn inside(moment: int, start: u32, end: u32) -> bool {
    inside_window(eastern_second(moment), start, end)
}

/// Read the clock in New York with `time_tz::OffsetDateTimeExt::to_timezone` and
/// `time::OffsetDateTime::time`.
///
/// The reading is a function of the moment alone, for the time zone rules are compiled in. Its
/// parts are in the ranges of a clock. The call panics where the Eastern date leaves the
/// calendar, which `requires` rules out.
#[verifier::external_body]
fn read_eastern_clock(moment: i128) -> (result: (u8, u8, u8, u32))
    requires
        has_eastern_date(moment as int),
    ensures
        result == eastern_clock(moment as int),
        result.0 < 24,
        result.1 < 60,
        result.2 < 60,
        result.3 < 1_000_000_000,
{
    OffsetDateTime::from_unix_timestamp_nanos(moment)
        .unwrap()
        .to_timezone(NEW_YORK)
        .time()
        .as_hms_nano()
}

/// The seconds since midnight that a clock shows.
pub fn second_of_day(hour: u8, minute: u8, second: u8) -> (result: u32)
    requires
        hour < 24,
        minute < 60,
        second < 60,
    ensures
        result == hour * 3_600 + minute * 60 + second,
        result < 86_400,
{
    hour as u32 * 3_600 + minute as u32 * 60 + second as u32
}

/// Whether a second of the day is inside a window that holds its start but not its end.
pub fn is_inside_window(second: u32, start: u32, end: u32) -> (result: bool)
    ensures
        result == inside_window(second as int, start, end),
{
    start <= second && second < end
}

/// The Eastern seconds since midnight at a moment.
pub fn eastern_second_of_day(moment: i128) -> (result: u32)
    requires
        has_eastern_date(moment as int),
    ensures
        result == eastern_second(moment as int),
        result < 86_400,
{
    let (hour, minute, second, _) = read_eastern_clock(moment);
    second_of_day(hour, minute, second)
}

/// Whether the Eastern clock is inside a window that holds its start but not its end.
pub fn is_inside(moment: i128, start: u32, end: u32) -> (result: bool)
    requires
        has_eastern_date(moment as int),
    ensures
        result == inside(moment as int, start, end),
{
    is_inside_window(eastern_second_of_day(moment), start, end)
}

/// Whether a moment is inside the daily liquidation window.
pub open spec fn liquidating(moment: int) -> bool {
    inside(moment, LIQUIDATION_START_TIME, LIQUIDATION_END_TIME)
}

/// Determine whether the Eastern clock is inside the daily liquidation window.
pub fn is_liquidating(moment: i128) -> (result: bool)
    requires
        has_eastern_date(moment as int),
    ensures
        result == liquidating(moment as int),
{
    is_inside(moment, LIQUIDATION_START_TIME, LIQUIDATION_END_TIME)
}

/// The moment at which a Unix second begins.
pub open spec fn moment_of(timestamp: i64) -> int {
    timestamp * NANOSECONDS_PER_SECOND
}

/// Whether a Unix second has an Eastern date inside the calendar.
pub open spec fn is_eastern_timestamp(timestamp: i64) -> bool {
    EARLIEST_EASTERN_TIMESTAMP <= timestamp <= LATEST_TIMESTAMP
}

/// The moment at which a Unix second begins.
pub fn start_of_second(timestamp: i64) -> (result: i128)
    ensures
        result == moment_of(timestamp),
        is_eastern_timestamp(timestamp) ==> has_eastern_date(result as int),
{
    timestamp as i128 * NANOSECONDS_PER_SECOND
}

/// What `time::OffsetDateTime::parse` makes of a text in the default ISO 8601 format: a moment,
/// or the message of its error.
pub uninterp spec fn iso8601_moment(text: Seq<char>) -> Result<i128, Seq<char>>;

/// Parse an ISO 8601 datetime with an explicit UTC offset.
///
/// The wrapped call is `time::OffsetDateTime::parse` with `Iso8601::DEFAULT`. Its result is a
/// function of the text alone, and lies inside the calendar, whose years have four digits.
#[verifier::external_body]
pub(crate) fn parse_iso8601(value: &str) -> (result: Result<i128, String>)
    ensures
        match result {
            Ok(moment) => {
                &&& iso8601_moment(value@) == Ok::<i128, Seq<char>>(moment)
                &&& is_moment(moment as int)
            },
            Err(message) => iso8601_moment(value@) == Err::<i128, Seq<char>>(message@),
        },
{
    OffsetDateTime::parse(value, &Iso8601::DEFAULT)
        .map(|datetime| datetime.unix_timestamp_nanos())
        .map_err(|error| error.to_string())
}

/// The message of the error that `time::OffsetDateTime::from_unix_timestamp` gives for a Unix
/// second outside the calendar.
pub uninterp spec fn timestamp_error(timestamp: i64) -> Seq<char>;

/// Check with `time::OffsetDateTime::from_unix_timestamp` that a Unix second is inside the
/// calendar. What the message of a failure says is left unsaid but for its name.
#[verifier::external_body]
pub(crate) fn check_timestamp(timestamp: i64) -> (result: Result<(), String>)
    ensures
        match result {
            Ok(_) => EARLIEST_TIMESTAMP <= timestamp <= LATEST_TIMESTAMP,
            Err(message) => message@ == timestamp_error(timestamp) && !(EARLIEST_TIMESTAMP
                <= timestamp <= LATEST_TIMESTAMP),
        },
{
    match OffsetDateTime::from_unix_timestamp(timestamp) {
        Ok(_) => Ok(()),
        Err(error) => Err(error.to_string()),
    }
}

} // verus!
