//! Decimal arithmetic with six places.
use crate::number::Number;
use crate::text::{all_digits, digits, digits_value, is_digit, joined, joined3, show_unsigned};
use vstd::prelude::*;

verus! {

/// The number of units in one.
pub const SCALE: i128 = 1_000_000;

/// A decimal number with six places.
///
/// Results are rounded down to a whole number of millionths. Those out of range become the
/// largest or the smallest value, which stand for the infinities.
#[derive(Clone, Copy, Debug, PartialEq, Eq, Structural)]
pub struct Fixed {
    /// The number of millionths.
    pub units: i64,
}

/// The value with a number of units, or the infinity beyond the range.
pub open spec fn saturated(units: int) -> Fixed {
    Fixed {
        units: if units < i64::MIN {
            i64::MIN
        } else if units > i64::MAX {
            i64::MAX
        } else {
            units as i64
        },
    }
}

fn saturate(units: i128) -> (result: Fixed)
    ensures
        result == saturated(units as int),
{
    let units: i64 = if units < i64::MIN as i128 {
        i64::MIN
    } else if units > i64::MAX as i128 {
        i64::MAX
    } else {
        units as i64
    };
    Fixed { units }
}

/// The largest integer that is at most a quotient.
fn floor_divide(dividend: i128, divisor: i128) -> (result: i128)
    requires
        divisor > 0,
        -0x4000_0000_0000_0000_0000_0000_0000_0000 <= dividend,
    ensures
        result == dividend as int / divisor as int,
{
    if dividend >= 0 {
        dividend / divisor
    } else {
        let magnitude: i128 = -dividend;
        let quotient: i128 = magnitude / divisor;
        let remainder: i128 = magnitude % divisor;
        proof {
            lemma_floor_of_negative(magnitude as int, divisor as int);
            assert(quotient <= magnitude) by (nonlinear_arith)
                requires
                    quotient == magnitude as int / divisor as int,
                    divisor > 0,
                    magnitude > 0,
            ;
        }
        if remainder == 0 {
            -quotient
        } else {
            -quotient - 1
        }
    }
}

proof fn lemma_floor_of_negative(magnitude: int, divisor: int)
    by (nonlinear_arith)
    requires
        magnitude > 0,
        divisor > 0,
    ensures
        (-magnitude) / divisor == if magnitude % divisor == 0 {
            -(magnitude / divisor)
        } else {
            -(magnitude / divisor) - 1
        },
{
}

// Roots

/// Whether an integer is the square root of another, rounded down.
pub open spec fn is_root(root: int, value: int) -> bool {
    0 <= root && root * root <= value < (root + 1) * (root + 1)
}

/// The square root of an integer, rounded down.
pub open spec fn root_of(value: int) -> int {
    choose|root: int| is_root(root, value)
}

proof fn lemma_root_is_unique(first: int, second: int, value: int)
    requires
        is_root(first, value),
        is_root(second, value),
    ensures
        first == second,
{
    if first < second {
        assert((first + 1) * (first + 1) <= second * second) by (nonlinear_arith)
            requires
                0 <= first < second,
        ;
    } else if second < first {
        assert((second + 1) * (second + 1) <= first * first) by (nonlinear_arith)
            requires
                0 <= second < first,
        ;
    }
}

/// The square root of an integer, rounded down.
fn integer_root(value: i128) -> (result: i128)
    requires
        0 <= value < 10_000_000_000_000_000_000_000_000,
    ensures
        result == root_of(value as int),
        0 <= result < 4_000_000_000_000,
{
    let mut low: i128 = 0;
    let mut high: i128 = 4_000_000_000_000;
    while low + 1 < high
        invariant
            0 <= low < high <= 4_000_000_000_000,
            low * low <= value < high * high,
        decreases high - low,
    {
        let middle: i128 = low + (high - low) / 2;
        assert(0 <= middle * middle <= 4_000_000_000_000 * 4_000_000_000_000) by (nonlinear_arith)
            requires
                0 <= middle <= 4_000_000_000_000,
        ;
        if middle * middle <= value {
            low = middle;
        } else {
            high = middle;
        }
    }
    assert(high == low + 1);
    assert(is_root(low as int, value as int));
    proof {
        lemma_root_is_unique(low as int, root_of(value as int), value as int);
    }
    low
}

// Texts

/// A power of ten up to a million.
pub open spec fn power_of_ten(exponent: nat) -> int {
    if exponent == 0 {
        1
    } else if exponent == 1 {
        10
    } else if exponent == 2 {
        100
    } else if exponent == 3 {
        1_000
    } else if exponent == 4 {
        10_000
    } else if exponent == 5 {
        100_000
    } else {
        1_000_000
    }
}

fn ten_to(exponent: usize) -> (result: u128)
    ensures
        result == power_of_ten(exponent as nat),
        1 <= result <= 1_000_000,
{
    match exponent {
        0 => 1,
        1 => 10,
        2 => 100,
        3 => 1_000,
        4 => 10_000,
        5 => 100_000,
        _ => 1_000_000,
    }
}

/// A number of zeros.
pub open spec fn zeros(count: nat) -> Seq<char> {
    Seq::new(count, |index: int| '0')
}

/// The digits of a number, with leading zeros up to a width.
pub open spec fn padded(value: nat, width: nat) -> Seq<char> {
    if digits(value).len() < width {
        zeros((width - digits(value).len()) as nat) + digits(value)
    } else {
        digits(value)
    }
}

fn show_zeros(count: usize) -> (result: String)
    ensures
        result@ == zeros(count as nat),
{
    let mut result = "".to_owned();
    proof {
        reveal_strlit("");
        reveal_strlit("0");
    }
    assert(result@ =~= zeros(0));
    for index in 0..count
        invariant
            result@ == zeros(index as nat),
    {
        proof {
            reveal_strlit("0");
        }
        result.append("0");
        assert(result@ =~= zeros((index + 1) as nat));
    }
    result
}

fn show_padded(value: u128, width: usize) -> (result: String)
    ensures
        result@ == padded(value as nat, width as nat),
{
    let text = show_unsigned(value);
    let length: usize = text.as_str().unicode_len();
    if length < width {
        joined(&show_zeros(width - length), &text)
    } else {
        text
    }
}

/// The magnitude of a number of units.
pub open spec fn magnitude(units: int) -> nat {
    if units < 0 {
        (-units) as nat
    } else {
        units as nat
    }
}

/// A magnitude in units of a power of ten, rounded half up.
pub open spec fn rounded(units: nat, places: nat) -> nat {
    let unit = power_of_ten((6 - places) as nat);
    ((units + unit / 2) / unit) as nat
}

/// The text of a number of units with some decimal places. Beyond six, the places are zeros.
pub open spec fn fixed_text(units: int, places: nat) -> Seq<char> {
    let kept: nat = if places < 6 {
        places
    } else {
        6
    };
    let scaled = rounded(magnitude(units), kept);
    let whole = digits((scaled as int / power_of_ten(kept)) as nat);
    let fraction = padded((scaled as int % power_of_ten(kept)) as nat, kept);
    let sign = if units < 0 {
        "-"@
    } else {
        ""@
    };
    if places == 0 {
        sign + whole
    } else {
        sign + whole + ("."@ + fraction + zeros((places - kept) as nat))
    }
}

fn show_places(units: i64, places: usize) -> (result: String)
    ensures
        result@ == fixed_text(units as int, places as nat),
{
    let kept: usize = if places < 6 {
        places
    } else {
        6
    };
    let (sign, size): (&str, u128) = if units < 0 {
        ("-", (-(units as i128)) as u128)
    } else {
        ("", units as u128)
    };
    let unit: u128 = ten_to(6 - kept);
    let scaled: u128 = (size + unit / 2) / unit;
    let shift: u128 = ten_to(kept);
    let whole = joined(sign, &show_unsigned(scaled / shift));
    if places == 0 {
        return whole;
    }
    let fraction = joined3(".", &show_padded(scaled % shift, kept), &show_zeros(places - kept));
    joined(&whole, &fraction)
}

/// The number of decimal places that a number of units needs.
pub open spec fn places_of(units: nat) -> nat {
    if units as int % 1_000_000 == 0 {
        0
    } else if units as int % 100_000 == 0 {
        1
    } else if units as int % 10_000 == 0 {
        2
    } else if units as int % 1_000 == 0 {
        3
    } else if units as int % 100 == 0 {
        4
    } else if units as int % 10 == 0 {
        5
    } else {
        6
    }
}

fn needed_places(units: i64) -> (result: usize)
    ensures
        result == places_of(magnitude(units as int)),
{
    let size: u128 = if units < 0 {
        (-(units as i128)) as u128
    } else {
        units as u128
    };
    if size % 1_000_000 == 0 {
        0
    } else if size % 100_000 == 0 {
        1
    } else if size % 10_000 == 0 {
        2
    } else if size % 1_000 == 0 {
        3
    } else if size % 100 == 0 {
        4
    } else if size % 10 == 0 {
        5
    } else {
        6
    }
}

/// The place of the first decimal point, or the length of a text that has none.
pub open spec fn point_of(text: Seq<char>) -> int
    decreases text.len(),
{
    if text.len() == 0 {
        0
    } else if point_of(text.drop_last()) < text.len() - 1 || text.last() == '.' {
        point_of(text.drop_last())
    } else {
        text.len() as int
    }
}

/// The number of units that a text without a sign stands for: up to twelve digits, and after a
/// point up to six more.
pub open spec fn unsigned_units(text: Seq<char>) -> Option<nat> {
    let point = point_of(text);
    let whole = text.take(point);
    if !all_digits(whole) || whole.len() > 12 {
        None
    } else if point == text.len() {
        Some(digits_value(whole) * 1_000_000)
    } else {
        let fraction = text.skip(point + 1);
        if !all_digits(fraction) || fraction.len() > 6 {
            None
        } else {
            Some(
                digits_value(whole) * 1_000_000 + digits_value(fraction) * power_of_ten(
                    (6 - fraction.len()) as nat,
                ) as nat,
            )
        }
    }
}

/// The number that a text stands for.
pub open spec fn parsed(text: Seq<char>) -> Result<Fixed, Seq<char>> {
    let negative = text.len() > 0 && text[0] == '-';
    let body = if negative {
        text.skip(1)
    } else {
        text
    };
    match unsigned_units(body) {
        Some(units) => Ok(saturated(if negative {
            -units
        } else {
            units as int
        })),
        None => Err("invalid decimal number"@),
    }
}

/// A number is below the power of ten with as many zeros as it has digits.
proof fn lemma_digits_bound(text: Seq<char>)
    requires
        forall|index: int| 0 <= index < text.len() ==> is_digit(#[trigger] text[index]),
        text.len() <= 12,
    ensures
        digits_value(text) < digits_limit(text.len()),
    decreases text.len(),
{
    if text.len() > 0 {
        lemma_digits_bound(text.drop_last());
        assert(is_digit(text.last()));
        reveal_with_fuel(digits_limit, 2);
    }
}

/// The number of different texts of a number of digits.
pub open spec fn digits_limit(count: nat) -> nat
    decreases count,
{
    if count == 0 {
        1
    } else {
        10 * digits_limit((count - 1) as nat)
    }
}

proof fn lemma_digits_limit(count: nat)
    requires
        count <= 12,
    ensures
        digits_limit(count) <= 1_000_000_000_000,
{
    reveal_with_fuel(digits_limit, 13);
}

/// Read consecutive digits, unless there are too many or another character stands among them.
fn read_digits(text: &str, start: usize, end: usize, most: usize) -> (result: Option<u128>)
    requires
        start <= end <= text@.len(),
        most <= 12,
    ensures
        match result {
            Some(value) => {
                &&& all_digits(text@.subrange(start as int, end as int))
                &&& end - start <= most
                &&& value == digits_value(text@.subrange(start as int, end as int))
                &&& value < 1_000_000_000_000
            },
            None => !all_digits(text@.subrange(start as int, end as int)) || end - start > most,
        },
{
    let ghost part = text@.subrange(start as int, end as int);
    if start == end || end - start > most {
        return None;
    }
    let mut value: u128 = 0;
    for index in start..end
        invariant
            start < end <= text@.len(),
            end - start <= most <= 12,
            part == text@.subrange(start as int, end as int),
            forall|place: int| 0 <= place < index - start ==> is_digit(#[trigger] part[place]),
            value == digits_value(part.take(index - start)),
            value < 1_000_000_000_000,
    {
        let character = text.get_char(index);
        assert(character == part[index - start]);
        if !('0' <= character && character <= '9') {
            assert(!is_digit(part[index - start]));
            return None;
        }
        let ghost next = part.take(index - start + 1);
        assert(next.drop_last() =~= part.take(index - start));
        assert(next.last() == character);
        value = value * 10 + (character as u32 - '0' as u32) as u128;
        proof {
            assert forall|place: int| 0 <= place < next.len() implies is_digit(
                #[trigger] next[place],
            ) by {
                assert(next[place] == part[place]);
            }
            lemma_digits_bound(next);
            lemma_digits_limit(next.len());
        }
    }
    assert(part.take(end - start) =~= part);
    Some(value)
}

/// Find the first decimal point from a place on.
fn find_point(text: &str, start: usize, length: usize) -> (result: usize)
    requires
        start <= length == text@.len(),
    ensures
        start <= result <= length,
        result - start == point_of(text@.skip(start as int)),
{
    let ghost body = text@.skip(start as int);
    let mut found: Option<usize> = None;
    for index in start..length
        invariant
            length == text@.len(),
            body == text@.skip(start as int),
            match found {
                Some(point) => start <= point < index && point_of(body.take(index - start))
                    == point - start,
                None => point_of(body.take(index - start)) == index - start,
            },
    {
        let ghost next = body.take(index - start + 1);
        assert(next.drop_last() =~= body.take(index - start));
        assert(next.last() == text@[index as int]);
        if found.is_none() && text.get_char(index) == '.' {
            found = Some(index);
        }
    }
    assert(body.take(length - start) =~= body);
    match found {
        Some(point) => point,
        None => length,
    }
}

/// Read a number of units without a sign.
fn read_units(text: &str, start: usize) -> (result: Option<u128>)
    requires
        start <= text@.len(),
    ensures
        match result {
            Some(units) => {
                &&& unsigned_units(text@.skip(start as int)) == Some(units as nat)
                &&& units < 2_000_000_000_000_000_000
            },
            None => unsigned_units(text@.skip(start as int)) is None,
        },
{
    let length: usize = text.unicode_len();
    let ghost body = text@.skip(start as int);
    let point: usize = find_point(text, start, length);
    assert(body.take(point - start) =~= text@.subrange(start as int, point as int));
    let whole: u128 = match read_digits(text, start, point, 12) {
        Some(whole) => whole,
        None => {
            return None;
        },
    };
    if point == length {
        return Some(whole * 1_000_000);
    }
    assert(body.skip(point - start + 1) =~= text@.subrange(point + 1, length as int));
    match read_digits(text, point + 1, length, 6) {
        Some(fraction) => {
            let unit: u128 = ten_to(6 - (length - point - 1));
            assert(fraction * unit <= 1_000_000_000_000 * 1_000_000) by (nonlinear_arith)
                requires
                    fraction < 1_000_000_000_000,
                    1 <= unit <= 1_000_000,
            ;
            Some(whole * 1_000_000 + fraction * unit)
        },
        None => None,
    }
}

/// One.
pub open spec fn fixed_one() -> Fixed {
    Fixed { units: 1_000_000 }
}

impl Number for Fixed {
    open spec fn plus_spec(self, other: Self) -> Self {
        saturated(self.units + other.units)
    }

    open spec fn minus_spec(self, other: Self) -> Self {
        saturated(self.units - other.units)
    }

    open spec fn times_spec(self, other: Self) -> Self {
        saturated(self.units * other.units / 1_000_000)
    }

    /// The quotient. By zero, a number gives the infinity of its sign, and zero gives zero.
    open spec fn over_spec(self, other: Self) -> Self {
        if other.units > 0 {
            saturated(self.units * 1_000_000 / other.units as int)
        } else if other.units < 0 {
            saturated(-self.units * 1_000_000 / -other.units)
        } else if self.units > 0 {
            Fixed { units: i64::MAX }
        } else if self.units < 0 {
            Fixed { units: i64::MIN }
        } else {
            Fixed { units: 0 }
        }
    }

    open spec fn minimum_spec(self, other: Self) -> Self {
        if other.units < self.units {
            other
        } else {
            self
        }
    }

    open spec fn maximum_spec(self, other: Self) -> Self {
        if self.units < other.units {
            other
        } else {
            self
        }
    }

    open spec fn floor_spec(self) -> Self {
        saturated(self.units as int / 1_000_000 * 1_000_000)
    }

    open spec fn ceiling_spec(self) -> Self {
        saturated(-(-self.units / 1_000_000 * 1_000_000))
    }

    /// The square root. That of a negative number is zero.
    open spec fn square_root_spec(self) -> Self {
        if self.units < 0 {
            Fixed { units: 0 }
        } else {
            saturated(root_of(self.units * 1_000_000))
        }
    }

    /// The first two terms of the series for the logarithm in the quotient of one less than the
    /// number and one more than it. That of a nonpositive number is the negative infinity.
    open spec fn natural_log_spec(self) -> Self {
        if self.units <= 0 {
            Fixed { units: i64::MIN }
        } else {
            let ratio = self.minus_spec(fixed_one()).over_spec(self.plus_spec(fixed_one()));
            let cube = ratio.times_spec(ratio).times_spec(ratio);
            Fixed { units: 2_000_000 }.times_spec(
                ratio.plus_spec(cube.over_spec(Fixed { units: 3_000_000 })),
            )
        }
    }

    open spec fn squared_spec(self) -> Self {
        self.times_spec(self)
    }

    open spec fn below_spec(self, other: Self) -> bool {
        self.units < other.units
    }

    open spec fn at_most_spec(self, other: Self) -> bool {
        self.units <= other.units
    }

    open spec fn same_spec(self, other: Self) -> bool {
        self.units == other.units
    }

    open spec fn total_below_spec(self, other: Self) -> bool {
        self.units < other.units
    }

    open spec fn is_finite_spec(self) -> bool {
        i64::MIN < self.units < i64::MAX
    }

    open spec fn infinity_spec() -> Self {
        Fixed { units: i64::MAX }
    }

    open spec fn negative_infinity_spec() -> Self {
        Fixed { units: i64::MIN }
    }

    open spec fn epsilon_spec() -> Self {
        Fixed { units: 1 }
    }

    open spec fn empty_sum_spec() -> Self {
        Fixed { units: 0 }
    }

    open spec fn ratio_spec(numerator: int, denominator: int) -> Self {
        saturated((2 * numerator * 1_000_000 + denominator) / (2 * denominator))
    }

    open spec fn count_spec(value: nat) -> Self {
        saturated(value as int * 1_000_000)
    }

    open spec fn parse_spec(text: Seq<char>) -> Result<Self, Seq<char>> {
        parsed(text)
    }

    open spec fn show_spec(self) -> Seq<char> {
        fixed_text(self.units as int, places_of(magnitude(self.units as int)))
    }

    open spec fn show_fixed_spec(self, places: nat) -> Seq<char> {
        fixed_text(self.units as int, places)
    }

    fn plus(self, other: Self) -> (result: Self) {
        saturate(self.units as i128 + other.units as i128)
    }

    fn minus(self, other: Self) -> (result: Self) {
        saturate(self.units as i128 - other.units as i128)
    }

    fn times(self, other: Self) -> (result: Self) {
        let (left, right): (i128, i128) = (self.units as i128, other.units as i128);
        proof {
            lemma_product_fits(self.units, other.units);
        }
        saturate(floor_divide(left * right, SCALE))
    }

    fn over(self, other: Self) -> (result: Self) {
        let (dividend, divisor): (i128, i128) = (self.units as i128, other.units as i128);
        if divisor > 0 {
            saturate(floor_divide(dividend * SCALE, divisor))
        } else if divisor < 0 {
            saturate(floor_divide(-dividend * SCALE, -divisor))
        } else if dividend > 0 {
            Fixed { units: i64::MAX }
        } else if dividend < 0 {
            Fixed { units: i64::MIN }
        } else {
            Fixed { units: 0 }
        }
    }

    fn minimum(self, other: Self) -> (result: Self) {
        if other.units < self.units {
            other
        } else {
            self
        }
    }

    fn maximum(self, other: Self) -> (result: Self) {
        if self.units < other.units {
            other
        } else {
            self
        }
    }

    fn floor(self) -> (result: Self) {
        saturate(floor_divide(self.units as i128, SCALE) * SCALE)
    }

    fn ceiling(self) -> (result: Self) {
        saturate(-(floor_divide(-(self.units as i128), SCALE) * SCALE))
    }

    fn square_root(self) -> (result: Self) {
        if self.units < 0 {
            Fixed { units: 0 }
        } else {
            saturate(integer_root(self.units as i128 * SCALE))
        }
    }

    fn natural_log(self) -> (result: Self) {
        if self.units <= 0 {
            return Fixed { units: i64::MIN };
        }
        let unit = Fixed { units: 1_000_000 };
        let ratio = self.minus(unit).over(self.plus(unit));
        let cube = ratio.times(ratio).times(ratio);
        Fixed { units: 2_000_000 }.times(ratio.plus(cube.over(Fixed { units: 3_000_000 })))
    }

    fn squared(self) -> (result: Self) {
        self.times(self)
    }

    fn below(self, other: Self) -> (result: bool) {
        self.units < other.units
    }

    fn at_most(self, other: Self) -> (result: bool) {
        self.units <= other.units
    }

    fn same(self, other: Self) -> (result: bool) {
        self.units == other.units
    }

    fn total_below(self, other: Self) -> (result: bool) {
        self.units < other.units
    }

    fn is_finite(self) -> (result: bool) {
        i64::MIN < self.units && self.units < i64::MAX
    }

    fn infinity() -> (result: Self) {
        Fixed { units: i64::MAX }
    }

    fn negative_infinity() -> (result: Self) {
        Fixed { units: i64::MIN }
    }

    fn epsilon() -> (result: Self) {
        Fixed { units: 1 }
    }

    fn empty_sum() -> (result: Self) {
        Fixed { units: 0 }
    }

    fn ratio(numerator: u32, denominator: u32) -> (result: Self) {
        let doubled: i128 = 2 * numerator as i128 * SCALE + denominator as i128;
        saturate(floor_divide(doubled, 2 * denominator as i128))
    }

    fn count(value: usize) -> (result: Self) {
        saturate(value as i128 * SCALE)
    }

    fn parse(text: &str) -> (result: Result<Self, String>) {
        let length: usize = text.unicode_len();
        let negative = length > 0 && text.get_char(0) == '-';
        let start: usize = if negative {
            1
        } else {
            0
        };
        assert(text@.skip(0) =~= text@);
        match read_units(text, start) {
            Some(units) => Ok(
                saturate(
                    if negative {
                        -(units as i128)
                    } else {
                        units as i128
                    },
                ),
            ),
            None => Err("invalid decimal number".to_owned()),
        }
    }

    fn show(self) -> (result: String) {
        show_places(self.units, needed_places(self.units))
    }

    fn show_fixed(self, places: usize) -> (result: String) {
        show_places(self.units, places)
    }
}

proof fn lemma_product_fits(left: i64, right: i64)
    ensures
        -0x4000_0000_0000_0000_0000_0000_0000_0000 <= left * right
            <= 0x4000_0000_0000_0000_0000_0000_0000_0000,
{
    assert(-0x4000_0000_0000_0000_0000_0000_0000_0000 <= left * right
        <= 0x4000_0000_0000_0000_0000_0000_0000_0000) by (nonlinear_arith)
        requires
            -0x8000_0000_0000_0000 <= left <= 0x7fff_ffff_ffff_ffff,
            -0x8000_0000_0000_0000 <= right <= 0x7fff_ffff_ffff_ffff,
    ;
}

} // verus!
