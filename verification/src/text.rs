//! Texts and the decimal notation of integers.
use vstd::prelude::*;

verus! {

/// The text of each string in a list.
pub open spec fn texts(strings: Seq<String>) -> Seq<Seq<char>> {
    strings.map_values(|string: String| string@)
}

/// The value of a result, or the text of its error.
pub open spec fn result_model<T>(result: Result<T, String>) -> Result<T, Seq<char>> {
    match result {
        Ok(value) => Ok(value),
        Err(message) => Err(message@),
    }
}

/// The value of a list result, or the text of its error.
pub open spec fn list_model<T>(result: Result<Vec<T>, String>) -> Result<Seq<T>, Seq<char>> {
    match result {
        Ok(values) => Ok(values@),
        Err(message) => Err(message@),
    }
}

/// Whether two strings hold the same text.
pub fn same_text(left: &str, right: &str) -> (result: bool)
    ensures
        result == (left@ == right@),
{
    left.to_owned() == right.to_owned()
}

/// The text of `left` followed by the text of `right`.
pub fn joined(left: &str, right: &str) -> (result: String)
    ensures
        result@ == left@ + right@,
{
    let mut result = left.to_owned();
    result.append(right);
    result
}

/// The texts of three strings, one after another.
pub fn joined3(first: &str, second: &str, third: &str) -> (result: String)
    ensures
        result@ == first@ + second@ + third@,
{
    let mut result = joined(first, second);
    result.append(third);
    result
}

/// The texts of four strings, one after another.
pub fn joined4(first: &str, second: &str, third: &str, fourth: &str) -> (result: String)
    ensures
        result@ == first@ + second@ + third@ + fourth@,
{
    let mut result = joined(first, second);
    result.append(third);
    result.append(fourth);
    result
}

/// The texts of five strings, one after another.
pub fn joined5(first: &str, second: &str, third: &str, fourth: &str, fifth: &str) -> (result:
    String)
    ensures
        result@ == first@ + second@ + third@ + fourth@ + fifth@,
{
    let mut result = joined(first, second);
    result.append(third);
    result.append(fourth);
    result.append(fifth);
    result
}

/// The texts of six strings, one after another.
pub fn joined6(
    first: &str,
    second: &str,
    third: &str,
    fourth: &str,
    fifth: &str,
    sixth: &str,
) -> (result: String)
    ensures
        result@ == first@ + second@ + third@ + fourth@ + fifth@ + sixth@,
{
    let mut result = joined(first, second);
    result.append(third);
    result.append(fourth);
    result.append(fifth);
    result.append(sixth);
    result
}

/// Whether a text begins with another.
pub open spec fn has_prefix(text: Seq<char>, prefix: Seq<char>) -> bool {
    prefix.len() <= text.len() && text.subrange(0, prefix.len() as int) == prefix
}

/// Whether `text` begins with `prefix`.
pub fn starts_with(text: &str, prefix: &str) -> (result: bool)
    ensures
        result == has_prefix(text@, prefix@),
{
    let text_length: usize = text.unicode_len();
    let prefix_length: usize = prefix.unicode_len();
    if prefix_length > text_length {
        return false;
    }
    let head = text.substring_char(0, prefix_length);
    same_text(head, prefix)
}

/// The decimal digit that stands for a number below ten.
pub open spec fn digit(value: nat) -> char {
    ('0' as int + value) as char
}

/// The decimal digits of a natural number, without leading zeros.
pub open spec fn digits(value: nat) -> Seq<char>
    decreases value,
{
    if value < 10 {
        seq![digit(value)]
    } else {
        digits(value / 10).push(digit(value % 10))
    }
}

/// The decimal notation of an integer.
pub open spec fn decimal(value: int) -> Seq<char> {
    if value < 0 {
        seq!['-'] + digits((-value) as nat)
    } else {
        digits(value as nat)
    }
}

fn digit_text(value: u128) -> (result: &'static str)
    requires
        value < 10,
    ensures
        result@ == seq![digit(value as nat)],
{
    proof {
        reveal_strlit("0");
        reveal_strlit("1");
        reveal_strlit("2");
        reveal_strlit("3");
        reveal_strlit("4");
        reveal_strlit("5");
        reveal_strlit("6");
        reveal_strlit("7");
        reveal_strlit("8");
        reveal_strlit("9");
    }
    let result = match value {
        0 => "0",
        1 => "1",
        2 => "2",
        3 => "3",
        4 => "4",
        5 => "5",
        6 => "6",
        7 => "7",
        8 => "8",
        _ => "9",
    };
    assert(result@ =~= seq![digit(value as nat)]);
    result
}

/// The decimal digits of an unsigned number.
pub fn show_unsigned(value: u128) -> (result: String)
    ensures
        result@ == digits(value as nat),
    decreases value,
{
    if value < 10 {
        digit_text(value).to_owned()
    } else {
        let mut result = show_unsigned(value / 10);
        result.append(digit_text(value % 10));
        assert(result@ =~= digits(value as nat));
        result
    }
}

/// The decimal digits of a count.
pub fn show_count(value: usize) -> (result: String)
    ensures
        result@ == digits(value as nat),
{
    show_unsigned(value as u128)
}

/// The decimal notation of a signed number.
pub fn show_signed(value: i64) -> (result: String)
    ensures
        result@ == decimal(value as int),
{
    if value >= 0 {
        show_unsigned(value as u128)
    } else {
        let magnitude: u128 = (-(value as i128)) as u128;
        proof {
            reveal_strlit("-");
        }
        let result = joined("-", &show_unsigned(magnitude));
        assert(result@ =~= decimal(value as int));
        result
    }
}

/// Whether a character is a decimal digit.
pub open spec fn is_digit(character: char) -> bool {
    '0' <= character <= '9'
}

/// The number that a sequence of decimal digits stands for.
pub open spec fn digits_value(text: Seq<char>) -> nat
    decreases text.len(),
{
    if text.len() == 0 {
        0
    } else {
        digits_value(text.drop_last()) * 10 + (text.last() as nat - '0' as nat) as nat
    }
}

/// Whether a text is one or more decimal digits.
pub open spec fn all_digits(text: Seq<char>) -> bool {
    text.len() > 0 && forall|index: int|
        0 <= index < text.len() ==> is_digit(#[trigger] text[index])
}

/// The integer that a text stands for: decimal digits, after an optional sign.
pub open spec fn integer_value(text: Seq<char>) -> Option<int> {
    if all_digits(text) {
        Some(digits_value(text) as int)
    } else if text.len() > 0 && text[0] == '+' && all_digits(text.skip(1)) {
        Some(digits_value(text.skip(1)) as int)
    } else if text.len() > 0 && text[0] == '-' && all_digits(text.skip(1)) {
        Some(-digits_value(text.skip(1)))
    } else {
        None
    }
}

/// The message of the error that `i64::from_str` gives for a text.
pub uninterp spec fn signed_error(text: Seq<char>) -> Seq<char>;

/// The message of the error that `usize::from_str` gives for a text.
pub uninterp spec fn count_error(text: Seq<char>) -> Seq<char>;

/// Read an integer with `i64::from_str`.
///
/// It reads decimal digits after an optional sign, and nothing else, and fails where the number
/// is out of range. What the message of a failure says is left unsaid but for its name.
#[verifier::external_body]
pub(crate) fn read_signed(text: &str) -> (result: Result<i64, String>)
    ensures
        match result {
            Ok(value) => integer_value(text@) == Some(value as int),
            Err(message) => message@ == signed_error(text@) && (integer_value(text@) matches Some(
                value,
            ) ==> !(i64::MIN <= value <= i64::MAX)),
        },
{
    text.parse::<i64>().map_err(|error| error.to_string())
}

/// Read a count with `usize::from_str`.
///
/// It reads decimal digits after an optional plus sign, and nothing else, and fails where the
/// number is out of range. What the message of a failure says is left unsaid but for its name.
#[verifier::external_body]
pub(crate) fn read_count(text: &str) -> (result: Result<usize, String>)
    ensures
        match result {
            Ok(value) => integer_value(text@) == Some(value as int) && text@[0] != '-',
            Err(message) => message@ == count_error(text@) && (integer_value(text@) matches Some(
                value,
            ) ==> text@[0] == '-' || value > usize::MAX),
        },
{
    text.parse::<usize>().map_err(|error| error.to_string())
}

} // verus!
