use vstd::prelude::*;
use core::num::ParseIntError;
use core::str::FromStr;

verus! {

/// The error that std's integer parsing returns. Nothing is read from it
/// here: it is handed on to the caller as it came.
#[verifier::external_type_specification]
#[verifier::external_body]
pub struct ExParseIntError(ParseIntError);

/// Whether `c` is one of the ten ASCII decimal digits.
pub open spec fn is_digit(c: char) -> bool {
    '0' <= c <= '9'
}

/// The number that a run of decimal digits stands for, the most significant
/// digit first.
pub open spec fn digits_value(digits: Seq<char>) -> int
    decreases digits.len(),
{
    if digits.len() == 0 {
        0
    } else {
        10 * digits_value(digits.drop_last()) + (digits.last() as int - '0' as int)
    }
}

/// Whether `digits` is a non-empty run of decimal digits.
pub open spec fn all_digits(digits: Seq<char>) -> bool {
    digits.len() > 0 && forall|i: int| 0 <= i < digits.len() ==> is_digit(#[trigger] digits[i])
}

/// The integer that `text` denotes as a decimal number: an optional `+` or
/// `-` sign and then at least one digit, with nothing before, between or
/// after. `None` for every other text.
pub open spec fn decimal_value(text: Seq<char>) -> Option<int> {
    if text.len() > 0 && text[0] == '-' {
        if all_digits(text.skip(1)) {
            Some(-digits_value(text.skip(1)))
        } else {
            None
        }
    } else if text.len() > 0 && text[0] == '+' {
        if all_digits(text.skip(1)) {
            Some(digits_value(text.skip(1)))
        } else {
            None
        }
    } else if all_digits(text) {
        Some(digits_value(text))
    } else {
        None
    }
}

/// The `i32` that `text` denotes: its decimal value where it has one that
/// lies in the range of `i32`.
pub open spec fn decimal_i32(text: Seq<char>) -> Option<i32> {
    match decimal_value(text) {
        Some(v) => if i32::MIN <= v <= i32::MAX {
            Some(v as i32)
        } else {
            None
        },
        None => None,
    }
}

/// Calls std's `i32::from_str`. Its documentation says which texts it
/// accepts, an optional sign followed by decimal digits and nothing else,
/// with a value in the range of `i32`, and that it returns that value; every
/// other text is an error. The contract repeats this and is not proved.
#[verifier::external_body]
fn parse_decimal(text: &str) -> (r: Result<i32, ParseIntError>)
    ensures
        r is Ok <==> decimal_i32(text@) is Some,
        r matches Ok(v) ==> decimal_i32(text@) == Some(v),
{
    i32::from_str(text)
}

/// Reads what a user typed as a decimal `i32`. The text must be an optional
/// sign and digits, nothing more, not even blanks; else the parser's error is
/// returned.
pub fn parse_user_input(input: &str) -> (r: Result<i32, ParseIntError>)
    ensures
        r is Ok <==> decimal_i32(input@) is Some,
        r matches Ok(v) ==> decimal_i32(input@) == Some(v),
{
    match parse_decimal(input) {
        Ok(num) => Ok(num),
        Err(e) => Err(e),
    }
}

/// Reads a field of outside data as a decimal `i32`, under the same rules as
/// `parse_user_input`.
pub fn data_parsing(data: &str) -> (r: Result<i32, ParseIntError>)
    ensures
        r is Ok <==> decimal_i32(data@) is Some,
        r matches Ok(v) ==> decimal_i32(data@) == Some(v),
{
    match parse_decimal(data) {
        Ok(num) => Ok(num),
        Err(e) => Err(e),
    }
}

/// Stands for an operation that lost a race: it always fails, with this
/// message.
pub fn concurrent_operation() -> (r: Result<(), &'static str>)
    ensures
        r matches Err(msg) && msg@ == "Concurrency error occurred"@,
{
    Err("Concurrency error occurred")
}

/// Stands for a library call that reported an error code: it always fails,
/// with this message.
pub fn third_party_call() -> (r: Result<(), &'static str>)
    ensures
        r matches Err(msg) && msg@ == "Third party library call failed"@,
{
    Err("Third party library call failed")
}

} // verus!
