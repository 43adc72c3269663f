//! Reading a player's choice from what they typed.

use vstd::prelude::*;
use vstd::string::StringExecFns;
use crate::text::{decimal_digits, decimal_string};

verus! {

/// Whitespace as Unicode's `White_Space` property has it: tab, line feed, line
/// tabulation, form feed, carriage return, space, next line, no-break space, ogham
/// space mark, the spaces from en quad to hair space, line and paragraph
/// separators, narrow no-break space, medium mathematical space and ideographic space.
pub open spec fn is_white_space(c: char) -> bool {
    let n = c as u32;
    ||| 0x9 <= n <= 0xD
    ||| n == 0x20
    ||| n == 0x85
    ||| n == 0xA0
    ||| n == 0x1680
    ||| 0x2000 <= n <= 0x200A
    ||| n == 0x2028
    ||| n == 0x2029
    ||| n == 0x202F
    ||| n == 0x205F
    ||| n == 0x3000
}

/// The text without its leading whitespace.
pub open spec fn trimmed_start(s: Seq<char>) -> Seq<char>
    decreases s.len(),
{
    if s.len() > 0 && is_white_space(s[0]) {
        trimmed_start(s.drop_first())
    } else {
        s
    }
}

/// The text without its trailing whitespace.
pub open spec fn trimmed_end(s: Seq<char>) -> Seq<char>
    decreases s.len(),
{
    if s.len() > 0 && is_white_space(s.last()) {
        trimmed_end(s.drop_last())
    } else {
        s
    }
}

/// The text with leading and trailing whitespace removed.
pub open spec fn trimmed(s: Seq<char>) -> Seq<char> {
    trimmed_end(trimmed_start(s))
}

/// Removes leading and trailing whitespace.
///
/// Calls `str::trim`, whose documentation says that it removes leading and trailing
/// whitespace, whitespace being the characters of Unicode's `White_Space` property.
/// The contract states exactly that.
#[verifier::external_body]
fn trim_text(s: &str) -> (r: &str)
    ensures
        r@ == trimmed(s@),
{
    s.trim()
}

/// An ASCII decimal digit.
pub open spec fn is_digit(c: char) -> bool {
    '0' as u32 <= c as u32 && c as u32 <= '9' as u32
}

/// The number that a string of decimal digits writes.
pub open spec fn digits_value(s: Seq<char>) -> nat
    decreases s.len(),
{
    if s.len() == 0 {
        0
    } else {
        digits_value(s.drop_last()) * 10 + (s.last() as u32 - '0' as u32) as nat
    }
}

/// The number written by an optional `+` followed by one or more decimal digits;
/// `None` for any other text.
pub open spec fn unsigned_value(s: Seq<char>) -> Option<nat> {
    let d = if s.len() > 0 && s[0] == '+' {
        s.drop_first()
    } else {
        s
    };
    if d.len() > 0 && forall|i: int| 0 <= i < d.len() ==> is_digit(#[trigger] d[i]) {
        Some(digits_value(d))
    } else {
        None
    }
}

/// Parses an unsigned number.
///
/// Calls `str::parse::<usize>`, whose documentation asks for an optional `+` sign
/// followed by decimal digits only, and refuses the text where the number does not
/// fit in a `usize`. The contract states exactly that.
#[verifier::external_body]
fn parse_number(s: &str) -> (r: Option<usize>)
    ensures
        r == match unsigned_value(s@) {
            Some(v) => if v <= usize::MAX {
                Some(v as usize)
            } else {
                None
            },
            None => None,
        },
{
    s.parse::<usize>().ok()
}

/// What the player is told when they did not type a number from 1 to `upper`.
pub open spec fn range_message(upper: usize) -> Seq<char> {
    "Please enter a number between 1 and "@ + decimal_digits(upper as nat)
}

/// The reply to the text `text`, already trimmed: the number it writes, counted
/// from 0, where that is from 1 to `upper`; otherwise the message asking for such
/// a number.
pub fn int_in_range(text: &str, upper: usize) -> (r: Result<usize, String>)
    ensures
        match unsigned_value(text@) {
            Some(v) if 1 <= v <= upper => r == Ok::<usize, String>((v - 1) as usize),
            _ => r matches Err(m) && m@ == range_message(upper),
        },
{
    match parse_number(text) {
        None => {
            proof {
                if let Some(v) = unsigned_value(text@) {
                    assert(v > usize::MAX);
                }
            }
            Err(String::from_str("Please enter a number between 1 and ").concat(
                decimal_string(upper as u128).as_str(),
            ))
        },
        Some(x) => if 1 <= x && x <= upper {
            Ok(x - 1)
        } else {
            Err(String::from_str("Please enter a number between 1 and ").concat(
                decimal_string(upper as u128).as_str(),
            ))
        },
    }
}

/// Reads the number that the player typed, counted from 0, where it is from 1 to
/// `upper`; otherwise gives the message asking for such a number. Whitespace
/// around the number is ignored.
pub fn read_int_in_range(x: &str, upper: usize) -> (r: Result<usize, String>)
    ensures
        match unsigned_value(trimmed(x@)) {
            Some(v) if 1 <= v <= upper => r == Ok::<usize, String>((v - 1) as usize),
            _ => r matches Err(m) && m@ == range_message(upper),
        },
{
    int_in_range(trim_text(x), upper)
}

} // verus!
