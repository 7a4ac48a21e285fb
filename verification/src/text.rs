//! Text: numbers as decimal numerals, and bytes as UTF-8.

use vstd::prelude::*;
use vstd::string::StringExecFns;
use vstd::utf8::{decode_utf8, valid_utf8};

verus! {

/// The text of a digit.
pub open spec fn digit_text(digit: int) -> Seq<char> {
    if digit == 0 {
        "0"@
    } else if digit == 1 {
        "1"@
    } else if digit == 2 {
        "2"@
    } else if digit == 3 {
        "3"@
    } else if digit == 4 {
        "4"@
    } else if digit == 5 {
        "5"@
    } else if digit == 6 {
        "6"@
    } else if digit == 7 {
        "7"@
    } else if digit == 8 {
        "8"@
    } else {
        "9"@
    }
}

/// The decimal numeral of `n`, without leading zeros.
pub open spec fn decimal_text(n: nat) -> Seq<char>
    decreases n,
{
    if n < 10 {
        digit_text(n as int)
    } else {
        decimal_text(n / 10) + digit_text((n % 10) as int)
    }
}

/// The text of a digit.
fn digit_str(digit: u64) -> (text: &'static str)
    requires
        digit < 10,
    ensures
        text@ == digit_text(digit as int),
{
    if digit == 0 {
        "0"
    } else if digit == 1 {
        "1"
    } else if digit == 2 {
        "2"
    } else if digit == 3 {
        "3"
    } else if digit == 4 {
        "4"
    } else if digit == 5 {
        "5"
    } else if digit == 6 {
        "6"
    } else if digit == 7 {
        "7"
    } else if digit == 8 {
        "8"
    } else {
        "9"
    }
}

/// Writes `n` as a decimal numeral.
pub fn decimal_string(n: u64) -> (text: String)
    ensures
        text@ == decimal_text(n as nat),
    decreases n,
{
    if n < 10 {
        digit_str(n).to_owned()
    } else {
        let mut text = decimal_string(n / 10);
        text.append(digit_str(n % 10));
        text
    }
}

/// The decimal numeral of `n`, with a minus sign where `n` is negative.
pub open spec fn signed_decimal_text(n: int) -> Seq<char> {
    if n < 0 {
        "-"@ + decimal_text((-n) as nat)
    } else {
        decimal_text(n as nat)
    }
}

/// Writes `n` as a decimal numeral, with a minus sign where it is negative.
pub fn signed_decimal_string(n: i32) -> (text: String)
    ensures
        text@ == signed_decimal_text(n as int),
{
    let wide: i64 = n as i64;
    if wide < 0 {
        let mut text = "-".to_owned();
        let digits = decimal_string((-wide) as u64);
        text.append(digits.as_str());
        text
    } else {
        decimal_string(wide as u64)
    }
}

/// What `std::str::from_utf8` says is wrong with bytes that are not UTF-8.
pub uninterp spec fn utf8_error_text(bytes: Seq<u8>) -> Seq<char>;

/// Reads `bytes` as UTF-8 text. This is `std::str::from_utf8`, which accepts
/// exactly the well-formed UTF-8 sequences and borrows them as text; the
/// text is copied into a `String`, and an error is given as what it prints.
#[verifier::external_body]
pub(crate) fn utf8_text(bytes: &[u8]) -> (text: Result<String, String>)
    ensures
        text is Ok <==> valid_utf8(bytes@),
        text matches Ok(decoded) ==> decoded@ == decode_utf8(bytes@),
        text matches Err(error) ==> error@ == utf8_error_text(bytes@),
{
    match std::str::from_utf8(bytes) {
        Ok(decoded) => Ok(decoded.to_string()),
        Err(error) => Err(error.to_string()),
    }
}

} // verus!
