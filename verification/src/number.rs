//! Unsigned decimal numbers written as text.
//!
//! A number that is read is an optional `+` followed by one or more of the
//! digits `0` to `9`, and nothing else: no sign alone, no space, no
//! underscore. A number that is written has no sign and no leading zero.

use vstd::prelude::*;
use vstd::string::StringExecFns;

verus! {

/// `+`
pub const PLUS: u8 = 0x2b;

/// `0`
pub const ZERO: u8 = 0x30;

/// `9`
pub const NINE: u8 = 0x39;

/// Whether `b` is one of the digits `0` to `9`.
pub open spec fn is_digit(b: u8) -> bool {
    ZERO <= b <= NINE
}

/// Whether every byte of `digits` is a digit.
pub open spec fn all_digits(digits: Seq<u8>) -> bool {
    forall|i: int| 0 <= i < digits.len() ==> is_digit(#[trigger] digits[i])
}

/// The number that a run of digits denotes, read from the left.
pub open spec fn digits_value(digits: Seq<u8>) -> nat
    decreases digits.len(),
{
    if digits.len() == 0 {
        0
    } else {
        10 * digits_value(digits.drop_last()) + (digits.last() - ZERO) as nat
    }
}

/// The text without its leading `+`, if it has one.
pub open spec fn unsigned_part(text: Seq<u8>) -> Seq<u8> {
    if text.len() > 0 && text[0] == PLUS {
        text.drop_first()
    } else {
        text
    }
}

/// Whether `text` is a number.
pub open spec fn is_number(text: Seq<u8>) -> bool {
    unsigned_part(text).len() > 0 && all_digits(unsigned_part(text))
}

/// The number that `text` denotes, where it is one.
pub open spec fn number_value(text: Seq<u8>) -> nat {
    digits_value(unsigned_part(text))
}

/// The number that `text` denotes, where it is a number not above `max`.
pub open spec fn number_up_to(text: Seq<u8>, max: nat) -> Option<nat> {
    if is_number(text) && number_value(text) <= max {
        Some(number_value(text))
    } else {
        None
    }
}

/// The text of one decimal digit.
pub open spec fn digit_text(digit: nat) -> Seq<char> {
    if digit == 0 {
        "0"@
    } else if digit == 1 {
        "1"@
    } else if digit == 2 {
        "2"@
    } else if digit == 3 {
        "3"@
    } else if digit == 4 {
        "4"@
    } else if digit == 5 {
        "5"@
    } else if digit == 6 {
        "6"@
    } else if digit == 7 {
        "7"@
    } else if digit == 8 {
        "8"@
    } else {
        "9"@
    }
}

/// The text of a number in decimal digits, without leading zeros.
pub open spec fn decimal_text(n: nat) -> Seq<char>
    decreases n,
{
    if n < 10 {
        digit_text(n)
    } else {
        decimal_text(n / 10) + digit_text(n % 10)
    }
}

/// The text of one decimal digit.
fn digit_str(digit: u8) -> (r: &'static str)
    requires
        digit < 10,
    ensures
        r@ == digit_text(digit as nat),
{
    if digit == 0 {
        "0"
    } else if digit == 1 {
        "1"
    } else if digit == 2 {
        "2"
    } else if digit == 3 {
        "3"
    } else if digit == 4 {
        "4"
    } else if digit == 5 {
        "5"
    } else if digit == 6 {
        "6"
    } else if digit == 7 {
        "7"
    } else if digit == 8 {
        "8"
    } else {
        "9"
    }
}

/// Writes a byte as a number in decimal digits.
pub fn decimal_string(n: u8) -> (r: String)
    ensures
        r@ == decimal_text(n as nat),
{
    let mut text = String::new();
    if n >= 100 {
        text.append(digit_str(n / 100));
    }
    if n >= 10 {
        text.append(digit_str((n / 10) % 10));
    }
    text.append(digit_str(n % 10));
    proof {
        let m = n as nat;
        assert(Seq::<char>::empty() + digit_text(m % 10) =~= digit_text(m % 10));
        if n >= 10 {
            assert(decimal_text(m) == decimal_text(m / 10) + digit_text(m % 10));
            assert(Seq::<char>::empty() + digit_text((m / 10) % 10) =~= digit_text((m / 10) % 10));
            if n >= 100 {
                assert(decimal_text(m / 10) == decimal_text(m / 100) + digit_text((m / 10) % 10));
                assert(Seq::<char>::empty() + digit_text(m / 100) =~= digit_text(m / 100));
            }
        }
    }
    text
}

} // verus!
