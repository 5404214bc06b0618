//! Reading the text of an integer literal as a 64-bit signed integer.

use crate::text::{chars_of, is_ascii_digit};
use vstd::prelude::*;

verus! {

/// Why a text is not an integer literal.
#[derive(Clone, Copy, Debug, PartialEq, Eq, Structural)]
pub enum IntegerError {
    /// The text is empty.
    Empty,
    /// The text holds a character that is no decimal digit.
    InvalidDigit,
    /// The number does not fit in 64 bits.
    Overflow,
}

impl IntegerError {
    /// The error in words.
    pub open spec fn text(self) -> Seq<char> {
        match self {
            IntegerError::Empty => "cannot parse integer from empty string"@,
            IntegerError::InvalidDigit => "invalid digit found in string"@,
            IntegerError::Overflow => "number too large to fit in target type"@,
        }
    }

    /// The error in words.
    pub fn message(&self) -> (text: &'static str)
        ensures
            text@ == self.text(),
    {
        match self {
            IntegerError::Empty => "cannot parse integer from empty string",
            IntegerError::InvalidDigit => "invalid digit found in string",
            IntegerError::Overflow => "number too large to fit in target type",
        }
    }
}

/// The number that a decimal digit stands for.
pub open spec fn digit_value(c: char) -> int {
    c as int - '0' as int
}

/// The number that a sequence of decimal digits stands for.
pub open spec fn decimal_value(digits: Seq<char>) -> int
    decreases digits.len(),
{
    if digits.len() == 0 {
        0
    } else {
        10 * decimal_value(digits.drop_last()) + digit_value(digits.last())
    }
}

/// How many decimal digits stand in `text` from index `i` on without a
/// break.
pub open spec fn digits_length(text: Seq<char>, i: nat) -> nat
    decreases text.len() - i,
{
    if i < text.len() && is_ascii_digit(text[i as int]) {
        1 + digits_length(text, i + 1)
    } else {
        0
    }
}

/// The digits that `text` starts with.
pub open spec fn leading_digits(text: Seq<char>) -> Seq<char> {
    text.take(digits_length(text, 0) as int)
}

/// The integer that `text` stands for. It is read digit by digit from the
/// left, so a number that outgrows 64 bits is reported before a character
/// that is no digit is reached.
pub open spec fn integer_of(text: Seq<char>) -> Result<i64, IntegerError> {
    if text.len() == 0 {
        Err(IntegerError::Empty)
    } else if decimal_value(leading_digits(text)) > i64::MAX {
        Err(IntegerError::Overflow)
    } else if leading_digits(text).len() < text.len() {
        Err(IntegerError::InvalidDigit)
    } else {
        Ok(decimal_value(text) as i64)
    }
}

/// The leading digits end within the text.
pub proof fn lemma_digits_length_bound(text: Seq<char>, i: nat)
    requires
        i <= text.len(),
    ensures
        i + digits_length(text, i) <= text.len(),
    decreases text.len() - i,
{
    if i < text.len() && is_ascii_digit(text[i as int]) {
        lemma_digits_length_bound(text, i + 1);
    }
}

/// A stretch of digits that starts the text and is followed by `n` more
/// digits belongs to the leading digits.
pub proof fn lemma_digits_length_from_start(text: Seq<char>, i: nat)
    requires
        i <= text.len(),
        forall|k: int| 0 <= k < i ==> is_ascii_digit(text[k]),
    ensures
        digits_length(text, 0) == i + digits_length(text, i),
    decreases i,
{
    if i > 0 {
        lemma_digits_length_from_start(text, (i - 1) as nat);
    }
}

/// Every one of the leading digits is a digit.
pub proof fn lemma_leading_digits_are_digits(text: Seq<char>, i: nat, k: int)
    requires
        i <= k < i + digits_length(text, i),
    ensures
        k < text.len(),
        is_ascii_digit(text[k]),
    decreases text.len() - i,
{
    if i < text.len() && is_ascii_digit(text[i as int]) {
        if k > i {
            lemma_leading_digits_are_digits(text, i + 1, k);
        }
    }
}

/// Reading more digits never makes the number smaller.
pub proof fn lemma_decimal_value_grows(digits: Seq<char>, n: int)
    requires
        0 <= n <= digits.len(),
        forall|k: int| 0 <= k < digits.len() ==> is_ascii_digit(digits[k]),
    ensures
        0 <= decimal_value(digits.take(n)) <= decimal_value(digits),
    decreases digits.len() - n,
{
    lemma_decimal_value_is_natural(digits.take(n));
    if n < digits.len() {
        lemma_decimal_value_grows(digits, n + 1);
        assert(digits.take(n + 1).drop_last() =~= digits.take(n));
    } else {
        assert(digits.take(n) =~= digits);
    }
}

/// A sequence of digits stands for a number that is not negative.
pub proof fn lemma_decimal_value_is_natural(digits: Seq<char>)
    requires
        forall|k: int| 0 <= k < digits.len() ==> is_ascii_digit(digits[k]),
    ensures
        0 <= decimal_value(digits),
    decreases digits.len(),
{
    if digits.len() > 0 {
        lemma_decimal_value_is_natural(digits.drop_last());
    }
}

/// A text stands for an integer exactly when it is a non-empty sequence of
/// decimal digits whose number fits in 64 bits, and the integer is that
/// number.
pub proof fn lemma_integer_of_digits(text: Seq<char>)
    ensures
        integer_of(text) is Ok <==> (text.len() > 0 && (forall|k: int|
            0 <= k < text.len() ==> is_ascii_digit(text[k])) && decimal_value(text) <= i64::MAX),
        integer_of(text) is Ok ==> integer_of(text)->Ok_0 == decimal_value(text),
{
    lemma_digits_length_bound(text, 0);
    let n = digits_length(text, 0);
    if forall|k: int| 0 <= k < text.len() ==> is_ascii_digit(text[k]) {
        lemma_digits_length_from_start(text, text.len());
        assert(leading_digits(text) =~= text);
        lemma_decimal_value_is_natural(text);
    } else {
        let k = choose|k: int| 0 <= k < text.len() && !is_ascii_digit(text[k]);
        if n == text.len() {
            lemma_leading_digits_are_digits(text, 0, k);
        }
    }
}

/// Reads `text` as a decimal integer without a sign.
pub fn parse_integer(text: &str) -> (r: Result<i64, IntegerError>)
    ensures
        r == integer_of(text@),
{
    let digits = chars_of(text);
    if digits.len() == 0 {
        return Err(IntegerError::Empty);
    }
    let mut value: i64 = 0;
    let mut i: usize = 0;
    while i < digits.len()
        invariant
            digits@ == text@,
            i <= digits.len(),
            forall|k: int| 0 <= k < i ==> is_ascii_digit(digits@[k]),
            0 <= value,
            value == decimal_value(digits@.take(i as int)),
        decreases digits.len() - i,
    {
        let c = digits[i];
        proof {
            lemma_digits_length_from_start(digits@, i as nat);
            lemma_digits_length_bound(digits@, i as nat);
            assert(digits@.take(i + 1).drop_last() =~= digits@.take(i as int));
        }
        if !(c >= '0' && c <= '9') {
            return Err(IntegerError::InvalidDigit);
        }
        let digit: i64 = (c as u32 - '0' as u32) as i64;
        if value > (i64::MAX - digit) / 10 {
            proof {
                let all = leading_digits(digits@);
                assert forall|k: int| 0 <= k < all.len() implies is_ascii_digit(all[k]) by {
                    lemma_leading_digits_are_digits(digits@, 0, k);
                }
                lemma_decimal_value_grows(all, i + 1);
                assert(all.take(i + 1) =~= digits@.take(i + 1));
            }
            return Err(IntegerError::Overflow);
        }
        value = value * 10 + digit;
        i += 1;
    }
    proof {
        lemma_digits_length_from_start(digits@, i as nat);
        assert(digits@.take(i as int) =~= digits@);
        assert(leading_digits(digits@) =~= digits@);
    }
    Ok(value)
}

} // verus!
