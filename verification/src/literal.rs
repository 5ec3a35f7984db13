//! Numeric literals: which runs of characters denote a number, and which.
//!
//! A literal is a run of digits, `.` and `-`. With a `.` in it, it is a
//! decimal literal: an optional leading `-`, then digits around exactly one
//! `.`, at least one digit in all. Without, it is an integer literal: an
//! optional leading `-`, then at least one digit, and a value of 32 bits.

use crate::ascii::{DIGIT_NINE, DIGIT_ZERO, DOT, MINUS};
use crate::error::CalculatorError;
use crate::types::{Float, FloatView, Number, NumberView};
use vstd::prelude::*;

verus! {

/// `String::push` appends the character to the end of the string.
pub assume_specification[ String::push ](text: &mut String, ch: char)
    ensures
        final(text)@ == old(text)@.push(ch),
;

pub open spec fn is_digit_byte(c: u8) -> bool {
    DIGIT_ZERO <= c <= DIGIT_NINE
}

/// The characters that the bytes stand for, each byte one character.
pub open spec fn ascii_text(bytes: Seq<u8>) -> Seq<char> {
    Seq::new(bytes.len(), |i: int| bytes[i] as char)
}

pub open spec fn all_digits(bytes: Seq<u8>) -> bool {
    forall|i: int| 0 <= i < bytes.len() ==> is_digit_byte(#[trigger] bytes[i])
}

/// The number that decimal digits denote; the empty run denotes zero.
pub open spec fn digits_value(digits: Seq<u8>) -> int
    decreases digits.len(),
{
    if digits.len() == 0 {
        0
    } else {
        digits_value(digits.drop_last()) * 10 + (digits.last() - DIGIT_ZERO)
    }
}

/// The literal without its sign.
pub open spec fn unsigned_part(literal: Seq<u8>) -> Seq<u8> {
    if literal.len() > 0 && literal[0] == MINUS {
        literal.subrange(1, literal.len() as int)
    } else {
        literal
    }
}

/// The integer that the literal denotes, if it is an integer literal.
pub open spec fn integer_literal(literal: Seq<u8>) -> Option<i32> {
    let digits = unsigned_part(literal);
    let value = if digits.len() < literal.len() {
        -digits_value(digits)
    } else {
        digits_value(digits)
    };
    if digits.len() > 0 && all_digits(digits) && i32::MIN <= value <= i32::MAX {
        Some(value as i32)
    } else {
        None
    }
}

/// How often the byte occurs.
pub open spec fn occurrences(bytes: Seq<u8>, c: u8) -> nat
    decreases bytes.len(),
{
    if bytes.len() == 0 {
        0
    } else {
        occurrences(bytes.drop_last(), c) + if bytes.last() == c {
            1nat
        } else {
            0nat
        }
    }
}

/// Whether the bytes are a decimal literal.
pub open spec fn is_decimal_literal(literal: Seq<u8>) -> bool {
    let body = unsigned_part(literal);
    &&& forall|i: int| 0 <= i < body.len() ==> is_digit_byte(#[trigger] body[i]) || body[i] == DOT
    &&& occurrences(body, DOT) == 1
    &&& body.len() >= 2
}

/// The number that the literal denotes, if it denotes one.
pub open spec fn number_literal(literal: Seq<u8>) -> Option<NumberView> {
    if literal.contains(DOT) {
        if is_decimal_literal(literal) {
            Some(NumberView::Float(FloatView::Literal(ascii_text(literal))))
        } else {
            None
        }
    } else {
        match integer_literal(literal) {
            Some(value) => Some(NumberView::Integer(value)),
            None => None,
        }
    }
}

/// The text of `bytes[start..end]`, each byte taken as one character.
pub fn text_of(bytes: &[u8], start: usize, end: usize) -> (text: String)
    requires
        start <= end <= bytes.len(),
    ensures
        text@ == ascii_text(bytes@.subrange(start as int, end as int)),
{
    let mut text = String::new();
    let mut i: usize = start;
    while i < end
        invariant
            start <= i <= end <= bytes.len(),
            text@ == ascii_text(bytes@.subrange(start as int, i as int)),
        decreases end - i,
    {
        text.push(bytes[i] as char);
        i += 1;
        assert(text@ =~= ascii_text(bytes@.subrange(start as int, i as int)));
    }
    text
}

/// Whether `bytes[start..end]` holds a `.`.
fn has_dot(bytes: &[u8], start: usize, end: usize) -> (found: bool)
    requires
        start <= end <= bytes.len(),
    ensures
        found == bytes@.subrange(start as int, end as int).contains(DOT),
{
    let ghost literal = bytes@.subrange(start as int, end as int);
    let mut i: usize = start;
    while i < end
        invariant
            start <= i <= end <= bytes.len(),
            literal == bytes@.subrange(start as int, end as int),
            forall|k: int| 0 <= k < i - start ==> literal[k] != DOT,
        decreases end - i,
    {
        if bytes[i] == DOT {
            assert(literal[i - start] == DOT);
            return true;
        }
        i += 1;
    }
    false
}

/// Whether `bytes[start..end]` is a decimal literal.
fn check_decimal(bytes: &[u8], start: usize, end: usize) -> (valid: bool)
    requires
        start <= end <= bytes.len(),
    ensures
        valid == is_decimal_literal(bytes@.subrange(start as int, end as int)),
{
    let ghost literal = bytes@.subrange(start as int, end as int);
    let first: usize = if start < end && bytes[start] == MINUS {
        start + 1
    } else {
        start
    };
    let ghost body = unsigned_part(literal);
    assert(body =~= bytes@.subrange(first as int, end as int));
    let mut dots: usize = 0;
    let mut i: usize = first;
    while i < end
        invariant
            start <= first <= i <= end <= bytes.len(),
            body == bytes@.subrange(first as int, end as int),
            body == unsigned_part(bytes@.subrange(start as int, end as int)),
            dots == occurrences(body.subrange(0, i - first), DOT),
            dots <= i - first,
            forall|k: int|
                0 <= k < i - first ==> is_digit_byte(#[trigger] body[k]) || body[k] == DOT,
        decreases end - i,
    {
        let c = bytes[i];
        assert(body[i - first] == c);
        if c == DOT {
            dots += 1;
        } else if !(DIGIT_ZERO <= c && c <= DIGIT_NINE) {
            return false;
        }
        i += 1;
        assert(body.subrange(0, i - first).drop_last() =~= body.subrange(0, i - first - 1));
    }
    assert(body.subrange(0, end - first) =~= body);
    dots == 1 && end - first >= 2
}

/// The integer that `bytes[start..end]` denotes, if it is an integer literal.
fn read_integer(bytes: &[u8], start: usize, end: usize) -> (value: Option<i32>)
    requires
        start <= end <= bytes.len(),
    ensures
        value == integer_literal(bytes@.subrange(start as int, end as int)),
{
    let ghost literal = bytes@.subrange(start as int, end as int);
    let negative = start < end && bytes[start] == MINUS;
    let first: usize = if negative {
        start + 1
    } else {
        start
    };
    let ghost digits = unsigned_part(literal);
    assert(digits =~= bytes@.subrange(first as int, end as int));
    if first == end {
        return None;
    }
    let limit: i64 = 0x8000_0000;
    let mut magnitude: i64 = 0;
    let mut too_large = false;
    let mut i: usize = first;
    while i < end
        invariant
            start <= first <= i <= end <= bytes.len(),
            digits == bytes@.subrange(first as int, end as int),
            digits == unsigned_part(bytes@.subrange(start as int, end as int)),
            limit == 0x8000_0000,
            forall|k: int| 0 <= k < i - first ==> is_digit_byte(#[trigger] digits[k]),
            0 <= magnitude <= limit,
            !too_large ==> magnitude == digits_value(digits.subrange(0, i - first)),
            too_large ==> digits_value(digits.subrange(0, i - first)) > limit,
        decreases end - i,
    {
        let c = bytes[i];
        assert(digits[i - first] == c);
        if !(DIGIT_ZERO <= c && c <= DIGIT_NINE) {
            return None;
        }
        let digit: i64 = (c - DIGIT_ZERO) as i64;
        if !too_large {
            let next: i64 = magnitude * 10 + digit;
            if next > limit {
                too_large = true;
            } else {
                magnitude = next;
            }
        }
        i += 1;
        assert(digits.subrange(0, i - first).drop_last() =~= digits.subrange(0, i - first - 1));
    }
    assert(digits.subrange(0, end - first) =~= digits);
    if too_large {
        None
    } else if negative {
        Some((-magnitude) as i32)
    } else if magnitude < limit {
        Some(magnitude as i32)
    } else {
        None
    }
}

/// The number that `bytes[start..end]` denotes.
pub fn parse_number(bytes: &[u8], start: usize, end: usize) -> (result: Result<
    Number,
    CalculatorError,
>)
    requires
        start <= end <= bytes.len(),
    ensures
        match number_literal(bytes@.subrange(start as int, end as int)) {
            Some(number) => result is Ok && result->Ok_0@ == number,
            None => result == Err::<Number, CalculatorError>(CalculatorError::InvalidNumber),
        },
{
    if has_dot(bytes, start, end) {
        if check_decimal(bytes, start, end) {
            Ok(Number::Float(Float::Literal(text_of(bytes, start, end))))
        } else {
            Err(CalculatorError::InvalidNumber)
        }
    } else {
        match read_integer(bytes, start, end) {
            Some(value) => Ok(Number::Integer(value)),
            None => Err(CalculatorError::InvalidNumber),
        }
    }
}

/// The decimal digits of a natural number, without leading zeros.
pub open spec fn digits_of(n: nat) -> Seq<u8>
    decreases n,
{
    if n < 10 {
        seq![(DIGIT_ZERO + n) as u8]
    } else {
        digits_of(n / 10).push((DIGIT_ZERO + n % 10) as u8)
    }
}

/// The integer written in decimal, with a leading `-` if it is negative.
pub open spec fn decimal(value: int) -> Seq<u8> {
    if value < 0 {
        seq![MINUS] + digits_of((-value) as nat)
    } else {
        digits_of(value as nat)
    }
}

/// The digits of a number are digits, and denote the number.
pub proof fn lemma_digits_of(n: nat)
    ensures
        digits_of(n).len() > 0,
        all_digits(digits_of(n)),
        digits_value(digits_of(n)) == n,
    decreases n,
{
    if n < 10 {
        let digits = digits_of(n);
        assert(digits.drop_last() =~= Seq::<u8>::empty());
        assert(digits_value(digits.drop_last()) == 0);
    } else {
        lemma_digits_of(n / 10);
        let digits = digits_of(n);
        assert(digits.drop_last() =~= digits_of(n / 10));
    }
}

/// An integer of 32 bits, written in decimal, is a literal of itself.
pub proof fn lemma_decimal_is_literal(value: i32)
    ensures
        integer_literal(decimal(value as int)) == Some(value),
{
    let literal = decimal(value as int);
    if value < 0 {
        let n = (-value) as nat;
        lemma_digits_of(n);
        assert(unsigned_part(literal) =~= digits_of(n));
    } else {
        let n = value as nat;
        lemma_digits_of(n);
        assert(is_digit_byte(literal[0]));
    }
}

/// Writes an integer in decimal.
pub fn write_integer(value: i32) -> (text: String)
    ensures
        text@ == ascii_text(decimal(value as int)),
{
    let mut rest: u32 = if value < 0 {
        (-(value as i64)) as u32
    } else {
        value as u32
    };
    let ghost magnitude = rest as nat;
    let mut reversed: Vec<u8> = Vec::new();
    loop
        invariant_except_break
            rest <= magnitude,
            digits_of(magnitude) == digits_of(rest as nat) + reversed@.reverse(),
        ensures
            reversed@.reverse() == digits_of(magnitude),
            reversed.len() > 0,
        decreases rest,
    {
        let ghost before = reversed@;
        if rest < 10 {
            reversed.push(DIGIT_ZERO + rest as u8);
            assert(reversed@.reverse() =~= seq![(DIGIT_ZERO + rest) as u8] + before.reverse());
            break ;
        }
        reversed.push(DIGIT_ZERO + (rest % 10) as u8);
        assert(reversed@.reverse() =~= seq![(DIGIT_ZERO + rest % 10) as u8] + before.reverse());
        assert(digits_of(rest as nat) + before.reverse() =~= digits_of((rest / 10) as nat)
            + reversed@.reverse());
        rest = rest / 10;
    }
    let mut text = String::new();
    if value < 0 {
        text.push(MINUS as char);
    }
    let ghost sign = text@;
    let mut i: usize = reversed.len();
    while i > 0
        invariant
            i <= reversed.len(),
            text@ == sign + ascii_text(reversed@.reverse().subrange(0, reversed.len() - i)),
        decreases i,
    {
        i -= 1;
        text.push(reversed[i] as char);
        assert(text@ =~= sign + ascii_text(
            reversed@.reverse().subrange(0, reversed.len() - i),
        ));
    }
    assert(reversed@.reverse().subrange(0, reversed.len() as int) =~= reversed@.reverse());
    assert(text@ =~= ascii_text(decimal(value as int)));
    text
}

} // verus!
