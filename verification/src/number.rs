//! Decimal numbers as text: reading and writing.

use vstd::prelude::*;
use vstd::string::*;
use crate::text::chars_of;

verus! {

/// A decimal digit.
pub open spec fn is_digit(c: char) -> bool {
    '0' <= c <= '9'
}

/// `s` is a run of at least one decimal digit.
pub open spec fn is_numeral(s: Seq<char>) -> bool {
    s.len() > 0 && forall|i: int| 0 <= i < s.len() ==> is_digit(#[trigger] s[i])
}

/// The number that a run of decimal digits denotes.
pub open spec fn numeral_value(s: Seq<char>) -> int
    decreases s.len(),
{
    if s.len() == 0 {
        0
    } else {
        10 * numeral_value(s.drop_last()) + (s.last() as int - '0' as int)
    }
}

/// The integer that a text denotes: decimal digits after an optional sign, where
/// a minus sign is only known to signed numbers.
pub open spec fn integer_value(s: Seq<char>, signed: bool) -> Option<int> {
    let plus = s.len() > 0 && s[0] == '+';
    let minus = signed && s.len() > 0 && s[0] == '-';
    let digits = if plus || minus { s.drop_first() } else { s };
    if !is_numeral(digits) {
        None
    } else if minus {
        Some(-numeral_value(digits))
    } else {
        Some(numeral_value(digits))
    }
}

/// The integer that a text denotes, if it lies in `min..=max`.
pub open spec fn integer_in(s: Seq<char>, signed: bool, min: int, max: int) -> Option<int> {
    match integer_value(s, signed) {
        Some(n) if min <= n <= max => Some(n),
        _ => None,
    }
}

/// The signed 32-bit integer that a text denotes.
pub open spec fn i32_value(s: Seq<char>) -> Option<int> {
    integer_in(s, true, i32::MIN as int, i32::MAX as int)
}

/// The signed 8-bit integer that a text denotes.
pub open spec fn i8_value(s: Seq<char>) -> Option<int> {
    integer_in(s, true, i8::MIN as int, i8::MAX as int)
}

/// The unsigned 8-bit integer that a text denotes.
pub open spec fn u8_value(s: Seq<char>) -> Option<int> {
    integer_in(s, false, u8::MIN as int, u8::MAX as int)
}

/// The positive machine word that a text denotes.
pub open spec fn positive_usize_value(s: Seq<char>) -> Option<int> {
    integer_in(s, false, 1, usize::MAX as int)
}

/// More leading digits, a larger number.
proof fn lemma_numeral_prefix(s: Seq<char>, n: int)
    requires
        is_numeral(s),
        0 <= n <= s.len(),
    ensures
        0 <= numeral_value(s.take(n)) <= numeral_value(s),
    decreases s.len(),
{
    if n == s.len() {
        assert(s.take(n) =~= s);
        if n > 1 {
            lemma_numeral_prefix(s.drop_last(), n - 1);
            assert(s.drop_last().take(n - 1) =~= s.drop_last());
        } else {
            assert(numeral_value(s.drop_last()) == 0);
        }
        assert(is_digit(s[s.len() - 1]));
    } else if s.len() > 1 {
        lemma_numeral_prefix(s.drop_last(), n);
        assert(s.drop_last().take(n) =~= s.take(n));
        assert(is_digit(s[s.len() - 1]));
    } else {
        assert(numeral_value(s.take(n)) == 0);
        assert(numeral_value(s.drop_last()) == 0);
        assert(is_digit(s[s.len() - 1]));
    }
}

/// Reads an integer in `min..=max`.
fn parse_integer(s: &str, signed: bool, min: i128, max: i128) -> (r: Option<i128>)
    requires
        -0xffff_ffff_ffff_ffff <= min,
        max <= 0xffff_ffff_ffff_ffff,
    ensures
        integer_in(s@, signed, min as int, max as int) == (match r {
            Some(n) => Some(n as int),
            None => None,
        }),
{
    let v: Vec<char> = chars_of(s);
    let plus: bool = v.len() > 0 && v[0] == '+';
    let minus: bool = signed && v.len() > 0 && v[0] == '-';
    let start: usize = if plus || minus { 1 } else { 0 };
    let ghost digits = if plus || minus { s@.drop_first() } else { s@ };
    if start == v.len() {
        return None;
    }
    let mut magnitude: u128 = 0;
    let mut i: usize = start;
    while i < v.len()
        invariant
            v@ == s@,
            start <= 1,
            start <= i <= v.len(),
            digits == v@.skip(start as int),
            digits == (if plus || minus { s@.drop_first() } else { s@ }),
            plus == (s@.len() > 0 && s@[0] == '+'),
            minus == (signed && s@.len() > 0 && s@[0] == '-'),
            forall|k: int| 0 <= k < i - start ==> is_digit(#[trigger] digits[k]),
            magnitude == numeral_value(digits.take(i - start)),
            magnitude <= 0xffff_ffff_ffff_ffff,
            -0xffff_ffff_ffff_ffff <= min,
            max <= 0xffff_ffff_ffff_ffff,
        decreases v.len() - i,
    {
        let c: char = v[i];
        let ghost k = i - start;
        assert(digits[k] == c);
        if !('0' <= c && c <= '9') {
            return None;
        }
        assert(digits.take(k + 1).drop_last() =~= digits.take(k));
        let next: u128 = 10 * magnitude + (c as u32 - '0' as u32) as u128;
        assert(next == numeral_value(digits.take(k + 1)));
        if next > 0xffff_ffff_ffff_ffff {
            proof {
                if is_numeral(digits) {
                    lemma_numeral_prefix(digits, k + 1);
                }
            }
            return None;
        }
        magnitude = next;
        i = i + 1;
    }
    assert(digits.take(i - start) =~= digits);
    let n: i128 = if minus { -(magnitude as i128) } else { magnitude as i128 };
    if min <= n && n <= max {
        Some(n)
    } else {
        None
    }
}

/// Reads a signed 32-bit integer.
pub fn parse_i32(s: &str) -> (r: Option<i32>)
    ensures
        i32_value(s@) == (match r {
            Some(n) => Some(n as int),
            None => None,
        }),
{
    match parse_integer(s, true, i32::MIN as i128, i32::MAX as i128) {
        Some(n) => Some(n as i32),
        None => None,
    }
}

/// Reads a signed 8-bit integer.
pub fn parse_i8(s: &str) -> (r: Option<i8>)
    ensures
        i8_value(s@) == (match r {
            Some(n) => Some(n as int),
            None => None,
        }),
{
    match parse_integer(s, true, i8::MIN as i128, i8::MAX as i128) {
        Some(n) => Some(n as i8),
        None => None,
    }
}

/// Reads an unsigned 8-bit integer.
pub fn parse_u8(s: &str) -> (r: Option<u8>)
    ensures
        u8_value(s@) == (match r {
            Some(n) => Some(n as int),
            None => None,
        }),
{
    match parse_integer(s, false, 0, u8::MAX as i128) {
        Some(n) => Some(n as u8),
        None => None,
    }
}

/// Reads a machine word that is not zero.
pub fn parse_positive_usize(s: &str) -> (r: Option<usize>)
    ensures
        positive_usize_value(s@) == (match r {
            Some(n) => Some(n as int),
            None => None,
        }),
{
    match parse_integer(s, false, 1, usize::MAX as i128) {
        Some(n) => Some(n as usize),
        None => None,
    }
}

/// The digits that a text starts with, behind an optional plus sign.
pub open spec fn leading_digits(s: Seq<char>) -> Seq<char> {
    let digits = if s.len() > 0 && s[0] == '+' { s.drop_first() } else { s };
    digits.take(digit_run(digits))
}

/// The length of the run of digits at the start of a text.
pub open spec fn digit_run(s: Seq<char>) -> int
    decreases s.len(),
{
    if s.len() == 0 || !is_digit(s[0]) {
        0
    } else {
        1 + digit_run(s.drop_first())
    }
}

/// A run of digits holds digits only, and ends where the text ends or before some
/// other character.
proof fn lemma_digit_run(s: Seq<char>)
    ensures
        0 <= digit_run(s) <= s.len(),
        forall|i: int| 0 <= i < digit_run(s) ==> is_digit(#[trigger] s[i]),
        digit_run(s) < s.len() ==> !is_digit(s[digit_run(s)]),
    decreases s.len(),
{
    if s.len() > 0 && is_digit(s[0]) {
        let t = s.drop_first();
        lemma_digit_run(t);
        assert forall|i: int| 0 <= i < digit_run(s) implies is_digit(#[trigger] s[i]) by {
            if i > 0 {
                assert(is_digit(t[i - 1]));
            }
        }
    }
}

/// Tells whether the digits that a text starts with denote a number that does not
/// fit in a machine word.
pub fn starts_too_large(s: &str) -> (r: bool)
    ensures
        r == (numeral_value(leading_digits(s@)) > usize::MAX),
{
    let v: Vec<char> = chars_of(s);
    let start: usize = if v.len() > 0 && v[0] == '+' { 1 } else { 0 };
    let ghost digits = if start == 1 { s@.drop_first() } else { s@ };
    let ghost run = digit_run(digits);
    assert(digits =~= v@.skip(start as int));
    proof {
        lemma_digit_run(digits);
    }
    let mut value: u128 = 0;
    let mut i: usize = start;
    assert(digits.take(0) =~= Seq::empty());
    while i < v.len() && '0' <= v[i] && v[i] <= '9'
        invariant
            start <= i <= v.len(),
            digits == v@.skip(start as int),
            run == digit_run(digits),
            0 <= run <= digits.len(),
            forall|k: int| 0 <= k < run ==> is_digit(#[trigger] digits[k]),
            run < digits.len() ==> !is_digit(digits[run]),
            i - start <= run,
            leading_digits(s@) == digits.take(run),
            value == numeral_value(digits.take(i - start)),
            value <= usize::MAX,
        decreases v.len() - i,
    {
        let ghost k = i - start;
        assert(digits[k] == v@[i as int]);
        assert(digits.take(k + 1).drop_last() =~= digits.take(k));
        value = 10 * value + (v[i] as u32 - '0' as u32) as u128;
        i = i + 1;
        if value > usize::MAX as u128 {
            proof {
                let whole = digits.take(run);
                assert forall|m: int| 0 <= m < whole.len() implies is_digit(
                    #[trigger] whole[m],
                ) by {
                    assert(is_digit(digits[m]));
                }
                lemma_numeral_prefix(whole, k + 1);
                assert(whole.take(k + 1) =~= digits.take(k + 1));
            }
            return true;
        }
    }
    proof {
        if i - start < run {
            assert(is_digit(digits[i - start]));
        }
    }
    false
}

/// Tells whether a text denotes an unsigned integer of any size.
pub fn is_unsigned_integer(s: &str) -> (r: bool)
    ensures
        r == integer_value(s@, false) is Some,
{
    let v: Vec<char> = chars_of(s);
    let start: usize = if v.len() > 0 && v[0] == '+' { 1 } else { 0 };
    let ghost digits = if start == 1 { s@.drop_first() } else { s@ };
    assert(digits =~= v@.skip(start as int));
    if start == v.len() {
        return false;
    }
    let mut i: usize = start;
    while i < v.len()
        invariant
            start <= i <= v.len(),
            digits == v@.skip(start as int),
            digits == (if s@.len() > 0 && s@[0] == '+' { s@.drop_first() } else { s@ }),
            forall|k: int| 0 <= k < i - start ==> is_digit(#[trigger] digits[k]),
        decreases v.len() - i,
    {
        assert(digits[i - start] == v@[i as int]);
        if !('0' <= v[i] && v[i] <= '9') {
            assert(!is_digit(digits[i - start]));
            return false;
        }
        i = i + 1;
    }
    true
}

/// The decimal digit for `n`.
pub open spec fn digit_char(n: int) -> char {
    ('0' as u32 + n) as char
}

/// A natural number in decimal digits.
pub open spec fn decimal_nat(n: int) -> Seq<char>
    decreases n,
{
    if n < 10 {
        seq![digit_char(n)]
    } else {
        decimal_nat(n / 10).push(digit_char(n % 10))
    }
}

/// An integer in decimal digits, with a minus sign where it is negative.
pub open spec fn decimal(n: int) -> Seq<char> {
    if n < 0 { seq!['-'] + decimal_nat(-n) } else { decimal_nat(n) }
}

/// Appends a natural number in decimal digits.
pub fn push_nat(text: &mut String, n: u64)
    ensures
        final(text)@ == old(text)@ + decimal(n as int),
    decreases n,
{
    if n >= 10 {
        push_nat(text, n / 10);
    }
    let digit: u8 = (n % 10) as u8;
    text.push((48 + digit) as char);
    assert(text@ =~= old(text)@ + decimal_nat(n as int));
}

/// Appends an integer in decimal digits.
pub fn push_int(text: &mut String, n: i64)
    ensures
        final(text)@ == old(text)@ + decimal(n as int),
{
    if n < 0 {
        text.push('-');
        let magnitude: u64 = (-(n as i128)) as u64;
        push_nat(text, magnitude);
        assert(text@ =~= old(text)@ + (seq!['-'] + decimal_nat(-n)));
    } else {
        push_nat(text, n as u64);
    }
}

/// A decimal numeral holds digits only and denotes its number.
pub proof fn lemma_decimal_nat(n: int)
    requires
        n >= 0,
    ensures
        is_numeral(decimal_nat(n)),
        numeral_value(decimal_nat(n)) == n,
    decreases n,
{
    let s = decimal_nat(n);
    if n < 10 {
        assert(numeral_value(s.drop_last()) == 0);
        assert(s.last() == digit_char(n));
    } else {
        lemma_decimal_nat(n / 10);
        assert(s.drop_last() =~= decimal_nat(n / 10));
        assert(s.last() == digit_char(n % 10));
        assert(is_digit(digit_char(n % 10)));
    }
}

/// What is written as a decimal number is read back as the same number.
pub proof fn law_decimal_round_trip(n: int)
    ensures
        integer_value(decimal(n), true) == Some(n),
        n >= 0 ==> integer_value(decimal(n), false) == Some(n),
{
    if n < 0 {
        lemma_decimal_nat(-n);
        assert(decimal(n).drop_first() =~= decimal_nat(-n));
    } else {
        lemma_decimal_nat(n);
        assert(is_digit(decimal(n)[0]));
    }
}

} // verus!
