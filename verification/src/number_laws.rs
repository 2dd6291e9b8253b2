//! What decimal numbers mean, digit by digit, and how they are told apart from what
//! follows them.

use vstd::prelude::*;
use crate::number::{
    decimal, decimal_nat, digit_char, digit_run, i32_value, i8_value, integer_value, is_digit,
    is_numeral, law_decimal_round_trip, leading_digits, lemma_decimal_nat, numeral_value,
    positive_usize_value, u8_value,
};

verus! {

/// Digits are the ten ASCII digits.
pub proof fn law_digits(c: char)
    ensures
        is_digit(c) <==> 48 <= c as int && c as int <= 57,
{
}

/// One more digit makes a number ten times as large and adds the digit; no digits
/// make zero.
pub proof fn law_one_more_digit(digits: Seq<char>, n: int)
    requires
        0 <= n < 10,
    ensures
        numeral_value(digits.push((48 + n) as char)) == 10 * numeral_value(digits) + n,
        numeral_value(Seq::empty()) == 0,
{
    assert(digits.push((48 + n) as char).drop_last() =~= digits);
}

/// Digits denote their number, with a plus sign too, and with a minus sign its
/// opposite where there are signs. Nothing else denotes an integer.
pub proof fn law_integer_texts(digits: Seq<char>, s: Seq<char>, signed: bool)
    requires
        digits.len() > 0,
        forall|i: int| 0 <= i < digits.len() ==> 48 <= #[trigger] digits[i] as int && digits[i] as int
            <= 57,
    ensures
        integer_value(digits, signed) == Some(numeral_value(digits)),
        integer_value(seq!['+'] + digits, signed) == Some(numeral_value(digits)),
        integer_value(seq!['-'] + digits, true) == Some(-numeral_value(digits)),
        integer_value(seq!['-'] + digits, false) is None,
        integer_value(s, signed) is Some ==> s.len() > 0 && forall|i: int|
            0 < i < s.len() ==> 48 <= #[trigger] s[i] as int && s[i] as int <= 57,
        integer_value(s, signed) is Some ==> (48 <= s[0] as int && s[0] as int <= 57) || ((s[0]
            == '+' || (signed && s[0] == '-')) && s.len() > 1),
{
    assert(forall|i: int| 0 <= i < digits.len() ==> is_digit(#[trigger] digits[i]));
    assert(is_digit(digits[0]));
    let (plus, minus) = (seq!['+'] + digits, seq!['-'] + digits);
    assert(plus.drop_first() =~= digits);
    assert(minus.drop_first() =~= digits);
    assert(!is_digit(minus[0]));
    if integer_value(s, signed) is Some {
        let sign = s.len() > 0 && (s[0] == '+' || (signed && s[0] == '-'));
        let rest = if sign { s.drop_first() } else { s };
        assert(is_numeral(rest));
        assert(s.len() > 0);
        assert forall|i: int| 0 < i < s.len() implies 48 <= #[trigger] s[i] as int && s[i] as int
            <= 57 by {
            assert(is_digit(rest[if sign { i - 1 } else { i }]));
        }
        assert(is_digit(rest[0]));
    }
}

/// A text denotes a number of a machine type where it denotes an integer in the
/// range of that type.
pub proof fn law_machine_numbers(s: Seq<char>, n: int)
    ensures
        i32_value(s) == Some(n) <==> integer_value(s, true) == Some(n) && -2147483648 <= n
            <= 2147483647,
        i8_value(s) == Some(n) <==> integer_value(s, true) == Some(n) && -128 <= n <= 127,
        u8_value(s) == Some(n) <==> integer_value(s, false) == Some(n) && 0 <= n <= 255,
        positive_usize_value(s) == Some(n) <==> integer_value(s, false) == Some(n) && 1 <= n
            <= usize::MAX,
{
}

/// A number is written with its last digit last, and with no leading zeros.
pub proof fn law_written_digits(n: int, d: int)
    requires
        n >= 0,
        0 <= d < 10,
    ensures
        decimal(10 * n + d) == (if n == 0 {
            seq![(48 + d) as char]
        } else {
            decimal(n).push((48 + d) as char)
        }),
        n > 0 ==> decimal(-n) == seq!['-'] + decimal(n),
{
    let m = 10 * n + d;
    assert(m / 10 == n && m % 10 == d);
    assert(digit_char(d) == (48 + d) as char);
}

/// A run of digits ends where something else follows.
proof fn lemma_digit_run_ends(digits: Seq<char>, rest: Seq<char>)
    requires
        forall|i: int| 0 <= i < digits.len() ==> is_digit(#[trigger] digits[i]),
        rest.len() == 0 || !is_digit(rest[0]),
    ensures
        digit_run(digits + rest) == digits.len(),
    decreases digits.len(),
{
    let s = digits + rest;
    if digits.len() > 0 {
        let t = digits.drop_first();
        assert(forall|i: int| 0 <= i < t.len() ==> t[i] == digits[i + 1]);
        lemma_digit_run_ends(t, rest);
        assert(s.drop_first() =~= t + rest);
        assert(is_digit(digits[0]));
    } else {
        assert(s =~= rest);
    }
}

/// The digits that a text starts with, with or without a plus sign, reach to the
/// first character that is none.
pub proof fn law_leading_digits(digits: Seq<char>, rest: Seq<char>)
    requires
        forall|i: int| 0 <= i < digits.len() ==> 48 <= #[trigger] digits[i] as int && digits[i] as int
            <= 57,
        rest.len() > 0 ==> !(48 <= rest[0] as int && rest[0] as int <= 57),
    ensures
        leading_digits(seq!['+'] + digits + rest) == digits,
        digits.len() > 0 ==> leading_digits(digits + rest) == digits,
        rest.len() > 0 && rest[0] != '+' ==> leading_digits(rest) == Seq::<char>::empty(),
{
    assert(forall|i: int| 0 <= i < digits.len() ==> is_digit(#[trigger] digits[i]));
    lemma_digit_run_ends(digits, rest);
    let s = digits + rest;
    let plus = seq!['+'] + digits + rest;
    assert(plus.drop_first() =~= s);
    assert(s.take(digits.len() as int) =~= digits);
    if digits.len() > 0 {
        assert(is_digit(digits[0]));
        assert(s[0] == digits[0]);
    }
    if rest.len() > 0 {
        assert(rest.take(0) =~= Seq::empty());
    }
}

/// Written natural numbers end where something else follows.
proof fn lemma_nat_ends(a: int, x: Seq<char>, b: int, y: Seq<char>)
    requires
        a >= 0,
        b >= 0,
        x.len() == 0 || !is_digit(x[0]),
        y.len() == 0 || !is_digit(y[0]),
        decimal_nat(a) + x == decimal_nat(b) + y,
    ensures
        a == b,
        x == y,
{
    let (p, q) = (decimal_nat(a), decimal_nat(b));
    lemma_decimal_nat(a);
    lemma_decimal_nat(b);
    lemma_digit_run_ends(p, x);
    lemma_digit_run_ends(q, y);
    assert((p + x).take(p.len() as int) =~= p);
    assert((q + y).take(q.len() as int) =~= q);
    assert((p + x).skip(p.len() as int) =~= x);
    assert((q + y).skip(q.len() as int) =~= y);
}

/// A written number, followed by something else than a digit, determines the number
/// and what follows.
pub proof fn law_numbers_end(a: int, x: Seq<char>, b: int, y: Seq<char>)
    requires
        x.len() > 0 ==> !(48 <= x[0] as int && x[0] as int <= 57),
        y.len() > 0 ==> !(48 <= y[0] as int && y[0] as int <= 57),
        decimal(a) + x == decimal(b) + y,
    ensures
        a == b,
        x == y,
{
    let (s, t) = (decimal(a) + x, decimal(b) + y);
    if a >= 0 {
        lemma_decimal_nat(a);
        assert(is_digit(decimal_nat(a)[0]));
        assert(s[0] == decimal_nat(a)[0]);
    } else {
        assert(s[0] == '-');
    }
    if b >= 0 {
        lemma_decimal_nat(b);
        assert(is_digit(decimal_nat(b)[0]));
        assert(t[0] == decimal_nat(b)[0]);
    } else {
        assert(t[0] == '-');
    }
    if a >= 0 {
        lemma_nat_ends(a, x, b, y);
    } else {
        assert(s.drop_first() =~= decimal_nat(-a) + x);
        assert(t.drop_first() =~= decimal_nat(-b) + y);
        lemma_nat_ends(-a, x, -b, y);
    }
}

/// Written numbers hold digits and a minus sign only, and at least one character.
pub proof fn lemma_decimal_characters(n: int, i: int)
    requires
        0 <= i < decimal(n).len(),
    ensures
        decimal(n).len() > 0,
        decimal(n)[i] == '-' || (48 <= decimal(n)[i] as int && decimal(n)[i] as int <= 57),
{
    if n >= 0 {
        lemma_decimal_nat(n);
        assert(is_digit(decimal_nat(n)[i]));
    } else {
        lemma_decimal_nat(-n);
        if i > 0 {
            assert(is_digit(decimal_nat(-n)[i - 1]));
        }
    }
}

/// Written numbers are not empty.
pub proof fn lemma_decimal_not_empty(n: int)
    ensures
        decimal(n).len() > 0,
{
    if n >= 0 {
        lemma_decimal_nat(n);
    } else {
        lemma_decimal_nat(-n);
    }
}

/// A number of a machine type is read back as written.
pub proof fn law_machine_numbers_round_trip(n: int)
    ensures
        -2147483648 <= n <= 2147483647 ==> i32_value(decimal(n)) == Some(n),
        -128 <= n <= 127 ==> i8_value(decimal(n)) == Some(n),
        0 <= n <= 255 ==> u8_value(decimal(n)) == Some(n),
        1 <= n <= usize::MAX ==> positive_usize_value(decimal(n)) == Some(n),
{
    law_decimal_round_trip(n);
}

} // verus!
