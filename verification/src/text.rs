//! Decimal text of the numbers that appear in file names and URLs.

use vstd::prelude::*;
use vstd::string::StringExecFns;

verus! {

/// The character of one decimal digit.
pub open spec fn digit_char(d: int) -> char {
    if d == 0 { '0' }
    else if d == 1 { '1' }
    else if d == 2 { '2' }
    else if d == 3 { '3' }
    else if d == 4 { '4' }
    else if d == 5 { '5' }
    else if d == 6 { '6' }
    else if d == 7 { '7' }
    else if d == 8 { '8' }
    else { '9' }
}

/// The digit of `n` at the decimal place `place` (1, 10, 100, ...).
pub open spec fn digit_at(n: int, place: int) -> char {
    digit_char((n / place) % 10)
}

/// `n` below 100 in two digits, zero-padded.
pub open spec fn two_digit_text(n: int) -> Seq<char> {
    seq![digit_at(n, 10), digit_at(n, 1)]
}

/// `n` below a million in at least four digits, zero-padded.
pub open spec fn padded_digits(n: int) -> Seq<char> {
    if n < 10000 {
        seq![digit_at(n, 1000), digit_at(n, 100), digit_at(n, 10), digit_at(n, 1)]
    } else if n < 100000 {
        seq![
            digit_at(n, 10000),
            digit_at(n, 1000),
            digit_at(n, 100),
            digit_at(n, 10),
            digit_at(n, 1),
        ]
    } else {
        seq![
            digit_at(n, 100000),
            digit_at(n, 10000),
            digit_at(n, 1000),
            digit_at(n, 100),
            digit_at(n, 10),
            digit_at(n, 1),
        ]
    }
}

/// A year between -999999 and 999999 as text: four digits for the years 0 to
/// 9999, else a sign followed by at least four digits.
pub open spec fn year_text(year: int) -> Seq<char> {
    if 0 <= year < 10000 {
        padded_digits(year)
    } else if year > 0 {
        seq!['+'] + padded_digits(year)
    } else {
        seq!['-'] + padded_digits(-year)
    }
}

fn digit_str(d: u32) -> (r: &'static str)
    requires
        d < 10,
    ensures
        r@ == seq![digit_char(d as int)],
{
    proof {
        reveal_strlit("0");
        reveal_strlit("1");
        reveal_strlit("2");
        reveal_strlit("3");
        reveal_strlit("4");
        reveal_strlit("5");
        reveal_strlit("6");
        reveal_strlit("7");
        reveal_strlit("8");
        reveal_strlit("9");
    }
    let r = if d == 0 { "0" }
        else if d == 1 { "1" }
        else if d == 2 { "2" }
        else if d == 3 { "3" }
        else if d == 4 { "4" }
        else if d == 5 { "5" }
        else if d == 6 { "6" }
        else if d == 7 { "7" }
        else if d == 8 { "8" }
        else { "9" };
    assert(r@ =~= seq![digit_char(d as int)]);
    r
}

/// A number below 100 in two digits, zero-padded.
pub fn two_digits(n: u32) -> (text: String)
    requires
        n < 100,
    ensures
        text@ == two_digit_text(n as int),
{
    let mut text = String::from_str(digit_str(n / 10));
    text.append(digit_str(n % 10));
    assert(text@ =~= two_digit_text(n as int));
    text
}

/// Two numbers below 100 with the same two digits are equal.
pub proof fn lemma_two_digit_text_injective(a: int, b: int)
    requires
        0 <= a < 100,
        0 <= b < 100,
        two_digit_text(a) == two_digit_text(b),
    ensures
        a == b,
{
    assert(two_digit_text(a)[0] == two_digit_text(b)[0]);
    assert(two_digit_text(a)[1] == two_digit_text(b)[1]);
}

/// The text of a year has four to seven characters.
pub proof fn lemma_year_text_len(year: int)
    requires
        -1000000 < year < 1000000,
    ensures
        4 <= year_text(year).len() <= 7,
{
}

proof fn lemma_padded_digits_injective(a: int, b: int)
    requires
        0 <= a < 1000000,
        0 <= b < 1000000,
        padded_digits(a) == padded_digits(b),
    ensures
        a == b,
{
    let x = padded_digits(a);
    let y = padded_digits(b);
    assert(x.len() == y.len());
    assert(forall|i: int| 0 <= i < x.len() ==> x[i] == y[i]);
    let n = x.len() as int;
    assert(x[n - 1] == y[n - 1]);
    assert(x[n - 2] == y[n - 2]);
    assert(x[n - 3] == y[n - 3]);
    assert(x[n - 4] == y[n - 4]);
    assert(a % 10 == b % 10);
    assert((a / 10) % 10 == (b / 10) % 10);
    assert((a / 100) % 10 == (b / 100) % 10);
    assert((a / 1000) % 10 == (b / 1000) % 10);
    if n >= 5 {
        assert(x[n - 5] == y[n - 5]);
        assert((a / 10000) % 10 == (b / 10000) % 10);
    }
    if n >= 6 {
        assert(x[n - 6] == y[n - 6]);
        assert((a / 100000) % 10 == (b / 100000) % 10);
    }
    lemma_digits_sum(a);
    lemma_digits_sum(b);
}

proof fn lemma_digits_sum(a: int)
    requires
        0 <= a < 1000000,
    ensures
        a == (a / 100000) % 10 * 100000 + (a / 10000) % 10 * 10000 + (a / 1000) % 10 * 1000 + (a
            / 100) % 10 * 100 + (a / 10) % 10 * 10 + a % 10,
        a < 10000 ==> (a / 10000) % 10 == 0 && (a / 100000) % 10 == 0,
        a < 100000 ==> (a / 100000) % 10 == 0,
{
    let q1 = a / 10;
    let q2 = q1 / 10;
    let q3 = q2 / 10;
    let q4 = q3 / 10;
    let q5 = q4 / 10;
    assert(a / 100 == q2) by {
        vstd::arithmetic::div_mod::lemma_div_denominator(a, 10, 10);
    }
    assert(a / 1000 == q3) by {
        vstd::arithmetic::div_mod::lemma_div_denominator(a, 100, 10);
    }
    assert(a / 10000 == q4) by {
        vstd::arithmetic::div_mod::lemma_div_denominator(a, 1000, 10);
    }
    assert(a / 100000 == q5) by {
        vstd::arithmetic::div_mod::lemma_div_denominator(a, 10000, 10);
    }
    assert(a == 10 * q1 + a % 10);
    assert(q1 == 10 * q2 + q1 % 10);
    assert(q2 == 10 * q3 + q2 % 10);
    assert(q3 == 10 * q4 + q3 % 10);
    assert(q4 == 10 * q5 + q4 % 10);
    assert(0 <= q5 < 10);
}

/// Two years with the same text are equal.
pub proof fn lemma_year_text_injective(a: int, b: int)
    requires
        -1000000 < a < 1000000,
        -1000000 < b < 1000000,
        year_text(a) == year_text(b),
    ensures
        a == b,
{
    let x = year_text(a);
    let y = year_text(b);
    assert(x[0] == y[0]);
    if 0 <= a < 10000 {
        assert(x[0] == digit_at(a, 1000));
        if 0 <= b < 10000 {
            lemma_padded_digits_injective(a, b);
        } else if b > 0 {
            assert(y[0] == '+');
        } else {
            assert(y[0] == '-');
        }
    } else if a > 0 {
        assert(x[0] == '+');
        if 0 <= b < 10000 {
            assert(y[0] == digit_at(b, 1000));
        } else if b > 0 {
            assert(x.subrange(1, x.len() as int) =~= padded_digits(a));
            assert(y.subrange(1, y.len() as int) =~= padded_digits(b));
            lemma_padded_digits_injective(a, b);
        } else {
            assert(y[0] == '-');
        }
    } else {
        assert(x[0] == '-');
        if 0 <= b < 10000 {
            assert(y[0] == digit_at(b, 1000));
        } else if b > 0 {
            assert(y[0] == '+');
        } else {
            assert(x.subrange(1, x.len() as int) =~= padded_digits(-a));
            assert(y.subrange(1, y.len() as int) =~= padded_digits(-b));
            lemma_padded_digits_injective(-a, -b);
        }
    }
}

} // verus!
