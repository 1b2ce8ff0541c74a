//! Reading back a number that was written.

use vstd::prelude::*;
use crate::names::is_plain_word;
use crate::text::{
    decimal, digit_char, digit_value, digits_from, number_spec, signed_decimal, NumError,
};
use crate::value::is_name_char;

verus! {

/// A digit is read back from its character.
pub proof fn lemma_digit(d: int)
    requires
        0 <= d < 10,
    ensures
        digit_value(digit_char(d)) == Some(d),
        is_name_char(digit_char(d)),
        digit_char(d) != '+',
        digit_char(d) != '-',
{
}

/// The decimal form of a number is made of digits.
pub proof fn lemma_decimal_digits(n: nat)
    ensures
        decimal(n).len() > 0,
        forall|i: int| 0 <= i < decimal(n).len() ==> digit_value(#[trigger] decimal(n)[i]) is Some,
        is_plain_word(decimal(n)),
    decreases n,
{
    if n < 10 {
        lemma_digit(n as int);
    } else {
        lemma_decimal_digits(n / 10);
        lemma_digit((n % 10) as int);
        let s = decimal(n);
        assert forall|i: int| 0 <= i < s.len() implies digit_value(#[trigger] s[i]) is Some
            && is_name_char(s[i]) by {
            if i < s.len() - 1 {
                assert(s[i] == decimal(n / 10)[i]);
            }
        }
    }
}

/// Reading the digits of a number that something follows gets to the
/// end of the digits with the number.
pub proof fn lemma_digits_read(n: nat, r: Seq<char>, min: int, max: int)
    requires
        n <= max,
        min <= 0,
    ensures
        digits_from(decimal(n) + r, 0, 0, false, min, max) == digits_from(
            decimal(n) + r,
            decimal(n).len() as int,
            n as int,
            false,
            min,
            max,
        ),
    decreases n,
{
    let s = decimal(n) + r;
    if n < 10 {
        lemma_digit(n as int);
        assert(s[0] == digit_char(n as int));
    } else {
        let q = n / 10;
        let d = (n % 10) as int;
        lemma_digit(d);
        assert(q <= max) by (nonlinear_arith)
            requires
                q == n / 10,
                n <= max,
        ;
        let tail = seq![digit_char(d)] + r;
        lemma_digits_read(q, tail, min, max);
        assert(decimal(q) + tail =~= s);
        assert(s[decimal(q).len() as int] == digit_char(d));
        assert(q * 10 + d == n) by (nonlinear_arith)
            requires
                q == n / 10,
                d == n % 10,
        ;
    }
}

/// The decimal form of a number is read back as the number.
pub proof fn lemma_decimal_read(n: nat, min: int, max: int)
    requires
        n <= max,
        min <= 0,
    ensures
        number_spec(decimal(n), min, max) == Ok::<int, NumError>(n as int),
{
    lemma_decimal_digits(n);
    lemma_digits_read(n, Seq::empty(), min, max);
    assert(decimal(n) + Seq::<char>::empty() =~= decimal(n));
    let s = decimal(n);
    assert(digit_value(s[0]) is Some);
}

/// Reading the digits of a number behind a minus sign gets to the end of
/// the digits with the number below zero.
pub proof fn lemma_minus_digits(m: nat, a: Seq<char>, r: Seq<char>, min: int, max: int)
    requires
        min <= -(m as int),
        0 <= max,
    ensures
        digits_from(a + decimal(m) + r, a.len() as int, 0, true, min, max) == digits_from(
            a + decimal(m) + r,
            (a.len() + decimal(m).len()) as int,
            -(m as int),
            true,
            min,
            max,
        ),
    decreases m,
{
    let s = a + decimal(m) + r;
    let i = a.len() as int;
    if m < 10 {
        lemma_digit(m as int);
        assert(s[i] == digit_char(m as int));
    } else {
        let q = m / 10;
        let d = (m % 10) as int;
        lemma_digit(d);
        assert(q <= m) by (nonlinear_arith)
            requires
                q == m / 10,
        ;
        let tail = seq![digit_char(d)] + r;
        lemma_minus_digits(q, a, tail, min, max);
        assert(a + decimal(q) + tail =~= s);
        assert(s[i + decimal(q).len()] == digit_char(d));
        assert(q * 10 + d == m) by (nonlinear_arith)
            requires
                q == m / 10,
                d == m % 10,
        ;
    }
}

/// The decimal form of a number with its sign is read back as the
/// number.
pub proof fn lemma_signed_read(n: int, min: int, max: int)
    requires
        min <= n <= max,
        min <= 0 <= max,
    ensures
        number_spec(signed_decimal(n), min, max) == Ok::<int, NumError>(n),
{
    if n < 0 {
        let m = (-n) as nat;
        let a = seq!['-'];
        lemma_decimal_digits(m);
        lemma_minus_digits(m, a, Seq::empty(), min, max);
        let s = signed_decimal(n);
        assert(a + decimal(m) + Seq::<char>::empty() =~= s);
        assert(s[0] == '-');
        assert(s.len() > 1);
    } else {
        lemma_decimal_read(n as nat, min, max);
    }
}

} // verus!
