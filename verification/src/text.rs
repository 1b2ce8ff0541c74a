//! Strings as sequences of characters: conversions, comparisons and
//! decimal numbers.

use vstd::prelude::*;
use vstd::utf8::*;
use vstd::string::*;

verus! {

/// `String::push` appends one character to the end of the string.
pub assume_specification[ std::string::String::push ](s: &mut std::string::String, c: char)
    ensures
        final(s)@ == old(s)@.push(c),
;

/// The characters of `s`, in order.
pub fn chars_of(s: &str) -> (r: Vec<char>)
    ensures
        r@ == s@,
{
    let mut out: Vec<char> = Vec::new();
    for c in it: s.chars()
        invariant
            it.seq() == s@,
            out@ =~= s@.take(it.index()),
    {
        out.push(c);
    }
    assert(s@.take(s@.len() as int) =~= s@);
    out
}

/// The characters `from..to` of `v` as a string.
pub fn string_of(v: &Vec<char>, from: usize, to: usize) -> (r: String)
    requires
        from <= to <= v.len(),
    ensures
        r@ == v@.subrange(from as int, to as int),
{
    let mut out = String::new();
    let mut i: usize = from;
    while i < to
        invariant
            from <= i <= to <= v.len(),
            out@ =~= v@.subrange(from as int, i as int),
        decreases to - i,
    {
        out.push(v[i]);
        i += 1;
    }
    out
}

/// The characters `from..to` of `v`.
pub fn slice_of(v: &Vec<char>, from: usize, to: usize) -> (r: Vec<char>)
    requires
        from <= to <= v.len(),
    ensures
        r@ == v@.subrange(from as int, to as int),
{
    let mut out: Vec<char> = Vec::new();
    let mut i: usize = from;
    while i < to
        invariant
            from <= i <= to <= v.len(),
            out@ =~= v@.subrange(from as int, i as int),
        decreases to - i,
    {
        out.push(v[i]);
        i += 1;
    }
    out
}

/// The characters of `v` from `from` on.
pub fn tail_of(v: &Vec<char>, from: usize) -> (r: Vec<char>)
    requires
        from <= v.len(),
    ensures
        r@ == v@.skip(from as int),
{
    let r = slice_of(v, from, v.len());
    assert(v@.subrange(from as int, v.len() as int) =~= v@.skip(from as int));
    r
}

/// The characters of `v` from `from` on as a string.
pub fn tail_string(v: &Vec<char>, from: usize) -> (r: String)
    requires
        from <= v.len(),
    ensures
        r@ == v@.skip(from as int),
{
    let r = string_of(v, from, v.len());
    assert(v@.subrange(from as int, v.len() as int) =~= v@.skip(from as int));
    r
}

/// The first offset from `i` on at which `c` stands, or the length of `s`.
pub open spec fn find_char(s: Seq<char>, c: char, i: int) -> int
    decreases s.len() - i,
{
    if i < 0 || i >= s.len() {
        s.len() as int
    } else if s[i] == c {
        i
    } else {
        find_char(s, c, i + 1)
    }
}

/// The first offset at which `c` stands in `v`, or the length of `v`.
pub fn position_of(v: &Vec<char>, c: char) -> (r: usize)
    ensures
        r == find_char(v@, c, 0),
        r <= v.len(),
{
    let mut i: usize = 0;
    while i < v.len() && v[i] != c
        invariant
            i <= v.len(),
            find_char(v@, c, 0) == find_char(v@, c, i as int),
        decreases v.len() - i,
    {
        i += 1;
    }
    i
}

/// Whether two strings hold the same characters.
pub fn str_eq(a: &str, b: &str) -> (r: bool)
    ensures
        r == (a@ == b@),
{
    let x = a.as_bytes();
    let y = b.as_bytes();
    proof {
        encode_utf8_decode_utf8(a@);
        encode_utf8_decode_utf8(b@);
    }
    if x.len() != y.len() {
        return false;
    }
    let mut i: usize = 0;
    while i < x.len()
        invariant
            i <= x.len(),
            x.len() == y.len(),
            x@ == encode_utf8(a@),
            y@ == encode_utf8(b@),
            forall|j: int| 0 <= j < i ==> x@[j] == y@[j],
        decreases x.len() - i,
    {
        if x[i] != y[i] {
            return false;
        }
        i += 1;
    }
    assert(x@ =~= y@);
    true
}

/// Whether `p` stands at the start of `s`.
pub open spec fn is_prefix(p: Seq<char>, s: Seq<char>) -> bool {
    p.len() <= s.len() && s.subrange(0, p.len() as int) == p
}

/// Whether `p` stands at the end of `s`.
pub open spec fn is_suffix(p: Seq<char>, s: Seq<char>) -> bool {
    p.len() <= s.len() && s.subrange(s.len() - p.len(), s.len() as int) == p
}

/// Whether the characters of `p` stand in `v` from index `at` on.
pub fn holds_at(v: &Vec<char>, at: usize, p: &str) -> (r: bool)
    requires
        at <= v.len(),
    ensures
        r == is_prefix(p@, v@.skip(at as int)),
{
    let mut i: usize = at;
    let mut ok = true;
    for c in it: p.chars()
        invariant
            it.seq() == p@,
            at <= v.len(),
            ok ==> i == at + it.index() && i <= v.len(),
            ok ==> v@.subrange(at as int, i as int) =~= p@.take(it.index()),
            !ok ==> !is_prefix(p@, v@.skip(at as int)),
    {
        if ok {
            if i < v.len() && v[i] == c {
                i += 1;
            } else {
                ok = false;
                proof {
                    let k = it.index();
                    if is_prefix(p@, v@.skip(at as int)) {
                        assert(v@.skip(at as int).subrange(0, p@.len() as int)[k] == p@[k]);
                    }
                }
            }
        }
    }
    proof {
        if ok {
            assert(p@.take(p@.len() as int) =~= p@);
            assert(v@.skip(at as int).subrange(0, p@.len() as int) =~= v@.subrange(
                at as int,
                i as int,
            ));
        }
    }
    ok
}

/// Whether `v` starts with the characters of `p`.
pub fn starts_with(v: &Vec<char>, p: &str) -> (r: bool)
    ensures
        r == is_prefix(p@, v@),
{
    assert(v@.skip(0) =~= v@);
    holds_at(v, 0, p)
}

/// Whether `v` ends with the characters of `p`.
pub fn ends_with(v: &Vec<char>, p: &str) -> (r: bool)
    ensures
        r == is_suffix(p@, v@),
{
    let n = p.unicode_len();
    if n > v.len() {
        return false;
    }
    let at = v.len() - n;
    let r = holds_at(v, at, p);
    proof {
        let t = v@.skip(at as int);
        assert(t.len() == n);
        assert(t.subrange(0, n as int) =~= v@.subrange(v@.len() - n, v@.len() as int));
    }
    r
}

/// Whether `v` holds exactly the characters of `p`.
pub fn same_text(v: &Vec<char>, p: &str) -> (r: bool)
    ensures
        r == (v@ == p@),
{
    let n = p.unicode_len();
    if n != v.len() {
        return false;
    }
    let r = holds_at(v, 0, p);
    proof {
        assert(v@.skip(0) =~= v@);
        assert(v@.subrange(0, n as int) =~= v@);
    }
    r
}

/// The character that stands for the digit `d`.
pub open spec fn digit_char(d: int) -> char {
    if d == 0 {
        '0'
    } else if d == 1 {
        '1'
    } else if d == 2 {
        '2'
    } else if d == 3 {
        '3'
    } else if d == 4 {
        '4'
    } else if d == 5 {
        '5'
    } else if d == 6 {
        '6'
    } else if d == 7 {
        '7'
    } else if d == 8 {
        '8'
    } else {
        '9'
    }
}

/// The digit that `c` stands for, if it is one.
pub open spec fn digit_value(c: char) -> Option<int> {
    if '0' <= c && c <= '9' {
        Some(c as int - '0' as int)
    } else {
        None
    }
}

/// The decimal digits of `n`, without leading zeros.
pub open spec fn decimal(n: nat) -> Seq<char>
    decreases n,
{
    if n < 10 {
        seq![digit_char(n as int)]
    } else {
        decimal(n / 10).push(digit_char((n % 10) as int))
    }
}

/// The decimal form of `n`, with a minus sign where `n` is negative.
pub open spec fn signed_decimal(n: int) -> Seq<char> {
    if n < 0 {
        seq!['-'] + decimal((-n) as nat)
    } else {
        decimal(n as nat)
    }
}

/// The character that stands for the digit `d`.
pub fn digit_of(d: u64) -> (c: char)
    requires
        d < 10,
    ensures
        c == digit_char(d as int),
        digit_value(c) == Some(d as int),
{
    if d == 0 {
        '0'
    } else if d == 1 {
        '1'
    } else if d == 2 {
        '2'
    } else if d == 3 {
        '3'
    } else if d == 4 {
        '4'
    } else if d == 5 {
        '5'
    } else if d == 6 {
        '6'
    } else if d == 7 {
        '7'
    } else if d == 8 {
        '8'
    } else {
        '9'
    }
}

/// The digit that `c` stands for, if it is one.
pub fn value_of_digit(c: char) -> (r: Option<u64>)
    ensures
        match digit_value(c) {
            Some(d) => r == Some(d as u64) && 0 <= d < 10,
            None => r is None,
        },
{
    if c == '0' {
        Some(0)
    } else if c == '1' {
        Some(1)
    } else if c == '2' {
        Some(2)
    } else if c == '3' {
        Some(3)
    } else if c == '4' {
        Some(4)
    } else if c == '5' {
        Some(5)
    } else if c == '6' {
        Some(6)
    } else if c == '7' {
        Some(7)
    } else if c == '8' {
        Some(8)
    } else if c == '9' {
        Some(9)
    } else {
        None
    }
}

/// Writes the decimal form of `n` behind `out`.
pub fn push_decimal(out: &mut String, n: u64)
    ensures
        final(out)@ == old(out)@ + decimal(n as nat),
{
    let mut digits: Vec<char> = Vec::new();
    let mut rest: u64 = n;
    while rest >= 10
        invariant
            forall|tail: Seq<char>| #[trigger]
                (decimal(n as nat) + tail) == decimal(rest as nat) + digits@.reverse() + tail,
        decreases rest,
    {
        let ghost before = digits@;
        let ghost r0 = rest;
        digits.push(digit_of(rest % 10));
        rest = rest / 10;
        proof {
            assert forall|tail: Seq<char>| #[trigger]
                (decimal(n as nat) + tail) == decimal(rest as nat) + digits@.reverse()
                    + tail by {
                let d = digit_char((r0 % 10) as int);
                assert(digits@.reverse() =~= seq![d] + before.reverse());
                assert(decimal(r0 as nat) == decimal(rest as nat).push(d));
                assert(decimal(rest as nat) + digits@.reverse() + tail =~= decimal(r0 as nat)
                    + before.reverse() + tail);
            }
        }
    }
    out.push(digit_of(rest));
    let mut k: usize = digits.len();
    proof {
        assert(decimal(n as nat) + Seq::<char>::empty() == decimal(rest as nat)
            + digits@.reverse() + Seq::<char>::empty());
        assert(decimal(n as nat) =~= decimal(rest as nat) + digits@.reverse());
    }
    while k > 0
        invariant
            k <= digits.len(),
            decimal(n as nat) == decimal(rest as nat) + digits@.reverse(),
            rest < 10,
            out@ =~= old(out)@ + decimal(rest as nat) + digits@.reverse().take(
                digits.len() - k,
            ),
        decreases k,
    {
        k -= 1;
        out.push(digits[k]);
        proof {
            let r = digits@.reverse();
            let j = digits.len() - k - 1;
            assert(r[j] == digits@[k as int]);
            assert(r.take(j + 1) =~= r.take(j).push(r[j]));
        }
    }
    proof {
        let r = digits@.reverse();
        assert(r.take(r.len() as int) =~= r);
    }
}

/// Writes the decimal form of `n` behind `out`, with a minus sign where
/// `n` is negative.
pub fn push_signed(out: &mut String, n: i64)
    ensures
        final(out)@ == old(out)@ + signed_decimal(n as int),
{
    if n < 0 {
        out.push('-');
        let m: u64 = if n == i64::MIN {
            9223372036854775808u64
        } else {
            (-n) as u64
        };
        push_decimal(out, m);
        assert(out@ =~= old(out)@ + (seq!['-'] + decimal((-n) as nat)));
    } else {
        push_decimal(out, n as u64);
    }
}

/// Why a text is no number of the type asked for.
#[derive(Debug, Clone, Copy, PartialEq, Eq, Structural)]
pub enum NumError {
    /// The text is empty.
    Empty,
    /// A character is no digit, or a sign stands alone.
    InvalidDigit,
    /// The number is above the largest of the type.
    TooLarge,
    /// The number is below the smallest of the type.
    TooSmall,
}

/// The number that the digits of `s` from `i` on add to `acc`, which holds
/// what the digits before stand for. With `negative` the digits count
/// downwards. The first character that is no digit, or the first digit
/// that leaves `min..=max`, decides the error.
pub open spec fn digits_from(s: Seq<char>, i: int, acc: int, negative: bool, min: int, max: int)
    -> Result<int, NumError>
    decreases s.len() - i,
{
    if i < 0 || i >= s.len() {
        Ok(acc)
    } else {
        match digit_value(s[i]) {
            None => Err(NumError::InvalidDigit),
            Some(d) => {
                let next = if negative {
                    acc * 10 - d
                } else {
                    acc * 10 + d
                };
                if next > max {
                    Err(NumError::TooLarge)
                } else if next < min {
                    Err(NumError::TooSmall)
                } else {
                    digits_from(s, i + 1, next, negative, min, max)
                }
            },
        }
    }
}

/// The number in `min..=max` that `s` is the decimal form of: digits behind
/// an optional `+`, or behind `-` where `min` is below zero.
pub open spec fn number_spec(s: Seq<char>, min: int, max: int) -> Result<int, NumError> {
    if s.len() == 0 {
        Err(NumError::Empty)
    } else if s.len() == 1 && (s[0] == '+' || s[0] == '-') {
        Err(NumError::InvalidDigit)
    } else if s[0] == '+' {
        digits_from(s, 1, 0, false, min, max)
    } else if s[0] == '-' && min < 0 {
        digits_from(s, 1, 0, true, min, max)
    } else {
        digits_from(s, 0, 0, false, min, max)
    }
}

/// Reads `s` as a decimal number in `min..=max`.
pub fn parse_number(s: &Vec<char>, min: i64, max: u64) -> (r: Result<i128, NumError>)
    requires
        min <= 0,
    ensures
        match number_spec(s@, min as int, max as int) {
            Ok(v) => r == Ok::<i128, NumError>(v as i128) && min <= v <= max,
            Err(e) => r == Err::<i128, NumError>(e),
        },
{
    let n = s.len();
    if n == 0 {
        return Err(NumError::Empty);
    }
    let first = s[0];
    if n == 1 && (first == '+' || first == '-') {
        return Err(NumError::InvalidDigit);
    }
    let negative = first == '-' && min < 0;
    let mut i: usize = if first == '+' || negative {
        1
    } else {
        0
    };
    let mut acc: i128 = 0;
    while i < n
        invariant
            i <= n,
            n == s.len(),
            min <= acc <= max,
            min <= 0,
            number_spec(s@, min as int, max as int) == digits_from(
                s@,
                i as int,
                acc as int,
                negative,
                min as int,
                max as int,
            ),
        decreases n - i,
    {
        match value_of_digit(s[i]) {
            None => {
                return Err(NumError::InvalidDigit);
            },
            Some(d) => {
                let next: i128 = if negative {
                    acc * 10 - d as i128
                } else {
                    acc * 10 + d as i128
                };
                if next > max as i128 {
                    return Err(NumError::TooLarge);
                }
                if next < min as i128 {
                    return Err(NumError::TooSmall);
                }
                acc = next;
                i += 1;
            },
        }
    }
    Ok(acc)
}

/// What `{:?}` writes for a string: the string in double quotes, with the
/// characters that std escapes there written as escapes.
pub uninterp spec fn debug_text(s: Seq<char>) -> Seq<char>;

/// `<str as std::fmt::Debug>::fmt`, through `format!`: the result is the
/// debug form of `s`, which is a function of the characters of `s` alone.
#[verifier::external_body]
pub(crate) fn debug_of(s: &str) -> (r: String)
    ensures
        r@ == debug_text(s@),
{
    format!("{:?}", s)
}

} // verus!
