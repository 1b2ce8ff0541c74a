//! Reading back an address that was written.

use vstd::prelude::*;
use crate::net::{
    digits_end, digits_number, ip_spec, ip_text, ipv4_at, lemma_digits_number_step, octet_at,
    socket_spec, socket_text, IpAddress, SocketAddress,
};
use crate::number_laws::{lemma_decimal_digits, lemma_digit};
use crate::text::{decimal, digit_char, digit_value};

verus! {

/// Whether the decimal form of `n` stands in `s` at the offset `p`, and
/// no digit follows it.
pub open spec fn holds_number(s: Seq<char>, p: int, n: nat) -> bool {
    &&& 0 <= p
    &&& p + decimal(n).len() <= s.len()
    &&& s.subrange(p, p + decimal(n).len()) == decimal(n)
    &&& p + decimal(n).len() < s.len() ==> digit_value(s[p + decimal(n).len()]) is None
}

/// A run of digits ends where the first other character stands.
pub proof fn lemma_digit_run(s: Seq<char>, i: int, j: int)
    requires
        0 <= i <= j <= s.len(),
        forall|k: int| i <= k < j ==> digit_value(#[trigger] s[k]) is Some,
        j < s.len() ==> digit_value(s[j]) is None,
    ensures
        digits_end(s, i) == j,
    decreases j - i,
{
    if i < j {
        lemma_digit_run(s, i + 1, j);
    }
}

/// The digits of a number stand for the number, wherever they stand.
pub proof fn lemma_number_at(s: Seq<char>, p: int, n: nat)
    requires
        0 <= p,
        p + decimal(n).len() <= s.len(),
        s.subrange(p, p + decimal(n).len()) == decimal(n),
    ensures
        digits_number(s, p, p + decimal(n).len(), 0) == n,
    decreases n,
{
    let digits = decimal(n);
    let e = p + digits.len();
    lemma_decimal_digits(n);
    assert forall|k: int| p <= k < e implies digit_value(#[trigger] s[k]) is Some by {
        assert(s.subrange(p, e)[k - p] == s[k]);
    }
    if n < 10 {
        lemma_digit(n as int);
        assert(s.subrange(p, e)[0] == s[p]);
        assert(digits_number(s, p + 1, p + 1, 0 * 10 + n as int) == n);
    } else {
        let q = n / 10;
        let d = (n % 10) as int;
        lemma_digit(d);
        assert(digits == decimal(q).push(digit_char(d)));
        assert(s.subrange(p, p + decimal(q).len()) =~= decimal(q)) by {
            assert forall|k: int| 0 <= k < decimal(q).len() implies s.subrange(
                p,
                p + decimal(q).len(),
            )[k] == decimal(q)[k] by {
                assert(s.subrange(p, e)[k] == digits[k]);
            }
        }
        lemma_number_at(s, p, q);
        lemma_digits_number_step(s, p, e, 0);
        assert(s[e - 1] == s.subrange(p, e)[digits.len() - 1]);
        assert(q * 10 + d == n) by (nonlinear_arith)
            requires
                q == n / 10,
                d == n % 10,
        ;
    }
}

/// The decimal form of a byte has at most three digits, and starts with
/// zero only where the byte is zero.
pub proof fn lemma_byte_digits(n: nat)
    requires
        n <= 255,
    ensures
        1 <= decimal(n).len() <= 3,
        decimal(n).len() > 1 ==> decimal(n)[0] != '0',
{
    reveal_with_fuel(decimal, 4);
    if n >= 10 {
        let q = n / 10;
        if q >= 10 {
            let r = q / 10;
            assert(r < 10 && r >= 1);
            assert(decimal(r) == seq![digit_char(r as int)]);
            assert(decimal(q) == decimal(r).push(digit_char((q % 10) as int)));
            assert(decimal(n) == decimal(q).push(digit_char((n % 10) as int)));
            assert(decimal(n)[0] == digit_char(r as int));
        } else {
            assert(q >= 1);
            assert(decimal(q) == seq![digit_char(q as int)]);
            assert(decimal(n) == decimal(q).push(digit_char((n % 10) as int)));
            assert(decimal(n)[0] == digit_char(q as int));
        }
    }
}

/// A byte is read from its decimal form, wherever it stands.
pub proof fn lemma_octet_at(s: Seq<char>, p: int, n: u8)
    requires
        holds_number(s, p, n as nat),
    ensures
        octet_at(s, p) == Some((n, p + decimal(n as nat).len())),
{
    let digits = decimal(n as nat);
    let e = p + digits.len();
    lemma_decimal_digits(n as nat);
    lemma_byte_digits(n as nat);
    assert forall|k: int| p <= k < e implies digit_value(#[trigger] s[k]) is Some by {
        assert(s.subrange(p, e)[k - p] == s[k]);
    }
    lemma_digit_run(s, p, e);
    lemma_number_at(s, p, n as nat);
    assert(s.subrange(p, e)[0] == s[p]);
}

/// The text of an address of version 4 holds its four bytes with dots
/// between them.
pub proof fn lemma_ip_parts(a: u8, b: u8, c: u8, d: u8, rest: Seq<char>)
    requires
        rest.len() > 0 ==> digit_value(rest[0]) is None,
    ensures
        ({
            let s = ip_text(IpAddress::V4(a, b, c, d)) + rest;
            let pa = 0int;
            let pb = pa + decimal(a as nat).len() + 1;
            let pc = pb + decimal(b as nat).len() + 1;
            let pd = pc + decimal(c as nat).len() + 1;
            &&& holds_number(s, pa, a as nat)
            &&& holds_number(s, pb, b as nat)
            &&& holds_number(s, pc, c as nat)
            &&& holds_number(s, pd, d as nat)
            &&& s[pb - 1] == '.'
            &&& s[pc - 1] == '.'
            &&& s[pd - 1] == '.'
            &&& pd + decimal(d as nat).len() == ip_text(IpAddress::V4(a, b, c, d)).len()
        }),
{
    let da = decimal(a as nat);
    let db = decimal(b as nat);
    let dc = decimal(c as nat);
    let dd = decimal(d as nat);
    let s = ip_text(IpAddress::V4(a, b, c, d)) + rest;
    let pb = da.len() as int + 1;
    let pc = pb + db.len() as int + 1;
    let pd = pc + dc.len() as int + 1;
    assert(s =~= da + seq!['.'] + db + seq!['.'] + dc + seq!['.'] + dd + rest);
    assert(s.subrange(0, da.len() as int) =~= da);
    assert(s.subrange(pb, pb + db.len()) =~= db);
    assert(s.subrange(pc, pc + dc.len()) =~= dc);
    assert(s.subrange(pd, pd + dd.len()) =~= dd);
    assert(s[da.len() as int] == '.');
    assert(s[pb + db.len()] == '.');
    assert(s[pc + dc.len()] == '.');
    if rest.len() > 0 {
        assert(s[pd + dd.len()] == rest[0]);
    }
}

/// An address of version 4 is read from its text, whatever follows that
/// is no digit.
pub proof fn lemma_ipv4_at(ip: IpAddress, rest: Seq<char>)
    requires
        ip is V4,
        rest.len() > 0 ==> digit_value(rest[0]) is None,
    ensures
        ipv4_at(ip_text(ip) + rest, 0) == Some((ip, ip_text(ip).len() as int)),
{
    match ip {
        IpAddress::V4(a, b, c, d) => {
            let s = ip_text(ip) + rest;
            lemma_ip_parts(a, b, c, d, rest);
            let pb = decimal(a as nat).len() as int + 1;
            let pc = pb + decimal(b as nat).len() as int + 1;
            let pd = pc + decimal(c as nat).len() as int + 1;
            lemma_octet_at(s, 0, a);
            lemma_octet_at(s, pb, b);
            lemma_octet_at(s, pc, c);
            lemma_octet_at(s, pd, d);
        },
        _ => {},
    }
}

/// An address of version 4 is read back from its text.
pub proof fn lemma_ip_round_trip(ip: IpAddress)
    requires
        ip is V4,
    ensures
        ip_spec(ip_text(ip)) == Some(ip),
        ip_text(ip).len() > 0,
        digit_value(ip_text(ip)[0]) is Some,
{
    lemma_ipv4_at(ip, Seq::empty());
    assert(ip_text(ip) + Seq::<char>::empty() =~= ip_text(ip));
    match ip {
        IpAddress::V4(a, b, c, d) => {
            lemma_decimal_digits(a as nat);
            let da = decimal(a as nat);
            assert(ip_text(ip)[0] == da[0]);
        },
        _ => {},
    }
}

/// An address of version 4 with a port is read back from its text.
pub proof fn lemma_socket_round_trip(a: SocketAddress)
    requires
        a.ip is V4,
    ensures
        socket_spec(socket_text(a)) == Some(a),
{
    let port = decimal(a.port as nat);
    let rest = seq![':'] + port;
    let s = socket_text(a);
    assert(s =~= ip_text(a.ip) + rest);
    assert(rest[0] == ':');
    lemma_ipv4_at(a.ip, rest);
    let j = ip_text(a.ip).len() as int;
    assert(s[j] == ':');
    lemma_decimal_digits(a.port as nat);
    assert(s.subrange(j + 1, j + 1 + port.len()) =~= port);
    assert forall|k: int| j + 1 <= k < s.len() implies digit_value(#[trigger] s[k]) is Some by {
        assert(s[k] == port[k - j - 1]);
    }
    lemma_digit_run(s, j + 1, s.len() as int);
    lemma_number_at(s, j + 1, a.port as nat);
}

} // verus!
