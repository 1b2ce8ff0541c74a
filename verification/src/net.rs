//! Internet addresses as they stand in `listen`, `allow`, `deny` and
//! `set_real_ip_from`.
//!
//! Addresses of version 4 are read and written in dotted decimal form,
//! addresses of version 6 in groups of hexadecimal digits, in brackets
//! where a port follows.

use vstd::prelude::*;
use crate::net6::{ipv6_at, ipv6_text, push_ipv6, read_ipv6};
use crate::text::{decimal, digit_value, push_decimal, value_of_digit};

verus! {

/// An IP address: the four bytes of an address of version 4, or the
/// eight groups of an address of version 6.
#[derive(Debug, Clone, Copy, PartialEq, Eq, Structural)]
pub enum IpAddress {
    V4(u8, u8, u8, u8),
    V6(u16, u16, u16, u16, u16, u16, u16, u16),
}

/// The address of version 6 with the eight groups `g`.
pub open spec fn six(g: Seq<u16>) -> IpAddress {
    IpAddress::V6(g[0], g[1], g[2], g[3], g[4], g[5], g[6], g[7])
}

impl IpAddress {
    /// The groups of an address of version 6; none for another address.
    pub open spec fn groups(self) -> Seq<u16> {
        match self {
            IpAddress::V6(a, b, c, d, e, f, g, h) => seq![a, b, c, d, e, f, g, h],
            IpAddress::V4(..) => Seq::empty(),
        }
    }
}

/// An IP address and a port.
#[derive(Debug, Clone, Copy, PartialEq, Eq, Structural)]
pub struct SocketAddress {
    pub ip: IpAddress,
    pub port: u16,
}

/// The first offset from `i` on at which no digit stands.
pub open spec fn digits_end(s: Seq<char>, i: int) -> int
    decreases s.len() - i,
{
    if 0 <= i < s.len() && digit_value(s[i]) is Some {
        digits_end(s, i + 1)
    } else {
        i
    }
}

/// The number that the digits `s[i..j]` stand for behind the number `acc`.
pub open spec fn digits_number(s: Seq<char>, i: int, j: int, acc: int) -> int
    decreases j - i,
{
    if i >= j {
        acc
    } else {
        match digit_value(s[i]) {
            Some(d) => digits_number(s, i + 1, j, acc * 10 + d),
            None => acc,
        }
    }
}

/// The byte written at `i` in decimal, with one to three digits and no
/// zero before another digit, and the offset behind it.
pub open spec fn octet_at(s: Seq<char>, i: int) -> Option<(u8, int)> {
    let j = digits_end(s, i);
    let n = digits_number(s, i, j, 0);
    if i < j <= i + 3 && (j == i + 1 || s[i] != '0') && n <= 255 {
        Some((n as u8, j))
    } else {
        None
    }
}

/// The address of version 4 that starts at `i`, and the offset behind it.
pub open spec fn ipv4_at(s: Seq<char>, i: int) -> Option<(IpAddress, int)> {
    match octet_at(s, i) {
        Some((a, j)) if j < s.len() && s[j] == '.' => match octet_at(s, j + 1) {
            Some((b, k)) if k < s.len() && s[k] == '.' => match octet_at(s, k + 1) {
                Some((c, l)) if l < s.len() && s[l] == '.' => match octet_at(s, l + 1) {
                    Some((d, m)) => Some((IpAddress::V4(a, b, c, d), m)),
                    _ => None,
                },
                _ => None,
            },
            _ => None,
        },
        _ => None,
    }
}

/// The address that `s` is the text of: one of version 4, else one of
/// version 6.
pub open spec fn ip_spec(s: Seq<char>) -> Option<IpAddress> {
    match ipv4_at(s, 0) {
        Some((ip, j)) if j == s.len() => Some(ip),
        _ => match ipv6_at(s, 0) {
            Some((g, j)) if j == s.len() => Some(six(g)),
            _ => None,
        },
    }
}

/// The port written from `i` to the end of `s` in decimal.
pub open spec fn port_at(s: Seq<char>, i: int) -> Option<u16> {
    let e = digits_end(s, i);
    let n = digits_number(s, i, e, 0);
    if i < e && e == s.len() && n <= 65535 {
        Some(n as u16)
    } else {
        None
    }
}

/// The address of version 4 and the port that `s` is the text of.
pub open spec fn socket4_spec(s: Seq<char>) -> Option<SocketAddress> {
    match ipv4_at(s, 0) {
        Some((ip, j)) if j < s.len() && s[j] == ':' => match port_at(s, j + 1) {
            Some(port) => Some(SocketAddress { ip, port }),
            None => None,
        },
        _ => None,
    }
}

/// The address of version 6 and the port that `s` is the text of: the
/// address in brackets, a colon, and the port.
pub open spec fn socket6_spec(s: Seq<char>) -> Option<SocketAddress> {
    if s.len() > 0 && s[0] == '[' {
        match ipv6_at(s, 1) {
            Some((g, j)) if j + 1 < s.len() && s[j] == ']' && s[j + 1] == ':' => match port_at(
                s,
                j + 2,
            ) {
                Some(port) => Some(SocketAddress { ip: six(g), port }),
                None => None,
            },
            _ => None,
        }
    } else {
        None
    }
}

/// The address and port that `s` is the text of: an address, a colon, and
/// a port in decimal; an address of version 6 stands in brackets.
pub open spec fn socket_spec(s: Seq<char>) -> Option<SocketAddress> {
    match socket4_spec(s) {
        Some(a) => Some(a),
        None => socket6_spec(s),
    }
}

/// The four bytes of an address of version 4 in decimal, with dots
/// between them.
pub open spec fn four_text(a: u8, b: u8, c: u8, d: u8) -> Seq<char> {
    decimal(a as nat) + seq!['.'] + decimal(b as nat) + seq!['.'] + decimal(c as nat) + seq!['.']
        + decimal(d as nat)
}

/// The text of an address.
pub open spec fn ip_text(ip: IpAddress) -> Seq<char> {
    match ip {
        IpAddress::V4(a, b, c, d) => four_text(a, b, c, d),
        IpAddress::V6(..) => ipv6_text(ip.groups()),
    }
}

/// The text of an address with a port.
pub open spec fn socket_text(a: SocketAddress) -> Seq<char> {
    match a.ip {
        IpAddress::V4(..) => ip_text(a.ip) + seq![':'] + decimal(a.port as nat),
        IpAddress::V6(..) => seq!['['] + ip_text(a.ip) + seq![']', ':'] + decimal(a.port as nat),
    }
}

/// The number stays within bounds while its digits are few and small.
pub proof fn lemma_digits_number_step(s: Seq<char>, i: int, j: int, acc: int)
    requires
        0 <= i <= j <= s.len(),
        forall|k: int| i <= k < j ==> digit_value(#[trigger] s[k]) is Some,
        i < j,
    ensures
        digits_number(s, i, j, acc) == digits_number(s, i, j - 1, acc) * 10 + digit_value(
            s[j - 1],
        )->0,
    decreases j - i,
{
    if i + 1 < j {
        lemma_digits_number_step(s, i + 1, j, acc * 10 + digit_value(s[i])->0);
    } else {
        assert(digits_number(s, i + 1, j, acc * 10 + digit_value(s[i])->0) == acc * 10
            + digit_value(s[i])->0);
        assert(digits_number(s, i, j - 1, acc) == acc);
    }
}

/// Every character before the end of a run of digits is a digit.
pub proof fn lemma_digits_end(s: Seq<char>, i: int)
    requires
        0 <= i <= s.len(),
    ensures
        i <= digits_end(s, i) <= s.len(),
        forall|k: int| i <= k < digits_end(s, i) ==> digit_value(#[trigger] s[k]) is Some,
        digits_end(s, i) < s.len() ==> digit_value(s[digits_end(s, i)]) is None,
    decreases s.len() - i,
{
    if i < s.len() && digit_value(s[i]) is Some {
        lemma_digits_end(s, i + 1);
    }
}

/// Reads a run of digits from `i` on: its end, and its number if the
/// number is at most `max`.
fn read_digits(s: &Vec<char>, i: usize, max: u64) -> (r: (usize, Option<u64>))
    requires
        i <= s.len(),
        max <= 65535,
    ensures
        r.0 == digits_end(s@, i as int),
        i <= r.0 <= s.len(),
        r.1 matches Some(n) ==> n == digits_number(s@, i as int, r.0 as int, 0) && n <= max,
        r.1 is None ==> digits_number(s@, i as int, r.0 as int, 0) > max,
{
    let mut j: usize = i;
    let mut n: u64 = 0;
    let mut over = false;
    proof {
        lemma_digits_end(s@, i as int);
    }
    while j < s.len() && value_of_digit(s[j]).is_some()
        invariant
            i <= j <= s.len(),
            max <= 65535,
            digits_end(s@, i as int) == digits_end(s@, j as int),
            forall|k: int| i <= k < j ==> digit_value(#[trigger] s@[k]) is Some,
            !over ==> n == digits_number(s@, i as int, j as int, 0) && n <= max,
            over ==> digits_number(s@, i as int, j as int, 0) > max,
        decreases s.len() - j,
    {
        let d = value_of_digit(s[j]).unwrap();
        proof {
            assert forall|k: int| i <= k < j + 1 implies digit_value(#[trigger] s@[k]) is Some by {}
            lemma_digits_number_step(s@, i as int, j + 1, 0);
        }
        if !over {
            n = n * 10 + d;
            if n > max {
                over = true;
            }
        }
        j += 1;
    }
    if over {
        (j, None)
    } else {
        (j, Some(n))
    }
}

/// Reads the byte written at `i`.
fn read_octet(s: &Vec<char>, i: usize) -> (r: Option<(u8, usize)>)
    requires
        i <= s.len(),
    ensures
        match octet_at(s@, i as int) {
            Some((n, j)) => r == Some((n, j as usize)) && i < j <= s.len(),
            None => r is None,
        },
{
    let (j, n) = read_digits(s, i, 255);
    match n {
        Some(n) => {
            if i < j && j - i <= 3 && (j == i + 1 || s[i] != '0') {
                Some((n as u8, j))
            } else {
                None
            }
        },
        None => None,
    }
}

/// Reads the address of version 4 that starts at `i`.
pub fn read_ipv4(s: &Vec<char>, i: usize) -> (r: Option<(IpAddress, usize)>)
    requires
        i <= s.len(),
    ensures
        match ipv4_at(s@, i as int) {
            Some((ip, j)) => r == Some((ip, j as usize)) && i < j <= s.len(),
            None => r is None,
        },
{
    let (a, j) = match read_octet(s, i) {
        Some(p) => p,
        None => {
            return None;
        },
    };
    if !(j < s.len() && s[j] == '.') {
        return None;
    }
    let (b, k) = match read_octet(s, j + 1) {
        Some(p) => p,
        None => {
            return None;
        },
    };
    if !(k < s.len() && s[k] == '.') {
        return None;
    }
    let (c, l) = match read_octet(s, k + 1) {
        Some(p) => p,
        None => {
            return None;
        },
    };
    if !(l < s.len() && s[l] == '.') {
        return None;
    }
    match read_octet(s, l + 1) {
        Some((d, m)) => Some((IpAddress::V4(a, b, c, d), m)),
        None => None,
    }
}

/// Writes four bytes in decimal behind `out`, with dots between them.
pub fn push_four(out: &mut String, a: u8, b: u8, c: u8, d: u8)
    ensures
        final(out)@ == old(out)@ + four_text(a, b, c, d),
{
    push_decimal(out, a as u64);
    out.push('.');
    push_decimal(out, b as u64);
    out.push('.');
    push_decimal(out, c as u64);
    out.push('.');
    push_decimal(out, d as u64);
    assert(out@ =~= old(out)@ + four_text(a, b, c, d));
}

/// Reads the port written from `i` to the end of `s`.
fn read_port(s: &Vec<char>, i: usize) -> (r: Option<u16>)
    requires
        i <= s.len(),
    ensures
        r == port_at(s@, i as int),
{
    let (e, n) = read_digits(s, i, 65535);
    match n {
        Some(n) => if i < e && e == s.len() {
            Some(n as u16)
        } else {
            None
        },
        None => None,
    }
}

/// The address of version 6 with the eight groups of `g`.
fn six_of(g: &Vec<u16>) -> (r: IpAddress)
    requires
        g.len() == 8,
    ensures
        r == six(g@),
{
    IpAddress::V6(g[0], g[1], g[2], g[3], g[4], g[5], g[6], g[7])
}

impl IpAddress {
    /// Reads an address.
    pub fn parse(s: &Vec<char>) -> (r: Option<IpAddress>)
        ensures
            r == ip_spec(s@),
    {
        match read_ipv4(s, 0) {
            Some((ip, j)) => if j == s.len() {
                return Some(ip);
            },
            None => {},
        }
        match read_ipv6(s, 0) {
            Some((g, j)) => if j == s.len() {
                Some(six_of(&g))
            } else {
                None
            },
            None => None,
        }
    }

    /// Writes the address behind `out`.
    pub fn write(&self, out: &mut String)
        ensures
            final(out)@ == old(out)@ + ip_text(*self),
    {
        match self {
            IpAddress::V4(a, b, c, d) => {
                push_four(out, *a, *b, *c, *d);
            },
            IpAddress::V6(a, b, c, d, e, f, g, h) => {
                let groups: Vec<u16> = vec![*a, *b, *c, *d, *e, *f, *g, *h];
                assert(groups@ =~= self.groups());
                push_ipv6(out, &groups);
            },
        }
    }
}

impl SocketAddress {
    /// Reads an address with a port.
    pub fn parse(s: &Vec<char>) -> (r: Option<SocketAddress>)
        ensures
            r == socket_spec(s@),
    {
        match read_ipv4(s, 0) {
            Some((ip, j)) => {
                if j < s.len() && s[j] == ':' {
                    match read_port(s, j + 1) {
                        Some(port) => {
                            return Some(SocketAddress { ip, port });
                        },
                        None => {},
                    }
                }
            },
            None => {},
        }
        if s.len() > 0 && s[0] == '[' {
            match read_ipv6(s, 1) {
                Some((g, j)) => {
                    if j < s.len() - 1 && s[j] == ']' && s[j + 1] == ':' {
                        match read_port(s, j + 2) {
                            Some(port) => Some(SocketAddress { ip: six_of(&g), port }),
                            None => None,
                        }
                    } else {
                        None
                    }
                },
                None => None,
            }
        } else {
            None
        }
    }

    /// Writes the address and the port behind `out`.
    pub fn write(&self, out: &mut String)
        ensures
            final(out)@ == old(out)@ + socket_text(*self),
    {
        match self.ip {
            IpAddress::V4(..) => {
                self.ip.write(out);
                out.push(':');
            },
            IpAddress::V6(..) => {
                out.push('[');
                self.ip.write(out);
                out.push(']');
                out.push(':');
            },
        }
        push_decimal(out, self.port as u64);
        assert(out@ =~= old(out)@ + socket_text(*self));
    }
}

} // verus!
