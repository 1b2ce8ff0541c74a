//! Addresses of version 6: groups of hexadecimal digits between colons,
//! with `::` for a run of groups that are zero, and the last two groups
//! also as an address of version 4.

use vstd::prelude::*;
use crate::net::{four_text, ipv4_at, push_four, read_ipv4, IpAddress};

verus! {

/// The number that the hexadecimal digit `c` stands for, if it is one.
pub open spec fn hex_value(c: char) -> Option<int> {
    if '0' <= c && c <= '9' {
        Some(c as int - '0' as int)
    } else if 'a' <= c && c <= 'f' {
        Some(c as int - 'a' as int + 10)
    } else if 'A' <= c && c <= 'F' {
        Some(c as int - 'A' as int + 10)
    } else {
        None
    }
}

/// The character that stands for the hexadecimal digit `d`, in lower
/// case.
pub open spec fn hex_char(d: int) -> char {
    if d == 0 {
        '0'
    } else if d == 1 {
        '1'
    } else if d == 2 {
        '2'
    } else if d == 3 {
        '3'
    } else if d == 4 {
        '4'
    } else if d == 5 {
        '5'
    } else if d == 6 {
        '6'
    } else if d == 7 {
        '7'
    } else if d == 8 {
        '8'
    } else if d == 9 {
        '9'
    } else if d == 10 {
        'a'
    } else if d == 11 {
        'b'
    } else if d == 12 {
        'c'
    } else if d == 13 {
        'd'
    } else if d == 14 {
        'e'
    } else {
        'f'
    }
}

/// The number that the hexadecimal digit `c` stands for, if it is one.
pub fn value_of_hex(c: char) -> (r: Option<u32>)
    ensures
        match hex_value(c) {
            Some(d) => r == Some(d as u32) && 0 <= d < 16,
            None => r is None,
        },
{
    if c == '0' {
        Some(0)
    } else if c == '1' {
        Some(1)
    } else if c == '2' {
        Some(2)
    } else if c == '3' {
        Some(3)
    } else if c == '4' {
        Some(4)
    } else if c == '5' {
        Some(5)
    } else if c == '6' {
        Some(6)
    } else if c == '7' {
        Some(7)
    } else if c == '8' {
        Some(8)
    } else if c == '9' {
        Some(9)
    } else if c == 'a' {
        Some(10)
    } else if c == 'b' {
        Some(11)
    } else if c == 'c' {
        Some(12)
    } else if c == 'd' {
        Some(13)
    } else if c == 'e' {
        Some(14)
    } else if c == 'f' {
        Some(15)
    } else if c == 'A' {
        Some(10)
    } else if c == 'B' {
        Some(11)
    } else if c == 'C' {
        Some(12)
    } else if c == 'D' {
        Some(13)
    } else if c == 'E' {
        Some(14)
    } else if c == 'F' {
        Some(15)
    } else {
        None
    }
}

/// The character that stands for the hexadecimal digit `d`.
pub fn hex_of(d: u16) -> (c: char)
    requires
        d < 16,
    ensures
        c == hex_char(d as int),
{
    if d == 0 {
        '0'
    } else if d == 1 {
        '1'
    } else if d == 2 {
        '2'
    } else if d == 3 {
        '3'
    } else if d == 4 {
        '4'
    } else if d == 5 {
        '5'
    } else if d == 6 {
        '6'
    } else if d == 7 {
        '7'
    } else if d == 8 {
        '8'
    } else if d == 9 {
        '9'
    } else if d == 10 {
        'a'
    } else if d == 11 {
        'b'
    } else if d == 12 {
        'c'
    } else if d == 13 {
        'd'
    } else if d == 14 {
        'e'
    } else {
        'f'
    }
}

/// The first offset from `i` on at which no hexadecimal digit stands.
pub open spec fn hex_end(s: Seq<char>, i: int) -> int
    decreases s.len() - i,
{
    if 0 <= i < s.len() && hex_value(s[i]) is Some {
        hex_end(s, i + 1)
    } else {
        i
    }
}

/// The number that the hexadecimal digits `s[i..j]` stand for.
pub open spec fn hex_number(s: Seq<char>, i: int, j: int) -> int
    decreases j - i,
{
    if j <= i {
        0
    } else {
        hex_number(s, i, j - 1) * 16 + match hex_value(s[j - 1]) {
            Some(d) => d,
            None => 0,
        }
    }
}

/// The group written at `i` with one to four hexadecimal digits, and the
/// offset behind it.
pub open spec fn group_at(s: Seq<char>, i: int) -> Option<(u16, int)> {
    let j = hex_end(s, i);
    if i < j <= i + 4 {
        Some((hex_number(s, i, j) as u16, j))
    } else {
        None
    }
}

/// The first of the two groups that hold an address of version 4.
pub open spec fn upper_group(ip: IpAddress) -> u16 {
    match ip {
        IpAddress::V4(a, b, _, _) => (a as int * 256 + b as int) as u16,
        _ => 0,
    }
}

/// The second of the two groups that hold an address of version 4.
pub open spec fn lower_group(ip: IpAddress) -> u16 {
    match ip {
        IpAddress::V4(_, _, c, d) => (c as int * 256 + d as int) as u16,
        _ => 0,
    }
}

/// The offset at which the next group starts, `i` where no group is read
/// yet, else behind the colon at `i`; `None` where no colon stands there.
pub open spec fn group_start(s: Seq<char>, i: int, first: bool) -> Option<int> {
    if first {
        Some(i)
    } else if 0 <= i < s.len() && s[i] == ':' {
        Some(i + 1)
    } else {
        None
    }
}

/// The groups read from `i` on behind the groups `acc`, at most `limit`
/// in all, with a colon between them: the groups, the offset behind
/// them, and whether they end in an address of version 4. Where two
/// groups or more may follow, an address of version 4 is read as the two
/// last groups.
pub open spec fn groups_from(s: Seq<char>, i: int, acc: Seq<u16>, limit: int) -> (
    Seq<u16>,
    int,
    bool,
)
    decreases limit - acc.len(),
{
    if acc.len() >= limit {
        (acc, i, false)
    } else {
        match group_start(s, i, acc.len() == 0) {
            None => (acc, i, false),
            Some(j) => if acc.len() + 1 < limit && ipv4_at(s, j) is Some {
                let (ip, k) = ipv4_at(s, j)->0;
                (acc.push(upper_group(ip)).push(lower_group(ip)), k, true)
            } else {
                match group_at(s, j) {
                    Some((g, k)) => groups_from(s, k, acc.push(g), limit),
                    None => (acc, i, false),
                }
            },
        }
    }
}

/// `n` groups that are zero.
pub open spec fn zeros(n: int) -> Seq<u16> {
    Seq::new(
        if n > 0 {
            n as nat
        } else {
            0
        },
        |k: int| 0u16,
    )
}

/// The eight groups of the address of version 6 that starts at `i`, and
/// the offset behind it: eight groups, or fewer with `::` where the
/// groups that are left out are zero.
pub open spec fn ipv6_at(s: Seq<char>, i: int) -> Option<(Seq<u16>, int)> {
    let (head, j, four) = groups_from(s, i, Seq::empty(), 8);
    if head.len() == 8 {
        Some((head, j))
    } else if four {
        None
    } else if 0 <= j && j + 1 < s.len() && s[j] == ':' && s[j + 1] == ':' {
        let (tail, k, _) = groups_from(s, j + 2, Seq::empty(), 7 - head.len());
        Some((head + zeros(8 - head.len() - tail.len()) + tail, k))
    } else {
        None
    }
}

/// A run of hexadecimal digits ends at or behind its start, in the text,
/// at a character that is no such digit.
pub proof fn lemma_hex_end(s: Seq<char>, i: int)
    requires
        0 <= i <= s.len(),
    ensures
        i <= hex_end(s, i) <= s.len(),
        hex_end(s, i) < s.len() ==> hex_value(s[hex_end(s, i)]) is None,
    decreases s.len() - i,
{
    if i < s.len() && hex_value(s[i]) is Some {
        lemma_hex_end(s, i + 1);
    }
}

/// Reads the group written at `i`.
pub fn read_group(s: &Vec<char>, i: usize) -> (r: Option<(u16, usize)>)
    requires
        i <= s.len(),
    ensures
        match group_at(s@, i as int) {
            Some((g, j)) => r == Some((g, j as usize)) && i < j <= s.len(),
            None => r is None,
        },
{
    let mut j: usize = i;
    let mut n: u32 = 0;
    while j < s.len() && j - i < 5 && value_of_hex(s[j]).is_some()
        invariant
            i <= j <= s.len(),
            j - i <= 5,
            hex_end(s@, i as int) == hex_end(s@, j as int),
            n == hex_number(s@, i as int, j as int),
            j - i == 0 ==> n == 0,
            j - i == 1 ==> n < 16,
            j - i == 2 ==> n < 256,
            j - i == 3 ==> n < 4096,
            j - i == 4 ==> n < 65536,
            n < 1048576,
        decreases s.len() - j,
    {
        let d = value_of_hex(s[j]).unwrap();
        n = n * 16 + d;
        j += 1;
    }
    proof {
        lemma_hex_end(s@, j as int);
    }
    if i < j && j - i <= 4 {
        Some((n as u16, j))
    } else {
        None
    }
}

/// An address that is read as one of version 4 is of version 4.
pub proof fn lemma_four(s: Seq<char>, i: int)
    ensures
        ipv4_at(s, i) matches Some((ip, _)) ==> ip is V4,
{
}

/// Reads groups from `i` on, at most `limit`.
pub fn read_groups(s: &Vec<char>, i: usize, limit: usize) -> (r: (Vec<u16>, usize, bool))
    requires
        i <= s.len(),
        limit <= 8,
    ensures
        (r.0@, r.1 as int, r.2) == groups_from(s@, i as int, Seq::empty(), limit as int),
        r.0.len() <= limit,
        r.1 <= s.len(),
{
    let mut acc: Vec<u16> = Vec::new();
    let mut at: usize = i;
    while acc.len() < limit
        invariant
            at <= s.len(),
            acc.len() <= limit <= 8,
            groups_from(s@, i as int, Seq::empty(), limit as int) == groups_from(
                s@,
                at as int,
                acc@,
                limit as int,
            ),
        decreases limit - acc.len(),
    {
        let start = if acc.len() == 0 {
            at
        } else if at < s.len() && s[at] == ':' {
            at + 1
        } else {
            return (acc, at, false);
        };
        if acc.len() + 1 < limit {
            match read_ipv4(s, start) {
                Some((ip, k)) => {
                    proof {
                        lemma_four(s@, start as int);
                    }
                    match ip {
                        IpAddress::V4(a, b, c, d) => {
                            let upper: u16 = (a as u16) * 256 + (b as u16);
                            let lower: u16 = (c as u16) * 256 + (d as u16);
                            acc.push(upper);
                            acc.push(lower);
                            return (acc, k, true);
                        },
                        _ => {
                            return (acc, at, false);
                        },
                    }
                },
                None => {},
            }
        }
        match read_group(s, start) {
            Some((g, k)) => {
                acc.push(g);
                at = k;
            },
            None => {
                return (acc, at, false);
            },
        }
    }
    (acc, at, false)
}

/// Reads the address of version 6 that starts at `i`.
pub fn read_ipv6(s: &Vec<char>, i: usize) -> (r: Option<(Vec<u16>, usize)>)
    requires
        i <= s.len(),
    ensures
        match ipv6_at(s@, i as int) {
            Some((g, j)) => r matches Some(x) && x.0@ == g && x.1 == j && g.len() == 8 && j
                <= s.len(),
            None => r is None,
        },
{
    let (head, j, four) = read_groups(s, i, 8);
    if head.len() == 8 {
        return Some((head, j));
    }
    if four {
        return None;
    }
    if !(j < s.len() && j + 1 < s.len() && s[j] == ':' && s[j + 1] == ':') {
        return None;
    }
    let (tail, k, _) = read_groups(s, j + 2, 7 - head.len());
    let mut all: Vec<u16> = head;
    let ghost first = all@;
    let gap: usize = 8 - all.len() - tail.len();
    let mut n: usize = 0;
    while n < gap
        invariant
            n <= gap,
            gap + first.len() + tail.len() == 8,
            all@ =~= first + zeros(n as int),
        decreases gap - n,
    {
        all.push(0);
        n += 1;
    }
    let mut m: usize = 0;
    while m < tail.len()
        invariant
            m <= tail.len(),
            gap + first.len() + tail.len() == 8,
            all@ =~= first + zeros(gap as int) + tail@.take(m as int),
        decreases tail.len() - m,
    {
        all.push(tail[m]);
        m += 1;
    }
    assert(tail@.take(tail.len() as int) =~= tail@);
    Some((all, k))
}

/// The hexadecimal digits of `n` in lower case, without leading zeros.
pub open spec fn hex_text(n: nat) -> Seq<char>
    decreases n,
{
    if n < 16 {
        seq![hex_char(n as int)]
    } else {
        hex_text(n / 16).push(hex_char((n % 16) as int))
    }
}

/// The groups `g[i..j]` in hexadecimal, with a colon between them.
pub open spec fn groups_text(g: Seq<u16>, i: int, j: int) -> Seq<char>
    decreases j - i,
{
    if j <= i {
        Seq::empty()
    } else if j == i + 1 {
        hex_text(g[i] as nat)
    } else {
        groups_text(g, i, j - 1) + seq![':'] + hex_text(g[j - 1] as nat)
    }
}

/// The first longest run of groups that are zero: where it starts and
/// how long it is. The groups before `i` are looked at already: `run` of
/// them, right before `i`, are zero, and the longest run among them
/// starts at `best` and is `len` long.
pub open spec fn longest_run(g: Seq<u16>, i: int, run: int, best: int, len: int) -> (int, int)
    decreases g.len() - i,
{
    if i < 0 || i >= g.len() {
        (best, len)
    } else if g[i] == 0 {
        if run + 1 > len {
            longest_run(g, i + 1, run + 1, i - run, run + 1)
        } else {
            longest_run(g, i + 1, run + 1, best, len)
        }
    } else {
        longest_run(g, i + 1, 0, best, len)
    }
}

/// Whether the groups hold an address of version 4 behind five groups
/// that are zero and one of sixteen bits that are set.
pub open spec fn holds_four(g: Seq<u16>) -> bool {
    g.len() == 8 && g[0] == 0 && g[1] == 0 && g[2] == 0 && g[3] == 0 && g[4] == 0 && g[5]
        == 0xffff
}

/// The text of an address of version 6 with the groups `g`: the groups
/// in hexadecimal with colons between them, and `::` in place of the
/// first longest run of two or more groups that are zero. An address
/// that holds one of version 4 is written as `::ffff:` and that address.
pub open spec fn ipv6_text(g: Seq<u16>) -> Seq<char> {
    if holds_four(g) {
        seq![':', ':', 'f', 'f', 'f', 'f', ':'] + four_text(
            (g[6] / 256) as u8,
            (g[6] % 256) as u8,
            (g[7] / 256) as u8,
            (g[7] % 256) as u8,
        )
    } else {
        let (best, len) = longest_run(g, 0, 0, 0, 0);
        if len >= 2 {
            groups_text(g, 0, best) + seq![':', ':'] + groups_text(g, best + len, g.len() as int)
        } else {
            groups_text(g, 0, g.len() as int)
        }
    }
}

/// Writes the hexadecimal digits of `n` behind `out`.
pub fn push_hex(out: &mut String, n: u16)
    ensures
        final(out)@ == old(out)@ + hex_text(n as nat),
    decreases n,
{
    if n >= 16 {
        push_hex(out, n / 16);
    }
    out.push(hex_of(n % 16));
    assert(out@ =~= old(out)@ + hex_text(n as nat));
}

/// Writes the groups `g[i..j]` behind `out`, with a colon between them.
pub fn push_groups(out: &mut String, g: &Vec<u16>, i: usize, j: usize)
    requires
        i <= j <= g.len(),
    ensures
        final(out)@ == old(out)@ + groups_text(g@, i as int, j as int),
{
    let mut k: usize = i;
    assert(old(out)@ + groups_text(g@, i as int, i as int) =~= old(out)@);
    while k < j
        invariant
            i <= k <= j <= g.len(),
            out@ == old(out)@ + groups_text(g@, i as int, k as int),
        decreases j - k,
    {
        let ghost before = out@;
        if k > i {
            out.push(':');
        }
        push_hex(out, g[k]);
        k += 1;
        assert(out@ =~= old(out)@ + groups_text(g@, i as int, k as int));
    }
}

/// Finds the first longest run of groups that are zero.
pub fn find_run(g: &Vec<u16>) -> (r: (usize, usize))
    requires
        g.len() == 8,
    ensures
        (r.0 as int, r.1 as int) == longest_run(g@, 0, 0, 0, 0),
        r.0 + r.1 <= 8,
{
    let mut i: usize = 0;
    let mut run: usize = 0;
    let mut best: usize = 0;
    let mut len: usize = 0;
    while i < 8
        invariant
            i <= 8,
            g.len() == 8,
            run <= i,
            best + len <= i,
            longest_run(g@, 0, 0, 0, 0) == longest_run(
                g@,
                i as int,
                run as int,
                best as int,
                len as int,
            ),
        decreases 8 - i,
    {
        if g[i] == 0 {
            run += 1;
            if run > len {
                best = i + 1 - run;
                len = run;
            }
        } else {
            run = 0;
        }
        i += 1;
    }
    (best, len)
}

/// Writes the text of the address of version 6 with the groups `g`
/// behind `out`.
pub fn push_ipv6(out: &mut String, g: &Vec<u16>)
    requires
        g.len() == 8,
    ensures
        final(out)@ == old(out)@ + ipv6_text(g@),
{
    if g[0] == 0 && g[1] == 0 && g[2] == 0 && g[3] == 0 && g[4] == 0 && g[5] == 0xffff {
        out.push(':');
        out.push(':');
        out.push('f');
        out.push('f');
        out.push('f');
        out.push('f');
        out.push(':');
        push_four(
            out,
            (g[6] / 256) as u8,
            (g[6] % 256) as u8,
            (g[7] / 256) as u8,
            (g[7] % 256) as u8,
        );
        assert(out@ =~= old(out)@ + ipv6_text(g@));
    } else {
        let (best, len) = find_run(g);
        if len >= 2 {
            push_groups(out, g, 0, best);
            out.push(':');
            out.push(':');
            push_groups(out, g, best + len, 8);
        } else {
            push_groups(out, g, 0, 8);
        }
        assert(out@ =~= old(out)@ + ipv6_text(g@));
    }
}

} // verus!
