//! Reading back an address of version 6 that was written.

use vstd::prelude::*;
use crate::net6::{
    group_at, group_start, groups_from, groups_text, hex_char, hex_end, hex_number, hex_text,
    hex_value, holds_four, ipv6_at, ipv6_text, longest_run, zeros,
};
use crate::net::{
    digits_end, four_text, ip_spec, ip_text, ipv4_at, lemma_digits_end, octet_at, port_at,
    socket_spec, socket_text, IpAddress, SocketAddress,
};
use crate::net_laws::{holds_number, lemma_digit_run, lemma_number_at, lemma_octet_at};
use crate::number_laws::lemma_decimal_digits;
use crate::text::{decimal, digit_value};

verus! {

/// Whether `c` is a hexadecimal digit in lower case.
pub open spec fn is_hex(c: char) -> bool {
    ('0' <= c && c <= '9') || ('a' <= c && c <= 'f')
}

/// A hexadecimal digit is read back from its character.
pub proof fn lemma_hex_char(d: int)
    requires
        0 <= d < 16,
    ensures
        hex_value(hex_char(d)) == Some(d),
        is_hex(hex_char(d)),
{
}

/// The hexadecimal form of a group has one to four digits.
pub proof fn lemma_hex_text(n: nat)
    ensures
        hex_text(n).len() >= 1,
        n < 16 ==> hex_text(n).len() == 1,
        n < 256 ==> hex_text(n).len() <= 2,
        n < 4096 ==> hex_text(n).len() <= 3,
        n < 65536 ==> hex_text(n).len() <= 4,
        forall|k: int| 0 <= k < hex_text(n).len() ==> is_hex(#[trigger] hex_text(n)[k]),
    decreases n,
{
    if n < 16 {
        lemma_hex_char(n as int);
    } else {
        lemma_hex_text(n / 16);
        lemma_hex_char((n % 16) as int);
        let s = hex_text(n);
        assert forall|k: int| 0 <= k < s.len() implies is_hex(#[trigger] s[k]) by {
            if k < s.len() - 1 {
                assert(s[k] == hex_text(n / 16)[k]);
            }
        }
    }
}

/// The digits of a group that stand in a text are read as the group.
pub proof fn lemma_hex_number(s: Seq<char>, p: int, n: nat)
    requires
        0 <= p,
        p + hex_text(n).len() <= s.len(),
        s.subrange(p, p + hex_text(n).len()) == hex_text(n),
    ensures
        hex_number(s, p, p + hex_text(n).len()) == n,
    decreases n,
{
    let t = hex_text(n);
    let e = p + t.len();
    lemma_hex_text(n);
    assert(s[e - 1] == t[t.len() - 1]) by {
        assert(s.subrange(p, e)[t.len() - 1] == s[e - 1]);
    }
    if n < 16 {
        lemma_hex_char(n as int);
        assert(hex_number(s, p, p) == 0);
    } else {
        let q = hex_text(n / 16);
        lemma_hex_char((n % 16) as int);
        assert(s.subrange(p, p + q.len()) =~= q) by {
            assert forall|k: int| 0 <= k < q.len() implies s.subrange(p, p + q.len())[k]
                == q[k] by {
                assert(s.subrange(p, e)[k] == t[k]);
            }
        }
        lemma_hex_number(s, p, n / 16);
    }
}

/// A run of hexadecimal digits goes on to its last digit.
pub proof fn lemma_hex_run(s: Seq<char>, i: int, e: int)
    requires
        0 <= i <= e <= s.len(),
        forall|k: int| i <= k < e ==> is_hex(#[trigger] s[k]),
        e < s.len() ==> hex_value(s[e]) is None,
    ensures
        hex_end(s, i) == e,
    decreases e - i,
{
    if i < e {
        assert(is_hex(s[i]));
        lemma_hex_run(s, i + 1, e);
    }
}

/// Whether the hexadecimal form of `n` stands at `p` in `s`, and no
/// hexadecimal digit and no dot behind it.
pub open spec fn holds_group(s: Seq<char>, p: int, n: u16) -> bool {
    &&& 0 <= p
    &&& p + hex_text(n as nat).len() <= s.len()
    &&& s.subrange(p, p + hex_text(n as nat).len()) == hex_text(n as nat)
    &&& p + hex_text(n as nat).len() < s.len() ==> hex_value(s[p + hex_text(n as nat).len()])
        is None && s[p + hex_text(n as nat).len()] != '.'
}

/// A group is read from its hexadecimal form, and no address of version 4
/// is read there.
pub proof fn lemma_group_at(s: Seq<char>, p: int, n: u16)
    requires
        holds_group(s, p, n),
    ensures
        group_at(s, p) == Some((n, p + hex_text(n as nat).len())),
        ipv4_at(s, p) is None,
{
    let t = hex_text(n as nat);
    let e = p + t.len();
    lemma_hex_text(n as nat);
    assert forall|k: int| p <= k < e implies is_hex(#[trigger] s[k]) by {
        assert(s.subrange(p, e)[k - p] == s[k]);
        assert(is_hex(t[k - p]));
    }
    lemma_hex_run(s, p, e);
    lemma_hex_number(s, p, n as nat);
    lemma_digits_end(s, p);
    let d = digits_end(s, p);
    if d < e {
        assert(is_hex(s[d]));
    } else if d > e {
        assert(digit_value(s[e]) is Some);
    }
    assert(octet_at(s, p) matches Some((_, j)) ==> j == d);
}

/// The offset of the group `k` in the text of the groups from `i` on,
/// behind its colon where it has one.
pub open spec fn group_offset(g: Seq<u16>, i: int, k: int) -> int {
    groups_text(g, i, k).len() + if k > i {
        1int
    } else {
        0int
    }
}

/// The text of the groups `g[i..j]` holds the digits of each group `k`,
/// behind the text of the groups before it and a colon.
pub proof fn lemma_text_parts(g: Seq<u16>, i: int, k: int, j: int)
    requires
        0 <= i <= k < j <= g.len(),
    ensures
        ({
            let all = groups_text(g, i, j);
            let t = hex_text(g[k] as nat);
            let st = group_offset(g, i, k);
            &&& st + t.len() == groups_text(g, i, k + 1).len()
            &&& st + t.len() <= all.len()
            &&& k > i ==> all[st - 1] == ':'
            &&& all.subrange(st, st + t.len()) == t
            &&& k + 1 < j ==> st + t.len() < all.len() && all[st + t.len()] == ':'
            &&& k + 1 == j ==> st + t.len() == all.len()
        }),
    decreases j - k,
{
    let t = hex_text(g[k] as nat);
    let a = groups_text(g, i, k);
    let st = group_offset(g, i, k);
    let next = groups_text(g, i, k + 1);
    if k > i {
        assert(next == a + seq![':'] + t);
    } else {
        assert(a =~= Seq::<char>::empty());
        assert(next == t);
    }
    assert(next.subrange(st, st + t.len()) =~= t);
    if j > k + 1 {
        lemma_text_parts(g, i, k, j - 1);
        let before = groups_text(g, i, j - 1);
        let all = groups_text(g, i, j);
        assert(all == before + seq![':'] + hex_text(g[j - 1] as nat));
        assert(all.subrange(st, st + t.len()) =~= before.subrange(st, st + t.len()));
        if k > i {
            assert(all[st - 1] == before[st - 1]);
        }
        if k + 1 < j - 1 {
            assert(all[st + t.len()] == before[st + t.len()]);
        } else {
            assert(st + t.len() == before.len());
            assert(all[before.len() as int] == ':');
        }
    }
}

/// Whether no group is read at `e` behind `n` groups, where at most
/// `limit` are read.
pub open spec fn halts(s: Seq<char>, e: int, n: int, limit: int) -> bool {
    n >= limit || match group_start(s, e, n == 0) {
        None => true,
        Some(q) => (n + 1 >= limit || ipv4_at(s, q) is None) && group_at(s, q) is None,
    }
}

/// Whether the text of the groups `g[i..j]` stands at `p` in `s`, and
/// behind it no hexadecimal digit and no dot.
pub open spec fn holds_groups(s: Seq<char>, p: int, g: Seq<u16>, i: int, j: int) -> bool {
    let t = groups_text(g, i, j);
    &&& 0 <= p
    &&& p + t.len() <= s.len()
    &&& s.subrange(p, p + t.len()) == t
    &&& p + t.len() < s.len() ==> hex_value(s[p + t.len()]) is None && s[p + t.len()] != '.'
}

/// The groups are read from their text, from the group `k` on, when the
/// groups before it are read.
pub proof fn lemma_groups_read(
    s: Seq<char>,
    p: int,
    g: Seq<u16>,
    i: int,
    j: int,
    k: int,
    limit: int,
)
    requires
        0 <= i <= k <= j <= g.len(),
        i < j,
        holds_groups(s, p, g, i, j),
        halts(s, p + groups_text(g, i, j).len(), j - i, limit),
        j - i <= limit,
    ensures
        groups_from(s, p + groups_text(g, i, k).len(), g.subrange(i, k), limit) == (
            g.subrange(i, j),
            p + groups_text(g, i, j).len(),
            false,
        ),
    decreases j - k,
{
    let all = groups_text(g, i, j);
    let acc = g.subrange(i, k);
    let at = p + groups_text(g, i, k).len();
    if k == j {
    } else {
        lemma_text_parts(g, i, k, j);
        let t = hex_text(g[k] as nat);
        let st = group_offset(g, i, k);
        assert(groups_text(g, i, i) =~= Seq::<char>::empty());
        if k > i {
            assert(s.subrange(p, p + all.len())[st - 1] == s[p + st - 1]);
            assert(s[at] == ':');
        }
        assert(group_start(s, at, acc.len() == 0) == Some(p + st));
        assert(s.subrange(p + st, p + st + t.len()) =~= t) by {
            assert forall|x: int| 0 <= x < t.len() implies s.subrange(
                p + st,
                p + st + t.len(),
            )[x] == t[x] by {
                assert(s.subrange(p, p + all.len())[st + x] == s[p + st + x]);
                assert(all.subrange(st, st + t.len())[x] == all[st + x]);
            }
        }
        if k + 1 < j {
            assert(s.subrange(p, p + all.len())[st + t.len()] == s[p + st + t.len()]);
            assert(s[p + st + t.len()] == ':');
        }
        assert(holds_group(s, p + st, g[k]));
        lemma_group_at(s, p + st, g[k]);
        assert(acc.push(g[k]) =~= g.subrange(i, k + 1));
        lemma_groups_read(s, p, g, i, j, k + 1, limit);
    }
}

/// The first longest run of groups that are zero lies in the groups, and
/// its groups are zero.
pub proof fn lemma_longest_run(g: Seq<u16>, i: int, run: int, best: int, len: int)
    requires
        0 <= i <= g.len(),
        0 <= run <= i,
        0 <= best,
        0 <= len,
        best + len <= i,
        forall|k: int| i - run <= k < i ==> g[k] == 0,
        forall|k: int| best <= k < best + len ==> g[k] == 0,
    ensures
        ({
            let r = longest_run(g, i, run, best, len);
            &&& 0 <= r.0
            &&& 0 <= r.1
            &&& r.0 + r.1 <= g.len()
            &&& forall|k: int| r.0 <= k < r.0 + r.1 ==> g[k] == 0
        }),
    decreases g.len() - i,
{
    if i < g.len() {
        if g[i] == 0 {
            if run + 1 > len {
                lemma_longest_run(g, i + 1, run + 1, i - run, run + 1);
            } else {
                lemma_longest_run(g, i + 1, run + 1, best, len);
            }
        } else {
            lemma_longest_run(g, i + 1, 0, best, len);
        }
    }
}

/// Where the text of groups stands, the digits of the first group stand.
pub proof fn lemma_first_group(s: Seq<char>, p: int, g: Seq<u16>, i: int, j: int)
    requires
        0 <= i < j <= g.len(),
        holds_groups(s, p, g, i, j),
    ensures
        holds_group(s, p, g[i]),
{
    let all = groups_text(g, i, j);
    let t = hex_text(g[i] as nat);
    lemma_text_parts(g, i, i, j);
    assert(groups_text(g, i, i) =~= Seq::<char>::empty());
    assert(s.subrange(p, p + t.len()) =~= t) by {
        assert forall|x: int| 0 <= x < t.len() implies s.subrange(p, p + t.len())[x] == t[x] by {
            assert(s.subrange(p, p + all.len())[x] == s[p + x]);
            assert(all.subrange(0, t.len() as int)[x] == all[x]);
        }
    }
    if i + 1 < j {
        assert(s.subrange(p, p + all.len())[t.len() as int] == s[p + t.len()]);
    }
}

/// No group and no address of version 4 is read where no hexadecimal
/// digit stands.
pub proof fn lemma_no_group(s: Seq<char>, q: int)
    requires
        0 <= q <= s.len(),
        q < s.len() ==> hex_value(s[q]) is None,
    ensures
        group_at(s, q) is None,
        ipv4_at(s, q) is None,
{
    lemma_hex_run(s, q, q);
    lemma_digits_end(s, q);
    if q < s.len() {
        assert(digit_value(s[q]) is None);
    }
}

/// An address of version 4 is read from its text, wherever it stands.
pub proof fn lemma_four_at(s: Seq<char>, p: int, a: u8, b: u8, c: u8, d: u8)
    requires
        0 <= p,
        p + four_text(a, b, c, d).len() <= s.len(),
        s.subrange(p, p + four_text(a, b, c, d).len()) == four_text(a, b, c, d),
        p + four_text(a, b, c, d).len() < s.len() ==> digit_value(
            s[p + four_text(a, b, c, d).len()],
        ) is None,
    ensures
        ipv4_at(s, p) == Some((IpAddress::V4(a, b, c, d), p + four_text(a, b, c, d).len())),
{
    let da = decimal(a as nat);
    let db = decimal(b as nat);
    let dc = decimal(c as nat);
    let dd = decimal(d as nat);
    let t = four_text(a, b, c, d);
    let e = p + t.len();
    let pb = p + da.len() + 1;
    let pc = pb + db.len() + 1;
    let pd = pc + dc.len() + 1;
    assert(t =~= da + seq!['.'] + db + seq!['.'] + dc + seq!['.'] + dd);
    assert forall|x: int| 0 <= x < t.len() implies s[p + x] == #[trigger] t[x] by {
        assert(s.subrange(p, e)[x] == s[p + x]);
    }
    assert(s.subrange(p, p + da.len()) =~= da) by {
        assert forall|x: int| 0 <= x < da.len() implies s.subrange(p, p + da.len())[x]
            == da[x] by {
            assert(t[x] == da[x]);
        }
    }
    assert(s.subrange(pb, pb + db.len()) =~= db) by {
        assert forall|x: int| 0 <= x < db.len() implies s.subrange(pb, pb + db.len())[x]
            == db[x] by {
            assert(t[pb - p + x] == db[x]);
        }
    }
    assert(s.subrange(pc, pc + dc.len()) =~= dc) by {
        assert forall|x: int| 0 <= x < dc.len() implies s.subrange(pc, pc + dc.len())[x]
            == dc[x] by {
            assert(t[pc - p + x] == dc[x]);
        }
    }
    assert(s.subrange(pd, pd + dd.len()) =~= dd) by {
        assert forall|x: int| 0 <= x < dd.len() implies s.subrange(pd, pd + dd.len())[x]
            == dd[x] by {
            assert(t[pd - p + x] == dd[x]);
        }
    }
    assert(s[pb - 1] == '.') by {
        assert(t[pb - 1 - p] == '.');
    }
    assert(s[pc - 1] == '.') by {
        assert(t[pc - 1 - p] == '.');
    }
    assert(s[pd - 1] == '.') by {
        assert(t[pd - 1 - p] == '.');
    }
    assert(pd + dd.len() == e);
    assert(holds_number(s, p, a as nat));
    assert(holds_number(s, pb, b as nat));
    assert(holds_number(s, pc, c as nat));
    assert(holds_number(s, pd, d as nat));
    lemma_octet_at(s, p, a);
    lemma_octet_at(s, pb, b);
    lemma_octet_at(s, pc, c);
    lemma_octet_at(s, pd, d);
}

/// Whether the text of the address of version 6 with the groups `g`
/// stands at `p` in `s`, and behind it no hexadecimal digit, no dot and
/// no colon.
pub open spec fn holds_six(s: Seq<char>, p: int, g: Seq<u16>) -> bool {
    let t = ipv6_text(g);
    &&& 0 <= p
    &&& p + t.len() <= s.len()
    &&& s.subrange(p, p + t.len()) == t
    &&& p + t.len() < s.len() ==> hex_value(s[p + t.len()]) is None && s[p + t.len()] != '.'
        && s[p + t.len()] != ':'
}

/// An address of version 6 that is written with one of version 4 in it
/// is read from its text.
pub proof fn lemma_mapped_at(s: Seq<char>, p: int, g: Seq<u16>)
    requires
        holds_four(g),
        holds_six(s, p, g),
    ensures
        ipv6_at(s, p) == Some((g, p + ipv6_text(g).len())),
        ipv4_at(s, p) is None,
{
    let a = (g[6] / 256) as u8;
    let b = (g[6] % 256) as u8;
    let c = (g[7] / 256) as u8;
    let d = (g[7] % 256) as u8;
    let four = four_text(a, b, c, d);
    let t = ipv6_text(g);
    let e = p + t.len();
    let none = Seq::<u16>::empty();
    assert(t == seq![':', ':', 'f', 'f', 'f', 'f', ':'] + four);
    assert forall|x: int| 0 <= x < t.len() implies s[p + x] == #[trigger] t[x] by {
        assert(s.subrange(p, e)[x] == s[p + x]);
    }
    assert(s[p] == t[0] && s[p + 1] == t[1] && s[p + 2] == t[2] && s[p + 3] == t[3] && s[p + 4]
        == t[4] && s[p + 5] == t[5] && s[p + 6] == t[6]);
    lemma_no_group(s, p);
    assert(group_start(s, p, true) == Some(p));
    assert(groups_from(s, p, none, 8) == (none, p, false));
    assert(hex_text(0xffff) =~= seq!['f', 'f', 'f', 'f']) by {
        reveal_with_fuel(hex_text, 5);
    }
    assert(s.subrange(p + 2, p + 6) =~= hex_text(0xffff));
    assert(holds_group(s, p + 2, 0xffff));
    lemma_group_at(s, p + 2, 0xffff);
    assert(s.subrange(p + 7, e) =~= four) by {
        assert forall|x: int| 0 <= x < four.len() implies s.subrange(p + 7, e)[x] == four[x] by {
            assert(t[7 + x] == four[x]);
        }
    }
    lemma_four_at(s, p + 7, a, b, c, d);
    let first = none.push(0xffff);
    assert(group_start(s, p + 6, false) == Some(p + 7));
    assert(groups_from(s, p + 6, first, 7) == (first.push(g[6]).push(g[7]), e, true));
    assert(group_start(s, p + 2, true) == Some(p + 2));
    assert(groups_from(s, p + 2, none, 7) == (first.push(g[6]).push(g[7]), e, true));
    let tail = first.push(g[6]).push(g[7]);
    assert(none + zeros(8 - none.len() - tail.len()) + tail =~= g);
}

/// An address of version 6 is read from its text.
pub proof fn lemma_ipv6_at(s: Seq<char>, p: int, g: Seq<u16>)
    requires
        g.len() == 8,
        holds_six(s, p, g),
    ensures
        ipv6_at(s, p) == Some((g, p + ipv6_text(g).len())),
        ipv4_at(s, p) is None,
{
    let t = ipv6_text(g);
    let e = p + t.len();
    let (best, len) = longest_run(g, 0, 0, 0, 0);
    lemma_longest_run(g, 0, 0, 0, 0);
    let none = Seq::<u16>::empty();
    assert(g.subrange(0, 0) =~= none);
    assert(groups_text(g, 0, 0) =~= Seq::<char>::empty());
    if holds_four(g) {
        lemma_mapped_at(s, p, g);
    } else if len < 2 {
        assert(t == groups_text(g, 0, 8));
        assert(holds_groups(s, p, g, 0, 8));
        lemma_first_group(s, p, g, 0, 8);
        lemma_group_at(s, p, g[0]);
        lemma_groups_read(s, p, g, 0, 8, 0, 8);
        assert(g.subrange(0, 8) =~= g);
    } else {
        let a = groups_text(g, 0, best);
        let from = best + len;
        let b = groups_text(g, from, 8);
        assert(t == a + seq![':', ':'] + b);
        let e1 = p + a.len();
        assert(s[e1] == ':' && s[e1 + 1] == ':') by {
            assert(s.subrange(p, e)[a.len() as int] == s[e1]);
            assert(s.subrange(p, e)[a.len() as int + 1] == s[e1 + 1]);
        }
        assert(s.subrange(p, e1) =~= a) by {
            assert forall|x: int| 0 <= x < a.len() implies s.subrange(p, e1)[x] == a[x] by {
                assert(s.subrange(p, e)[x] == s[p + x]);
            }
        }
        assert(s.subrange(e1 + 2, e) =~= b) by {
            assert forall|x: int| 0 <= x < b.len() implies s.subrange(e1 + 2, e)[x] == b[x] by {
                assert(s.subrange(p, e)[a.len() as int + 2 + x] == s[e1 + 2 + x]);
            }
        }
        lemma_no_group(s, e1 + 1);
        lemma_no_group(s, e1);
        if best > 0 {
            assert(holds_groups(s, p, g, 0, best));
            assert(group_start(s, e1, false) == Some(e1 + 1));
            assert(halts(s, e1, best, 8));
            lemma_first_group(s, p, g, 0, best);
            lemma_group_at(s, p, g[0]);
            lemma_groups_read(s, p, g, 0, best, 0, 8);
        } else {
            assert(e1 == p);
            assert(group_start(s, p, true) == Some(p));
            assert(groups_from(s, p, none, 8) == (none, p, false));
        }
        let head = g.subrange(0, best);
        assert(groups_from(s, p, none, 8) == (head, e1, false));
        let limit = 7 - best;
        assert(g.subrange(from, from) =~= none);
        assert(groups_text(g, from, from) =~= Seq::<char>::empty());
        if from < 8 {
            assert(holds_groups(s, e1 + 2, g, from, 8));
            assert(group_start(s, e, false) is None);
            assert(halts(s, e, 8 - from, limit));
            lemma_groups_read(s, e1 + 2, g, from, 8, from, limit);
        } else {
            assert(b =~= Seq::<char>::empty());
            assert(e == e1 + 2);
            lemma_no_group(s, e);
            assert(group_start(s, e, true) == Some(e));
            assert(groups_from(s, e, none, limit) == (none, e, false));
        }
        let tail = g.subrange(from, 8);
        assert(groups_from(s, e1 + 2, none, limit) == (tail, e, false));
        assert(head + zeros(8 - head.len() - tail.len()) + tail =~= g);
    }
}

/// Whether `c` can stand in the text of an address of version 6: a
/// hexadecimal digit in lower case, a colon or a dot.
pub open spec fn is_six_char(c: char) -> bool {
    is_hex(c) || c == ':' || c == '.'
}

/// The text of groups is made of hexadecimal digits and colons.
pub proof fn lemma_groups_chars(g: Seq<u16>, i: int, j: int)
    requires
        0 <= i <= j <= g.len(),
    ensures
        forall|k: int|
            0 <= k < groups_text(g, i, j).len() ==> is_six_char(#[trigger] groups_text(g, i, j)[k]),
        i < j ==> groups_text(g, i, j).len() > 0,
    decreases j - i,
{
    if i < j {
        lemma_hex_text(g[j - 1] as nat);
        let t = hex_text(g[j - 1] as nat);
        let all = groups_text(g, i, j);
        if j > i + 1 {
            lemma_groups_chars(g, i, j - 1);
            let before = groups_text(g, i, j - 1);
            assert forall|k: int| 0 <= k < all.len() implies is_six_char(#[trigger] all[k]) by {
                if k < before.len() {
                    assert(all[k] == before[k]);
                } else if k > before.len() {
                    assert(all[k] == t[k - before.len() - 1]);
                    assert(is_hex(t[k - before.len() - 1]));
                }
            }
        } else {
            assert forall|k: int| 0 <= k < all.len() implies is_six_char(#[trigger] all[k]) by {
                assert(is_hex(t[k]));
            }
        }
    }
}

/// The text of an address of version 6 is made of hexadecimal digits,
/// colons and dots.
pub proof fn lemma_six_chars(g: Seq<u16>)
    requires
        g.len() == 8,
    ensures
        ipv6_text(g).len() > 0,
        forall|k: int| 0 <= k < ipv6_text(g).len() ==> is_six_char(#[trigger] ipv6_text(g)[k]),
{
    let t = ipv6_text(g);
    let (best, len) = longest_run(g, 0, 0, 0, 0);
    lemma_longest_run(g, 0, 0, 0, 0);
    if holds_four(g) {
        let inner = IpAddress::V4(
            (g[6] / 256) as u8,
            (g[6] % 256) as u8,
            (g[7] / 256) as u8,
            (g[7] % 256) as u8,
        );
        let four = ip_text(inner);
        crate::forms_net::lemma_ip_chars(inner);
        assert(t == seq![':', ':', 'f', 'f', 'f', 'f', ':'] + four);
        assert forall|k: int| 0 <= k < t.len() implies is_six_char(#[trigger] t[k]) by {
            if k >= 7 {
                assert(t[k] == four[k - 7]);
                assert(crate::forms_net::is_address_char(four[k - 7]));
            }
        }
    } else if len < 2 {
        lemma_groups_chars(g, 0, 8);
    } else {
        let a = groups_text(g, 0, best);
        let b = groups_text(g, best + len, 8);
        lemma_groups_chars(g, 0, best);
        lemma_groups_chars(g, best + len, 8);
        assert(t == a + seq![':', ':'] + b);
        assert forall|k: int| 0 <= k < t.len() implies is_six_char(#[trigger] t[k]) by {
            if k < a.len() {
                assert(t[k] == a[k]);
            } else if k >= a.len() + 2 {
                assert(t[k] == b[k - a.len() - 2]);
                assert(is_six_char(b[k - a.len() - 2]));
            }
        }
    }
}

/// An address of version 6 is read back from its text.
pub proof fn lemma_six_round_trip(ip: IpAddress)
    requires
        ip is V6,
    ensures
        ip_spec(ip_text(ip)) == Some(ip),
{
    let g = ip.groups();
    let s = ip_text(ip);
    assert(s.subrange(0, s.len() as int) =~= s);
    lemma_ipv6_at(s, 0, g);
}

/// An address of version 6 with a port is read back from its text.
pub proof fn lemma_socket6_round_trip(a: SocketAddress)
    requires
        a.ip is V6,
    ensures
        socket_spec(socket_text(a)) == Some(a),
{
    let g = a.ip.groups();
    let t = ip_text(a.ip);
    let port = decimal(a.port as nat);
    let s = socket_text(a);
    assert(s =~= seq!['['] + t + seq![']', ':'] + port);
    let j = 1 + t.len() as int;
    assert(s[0] == '[');
    assert(s[j] == ']');
    assert(s[j + 1] == ':');
    lemma_no_group(s, 0);
    assert(s.subrange(1, j) =~= t);
    lemma_ipv6_at(s, 1, g);
    lemma_decimal_digits(a.port as nat);
    assert(s.subrange(j + 2, j + 2 + port.len()) =~= port);
    assert forall|k: int| j + 2 <= k < s.len() implies digit_value(#[trigger] s[k]) is Some by {
        assert(s[k] == port[k - j - 2]);
    }
    lemma_digit_run(s, j + 2, s.len() as int);
    lemma_number_at(s, j + 2, a.port as nat);
    assert(port_at(s, j + 2) == Some(a.port));
}

} // verus!
