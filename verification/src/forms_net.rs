//! `allow`, `deny` and `set_real_ip_from`: how each is written, and that
//! it is read back.

use vstd::prelude::*;
use crate::access::{network_spec, source_at, source_spec};
use crate::ast::{ItemView, RealIpFrom, Source};
use crate::display::{render_item, render_network, render_real_ip_from, render_source};
use crate::error::{ErrorItemView, ErrorView};
use crate::format::Page;
use crate::forms::{alike, has_tokens, item_tokens, line_words, words_ok};
use crate::forms_kinds::lemma_line_tokens;
use crate::forms_reads::lemma_named_read;
use crate::grammar::item_spec;
use crate::layout_laws::{lemma_spaced_one, with_line};
use crate::lex_laws::{is_simple_word, is_word, lemma_simple_word, starts_word};
use crate::net6_laws::{is_six_char, lemma_six_chars, lemma_six_round_trip};
use crate::net::{ip_spec, ip_text, IpAddress};
use crate::net_laws::lemma_ip_round_trip;
use crate::number_laws::{lemma_decimal_digits, lemma_decimal_read};
use crate::text::{decimal, digit_value, find_char};
use crate::tokenizer::Lexed;

verus! {

/// Whether `c` is a digit or a dot.
pub open spec fn is_address_char(c: char) -> bool {
    digit_value(c) is Some || c == '.'
}

/// The text of an address of version 4 is made of digits and dots.
pub proof fn lemma_ip_chars(ip: IpAddress)
    requires
        ip is V4,
    ensures
        forall|i: int| 0 <= i < ip_text(ip).len() ==> is_address_char(#[trigger] ip_text(ip)[i]),
{
    match ip {
        IpAddress::V4(a, b, c, d) => {
            let da = decimal(a as nat);
            let db = decimal(b as nat);
            let dc = decimal(c as nat);
            let dd = decimal(d as nat);
            lemma_decimal_digits(a as nat);
            lemma_decimal_digits(b as nat);
            lemma_decimal_digits(c as nat);
            lemma_decimal_digits(d as nat);
            let s = ip_text(ip);
            assert(s =~= da + seq!['.'] + db + seq!['.'] + dc + seq!['.'] + dd);
            assert forall|i: int| 0 <= i < s.len() implies is_address_char(#[trigger] s[i]) by {
                let pb = da.len() as int + 1;
                let pc = pb + db.len() as int + 1;
                let pd = pc + dc.len() as int + 1;
                if i < da.len() {
                    assert(s[i] == da[i]);
                } else if i < pb {
                } else if i < pb + db.len() {
                    assert(s[i] == db[i - pb]);
                } else if i < pc {
                } else if i < pc + dc.len() {
                    assert(s[i] == dc[i - pc]);
                } else if i < pd {
                } else {
                    assert(s[i] == dd[i - pd]);
                }
            }
        },
        _ => {},
    }
}

/// The first `c` in a text stands where no `c` stands before.
pub proof fn lemma_find_at(s: Seq<char>, c: char, i: int, p: int)
    requires
        0 <= i <= p <= s.len(),
        forall|k: int| i <= k < p ==> #[trigger] s[k] != c,
        p < s.len() ==> s[p] == c,
    ensures
        find_char(s, c, i) == p,
    decreases p - i,
{
    if i < p {
        lemma_find_at(s, c, i + 1, p);
    }
}

/// The text of a source of requests.
pub open spec fn source_text(s: Source) -> Seq<char> {
    match s {
        Source::All => "all"@,
        Source::Unix => "unix:"@,
        Source::Ip(ip) => ip_text(ip),
        Source::Network(ip, bits) => ip_text(ip) + seq!['/'] + decimal(bits as nat),
    }
}

/// The text of a source of `set_real_ip_from`.
pub open spec fn real_ip_text(s: RealIpFrom) -> Seq<char> {
    match s {
        RealIpFrom::Unix => "unix:"@,
        RealIpFrom::Ip(ip) => ip_text(ip),
        RealIpFrom::Network(ip, bits) => ip_text(ip) + seq!['/'] + decimal(bits as nat),
    }
}

/// Whether `c` can stand in the text of an address: a digit, a dot, a
/// hexadecimal digit in lower case or a colon.
pub open spec fn is_ip_char(c: char) -> bool {
    is_address_char(c) || is_six_char(c)
}

/// An address is read back from its text, and the text is made of the
/// characters of addresses.
pub proof fn lemma_ip_read(ip: IpAddress)
    ensures
        ip_spec(ip_text(ip)) == Some(ip),
        ip_text(ip).len() > 0,
        forall|k: int| 0 <= k < ip_text(ip).len() ==> is_ip_char(#[trigger] ip_text(ip)[k]),
{
    let s = ip_text(ip);
    if ip is V4 {
        lemma_ip_chars(ip);
        lemma_ip_round_trip(ip);
        assert forall|k: int| 0 <= k < s.len() implies is_ip_char(#[trigger] s[k]) by {
            assert(is_address_char(s[k]));
        }
    } else {
        lemma_six_chars(ip.groups());
        lemma_six_round_trip(ip);
        assert forall|k: int| 0 <= k < s.len() implies is_ip_char(#[trigger] s[k]) by {
            assert(is_six_char(s[k]));
        }
    }
}

/// An address, with or without the length of a prefix, is read back from
/// its text, and the text is one token that is no word for a source.
pub proof fn lemma_network_read(ip: IpAddress, bits: Option<u8>)
    ensures
        ({
            let s = match bits {
                Some(n) => ip_text(ip) + seq!['/'] + decimal(n as nat),
                None => ip_text(ip),
            };
            &&& network_spec(s) == Ok::<_, ErrorItemView>((ip, bits))
            &&& is_word(s)
            &&& s != "all"@
            &&& s != "unix:"@
        }),
{
    let head = ip_text(ip);
    lemma_ip_read(ip);
    reveal_strlit("all");
    reveal_strlit("unix:");
    match bits {
        Some(n) => {
            let digits = decimal(n as nat);
            let s = head + seq!['/'] + digits;
            lemma_decimal_digits(n as nat);
            lemma_decimal_read(n as nat, 0, 255);
            let p = head.len() as int;
            assert forall|k: int| 0 <= k < p implies #[trigger] s[k] != '/' by {
                assert(s[k] == head[k]);
                assert(is_ip_char(head[k]));
            }
            assert(s[p] == '/');
            lemma_find_at(s, '/', 0, p);
            assert(s.subrange(0, p) =~= head);
            assert(s.skip(p + 1) =~= digits);
            assert forall|k: int| 0 <= k < s.len() implies starts_word(#[trigger] s[k]) && s[k]
                != 'l' && s[k] != 'u' by {
                if k < p {
                    assert(s[k] == head[k]);
                    assert(is_ip_char(head[k]));
                } else if k > p {
                    assert(s[k] == digits[k - p - 1]);
                    assert(digit_value(digits[k - p - 1]) is Some);
                }
            }
            lemma_simple_word(s);
            if s == "all"@ {
                assert(s[1] == 'l');
            }
            if s == "unix:"@ {
                assert(s[0] == 'u');
            }
        },
        None => {
            let s = head;
            let p = s.len() as int;
            assert forall|k: int| 0 <= k < p implies #[trigger] s[k] != '/' by {
                assert(is_ip_char(s[k]));
            }
            lemma_find_at(s, '/', 0, p);
            assert(s.subrange(0, p) =~= s);
            assert forall|k: int| 0 <= k < s.len() implies starts_word(#[trigger] s[k]) && s[k]
                != 'l' && s[k] != 'u' by {
                assert(is_ip_char(s[k]));
            }
            lemma_simple_word(s);
            if s == "all"@ {
                assert(s[1] == 'l');
            }
            if s == "unix:"@ {
                assert(s[0] == 'u');
            }
        },
    }
}

/// A source of requests is read back from its text, and the text is one
/// token.
pub proof fn lemma_source_read(s: Source)
    ensures
        source_spec(source_text(s)) == Ok::<_, ErrorItemView>(s),
        is_word(source_text(s)),
{
    reveal_strlit("all");
    reveal_strlit("unix:");
    assert(is_simple_word("all"@));
    assert(is_simple_word("unix:"@));
    lemma_simple_word("all"@);
    lemma_simple_word("unix:"@);
    match s {
        Source::All => {},
        Source::Unix => {
            assert("unix:"@[0] != "all"@[0]);
        },
        Source::Ip(ip) => {
            lemma_network_read(ip, None);
        },
        Source::Network(ip, bits) => {
            lemma_network_read(ip, Some(bits));
        },
    }
}

/// A source of `set_real_ip_from` is read back from its text, and the
/// text is one token.
pub proof fn lemma_real_ip_read(s: RealIpFrom)
    ensures
        crate::real_ip::source_spec(real_ip_text(s)) == Ok::<_, ErrorItemView>(s),
        is_word(real_ip_text(s)),
{
    reveal_strlit("unix:");
    assert(is_simple_word("unix:"@));
    lemma_simple_word("unix:"@);
    match s {
        RealIpFrom::Unix => {},
        RealIpFrom::Ip(ip) => {
            lemma_network_read(ip, None);
        },
        RealIpFrom::Network(ip, bits) => {
            lemma_network_read(ip, Some(bits));
        },
    }
}

/// A line of two words is the first, a blank, the second and the end of
/// the line.
pub proof fn lemma_two_words(p: Page, name: Seq<char>, w: Seq<char>)
    ensures
        with_line(p, seq![name, w]) == p.indent().write(name).put(' ').write(w).end(),
{
    let ws = seq![name, w];
    assert(ws.drop_last() =~= seq![name]);
    lemma_spaced_one(name);
    assert(with_line(p, ws).text =~= p.indent().write(name).put(' ').write(w).end().text);
}

/// A source of requests is written as its text.
pub proof fn lemma_source_text(name: Seq<char>, s: Source, p: Page)
    ensures
        render_source(name, s, p) == p.indent().write(name).put(' ').write(source_text(s)).end(),
{
    let q = p.indent().write(name).put(' ');
    match s {
        Source::Network(ip, bits) => {
            assert(render_network(ip, Some(bits), q).text =~= q.write(source_text(s)).text);
        },
        _ => {},
    }
}

/// A source of `set_real_ip_from` is written as its text.
pub proof fn lemma_real_ip_text(s: RealIpFrom, p: Page)
    ensures
        render_real_ip_from(s, p) == p.indent().write("set_real_ip_from"@).put(' ').write(
            real_ip_text(s),
        ).end(),
{
    let q = p.indent().write("set_real_ip_from"@).put(' ');
    match s {
        RealIpFrom::Network(ip, bits) => {
            assert(render_network(ip, Some(bits), q).text =~= q.write(real_ip_text(s)).text);
        },
        _ => {},
    }
}

/// `allow`, `deny` and `set_real_ip_from` are written as the line of
/// their words.
pub proof fn lemma_source_line(item: ItemView, p: Page)
    requires
        item is Allow || item is Deny || item is SetRealIpFrom,
    ensures
        render_item(item, p) == with_line(p, line_words(item)),
{
    match item {
        ItemView::Allow(s) => {
            assert(line_words(item) == seq!["allow"@, source_text(s)]);
            assert(render_item(item, p) == render_source("allow"@, s, p));
            lemma_source_text("allow"@, s, p);
            lemma_two_words(p, "allow"@, source_text(s));
        },
        ItemView::Deny(s) => {
            assert(line_words(item) == seq!["deny"@, source_text(s)]);
            assert(render_item(item, p) == render_source("deny"@, s, p));
            lemma_source_text("deny"@, s, p);
            lemma_two_words(p, "deny"@, source_text(s));
        },
        ItemView::SetRealIpFrom(s) => {
            assert(line_words(item) == seq!["set_real_ip_from"@, real_ip_text(s)]);
            assert(render_item(item, p) == render_real_ip_from(s, p));
            lemma_real_ip_text(s, p);
            lemma_two_words(p, "set_real_ip_from"@, real_ip_text(s));
        },
        _ => {},
    }
}

/// `allow`, `deny` and `set_real_ip_from` are read back from their
/// tokens.
pub proof fn lemma_source_parsed(t: Lexed, i: int, item: ItemView)
    requires
        item is Allow || item is Deny || item is SetRealIpFrom,
        words_ok(item),
        has_tokens(t, i, item_tokens(item)),
    ensures
        item_spec(t, i) matches Some(Ok((back, j))) && j == i + item_tokens(item).len() && alike(
            item,
            back,
        ),
{
    let ws = line_words(item);
    lemma_line_tokens(t, i, ws);
    assert(t.text(i + 0) == ws[0]);
    assert(t.text(i + 1) == ws[1]);
    match item {
        ItemView::Allow(s) => {
            lemma_source_read(s);
            lemma_allow_read(t, i);
        },
        ItemView::Deny(s) => {
            lemma_source_read(s);
            lemma_allow_read(t, i);
        },
        ItemView::SetRealIpFrom(s) => {
            lemma_real_ip_read(s);
            lemma_named_read(t, i);
        },
        _ => {},
    }
    assert(item_spec(t, i) == Some(Ok::<_, ErrorView>((item, i + 3))));
}

/// The grammar reads `allow` and `deny` by their names.
pub proof fn lemma_allow_read(t: Lexed, kw: int)
    requires
        t.is_string(kw),
    ensures
        t.text(kw) == "allow"@ ==> item_spec(t, kw) == Some(
            match source_at(t, kw) {
                Ok((source, j)) => Ok::<_, ErrorView>((ItemView::Allow(source), j)),
                Err(e) => Err(e),
            },
        ),
        t.text(kw) == "deny"@ ==> item_spec(t, kw) == Some(
            match source_at(t, kw) {
                Ok((source, j)) => Ok::<_, ErrorView>((ItemView::Deny(source), j)),
                Err(e) => Err(e),
            },
        ),
{
    reveal(crate::grammar::leaf_spec);
    crate::names::lemma_names_listed();
    crate::names::lemma_names_distinct();
}

} // verus!
