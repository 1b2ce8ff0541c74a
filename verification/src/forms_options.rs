//! The options of `listen`: how they are written, and that they are read
//! back.

use vstd::prelude::*;
use crate::ast::{HttpExt, ItemView, ListenView};
use crate::display::{listen_first, listen_rest, render_address, render_item, render_listen};
use crate::error::ErrorView;
use crate::format::Page;
use crate::forms::{alike, has_tokens, item_tokens};
use crate::forms_kinds::{joined, lemma_line_joined};
use crate::forms_listen::{address_text, lemma_address_read, listen_ok};
use crate::forms_log::{lemma_joined_one, lemma_joined_word, with_word, word_text};
use crate::forms_reads::lemma_named_read;
use crate::forms_words::{holds_words, lemma_line_holds};
use crate::grammar::item_spec;
use crate::helpers::{semi_spec, suffix_spec};
use crate::http_core::{listen_option, listen_options, listen_spec, listen_words, option_number};
use crate::layout_laws::{line_text, punct_token, string_tokens, with_line};
use crate::lex_laws::{is_simple_word, is_word, lemma_simple_word, starts_word};
use crate::number_laws::{lemma_decimal_digits, lemma_decimal_read, lemma_signed_read};
use crate::text::{decimal, digit_value, is_prefix, signed_decimal};
use crate::tokenizer::Lexed;

verus! {

/// The word `w` where `on` holds.
pub open spec fn flag_word(on: bool, w: Seq<char>) -> Option<Seq<char>> {
    if on {
        Some(w)
    } else {
        None
    }
}

/// The option `k` of a `listen` as it is written, where it is set. The
/// options are counted in the order in which they are written.
pub open spec fn option_word(l: ListenView, k: int) -> Option<Seq<char>> {
    if k == 0 {
        flag_word(l.default_server, "default_server"@)
    } else if k == 1 {
        flag_word(l.ssl, "ssl"@)
    } else if k == 2 {
        match l.ext {
            Some(HttpExt::Http2) => Some("http2"@),
            Some(HttpExt::Spdy) => Some("spdy"@),
            None => None,
        }
    } else if k == 3 {
        flag_word(l.proxy_protocol, "proxy_protocol"@)
    } else if k == 4 {
        match l.setfib {
            Some(n) => Some("setfib="@ + signed_decimal(n as int)),
            None => None,
        }
    } else if k == 5 {
        match l.fastopen {
            Some(n) => Some("fastopen="@ + decimal(n as nat)),
            None => None,
        }
    } else if k == 6 {
        match l.backlog {
            Some(n) => Some("backlog="@ + signed_decimal(n as int)),
            None => None,
        }
    } else if k == 7 {
        match l.rcvbuf {
            Some(n) => Some("rcvbuf="@ + decimal(n as nat)),
            None => None,
        }
    } else if k == 8 {
        match l.sndbuf {
            Some(n) => Some("sndbuf="@ + decimal(n as nat)),
            None => None,
        }
    } else if k == 9 {
        flag_word(l.deferred, "deferred"@)
    } else if k == 10 {
        flag_word(l.bind, "bind"@)
    } else if k == 11 {
        match l.ipv6only {
            Some(true) => Some("ipv6only=on"@),
            Some(false) => Some("ipv6only=off"@),
            None => None,
        }
    } else if k == 12 {
        flag_word(l.reuseport, "reuseport"@)
    } else {
        None
    }
}

/// The `listen` with the first `k` options of `l` and without the others.
pub open spec fn keep(l: ListenView, k: int) -> ListenView {
    ListenView {
        address: l.address,
        default_server: k > 0 && l.default_server,
        ssl: k > 1 && l.ssl,
        ext: if k > 2 {
            l.ext
        } else {
            None
        },
        proxy_protocol: k > 3 && l.proxy_protocol,
        setfib: if k > 4 {
            l.setfib
        } else {
            None
        },
        fastopen: if k > 5 {
            l.fastopen
        } else {
            None
        },
        backlog: if k > 6 {
            l.backlog
        } else {
            None
        },
        rcvbuf: if k > 7 {
            l.rcvbuf
        } else {
            None
        },
        sndbuf: if k > 8 {
            l.sndbuf
        } else {
            None
        },
        deferred: k > 9 && l.deferred,
        bind: k > 10 && l.bind,
        ipv6only: if k > 11 {
            l.ipv6only
        } else {
            None
        },
        reuseport: k > 12 && l.reuseport,
    }
}

/// The words of a `listen` behind its name: the address and the first
/// `k` options.
pub open spec fn listen_upto(l: ListenView, k: int) -> Seq<Seq<char>>
    decreases k,
{
    if k <= 0 {
        seq![address_text(l.address)]
    } else {
        with_word(listen_upto(l, k - 1), option_word(l, k - 1))
    }
}

/// The words of a `listen` behind its name.
pub open spec fn listen_all(l: ListenView) -> Seq<Seq<char>> {
    listen_upto(l, 13)
}

/// The text `start` with the first `k` options behind it, each with a
/// blank before it.
pub open spec fn options_text(start: Seq<char>, l: ListenView, k: int) -> Seq<char>
    decreases k,
{
    if k <= 0 {
        start
    } else {
        options_text(start, l, k - 1) + word_text(option_word(l, k - 1))
    }
}

/// The options behind a text of two parts stand behind the second part.
pub proof fn lemma_text_parts(x: Seq<char>, y: Seq<char>, l: ListenView, k: int)
    ensures
        options_text(x + y, l, k) == x + options_text(y, l, k),
    decreases k,
{
    if k > 0 {
        lemma_text_parts(x, y, l, k - 1);
        assert(options_text(x + y, l, k) =~= x + options_text(y, l, k));
    }
}

/// The words behind the name of a `listen`, each with a blank before it,
/// are the address and the options.
pub proof fn lemma_joined_upto(l: ListenView, k: int)
    ensures
        joined(listen_upto(l, k), listen_upto(l, k).len() as int) == options_text(
            seq![' '] + address_text(l.address),
            l,
            k,
        ),
    decreases k,
{
    if k > 0 {
        lemma_joined_upto(l, k - 1);
        lemma_joined_word(listen_upto(l, k - 1), option_word(l, k - 1));
    } else {
        lemma_joined_one(address_text(l.address));
    }
}

/// The first words of a `listen` stay where they are when options follow.
pub proof fn lemma_upto_stable(l: ListenView, k: int, n: int)
    requires
        0 <= k <= n,
    ensures
        listen_upto(l, k).len() <= listen_upto(l, n).len(),
        forall|m: int|
            0 <= m < listen_upto(l, k).len() ==> listen_upto(l, n)[m] == #[trigger] listen_upto(
                l,
                k,
            )[m],
    decreases n - k,
{
    if k < n {
        lemma_upto_stable(l, k, n - 1);
    }
}

/// The option `default_server` is written as one token.
proof fn lemma_word_default_server(l: ListenView)
    ensures
        option_word(l, 0) matches Some(w) ==> is_word(w),
{
    reveal_strlit("default_server");
    assert(is_simple_word("default_server"@));
    lemma_simple_word("default_server"@);
}

/// The option `ssl` is written as one token.
proof fn lemma_word_ssl(l: ListenView)
    ensures
        option_word(l, 1) matches Some(w) ==> is_word(w),
{
    reveal_strlit("ssl");
    assert(is_simple_word("ssl"@));
    lemma_simple_word("ssl"@);
}

/// The option `ext` is written as one token.
proof fn lemma_word_ext(l: ListenView)
    ensures
        option_word(l, 2) matches Some(w) ==> is_word(w),
{
    reveal_strlit("http2");
    assert(is_simple_word("http2"@));
    lemma_simple_word("http2"@);
    reveal_strlit("spdy");
    assert(is_simple_word("spdy"@));
    lemma_simple_word("spdy"@);
}

/// The option `proxy_protocol` is written as one token.
proof fn lemma_word_proxy_protocol(l: ListenView)
    ensures
        option_word(l, 3) matches Some(w) ==> is_word(w),
{
    reveal_strlit("proxy_protocol");
    assert(is_simple_word("proxy_protocol"@));
    lemma_simple_word("proxy_protocol"@);
}

/// The option `setfib` is written as one token.
proof fn lemma_word_setfib(l: ListenView)
    ensures
        option_word(l, 4) matches Some(w) ==> is_word(w),
{
    reveal_strlit("setfib=");
    match l.setfib {
        Some(n) => {
            let d = signed_decimal(n as int);
            let s = "setfib="@ + d;
            if n < 0 {
                lemma_decimal_digits((-n) as nat);
                let m = decimal((-n) as nat);
                assert forall|i: int| 0 <= i < d.len() implies starts_word(#[trigger] d[i]) by {
                    if i > 0 {
                        assert(d[i] == m[i - 1]);
                        assert(digit_value(m[i - 1]) is Some);
                    }
                }
            } else {
                lemma_decimal_digits(n as nat);
                assert forall|i: int| 0 <= i < d.len() implies starts_word(#[trigger] d[i]) by {
                    assert(digit_value(d[i]) is Some);
                }
            }
            assert forall|i: int| 0 <= i < s.len() implies starts_word(#[trigger] s[i]) by {
                if i >= 7 {
                    assert(s[i] == d[i - 7]);
                    assert(starts_word(d[i - 7]));
                }
            }
            lemma_simple_word(s);
        },
        None => {},
    }
}

/// The option `fastopen` is written as one token.
proof fn lemma_word_fastopen(l: ListenView)
    ensures
        option_word(l, 5) matches Some(w) ==> is_word(w),
{
    reveal_strlit("fastopen=");
    match l.fastopen {
        Some(n) => {
            let d = decimal(n as nat);
            let s = "fastopen="@ + d;
            lemma_decimal_digits(n as nat);
            assert forall|i: int| 0 <= i < d.len() implies starts_word(#[trigger] d[i]) by {
                assert(digit_value(d[i]) is Some);
            }
            assert forall|i: int| 0 <= i < s.len() implies starts_word(#[trigger] s[i]) by {
                if i >= 9 {
                    assert(s[i] == d[i - 9]);
                    assert(starts_word(d[i - 9]));
                }
            }
            lemma_simple_word(s);
        },
        None => {},
    }
}

/// The option `backlog` is written as one token.
proof fn lemma_word_backlog(l: ListenView)
    ensures
        option_word(l, 6) matches Some(w) ==> is_word(w),
{
    reveal_strlit("backlog=");
    match l.backlog {
        Some(n) => {
            let d = signed_decimal(n as int);
            let s = "backlog="@ + d;
            if n < 0 {
                lemma_decimal_digits((-n) as nat);
                let m = decimal((-n) as nat);
                assert forall|i: int| 0 <= i < d.len() implies starts_word(#[trigger] d[i]) by {
                    if i > 0 {
                        assert(d[i] == m[i - 1]);
                        assert(digit_value(m[i - 1]) is Some);
                    }
                }
            } else {
                lemma_decimal_digits(n as nat);
                assert forall|i: int| 0 <= i < d.len() implies starts_word(#[trigger] d[i]) by {
                    assert(digit_value(d[i]) is Some);
                }
            }
            assert forall|i: int| 0 <= i < s.len() implies starts_word(#[trigger] s[i]) by {
                if i >= 8 {
                    assert(s[i] == d[i - 8]);
                    assert(starts_word(d[i - 8]));
                }
            }
            lemma_simple_word(s);
        },
        None => {},
    }
}

/// The option `rcvbuf` is written as one token.
proof fn lemma_word_rcvbuf(l: ListenView)
    ensures
        option_word(l, 7) matches Some(w) ==> is_word(w),
{
    reveal_strlit("rcvbuf=");
    match l.rcvbuf {
        Some(n) => {
            let d = decimal(n as nat);
            let s = "rcvbuf="@ + d;
            lemma_decimal_digits(n as nat);
            assert forall|i: int| 0 <= i < d.len() implies starts_word(#[trigger] d[i]) by {
                assert(digit_value(d[i]) is Some);
            }
            assert forall|i: int| 0 <= i < s.len() implies starts_word(#[trigger] s[i]) by {
                if i >= 7 {
                    assert(s[i] == d[i - 7]);
                    assert(starts_word(d[i - 7]));
                }
            }
            lemma_simple_word(s);
        },
        None => {},
    }
}

/// The option `sndbuf` is written as one token.
proof fn lemma_word_sndbuf(l: ListenView)
    ensures
        option_word(l, 8) matches Some(w) ==> is_word(w),
{
    reveal_strlit("sndbuf=");
    match l.sndbuf {
        Some(n) => {
            let d = decimal(n as nat);
            let s = "sndbuf="@ + d;
            lemma_decimal_digits(n as nat);
            assert forall|i: int| 0 <= i < d.len() implies starts_word(#[trigger] d[i]) by {
                assert(digit_value(d[i]) is Some);
            }
            assert forall|i: int| 0 <= i < s.len() implies starts_word(#[trigger] s[i]) by {
                if i >= 7 {
                    assert(s[i] == d[i - 7]);
                    assert(starts_word(d[i - 7]));
                }
            }
            lemma_simple_word(s);
        },
        None => {},
    }
}

/// The option `deferred` is written as one token.
proof fn lemma_word_deferred(l: ListenView)
    ensures
        option_word(l, 9) matches Some(w) ==> is_word(w),
{
    reveal_strlit("deferred");
    assert(is_simple_word("deferred"@));
    lemma_simple_word("deferred"@);
}

/// The option `bind` is written as one token.
proof fn lemma_word_bind(l: ListenView)
    ensures
        option_word(l, 10) matches Some(w) ==> is_word(w),
{
    reveal_strlit("bind");
    assert(is_simple_word("bind"@));
    lemma_simple_word("bind"@);
}

/// The option `ipv6only` is written as one token.
proof fn lemma_word_ipv6only(l: ListenView)
    ensures
        option_word(l, 11) matches Some(w) ==> is_word(w),
{
    reveal_strlit("ipv6only=on");
    assert(is_simple_word("ipv6only=on"@));
    lemma_simple_word("ipv6only=on"@);
    reveal_strlit("ipv6only=off");
    assert(is_simple_word("ipv6only=off"@));
    lemma_simple_word("ipv6only=off"@);
}

/// The option `reuseport` is written as one token.
proof fn lemma_word_reuseport(l: ListenView)
    ensures
        option_word(l, 12) matches Some(w) ==> is_word(w),
{
    reveal_strlit("reuseport");
    assert(is_simple_word("reuseport"@));
    lemma_simple_word("reuseport"@);
}

/// Each option of a `listen` is written as one token.
pub proof fn lemma_option_word(l: ListenView, k: int)
    ensures
        option_word(l, k) matches Some(w) ==> is_word(w),
{
    if k == 0 {
        lemma_word_default_server(l);
    } else if k == 1 {
        lemma_word_ssl(l);
    } else if k == 2 {
        lemma_word_ext(l);
    } else if k == 3 {
        lemma_word_proxy_protocol(l);
    } else if k == 4 {
        lemma_word_setfib(l);
    } else if k == 5 {
        lemma_word_fastopen(l);
    } else if k == 6 {
        lemma_word_backlog(l);
    } else if k == 7 {
        lemma_word_rcvbuf(l);
    } else if k == 8 {
        lemma_word_sndbuf(l);
    } else if k == 9 {
        lemma_word_deferred(l);
    } else if k == 10 {
        lemma_word_bind(l);
    } else if k == 11 {
        lemma_word_ipv6only(l);
    } else if k == 12 {
        lemma_word_reuseport(l);
    }
}

/// The words behind the name of a `listen` are one token each, where
/// the address is.
pub proof fn lemma_listen_words(l: ListenView, k: int)
    requires
        is_word(address_text(l.address)),
    ensures
        forall|m: int| 0 <= m < listen_upto(l, k).len() ==> is_word(#[trigger] listen_upto(l, k)[m]),
    decreases k,
{
    if k > 0 {
        lemma_listen_words(l, k - 1);
        lemma_option_word(l, k - 1);
        let a = listen_upto(l, k - 1);
        let b = listen_upto(l, k);
        assert forall|m: int| 0 <= m < b.len() implies is_word(#[trigger] b[m]) by {
            if m < a.len() {
                assert(b[m] == a[m]);
            }
        }
    }
}

/// The grammar reads the option `default_server` from its word.
proof fn lemma_read_default_server(t: Lexed, j: int, l: ListenView)
    requires
        option_word(l, 0) matches Some(w) ==> t.is_string(j) && t.text(j) == w,
    ensures
        option_word(l, 0) is Some ==> listen_option(t, j, keep(l, 0)) == Some(
            Ok::<_, ErrorView>(keep(l, 1)),
        ),
        option_word(l, 0) is None ==> keep(l, 1) == keep(l, 0),
{
    let s = t.text(j);
    if l.default_server {
        reveal_strlit("default_server");

        assert(t.is_word(j, "default_server"@));
    }
}

/// The grammar reads the option `ssl` from its word.
proof fn lemma_read_ssl(t: Lexed, j: int, l: ListenView)
    requires
        option_word(l, 1) matches Some(w) ==> t.is_string(j) && t.text(j) == w,
    ensures
        option_word(l, 1) is Some ==> listen_option(t, j, keep(l, 1)) == Some(
            Ok::<_, ErrorView>(keep(l, 2)),
        ),
        option_word(l, 1) is None ==> keep(l, 2) == keep(l, 1),
{
    let s = t.text(j);
    if l.ssl {
        reveal_strlit("ssl");
        reveal_strlit("default_server");
        assert(s[0] == 's');
        assert(s != "default_server"@);
        assert(t.is_word(j, "ssl"@));
    }
}

/// The grammar reads the option `ext` from its word.
proof fn lemma_read_ext(t: Lexed, j: int, l: ListenView)
    requires
        option_word(l, 2) matches Some(w) ==> t.is_string(j) && t.text(j) == w,
    ensures
        option_word(l, 2) is Some ==> listen_option(t, j, keep(l, 2)) == Some(
            Ok::<_, ErrorView>(keep(l, 3)),
        ),
        option_word(l, 2) is None ==> keep(l, 3) == keep(l, 2),
{
    let s = t.text(j);
    match l.ext {
        Some(HttpExt::Http2) => {
            reveal_strlit("http2");
            reveal_strlit("default_server");
            reveal_strlit("ssl");
            assert(s[0] == 'h');
            assert(s != "default_server"@);
            assert(s != "ssl"@);
            assert(t.is_word(j, "http2"@));
        },
        Some(HttpExt::Spdy) => {
            reveal_strlit("spdy");
            reveal_strlit("default_server");
            reveal_strlit("ssl");
            reveal_strlit("http2");
            assert(s[0] == 's');
            assert(s != "default_server"@);
            assert(s[1] == 'p');
            assert(s != "ssl"@);
            assert(s != "http2"@);
            assert(t.is_word(j, "spdy"@));
        },
        None => {},
    }
}

/// The grammar reads the option `proxy_protocol` from its word.
proof fn lemma_read_proxy_protocol(t: Lexed, j: int, l: ListenView)
    requires
        option_word(l, 3) matches Some(w) ==> t.is_string(j) && t.text(j) == w,
    ensures
        option_word(l, 3) is Some ==> listen_option(t, j, keep(l, 3)) == Some(
            Ok::<_, ErrorView>(keep(l, 4)),
        ),
        option_word(l, 3) is None ==> keep(l, 4) == keep(l, 3),
{
    let s = t.text(j);
    if l.proxy_protocol {
        reveal_strlit("proxy_protocol");
        reveal_strlit("default_server");
        reveal_strlit("ssl");
        reveal_strlit("http2");
        reveal_strlit("spdy");
        assert(s[0] == 'p');
        assert(s != "default_server"@);
        assert(s != "ssl"@);
        assert(s != "http2"@);
        assert(s != "spdy"@);
        assert(t.is_word(j, "proxy_protocol"@));
    }
}

/// The grammar reads the option `setfib` from its word.
proof fn lemma_read_setfib(t: Lexed, j: int, l: ListenView)
    requires
        option_word(l, 4) matches Some(w) ==> t.is_string(j) && t.text(j) == w,
    ensures
        option_word(l, 4) is Some ==> listen_option(t, j, keep(l, 4)) == Some(
            Ok::<_, ErrorView>(keep(l, 5)),
        ),
        option_word(l, 4) is None ==> keep(l, 5) == keep(l, 4),
{
    let s = t.text(j);
    match l.setfib {
        Some(n) => {
            reveal_strlit("setfib=");
            let d = signed_decimal(n as int);
            reveal_strlit("default_server");
            reveal_strlit("ssl");
            reveal_strlit("http2");
            reveal_strlit("spdy");
            reveal_strlit("proxy_protocol");
            assert(s[0] == 's');
            assert(s != "default_server"@);
            assert(s[1] == 'e');
            assert(s != "ssl"@);
            assert(s != "http2"@);
            assert(s != "spdy"@);
            assert(s != "proxy_protocol"@);
            assert(s.subrange(0, 7) =~= "setfib="@);
            assert(s.skip(7) =~= d);
            assert(suffix_spec(t, j, "setfib="@) == Some(d));
            lemma_signed_read(n as int, i32::MIN as int, i32::MAX as int);
            assert(option_number(t, j, d, i32::MIN as int, i32::MAX as int) == Ok::<_, ErrorView>(n as int));
        },
        None => {},
    }
}

/// The grammar reads the option `fastopen` from its word.
proof fn lemma_read_fastopen(t: Lexed, j: int, l: ListenView)
    requires
        option_word(l, 5) matches Some(w) ==> t.is_string(j) && t.text(j) == w,
    ensures
        option_word(l, 5) is Some ==> listen_option(t, j, keep(l, 5)) == Some(
            Ok::<_, ErrorView>(keep(l, 6)),
        ),
        option_word(l, 5) is None ==> keep(l, 6) == keep(l, 5),
{
    let s = t.text(j);
    match l.fastopen {
        Some(n) => {
            reveal_strlit("fastopen=");
            let d = decimal(n as nat);
            reveal_strlit("default_server");
            reveal_strlit("ssl");
            reveal_strlit("http2");
            reveal_strlit("spdy");
            reveal_strlit("proxy_protocol");
            reveal_strlit("setfib=");
            assert(s[0] == 'f');
            assert(s != "default_server"@);
            assert(s != "ssl"@);
            assert(s != "http2"@);
            assert(s != "spdy"@);
            assert(s != "proxy_protocol"@);
            assert(!is_prefix("setfib="@, s)) by {
                if is_prefix("setfib="@, s) {
                    assert(s.subrange(0, 7)[0] == s[0]);
                    assert(s[0] == 'f');
                }
            }
            assert(s.subrange(0, 9) =~= "fastopen="@);
            assert(s.skip(9) =~= d);
            assert(suffix_spec(t, j, "fastopen="@) == Some(d));
            lemma_decimal_read(n as nat, 0, u32::MAX as int);
            assert(option_number(t, j, d, 0, u32::MAX as int) == Ok::<_, ErrorView>(n as int));
        },
        None => {},
    }
}

/// The grammar reads the option `backlog` from its word.
proof fn lemma_read_backlog(t: Lexed, j: int, l: ListenView)
    requires
        option_word(l, 6) matches Some(w) ==> t.is_string(j) && t.text(j) == w,
    ensures
        option_word(l, 6) is Some ==> listen_option(t, j, keep(l, 6)) == Some(
            Ok::<_, ErrorView>(keep(l, 7)),
        ),
        option_word(l, 6) is None ==> keep(l, 7) == keep(l, 6),
{
    let s = t.text(j);
    match l.backlog {
        Some(n) => {
            reveal_strlit("backlog=");
            let d = signed_decimal(n as int);
            reveal_strlit("default_server");
            reveal_strlit("ssl");
            reveal_strlit("http2");
            reveal_strlit("spdy");
            reveal_strlit("proxy_protocol");
            reveal_strlit("setfib=");
            reveal_strlit("fastopen=");
            assert(s[0] == 'b');
            assert(s != "default_server"@);
            assert(s != "ssl"@);
            assert(s != "http2"@);
            assert(s != "spdy"@);
            assert(s != "proxy_protocol"@);
            assert(!is_prefix("setfib="@, s)) by {
                if is_prefix("setfib="@, s) {
                    assert(s.subrange(0, 7)[0] == s[0]);
                    assert(s[0] == 'b');
                }
            }
            assert(!is_prefix("fastopen="@, s)) by {
                if is_prefix("fastopen="@, s) {
                    assert(s.subrange(0, 9)[0] == s[0]);
                    assert(s[0] == 'b');
                }
            }
            assert(s.subrange(0, 8) =~= "backlog="@);
            assert(s.skip(8) =~= d);
            assert(suffix_spec(t, j, "backlog="@) == Some(d));
            lemma_signed_read(n as int, i32::MIN as int, i32::MAX as int);
            assert(option_number(t, j, d, i32::MIN as int, i32::MAX as int) == Ok::<_, ErrorView>(n as int));
        },
        None => {},
    }
}

/// The grammar reads the option `rcvbuf` from its word.
proof fn lemma_read_rcvbuf(t: Lexed, j: int, l: ListenView)
    requires
        option_word(l, 7) matches Some(w) ==> t.is_string(j) && t.text(j) == w,
    ensures
        option_word(l, 7) is Some ==> listen_option(t, j, keep(l, 7)) == Some(
            Ok::<_, ErrorView>(keep(l, 8)),
        ),
        option_word(l, 7) is None ==> keep(l, 8) == keep(l, 7),
{
    let s = t.text(j);
    match l.rcvbuf {
        Some(n) => {
            reveal_strlit("rcvbuf=");
            let d = decimal(n as nat);
            reveal_strlit("default_server");
            reveal_strlit("ssl");
            reveal_strlit("http2");
            reveal_strlit("spdy");
            reveal_strlit("proxy_protocol");
            reveal_strlit("setfib=");
            reveal_strlit("fastopen=");
            reveal_strlit("backlog=");
            assert(s[0] == 'r');
            assert(s != "default_server"@);
            assert(s != "ssl"@);
            assert(s != "http2"@);
            assert(s != "spdy"@);
            assert(s != "proxy_protocol"@);
            assert(!is_prefix("setfib="@, s)) by {
                if is_prefix("setfib="@, s) {
                    assert(s.subrange(0, 7)[0] == s[0]);
                    assert(s[0] == 'r');
                }
            }
            assert(!is_prefix("fastopen="@, s)) by {
                if is_prefix("fastopen="@, s) {
                    assert(s.subrange(0, 9)[0] == s[0]);
                    assert(s[0] == 'r');
                }
            }
            assert(!is_prefix("backlog="@, s)) by {
                if is_prefix("backlog="@, s) {
                    assert(s.subrange(0, 8)[0] == s[0]);
                    assert(s[0] == 'r');
                }
            }
            assert(s.subrange(0, 7) =~= "rcvbuf="@);
            assert(s.skip(7) =~= d);
            assert(suffix_spec(t, j, "rcvbuf="@) == Some(d));
            lemma_decimal_read(n as nat, 0, u64::MAX as int);
            assert(option_number(t, j, d, 0, u64::MAX as int) == Ok::<_, ErrorView>(n as int));
        },
        None => {},
    }
}

/// The grammar reads the option `sndbuf` from its word.
proof fn lemma_read_sndbuf(t: Lexed, j: int, l: ListenView)
    requires
        option_word(l, 8) matches Some(w) ==> t.is_string(j) && t.text(j) == w,
    ensures
        option_word(l, 8) is Some ==> listen_option(t, j, keep(l, 8)) == Some(
            Ok::<_, ErrorView>(keep(l, 9)),
        ),
        option_word(l, 8) is None ==> keep(l, 9) == keep(l, 8),
{
    let s = t.text(j);
    match l.sndbuf {
        Some(n) => {
            reveal_strlit("sndbuf=");
            let d = decimal(n as nat);
            reveal_strlit("default_server");
            reveal_strlit("ssl");
            reveal_strlit("http2");
            reveal_strlit("spdy");
            reveal_strlit("proxy_protocol");
            reveal_strlit("setfib=");
            reveal_strlit("fastopen=");
            reveal_strlit("backlog=");
            reveal_strlit("rcvbuf=");
            assert(s[0] == 's');
            assert(s != "default_server"@);
            assert(s[1] == 'n');
            assert(s != "ssl"@);
            assert(s != "http2"@);
            assert(s != "spdy"@);
            assert(s != "proxy_protocol"@);
            assert(!is_prefix("setfib="@, s)) by {
                if is_prefix("setfib="@, s) {
                    assert(s.subrange(0, 7)[1] == s[1]);
                    assert(s[1] == 'n');
                }
            }
            assert(!is_prefix("fastopen="@, s)) by {
                if is_prefix("fastopen="@, s) {
                    assert(s.subrange(0, 9)[0] == s[0]);
                    assert(s[0] == 's');
                }
            }
            assert(!is_prefix("backlog="@, s)) by {
                if is_prefix("backlog="@, s) {
                    assert(s.subrange(0, 8)[0] == s[0]);
                    assert(s[0] == 's');
                }
            }
            assert(!is_prefix("rcvbuf="@, s)) by {
                if is_prefix("rcvbuf="@, s) {
                    assert(s.subrange(0, 7)[0] == s[0]);
                    assert(s[0] == 's');
                }
            }
            assert(s.subrange(0, 7) =~= "sndbuf="@);
            assert(s.skip(7) =~= d);
            assert(suffix_spec(t, j, "sndbuf="@) == Some(d));
            lemma_decimal_read(n as nat, 0, u64::MAX as int);
            assert(option_number(t, j, d, 0, u64::MAX as int) == Ok::<_, ErrorView>(n as int));
        },
        None => {},
    }
}

/// The grammar reads the option `deferred` from its word.
proof fn lemma_read_deferred(t: Lexed, j: int, l: ListenView)
    requires
        option_word(l, 9) matches Some(w) ==> t.is_string(j) && t.text(j) == w,
    ensures
        option_word(l, 9) is Some ==> listen_option(t, j, keep(l, 9)) == Some(
            Ok::<_, ErrorView>(keep(l, 10)),
        ),
        option_word(l, 9) is None ==> keep(l, 10) == keep(l, 9),
{
    let s = t.text(j);
    if l.deferred {
        reveal_strlit("deferred");
        reveal_strlit("default_server");
        reveal_strlit("ssl");
        reveal_strlit("http2");
        reveal_strlit("spdy");
        reveal_strlit("proxy_protocol");
        reveal_strlit("setfib=");
        reveal_strlit("fastopen=");
        reveal_strlit("backlog=");
        reveal_strlit("rcvbuf=");
        reveal_strlit("sndbuf=");
        assert(s[3] == 'e');
        assert(s != "default_server"@);
        assert(s[0] == 'd');
        assert(s != "ssl"@);
        assert(s != "http2"@);
        assert(s != "spdy"@);
        assert(s != "proxy_protocol"@);
        assert(!is_prefix("setfib="@, s)) by {
            if is_prefix("setfib="@, s) {
                assert(s.subrange(0, 7)[0] == s[0]);
                assert(s[0] == 'd');
            }
        }
        assert(!is_prefix("fastopen="@, s)) by {
            if is_prefix("fastopen="@, s) {
                assert(s.subrange(0, 9)[0] == s[0]);
                assert(s[0] == 'd');
            }
        }
        assert(!is_prefix("backlog="@, s)) by {
            if is_prefix("backlog="@, s) {
                assert(s.subrange(0, 8)[0] == s[0]);
                assert(s[0] == 'd');
            }
        }
        assert(!is_prefix("rcvbuf="@, s)) by {
            if is_prefix("rcvbuf="@, s) {
                assert(s.subrange(0, 7)[0] == s[0]);
                assert(s[0] == 'd');
            }
        }
        assert(!is_prefix("sndbuf="@, s)) by {
            if is_prefix("sndbuf="@, s) {
                assert(s.subrange(0, 7)[0] == s[0]);
                assert(s[0] == 'd');
            }
        }
        assert(t.is_word(j, "deferred"@));
    }
}

/// The grammar reads the option `bind` from its word.
proof fn lemma_read_bind(t: Lexed, j: int, l: ListenView)
    requires
        option_word(l, 10) matches Some(w) ==> t.is_string(j) && t.text(j) == w,
    ensures
        option_word(l, 10) is Some ==> listen_option(t, j, keep(l, 10)) == Some(
            Ok::<_, ErrorView>(keep(l, 11)),
        ),
        option_word(l, 10) is None ==> keep(l, 11) == keep(l, 10),
{
    let s = t.text(j);
    if l.bind {
        reveal_strlit("bind");
        reveal_strlit("default_server");
        reveal_strlit("ssl");
        reveal_strlit("http2");
        reveal_strlit("spdy");
        reveal_strlit("proxy_protocol");
        reveal_strlit("setfib=");
        reveal_strlit("fastopen=");
        reveal_strlit("backlog=");
        reveal_strlit("rcvbuf=");
        reveal_strlit("sndbuf=");
        reveal_strlit("deferred");
        assert(s[0] == 'b');
        assert(s != "default_server"@);
        assert(s != "ssl"@);
        assert(s != "http2"@);
        assert(s != "spdy"@);
        assert(s != "proxy_protocol"@);
        assert(!is_prefix("setfib="@, s)) by {
            if is_prefix("setfib="@, s) {
                assert(s.subrange(0, 7)[0] == s[0]);
                assert(s[0] == 'b');
            }
        }
        assert(!is_prefix("fastopen="@, s)) by {
            if is_prefix("fastopen="@, s) {
                assert(s.subrange(0, 9)[0] == s[0]);
                assert(s[0] == 'b');
            }
        }
        assert(!is_prefix("backlog="@, s)) by {
            if is_prefix("backlog="@, s) {
                assert(s.subrange(0, 8)[1] == s[1]);
                assert(s[1] == 'i');
            }
        }
        assert(!is_prefix("rcvbuf="@, s)) by {
            if is_prefix("rcvbuf="@, s) {
                assert(s.subrange(0, 7)[0] == s[0]);
                assert(s[0] == 'b');
            }
        }
        assert(!is_prefix("sndbuf="@, s)) by {
            if is_prefix("sndbuf="@, s) {
                assert(s.subrange(0, 7)[0] == s[0]);
                assert(s[0] == 'b');
            }
        }
        assert(s != "deferred"@);
        assert(t.is_word(j, "bind"@));
    }
}

/// The grammar reads the option `ipv6only` from its word.
proof fn lemma_read_ipv6only(t: Lexed, j: int, l: ListenView)
    requires
        option_word(l, 11) matches Some(w) ==> t.is_string(j) && t.text(j) == w,
    ensures
        option_word(l, 11) is Some ==> listen_option(t, j, keep(l, 11)) == Some(
            Ok::<_, ErrorView>(keep(l, 12)),
        ),
        option_word(l, 11) is None ==> keep(l, 12) == keep(l, 11),
{
    let s = t.text(j);
    match l.ipv6only {
        Some(true) => {
            reveal_strlit("ipv6only=");
            reveal_strlit("ipv6only=on");
            reveal_strlit("on");
            reveal_strlit("off");
            reveal_strlit("default_server");
            reveal_strlit("ssl");
            reveal_strlit("http2");
            reveal_strlit("spdy");
            reveal_strlit("proxy_protocol");
            reveal_strlit("setfib=");
            reveal_strlit("fastopen=");
            reveal_strlit("backlog=");
            reveal_strlit("rcvbuf=");
            reveal_strlit("sndbuf=");
            reveal_strlit("deferred");
            reveal_strlit("bind");
            assert(s[0] == 'i');
            assert(s != "default_server"@);
            assert(s != "ssl"@);
            assert(s != "http2"@);
            assert(s != "spdy"@);
            assert(s != "proxy_protocol"@);
            assert(!is_prefix("setfib="@, s)) by {
                if is_prefix("setfib="@, s) {
                    assert(s.subrange(0, 7)[0] == s[0]);
                    assert(s[0] == 'i');
                }
            }
            assert(!is_prefix("fastopen="@, s)) by {
                if is_prefix("fastopen="@, s) {
                    assert(s.subrange(0, 9)[0] == s[0]);
                    assert(s[0] == 'i');
                }
            }
            assert(!is_prefix("backlog="@, s)) by {
                if is_prefix("backlog="@, s) {
                    assert(s.subrange(0, 8)[0] == s[0]);
                    assert(s[0] == 'i');
                }
            }
            assert(!is_prefix("rcvbuf="@, s)) by {
                if is_prefix("rcvbuf="@, s) {
                    assert(s.subrange(0, 7)[0] == s[0]);
                    assert(s[0] == 'i');
                }
            }
            assert(!is_prefix("sndbuf="@, s)) by {
                if is_prefix("sndbuf="@, s) {
                    assert(s.subrange(0, 7)[0] == s[0]);
                    assert(s[0] == 'i');
                }
            }
            assert(s != "deferred"@);
            assert(s != "bind"@);
            assert(s.subrange(0, 9) =~= "ipv6only="@);
            assert(s.skip(9) =~= "on"@);
            assert(suffix_spec(t, j, "ipv6only="@) == Some("on"@));
        },
        Some(false) => {
            reveal_strlit("ipv6only=");
            reveal_strlit("ipv6only=off");
            reveal_strlit("on");
            reveal_strlit("off");
            reveal_strlit("default_server");
            reveal_strlit("ssl");
            reveal_strlit("http2");
            reveal_strlit("spdy");
            reveal_strlit("proxy_protocol");
            reveal_strlit("setfib=");
            reveal_strlit("fastopen=");
            reveal_strlit("backlog=");
            reveal_strlit("rcvbuf=");
            reveal_strlit("sndbuf=");
            reveal_strlit("deferred");
            reveal_strlit("bind");
            assert(s[0] == 'i');
            assert(s != "default_server"@);
            assert(s != "ssl"@);
            assert(s != "http2"@);
            assert(s != "spdy"@);
            assert(s != "proxy_protocol"@);
            assert(!is_prefix("setfib="@, s)) by {
                if is_prefix("setfib="@, s) {
                    assert(s.subrange(0, 7)[0] == s[0]);
                    assert(s[0] == 'i');
                }
            }
            assert(!is_prefix("fastopen="@, s)) by {
                if is_prefix("fastopen="@, s) {
                    assert(s.subrange(0, 9)[0] == s[0]);
                    assert(s[0] == 'i');
                }
            }
            assert(!is_prefix("backlog="@, s)) by {
                if is_prefix("backlog="@, s) {
                    assert(s.subrange(0, 8)[0] == s[0]);
                    assert(s[0] == 'i');
                }
            }
            assert(!is_prefix("rcvbuf="@, s)) by {
                if is_prefix("rcvbuf="@, s) {
                    assert(s.subrange(0, 7)[0] == s[0]);
                    assert(s[0] == 'i');
                }
            }
            assert(!is_prefix("sndbuf="@, s)) by {
                if is_prefix("sndbuf="@, s) {
                    assert(s.subrange(0, 7)[0] == s[0]);
                    assert(s[0] == 'i');
                }
            }
            assert(s != "deferred"@);
            assert(s != "bind"@);
            assert(s.subrange(0, 9) =~= "ipv6only="@);
            assert(s.skip(9) =~= "off"@);
            assert(suffix_spec(t, j, "ipv6only="@) == Some("off"@));
            assert("off"@.len() != "on"@.len());
        },
        None => {},
    }
}

/// The grammar reads the option `reuseport` from its word.
proof fn lemma_read_reuseport(t: Lexed, j: int, l: ListenView)
    requires
        option_word(l, 12) matches Some(w) ==> t.is_string(j) && t.text(j) == w,
    ensures
        option_word(l, 12) is Some ==> listen_option(t, j, keep(l, 12)) == Some(
            Ok::<_, ErrorView>(keep(l, 13)),
        ),
        option_word(l, 12) is None ==> keep(l, 13) == keep(l, 12),
{
    let s = t.text(j);
    if l.reuseport {
        reveal_strlit("reuseport");
        reveal_strlit("default_server");
        reveal_strlit("ssl");
        reveal_strlit("http2");
        reveal_strlit("spdy");
        reveal_strlit("proxy_protocol");
        reveal_strlit("setfib=");
        reveal_strlit("fastopen=");
        reveal_strlit("backlog=");
        reveal_strlit("rcvbuf=");
        reveal_strlit("sndbuf=");
        reveal_strlit("deferred");
        reveal_strlit("bind");
        reveal_strlit("ipv6only=");
        assert(s[0] == 'r');
        assert(s != "default_server"@);
        assert(s != "ssl"@);
        assert(s != "http2"@);
        assert(s != "spdy"@);
        assert(s != "proxy_protocol"@);
        assert(!is_prefix("setfib="@, s)) by {
            if is_prefix("setfib="@, s) {
                assert(s.subrange(0, 7)[0] == s[0]);
                assert(s[0] == 'r');
            }
        }
        assert(!is_prefix("fastopen="@, s)) by {
            if is_prefix("fastopen="@, s) {
                assert(s.subrange(0, 9)[0] == s[0]);
                assert(s[0] == 'r');
            }
        }
        assert(!is_prefix("backlog="@, s)) by {
            if is_prefix("backlog="@, s) {
                assert(s.subrange(0, 8)[0] == s[0]);
                assert(s[0] == 'r');
            }
        }
        assert(!is_prefix("rcvbuf="@, s)) by {
            if is_prefix("rcvbuf="@, s) {
                assert(s.subrange(0, 7)[1] == s[1]);
                assert(s[1] == 'e');
            }
        }
        assert(!is_prefix("sndbuf="@, s)) by {
            if is_prefix("sndbuf="@, s) {
                assert(s.subrange(0, 7)[0] == s[0]);
                assert(s[0] == 'r');
            }
        }
        assert(s != "deferred"@);
        assert(s != "bind"@);
        assert(!is_prefix("ipv6only="@, s)) by {
            if is_prefix("ipv6only="@, s) {
                assert(s.subrange(0, 9)[0] == s[0]);
                assert(s[0] == 'r');
            }
        }
        assert(t.is_word(j, "reuseport"@));
    }
}

/// The grammar reads the option `k` from its word.
pub proof fn lemma_option_read(t: Lexed, j: int, l: ListenView, k: int)
    requires
        0 <= k < 13,
        option_word(l, k) matches Some(w) ==> t.is_string(j) && t.text(j) == w,
    ensures
        option_word(l, k) is Some ==> listen_option(t, j, keep(l, k)) == Some(
            Ok::<_, ErrorView>(keep(l, k + 1)),
        ),
        option_word(l, k) is None ==> keep(l, k + 1) == keep(l, k),
{
    if k == 0 {
        lemma_read_default_server(t, j, l);
    } else if k == 1 {
        lemma_read_ssl(t, j, l);
    } else if k == 2 {
        lemma_read_ext(t, j, l);
    } else if k == 3 {
        lemma_read_proxy_protocol(t, j, l);
    } else if k == 4 {
        lemma_read_setfib(t, j, l);
    } else if k == 5 {
        lemma_read_fastopen(t, j, l);
    } else if k == 6 {
        lemma_read_backlog(t, j, l);
    } else if k == 7 {
        lemma_read_rcvbuf(t, j, l);
    } else if k == 8 {
        lemma_read_sndbuf(t, j, l);
    } else if k == 9 {
        lemma_read_deferred(t, j, l);
    } else if k == 10 {
        lemma_read_bind(t, j, l);
    } else if k == 11 {
        lemma_read_ipv6only(t, j, l);
    } else if k == 12 {
        lemma_read_reuseport(t, j, l);
    }
}

/// The grammar reads the options of a `listen` from the option `k` on,
/// when the options before it are read.
pub proof fn lemma_options_read(t: Lexed, base: int, l: ListenView, k: int)
    requires
        0 <= k <= 13,
        0 <= base,
        base + listen_all(l).len() < t.tokens.len(),
        holds_words(t, base, listen_all(l)),
        !t.is_string(base + listen_all(l).len()),
    ensures
        listen_options(t, base + listen_upto(l, k).len(), keep(l, k)) == Ok::<_, ErrorView>(
            (l, base + listen_all(l).len()),
        ),
    decreases 13 - k,
{
    let j = base + listen_upto(l, k).len();
    if k == 13 {
        assert(keep(l, k) == l);
        assert(listen_option(t, j, l) is None);
    } else {
        lemma_upto_stable(l, k, 13);
        lemma_upto_stable(l, k + 1, 13);
        lemma_upto_stable(l, 0, k);
        let n = listen_upto(l, k).len() as int;
        assert(listen_upto(l, k + 1) == with_word(listen_upto(l, k), option_word(l, k)));
        match option_word(l, k) {
            Some(w) => {
                assert(listen_upto(l, k + 1)[n] == w);
                assert(listen_all(l)[n] == listen_upto(l, k + 1)[n]);
                assert(t.is_string(base + n));
                assert(t.text(base + n) == listen_all(l)[n]);
                lemma_option_read(t, j, l, k);
                lemma_options_read(t, base, l, k + 1);
            },
            None => {
                lemma_option_read(t, j, l, k);
                lemma_options_read(t, base, l, k + 1);
            },
        }
    }
}

/// The option `default_server` is written as its word with a blank before it.
proof fn lemma_write_default_server(l: ListenView, p: Page)
    ensures
        ({
            let q = if l.default_server {
                p.write(" default_server"@)
            } else {
                p
            };
            q.text == p.text + word_text(option_word(l, 0)) && q.indent == p.indent && q.step
                == p.step
        }),
{
    reveal_strlit(" default_server");
    reveal_strlit("default_server");
    assert(" default_server"@ =~= seq![' '] + "default_server"@);
    let q = if l.default_server {
        p.write(" default_server"@)
    } else {
        p
    };
    assert(q.text =~= p.text + word_text(option_word(l, 0)));
}

/// The option `ssl` is written as its word with a blank before it.
proof fn lemma_write_ssl(l: ListenView, p: Page)
    ensures
        ({
            let q = if l.ssl {
                p.write(" ssl"@)
            } else {
                p
            };
            q.text == p.text + word_text(option_word(l, 1)) && q.indent == p.indent && q.step
                == p.step
        }),
{
    reveal_strlit(" ssl");
    reveal_strlit("ssl");
    assert(" ssl"@ =~= seq![' '] + "ssl"@);
    let q = if l.ssl {
        p.write(" ssl"@)
    } else {
        p
    };
    assert(q.text =~= p.text + word_text(option_word(l, 1)));
}

/// The option `ext` is written as its word with a blank before it.
proof fn lemma_write_ext(l: ListenView, p: Page)
    ensures
        ({
            let q = match l.ext {
                Some(HttpExt::Http2) => p.write(" http2"@),
                Some(HttpExt::Spdy) => p.write(" spdy"@),
                None => p,
            };
            q.text == p.text + word_text(option_word(l, 2)) && q.indent == p.indent && q.step
                == p.step
        }),
{
    reveal_strlit(" http2");
    reveal_strlit("http2");
    assert(" http2"@ =~= seq![' '] + "http2"@);
    reveal_strlit(" spdy");
    reveal_strlit("spdy");
    assert(" spdy"@ =~= seq![' '] + "spdy"@);
    let q = match l.ext {
        Some(HttpExt::Http2) => p.write(" http2"@),
        Some(HttpExt::Spdy) => p.write(" spdy"@),
        None => p,
    };
    assert(q.text =~= p.text + word_text(option_word(l, 2)));
}

/// The option `proxy_protocol` is written as its word with a blank before it.
proof fn lemma_write_proxy_protocol(l: ListenView, p: Page)
    ensures
        ({
            let q = if l.proxy_protocol {
                p.write(" proxy_protocol"@)
            } else {
                p
            };
            q.text == p.text + word_text(option_word(l, 3)) && q.indent == p.indent && q.step
                == p.step
        }),
{
    reveal_strlit(" proxy_protocol");
    reveal_strlit("proxy_protocol");
    assert(" proxy_protocol"@ =~= seq![' '] + "proxy_protocol"@);
    let q = if l.proxy_protocol {
        p.write(" proxy_protocol"@)
    } else {
        p
    };
    assert(q.text =~= p.text + word_text(option_word(l, 3)));
}

/// The option `setfib` is written as its word with a blank before it.
proof fn lemma_write_setfib(l: ListenView, p: Page)
    ensures
        ({
            let q = match l.setfib {
                Some(n) => p.write(" setfib="@).write(signed_decimal(n as int)),
                None => p,
            };
            q.text == p.text + word_text(option_word(l, 4)) && q.indent == p.indent && q.step
                == p.step
        }),
{
    reveal_strlit(" setfib=");
    reveal_strlit("setfib=");
    assert(" setfib="@ =~= seq![' '] + "setfib="@);
    let q = match l.setfib {
        Some(n) => p.write(" setfib="@).write(signed_decimal(n as int)),
        None => p,
    };
    assert(q.text =~= p.text + word_text(option_word(l, 4)));
}

/// The option `fastopen` is written as its word with a blank before it.
proof fn lemma_write_fastopen(l: ListenView, p: Page)
    ensures
        ({
            let q = match l.fastopen {
                Some(n) => p.write(" fastopen="@).write(decimal(n as nat)),
                None => p,
            };
            q.text == p.text + word_text(option_word(l, 5)) && q.indent == p.indent && q.step
                == p.step
        }),
{
    reveal_strlit(" fastopen=");
    reveal_strlit("fastopen=");
    assert(" fastopen="@ =~= seq![' '] + "fastopen="@);
    let q = match l.fastopen {
        Some(n) => p.write(" fastopen="@).write(decimal(n as nat)),
        None => p,
    };
    assert(q.text =~= p.text + word_text(option_word(l, 5)));
}

/// The option `backlog` is written as its word with a blank before it.
proof fn lemma_write_backlog(l: ListenView, p: Page)
    ensures
        ({
            let q = match l.backlog {
                Some(n) => p.write(" backlog="@).write(signed_decimal(n as int)),
                None => p,
            };
            q.text == p.text + word_text(option_word(l, 6)) && q.indent == p.indent && q.step
                == p.step
        }),
{
    reveal_strlit(" backlog=");
    reveal_strlit("backlog=");
    assert(" backlog="@ =~= seq![' '] + "backlog="@);
    let q = match l.backlog {
        Some(n) => p.write(" backlog="@).write(signed_decimal(n as int)),
        None => p,
    };
    assert(q.text =~= p.text + word_text(option_word(l, 6)));
}

/// The option `rcvbuf` is written as its word with a blank before it.
proof fn lemma_write_rcvbuf(l: ListenView, p: Page)
    ensures
        ({
            let q = match l.rcvbuf {
                Some(n) => p.write(" rcvbuf="@).write(decimal(n as nat)),
                None => p,
            };
            q.text == p.text + word_text(option_word(l, 7)) && q.indent == p.indent && q.step
                == p.step
        }),
{
    reveal_strlit(" rcvbuf=");
    reveal_strlit("rcvbuf=");
    assert(" rcvbuf="@ =~= seq![' '] + "rcvbuf="@);
    let q = match l.rcvbuf {
        Some(n) => p.write(" rcvbuf="@).write(decimal(n as nat)),
        None => p,
    };
    assert(q.text =~= p.text + word_text(option_word(l, 7)));
}

/// The option `sndbuf` is written as its word with a blank before it.
proof fn lemma_write_sndbuf(l: ListenView, p: Page)
    ensures
        ({
            let q = match l.sndbuf {
                Some(n) => p.write(" sndbuf="@).write(decimal(n as nat)),
                None => p,
            };
            q.text == p.text + word_text(option_word(l, 8)) && q.indent == p.indent && q.step
                == p.step
        }),
{
    reveal_strlit(" sndbuf=");
    reveal_strlit("sndbuf=");
    assert(" sndbuf="@ =~= seq![' '] + "sndbuf="@);
    let q = match l.sndbuf {
        Some(n) => p.write(" sndbuf="@).write(decimal(n as nat)),
        None => p,
    };
    assert(q.text =~= p.text + word_text(option_word(l, 8)));
}

/// The option `deferred` is written as its word with a blank before it.
proof fn lemma_write_deferred(l: ListenView, p: Page)
    ensures
        ({
            let q = if l.deferred {
                p.write(" deferred"@)
            } else {
                p
            };
            q.text == p.text + word_text(option_word(l, 9)) && q.indent == p.indent && q.step
                == p.step
        }),
{
    reveal_strlit(" deferred");
    reveal_strlit("deferred");
    assert(" deferred"@ =~= seq![' '] + "deferred"@);
    let q = if l.deferred {
        p.write(" deferred"@)
    } else {
        p
    };
    assert(q.text =~= p.text + word_text(option_word(l, 9)));
}

/// The option `bind` is written as its word with a blank before it.
proof fn lemma_write_bind(l: ListenView, p: Page)
    ensures
        ({
            let q = if l.bind {
                p.write(" bind"@)
            } else {
                p
            };
            q.text == p.text + word_text(option_word(l, 10)) && q.indent == p.indent && q.step
                == p.step
        }),
{
    reveal_strlit(" bind");
    reveal_strlit("bind");
    assert(" bind"@ =~= seq![' '] + "bind"@);
    let q = if l.bind {
        p.write(" bind"@)
    } else {
        p
    };
    assert(q.text =~= p.text + word_text(option_word(l, 10)));
}

/// The option `ipv6only` is written as its word with a blank before it.
proof fn lemma_write_ipv6only(l: ListenView, p: Page)
    ensures
        ({
            let q = match l.ipv6only {
                Some(true) => p.write(" ipv6only=on"@),
                Some(false) => p.write(" ipv6only=off"@),
                None => p,
            };
            q.text == p.text + word_text(option_word(l, 11)) && q.indent == p.indent && q.step
                == p.step
        }),
{
    reveal_strlit(" ipv6only=on");
    reveal_strlit("ipv6only=on");
    assert(" ipv6only=on"@ =~= seq![' '] + "ipv6only=on"@);
    reveal_strlit(" ipv6only=off");
    reveal_strlit("ipv6only=off");
    assert(" ipv6only=off"@ =~= seq![' '] + "ipv6only=off"@);
    let q = match l.ipv6only {
        Some(true) => p.write(" ipv6only=on"@),
        Some(false) => p.write(" ipv6only=off"@),
        None => p,
    };
    assert(q.text =~= p.text + word_text(option_word(l, 11)));
}

/// The option `reuseport` is written as its word with a blank before it.
proof fn lemma_write_reuseport(l: ListenView, p: Page)
    ensures
        ({
            let q = if l.reuseport {
                p.write(" reuseport"@)
            } else {
                p
            };
            q.text == p.text + word_text(option_word(l, 12)) && q.indent == p.indent && q.step
                == p.step
        }),
{
    reveal_strlit(" reuseport");
    reveal_strlit("reuseport");
    assert(" reuseport"@ =~= seq![' '] + "reuseport"@);
    let q = if l.reuseport {
        p.write(" reuseport"@)
    } else {
        p
    };
    assert(q.text =~= p.text + word_text(option_word(l, 12)));
}

/// The first options of a `listen` are written as their words, each with
/// a blank before it.
pub proof fn lemma_first_text(l: ListenView, p: Page)
    ensures
        listen_first(l, p).text == options_text(p.text, l, 7),
        listen_first(l, p).indent == p.indent,
        listen_first(l, p).step == p.step,
{
    assert(p.text == options_text(p.text, l, 0));
    lemma_write_default_server(l, p);
    let a = if l.default_server {
        p.write(" default_server"@)
    } else {
        p
    };
    assert(a.text == options_text(p.text, l, 1));
    lemma_write_ssl(l, a);
    let b = if l.ssl {
        a.write(" ssl"@)
    } else {
        a
    };
    assert(b.text == options_text(p.text, l, 2));
    lemma_write_ext(l, b);
    let c = match l.ext {
        Some(HttpExt::Http2) => b.write(" http2"@),
        Some(HttpExt::Spdy) => b.write(" spdy"@),
        None => b,
    };
    assert(c.text == options_text(p.text, l, 3));
    lemma_write_proxy_protocol(l, c);
    let d = if l.proxy_protocol {
        c.write(" proxy_protocol"@)
    } else {
        c
    };
    assert(d.text == options_text(p.text, l, 4));
    lemma_write_setfib(l, d);
    let e = match l.setfib {
        Some(n) => d.write(" setfib="@).write(signed_decimal(n as int)),
        None => d,
    };
    assert(e.text == options_text(p.text, l, 5));
    lemma_write_fastopen(l, e);
    let f = match l.fastopen {
        Some(n) => e.write(" fastopen="@).write(decimal(n as nat)),
        None => e,
    };
    assert(f.text == options_text(p.text, l, 6));
    lemma_write_backlog(l, f);
    let g = match l.backlog {
        Some(n) => f.write(" backlog="@).write(signed_decimal(n as int)),
        None => f,
    };
    assert(g.text == options_text(p.text, l, 7));
    assert(listen_first(l, p) == g);
}

/// The last options of a `listen` are written as their words, each with
/// a blank before it.
pub proof fn lemma_rest_text(l: ListenView, p: Page, start: Seq<char>)
    requires
        p.text == options_text(start, l, 7),
    ensures
        listen_rest(l, p).text == options_text(start, l, 13),
        listen_rest(l, p).indent == p.indent,
        listen_rest(l, p).step == p.step,
{
    lemma_write_rcvbuf(l, p);
    let a = match l.rcvbuf {
        Some(n) => p.write(" rcvbuf="@).write(decimal(n as nat)),
        None => p,
    };
    assert(a.text == options_text(start, l, 8));
    lemma_write_sndbuf(l, a);
    let b = match l.sndbuf {
        Some(n) => a.write(" sndbuf="@).write(decimal(n as nat)),
        None => a,
    };
    assert(b.text == options_text(start, l, 9));
    lemma_write_deferred(l, b);
    let c = if l.deferred {
        b.write(" deferred"@)
    } else {
        b
    };
    assert(c.text == options_text(start, l, 10));
    lemma_write_bind(l, c);
    let d = if l.bind {
        c.write(" bind"@)
    } else {
        c
    };
    assert(d.text == options_text(start, l, 11));
    lemma_write_ipv6only(l, d);
    let e = match l.ipv6only {
        Some(true) => d.write(" ipv6only=on"@),
        Some(false) => d.write(" ipv6only=off"@),
        None => d,
    };
    assert(e.text == options_text(start, l, 12));
    lemma_write_reuseport(l, e);
    let f = if l.reuseport {
        e.write(" reuseport"@)
    } else {
        e
    };
    assert(f.text == options_text(start, l, 13));
    assert(listen_rest(l, p) == f);
}

/// `listen` is written as the line of its words.
pub proof fn lemma_listen_line(item: ItemView, p: Page)
    requires
        item is Listen,
    ensures
        render_item(item, p) == with_line(p, seq!["listen"@] + listen_all(item->Listen_0)),
{
    let l = item->Listen_0;
    let name = "listen"@;
    reveal_strlit("listen ");
    reveal_strlit("listen");
    assert("listen "@ =~= name + seq![' ']);
    let start = render_address(l.address, p.indent().write("listen "@));
    let head = p.indent().text + name;
    let tail = seq![' '] + address_text(l.address);
    reveal_strlit("*:");
    reveal_strlit("unix:");
    assert(start.text =~= head + tail);
    lemma_first_text(l, start);
    lemma_rest_text(l, listen_first(l, start), start.text);
    let written = listen_rest(l, listen_first(l, start));
    lemma_text_parts(head, tail, l, 13);
    assert(written.text == head + options_text(tail, l, 13));
    lemma_joined_upto(l, 13);
    lemma_line_joined(name, listen_all(l));
    let line = line_text(seq![name] + listen_all(l));
    assert(line == name + options_text(tail, l, 13) + seq![';', '\n']);
    assert(written.end().text =~= p.indent().text + line);
    assert(render_item(item, p) == render_listen(l, p.indent()));
    assert(render_listen(l, p.indent()) == written.end());
}

/// `listen` is read back from its tokens.
pub proof fn lemma_listen_parsed(t: Lexed, i: int, item: ItemView)
    requires
        item is Listen,
        listen_ok(item->Listen_0),
        has_tokens(t, i, item_tokens(item)),
        item_tokens(item) == string_tokens(seq!["listen"@] + listen_all(item->Listen_0)).push(
            punct_token(';'),
        ),
    ensures
        item_spec(t, i) matches Some(Ok((back, j))) && j == i + item_tokens(item).len() && alike(
            item,
            back,
        ),
{
    let l = item->Listen_0;
    let all = listen_all(l);
    let n = all.len() as int;
    lemma_line_holds(t, i, "listen"@, all);
    lemma_named_read(t, i);
    lemma_address_read(l.address);
    lemma_upto_stable(l, 0, 13);
    assert(listen_upto(l, 0)[0] == address_text(l.address));
    assert(all[0] == address_text(l.address));
    assert(t.is_string(i + 1 + 0));
    assert(t.text(i + 1 + 0) == all[0]);
    assert(keep(l, 0) == ListenView::plain(l.address));
    lemma_options_read(t, i + 1, l, 0);
    lemma_listen_finish(t, i, l, n);
}

/// The grammar reads a `listen` from its address and its options.
proof fn lemma_listen_finish(t: Lexed, i: int, l: ListenView, n: int)
    requires
        t.is_string(i),
        t.text(i) == "listen"@,
        item_spec(t, i) == Some(listen_spec(t, i)),
        t.is_string(i + 1),
        crate::http_core::address_spec(t.text(i + 1)) == Ok::<_, crate::error::ErrorItemView>(
            l.address,
        ),
        listen_options(t, i + 2, ListenView::plain(l.address)) == Ok::<_, ErrorView>(
            (l, i + 1 + n),
        ),
        t.is_kind(i + 1 + n, crate::tokenizer::Kind::Semicolon),
    ensures
        item_spec(t, i) == Some(Ok::<_, ErrorView>((ItemView::Listen(l), i + 2 + n))),
{
    assert(semi_spec(t, i + 1 + n, listen_words()) == Ok::<_, ErrorView>(i + 2 + n));
}

} // verus!
