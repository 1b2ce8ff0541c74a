//! The address of `listen`: how it is written, and that it is read back.

use vstd::prelude::*;
use crate::ast::{AddressView, ListenView};
use crate::error::ErrorItemView;
use crate::forms_net::{is_address_char, lemma_ip_chars};
use crate::http_core::address_spec;
use crate::lex_laws::{is_word, lemma_plain_word, lemma_simple_word};
use crate::net6_laws::{is_six_char, lemma_six_chars, lemma_socket6_round_trip};
use crate::net::{ip_text, socket_text, SocketAddress};
use crate::net_laws::{lemma_ip_round_trip, lemma_socket_round_trip};
use crate::number_laws::{lemma_decimal_digits, lemma_decimal_read};
use crate::text::{decimal, digit_value, digits_from, is_prefix};

verus! {

/// The text of the address of a `listen`.
pub open spec fn address_text(a: AddressView) -> Seq<char> {
    match a {
        AddressView::Ip(sa) => socket_text(sa),
        AddressView::StarPort(port) => "*:"@ + decimal(port as nat),
        AddressView::Port(port) => decimal(port as nat),
        AddressView::Unix(path) => "unix:"@ + path,
    }
}

/// Whether a `listen` is read back as it is written: where its address
/// is a socket of the file system, the text of the address is one token.
pub open spec fn listen_ok(l: ListenView) -> bool {
    match l.address {
        AddressView::Ip(_) => true,
        AddressView::StarPort(_) => true,
        AddressView::Port(_) => true,
        AddressView::Unix(path) => is_word("unix:"@ + path),
    }
}

/// A text with a character that is no digit is no number.
pub proof fn lemma_no_number(s: Seq<char>, i: int, k: int, acc: int, min: int, max: int)
    requires
        0 <= i <= k < s.len(),
        digit_value(s[k]) is None,
    ensures
        digits_from(s, i, acc, false, min, max) is Err,
    decreases k - i,
{
    if i < k {
        match digit_value(s[i]) {
            Some(d) => {
                lemma_no_number(s, i + 1, k, acc * 10 + d, min, max);
            },
            None => {},
        }
    }
}

/// The text of an address of version 4 with a port is one token, and the
/// grammar reads the address from it.
pub proof fn lemma_socket_read(sa: SocketAddress)
    requires
        sa.ip is V4,
    ensures
        is_word(socket_text(sa)),
        address_spec(socket_text(sa)) == Ok::<_, ErrorItemView>(AddressView::Ip(sa)),
{
    reveal_strlit("unix:");
    reveal_strlit("*:");
    let s = socket_text(sa);
    let head = ip_text(sa.ip);
    let digits = decimal(sa.port as nat);
    let p = head.len() as int;
    lemma_ip_chars(sa.ip);
    lemma_ip_round_trip(sa.ip);
    lemma_socket_round_trip(sa);
    lemma_decimal_digits(sa.port as nat);
    assert(s[0] == head[0]);
    assert(s[p] == ':');
    assert(digit_value(s[0]) is Some);
    assert(!is_prefix("unix:"@, s)) by {
        if is_prefix("unix:"@, s) {
            assert(s.subrange(0, 5)[0] == 'u');
        }
    }
    assert(!is_prefix("*:"@, s)) by {
        if is_prefix("*:"@, s) {
            assert(s.subrange(0, 2)[0] == '*');
        }
    }
    lemma_no_number(s, 0, p, 0, 0, 65535);
    assert forall|k: int| 0 <= k < s.len() implies crate::lex_laws::starts_word(
        #[trigger] s[k],
    ) by {
        if k < p {
            assert(s[k] == head[k]);
            assert(is_address_char(head[k]));
        } else if k > p {
            assert(s[k] == digits[k - p - 1]);
            assert(digit_value(digits[k - p - 1]) is Some);
        }
    }
    lemma_simple_word(s);
}

/// The text of an address of version 6 with a port is one token, and the
/// grammar reads the address from it.
pub proof fn lemma_socket6_read(sa: SocketAddress)
    requires
        sa.ip is V6,
    ensures
        is_word(socket_text(sa)),
        address_spec(socket_text(sa)) == Ok::<_, ErrorItemView>(AddressView::Ip(sa)),
{
    reveal_strlit("unix:");
    reveal_strlit("*:");
    let s = socket_text(sa);
    let head = ip_text(sa.ip);
    let digits = decimal(sa.port as nat);
    let p = 1 + head.len() as int;
    lemma_six_chars(sa.ip.groups());
    lemma_socket6_round_trip(sa);
    lemma_decimal_digits(sa.port as nat);
    assert(s =~= seq!['['] + head + seq![']', ':'] + digits);
    assert(s[0] == '[');
    assert(!is_prefix("unix:"@, s)) by {
        if is_prefix("unix:"@, s) {
            assert(s.subrange(0, 5)[0] == 'u');
        }
    }
    assert(!is_prefix("*:"@, s)) by {
        if is_prefix("*:"@, s) {
            assert(s.subrange(0, 2)[0] == '*');
        }
    }
    lemma_no_number(s, 0, 0, 0, 0, 65535);
    assert forall|k: int| 0 <= k < s.len() implies crate::lex_laws::starts_word(
        #[trigger] s[k],
    ) by {
        if 1 <= k < p {
            assert(s[k] == head[k - 1]);
            assert(is_six_char(head[k - 1]));
        } else if k >= p + 2 {
            assert(s[k] == digits[k - p - 2]);
            assert(digit_value(digits[k - p - 2]) is Some);
        }
    }
    lemma_simple_word(s);
}

/// The text of the address of a `listen` that is read back is one token,
/// and the grammar reads the address from it.
pub proof fn lemma_address_read(a: AddressView)
    requires
        a is Unix ==> is_word("unix:"@ + a->Unix_0),
    ensures
        is_word(address_text(a)),
        address_spec(address_text(a)) == Ok::<_, ErrorItemView>(a),
{
    reveal_strlit("unix:");
    reveal_strlit("*:");
    let s = address_text(a);
    match a {
        AddressView::Port(port) => {
            lemma_decimal_digits(port as nat);
            lemma_plain_word(s);
            lemma_decimal_read(port as nat, 0, 65535);
            assert(digit_value(s[0]) is Some);
            assert(!is_prefix("unix:"@, s)) by {
                if is_prefix("unix:"@, s) {
                    assert(s.subrange(0, 5)[0] == 'u');
                }
            }
            assert(!is_prefix("*:"@, s)) by {
                if is_prefix("*:"@, s) {
                    assert(s.subrange(0, 2)[0] == '*');
                }
            }
        },
        AddressView::StarPort(port) => {
            let digits = decimal(port as nat);
            lemma_decimal_digits(port as nat);
            lemma_decimal_read(port as nat, 0, 65535);
            assert(s.skip(2) =~= digits);
            assert(s.subrange(0, 2) =~= "*:"@);
            assert(!is_prefix("unix:"@, s)) by {
                if is_prefix("unix:"@, s) {
                    assert(s.subrange(0, 5)[0] == 'u');
                }
            }
            assert forall|k: int| 0 <= k < s.len() implies crate::lex_laws::starts_word(
                #[trigger] s[k],
            ) by {
                if k >= 2 {
                    assert(s[k] == digits[k - 2]);
                    assert(digit_value(digits[k - 2]) is Some);
                }
            }
            lemma_simple_word(s);
        },
        AddressView::Unix(path) => {
            assert(s.subrange(0, 5) =~= "unix:"@);
            assert(s.skip(5) =~= path);
        },
        AddressView::Ip(sa) => {
            if sa.ip is V4 {
                lemma_socket_read(sa);
            } else {
                lemma_socket6_read(sa);
            }
        },
    }
}

} // verus!
