//! `return` and `server_name`: how each is written, and that it is read
//! back.

use vstd::prelude::*;
use crate::ast::{ItemView, ReturnView, ServerNameView};
use crate::display::{render_item, render_name, render_names, render_return, render_server_name};
use crate::error::ErrorView;
use crate::format::Page;
use crate::forms::{alike, alike_here, has_tokens, item_tokens, lexable, line_words, words_ok};
use crate::forms_kinds::{joined, lemma_line_joined, lemma_run_read, lemma_value_read, placed};
use crate::forms_reads::lemma_named_read;
use crate::forms_words::lemma_line_holds;
use crate::grammar::{code_spec, is_redirect, item_spec, server_name_of, server_names, Code};
use crate::helpers::value_spec;
use crate::http_core::literal_spec;
use crate::layout_laws::{lemma_spaced_one, lemma_spaced_two, with_line};
use crate::lex_laws::{is_word, lemma_plain_word};
use crate::number_laws::{lemma_decimal_digits, lemma_decimal_read};
use crate::rewrite::{is_url, return_many, return_none, return_of, return_spec};
use crate::text::{decimal, digit_value, is_prefix};
use crate::tokenizer::Lexed;
use crate::value::{
    has_special, has_specials, is_special, parse_spec, pieces_text, value_text,
    ItemView as Piece, ValueError, ValueView,
};
use crate::value_laws::{is_plain, lemma_value_round_trip, piece_readable, readable};

verus! {

/// The value that is one literal with the digits of `n`.
pub open spec fn number_value(n: nat) -> Seq<Piece> {
    seq![Piece::Literal(decimal(n))]
}

/// The digits of a number are read as a value that is one literal with
/// these digits.
pub proof fn lemma_number_value(n: nat)
    ensures
        parse_spec(decimal(n)) == Ok::<_, ValueError>(number_value(n)),
        is_word(decimal(n)),
{
    let digits = decimal(n);
    let data = number_value(n);
    lemma_decimal_digits(n);
    lemma_plain_word(digits);
    assert forall|i: int| 0 <= i < digits.len() implies is_plain(#[trigger] digits[i])
        && !is_special(digits[i]) by {
        assert(digit_value(digits[i]) is Some);
    }
    assert(!has_special(digits));
    assert(!has_specials(data, 1)) by {
        if has_specials(data, 1) {
            let k = choose|k: int|
                0 <= k < 1 && k < data.len() && (#[trigger] data[k]) is Literal && has_special(
                    data[k]->Literal_0,
                );
            assert(data[k]->Literal_0 == digits);
        }
    }
    assert(piece_readable(data, 0));
    assert(digit_value(digits[0]) is Some);
    assert(readable(data));
    assert(pieces_text(data, 0) =~= Seq::<char>::empty());
    assert(pieces_text(data, 1) =~= digits);
    assert(value_text(data) == digits);
    lemma_value_round_trip(data);
}

/// Whether a `return` is read back as it is written: a code alone is no
/// code that redirects, a code with an address is one, a code with a
/// text is none, and an address alone starts like an address.
pub open spec fn return_ok(r: ReturnView) -> bool {
    match r {
        ReturnView::Redirect { code: None, url } => lexable(url) && is_url(url),
        ReturnView::Redirect { code: Some(c), url } => is_redirect(c as int) && lexable(url),
        ReturnView::Text { code, text: Some(v) } => 200 <= code <= 599 && !is_redirect(
            code as int,
        ) && lexable(v),
        ReturnView::Text { code, text: None } => 200 <= code <= 599 && !is_redirect(code as int),
    }
}

/// The words of a `return` behind its name.
pub open spec fn return_words(r: ReturnView) -> Seq<Seq<char>> {
    match r {
        ReturnView::Redirect { code: None, url } => seq![value_text(url.data)],
        ReturnView::Redirect { code: Some(c), url } => seq![
            decimal(c as nat),
            value_text(url.data),
        ],
        ReturnView::Text { code, text: Some(v) } => seq![decimal(code as nat), value_text(v.data)],
        ReturnView::Text { code, text: None } => seq![decimal(code as nat)],
    }
}

/// `return` is written as the line of its words.
pub proof fn lemma_return_line(item: ItemView, p: Page)
    requires
        item is Return,
    ensures
        render_item(item, p) == with_line(p, line_words(item)),
{
    let r = item->Return_0;
    let ws = line_words(item);
    reveal_strlit("return ");
    reveal_strlit("return");
    assert("return "@ =~= "return"@ + seq![' ']);
    lemma_spaced_one("return"@);
    assert(ws =~= seq!["return"@] + return_words(r));
    if return_words(r).len() == 2 {
        let a = return_words(r)[0];
        assert(ws.drop_last() =~= seq!["return"@, a]);
        lemma_spaced_two("return"@, a);
    } else {
        assert(ws.drop_last() =~= seq!["return"@]);
    }
    assert(render_item(item, p) == render_return(r, p));
    assert(render_return(r, p).text =~= with_line(p, ws).text);
}

/// The code of a `return` is read from its digits.
pub proof fn lemma_code_read(t: Lexed, i: int, c: u32)
    requires
        t.is_string(i),
        t.text(i) == decimal(c as nat),
    ensures
        value_spec(t, i, seq!["String"@]) == Ok::<_, ErrorView>(
            (ValueView { position: t.position(i), data: number_value(c as nat) }, i + 1),
        ),
        literal_spec(
            ValueView { position: t.position(i), data: number_value(c as nat) },
            return_none(),
            return_many(),
        ) == Ok::<_, crate::error::ErrorItemView>(decimal(c as nat)),
        crate::rewrite::is_url(
            ValueView { position: t.position(i), data: number_value(c as nat) },
        ) == false,
        is_redirect(c as int) ==> code_spec(decimal(c as nat)) == Ok::<
            _,
            crate::error::ErrorItemView,
        >(Code::Redirect(c)),
        200 <= c <= 599 && !is_redirect(c as int) ==> code_spec(decimal(c as nat)) == Ok::<
            _,
            crate::error::ErrorItemView,
        >(Code::Normal(c)),
{
    lemma_number_value(c as nat);
    lemma_decimal_read(c as nat, 0, u32::MAX as int);
    lemma_decimal_digits(c as nat);
    reveal_strlit("https://");
    reveal_strlit("http://");
    let digits = decimal(c as nat);
    assert(digit_value(digits[0]) is Some);
    assert(!is_prefix("https://"@, digits)) by {
        if is_prefix("https://"@, digits) {
            assert(digits.subrange(0, 8)[0] == 'h');
        }
    }
    assert(!is_prefix("http://"@, digits)) by {
        if is_prefix("http://"@, digits) {
            assert(digits.subrange(0, 7)[0] == 'h');
        }
    }
}

/// `return` is read back from its tokens.
#[verifier::rlimit(60)]
pub proof fn lemma_return_parsed(t: Lexed, i: int, item: ItemView)
    requires
        item is Return,
        words_ok(item),
        has_tokens(t, i, item_tokens(item)),
    ensures
        item_spec(t, i) matches Some(Ok((back, j))) && j == i + item_tokens(item).len() && alike(
            item,
            back,
        ),
{
    let r = item->Return_0;
    lemma_line_holds(t, i, "return"@, return_words(r));
    assert(line_words(item) =~= seq!["return"@] + return_words(r));
    lemma_named_read(t, i);
    let ws = return_words(r);
    assert(t.is_string(i + 1 + 0));
    assert(t.text(i + 1 + 0) == ws[0]);
    match r {
        ReturnView::Redirect { code: None, url } => {
            lemma_value_read(t, i + 1, url, seq!["String"@]);
            let back = ItemView::Return(
                ReturnView::Redirect { code: None, url: placed(t, i + 1, url) },
            );
            assert(return_of(placed(t, i + 1, url), None) == Ok::<
                _,
                crate::error::ErrorItemView,
            >(ReturnView::Redirect { code: None, url: placed(t, i + 1, url) }));
            assert(return_spec(t, i) == Ok::<_, ErrorView>((back, i + 3)));
            assert(back.values() =~= seq![placed(t, i + 1, url)]);
            assert(item.values() =~= seq![url]);
        },
        ReturnView::Redirect { code: Some(c), url } => {
            assert(t.is_string(i + 1 + 1));
            assert(t.text(i + 1 + 1) == ws[1]);
            lemma_code_read(t, i + 1, c);
            lemma_value_read(t, i + 2, url, Seq::empty());
            let back = ItemView::Return(
                ReturnView::Redirect { code: Some(c), url: placed(t, i + 2, url) },
            );
            assert(return_spec(t, i) == Ok::<_, ErrorView>((back, i + 4)));
            assert(back.values() =~= seq![placed(t, i + 2, url)]);
            assert(item.values() =~= seq![url]);
        },
        ReturnView::Text { code, text: Some(v) } => {
            assert(t.is_string(i + 1 + 1));
            assert(t.text(i + 1 + 1) == ws[1]);
            lemma_code_read(t, i + 1, code);
            lemma_value_read(t, i + 2, v, Seq::empty());
            let back = ItemView::Return(
                ReturnView::Text { code, text: Some(placed(t, i + 2, v)) },
            );
            assert(return_spec(t, i) == Ok::<_, ErrorView>((back, i + 4)));
            assert(back.values() =~= seq![placed(t, i + 2, v)]);
            assert(item.values() =~= seq![v]);
        },
        ReturnView::Text { code, text: None } => {
            lemma_code_read(t, i + 1, code);
            assert(return_spec(t, i) == Ok::<_, ErrorView>((item, i + 3)));
        },
    }
}

/// A directive that is like a `return` has the same words.
pub proof fn lemma_return_alike(a: ItemView, b: ItemView)
    requires
        a is Return,
        words_ok(a),
        alike_here(a, b),
    ensures
        b is Return,
        words_ok(b),
        line_words(b) == line_words(a),
{
    let va = a.values();
    let vb = b.values();
    match a->Return_0 {
        ReturnView::Text { code, text: None } => {},
        _ => {
            assert(vb[0].data == va[0].data);
        },
    }
}

/// The text of the name of a server.
pub open spec fn name_text(name: ServerNameView) -> Seq<char> {
    match name {
        ServerNameView::Exact(v) => v,
        ServerNameView::Suffix(v) => seq!['.'] + v,
        ServerNameView::StarSuffix(v) => seq!['*', '.'] + v,
        ServerNameView::StarPrefix(v) => v + seq!['.', '*'],
        ServerNameView::Regex(v) => seq!['~'] + v,
    }
}

/// The texts of the names of `list`.
pub open spec fn name_texts(list: Seq<ServerNameView>) -> Seq<Seq<char>> {
    list.map_values(|n: ServerNameView| name_text(n))
}

/// Whether the names of `list` are read back as they are written: the
/// text of each is one token, and is read as the same form of name.
pub open spec fn names_ok(list: Seq<ServerNameView>) -> bool {
    &&& list.len() > 0
    &&& forall|k: int|
        0 <= k < list.len() ==> is_word(name_text(#[trigger] list[k])) && server_name_of(
            name_text(list[k]),
        ) == list[k]
}

/// Writing names of servers adds their texts, each with a blank before
/// it.
pub proof fn lemma_names_joined(list: Seq<ServerNameView>, n: int, p: Page)
    requires
        0 <= n <= list.len(),
    ensures
        render_names(list, n, p).text == p.text + joined(name_texts(list), n),
        render_names(list, n, p).indent == p.indent,
        render_names(list, n, p).step == p.step,
    decreases n,
{
    reveal_strlit(" .");
    reveal_strlit(" *.");
    reveal_strlit(".*");
    reveal_strlit(" ~");
    if n > 0 {
        lemma_names_joined(list, n - 1, p);
        let q = render_names(list, n - 1, p);
        assert(render_name(list[n - 1], q).text =~= q.text + seq![' '] + name_text(list[n - 1]));
        assert(render_names(list, n, p).text =~= p.text + joined(name_texts(list), n));
    } else {
        assert(p.text + joined(name_texts(list), n) =~= p.text);
    }
}

/// `server_name` is written as the line of its words.
pub proof fn lemma_server_name_line(item: ItemView, p: Page)
    requires
        item is ServerName,
    ensures
        render_item(item, p) == with_line(p, line_words(item)),
{
    let list = item->ServerName_0;
    lemma_line_joined("server_name"@, name_texts(list));
    lemma_names_joined(list, list.len() as int, p.indent().write("server_name"@));
    assert(render_item(item, p) == render_server_name(list, p));
    assert(render_server_name(list, p).text =~= with_line(p, line_words(item)).text);
}

/// `server_name` is read back from its tokens.
pub proof fn lemma_server_name_parsed(t: Lexed, i: int, item: ItemView)
    requires
        item is ServerName,
        words_ok(item),
        has_tokens(t, i, item_tokens(item)),
    ensures
        item_spec(t, i) matches Some(Ok((back, j))) && j == i + item_tokens(item).len() && alike(
            item,
            back,
        ),
{
    let list = item->ServerName_0;
    let n = list.len() as int;
    lemma_line_holds(t, i, "server_name"@, name_texts(list));
    lemma_named_read(t, i);
    lemma_run_read(t, i + 1, n, 0);
    assert(t.is_string(i + 1 + 0));
    assert(server_names(t, i + 1, i + 1 + n) =~= list) by {
        assert forall|m: int| 0 <= m < n implies server_names(t, i + 1, i + 1 + n)[m]
            == list[m] by {
            assert(t.text(i + 1 + m) == name_texts(list)[m]);
        }
    }
    assert(item_spec(t, i) == Some(Ok::<_, ErrorView>((item, i + 2 + n))));
}

} // verus!
