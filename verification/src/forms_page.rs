//! `error_page`: how it is written, and that it is read back.

use vstd::prelude::*;
use crate::ast::{ErrorPageResponse, ErrorPageView, ItemView};
use crate::display::{render_error_page, render_item, render_numbers};
use crate::error::{ErrorItemView, ErrorView};
use crate::format::Page;
use crate::forms::{alike, alike_here, has_tokens, item_tokens, lexable, line_words, words_ok};
use crate::forms_kinds::{
    all_lexable, holds_values, joined, lemma_line_joined, lemma_line_tokens, lemma_values_read,
    placed_all, value_texts,
};
use crate::forms_reads::lemma_named_read;
use crate::forms_try::{is_code_text, lemma_code_text, literal_value};
use crate::grammar::{code_spec, is_redirect, item_spec, Code};
use crate::helpers::semi_spec;
use crate::http_core::{
    error_page_of, error_page_spec, literal_spec, page_codes, page_finish, page_many, page_none,
    response_spec,
};
use crate::layout_laws::with_line;
use crate::number_laws::{lemma_decimal_digits, lemma_decimal_read};
use crate::text::{decimal, digit_value};
use crate::tokenizer::Lexed;
use crate::value::{value_text, ValueView};

verus! {

/// The codes of an `error_page` as values.
pub open spec fn code_values(codes: Seq<u32>) -> Seq<ValueView> {
    Seq::new(codes.len(), |k: int| literal_value(decimal(codes[k] as nat)))
}

/// The text of the answer that an `error_page` gives, where it is
/// written.
pub open spec fn response_text(r: ErrorPageResponse) -> Option<Seq<char>> {
    match r {
        ErrorPageResponse::Target => None,
        ErrorPageResponse::Keep => Some(seq!['=']),
        ErrorPageResponse::Replace(code) => Some(seq!['='] + decimal(code as nat)),
        ErrorPageResponse::Redirect(code) => Some(seq!['='] + decimal(code as nat)),
    }
}

/// The answer that an `error_page` gives as values: one or none.
pub open spec fn response_values(r: ErrorPageResponse) -> Seq<ValueView> {
    match response_text(r) {
        None => Seq::empty(),
        Some(s) => seq![literal_value(s)],
    }
}

/// The arguments of an `error_page` as values.
pub open spec fn page_values(e: ErrorPageView) -> Seq<ValueView> {
    code_values(e.codes) + response_values(e.response_code) + seq![e.uri]
}

/// Whether an `error_page` is read back as it is written: its codes are
/// between 200 and 599, as is a code that replaces them; a code that
/// redirects is one of 301, 302, 303, 307 and 308, one that replaces is
/// none of them; its address is read back as it is written.
pub open spec fn page_ok(e: ErrorPageView) -> bool {
    &&& forall|k: int| 0 <= k < e.codes.len() ==> 200 <= #[trigger] e.codes[k] <= 599
    &&& match e.response_code {
        ErrorPageResponse::Replace(code) => 200 <= code <= 599 && !is_redirect(code as int),
        ErrorPageResponse::Redirect(code) => is_redirect(code as int),
        _ => true,
    }
    &&& lexable(e.uri)
}

/// A number, with or without `=` before it, is made of digits and `=`.
pub proof fn lemma_number_text(n: nat)
    ensures
        is_code_text(decimal(n)),
        is_code_text(seq!['='] + decimal(n)),
        is_code_text(seq!['=']),
{
    lemma_decimal_digits(n);
    let d = decimal(n);
    let s = seq!['='] + d;
    assert forall|k: int| 0 <= k < s.len() implies digit_value(#[trigger] s[k]) is Some || s[k]
        == '=' by {
        if k > 0 {
            assert(s[k] == d[k - 1]);
        }
    }
}

/// Each argument of an `error_page` that is read back is read back as it
/// is written.
pub proof fn lemma_page_values(e: ErrorPageView)
    requires
        page_ok(e),
    ensures
        all_lexable(page_values(e)),
        forall|k: int|
            0 <= k < e.codes.len() ==> value_text((#[trigger] page_values(e)[k]).data) == decimal(
                e.codes[k] as nat,
            ),
        response_text(e.response_code) matches Some(s) ==> value_text(
            page_values(e)[e.codes.len() as int].data,
        ) == s,
{
    let list = page_values(e);
    let n = e.codes.len() as int;
    assert forall|k: int| 0 <= k < list.len() implies lexable(#[trigger] list[k]) by {
        if k < n {
            lemma_number_text(e.codes[k] as nat);
            lemma_code_text(decimal(e.codes[k] as nat));
        } else if k < list.len() - 1 {
            lemma_number_text(0);
            match e.response_code {
                ErrorPageResponse::Replace(code) => {
                    lemma_number_text(code as nat);
                },
                ErrorPageResponse::Redirect(code) => {
                    lemma_number_text(code as nat);
                },
                _ => {},
            }
            lemma_code_text(response_text(e.response_code)->0);
        }
    }
    assert forall|k: int| 0 <= k < e.codes.len() implies value_text(
        (#[trigger] page_values(e)[k]).data,
    ) == decimal(e.codes[k] as nat) by {
        lemma_number_text(e.codes[k] as nat);
        lemma_code_text(decimal(e.codes[k] as nat));
    }
    match response_text(e.response_code) {
        Some(s) => {
            lemma_number_text(0);
            match e.response_code {
                ErrorPageResponse::Replace(code) => {
                    lemma_number_text(code as nat);
                },
                ErrorPageResponse::Redirect(code) => {
                    lemma_number_text(code as nat);
                },
                _ => {},
            }
            lemma_code_text(s);
        },
        None => {},
    }
}

/// Writing numbers with a blank before each adds their digits, each
/// number with a blank before it.
pub proof fn lemma_numbers_joined(codes: Seq<u32>, ws: Seq<Seq<char>>, n: int, p: Page)
    requires
        0 <= n <= codes.len(),
        n <= ws.len(),
        forall|k: int| 0 <= k < n ==> ws[k] == decimal(codes[k] as nat),
    ensures
        render_numbers(codes, n, p).text == p.text + joined(ws, n),
        render_numbers(codes, n, p).indent == p.indent,
        render_numbers(codes, n, p).step == p.step,
    decreases n,
{
    if n > 0 {
        lemma_numbers_joined(codes, ws, n - 1, p);
        assert(render_numbers(codes, n, p).text =~= p.text + joined(ws, n));
    } else {
        assert(p.text + joined(ws, n) =~= p.text);
    }
}

/// `error_page` is written as the line of its words.
pub proof fn lemma_page_line(item: ItemView, p: Page)
    requires
        item is ErrorPage,
        words_ok(item),
    ensures
        render_item(item, p) == with_line(p, line_words(item)),
{
    let e = item->ErrorPage_0;
    let n = e.codes.len() as int;
    let all = page_values(e);
    let ws = value_texts(all);
    let name = "error_page"@;
    let base = p.indent().write(name);
    let len = ws.len() as int;
    reveal_strlit(" =");
    lemma_page_values(e);
    lemma_line_joined(name, ws);
    assert forall|k: int| 0 <= k < n implies ws[k] == decimal(e.codes[k] as nat) by {
        assert(ws[k] == value_text(all[k].data));
    }
    lemma_numbers_joined(e.codes, ws, n, base);
    let q = render_numbers(e.codes, n, base);
    assert(ws[len - 1] == value_text(e.uri.data));
    assert(joined(ws, len) == joined(ws, len - 1) + seq![' '] + ws[len - 1]);
    assert(render_item(item, p) == render_error_page(e, p));
    match response_text(e.response_code) {
        None => {
            assert(len == n + 1);
            assert(render_error_page(e, p).text =~= q.text + seq![' '] + ws[len - 1] + seq![
                ';',
                '\n',
            ]);
        },
        Some(s) => {
            assert(len == n + 2);
            assert(ws[n] == value_text(all[n].data));
            assert(joined(ws, n + 1) == joined(ws, n) + seq![' '] + ws[n]);
            assert(" ="@ =~= seq![' ', '=']);
            let r = match e.response_code {
                ErrorPageResponse::Target => q,
                ErrorPageResponse::Replace(code) => q.write(" ="@).write(decimal(code as nat)),
                ErrorPageResponse::Redirect(code) => q.write(" ="@).write(decimal(code as nat)),
                ErrorPageResponse::Keep => q.write(" ="@),
            };
            assert(r.text =~= q.text + seq![' '] + s);
            assert(render_error_page(e, p).text =~= r.text + seq![' '] + ws[len - 1] + seq![
                ';',
                '\n',
            ]);
        },
    }
    assert(render_error_page(e, p).text =~= with_line(p, line_words(item)).text);
}

/// The grammar reads codes from the values that hold their digits.
pub proof fn lemma_codes_read(list: Seq<ValueView>, codes: Seq<u32>, i: int, acc: Seq<u32>)
    requires
        0 <= i <= list.len(),
        list.len() == codes.len(),
        forall|k: int|
            0 <= k < list.len() ==> (#[trigger] list[k]).data == literal_value(
                decimal(codes[k] as nat),
            ).data,
        forall|k: int| 0 <= k < codes.len() ==> 200 <= #[trigger] codes[k] <= 599,
        acc == codes.take(i),
    ensures
        page_codes(list, i, acc) == Ok::<_, ErrorItemView>(codes),
    decreases list.len() - i,
{
    if i < list.len() {
        let x = decimal(codes[i] as nat);
        assert(list[i].data == literal_value(x).data);
        assert(literal_spec(list[i], page_none(), page_many()) == Ok::<_, ErrorItemView>(x));
        lemma_decimal_read(codes[i] as nat, 0, u32::MAX as int);
        assert(200 <= codes[i] <= 599);
        assert(code_spec(x) is Ok && code_spec(x)->Ok_0.number() == codes[i]);
        assert(acc.push(codes[i]) =~= codes.take(i + 1));
        lemma_codes_read(list, codes, i + 1, acc.push(codes[i]));
    } else {
        assert(acc =~= codes);
    }
}

/// What the grammar makes of the arguments of an `error_page` that is
/// read back.
#[verifier::rlimit(40)]
pub proof fn lemma_page_read(e: ErrorPageView, read: Seq<ValueView>)
    requires
        page_ok(e),
        read.len() == page_values(e).len(),
        forall|k: int| 0 <= k < read.len() ==> (#[trigger] read[k]).data == page_values(e)[k].data,
    ensures
        error_page_of(read) == Ok::<_, ErrorItemView>(ErrorPageView { uri: read.last(), ..e }),
{
    let all = page_values(e);
    let n = e.codes.len() as int;
    let rest = read.drop_last();
    reveal_strlit("=");
    assert("="@ =~= seq!['=']);
    match response_text(e.response_code) {
        None => {
            assert(rest.len() == n);
            assert forall|k: int| 0 <= k < rest.len() implies (#[trigger] rest[k]).data
                == literal_value(decimal(e.codes[k] as nat)).data by {
                assert(rest[k] == read[k]);
                assert(read[k].data == all[k].data);
            }
            assert(e.codes.take(0) =~= Seq::<u32>::empty());
            lemma_codes_read(rest, e.codes, 0, Seq::empty());
            if n > 0 {
                let x = decimal(e.codes[n - 1] as nat);
                assert(rest.last() == rest[n - 1]);
                assert(literal_spec(rest.last(), page_none(), page_many()) == Ok::<
                    _,
                    ErrorItemView,
                >(x));
                lemma_decimal_digits(e.codes[n - 1] as nat);
                assert(digit_value(x[0]) is Some);
            }
        },
        Some(s) => {
            assert(rest.len() == n + 1);
            assert(rest.last() == read[n]);
            assert(read[n].data == all[n].data);
            assert(literal_spec(rest.last(), page_none(), page_many()) == Ok::<_, ErrorItemView>(
                s,
            ));
            assert(s[0] == '=');
            let codes = rest.drop_last();
            assert forall|k: int| 0 <= k < codes.len() implies (#[trigger] codes[k]).data
                == literal_value(decimal(e.codes[k] as nat)).data by {
                assert(codes[k] == read[k]);
                assert(read[k].data == all[k].data);
            }
            assert(e.codes.take(0) =~= Seq::<u32>::empty());
            lemma_codes_read(codes, e.codes, 0, Seq::empty());
            match e.response_code {
                ErrorPageResponse::Replace(code) => {
                    assert(s.len() > 1) by {
                        lemma_decimal_digits(code as nat);
                    }
                    assert(s.skip(1) =~= decimal(code as nat));
                    lemma_decimal_read(code as nat, 0, u32::MAX as int);
                    assert(code_spec(s.skip(1)) == Ok::<_, ErrorItemView>(Code::Normal(code)));
                },
                ErrorPageResponse::Redirect(code) => {
                    assert(s.len() > 1) by {
                        lemma_decimal_digits(code as nat);
                    }
                    assert(s.skip(1) =~= decimal(code as nat));
                    lemma_decimal_read(code as nat, 0, u32::MAX as int);
                    assert(code_spec(s.skip(1)) == Ok::<_, ErrorItemView>(Code::Redirect(code)));
                },
                _ => {},
            }
            assert(response_spec(s) == Ok::<_, ErrorItemView>(e.response_code));
            assert(page_finish(codes, e.response_code, read.last()) == Ok::<_, ErrorItemView>(
                ErrorPageView { uri: read.last(), ..e },
            ));
        },
    }
}

/// `error_page` is read back from its tokens.
#[verifier::rlimit(40)]
pub proof fn lemma_page_parsed(t: Lexed, i: int, item: ItemView)
    requires
        item is ErrorPage,
        words_ok(item),
        has_tokens(t, i, item_tokens(item)),
    ensures
        item_spec(t, i) matches Some(Ok((back, j))) && j == i + item_tokens(item).len() && alike(
            item,
            back,
        ),
{
    let e = item->ErrorPage_0;
    let list = page_values(e);
    let n = list.len() as int;
    let ws = line_words(item);
    lemma_page_values(e);
    lemma_line_tokens(t, i, ws);
    assert(t.text(i + 0) == ws[0]);
    lemma_named_read(t, i);
    assert forall|m: int| 0 <= m < list.len() implies t.is_string(i + 1 + m) && t.text(i + 1 + m)
        == value_text((#[trigger] list[m]).data) by {
        assert(t.text(i + (1 + m)) == ws[1 + m]);
        assert(ws[1 + m] == value_texts(list)[m]);
    }
    assert(holds_values(t, i + 1, list));
    assert(!t.is_string(i + 1 + n));
    assert(placed_all(t, i + 1, list).take(0) =~= Seq::<ValueView>::empty());
    lemma_values_read(t, i + 1, list, 0, Seq::empty());
    let read = placed_all(t, i + 1, list);
    assert(semi_spec(t, i + 1 + n, seq!["String"@]) == Ok::<_, ErrorView>(i + 2 + n));
    lemma_page_read(e, read);
    let back = ItemView::ErrorPage(ErrorPageView { uri: read.last(), ..e });
    assert(error_page_spec(t, i) == Ok::<_, ErrorView>((back, i + 2 + n)));
    assert(item_tokens(item).len() == n + 2);
    assert(read.last().data == e.uri.data);
    assert(alike(item, back)) by {
        assert(back.values() =~= seq![read.last()]);
        assert(item.values() =~= seq![e.uri]);
    }
}

/// A directive that is like an `error_page` has the same words.
pub proof fn lemma_page_alike(a: ItemView, b: ItemView)
    requires
        a is ErrorPage,
        words_ok(a),
        alike_here(a, b),
    ensures
        b is ErrorPage,
        words_ok(b),
        line_words(b) == line_words(a),
{
    let ea = a->ErrorPage_0;
    let eb = b->ErrorPage_0;
    assert(a.values() =~= seq![ea.uri]);
    assert(b.values() =~= seq![eb.uri]);
    assert(a.values()[0].data == b.values()[0].data);
    let la = page_values(ea);
    let lb = page_values(eb);
    assert(la.len() == lb.len());
    assert(value_texts(lb) =~= value_texts(la)) by {
        assert forall|k: int| 0 <= k < la.len() implies value_texts(lb)[k] == value_texts(la)[k] by {
            if k < la.len() - 1 {
                assert(la[k] == lb[k]);
            }
        }
    }
}

} // verus!
