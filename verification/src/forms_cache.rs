//! `proxy_cache_valid`: how it is written, and that it is read back.

use vstd::prelude::*;
use crate::ast::{ItemView, ProxyCacheValidView};
use crate::display::{render_cache_valid, render_item, render_numbers};
use crate::error::{ErrorItemView, ErrorView};
use crate::format::Page;
use crate::forms::{alike, alike_here, has_tokens, item_tokens, lexable, line_words, words_ok};
use crate::forms_kinds::{
    all_lexable, holds_values, joined, lemma_line_joined, lemma_line_tokens, lemma_values_read,
    placed_all, value_texts,
};
use crate::forms_page::{code_values, lemma_number_text, lemma_numbers_joined};
use crate::forms_reads::lemma_named_read;
use crate::forms_try::{lemma_code_text, lemma_literal_text, literal_value};
use crate::grammar::{code_spec, item_spec};
use crate::helpers::semi_spec;
use crate::layout_laws::with_line;
use crate::lex_laws::{is_simple_word, lemma_simple_word};
use crate::number_laws::{lemma_decimal_digits, lemma_decimal_read};
use crate::proxy::{cache_valid_of, cache_valid_spec, codes_spec, sole_literal};
use crate::text::{decimal, digit_value};
use crate::tokenizer::Lexed;
use crate::value::{has_special, value_text, ItemView as Piece, ValueView};
use crate::value_laws::readable;

verus! {

/// The arguments of a `proxy_cache_valid` before its time, as values.
pub open spec fn cache_codes(v: ProxyCacheValidView) -> Seq<ValueView> {
    match v {
        ProxyCacheValidView::Normal(_) => Seq::empty(),
        ProxyCacheValidView::Specific(codes, _) => code_values(codes),
        ProxyCacheValidView::Any(_) => seq![literal_value("any"@)],
    }
}

/// The arguments of a `proxy_cache_valid` as values.
pub open spec fn cache_values(v: ProxyCacheValidView) -> Seq<ValueView> {
    cache_codes(v).push(v.time())
}

/// Whether a `proxy_cache_valid` is read back as it is written: its time
/// is read back as it is written, and where it names codes, there is one
/// at least and each is between 200 and 599.
pub open spec fn cache_ok(v: ProxyCacheValidView) -> bool {
    &&& lexable(v.time())
    &&& match v {
        ProxyCacheValidView::Specific(codes, _) => codes.len() > 0 && forall|k: int|
            0 <= k < codes.len() ==> 200 <= #[trigger] codes[k] <= 599,
        _ => true,
    }
}

/// The word `any` is read back as one literal, and is written as it is.
pub proof fn lemma_any_word()
    ensures
        lexable(literal_value("any"@)),
        value_text(literal_value("any"@).data) == "any"@,
        "any"@.len() == 3,
        "any"@[0] == 'a',
{
    reveal_strlit("any");
    let s = "any"@;
    let data = seq![Piece::Literal(s)];
    assert(is_simple_word(s));
    assert(!has_special(s));
    lemma_literal_text(s);
    lemma_simple_word(s);
    assert(readable(data)) by {
        assert forall|k: int| 0 <= k < data.len() implies crate::value_laws::piece_readable(
            data,
            k,
        ) by {
            assert(data[k] == Piece::Literal(s));
        }
    }
}

/// Each argument of a `proxy_cache_valid` that is read back is read back
/// as it is written, and a code is written as its digits.
pub proof fn lemma_cache_values(v: ProxyCacheValidView)
    requires
        cache_ok(v),
    ensures
        all_lexable(cache_values(v)),
        v matches ProxyCacheValidView::Specific(codes, _) ==> forall|k: int|
            0 <= k < codes.len() ==> value_text((#[trigger] cache_values(v)[k]).data) == decimal(
                codes[k] as nat,
            ),
{
    let list = cache_values(v);
    lemma_any_word();
    match v {
        ProxyCacheValidView::Specific(codes, _) => {
            assert forall|k: int| 0 <= k < codes.len() implies lexable(#[trigger] list[k])
                && value_text(list[k].data) == decimal(codes[k] as nat) by {
                lemma_number_text(codes[k] as nat);
                lemma_code_text(decimal(codes[k] as nat));
            }
        },
        _ => {},
    }
    assert forall|k: int| 0 <= k < list.len() implies lexable(#[trigger] list[k]) by {}
}

/// `proxy_cache_valid` is written as the line of its words.
pub proof fn lemma_cache_line(item: ItemView, p: Page)
    requires
        item is ProxyCacheValid,
        words_ok(item),
    ensures
        render_item(item, p) == with_line(p, line_words(item)),
{
    let v = item->ProxyCacheValid_0;
    let all = cache_values(v);
    let ws = value_texts(all);
    let name = "proxy_cache_valid"@;
    let base = p.indent().write(name);
    let len = ws.len() as int;
    reveal_strlit(" any ");
    lemma_any_word();
    reveal_strlit("any");
    lemma_cache_values(v);
    lemma_line_joined(name, ws);
    assert(ws[len - 1] == value_text(v.time().data));
    assert(joined(ws, len) == joined(ws, len - 1) + seq![' '] + ws[len - 1]);
    assert(render_item(item, p) == render_cache_valid(v, p));
    match v {
        ProxyCacheValidView::Normal(time) => {
            assert(joined(ws, 0) =~= Seq::<char>::empty());
            assert(render_cache_valid(v, p).text =~= base.text + seq![' '] + ws[0] + seq![
                ';',
                '\n',
            ]);
        },
        ProxyCacheValidView::Specific(codes, time) => {
            let n = codes.len() as int;
            assert forall|k: int| 0 <= k < n implies ws[k] == decimal(codes[k] as nat) by {
                assert(ws[k] == value_text(all[k].data));
            }
            lemma_numbers_joined(codes, ws, n, base);
            let q = render_numbers(codes, n, base);
            assert(render_cache_valid(v, p).text =~= q.text + seq![' '] + ws[n] + seq![';', '\n']);
        },
        ProxyCacheValidView::Any(time) => {
            assert(ws[0] == "any"@);
            assert(joined(ws, 0) =~= Seq::<char>::empty());
            assert(joined(ws, 1) =~= seq![' '] + "any"@);
            assert(" any "@ =~= seq![' '] + "any"@ + seq![' ']);
            assert(render_cache_valid(v, p).text =~= base.text + " any "@ + ws[1] + seq![
                ';',
                '\n',
            ]);
        },
    }
    assert(render_cache_valid(v, p).text =~= with_line(p, line_words(item)).text);
}

/// The grammar reads codes from the values that hold their digits.
pub proof fn lemma_cache_codes(list: Seq<ValueView>, codes: Seq<u32>, i: int, acc: Seq<u32>)
    requires
        0 <= i <= list.len(),
        list.len() == codes.len(),
        forall|k: int|
            0 <= k < list.len() ==> (#[trigger] list[k]).data == literal_value(
                decimal(codes[k] as nat),
            ).data,
        forall|k: int| 0 <= k < codes.len() ==> 200 <= #[trigger] codes[k] <= 599,
        acc == codes.take(i),
    ensures
        codes_spec(list, i, acc) == Ok::<_, ErrorItemView>(Some(codes)),
    decreases list.len() - i,
{
    if i < list.len() {
        let x = decimal(codes[i] as nat);
        assert(list[i].data == literal_value(x).data);
        assert(sole_literal(list[i]) == Some(x));
        lemma_decimal_digits(codes[i] as nat);
        lemma_any_word();
        assert(x != "any"@) by {
            assert(digit_value(x[0]) is Some);
        }
        lemma_decimal_read(codes[i] as nat, 0, u32::MAX as int);
        assert(200 <= codes[i] <= 599);
        assert(code_spec(x) is Ok && code_spec(x)->Ok_0.number() == codes[i]);
        assert(acc.push(codes[i]) =~= codes.take(i + 1));
        lemma_cache_codes(list, codes, i + 1, acc.push(codes[i]));
    } else {
        assert(acc =~= codes);
    }
}

/// What the grammar makes of the arguments of a `proxy_cache_valid` that
/// is read back.
pub proof fn lemma_cache_read(v: ProxyCacheValidView, read: Seq<ValueView>)
    requires
        cache_ok(v),
        read.len() == cache_values(v).len(),
        forall|k: int| 0 <= k < read.len() ==> (#[trigger] read[k]).data == cache_values(v)[k].data,
    ensures
        cache_valid_of(read) == Ok::<_, ErrorItemView>(v.with_time(read.last())),
{
    let all = cache_values(v);
    let rest = read.drop_last();
    match v {
        ProxyCacheValidView::Normal(time) => {
            assert(rest.len() == 0);
        },
        ProxyCacheValidView::Specific(codes, time) => {
            assert(rest.len() == codes.len());
            assert forall|k: int| 0 <= k < rest.len() implies (#[trigger] rest[k]).data
                == literal_value(decimal(codes[k] as nat)).data by {
                assert(rest[k] == read[k]);
                assert(read[k].data == all[k].data);
            }
            assert(codes.take(0) =~= Seq::<u32>::empty());
            lemma_cache_codes(rest, codes, 0, Seq::empty());
        },
        ProxyCacheValidView::Any(time) => {
            assert(rest.len() == 1);
            assert(rest[0] == read[0]);
            assert(read[0].data == all[0].data);
            assert(sole_literal(rest[0]) == Some("any"@));
            assert(codes_spec(rest, 0, Seq::empty()) == Ok::<_, ErrorItemView>(None::<Seq<u32>>));
        },
    }
}

/// `proxy_cache_valid` is read back from its tokens.
#[verifier::rlimit(40)]
pub proof fn lemma_cache_parsed(t: Lexed, i: int, item: ItemView)
    requires
        item is ProxyCacheValid,
        words_ok(item),
        has_tokens(t, i, item_tokens(item)),
    ensures
        item_spec(t, i) matches Some(Ok((back, j))) && j == i + item_tokens(item).len() && alike(
            item,
            back,
        ),
{
    let v = item->ProxyCacheValid_0;
    let list = cache_values(v);
    let n = list.len() as int;
    let ws = line_words(item);
    lemma_cache_values(v);
    lemma_line_tokens(t, i, ws);
    assert(t.text(i + 0) == ws[0]);
    lemma_named_read(t, i);
    assert forall|m: int| 0 <= m < list.len() implies t.is_string(i + 1 + m) && t.text(i + 1 + m)
        == value_text((#[trigger] list[m]).data) by {
        assert(t.text(i + (1 + m)) == ws[1 + m]);
        assert(ws[1 + m] == value_texts(list)[m]);
    }
    assert(holds_values(t, i + 1, list));
    assert(t.is_string(i + 1 + 0));
    assert(!t.is_string(i + 1 + n));
    assert(placed_all(t, i + 1, list).take(0) =~= Seq::<ValueView>::empty());
    lemma_values_read(t, i + 1, list, 0, Seq::empty());
    let read = placed_all(t, i + 1, list);
    assert(semi_spec(t, i + 1 + n, seq!["String"@]) == Ok::<_, ErrorView>(i + 2 + n));
    lemma_cache_read(v, read);
    let back = ItemView::ProxyCacheValid(v.with_time(read.last()));
    assert(cache_valid_spec(t, i) == Ok::<_, ErrorView>((back, i + 2 + n)));
    assert(item_tokens(item).len() == n + 2);
    assert(read.last().data == v.time().data);
    assert(alike(item, back)) by {
        assert(back.values() =~= seq![read.last()]);
        assert(item.values() =~= seq![v.time()]);
    }
}

/// A directive that is like a `proxy_cache_valid` has the same words.
pub proof fn lemma_cache_alike(a: ItemView, b: ItemView)
    requires
        a is ProxyCacheValid,
        words_ok(a),
        alike_here(a, b),
    ensures
        b is ProxyCacheValid,
        words_ok(b),
        line_words(b) == line_words(a),
{
    let ca = a->ProxyCacheValid_0;
    let cb = b->ProxyCacheValid_0;
    assert(a.values() =~= seq![ca.time()]);
    assert(b.values() =~= seq![cb.time()]);
    assert(a.values()[0].data == b.values()[0].data);
    assert(cache_codes(ca) == cache_codes(cb));
    let la = cache_values(ca);
    let lb = cache_values(cb);
    assert(la.len() == lb.len());
    assert(value_texts(lb) =~= value_texts(la)) by {
        assert forall|k: int| 0 <= k < la.len() implies value_texts(lb)[k] == value_texts(la)[k] by {
            if k < la.len() - 1 {
                assert(la[k] == lb[k]);
            }
        }
    }
}

} // verus!
