//! `try_files`: how it is written, and that it is read back.

use vstd::prelude::*;
use crate::ast::{ItemView, TryFilesLastOptionView, TryFilesView};
use crate::display::{render_item, render_options, render_try_files};
use crate::error::{ErrorItemView, ErrorView};
use crate::format::Page;
use crate::forms::{alike, alike_here, has_tokens, item_tokens, lexable, line_words, words_ok};
use crate::forms_kinds::{
    all_lexable, holds_values, joined, lemma_line_joined, lemma_line_tokens, lemma_values_read,
    placed_all, value_texts,
};
use crate::forms_reads::lemma_named_read;
use crate::grammar::{code_spec, item_spec, last_option_of, try_files_spec};
use crate::helpers::semi_spec;
use crate::layout_laws::with_line;
use crate::lex_laws::{lemma_simple_word, starts_word};
use crate::number_laws::{lemma_decimal_digits, lemma_decimal_read};
use crate::position::Pos;
use crate::proxy::sole_literal;
use crate::text::{decimal, digit_value, is_prefix};
use crate::tokenizer::Lexed;
use crate::value::{has_special, has_specials, pieces_text, value_text, ItemView as Piece, ValueView};
use crate::value_laws::readable;

verus! {

/// A value of one literal.
pub open spec fn literal_value(s: Seq<char>) -> ValueView {
    ValueView { position: Pos { line: 0, column: 0 }, data: seq![Piece::Literal(s)] }
}

/// The last argument of `try_files` as a value.
pub open spec fn last_value(o: TryFilesLastOptionView) -> ValueView {
    match o {
        TryFilesLastOptionView::Uri(v) => v,
        TryFilesLastOptionView::NamedLocation(loc) => literal_value(seq!['@'] + loc),
        TryFilesLastOptionView::Code(code) => literal_value(seq!['='] + decimal(code as nat)),
    }
}

/// The arguments of `try_files` as values.
pub open spec fn try_values(tf: TryFilesView) -> Seq<ValueView> {
    tf.options.push(last_value(tf.last_option))
}

/// Whether a `try_files` is read back as it is written: each of its
/// values is read back as it is written; a last address is not one
/// literal that starts with `=` or `@`; the name of a location is written
/// without quotes, and is read back with its `@` as one literal; a code
/// is between 200 and 599.
pub open spec fn try_ok(tf: TryFilesView) -> bool {
    &&& all_lexable(tf.options)
    &&& match tf.last_option {
        TryFilesLastOptionView::Uri(v) => lexable(v) && match sole_literal(v) {
            Some(x) => x.len() == 0 || (x[0] != '=' && x[0] != '@'),
            None => true,
        },
        TryFilesLastOptionView::NamedLocation(loc) => lexable(
            literal_value(seq!['@'] + loc),
        ) && !has_special(loc),
        TryFilesLastOptionView::Code(code) => 200 <= code <= 599,
    }
}

/// A literal without a character that asks for quotes is written as it
/// is.
pub proof fn lemma_literal_text(s: Seq<char>)
    requires
        !has_special(s),
    ensures
        value_text(seq![Piece::Literal(s)]) == s,
{
    let data = seq![Piece::Literal(s)];
    assert(pieces_text(data, 0) =~= Seq::<char>::empty());
    assert(pieces_text(data, 1) =~= s) by {
        reveal_with_fuel(pieces_text, 2);
    }
    assert(!has_specials(data, 1)) by {
        if has_specials(data, 1) {
            let k = choose|k: int|
                0 <= k < 1 && k < data.len() && (#[trigger] data[k]) is Literal && has_special(
                    data[k]->Literal_0,
                );
            assert(data[k]->Literal_0 == s);
        }
    }
}

/// Whether `s` is made of digits and `=`, and is not empty.
pub open spec fn is_code_text(s: Seq<char>) -> bool {
    s.len() > 0 && forall|k: int| 0 <= k < s.len() ==> digit_value(#[trigger] s[k]) is Some || s[k]
        == '='
}

/// A text of digits and `=` is read back as one literal, is written as it
/// is, and is one token.
pub proof fn lemma_code_text(s: Seq<char>)
    requires
        is_code_text(s),
    ensures
        lexable(literal_value(s)),
        !has_special(s),
        value_text(literal_value(s).data) == s,
{
    let data = seq![Piece::Literal(s)];
    assert forall|k: int| 0 <= k < s.len() implies starts_word(#[trigger] s[k])
        && crate::value_laws::is_plain(s[k]) && !crate::value::is_special(s[k]) by {
        assert(digit_value(s[k]) is Some || s[k] == '=');
    }
    assert(!has_special(s));
    lemma_literal_text(s);
    lemma_simple_word(s);
    assert(readable(data)) by {
        assert forall|k: int| 0 <= k < data.len() implies crate::value_laws::piece_readable(
            data,
            k,
        ) by {
            assert(data[k] == Piece::Literal(s));
        }
        assert(digit_value(s[0]) is Some || s[0] == '=');
    }
}

/// A code behind `=` is read back as one literal, and its text is one
/// token.
pub proof fn lemma_code_word(code: u32)
    ensures
        lexable(literal_value(seq!['='] + decimal(code as nat))),
        !has_special(seq!['='] + decimal(code as nat)),
{
    let digits = decimal(code as nat);
    let s = seq!['='] + digits;
    lemma_decimal_digits(code as nat);
    assert forall|k: int| 0 <= k < s.len() implies digit_value(#[trigger] s[k]) is Some || s[k]
        == '=' by {
        if k > 0 {
            assert(s[k] == digits[k - 1]);
        }
    }
    lemma_code_text(s);
}

/// Each argument of a `try_files` that is read back is read back as it
/// is written, and the text of the last is as it is written.
pub proof fn lemma_try_values(tf: TryFilesView)
    requires
        try_ok(tf),
    ensures
        all_lexable(try_values(tf)),
        match tf.last_option {
            TryFilesLastOptionView::Uri(v) => true,
            TryFilesLastOptionView::NamedLocation(loc) => value_text(
                last_value(tf.last_option).data,
            ) == seq!['@'] + loc,
            TryFilesLastOptionView::Code(code) => value_text(last_value(tf.last_option).data)
                == seq!['='] + decimal(code as nat),
        },
{
    let list = try_values(tf);
    match tf.last_option {
        TryFilesLastOptionView::Uri(v) => {},
        TryFilesLastOptionView::NamedLocation(loc) => {
            let s = seq!['@'] + loc;
            assert(!has_special(s)) by {
                if has_special(s) {
                    let i = choose|i: int| 0 <= i < s.len() && crate::value::is_special(
                        #[trigger] s[i],
                    );
                    assert(s[i] == loc[i - 1]);
                }
            }
            lemma_literal_text(s);
        },
        TryFilesLastOptionView::Code(code) => {
            lemma_code_word(code);
            lemma_literal_text(seq!['='] + decimal(code as nat));
        },
    }
    assert forall|k: int| 0 <= k < list.len() implies lexable(#[trigger] list[k]) by {
        if k < tf.options.len() {
            assert(list[k] == tf.options[k]);
        }
    }
}

/// Writing values with a blank behind each adds their texts, each with a
/// blank before it, behind a page that ends in a blank, and leaves a
/// blank at the end.
pub proof fn lemma_options_joined(list: Seq<ValueView>, n: int, p: Page, q: Page)
    requires
        0 <= n <= list.len(),
        q == p.put(' '),
    ensures
        render_options(list, n, q).text == p.text + joined(value_texts(list), n) + seq![' '],
        render_options(list, n, q).indent == p.indent,
        render_options(list, n, q).step == p.step,
    decreases n,
{
    if n > 0 {
        lemma_options_joined(list, n - 1, p, q);
        assert(value_texts(list)[n - 1] == value_text(list[n - 1].data));
        assert(render_options(list, n, q).text =~= p.text + joined(value_texts(list), n) + seq![
            ' ',
        ]);
    } else {
        assert(p.text + joined(value_texts(list), n) + seq![' '] =~= q.text);
    }
}

/// The first words of a list, each with a blank before it, are those of
/// any list that starts with them.
pub proof fn lemma_joined_same(a: Seq<Seq<char>>, b: Seq<Seq<char>>, n: int)
    requires
        0 <= n <= a.len(),
        n <= b.len(),
        forall|k: int| 0 <= k < n ==> a[k] == b[k],
    ensures
        joined(a, n) == joined(b, n),
    decreases n,
{
    if n > 0 {
        lemma_joined_same(a, b, n - 1);
    }
}

/// `try_files` is written as the line of its words.
pub proof fn lemma_try_line(item: ItemView, p: Page)
    requires
        item is TryFiles,
        words_ok(item),
    ensures
        render_item(item, p) == with_line(p, line_words(item)),
{
    let tf = item->TryFiles_0;
    let n = tf.options.len() as int;
    let all = try_values(tf);
    let ws = value_texts(all);
    let name = "try_files"@;
    reveal_strlit("try_files ");
    reveal_strlit("try_files");
    assert("try_files "@ =~= name + seq![' ']);
    let base = p.indent().write(name);
    assert(p.indent().write("try_files "@).text =~= base.put(' ').text);
    assert(p.indent().write("try_files "@) == base.put(' '));
    lemma_options_joined(tf.options, n, base, base.put(' '));
    lemma_try_values(tf);
    lemma_line_joined(name, ws);
    assert(ws.len() == n + 1);
    assert(joined(ws, n + 1) == joined(ws, n) + seq![' '] + ws[n]);
    assert forall|k: int| 0 <= k < n implies value_texts(tf.options)[k] == ws[k] by {
        assert(all[k] == tf.options[k]);
    }
    lemma_joined_same(value_texts(tf.options), ws, n);
    assert(ws[n] == value_text(last_value(tf.last_option).data));
    let q = render_options(tf.options, n, base.put(' '));
    assert(render_item(item, p) == render_try_files(tf, p));
    match tf.last_option {
        TryFilesLastOptionView::Uri(v) => {
            assert(render_try_files(tf, p).text =~= q.text + ws[n] + seq![';', '\n']);
        },
        TryFilesLastOptionView::NamedLocation(loc) => {
            assert(render_try_files(tf, p).text =~= q.text + ws[n] + seq![';', '\n']);
        },
        TryFilesLastOptionView::Code(code) => {
            assert(render_try_files(tf, p).text =~= q.text + ws[n] + seq![';', '\n']);
        },
    }
    assert(render_try_files(tf, p).text =~= with_line(p, line_words(item)).text);
}

/// What the grammar makes of the last argument of a `try_files` that is
/// read back.
pub proof fn lemma_last_read(tf: TryFilesView, at: Pos)
    requires
        try_ok(tf),
    ensures
        last_option_of(ValueView { position: at, data: last_value(tf.last_option).data })
            == Ok::<_, ErrorItemView>(
            match tf.last_option {
                TryFilesLastOptionView::Uri(v) => TryFilesLastOptionView::Uri(
                    ValueView { position: at, data: v.data },
                ),
                other => other,
            },
        ),
{
    reveal_strlit("=");
    reveal_strlit("@");
    let last = ValueView { position: at, data: last_value(tf.last_option).data };
    match tf.last_option {
        TryFilesLastOptionView::Uri(v) => {
            match sole_literal(last) {
                Some(x) => {
                    assert(sole_literal(v) == Some(x));
                    assert(!is_prefix("="@, x)) by {
                        if is_prefix("="@, x) {
                            assert(x.subrange(0, 1)[0] == '=');
                        }
                    }
                    assert(!is_prefix("@"@, x)) by {
                        if is_prefix("@"@, x) {
                            assert(x.subrange(0, 1)[0] == '@');
                        }
                    }
                },
                None => {},
            }
        },
        TryFilesLastOptionView::NamedLocation(loc) => {
            let x = seq!['@'] + loc;
            assert(sole_literal(last) == Some(x));
            assert(x.subrange(0, 1) =~= "@"@);
            assert(!is_prefix("="@, x)) by {
                if is_prefix("="@, x) {
                    assert(x.subrange(0, 1)[0] == '=');
                }
            }
            assert(x.skip(1) =~= loc);
        },
        TryFilesLastOptionView::Code(code) => {
            let x = seq!['='] + decimal(code as nat);
            assert(sole_literal(last) == Some(x));
            assert(x.subrange(0, 1) =~= "="@);
            assert(x.skip(1) =~= decimal(code as nat));
            lemma_decimal_read(code as nat, 0, u32::MAX as int);
            assert(code_spec(decimal(code as nat)) is Ok);
            assert(code_spec(decimal(code as nat))->Ok_0.number() == code);
        },
    }
}

/// `try_files` is read back from its tokens.
#[verifier::rlimit(40)]
pub proof fn lemma_try_parsed(t: Lexed, i: int, item: ItemView)
    requires
        item is TryFiles,
        words_ok(item),
        has_tokens(t, i, item_tokens(item)),
    ensures
        item_spec(t, i) matches Some(Ok((back, j))) && j == i + item_tokens(item).len() && alike(
            item,
            back,
        ),
{
    let tf = item->TryFiles_0;
    let list = try_values(tf);
    let n = list.len() as int;
    let ws = line_words(item);
    lemma_try_values(tf);
    lemma_line_tokens(t, i, ws);
    assert(t.text(i + 0) == ws[0]);
    lemma_named_read(t, i);
    assert forall|m: int| 0 <= m < list.len() implies t.is_string(i + 1 + m) && t.text(i + 1 + m)
        == value_text((#[trigger] list[m]).data) by {
        assert(t.text(i + (1 + m)) == ws[1 + m]);
        assert(ws[1 + m] == value_texts(list)[m]);
    }
    assert(holds_values(t, i + 1, list));
    assert(t.is_string(i + 1 + 0));
    assert(!t.is_string(i + 1 + n));
    assert(placed_all(t, i + 1, list).take(0) =~= Seq::<ValueView>::empty());
    lemma_values_read(t, i + 1, list, 0, Seq::empty());
    let read = placed_all(t, i + 1, list);
    assert(semi_spec(t, i + 1 + n, seq!["String"@]) == Ok::<_, ErrorView>(i + 2 + n));
    let at = t.position(i + n);
    assert(read.last() == ValueView { position: at, data: last_value(tf.last_option).data });
    lemma_last_read(tf, at);
    let last_option = last_option_of(read.last())->Ok_0;
    let back = ItemView::TryFiles(TryFilesView { options: read.drop_last(), last_option });
    assert(try_files_spec(t, i) == Ok::<_, ErrorView>((back, i + 2 + n)));
    assert(item_tokens(item).len() == n + 2);
    assert(alike(item, back)) by {
        match tf.last_option {
            TryFilesLastOptionView::Uri(v) => {
                assert(back.values() =~= read);
                assert(item.values() =~= list);
                assert(read.drop_last() =~= back.values().drop_last());
            },
            _ => {
                assert(back.values() =~= read.drop_last());
                assert(item.values() =~= tf.options);
                assert forall|k: int| 0 <= k < tf.options.len() implies (#[trigger] tf.options[k]).data
                    == back.values()[k].data by {
                    assert(list[k] == tf.options[k]);
                }
            },
        }
    }
}

/// A directive that is like a `try_files` has the same words.
pub proof fn lemma_try_alike(a: ItemView, b: ItemView)
    requires
        a is TryFiles,
        words_ok(a),
        alike_here(a, b),
    ensures
        b is TryFiles,
        words_ok(b),
        line_words(b) == line_words(a),
{
    let ta = a->TryFiles_0;
    let tb = b->TryFiles_0;
    let va = a.values();
    let vb = b.values();
    assert(tb.options.len() == ta.options.len());
    assert forall|k: int| 0 <= k < ta.options.len() implies (#[trigger] tb.options[k]).data
        == ta.options[k].data by {
        assert(va[k] == ta.options[k]);
        assert(vb[k] == tb.options[k]);
        assert(va[k].data == vb[k].data);
    }
    assert(last_value(tb.last_option).data == last_value(ta.last_option).data) by {
        match ta.last_option {
            TryFilesLastOptionView::Uri(v) => {
                let n = ta.options.len() as int;
                assert(va[n] == v);
                assert(vb[n] == tb.last_option->Uri_0);
                assert(va[n].data == vb[n].data);
            },
            _ => {},
        }
    }
    assert forall|k: int| 0 <= k < tb.options.len() implies lexable(#[trigger] tb.options[k]) by {
        assert(lexable(ta.options[k]));
    }
    let la = try_values(ta);
    let lb = try_values(tb);
    assert(value_texts(lb) =~= value_texts(la)) by {
        assert forall|k: int| 0 <= k < la.len() implies value_texts(lb)[k] == value_texts(la)[k] by {
            if k < ta.options.len() {
                assert(la[k] == ta.options[k]);
                assert(lb[k] == tb.options[k]);
            }
        }
    }
}

} // verus!
