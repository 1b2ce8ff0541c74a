//! The directives with forms of their own: how each is written, and that
//! it is read back.

use vstd::prelude::*;
use crate::ast::{AddHeaderView, ErrorLevel, ExpiresView, GzipStatic, ItemView, ProxyHttpVersion};
use crate::display::{
    render_add_header, render_error_log, render_expires, render_gzip_static, render_index,
    render_item, render_set, render_values, render_version, static_text,
};
use crate::error::ErrorView;
use crate::format::Page;
use crate::forms::{alike, alike_here, has_tokens, item_tokens, lexable, line_words, words_ok};
use crate::forms_reads::lemma_named_read;
use crate::grammar::{index_spec, item_spec};
use crate::helpers::{run_end, semi_spec, value_spec, values_spec};
use crate::layout_laws::{
    lemma_spaced_one, lemma_spaced_two, line_text, punct_token, spaced, string_token,
    string_tokens, with_line,
};
use crate::lex_laws::is_word;
use crate::tokenizer::{Kind, Lexed};
use crate::value::{is_name_char, value_text, ValueView};
use crate::value_laws::{lemma_name_run, lemma_value_round_trip};

verus! {

/// What the tokens of a line say of the list in which they stand: each
/// word is a string token with its text, and a semicolon follows.
pub proof fn lemma_line_tokens(t: Lexed, i: int, ws: Seq<Seq<char>>)
    requires
        has_tokens(t, i, string_tokens(ws).push(punct_token(';'))),
    ensures
        0 <= i,
        i + ws.len() < t.tokens.len(),
        forall|k: int| 0 <= k < ws.len() ==> t.is_string(i + k) && #[trigger] t.text(i + k) == ws[k],
        t.is_kind(i + ws.len(), Kind::Semicolon),
        !t.is_string(i + ws.len()),
{
    let w = string_tokens(ws).push(punct_token(';'));
    assert forall|k: int| 0 <= k < ws.len() implies t.is_string(i + k) && #[trigger] t.text(i + k)
        == ws[k] by {
        assert(t.tokens[i + k].token == w[k]);
        assert(w[k] == string_token(ws[k]));
    }
    assert(t.tokens[i + ws.len()].token == w[ws.len() as int]);
}

/// A value that is read back as it is written is read from the token
/// that holds its text.
pub proof fn lemma_value_read(t: Lexed, i: int, v: ValueView, names: Seq<Seq<char>>)
    requires
        lexable(v),
        t.is_string(i),
        t.text(i) == value_text(v.data),
    ensures
        value_spec(t, i, names) == Ok::<_, ErrorView>(
            (ValueView { position: t.position(i), data: v.data }, i + 1),
        ),
{
    lemma_value_round_trip(v.data);
}

/// The value as it is read from the token `i`.
pub open spec fn placed(t: Lexed, i: int, v: ValueView) -> ValueView {
    ValueView { position: t.position(i), data: v.data }
}

/// The words of the directives that take fixed words are read as one
/// token each.
pub proof fn lemma_fixed_words()
    ensures
        is_word("always"@),
        is_word("modified"@),
        is_word("auto"@),
        is_word("1.0"@),
        is_word("1.1"@),
        "1.0"@ != "1.1"@,
        is_word("set"@),
        is_word("proxy_http_version"@),
{
    reveal_strlit("always");
    reveal_strlit("modified");
    reveal_strlit("auto");
    reveal_strlit("1.0");
    reveal_strlit("1.1");
    reveal_strlit("set");
    reveal_strlit("proxy_http_version");
    assert(crate::lex_laws::is_simple_word("always"@));
    assert(crate::lex_laws::is_simple_word("modified"@));
    assert(crate::lex_laws::is_simple_word("auto"@));
    assert(crate::lex_laws::is_simple_word("1.0"@));
    assert(crate::lex_laws::is_simple_word("1.1"@));
    assert(crate::lex_laws::is_simple_word("set"@));
    assert(crate::lex_laws::is_simple_word("proxy_http_version"@));
    crate::lex_laws::lemma_simple_word("always"@);
    crate::lex_laws::lemma_simple_word("modified"@);
    crate::lex_laws::lemma_simple_word("auto"@);
    crate::lex_laws::lemma_simple_word("1.0"@);
    crate::lex_laws::lemma_simple_word("1.1"@);
    crate::lex_laws::lemma_simple_word("set"@);
    crate::lex_laws::lemma_simple_word("proxy_http_version"@);
    assert("1.0"@[2] != "1.1"@[2]);
}

/// The words for the settings of `gzip_static` are different words that
/// are read as one token each.
pub proof fn lemma_static_words()
    ensures
        forall|i: int, j: int|
            0 <= i < j < crate::gzip::static_words().len() ==> #[trigger] crate::gzip::static_words()[i]
                != #[trigger] crate::gzip::static_words()[j],
        forall|i: int|
            0 <= i < crate::gzip::static_words().len() ==> is_word(
                #[trigger] crate::gzip::static_words()[i],
            ),
        crate::gzip::static_words().len() == 3,
{
    reveal_strlit("on");
    reveal_strlit("off");
    reveal_strlit("always");
    let ws = crate::gzip::static_words();
    assert(ws[0] == "on"@ && ws[1] == "off"@ && ws[2] == "always"@);
    assert forall|i: int| 0 <= i < ws.len() implies is_word(#[trigger] ws[i]) by {
        assert(crate::lex_laws::is_simple_word(ws[i]));
        crate::lex_laws::lemma_simple_word(ws[i]);
    }
}

/// The names of the levels of `error_log` are different words that are
/// read as one token each.
pub proof fn lemma_level_words()
    ensures
        forall|i: int, j: int|
            0 <= i < j < crate::http_core::level_words().len()
                ==> #[trigger] crate::http_core::level_words()[i]
                != #[trigger] crate::http_core::level_words()[j],
        forall|i: int|
            0 <= i < crate::http_core::level_words().len() ==> is_word(
                #[trigger] crate::http_core::level_words()[i],
            ),
        crate::http_core::level_words().len() == 8,
{
    reveal_strlit("debug");
    reveal_strlit("info");
    reveal_strlit("notice");
    reveal_strlit("warn");
    reveal_strlit("error");
    reveal_strlit("crit");
    reveal_strlit("alert");
    reveal_strlit("emerg");
    let ws = crate::http_core::level_words();
    assert(ws[0] == "debug"@ && ws[1] == "info"@ && ws[2] == "notice"@ && ws[3] == "warn"@);
    assert(ws[4] == "error"@ && ws[5] == "crit"@ && ws[6] == "alert"@ && ws[7] == "emerg"@);
    assert forall|i: int| 0 <= i < ws.len() implies is_word(#[trigger] ws[i]) by {
        assert(crate::lex_laws::is_simple_word(ws[i]));
        crate::lex_laws::lemma_simple_word(ws[i]);
    }
    assert forall|i: int, j: int| 0 <= i < j < ws.len() implies #[trigger] ws[i]
        != #[trigger] ws[j] by {
        assert(ws[i].len() != ws[j].len() || ws[i][0] != ws[j][0] || ws[i][1] != ws[j][1]);
    }
}

/// `proxy_set_header` is written as the line of its words.
pub proof fn lemma_set_header_line(item: ItemView, p: Page)
    requires
        item is ProxySetHeader,
    ensures
        render_item(item, p) == with_line(p, line_words(item)),
{
    let ws = line_words(item);
    let a = value_text(item->ProxySetHeader_field.data);
    assert(ws.drop_last() =~= seq!["proxy_set_header"@, a]);
    lemma_spaced_two("proxy_set_header"@, a);
    assert(render_item(item, p).text =~= with_line(p, ws).text);
}

/// `proxy_set_header` is read back from its tokens.
pub proof fn lemma_set_header_parsed(t: Lexed, i: int, item: ItemView)
    requires
        item is ProxySetHeader,
        words_ok(item),
        has_tokens(t, i, item_tokens(item)),
    ensures
        item_spec(t, i) matches Some(Ok((back, j))) && j == i + item_tokens(item).len() && alike(
            item,
            back,
        ),
{
    let ws = line_words(item);
    lemma_line_tokens(t, i, ws);
    assert(t.text(i + 0) == ws[0]);
    assert(t.text(i + 1) == ws[1]);
    assert(t.text(i + 2) == ws[2]);
    lemma_named_read(t, i);
    let field = item->ProxySetHeader_field;
    let value = item->ProxySetHeader_value;
    lemma_value_read(t, i + 1, field, seq!["String"@]);
    lemma_value_read(t, i + 2, value, seq!["String"@]);
    let back = ItemView::ProxySetHeader {
        field: placed(t, i + 1, field),
        value: placed(t, i + 2, value),
    };
    assert(item_spec(t, i) == Some(Ok::<_, ErrorView>((back, i + 4))));
    assert(back.values() =~= seq![placed(t, i + 1, field), placed(t, i + 2, value)]);
    assert(item.values() =~= seq![field, value]);
}

/// A directive that is like a `proxy_set_header` has the same words.
pub proof fn lemma_set_header_alike(a: ItemView, b: ItemView)
    requires
        a is ProxySetHeader,
        words_ok(a),
        alike_here(a, b),
    ensures
        b is ProxySetHeader,
        words_ok(b),
        line_words(b) == line_words(a),
{
    let va = a.values();
    let vb = b.values();
    assert(va =~= seq![a->ProxySetHeader_field, a->ProxySetHeader_value]);
    assert(vb[0].data == va[0].data);
    assert(vb[1].data == va[1].data);
}

/// `keepalive_timeout` is written as the line of its words.
pub proof fn lemma_keepalive_line(item: ItemView, p: Page)
    requires
        item is KeepaliveTimeout,
    ensures
        render_item(item, p) == with_line(p, line_words(item)),
{
    let ws = line_words(item);
    let a = value_text(item->KeepaliveTimeout_0.data);
    match item->KeepaliveTimeout_1 {
        Some(b) => {
            assert(ws.drop_last() =~= seq!["keepalive_timeout"@, a]);
            lemma_spaced_two("keepalive_timeout"@, a);
        },
        None => {
            assert(ws.drop_last() =~= seq!["keepalive_timeout"@]);
            lemma_spaced_one("keepalive_timeout"@);
        },
    }
    assert(render_item(item, p).text =~= with_line(p, ws).text);
}

/// `keepalive_timeout` is read back from its tokens.
#[verifier::rlimit(50)]
#[verifier::spinoff_prover]
pub proof fn lemma_keepalive_parsed(t: Lexed, i: int, item: ItemView)
    requires
        item is KeepaliveTimeout,
        words_ok(item),
        has_tokens(t, i, item_tokens(item)),
    ensures
        item_spec(t, i) matches Some(Ok((back, j))) && j == i + item_tokens(item).len() && alike(
            item,
            back,
        ),
{
    let ws = line_words(item);
    lemma_line_tokens(t, i, ws);
    assert(t.text(i + 0) == ws[0]);
    assert(t.text(i + 1) == ws[1]);
    lemma_named_read(t, i);
    let a = item->KeepaliveTimeout_0;
    lemma_value_read(t, i + 1, a, seq!["String"@]);
    match item->KeepaliveTimeout_1 {
        Some(b) => {
            assert(t.text(i + 2) == ws[2]);
            lemma_value_read(t, i + 2, b, Seq::empty());
            let back = ItemView::KeepaliveTimeout(placed(t, i + 1, a), Some(placed(t, i + 2, b)));
            assert(item_spec(t, i) == Some(Ok::<_, ErrorView>((back, i + 4))));
            assert(back.values() =~= seq![placed(t, i + 1, a), placed(t, i + 2, b)]);
            assert(item.values() =~= seq![a, b]);
        },
        None => {
            let back = ItemView::KeepaliveTimeout(placed(t, i + 1, a), None);
            assert(item_spec(t, i) == Some(Ok::<_, ErrorView>((back, i + 3))));
            assert(back.values() =~= seq![placed(t, i + 1, a)]);
            assert(item.values() =~= seq![a]);
        },
    }
}

/// A directive that is like a `keepalive_timeout` has the same words.
pub proof fn lemma_keepalive_alike(a: ItemView, b: ItemView)
    requires
        a is KeepaliveTimeout,
        words_ok(a),
        alike_here(a, b),
    ensures
        b is KeepaliveTimeout,
        words_ok(b),
        line_words(b) == line_words(a),
{
    let va = a.values();
    let vb = b.values();
    assert(vb[0].data == va[0].data);
    match a->KeepaliveTimeout_1 {
        Some(x) => {
            assert(va =~= seq![a->KeepaliveTimeout_0, x]);
            assert(vb[1].data == va[1].data);
        },
        None => {
            assert(va =~= seq![a->KeepaliveTimeout_0]);
        },
    }
}

/// `add_header` is written as the line of its words.
pub proof fn lemma_add_header_line(item: ItemView, p: Page)
    requires
        item is AddHeader,
    ensures
        render_item(item, p) == with_line(p, line_words(item)),
{
    let ws = line_words(item);
    let h = item->AddHeader_0;
    let a = value_text(h.field.data);
    let b = value_text(h.value.data);
    reveal_strlit("add_header ");
    reveal_strlit("add_header");
    reveal_strlit(" always");
    reveal_strlit("always");
    assert("add_header "@ =~= "add_header"@ + seq![' ']);
    assert(" always"@ =~= seq![' '] + "always"@);
    lemma_spaced_two("add_header"@, a);
    if h.always {
        assert(ws.drop_last() =~= seq!["add_header"@, a, b]);
        assert(seq!["add_header"@, a, b].drop_last() =~= seq!["add_header"@, a]);
        assert(spaced(seq!["add_header"@, a, b]) =~= spaced(seq!["add_header"@, a]) + b + seq![
            ' ',
        ]);
    } else {
        assert(ws.drop_last() =~= seq!["add_header"@, a]);
    }
    assert(render_item(item, p) == render_add_header(h, p));
    assert(render_add_header(h, p).text =~= with_line(p, ws).text);
}

/// `add_header` is read back from its tokens.
#[verifier::rlimit(40)]
pub proof fn lemma_add_header_parsed(t: Lexed, i: int, item: ItemView)
    requires
        item is AddHeader,
        words_ok(item),
        has_tokens(t, i, item_tokens(item)),
    ensures
        item_spec(t, i) matches Some(Ok((back, j))) && j == i + item_tokens(item).len() && alike(
            item,
            back,
        ),
{
    let ws = line_words(item);
    let h = item->AddHeader_0;
    lemma_line_tokens(t, i, ws);
    assert(t.text(i + 0) == ws[0]);
    assert(t.text(i + 1) == ws[1]);
    assert(t.text(i + 2) == ws[2]);
    lemma_named_read(t, i);
    lemma_value_read(t, i + 1, h.field, seq!["String"@]);
    lemma_value_read(t, i + 2, h.value, seq!["String"@]);
    let back = ItemView::AddHeader(
        AddHeaderView {
            field: placed(t, i + 1, h.field),
            value: placed(t, i + 2, h.value),
            always: h.always,
        },
    );
    if h.always {
        assert(t.text(i + 3) == ws[3]);
        assert(ws.len() == 4);
        assert(t.is_word(i + 3, "always"@));
        assert(semi_spec(t, i + 4, Seq::empty()) == Ok::<_, ErrorView>(i + 5));
        assert(crate::headers::add_header_spec(t, i) == Ok::<_, ErrorView>((back, i + 5)));
    } else {
        assert(ws.len() == 3);
        assert(!t.is_word(i + 3, "always"@));
        assert(semi_spec(t, i + 3, seq!["always"@]) == Ok::<_, ErrorView>(i + 4));
        assert(crate::headers::add_header_spec(t, i) == Ok::<_, ErrorView>((back, i + 4)));
    }
    assert(back.values() =~= seq![placed(t, i + 1, h.field), placed(t, i + 2, h.value)]);
    assert(item.values() =~= seq![h.field, h.value]);
}

/// A directive that is like an `add_header` has the same words.
pub proof fn lemma_add_header_alike(a: ItemView, b: ItemView)
    requires
        a is AddHeader,
        words_ok(a),
        alike_here(a, b),
    ensures
        b is AddHeader,
        words_ok(b),
        line_words(b) == line_words(a),
{
    let va = a.values();
    let vb = b.values();
    assert(va =~= seq![a->AddHeader_0.field, a->AddHeader_0.value]);
    assert(vb[0].data == va[0].data);
    assert(vb[1].data == va[1].data);
}

/// `expires` is written as the line of its words.
pub proof fn lemma_expires_line(item: ItemView, p: Page)
    requires
        item is Expires,
    ensures
        render_item(item, p) == with_line(p, line_words(item)),
{
    let ws = line_words(item);
    let e = item->Expires_0;
    reveal_strlit("expires ");
    reveal_strlit("expires");
    reveal_strlit("modified ");
    reveal_strlit("modified");
    assert("expires "@ =~= "expires"@ + seq![' ']);
    assert("modified "@ =~= "modified"@ + seq![' ']);
    if e.modified {
        assert(ws.drop_last() =~= seq!["expires"@, "modified"@]);
        lemma_spaced_two("expires"@, "modified"@);
    } else {
        assert(ws.drop_last() =~= seq!["expires"@]);
        lemma_spaced_one("expires"@);
    }
    assert(render_item(item, p) == render_expires(e, p));
    assert(render_expires(e, p).text =~= with_line(p, ws).text);
}

/// `expires` is read back from its tokens.
pub proof fn lemma_expires_parsed(t: Lexed, i: int, item: ItemView)
    requires
        item is Expires,
        words_ok(item),
        has_tokens(t, i, item_tokens(item)),
    ensures
        item_spec(t, i) matches Some(Ok((back, j))) && j == i + item_tokens(item).len() && alike(
            item,
            back,
        ),
{
    let ws = line_words(item);
    let e = item->Expires_0;
    lemma_line_tokens(t, i, ws);
    assert(t.text(i + 0) == ws[0]);
    assert(t.text(i + 1) == ws[1]);
    lemma_named_read(t, i);
    if e.modified {
        assert(t.text(i + 2) == ws[2]);
        lemma_value_read(t, i + 2, e.value, seq!["String"@]);
        let back = ItemView::Expires(
            ExpiresView { modified: true, value: placed(t, i + 2, e.value) },
        );
        assert(item_spec(t, i) == Some(Ok::<_, ErrorView>((back, i + 4))));
        assert(back.values() =~= seq![placed(t, i + 2, e.value)]);
    } else {
        lemma_value_read(t, i + 1, e.value, seq!["modified"@, "String"@]);
        let back = ItemView::Expires(
            ExpiresView { modified: false, value: placed(t, i + 1, e.value) },
        );
        assert(item_spec(t, i) == Some(Ok::<_, ErrorView>((back, i + 3))));
        assert(back.values() =~= seq![placed(t, i + 1, e.value)]);
    }
    assert(item.values() =~= seq![e.value]);
}

/// A directive that is like an `expires` has the same words.
pub proof fn lemma_expires_alike(a: ItemView, b: ItemView)
    requires
        a is Expires,
        words_ok(a),
        alike_here(a, b),
    ensures
        b is Expires,
        words_ok(b),
        line_words(b) == line_words(a),
{
    let va = a.values();
    let vb = b.values();
    assert(va =~= seq![a->Expires_0.value]);
    assert(vb[0].data == va[0].data);
}

/// Whether `name` can be the name of a variable that `set` and `map`
/// give a value: a letter or an underscore, then letters, digits and
/// underscores.
pub open spec fn is_variable(name: Seq<char>) -> bool {
    &&& name.len() > 0
    &&& !('0' <= name[0] && name[0] <= '9')
    &&& forall|k: int| 0 <= k < name.len() ==> is_name_char(#[trigger] name[k])
}

/// The name of a variable with `$` before it is one token, and the
/// grammar takes the name from it.
pub proof fn lemma_variable_word(name: Seq<char>)
    requires
        is_variable(name),
    ensures
        is_word(seq!['$'] + name),
        crate::rewrite::variable_spec(seq!['$'] + name) == Some(name),
{
    let s = seq!['$'] + name;
    assert forall|k: int| 1 <= k < s.len() implies is_name_char(#[trigger] s[k]) by {
        assert(s[k] == name[k - 1]);
    }
    assert(s[1] == name[0]);
    crate::lex_laws::lemma_plain_run(s, 1, '$');
    lemma_name_run(s, 2, s.len() as int);
    assert(s.skip(1) =~= name);
}

/// `set` is written as the line of its words.
pub proof fn lemma_set_line(item: ItemView, p: Page)
    requires
        item is SetVar,
    ensures
        render_item(item, p) == with_line(p, line_words(item)),
{
    let ws = line_words(item);
    let variable = item->SetVar_variable;
    reveal_strlit("set $");
    reveal_strlit("set");
    assert("set $"@ =~= "set"@ + seq![' '] + seq!['$']);
    assert(ws.drop_last() =~= seq!["set"@, seq!['$'] + variable]);
    lemma_spaced_two("set"@, seq!['$'] + variable);
    assert(render_item(item, p) == render_set(variable, item->SetVar_value, p));
    assert(render_set(variable, item->SetVar_value, p).text =~= with_line(p, ws).text);
}

/// `set` is read back from its tokens.
pub proof fn lemma_set_parsed(t: Lexed, i: int, item: ItemView)
    requires
        item is SetVar,
        words_ok(item),
        has_tokens(t, i, item_tokens(item)),
    ensures
        item_spec(t, i) matches Some(Ok((back, j))) && j == i + item_tokens(item).len() && alike(
            item,
            back,
        ),
{
    let ws = line_words(item);
    let variable = item->SetVar_variable;
    let value = item->SetVar_value;
    lemma_line_tokens(t, i, ws);
    assert(t.text(i + 0) == ws[0]);
    assert(t.text(i + 1) == ws[1]);
    assert(t.text(i + 2) == ws[2]);
    lemma_named_read(t, i);
    lemma_variable_word(variable);
    lemma_value_read(t, i + 2, value, seq!["String"@]);
    let back = ItemView::SetVar { variable, value: placed(t, i + 2, value) };
    assert(item_spec(t, i) == Some(Ok::<_, ErrorView>((back, i + 4))));
    assert(back.values() =~= seq![placed(t, i + 2, value)]);
    assert(item.values() =~= seq![value]);
}

/// A directive that is like a `set` has the same words.
pub proof fn lemma_set_alike(a: ItemView, b: ItemView)
    requires
        a is SetVar,
        words_ok(a),
        alike_here(a, b),
    ensures
        b is SetVar,
        words_ok(b),
        line_words(b) == line_words(a),
{
    let va = a.values();
    let vb = b.values();
    assert(va =~= seq![a->SetVar_value]);
    assert(vb[0].data == va[0].data);
}

/// `gzip_static` is written as the line of its words.
pub proof fn lemma_gzip_static_line(item: ItemView, p: Page)
    requires
        item is GzipStatic,
    ensures
        render_item(item, p) == with_line(p, line_words(item)),
{
    let ws = line_words(item);
    reveal_strlit("gzip_static ");
    reveal_strlit("gzip_static");
    assert("gzip_static "@ =~= "gzip_static"@ + seq![' ']);
    assert(ws.drop_last() =~= seq!["gzip_static"@]);
    lemma_spaced_one("gzip_static"@);
    assert(render_item(item, p) == render_gzip_static(item->GzipStatic_0, p));
    assert(render_gzip_static(item->GzipStatic_0, p).text =~= with_line(p, ws).text);
}

/// The place of a setting of `gzip_static` in the list of its words.
pub open spec fn static_index(v: GzipStatic) -> int {
    match v {
        GzipStatic::On => 0,
        GzipStatic::Off => 1,
        GzipStatic::Always => 2,
    }
}

/// `gzip_static` is read back from its tokens.
pub proof fn lemma_gzip_static_parsed(t: Lexed, i: int, item: ItemView)
    requires
        item is GzipStatic,
        has_tokens(t, i, item_tokens(item)),
    ensures
        item_spec(t, i) matches Some(Ok((back, j))) && j == i + item_tokens(item).len() && alike(
            item,
            back,
        ),
{
    let ws = line_words(item);
    let v = item->GzipStatic_0;
    lemma_line_tokens(t, i, ws);
    assert(t.text(i + 0) == ws[0]);
    assert(t.text(i + 1) == ws[1]);
    lemma_named_read(t, i);
    lemma_static_words();
    let k = static_index(v);
    assert(static_text(v) == crate::gzip::static_words()[k]);
    crate::helpers::lemma_first_index_at(crate::gzip::static_words(), k, 0);
    assert(crate::gzip::static_of(k) == v);
    assert(item_spec(t, i) == Some(Ok::<_, ErrorView>((item, i + 3))));
}

/// `proxy_http_version` is written as the line of its words.
pub proof fn lemma_version_line(item: ItemView, p: Page)
    requires
        item is ProxyHttpVersion,
    ensures
        render_item(item, p) == with_line(p, line_words(item)),
{
    let ws = line_words(item);
    reveal_strlit("proxy_http_version 1.0");
    reveal_strlit("proxy_http_version 1.1");
    reveal_strlit("proxy_http_version");
    reveal_strlit("1.0");
    reveal_strlit("1.1");
    assert("proxy_http_version 1.0"@ =~= "proxy_http_version"@ + seq![' '] + "1.0"@);
    assert("proxy_http_version 1.1"@ =~= "proxy_http_version"@ + seq![' '] + "1.1"@);
    assert(ws.drop_last() =~= seq!["proxy_http_version"@]);
    lemma_spaced_one("proxy_http_version"@);
    assert(render_item(item, p) == render_version(item->ProxyHttpVersion_0, p));
    assert(render_version(item->ProxyHttpVersion_0, p).text =~= with_line(p, ws).text);
}

/// `proxy_http_version` is read back from its tokens.
pub proof fn lemma_version_parsed(t: Lexed, i: int, item: ItemView)
    requires
        item is ProxyHttpVersion,
        has_tokens(t, i, item_tokens(item)),
    ensures
        item_spec(t, i) matches Some(Ok((back, j))) && j == i + item_tokens(item).len() && alike(
            item,
            back,
        ),
{
    let ws = line_words(item);
    lemma_line_tokens(t, i, ws);
    assert(t.text(i + 0) == ws[0]);
    assert(t.text(i + 1) == ws[1]);
    lemma_named_read(t, i);
    lemma_fixed_words();
    assert(item_spec(t, i) == Some(Ok::<_, ErrorView>((item, i + 3))));
}

/// `error_log` is written as the line of its words.
pub proof fn lemma_error_log_line(item: ItemView, p: Page)
    requires
        item is ErrorLog,
    ensures
        render_item(item, p) == with_line(p, line_words(item)),
{
    let ws = line_words(item);
    let a = value_text(item->ErrorLog_file.data);
    match item->ErrorLog_level {
        Some(l) => {
            assert(ws.drop_last() =~= seq!["error_log"@, a]);
            lemma_spaced_two("error_log"@, a);
        },
        None => {
            assert(ws.drop_last() =~= seq!["error_log"@]);
            lemma_spaced_one("error_log"@);
        },
    }
    assert(render_item(item, p) == render_error_log(
        item->ErrorLog_file,
        item->ErrorLog_level,
        p,
    ));
    assert(render_item(item, p).text =~= with_line(p, ws).text);
}

/// The level of `error_log` is the level of the word at its place.
pub proof fn lemma_level_index(l: ErrorLevel)
    ensures
        0 <= l.index() < 8,
        crate::http_core::level_of(l.index()) == l,
{
}

/// `error_log` is read back from its tokens.
pub proof fn lemma_error_log_parsed(t: Lexed, i: int, item: ItemView)
    requires
        item is ErrorLog,
        words_ok(item),
        has_tokens(t, i, item_tokens(item)),
    ensures
        item_spec(t, i) matches Some(Ok((back, j))) && j == i + item_tokens(item).len() && alike(
            item,
            back,
        ),
{
    let ws = line_words(item);
    let file = item->ErrorLog_file;
    lemma_line_tokens(t, i, ws);
    assert(t.text(i + 0) == ws[0]);
    assert(t.text(i + 1) == ws[1]);
    lemma_named_read(t, i);
    lemma_value_read(t, i + 1, file, seq!["String"@]);
    let back = ItemView::ErrorLog { file: placed(t, i + 1, file), level: item->ErrorLog_level };
    match item->ErrorLog_level {
        Some(l) => {
            assert(t.text(i + 2) == ws[2]);
            lemma_level_words();
            lemma_level_index(l);
            crate::helpers::lemma_first_index_at(crate::http_core::level_words(), l.index(), 0);
            assert(item_spec(t, i) == Some(Ok::<_, ErrorView>((back, i + 4))));
        },
        None => {
            assert(item_spec(t, i) == Some(Ok::<_, ErrorView>((back, i + 3))));
        },
    }
    assert(back.values() =~= seq![placed(t, i + 1, file)]);
    assert(item.values() =~= seq![file]);
}

/// A directive that is like an `error_log` has the same words.
pub proof fn lemma_error_log_alike(a: ItemView, b: ItemView)
    requires
        a is ErrorLog,
        words_ok(a),
        alike_here(a, b),
    ensures
        b is ErrorLog,
        words_ok(b),
        line_words(b) == line_words(a),
{
    let va = a.values();
    let vb = b.values();
    assert(va =~= seq![a->ErrorLog_file]);
    assert(vb[0].data == va[0].data);
}

/// The first `n` words of `ws`, each with a blank before it.
pub open spec fn joined(ws: Seq<Seq<char>>, n: int) -> Seq<char>
    decreases n,
{
    if n <= 0 {
        Seq::empty()
    } else {
        joined(ws, n - 1) + seq![' '] + ws[n - 1]
    }
}

/// A name and the first `n` words of `ws`, each with a blank behind it.
pub proof fn lemma_spaced_joined(name: Seq<char>, ws: Seq<Seq<char>>, n: int)
    requires
        0 <= n <= ws.len(),
    ensures
        spaced(seq![name] + ws.take(n)) == name + joined(ws, n) + seq![' '],
    decreases n,
{
    let all = seq![name] + ws.take(n);
    if n == 0 {
        assert(all =~= seq![name]);
        lemma_spaced_one(name);
        assert(name + joined(ws, 0) + seq![' '] =~= name + seq![' ']);
    } else {
        lemma_spaced_joined(name, ws, n - 1);
        assert(all.drop_last() =~= seq![name] + ws.take(n - 1));
        assert(all.last() == ws[n - 1]);
        assert(spaced(all) =~= name + joined(ws, n) + seq![' ']);
    }
}

/// The line of a name and the words `ws` is the name, the words with a
/// blank before each, and the end of the line.
pub proof fn lemma_line_joined(name: Seq<char>, ws: Seq<Seq<char>>)
    ensures
        line_text(seq![name] + ws) == name + joined(ws, ws.len() as int) + seq![';', '\n'],
{
    let all = seq![name] + ws;
    let n = ws.len() as int;
    if n == 0 {
        assert(all =~= seq![name]);
        assert(all.drop_last() =~= Seq::<Seq<char>>::empty());
        assert(spaced(all.drop_last()) =~= Seq::<char>::empty());
        assert(line_text(all) =~= name + joined(ws, 0) + seq![';', '\n']);
    } else {
        lemma_spaced_joined(name, ws, n - 1);
        assert(all.drop_last() =~= seq![name] + ws.take(n - 1));
        assert(all.last() == ws[n - 1]);
        assert(line_text(all) =~= name + joined(ws, n) + seq![';', '\n']);
    }
}

/// The texts of the values of `list`.
pub open spec fn value_texts(list: Seq<ValueView>) -> Seq<Seq<char>> {
    list.map_values(|v: ValueView| value_text(v.data))
}

/// Whether every value of `list` is read back as it is written.
pub open spec fn all_lexable(list: Seq<ValueView>) -> bool {
    forall|k: int| 0 <= k < list.len() ==> lexable(#[trigger] list[k])
}

/// Writing values with a blank before each adds their texts, each with a
/// blank before it.
pub proof fn lemma_values_joined(list: Seq<ValueView>, n: int, p: Page)
    requires
        0 <= n <= list.len(),
    ensures
        render_values(list, n, p).text == p.text + joined(value_texts(list), n),
        render_values(list, n, p).indent == p.indent,
        render_values(list, n, p).step == p.step,
    decreases n,
{
    if n > 0 {
        lemma_values_joined(list, n - 1, p);
        assert(value_texts(list)[n - 1] == value_text(list[n - 1].data));
        assert(render_values(list, n, p).text =~= p.text + joined(value_texts(list), n));
    } else {
        assert(p.text + joined(value_texts(list), n) =~= p.text);
    }
}

/// Writing texts with a blank before each adds them, each with a blank
/// before it.
pub proof fn lemma_texts_joined(list: Seq<Seq<char>>, n: int, p: Page)
    requires
        0 <= n <= list.len(),
    ensures
        crate::display::render_texts(list, n, p).text == p.text + joined(list, n),
        crate::display::render_texts(list, n, p).indent == p.indent,
        crate::display::render_texts(list, n, p).step == p.step,
    decreases n,
{
    if n > 0 {
        lemma_texts_joined(list, n - 1, p);
        assert(crate::display::render_texts(list, n, p).text =~= p.text + joined(list, n));
    } else {
        assert(p.text + joined(list, n) =~= p.text);
    }
}

/// The values of `list` as they are read from the tokens from `i` on.
pub open spec fn placed_all(t: Lexed, i: int, list: Seq<ValueView>) -> Seq<ValueView> {
    Seq::new(list.len(), |k: int| placed(t, i + k, list[k]))
}

/// Whether the tokens from `i` on are strings with the texts of the
/// values of `list`.
pub open spec fn holds_values(t: Lexed, i: int, list: Seq<ValueView>) -> bool {
    forall|m: int|
        0 <= m < list.len() ==> t.is_string(i + m) && t.text(i + m) == value_text(
            (#[trigger] list[m]).data,
        )
}

/// The grammar reads values that are read back as they are written from
/// the tokens that hold their texts, up to the first token that is no
/// string.
pub proof fn lemma_values_read(
    t: Lexed,
    i: int,
    list: Seq<ValueView>,
    k: int,
    acc: Seq<ValueView>,
)
    requires
        all_lexable(list),
        0 <= k <= list.len(),
        0 <= i,
        holds_values(t, i, list),
        !t.is_string(i + list.len()),
        acc == placed_all(t, i, list).take(k),
    ensures
        values_spec(t, i + k, acc) == Ok::<_, ErrorView>(
            (placed_all(t, i, list), i + list.len()),
        ),
    decreases list.len() - k,
{
    if k < list.len() {
        assert(lexable(list[k]));
        assert(t.text(i + k) == value_text(list[k].data));
        lemma_value_read(t, i + k, list[k], Seq::empty());
        assert(acc.push(placed(t, i + k, list[k])) =~= placed_all(t, i, list).take(k + 1));
        lemma_values_read(t, i, list, k + 1, acc.push(placed(t, i + k, list[k])));
    } else {
        assert(acc =~= placed_all(t, i, list));
    }
}

/// A run of string tokens ends at the first token that is no string.
pub proof fn lemma_run_read(t: Lexed, i: int, n: int, k: int)
    requires
        0 <= i,
        0 <= k <= n,
        forall|m: int| 0 <= m < n ==> #[trigger] t.is_string(i + m),
        !t.is_string(i + n),
    ensures
        run_end(t, i + k) == i + n,
    decreases n - k,
{
    if k < n {
        assert(t.is_string(i + k));
        lemma_run_read(t, i, n, k + 1);
    }
}

/// `index` is written as the line of its words.
pub proof fn lemma_index_line(item: ItemView, p: Page)
    requires
        item is Index,
    ensures
        render_item(item, p) == with_line(p, line_words(item)),
{
    let list = item->Index_0;
    let ws = value_texts(list);
    lemma_line_joined("index"@, ws);
    lemma_values_joined(list, list.len() as int, p.indent().write("index"@));
    assert(render_item(item, p) == render_index(list, p));
    assert(render_index(list, p).text =~= with_line(p, line_words(item)).text);
}

/// `index` is read back from its tokens.
#[verifier::rlimit(40)]
pub proof fn lemma_index_parsed(t: Lexed, i: int, item: ItemView)
    requires
        item is Index,
        words_ok(item),
        has_tokens(t, i, item_tokens(item)),
    ensures
        item_spec(t, i) matches Some(Ok((back, j))) && j == i + item_tokens(item).len() && alike(
            item,
            back,
        ),
{
    let list = item->Index_0;
    let ws = line_words(item);
    lemma_line_tokens(t, i, ws);
    assert(t.text(i + 0) == ws[0]);
    lemma_named_read(t, i);
    assert forall|m: int| 0 <= m < list.len() implies t.is_string(i + 1 + m) && t.text(i + 1 + m)
        == value_text((#[trigger] list[m]).data) by {
        assert(t.text(i + (1 + m)) == ws[1 + m]);
        assert(ws[1 + m] == value_texts(list)[m]);
    }
    assert(holds_values(t, i + 1, list));
    assert(!t.is_string(i + 1 + list.len()));
    assert(placed_all(t, i + 1, list).take(0) =~= Seq::<ValueView>::empty());
    lemma_values_read(t, i + 1, list, 0, Seq::empty());
    let back = ItemView::Index(placed_all(t, i + 1, list));
    assert(semi_spec(t, i + 1 + list.len(), seq!["String"@]) == Ok::<_, ErrorView>(
        i + 2 + list.len(),
    ));
    assert(index_spec(t, i) == Ok::<_, ErrorView>((back, i + 2 + list.len())));
    assert(item_tokens(item).len() == list.len() + 2);
    assert(alike(item, back)) by {
        assert(back.values() =~= placed_all(t, i + 1, list));
        assert(item.values() =~= list);
    }
}

/// A directive that is like an `index` has the same words.
pub proof fn lemma_index_alike(a: ItemView, b: ItemView)
    requires
        a is Index,
        words_ok(a),
        alike_here(a, b),
    ensures
        b is Index,
        words_ok(b),
        line_words(b) == line_words(a),
{
    let va = a->Index_0;
    let vb = b->Index_0;
    assert(va.len() == vb.len());
    assert forall|k: int| 0 <= k < vb.len() implies lexable(#[trigger] vb[k]) by {
        assert(va[k].data == vb[k].data);
        assert(lexable(va[k]));
    }
    assert(value_texts(vb) =~= value_texts(va)) by {
        assert forall|k: int| 0 <= k < va.len() implies value_texts(vb)[k] == value_texts(va)[k] by {
            assert(va[k].data == vb[k].data);
        }
    }
}

/// The texts of a list are read as one token each.
pub open spec fn all_words(ws: Seq<Seq<char>>) -> bool {
    forall|k: int| 0 <= k < ws.len() ==> is_word(#[trigger] ws[k])
}

/// `proxy_ignore_headers` is written as the line of its words.
pub proof fn lemma_ignore_headers_line(item: ItemView, p: Page)
    requires
        item is ProxyIgnoreHeaders,
    ensures
        render_item(item, p) == with_line(p, line_words(item)),
{
    let ws = item->ProxyIgnoreHeaders_0;
    lemma_line_joined("proxy_ignore_headers"@, ws);
    lemma_texts_joined(ws, ws.len() as int, p.indent().write("proxy_ignore_headers"@));
    assert(render_item(item, p) == crate::display::render_ignore_headers(ws, p));
    assert(render_item(item, p).text =~= with_line(p, line_words(item)).text);
}

/// `proxy_ignore_headers` is read back from its tokens.
pub proof fn lemma_ignore_headers_parsed(t: Lexed, i: int, item: ItemView)
    requires
        item is ProxyIgnoreHeaders,
        words_ok(item),
        has_tokens(t, i, item_tokens(item)),
    ensures
        item_spec(t, i) matches Some(Ok((back, j))) && j == i + item_tokens(item).len() && alike(
            item,
            back,
        ),
{
    let list = item->ProxyIgnoreHeaders_0;
    let ws = line_words(item);
    let n = list.len() as int;
    lemma_line_tokens(t, i, ws);
    assert(t.text(i + 0) == ws[0]);
    lemma_named_read(t, i);
    assert forall|m: int| 0 <= m < n implies #[trigger] t.is_string(i + 1 + m) by {
        assert(t.text(i + (1 + m)) == ws[1 + m]);
    }
    lemma_run_read(t, i + 1, n, 0);
    assert(t.is_string(i + 1 + 0));
    assert(crate::helpers::texts_spec(t, i + 1, i + 1 + n) =~= list) by {
        assert forall|m: int| 0 <= m < n implies crate::helpers::texts_spec(
            t,
            i + 1,
            i + 1 + n,
        )[m] == list[m] by {
            assert(t.text(i + (1 + m)) == ws[1 + m]);
        }
    }
    assert(item_spec(t, i) == Some(Ok::<_, ErrorView>((item, i + 2 + n))));
}

} // verus!
