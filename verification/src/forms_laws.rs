//! Form by form: how a directive is written, and that it is read back.

use vstd::prelude::*;
use crate::ast::ItemView;
use crate::display::{
    block_head, render_directives, render_item, render_leaf, render_single, render_toggle,
};
use crate::error::ErrorView;
use crate::format::Page;
use crate::forms::{
    alike, alike_here, has_block, has_margin, has_tokens, item_tokens, lexable, line_words, shape,
    words_ok, Shape,
};
use crate::forms_kinds::{
    lemma_ignore_headers_line, lemma_ignore_headers_parsed, lemma_index_alike, lemma_index_line,
    lemma_index_parsed,
    lemma_add_header_alike, lemma_add_header_line, lemma_add_header_parsed,
    lemma_error_log_alike, lemma_error_log_line, lemma_error_log_parsed, lemma_expires_alike,
    lemma_expires_line, lemma_expires_parsed, lemma_fixed_words, lemma_gzip_static_line,
    lemma_gzip_static_parsed, lemma_keepalive_alike, lemma_keepalive_line,
    lemma_keepalive_parsed, lemma_level_words, lemma_set_alike, lemma_set_header_alike,
    lemma_set_header_line, lemma_set_header_parsed, lemma_set_line, lemma_set_parsed,
    lemma_static_words, lemma_variable_word, lemma_version_line, lemma_version_parsed,
};
use crate::forms_reads::{lemma_block_read, lemma_leaf_read};
use crate::grammar::{block_spec, item_spec};
use crate::helpers::single_spec;
use crate::layout_laws::{
    lemma_spaced_one, punct_token, spaced, string_token, string_tokens, with_head, with_line,
};
use crate::lex_laws::{is_word, lemma_plain_word};
use crate::names::{is_plain_word, lemma_marks};
use crate::tokenizer::Lexed;
use crate::value::ValueView;
use crate::value_laws::lemma_value_round_trip;

verus! {

/// The name of every directive is a plain word.
pub proof fn lemma_name_plain(item: ItemView)
    ensures
        is_plain_word(item.directive_name()),
        is_word(item.directive_name()),
{
    lemma_marks();
    lemma_plain_word(item.directive_name());
}

/// The words `on` and `off` are read as one token each and differ.
pub proof fn lemma_toggle_words()
    ensures
        is_word("on"@),
        is_word("off"@),
        "on"@ != "off"@,
{
    reveal_strlit("on");
    reveal_strlit("off");
    assert(is_plain_word("on"@));
    assert(is_plain_word("off"@));
    lemma_plain_word("on"@);
    lemma_plain_word("off"@);
}

/// A switch, a directive with one value and a name alone are written as
/// the line of their words.
#[verifier::rlimit(60)]
#[verifier::spinoff_prover]
pub proof fn lemma_shape_line(item: ItemView, p: Page)
    requires
        shape(item) !is Other,
    ensures
        render_item(item, p) == with_line(p, line_words(item)),
{
    let ws = line_words(item);
    let name = item.directive_name();
    assert(render_item(item, p) == render_leaf(item, p));
    match shape(item) {
        Shape::Toggle(on) => {
            assert(render_leaf(item, p) == render_toggle(name, on, p));
            assert(ws.drop_last() =~= seq![name]);
            lemma_spaced_one(name);
            assert(render_toggle(name, on, p).text =~= with_line(p, ws).text);
        },
        Shape::Single(v) => {
            assert(render_leaf(item, p) == render_single(name, v, p));
            assert(ws.drop_last() =~= seq![name]);
            lemma_spaced_one(name);
            assert(render_single(name, v, p).text =~= with_line(p, ws).text);
        },
        _ => {
            assert(render_leaf(item, p) == p.indent().write(name).end());
            assert(ws.drop_last() =~= Seq::<Seq<char>>::empty());
            assert(spaced(ws.drop_last()) =~= Seq::<char>::empty());
            assert(render_leaf(item, p).text =~= with_line(p, ws).text);
        },
    }
}

/// The grammar reads a switch, a directive with one value and a name
/// alone from its tokens.
pub proof fn lemma_shape_parsed(t: Lexed, i: int, item: ItemView)
    requires
        shape(item) !is Other,
        words_ok(item),
        has_tokens(t, i, item_tokens(item)),
    ensures
        item_spec(t, i) matches Some(Ok((back, j))) && j == i + item_tokens(item).len() && alike(
            item,
            back,
        ),
{
    let w = item_tokens(item);
    let ws = line_words(item);
    assert(t.tokens[i + 0].token == w[0]);
    assert(w[0] == string_token(ws[0]));
    lemma_leaf_read(t, i, item);
    lemma_toggle_words();
    match shape(item) {
        Shape::Toggle(on) => {
            assert(t.tokens[i + 1].token == w[1]);
            assert(t.tokens[i + 2].token == w[2]);
            assert(w[1] == string_token(ws[1]));
        },
        Shape::Single(v) => {
            assert(t.tokens[i + 1].token == w[1]);
            assert(t.tokens[i + 2].token == w[2]);
            assert(w[1] == string_token(ws[1]));
            lemma_value_round_trip(v.data);
            let read = ValueView { position: t.position(i + 1), data: v.data };
            assert(single_spec(t, i + 1) == Ok::<_, ErrorView>((read, i + 3)));
            let back = item.with_values(seq![read]);
            assert(back.values() =~= seq![read]);
            assert(item.values() =~= seq![v]);
        },
        _ => {
            assert(t.tokens[i + 1].token == w[1]);
        },
    }
}

/// A switch, a directive with one value or a name alone that is like
/// another has the same words.
pub proof fn lemma_shape_alike(a: ItemView, b: ItemView)
    requires
        shape(a) !is Other,
        words_ok(a),
        alike_here(a, b),
    ensures
        words_ok(b),
        line_words(b) == line_words(a),
        has_block(b) == has_block(a),
        has_margin(b) == has_margin(a),
{
    match shape(a) {
        Shape::Single(v) => {
            assert(a.values() =~= seq![v]);
            assert(b.values()[0].data == a.values()[0].data);
        },
        _ => {},
    }
}

/// The words of a directive of the kind `AddHeader` are read as one token
/// each.
proof fn lemma_words_add_header(item: ItemView)
    requires
        words_ok(item),
        item is AddHeader,
    ensures
        line_words(item).len() > 0,
        forall|i: int| 0 <= i < line_words(item).len() ==> is_word(#[trigger] line_words(item)[i]),
{
    match item {
        ItemView::AddHeader(_) => {
            lemma_name_plain(item);
            lemma_fixed_words();
        },
        _ => {},
    }
}

/// The words of a directive of the kind `Expires` are read as one token
/// each.
proof fn lemma_words_expires(item: ItemView)
    requires
        words_ok(item),
        item is Expires,
    ensures
        line_words(item).len() > 0,
        forall|i: int| 0 <= i < line_words(item).len() ==> is_word(#[trigger] line_words(item)[i]),
{
    match item {
        ItemView::Expires(_) => {
            lemma_name_plain(item);
            lemma_fixed_words();
        },
        _ => {},
    }
}

/// The words of a directive of the kind `SetVar` are read as one token
/// each.
proof fn lemma_words_set_var(item: ItemView)
    requires
        words_ok(item),
        item is SetVar,
    ensures
        line_words(item).len() > 0,
        forall|i: int| 0 <= i < line_words(item).len() ==> is_word(#[trigger] line_words(item)[i]),
{
    match item {
        ItemView::SetVar { variable, value } => {
            lemma_name_plain(item);
            lemma_variable_word(variable);
        },
        _ => {},
    }
}

/// The words of a directive of the kind `GzipStatic` are read as one token
/// each.
proof fn lemma_words_gzip_static(item: ItemView)
    requires
        words_ok(item),
        item is GzipStatic,
    ensures
        line_words(item).len() > 0,
        forall|i: int| 0 <= i < line_words(item).len() ==> is_word(#[trigger] line_words(item)[i]),
{
    match item {
        ItemView::GzipStatic(v) => {
            lemma_name_plain(item);
            lemma_static_words();
            let k = crate::forms_kinds::static_index(v);
            assert(crate::display::static_text(v) == crate::gzip::static_words()[k]);
        },
        _ => {},
    }
}

/// The words of a directive of the kind `ProxyHttpVersion` are read as one token
/// each.
proof fn lemma_words_proxy_http_version(item: ItemView)
    requires
        words_ok(item),
        item is ProxyHttpVersion,
    ensures
        line_words(item).len() > 0,
        forall|i: int| 0 <= i < line_words(item).len() ==> is_word(#[trigger] line_words(item)[i]),
{
    match item {
        ItemView::ProxyHttpVersion(_) => {
            lemma_name_plain(item);
            lemma_fixed_words();
        },
        _ => {},
    }
}

/// The words of a directive of the kind `ErrorLog` are read as one token
/// each.
proof fn lemma_words_error_log(item: ItemView)
    requires
        words_ok(item),
        item is ErrorLog,
    ensures
        line_words(item).len() > 0,
        forall|i: int| 0 <= i < line_words(item).len() ==> is_word(#[trigger] line_words(item)[i]),
{
    match item {
        ItemView::ErrorLog { file, level } => {
            lemma_name_plain(item);
            lemma_level_words();
        },
        _ => {},
    }
}

/// The words of a directive of the kind `Index` are read as one token
/// each.
proof fn lemma_words_index(item: ItemView)
    requires
        words_ok(item),
        item is Index,
    ensures
        line_words(item).len() > 0,
        forall|i: int| 0 <= i < line_words(item).len() ==> is_word(#[trigger] line_words(item)[i]),
{
    match item {
        ItemView::Index(list) => {
            lemma_name_plain(item);
            assert forall|i: int| 0 <= i < line_words(item).len() implies is_word(
                #[trigger] line_words(item)[i],
            ) by {
                if i > 0 {
                    assert(line_words(item)[i] == crate::forms_kinds::value_texts(list)[i - 1]);
                    assert(lexable(list[i - 1]));
                }
            }
        },
        _ => {},
    }
}

/// The words of a directive of the kind `ProxyIgnoreHeaders` are read as one token
/// each.
proof fn lemma_words_proxy_ignore_headers(item: ItemView)
    requires
        words_ok(item),
        item is ProxyIgnoreHeaders,
    ensures
        line_words(item).len() > 0,
        forall|i: int| 0 <= i < line_words(item).len() ==> is_word(#[trigger] line_words(item)[i]),
{
    match item {
        ItemView::ProxyIgnoreHeaders(list) => {
            lemma_name_plain(item);
            assert forall|i: int| 0 <= i < line_words(item).len() implies is_word(
                #[trigger] line_words(item)[i],
            ) by {
                if i > 0 {
                    assert(line_words(item)[i] == list[i - 1]);
                }
            }
        },
        _ => {},
    }
}

/// The words of a directive of the kind `Location` are read as one token
/// each.
proof fn lemma_words_location(item: ItemView)
    requires
        words_ok(item),
        item is Location,
    ensures
        line_words(item).len() > 0,
        forall|i: int| 0 <= i < line_words(item).len() ==> is_word(#[trigger] line_words(item)[i]),
{
    match item {
        ItemView::Location(l) => {
            lemma_name_plain(item);
            crate::forms_blocks::lemma_pattern_words();
            assert forall|i: int| 0 <= i < line_words(item).len() implies is_word(
                #[trigger] line_words(item)[i],
            ) by {
                if i > 0 {
                    assert(line_words(item)[i] == crate::forms_blocks::pattern_words(
                        l.pattern,
                    )[i - 1]);
                }
            }
        },
        _ => {},
    }
}

/// The words of a directive of the kind `LimitExcept` are read as one token
/// each.
proof fn lemma_words_limit_except(item: ItemView)
    requires
        words_ok(item),
        item is LimitExcept,
    ensures
        line_words(item).len() > 0,
        forall|i: int| 0 <= i < line_words(item).len() ==> is_word(#[trigger] line_words(item)[i]),
{
    match item {
        ItemView::LimitExcept(l) => {
            lemma_name_plain(item);
            assert forall|i: int| 0 <= i < line_words(item).len() implies is_word(
                #[trigger] line_words(item)[i],
            ) by {
                if i > 0 {
                    assert(line_words(item)[i] == l.methods[i - 1]);
                }
            }
        },
        _ => {},
    }
}

/// The words of a directive of the kind `WorkerProcesses` are read as one token
/// each.
proof fn lemma_words_worker_processes(item: ItemView)
    requires
        words_ok(item),
        item is WorkerProcesses,
    ensures
        line_words(item).len() > 0,
        forall|i: int| 0 <= i < line_words(item).len() ==> is_word(#[trigger] line_words(item)[i]),
{
    match item {
        ItemView::WorkerProcesses(w) => {
            lemma_name_plain(item);
            lemma_fixed_words();
            match w {
                crate::ast::WorkerProcesses::Auto => {},
                crate::ast::WorkerProcesses::Exact(n) => {
                    crate::number_laws::lemma_decimal_digits(n as nat);
                    lemma_plain_word(crate::text::decimal(n as nat));
                },
            }
        },
        _ => {},
    }
}

/// The words of a directive of the kind `GzipProxied` are read as one token
/// each.
proof fn lemma_words_gzip_proxied(item: ItemView)
    requires
        words_ok(item),
        item is GzipProxied,
    ensures
        line_words(item).len() > 0,
        forall|i: int| 0 <= i < line_words(item).len() ==> is_word(#[trigger] line_words(item)[i]),
{
    match item {
        ItemView::GzipProxied(list) => {
            lemma_name_plain(item);
            crate::forms_words::lemma_proxied_words();
            assert forall|i: int| 0 <= i < line_words(item).len() implies is_word(
                #[trigger] line_words(item)[i],
            ) by {
                if i > 0 {
                    assert(line_words(item)[i] == crate::forms_words::proxied_texts(list)[i - 1]);
                }
            }
        },
        _ => {},
    }
}

/// The words of a directive of the kind `ProxyNextUpstream` are read as one token
/// each.
proof fn lemma_words_proxy_next_upstream(item: ItemView)
    requires
        words_ok(item),
        item is ProxyNextUpstream,
    ensures
        line_words(item).len() > 0,
        forall|i: int| 0 <= i < line_words(item).len() ==> is_word(#[trigger] line_words(item)[i]),
{
    match item {
        ItemView::ProxyNextUpstream(list) => {
            lemma_name_plain(item);
            crate::forms_words::lemma_upstream_words();
            assert forall|i: int| 0 <= i < line_words(item).len() implies is_word(
                #[trigger] line_words(item)[i],
            ) by {
                if i > 0 {
                    assert(line_words(item)[i] == crate::forms_words::upstream_texts(list)[i - 1]);
                }
            }
        },
        _ => {},
    }
}

/// The words of a directive of the kind `Rewrite` are read as one token
/// each.
proof fn lemma_words_rewrite(item: ItemView)
    requires
        words_ok(item),
        item is Rewrite,
    ensures
        line_words(item).len() > 0,
        forall|i: int| 0 <= i < line_words(item).len() ==> is_word(#[trigger] line_words(item)[i]),
{
    match item {
        ItemView::Rewrite(rw) => {
            lemma_name_plain(item);
            crate::forms_words::lemma_flag_words();
        },
        _ => {},
    }
}

/// The words of a directive of the kind `Return` are read as one token
/// each.
proof fn lemma_words_return(item: ItemView)
    requires
        words_ok(item),
        item is Return,
    ensures
        line_words(item).len() > 0,
        forall|i: int| 0 <= i < line_words(item).len() ==> is_word(#[trigger] line_words(item)[i]),
{
    match item {
        ItemView::Return(r) => {
            lemma_name_plain(item);
            match r {
                crate::ast::ReturnView::Redirect { code: Some(c), url } => {
                    crate::forms_more::lemma_number_value(c as nat);
                },
                crate::ast::ReturnView::Text { code, text } => {
                    crate::forms_more::lemma_number_value(code as nat);
                },
                _ => {},
            }
            assert forall|i: int| 0 <= i < line_words(item).len() implies is_word(
                #[trigger] line_words(item)[i],
            ) by {
                if i > 0 {
                    assert(line_words(item)[i] == crate::forms_more::return_words(r)[i - 1]);
                }
            }
        },
        _ => {},
    }
}

/// The words of a directive of the kind `ServerName` are read as one token
/// each.
proof fn lemma_words_server_name(item: ItemView)
    requires
        words_ok(item),
        item is ServerName,
    ensures
        line_words(item).len() > 0,
        forall|i: int| 0 <= i < line_words(item).len() ==> is_word(#[trigger] line_words(item)[i]),
{
    match item {
        ItemView::ServerName(list) => {
            lemma_name_plain(item);
            assert forall|i: int| 0 <= i < line_words(item).len() implies is_word(
                #[trigger] line_words(item)[i],
            ) by {
                if i > 0 {
                    assert(line_words(item)[i] == crate::forms_more::name_text(list[i - 1]));
                }
            }
        },
        _ => {},
    }
}

/// The words of a directive of the kind `Listen` are read as one token
/// each.
proof fn lemma_words_listen(item: ItemView)
    requires
        words_ok(item),
        item is Listen,
    ensures
        line_words(item).len() > 0,
        forall|i: int| 0 <= i < line_words(item).len() ==> is_word(#[trigger] line_words(item)[i]),
{
    match item {
        ItemView::Listen(l) => {
            lemma_name_plain(item);
            crate::forms_listen::lemma_address_read(l.address);
            crate::forms_options::lemma_listen_words(l, 13);
            let all = crate::forms_options::listen_all(l);
            assert forall|i: int| 0 <= i < line_words(item).len() implies is_word(
                #[trigger] line_words(item)[i],
            ) by {
                if i > 0 {
                    assert(line_words(item)[i] == all[i - 1]);
                }
            }
        },
        _ => {},
    }
}

/// The words of a directive of the kind `If` are read as one token
/// each.
proof fn lemma_words_if(item: ItemView)
    requires
        words_ok(item),
        item is If,
    ensures
        line_words(item).len() > 0,
        forall|i: int| 0 <= i < line_words(item).len() ==> is_word(#[trigger] line_words(item)[i]),
{
    match item {
        ItemView::If(x) => {
            lemma_name_plain(item);
            assert forall|i: int| 0 <= i < line_words(item).len() implies is_word(
                #[trigger] line_words(item)[i],
            ) by {
                if i > 0 {
                    assert(line_words(item)[i] == crate::forms_if::test_words(x.condition)[i - 1]);
                }
            }
        },
        _ => {},
    }
}

/// The words of a directive of the kind `Allow` are read as one token
/// each.
proof fn lemma_words_allow(item: ItemView)
    requires
        words_ok(item),
        item is Allow,
    ensures
        line_words(item).len() > 0,
        forall|i: int| 0 <= i < line_words(item).len() ==> is_word(#[trigger] line_words(item)[i]),
{
    match item {
        ItemView::Allow(s) => {
            lemma_name_plain(item);
            crate::forms_net::lemma_source_read(s);
        },
        _ => {},
    }
}

/// The words of a directive of the kind `Deny` are read as one token
/// each.
proof fn lemma_words_deny(item: ItemView)
    requires
        words_ok(item),
        item is Deny,
    ensures
        line_words(item).len() > 0,
        forall|i: int| 0 <= i < line_words(item).len() ==> is_word(#[trigger] line_words(item)[i]),
{
    match item {
        ItemView::Deny(s) => {
            lemma_name_plain(item);
            crate::forms_net::lemma_source_read(s);
        },
        _ => {},
    }
}

/// The words of a directive of the kind `SetRealIpFrom` are read as one token
/// each.
proof fn lemma_words_set_real_ip_from(item: ItemView)
    requires
        words_ok(item),
        item is SetRealIpFrom,
    ensures
        line_words(item).len() > 0,
        forall|i: int| 0 <= i < line_words(item).len() ==> is_word(#[trigger] line_words(item)[i]),
{
    match item {
        ItemView::SetRealIpFrom(s) => {
            lemma_name_plain(item);
            crate::forms_net::lemma_real_ip_read(s);
        },
        _ => {},
    }
}

/// The words of a directive of the kind `TryFiles` are read as one token
/// each.
proof fn lemma_words_try_files(item: ItemView)
    requires
        words_ok(item),
        item is TryFiles,
    ensures
        line_words(item).len() > 0,
        forall|i: int| 0 <= i < line_words(item).len() ==> is_word(#[trigger] line_words(item)[i]),
{
    match item {
        ItemView::TryFiles(tf) => {
            lemma_name_plain(item);
            crate::forms_try::lemma_try_values(tf);
            let list = crate::forms_try::try_values(tf);
            assert forall|i: int| 0 <= i < line_words(item).len() implies is_word(
                #[trigger] line_words(item)[i],
            ) by {
                if i > 0 {
                    assert(line_words(item)[i] == crate::forms_kinds::value_texts(list)[i - 1]);
                    assert(lexable(list[i - 1]));
                }
            }
        },
        _ => {},
    }
}

/// The words of a directive of the kind `ErrorPage` are read as one token
/// each.
proof fn lemma_words_error_page(item: ItemView)
    requires
        words_ok(item),
        item is ErrorPage,
    ensures
        line_words(item).len() > 0,
        forall|i: int| 0 <= i < line_words(item).len() ==> is_word(#[trigger] line_words(item)[i]),
{
    match item {
        ItemView::ErrorPage(e) => {
            lemma_name_plain(item);
            crate::forms_page::lemma_page_values(e);
            let list = crate::forms_page::page_values(e);
            assert forall|i: int| 0 <= i < line_words(item).len() implies is_word(
                #[trigger] line_words(item)[i],
            ) by {
                if i > 0 {
                    assert(line_words(item)[i] == crate::forms_kinds::value_texts(list)[i - 1]);
                    assert(lexable(list[i - 1]));
                }
            }
        },
        _ => {},
    }
}

/// The words of a directive of the kind `ProxyCacheValid` are read as one token
/// each.
proof fn lemma_words_proxy_cache_valid(item: ItemView)
    requires
        words_ok(item),
        item is ProxyCacheValid,
    ensures
        line_words(item).len() > 0,
        forall|i: int| 0 <= i < line_words(item).len() ==> is_word(#[trigger] line_words(item)[i]),
{
    match item {
        ItemView::ProxyCacheValid(v) => {
            lemma_name_plain(item);
            crate::forms_cache::lemma_cache_values(v);
            let list = crate::forms_cache::cache_values(v);
            assert forall|i: int| 0 <= i < line_words(item).len() implies is_word(
                #[trigger] line_words(item)[i],
            ) by {
                if i > 0 {
                    assert(line_words(item)[i] == crate::forms_kinds::value_texts(list)[i - 1]);
                    assert(lexable(list[i - 1]));
                }
            }
        },
        _ => {},
    }
}

/// The words of a directive of the kind `AccessLog` are read as one token
/// each.
proof fn lemma_words_access_log(item: ItemView)
    requires
        words_ok(item),
        item is AccessLog,
    ensures
        line_words(item).len() > 0,
        forall|i: int| 0 <= i < line_words(item).len() ==> is_word(#[trigger] line_words(item)[i]),
{
    match item {
        ItemView::AccessLog(l) => {
            lemma_name_plain(item);
            lemma_toggle_words();
            match l {
                crate::ast::AccessLogView::On(o) => {
                    crate::forms_log::lemma_log_words(o);
                    let all = crate::forms_log::log_all(o);
                    assert forall|i: int| 0 <= i < line_words(item).len() implies is_word(
                        #[trigger] line_words(item)[i],
                    ) by {
                        if i > 0 {
                            assert(line_words(item)[i] == all[i - 1]);
                        }
                    }
                },
                crate::ast::AccessLogView::Off => {},
            }
        },
        _ => {},
    }
}

/// The words of a directive of the kind `MapBlock` are read as one token
/// each.
proof fn lemma_words_map_block(item: ItemView)
    requires
        words_ok(item),
        item is MapBlock,
    ensures
        line_words(item).len() > 0,
        forall|i: int| 0 <= i < line_words(item).len() ==> is_word(#[trigger] line_words(item)[i]),
{
    match item {
        ItemView::MapBlock(m) => {
            crate::forms_map::lemma_map_words(m);
        },
        _ => {},
    }
}

/// The words of a directive that is read back as it is written are read
/// as one token each.
pub proof fn lemma_line_words(item: ItemView)
    requires
        words_ok(item),
    ensures
        line_words(item).len() > 0,
        forall|i: int| 0 <= i < line_words(item).len() ==> is_word(#[trigger] line_words(item)[i]),
{
    match item {
        ItemView::AddHeader { .. } => {
            lemma_words_add_header(item);
        },
        ItemView::Expires { .. } => {
            lemma_words_expires(item);
        },
        ItemView::SetVar { .. } => {
            lemma_words_set_var(item);
        },
        ItemView::GzipStatic { .. } => {
            lemma_words_gzip_static(item);
        },
        ItemView::ProxyHttpVersion { .. } => {
            lemma_words_proxy_http_version(item);
        },
        ItemView::ErrorLog { .. } => {
            lemma_words_error_log(item);
        },
        ItemView::Index { .. } => {
            lemma_words_index(item);
        },
        ItemView::ProxyIgnoreHeaders { .. } => {
            lemma_words_proxy_ignore_headers(item);
        },
        ItemView::Location { .. } => {
            lemma_words_location(item);
        },
        ItemView::LimitExcept { .. } => {
            lemma_words_limit_except(item);
        },
        ItemView::WorkerProcesses { .. } => {
            lemma_words_worker_processes(item);
        },
        ItemView::GzipProxied { .. } => {
            lemma_words_gzip_proxied(item);
        },
        ItemView::ProxyNextUpstream { .. } => {
            lemma_words_proxy_next_upstream(item);
        },
        ItemView::Rewrite { .. } => {
            lemma_words_rewrite(item);
        },
        ItemView::Return { .. } => {
            lemma_words_return(item);
        },
        ItemView::ServerName { .. } => {
            lemma_words_server_name(item);
        },
        ItemView::Listen { .. } => {
            lemma_words_listen(item);
        },
        ItemView::If { .. } => {
            lemma_words_if(item);
        },
        ItemView::Allow { .. } => {
            lemma_words_allow(item);
        },
        ItemView::Deny { .. } => {
            lemma_words_deny(item);
        },
        ItemView::SetRealIpFrom { .. } => {
            lemma_words_set_real_ip_from(item);
        },
        ItemView::TryFiles { .. } => {
            lemma_words_try_files(item);
        },
        ItemView::ErrorPage { .. } => {
            lemma_words_error_page(item);
        },
        ItemView::ProxyCacheValid { .. } => {
            lemma_words_proxy_cache_valid(item);
        },
        ItemView::AccessLog { .. } => {
            lemma_words_access_log(item);
        },
        ItemView::MapBlock { .. } => {
            lemma_words_map_block(item);
        },
        ItemView::KeepaliveTimeout(..) => {
            lemma_name_plain(item);
        },
        ItemView::ProxySetHeader { .. } => {
            lemma_name_plain(item);
        },
        _ => {
            lemma_name_plain(item);
            lemma_toggle_words();
        },
    }
}

/// A directive that stands on one line is written as the line of its
/// words.
pub proof fn lemma_leaf_line(item: ItemView, p: Page)
    requires
        words_ok(item),
        !has_block(item),
        !(item is MapBlock),
    ensures
        render_item(item, p) == with_line(p, line_words(item)),
{
    match item {
        ItemView::ProxySetHeader { .. } => {
            lemma_set_header_line(item, p);
        },
        ItemView::KeepaliveTimeout(..) => {
            lemma_keepalive_line(item, p);
        },
        ItemView::AddHeader(..) => {
            lemma_add_header_line(item, p);
        },
        ItemView::Expires(..) => {
            lemma_expires_line(item, p);
        },
        ItemView::SetVar { .. } => {
            lemma_set_line(item, p);
        },
        ItemView::ErrorLog { .. } => {
            lemma_error_log_line(item, p);
        },
        ItemView::GzipStatic(..) => {
            lemma_gzip_static_line(item, p);
        },
        ItemView::ProxyHttpVersion(..) => {
            lemma_version_line(item, p);
        },
        ItemView::Index(..) => {
            lemma_index_line(item, p);
        },
        ItemView::ProxyIgnoreHeaders(..) => {
            lemma_ignore_headers_line(item, p);
        },
        ItemView::WorkerProcesses(..) => {
            crate::forms_words::lemma_workers_line(item, p);
        },
        ItemView::GzipProxied(..) => {
            crate::forms_words::lemma_gzip_proxied_line(item, p);
        },
        ItemView::ProxyNextUpstream(..) => {
            crate::forms_words::lemma_next_upstream_line(item, p);
        },
        ItemView::Rewrite(..) => {
            crate::forms_words::lemma_rewrite_line(item, p);
        },
        ItemView::Return(..) => {
            crate::forms_more::lemma_return_line(item, p);
        },
        ItemView::ServerName(..) => {
            crate::forms_more::lemma_server_name_line(item, p);
        },
        ItemView::Listen(..) => {
            crate::forms_options::lemma_listen_line(item, p);
        },
        ItemView::Allow(..) => {
            crate::forms_net::lemma_source_line(item, p);
        },
        ItemView::Deny(..) => {
            crate::forms_net::lemma_source_line(item, p);
        },
        ItemView::SetRealIpFrom(..) => {
            crate::forms_net::lemma_source_line(item, p);
        },
        ItemView::TryFiles(..) => {
            crate::forms_try::lemma_try_line(item, p);
        },
        ItemView::ErrorPage(..) => {
            crate::forms_page::lemma_page_line(item, p);
        },
        ItemView::ProxyCacheValid(..) => {
            crate::forms_cache::lemma_cache_line(item, p);
        },
        ItemView::AccessLog(..) => {
            crate::forms_log::lemma_log_line(item, p);
        },
        ItemView::MapBlock(..) => {},
        _ => {
            lemma_shape_line(item, p);
        },
    }
}

/// The page behind the line that opens the block of a directive.
pub open spec fn head_page(item: ItemView, p: Page) -> Page {
    with_head(
        if has_margin(item) {
            p.margin()
        } else {
            p
        },
        line_words(item),
    )
}

/// A directive with a block is written as the line that opens the block,
/// the directives of the block, and the closing brace.
pub proof fn lemma_block_line(item: ItemView, p: Page)
    requires
        words_ok(item),
        has_block(item),
    ensures
        render_item(item, p) == render_directives(
            item.children()->0,
            item.children()->0.len(),
            head_page(item, p),
        ).end_block(p.indent),
{
    match item {
        ItemView::Http(b) => {
            lemma_spaced_one("http"@);
            assert(block_head("http"@, p).start_block().text =~= head_page(item, p).text);
        },
        ItemView::Server(b) => {
            lemma_spaced_one("server"@);
            assert(block_head("server"@, p).start_block().text =~= head_page(item, p).text);
        },
        ItemView::Location(l) => {
            crate::forms_blocks::lemma_location_head(item, p);
        },
        ItemView::LimitExcept(l) => {
            crate::forms_blocks::lemma_limit_except_head(item, p);
        },
        ItemView::If(x) => {
            crate::forms_if::lemma_if_head(item, p);
        },
        _ => {},
    }
}

/// The grammar reads a directive that stands on one line from its
/// tokens, and what it reads is the directive but for the positions in
/// it.
pub proof fn lemma_leaf_parsed(t: Lexed, i: int, item: ItemView)
    requires
        words_ok(item),
        !has_block(item),
        !(item is MapBlock),
        has_tokens(t, i, item_tokens(item)),
    ensures
        item_spec(t, i) matches Some(Ok((back, j))) && j == i + item_tokens(item).len() && alike(
            item,
            back,
        ),
{
    match item {
        ItemView::ProxySetHeader { .. } => {
            lemma_set_header_parsed(t, i, item);
        },
        ItemView::KeepaliveTimeout(..) => {
            lemma_keepalive_parsed(t, i, item);
        },
        ItemView::AddHeader(..) => {
            lemma_add_header_parsed(t, i, item);
        },
        ItemView::Expires(..) => {
            lemma_expires_parsed(t, i, item);
        },
        ItemView::SetVar { .. } => {
            lemma_set_parsed(t, i, item);
        },
        ItemView::ErrorLog { .. } => {
            lemma_error_log_parsed(t, i, item);
        },
        ItemView::GzipStatic(..) => {
            lemma_gzip_static_parsed(t, i, item);
        },
        ItemView::ProxyHttpVersion(..) => {
            lemma_version_parsed(t, i, item);
        },
        ItemView::Index(..) => {
            lemma_index_parsed(t, i, item);
        },
        ItemView::ProxyIgnoreHeaders(..) => {
            lemma_ignore_headers_parsed(t, i, item);
        },
        ItemView::WorkerProcesses(..) => {
            crate::forms_words::lemma_workers_parsed(t, i, item);
        },
        ItemView::GzipProxied(..) => {
            crate::forms_words::lemma_gzip_proxied_parsed(t, i, item);
        },
        ItemView::ProxyNextUpstream(..) => {
            crate::forms_words::lemma_next_upstream_parsed(t, i, item);
        },
        ItemView::Rewrite(..) => {
            crate::forms_words::lemma_rewrite_parsed(t, i, item);
        },
        ItemView::Return(..) => {
            crate::forms_more::lemma_return_parsed(t, i, item);
        },
        ItemView::ServerName(..) => {
            crate::forms_more::lemma_server_name_parsed(t, i, item);
        },
        ItemView::Listen(..) => {
            crate::forms_options::lemma_listen_parsed(t, i, item);
        },
        ItemView::Allow(..) => {
            crate::forms_net::lemma_source_parsed(t, i, item);
        },
        ItemView::Deny(..) => {
            crate::forms_net::lemma_source_parsed(t, i, item);
        },
        ItemView::SetRealIpFrom(..) => {
            crate::forms_net::lemma_source_parsed(t, i, item);
        },
        ItemView::TryFiles(..) => {
            crate::forms_try::lemma_try_parsed(t, i, item);
        },
        ItemView::ErrorPage(..) => {
            crate::forms_page::lemma_page_parsed(t, i, item);
        },
        ItemView::ProxyCacheValid(..) => {
            crate::forms_cache::lemma_cache_parsed(t, i, item);
        },
        ItemView::AccessLog(..) => {
            crate::forms_log::lemma_log_parsed(t, i, item);
        },
        ItemView::MapBlock(..) => {},
        _ => {
            lemma_shape_parsed(t, i, item);
        },
    }
}

/// What the grammar holds of a directive with a block when it has read
/// the words before the block: the directive with the positions that its
/// values have in `t`.
pub open spec fn head_read(t: Lexed, i: int, item: ItemView) -> ItemView {
    match item {
        ItemView::If(x) => ItemView::If(
            crate::ast::IfView {
                condition: crate::forms_if::test_at(x.condition, t.position(i + 1)),
                ..x
            },
        ),
        _ => item,
    }
}

/// What else could stand where the block of the directive starts.
pub open spec fn block_names(item: ItemView) -> Seq<Seq<char>> {
    match item {
        ItemView::LimitExcept(_) => seq!["String"@],
        ItemView::If(_) => seq!["String"@],
        _ => Seq::empty(),
    }
}

/// The grammar reads the words before the block of a directive, and then
/// the block.
pub proof fn lemma_head_parsed(t: Lexed, i: int, item: ItemView)
    requires
        words_ok(item),
        has_block(item),
        has_tokens(t, i, string_tokens(line_words(item)).push(punct_token('{'))),
    ensures
        alike_here(item, head_read(t, i, item)),
        item_spec(t, i) == Some(
            match block_spec(t, i + line_words(item).len(), block_names(item)) {
                Ok((b, j)) => Ok::<_, ErrorView>(
                    (head_read(t, i, item).with_children(b.directives).with_span(b.position), j),
                ),
                Err(e) => Err(e),
            },
        ),
{
    let w = string_tokens(line_words(item)).push(punct_token('{'));
    assert(t.tokens[i + 0].token == w[0]);
    assert(w[0] == string_token(line_words(item)[0]));
    lemma_block_read(t, i);
    match item {
        ItemView::Http(b) => {},
        ItemView::Server(b) => {},
        ItemView::Location(l) => {
            crate::forms_blocks::lemma_headed_read(t, i);
            crate::forms_blocks::lemma_location_parsed(t, i, item);
        },
        ItemView::LimitExcept(l) => {
            crate::forms_blocks::lemma_headed_read(t, i);
            crate::forms_blocks::lemma_limit_except_parsed(t, i, item);
        },
        ItemView::If(x) => {
            crate::forms_if::lemma_if_read(t, i);
            crate::forms_if::lemma_if_parsed(t, i, item);
            let read = head_read(t, i, item);
            assert(read.values() =~= seq![
                crate::forms_if::test_at(x.condition, t.position(i + 1)).value(),
            ]);
            assert(item.values() =~= seq![x.condition.value()]);
        },
        _ => {},
    }
}

/// A directive that is like a directive that is read back as it is
/// written has the same words, and is read back as it is written.
pub proof fn lemma_alike_words(a: ItemView, b: ItemView)
    requires
        words_ok(a),
        alike_here(a, b),
    ensures
        words_ok(b),
        line_words(b) == line_words(a),
        has_block(b) == has_block(a),
        has_margin(b) == has_margin(a),
{
    match a {
        ItemView::Http(_) => {},
        ItemView::Server(_) => {},
        ItemView::ProxySetHeader { .. } => {
            lemma_set_header_alike(a, b);
        },
        ItemView::KeepaliveTimeout(..) => {
            lemma_keepalive_alike(a, b);
        },
        ItemView::AddHeader(..) => {
            lemma_add_header_alike(a, b);
        },
        ItemView::Expires(..) => {
            lemma_expires_alike(a, b);
        },
        ItemView::SetVar { .. } => {
            lemma_set_alike(a, b);
        },
        ItemView::ErrorLog { .. } => {
            lemma_error_log_alike(a, b);
        },
        ItemView::GzipStatic(..) => {},
        ItemView::ProxyHttpVersion(..) => {},
        ItemView::Index(..) => {
            lemma_index_alike(a, b);
        },
        ItemView::ProxyIgnoreHeaders(..) => {},
        ItemView::Location(_) => {},
        ItemView::LimitExcept(_) => {},
        ItemView::WorkerProcesses(..) => {},
        ItemView::GzipProxied(..) => {},
        ItemView::ProxyNextUpstream(..) => {},
        ItemView::Rewrite(..) => {
            crate::forms_words::lemma_rewrite_alike(a, b);
        },
        ItemView::Return(..) => {
            crate::forms_more::lemma_return_alike(a, b);
        },
        ItemView::ServerName(..) => {},
        ItemView::Listen(..) => {},
        ItemView::If(x) => {
            crate::forms_if::lemma_if_alike(a, b);
        },
        ItemView::Allow(..) => {},
        ItemView::Deny(..) => {},
        ItemView::SetRealIpFrom(..) => {},
        ItemView::TryFiles(..) => {
            crate::forms_try::lemma_try_alike(a, b);
        },
        ItemView::ErrorPage(..) => {
            crate::forms_page::lemma_page_alike(a, b);
        },
        ItemView::ProxyCacheValid(..) => {
            crate::forms_cache::lemma_cache_alike(a, b);
        },
        ItemView::AccessLog(..) => {
            crate::forms_log::lemma_log_alike(a, b);
        },
        ItemView::MapBlock(m) => {
            crate::forms_map::lemma_map_alike(m, b);
        },
        _ => {
            lemma_shape_alike(a, b);
        },
    }
}

} // verus!
