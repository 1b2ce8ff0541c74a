//! The directives whose arguments are words from a list, or a number: how
//! each is written, and that it is read back.

use vstd::prelude::*;
use crate::ast::{GzipProxied, ItemView, ProxyNextUpstreamFlag, RewriteView, WorkerProcesses};
use crate::display::{
    flag_text, render_flags, render_gzip_proxied, render_item, render_next_upstream,
    render_proxied, render_rewrite, render_workers,
};
use crate::error::ErrorView;
use crate::format::Page;
use crate::forms::{alike, alike_here, has_tokens, item_tokens, line_words, words_ok};
use crate::forms_kinds::{
    joined, lemma_line_joined, lemma_line_tokens, lemma_value_read, placed,
};
use crate::forms_reads::lemma_named_read;
use crate::grammar::item_spec;
use crate::gzip::{proxied_of, proxied_run, proxied_words};
use crate::helpers::lemma_first_index_at;
use crate::layout_laws::{
    lemma_spaced_one, lemma_spaced_two, punct_token, spaced, string_tokens, with_line,
};
use crate::lex_laws::{is_simple_word, is_word, lemma_simple_word};
use crate::number_laws::{lemma_decimal_digits, lemma_decimal_read};
use crate::proxy::{upstream_of, upstream_run, upstream_words};
use crate::rewrite::{flag_of, flag_words};
use crate::text::decimal;
use crate::tokenizer::{Kind, Lexed};
use crate::value::value_text;

verus! {

/// `worker_processes` is written as the line of its words.
pub proof fn lemma_workers_line(item: ItemView, p: Page)
    requires
        item is WorkerProcesses,
    ensures
        render_item(item, p) == with_line(p, line_words(item)),
{
    let ws = line_words(item);
    reveal_strlit("worker_processes auto");
    reveal_strlit("worker_processes ");
    reveal_strlit("worker_processes");
    reveal_strlit("auto");
    assert("worker_processes auto"@ =~= "worker_processes"@ + seq![' '] + "auto"@);
    assert("worker_processes "@ =~= "worker_processes"@ + seq![' ']);
    assert(ws.drop_last() =~= seq!["worker_processes"@]);
    lemma_spaced_one("worker_processes"@);
    assert(render_item(item, p) == render_workers(item->WorkerProcesses_0, p));
    assert(render_workers(item->WorkerProcesses_0, p).text =~= with_line(p, ws).text);
}

/// `worker_processes` is read back from its tokens.
pub proof fn lemma_workers_parsed(t: Lexed, i: int, item: ItemView)
    requires
        item is WorkerProcesses,
        has_tokens(t, i, item_tokens(item)),
    ensures
        item_spec(t, i) matches Some(Ok((back, j))) && j == i + item_tokens(item).len() && alike(
            item,
            back,
        ),
{
    let ws = line_words(item);
    lemma_line_tokens(t, i, ws);
    assert(t.text(i + 0) == ws[0]);
    assert(t.text(i + 1) == ws[1]);
    lemma_named_read(t, i);
    reveal_strlit("auto");
    match item->WorkerProcesses_0 {
        WorkerProcesses::Auto => {},
        WorkerProcesses::Exact(n) => {
            lemma_decimal_digits(n as nat);
            lemma_decimal_read(n as nat, 0, u32::MAX as int);
            assert(decimal(n as nat)[0] != 'a');
        },
    }
    assert(item_spec(t, i) == Some(Ok::<_, ErrorView>((item, i + 3))));
}

/// The words for the settings of `gzip_proxied` are different words that
/// are read as one token each.
pub proof fn lemma_proxied_words()
    ensures
        forall|i: int, j: int|
            0 <= i < j < proxied_words().len() ==> #[trigger] proxied_words()[i]
                != #[trigger] proxied_words()[j],
        forall|i: int| 0 <= i < proxied_words().len() ==> is_word(#[trigger] proxied_words()[i]),
        proxied_words().len() == 9,
{
    reveal_strlit("off");
    reveal_strlit("expired");
    reveal_strlit("no-cache");
    reveal_strlit("no-store");
    reveal_strlit("private");
    reveal_strlit("no_last_modified");
    reveal_strlit("no_etag");
    reveal_strlit("auth");
    reveal_strlit("any");
    let ws = proxied_words();
    assert(ws[0] == "off"@ && ws[1] == "expired"@ && ws[2] == "no-cache"@);
    assert(ws[3] == "no-store"@ && ws[4] == "private"@ && ws[5] == "no_last_modified"@);
    assert(ws[6] == "no_etag"@ && ws[7] == "auth"@ && ws[8] == "any"@);
    assert forall|i: int| 0 <= i < ws.len() implies is_word(#[trigger] ws[i]) by {
        assert(is_simple_word(ws[i]));
        lemma_simple_word(ws[i]);
    }
    assert forall|i: int, j: int| 0 <= i < j < ws.len() implies #[trigger] ws[i]
        != #[trigger] ws[j] by {
        assert(ws[i].len() != ws[j].len() || ws[i][0] != ws[j][0] || ws[i][3] != ws[j][3]);
    }
}

/// The words of the settings `list`.
pub open spec fn proxied_texts(list: Seq<GzipProxied>) -> Seq<Seq<char>> {
    list.map_values(|x: GzipProxied| proxied_words()[x.index()])
}

/// Writing settings of `gzip_proxied` adds their words, each with a
/// blank before it.
pub proof fn lemma_proxied_joined(list: Seq<GzipProxied>, n: int, p: Page)
    requires
        0 <= n <= list.len(),
    ensures
        render_proxied(list, n, p).text == p.text + joined(proxied_texts(list), n),
        render_proxied(list, n, p).indent == p.indent,
        render_proxied(list, n, p).step == p.step,
    decreases n,
{
    if n > 0 {
        lemma_proxied_joined(list, n - 1, p);
        assert(render_proxied(list, n, p).text =~= p.text + joined(proxied_texts(list), n));
    } else {
        assert(p.text + joined(proxied_texts(list), n) =~= p.text);
    }
}

/// `gzip_proxied` is written as the line of its words.
pub proof fn lemma_gzip_proxied_line(item: ItemView, p: Page)
    requires
        item is GzipProxied,
    ensures
        render_item(item, p) == with_line(p, line_words(item)),
{
    let list = item->GzipProxied_0;
    lemma_line_joined("gzip_proxied"@, proxied_texts(list));
    lemma_proxied_joined(list, list.len() as int, p.indent().write("gzip_proxied"@));
    assert(render_item(item, p) == render_gzip_proxied(list, p));
    assert(render_gzip_proxied(list, p).text =~= with_line(p, line_words(item)).text);
}

/// Whether the tokens from `i` on are strings with the texts `ws`.
pub open spec fn holds_words(t: Lexed, i: int, ws: Seq<Seq<char>>) -> bool {
    &&& forall|m: int| 0 <= m < ws.len() ==> #[trigger] t.is_string(i + m)
    &&& forall|m: int| 0 <= m < ws.len() ==> t.text(i + m) == #[trigger] ws[m]
}

/// The tokens of a line hold the words behind the name.
pub proof fn lemma_line_holds(t: Lexed, i: int, name: Seq<char>, ws: Seq<Seq<char>>)
    requires
        has_tokens(t, i, string_tokens(seq![name] + ws).push(punct_token(';'))),
    ensures
        t.is_string(i),
        t.text(i) == name,
        holds_words(t, i + 1, ws),
        !t.is_string(i + 1 + ws.len()),
        t.is_kind(i + 1 + ws.len(), Kind::Semicolon),
        0 <= i,
        i + 1 + ws.len() < t.tokens.len(),
{
    let all = seq![name] + ws;
    lemma_line_tokens(t, i, all);
    assert(t.text(i + 0) == all[0]);
    let j = i + 1;
    assert forall|m: int| 0 <= m < ws.len() implies #[trigger] t.is_string(j + m) by {
        assert(t.is_string(i + (1 + m)) && t.text(i + (1 + m)) == all[1 + m]);
        assert(i + (1 + m) == j + m);
    }
    assert forall|m: int| 0 <= m < ws.len() implies t.text(j + m) == #[trigger] ws[m] by {
        assert(t.is_string(i + (1 + m)) && t.text(i + (1 + m)) == all[1 + m]);
        assert(all[1 + m] == ws[m]);
        assert(i + (1 + m) == j + m);
    }
}

/// The grammar reads the settings of `gzip_proxied` from their words.
pub proof fn lemma_proxied_read(t: Lexed, i: int, list: Seq<GzipProxied>, k: int)
    requires
        0 <= k <= list.len(),
        0 <= i,
        holds_words(t, i, proxied_texts(list)),
        !t.is_string(i + list.len()),
    ensures
        proxied_run(t, i + k, list.take(k)) == (list, i + list.len()),
    decreases list.len() - k,
{
    if k < list.len() {
        lemma_proxied_words();
        let x = list[k];
        assert(t.is_string(i + k));
        assert(t.text(i + k) == proxied_texts(list)[k]);
        lemma_first_index_at(proxied_words(), x.index(), 0);
        assert(proxied_of(x.index()) == x);
        assert(list.take(k).push(x) =~= list.take(k + 1));
        lemma_proxied_read(t, i, list, k + 1);
    } else {
        assert(list.take(k) =~= list);
    }
}

/// `gzip_proxied` is read back from its tokens.
pub proof fn lemma_gzip_proxied_parsed(t: Lexed, i: int, item: ItemView)
    requires
        item is GzipProxied,
        item->GzipProxied_0.len() > 0,
        has_tokens(t, i, item_tokens(item)),
    ensures
        item_spec(t, i) matches Some(Ok((back, j))) && j == i + item_tokens(item).len() && alike(
            item,
            back,
        ),
{
    let list = item->GzipProxied_0;
    let ws = line_words(item);
    lemma_line_holds(t, i, "gzip_proxied"@, proxied_texts(list));
    lemma_named_read(t, i);
    assert(list.take(0) =~= Seq::<GzipProxied>::empty());
    lemma_proxied_read(t, i + 1, list, 0);
    assert(item_spec(t, i) == Some(Ok::<_, ErrorView>((item, i + 2 + list.len()))));
}

/// The words for the cases of `proxy_next_upstream` are different
/// words that are read as one token each.
pub proof fn lemma_upstream_words()
    ensures
        forall|i: int, j: int|
            0 <= i < j < upstream_words().len() ==> #[trigger] upstream_words()[i]
                != #[trigger] upstream_words()[j],
        forall|i: int| 0 <= i < upstream_words().len() ==> is_word(#[trigger] upstream_words()[i]),
        upstream_words().len() == 12,
{
    reveal_strlit("error");
    reveal_strlit("timeout");
    reveal_strlit("invalid_header");
    reveal_strlit("http_500");
    reveal_strlit("http_502");
    reveal_strlit("http_503");
    reveal_strlit("http_504");
    reveal_strlit("http_403");
    reveal_strlit("http_404");
    reveal_strlit("http_429");
    reveal_strlit("non_idempotent");
    reveal_strlit("off");
    let ws = upstream_words();
    assert(ws[0] == "error"@ && ws[1] == "timeout"@ && ws[2] == "invalid_header"@);
    assert(ws[3] == "http_500"@ && ws[4] == "http_502"@ && ws[5] == "http_503"@);
    assert(ws[6] == "http_504"@ && ws[7] == "http_403"@ && ws[8] == "http_404"@);
    assert(ws[9] == "http_429"@ && ws[10] == "non_idempotent"@ && ws[11] == "off"@);
    assert forall|i: int| 0 <= i < ws.len() implies is_word(#[trigger] ws[i]) by {
        assert(is_simple_word(ws[i]));
        lemma_simple_word(ws[i]);
    }
    assert forall|i: int, j: int| 0 <= i < j < ws.len() implies #[trigger] ws[i]
        != #[trigger] ws[j] by {
        let a = ws[i];
        let b = ws[j];
        assert(a.len() != b.len() || a[a.len() - 1] != b[b.len() - 1] || a[a.len() - 3] != b[b.len()
            - 3]);
    }
}

/// The words of the cases `list`.
pub open spec fn upstream_texts(list: Seq<ProxyNextUpstreamFlag>) -> Seq<Seq<char>> {
    list.map_values(|x: ProxyNextUpstreamFlag| upstream_words()[x.index()])
}

/// Writing cases of `proxy_next_upstream` adds their words, each with a
/// blank before it.
pub proof fn lemma_upstream_joined(list: Seq<ProxyNextUpstreamFlag>, n: int, p: Page)
    requires
        0 <= n <= list.len(),
    ensures
        render_flags(list, n, p).text == p.text + joined(upstream_texts(list), n),
        render_flags(list, n, p).indent == p.indent,
        render_flags(list, n, p).step == p.step,
    decreases n,
{
    if n > 0 {
        lemma_upstream_joined(list, n - 1, p);
        assert(render_flags(list, n, p).text =~= p.text + joined(upstream_texts(list), n));
    } else {
        assert(p.text + joined(upstream_texts(list), n) =~= p.text);
    }
}

/// `proxy_next_upstream` is written as the line of its words.
pub proof fn lemma_next_upstream_line(item: ItemView, p: Page)
    requires
        item is ProxyNextUpstream,
    ensures
        render_item(item, p) == with_line(p, line_words(item)),
{
    let list = item->ProxyNextUpstream_0;
    lemma_line_joined("proxy_next_upstream"@, upstream_texts(list));
    lemma_upstream_joined(list, list.len() as int, p.indent().write("proxy_next_upstream"@));
    assert(render_item(item, p) == render_next_upstream(list, p));
    assert(render_next_upstream(list, p).text =~= with_line(p, line_words(item)).text);
}

/// The grammar reads the cases of `proxy_next_upstream` from their
/// words.
pub proof fn lemma_upstream_read(t: Lexed, i: int, list: Seq<ProxyNextUpstreamFlag>, k: int)
    requires
        0 <= k <= list.len(),
        0 <= i,
        holds_words(t, i, upstream_texts(list)),
        !t.is_string(i + list.len()),
    ensures
        upstream_run(t, i + k, list.take(k)) == Ok::<_, ErrorView>((list, i + list.len())),
    decreases list.len() - k,
{
    if k < list.len() {
        lemma_upstream_words();
        let x = list[k];
        assert(t.is_string(i + k));
        assert(t.text(i + k) == upstream_texts(list)[k]);
        lemma_first_index_at(upstream_words(), x.index(), 0);
        assert(upstream_of(x.index()) == x);
        assert(list.take(k).push(x) =~= list.take(k + 1));
        lemma_upstream_read(t, i, list, k + 1);
    } else {
        assert(list.take(k) =~= list);
    }
}

/// `proxy_next_upstream` is read back from its tokens.
pub proof fn lemma_next_upstream_parsed(t: Lexed, i: int, item: ItemView)
    requires
        item is ProxyNextUpstream,
        item->ProxyNextUpstream_0.len() > 0,
        has_tokens(t, i, item_tokens(item)),
    ensures
        item_spec(t, i) matches Some(Ok((back, j))) && j == i + item_tokens(item).len() && alike(
            item,
            back,
        ),
{
    let list = item->ProxyNextUpstream_0;
    let ws = line_words(item);
    lemma_line_holds(t, i, "proxy_next_upstream"@, upstream_texts(list));
    lemma_named_read(t, i);
    assert(list.take(0) =~= Seq::<ProxyNextUpstreamFlag>::empty());
    lemma_upstream_read(t, i + 1, list, 0);
    assert(upstream_texts(list)[0] == upstream_words()[list[0].index()]);
    assert(t.is_string(i + 1 + 0));
    assert(item_spec(t, i) == Some(Ok::<_, ErrorView>((item, i + 2 + list.len()))));
}

/// The words for the flags of `rewrite` are different words that are
/// read as one token each.
pub proof fn lemma_flag_words()
    ensures
        forall|i: int, j: int|
            0 <= i < j < flag_words().len() ==> #[trigger] flag_words()[i]
                != #[trigger] flag_words()[j],
        forall|i: int| 0 <= i < flag_words().len() ==> is_word(#[trigger] flag_words()[i]),
        flag_words().len() == 4,
        " last"@ == seq![' '] + "last"@,
        " break"@ == seq![' '] + "break"@,
        " redirect"@ == seq![' '] + "redirect"@,
        " permanent"@ == seq![' '] + "permanent"@,
        ""@ == Seq::<char>::empty(),
        "rewrite "@ == "rewrite"@ + seq![' '],
{
    reveal_strlit("last");
    reveal_strlit("break");
    reveal_strlit("redirect");
    reveal_strlit("permanent");
    reveal_strlit(" last");
    reveal_strlit(" break");
    reveal_strlit(" redirect");
    reveal_strlit(" permanent");
    reveal_strlit("");
    reveal_strlit("rewrite ");
    reveal_strlit("rewrite");
    let ws = flag_words();
    assert(ws[0] == "last"@ && ws[1] == "break"@ && ws[2] == "redirect"@ && ws[3]
        == "permanent"@);
    assert forall|i: int| 0 <= i < ws.len() implies is_word(#[trigger] ws[i]) by {
        assert(is_simple_word(ws[i]));
        lemma_simple_word(ws[i]);
    }
    assert forall|i: int, j: int| 0 <= i < j < ws.len() implies #[trigger] ws[i]
        != #[trigger] ws[j] by {
        assert(ws[i].len() != ws[j].len());
    }
    assert(" last"@ =~= seq![' '] + "last"@);
    assert(" break"@ =~= seq![' '] + "break"@);
    assert(" redirect"@ =~= seq![' '] + "redirect"@);
    assert(" permanent"@ =~= seq![' '] + "permanent"@);
    assert(""@ =~= Seq::<char>::empty());
    assert("rewrite "@ =~= "rewrite"@ + seq![' ']);
}

/// `rewrite` is written as the line of its words.
pub proof fn lemma_rewrite_line(item: ItemView, p: Page)
    requires
        item is Rewrite,
    ensures
        render_item(item, p) == with_line(p, line_words(item)),
{
    let ws = line_words(item);
    let rw = item->Rewrite_0;
    let a = value_text(rw.replacement.data);
    lemma_flag_words();
    lemma_spaced_two("rewrite"@, rw.regex);
    match rw.flag {
        Some(f) => {
            assert(ws.drop_last() =~= seq!["rewrite"@, rw.regex, a]);
            assert(seq!["rewrite"@, rw.regex, a].drop_last() =~= seq!["rewrite"@, rw.regex]);
            assert(spaced(seq!["rewrite"@, rw.regex, a]) =~= spaced(seq!["rewrite"@, rw.regex])
                + a + seq![' ']);
            assert(flag_text(rw.flag) =~= seq![' '] + flag_words()[f.index()]);
        },
        None => {
            assert(ws.drop_last() =~= seq!["rewrite"@, rw.regex]);
        },
    }
    assert(render_item(item, p) == render_rewrite(rw, p));
    assert(render_rewrite(rw, p).text =~= with_line(p, ws).text);
}

/// `rewrite` is read back from its tokens.
#[verifier::rlimit(40)]
pub proof fn lemma_rewrite_parsed(t: Lexed, i: int, item: ItemView)
    requires
        item is Rewrite,
        words_ok(item),
        has_tokens(t, i, item_tokens(item)),
    ensures
        item_spec(t, i) matches Some(Ok((back, j))) && j == i + item_tokens(item).len() && alike(
            item,
            back,
        ),
{
    let ws = line_words(item);
    let rw = item->Rewrite_0;
    lemma_line_tokens(t, i, ws);
    assert(t.text(i + 0) == ws[0]);
    assert(t.text(i + 1) == ws[1]);
    assert(t.text(i + 2) == ws[2]);
    lemma_named_read(t, i);
    lemma_flag_words();
    lemma_value_read(t, i + 2, rw.replacement, seq!["String"@]);
    let back = ItemView::Rewrite(
        RewriteView { replacement: placed(t, i + 2, rw.replacement), ..rw },
    );
    match rw.flag {
        Some(f) => {
            assert(t.text(i + 3) == ws[3]);
            lemma_first_index_at(flag_words(), f.index(), 0);
            assert(flag_of(f.index()) == f);
            assert(crate::rewrite::rewrite_spec(t, i) == Ok::<_, ErrorView>((back, i + 5)));
        },
        None => {
            assert(crate::rewrite::rewrite_spec(t, i) == Ok::<_, ErrorView>((back, i + 4)));
        },
    }
    assert(back.values() =~= seq![placed(t, i + 2, rw.replacement)]);
    assert(item.values() =~= seq![rw.replacement]);
}

/// A directive that is like a `rewrite` has the same words.
pub proof fn lemma_rewrite_alike(a: ItemView, b: ItemView)
    requires
        a is Rewrite,
        words_ok(a),
        alike_here(a, b),
    ensures
        b is Rewrite,
        words_ok(b),
        line_words(b) == line_words(a),
{
    let va = a.values();
    let vb = b.values();
    assert(va =~= seq![a->Rewrite_0.replacement]);
    assert(vb[0].data == va[0].data);
}

} // verus!
