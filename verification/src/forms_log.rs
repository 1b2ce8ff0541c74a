//! `access_log`: how it is written, and that it is read back.

use vstd::prelude::*;
use crate::ast::{AccessLogOptionsView, AccessLogView, ItemView};
use crate::display::{render_access_log, render_item, render_log_options, render_value};
use crate::error::ErrorView;
use crate::format::Page;
use crate::forms::{alike, alike_here, has_tokens, item_tokens, lexable};
use crate::forms_kinds::{joined, lemma_line_joined, lemma_value_read};
use crate::forms_reads::lemma_named_read;
use crate::forms_try::lemma_joined_same;
use crate::forms_words::{holds_words, lemma_line_holds};
use crate::grammar::item_spec;
use crate::helpers::semi_spec;
use crate::layout_laws::with_line;
use crate::lex_laws::{is_word, lemma_simple_word, starts_word};
use crate::log::{access_log_spec, param_spec, params_spec};
use crate::number_laws::{lemma_decimal_digits, lemma_decimal_read};
use crate::text::{decimal, digit_value, is_prefix};
use crate::tokenizer::Lexed;
use crate::value::{value_text, ValueView};
use crate::value_laws::{lemma_value_round_trip, readable};

verus! {

/// The words `ws`, and behind them the word `w` where there is one.
pub open spec fn with_word(ws: Seq<Seq<char>>, w: Option<Seq<char>>) -> Seq<Seq<char>> {
    match w {
        Some(x) => ws.push(x),
        None => ws,
    }
}

/// The text `x` behind `prefix`, where there is one.
pub open spec fn prefixed(prefix: Seq<char>, x: Option<Seq<char>>) -> Option<Seq<char>> {
    match x {
        Some(s) => Some(prefix + s),
        None => None,
    }
}

/// The word that asks for compression, where it is asked for.
pub open spec fn gzip_word(g: Option<Option<u8>>) -> Option<Seq<char>> {
    match g {
        Some(Some(level)) => Some("gzip="@ + decimal(level as nat)),
        Some(None) => Some("gzip"@),
        None => None,
    }
}

/// The word that holds the condition, where there is one.
pub open spec fn condition_word(c: Option<ValueView>) -> Option<Seq<char>> {
    match c {
        Some(v) => Some("if="@ + value_text(v.data)),
        None => None,
    }
}

/// The words of an `access_log` behind its name, up to the format.
pub open spec fn log_head(o: AccessLogOptionsView) -> Seq<Seq<char>> {
    with_word(seq![value_text(o.path.data)], o.format)
}

/// The words of an `access_log` behind its name, up to the word that asks
/// for compression.
pub open spec fn log_middle(o: AccessLogOptionsView) -> Seq<Seq<char>> {
    with_word(with_word(log_head(o), prefixed("buffer="@, o.buffer)), gzip_word(o.gzip))
}

/// The words of an `access_log` behind its name.
pub open spec fn log_all(o: AccessLogOptionsView) -> Seq<Seq<char>> {
    with_word(
        with_word(log_middle(o), prefixed("flush="@, o.flush)),
        condition_word(o.condition),
    )
}

/// The words of an `access_log`.
pub open spec fn log_words(l: AccessLogView) -> Seq<Seq<char>> {
    match l {
        AccessLogView::Off => seq!["access_log"@, "off"@],
        AccessLogView::On(o) => seq!["access_log"@] + log_all(o),
    }
}

/// Whether an `access_log` is read back as it is written: its path is
/// read back as it is written and is not written as `off`; it has a
/// format where it has another option; the format and each option is one
/// token; and its condition is read back as it is written.
pub open spec fn log_ok(l: AccessLogView) -> bool {
    match l {
        AccessLogView::Off => true,
        AccessLogView::On(o) => {
            &&& lexable(o.path)
            &&& value_text(o.path.data) != "off"@
            &&& match o.format {
                Some(f) => is_word(f),
                None => o.buffer is None && o.gzip is None && o.flush is None && o.condition
                    is None,
            }
            &&& o.buffer matches Some(x) ==> is_word("buffer="@ + x)
            &&& o.flush matches Some(x) ==> is_word("flush="@ + x)
            &&& o.condition matches Some(v) ==> readable(v.data) && is_word(
                "if="@ + value_text(v.data),
            )
        },
    }
}

/// The prefixes of the options, as they are written.
pub proof fn lemma_log_prefixes()
    ensures
        "if="@ == seq!['i', 'f', '='],
        "gzip"@ == seq!['g', 'z', 'i', 'p'],
        "gzip="@ == seq!['g', 'z', 'i', 'p', '='],
        "buffer="@ == seq!['b', 'u', 'f', 'f', 'e', 'r', '='],
        "flush="@ == seq!['f', 'l', 'u', 's', 'h', '='],
{
    reveal_strlit("if=");
    reveal_strlit("gzip");
    reveal_strlit("gzip=");
    reveal_strlit("buffer=");
    reveal_strlit("flush=");
    assert("if="@ =~= seq!['i', 'f', '=']);
    assert("gzip"@ =~= seq!['g', 'z', 'i', 'p']);
    assert("gzip="@ =~= seq!['g', 'z', 'i', 'p', '=']);
    assert("buffer="@ =~= seq!['b', 'u', 'f', 'f', 'e', 'r', '=']);
    assert("flush="@ =~= seq!['f', 'l', 'u', 's', 'h', '=']);
}

/// The word that asks for compression is one token.
pub proof fn lemma_gzip_word(g: Option<Option<u8>>)
    ensures
        gzip_word(g) matches Some(w) ==> is_word(w),
{
    lemma_log_prefixes();
    match g {
        Some(Some(level)) => {
            let d = decimal(level as nat);
            let w = "gzip="@ + d;
            lemma_decimal_digits(level as nat);
            assert forall|k: int| 0 <= k < w.len() implies starts_word(#[trigger] w[k]) by {
                if k >= 5 {
                    assert(w[k] == d[k - 5]);
                    assert(digit_value(d[k - 5]) is Some);
                }
            }
            lemma_simple_word(w);
        },
        Some(None) => {
            lemma_simple_word("gzip"@);
        },
        None => {},
    }
}

/// The words behind the name of an `access_log` that is read back are
/// one token each.
pub proof fn lemma_log_words(o: AccessLogOptionsView)
    requires
        log_ok(AccessLogView::On(o)),
    ensures
        forall|k: int| 0 <= k < log_all(o).len() ==> is_word(#[trigger] log_all(o)[k]),
{
    lemma_gzip_word(o.gzip);
    let a = log_head(o);
    let b = with_word(a, prefixed("buffer="@, o.buffer));
    let c = log_middle(o);
    let d = with_word(c, prefixed("flush="@, o.flush));
    let e = log_all(o);
    assert forall|k: int| 0 <= k < a.len() implies is_word(#[trigger] a[k]) by {}
    assert forall|k: int| 0 <= k < b.len() implies is_word(#[trigger] b[k]) by {
        if k < a.len() {
            assert(b[k] == a[k]);
        }
    }
    assert forall|k: int| 0 <= k < c.len() implies is_word(#[trigger] c[k]) by {
        if k < b.len() {
            assert(c[k] == b[k]);
        }
    }
    assert forall|k: int| 0 <= k < d.len() implies is_word(#[trigger] d[k]) by {
        if k < c.len() {
            assert(d[k] == c[k]);
        }
    }
    assert forall|k: int| 0 <= k < e.len() implies is_word(#[trigger] e[k]) by {
        if k < d.len() {
            assert(e[k] == d[k]);
        }
    }
}

/// The text of a word that may follow: a blank and the word, or nothing.
pub open spec fn word_text(w: Option<Seq<char>>) -> Seq<char> {
    match w {
        Some(x) => seq![' '] + x,
        None => Seq::empty(),
    }
}

/// The words of a list with one more word, each with a blank before it,
/// are those of the list and then the word.
pub proof fn lemma_joined_word(ws: Seq<Seq<char>>, w: Option<Seq<char>>)
    ensures
        joined(with_word(ws, w), with_word(ws, w).len() as int) == joined(ws, ws.len() as int)
            + word_text(w),
{
    match w {
        Some(x) => {
            let all = ws.push(x);
            assert forall|k: int| 0 <= k < ws.len() implies ws[k] == all[k] by {}
            lemma_joined_same(ws, all, ws.len() as int);
            assert(all[ws.len() as int] == x);
            assert(joined(all, all.len() as int) =~= joined(ws, ws.len() as int) + word_text(w));
        },
        None => {
            assert(joined(ws, ws.len() as int) + word_text(w) =~= joined(ws, ws.len() as int));
        },
    }
}

/// The text `start` with the options of an `access_log` behind it, each
/// with a blank before it.
pub open spec fn with_options(start: Seq<char>, o: AccessLogOptionsView) -> Seq<char> {
    start + word_text(o.format) + word_text(prefixed("buffer="@, o.buffer)) + word_text(
        gzip_word(o.gzip),
    ) + word_text(prefixed("flush="@, o.flush)) + word_text(condition_word(o.condition))
}

/// The options behind a text of two parts stand behind the second part.
pub proof fn lemma_with_options(x: Seq<char>, y: Seq<char>, o: AccessLogOptionsView)
    ensures
        with_options(x + y, o) == x + with_options(y, o),
{
    assert(with_options(x + y, o) =~= x + with_options(y, o));
}

/// The options of an `access_log` are written as their words, each with a
/// blank before it.
pub proof fn lemma_log_options(o: AccessLogOptionsView, p: Page)
    ensures
        render_log_options(o, p).text == with_options(p.text, o),
        render_log_options(o, p).indent == p.indent,
        render_log_options(o, p).step == p.step,
{
    reveal_strlit(" buffer=");
    reveal_strlit(" gzip=");
    reveal_strlit(" gzip");
    reveal_strlit(" flush=");
    reveal_strlit(" if=");
    lemma_log_prefixes();
    assert(" buffer="@ =~= seq![' '] + "buffer="@);
    assert(" gzip="@ =~= seq![' '] + "gzip="@);
    assert(" gzip"@ =~= seq![' '] + "gzip"@);
    assert(" flush="@ =~= seq![' '] + "flush="@);
    assert(" if="@ =~= seq![' '] + "if="@);
    let a = match o.format {
        Some(x) => p.put(' ').write(x),
        None => p,
    };
    assert(a.text =~= p.text + word_text(o.format));
    let b = match o.buffer {
        Some(x) => a.write(" buffer="@).write(x),
        None => a,
    };
    assert(b.text =~= a.text + word_text(prefixed("buffer="@, o.buffer)));
    let c = match o.gzip {
        Some(Some(level)) => b.write(" gzip="@).write(decimal(level as nat)),
        Some(None) => b.write(" gzip"@),
        None => b,
    };
    assert(c.text =~= b.text + word_text(gzip_word(o.gzip)));
    let d = match o.flush {
        Some(x) => c.write(" flush="@).write(x),
        None => c,
    };
    assert(d.text =~= c.text + word_text(prefixed("flush="@, o.flush)));
    let e = match o.condition {
        Some(v) => render_value(v, d.write(" if="@)),
        None => d,
    };
    assert(e.text =~= d.text + word_text(condition_word(o.condition)));
    assert(render_log_options(o, p) == e);
}

/// The words behind the name of an `access_log`, each with a blank before
/// it, are the path and the options.
pub proof fn lemma_log_joined(o: AccessLogOptionsView)
    ensures
        joined(log_all(o), log_all(o).len() as int) == with_options(
            seq![' '] + value_text(o.path.data),
            o,
        ),
{
    let w0 = seq![value_text(o.path.data)];
    let w1 = log_head(o);
    let w2 = with_word(w1, prefixed("buffer="@, o.buffer));
    let w3 = log_middle(o);
    let w4 = with_word(w3, prefixed("flush="@, o.flush));
    let start = seq![' '] + value_text(o.path.data);
    lemma_joined_one(value_text(o.path.data));
    lemma_joined_word(w0, o.format);
    lemma_joined_word(w1, prefixed("buffer="@, o.buffer));
    lemma_joined_word(w2, gzip_word(o.gzip));
    lemma_joined_word(w3, prefixed("flush="@, o.flush));
    lemma_joined_word(w4, condition_word(o.condition));
}

/// One word with a blank before it.
pub proof fn lemma_joined_one(w: Seq<char>)
    ensures
        joined(seq![w], 1) == seq![' '] + w,
{
    assert(joined(seq![w], 0) =~= Seq::<char>::empty());
    assert(joined(seq![w], 1) =~= seq![' '] + w);
}

/// An `access_log` with a path is written as the line of its words.
pub proof fn lemma_log_on(o: AccessLogOptionsView, p: Page)
    ensures
        render_access_log(AccessLogView::On(o), p) == with_line(
            p,
            seq!["access_log"@] + log_all(o),
        ),
{
    let name = "access_log"@;
    reveal_strlit("access_log ");
    reveal_strlit("access_log");
    assert("access_log "@ =~= name + seq![' ']);
    let start = render_value(o.path, p.indent().write("access_log "@));
    let path = value_text(o.path.data);
    let head = p.indent().text + name;
    let tail = seq![' '] + path;
    assert(start.text =~= head + tail);
    lemma_log_options(o, start);
    let written = render_log_options(o, start);
    let end = seq![';', '\n'];
    lemma_with_options(head, tail, o);
    assert(written.text == head + with_options(tail, o));
    lemma_log_joined(o);
    lemma_line_joined(name, log_all(o));
    let line = crate::layout_laws::line_text(seq![name] + log_all(o));
    assert(line == name + with_options(tail, o) + end);
    assert(written.end().text =~= p.indent().text + line);
    assert(render_access_log(AccessLogView::On(o), p) == written.end());
}

/// `access_log off` is written as the line of its words.
pub proof fn lemma_log_off(p: Page)
    ensures
        render_access_log(AccessLogView::Off, p) == with_line(p, seq!["access_log"@, "off"@]),
{
    let name = "access_log"@;
    reveal_strlit("access_log off");
    reveal_strlit("access_log");
    reveal_strlit("off");
    assert("access_log off"@ =~= name + seq![' '] + "off"@);
    crate::forms_net::lemma_two_words(p, name, "off"@);
    assert(render_access_log(AccessLogView::Off, p).text =~= with_line(
        p,
        seq![name, "off"@],
    ).text);
}

/// `access_log` is written as the line of its words.
pub proof fn lemma_log_line(item: ItemView, p: Page)
    requires
        item is AccessLog,
    ensures
        render_item(item, p) == with_line(p, log_words(item->AccessLog_0)),
{
    let l = item->AccessLog_0;
    assert(render_item(item, p) == render_access_log(l, p));
    match l {
        AccessLogView::Off => {
            lemma_log_off(p);
        },
        AccessLogView::On(o) => {
            lemma_log_on(o, p);
        },
    }
}

/// The options with the condition at the position `at`.
pub open spec fn log_placed(o: AccessLogOptionsView, path: ValueView, at: Option<ValueView>)
    -> AccessLogOptionsView {
    AccessLogOptionsView { path, condition: at, ..o }
}

/// An option that follows the format is read from its word.
pub proof fn lemma_param_read(t: Lexed, j: int, cur: AccessLogOptionsView)
    requires
        t.is_string(j),
    ensures
        forall|x: Seq<char>|
            t.text(j) == #[trigger] ("buffer="@ + x) ==> param_spec(t, j, cur) == Ok::<
                _,
                ErrorView,
            >(AccessLogOptionsView { buffer: Some(x), ..cur }),
        forall|x: Seq<char>|
            t.text(j) == #[trigger] ("flush="@ + x) ==> param_spec(t, j, cur) == Ok::<_, ErrorView>(
                AccessLogOptionsView { flush: Some(x), ..cur },
            ),
        forall|g: Option<Option<u8>>|
            Some(t.text(j)) == #[trigger] gzip_word(g) ==> param_spec(t, j, cur) == Ok::<
                _,
                ErrorView,
            >(AccessLogOptionsView { gzip: g, ..cur }),
        forall|v: ValueView|
            readable(v.data) && Some(t.text(j)) == #[trigger] condition_word(Some(v))
                ==> param_spec(t, j, cur) == Ok::<_, ErrorView>(
                AccessLogOptionsView {
                    condition: Some(ValueView { position: t.position(j), data: v.data }),
                    ..cur
                },
            ),
{
    lemma_log_prefixes();
    let s = t.text(j);
    assert forall|x: Seq<char>| s == #[trigger] ("buffer="@ + x) implies param_spec(t, j, cur)
        == Ok::<_, ErrorView>(AccessLogOptionsView { buffer: Some(x), ..cur }) by {
        assert(s.subrange(0, 7) =~= "buffer="@);
        assert(s.skip(7) =~= x);
        assert(!is_prefix("if="@, s)) by {
            if is_prefix("if="@, s) {
                assert(s.subrange(0, 3)[0] == 'i');
            }
        }
        assert(!is_prefix("gzip="@, s)) by {
            if is_prefix("gzip="@, s) {
                assert(s.subrange(0, 5)[0] == 'g');
            }
        }
        assert(s != "gzip"@);
    }
    assert forall|x: Seq<char>| s == #[trigger] ("flush="@ + x) implies param_spec(t, j, cur)
        == Ok::<_, ErrorView>(AccessLogOptionsView { flush: Some(x), ..cur }) by {
        assert(s.subrange(0, 6) =~= "flush="@);
        assert(s.skip(6) =~= x);
        assert(!is_prefix("if="@, s)) by {
            if is_prefix("if="@, s) {
                assert(s.subrange(0, 3)[0] == 'i');
            }
        }
        assert(!is_prefix("gzip="@, s)) by {
            if is_prefix("gzip="@, s) {
                assert(s.subrange(0, 5)[0] == 'g');
            }
        }
        assert(!is_prefix("buffer="@, s)) by {
            if is_prefix("buffer="@, s) {
                assert(s.subrange(0, 7)[0] == 'b');
            }
        }
        assert(s != "gzip"@);
    }
    assert forall|g: Option<Option<u8>>| Some(s) == #[trigger] gzip_word(g) implies param_spec(
        t,
        j,
        cur,
    ) == Ok::<_, ErrorView>(AccessLogOptionsView { gzip: g, ..cur }) by {
        assert(!is_prefix("if="@, s)) by {
            if is_prefix("if="@, s) {
                assert(s.subrange(0, 3)[0] == 'i');
            }
        }
        match g {
            Some(Some(level)) => {
                let d = decimal(level as nat);
                assert(s.len() > 4);
                assert(s.subrange(0, 5) =~= "gzip="@);
                assert(s.skip(5) =~= d);
                lemma_decimal_read(level as nat, 0, 255);
            },
            _ => {},
        }
    }
    assert forall|v: ValueView|
        readable(v.data) && Some(s) == #[trigger] condition_word(Some(v)) implies param_spec(
        t,
        j,
        cur,
    ) == Ok::<_, ErrorView>(
        AccessLogOptionsView {
            condition: Some(ValueView { position: t.position(j), data: v.data }),
            ..cur
        },
    ) by {
        assert(s.subrange(0, 3) =~= "if="@);
        assert(s.skip(3) =~= value_text(v.data));
        lemma_value_round_trip(v.data);
    }
}

/// The condition of the options as it is read from the token `j`.
pub open spec fn placed_condition(t: Lexed, j: int, c: Option<ValueView>) -> Option<ValueView> {
    match c {
        Some(v) => Some(ValueView { position: t.position(j), data: v.data }),
        None => None,
    }
}

/// The grammar reads the options that follow the format from their
/// words.
#[verifier::rlimit(60)]
#[verifier::spinoff_prover]
pub proof fn lemma_params_read(t: Lexed, j: int, o: AccessLogOptionsView, path: ValueView)
    requires
        log_ok(AccessLogView::On(o)),
        o.format is Some,
        0 <= j,
        holds_words(t, j, log_all(o)),
        !t.is_string(j + log_all(o).len()),
    ensures
        params_spec(
            t,
            j + 2,
            AccessLogOptionsView {
                path,
                format: o.format,
                buffer: None,
                gzip: None,
                flush: None,
                condition: None,
            },
        ) == Ok::<_, ErrorView>(
            (
                log_placed(o, path, placed_condition(t, j + log_all(o).len() - 1, o.condition)),
                j + log_all(o).len(),
            ),
        ),
{
    let w1 = log_head(o);
    let bw = prefixed("buffer="@, o.buffer);
    let gw = gzip_word(o.gzip);
    let fw = prefixed("flush="@, o.flush);
    let cw = condition_word(o.condition);
    let w2 = with_word(w1, bw);
    let w3 = with_word(w2, gw);
    let w4 = with_word(w3, fw);
    let w5 = with_word(w4, cw);
    assert(w5 == log_all(o));
    assert(w1.len() == 2);
    let s0 = AccessLogOptionsView {
        path,
        format: o.format,
        buffer: None,
        gzip: None,
        flush: None,
        condition: None,
    };
    let s1 = AccessLogOptionsView { buffer: o.buffer, ..s0 };
    let s2 = AccessLogOptionsView { gzip: o.gzip, ..s1 };
    let s3 = AccessLogOptionsView { flush: o.flush, ..s2 };
    let at = placed_condition(t, j + w5.len() - 1, o.condition);
    let s4 = AccessLogOptionsView { condition: at, ..s3 };
    assert(s4 == log_placed(o, path, at));
    let j1 = j + w1.len();
    let j2 = j + w2.len();
    let j3 = j + w3.len();
    let j4 = j + w4.len();
    let j5 = j + w5.len();
    assert(params_spec(t, j5, s4) == Ok::<_, ErrorView>((s4, j5)));
    assert(params_spec(t, j4, s3) == Ok::<_, ErrorView>((s4, j5))) by {
        match o.condition {
            Some(v) => {
                assert(t.is_string(j + w4.len()));
                assert(t.text(j + w4.len()) == w5[w4.len() as int]);
                assert(w5[w4.len() as int] == cw->0);
                lemma_param_read(t, j4, s3);
                assert(Some(t.text(j4)) == condition_word(Some(v)));
                assert(param_spec(t, j4, s3) == Ok::<_, ErrorView>(s4));
            },
            None => {},
        }
    }
    assert(params_spec(t, j3, s2) == Ok::<_, ErrorView>((s4, j5))) by {
        match o.flush {
            Some(x) => {
                assert(t.is_string(j + w3.len()));
                assert(t.text(j + w3.len()) == w5[w3.len() as int]);
                assert(w5[w3.len() as int] == w4[w3.len() as int]);
                assert(w4[w3.len() as int] == "flush="@ + x);
                lemma_param_read(t, j3, s2);
                assert(param_spec(t, j3, s2) == Ok::<_, ErrorView>(s3));
            },
            None => {},
        }
    }
    assert(params_spec(t, j2, s1) == Ok::<_, ErrorView>((s4, j5))) by {
        match o.gzip {
            Some(g) => {
                assert(t.is_string(j + w2.len()));
                assert(t.text(j + w2.len()) == w5[w2.len() as int]);
                assert(w5[w2.len() as int] == w3[w2.len() as int]);
                assert(w3[w2.len() as int] == gw->0);
                lemma_param_read(t, j2, s1);
                assert(Some(t.text(j2)) == gzip_word(o.gzip));
                assert(param_spec(t, j2, s1) == Ok::<_, ErrorView>(s2));
            },
            None => {},
        }
    }
    assert(params_spec(t, j1, s0) == Ok::<_, ErrorView>((s4, j5))) by {
        match o.buffer {
            Some(x) => {
                assert(t.is_string(j + w1.len()));
                assert(t.text(j + w1.len()) == w5[w1.len() as int]);
                assert(w5[w1.len() as int] == w2[w1.len() as int]);
                assert(w2[w1.len() as int] == "buffer="@ + x);
                lemma_param_read(t, j1, s0);
                assert(param_spec(t, j1, s0) == Ok::<_, ErrorView>(s1));
            },
            None => {},
        }
    }
}

/// `access_log` is read back from its tokens.
#[verifier::rlimit(60)]
#[verifier::spinoff_prover]
pub proof fn lemma_log_parsed(t: Lexed, i: int, item: ItemView)
    requires
        item is AccessLog,
        log_ok(item->AccessLog_0),
        has_tokens(t, i, item_tokens(item)),
        item_tokens(item) == crate::layout_laws::string_tokens(log_words(item->AccessLog_0)).push(
            crate::layout_laws::punct_token(';'),
        ),
    ensures
        item_spec(t, i) matches Some(Ok((back, j))) && j == i + item_tokens(item).len() && alike(
            item,
            back,
        ),
{
    let l = item->AccessLog_0;
    let rest = match l {
        AccessLogView::Off => seq!["off"@],
        AccessLogView::On(o) => log_all(o),
    };
    assert(log_words(l) =~= seq!["access_log"@] + rest);
    lemma_line_holds(t, i, "access_log"@, rest);
    lemma_named_read(t, i);
    match l {
        AccessLogView::Off => {
            assert(t.is_string(i + 1 + 0));
            assert(t.text(i + 1 + 0) == seq!["off"@][0]);
            assert(semi_spec(t, i + 2, Seq::empty()) == Ok::<_, ErrorView>(i + 3));
            assert(access_log_spec(t, i) == Ok::<_, ErrorView>((item, i + 3)));
        },
        AccessLogView::On(o) => {
            let all = log_all(o);
            let n = all.len() as int;
            assert(all[0] == value_text(o.path.data));
            assert(t.is_string(i + 1 + 0));
            assert(t.text(i + 1 + 0) == all[0]);
            lemma_value_read(t, i + 1, o.path, seq!["off"@, "String"@]);
            let path = ValueView { position: t.position(i + 1), data: o.path.data };
            let plain = AccessLogOptionsView {
                path,
                format: None,
                buffer: None,
                gzip: None,
                flush: None,
                condition: None,
            };
            let at = placed_condition(t, i + 1 + n - 1, o.condition);
            let read = log_placed(o, path, at);
            match o.format {
                Some(f) => {
                    assert(log_head(o).len() == 2);
                    assert(n >= 2);
                    assert(all[1] == f) by {
                        assert(log_head(o)[1] == f);
                    }
                    assert(t.is_string(i + 1 + 1));
                    assert(t.text(i + 1 + 1) == all[1]);
                    lemma_params_read(t, i + 1, o, path);
                    assert(AccessLogOptionsView { format: Some(t.text(i + 2)), ..plain }
                        == AccessLogOptionsView {
                        path,
                        format: o.format,
                        buffer: None,
                        gzip: None,
                        flush: None,
                        condition: None,
                    });
                },
                None => {
                    assert(n == 1);
                    assert(read == plain);
                },
            }
            let back = ItemView::AccessLog(AccessLogView::On(read));
            assert(semi_spec(t, i + 1 + n, seq!["String"@]) == Ok::<_, ErrorView>(i + 2 + n));
            assert(access_log_spec(t, i) == Ok::<_, ErrorView>((back, i + 2 + n)));
            assert(alike(item, back)) by {
                match o.condition {
                    Some(c) => {
                        assert(back.values() =~= seq![path, at->0]);
                        assert(item.values() =~= seq![o.path, c]);
                    },
                    None => {
                        assert(back.values() =~= seq![path]);
                        assert(item.values() =~= seq![o.path]);
                    },
                }
            }
        },
    }
}

/// A directive that is like an `access_log` has the same words.
pub proof fn lemma_log_alike(a: ItemView, b: ItemView)
    requires
        a is AccessLog,
        log_ok(a->AccessLog_0),
        alike_here(a, b),
    ensures
        b is AccessLog,
        log_ok(b->AccessLog_0),
        log_words(b->AccessLog_0) == log_words(a->AccessLog_0),
{
    match a->AccessLog_0 {
        AccessLogView::Off => {},
        AccessLogView::On(o) => {
            let q = b->AccessLog_0->On_0;
            let va = a.values();
            let vb = b.values();
            assert(va[0] == o.path);
            assert(vb[0] == q.path);
            assert(va[0].data == vb[0].data);
            match o.condition {
                Some(c) => {
                    assert(va[1] == c);
                    assert(vb[1] == q.condition->0);
                    assert(va[1].data == vb[1].data);
                },
                None => {},
            }
            assert(condition_word(q.condition) == condition_word(o.condition));
        },
    }
}

} // verus!
