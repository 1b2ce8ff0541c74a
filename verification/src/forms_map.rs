//! `map`: how it is written, and that it is read back.

use vstd::prelude::*;
use crate::ast::{ItemView, MapBlockView, MapPatternView};
use crate::display::{
    is_reserved, map_head, map_settings, render_includes, render_map, render_pattern,
    render_patterns, render_value,
};
use crate::error::ErrorView;
use crate::format::Page;
use crate::forms::{alike, alike_here, block_tokens, has_tokens, lexable};
use crate::forms_kinds::{is_variable, lemma_line_tokens, lemma_value_read, lemma_variable_word};
use crate::forms_net::lemma_two_words;
use crate::forms_reads::lemma_named_read;
use crate::grammar::{item_spec, map_entries, map_entry, map_finish, map_spec, pattern_of};
use crate::layout_laws::{
    lemma_page_close, lemma_page_head, lemma_page_line, lemma_page_margin, lemma_spaced_two,
    page_reads, punct_token, spaced, string_tokens, with_head, with_line,
};
use crate::lex_laws::{is_simple_word, is_word, lemma_simple_word};
use crate::tokenizer::{Kind, Lexed, TokenView};
use crate::value::{value_text, ValueView};

verus! {

/// The text of a pattern of a `map` block.
pub open spec fn pattern_text(pattern: MapPatternView) -> Seq<char> {
    match pattern {
        MapPatternView::Exact(v) => if is_reserved(v) {
            seq!['\\'] + v
        } else {
            v
        },
        MapPatternView::Suffix(v) => seq!['.'] + v,
        MapPatternView::StarSuffix(v) => "*."@ + v,
        MapPatternView::StarPrefix(v) => v + ".*"@,
        MapPatternView::Regex(v) => seq!['~'] + v,
    }
}

/// The words before the block of a `map`.
pub open spec fn map_words(m: MapBlockView) -> Seq<Seq<char>> {
    seq!["map"@, value_text(m.expression.data), seq!['$'] + m.variable]
}

/// The rows `rows`, and behind them the row `row` where there is one.
pub open spec fn with_row(rows: Seq<Seq<Seq<char>>>, row: Option<Seq<Seq<char>>>) -> Seq<
    Seq<Seq<char>>,
> {
    match row {
        Some(r) => rows.push(r),
        None => rows,
    }
}

/// The row of a switch, where it is set.
pub open spec fn flag_row(on: bool, word: Seq<char>) -> Option<Seq<Seq<char>>> {
    if on {
        Some(seq![word])
    } else {
        None
    }
}

/// The row of the default, where there is one.
pub open spec fn default_row(d: Option<ValueView>) -> Option<Seq<Seq<char>>> {
    match d {
        Some(v) => Some(seq!["default"@, value_text(v.data)]),
        None => None,
    }
}

/// The rows of the switches and of the default of a `map` block.
pub open spec fn setting_rows(m: MapBlockView) -> Seq<Seq<Seq<char>>> {
    with_row(
        with_row(
            with_row(Seq::empty(), flag_row(m.volatile, "volatile"@)),
            flag_row(m.hostnames, "hostnames"@),
        ),
        default_row(m.default),
    )
}

/// The rows of a `map` block up to the included file `k`.
pub open spec fn include_rows(m: MapBlockView, k: int) -> Seq<Seq<Seq<char>>>
    decreases k,
{
    if k <= 0 {
        setting_rows(m)
    } else {
        include_rows(m, k - 1).push(seq!["include"@, m.includes[k - 1]])
    }
}

/// The rows of a `map` block up to the pattern `k`.
pub open spec fn pattern_rows(m: MapBlockView, k: int) -> Seq<Seq<Seq<char>>>
    decreases k,
{
    if k <= 0 {
        include_rows(m, m.includes.len() as int)
    } else {
        pattern_rows(m, k - 1).push(
            seq![pattern_text(m.patterns[k - 1].0), value_text(m.patterns[k - 1].1.data)],
        )
    }
}

/// The rows of a `map` block: the words of each of its lines.
pub open spec fn map_rows(m: MapBlockView) -> Seq<Seq<Seq<char>>> {
    pattern_rows(m, m.patterns.len() as int)
}

/// The page with the first `n` rows written behind it, each on a line.
pub open spec fn with_rows(p: Page, rows: Seq<Seq<Seq<char>>>, n: int) -> Page
    decreases n,
{
    if n <= 0 {
        p
    } else {
        with_line(with_rows(p, rows, n - 1), rows[n - 1])
    }
}

/// The tokens of the first `n` rows.
pub open spec fn rows_tokens(rows: Seq<Seq<Seq<char>>>, n: int) -> Seq<TokenView>
    decreases n,
{
    if n <= 0 {
        Seq::empty()
    } else {
        rows_tokens(rows, n - 1) + string_tokens(rows[n - 1]).push(punct_token(';'))
    }
}

/// The tokens of the lines of a `map` block.
pub open spec fn body_tokens(m: MapBlockView) -> Seq<TokenView> {
    rows_tokens(map_rows(m), map_rows(m).len() as int)
}

/// The tokens of a `map` block as it is written.
pub open spec fn map_tokens(m: MapBlockView) -> Seq<TokenView> {
    block_tokens(map_words(m), body_tokens(m))
}

/// Whether every row has a word, and each word is one token.
pub open spec fn rows_good(rows: Seq<Seq<Seq<char>>>) -> bool {
    forall|k: int|
        0 <= k < rows.len() ==> (#[trigger] rows[k]).len() > 0 && forall|i: int|
            0 <= i < rows[k].len() ==> is_word(#[trigger] rows[k][i])
}

/// Whether a pattern is read back from its text: the text is one token,
/// is no word that the block gives a meaning of its own, and stands for
/// the pattern.
pub open spec fn pattern_ok(pattern: MapPatternView, hostnames: bool) -> bool {
    &&& is_word(pattern_text(pattern))
    &&& !is_reserved(pattern_text(pattern))
    &&& pattern_of(pattern_text(pattern), hostnames) == pattern
}

/// Whether a `map` block is read back as it is written: its values are
/// read back as they are written, its variable is a name, the name of
/// each included file is one token, and each pattern is read back from
/// its text.
pub open spec fn map_ok(m: MapBlockView) -> bool {
    &&& lexable(m.expression)
    &&& is_variable(m.variable)
    &&& m.default matches Some(v) ==> lexable(v)
    &&& forall|k: int| 0 <= k < m.includes.len() ==> is_word(#[trigger] m.includes[k])
    &&& forall|k: int|
        0 <= k < m.patterns.len() ==> pattern_ok((#[trigger] m.patterns[k]).0, m.hostnames)
            && lexable(m.patterns[k].1)
}

/// The words that a `map` block gives a meaning of its own are one token
/// each.
pub proof fn lemma_reserved_words()
    ensures
        is_word("volatile"@),
        is_word("hostnames"@),
        is_word("default"@),
        is_word("include"@),
        is_word("map"@),
{
    reveal_strlit("volatile");
    reveal_strlit("hostnames");
    reveal_strlit("default");
    reveal_strlit("include");
    reveal_strlit("map");
    assert(is_simple_word("volatile"@));
    assert(is_simple_word("hostnames"@));
    assert(is_simple_word("default"@));
    assert(is_simple_word("include"@));
    assert(is_simple_word("map"@));
    lemma_simple_word("volatile"@);
    lemma_simple_word("hostnames"@);
    lemma_simple_word("default"@);
    lemma_simple_word("include"@);
    lemma_simple_word("map"@);
}

/// The rows grow with the patterns, and the rows before stay where they
/// are.
pub proof fn lemma_rows_grow(m: MapBlockView, k: int)
    requires
        0 <= k <= m.patterns.len(),
    ensures
        pattern_rows(m, k).len() == setting_rows(m).len() + m.includes.len() + k,
        forall|j: int|
            0 <= j < setting_rows(m).len() + m.includes.len() ==> pattern_rows(m, k)[j]
                == include_rows(m, m.includes.len() as int)[j],
        forall|j: int|
            0 <= j < k ==> pattern_rows(m, k)[setting_rows(m).len() + m.includes.len() + j]
                == seq![pattern_text(m.patterns[j].0), value_text(m.patterns[j].1.data)],
    decreases k,
{
    if k > 0 {
        lemma_rows_grow(m, k - 1);
    } else {
        lemma_includes_grow(m, m.includes.len() as int);
    }
}

/// The rows grow with the included files.
pub proof fn lemma_includes_grow(m: MapBlockView, i: int)
    requires
        0 <= i <= m.includes.len(),
    ensures
        include_rows(m, i).len() == setting_rows(m).len() + i,
        forall|j: int| 0 <= j < setting_rows(m).len() ==> include_rows(m, i)[j] == setting_rows(m)[j],
        forall|j: int|
            0 <= j < i ==> include_rows(m, i)[setting_rows(m).len() + j] == seq![
                "include"@,
                m.includes[j],
            ],
    decreases i,
{
    if i > 0 {
        lemma_includes_grow(m, i - 1);
    }
}

/// The rows of a `map` block that is read back have a word each, and
/// each word is one token.
pub proof fn lemma_rows_good(m: MapBlockView)
    requires
        map_ok(m),
    ensures
        rows_good(map_rows(m)),
{
    lemma_reserved_words();
    let rows = map_rows(m);
    let s = setting_rows(m);
    let a = with_row(Seq::empty(), flag_row(m.volatile, "volatile"@));
    let b = with_row(a, flag_row(m.hostnames, "hostnames"@));
    assert(rows_good(a));
    assert(rows_good(b)) by {
        assert forall|k: int| 0 <= k < b.len() implies (#[trigger] b[k]).len() > 0 && forall|
            i: int,
        |
            0 <= i < b[k].len() ==> is_word(#[trigger] b[k][i]) by {
            if k < a.len() {
                assert(b[k] == a[k]);
            }
        }
    }
    assert(rows_good(s)) by {
        assert forall|k: int| 0 <= k < s.len() implies (#[trigger] s[k]).len() > 0 && forall|
            i: int,
        |
            0 <= i < s[k].len() ==> is_word(#[trigger] s[k][i]) by {
            if k < b.len() {
                assert(s[k] == b[k]);
            }
        }
    }
    lemma_includes_grow(m, m.includes.len() as int);
    lemma_rows_grow(m, m.patterns.len() as int);
    let ni = m.includes.len() as int;
    assert forall|k: int| 0 <= k < rows.len() implies (#[trigger] rows[k]).len() > 0 && forall|
        i: int,
    |
        0 <= i < rows[k].len() ==> is_word(#[trigger] rows[k][i]) by {
        if k < s.len() {
            assert(rows[k] == include_rows(m, ni)[k]);
            assert(include_rows(m, ni)[k] == s[k]);
        } else if k < s.len() + ni {
            let j = k - s.len();
            assert(rows[k] == include_rows(m, ni)[k]);
            assert(include_rows(m, ni)[s.len() + j] == seq!["include"@, m.includes[j]]);
        } else {
            let j = k - s.len() - ni;
            assert(rows[s.len() + ni + j] == seq![
                pattern_text(m.patterns[j].0),
                value_text(m.patterns[j].1.data),
            ]);
            assert(pattern_ok(m.patterns[j].0, m.hostnames));
        }
    }
}

/// Writing rows that have a word each, each word one token, adds their
/// tokens to the tokens of the page.
pub proof fn lemma_rows_read(p: Page, w: Seq<TokenView>, rows: Seq<Seq<Seq<char>>>, n: int)
    requires
        page_reads(p, w),
        rows_good(rows),
        0 <= n <= rows.len(),
    ensures
        page_reads(with_rows(p, rows, n), w + rows_tokens(rows, n)),
    decreases n,
{
    if n > 0 {
        lemma_rows_read(p, w, rows, n - 1);
        assert(rows[n - 1].len() > 0);
        lemma_page_line(with_rows(p, rows, n - 1), w + rows_tokens(rows, n - 1), rows[n - 1]);
        assert(w + rows_tokens(rows, n - 1) + string_tokens(rows[n - 1]).push(punct_token(';'))
            =~= w + rows_tokens(rows, n));
    } else {
        assert(w + rows_tokens(rows, n) =~= w);
    }
}

/// The first rows are written, and have their tokens, whatever follows
/// them.
pub proof fn lemma_rows_same(
    p: Page,
    a: Seq<Seq<Seq<char>>>,
    b: Seq<Seq<Seq<char>>>,
    n: int,
)
    requires
        n <= a.len(),
        n <= b.len(),
        forall|k: int| 0 <= k < n ==> a[k] == b[k],
    ensures
        with_rows(p, a, n) == with_rows(p, b, n),
        rows_tokens(a, n) == rows_tokens(b, n),
    decreases n,
{
    if n > 0 {
        lemma_rows_same(p, a, b, n - 1);
    }
}

/// A row more is written on a line more.
pub proof fn lemma_row_added(p: Page, rows: Seq<Seq<Seq<char>>>, row: Option<Seq<Seq<char>>>)
    ensures
        with_rows(p, with_row(rows, row), with_row(rows, row).len() as int) == match row {
            Some(r) => with_line(with_rows(p, rows, rows.len() as int), r),
            None => with_rows(p, rows, rows.len() as int),
        },
{
    match row {
        Some(r) => {
            let all = rows.push(r);
            lemma_rows_same(p, rows, all, rows.len() as int);
        },
        None => {},
    }
}

/// A line of one word is the word and the end of the line.
pub proof fn lemma_one_word(p: Page, w: Seq<char>)
    ensures
        with_line(p, seq![w]) == p.indent().write(w).end(),
{
    let ws = seq![w];
    assert(ws.drop_last() =~= Seq::<Seq<char>>::empty());
    assert(spaced(ws.drop_last()) =~= Seq::<char>::empty());
    assert(with_line(p, ws).text =~= p.indent().write(w).end().text);
}

/// The switches and the default of a `map` block are written as their
/// rows.
pub proof fn lemma_settings_text(m: MapBlockView, p: Page)
    ensures
        map_settings(m, p) == with_rows(p, setting_rows(m), setting_rows(m).len() as int),
{
    let none = Seq::<Seq<Seq<char>>>::empty();
    let ra = with_row(none, flag_row(m.volatile, "volatile"@));
    let rb = with_row(ra, flag_row(m.hostnames, "hostnames"@));
    lemma_row_added(p, none, flag_row(m.volatile, "volatile"@));
    lemma_row_added(p, ra, flag_row(m.hostnames, "hostnames"@));
    lemma_row_added(p, rb, default_row(m.default));
    let a = if m.volatile {
        p.indent().write("volatile"@).end()
    } else {
        p
    };
    lemma_one_word(p, "volatile"@);
    assert(a == with_rows(p, ra, ra.len() as int));
    let b = if m.hostnames {
        a.indent().write("hostnames"@).end()
    } else {
        a
    };
    lemma_one_word(a, "hostnames"@);
    assert(b == with_rows(p, rb, rb.len() as int));
    match m.default {
        Some(v) => {
            reveal_strlit("default ");
            reveal_strlit("default");
            assert("default "@ =~= "default"@ + seq![' ']);
            lemma_two_words(b, "default"@, value_text(v.data));
            assert(render_value(v, b.indent().write("default "@)).end().text =~= with_line(
                b,
                seq!["default"@, value_text(v.data)],
            ).text);
        },
        None => {},
    }
}

/// The included files of a `map` block are written as their rows.
pub proof fn lemma_includes_text(m: MapBlockView, k: int, p: Page)
    requires
        0 <= k <= m.includes.len(),
    ensures
        render_includes(m.includes, k, map_settings(m, p)) == with_rows(
            p,
            include_rows(m, k),
            include_rows(m, k).len() as int,
        ),
    decreases k,
{
    if k > 0 {
        lemma_includes_text(m, k - 1, p);
        let before = include_rows(m, k - 1);
        let row = seq!["include"@, m.includes[k - 1]];
        lemma_row_added(p, before, Some(row));
        let q = render_includes(m.includes, k - 1, map_settings(m, p));
        reveal_strlit("include ");
        reveal_strlit("include");
        assert("include "@ =~= "include"@ + seq![' ']);
        lemma_two_words(q, "include"@, m.includes[k - 1]);
        assert(q.indent().write("include "@).write(m.includes[k - 1]).end().text =~= with_line(
            q,
            row,
        ).text);
    } else {
        lemma_settings_text(m, p);
    }
}

/// A pattern is written as its text.
pub proof fn lemma_pattern_text(pattern: MapPatternView, p: Page)
    ensures
        render_pattern(pattern, p) == p.write(pattern_text(pattern)),
{
    reveal_strlit("*.");
    reveal_strlit(".*");
    assert(render_pattern(pattern, p).text =~= p.write(pattern_text(pattern)).text);
}

/// The patterns of a `map` block are written as their rows.
pub proof fn lemma_patterns_text(m: MapBlockView, k: int, p: Page)
    requires
        0 <= k <= m.patterns.len(),
    ensures
        render_patterns(
            m.patterns,
            k,
            render_includes(m.includes, m.includes.len() as int, map_settings(m, p)),
        ) == with_rows(p, pattern_rows(m, k), pattern_rows(m, k).len() as int),
    decreases k,
{
    let start = render_includes(m.includes, m.includes.len() as int, map_settings(m, p));
    if k > 0 {
        lemma_patterns_text(m, k - 1, p);
        let before = pattern_rows(m, k - 1);
        let pt = pattern_text(m.patterns[k - 1].0);
        let vt = value_text(m.patterns[k - 1].1.data);
        let row = seq![pt, vt];
        lemma_row_added(p, before, Some(row));
        let q = render_patterns(m.patterns, k - 1, start);
        lemma_pattern_text(m.patterns[k - 1].0, q.indent());
        lemma_two_words(q, pt, vt);
        assert(render_patterns(m.patterns, k, start) == render_value(
            m.patterns[k - 1].1,
            render_pattern(m.patterns[k - 1].0, q.indent()).put(' '),
        ).end());
    } else {
        lemma_includes_text(m, m.includes.len() as int, p);
    }
}

/// The line that opens a `map` block is written as its words and an
/// opening brace, behind an empty line.
pub proof fn lemma_map_head(m: MapBlockView, p: Page)
    ensures
        map_head(m, p) == with_head(p.margin(), map_words(m)),
{
    let ws = map_words(m);
    let q = p.margin();
    let e = value_text(m.expression.data);
    let v = seq!['$'] + m.variable;
    reveal_strlit("map ");
    reveal_strlit("map");
    reveal_strlit(" $");
    assert("map "@ =~= "map"@ + seq![' ']);
    assert(" $"@ =~= seq![' ', '$']);
    assert(ws.drop_last() =~= seq!["map"@, e]);
    lemma_spaced_two("map"@, e);
    assert(spaced(ws) =~= spaced(seq!["map"@, e]) + v + seq![' ']);
    let written = render_value(m.expression, q.indent().write("map "@)).write(" $"@).write(
        m.variable,
    ).put(' ');
    assert(written.text =~= q.indent().write(spaced(ws)).text);
}

/// A `map` block is written as the line that opens it, its rows, and the
/// closing brace.
pub proof fn lemma_map_text(m: MapBlockView, p: Page)
    ensures
        render_map(m, p) == with_rows(
            with_head(p.margin(), map_words(m)),
            map_rows(m),
            map_rows(m).len() as int,
        ).end_block(p.indent),
{
    lemma_map_head(m, p);
    lemma_patterns_text(m, m.patterns.len() as int, map_head(m, p));
}

/// Writing a `map` block that is read back adds its tokens to the tokens
/// of the page.
pub proof fn lemma_map_reads(m: MapBlockView, p: Page, w: Seq<TokenView>)
    requires
        page_reads(p, w),
        map_ok(m),
    ensures
        page_reads(render_map(m, p), w + map_tokens(m)),
{
    lemma_map_text(m, p);
    lemma_map_words(m);
    lemma_page_margin(p, w);
    lemma_page_head(p.margin(), w, map_words(m));
    let head = with_head(p.margin(), map_words(m));
    let w1 = w + string_tokens(map_words(m)).push(punct_token('{'));
    lemma_rows_good(m);
    lemma_rows_read(head, w1, map_rows(m), map_rows(m).len() as int);
    let body = with_rows(head, map_rows(m), map_rows(m).len() as int);
    lemma_page_close(body, w1 + body_tokens(m), p.indent);
    assert((w1 + body_tokens(m)).push(punct_token('}')) =~= w + map_tokens(m));
}

/// The words before the block of a `map` that is read back are one token
/// each.
pub proof fn lemma_map_words(m: MapBlockView)
    requires
        map_ok(m),
    ensures
        forall|i: int| 0 <= i < map_words(m).len() ==> is_word(#[trigger] map_words(m)[i]),
{
    lemma_reserved_words();
    lemma_variable_word(m.variable);
}

/// The number of tokens of the first `k` rows.
pub open spec fn row_start(rows: Seq<Seq<Seq<char>>>, k: int) -> int {
    rows_tokens(rows, k).len() as int
}

/// The tokens of the row `k` stand where the tokens of the rows before it
/// end.
pub proof fn lemma_row_at(t: Lexed, base: int, rows: Seq<Seq<Seq<char>>>, k: int, n: int)
    requires
        has_tokens(t, base, rows_tokens(rows, n)),
        0 <= k < n <= rows.len(),
    ensures
        has_tokens(t, base + row_start(rows, k), string_tokens(rows[k]).push(punct_token(';'))),
        row_start(rows, k + 1) == row_start(rows, k) + rows[k].len() + 1,
        row_start(rows, k + 1) <= row_start(rows, n),
    decreases n - k,
{
    let a = rows_tokens(rows, k);
    let b = string_tokens(rows[k]).push(punct_token(';'));
    assert(rows_tokens(rows, k + 1) == a + b);
    let all = rows_tokens(rows, n);
    if n == k + 1 {
        assert forall|j: int| 0 <= j < b.len() implies (#[trigger] t.tokens[base + row_start(
            rows,
            k,
        ) + j]).token == b[j] by {
            assert(t.tokens[base + (a.len() + j)].token == all[a.len() + j]);
        }
    } else {
        let m = rows_tokens(rows, n - 1);
        assert(all == m + string_tokens(rows[n - 1]).push(punct_token(';')));
        assert forall|j: int| 0 <= j < m.len() implies (#[trigger] t.tokens[base + j]).token
            == m[j] by {
            assert(t.tokens[base + j].token == all[j]);
        }
        lemma_row_at(t, base, rows, k, n - 1);
    }
}

/// What the tokens of a row say of the list in which they stand.
pub proof fn lemma_row_tokens(t: Lexed, base: int, rows: Seq<Seq<Seq<char>>>, k: int)
    requires
        has_tokens(t, base, rows_tokens(rows, rows.len() as int)),
        0 <= k < rows.len(),
        0 <= base,
    ensures
        forall|j: int|
            0 <= j < rows[k].len() ==> #[trigger] t.is_string(base + row_start(rows, k) + j),
        forall|j: int|
            0 <= j < rows[k].len() ==> t.text(base + row_start(rows, k) + j) == (
            #[trigger] rows[k][j]),
        t.is_kind(base + row_start(rows, k) + rows[k].len(), Kind::Semicolon),
        !t.is_string(base + row_start(rows, k) + rows[k].len()),
        row_start(rows, k + 1) == row_start(rows, k) + rows[k].len() + 1,
        row_start(rows, k + 1) <= row_start(rows, rows.len() as int),
        base + row_start(rows, k + 1) <= t.tokens.len(),
        0 <= row_start(rows, k),
{
    lemma_row_at(t, base, rows, k, rows.len() as int);
    let j0 = base + row_start(rows, k);
    lemma_line_tokens(t, j0, rows[k]);
    assert forall|j: int| 0 <= j < rows[k].len() implies #[trigger] t.is_string(j0 + j) by {
        assert(t.is_string(j0 + j) && t.text(j0 + j) == rows[k][j]);
    }
    assert forall|j: int| 0 <= j < rows[k].len() implies t.text(j0 + j) == (
    #[trigger] rows[k][j]) by {
        assert(t.is_string(j0 + j) && t.text(j0 + j) == rows[k][j]);
    }
}

/// The words that a `map` block gives a meaning of its own differ.
pub proof fn lemma_reserved_differ()
    ensures
        "volatile"@ != "hostnames"@,
        "default"@ != "hostnames"@,
        "default"@ != "volatile"@,
        "default"@ != "include"@,
        "include"@ != "hostnames"@,
        "include"@ != "volatile"@,
{
    reveal_strlit("volatile");
    reveal_strlit("hostnames");
    reveal_strlit("default");
    reveal_strlit("include");
    assert("volatile"@[0] != "hostnames"@[0]);
    assert("default"@[0] != "hostnames"@[0]);
    assert("default"@[0] != "volatile"@[0]);
    assert("default"@[0] != "include"@[0]);
    assert("include"@[0] != "hostnames"@[0]);
    assert("include"@[0] != "volatile"@[0]);
}

/// The grammar reads the switch `volatile` from its row.
pub proof fn lemma_volatile_entry(t: Lexed, j: int, cur: MapBlockView)
    requires
        t.is_string(j),
        t.text(j) == "volatile"@,
        t.is_kind(j + 1, Kind::Semicolon),
    ensures
        map_entry(t, j, cur) == Some(
            Ok::<_, ErrorView>((MapBlockView { volatile: true, ..cur }, j + 2)),
        ),
{
    lemma_reserved_differ();
}

/// The grammar reads the switch `hostnames` from its row.
pub proof fn lemma_hostnames_entry(t: Lexed, j: int, cur: MapBlockView)
    requires
        t.is_string(j),
        t.text(j) == "hostnames"@,
        t.is_kind(j + 1, Kind::Semicolon),
    ensures
        map_entry(t, j, cur) == Some(
            Ok::<_, ErrorView>((MapBlockView { hostnames: true, ..cur }, j + 2)),
        ),
{
}

/// The grammar reads the default from its row.
pub proof fn lemma_default_entry(t: Lexed, j: int, cur: MapBlockView, v: ValueView)
    requires
        t.is_string(j),
        t.text(j) == "default"@,
        t.is_string(j + 1),
        t.text(j + 1) == value_text(v.data),
        lexable(v),
        t.is_kind(j + 2, Kind::Semicolon),
    ensures
        map_entry(t, j, cur) == Some(
            Ok::<_, ErrorView>(
                (
                    MapBlockView {
                        default: Some(ValueView { position: t.position(j + 1), data: v.data }),
                        ..cur
                    },
                    j + 3,
                ),
            ),
        ),
{
    lemma_reserved_differ();
    lemma_value_read(t, j + 1, v, seq!["String"@]);
}

/// The grammar reads an included file from its row.
pub proof fn lemma_include_entry(t: Lexed, j: int, cur: MapBlockView, x: Seq<char>)
    requires
        t.is_string(j),
        t.text(j) == "include"@,
        t.is_string(j + 1),
        t.text(j + 1) == x,
        t.is_kind(j + 2, Kind::Semicolon),
    ensures
        map_entry(t, j, cur) == Some(
            Ok::<_, ErrorView>((MapBlockView { includes: cur.includes.push(x), ..cur }, j + 3)),
        ),
{
    lemma_reserved_differ();
}

/// The grammar reads a pattern and its value from their row.
pub proof fn lemma_pattern_entry(
    t: Lexed,
    j: int,
    cur: MapBlockView,
    pattern: MapPatternView,
    v: ValueView,
)
    requires
        t.is_string(j),
        t.text(j) == pattern_text(pattern),
        pattern_ok(pattern, cur.hostnames),
        t.is_string(j + 1),
        t.text(j + 1) == value_text(v.data),
        lexable(v),
        t.is_kind(j + 2, Kind::Semicolon),
    ensures
        map_entry(t, j, cur) == Some(
            Ok::<_, ErrorView>(
                (
                    MapBlockView {
                        patterns: cur.patterns.push(
                            (pattern, ValueView { position: t.position(j + 1), data: v.data }),
                        ),
                        ..cur
                    },
                    j + 3,
                ),
            ),
        ),
{
    lemma_value_read(t, j + 1, v, seq!["String"@]);
}

/// The index of the row of the default among the rows of a `map` block.
pub open spec fn default_index(m: MapBlockView) -> int {
    (if m.volatile {
        1int
    } else {
        0int
    }) + (if m.hostnames {
        1int
    } else {
        0int
    })
}

/// What the grammar reads from the tokens of a `map` block whose first
/// row starts at `base`: the block with the positions of its values.
pub open spec fn read_block(t: Lexed, base: int, m: MapBlockView) -> MapBlockView {
    let rows = map_rows(m);
    let first = setting_rows(m).len() + m.includes.len();
    MapBlockView {
        variable: m.variable,
        expression: ValueView { position: t.position(base - 3), data: m.expression.data },
        default: match m.default {
            Some(v) => Some(
                ValueView {
                    position: t.position(base + row_start(rows, default_index(m)) + 1),
                    data: v.data,
                },
            ),
            None => None,
        },
        hostnames: m.hostnames,
        volatile: m.volatile,
        includes: m.includes,
        patterns: Seq::new(
            m.patterns.len(),
            |k: int|
                (
                    m.patterns[k].0,
                    ValueView {
                        position: t.position(base + row_start(rows, first + k) + 1),
                        data: m.patterns[k].1.data,
                    },
                ),
        ),
    }
}

/// The grammar reads the patterns of a `map` block from the pattern `k`
/// on, when the rows before it are read.
pub proof fn lemma_patterns_read(t: Lexed, base: int, m: MapBlockView, k: int)
    requires
        map_ok(m),
        0 <= base,
        has_tokens(t, base, body_tokens(m)),
        !t.is_string(base + body_tokens(m).len()),
        0 <= k <= m.patterns.len(),
    ensures
        map_entries(
            t,
            base + row_start(map_rows(m), setting_rows(m).len() + m.includes.len() + k),
            MapBlockView {
                patterns: read_block(t, base, m).patterns.take(k),
                ..read_block(t, base, m)
            },
        ) == Ok::<_, ErrorView>((read_block(t, base, m), base + body_tokens(m).len())),
    decreases m.patterns.len() - k,
{
    let rows = map_rows(m);
    let first = setting_rows(m).len() + m.includes.len();
    let rb = read_block(t, base, m);
    let cur = MapBlockView { patterns: rb.patterns.take(k), ..rb };
    let j = base + row_start(rows, first + k);
    lemma_rows_grow(m, m.patterns.len() as int);
    if k == m.patterns.len() {
        assert(rb.patterns.take(k) =~= rb.patterns);
        assert(cur == rb);
        assert(map_entry(t, j, cur) is None);
    } else {
        lemma_row_tokens(t, base, rows, first + k);
        let row = rows[first + k];
        assert(row == seq![pattern_text(m.patterns[k].0), value_text(m.patterns[k].1.data)]);
        assert(t.is_string(j + 0));
        assert(t.is_string(j + 1));
        assert(t.text(j + 0) == row[0]);
        assert(t.text(j + 1) == row[1]);
        assert(pattern_ok(m.patterns[k].0, m.hostnames));
        lemma_pattern_entry(t, j, cur, m.patterns[k].0, m.patterns[k].1);
        let next = MapBlockView { patterns: rb.patterns.take(k + 1), ..rb };
        assert(cur.patterns.push(rb.patterns[k]) =~= rb.patterns.take(k + 1));
        assert(map_entry(t, j, cur) == Some(Ok::<_, ErrorView>((next, j + 3))));
        lemma_patterns_read(t, base, m, k + 1);
    }
}

/// The grammar reads the included files of a `map` block from the file
/// `k` on, and then the patterns, when the rows before are read.
pub proof fn lemma_includes_read(t: Lexed, base: int, m: MapBlockView, k: int)
    requires
        map_ok(m),
        0 <= base,
        has_tokens(t, base, body_tokens(m)),
        !t.is_string(base + body_tokens(m).len()),
        0 <= k <= m.includes.len(),
    ensures
        map_entries(
            t,
            base + row_start(map_rows(m), setting_rows(m).len() + k),
            MapBlockView {
                includes: m.includes.take(k),
                patterns: Seq::empty(),
                ..read_block(t, base, m)
            },
        ) == Ok::<_, ErrorView>((read_block(t, base, m), base + body_tokens(m).len())),
    decreases m.includes.len() - k,
{
    let rows = map_rows(m);
    let first = setting_rows(m).len() as int;
    let rb = read_block(t, base, m);
    let cur = MapBlockView { includes: m.includes.take(k), patterns: Seq::empty(), ..rb };
    let j = base + row_start(rows, first + k);
    lemma_rows_grow(m, m.patterns.len() as int);
    lemma_includes_grow(m, m.includes.len() as int);
    if k == m.includes.len() {
        assert(m.includes.take(k) =~= m.includes);
        assert(rb.patterns.take(0) =~= Seq::<(MapPatternView, ValueView)>::empty());
        lemma_patterns_read(t, base, m, 0);
    } else {
        lemma_row_tokens(t, base, rows, first + k);
        let row = rows[first + k];
        assert(row == include_rows(m, m.includes.len() as int)[first + k]);
        assert(row == seq!["include"@, m.includes[k]]);
        assert(t.is_string(j + 0));
        assert(t.is_string(j + 1));
        assert(t.text(j + 0) == row[0]);
        assert(t.text(j + 1) == row[1]);
        lemma_include_entry(t, j, cur, m.includes[k]);
        let next = MapBlockView { includes: m.includes.take(k + 1), patterns: Seq::empty(), ..rb };
        assert(cur.includes.push(m.includes[k]) =~= m.includes.take(k + 1));
        assert(map_entry(t, j, cur) == Some(Ok::<_, ErrorView>((next, j + 3))));
        lemma_includes_read(t, base, m, k + 1);
    }
}

/// The rows of the switches and of the default stand first among the
/// rows of a `map` block.
pub proof fn lemma_setting_rows(m: MapBlockView)
    ensures
        setting_rows(m).len() == default_index(m) + (if m.default is Some {
            1int
        } else {
            0int
        }),
        setting_rows(m).len() <= map_rows(m).len(),
        forall|j: int| 0 <= j < setting_rows(m).len() ==> map_rows(m)[j] == setting_rows(m)[j],
        m.volatile ==> setting_rows(m)[0] == seq!["volatile"@],
        m.hostnames ==> setting_rows(m)[default_index(m) - 1] == seq!["hostnames"@],
        m.default matches Some(v) ==> setting_rows(m)[default_index(m)] == seq![
            "default"@,
            value_text(v.data),
        ],
{
    lemma_rows_grow(m, m.patterns.len() as int);
    lemma_includes_grow(m, m.includes.len() as int);
    let rows = map_rows(m);
    let s = setting_rows(m);
    assert forall|j: int| 0 <= j < s.len() implies rows[j] == s[j] by {
        assert(rows[j] == include_rows(m, m.includes.len() as int)[j]);
    }
}

/// The grammar reads the rows of a `map` block.
pub proof fn lemma_settings_read(t: Lexed, base: int, m: MapBlockView)
    requires
        map_ok(m),
        0 <= base,
        has_tokens(t, base, body_tokens(m)),
        !t.is_string(base + body_tokens(m).len()),
    ensures
        map_entries(
            t,
            base,
            MapBlockView {
                default: None,
                hostnames: false,
                volatile: false,
                includes: Seq::empty(),
                patterns: Seq::empty(),
                ..read_block(t, base, m)
            },
        ) == Ok::<_, ErrorView>((read_block(t, base, m), base + body_tokens(m).len())),
{
    let rows = map_rows(m);
    let rb = read_block(t, base, m);
    let end = base + body_tokens(m).len();
    let s0 = MapBlockView {
        default: None,
        hostnames: false,
        volatile: false,
        includes: Seq::empty(),
        patterns: Seq::empty(),
        ..rb
    };
    let s1 = MapBlockView { volatile: m.volatile, ..s0 };
    let s2 = MapBlockView { hostnames: m.hostnames, ..s1 };
    let s3 = MapBlockView { default: rb.default, ..s2 };
    let d = default_index(m);
    let r1: int = if m.volatile {
        1
    } else {
        0
    };
    let n = setting_rows(m).len() as int;
    lemma_setting_rows(m);
    assert(m.includes.take(0) =~= Seq::<Seq<char>>::empty());
    lemma_includes_read(t, base, m, 0);
    assert(map_entries(t, base + row_start(rows, n), s3) == Ok::<_, ErrorView>((rb, end)));
    assert(map_entries(t, base + row_start(rows, d), s2) == Ok::<_, ErrorView>((rb, end))) by {
        match m.default {
            Some(v) => {
                let j = base + row_start(rows, d);
                lemma_row_tokens(t, base, rows, d);
                assert(rows[d] == seq!["default"@, value_text(v.data)]);
                assert(t.is_string(j + 0));
                assert(t.is_string(j + 1));
                assert(t.text(j + 0) == rows[d][0]);
                assert(t.text(j + 1) == rows[d][1]);
                lemma_default_entry(t, j, s2, v);
                assert(map_entry(t, j, s2) == Some(Ok::<_, ErrorView>((s3, j + 3))));
            },
            None => {
                assert(s3 == s2);
            },
        }
    }
    assert(map_entries(t, base + row_start(rows, r1), s1) == Ok::<_, ErrorView>((rb, end))) by {
        if m.hostnames {
            let j = base + row_start(rows, r1);
            lemma_row_tokens(t, base, rows, r1);
            assert(rows[r1] == seq!["hostnames"@]);
            assert(t.is_string(j + 0));
            assert(t.text(j + 0) == rows[r1][0]);
            lemma_hostnames_entry(t, j, s1);
            assert(map_entry(t, j, s1) == Some(Ok::<_, ErrorView>((s2, j + 2))));
        } else {
            assert(s2 == s1);
        }
    }
    assert(row_start(rows, 0) == 0);
    assert(map_entries(t, base + row_start(rows, 0), s0) == Ok::<_, ErrorView>((rb, end))) by {
        if m.volatile {
            let j = base + row_start(rows, 0);
            lemma_row_tokens(t, base, rows, 0);
            assert(rows[0] == seq!["volatile"@]);
            assert(t.is_string(j + 0));
            assert(t.text(j + 0) == rows[0][0]);
            lemma_volatile_entry(t, j, s0);
            assert(map_entry(t, j, s0) == Some(Ok::<_, ErrorView>((s1, j + 2))));
        } else {
            assert(s1 == s0);
        }
    }
}

/// What the grammar reads from the tokens of a `map` block is the block
/// but for the positions in it.
pub proof fn lemma_read_alike(t: Lexed, base: int, m: MapBlockView)
    ensures
        alike(ItemView::MapBlock(m), ItemView::MapBlock(read_block(t, base, m))),
{
    let rb = read_block(t, base, m);
    let a = ItemView::MapBlock(m);
    let b = ItemView::MapBlock(rb);
    let va = m.values();
    let vb = rb.values();
    assert(va.len() == vb.len());
    assert forall|k: int| 0 <= k < va.len() implies (#[trigger] va[k]).data == vb[k].data by {}
    let skip: int = if m.default is Some {
        2
    } else {
        1
    };
    assert(crate::ast::patterns_with(m.patterns, vb.skip(skip)) =~= rb.patterns) by {
        assert forall|k: int| 0 <= k < m.patterns.len() implies crate::ast::patterns_with(
            m.patterns,
            vb.skip(skip),
        )[k] == rb.patterns[k] by {
            assert(vb.skip(skip)[k] == vb[skip + k]);
        }
    }
    assert(m.with_values(vb) == rb);
    assert(a.values() == va);
    assert(b.values() == vb);
}

/// A `map` block is read back from its tokens.
pub proof fn lemma_map_parsed(t: Lexed, i: int, m: MapBlockView)
    requires
        map_ok(m),
        has_tokens(t, i, map_tokens(m)),
    ensures
        item_spec(t, i) matches Some(Ok((back, j))) && j == i + map_tokens(m).len() && alike(
            ItemView::MapBlock(m),
            back,
        ),
{
    let ws = map_words(m);
    let head = string_tokens(ws).push(punct_token('{'));
    let body = body_tokens(m);
    let w = map_tokens(m);
    let n = body.len() as int;
    assert(w == head + body + seq![punct_token('}')]);
    assert(head.len() == 4);
    assert forall|k: int| 0 <= k < 4 implies (#[trigger] t.tokens[i + k]).token == head[k] by {
        assert(t.tokens[i + k].token == w[k]);
    }
    assert(t.tokens[i + 0].token == head[0]);
    assert(t.tokens[i + 1].token == head[1]);
    assert(t.tokens[i + 2].token == head[2]);
    assert(t.tokens[i + 3].token == head[3]);
    assert(head[0] == crate::layout_laws::string_token(ws[0]));
    assert(head[1] == crate::layout_laws::string_token(ws[1]));
    assert(head[2] == crate::layout_laws::string_token(ws[2]));
    assert(t.is_string(i) && t.text(i) == "map"@);
    lemma_named_read(t, i);
    lemma_value_read(t, i + 1, m.expression, seq!["String"@]);
    lemma_variable_word(m.variable);
    assert(t.is_string(i + 2) && t.text(i + 2) == seq!['$'] + m.variable);
    assert(t.is_kind(i + 3, Kind::BlockStart));
    let base = i + 4;
    assert forall|k: int| 0 <= k < body.len() implies (#[trigger] t.tokens[base + k]).token
        == body[k] by {
        assert(t.tokens[i + (4 + k)].token == w[4 + k]);
    }
    assert(has_tokens(t, base, body));
    assert(t.tokens[i + (4 + n)].token == w[4 + n]);
    assert(t.is_kind(base + n, Kind::BlockEnd));
    lemma_settings_read(t, base, m);
    let rb = read_block(t, base, m);
    lemma_read_alike(t, base, m);
    assert(map_finish(t, Ok::<_, ErrorView>((rb, base + n))) == Ok::<_, ErrorView>(
        (ItemView::MapBlock(rb), base + n + 1),
    ));
    assert(map_spec(t, i) == Ok::<_, ErrorView>((ItemView::MapBlock(rb), base + n + 1)));
}

/// A `map` block that is like one that is read back as it is written has
/// the same words and rows, and is read back as it is written.
pub proof fn lemma_map_alike(a: MapBlockView, b: ItemView)
    requires
        map_ok(a),
        alike_here(ItemView::MapBlock(a), b),
    ensures
        b is MapBlock,
        map_ok(b->MapBlock_0),
        map_words(b->MapBlock_0) == map_words(a),
        map_rows(b->MapBlock_0) == map_rows(a),
{
    let x = ItemView::MapBlock(a);
    let va = a.values();
    let vb = b.values();
    let m = b->MapBlock_0;
    assert(b == x.with_values(vb));
    assert(m == a.with_values(vb));
    assert(x.values() == va);
    assert(vb == m.values());
    let skip: int = if a.default is Some {
        2
    } else {
        1
    };
    assert(va[0] == a.expression);
    assert(vb[0] == m.expression);
    assert(va[0].data == vb[0].data);
    match a.default {
        Some(d) => {
            assert(va[1] == d);
            assert(vb[1] == m.default->0);
            assert(va[1].data == vb[1].data);
        },
        None => {},
    }
    assert(m.patterns.len() == a.patterns.len());
    assert forall|k: int| 0 <= k < a.patterns.len() implies (#[trigger] m.patterns[k]).0
        == a.patterns[k].0 && m.patterns[k].1.data == a.patterns[k].1.data by {
        assert(va[skip + k] == a.patterns[k].1);
        assert(vb[skip + k] == m.patterns[k].1);
        assert(va[skip + k].data == vb[skip + k].data);
    }
    assert forall|k: int| 0 <= k < m.patterns.len() implies pattern_ok(
        (#[trigger] m.patterns[k]).0,
        m.hostnames,
    ) && lexable(m.patterns[k].1) by {
        assert(pattern_ok(a.patterns[k].0, a.hostnames) && lexable(a.patterns[k].1));
    }
    lemma_same_rows(a, m, a.patterns.len() as int);
}

/// Blocks with the same switches, files and patterns, and values with
/// the same pieces, have the same rows.
pub proof fn lemma_same_rows(a: MapBlockView, b: MapBlockView, k: int)
    requires
        a.volatile == b.volatile,
        a.hostnames == b.hostnames,
        a.includes == b.includes,
        a.default is Some == b.default is Some,
        a.default matches Some(v) ==> b.default->0.data == v.data,
        a.patterns.len() == b.patterns.len(),
        forall|j: int|
            0 <= j < a.patterns.len() ==> (#[trigger] b.patterns[j]).0 == a.patterns[j].0
                && b.patterns[j].1.data == a.patterns[j].1.data,
        0 <= k <= a.patterns.len(),
    ensures
        pattern_rows(b, k) == pattern_rows(a, k),
    decreases k,
{
    if k > 0 {
        lemma_same_rows(a, b, k - 1);
        assert(b.patterns[k - 1].0 == a.patterns[k - 1].0);
    } else {
        assert(setting_rows(a) == setting_rows(b));
        lemma_same_includes(a, b, a.includes.len() as int);
    }
}

/// Blocks with the same rows of settings and the same files have the
/// same rows up to each file.
pub proof fn lemma_same_includes(a: MapBlockView, b: MapBlockView, k: int)
    requires
        setting_rows(a) == setting_rows(b),
        a.includes == b.includes,
    ensures
        include_rows(b, k) == include_rows(a, k),
    decreases k,
{
    if k > 0 {
        lemma_same_includes(a, b, k - 1);
    }
}

} // verus!
