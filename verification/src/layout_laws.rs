//! The tokens of lines and blocks as the formatter writes them.

use vstd::prelude::*;
use crate::format::{spaces, Page};
use crate::lex_laws::{
    is_delimiter, is_gap, is_word, lemma_gap, lemma_punct, lemma_word, punct_kind, words_from,
};
use crate::tokenizer::{Kind, TokenView};

verus! {

/// Whether every text that starts with `t` has the tokens `w` and then
/// the tokens of what stands behind `t`.
pub open spec fn reads_as(t: Seq<char>, w: Seq<TokenView>) -> bool {
    forall|r: Seq<char>| #[trigger]
        words_from(t + r, 0) == (w + words_from(r, 0).0, words_from(r, 0).1)
}

/// The string token with the text `w`.
pub open spec fn string_token(w: Seq<char>) -> TokenView {
    TokenView { kind: Kind::String, value: w }
}

/// The token of the character `c`, a brace or a semicolon.
pub open spec fn punct_token(c: char) -> TokenView {
    TokenView { kind: punct_kind(c), value: seq![c] }
}

/// The string tokens with the texts `ws`.
pub open spec fn string_tokens(ws: Seq<Seq<char>>) -> Seq<TokenView> {
    ws.map_values(|w: Seq<char>| string_token(w))
}

/// The tokens of two texts, one behind the other, are the tokens of the
/// first and then the tokens of the second.
pub proof fn lemma_reads_both(a: Seq<char>, wa: Seq<TokenView>, b: Seq<char>, wb: Seq<TokenView>)
    requires
        reads_as(a, wa),
        reads_as(b, wb),
    ensures
        reads_as(a + b, wa + wb),
{
    assert forall|r: Seq<char>| #[trigger]
        words_from((a + b) + r, 0) == ((wa + wb) + words_from(r, 0).0, words_from(r, 0).1) by {
        assert((a + b) + r =~= a + (b + r));
        assert(words_from(a + (b + r), 0) == (
            wa + words_from(b + r, 0).0,
            words_from(b + r, 0).1,
        ));
        assert(words_from(b + r, 0) == (wb + words_from(r, 0).0, words_from(r, 0).1));
        assert((wa + wb) + words_from(r, 0).0 =~= wa + (wb + words_from(r, 0).0));
    }
}

/// The empty text has no tokens.
pub proof fn lemma_reads_nothing()
    ensures
        reads_as(Seq::empty(), Seq::empty()),
{
    assert forall|r: Seq<char>| #[trigger]
        words_from(Seq::<char>::empty() + r, 0) == (
            Seq::<TokenView>::empty() + words_from(r, 0).0,
            words_from(r, 0).1,
        ) by {
        assert(Seq::<char>::empty() + r =~= r);
        assert(Seq::<TokenView>::empty() + words_from(r, 0).0 =~= words_from(r, 0).0);
    }
}

/// Blanks and line ends have no tokens.
pub proof fn lemma_reads_gap(g: Seq<char>)
    requires
        is_gap(g),
    ensures
        reads_as(g, Seq::empty()),
{
    assert forall|r: Seq<char>| #[trigger]
        words_from(g + r, 0) == (
            Seq::<TokenView>::empty() + words_from(r, 0).0,
            words_from(r, 0).1,
        ) by {
        lemma_gap(g, r);
        assert(Seq::<TokenView>::empty() + words_from(r, 0).0 =~= words_from(r, 0).0);
    }
}

/// A brace or a semicolon is one token.
pub proof fn lemma_reads_punct(c: char)
    requires
        c == '{' || c == '}' || c == ';',
    ensures
        reads_as(seq![c], seq![punct_token(c)]),
{
    assert forall|r: Seq<char>| #[trigger]
        words_from(seq![c] + r, 0) == (
            seq![punct_token(c)] + words_from(r, 0).0,
            words_from(r, 0).1,
        ) by {
        lemma_punct(c, r);
    }
}

/// A word with a blank, a semicolon or a line end behind it is one token
/// and then what the character behind it gives.
pub proof fn lemma_reads_word(w: Seq<char>, d: char)
    requires
        is_word(w),
        is_delimiter(d),
    ensures
        d == ';' ==> reads_as(w + seq![d], seq![string_token(w), punct_token(';')]),
        d != ';' ==> reads_as(w + seq![d], seq![string_token(w)]),
{
    let tail = if d == ';' {
        seq![punct_token(';')]
    } else {
        Seq::<TokenView>::empty()
    };
    if d == ';' {
        lemma_reads_punct(d);
    } else {
        lemma_reads_gap(seq![d]);
    }
    assert(reads_as(seq![d], tail));
    assert forall|r: Seq<char>| #[trigger]
        words_from((w + seq![d]) + r, 0) == (
            (seq![string_token(w)] + tail) + words_from(r, 0).0,
            words_from(r, 0).1,
        ) by {
        assert((w + seq![d]) + r =~= w + (seq![d] + r));
        assert((seq![d] + r)[0] == d);
        lemma_word(w, seq![d] + r);
        assert(words_from(seq![d] + r, 0) == (tail + words_from(r, 0).0, words_from(r, 0).1));
        assert((seq![string_token(w)] + tail) + words_from(r, 0).0 =~= seq![string_token(w)] + (
            tail + words_from(r, 0).0));
    }
    if d == ';' {
        assert(seq![string_token(w)] + tail =~= seq![string_token(w), punct_token(';')]);
    } else {
        assert(seq![string_token(w)] + tail =~= seq![string_token(w)]);
    }
}

/// The words `ws`, each with a blank behind it.
pub open spec fn spaced(ws: Seq<Seq<char>>) -> Seq<char>
    decreases ws.len(),
{
    if ws.len() == 0 {
        Seq::empty()
    } else {
        spaced(ws.drop_last()) + ws.last() + seq![' ']
    }
}

/// The words `ws` with a blank between them and a semicolon and a line
/// end behind the last.
pub open spec fn line_text(ws: Seq<Seq<char>>) -> Seq<char> {
    spaced(ws.drop_last()) + ws.last() + seq![';', '\n']
}

/// One word with a blank behind it.
pub proof fn lemma_spaced_one(w: Seq<char>)
    ensures
        spaced(seq![w]) == w + seq![' '],
{
    let ws = seq![w];
    assert(ws.drop_last() =~= Seq::<Seq<char>>::empty());
    assert(spaced(ws.drop_last()) =~= Seq::<char>::empty());
    assert(spaced(ws) =~= w + seq![' ']);
}

/// Two words with a blank behind each.
pub proof fn lemma_spaced_two(a: Seq<char>, b: Seq<char>)
    ensures
        spaced(seq![a, b]) == a + seq![' '] + b + seq![' '],
{
    let ws = seq![a, b];
    assert(ws.drop_last() =~= seq![a]);
    lemma_spaced_one(a);
    assert(spaced(ws) =~= a + seq![' '] + b + seq![' ']);
}

/// Words with a blank behind each are read as these words.
pub proof fn lemma_reads_spaced(ws: Seq<Seq<char>>)
    requires
        forall|i: int| 0 <= i < ws.len() ==> is_word(#[trigger] ws[i]),
    ensures
        reads_as(spaced(ws), string_tokens(ws)),
    decreases ws.len(),
{
    if ws.len() == 0 {
        lemma_reads_nothing();
        assert(string_tokens(ws) =~= Seq::<TokenView>::empty());
    } else {
        let head = ws.drop_last();
        assert forall|i: int| 0 <= i < head.len() implies is_word(#[trigger] head[i]) by {
            assert(head[i] == ws[i]);
        }
        lemma_reads_spaced(head);
        lemma_reads_word(ws.last(), ' ');
        lemma_reads_both(
            spaced(head),
            string_tokens(head),
            ws.last() + seq![' '],
            seq![string_token(ws.last())],
        );
        assert(spaced(ws) =~= spaced(head) + (ws.last() + seq![' ']));
        assert(string_tokens(ws) =~= string_tokens(head) + seq![string_token(ws.last())]);
    }
}

/// A line of words is read as these words and a semicolon.
pub proof fn lemma_reads_line(ws: Seq<Seq<char>>)
    requires
        ws.len() > 0,
        forall|i: int| 0 <= i < ws.len() ==> is_word(#[trigger] ws[i]),
    ensures
        reads_as(line_text(ws), string_tokens(ws).push(punct_token(';'))),
{
    let head = ws.drop_last();
    assert forall|i: int| 0 <= i < head.len() implies is_word(#[trigger] head[i]) by {
        assert(head[i] == ws[i]);
    }
    lemma_reads_spaced(head);
    lemma_reads_word(ws.last(), ';');
    lemma_reads_gap(seq!['\n']);
    lemma_reads_both(
        ws.last() + seq![';'],
        seq![string_token(ws.last()), punct_token(';')],
        seq!['\n'],
        Seq::empty(),
    );
    lemma_reads_both(
        spaced(head),
        string_tokens(head),
        (ws.last() + seq![';']) + seq!['\n'],
        seq![string_token(ws.last()), punct_token(';')] + Seq::<TokenView>::empty(),
    );
    assert(line_text(ws) =~= spaced(head) + ((ws.last() + seq![';']) + seq!['\n']));
    assert(string_tokens(ws).push(punct_token(';')) =~= string_tokens(head) + (seq![
        string_token(ws.last()),
        punct_token(';'),
    ] + Seq::<TokenView>::empty()));
}

/// Whether every text that starts with what the page holds has the
/// tokens `w` and then the tokens of what follows.
pub open spec fn page_reads(p: Page, w: Seq<TokenView>) -> bool {
    reads_as(p.text, w)
}

/// The page with a line of the words `ws` written behind it.
pub open spec fn with_line(p: Page, ws: Seq<Seq<char>>) -> Page {
    p.indent().write(line_text(ws))
}

/// The page with the line that opens a block, with the words `ws` before
/// the brace.
pub open spec fn with_head(p: Page, ws: Seq<Seq<char>>) -> Page {
    p.indent().write(spaced(ws)).start_block()
}

/// Spaces are blanks.
pub proof fn lemma_spaces_gap(n: nat)
    ensures
        is_gap(spaces(n)),
{
}

/// Writing a line adds its words and a semicolon to the tokens of the
/// page.
pub proof fn lemma_page_line(p: Page, w: Seq<TokenView>, ws: Seq<Seq<char>>)
    requires
        page_reads(p, w),
        ws.len() > 0,
        forall|i: int| 0 <= i < ws.len() ==> is_word(#[trigger] ws[i]),
    ensures
        page_reads(with_line(p, ws), w + string_tokens(ws).push(punct_token(';'))),
{
    lemma_spaces_gap(p.indent as nat);
    lemma_reads_gap(spaces(p.indent as nat));
    lemma_reads_line(ws);
    lemma_reads_both(p.text, w, spaces(p.indent as nat), Seq::empty());
    lemma_reads_both(
        p.text + spaces(p.indent as nat),
        w + Seq::<TokenView>::empty(),
        line_text(ws),
        string_tokens(ws).push(punct_token(';')),
    );
    assert(w + Seq::<TokenView>::empty() =~= w);
}

/// Writing the line that opens a block adds its words and an opening
/// brace to the tokens of the page.
pub proof fn lemma_page_head(p: Page, w: Seq<TokenView>, ws: Seq<Seq<char>>)
    requires
        page_reads(p, w),
        forall|i: int| 0 <= i < ws.len() ==> is_word(#[trigger] ws[i]),
    ensures
        page_reads(with_head(p, ws), w + string_tokens(ws).push(punct_token('{'))),
{
    lemma_spaces_gap(p.indent as nat);
    lemma_reads_gap(spaces(p.indent as nat));
    lemma_reads_spaced(ws);
    lemma_reads_punct('{');
    lemma_reads_gap(seq!['\n']);
    lemma_reads_both(p.text, w, spaces(p.indent as nat), Seq::empty());
    lemma_reads_both(
        p.text + spaces(p.indent as nat),
        w + Seq::<TokenView>::empty(),
        spaced(ws),
        string_tokens(ws),
    );
    lemma_reads_both(seq!['{'], seq![punct_token('{')], seq!['\n'], Seq::empty());
    lemma_reads_both(
        (p.text + spaces(p.indent as nat)) + spaced(ws),
        (w + Seq::<TokenView>::empty()) + string_tokens(ws),
        seq!['{'] + seq!['\n'],
        seq![punct_token('{')] + Seq::<TokenView>::empty(),
    );
    assert(with_head(p, ws).text =~= ((p.text + spaces(p.indent as nat)) + spaced(ws)) + (seq![
        '{',
    ] + seq!['\n']));
    assert(w + string_tokens(ws).push(punct_token('{')) =~= ((w + Seq::<TokenView>::empty())
        + string_tokens(ws)) + (seq![punct_token('{')] + Seq::<TokenView>::empty()));
}

/// Writing the line that closes a block adds a closing brace to the
/// tokens of the page.
pub proof fn lemma_page_close(p: Page, w: Seq<TokenView>, indent: u32)
    requires
        page_reads(p, w),
    ensures
        page_reads(p.end_block(indent), w.push(punct_token('}'))),
{
    lemma_spaces_gap(indent as nat);
    lemma_reads_gap(spaces(indent as nat));
    lemma_reads_punct('}');
    lemma_reads_gap(seq!['\n']);
    lemma_reads_both(p.text, w, spaces(indent as nat), Seq::empty());
    lemma_reads_both(seq!['}'], seq![punct_token('}')], seq!['\n'], Seq::empty());
    lemma_reads_both(
        p.text + spaces(indent as nat),
        w + Seq::<TokenView>::empty(),
        seq!['}'] + seq!['\n'],
        seq![punct_token('}')] + Seq::<TokenView>::empty(),
    );
    assert(p.end_block(indent).text =~= (p.text + spaces(indent as nat)) + (seq!['}'] + seq![
        '\n',
    ]));
    assert(w.push(punct_token('}')) =~= (w + Seq::<TokenView>::empty()) + (seq![
        punct_token('}'),
    ] + Seq::<TokenView>::empty()));
}

/// An empty line before a block adds no token.
pub proof fn lemma_page_margin(p: Page, w: Seq<TokenView>)
    requires
        page_reads(p, w),
    ensures
        page_reads(p.margin(), w),
{
    if p.text.len() > 0 {
        lemma_reads_gap(seq!['\n']);
        lemma_reads_both(p.text, w, seq!['\n'], Seq::empty());
        assert(w + Seq::<TokenView>::empty() =~= w);
    }
}

} // verus!
