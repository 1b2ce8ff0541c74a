//! Reading back a configuration that was written.
//!
//! The laws of this file hold of the configurations whose directives are
//! described in `forms`: what the formatter writes for them is read back
//! as the same directives, and written again as the same text.

use vstd::prelude::*;
use crate::ast::{DirectiveView, ItemView, MainView};
use crate::display::{main_text, render_directives, render_item};
use crate::format::Page;
use crate::forms::{
    alike, alike_here, alike_list, all_in_class, bare_item, block_tokens, has_block, has_margin,
    has_tokens, in_class, item_tokens, line_words, list_tokens, words_ok,
};
use crate::forms_laws::{
    block_names, head_page, head_read, lemma_alike_words, lemma_block_line, lemma_head_parsed,
    lemma_leaf_line, lemma_leaf_parsed, lemma_line_words,
};
use crate::grammar::{block_spec, directives_spec, item_spec, parse_spec};
use crate::layout_laws::{
    lemma_page_close, lemma_page_head, lemma_page_line, lemma_page_margin, lemma_reads_nothing,
    page_reads, punct_token, string_tokens,
};
use crate::lex_laws::{lemma_words_of_lex, words_from, words_of};
use crate::tokenizer::{lex, Kind, LexError, Lexed, TokenView};

verus! {

/// Writing a directive of the class adds its tokens to the tokens of the
/// page.
pub proof fn lemma_item_reads(item: ItemView, p: Page, w: Seq<TokenView>)
    requires
        page_reads(p, w),
        in_class(item),
    ensures
        page_reads(render_item(item, p), w + item_tokens(item)),
    decreases item, 0nat,
{
    lemma_line_words(item);
    if item is MapBlock {
        crate::forms_map::lemma_map_reads(item->MapBlock_0, p, w);
    } else if has_block(item) {
        let list = item.children()->0;
        lemma_block_line(item, p);
        if has_margin(item) {
            lemma_page_margin(p, w);
            lemma_page_head(p.margin(), w, line_words(item));
        } else {
            lemma_page_head(p, w, line_words(item));
        }
        let w1 = w + string_tokens(line_words(item)).push(punct_token('{'));
        assert(all_in_class(list));
        lemma_list_reads(list, list.len(), head_page(item, p), w1);
        let body = render_directives(list, list.len(), head_page(item, p));
        lemma_page_close(body, w1 + list_tokens(list, list.len()), p.indent);
        assert(item_tokens(item) == block_tokens(line_words(item), list_tokens(list, list.len())));
        assert((w1 + list_tokens(list, list.len())).push(punct_token('}')) =~= w + item_tokens(
            item,
        ));
    } else {
        lemma_leaf_line(item, p);
        lemma_page_line(p, w, line_words(item));
    }
}

/// Writing the first `n` directives of a list of the class adds their
/// tokens to the tokens of the page.
pub proof fn lemma_list_reads(list: Seq<DirectiveView>, n: nat, p: Page, w: Seq<TokenView>)
    requires
        page_reads(p, w),
        all_in_class(list),
        n <= list.len(),
    ensures
        page_reads(render_directives(list, n, p), w + list_tokens(list, n)),
    decreases list, n,
{
    if n == 0 {
        assert(w + list_tokens(list, n) =~= w);
    } else {
        lemma_list_reads(list, (n - 1) as nat, p, w);
        let q = render_directives(list, (n - 1) as nat, p);
        let w1 = w + list_tokens(list, (n - 1) as nat);
        assert(in_class(list[n - 1].item));
        lemma_item_reads(list[n - 1].item, q, w1);
        assert(w1 + item_tokens(list[n - 1].item) =~= w + list_tokens(list, n));
    }
}

/// The tokens of the text of a configuration of the class are the tokens
/// of its directives, and the text ends without an error.
pub proof fn lemma_text_tokens(list: Seq<DirectiveView>, step: u32)
    requires
        all_in_class(list),
    ensures
        words_of(lex(render_directives(list, list.len(), Page::blank(step)).text)) == list_tokens(
            list,
            list.len(),
        ),
        lex(render_directives(list, list.len(), Page::blank(step)).text).end
            == LexError::EndOfInput,
{
    lemma_reads_nothing();
    lemma_list_reads(list, list.len(), Page::blank(step), Seq::empty());
    let text = render_directives(list, list.len(), Page::blank(step)).text;
    let w = Seq::<TokenView>::empty() + list_tokens(list, list.len());
    assert(w =~= list_tokens(list, list.len()));
    let nothing = Seq::<char>::empty();
    assert(text + nothing =~= text);
    assert(words_from(text + nothing, 0) == (
        w + words_from(nothing, 0).0,
        words_from(nothing, 0).1,
    ));
    assert(words_from(nothing, 0) == (Seq::<TokenView>::empty(), LexError::EndOfInput));
    assert(w + Seq::<TokenView>::empty() =~= w);
    lemma_words_of_lex(text);
}

/// The tokens of the first `n` directives start with the tokens of the
/// first `k`, and the tokens of the directive `k` follow.
pub proof fn lemma_list_tokens(list: Seq<DirectiveView>, k: nat, n: nat)
    requires
        k < n <= list.len(),
    ensures
        list_tokens(list, k + 1) == list_tokens(list, k) + item_tokens(list[k as int].item),
        list_tokens(list, k + 1).len() <= list_tokens(list, n).len(),
        list_tokens(list, n).subrange(
            list_tokens(list, k).len() as int,
            list_tokens(list, k + 1).len() as int,
        ) == item_tokens(list[k as int].item),
    decreases n - k,
{
    let a = list_tokens(list, k);
    let b = item_tokens(list[k as int].item);
    assert(list_tokens(list, k + 1) == a + b);
    if n == k + 1 {
        assert((a + b).subrange(a.len() as int, (a + b).len() as int) =~= b);
    } else {
        lemma_list_tokens(list, k, (n - 1) as nat);
        lemma_list_tokens(list, (n - 1) as nat, n);
        let m = list_tokens(list, (n - 1) as nat);
        assert(list_tokens(list, n) == m + item_tokens(list[n - 1].item));
        assert(list_tokens(list, n).subrange(a.len() as int, (a + b).len() as int)
            =~= m.subrange(a.len() as int, (a + b).len() as int));
    }
}

/// A part of the tokens that stand in a list stands in the list.
pub proof fn lemma_has_part(t: Lexed, i: int, w: Seq<TokenView>, from: int, to: int)
    requires
        has_tokens(t, i, w),
        0 <= from <= to <= w.len(),
    ensures
        has_tokens(t, i + from, w.subrange(from, to)),
{
    assert forall|k: int| 0 <= k < to - from implies (#[trigger] t.tokens[i + from + k]).token
        == w.subrange(from, to)[k] by {
        assert(t.tokens[i + (from + k)].token == w[from + k]);
    }
}

/// Every directive has a token.
pub proof fn lemma_item_tokens_some(item: ItemView)
    ensures
        item_tokens(item).len() > 0,
{
}

/// The grammar reads a directive of the class from its tokens, and what
/// it reads is the directive but for the positions in it.
#[verifier::rlimit(100)]
#[verifier::spinoff_prover]
pub proof fn lemma_item_parsed(t: Lexed, i: int, item: ItemView)
    requires
        in_class(item),
        has_tokens(t, i, item_tokens(item)),
    ensures
        item_spec(t, i) matches Some(Ok((back, j))) && j == i + item_tokens(item).len() && alike(
            item,
            back,
        ),
    decreases item, 0nat,
{
    if item is MapBlock {
        crate::forms_map::lemma_map_parsed(t, i, item->MapBlock_0);
    } else if has_block(item) {
        let list = item.children()->0;
        let head = string_tokens(line_words(item)).push(punct_token('{'));
        let inner = list_tokens(list, list.len());
        let w = item_tokens(item);
        assert(w == block_tokens(line_words(item), inner));
        let h = head.len() as int;
        let m = inner.len() as int;
        lemma_has_part(t, i, w, 0, h);
        assert(w.subrange(0, h) =~= head);
        lemma_head_parsed(t, i, item);
        lemma_has_part(t, i, w, h, h + m);
        assert(w.subrange(h, h + m) =~= inner);
        assert(t.tokens[i + (h - 1)].token == w[h - 1]);
        assert(t.tokens[i + (h + m)].token == w[h + m]);
        assert(all_in_class(list));
        assert(list_tokens(list, 0) =~= Seq::<TokenView>::empty());
        lemma_list_parsed(t, i + h, list, 0, Seq::empty(), true, false);
        let out = directives_spec(t, i + h, Seq::empty(), true, false)->Ok_0.0;
        assert forall|k: int| 0 <= k < list.len() implies alike(
            (#[trigger] list[k]).item,
            out[k].item,
        ) by {
            assert(alike(list[k].item, out[0 + k - 0].item));
        }
        let b = block_spec(t, i + h - 1, block_names(item))->Ok_0.0;
        let back = head_read(t, i, item).with_children(b.directives).with_span(b.position);
        assert(b.directives == out);
        lemma_block_alike(item, head_read(t, i, item), b.directives, b.position);
    } else {
        lemma_leaf_parsed(t, i, item);
    }
}

/// A directive with a block that is like another but for its block stays
/// like it when it gets a block and positions.
pub proof fn lemma_block_alike(
    item: ItemView,
    head: ItemView,
    list: Seq<DirectiveView>,
    span: crate::position::Span,
)
    requires
        has_block(item),
        alike_here(item, head),
    ensures
        alike_here(item, head.with_children(list).with_span(span)),
        head.with_children(list).with_span(span).children() == Some(list),
        head.with_children(list).with_span(span).values() == head.values(),
{
}

/// The grammar reads the directives of a list of the class from the
/// directive `k` on, when the directives before it are read, and what it
/// reads are these directives but for the positions in them.
pub proof fn lemma_list_parsed(
    t: Lexed,
    start: int,
    list: Seq<DirectiveView>,
    k: nat,
    acc: Seq<DirectiveView>,
    in_block: bool,
    first: bool,
)
    requires
        all_in_class(list),
        k <= list.len(),
        has_tokens(t, start, list_tokens(list, list.len())),
        in_block ==> t.is_kind(start + list_tokens(list, list.len()).len(), Kind::BlockEnd),
        !in_block ==> start + list_tokens(list, list.len()).len() == t.tokens.len() && t.end
            == LexError::EndOfInput,
        k == list.len() ==> in_block || !first,
    ensures
        directives_spec(t, start + list_tokens(list, k).len(), acc, in_block, first) matches Ok(
            (out, j),
        ) && j == start + list_tokens(list, list.len()).len() && out.len() == acc.len()
            + list.len() - k && (forall|m: int| 0 <= m < acc.len() ==> out[m] == acc[m])
            && forall|m: int|
            k <= m < list.len() ==> alike((#[trigger] list[m]).item, out[acc.len() + m - k].item),
    decreases list, list.len() - k,
{
    let n = list.len();
    let all = list_tokens(list, n);
    let i = start + list_tokens(list, k).len();
    if k == n {
        assert(!t.is_string(i));
    } else {
        lemma_list_tokens(list, k, n);
        let w = item_tokens(list[k as int].item);
        lemma_has_part(
            t,
            start,
            all,
            list_tokens(list, k).len() as int,
            list_tokens(list, k + 1).len() as int,
        );
        assert(in_class(list[k as int].item));
        lemma_item_parsed(t, i, list[k as int].item);
        let back = item_spec(t, i)->0->Ok_0.0;
        let j = item_spec(t, i)->0->Ok_0.1;
        lemma_item_tokens_some(list[k as int].item);
        let next = acc.push(DirectiveView { position: t.position(i), item: back });
        lemma_list_parsed(t, start, list, k + 1, next, in_block, false);
        let out = directives_spec(t, j, next, in_block, false)->Ok_0.0;
        assert(out[acc.len() as int] == next[acc.len() as int]);
        assert forall|m: int| 0 <= m < acc.len() implies out[m] == acc[m] by {
            assert(out[m] == next[m]);
        }
        assert forall|m: int| k <= m < list.len() implies alike(
            (#[trigger] list[m]).item,
            out[acc.len() + m - k].item,
        ) by {
            if m > k {
                assert(alike(list[m].item, out[next.len() + m - (k + 1)].item));
            }
        }
    }
}

/// Directives on one line that are the same but for the positions in
/// them are written as the same text, and are in the class together.
proof fn lemma_alike_leaf(a: ItemView, b: ItemView, p: Page)
    requires
        words_ok(a),
        alike_here(a, b),
        !has_block(a),
        !(a is MapBlock),
    ensures
        words_ok(b),
        !has_block(b),
        !(b is MapBlock),
        render_item(b, p) == render_item(a, p),
{
    lemma_alike_words(a, b);
    assert(bare_item(b) == bare_item(a).with_values(b.values()));
    assert(!(b is MapBlock));
    lemma_leaf_line(a, p);
    lemma_leaf_line(b, p);
}

/// `map` blocks that are the same but for the positions in them are
/// written as the same text, and are in the class together.
proof fn lemma_alike_map(a: ItemView, b: ItemView, p: Page)
    requires
        a is MapBlock,
        words_ok(a),
        alike_here(a, b),
    ensures
        b is MapBlock,
        words_ok(b),
        render_item(b, p) == render_item(a, p),
{
    crate::forms_map::lemma_map_alike(a->MapBlock_0, b);
    crate::forms_map::lemma_map_text(a->MapBlock_0, p);
    crate::forms_map::lemma_map_text(b->MapBlock_0, p);
}

/// Directives that are the same but for the positions in them are
/// written as the same text, and are in the class together.
pub proof fn lemma_alike_renders(a: ItemView, b: ItemView, p: Page)
    requires
        in_class(a),
        alike(a, b),
    ensures
        in_class(b),
        render_item(b, p) == render_item(a, p),
    decreases a, 0nat,
{
    if a is MapBlock {
        lemma_alike_map(a, b, p);
    } else if has_block(a) {
        lemma_alike_words(a, b);
        let x = a.children()->0;
        let y = b.children()->0;
        assert(alike_list(x, y));
        assert(all_in_class(x));
        lemma_block_line(a, p);
        lemma_block_line(b, p);
        lemma_alike_list_renders(x, y, x.len(), head_page(a, p));
        assert(all_in_class(y));
    } else {
        lemma_alike_leaf(a, b, p);
    }
}

/// Lists of directives that are the same but for the positions in them
/// are written as the same text, and are in the class together.
pub proof fn lemma_alike_list_renders(
    a: Seq<DirectiveView>,
    b: Seq<DirectiveView>,
    n: nat,
    p: Page,
)
    requires
        all_in_class(a),
        alike_list(a, b),
        n <= a.len(),
    ensures
        all_in_class(b),
        render_directives(b, n, p) == render_directives(a, n, p),
    decreases a, n,
{
    assert forall|k: int| 0 <= k < b.len() implies in_class((#[trigger] b[k]).item) by {
        assert(in_class(a[k].item));
        assert(alike(a[k].item, b[k].item));
        lemma_alike_renders(a[k].item, b[k].item, p);
    }
    if n > 0 {
        lemma_alike_list_renders(a, b, (n - 1) as nat, p);
        assert(in_class(a[n - 1].item));
        assert(alike(a[n - 1].item, b[n - 1].item));
        lemma_alike_renders(
            a[n - 1].item,
            b[n - 1].item,
            render_directives(a, (n - 1) as nat, p),
        );
    }
}

/// The text of a configuration of the class is read back as the
/// configuration but for the positions in it, and what is read back is
/// written as the same text.
pub proof fn lemma_round_trip(list: Seq<DirectiveView>)
    requires
        list.len() > 0,
        all_in_class(list),
    ensures
        parse_spec(main_text(MainView { directives: list })) matches Ok(back) && alike_list(
            list,
            back,
        ) && all_in_class(back) && main_text(MainView { directives: back }) == main_text(
            MainView { directives: list },
        ),
{
    let text = main_text(MainView { directives: list });
    let t = lex(text);
    let w = list_tokens(list, list.len());
    lemma_text_tokens(list, 4);
    assert(t.tokens.len() == w.len());
    assert forall|k: int| 0 <= k < w.len() implies (#[trigger] t.tokens[0 + k]).token
        == w[k] by {
        assert(words_of(t)[k] == t.tokens[k].token);
    }
    assert(list_tokens(list, 0) =~= Seq::<TokenView>::empty());
    lemma_list_parsed(t, 0, list, 0, Seq::empty(), false, true);
    let back = directives_spec(t, 0, Seq::empty(), false, true)->Ok_0.0;
    assert forall|k: int| 0 <= k < list.len() implies alike(
        (#[trigger] list[k]).item,
        back[k].item,
    ) by {
        assert(alike(list[k].item, back[0 + k - 0].item));
    }
    lemma_alike_list_renders(list, back, list.len(), Page::blank(4));
}

/// A list of directives that the grammar has read, where one must
/// stand, is not empty.
pub proof fn lemma_read_some(t: Lexed, i: int, acc: Seq<DirectiveView>, first: bool)
    requires
        0 <= i,
    ensures
        directives_spec(t, i, acc, false, first) matches Ok((out, _)) ==> out.len() >= acc.len()
            && (first ==> out.len() > acc.len()),
    decreases t.tokens.len() - i,
{
    match item_spec(t, i) {
        Some(Ok((item, j))) => {
            if i < j <= t.tokens.len() {
                lemma_read_some(
                    t,
                    j,
                    acc.push(DirectiveView { position: t.position(i), item }),
                    false,
                );
            }
        },
        _ => {},
    }
}

/// Writing a configuration that was read and is of the class, reading
/// the text and writing it again gives the same text: the formatter
/// changes nothing in what it has written.
pub proof fn lemma_format_again(text: Seq<char>)
    requires
        parse_spec(text) is Ok,
        all_in_class(parse_spec(text)->Ok_0),
    ensures
        ({
            let once = main_text(MainView { directives: parse_spec(text)->Ok_0 });
            parse_spec(once) matches Ok(back) && main_text(MainView { directives: back }) == once
        }),
{
    lemma_read_some(lex(text), 0, Seq::empty(), true);
    lemma_round_trip(parse_spec(text)->Ok_0);
}

/// A text in the form in which the formatter writes a configuration of
/// the class is read and written back as the same text.
pub proof fn lemma_canonical_text(text: Seq<char>, list: Seq<DirectiveView>)
    requires
        list.len() > 0,
        all_in_class(list),
        text == main_text(MainView { directives: list }),
    ensures
        parse_spec(text) matches Ok(back) && main_text(MainView { directives: back }) == text,
{
    lemma_round_trip(list);
}

} // verus!
