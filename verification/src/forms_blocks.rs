//! The directives with a block and words before it: how each is written,
//! and that it is read back.

use vstd::prelude::*;
use crate::ast::{ItemView, LimitExceptView, LocationPatternView, LocationView};
use crate::display::{block_head, render_location_pattern};
use crate::error::ErrorView;
use crate::format::Page;
use crate::forms::{has_tokens, line_words};
use crate::forms_kinds::{lemma_run_read, lemma_spaced_joined, lemma_texts_joined};
use crate::grammar::{
    block_spec, directive_names, item_spec, location_pattern_spec, stuck,
};
use crate::helpers::{run_end, texts_spec, unexpected_at, Parsed};
use crate::layout_laws::{
    lemma_spaced_two, punct_token, spaced, string_token, string_tokens, with_head,
};
use crate::lex_laws::{is_simple_word, is_word, lemma_simple_word};
use crate::names::{lemma_names_distinct, lemma_names_listed};
use crate::text::is_prefix;
use crate::tokenizer::Lexed;

verus! {

/// What the grammar makes of a `location` that starts at `kw`.
pub open spec fn location_result(t: Lexed, kw: int) -> Parsed<ItemView> {
    match location_pattern_spec(t, kw) {
        Err(e) => Err(e),
        Ok((pattern, i)) => if kw < i <= t.tokens.len() {
            match block_spec(t, i, Seq::empty()) {
                Ok((b, j)) => Ok(
                    (
                        ItemView::Location(
                            LocationView {
                                position: b.position,
                                pattern,
                                directives: b.directives,
                            },
                        ),
                        j,
                    ),
                ),
                Err(e) => Err(e),
            }
        } else {
            Err(stuck(t, kw))
        },
    }
}

/// What the grammar makes of a `limit_except` that starts at `kw`.
pub open spec fn limit_except_result(t: Lexed, kw: int) -> Parsed<ItemView> {
    if !t.is_string(kw + 1) {
        Err(unexpected_at(t, kw + 1, seq!["String"@]))
    } else {
        let i = run_end(t, kw + 1);
        if kw < i <= t.tokens.len() {
            match block_spec(t, i, seq!["String"@]) {
                Ok((b, j)) => Ok(
                    (
                        ItemView::LimitExcept(
                            LimitExceptView {
                                position: b.position,
                                methods: texts_spec(t, kw + 1, i),
                                directives: b.directives,
                            },
                        ),
                        j,
                    ),
                ),
                Err(e) => Err(e),
            }
        } else {
            Err(stuck(t, kw))
        }
    }
}

/// The grammar reads `location` and `limit_except` by their names.
pub proof fn lemma_headed_read(t: Lexed, kw: int)
    requires
        t.is_string(kw),
    ensures
        t.text(kw) == "location"@ ==> item_spec(t, kw) == Some(location_result(t, kw)),
        t.text(kw) == "limit_except"@ ==> item_spec(t, kw) == Some(limit_except_result(t, kw)),
{
    lemma_names_listed();
    lemma_names_distinct();
    let names = directive_names();
    assert(names[3] != names[13] && names[4] != names[13]);
    assert(names[3] != names[43] && names[4] != names[43] && names[13] != names[43]);
}

/// The words that stand before the pattern of a `location` are read as
/// one token each and differ from each other.
pub proof fn lemma_pattern_words()
    ensures
        is_word("="@),
        is_word("^~"@),
        is_word("~"@),
        is_word("~*"@),
        "="@ != "^~"@,
        "="@ != "~"@,
        "="@ != "~*"@,
        "^~"@ != "~"@,
        "^~"@ != "~*"@,
        "~"@ != "~*"@,
        "="@ == seq!['='],
        "^~"@ == seq!['^', '~'],
        "~"@ == seq!['~'],
        "~*"@ == seq!['~', '*'],
        "@"@ == seq!['@'],
{
    reveal_strlit("=");
    reveal_strlit("^~");
    reveal_strlit("~");
    reveal_strlit("~*");
    reveal_strlit("@");
    assert(is_simple_word("="@));
    assert(is_simple_word("^~"@));
    assert(is_simple_word("~"@));
    assert(is_simple_word("~*"@));
    lemma_simple_word("="@);
    lemma_simple_word("^~"@);
    lemma_simple_word("~"@);
    lemma_simple_word("~*"@);
    assert("="@ =~= seq!['=']);
    assert("^~"@ =~= seq!['^', '~']);
    assert("~"@ =~= seq!['~']);
    assert("~*"@ =~= seq!['~', '*']);
    assert("@"@ =~= seq!['@']);
    assert("="@[0] != "^~"@[0]);
    assert("="@[0] != "~"@[0]);
    assert("="@[0] != "~*"@[0]);
    assert("^~"@[0] != "~"@[0]);
    assert("^~"@[0] != "~*"@[0]);
}

/// Whether the pattern of a `location` is read back as it is written.
pub open spec fn pattern_ok(pattern: LocationPatternView) -> bool {
    match pattern {
        LocationPatternView::Prefix(v) => is_word(v) && v != "="@ && v != "^~"@ && v != "~"@ && v
            != "~*"@ && !is_prefix("@"@, v),
        LocationPatternView::Exact(v) => is_word(v),
        LocationPatternView::FinalPrefix(v) => is_word(v),
        LocationPatternView::Regex(v) => is_word(v),
        LocationPatternView::RegexInsensitive(v) => is_word(v),
        LocationPatternView::Named(v) => is_word(seq!['@'] + v),
    }
}

/// The words of the pattern of a `location`.
pub open spec fn pattern_words(pattern: LocationPatternView) -> Seq<Seq<char>> {
    match pattern {
        LocationPatternView::Prefix(v) => seq![v],
        LocationPatternView::Exact(v) => seq!["="@, v],
        LocationPatternView::FinalPrefix(v) => seq!["^~"@, v],
        LocationPatternView::Regex(v) => seq!["~"@, v],
        LocationPatternView::RegexInsensitive(v) => seq!["~*"@, v],
        LocationPatternView::Named(v) => seq![seq!['@'] + v],
    }
}

/// The line that opens a `location` is written as its words and an
/// opening brace.
pub proof fn lemma_location_head(item: ItemView, p: Page)
    requires
        item is Location,
    ensures
        render_location_pattern(
            item->Location_0.pattern,
            block_head("location"@, p),
        ).put(' ').start_block() == with_head(p.margin(), line_words(item)),
{
    let pattern = item->Location_0.pattern;
    let ws = line_words(item);
    let name = "location"@;
    reveal_strlit("= ");
    reveal_strlit("^~ ");
    reveal_strlit("~ ");
    reveal_strlit("~* ");
    lemma_pattern_words();
    assert("= "@ =~= "="@ + seq![' ']);
    assert("^~ "@ =~= "^~"@ + seq![' ']);
    assert("~ "@ =~= "~"@ + seq![' ']);
    assert("~* "@ =~= "~*"@ + seq![' ']);
    let written = render_location_pattern(pattern, block_head(name, p)).put(' ').start_block();
    match pattern {
        LocationPatternView::Prefix(v) => {
            lemma_spaced_two(name, v);
            assert(ws =~= seq![name, v]);
        },
        LocationPatternView::Named(v) => {
            lemma_spaced_two(name, seq!['@'] + v);
            assert(ws =~= seq![name, seq!['@'] + v]);
        },
        _ => {
            let sign = pattern_words(pattern)[0];
            let v = pattern_words(pattern)[1];
            assert(ws =~= seq![name, sign, v]);
            assert(ws.drop_last() =~= seq![name, sign]);
            lemma_spaced_two(name, sign);
            assert(spaced(ws) =~= spaced(seq![name, sign]) + v + seq![' ']);
        },
    }
    assert(written.text =~= with_head(p.margin(), ws).text);
}

/// The grammar reads the pattern of a `location` from its tokens.
pub proof fn lemma_location_parsed(t: Lexed, i: int, item: ItemView)
    requires
        item is Location,
        pattern_ok(item->Location_0.pattern),
        has_tokens(t, i, string_tokens(line_words(item)).push(punct_token('{'))),
    ensures
        t.is_string(i),
        t.text(i) == "location"@,
        location_pattern_spec(t, i) == Ok::<_, ErrorView>(
            (item->Location_0.pattern, i + line_words(item).len()),
        ),
        i + line_words(item).len() < t.tokens.len(),
{
    let pattern = item->Location_0.pattern;
    let ws = line_words(item);
    let w = string_tokens(ws).push(punct_token('{'));
    lemma_pattern_words();
    assert forall|k: int| 0 <= k < ws.len() implies t.is_string(i + k) && #[trigger] t.text(i + k)
        == ws[k] by {
        assert(t.tokens[i + k].token == w[k]);
        assert(w[k] == string_token(ws[k]));
    }
    assert(t.text(i + 0) == ws[0]);
    assert(t.text(i + 1) == ws[1]);
    match pattern {
        LocationPatternView::Prefix(v) => {},
        LocationPatternView::Named(v) => {
            let s = seq!['@'] + v;
            assert(s[0] == '@');
            assert(s.subrange(0, 1) =~= seq!['@']);
            assert(s.skip(1) =~= v);
        },
        _ => {
            assert(t.text(i + 2) == ws[2]);
        },
    }
}

/// The line that opens a `limit_except` is written as its words and an
/// opening brace.
pub proof fn lemma_limit_except_head(item: ItemView, p: Page)
    requires
        item is LimitExcept,
    ensures
        crate::display::render_texts(
            item->LimitExcept_0.methods,
            item->LimitExcept_0.methods.len() as int,
            p.margin().indent().write("limit_except"@),
        ).put(' ').start_block() == with_head(p.margin(), line_words(item)),
{
    let methods = item->LimitExcept_0.methods;
    let n = methods.len() as int;
    let q = p.margin().indent().write("limit_except"@);
    lemma_texts_joined(methods, n, q);
    lemma_spaced_joined("limit_except"@, methods, n);
    assert(methods.take(n) =~= methods);
    let written = crate::display::render_texts(methods, n, q).put(' ').start_block();
    assert(written.text =~= with_head(p.margin(), line_words(item)).text);
}

/// The grammar reads the words of a `limit_except` from its tokens.
pub proof fn lemma_limit_except_parsed(t: Lexed, i: int, item: ItemView)
    requires
        item is LimitExcept,
        item->LimitExcept_0.methods.len() > 0,
        has_tokens(t, i, string_tokens(line_words(item)).push(punct_token('{'))),
    ensures
        t.is_string(i),
        t.text(i) == "limit_except"@,
        t.is_string(i + 1),
        run_end(t, i + 1) == i + line_words(item).len(),
        texts_spec(t, i + 1, i + line_words(item).len()) == item->LimitExcept_0.methods,
        i + line_words(item).len() < t.tokens.len(),
{
    let methods = item->LimitExcept_0.methods;
    let n = methods.len() as int;
    let ws = line_words(item);
    let w = string_tokens(ws).push(punct_token('{'));
    assert forall|k: int| 0 <= k < ws.len() implies t.is_string(i + k) && #[trigger] t.text(i + k)
        == ws[k] by {
        assert(t.tokens[i + k].token == w[k]);
        assert(w[k] == string_token(ws[k]));
    }
    assert(t.text(i + 0) == ws[0]);
    assert(t.tokens[i + ws.len()].token == w[ws.len() as int]);
    assert forall|m: int| 0 <= m < n implies #[trigger] t.is_string(i + 1 + m) by {
        assert(t.text(i + (1 + m)) == ws[1 + m]);
    }
    lemma_run_read(t, i + 1, n, 0);
    assert(t.is_string(i + 1 + 0));
    assert(texts_spec(t, i + 1, i + 1 + n) =~= methods) by {
        assert forall|m: int| 0 <= m < n implies texts_spec(t, i + 1, i + 1 + n)[m]
            == methods[m] by {
            assert(t.text(i + (1 + m)) == ws[1 + m]);
        }
    }
}

} // verus!
