//! The values whose text is one token.

use vstd::prelude::*;
use crate::lex_laws::{bare_run, is_quoted_word, is_word, starts_word};
use crate::tokenizer::is_stop;
use crate::value::{
    braced, has_special, has_specials, is_name_char, is_special, piece_text, pieces_text,
    value_text, ItemView,
};
use crate::value_laws::{
    holds_pieces, is_plain, lemma_end_bound, lemma_text_holds_pieces, piece_readable,
    piece_start, readable,
};

verus! {

/// Whether a literal can stand in a value that is written without
/// quotes: no quote stands in it.
pub open spec fn is_bare_text(s: Seq<char>) -> bool {
    forall|i: int| 0 <= i < s.len() ==> #[trigger] s[i] != '\''
}

/// Whether the text of a value with the pieces `data` is one token and is
/// read back as the value: the pieces are readable, no line end stands
/// in a literal, and where the value is written without quotes, no quote
/// stands in a literal and the text does not start like a comment.
pub open spec fn is_tidy(data: Seq<ItemView>) -> bool {
    &&& readable(data)
    &&& forall|k: int, i: int|
        0 <= k < data.len() && data[k] is Literal && 0 <= i < data[k]->Literal_0.len()
            ==> #[trigger] data[k]->Literal_0[i] != '\n'
    &&& data.len() > 0 && !has_specials(data, data.len() as int) ==> {
        &&& forall|k: int|
            0 <= k < data.len() && (#[trigger] data[k]) is Literal ==> is_bare_text(
                data[k]->Literal_0,
            )
        &&& data[0] is Literal ==> data[0]->Literal_0[0] != '#' && data[0]->Literal_0[0]
            != '\u{feff}'
    }
}

/// Whether `c` can stand between the quotes of a quoted token.
pub open spec fn in_quotes(c: char) -> bool {
    c != '"' && c != '\\' && c != '\n'
}

/// Every character of the pieces of a tidy value can stand between
/// quotes.
proof fn lemma_quoted_chars(data: Seq<ItemView>, n: int)
    requires
        is_tidy(data),
        0 <= n <= data.len(),
    ensures
        forall|i: int| 0 <= i < pieces_text(data, n).len() ==> in_quotes(
            #[trigger] pieces_text(data, n)[i],
        ),
    decreases n,
{
    if n > 0 {
        lemma_quoted_chars(data, n - 1);
        let head = pieces_text(data, n - 1);
        let piece = piece_text(data, n - 1);
        assert(piece_readable(data, n - 1));
        assert forall|i: int| 0 <= i < piece.len() implies in_quotes(#[trigger] piece[i]) by {
            match data[n - 1] {
                ItemView::Literal(s) => {
                    assert(is_plain(s[i]));
                    assert(data[n - 1]->Literal_0[i] != '\n');
                },
                ItemView::Variable(name) => {
                    if braced(data, n - 1) {
                        if 2 <= i < 2 + name.len() {
                            assert(piece[i] == name[i - 2]);
                            assert(is_name_char(name[i - 2]));
                        }
                    } else {
                        if 1 <= i {
                            assert(piece[i] == name[i - 1]);
                            assert(is_name_char(name[i - 1]));
                        }
                    }
                },
            }
        }
        assert forall|i: int| 0 <= i < pieces_text(data, n).len() implies in_quotes(
            #[trigger] pieces_text(data, n)[i],
        ) by {
            if i < head.len() {
                assert(pieces_text(data, n)[i] == head[i]);
            } else {
                assert(pieces_text(data, n)[i] == piece[i - head.len()]);
            }
        }
    }
}

/// Whether a bare word goes on through `c`.
pub open spec fn goes_on(c: char) -> bool {
    !is_stop(c) && c != '\r' && c != '\t' && c != '\n' && c != '\\'
}

/// A bare word goes on through the characters `t[i..e]` if none of them
/// ends it.
proof fn lemma_run_through(t: Seq<char>, i: int, e: int, prev: char)
    requires
        0 <= i <= e <= t.len(),
        forall|k: int| i <= k < e ==> goes_on(#[trigger] t[k]),
        bare_run(t, e, if i < e {
            t[e - 1]
        } else {
            prev
        }, false),
    ensures
        bare_run(t, i, prev, false),
    decreases e - i,
{
    if i < e {
        assert(goes_on(t[i]));
        lemma_run_through(t, i + 1, e, t[i]);
    }
}

/// A bare word goes on through the name in the braces of a variable.
proof fn lemma_run_in_braces(t: Seq<char>, i: int, e: int, prev: char)
    requires
        0 <= i <= e < t.len(),
        forall|k: int| i <= k < e ==> is_name_char(#[trigger] t[k]),
        t[e] == '}',
        bare_run(t, e + 1, '{', false),
    ensures
        bare_run(t, i, prev, true),
    decreases e - i,
{
    if i < e {
        assert(is_name_char(t[i]));
        lemma_run_in_braces(t, i + 1, e, prev);
    }
}

/// Whether a bare word goes on through the piece `k` of `data`.
pub open spec fn piece_goes(data: Seq<ItemView>, k: int) -> bool {
    match data[k] {
        ItemView::Literal(s) => s.len() > 0 && forall|i: int|
            0 <= i < s.len() ==> goes_on(#[trigger] s[i]),
        ItemView::Variable(name) => name.len() > 0 && forall|i: int|
            0 <= i < name.len() ==> is_name_char(#[trigger] name[i]),
    }
}

/// A bare word goes on through each piece of a tidy value that is
/// written without quotes.
proof fn lemma_pieces_go(data: Seq<ItemView>)
    requires
        is_tidy(data),
        data.len() > 0,
        !has_specials(data, data.len() as int),
    ensures
        forall|k: int| 0 <= k < data.len() ==> piece_goes(data, k),
{
    let n = data.len() as int;
    assert forall|k: int| 0 <= k < data.len() implies piece_goes(data, k) by {
        assert(piece_readable(data, k));
        match data[k] {
            ItemView::Literal(s) => {
                assert forall|i: int| 0 <= i < s.len() implies goes_on(#[trigger] s[i]) by {
                    assert(is_plain(s[i]));
                    assert(is_bare_text(s));
                    assert(s[i] != '\'');
                    assert(data[k]->Literal_0[i] != '\n');
                    if is_special(s[i]) {
                        assert(has_special(s));
                        assert(has_specials(data, n));
                    }
                }
            },
            ItemView::Variable(name) => {},
        }
    }
}

/// A bare word goes on through the pieces of a value from the start of
/// the piece `k` on, if it goes on through each piece.
proof fn lemma_bare_pieces(t: Seq<char>, data: Seq<ItemView>, k: int, prev: char)
    requires
        forall|j: int| 0 <= j < data.len() ==> piece_goes(data, j),
        holds_pieces(t, 0, data),
        t.len() == piece_start(data, data.len() as int),
        0 <= k <= data.len(),
    ensures
        bare_run(t, piece_start(data, k), prev, false),
    decreases data.len() - k,
{
    let n = data.len() as int;
    let i = piece_start(data, k);
    lemma_end_bound(t, 0, data, k);
    if k < n {
        assert(piece_goes(data, k));
        assert(piece_start(data, k) + piece_text(data, k).len() == piece_start(data, k + 1));
        let e = piece_start(data, k + 1);
        lemma_end_bound(t, 0, data, k + 1);
        let piece = piece_text(data, k);
        assert(t.subrange(i, e) == piece);
        assert forall|j: int| 0 <= j < piece.len() implies t[i + j] == piece[j] by {
            assert(t.subrange(i, e)[j] == t[i + j]);
        }
        match data[k] {
            ItemView::Literal(s) => {
                assert forall|j: int| i <= j < e implies goes_on(#[trigger] t[j]) by {
                    assert(t[i + (j - i)] == piece[j - i]);
                }
                lemma_bare_pieces(t, data, k + 1, t[e - 1]);
                lemma_run_through(t, i, e, prev);
            },
            ItemView::Variable(name) => {
                if braced(data, k) {
                    assert(piece =~= seq!['$', '{'] + name + seq!['}']);
                    assert(t[i + 0] == piece[0]);
                    assert(t[i + 1] == piece[1]);
                    assert(t[i + (piece.len() - 1)] == piece[piece.len() - 1]);
                    assert forall|j: int| i + 2 <= j < e - 1 implies is_name_char(
                        #[trigger] t[j],
                    ) by {
                        assert(t[i + (j - i)] == piece[j - i]);
                        assert(piece[j - i] == name[j - i - 2]);
                    }
                    lemma_bare_pieces(t, data, k + 1, '{');
                    lemma_run_in_braces(t, i + 2, e - 1, '$');
                    assert(bare_run(t, i + 2, '$', true));
                    assert(t[i + 1] == '{');
                    assert(bare_run(t, i + 1, '$', false));
                    assert(t[i] == '$');
                    assert(bare_run(t, i, prev, false));
                } else {
                    assert(piece =~= seq!['$'] + name);
                    assert forall|j: int| i <= j < e implies goes_on(#[trigger] t[j]) by {
                        assert(t[i + (j - i)] == piece[j - i]);
                        if j > i {
                            assert(piece[j - i] == name[j - i - 1]);
                            assert(is_name_char(name[j - i - 1]));
                        }
                    }
                    lemma_bare_pieces(t, data, k + 1, t[e - 1]);
                    lemma_run_through(t, i, e, prev);
                }
            },
        }
    }
}

/// The text of a tidy value is one token, and the value is read back
/// from it as it is.
pub proof fn lemma_tidy_value(data: Seq<ItemView>)
    requires
        is_tidy(data),
    ensures
        readable(data),
        is_word(value_text(data)),
{
    let n = data.len() as int;
    let body = pieces_text(data, n);
    lemma_text_holds_pieces(data);
    if n == 0 || has_specials(data, n) {
        lemma_quoted_chars(data, n);
        let t = seq!['"'] + body + seq!['"'];
        assert forall|i: int| 1 <= i < t.len() - 1 implies #[trigger] t[i] != '"' && t[i] != '\\'
            && t[i] != '\n' by {
            assert(t[i] == body[i - 1]);
            assert(in_quotes(body[i - 1]));
        }
        assert(is_quoted_word(t));
    } else {
        assert(piece_readable(data, 0));
        lemma_end_bound(body, 0, data, 1);
        assert(piece_start(data, 0) + piece_text(data, 0).len() == piece_start(data, 1));
        assert(body.subrange(0, piece_start(data, 1)) == piece_text(data, 0));
        assert(body.subrange(0, piece_start(data, 1))[0] == body[0]);
        match data[0] {
            ItemView::Literal(s) => {
                assert(body[0] == s[0]);
                assert(is_plain(s[0]));
                assert(is_bare_text(s));
                assert(data[0]->Literal_0[0] != '\n');
                if is_special(s[0]) {
                    assert(has_special(s));
                    assert(has_specials(data, n));
                }
            },
            ItemView::Variable(name) => {
                assert(piece_text(data, 0)[0] == '$');
            },
        }
        assert(starts_word(body[0]));
        lemma_bare_rest(body, data);
    }
}

/// A bare word goes on through the text of a tidy value that is written
/// without quotes, behind its first character.
proof fn lemma_bare_rest(t: Seq<char>, data: Seq<ItemView>)
    requires
        is_tidy(data),
        data.len() > 0,
        !has_specials(data, data.len() as int),
        holds_pieces(t, 0, data),
        t.len() == piece_start(data, data.len() as int),
        t.len() > 0,
        starts_word(t[0]),
    ensures
        bare_run(t, 1, t[0], false),
{
    lemma_pieces_go(data);
    lemma_bare_pieces(t, data, 0, ' ');
    assert(piece_start(data, 0) == 0);
    assert(bare_run(t, 0, ' ', false));
}

} // verus!
