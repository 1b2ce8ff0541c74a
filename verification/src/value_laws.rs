//! Reading back a value that was written.

use vstd::prelude::*;
use crate::value::{
    braced, flushed, has_specials, is_name_char, name_end, parse_spec, piece_text, pieces_text,
    scan_quoted_from, scan_raw_from, value_text, variable_at, ItemView, ValueError,
};

verus! {

/// Whether `c` stands for itself in a value, in quotes and without.
pub open spec fn is_plain(c: char) -> bool {
    c != '$' && c != '\\' && c != '"'
}

/// Whether `s` is a name that a variable can have in a text.
pub open spec fn is_name(s: Seq<char>) -> bool {
    s.len() > 0 && forall|i: int| 0 <= i < s.len() ==> is_name_char(#[trigger] s[i])
}

/// Whether the piece `k` of `data` is read back as it is written: a
/// literal is not empty, holds no `$`, backslash or double quote, and
/// stands at the start or behind a variable; a variable has a name, and
/// is in braces where a literal follows that starts like a name.
pub open spec fn piece_readable(data: Seq<ItemView>, k: int) -> bool {
    match data[k] {
        ItemView::Literal(s) => {
            &&& s.len() > 0
            &&& forall|i: int| 0 <= i < s.len() ==> is_plain(#[trigger] s[i])
            &&& k > 0 ==> data[k - 1] is Variable
        },
        ItemView::Variable(n) => {
            &&& is_name(n)
            &&& k + 1 < data.len() && data[k + 1] is Literal && data[k + 1]->Literal_0.len() > 0
                && is_name_char(data[k + 1]->Literal_0[0]) ==> braced(data, k)
        },
    }
}

/// Whether a value with the pieces `data` is read back as it is written.
pub open spec fn readable(data: Seq<ItemView>) -> bool {
    &&& forall|k: int| 0 <= k < data.len() ==> piece_readable(data, k)
    &&& data.len() > 0 && !has_specials(data, data.len() as int) && data[0] is Literal
        ==> data[0]->Literal_0[0] != '\''
}

/// The offset at which the piece `k` starts in the text of the pieces.
pub open spec fn piece_start(data: Seq<ItemView>, k: int) -> int {
    pieces_text(data, k).len() as int
}

/// The text of the first `j` pieces starts with the text of the first
/// `k`, and the piece `k` follows.
pub proof fn lemma_pieces(data: Seq<ItemView>, k: int, j: int)
    requires
        0 <= k < j,
    ensures
        piece_start(data, k) + piece_text(data, k).len() == piece_start(data, k + 1),
        piece_start(data, k + 1) <= piece_start(data, j),
        pieces_text(data, j).subrange(piece_start(data, k), piece_start(data, k + 1))
            == piece_text(data, k),
    decreases j - k,
{
    assert(pieces_text(data, k + 1) == pieces_text(data, k) + piece_text(data, k));
    if j == k + 1 {
        assert(pieces_text(data, j).subrange(piece_start(data, k), piece_start(data, k + 1))
            =~= piece_text(data, k));
    } else {
        lemma_pieces(data, k, j - 1);
        lemma_pieces(data, j - 1, j);
        assert(pieces_text(data, j) == pieces_text(data, j - 1) + piece_text(data, j - 1));
        assert(pieces_text(data, j).subrange(piece_start(data, k), piece_start(data, k + 1))
            =~= pieces_text(data, j - 1).subrange(
            piece_start(data, k),
            piece_start(data, k + 1),
        ));
    }
}

/// What the text `t` must hold for the pieces of `data` to stand in it
/// from the offset `base` on: each piece at its place.
pub open spec fn holds_pieces(t: Seq<char>, base: int, data: Seq<ItemView>) -> bool {
    &&& 0 <= base
    &&& base + piece_start(data, data.len() as int) <= t.len()
    &&& forall|k: int|
        0 <= k < data.len() ==> #[trigger] piece_start(data, k) + piece_text(data, k).len()
            == piece_start(data, k + 1) && t.subrange(
            base + piece_start(data, k),
            base + piece_start(data, k + 1),
        ) == piece_text(data, k)
}

/// The text of the pieces holds the pieces, and so does the text in
/// quotes.
pub proof fn lemma_text_holds_pieces(data: Seq<ItemView>)
    ensures
        holds_pieces(pieces_text(data, data.len() as int), 0, data),
        holds_pieces(
            seq!['"'] + pieces_text(data, data.len() as int) + seq!['"'],
            1,
            data,
        ),
{
    let n = data.len() as int;
    let body = pieces_text(data, n);
    let quoted = seq!['"'] + body + seq!['"'];
    assert forall|k: int| 0 <= k < n implies #[trigger] piece_start(data, k) + piece_text(
        data,
        k,
    ).len() == piece_start(data, k + 1) && body.subrange(
        piece_start(data, k),
        piece_start(data, k + 1),
    ) == piece_text(data, k) && quoted.subrange(
        1 + piece_start(data, k),
        1 + piece_start(data, k + 1),
    ) == piece_text(data, k) by {
        lemma_pieces(data, k, n);
        assert(quoted.subrange(1 + piece_start(data, k), 1 + piece_start(data, k + 1))
            =~= body.subrange(piece_start(data, k), piece_start(data, k + 1)));
    }
}

/// A run of name characters in a text ends where the first other
/// character stands.
pub proof fn lemma_name_run(t: Seq<char>, i: int, j: int)
    requires
        0 <= i <= j <= t.len(),
        forall|k: int| i <= k < j ==> is_name_char(#[trigger] t[k]),
        j < t.len() ==> !is_name_char(t[j]),
    ensures
        name_end(t, i) == j,
    decreases j - i,
{
    if i < j {
        lemma_name_run(t, i + 1, j);
    }
}

/// The variable `k` is read from its place in the text as it is written.
pub proof fn lemma_variable_read(t: Seq<char>, base: int, data: Seq<ItemView>, k: int, stop: char)
    requires
        holds_pieces(t, base, data),
        0 <= k < data.len(),
        data[k] is Variable,
        forall|j: int| 0 <= j < data.len() ==> piece_readable(data, j),
        !is_name_char(stop),
        base + piece_start(data, data.len() as int) < t.len() ==> t[base + piece_start(
            data,
            data.len() as int,
        )] == stop,
        base + piece_start(data, data.len() as int) == t.len() || base + piece_start(
            data,
            data.len() as int,
        ) + 1 == t.len(),
    ensures
        variable_at(t, base + piece_start(data, k)) == Ok::<_, ValueError>(
            (data[k]->Variable_0, base + piece_start(data, k + 1)),
        ),
        base + piece_start(data, k) < base + piece_start(data, k + 1) <= t.len(),
{
    let n = data.len() as int;
    let name = data[k]->Variable_0;
    let i = base + piece_start(data, k);
    let e = base + piece_start(data, k + 1);
    let text = piece_text(data, k);
    assert(piece_readable(data, k));
    assert(piece_start(data, k) + text.len() == piece_start(data, k + 1));
    assert(t.subrange(i, e) == text);
    lemma_end_bound(t, base, data, k + 1);
    assert forall|j: int| 0 <= j < text.len() implies t[i + j] == text[j] by {
        assert(t.subrange(i, e)[j] == t[i + j]);
    }
    // what stands behind the reference
    if k + 1 < n {
        assert(piece_readable(data, k + 1));
        assert(piece_start(data, k + 1) + piece_text(data, k + 1).len() == piece_start(
            data,
            k + 2,
        ));
        lemma_end_bound(t, base, data, k + 2);
        assert(t.subrange(e, base + piece_start(data, k + 2))[0] == t[e]);
        assert(t[e] == piece_text(data, k + 1)[0]);
    }
    if braced(data, k) {
        assert(text =~= seq!['$', '{'] + name + seq!['}']);
        assert(t[i] == text[0]);
        assert(t[i + 1] == text[1]);
        assert(t[i + 2 + name.len()] == text[2 + name.len() as int]);
        assert forall|j: int| i + 2 <= j < i + 2 + name.len() implies is_name_char(
            #[trigger] t[j],
        ) by {
            assert(t[j] == text[j - i]);
            assert(text[j - i] == name[j - i - 2]);
        }
        lemma_name_run(t, i + 2, i + 2 + name.len());
        assert forall|j: int| 0 <= j < name.len() implies t[i + 2 + j] == name[j] by {
            assert(t[i + 2 + j] == text[2 + j]);
        }
        assert(t.subrange(i + 2, i + 2 + name.len()) =~= name);
    } else {
        assert(text =~= seq!['$'] + name);
        assert(t[i] == text[0]);
        assert(t[i + 1] == text[1]);
        assert(text[1] == name[0]);
        assert forall|j: int| i + 1 <= j < i + 1 + name.len() implies is_name_char(
            #[trigger] t[j],
        ) by {
            assert(t[j] == text[j - i]);
            assert(text[j - i] == name[j - i - 1]);
        }
        if k + 1 < n {
            match data[k + 1] {
                ItemView::Literal(s) => {
                    assert(piece_text(data, k + 1) == s);
                    assert(!is_name_char(s[0]));
                },
                ItemView::Variable(v) => {
                    assert(piece_text(data, k + 1)[0] == '$');
                },
            }
            assert(!is_name_char(t[e]));
        }
        lemma_name_run(t, i + 1, e);
        assert forall|j: int| 0 <= j < name.len() implies t[i + 1 + j] == name[j] by {
            assert(t[i + 1 + j] == text[1 + j]);
        }
        assert(t.subrange(i + 1, e) =~= name);
    }
}

/// The pieces end inside the text.
pub proof fn lemma_end_bound(t: Seq<char>, base: int, data: Seq<ItemView>, k: int)
    requires
        holds_pieces(t, base, data),
        0 <= k <= data.len(),
    ensures
        0 <= piece_start(data, k) <= piece_start(data, data.len() as int),
        base + piece_start(data, k) <= t.len(),
    decreases data.len() - k,
{
    if k < data.len() {
        lemma_end_bound(t, base, data, k + 1);
        assert(piece_start(data, k) + piece_text(data, k).len() == piece_start(data, k + 1));
    }
}

/// Reading a bare text through a literal that stands for itself gets to
/// the end of the literal without a new piece.
pub proof fn lemma_raw_literal(
    t: Seq<char>,
    i: int,
    e: int,
    start: int,
    acc: Seq<ItemView>,
)
    requires
        0 <= i <= e <= t.len(),
        forall|j: int| i <= j < e ==> is_plain(#[trigger] t[j]),
    ensures
        scan_raw_from(t, i, false, start, acc) == scan_raw_from(t, e, false, start, acc),
    decreases e - i,
{
    if i < e {
        assert(is_plain(t[i]));
        lemma_raw_literal(t, i + 1, e, start, acc);
    }
}

/// Reading a quoted text through a literal that stands for itself adds
/// the literal to what has been read.
pub proof fn lemma_quoted_literal(
    t: Seq<char>,
    i: int,
    e: int,
    lit: Seq<char>,
    acc: Seq<ItemView>,
)
    requires
        0 <= i <= e <= t.len(),
        forall|j: int| i <= j < e ==> is_plain(#[trigger] t[j]),
    ensures
        scan_quoted_from(t, '"', i, false, lit, acc) == scan_quoted_from(
            t,
            '"',
            e,
            false,
            lit + t.subrange(i, e),
            acc,
        ),
    decreases e - i,
{
    if i < e {
        assert(is_plain(t[i]));
        lemma_quoted_literal(t, i + 1, e, lit.push(t[i]), acc);
        assert(lit.push(t[i]) + t.subrange(i + 1, e) =~= lit + t.subrange(i, e));
    } else {
        assert(lit + t.subrange(i, e) =~= lit);
    }
}

/// Reading a bare text from the start of the piece `k`, with the pieces
/// before it read, gives all pieces.
pub proof fn lemma_raw_from(t: Seq<char>, data: Seq<ItemView>, k: int)
    requires
        holds_pieces(t, 0, data),
        t.len() == piece_start(data, data.len() as int),
        0 <= k <= data.len(),
        forall|j: int| 0 <= j < data.len() ==> piece_readable(data, j),
        k > 0 ==> data[k - 1] is Variable,
    ensures
        scan_raw_from(t, piece_start(data, k), false, piece_start(data, k), data.take(k))
            == Ok::<_, ValueError>(data),
    decreases data.len() - k,
{
    let n = data.len() as int;
    let i = piece_start(data, k);
    let acc = data.take(k);
    lemma_end_bound(t, 0, data, k);
    if k == n {
        assert(t.subrange(i, t.len() as int) =~= Seq::<char>::empty());
        assert(data.take(k) =~= data);
    } else {
        assert(piece_readable(data, k));
        assert(piece_start(data, k) + piece_text(data, k).len() == piece_start(data, k + 1));
        let e = piece_start(data, k + 1);
        lemma_end_bound(t, 0, data, k + 1);
        assert(t.subrange(i, e) == piece_text(data, k));
        match data[k] {
            ItemView::Literal(s) => {
                assert forall|j: int| i <= j < e implies is_plain(#[trigger] t[j]) by {
                    assert(t.subrange(i, e)[j - i] == t[j]);
                }
                lemma_raw_literal(t, i, e, i, acc);
                assert(flushed(acc, t.subrange(i, e)) =~= data.take(k + 1));
                if k + 1 == n {
                    assert(data.take(k + 1) =~= data);
                } else {
                    assert(piece_readable(data, k + 1));
                    assert(data[k + 1] is Variable);
                    lemma_variable_read(t, 0, data, k + 1, ' ');
                    assert(piece_start(data, k + 1) + piece_text(data, k + 1).len()
                        == piece_start(data, k + 2));
                    assert(t.subrange(e, piece_start(data, k + 2))[0] == t[e]);
                    assert(t[e] == '$');
                    lemma_raw_from(t, data, k + 2);
                    assert(data.take(k + 1).push(data[k + 1]) =~= data.take(k + 2));
                }
            },
            ItemView::Variable(name) => {
                lemma_variable_read(t, 0, data, k, ' ');
                assert(t.subrange(i, e)[0] == t[i]);
                assert(t[i] == '$');
                assert(t.subrange(i, i) =~= Seq::<char>::empty());
                lemma_raw_from(t, data, k + 1);
                assert(acc.push(data[k]) =~= data.take(k + 1));
            },
        }
    }
}

/// Reading a quoted text from the start of the piece `k`, with the
/// pieces before it read, gives all pieces.
#[verifier::rlimit(60)]
#[verifier::spinoff_prover]
pub proof fn lemma_quoted_from(t: Seq<char>, data: Seq<ItemView>, k: int)
    requires
        holds_pieces(t, 1, data),
        t.len() == piece_start(data, data.len() as int) + 2,
        t[t.len() - 1] == '"',
        0 <= k <= data.len(),
        forall|j: int| 0 <= j < data.len() ==> piece_readable(data, j),
        k > 0 ==> data[k - 1] is Variable,
    ensures
        scan_quoted_from(t, '"', 1 + piece_start(data, k), false, Seq::empty(), data.take(k))
            == Ok::<_, ValueError>(data),
    decreases data.len() - k,
{
    let n = data.len() as int;
    let i = 1 + piece_start(data, k);
    let acc = data.take(k);
    lemma_end_bound(t, 1, data, k);
    if k == n {
        assert(data.take(k) =~= data);
    } else {
        assert(piece_readable(data, k));
        assert(piece_start(data, k) + piece_text(data, k).len() == piece_start(data, k + 1));
        let e = 1 + piece_start(data, k + 1);
        lemma_end_bound(t, 1, data, k + 1);
        assert(t.subrange(i, e) == piece_text(data, k));
        match data[k] {
            ItemView::Literal(s) => {
                assert forall|j: int| i <= j < e implies is_plain(#[trigger] t[j]) by {
                    assert(t.subrange(i, e)[j - i] == t[j]);
                }
                lemma_quoted_literal(t, i, e, Seq::empty(), acc);
                assert(Seq::<char>::empty() + t.subrange(i, e) =~= s);
                assert(flushed(acc, s) =~= data.take(k + 1));
                if k + 1 == n {
                    assert(data.take(k + 1) =~= data);
                } else {
                    assert(piece_readable(data, k + 1));
                    assert(data[k + 1] is Variable);
                    lemma_variable_read(t, 1, data, k + 1, '"');
                    assert(piece_start(data, k + 1) + piece_text(data, k + 1).len()
                        == piece_start(data, k + 2));
                    assert(t.subrange(e, 1 + piece_start(data, k + 2))[0] == t[e]);
                    assert(t[e] == '$');
                    lemma_quoted_from(t, data, k + 2);
                    assert(data.take(k + 1).push(data[k + 1]) =~= data.take(k + 2));
                }
            },
            ItemView::Variable(name) => {
                lemma_variable_read(t, 1, data, k, '"');
                assert(t.subrange(i, e)[0] == t[i]);
                assert(t[i] == '$');
                lemma_quoted_from(t, data, k + 1);
                assert(flushed(acc, Seq::<char>::empty()) == acc);
                assert(acc.push(data[k]) =~= data.take(k + 1));
            },
        }
    }
}

/// A value whose pieces are readable is read back from its text as it
/// is: literals stay literals, variables stay variables, and a variable
/// before a literal that starts with a letter or a digit is kept apart
/// from it by braces.
pub proof fn lemma_value_round_trip(data: Seq<ItemView>)
    requires
        readable(data),
    ensures
        parse_spec(value_text(data)) == Ok::<_, ValueError>(data),
{
    let n = data.len() as int;
    let body = pieces_text(data, n);
    lemma_text_holds_pieces(data);
    if n == 0 || has_specials(data, n) {
        let t = seq!['"'] + body + seq!['"'];
        assert(t[0] == '"');
        assert(t[t.len() - 1] == '"');
        assert(data.take(0) =~= Seq::<ItemView>::empty());
        lemma_quoted_from(t, data, 0);
    } else {
        assert(piece_readable(data, 0));
        lemma_pieces(data, 0, n);
        assert(body.subrange(0, piece_start(data, 1))[0] == body[0]);
        match data[0] {
            ItemView::Literal(s) => {
                assert(piece_text(data, 0) == s);
                assert(is_plain(s[0]));
            },
            ItemView::Variable(v) => {
                assert(piece_text(data, 0)[0] == '$');
            },
        }
        assert(body[0] != '"' && body[0] != '\'');
        assert(data.take(0) =~= Seq::<ItemView>::empty());
        lemma_raw_from(body, data, 0);
    }
}

} // verus!
