//! What the tokens of a text are when the text is put together from
//! parts.

use vstd::prelude::*;
use crate::position::{next_line, right_of, Pos};
use crate::tokenizer::{
    bare_end, is_stop, lemma_lexeme_bounds, lemma_skip_bounds, lex, lex_from, lexeme_at, quoted_end,
    skip_spec, Kind, LexError, Lexed, Lexeme, SpannedView, TokenView,
};

verus! {

/// Where the white space and comments that start at `off` end.
pub open spec fn skip_to(s: Seq<char>, off: int) -> int {
    skip_spec(s, off, Pos { line: 1, column: 1 }, false).0
}

/// The tokens of `s` from `off` on, without their positions, and how the
/// reading ends.
pub open spec fn words_from(s: Seq<char>, off: int) -> (Seq<TokenView>, LexError)
    decreases s.len() - off,
{
    let start = skip_to(s, off);
    match lexeme_at(s, start) {
        Lexeme::Token(kind, end) => if off <= start < end <= s.len() {
            let rest = words_from(s, end);
            (seq![TokenView { kind, value: s.subrange(start, end) }] + rest.0, rest.1)
        } else {
            (Seq::empty(), LexError::EndOfInput)
        },
        Lexeme::EndOfInput => (Seq::empty(), LexError::EndOfInput),
        Lexeme::Unterminated => (Seq::empty(), LexError::Unterminated),
    }
}

/// The tokens of a list without their positions.
pub open spec fn words_of(t: Lexed) -> Seq<TokenView> {
    t.tokens.map_values(|x: SpannedView| x.token)
}

/// Where white space ends does not depend on the position at which it
/// starts.
pub proof fn lemma_skip_free(s: Seq<char>, off: int, p: Pos, q: Pos, c: bool)
    ensures
        skip_spec(s, off, p, c).0 == skip_spec(s, off, q, c).0,
    decreases s.len() - off,
{
    if 0 <= off < s.len() {
        let x = s[off];
        if x == '\n' {
            lemma_skip_free(s, off + 1, next_line(p), next_line(q), false);
        } else if x == '\r' {
            lemma_skip_free(s, off + 1, p, q, false);
        } else if c {
            lemma_skip_free(s, off + 1, p, q, true);
        } else if x == '\u{feff}' {
            lemma_skip_free(s, off + 1, p, q, false);
        } else if x == '\t' {
            lemma_skip_free(s, off + 1, right_of(p, 8), right_of(q, 8), false);
        } else if x == ' ' {
            lemma_skip_free(s, off + 1, right_of(p, 1), right_of(q, 1), false);
        } else if x == '#' {
            lemma_skip_free(s, off + 1, p, q, true);
        }
    }
}

/// Skipping twice is skipping once.
pub proof fn lemma_skip_twice(s: Seq<char>, off: int, p: Pos, c: bool)
    requires
        0 <= off <= s.len(),
    ensures
        skip_to(s, skip_spec(s, off, p, c).0) == skip_spec(s, off, p, c).0,
    decreases s.len() - off,
{
    if off < s.len() {
        let x = s[off];
        if x == '\n' {
            lemma_skip_twice(s, off + 1, next_line(p), false);
        } else if x == '\r' {
            lemma_skip_twice(s, off + 1, p, false);
        } else if c {
            lemma_skip_twice(s, off + 1, p, true);
        } else if x == '\u{feff}' {
            lemma_skip_twice(s, off + 1, p, false);
        } else if x == '\t' {
            lemma_skip_twice(s, off + 1, right_of(p, 8), false);
        } else if x == ' ' {
            lemma_skip_twice(s, off + 1, right_of(p, 1), false);
        } else if x == '#' {
            lemma_skip_twice(s, off + 1, p, true);
        }
    }
}

/// The tokens that are read from a state between tokens are, without
/// their positions, the tokens from that offset on.
pub proof fn lemma_words_of_lex_from(s: Seq<char>, off: int, pos: Pos)
    requires
        0 <= off <= s.len(),
        skip_to(s, off) == off,
    ensures
        words_of(lex_from(s, off, pos)) == words_from(s, off).0,
        lex_from(s, off, pos).end == words_from(s, off).1,
    decreases s.len() - off,
{
    lemma_lexeme_bounds(s, off);
    match lexeme_at(s, off) {
        Lexeme::Token(kind, end) => {
            let after = skip_spec(s, end, right_of(pos, (end - off) as nat), false);
            lemma_skip_bounds(s, end, right_of(pos, (end - off) as nat), false);
            lemma_skip_free(
                s,
                end,
                right_of(pos, (end - off) as nat),
                Pos { line: 1, column: 1 },
                false,
            );
            lemma_skip_twice(s, end, right_of(pos, (end - off) as nat), false);
            lemma_words_of_lex_from(s, after.0, after.1);
            lemma_words_skip(s, end);
            let rest = lex_from(s, after.0, after.1);
            let token = TokenView { kind, value: s.subrange(off, end) };
            assert(words_of(lex_from(s, off, pos)) =~= seq![token] + words_of(rest));
        },
        _ => {
            assert(words_of(lex_from(s, off, pos)) =~= Seq::<TokenView>::empty());
        },
    }
}

/// The tokens from an offset on are the tokens from the end of the white
/// space that starts there.
pub proof fn lemma_words_skip(s: Seq<char>, off: int)
    requires
        0 <= off <= s.len(),
    ensures
        words_from(s, off) == words_from(s, skip_to(s, off)),
{
    lemma_skip_twice(s, off, Pos { line: 1, column: 1 }, false);
    lemma_skip_bounds(s, off, Pos { line: 1, column: 1 }, false);
    let start = skip_to(s, off);
    lemma_lexeme_bounds(s, start);
}

/// The tokens of a text are, without their positions, its tokens from
/// the start on.
pub proof fn lemma_words_of_lex(s: Seq<char>)
    ensures
        words_of(lex(s)) == words_from(s, 0).0,
        lex(s).end == words_from(s, 0).1,
{
    let start = skip_spec(s, 0, Pos { line: 1, column: 1 }, false);
    lemma_skip_bounds(s, 0, Pos { line: 1, column: 1 }, false);
    lemma_skip_twice(s, 0, Pos { line: 1, column: 1 }, false);
    lemma_words_of_lex_from(s, start.0, start.1);
    lemma_words_skip(s, 0);
}

/// White space behind a text `a` ends where it ends without `a` before
/// it.
pub proof fn lemma_skip_shift(a: Seq<char>, r: Seq<char>, k: int, p: Pos, c: bool)
    requires
        0 <= k <= r.len(),
    ensures
        skip_spec(a + r, a.len() + k, p, c).0 == a.len() + skip_spec(r, k, p, c).0,
    decreases r.len() - k,
{
    if k < r.len() {
        let x = r[k];
        assert((a + r)[a.len() + k] == x);
        if x == '\n' {
            lemma_skip_shift(a, r, k + 1, next_line(p), false);
        } else if x == '\r' {
            lemma_skip_shift(a, r, k + 1, p, false);
        } else if c {
            lemma_skip_shift(a, r, k + 1, p, true);
        } else if x == '\u{feff}' {
            lemma_skip_shift(a, r, k + 1, p, false);
        } else if x == '\t' {
            lemma_skip_shift(a, r, k + 1, right_of(p, 8), false);
        } else if x == ' ' {
            lemma_skip_shift(a, r, k + 1, right_of(p, 1), false);
        } else if x == '#' {
            lemma_skip_shift(a, r, k + 1, p, true);
        }
    }
}

/// A quoted string behind a text `a` ends where it ends without `a`
/// before it.
pub proof fn lemma_quoted_shift(a: Seq<char>, r: Seq<char>, i: int, quote: char, escaped: bool)
    requires
        0 <= i,
    ensures
        quoted_end(a + r, a.len() + i, quote, escaped) == match quoted_end(r, i, quote, escaped) {
            Some(e) => Some(a.len() + e),
            None => None,
        },
    decreases r.len() - i,
{
    if i < r.len() {
        assert((a + r)[a.len() + i] == r[i]);
        if escaped {
            lemma_quoted_shift(a, r, i + 1, quote, false);
        } else if r[i] == '\\' {
            lemma_quoted_shift(a, r, i + 1, quote, true);
        } else if r[i] != quote && r[i] != '\n' {
            lemma_quoted_shift(a, r, i + 1, quote, false);
        }
    }
}

/// A bare word behind a text `a` ends where it ends without `a` before
/// it.
pub proof fn lemma_bare_shift(a: Seq<char>, r: Seq<char>, i: int, prev: char, b: bool)
    requires
        0 <= i <= r.len(),
    ensures
        bare_end(a + r, a.len() + i, prev, b) == a.len() + bare_end(r, i, prev, b),
    decreases r.len() - i,
{
    if i < r.len() {
        let c = r[i];
        assert((a + r)[a.len() + i] == c);
        if b {
            if c == '}' {
                lemma_bare_shift(a, r, i + 1, '{', false);
            } else {
                lemma_bare_shift(a, r, i + 1, prev, true);
            }
        } else if c == '\r' || c == '\t' || c == '\n' {
        } else if c == '{' && prev == '$' {
            lemma_bare_shift(a, r, i + 1, prev, true);
        } else if is_stop(c) {
            if prev == '\\' {
                lemma_bare_shift(a, r, i + 1, c, false);
            }
        } else if c == '\\' && prev == '\\' {
            lemma_bare_shift(a, r, i + 1, ' ', false);
        } else {
            lemma_bare_shift(a, r, i + 1, c, false);
        }
    }
}

/// What stands at an offset behind a text `a` is what stands there
/// without `a` before it.
pub proof fn lemma_lexeme_shift(a: Seq<char>, r: Seq<char>, k: int)
    requires
        0 <= k <= r.len(),
    ensures
        lexeme_at(a + r, a.len() + k) == match lexeme_at(r, k) {
            Lexeme::Token(kind, e) => Lexeme::Token(kind, a.len() + e),
            Lexeme::EndOfInput => Lexeme::EndOfInput,
            Lexeme::Unterminated => Lexeme::Unterminated,
        },
{
    if k < r.len() {
        let c = r[k];
        assert((a + r)[a.len() + k] == c);
        if c == '"' || c == '\'' {
            lemma_quoted_shift(a, r, k + 1, c, false);
        } else {
            lemma_bare_shift(a, r, k + 1, c, false);
        }
    }
}

/// The tokens behind a text `a` are the tokens without `a` before them.
pub proof fn lemma_words_shift(a: Seq<char>, r: Seq<char>, k: int)
    requires
        0 <= k <= r.len(),
    ensures
        words_from(a + r, a.len() + k) == words_from(r, k),
    decreases r.len() - k,
{
    let one = Pos { line: 1, column: 1 };
    lemma_skip_shift(a, r, k, one, false);
    lemma_skip_bounds(r, k, one, false);
    let start = skip_to(r, k);
    lemma_lexeme_shift(a, r, start);
    lemma_lexeme_bounds(r, start);
    match lexeme_at(r, start) {
        Lexeme::Token(kind, end) => {
            lemma_words_shift(a, r, end);
            assert((a + r).subrange(a.len() + start, a.len() + end) =~= r.subrange(start, end));
        },
        _ => {},
    }
}

/// Whether `g` is made of blanks and line ends only.
pub open spec fn is_gap(g: Seq<char>) -> bool {
    forall|i: int| 0 <= i < g.len() ==> #[trigger] g[i] == ' ' || g[i] == '\n'
}

/// White space that starts in a run of blanks and line ends goes on
/// behind the run.
pub proof fn lemma_skip_gap(g: Seq<char>, r: Seq<char>, i: int, p: Pos)
    requires
        is_gap(g),
        0 <= i <= g.len(),
    ensures
        skip_spec(g + r, i, p, false).0 == g.len() + skip_to(r, 0),
    decreases g.len() - i,
{
    if i < g.len() {
        assert((g + r)[i] == g[i]);
        if g[i] == '\n' {
            lemma_skip_gap(g, r, i + 1, next_line(p));
        } else {
            lemma_skip_gap(g, r, i + 1, right_of(p, 1));
        }
    } else {
        lemma_skip_shift(g, r, 0, p, false);
        lemma_skip_free(r, 0, p, Pos { line: 1, column: 1 }, false);
    }
}

/// Blanks and line ends before a text add no token.
pub proof fn lemma_gap(g: Seq<char>, r: Seq<char>)
    requires
        is_gap(g),
    ensures
        words_from(g + r, 0) == words_from(r, 0),
{
    let one = Pos { line: 1, column: 1 };
    lemma_skip_gap(g, r, 0, one);
    lemma_skip_bounds(r, 0, one, false);
    lemma_skip_twice(r, 0, one, false);
    let start = skip_to(r, 0);
    lemma_words_shift(g, r, start);
    lemma_words_skip(r, 0);
    lemma_skip_shift(g, r, start, one, false);
    lemma_words_skip(g + r, 0);
    lemma_words_skip(g + r, g.len() + start);
}

/// The kind of token that a brace or a semicolon is.
pub open spec fn punct_kind(c: char) -> Kind {
    if c == '{' {
        Kind::BlockStart
    } else if c == '}' {
        Kind::BlockEnd
    } else {
        Kind::Semicolon
    }
}

/// A brace or a semicolon before a text is a token of its own.
pub proof fn lemma_punct(c: char, r: Seq<char>)
    requires
        c == '{' || c == '}' || c == ';',
    ensures
        words_from(seq![c] + r, 0) == (
            seq![TokenView { kind: punct_kind(c), value: seq![c] }] + words_from(r, 0).0,
            words_from(r, 0).1,
        ),
{
    let s = seq![c] + r;
    assert(s[0] == c);
    lemma_words_shift(seq![c], r, 0);
    assert(s.subrange(0, 1) =~= seq![c]);
}

/// Whether a bare word goes on through `w` from `i` on and can end at the
/// end of `w`: no blank, brace, semicolon, quote or backslash stands in
/// it, but for the braces of `${` and `}`, in which anything but a line
/// end may stand.
pub open spec fn bare_run(w: Seq<char>, i: int, prev: char, in_brace: bool) -> bool
    decreases w.len() - i,
{
    if i < 0 || i >= w.len() {
        !in_brace
    } else {
        let c = w[i];
        if in_brace {
            if c == '}' {
                bare_run(w, i + 1, '{', false)
            } else {
                bare_run(w, i + 1, prev, true)
            }
        } else if c == '\r' || c == '\t' || c == '\n' || c == '\\' {
            false
        } else if c == '{' && prev == '$' {
            bare_run(w, i + 1, prev, true)
        } else if is_stop(c) {
            false
        } else {
            bare_run(w, i + 1, c, false)
        }
    }
}

/// Whether a bare word can start with `c`.
pub open spec fn starts_word(c: char) -> bool {
    !is_stop(c) && c != '\r' && c != '\t' && c != '\n' && c != '\\' && c != '#' && c
        != '\u{feff}'
}

/// Whether `w` is read as one bare token where a blank, a semicolon or a
/// line end follows.
pub open spec fn is_bare_word(w: Seq<char>) -> bool {
    w.len() > 0 && starts_word(w[0]) && bare_run(w, 1, w[0], false)
}

/// Whether `w` is read as one quoted token: it stands in double quotes,
/// and no double quote, backslash or line end stands between them.
pub open spec fn is_quoted_word(w: Seq<char>) -> bool {
    &&& w.len() >= 2
    &&& w[0] == '"'
    &&& w[w.len() - 1] == '"'
    &&& forall|i: int| 1 <= i < w.len() - 1 ==> #[trigger] w[i] != '"' && w[i] != '\\' && w[i]
        != '\n'
}

/// Whether `w` is read as one string token.
pub open spec fn is_word(w: Seq<char>) -> bool {
    is_bare_word(w) || is_quoted_word(w)
}

/// Whether `c` ends a bare word before it.
pub open spec fn is_delimiter(c: char) -> bool {
    c == ' ' || c == ';' || c == '\n'
}

/// A bare word that runs through `w` ends at the end of `w`.
pub proof fn lemma_bare_run(w: Seq<char>, r: Seq<char>, i: int, prev: char, b: bool)
    requires
        0 <= i <= w.len(),
        bare_run(w, i, prev, b),
        r.len() == 0 || is_delimiter(r[0]),
        prev != '\\' || b,
    ensures
        bare_end(w + r, i, prev, b) == w.len(),
    decreases w.len() - i,
{
    let s = w + r;
    if i < w.len() {
        let c = w[i];
        assert(s[i] == c);
        if b {
            if c == '}' {
                lemma_bare_run(w, r, i + 1, '{', false);
            } else {
                lemma_bare_run(w, r, i + 1, prev, true);
            }
        } else if c == '{' && prev == '$' {
            lemma_bare_run(w, r, i + 1, prev, true);
        } else {
            lemma_bare_run(w, r, i + 1, c, false);
        }
    } else if r.len() > 0 {
        assert(s[i] == r[0]);
    }
}

/// A quoted string ends at its closing quote.
pub proof fn lemma_quoted_run(w: Seq<char>, r: Seq<char>, i: int)
    requires
        is_quoted_word(w),
        1 <= i < w.len(),
    ensures
        quoted_end(w + r, i, '"', false) == Some(w.len() as int),
    decreases w.len() - i,
{
    let s = w + r;
    assert(s[i] == w[i]);
    if i < w.len() - 1 {
        lemma_quoted_run(w, r, i + 1);
    }
}

/// A word before a text that starts with a blank, a semicolon or a line
/// end, or before nothing, is a token of its own.
pub proof fn lemma_word(w: Seq<char>, r: Seq<char>)
    requires
        is_word(w),
        r.len() == 0 || is_delimiter(r[0]),
    ensures
        words_from(w + r, 0) == (
            seq![TokenView { kind: Kind::String, value: w }] + words_from(r, 0).0,
            words_from(r, 0).1,
        ),
{
    let s = w + r;
    assert(s[0] == w[0]);
    if is_bare_word(w) {
        lemma_bare_run(w, r, 1, w[0], false);
    } else {
        lemma_quoted_run(w, r, 1);
    }
    assert(skip_to(s, 0) == 0);
    lemma_words_shift(w, r, 0);
    assert(s.subrange(0, w.len() as int) =~= w);
}

/// A bare word goes on through letters, digits and underscores.
pub proof fn lemma_plain_run(w: Seq<char>, i: int, prev: char)
    requires
        0 <= i <= w.len(),
        forall|k: int| i <= k < w.len() ==> crate::value::is_name_char(#[trigger] w[k]),
    ensures
        bare_run(w, i, prev, false),
    decreases w.len() - i,
{
    if i < w.len() {
        assert(crate::value::is_name_char(w[i]));
        lemma_plain_run(w, i + 1, w[i]);
    }
}

/// A word of letters, digits and underscores is read as one token.
pub proof fn lemma_plain_word(w: Seq<char>)
    requires
        crate::names::is_plain_word(w),
    ensures
        is_word(w),
{
    assert(crate::value::is_name_char(w[0]));
    lemma_plain_run(w, 1, w[0]);
}

/// Whether every character of `w` can start a bare word, and `w` is not
/// empty.
pub open spec fn is_simple_word(w: Seq<char>) -> bool {
    w.len() > 0 && forall|i: int| 0 <= i < w.len() ==> starts_word(#[trigger] w[i])
}

/// A bare word goes on through characters that can start a bare word.
pub proof fn lemma_simple_run(w: Seq<char>, i: int, prev: char)
    requires
        0 <= i <= w.len(),
        forall|k: int| i <= k < w.len() ==> starts_word(#[trigger] w[k]),
    ensures
        bare_run(w, i, prev, false),
    decreases w.len() - i,
{
    if i < w.len() {
        assert(starts_word(w[i]));
        lemma_simple_run(w, i + 1, w[i]);
    }
}

/// A word of characters that can start a bare word is read as one token.
pub proof fn lemma_simple_word(w: Seq<char>)
    requires
        is_simple_word(w),
    ensures
        is_word(w),
{
    assert(starts_word(w[0]));
    lemma_simple_run(w, 1, w[0]);
}

} // verus!
