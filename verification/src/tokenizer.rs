//! Splits the text of a configuration into tokens.
//!
//! A token is a brace, a semicolon, or a string: a quoted string with its
//! quotes, or a run of characters up to the next blank, brace, semicolon or
//! quote. White space and comments separate tokens and are dropped.

use vstd::prelude::*;
use crate::position::{Pos, right_of, next_line};
use crate::text::{chars_of, str_eq, string_of};

verus! {

/// What a token is.
#[derive(Debug, PartialEq, Eq, Structural, Clone, Copy)]
pub enum Kind {
    String,
    Semicolon,
    BlockStart,
    BlockEnd,
}

/// A token and its text. A quoted string keeps its quotes.
#[derive(Debug, PartialEq, Eq, Clone)]
pub struct Token {
    pub kind: Kind,
    pub value: String,
}

impl Token {
    /// A second token with the same kind and text.
    pub fn copy(&self) -> (r: Token)
        ensures
            r == *self,
    {
        Token { kind: self.kind, value: self.value.clone() }
    }
}

/// A token as a mathematical value.
pub struct TokenView {
    pub kind: Kind,
    pub value: Seq<char>,
}

impl View for Token {
    type V = TokenView;

    open spec fn view(&self) -> TokenView {
        TokenView { kind: self.kind, value: self.value@ }
    }
}

/// Why no token could be read.
#[derive(Debug, PartialEq, Eq, Structural, Clone, Copy)]
pub enum LexError {
    /// Nothing but white space and comments is left.
    EndOfInput,
    /// A quoted string meets the end of its line, or of the text, before its
    /// closing quote.
    Unterminated,
}

/// What is found at an offset at which a token may start.
pub enum Lexeme {
    /// A token of this kind, which ends before this offset.
    Token(Kind, int),
    EndOfInput,
    Unterminated,
}

/// Where the white space and comments that start at `off` end, and the
/// position reached there. A carriage return and a byte order mark have no
/// width, a tab has eight columns, and a comment runs from `#` to the end of
/// its line.
pub open spec fn skip_spec(s: Seq<char>, off: int, pos: Pos, in_comment: bool) -> (int, Pos)
    decreases s.len() - off,
{
    if off < 0 || off >= s.len() {
        (off, pos)
    } else {
        let c = s[off];
        if c == '\n' {
            skip_spec(s, off + 1, next_line(pos), false)
        } else if c == '\r' {
            skip_spec(s, off + 1, pos, false)
        } else if in_comment {
            skip_spec(s, off + 1, pos, true)
        } else if c == '\u{feff}' {
            skip_spec(s, off + 1, pos, false)
        } else if c == '\t' {
            skip_spec(s, off + 1, right_of(pos, 8), false)
        } else if c == ' ' {
            skip_spec(s, off + 1, right_of(pos, 1), false)
        } else if c == '#' {
            skip_spec(s, off + 1, pos, true)
        } else {
            (off, pos)
        }
    }
}

/// The offset behind the quote that closes a quoted string, looking from
/// `i` on. A backslash takes the character behind it with it, whatever it
/// is, so that a quote behind a backslash does not close, and a quote
/// behind two does. `escaped` says that a backslash stands right before
/// `i` and takes `s[i]`. `None` where the line or the text ends first.
pub open spec fn quoted_end(s: Seq<char>, i: int, quote: char, escaped: bool) -> Option<int>
    decreases s.len() - i,
{
    if i < 0 || i >= s.len() {
        None
    } else if escaped {
        quoted_end(s, i + 1, quote, false)
    } else if s[i] == '\\' {
        quoted_end(s, i + 1, quote, true)
    } else if s[i] == quote {
        Some(i + 1)
    } else if s[i] == '\n' {
        None
    } else {
        quoted_end(s, i + 1, quote, false)
    }
}

/// Whether `c` ends a bare word unless a backslash stands before it.
pub open spec fn is_stop(c: char) -> bool {
    c == ';' || c == '{' || c == '}' || c == ' ' || c == '"' || c == '\''
}

/// The offset at which a bare word ends, looking from `i` on. `prev` is the
/// character before `i`, or a blank after an escaped backslash. Inside
/// `${` and `}` nothing ends the word.
pub open spec fn bare_end(s: Seq<char>, i: int, prev: char, in_brace: bool) -> int
    decreases s.len() - i,
{
    if i < 0 || i >= s.len() {
        s.len() as int
    } else {
        let c = s[i];
        if in_brace {
            if c == '}' {
                bare_end(s, i + 1, '{', false)
            } else {
                bare_end(s, i + 1, prev, true)
            }
        } else if c == '\r' || c == '\t' || c == '\n' {
            i
        } else if c == '{' && prev == '$' {
            bare_end(s, i + 1, prev, true)
        } else if is_stop(c) {
            if prev == '\\' {
                bare_end(s, i + 1, c, false)
            } else {
                i
            }
        } else if c == '\\' && prev == '\\' {
            bare_end(s, i + 1, ' ', false)
        } else {
            bare_end(s, i + 1, c, false)
        }
    }
}

/// What stands at `off`, an offset that white space does not start at.
pub open spec fn lexeme_at(s: Seq<char>, off: int) -> Lexeme {
    if off < 0 || off >= s.len() {
        Lexeme::EndOfInput
    } else {
        let c = s[off];
        if c == '{' {
            Lexeme::Token(Kind::BlockStart, off + 1)
        } else if c == '}' {
            Lexeme::Token(Kind::BlockEnd, off + 1)
        } else if c == ';' {
            Lexeme::Token(Kind::Semicolon, off + 1)
        } else if c == '"' || c == '\'' {
            match quoted_end(s, off + 1, c, false) {
                Some(end) => Lexeme::Token(Kind::String, end),
                None => Lexeme::Unterminated,
            }
        } else {
            Lexeme::Token(Kind::String, bare_end(s, off + 1, c, false))
        }
    }
}

/// A closing quote is found behind where the search began.
pub proof fn lemma_quoted_end_bounds(s: Seq<char>, i: int, quote: char, escaped: bool)
    requires
        0 <= i,
    ensures
        quoted_end(s, i, quote, escaped) matches Some(end) ==> i < end <= s.len(),
    decreases s.len() - i,
{
    if i < s.len() {
        if escaped {
            lemma_quoted_end_bounds(s, i + 1, quote, false);
        } else if s[i] == '\\' {
            lemma_quoted_end_bounds(s, i + 1, quote, true);
        } else if s[i] != quote && s[i] != '\n' {
            lemma_quoted_end_bounds(s, i + 1, quote, false);
        }
    }
}

/// A bare word ends at or behind where the search began.
pub proof fn lemma_bare_end_bounds(s: Seq<char>, i: int, prev: char, in_brace: bool)
    requires
        0 <= i <= s.len(),
    ensures
        i <= bare_end(s, i, prev, in_brace) <= s.len(),
    decreases s.len() - i,
{
    if i < s.len() {
        let c = s[i];
        if in_brace {
            if c == '}' {
                lemma_bare_end_bounds(s, i + 1, '{', false);
            } else {
                lemma_bare_end_bounds(s, i + 1, prev, true);
            }
        } else if c == '\r' || c == '\t' || c == '\n' {
        } else if c == '{' && prev == '$' {
            lemma_bare_end_bounds(s, i + 1, prev, true);
        } else if is_stop(c) {
            if prev == '\\' {
                lemma_bare_end_bounds(s, i + 1, c, false);
            }
        } else if c == '\\' && prev == '\\' {
            lemma_bare_end_bounds(s, i + 1, ' ', false);
        } else {
            lemma_bare_end_bounds(s, i + 1, c, false);
        }
    }
}

/// White space ends at or behind where it starts, and inside the text.
pub proof fn lemma_skip_bounds(s: Seq<char>, off: int, pos: Pos, in_comment: bool)
    requires
        0 <= off <= s.len(),
    ensures
        off <= skip_spec(s, off, pos, in_comment).0 <= s.len(),
    decreases s.len() - off,
{
    if off < s.len() {
        let c = s[off];
        if c == '\n' {
            lemma_skip_bounds(s, off + 1, next_line(pos), false);
        } else if c == '\r' {
            lemma_skip_bounds(s, off + 1, pos, false);
        } else if in_comment {
            lemma_skip_bounds(s, off + 1, pos, true);
        } else if c == '\u{feff}' {
            lemma_skip_bounds(s, off + 1, pos, false);
        } else if c == '\t' {
            lemma_skip_bounds(s, off + 1, right_of(pos, 8), false);
        } else if c == ' ' {
            lemma_skip_bounds(s, off + 1, right_of(pos, 1), false);
        } else if c == '#' {
            lemma_skip_bounds(s, off + 1, pos, true);
        }
    }
}

/// A token is not empty and lies inside the text.
pub proof fn lemma_lexeme_bounds(s: Seq<char>, off: int)
    requires
        0 <= off <= s.len(),
    ensures
        lexeme_at(s, off) matches Lexeme::Token(_, end) ==> off < end <= s.len(),
{
    if off < s.len() {
        let c = s[off];
        if c == '"' || c == '\'' {
            lemma_quoted_end_bounds(s, off + 1, c, false);
        } else {
            lemma_bare_end_bounds(s, off + 1, c, false);
        }
    }
}

/// A saved place in a token stream.
#[derive(Clone, Debug, PartialEq)]
pub struct Checkpoint {
    position: Pos,
    off: usize,
}

impl Checkpoint {
    /// The offset that was saved.
    pub closed spec fn offset(&self) -> int {
        self.off as int
    }

    /// The position that was saved.
    pub closed spec fn position(&self) -> Pos {
        self.position
    }
}

/// The one token that a stream read last: the state in which the stream
/// was, the token, and the state it was left in.
#[derive(Debug, PartialEq)]
struct Remembered {
    at: usize,
    before: Pos,
    token: Token,
    off: usize,
    after: Pos,
}

/// Reads tokens from a text, one at a time.
///
/// Between calls the stream stands at the start of a token or at the end of
/// the text, never in white space.
#[derive(Debug, PartialEq)]
pub struct TokenStream {
    buf: Vec<char>,
    position: Pos,
    off: usize,
    next_state: Option<Remembered>,
}

/// What reading one token from the state `(off, pos)` gives: the token and
/// the state behind it and behind the white space that follows.
pub open spec fn step_spec(s: Seq<char>, off: int, pos: Pos) -> Result<
    (TokenView, int, Pos),
    LexError,
> {
    match lexeme_at(s, off) {
        Lexeme::Token(kind, end) => {
            let after = skip_spec(s, end, right_of(pos, (end - off) as nat), false);
            Ok((TokenView { kind, value: s.subrange(off, end) }, after.0, after.1))
        },
        Lexeme::EndOfInput => Err(LexError::EndOfInput),
        Lexeme::Unterminated => Err(LexError::Unterminated),
    }
}

impl TokenStream {
    /// The text that the stream reads.
    pub closed spec fn text(&self) -> Seq<char> {
        self.buf@
    }

    /// How many characters have been read.
    pub closed spec fn offset(&self) -> int {
        self.off as int
    }

    /// The position of the next token.
    pub closed spec fn pos(&self) -> Pos {
        self.position
    }

    /// The stream stands inside its text, and what it remembers is what a
    /// fresh reading would give.
    pub closed spec fn wf(&self) -> bool {
        &&& self.off <= self.buf.len()
        &&& self.next_state matches Some(m) ==> {
            &&& m.at <= self.buf.len()
            &&& step_spec(self.buf@, m.at as int, m.before) == Ok::<_, LexError>(
                (m.token@, m.off as int, m.after),
            )
        }
    }

    /// A stream over `s`, at its first token.
    pub fn new(s: &str) -> (r: TokenStream)
        ensures
            r.wf(),
            r.text() == s@,
            0 <= r.offset() <= r.text().len(),
            (r.offset(), r.pos()) == skip_spec(s@, 0, Pos { line: 1, column: 1 }, false),
    {
        let mut me = TokenStream {
            buf: chars_of(s),
            position: Pos { line: 1, column: 1 },
            off: 0,
            next_state: None,
        };
        me.skip_whitespace();
        me
    }

    /// The position of the next token, or of the end of the text.
    pub fn position(&self) -> (p: Pos)
        ensures
            p == self.pos(),
    {
        self.position
    }

    /// Saves the place at which the stream stands. The place of a stream
    /// that is well formed lies in its text, so the stream can go back to
    /// it.
    pub fn checkpoint(&self) -> (c: Checkpoint)
        ensures
            c.offset() == self.offset(),
            c.position() == self.pos(),
            self.wf() ==> 0 <= c.offset() <= self.text().len(),
    {
        Checkpoint { position: self.position, off: self.off }
    }

    /// Goes back, or forward, to a saved place of this stream.
    pub fn reset(&mut self, checkpoint: Checkpoint)
        requires
            old(self).wf(),
            0 <= checkpoint.offset() <= old(self).text().len(),
        ensures
            final(self).wf(),
            final(self).text() == old(self).text(),
            final(self).offset() == checkpoint.offset(),
            final(self).pos() == checkpoint.position(),
            0 <= final(self).offset() <= final(self).text().len(),
    {
        self.position = checkpoint.position;
        self.off = checkpoint.off;
    }

    /// Reads the next token and the white space behind it.
    ///
    /// At the end of the text, and at a quoted string that is not closed,
    /// the stream stays where it is.
    pub fn uncons(&mut self) -> (r: Result<Token, LexError>)
        requires
            old(self).wf(),
        ensures
            final(self).wf(),
            final(self).text() == old(self).text(),
            0 <= final(self).offset() <= final(self).text().len(),
            match step_spec(old(self).text(), old(self).offset(), old(self).pos()) {
                Ok((token, off, pos)) => {
                    &&& r matches Ok(t)
                    &&& t@ == token
                    &&& final(self).offset() == off
                    &&& final(self).pos() == pos
                },
                Err(e) => {
                    &&& r == Err::<Token, _>(e)
                    &&& final(self).offset() == old(self).offset()
                    &&& final(self).pos() == old(self).pos()
                },
            },
    {
        let at = self.off;
        let before = self.position;
        let mut found: Option<Token> = None;
        match &self.next_state {
            Some(m) => {
                if m.at == at && m.before.line == before.line && m.before.column
                    == before.column {
                    found = Some(m.token.copy());
                    self.off = m.off;
                    self.position = m.after;
                    proof {
                        lemma_lexeme_bounds(self.buf@, at as int);
                        let end = lexeme_at(self.buf@, at as int)->Token_1;
                        lemma_skip_bounds(
                            self.buf@,
                            end,
                            right_of(before, (end - at) as nat),
                            false,
                        );
                    }
                }
            },
            None => {},
        }
        if let Some(t) = found {
            return Ok(t);
        }
        let (kind, len) = match self.peek_token() {
            Ok(pair) => pair,
            Err(e) => {
                return Err(e);
            },
        };
        let value = string_of(&self.buf, self.off - len, self.off);
        self.skip_whitespace();
        let token = Token { kind, value };
        self.next_state = Some(
            Remembered {
                at,
                before,
                token: token.copy(),
                off: self.off,
                after: self.position,
            },
        );
        Ok(token)
    }

    /// Steps over the token at which the stream stands, and gives its kind
    /// and its length in characters.
    fn peek_token(&mut self) -> (r: Result<(Kind, usize), LexError>)
        requires
            old(self).off <= old(self).buf.len(),
        ensures
            final(self).buf == old(self).buf,
            final(self).next_state == old(self).next_state,
            final(self).off <= final(self).buf.len(),
            match lexeme_at(old(self).buf@, old(self).off as int) {
                Lexeme::Token(kind, end) => {
                    &&& r == Ok::<_, LexError>((kind, (end - old(self).off) as usize))
                    &&& old(self).off < end
                    &&& final(self).off == end
                    &&& final(self).position == right_of(
                        old(self).position,
                        (end - old(self).off) as nat,
                    )
                },
                Lexeme::EndOfInput => {
                    &&& r == Err::<(Kind, usize), _>(LexError::EndOfInput)
                    &&& final(self).off == old(self).off
                    &&& final(self).position == old(self).position
                },
                Lexeme::Unterminated => {
                    &&& r == Err::<(Kind, usize), _>(LexError::Unterminated)
                    &&& final(self).off == old(self).off
                    &&& final(self).position == old(self).position
                },
            },
    {
        proof {
            lemma_lexeme_bounds(self.buf@, self.off as int);
        }
        let n = self.buf.len();
        let start = self.off;
        if start >= n {
            return Err(LexError::EndOfInput);
        }
        let first = self.buf[start];
        if first == '{' {
            self.position = self.position.right(1);
            self.off = start + 1;
            return Ok((Kind::BlockStart, 1));
        }
        if first == '}' {
            self.position = self.position.right(1);
            self.off = start + 1;
            return Ok((Kind::BlockEnd, 1));
        }
        if first == ';' {
            self.position = self.position.right(1);
            self.off = start + 1;
            return Ok((Kind::Semicolon, 1));
        }
        if first == '"' || first == '\'' {
            let mut i: usize = start + 1;
            let mut escaped = false;
            while i < n
                invariant
                    start < i <= n,
                    n == self.buf.len(),
                    start == old(self).off,
                    first == self.buf@[start as int],
                    first == '"' || first == '\'',
                    self.buf == old(self).buf,
                    self.off == old(self).off,
                    self.position == old(self).position,
                    self.next_state == old(self).next_state,
                    quoted_end(self.buf@, start + 1, first, false) == quoted_end(
                        self.buf@,
                        i as int,
                        first,
                        escaped,
                    ),
                decreases n - i,
            {
                let c = self.buf[i];
                if escaped {
                    escaped = false;
                } else if c == '\\' {
                    escaped = true;
                } else if c == first {
                    let len = i + 1 - start;
                    self.position = self.position.right(len);
                    self.off = i + 1;
                    return Ok((Kind::String, len));
                } else if c == '\n' {
                    return Err(LexError::Unterminated);
                }
                i += 1;
            }
            return Err(LexError::Unterminated);
        }
        let mut i: usize = start + 1;
        let mut prev = first;
        let mut in_brace = false;
        let mut end: Option<usize> = None;
        while i < n && end.is_none()
            invariant
                start < i <= n,
                n == self.buf.len(),
                self.buf == old(self).buf,
                self.off == old(self).off,
                self.position == old(self).position,
                self.next_state == old(self).next_state,
                end is None ==> bare_end(self.buf@, start + 1, first, false) == bare_end(
                    self.buf@,
                    i as int,
                    prev,
                    in_brace,
                ),
                end matches Some(e) ==> e == bare_end(self.buf@, start + 1, first, false) && e
                    == i,
            decreases n - i, (if end is None { 1int } else { 0int }),
        {
            let c = self.buf[i];
            if in_brace {
                if c == '}' {
                    in_brace = false;
                    prev = '{';
                }
                i += 1;
            } else if c == '\r' || c == '\t' || c == '\n' {
                end = Some(i);
            } else if c == '{' && prev == '$' {
                in_brace = true;
                i += 1;
            } else if c == ';' || c == '{' || c == '}' || c == ' ' || c == '"' || c == '\'' {
                if prev == '\\' {
                    prev = c;
                    i += 1;
                } else {
                    end = Some(i);
                }
            } else if c == '\\' && prev == '\\' {
                prev = ' ';
                i += 1;
            } else {
                prev = c;
                i += 1;
            }
        }
        let len = i - start;
        self.position = self.position.right(len);
        self.off = i;
        Ok((Kind::String, len))
    }

    /// Steps over white space and comments.
    fn skip_whitespace(&mut self)
        requires
            old(self).off <= old(self).buf.len(),
        ensures
            final(self).buf == old(self).buf,
            final(self).next_state == old(self).next_state,
            final(self).off <= final(self).buf.len(),
            (final(self).off as int, final(self).position) == skip_spec(
                old(self).buf@,
                old(self).off as int,
                old(self).position,
                false,
            ),
    {
        let n = self.buf.len();
        let mut i: usize = self.off;
        let mut in_comment = false;
        let mut done = false;
        while i < n && !done
            invariant
                i <= n,
                n == self.buf.len(),
                self.buf == old(self).buf,
                self.next_state == old(self).next_state,
                skip_spec(old(self).buf@, old(self).off as int, old(self).position, false)
                    == skip_spec(self.buf@, i as int, self.position, in_comment),
                done ==> skip_spec(self.buf@, i as int, self.position, in_comment) == (
                    i as int,
                    self.position,
                ),
            decreases n - i, (if done { 0int } else { 1int }),
        {
            let c = self.buf[i];
            if c == '\n' {
                self.position = self.position.down();
                in_comment = false;
                i += 1;
            } else if c == '\r' {
                in_comment = false;
                i += 1;
            } else if in_comment {
                i += 1;
            } else if c == '\u{feff}' {
                i += 1;
            } else if c == '\t' {
                self.position = self.position.right(8);
                i += 1;
            } else if c == ' ' {
                self.position = self.position.right(1);
                i += 1;
            } else if c == '#' {
                in_comment = true;
                i += 1;
            } else {
                done = true;
            }
        }
        self.off = i;
    }
}

/// A token and the position at which it starts.
#[derive(Debug, PartialEq, Eq)]
pub struct Spanned {
    pub position: Pos,
    pub token: Token,
}

/// `Spanned` as a mathematical value.
pub struct SpannedView {
    pub position: Pos,
    pub token: TokenView,
}

impl View for Spanned {
    type V = SpannedView;

    open spec fn view(&self) -> SpannedView {
        SpannedView { position: self.position, token: self.token@ }
    }
}

/// All tokens of a text, and how and where the reading ended.
#[derive(Debug, PartialEq, Eq)]
pub struct TokenList {
    pub tokens: Vec<Spanned>,
    pub end: LexError,
    pub end_position: Pos,
}

/// `TokenList` as a mathematical value.
pub struct Lexed {
    pub tokens: Seq<SpannedView>,
    pub end: LexError,
    pub end_position: Pos,
}

impl View for TokenList {
    type V = Lexed;

    open spec fn view(&self) -> Lexed {
        Lexed {
            tokens: self.tokens@.map_values(|t: Spanned| t@),
            end: self.end,
            end_position: self.end_position,
        }
    }
}

/// The tokens that are read from the state `(off, pos)` on, and the end of
/// the reading.
pub open spec fn lex_from(s: Seq<char>, off: int, pos: Pos) -> Lexed
    decreases s.len() - off,
{
    match step_spec(s, off, pos) {
        Ok((token, next, after)) => if off < next <= s.len() {
            let rest = lex_from(s, next, after);
            Lexed {
                tokens: seq![SpannedView { position: pos, token }] + rest.tokens,
                end: rest.end,
                end_position: rest.end_position,
            }
        } else {
            Lexed { tokens: Seq::empty(), end: LexError::EndOfInput, end_position: pos }
        },
        Err(e) => Lexed { tokens: Seq::empty(), end: e, end_position: pos },
    }
}

/// The tokens of `s`, and the end of the reading.
pub open spec fn lex(s: Seq<char>) -> Lexed {
    let start = skip_spec(s, 0, Pos { line: 1, column: 1 }, false);
    lex_from(s, start.0, start.1)
}

/// What an error says was found where the reading ended.
pub open spec fn end_text(e: LexError) -> Seq<char> {
    match e {
        LexError::EndOfInput => "end of input"@,
        LexError::Unterminated => "unterminated string value"@,
    }
}

impl Lexed {
    /// Whether the token `i` exists and is of kind `kind`.
    pub open spec fn is_kind(self, i: int, kind: Kind) -> bool {
        0 <= i < self.tokens.len() && self.tokens[i].token.kind == kind
    }

    /// Whether the token `i` exists and is a string.
    pub open spec fn is_string(self, i: int) -> bool {
        self.is_kind(i, Kind::String)
    }

    /// The text of the token `i`, or of the end of the reading.
    pub open spec fn text(self, i: int) -> Seq<char> {
        if 0 <= i < self.tokens.len() {
            self.tokens[i].token.value
        } else {
            end_text(self.end)
        }
    }

    /// The position of the token `i`, or of the end of the reading.
    pub open spec fn position(self, i: int) -> Pos {
        if 0 <= i < self.tokens.len() {
            self.tokens[i].position
        } else {
            self.end_position
        }
    }

    /// Whether the token `i` is the bare word `word`.
    pub open spec fn is_word(self, i: int, word: Seq<char>) -> bool {
        self.is_string(i) && self.text(i) == word
    }
}

impl LexError {
    /// What an error says was found where the reading ended.
    pub fn text(&self) -> (r: &'static str)
        ensures
            r@ == end_text(*self),
    {
        match self {
            LexError::EndOfInput => "end of input",
            LexError::Unterminated => "unterminated string value",
        }
    }
}

impl TokenList {
    /// Whether the token `i` exists and is of kind `kind`.
    pub fn is_kind(&self, i: usize, kind: Kind) -> (r: bool)
        ensures
            r == self@.is_kind(i as int, kind),
            r ==> i < self.tokens.len(),
            self@.tokens.len() == self.tokens.len(),
    {
        i < self.tokens.len() && self.tokens[i].token.kind == kind
    }

    /// Whether the token `i` exists and is a string.
    pub fn is_string(&self, i: usize) -> (r: bool)
        ensures
            r == self@.is_string(i as int),
            r ==> i < self.tokens.len(),
            self@.tokens.len() == self.tokens.len(),
    {
        self.is_kind(i, Kind::String)
    }

    /// The text of the token `i`, or of the end of the reading.
    pub fn text(&self, i: usize) -> (r: &str)
        ensures
            r@ == self@.text(i as int),
    {
        if i < self.tokens.len() {
            self.tokens[i].token.value.as_str()
        } else {
            self.end.text()
        }
    }

    /// The position of the token `i`, or of the end of the reading.
    pub fn position(&self, i: usize) -> (r: Pos)
        ensures
            r == self@.position(i as int),
    {
        if i < self.tokens.len() {
            self.tokens[i].position
        } else {
            self.end_position
        }
    }

    /// Whether the token `i` is the bare word `word`.
    pub fn is_word(&self, i: usize, word: &str) -> (r: bool)
        ensures
            r == self@.is_word(i as int, word@),
            r ==> i < self.tokens.len(),
            self@.tokens.len() == self.tokens.len(),
    {
        self.is_string(i) && str_eq(self.tokens[i].token.value.as_str(), word)
    }
}

/// Reads all tokens of `s`.
pub fn tokenize(s: &str) -> (r: TokenList)
    ensures
        r@ == lex(s@),
{
    let mut stream = TokenStream::new(s);
    let mut tokens: Vec<Spanned> = Vec::new();
    let mut end = LexError::EndOfInput;
    let mut done = false;
    let ghost text = s@;
    while !done
        invariant
            stream.wf(),
            stream.text() == text,
            0 <= stream.offset() <= text.len(),
            !done ==> lex(text) == (Lexed {
                tokens: tokens@.map_values(|t: Spanned| t@) + lex_from(
                    text,
                    stream.offset(),
                    stream.pos(),
                ).tokens,
                end: lex_from(text, stream.offset(), stream.pos()).end,
                end_position: lex_from(text, stream.offset(), stream.pos()).end_position,
            }),
            done ==> lex(text) == (Lexed {
                tokens: tokens@.map_values(|t: Spanned| t@),
                end,
                end_position: stream.pos(),
            }),
        decreases text.len() - stream.offset(), (if done { 0int } else { 1int }),
    {
        let position = stream.position();
        let ghost off = stream.offset();
        let ghost before = tokens@.map_values(|t: Spanned| t@);
        proof {
            lemma_lexeme_bounds(text, off);
            if lexeme_at(text, off) is Token {
                let e = lexeme_at(text, off)->Token_1;
                lemma_skip_bounds(text, e, right_of(position, (e - off) as nat), false);
            }
        }
        match stream.uncons() {
            Ok(token) => {
                let ghost rest = lex_from(text, stream.offset(), stream.pos());
                let item = Spanned { position, token };
                tokens.push(item);
                proof {
                    assert(tokens@.map_values(|t: Spanned| t@) =~= before.push(item@));
                    assert(before + (seq![item@] + rest.tokens) =~= before.push(item@)
                        + rest.tokens);
                }
            },
            Err(e) => {
                end = e;
                done = true;
                assert(before + Seq::<SpannedView>::empty() =~= before);
            },
        }
    }
    TokenList { tokens, end, end_position: stream.position() }
}

} // verus!
