//! String arguments that may hold references to variables.

use vstd::prelude::*;
use vstd::string::StringExecFns;
use crate::format::{Formatter, Style};
use crate::position::Pos;
use crate::text::{chars_of, string_of};

verus! {

/// One piece of a value: text as it stands, or the name of a variable.
#[derive(Debug, Clone, PartialEq, Eq)]
pub enum Item {
    Literal(String),
    Variable(String),
}

/// One piece of a value as a mathematical value.
pub enum ItemView {
    Literal(Seq<char>),
    Variable(Seq<char>),
}

impl View for Item {
    type V = ItemView;

    open spec fn view(&self) -> ItemView {
        match self {
            Item::Literal(s) => ItemView::Literal(s@),
            Item::Variable(s) => ItemView::Variable(s@),
        }
    }
}

/// The views of the pieces of `s`, in order.
pub open spec fn items_view(s: Seq<Item>) -> Seq<ItemView> {
    s.map_values(|x: Item| x@)
}

/// Generic string value.
///
/// It consists of literal text and references to variables. Quotes and the
/// backslashes inside quotes are taken off when the value is read.
#[derive(Debug, Clone, PartialEq, Eq)]
pub struct Value {
    pub position: Pos,
    pub data: Vec<Item>,
}

/// A value as a mathematical value.
pub struct ValueView {
    pub position: Pos,
    pub data: Seq<ItemView>,
}

impl View for Value {
    type V = ValueView;

    open spec fn view(&self) -> ValueView {
        ValueView { position: self.position, data: items_view(self.data@) }
    }
}

/// Why a token is no value.
#[derive(Debug, Clone, Copy, PartialEq, Eq, Structural)]
pub enum ValueError {
    /// A `$` that no name follows.
    BareDollar,
    /// A `${` whose name is not closed by `}`.
    MissingBrace,
    /// A closing quote before the end of the token.
    PrematureQuote,
    /// A quoted token without its closing quote.
    UnclosedQuote,
}

/// Whether `c` may stand in the name of a variable.
pub open spec fn is_name_char(c: char) -> bool {
    ('a' <= c && c <= 'z') || ('A' <= c && c <= 'Z') || c == '_' || ('0' <= c && c <= '9')
}

/// The first offset from `i` on at which no name character stands.
pub open spec fn name_end(s: Seq<char>, i: int) -> int
    decreases s.len() - i,
{
    if 0 <= i < s.len() && is_name_char(s[i]) {
        name_end(s, i + 1)
    } else {
        i
    }
}

/// A name ends at or behind where it starts, and inside the text.
pub proof fn lemma_name_end_bounds(s: Seq<char>, i: int)
    requires
        0 <= i <= s.len(),
    ensures
        i <= name_end(s, i) <= s.len(),
        forall|k: int| i <= k < name_end(s, i) ==> is_name_char(#[trigger] s[k]),
        name_end(s, i) < s.len() ==> !is_name_char(s[name_end(s, i)]),
    decreases s.len() - i,
{
    if i < s.len() && is_name_char(s[i]) {
        lemma_name_end_bounds(s, i + 1);
    }
}

/// The variable whose `$` stands at `i`: its name, and the offset behind the
/// reference. The name stands in braces, or runs as far as name characters
/// go.
pub open spec fn variable_at(s: Seq<char>, i: int) -> Result<(Seq<char>, int), ValueError> {
    if i + 1 >= s.len() {
        Err(ValueError::BareDollar)
    } else if s[i + 1] == '{' {
        let e = name_end(s, i + 2);
        if e < s.len() && s[e] == '}' {
            Ok((s.subrange(i + 2, e), e + 1))
        } else {
            Err(ValueError::MissingBrace)
        }
    } else if is_name_char(s[i + 1]) {
        let e = name_end(s, i + 1);
        Ok((s.subrange(i + 1, e), e))
    } else {
        Err(ValueError::BareDollar)
    }
}

/// `acc` with the text `lit` added as a literal, unless `lit` is empty.
pub open spec fn flushed(acc: Seq<ItemView>, lit: Seq<char>) -> Seq<ItemView> {
    if lit.len() > 0 {
        acc.push(ItemView::Literal(lit))
    } else {
        acc
    }
}

/// The pieces of a bare token, reading from `i` on. `start` is where the
/// literal text that is being read began, `acc` holds the pieces before it,
/// and `escaped` says that a backslash stands before `i`. A backslash and
/// the character behind it stay in the literal text as they are.
pub open spec fn scan_raw_from(
    s: Seq<char>,
    i: int,
    escaped: bool,
    start: int,
    acc: Seq<ItemView>,
) -> Result<Seq<ItemView>, ValueError>
    decreases s.len() - i,
{
    if i < 0 || i >= s.len() {
        Ok(flushed(acc, s.subrange(start, s.len() as int)))
    } else if escaped {
        scan_raw_from(s, i + 1, false, start, acc)
    } else if s[i] == '$' {
        match variable_at(s, i) {
            Err(e) => Err(e),
            Ok((name, next)) => if i < next <= s.len() {
                scan_raw_from(
                    s,
                    next,
                    false,
                    next,
                    flushed(acc, s.subrange(start, i)).push(ItemView::Variable(name)),
                )
            } else {
                Err(ValueError::BareDollar)
            },
        }
    } else {
        scan_raw_from(s, i + 1, s[i] == '\\', start, acc)
    }
}

/// The pieces of a quoted token, reading from `i` on. `lit` is the literal
/// text read so far and `acc` the pieces before it. A backslash is dropped
/// and the character behind it is taken as it is. The quote that closes
/// must be the last character.
pub open spec fn scan_quoted_from(
    s: Seq<char>,
    quote: char,
    i: int,
    escaped: bool,
    lit: Seq<char>,
    acc: Seq<ItemView>,
) -> Result<Seq<ItemView>, ValueError>
    decreases s.len() - i,
{
    if i < 0 || i >= s.len() {
        Err(ValueError::UnclosedQuote)
    } else if escaped {
        scan_quoted_from(s, quote, i + 1, false, lit.push(s[i]), acc)
    } else if s[i] == quote {
        if i + 1 != s.len() {
            Err(ValueError::PrematureQuote)
        } else {
            Ok(flushed(acc, lit))
        }
    } else if s[i] == '$' {
        match variable_at(s, i) {
            Err(e) => Err(e),
            Ok((name, next)) => if i < next <= s.len() {
                scan_quoted_from(
                    s,
                    quote,
                    next,
                    false,
                    Seq::empty(),
                    flushed(acc, lit).push(ItemView::Variable(name)),
                )
            } else {
                Err(ValueError::BareDollar)
            },
        }
    } else if s[i] == '\\' {
        scan_quoted_from(s, quote, i + 1, true, lit, acc)
    } else {
        scan_quoted_from(s, quote, i + 1, false, lit.push(s[i]), acc)
    }
}

/// The pieces that the text of a token stands for.
pub open spec fn parse_spec(s: Seq<char>) -> Result<Seq<ItemView>, ValueError> {
    if s.len() > 0 && s[0] == '"' {
        scan_quoted_from(s, '"', 1, false, Seq::empty(), Seq::empty())
    } else if s.len() > 0 && s[0] == '\'' {
        scan_quoted_from(s, '\'', 1, false, Seq::empty(), Seq::empty())
    } else {
        scan_raw_from(s, 0, false, 0, Seq::empty())
    }
}

/// Whether `c` may stand in the name of a variable.
pub fn name_char(c: char) -> (r: bool)
    ensures
        r == is_name_char(c),
{
    ('a' <= c && c <= 'z') || ('A' <= c && c <= 'Z') || c == '_' || ('0' <= c && c <= '9')
}

/// Reads the reference to a variable whose `$` stands at `i`.
fn read_variable(s: &Vec<char>, i: usize) -> (r: Result<(String, usize), ValueError>)
    requires
        i < s.len(),
    ensures
        match variable_at(s@, i as int) {
            Ok((name, next)) => r matches Ok((n, e)) && n@ == name && e == next && i < e
                <= s.len(),
            Err(e) => r == Err::<(String, usize), _>(e),
        },
{
    let n = s.len();
    if i + 1 >= n {
        return Err(ValueError::BareDollar);
    }
    let first = s[i + 1];
    let braced = first == '{';
    if !braced && !name_char(first) {
        return Err(ValueError::BareDollar);
    }
    let from: usize = if braced {
        i + 2
    } else {
        i + 1
    };
    let mut e: usize = from;
    while e < n && name_char(s[e])
        invariant
            from <= e <= n,
            n == s.len(),
            name_end(s@, from as int) == name_end(s@, e as int),
        decreases n - e,
    {
        e += 1;
    }
    if braced {
        if e < n && s[e] == '}' {
            Ok((string_of(s, from, e), e + 1))
        } else {
            Err(ValueError::MissingBrace)
        }
    } else {
        Ok((string_of(s, from, e), e))
    }
}

/// Adds the text `lit` to `acc` as a literal, unless `lit` is empty.
fn flush(acc: &mut Vec<Item>, lit: String)
    ensures
        items_view(final(acc)@) == flushed(items_view(old(acc)@), lit@),
{
    if !lit.as_str().is_empty() {
        proof {
            lemma_items_push(acc@, Item::Literal(lit));
        }
        acc.push(Item::Literal(lit));
    }
}

/// The view of a list with one more piece is the view of the list with the
/// view of the piece added.
pub proof fn lemma_items_push(s: Seq<Item>, x: Item)
    ensures
        items_view(s.push(x)) == items_view(s).push(x@),
{
    assert(items_view(s.push(x)) =~= items_view(s).push(x@));
}

impl Value {
    /// Reads the text of a token as a value that was found at `position`.
    pub fn parse_str(position: Pos, token: &str) -> (r: Result<Value, ValueError>)
        ensures
            match parse_spec(token@) {
                Ok(data) => r matches Ok(v) && v@ == (ValueView { position, data }),
                Err(e) => r == Err::<Value, _>(e),
            },
    {
        let s = chars_of(token);
        Value::parse_chars(position, &s)
    }

    /// Reads the characters of a token as a value that was found at
    /// `position`.
    pub fn parse_chars(position: Pos, s: &Vec<char>) -> (r: Result<Value, ValueError>)
        ensures
            match parse_spec(s@) {
                Ok(data) => r matches Ok(v) && v@ == (ValueView { position, data }),
                Err(e) => r == Err::<Value, _>(e),
            },
    {
        let data = if s.len() > 0 && s[0] == '"' {
            Value::scan_quoted('"', s)
        } else if s.len() > 0 && s[0] == '\'' {
            Value::scan_quoted('\'', s)
        } else {
            Value::scan_raw(s)
        };
        match data {
            Ok(data) => Ok(Value { position, data }),
            Err(e) => Err(e),
        }
    }

    /// Reads a token that does not start with a quote.
    fn scan_raw(s: &Vec<char>) -> (r: Result<Vec<Item>, ValueError>)
        ensures
            match scan_raw_from(s@, 0, false, 0, Seq::empty()) {
                Ok(data) => r matches Ok(v) && items_view(v@) == data,
                Err(e) => r == Err::<Vec<Item>, _>(e),
            },
    {
        let n = s.len();
        let mut buf: Vec<Item> = Vec::new();
        let mut i: usize = 0;
        let mut escaped = false;
        let mut start: usize = 0;
        assert(items_view(buf@) =~= Seq::empty());
        while i < n
            invariant
                start <= i <= n,
                n == s.len(),
                scan_raw_from(s@, 0, false, 0, Seq::empty()) == scan_raw_from(
                    s@,
                    i as int,
                    escaped,
                    start as int,
                    items_view(buf@),
                ),
            decreases n - i,
        {
            let c = s[i];
            if escaped {
                escaped = false;
                i += 1;
            } else if c == '$' {
                match read_variable(s, i) {
                    Err(e) => {
                        return Err(e);
                    },
                    Ok((name, next)) => {
                        flush(&mut buf, string_of(s, start, i));
                        proof {
                            lemma_items_push(buf@, Item::Variable(name));
                        }
                        buf.push(Item::Variable(name));
                        start = next;
                        i = next;
                    },
                }
            } else {
                escaped = c == '\\';
                i += 1;
            }
        }
        flush(&mut buf, string_of(s, start, n));
        Ok(buf)
    }

    /// Reads a token that starts with `quote`.
    fn scan_quoted(quote: char, s: &Vec<char>) -> (r: Result<Vec<Item>, ValueError>)
        ensures
            match scan_quoted_from(s@, quote, 1, false, Seq::empty(), Seq::empty()) {
                Ok(data) => r matches Ok(v) && items_view(v@) == data,
                Err(e) => r == Err::<Vec<Item>, _>(e),
            },
    {
        let n = s.len();
        let mut buf: Vec<Item> = Vec::new();
        let mut i: usize = 1;
        let mut escaped = false;
        let mut lit = String::new();
        assert(items_view(buf@) =~= Seq::empty());
        while i < n
            invariant
                1 <= i,
                n == s.len(),
                scan_quoted_from(s@, quote, 1, false, Seq::empty(), Seq::empty())
                    == scan_quoted_from(s@, quote, i as int, escaped, lit@, items_view(buf@)),
            decreases n - i,
        {
            let c = s[i];
            if escaped {
                lit.push(c);
                escaped = false;
                i += 1;
            } else if c == quote {
                if i + 1 != n {
                    return Err(ValueError::PrematureQuote);
                }
                flush(&mut buf, lit);
                return Ok(buf);
            } else if c == '$' {
                match read_variable(s, i) {
                    Err(e) => {
                        return Err(e);
                    },
                    Ok((name, next)) => {
                        flush(&mut buf, lit);
                        lit = String::new();
                        proof {
                            lemma_items_push(buf@, Item::Variable(name));
                        }
                        buf.push(Item::Variable(name));
                        i = next;
                    },
                }
            } else if c == '\\' {
                escaped = true;
                i += 1;
            } else {
                lit.push(c);
                i += 1;
            }
        }
        Err(ValueError::UnclosedQuote)
    }
}

/// Whether `c` is alphabetic or numeric, as `char::is_alphanumeric` says.
pub uninterp spec fn alphanumeric(c: char) -> bool;

/// `char::is_alphanumeric`: whether the character is alphabetic or
/// numeric in Unicode. The letters and digits of ASCII are.
pub assume_specification[ char::is_alphanumeric ](c: char) -> (r: bool)
    ensures
        r == alphanumeric(c),
        ('a' <= c && c <= 'z') || ('A' <= c && c <= 'Z') || ('0' <= c && c <= '9') ==> r,
;

/// Whether a value with `c` in a literal is written in quotes.
pub open spec fn is_special(c: char) -> bool {
    c == ' ' || c == ';' || c == '\r' || c == '\n' || c == '\t' || c == '{' || c == '}'
}

/// Whether `s` holds a character that asks for quotes.
pub open spec fn has_special(s: Seq<char>) -> bool {
    exists|i: int| 0 <= i < s.len() && is_special(#[trigger] s[i])
}

/// Whether a literal among the first `n` pieces of `data` holds a
/// character that asks for quotes.
pub open spec fn has_specials(data: Seq<ItemView>, n: int) -> bool {
    exists|k: int|
        0 <= k < n && k < data.len() && (#[trigger] data[k]) is Literal && has_special(
            data[k]->Literal_0,
        )
}

/// Whether the variable at `k` is written in braces: a literal that
/// starts with a letter or a digit follows it, which would else be read
/// as part of the name.
pub open spec fn braced(data: Seq<ItemView>, k: int) -> bool {
    k + 1 < data.len() && data[k + 1] is Literal && data[k + 1]->Literal_0.len() > 0
        && alphanumeric(data[k + 1]->Literal_0[0])
}

/// The text of the piece `k` of `data`.
pub open spec fn piece_text(data: Seq<ItemView>, k: int) -> Seq<char> {
    match data[k] {
        ItemView::Literal(v) => v,
        ItemView::Variable(v) => if braced(data, k) {
            seq!['$', '{'] + v + seq!['}']
        } else {
            seq!['$'] + v
        },
    }
}

/// The text of the first `n` pieces of `data`.
pub open spec fn pieces_text(data: Seq<ItemView>, n: int) -> Seq<char>
    decreases n,
{
    if n <= 0 {
        Seq::empty()
    } else {
        pieces_text(data, n - 1) + piece_text(data, n - 1)
    }
}

/// The text of a value: its pieces, in double quotes where the value is
/// empty or a literal holds a blank, a semicolon, a brace or a line end.
pub open spec fn value_text(data: Seq<ItemView>) -> Seq<char> {
    let body = pieces_text(data, data.len() as int);
    if data.len() == 0 || has_specials(data, data.len() as int) {
        seq!['"'] + body + seq!['"']
    } else {
        body
    }
}

/// Whether `s` holds a character that asks for quotes.
fn special_in(s: &str) -> (r: bool)
    ensures
        r == has_special(s@),
{
    let v = chars_of(s);
    let mut i: usize = 0;
    while i < v.len()
        invariant
            i <= v.len(),
            v@ == s@,
            forall|j: int| 0 <= j < i ==> !is_special(#[trigger] v@[j]),
        decreases v.len() - i,
    {
        let c = v[i];
        if c == ' ' || c == ';' || c == '\r' || c == '\n' || c == '\t' || c == '{' || c == '}' {
            return true;
        }
        i += 1;
    }
    false
}

/// Whether the variable at `index` must be written in braces.
fn next_alphanum(data: &Vec<Item>, index: usize) -> (r: bool)
    requires
        index < data.len(),
    ensures
        r == braced(items_view(data@), index as int),
{
    if index + 1 < data.len() {
        match &data[index + 1] {
            Item::Literal(s) => {
                if s.as_str().is_empty() {
                    false
                } else {
                    s.as_str().get_char(0).is_alphanumeric()
                }
            },
            Item::Variable(_) => false,
        }
    } else {
        false
    }
}

impl Value {
    /// An empty value at no position in particular.
    pub fn empty() -> (r: Value)
        ensures
            r@.data.len() == 0,
    {
        Value { position: Pos { line: 0, column: 0 }, data: Vec::new() }
    }

    /// Whether a literal of the value holds a character that asks for
    /// quotes.
    fn has_specials(&self) -> (r: bool)
        ensures
            r == has_specials(self@.data, self@.data.len() as int),
    {
        let mut i: usize = 0;
        while i < self.data.len()
            invariant
                i <= self.data.len(),
                !has_specials(self@.data, i as int),
            decreases self.data.len() - i,
        {
            match &self.data[i] {
                Item::Literal(x) => {
                    if special_in(x.as_str()) {
                        assert(self@.data[i as int] is Literal);
                        return true;
                    }
                },
                Item::Variable(_) => {},
            }
            i += 1;
        }
        false
    }

    /// Writes the value.
    pub fn display(&self, f: &mut Formatter)
        ensures
            final(f)@ == old(f)@.write(value_text(self@.data)),
    {
        let quoted = self.data.len() == 0 || self.has_specials();
        if quoted {
            f.put('"');
        }
        let ghost start = f@;
        let ghost first = old(f)@;
        let mut i: usize = 0;
        proof {
            assert(start.text + pieces_text(self@.data, 0) =~= start.text);
        }
        while i < self.data.len()
            invariant
                i <= self.data.len(),
                f@ == start.write(pieces_text(self@.data, i as int)),
            decreases self.data.len() - i,
        {
            let ghost before = f@;
            match &self.data[i] {
                Item::Literal(v) => {
                    f.write(v.as_str());
                },
                Item::Variable(v) => {
                    if next_alphanum(&self.data, i) {
                        f.put('$');
                        f.put('{');
                        f.write(v.as_str());
                        f.put('}');
                    } else {
                        f.put('$');
                        f.write(v.as_str());
                    }
                },
            }
            proof {
                assert(f@.text =~= before.text + piece_text(self@.data, i as int));
                assert(start.text + pieces_text(self@.data, i + 1) =~= start.text + pieces_text(
                    self@.data,
                    i as int,
                ) + piece_text(self@.data, i as int));
            }
            i += 1;
        }
        if quoted {
            f.put('"');
        }
        proof {
            assert(f@.text =~= old(f)@.text + value_text(self@.data));
        }
    }

    /// The text of the value.
    pub fn to_string(&self) -> (r: String)
        ensures
            r@ == value_text(self@.data),
    {
        let mut f = Formatter::new(&Style::default());
        self.display(&mut f);
        let r = f.into_string();
        assert(Seq::<char>::empty() + value_text(self@.data) =~= value_text(self@.data));
        r
    }
}

/// The characters of an answer of the resolver.
pub open spec fn text_of(answer: Option<String>) -> Option<Seq<char>> {
    match answer {
        Some(v) => Some(v@),
        None => None,
    }
}

/// What a piece becomes when the resolver answers `answer` for its name:
/// a literal with the answer, or the piece as it was.
pub open spec fn resolved(piece: ItemView, answer: Option<Seq<char>>) -> ItemView {
    match (piece, answer) {
        (ItemView::Variable(_), Some(v)) => ItemView::Literal(v),
        _ => piece,
    }
}

/// Whether `f` can answer `answer` when asked for the variable `name`.
pub open spec fn answers<F: Fn(&str) -> Option<String>>(
    f: F,
    name: Seq<char>,
    answer: Option<Seq<char>>,
) -> bool {
    exists|s: &str, r: Option<String>|
        s@ == name && call_ensures(f, (s,), r) && answer == text_of(r)
}

/// Whether `after` is what `before` becomes when `f` is asked for each of
/// its variables: a literal stays, and a variable becomes what `resolved`
/// makes of an answer of `f`.
pub open spec fn piece_replaced<F: Fn(&str) -> Option<String>>(
    f: F,
    before: ItemView,
    after: ItemView,
) -> bool {
    match before {
        ItemView::Literal(_) => after == before,
        ItemView::Variable(name) => exists|answer: Option<Seq<char>>|
            answers(f, name, answer) && after == resolved(before, answer),
    }
}

/// Whether `after` is `before` with its variables replaced by `f`: the
/// same position, and piece for piece what `piece_replaced` says.
pub open spec fn value_replaced<F: Fn(&str) -> Option<String>>(
    f: F,
    before: ValueView,
    after: ValueView,
) -> bool {
    &&& after.position == before.position
    &&& after.data.len() == before.data.len()
    &&& forall|k: int|
        0 <= k < before.data.len() ==> piece_replaced(f, before.data[k], #[trigger] after.data[k])
}

impl Item {
    /// The piece that stands for this one once the resolver has answered
    /// `answer` for its name.
    pub fn resolve(self, answer: Option<String>) -> (r: Item)
        ensures
            r@ == resolved(self@, text_of(answer)),
    {
        match self {
            Item::Literal(x) => Item::Literal(x),
            Item::Variable(name) => match answer {
                Some(v) => Item::Literal(v),
                None => Item::Variable(name),
            },
        }
    }
}

impl Value {
    /// Replace variable references in this string with literal values.
    ///
    /// `f` is asked for each variable, in order. Where it answers with a
    /// text, the variable becomes a literal with that text; where it
    /// answers `None`, the variable stays.
    pub fn replace_vars<F: Fn(&str) -> Option<String>>(&mut self, f: &F)
        requires
            forall|name: &str| call_requires(*f, (name,)),
        ensures
            value_replaced(*f, old(self)@, final(self)@),
    {
        let mut out: Vec<Item> = Vec::new();
        let mut i: usize = 0;
        let ghost before = self@;
        while i < self.data.len()
            invariant
                i <= self.data.len(),
                self@ == before,
                out.len() == i,
                forall|name: &str| call_requires(*f, (name,)),
                forall|k: int|
                    0 <= k < i ==> piece_replaced(*f, before.data[k], #[trigger] out@[k]@),
            decreases self.data.len() - i,
        {
            let answer = match &self.data[i] {
                Item::Literal(_) => None,
                Item::Variable(name) => {
                    let r = f(name.as_str());
                    proof {
                        assert(answers(*f, name@, text_of(r)));
                    }
                    r
                },
            };
            let ghost a = text_of(answer);
            let piece = self.data[i].clone_piece();
            let next = piece.resolve(answer);
            proof {
                assert(before.data[i as int] == self.data@[i as int]@);
                match before.data[i as int] {
                    ItemView::Literal(_) => {},
                    ItemView::Variable(name) => {
                        assert(answers(*f, name, a));
                    },
                }
                assert(piece_replaced(*f, before.data[i as int], next@));
            }
            out.push(next);
            i += 1;
        }
        self.data = out;
        proof {
            assert forall|k: int| 0 <= k < before.data.len() implies piece_replaced(
                *f,
                before.data[k],
                #[trigger] self@.data[k],
            ) by {
                assert(self@.data[k] == out@[k]@);
            }
        }
    }
}

impl Value {
    /// A second value with the same position and pieces.
    pub fn copy(&self) -> (r: Value)
        ensures
            r@ == self@,
    {
        let mut data: Vec<Item> = Vec::new();
        let mut i: usize = 0;
        while i < self.data.len()
            invariant
                i <= self.data.len(),
                data@ =~= self.data@.take(i as int),
            decreases self.data.len() - i,
        {
            data.push(self.data[i].clone_piece());
            i += 1;
        }
        assert(self.data@.take(self.data.len() as int) =~= self.data@);
        Value { position: self.position, data }
    }
}

impl Item {
    /// A second piece with the same text.
    pub fn clone_piece(&self) -> (r: Item)
        ensures
            r == *self,
    {
        match self {
            Item::Literal(x) => Item::Literal(x.clone()),
            Item::Variable(x) => Item::Variable(x.clone()),
        }
    }
}

impl ValueError {
    /// What is wrong with the token, as an error says it.
    pub open spec fn text(self) -> Seq<char> {
        match self {
            ValueError::BareDollar => "Unexpected `bare $ in expression`"@,
            ValueError::MissingBrace => "Expected `}`"@,
            ValueError::PrematureQuote => "Unexpected `quote closes prematurely`"@,
            ValueError::UnclosedQuote => "Unexpected `unclosed quote`"@,
        }
    }

    /// What is wrong with the token, as an error says it.
    pub fn to_string(&self) -> (r: String)
        ensures
            r@ == self.text(),
    {
        match self {
            ValueError::BareDollar => String::from_str("Unexpected `bare $ in expression`"),
            ValueError::MissingBrace => String::from_str("Expected `}`"),
            ValueError::PrematureQuote => String::from_str(
                "Unexpected `quote closes prematurely`",
            ),
            ValueError::UnclosedQuote => String::from_str("Unexpected `unclosed quote`"),
        }
    }
}

impl std::str::FromStr for Value {
    type Err = String;

    /// Reads a value that has no place in a text: its position is line 0,
    /// column 0.
    fn from_str(s: &str) -> (r: Result<Value, String>)
        ensures
            match parse_spec(s@) {
                Ok(data) => r matches Ok(v) && v@ == (ValueView {
                    position: Pos { line: 0, column: 0 },
                    data,
                }),
                Err(e) => r matches Err(x) && x@ == e.text(),
            },
    {
        match Value::parse_str(Pos { line: 0, column: 0 }, s) {
            Ok(v) => Ok(v),
            Err(e) => Err(e.to_string()),
        }
    }
}

} // verus!
