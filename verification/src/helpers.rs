//! Small matchers on tokens, and the errors that they give.

use vstd::prelude::*;
use vstd::string::StringExecFns;
use crate::ast::{Item, ItemView};
use crate::error::{ErrorItem, ErrorItemView, ErrorView, ParseError};
use crate::position::Pos;
use crate::text::{chars_of, is_prefix, starts_with, str_eq, NumError};
use crate::tokenizer::{Kind, Lexed, TokenList};
use crate::value::{parse_spec, ValueError, ValueView};

verus! {

/// Matches a token of one kind.
#[derive(Debug, Clone)]
pub struct TokenMatch {
    kind: Kind,
}

/// Matches a string token with a given text.
#[derive(Debug, Clone)]
pub struct Value {
    kind: Kind,
    value: &'static str,
}

/// Matches a string token that starts with a given text.
#[derive(Debug, Clone)]
pub struct Prefix {
    value: &'static str,
}

/// A matcher for tokens of kind `kind`.
pub fn kind(wanted: Kind) -> (r: TokenMatch)
    ensures
        r.wanted() == wanted,
{
    TokenMatch { kind: wanted }
}

/// A matcher for semicolons.
pub fn semi() -> (r: TokenMatch)
    ensures
        r.wanted() == Kind::Semicolon,
{
    kind(Kind::Semicolon)
}

/// A matcher for the bare word `value`.
pub fn ident(value: &'static str) -> (r: Value)
    ensures
        r.word() == value@,
{
    Value { kind: Kind::String, value }
}

/// A matcher for string tokens that start with `prefix`.
pub fn prefix(start: &'static str) -> (r: Prefix)
    ensures
        r.start() == start@,
{
    Prefix { value: start }
}

/// A matcher for string tokens.
pub fn string() -> (r: TokenMatch)
    ensures
        r.wanted() == Kind::String,
{
    kind(Kind::String)
}

/// The name of a kind of token as errors write it.
pub open spec fn kind_name(kind: Kind) -> Seq<char> {
    match kind {
        Kind::String => "String"@,
        Kind::Semicolon => "Semicolon"@,
        Kind::BlockStart => "BlockStart"@,
        Kind::BlockEnd => "BlockEnd"@,
    }
}

impl TokenMatch {
    /// The kind that is matched.
    pub closed spec fn wanted(&self) -> Kind {
        self.kind
    }

    /// Whether the token `i` is of the kind that is matched.
    pub fn matches(&self, t: &TokenList, i: usize) -> (r: bool)
        ensures
            r == t@.is_kind(i as int, self.wanted()),
            r ==> i < t.tokens.len(),
    {
        t.is_kind(i, self.kind)
    }

    /// What an error names as expected where the matcher fails.
    pub fn name(&self) -> (r: &'static str)
        ensures
            r@ == kind_name(self.wanted()),
    {
        match self.kind {
            Kind::String => "String",
            Kind::Semicolon => "Semicolon",
            Kind::BlockStart => "BlockStart",
            Kind::BlockEnd => "BlockEnd",
        }
    }
}

impl Value {
    /// The word that is matched.
    pub closed spec fn word(&self) -> Seq<char> {
        self.value@
    }

    /// Whether the token `i` is the word that is matched.
    pub fn matches(&self, t: &TokenList, i: usize) -> (r: bool)
        ensures
            r == t@.is_word(i as int, self.word()),
            r ==> i < t.tokens.len(),
    {
        t.is_word(i, self.value)
    }

    /// What an error names as expected where the matcher fails.
    pub fn name(&self) -> (r: &'static str)
        ensures
            r@ == self.word(),
    {
        self.value
    }
}

/// What stands behind `prefix` in the token `i`, if that token is a string
/// that starts with `prefix`.
pub open spec fn suffix_spec(t: Lexed, i: int, prefix: Seq<char>) -> Option<Seq<char>> {
    if t.is_string(i) && is_prefix(prefix, t.text(i)) {
        Some(t.text(i).skip(prefix.len() as int))
    } else {
        None
    }
}

impl Prefix {
    /// The text that a token must start with.
    pub closed spec fn start(&self) -> Seq<char> {
        self.value@
    }

    /// What stands behind the prefix in the token `i`, if that token is a
    /// string that starts with the prefix.
    pub fn parse(&self, t: &TokenList, i: usize) -> (r: Option<Vec<char>>)
        ensures
            match suffix_spec(t@, i as int, self.start()) {
                Some(s) => r matches Some(v) && v@ == s,
                None => r is None,
            },
    {
        if !t.is_string(i) {
            return None;
        }
        let text = chars_of(t.text(i));
        if !starts_with(&text, self.value) {
            return None;
        }
        let n = self.value.unicode_len();
        let mut out: Vec<char> = Vec::new();
        let mut k: usize = n;
        while k < text.len()
            invariant
                n <= k <= text.len(),
                out@ =~= text@.subrange(n as int, k as int),
            decreases text.len() - k,
        {
            out.push(text[k]);
            k += 1;
        }
        assert(out@ =~= text@.skip(n as int));
        Some(out)
    }

    /// What an error names as expected where the matcher fails.
    pub fn name(&self) -> (r: &'static str)
        ensures
            r@ == self.start(),
    {
        self.value
    }
}

/// The positions and items of a parse result: the value and the index of
/// the next token, or an error.
pub type Parsed<T> = Result<(T, int), ErrorView>;

/// The texts of `names`.
pub open spec fn names_view(names: Seq<&'static str>) -> Seq<Seq<char>> {
    names.map_values(|n: &'static str| n@)
}

/// The views of `items`.
pub open spec fn items_view(items: Seq<ErrorItem>) -> Seq<ErrorItemView> {
    items.map_values(|e: ErrorItem| e@)
}

/// The items that name `names` as expected.
pub open spec fn expected_items(names: Seq<Seq<char>>) -> Seq<ErrorItemView> {
    names.map_values(|n: Seq<char>| ErrorItemView::Expected(n))
}

/// The error for a token `i` that the grammar has no use for, where one of
/// `names` could have stood.
pub open spec fn unexpected_at(t: Lexed, i: int, names: Seq<Seq<char>>) -> ErrorView {
    ErrorView {
        position: t.position(i),
        errors: seq![ErrorItemView::Unexpected(t.text(i))] + expected_items(names),
    }
}

/// The error at `position` that says `item` and nothing else.
pub open spec fn error_at(position: Pos, item: ErrorItemView) -> ErrorView {
    ErrorView { position, errors: seq![item] }
}

/// The error at `position` that a thing described by `text` was found.
pub open spec fn complaint(position: Pos, text: Seq<char>) -> ErrorView {
    error_at(position, ErrorItemView::Unexpected(text))
}

/// What an error says of a token that is no value.
pub open spec fn value_error(e: ValueError) -> ErrorItemView {
    match e {
        ValueError::BareDollar => ErrorItemView::Unexpected("bare $ in expression"@),
        ValueError::MissingBrace => ErrorItemView::Expected("}"@),
        ValueError::PrematureQuote => ErrorItemView::Unexpected("quote closes prematurely"@),
        ValueError::UnclosedQuote => ErrorItemView::Unexpected("unclosed quote"@),
    }
}

/// What an error says of a text that is no number.
pub open spec fn number_text(e: NumError) -> Seq<char> {
    match e {
        NumError::Empty => "cannot parse integer from empty string"@,
        NumError::InvalidDigit => "invalid digit found in string"@,
        NumError::TooLarge => "number too large to fit in target type"@,
        NumError::TooSmall => "number too small to fit in target type"@,
    }
}

/// The item that says that a text is no number.
pub open spec fn number_error(e: NumError) -> ErrorItemView {
    ErrorItemView::Message(number_text(e))
}

/// The value that the token `i` stands for, if it is a string; `names` is
/// what could have stood there if it is none.
pub open spec fn value_spec(t: Lexed, i: int, names: Seq<Seq<char>>) -> Parsed<ValueView> {
    if t.is_string(i) {
        match parse_spec(t.text(i)) {
            Ok(data) => Ok((ValueView { position: t.position(i), data }, i + 1)),
            Err(e) => Err(error_at(t.position(i), value_error(e))),
        }
    } else {
        Err(unexpected_at(t, i, names))
    }
}

/// The index behind the semicolon that stands at `i`; `names` is what else
/// could have stood there.
pub open spec fn semi_spec(t: Lexed, i: int, names: Seq<Seq<char>>) -> Result<int, ErrorView> {
    if t.is_kind(i, Kind::Semicolon) {
        Ok(i + 1)
    } else {
        Err(unexpected_at(t, i, names.push("Semicolon"@)))
    }
}

/// The first index from `i` on at which no string token stands.
pub open spec fn run_end(t: Lexed, i: int) -> int
    decreases t.tokens.len() - i,
{
    if t.is_string(i) {
        run_end(t, i + 1)
    } else {
        i
    }
}

/// The values of the string tokens from `i` on, added to `acc`, and the
/// index of the first token that is no string.
pub open spec fn values_spec(t: Lexed, i: int, acc: Seq<ValueView>) -> Parsed<Seq<ValueView>>
    decreases t.tokens.len() - i,
{
    if t.is_string(i) {
        match value_spec(t, i, Seq::empty()) {
            Err(e) => Err(e),
            Ok((v, _)) => values_spec(t, i + 1, acc.push(v)),
        }
    } else {
        Ok((acc, i))
    }
}

/// A run of strings ends at or behind where it starts, inside the list,
/// and holds strings only.
pub proof fn lemma_run_end(t: Lexed, i: int)
    requires
        0 <= i <= t.tokens.len(),
    ensures
        i <= run_end(t, i) <= t.tokens.len(),
        forall|k: int| i <= k < run_end(t, i) ==> t.is_string(k),
        !t.is_string(run_end(t, i)),
        t.is_string(i) ==> run_end(t, i) > i,
    decreases t.tokens.len() - i,
{
    if t.is_string(i) {
        lemma_run_end(t, i + 1);
    }
}

/// The values of a run of strings end where the run ends.
pub proof fn lemma_values_end(t: Lexed, i: int, acc: Seq<ValueView>)
    requires
        0 <= i <= t.tokens.len(),
    ensures
        values_spec(t, i, acc) matches Ok((v, j)) ==> j == run_end(t, i) && v.len() == acc.len()
            + j - i && v.subrange(0, acc.len() as int) == acc,
    decreases t.tokens.len() - i,
{
    if t.is_string(i) {
        match value_spec(t, i, Seq::empty()) {
            Err(e) => {},
            Ok((v, _)) => {
                lemma_values_end(t, i + 1, acc.push(v));
                lemma_run_end(t, i + 1);
                match values_spec(t, i, acc) {
                    Ok((w, j)) => {
                        assert(w.subrange(0, acc.len() as int) =~= w.subrange(
                            0,
                            acc.len() as int + 1,
                        ).subrange(0, acc.len() as int));
                        assert(acc.push(v).subrange(0, acc.len() as int) =~= acc);
                    },
                    Err(_) => {},
                }
            },
        }
    } else {
        assert(acc.subrange(0, acc.len() as int) =~= acc);
    }
}

/// The item that says that `e` was found in place of a value.
pub fn item_of_value_error(e: ValueError) -> (r: ErrorItem)
    ensures
        r@ == value_error(e),
{
    match e {
        ValueError::BareDollar => ErrorItem::Unexpected(
            String::from_str("bare $ in expression"),
        ),
        ValueError::MissingBrace => ErrorItem::Expected(String::from_str("}")),
        ValueError::PrematureQuote => ErrorItem::Unexpected(
            String::from_str("quote closes prematurely"),
        ),
        ValueError::UnclosedQuote => ErrorItem::Unexpected(String::from_str("unclosed quote")),
    }
}

/// The item that says that a text is no number.
pub fn item_of_number_error(e: NumError) -> (r: ErrorItem)
    ensures
        r@ == number_error(e),
{
    ErrorItem::Message(String::from_str(number_message(e)))
}

/// What an error says of a text that is no number.
pub fn number_message(e: NumError) -> (r: &'static str)
    ensures
        r@ == number_text(e),
{
    match e {
        NumError::Empty => "cannot parse integer from empty string",
        NumError::InvalidDigit => "invalid digit found in string",
        NumError::TooLarge => "number too large to fit in target type",
        NumError::TooSmall => "number too small to fit in target type",
    }
}

/// The error at `position` that a thing described by `text` was found.
pub fn complain(position: Pos, text: &str) -> (r: ParseError)
    ensures
        r@ == complaint(position, text@),
{
    ParseError::single(position, ErrorItem::Unexpected(String::from_str(text)))
}

/// The error for a token `i` that the grammar has no use for, where one of
/// `names` could have stood.
pub fn unexpected(t: &TokenList, i: usize, names: &Vec<&'static str>) -> (r: ParseError)
    ensures
        r@ == unexpected_at(t@, i as int, names_view(names@)),
{
    let mut errors: Vec<ErrorItem> = Vec::new();
    errors.push(ErrorItem::Unexpected(String::from_str(t.text(i))));
    let mut k: usize = 0;
    assert(items_view(errors@) =~= seq![ErrorItemView::Unexpected(t@.text(i as int))]
        + expected_items(names_view(names@).take(0)));
    while k < names.len()
        invariant
            k <= names.len(),
            items_view(errors@) == seq![ErrorItemView::Unexpected(t@.text(i as int))]
                + expected_items(names_view(names@).take(k as int)),
        decreases names.len() - k,
    {
        let ghost before = errors@;
        let item = ErrorItem::Expected(String::from_str(names[k]));
        errors.push(item);
        proof {
            let all = names_view(names@);
            assert(all.take(k + 1) =~= all.take(k as int).push(names[k as int]@));
            assert(expected_items(all.take(k + 1)) =~= expected_items(all.take(k as int)).push(
                item@,
            ));
            assert(items_view(errors@) =~= items_view(before).push(item@));
            assert(items_view(errors@) =~= seq![ErrorItemView::Unexpected(t@.text(i as int))]
                + expected_items(all.take(k + 1)));
        }
        k += 1;
    }
    assert(names_view(names@).take(names.len() as int) =~= names_view(names@));
    let r = ParseError { position: t.position(i), errors };
    assert(r@.errors =~= items_view(errors@));
    r
}

/// Reads the token `i` as a value.
pub fn value_at(t: &TokenList, i: usize, names: &Vec<&'static str>) -> (r: Result<
    (crate::value::Value, usize),
    ParseError,
>)
    ensures
        match value_spec(t@, i as int, names_view(names@)) {
            Ok((v, j)) => r matches Ok((x, k)) && x@ == v && k == j && k == i + 1 && i
                < t.tokens.len(),
            Err(e) => r matches Err(x) && x@ == e,
        },
{
    if t.is_string(i) {
        match crate::value::Value::parse_str(t.position(i), t.text(i)) {
            Ok(v) => Ok((v, i + 1)),
            Err(e) => Err(ParseError::single(t.position(i), item_of_value_error(e))),
        }
    } else {
        Err(unexpected(t, i, names))
    }
}

/// Steps over the semicolon at `i`.
pub fn semi_at(t: &TokenList, i: usize, names: Vec<&'static str>) -> (r: Result<
    usize,
    ParseError,
>)
    ensures
        match semi_spec(t@, i as int, names_view(names@)) {
            Ok(j) => r matches Ok(k) && k == j && k == i + 1 && i < t.tokens.len(),
            Err(e) => r matches Err(x) && x@ == e,
        },
{
    let m = semi();
    if m.matches(t, i) {
        Ok(i + 1)
    } else {
        let mut names = names;
        let ghost before = names_view(names@);
        names.push(m.name());
        assert(names_view(names@) =~= before.push("Semicolon"@));
        Err(unexpected(t, i, &names))
    }
}

/// Reads the string tokens from `i` on as values.
pub fn values_from(t: &TokenList, i: usize) -> (r: Result<
    (Vec<crate::value::Value>, usize),
    ParseError,
>)
    requires
        i <= t.tokens.len(),
    ensures
        match values_spec(t@, i as int, Seq::empty()) {
            Ok((v, j)) => r matches Ok((x, k)) && crate::ast::seq_view(x@) == v && k == j && i
                <= k <= t.tokens.len(),
            Err(e) => r matches Err(x) && x@ == e,
        },
{
    let mut out: Vec<crate::value::Value> = Vec::new();
    let mut k: usize = i;
    let none: Vec<&'static str> = Vec::new();
    assert(crate::ast::seq_view(out@) =~= Seq::<ValueView>::empty());
    assert(names_view(none@) =~= Seq::<Seq<char>>::empty());
    while t.is_string(k)
        invariant
            i <= k <= t.tokens.len(),
            names_view(none@) == Seq::<Seq<char>>::empty(),
            values_spec(t@, i as int, Seq::empty()) == values_spec(
                t@,
                k as int,
                crate::ast::seq_view(out@),
            ),
        decreases t.tokens.len() - k,
    {
        match value_at(t, k, &none) {
            Err(e) => {
                return Err(e);
            },
            Ok((v, _)) => {
                proof {
                    crate::ast::lemma_seq_view_push(out@, v);
                }
                out.push(v);
                k += 1;
            },
        }
    }
    Ok((out, k))
}

/// Whether what was computed is what the grammar says: the same value, by
/// its view, and the same next index, or the same error.
pub open spec fn agree<T: View>(r: Result<(T, usize), ParseError>, s: Parsed<T::V>) -> bool {
    match s {
        Ok((v, j)) => r matches Ok((x, k)) && x@ == v && k == j,
        Err(e) => r matches Err(x) && x@ == e,
    }
}

/// The same for a value that is its own view.
pub open spec fn agree_plain<T>(r: Result<(T, usize), ParseError>, s: Parsed<T>) -> bool {
    match s {
        Ok((v, j)) => r matches Ok((x, k)) && x == v && k == j,
        Err(e) => r matches Err(x) && x@ == e,
    }
}

/// The argument of a switch, `on` or `off`, and the semicolon behind it.
pub open spec fn toggle_spec(t: Lexed, i: int) -> Parsed<bool> {
    if t.is_word(i, "on"@) {
        match semi_spec(t, i + 1, Seq::empty()) {
            Ok(j) => Ok((true, j)),
            Err(e) => Err(e),
        }
    } else if t.is_word(i, "off"@) {
        match semi_spec(t, i + 1, Seq::empty()) {
            Ok(j) => Ok((false, j)),
            Err(e) => Err(e),
        }
    } else {
        Err(unexpected_at(t, i, seq!["on"@, "off"@]))
    }
}

/// One value and the semicolon behind it.
pub open spec fn single_spec(t: Lexed, i: int) -> Parsed<ValueView> {
    match value_spec(t, i, seq!["String"@]) {
        Ok((v, j)) => match semi_spec(t, j, Seq::empty()) {
            Ok(k) => Ok((v, k)),
            Err(e) => Err(e),
        },
        Err(e) => Err(e),
    }
}

/// An empty list of names.
pub fn no_names() -> (r: Vec<&'static str>)
    ensures
        names_view(r@) == Seq::<Seq<char>>::empty(),
{
    let r: Vec<&'static str> = Vec::new();
    assert(names_view(r@) =~= Seq::<Seq<char>>::empty());
    r
}

/// A list of one name.
pub fn one_name(a: &'static str) -> (r: Vec<&'static str>)
    ensures
        names_view(r@) == seq![a@],
{
    let mut r: Vec<&'static str> = Vec::new();
    r.push(a);
    assert(names_view(r@) =~= seq![a@]);
    r
}

/// A list of two names.
pub fn two_names(a: &'static str, b: &'static str) -> (r: Vec<&'static str>)
    ensures
        names_view(r@) == seq![a@, b@],
{
    let mut r: Vec<&'static str> = Vec::new();
    r.push(a);
    r.push(b);
    assert(names_view(r@) =~= seq![a@, b@]);
    r
}

/// `names` with `a` added.
pub fn and_name(names: Vec<&'static str>, a: &'static str) -> (r: Vec<&'static str>)
    ensures
        names_view(r@) == names_view(names@).push(a@),
{
    let mut r = names;
    r.push(a);
    assert(names_view(r@) =~= names_view(names@).push(a@));
    r
}

/// Reads the argument of a switch and the semicolon behind it.
pub fn toggle_at(t: &TokenList, i: usize) -> (r: Result<(bool, usize), ParseError>)
    ensures
        agree_plain(r, toggle_spec(t@, i as int)),
        r matches Ok((_, k)) ==> i < k <= t.tokens.len(),
{
    if t.is_word(i, "on") {
        match semi_at(t, i + 1, no_names()) {
            Ok(j) => Ok((true, j)),
            Err(e) => Err(e),
        }
    } else if t.is_word(i, "off") {
        match semi_at(t, i + 1, no_names()) {
            Ok(j) => Ok((false, j)),
            Err(e) => Err(e),
        }
    } else {
        Err(unexpected(t, i, &two_names("on", "off")))
    }
}

/// Reads one value and the semicolon behind it.
pub fn single_at(t: &TokenList, i: usize) -> (r: Result<(crate::value::Value, usize), ParseError>)
    ensures
        agree(r, single_spec(t@, i as int)),
        r matches Ok((_, k)) ==> i < k <= t.tokens.len(),
{
    match value_at(t, i, &one_name("String")) {
        Ok((v, j)) => match semi_at(t, j, no_names()) {
            Ok(k) => Ok((v, k)),
            Err(e) => Err(e),
        },
        Err(e) => Err(e),
    }
}

/// The index of the first of `words`, from `from` on, that is `x`.
pub open spec fn first_index(words: Seq<Seq<char>>, x: Seq<char>, from: int) -> Option<int>
    decreases words.len() - from,
{
    if from < 0 || from >= words.len() {
        None
    } else if words[from] == x {
        Some(from)
    } else {
        first_index(words, x, from + 1)
    }
}

/// The index of the first of `words` that the token `i` is, if it is a
/// string and one of them.
pub open spec fn word_index(t: Lexed, i: int, words: Seq<Seq<char>>) -> Option<int> {
    if t.is_string(i) {
        first_index(words, t.text(i), 0)
    } else {
        None
    }
}

/// An index that `first_index` gives lies in the list, from `from` on.
pub proof fn lemma_first_index(words: Seq<Seq<char>>, x: Seq<char>, from: int)
    requires
        0 <= from,
    ensures
        first_index(words, x, from) matches Some(k) ==> from <= k < words.len() && words[k] == x,
    decreases words.len() - from,
{
    if from < words.len() && words[from] != x {
        lemma_first_index(words, x, from + 1);
    }
}

/// The index of the first of `words` that is `x`.
pub fn index_of(words: &Vec<&'static str>, x: &str) -> (r: Option<usize>)
    ensures
        match first_index(names_view(words@), x@, 0) {
            Some(k) => r == Some(k as usize) && 0 <= k < words.len(),
            None => r is None,
        },
{
    let mut k: usize = 0;
    while k < words.len()
        invariant
            k <= words.len(),
            first_index(names_view(words@), x@, 0) == first_index(
                names_view(words@),
                x@,
                k as int,
            ),
        decreases words.len() - k,
    {
        if str_eq(words[k], x) {
            return Some(k);
        }
        k += 1;
    }
    None
}

/// The index of the first of `words` that the token `i` is.
pub fn word_at(t: &TokenList, i: usize, words: &Vec<&'static str>) -> (r: Option<usize>)
    ensures
        match word_index(t@, i as int, names_view(words@)) {
            Some(k) => r == Some(k as usize) && 0 <= k < words.len() && i < t.tokens.len(),
            None => r is None,
        },
{
    if t.is_string(i) {
        index_of(words, t.text(i))
    } else {
        None
    }
}

/// What a group of directives makes of the token `kw`: nothing where the
/// token is none of its words, else an item and the index behind the
/// directive, or an error.
pub open spec fn family_agrees(
    t: &TokenList,
    kw: usize,
    r: Option<Result<(Item, usize), ParseError>>,
    s: Option<Parsed<ItemView>>,
) -> bool {
    match s {
        None => r is None,
        Some(p) => {
            &&& r matches Some(x)
            &&& agree(x, p)
            &&& x matches Ok((_, k)) ==> kw < k <= t.tokens.len()
        },
    }
}

/// The texts of the tokens from `i` up to `j`.
pub open spec fn texts_spec(t: Lexed, i: int, j: int) -> Seq<Seq<char>> {
    Seq::new((j - i) as nat, |k: int| t.text(i + k))
}

/// Reads the texts of the string tokens from `i` on.
pub fn strings_from(t: &TokenList, i: usize) -> (r: (Vec<String>, usize))
    requires
        i <= t.tokens.len(),
    ensures
        r.1 == run_end(t@, i as int),
        i <= r.1 <= t.tokens.len(),
        crate::ast::seq_view(r.0@) == texts_spec(t@, i as int, r.1 as int),
        r.0.len() == r.1 - i,
{
    let mut out: Vec<String> = Vec::new();
    let mut k: usize = i;
    while t.is_string(k)
        invariant
            i <= k <= t.tokens.len(),
            run_end(t@, i as int) == run_end(t@, k as int),
            crate::ast::seq_view(out@) =~= texts_spec(t@, i as int, k as int),
            out.len() == k - i,
        decreases t.tokens.len() - k,
    {
        let text = String::from_str(t.text(k));
        proof {
            crate::ast::lemma_seq_view_push(out@, text);
        }
        out.push(text);
        k += 1;
    }
    (out, k)
}

/// In a list of different words the first place of a word is its place.
pub proof fn lemma_first_index_at(words: Seq<Seq<char>>, k: int, from: int)
    requires
        0 <= from <= k < words.len(),
        forall|i: int, j: int|
            0 <= i < j < words.len() ==> #[trigger] words[i] != #[trigger] words[j],
    ensures
        first_index(words, words[k], from) == Some(k),
    decreases k - from,
{
    if from < k {
        assert(words[from] != words[k]);
        lemma_first_index_at(words, k, from + 1);
    }
}

} // verus!
