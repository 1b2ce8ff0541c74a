//! Errors of the parser, and their text.

use vstd::prelude::*;
use vstd::string::StringExecFns;
use crate::position::Pos;
use crate::text::{decimal, push_decimal};

verus! {

/// One line of what an error says.
#[derive(Debug, Clone, PartialEq, Eq)]
pub enum ErrorItem {
    /// What was found: a token, or a message on what is wrong with it.
    Unexpected(String),
    /// What could have stood there.
    Expected(String),
    /// Any other remark.
    Message(String),
}

/// `ErrorItem` as a mathematical value.
pub enum ErrorItemView {
    Unexpected(Seq<char>),
    Expected(Seq<char>),
    Message(Seq<char>),
}

impl View for ErrorItem {
    type V = ErrorItemView;

    open spec fn view(&self) -> ErrorItemView {
        match self {
            ErrorItem::Unexpected(s) => ErrorItemView::Unexpected(s@),
            ErrorItem::Expected(s) => ErrorItemView::Expected(s@),
            ErrorItem::Message(s) => ErrorItemView::Message(s@),
        }
    }
}

/// Error parsing config: the position at which the parser stopped, and
/// what it found and expected there.
#[derive(Debug, PartialEq, Eq)]
pub struct ParseError {
    pub position: Pos,
    pub errors: Vec<ErrorItem>,
}

/// `ParseError` as a mathematical value.
pub struct ErrorView {
    pub position: Pos,
    pub errors: Seq<ErrorItemView>,
}

impl View for ParseError {
    type V = ErrorView;

    open spec fn view(&self) -> ErrorView {
        ErrorView { position: self.position, errors: self.errors@.map_values(|e: ErrorItem| e@) }
    }
}

/// A position as it is written in an error: line, colon, column.
pub open spec fn position_text(p: Pos) -> Seq<char> {
    decimal(p.line as nat) + seq![':'] + decimal(p.column as nat)
}

/// `s` with `x` at its end, unless `s` holds `x` already.
pub open spec fn with_item(s: Seq<ErrorItemView>, x: ErrorItemView) -> Seq<ErrorItemView> {
    if s.contains(x) {
        s
    } else {
        s.push(x)
    }
}

/// The first `n` items of `s` without repetitions, each at the place of
/// its first occurrence.
pub open spec fn distinct(s: Seq<ErrorItemView>, n: int) -> Seq<ErrorItemView>
    decreases n,
{
    if n <= 0 {
        Seq::empty()
    } else {
        with_item(distinct(s, n - 1), s[n - 1])
    }
}

#[verifier::external_type_specification]
#[verifier::external_body]
#[verifier::reject_recursive_types(I)]
#[verifier::reject_recursive_types(R)]
#[verifier::reject_recursive_types(P)]
pub struct ExErrors<I, R, P>(combine::easy::Errors<I, R, P>);

/// The items that a `combine::easy::Errors` holds, in order.
pub uninterp spec fn held(e: combine::easy::Errors<String, String, String>) -> Seq<ErrorItemView>;

/// The position that a `combine::easy::Errors` was made with.
pub uninterp spec fn held_position(e: combine::easy::Errors<String, String, String>) -> Seq<char>;

/// What `combine` writes for an error at a position that is written as
/// `position` and with the items `errors`.
pub uninterp spec fn rendered(position: Seq<char>, errors: Seq<ErrorItemView>) -> Seq<char>;

/// The items of an error as `combine` holds them. Only the functions
/// below make and change such a value, so every item in it is an owned
/// text.
struct Report {
    inner: combine::easy::Errors<String, String, String>,
}

/// `combine::easy::Errors::empty`: an error at `position` without items.
#[verifier::external_body]
fn errors_at(position: String) -> (e: Report)
    ensures
        held_position(e.inner) == position@,
        held(e.inner) == Seq::<ErrorItemView>::empty(),
{
    Report { inner: combine::easy::Errors::empty(position) }
}

/// `combine::easy::Errors::add_error` with an `Unexpected` item: the item
/// is added at the end unless an equal item is held already.
#[verifier::external_body]
fn add_unexpected(e: &mut Report, text: String)
    ensures
        held_position(final(e).inner) == held_position(old(e).inner),
        held(final(e).inner) == with_item(held(old(e).inner), ErrorItemView::Unexpected(text@)),
{
    e.inner.add_error(combine::easy::Error::Unexpected(combine::easy::Info::Owned(text)))
}

/// `combine::easy::Errors::add_error` with an `Expected` item: the item
/// is added at the end unless an equal item is held already.
#[verifier::external_body]
fn add_expected(e: &mut Report, text: String)
    ensures
        held_position(final(e).inner) == held_position(old(e).inner),
        held(final(e).inner) == with_item(held(old(e).inner), ErrorItemView::Expected(text@)),
{
    e.inner.add_error(combine::easy::Error::Expected(combine::easy::Info::Owned(text)))
}

/// `combine::easy::Errors::add_error` with a `Message` item: the item is
/// added at the end unless an equal item is held already.
#[verifier::external_body]
fn add_message(e: &mut Report, text: String)
    ensures
        held_position(final(e).inner) == held_position(old(e).inner),
        held(final(e).inner) == with_item(held(old(e).inner), ErrorItemView::Message(text@)),
{
    e.inner.add_error(combine::easy::Error::Message(combine::easy::Info::Owned(text)))
}

/// `Display` of `combine::easy::Errors`, through `format!`: the text is a
/// function of the position and of the items held.
#[verifier::external_body]
fn errors_text(e: &Report) -> (r: String)
    ensures
        r@ == rendered(held_position(e.inner), held(e.inner)),
{
    format!("{}", e.inner)
}

impl Pos {
    /// The position as it is written in an error: line, colon, column.
    pub fn to_string(&self) -> (r: String)
        ensures
            r@ == position_text(*self),
    {
        let mut out = String::new();
        push_decimal(&mut out, self.line as u64);
        out.push(':');
        push_decimal(&mut out, self.column as u64);
        assert(out@ =~= position_text(*self));
        out
    }
}

impl ParseError {
    /// An error at `position` that says `item` and nothing else.
    pub fn single(position: Pos, item: ErrorItem) -> (r: ParseError)
        ensures
            r@ == (ErrorView { position, errors: seq![item@] }),
    {
        let mut errors: Vec<ErrorItem> = Vec::new();
        errors.push(item);
        let r = ParseError { position, errors };
        assert(r@.errors =~= seq![item@]);
        r
    }

    /// The text of the error: `parse error: ` and what `combine` writes for
    /// the position and the items, each item once.
    pub fn to_string(&self) -> (r: String)
        ensures
            r@ == "parse error: "@ + rendered(
                position_text(self@.position),
                distinct(self@.errors, self@.errors.len() as int),
            ),
    {
        let mut e = errors_at(self.position.to_string());
        let mut i: usize = 0;
        while i < self.errors.len()
            invariant
                i <= self.errors.len(),
                held_position(e.inner) == position_text(self.position),
                held(e.inner) == distinct(self@.errors, i as int),
            decreases self.errors.len() - i,
        {
            match &self.errors[i] {
                ErrorItem::Unexpected(s) => add_unexpected(&mut e, s.clone()),
                ErrorItem::Expected(s) => add_expected(&mut e, s.clone()),
                ErrorItem::Message(s) => add_message(&mut e, s.clone()),
            }
            i += 1;
        }
        let mut out = String::from_str("parse error: ");
        let body = errors_text(&e);
        out.append(body.as_str());
        out
    }
}

} // verus!
