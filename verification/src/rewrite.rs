//! The directives of the rewrite module.

use vstd::prelude::*;
use vstd::string::StringExecFns;
use crate::ast::{
    IfCondition, IfConditionView, Item, ItemView, Return, ReturnView, Rewrite, RewriteFlag,
    RewriteView,
};
use crate::error::{ErrorItem, ErrorItemView, ParseError};
use crate::grammar::{code_spec, Code};
use crate::helpers::{
    complain, complaint, error_at, family_agrees, item_of_value_error, names_view, no_names,
    one_name, run_end, semi_at, semi_spec, unexpected, unexpected_at, value_at, value_error,
    value_spec, word_at, word_index, texts_spec, lemma_run_end, Parsed,
};
use crate::http_core::{literal_in, literal_spec};
use crate::position::Pos;
use crate::text::{
    chars_of, is_prefix, same_text, slice_of, starts_with, str_eq, string_of, tail_of, tail_string,
};
use crate::tokenizer::{Lexed, TokenList};
use crate::value::{is_name_char, name_char, name_end, parse_spec, Value, ValueView};

verus! {

/// The name of the variable that `s` names with a `$` before it: a letter
/// or an underscore, then letters, digits and underscores.
pub open spec fn variable_spec(s: Seq<char>) -> Option<Seq<char>> {
    if s.len() >= 2 && s[0] == '$' && is_name_char(s[1]) && !('0' <= s[1] && s[1] <= '9')
        && name_end(s, 2) == s.len() {
        Some(s.skip(1))
    } else {
        None
    }
}

/// The words that may end `rewrite`.
pub open spec fn flag_words() -> Seq<Seq<char>> {
    seq!["last"@, "break"@, "redirect"@, "permanent"@]
}

/// The flag that the word `k` of `flag_words` stands for.
pub open spec fn flag_of(k: int) -> RewriteFlag {
    if k == 0 {
        RewriteFlag::Last
    } else if k == 1 {
        RewriteFlag::Break
    } else if k == 2 {
        RewriteFlag::Redirect
    } else {
        RewriteFlag::Permanent
    }
}

/// `rewrite regex replacement [flag];`
pub open spec fn rewrite_spec(t: Lexed, kw: int) -> Parsed<ItemView> {
    if !t.is_string(kw + 1) {
        Err(unexpected_at(t, kw + 1, seq!["String"@]))
    } else {
        match value_spec(t, kw + 2, seq!["String"@]) {
            Err(e) => Err(e),
            Ok((replacement, _)) => {
                let regex = t.text(kw + 1);
                match word_index(t, kw + 3, flag_words()) {
                    Some(k) => match semi_spec(t, kw + 4, Seq::empty()) {
                        Ok(j) => Ok(
                            (
                                ItemView::Rewrite(
                                    RewriteView { regex, replacement, flag: Some(flag_of(k)) },
                                ),
                                j,
                            ),
                        ),
                        Err(e) => Err(e),
                    },
                    None => match semi_spec(t, kw + 3, flag_words()) {
                        Ok(j) => Ok(
                            (ItemView::Rewrite(RewriteView { regex, replacement, flag: None }), j),
                        ),
                        Err(e) => Err(e),
                    },
                }
            },
        }
    }
}

/// `set $variable value;`
pub open spec fn set_spec(t: Lexed, kw: int) -> Parsed<ItemView> {
    if !t.is_string(kw + 1) {
        Err(unexpected_at(t, kw + 1, seq!["String"@]))
    } else {
        match variable_spec(t.text(kw + 1)) {
            None => Err(complaint(t.position(kw + 1), "invalid variable"@)),
            Some(variable) => match value_spec(t, kw + 2, seq!["String"@]) {
                Err(e) => Err(e),
                Ok((value, _)) => match semi_spec(t, kw + 3, Seq::empty()) {
                    Ok(j) => Ok((ItemView::SetVar { variable, value }, j)),
                    Err(e) => Err(e),
                },
            },
        }
    }
}

/// What an error says of an empty code of `return`.
pub open spec fn return_none() -> Seq<char> {
    "empty return codes are not supported"@
}

/// What an error says of a variable in the code of `return`.
pub open spec fn return_many() -> Seq<char> {
    "return code can't contain variables"@
}

/// Whether a single argument of `return` is an address to redirect to: it
/// starts with `http://`, `https://` or the variable `scheme`.
pub open spec fn is_url(a: ValueView) -> bool {
    a.data.len() > 0 && match a.data[0] {
        crate::value::ItemView::Literal(x) => is_prefix("https://"@, x) || is_prefix(
            "http://"@,
            x,
        ),
        crate::value::ItemView::Variable(v) => v == "scheme"@,
    }
}

/// What the arguments of `return` say.
pub open spec fn return_of(a: ValueView, b: Option<ValueView>) -> Result<
    ReturnView,
    ErrorItemView,
> {
    if b is None && is_url(a) {
        Ok(ReturnView::Redirect { code: None, url: a })
    } else {
        match literal_spec(a, return_none(), return_many()) {
            Err(e) => Err(e),
            Ok(x) => match code_spec(x) {
                Err(e) => Err(e),
                Ok(Code::Redirect(code)) => match b {
                    Some(url) => Ok(ReturnView::Redirect { code: Some(code), url }),
                    None => Err(
                        ErrorItemView::Unexpected(
                            "return with redirect code must have destination URI"@,
                        ),
                    ),
                },
                Ok(Code::Normal(code)) => Ok(ReturnView::Text { code, text: b }),
            },
        }
    }
}

/// `return code [text];`, `return code url;` or `return url;`
pub open spec fn return_spec(t: Lexed, kw: int) -> Parsed<ItemView> {
    match value_spec(t, kw + 1, seq!["String"@]) {
        Err(e) => Err(e),
        Ok((a, _)) => if t.is_string(kw + 2) {
            match value_spec(t, kw + 2, Seq::empty()) {
                Err(e) => Err(e),
                Ok((b, _)) => match return_of(a, Some(b)) {
                    Err(e) => Err(error_at(t.position(kw), e)),
                    Ok(r) => match semi_spec(t, kw + 3, Seq::empty()) {
                        Ok(j) => Ok((ItemView::Return(r), j)),
                        Err(e) => Err(e),
                    },
                },
            }
        } else {
            match return_of(a, None) {
                Err(e) => Err(error_at(t.position(kw), e)),
                Ok(r) => match semi_spec(t, kw + 2, seq!["String"@]) {
                    Ok(j) => Ok((ItemView::Return(r), j)),
                    Err(e) => Err(e),
                },
            }
        },
    }
}

/// What an error says of a condition that is not in parentheses or has an
/// operator that is not known.
pub open spec fn missing() -> ErrorItemView {
    ErrorItemView::Unexpected("missing parenthesis"@)
}

/// The words of a condition without the parenthesis that opens it.
pub open spec fn opened(words: Seq<Seq<char>>) -> Option<Seq<Seq<char>>> {
    if words.len() > 0 && words[0].len() > 0 && words[0][0] == '(' {
        if words[0].len() == 1 {
            Some(words.skip(1))
        } else {
            Some(words.update(0, words[0].skip(1)))
        }
    } else {
        None
    }
}

/// The words of a condition without the parenthesis that closes it.
pub open spec fn closed(words: Seq<Seq<char>>) -> Option<Seq<Seq<char>>> {
    if words.len() > 0 && words.last().len() > 0 && words.last().last() == ')' {
        if words.last().len() == 1 {
            Some(words.drop_last())
        } else {
            Some(words.update(words.len() - 1, words.last().drop_last()))
        }
    } else {
        None
    }
}

/// A test of a file: an operator and one value.
pub open spec fn unary_spec(w: Seq<Seq<char>>, at: Pos) -> Result<IfConditionView, ErrorItemView> {
    if w.len() < 2 {
        Err(ErrorItemView::Unexpected("missing argument to condition"@))
    } else {
        match parse_spec(w[1]) {
            Err(e) => Err(value_error(e)),
            Ok(data) => {
                let right = ValueView { position: at, data };
                let oper = w[0];
                if w.len() > 2 {
                    Err(ErrorItemView::Unexpected("extra argument to condition"@))
                } else if oper == "-d"@ {
                    Ok(IfConditionView::DirExists(right))
                } else if oper == "!-d"@ {
                    Ok(IfConditionView::DirNotExists(right))
                } else if oper == "-f"@ {
                    Ok(IfConditionView::FileExists(right))
                } else if oper == "!-f"@ {
                    Ok(IfConditionView::FileNotExists(right))
                } else if oper == "-x"@ {
                    Ok(IfConditionView::Executable(right))
                } else if oper == "!-x"@ {
                    Ok(IfConditionView::NotExecutable(right))
                } else if oper == "-e"@ {
                    Ok(IfConditionView::Exists(right))
                } else if oper == "!-e"@ {
                    Ok(IfConditionView::NotExists(right))
                } else {
                    Err(missing())
                }
            },
        }
    }
}

/// A test of a value: the value alone, or the value, an operator and one
/// literal.
pub open spec fn binary_spec(w: Seq<Seq<char>>, at: Pos) -> Result<
    IfConditionView,
    ErrorItemView,
> {
    match parse_spec(w[0]) {
        Err(e) => Err(value_error(e)),
        Ok(data) => {
            let left = ValueView { position: at, data };
            if w.len() == 1 {
                Ok(IfConditionView::NonEmpty(left))
            } else if w.len() != 3 {
                Err(ErrorItemView::Unexpected("you can only compare against a single literal"@))
            } else {
                let oper = w[1];
                let right = w[2];
                if oper == "="@ {
                    Ok(IfConditionView::Eq(left, right))
                } else if oper == "!="@ {
                    Ok(IfConditionView::Neq(left, right))
                } else if oper == "~"@ {
                    Ok(IfConditionView::RegEq(left, right, true))
                } else if oper == "!~"@ {
                    Ok(IfConditionView::RegNeq(left, right, true))
                } else if oper == "~*"@ {
                    Ok(IfConditionView::RegEq(left, right, false))
                } else if oper == "!~*"@ {
                    Ok(IfConditionView::RegNeq(left, right, false))
                } else {
                    Err(missing())
                }
            }
        },
    }
}

/// The condition that the words between `if` and its block state. The
/// values in it get the position `at`.
pub open spec fn condition_spec(words: Seq<Seq<char>>, at: Pos) -> Result<
    IfConditionView,
    ErrorItemView,
> {
    match opened(words) {
        None => Err(missing()),
        Some(v) => match closed(v) {
            None => Err(missing()),
            Some(w) => if w.len() == 0 {
                Err(missing())
            } else if w[0].len() > 0 && w[0][0] == '$' {
                binary_spec(w, at)
            } else {
                unary_spec(w, at)
            },
        },
    }
}

/// The condition of the `if` that starts at `kw`, and the index of the
/// token behind it.
pub open spec fn if_condition_spec(t: Lexed, kw: int) -> Parsed<IfConditionView> {
    if !t.is_string(kw + 1) {
        Err(unexpected_at(t, kw + 1, seq!["String"@]))
    } else {
        let end = run_end(t, kw + 1);
        match condition_spec(texts_spec(t, kw + 1, end), t.position(kw + 1)) {
            Err(e) => Err(error_at(t.position(kw), e)),
            Ok(c) => Ok((c, end)),
        }
    }
}

/// What the rewrite module makes of the directive that starts at `kw`, if it has no block.
pub open spec fn directives_spec(t: Lexed, kw: int) -> Option<Parsed<ItemView>> {
    let name = t.text(kw);
    if name == "rewrite"@ {
        Some(rewrite_spec(t, kw))
    } else if name == "set"@ {
        Some(set_spec(t, kw))
    } else if name == "return"@ {
        Some(return_spec(t, kw))
    } else {
        None
    }
}

impl RewriteFlag {
    /// The place of the flag in the list of its words.
    pub open spec fn index(self) -> int {
        match self {
            RewriteFlag::Last => 0,
            RewriteFlag::Break => 1,
            RewriteFlag::Redirect => 2,
            RewriteFlag::Permanent => 3,
        }
    }

    /// The flag as it is written.
    pub fn as_str(&self) -> (r: &'static str)
        ensures
            r@ == flag_words()[self.index()],
            flag_of(self.index()) == *self,
    {
        match self {
            RewriteFlag::Last => "last",
            RewriteFlag::Break => "break",
            RewriteFlag::Redirect => "redirect",
            RewriteFlag::Permanent => "permanent",
        }
    }

    /// The flag that the word `k` of its list stands for.
    pub fn from_index(k: usize) -> (r: RewriteFlag)
        ensures
            r == flag_of(k as int),
    {
        if k == 0 {
            RewriteFlag::Last
        } else if k == 1 {
            RewriteFlag::Break
        } else if k == 2 {
            RewriteFlag::Redirect
        } else {
            RewriteFlag::Permanent
        }
    }

    /// The words that stand for the flags.
    pub fn words() -> (r: Vec<&'static str>)
        ensures
            names_view(r@) == flag_words(),
    {
        let r = vec!["last", "break", "redirect", "permanent"];
        assert(names_view(r@) =~= flag_words());
        r
    }
}

/// Reads the name of a variable with a `$` before it.
pub fn variable_name(s: &Vec<char>) -> (r: Option<String>)
    ensures
        match variable_spec(s@) {
            Some(name) => r matches Some(x) && x@ == name,
            None => r is None,
        },
{
    if s.len() < 2 || s[0] != '$' {
        return None;
    }
    let c = s[1];
    if !name_char(c) || ('0' <= c && c <= '9') {
        return None;
    }
    let mut i: usize = 2;
    while i < s.len() && name_char(s[i])
        invariant
            2 <= i <= s.len(),
            name_end(s@, 2) == name_end(s@, i as int),
        decreases s.len() - i,
    {
        i += 1;
    }
    if i == s.len() {
        Some(tail_string(s, 1))
    } else {
        None
    }
}

/// Reads `rewrite regex replacement [flag];`.
fn rewrite(t: &TokenList, kw: usize) -> (r: Result<(Item, usize), ParseError>)
    requires
        kw < t.tokens.len(),
    ensures
        family_agrees(t, kw, Some(r), Some(rewrite_spec(t@, kw as int))),
{
    if !t.is_string(kw + 1) {
        return Err(unexpected(t, kw + 1, &one_name("String")));
    }
    let (replacement, _) = match value_at(t, kw + 2, &one_name("String")) {
        Ok(p) => p,
        Err(e) => {
            return Err(e);
        },
    };
    let regex = String::from_str(t.text(kw + 1));
    let words = RewriteFlag::words();
    match word_at(t, kw + 3, &words) {
        Some(k) => match semi_at(t, kw + 4, no_names()) {
            Ok(j) => Ok(
                (
                    Item::Rewrite(
                        Rewrite { regex, replacement, flag: Some(RewriteFlag::from_index(k)) },
                    ),
                    j,
                ),
            ),
            Err(e) => Err(e),
        },
        None => match semi_at(t, kw + 3, words) {
            Ok(j) => Ok((Item::Rewrite(Rewrite { regex, replacement, flag: None }), j)),
            Err(e) => Err(e),
        },
    }
}

/// Reads `set $variable value;`.
fn set(t: &TokenList, kw: usize) -> (r: Result<(Item, usize), ParseError>)
    requires
        kw < t.tokens.len(),
    ensures
        family_agrees(t, kw, Some(r), Some(set_spec(t@, kw as int))),
{
    if !t.is_string(kw + 1) {
        return Err(unexpected(t, kw + 1, &one_name("String")));
    }
    let variable = match variable_name(&chars_of(t.text(kw + 1))) {
        Some(v) => v,
        None => {
            return Err(complain(t.position(kw + 1), "invalid variable"));
        },
    };
    let (value, _) = match value_at(t, kw + 2, &one_name("String")) {
        Ok(p) => p,
        Err(e) => {
            return Err(e);
        },
    };
    match semi_at(t, kw + 3, no_names()) {
        Ok(j) => Ok((Item::SetVar { variable, value }, j)),
        Err(e) => Err(e),
    }
}

/// Whether a single argument of `return` is an address to redirect to.
fn url_like(a: &Value) -> (r: bool)
    ensures
        r == is_url(a@),
{
    if a.data.len() == 0 {
        return false;
    }
    match &a.data[0] {
        crate::value::Item::Literal(x) => {
            let s = chars_of(x.as_str());
            starts_with(&s, "https://") || starts_with(&s, "http://")
        },
        crate::value::Item::Variable(v) => str_eq(v.as_str(), "scheme"),
    }
}

/// What the arguments of `return` say.
pub fn return_from(a: Value, b: Option<Value>) -> (r: Result<Return, ErrorItem>)
    ensures
        match return_of(a@, crate::ast::option_view(b)) {
            Ok(v) => r matches Ok(x) && x@ == v,
            Err(e) => r matches Err(x) && x@ == e,
        },
{
    if b.is_none() && url_like(&a) {
        return Ok(Return::Redirect { code: None, url: a });
    }
    let code = match literal_in(
        &a,
        "empty return codes are not supported",
        "return code can't contain variables",
    ) {
        Err(e) => {
            return Err(e);
        },
        Ok(x) => match Code::parse(x.as_str()) {
            Err(e) => {
                return Err(e);
            },
            Ok(c) => c,
        },
    };
    match code {
        Code::Redirect(code) => match b {
            Some(url) => Ok(Return::Redirect { code: Some(code), url }),
            None => Err(
                ErrorItem::Unexpected(
                    String::from_str("return with redirect code must have destination URI"),
                ),
            ),
        },
        Code::Normal(code) => Ok(Return::Text { code, text: b }),
    }
}

/// Reads `return` with its arguments.
fn return_directive(t: &TokenList, kw: usize) -> (r: Result<(Item, usize), ParseError>)
    requires
        kw < t.tokens.len(),
    ensures
        family_agrees(t, kw, Some(r), Some(return_spec(t@, kw as int))),
{
    let (a, _) = match value_at(t, kw + 1, &one_name("String")) {
        Ok(p) => p,
        Err(e) => {
            return Err(e);
        },
    };
    if t.is_string(kw + 2) {
        let (b, _) = match value_at(t, kw + 2, &no_names()) {
            Ok(p) => p,
            Err(e) => {
                return Err(e);
            },
        };
        match return_from(a, Some(b)) {
            Err(e) => Err(ParseError::single(t.position(kw), e)),
            Ok(r) => match semi_at(t, kw + 3, no_names()) {
                Ok(j) => Ok((Item::Return(r), j)),
                Err(e) => Err(e),
            },
        }
    } else {
        match return_from(a, None) {
            Err(e) => Err(ParseError::single(t.position(kw), e)),
            Ok(r) => match semi_at(t, kw + 2, one_name("String")) {
                Ok(j) => Ok((Item::Return(r), j)),
                Err(e) => Err(e),
            },
        }
    }
}

/// The texts of `words` as sequences of characters.
pub open spec fn words_view(words: Seq<Vec<char>>) -> Seq<Seq<char>> {
    words.map_values(|w: Vec<char>| w@)
}

/// The item that says that a condition is not in parentheses.
fn missing_item() -> (r: ErrorItem)
    ensures
        r@ == missing(),
{
    ErrorItem::Unexpected(String::from_str("missing parenthesis"))
}

/// Takes the parenthesis that opens a condition off its words.
fn strip_open_paren(v: &mut Vec<Vec<char>>) -> (r: Result<(), ErrorItem>)
    ensures
        match opened(words_view(old(v)@)) {
            Some(w) => r is Ok && words_view(final(v)@) == w,
            None => r matches Err(e) && e@ == missing(),
        },
{
    if v.len() == 0 || v[0].len() == 0 || v[0][0] != '(' {
        return Err(missing_item());
    }
    if v[0].len() == 1 {
        v.remove(0);
        assert(words_view(v@) =~= words_view(old(v)@).skip(1));
    } else {
        let rest = tail_of(&v[0], 1);
        v.set(0, rest);
        assert(words_view(v@) =~= words_view(old(v)@).update(0, words_view(old(v)@)[0].skip(1)));
    }
    Ok(())
}

/// Takes the parenthesis that closes a condition off its words.
fn strip_close_paren(v: &mut Vec<Vec<char>>) -> (r: Result<(), ErrorItem>)
    ensures
        match closed(words_view(old(v)@)) {
            Some(w) => r is Ok && words_view(final(v)@) == w,
            None => r matches Err(e) && e@ == missing(),
        },
{
    let n = v.len();
    if n == 0 {
        return Err(missing_item());
    }
    let m = v[n - 1].len();
    if m == 0 || v[n - 1][m - 1] != ')' {
        return Err(missing_item());
    }
    if m == 1 {
        v.pop();
        assert(words_view(v@) =~= words_view(old(v)@).drop_last());
    } else {
        let rest = slice_of(&v[n - 1], 0, m - 1);
        v.set(n - 1, rest);
        assert(old(v)@[n - 1]@.drop_last() =~= rest@);
        assert(words_view(v@) =~= words_view(old(v)@).update(
            n - 1,
            words_view(old(v)@).last().drop_last(),
        ));
    }
    Ok(())
}

/// Reads a test of a file.
fn parse_unary(v: &Vec<Vec<char>>, position: Pos) -> (r: Result<IfCondition, ErrorItem>)
    requires
        v.len() > 0,
    ensures
        match unary_spec(words_view(v@), position) {
            Ok(c) => r matches Ok(x) && x@ == c,
            Err(e) => r matches Err(x) && x@ == e,
        },
{
    if v.len() < 2 {
        return Err(ErrorItem::Unexpected(String::from_str("missing argument to condition")));
    }
    let right = match Value::parse_chars(position, &v[1]) {
        Ok(x) => x,
        Err(e) => {
            return Err(item_of_value_error(e));
        },
    };
    if v.len() > 2 {
        return Err(ErrorItem::Unexpected(String::from_str("extra argument to condition")));
    }
    let oper = &v[0];
    if same_text(oper, "-d") {
        Ok(IfCondition::DirExists(right))
    } else if same_text(oper, "!-d") {
        Ok(IfCondition::DirNotExists(right))
    } else if same_text(oper, "-f") {
        Ok(IfCondition::FileExists(right))
    } else if same_text(oper, "!-f") {
        Ok(IfCondition::FileNotExists(right))
    } else if same_text(oper, "-x") {
        Ok(IfCondition::Executable(right))
    } else if same_text(oper, "!-x") {
        Ok(IfCondition::NotExecutable(right))
    } else if same_text(oper, "-e") {
        Ok(IfCondition::Exists(right))
    } else if same_text(oper, "!-e") {
        Ok(IfCondition::NotExists(right))
    } else {
        Err(missing_item())
    }
}

/// Reads a test of a value.
fn parse_binary(v: &Vec<Vec<char>>, position: Pos) -> (r: Result<IfCondition, ErrorItem>)
    requires
        v.len() > 0,
    ensures
        match binary_spec(words_view(v@), position) {
            Ok(c) => r matches Ok(x) && x@ == c,
            Err(e) => r matches Err(x) && x@ == e,
        },
{
    let left = match Value::parse_chars(position, &v[0]) {
        Ok(x) => x,
        Err(e) => {
            return Err(item_of_value_error(e));
        },
    };
    if v.len() == 1 {
        return Ok(IfCondition::NonEmpty(left));
    }
    if v.len() != 3 {
        return Err(
            ErrorItem::Unexpected(
                String::from_str("you can only compare against a single literal"),
            ),
        );
    }
    let oper = &v[1];
    let right = string_of(&v[2], 0, v[2].len());
    assert(v@[2]@.subrange(0, v@[2]@.len() as int) =~= v@[2]@);
    if same_text(oper, "=") {
        Ok(IfCondition::Eq(left, right))
    } else if same_text(oper, "!=") {
        Ok(IfCondition::Neq(left, right))
    } else if same_text(oper, "~") {
        Ok(IfCondition::RegEq(left, right, true))
    } else if same_text(oper, "!~") {
        Ok(IfCondition::RegNeq(left, right, true))
    } else if same_text(oper, "~*") {
        Ok(IfCondition::RegEq(left, right, false))
    } else if same_text(oper, "!~*") {
        Ok(IfCondition::RegNeq(left, right, false))
    } else {
        Err(missing_item())
    }
}

/// Reads the condition that the words between `if` and its block state.
pub fn parse_condition(words: Vec<Vec<char>>, position: Pos) -> (r: Result<
    IfCondition,
    ErrorItem,
>)
    ensures
        match condition_spec(words_view(words@), position) {
            Ok(c) => r matches Ok(x) && x@ == c,
            Err(e) => r matches Err(x) && x@ == e,
        },
{
    let mut v = words;
    match strip_open_paren(&mut v) {
        Err(e) => {
            return Err(e);
        },
        Ok(()) => {},
    }
    match strip_close_paren(&mut v) {
        Err(e) => {
            return Err(e);
        },
        Ok(()) => {},
    }
    if v.len() == 0 {
        return Err(missing_item());
    }
    if v[0].len() > 0 && v[0][0] == '$' {
        parse_binary(&v, position)
    } else {
        parse_unary(&v, position)
    }
}

/// Reads the condition of the `if` that starts at `kw`.
pub fn if_condition(t: &TokenList, kw: usize) -> (r: Result<(IfCondition, usize), ParseError>)
    requires
        kw < t.tokens.len(),
    ensures
        crate::helpers::agree(r, if_condition_spec(t@, kw as int)),
        r matches Ok((_, k)) ==> kw + 1 < k <= t.tokens.len() && k == run_end(t@, kw + 1),
{
    if !t.is_string(kw + 1) {
        return Err(unexpected(t, kw + 1, &one_name("String")));
    }
    let mut words: Vec<Vec<char>> = Vec::new();
    let mut i: usize = kw + 1;
    proof {
        lemma_run_end(t@, kw + 1);
    }
    while t.is_string(i)
        invariant
            kw + 1 <= i <= t.tokens.len(),
            run_end(t@, kw + 1) == run_end(t@, i as int),
            words_view(words@) =~= texts_spec(t@, kw + 1, i as int),
        decreases t.tokens.len() - i,
    {
        let ghost before = words@;
        let w = chars_of(t.text(i));
        words.push(w);
        assert(words_view(words@) =~= words_view(before).push(w@));
        i += 1;
    }
    match parse_condition(words, t.position(kw + 1)) {
        Err(e) => Err(ParseError::single(t.position(kw), e)),
        Ok(c) => Ok((c, i)),
    }
}

/// Reads a directive of the rewrite module whose name stands at `kw`, if it has no block.
pub fn directives(t: &TokenList, kw: usize) -> (r: Option<Result<(Item, usize), ParseError>>)
    requires
        kw < t.tokens.len(),
    ensures
        family_agrees(t, kw, r, directives_spec(t@, kw as int)),
{
    let name = t.text(kw);
    if str_eq(name, "rewrite") {
        Some(rewrite(t, kw))
    } else if str_eq(name, "set") {
        Some(set(t, kw))
    } else if str_eq(name, "return") {
        Some(return_directive(t, kw))
    } else {
        None
    }
}

} // verus!
