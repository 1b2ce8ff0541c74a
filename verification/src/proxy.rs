//! The directives of the proxy module.

use vstd::prelude::*;
use vstd::string::StringExecFns;
use crate::ast::{
    seq_view, Item, ItemView, ProxyCacheValid, ProxyCacheValidView, ProxyHttpVersion,
    ProxyNextUpstreamFlag,
};
use crate::error::{ErrorItem, ErrorItemView, ParseError};
use crate::grammar::{code_spec, Code};
use crate::helpers::{
    complain, complaint, error_at, family_agrees, first_index, index_of, names_view, no_names,
    one_name, run_end, semi_at, semi_spec, single_at, single_spec, strings_from, texts_spec,
    toggle_at, toggle_spec, unexpected, unexpected_at, value_at, value_spec, values_from,
    values_spec, lemma_values_end, lemma_run_end, Parsed,
};
use crate::text::{debug_of, debug_text, str_eq};
use crate::tokenizer::{Lexed, TokenList};
use crate::value::{Value, ValueView};

verus! {

/// `proxy_set_header field value;`
pub open spec fn set_header_spec(t: Lexed, kw: int) -> Parsed<ItemView> {
    match value_spec(t, kw + 1, seq!["String"@]) {
        Err(e) => Err(e),
        Ok((field, _)) => match value_spec(t, kw + 2, seq!["String"@]) {
            Err(e) => Err(e),
            Ok((value, _)) => match semi_spec(t, kw + 3, Seq::empty()) {
                Ok(j) => Ok((ItemView::ProxySetHeader { field, value }, j)),
                Err(e) => Err(e),
            },
        },
    }
}

/// The text of a value that is one literal.
pub open spec fn sole_literal(v: ValueView) -> Option<Seq<char>> {
    if v.data.len() == 1 && v.data[0] is Literal {
        Some(v.data[0]->Literal_0)
    } else {
        None
    }
}

/// The codes that the values of `list` from `i` on name, added to `acc`;
/// `None` where the word `any` stands alone.
pub open spec fn codes_spec(list: Seq<ValueView>, i: int, acc: Seq<u32>) -> Result<
    Option<Seq<u32>>,
    ErrorItemView,
>
    decreases list.len() - i,
{
    if i < 0 || i >= list.len() {
        Ok(Some(acc))
    } else {
        match sole_literal(list[i]) {
            None => Err(ErrorItemView::Unexpected("variables aren't allowed in list of codes"@)),
            Some(x) => if x == "any"@ {
                if list.len() == 1 {
                    Ok(None)
                } else {
                    Err(
                        ErrorItemView::Unexpected(
                            "`any` must be sole argument before time. It's not allowed to combine `any` and other codes"@,
                        ),
                    )
                }
            } else {
                match code_spec(x) {
                    Ok(c) => codes_spec(list, i + 1, acc.push(c.number())),
                    Err(_) => Err(
                        ErrorItemView::Unexpected("invalid http code "@ + debug_text(x)),
                    ),
                }
            },
        }
    }
}

/// What the arguments of `proxy_cache_valid` say: the last is a time, and
/// the ones before it name the responses that are kept for that time.
pub open spec fn cache_valid_of(list: Seq<ValueView>) -> Result<
    ProxyCacheValidView,
    ErrorItemView,
> {
    let time = list.last();
    let codes = list.drop_last();
    if codes.len() == 0 {
        Ok(ProxyCacheValidView::Normal(time))
    } else {
        match codes_spec(codes, 0, Seq::empty()) {
            Err(e) => Err(e),
            Ok(None) => Ok(ProxyCacheValidView::Any(time)),
            Ok(Some(c)) => Ok(ProxyCacheValidView::Specific(c, time)),
        }
    }
}

/// `proxy_cache_valid [code ...] time;`
pub open spec fn cache_valid_spec(t: Lexed, kw: int) -> Parsed<ItemView> {
    if !t.is_string(kw + 1) {
        Err(unexpected_at(t, kw + 1, seq!["String"@]))
    } else {
        match values_spec(t, kw + 1, Seq::empty()) {
            Err(e) => Err(e),
            Ok((list, i)) => match cache_valid_of(list) {
                Err(e) => Err(error_at(t.position(kw), e)),
                Ok(v) => match semi_spec(t, i, seq!["String"@]) {
                    Ok(j) => Ok((ItemView::ProxyCacheValid(v), j)),
                    Err(e) => Err(e),
                },
            },
        }
    }
}

/// `proxy_ignore_headers` with one name or more.
pub open spec fn ignore_headers_spec(t: Lexed, kw: int) -> Parsed<ItemView> {
    if !t.is_string(kw + 1) {
        Err(unexpected_at(t, kw + 1, seq!["String"@]))
    } else {
        let end = run_end(t, kw + 1);
        match semi_spec(t, end, seq!["String"@]) {
            Ok(j) => Ok((ItemView::ProxyIgnoreHeaders(texts_spec(t, kw + 1, end)), j)),
            Err(e) => Err(e),
        }
    }
}

/// `proxy_http_version 1.0|1.1;`
pub open spec fn http_version_spec(t: Lexed, kw: int) -> Parsed<ItemView> {
    if !t.is_string(kw + 1) {
        Err(unexpected_at(t, kw + 1, seq!["String"@]))
    } else {
        let s = t.text(kw + 1);
        if s != "1.0"@ && s != "1.1"@ {
            Err(complaint(t.position(kw + 1), "invalid http version"@))
        } else {
            match semi_spec(t, kw + 2, Seq::empty()) {
                Ok(j) => Ok(
                    (
                        ItemView::ProxyHttpVersion(
                            if s == "1.0"@ {
                                ProxyHttpVersion::V1_0
                            } else {
                                ProxyHttpVersion::V1_1
                            },
                        ),
                        j,
                    ),
                ),
                Err(e) => Err(e),
            }
        }
    }
}

/// The words that `proxy_next_upstream` takes.
pub open spec fn upstream_words() -> Seq<Seq<char>> {
    seq![
        "error"@,
        "timeout"@,
        "invalid_header"@,
        "http_500"@,
        "http_502"@,
        "http_503"@,
        "http_504"@,
        "http_403"@,
        "http_404"@,
        "http_429"@,
        "non_idempotent"@,
        "off"@,
    ]
}

/// The case that the word `k` of `upstream_words` stands for.
pub open spec fn upstream_of(k: int) -> ProxyNextUpstreamFlag {
    if k == 0 {
        ProxyNextUpstreamFlag::Error
    } else if k == 1 {
        ProxyNextUpstreamFlag::Timeout
    } else if k == 2 {
        ProxyNextUpstreamFlag::InvalidHeader
    } else if k == 3 {
        ProxyNextUpstreamFlag::Http500
    } else if k == 4 {
        ProxyNextUpstreamFlag::Http502
    } else if k == 5 {
        ProxyNextUpstreamFlag::Http503
    } else if k == 6 {
        ProxyNextUpstreamFlag::Http504
    } else if k == 7 {
        ProxyNextUpstreamFlag::Http403
    } else if k == 8 {
        ProxyNextUpstreamFlag::Http404
    } else if k == 9 {
        ProxyNextUpstreamFlag::Http429
    } else if k == 10 {
        ProxyNextUpstreamFlag::NonIdempotent
    } else {
        ProxyNextUpstreamFlag::Off
    }
}

/// The cases that the string tokens from `i` on name, added to `acc`, and
/// the index of the first token that is no string.
pub open spec fn upstream_run(t: Lexed, i: int, acc: Seq<ProxyNextUpstreamFlag>) -> Parsed<
    Seq<ProxyNextUpstreamFlag>,
>
    decreases t.tokens.len() - i,
{
    if t.is_string(i) {
        match first_index(upstream_words(), t.text(i), 0) {
            Some(k) => upstream_run(t, i + 1, acc.push(upstream_of(k))),
            None => Err(complaint(t.position(i), "invalid proxy upstream flag"@)),
        }
    } else {
        Ok((acc, i))
    }
}

/// The directive for the cases that were read, once the semicolon behind
/// them is found.
pub open spec fn upstream_finish(t: Lexed, read: Parsed<Seq<ProxyNextUpstreamFlag>>) -> Parsed<
    ItemView,
> {
    match read {
        Err(e) => Err(e),
        Ok((flags, i)) => match semi_spec(t, i, seq!["String"@]) {
            Ok(j) => Ok((ItemView::ProxyNextUpstream(flags), j)),
            Err(e) => Err(e),
        },
    }
}

/// `proxy_next_upstream` with one case or more.
pub open spec fn next_upstream_spec(t: Lexed, kw: int) -> Parsed<ItemView> {
    if !t.is_string(kw + 1) {
        Err(unexpected_at(t, kw + 1, seq!["String"@]))
    } else {
        upstream_finish(t, upstream_run(t, kw + 1, Seq::empty()))
    }
}

/// What the proxy module makes of the directive that starts at `kw`.
pub open spec fn directives_spec(t: Lexed, kw: int) -> Option<Parsed<ItemView>> {
    let name = t.text(kw);
    if name == "proxy_pass_request_headers"@ {
        Some(
            match toggle_spec(t, kw + 1) {
                Ok((on, j)) => Ok((ItemView::ProxyPassRequestHeaders(on), j)),
                Err(e) => Err(e),
            },
        )
    } else if name == "proxy_pass_request_body"@ {
        Some(
            match toggle_spec(t, kw + 1) {
                Ok((on, j)) => Ok((ItemView::ProxyPassRequestBody(on), j)),
                Err(e) => Err(e),
            },
        )
    } else if name == "proxy_intercept_errors"@ {
        Some(
            match toggle_spec(t, kw + 1) {
                Ok((on, j)) => Ok((ItemView::ProxyInterceptErrors(on), j)),
                Err(e) => Err(e),
            },
        )
    } else if name == "proxy_buffering"@ {
        Some(
            match toggle_spec(t, kw + 1) {
                Ok((on, j)) => Ok((ItemView::ProxyBuffering(on), j)),
                Err(e) => Err(e),
            },
        )
    } else if name == "proxy_pass"@ {
        Some(
            match single_spec(t, kw + 1) {
                Ok((v, j)) => Ok((ItemView::ProxyPass(v), j)),
                Err(e) => Err(e),
            },
        )
    } else if name == "proxy_method"@ {
        Some(
            match single_spec(t, kw + 1) {
                Ok((v, j)) => Ok((ItemView::ProxyMethod(v), j)),
                Err(e) => Err(e),
            },
        )
    } else if name == "proxy_cache"@ {
        Some(
            match single_spec(t, kw + 1) {
                Ok((v, j)) => Ok((ItemView::ProxyCache(v), j)),
                Err(e) => Err(e),
            },
        )
    } else if name == "proxy_cache_key"@ {
        Some(
            match single_spec(t, kw + 1) {
                Ok((v, j)) => Ok((ItemView::ProxyCacheKey(v), j)),
                Err(e) => Err(e),
            },
        )
    } else if name == "proxy_read_timeout"@ {
        Some(
            match single_spec(t, kw + 1) {
                Ok((v, j)) => Ok((ItemView::ProxyReadTimeout(v), j)),
                Err(e) => Err(e),
            },
        )
    } else if name == "proxy_connect_timeout"@ {
        Some(
            match single_spec(t, kw + 1) {
                Ok((v, j)) => Ok((ItemView::ProxyConnectTimeout(v), j)),
                Err(e) => Err(e),
            },
        )
    } else if name == "proxy_hide_header"@ {
        Some(
            match single_spec(t, kw + 1) {
                Ok((v, j)) => Ok((ItemView::ProxyHideHeader(v), j)),
                Err(e) => Err(e),
            },
        )
    } else if name == "proxy_pass_header"@ {
        Some(
            match single_spec(t, kw + 1) {
                Ok((v, j)) => Ok((ItemView::ProxyPassHeader(v), j)),
                Err(e) => Err(e),
            },
        )
    } else if name == "proxy_next_upstream_tries"@ {
        Some(
            match single_spec(t, kw + 1) {
                Ok((v, j)) => Ok((ItemView::ProxyNextUpstreamTries(v), j)),
                Err(e) => Err(e),
            },
        )
    } else if name == "proxy_next_upstream_timeout"@ {
        Some(
            match single_spec(t, kw + 1) {
                Ok((v, j)) => Ok((ItemView::ProxyNextUpstreamTimeout(v), j)),
                Err(e) => Err(e),
            },
        )
    } else if name == "proxy_set_header"@ {
        Some(set_header_spec(t, kw))
    } else if name == "proxy_cache_valid"@ {
        Some(cache_valid_spec(t, kw))
    } else if name == "proxy_ignore_headers"@ {
        Some(ignore_headers_spec(t, kw))
    } else if name == "proxy_http_version"@ {
        Some(http_version_spec(t, kw))
    } else if name == "proxy_next_upstream"@ {
        Some(next_upstream_spec(t, kw))
    } else {
        None
    }
}

impl ProxyNextUpstreamFlag {
    /// The place of the case in the list of its words.
    pub open spec fn index(self) -> int {
        match self {
            ProxyNextUpstreamFlag::Error => 0,
            ProxyNextUpstreamFlag::Timeout => 1,
            ProxyNextUpstreamFlag::InvalidHeader => 2,
            ProxyNextUpstreamFlag::Http500 => 3,
            ProxyNextUpstreamFlag::Http502 => 4,
            ProxyNextUpstreamFlag::Http503 => 5,
            ProxyNextUpstreamFlag::Http504 => 6,
            ProxyNextUpstreamFlag::Http403 => 7,
            ProxyNextUpstreamFlag::Http404 => 8,
            ProxyNextUpstreamFlag::Http429 => 9,
            ProxyNextUpstreamFlag::NonIdempotent => 10,
            ProxyNextUpstreamFlag::Off => 11,
        }
    }

    /// The case as it is written.
    pub fn as_str(&self) -> (r: &'static str)
        ensures
            r@ == upstream_words()[self.index()],
            upstream_of(self.index()) == *self,
    {
        match self {
            ProxyNextUpstreamFlag::Error => "error",
            ProxyNextUpstreamFlag::Timeout => "timeout",
            ProxyNextUpstreamFlag::InvalidHeader => "invalid_header",
            ProxyNextUpstreamFlag::Http500 => "http_500",
            ProxyNextUpstreamFlag::Http502 => "http_502",
            ProxyNextUpstreamFlag::Http503 => "http_503",
            ProxyNextUpstreamFlag::Http504 => "http_504",
            ProxyNextUpstreamFlag::Http403 => "http_403",
            ProxyNextUpstreamFlag::Http404 => "http_404",
            ProxyNextUpstreamFlag::Http429 => "http_429",
            ProxyNextUpstreamFlag::NonIdempotent => "non_idempotent",
            ProxyNextUpstreamFlag::Off => "off",
        }
    }

    /// The case that the word `k` of its list stands for.
    pub fn from_index(k: usize) -> (r: ProxyNextUpstreamFlag)
        ensures
            r == upstream_of(k as int),
    {
        if k == 0 {
            ProxyNextUpstreamFlag::Error
        } else if k == 1 {
            ProxyNextUpstreamFlag::Timeout
        } else if k == 2 {
            ProxyNextUpstreamFlag::InvalidHeader
        } else if k == 3 {
            ProxyNextUpstreamFlag::Http500
        } else if k == 4 {
            ProxyNextUpstreamFlag::Http502
        } else if k == 5 {
            ProxyNextUpstreamFlag::Http503
        } else if k == 6 {
            ProxyNextUpstreamFlag::Http504
        } else if k == 7 {
            ProxyNextUpstreamFlag::Http403
        } else if k == 8 {
            ProxyNextUpstreamFlag::Http404
        } else if k == 9 {
            ProxyNextUpstreamFlag::Http429
        } else if k == 10 {
            ProxyNextUpstreamFlag::NonIdempotent
        } else {
            ProxyNextUpstreamFlag::Off
        }
    }

    /// The words that stand for the cases.
    pub fn words() -> (r: Vec<&'static str>)
        ensures
            names_view(r@) == upstream_words(),
    {
        let r = vec![
            "error",
            "timeout",
            "invalid_header",
            "http_500",
            "http_502",
            "http_503",
            "http_504",
            "http_403",
            "http_404",
            "http_429",
            "non_idempotent",
            "off",
        ];
        assert(names_view(r@) =~= upstream_words());
        r
    }
}

/// Reads `proxy_set_header field value;`.
fn set_header(t: &TokenList, kw: usize) -> (r: Result<(Item, usize), ParseError>)
    requires
        kw < t.tokens.len(),
    ensures
        family_agrees(t, kw, Some(r), Some(set_header_spec(t@, kw as int))),
{
    let (field, _) = match value_at(t, kw + 1, &one_name("String")) {
        Ok(p) => p,
        Err(e) => {
            return Err(e);
        },
    };
    let (value, _) = match value_at(t, kw + 2, &one_name("String")) {
        Ok(p) => p,
        Err(e) => {
            return Err(e);
        },
    };
    match semi_at(t, kw + 3, no_names()) {
        Ok(j) => Ok((Item::ProxySetHeader { field, value }, j)),
        Err(e) => Err(e),
    }
}

/// The text of `v` if `v` is one literal.
pub fn literal_of(v: &Value) -> (r: Option<&String>)
    ensures
        match sole_literal(v@) {
            Some(x) => r matches Some(s) && s@ == x,
            None => r is None,
        },
{
    if v.data.len() == 1 {
        match &v.data[0] {
            crate::value::Item::Literal(x) => Some(x),
            crate::value::Item::Variable(_) => None,
        }
    } else {
        None
    }
}

/// The codes that the values of `list` name; `None` where the word `any`
/// stands alone.
fn codes_of(list: &Vec<Value>) -> (r: Result<Option<Vec<u32>>, ErrorItem>)
    ensures
        match codes_spec(seq_view(list@), 0, Seq::empty()) {
            Ok(Some(c)) => r matches Ok(Some(x)) && x@ == c,
            Ok(None) => r matches Ok(None),
            Err(e) => r matches Err(x) && x@ == e,
        },
{
    let mut codes: Vec<u32> = Vec::new();
    let mut i: usize = 0;
    while i < list.len()
        invariant
            i <= list.len(),
            codes_spec(seq_view(list@), 0, Seq::empty()) == codes_spec(
                seq_view(list@),
                i as int,
                codes@,
            ),
        decreases list.len() - i,
    {
        match literal_of(&list[i]) {
            None => {
                return Err(
                    ErrorItem::Unexpected(
                        String::from_str("variables aren't allowed in list of codes"),
                    ),
                );
            },
            Some(x) => {
                if str_eq(x.as_str(), "any") {
                    if list.len() == 1 {
                        return Ok(None);
                    } else {
                        return Err(
                            ErrorItem::Unexpected(
                                String::from_str(
                                    "`any` must be sole argument before time. It's not allowed to combine `any` and other codes",
                                ),
                            ),
                        );
                    }
                }
                match Code::parse(x.as_str()) {
                    Ok(c) => {
                        codes.push(c.as_code());
                    },
                    Err(_) => {
                        let mut text = String::from_str("invalid http code ");
                        let quoted = debug_of(x.as_str());
                        text.append(quoted.as_str());
                        return Err(ErrorItem::Unexpected(text));
                    },
                }
            },
        }
        i += 1;
    }
    Ok(Some(codes))
}

/// What the arguments of `proxy_cache_valid` say.
pub fn cache_valid_from(list: Vec<Value>) -> (r: Result<ProxyCacheValid, ErrorItem>)
    requires
        list.len() > 0,
    ensures
        match cache_valid_of(seq_view(list@)) {
            Ok(v) => r matches Ok(x) && x@ == v,
            Err(e) => r matches Err(x) && x@ == e,
        },
{
    let mut list = list;
    let ghost all = list@;
    let time = list.pop().unwrap();
    proof {
        assert(seq_view(list@) =~= seq_view(all).drop_last());
        assert(time@ == seq_view(all).last());
    }
    if list.len() == 0 {
        return Ok(ProxyCacheValid::Normal(time));
    }
    match codes_of(&list) {
        Err(e) => Err(e),
        Ok(None) => Ok(ProxyCacheValid::Any(time)),
        Ok(Some(c)) => Ok(ProxyCacheValid::Specific(c, time)),
    }
}

/// Reads `proxy_cache_valid [code ...] time;`.
fn cache_valid(t: &TokenList, kw: usize) -> (r: Result<(Item, usize), ParseError>)
    requires
        kw < t.tokens.len(),
    ensures
        family_agrees(t, kw, Some(r), Some(cache_valid_spec(t@, kw as int))),
{
    if !t.is_string(kw + 1) {
        return Err(unexpected(t, kw + 1, &one_name("String")));
    }
    proof {
        lemma_values_end(t@, kw + 1, Seq::empty());
        lemma_run_end(t@, kw + 1);
    }
    let (list, i) = match values_from(t, kw + 1) {
        Ok(p) => p,
        Err(e) => {
            return Err(e);
        },
    };
    match cache_valid_from(list) {
        Err(e) => Err(ParseError::single(t.position(kw), e)),
        Ok(v) => match semi_at(t, i, one_name("String")) {
            Ok(j) => Ok((Item::ProxyCacheValid(v), j)),
            Err(e) => Err(e),
        },
    }
}

/// Reads `proxy_ignore_headers` with its names.
fn ignore_headers(t: &TokenList, kw: usize) -> (r: Result<(Item, usize), ParseError>)
    requires
        kw < t.tokens.len(),
    ensures
        family_agrees(t, kw, Some(r), Some(ignore_headers_spec(t@, kw as int))),
{
    if !t.is_string(kw + 1) {
        return Err(unexpected(t, kw + 1, &one_name("String")));
    }
    let (names, i) = strings_from(t, kw + 1);
    match semi_at(t, i, one_name("String")) {
        Ok(j) => Ok((Item::ProxyIgnoreHeaders(names), j)),
        Err(e) => Err(e),
    }
}

/// Reads `proxy_http_version 1.0|1.1;`.
fn http_version(t: &TokenList, kw: usize) -> (r: Result<(Item, usize), ParseError>)
    requires
        kw < t.tokens.len(),
    ensures
        family_agrees(t, kw, Some(r), Some(http_version_spec(t@, kw as int))),
{
    if !t.is_string(kw + 1) {
        return Err(unexpected(t, kw + 1, &one_name("String")));
    }
    let s = t.text(kw + 1);
    let version = if str_eq(s, "1.0") {
        ProxyHttpVersion::V1_0
    } else if str_eq(s, "1.1") {
        ProxyHttpVersion::V1_1
    } else {
        return Err(complain(t.position(kw + 1), "invalid http version"));
    };
    match semi_at(t, kw + 2, no_names()) {
        Ok(j) => Ok((Item::ProxyHttpVersion(version), j)),
        Err(e) => Err(e),
    }
}

/// Reads `proxy_next_upstream` with its cases.
fn next_upstream(t: &TokenList, kw: usize) -> (r: Result<(Item, usize), ParseError>)
    requires
        kw < t.tokens.len(),
    ensures
        family_agrees(t, kw, Some(r), Some(next_upstream_spec(t@, kw as int))),
{
    if !t.is_string(kw + 1) {
        return Err(unexpected(t, kw + 1, &one_name("String")));
    }
    let words = ProxyNextUpstreamFlag::words();
    let mut flags: Vec<ProxyNextUpstreamFlag> = Vec::new();
    let mut i: usize = kw + 1;
    while t.is_string(i)
        invariant
            kw < i <= t.tokens.len(),
            names_view(words@) == upstream_words(),
            next_upstream_spec(t@, kw as int) == upstream_finish(
                t@,
                upstream_run(t@, i as int, flags@),
            ),
        decreases t.tokens.len() - i,
    {
        match index_of(&words, t.text(i)) {
            Some(k) => {
                flags.push(ProxyNextUpstreamFlag::from_index(k));
            },
            None => {
                return Err(complain(t.position(i), "invalid proxy upstream flag"));
            },
        }
        i += 1;
    }
    match semi_at(t, i, one_name("String")) {
        Ok(j) => Ok((Item::ProxyNextUpstream(flags), j)),
        Err(e) => Err(e),
    }
}

/// Reads a directive of the proxy module whose name stands at `kw`.
pub fn directives(t: &TokenList, kw: usize) -> (r: Option<Result<(Item, usize), ParseError>>)
    requires
        kw < t.tokens.len(),
    ensures
        family_agrees(t, kw, r, directives_spec(t@, kw as int)),
{
    let name = t.text(kw);
    if str_eq(name, "proxy_pass_request_headers") {
        Some(
            match toggle_at(t, kw + 1) {
                Ok((on, j)) => Ok((Item::ProxyPassRequestHeaders(on), j)),
                Err(e) => Err(e),
            },
        )
    } else if str_eq(name, "proxy_pass_request_body") {
        Some(
            match toggle_at(t, kw + 1) {
                Ok((on, j)) => Ok((Item::ProxyPassRequestBody(on), j)),
                Err(e) => Err(e),
            },
        )
    } else if str_eq(name, "proxy_intercept_errors") {
        Some(
            match toggle_at(t, kw + 1) {
                Ok((on, j)) => Ok((Item::ProxyInterceptErrors(on), j)),
                Err(e) => Err(e),
            },
        )
    } else if str_eq(name, "proxy_buffering") {
        Some(
            match toggle_at(t, kw + 1) {
                Ok((on, j)) => Ok((Item::ProxyBuffering(on), j)),
                Err(e) => Err(e),
            },
        )
    } else if str_eq(name, "proxy_pass") {
        Some(
            match single_at(t, kw + 1) {
                Ok((v, j)) => Ok((Item::ProxyPass(v), j)),
                Err(e) => Err(e),
            },
        )
    } else if str_eq(name, "proxy_method") {
        Some(
            match single_at(t, kw + 1) {
                Ok((v, j)) => Ok((Item::ProxyMethod(v), j)),
                Err(e) => Err(e),
            },
        )
    } else if str_eq(name, "proxy_cache") {
        Some(
            match single_at(t, kw + 1) {
                Ok((v, j)) => Ok((Item::ProxyCache(v), j)),
                Err(e) => Err(e),
            },
        )
    } else if str_eq(name, "proxy_cache_key") {
        Some(
            match single_at(t, kw + 1) {
                Ok((v, j)) => Ok((Item::ProxyCacheKey(v), j)),
                Err(e) => Err(e),
            },
        )
    } else if str_eq(name, "proxy_read_timeout") {
        Some(
            match single_at(t, kw + 1) {
                Ok((v, j)) => Ok((Item::ProxyReadTimeout(v), j)),
                Err(e) => Err(e),
            },
        )
    } else if str_eq(name, "proxy_connect_timeout") {
        Some(
            match single_at(t, kw + 1) {
                Ok((v, j)) => Ok((Item::ProxyConnectTimeout(v), j)),
                Err(e) => Err(e),
            },
        )
    } else if str_eq(name, "proxy_hide_header") {
        Some(
            match single_at(t, kw + 1) {
                Ok((v, j)) => Ok((Item::ProxyHideHeader(v), j)),
                Err(e) => Err(e),
            },
        )
    } else if str_eq(name, "proxy_pass_header") {
        Some(
            match single_at(t, kw + 1) {
                Ok((v, j)) => Ok((Item::ProxyPassHeader(v), j)),
                Err(e) => Err(e),
            },
        )
    } else if str_eq(name, "proxy_next_upstream_tries") {
        Some(
            match single_at(t, kw + 1) {
                Ok((v, j)) => Ok((Item::ProxyNextUpstreamTries(v), j)),
                Err(e) => Err(e),
            },
        )
    } else if str_eq(name, "proxy_next_upstream_timeout") {
        Some(
            match single_at(t, kw + 1) {
                Ok((v, j)) => Ok((Item::ProxyNextUpstreamTimeout(v), j)),
                Err(e) => Err(e),
            },
        )
    } else if str_eq(name, "proxy_set_header") {
        Some(set_header(t, kw))
    } else if str_eq(name, "proxy_cache_valid") {
        Some(cache_valid(t, kw))
    } else if str_eq(name, "proxy_ignore_headers") {
        Some(ignore_headers(t, kw))
    } else if str_eq(name, "proxy_http_version") {
        Some(http_version(t, kw))
    } else if str_eq(name, "proxy_next_upstream") {
        Some(next_upstream(t, kw))
    } else {
        None
    }
}

} // verus!
