//! The directives of the core module.

use vstd::prelude::*;
use vstd::string::StringExecFns;
use crate::ast::{
    seq_view, Address, AddressView, ErrorLevel, ErrorPage, ErrorPageResponse, ErrorPageView,
    HttpExt, Item, ItemView, Listen, ListenView,
};
use crate::error::{ErrorItem, ErrorItemView, ErrorView, ParseError};
use crate::grammar::{code_spec, Code};
use crate::helpers::{
    complain, complaint, error_at, family_agrees, first_index, index_of, item_of_number_error,
    names_view, no_names, number_error, one_name, prefix, semi_at, semi_spec, single_at,
    single_spec, suffix_spec, toggle_at, toggle_spec, unexpected, unexpected_at, value_at,
    value_spec, values_from, values_spec, Parsed,
};
use crate::net::{socket_spec, SocketAddress};
use crate::text::{
    chars_of, is_prefix, number_spec, parse_number, same_text, starts_with, str_eq, tail_of,
    tail_string,
};
use crate::tokenizer::{Lexed, TokenList};
use crate::value::{Value, ValueView};

verus! {

/// The text of a value that stands where a code must stand: the value must
/// be one literal. `none` is what an error says of an empty value, `many`
/// what it says of variables.
pub open spec fn literal_spec(v: ValueView, none: Seq<char>, many: Seq<char>) -> Result<
    Seq<char>,
    ErrorItemView,
> {
    if v.data.len() == 0 {
        Err(ErrorItemView::Unexpected(none))
    } else if v.data.len() > 1 {
        Err(ErrorItemView::Unexpected(many))
    } else if v.data[0] is Literal {
        Ok(v.data[0]->Literal_0)
    } else {
        Err(ErrorItemView::Unexpected(many))
    }
}

/// What an error says of an empty code of `error_page`.
pub open spec fn page_none() -> Seq<char> {
    "empty error codes are not supported"@
}

/// What an error says of a variable in a code of `error_page`.
pub open spec fn page_many() -> Seq<char> {
    "only last argument of error_codes can contain variables"@
}

/// The codes that the values of `list` from `i` on name, added to `acc`.
pub open spec fn page_codes(list: Seq<ValueView>, i: int, acc: Seq<u32>) -> Result<
    Seq<u32>,
    ErrorItemView,
>
    decreases list.len() - i,
{
    if i < 0 || i >= list.len() {
        Ok(acc)
    } else {
        match literal_spec(list[i], page_none(), page_many()) {
            Err(e) => Err(e),
            Ok(x) => match code_spec(x) {
                Err(e) => Err(e),
                Ok(c) => page_codes(list, i + 1, acc.push(c.number())),
            },
        }
    }
}

/// The response code that an argument `=`, or `=` and a code, asks for.
pub open spec fn response_spec(x: Seq<char>) -> Result<ErrorPageResponse, ErrorItemView> {
    if x == "="@ {
        Ok(ErrorPageResponse::Keep)
    } else {
        match code_spec(x.skip(1)) {
            Err(e) => Err(e),
            Ok(Code::Redirect(c)) => Ok(ErrorPageResponse::Redirect(c)),
            Ok(Code::Normal(c)) => Ok(ErrorPageResponse::Replace(c)),
        }
    }
}

/// The page for the codes `codes`, once they are read.
pub open spec fn page_finish(
    codes: Seq<ValueView>,
    response_code: ErrorPageResponse,
    uri: ValueView,
) -> Result<ErrorPageView, ErrorItemView> {
    match page_codes(codes, 0, Seq::empty()) {
        Err(e) => Err(e),
        Ok(c) => Ok(ErrorPageView { codes: c, response_code, uri }),
    }
}

/// What the arguments of `error_page` say: codes, then an optional
/// argument that starts with `=`, then the address of the page.
pub open spec fn error_page_of(list: Seq<ValueView>) -> Result<ErrorPageView, ErrorItemView> {
    if list.len() == 0 {
        Err(ErrorItemView::Unexpected("error_page directive must not be empty"@))
    } else {
        let uri = list.last();
        let rest = list.drop_last();
        if rest.len() == 0 {
            page_finish(rest, ErrorPageResponse::Target, uri)
        } else {
            match literal_spec(rest.last(), page_none(), page_many()) {
                Err(e) => Err(e),
                Ok(x) => if x.len() > 0 && x[0] == '=' {
                    match response_spec(x) {
                        Err(e) => Err(e),
                        Ok(response) => page_finish(rest.drop_last(), response, uri),
                    }
                } else {
                    page_finish(rest, ErrorPageResponse::Target, uri)
                },
            }
        }
    }
}

/// `error_page code ... [=[code]] uri;`
pub open spec fn error_page_spec(t: Lexed, kw: int) -> Parsed<ItemView> {
    match values_spec(t, kw + 1, Seq::empty()) {
        Err(e) => Err(e),
        Ok((list, i)) => match error_page_of(list) {
            Err(e) => Err(error_at(t.position(kw), e)),
            Ok(page) => match semi_spec(t, i, seq!["String"@]) {
                Ok(j) => Ok((ItemView::ErrorPage(page), j)),
                Err(e) => Err(e),
            },
        },
    }
}

/// The address that the first argument of `listen` names: a socket of the
/// file system, a port on all addresses, a port, or an address and a port.
pub open spec fn address_spec(s: Seq<char>) -> Result<AddressView, ErrorItemView> {
    if is_prefix("unix:"@, s) {
        Ok(AddressView::Unix(s.skip(5)))
    } else if is_prefix("*:"@, s) {
        match number_spec(s.skip(2), 0, 65535) {
            Ok(n) => Ok(AddressView::StarPort(n as u16)),
            Err(e) => Err(number_error(e)),
        }
    } else {
        match number_spec(s, 0, 65535) {
            Ok(n) => Ok(AddressView::Port(n as u16)),
            Err(_) => match socket_spec(s) {
                Some(a) => Ok(AddressView::Ip(a)),
                None => Err(ErrorItemView::Message("invalid socket address syntax"@)),
            },
        }
    }
}

/// The words and prefixes that may follow the address of `listen`.
pub open spec fn listen_words() -> Seq<Seq<char>> {
    seq![
        "default_server"@,
        "ssl"@,
        "http2"@,
        "spdy"@,
        "proxy_protocol"@,
        "setfib="@,
        "fastopen="@,
        "backlog="@,
        "rcvbuf="@,
        "sndbuf="@,
        "deferred"@,
        "bind"@,
        "ipv6only="@,
        "reuseport"@,
    ]
}

/// The number behind the prefix of an option of `listen`.
pub open spec fn option_number(t: Lexed, i: int, x: Seq<char>, min: int, max: int) -> Result<
    int,
    ErrorView,
> {
    match number_spec(x, min, max) {
        Ok(n) => Ok(n),
        Err(e) => Err(error_at(t.position(i), number_error(e))),
    }
}

/// `l` with what the option at `i` sets; `None` where the token `i` is no
/// option of `listen`.
pub open spec fn listen_option(t: Lexed, i: int, l: ListenView) -> Option<
    Result<ListenView, ErrorView>,
> {
    if t.is_word(i, "default_server"@) {
        Some(Ok(ListenView { default_server: true, ..l }))
    } else if t.is_word(i, "ssl"@) {
        Some(Ok(ListenView { ssl: true, ..l }))
    } else if t.is_word(i, "http2"@) {
        Some(Ok(ListenView { ext: Some(HttpExt::Http2), ..l }))
    } else if t.is_word(i, "spdy"@) {
        Some(Ok(ListenView { ext: Some(HttpExt::Spdy), ..l }))
    } else if t.is_word(i, "proxy_protocol"@) {
        Some(Ok(ListenView { proxy_protocol: true, ..l }))
    } else if suffix_spec(t, i, "setfib="@) is Some {
        Some(
            match option_number(
                t,
                i,
                suffix_spec(t, i, "setfib="@)->0,
                i32::MIN as int,
                i32::MAX as int,
            ) {
                Ok(n) => Ok(ListenView { setfib: Some(n as i32), ..l }),
                Err(e) => Err(e),
            },
        )
    } else if suffix_spec(t, i, "fastopen="@) is Some {
        Some(
            match option_number(t, i, suffix_spec(t, i, "fastopen="@)->0, 0, u32::MAX as int) {
                Ok(n) => Ok(ListenView { fastopen: Some(n as u32), ..l }),
                Err(e) => Err(e),
            },
        )
    } else if suffix_spec(t, i, "backlog="@) is Some {
        Some(
            match option_number(
                t,
                i,
                suffix_spec(t, i, "backlog="@)->0,
                i32::MIN as int,
                i32::MAX as int,
            ) {
                Ok(n) => Ok(ListenView { backlog: Some(n as i32), ..l }),
                Err(e) => Err(e),
            },
        )
    } else if suffix_spec(t, i, "rcvbuf="@) is Some {
        Some(
            match option_number(t, i, suffix_spec(t, i, "rcvbuf="@)->0, 0, u64::MAX as int) {
                Ok(n) => Ok(ListenView { rcvbuf: Some(n as u64), ..l }),
                Err(e) => Err(e),
            },
        )
    } else if suffix_spec(t, i, "sndbuf="@) is Some {
        Some(
            match option_number(t, i, suffix_spec(t, i, "sndbuf="@)->0, 0, u64::MAX as int) {
                Ok(n) => Ok(ListenView { sndbuf: Some(n as u64), ..l }),
                Err(e) => Err(e),
            },
        )
    } else if t.is_word(i, "deferred"@) {
        Some(Ok(ListenView { deferred: true, ..l }))
    } else if t.is_word(i, "bind"@) {
        Some(Ok(ListenView { bind: true, ..l }))
    } else if suffix_spec(t, i, "ipv6only="@) is Some {
        let x = suffix_spec(t, i, "ipv6only="@)->0;
        if x == "on"@ {
            Some(Ok(ListenView { ipv6only: Some(true), ..l }))
        } else if x == "off"@ {
            Some(Ok(ListenView { ipv6only: Some(false), ..l }))
        } else {
            Some(Err(complaint(t.position(i), "only on/off supported"@)))
        }
    } else if t.is_word(i, "reuseport"@) {
        Some(Ok(ListenView { reuseport: true, ..l }))
    } else {
        None
    }
}

/// `l` with what the options from `i` on set, and the index of the first
/// token that is no option.
pub open spec fn listen_options(t: Lexed, i: int, l: ListenView) -> Parsed<ListenView>
    decreases t.tokens.len() - i,
{
    match listen_option(t, i, l) {
        Some(Ok(next)) => if 0 <= i < t.tokens.len() {
            listen_options(t, i + 1, next)
        } else {
            Ok((l, i))
        },
        Some(Err(e)) => Err(e),
        None => Ok((l, i)),
    }
}

/// The directive for the options that were read, once the semicolon
/// behind them is found.
pub open spec fn listen_finish(t: Lexed, read: Parsed<ListenView>) -> Parsed<ItemView> {
    match read {
        Err(e) => Err(e),
        Ok((l, i)) => match semi_spec(t, i, listen_words()) {
            Ok(j) => Ok((ItemView::Listen(l), j)),
            Err(e) => Err(e),
        },
    }
}

/// `listen address [option ...];`
pub open spec fn listen_spec(t: Lexed, kw: int) -> Parsed<ItemView> {
    if !t.is_string(kw + 1) {
        Err(unexpected_at(t, kw + 1, seq!["String"@]))
    } else {
        match address_spec(t.text(kw + 1)) {
            Err(e) => Err(error_at(t.position(kw + 1), e)),
            Ok(address) => listen_finish(t, listen_options(t, kw + 2, ListenView::plain(address))),
        }
    }
}

/// `keepalive_timeout time [time];`
pub open spec fn keepalive_timeout_spec(t: Lexed, kw: int) -> Parsed<ItemView> {
    match value_spec(t, kw + 1, seq!["String"@]) {
        Err(e) => Err(e),
        Ok((first, _)) => if t.is_string(kw + 2) {
            match value_spec(t, kw + 2, Seq::empty()) {
                Err(e) => Err(e),
                Ok((second, _)) => match semi_spec(t, kw + 3, Seq::empty()) {
                    Ok(j) => Ok((ItemView::KeepaliveTimeout(first, Some(second)), j)),
                    Err(e) => Err(e),
                },
            }
        } else {
            match semi_spec(t, kw + 2, seq!["String"@]) {
                Ok(j) => Ok((ItemView::KeepaliveTimeout(first, None), j)),
                Err(e) => Err(e),
            }
        },
    }
}

/// The names of the levels of `error_log`.
pub open spec fn level_words() -> Seq<Seq<char>> {
    seq!["debug"@, "info"@, "notice"@, "warn"@, "error"@, "crit"@, "alert"@, "emerg"@]
}

/// The level that the word `k` of `level_words` stands for.
pub open spec fn level_of(k: int) -> ErrorLevel {
    if k == 0 {
        ErrorLevel::Debug
    } else if k == 1 {
        ErrorLevel::Info
    } else if k == 2 {
        ErrorLevel::Notice
    } else if k == 3 {
        ErrorLevel::Warn
    } else if k == 4 {
        ErrorLevel::Error
    } else if k == 5 {
        ErrorLevel::Crit
    } else if k == 6 {
        ErrorLevel::Alert
    } else {
        ErrorLevel::Emerg
    }
}

/// `error_log file [level];`
pub open spec fn error_log_spec(t: Lexed, kw: int) -> Parsed<ItemView> {
    match value_spec(t, kw + 1, seq!["String"@]) {
        Err(e) => Err(e),
        Ok((file, _)) => if t.is_string(kw + 2) {
            match first_index(level_words(), t.text(kw + 2), 0) {
                None => Err(complaint(t.position(kw + 2), "invalid log level"@)),
                Some(k) => match semi_spec(t, kw + 3, Seq::empty()) {
                    Ok(j) => Ok((ItemView::ErrorLog { file, level: Some(level_of(k)) }, j)),
                    Err(e) => Err(e),
                },
            }
        } else {
            match semi_spec(t, kw + 2, seq!["String"@]) {
                Ok(j) => Ok((ItemView::ErrorLog { file, level: None }, j)),
                Err(e) => Err(e),
            }
        },
    }
}

/// What the core module makes of the directive that starts at `kw`, if it has no block.
pub open spec fn directives_spec(t: Lexed, kw: int) -> Option<Parsed<ItemView>> {
    let name = t.text(kw);
    if name == "etag"@ {
        Some(
            match toggle_spec(t, kw + 1) {
                Ok((on, j)) => Ok((ItemView::Etag(on), j)),
                Err(e) => Err(e),
            },
        )
    } else if name == "recursive_error_pages"@ {
        Some(
            match toggle_spec(t, kw + 1) {
                Ok((on, j)) => Ok((ItemView::RecursiveErrorPages(on), j)),
                Err(e) => Err(e),
            },
        )
    } else if name == "chunked_transfer_encoding"@ {
        Some(
            match toggle_spec(t, kw + 1) {
                Ok((on, j)) => Ok((ItemView::ChunkedTransferEncoding(on), j)),
                Err(e) => Err(e),
            },
        )
    } else if name == "root"@ {
        Some(
            match single_spec(t, kw + 1) {
                Ok((v, j)) => Ok((ItemView::Root(v), j)),
                Err(e) => Err(e),
            },
        )
    } else if name == "alias"@ {
        Some(
            match single_spec(t, kw + 1) {
                Ok((v, j)) => Ok((ItemView::Alias(v), j)),
                Err(e) => Err(e),
            },
        )
    } else if name == "default_type"@ {
        Some(
            match single_spec(t, kw + 1) {
                Ok((v, j)) => Ok((ItemView::DefaultType(v), j)),
                Err(e) => Err(e),
            },
        )
    } else if name == "server_tokens"@ {
        Some(
            match single_spec(t, kw + 1) {
                Ok((v, j)) => Ok((ItemView::ServerTokens(v), j)),
                Err(e) => Err(e),
            },
        )
    } else if name == "internal"@ {
        Some(
            match semi_spec(t, kw + 1, Seq::empty()) {
                Ok(j) => Ok((ItemView::Internal, j)),
                Err(e) => Err(e),
            },
        )
    } else if name == "error_page"@ {
        Some(error_page_spec(t, kw))
    } else if name == "listen"@ {
        Some(listen_spec(t, kw))
    } else if name == "keepalive_timeout"@ {
        Some(keepalive_timeout_spec(t, kw))
    } else if name == "error_log"@ {
        Some(error_log_spec(t, kw))
    } else {
        None
    }
}

impl ErrorLevel {
    /// The place of the level in the list of its names.
    pub open spec fn index(self) -> int {
        match self {
            ErrorLevel::Debug => 0,
            ErrorLevel::Info => 1,
            ErrorLevel::Notice => 2,
            ErrorLevel::Warn => 3,
            ErrorLevel::Error => 4,
            ErrorLevel::Crit => 5,
            ErrorLevel::Alert => 6,
            ErrorLevel::Emerg => 7,
        }
    }

    /// The level as it is written.
    pub fn as_str(&self) -> (r: &'static str)
        ensures
            r@ == level_words()[self.index()],
            level_of(self.index()) == *self,
    {
        match self {
            ErrorLevel::Debug => "debug",
            ErrorLevel::Info => "info",
            ErrorLevel::Notice => "notice",
            ErrorLevel::Warn => "warn",
            ErrorLevel::Error => "error",
            ErrorLevel::Crit => "crit",
            ErrorLevel::Alert => "alert",
            ErrorLevel::Emerg => "emerg",
        }
    }

    /// The level that the word `k` of its list stands for.
    pub fn from_index(k: usize) -> (r: ErrorLevel)
        ensures
            r == level_of(k as int),
    {
        if k == 0 {
            ErrorLevel::Debug
        } else if k == 1 {
            ErrorLevel::Info
        } else if k == 2 {
            ErrorLevel::Notice
        } else if k == 3 {
            ErrorLevel::Warn
        } else if k == 4 {
            ErrorLevel::Error
        } else if k == 5 {
            ErrorLevel::Crit
        } else if k == 6 {
            ErrorLevel::Alert
        } else {
            ErrorLevel::Emerg
        }
    }

    /// The names of the levels.
    pub fn words() -> (r: Vec<&'static str>)
        ensures
            names_view(r@) == level_words(),
    {
        let r = vec!["debug", "info", "notice", "warn", "error", "crit", "alert", "emerg"];
        assert(names_view(r@) =~= level_words());
        r
    }
}

/// The text of a value that stands where a code must stand.
pub fn literal_in<'a>(v: &'a Value, none: &str, many: &str) -> (r: Result<&'a String, ErrorItem>)
    ensures
        match literal_spec(v@, none@, many@) {
            Ok(x) => r matches Ok(s) && s@ == x,
            Err(e) => r matches Err(x) && x@ == e,
        },
{
    if v.data.len() == 0 {
        return Err(ErrorItem::Unexpected(String::from_str(none)));
    }
    if v.data.len() > 1 {
        return Err(ErrorItem::Unexpected(String::from_str(many)));
    }
    match &v.data[0] {
        crate::value::Item::Literal(x) => Ok(x),
        crate::value::Item::Variable(_) => Err(ErrorItem::Unexpected(String::from_str(many))),
    }
}

/// What an error says of an empty code of `error_page`.
fn page_none_text() -> (r: &'static str)
    ensures
        r@ == page_none(),
{
    "empty error codes are not supported"
}

/// What an error says of a variable in a code of `error_page`.
fn page_many_text() -> (r: &'static str)
    ensures
        r@ == page_many(),
{
    "only last argument of error_codes can contain variables"
}

/// The page for the codes `codes`.
fn finish_page(codes: &Vec<Value>, response_code: ErrorPageResponse, uri: Value) -> (r: Result<
    ErrorPage,
    ErrorItem,
>)
    ensures
        match page_finish(seq_view(codes@), response_code, uri@) {
            Ok(v) => r matches Ok(x) && x@ == v,
            Err(e) => r matches Err(x) && x@ == e,
        },
{
    let mut out: Vec<u32> = Vec::new();
    let mut i: usize = 0;
    while i < codes.len()
        invariant
            i <= codes.len(),
            page_codes(seq_view(codes@), 0, Seq::empty()) == page_codes(
                seq_view(codes@),
                i as int,
                out@,
            ),
        decreases codes.len() - i,
    {
        let x = match literal_in(&codes[i], page_none_text(), page_many_text()) {
            Ok(x) => x,
            Err(e) => {
                return Err(e);
            },
        };
        match Code::parse(x.as_str()) {
            Ok(c) => {
                out.push(c.as_code());
            },
            Err(e) => {
                return Err(e);
            },
        }
        i += 1;
    }
    Ok(ErrorPage { codes: out, response_code, uri })
}

/// The response code that an argument `=`, or `=` and a code, asks for.
fn response_of(x: &Vec<char>) -> (r: Result<ErrorPageResponse, ErrorItem>)
    requires
        x.len() > 0,
    ensures
        match response_spec(x@) {
            Ok(v) => r == Ok::<_, ErrorItem>(v),
            Err(e) => r matches Err(y) && y@ == e,
        },
{
    if same_text(x, "=") {
        Ok(ErrorPageResponse::Keep)
    } else {
        match Code::parse_chars(&tail_of(x, 1)) {
            Err(e) => Err(e),
            Ok(Code::Redirect(c)) => Ok(ErrorPageResponse::Redirect(c)),
            Ok(Code::Normal(c)) => Ok(ErrorPageResponse::Replace(c)),
        }
    }
}

/// What the arguments of `error_page` say.
pub fn error_page_from(list: Vec<Value>) -> (r: Result<ErrorPage, ErrorItem>)
    ensures
        match error_page_of(seq_view(list@)) {
            Ok(v) => r matches Ok(x) && x@ == v,
            Err(e) => r matches Err(x) && x@ == e,
        },
{
    let mut list = list;
    if list.len() == 0 {
        return Err(
            ErrorItem::Unexpected(String::from_str("error_page directive must not be empty")),
        );
    }
    let ghost all = list@;
    let uri = list.pop().unwrap();
    proof {
        assert(seq_view(list@) =~= seq_view(all).drop_last());
        assert(uri@ == seq_view(all).last());
    }
    if list.len() == 0 {
        return finish_page(&list, ErrorPageResponse::Target, uri);
    }
    let ghost rest = list@;
    let x = match literal_in(&list[list.len() - 1], page_none_text(), page_many_text()) {
        Ok(x) => chars_of(x.as_str()),
        Err(e) => {
            return Err(e);
        },
    };
    if x.len() > 0 && x[0] == '=' {
        match response_of(&x) {
            Err(e) => Err(e),
            Ok(response) => {
                list.pop();
                proof {
                    assert(seq_view(list@) =~= seq_view(rest).drop_last());
                }
                finish_page(&list, response, uri)
            },
        }
    } else {
        finish_page(&list, ErrorPageResponse::Target, uri)
    }
}

/// Reads `error_page code ... [=[code]] uri;`.
fn error_page(t: &TokenList, kw: usize) -> (r: Result<(Item, usize), ParseError>)
    requires
        kw < t.tokens.len(),
    ensures
        family_agrees(t, kw, Some(r), Some(error_page_spec(t@, kw as int))),
{
    let (list, i) = match values_from(t, kw + 1) {
        Ok(p) => p,
        Err(e) => {
            return Err(e);
        },
    };
    match error_page_from(list) {
        Err(e) => Err(ParseError::single(t.position(kw), e)),
        Ok(page) => match semi_at(t, i, one_name("String")) {
            Ok(j) => Ok((Item::ErrorPage(page), j)),
            Err(e) => Err(e),
        },
    }
}

/// Reads the address that the first argument of `listen` names.
pub fn parse_address(s: &Vec<char>) -> (r: Result<Address, ErrorItem>)
    ensures
        match address_spec(s@) {
            Ok(v) => r matches Ok(x) && x@ == v,
            Err(e) => r matches Err(x) && x@ == e,
        },
{
    if starts_with(s, "unix:") {
        proof {
            reveal_strlit("unix:");
        }
        Ok(Address::Unix(tail_string(s, 5)))
    } else if starts_with(s, "*:") {
        proof {
            reveal_strlit("*:");
        }
        match parse_number(&tail_of(s, 2), 0, 65535) {
            Ok(n) => Ok(Address::StarPort(n as u16)),
            Err(e) => Err(item_of_number_error(e)),
        }
    } else {
        match parse_number(s, 0, 65535) {
            Ok(n) => Ok(Address::Port(n as u16)),
            Err(_) => match SocketAddress::parse(s) {
                Some(a) => Ok(Address::Ip(a)),
                None => Err(ErrorItem::Message(String::from_str("invalid socket address syntax"))),
            },
        }
    }
}

/// The words and prefixes that may follow the address of `listen`.
fn listen_names() -> (r: Vec<&'static str>)
    ensures
        names_view(r@) == listen_words(),
{
    let r = vec![
        "default_server",
        "ssl",
        "http2",
        "spdy",
        "proxy_protocol",
        "setfib=",
        "fastopen=",
        "backlog=",
        "rcvbuf=",
        "sndbuf=",
        "deferred",
        "bind",
        "ipv6only=",
        "reuseport",
    ];
    assert(names_view(r@) =~= listen_words());
    r
}

/// Reads the number behind the prefix of an option of `listen`.
fn number_option(t: &TokenList, i: usize, x: &Vec<char>, min: i64, max: u64) -> (r: Result<
    i128,
    ParseError,
>)
    requires
        min <= 0,
    ensures
        match option_number(t@, i as int, x@, min as int, max as int) {
            Ok(n) => r matches Ok(v) && v == n && min <= n <= max,
            Err(e) => r matches Err(y) && y@ == e,
        },
{
    match parse_number(x, min, max) {
        Ok(n) => Ok(n),
        Err(e) => Err(ParseError::single(t.position(i), item_of_number_error(e))),
    }
}

/// Sets in `l` what the option at `i` says; `None` where the token `i` is
/// no option of `listen`.
fn option_at(t: &TokenList, i: usize, l: Listen) -> (r: Result<
    Result<Listen, ParseError>,
    Listen,
>)
    ensures
        match listen_option(t@, i as int, l@) {
            Some(Ok(v)) => r matches Ok(Ok(x)) && x@ == v && i < t.tokens.len(),
            Some(Err(e)) => r matches Ok(Err(x)) && x@ == e,
            None => r matches Err(x) && x@ == l@,
        },
{
    let mut l = l;
    if t.is_word(i, "default_server") {
        l.default_server = true;
        return Ok(Ok(l));
    }
    if t.is_word(i, "ssl") {
        l.ssl = true;
        return Ok(Ok(l));
    }
    if t.is_word(i, "http2") {
        l.ext = Some(HttpExt::Http2);
        return Ok(Ok(l));
    }
    if t.is_word(i, "spdy") {
        l.ext = Some(HttpExt::Spdy);
        return Ok(Ok(l));
    }
    if t.is_word(i, "proxy_protocol") {
        l.proxy_protocol = true;
        return Ok(Ok(l));
    }
    if let Some(x) = prefix("setfib=").parse(t, i) {
        return match number_option(t, i, &x, -2147483648, 2147483647) {
            Ok(n) => {
                l.setfib = Some(n as i32);
                Ok(Ok(l))
            },
            Err(e) => Ok(Err(e)),
        };
    }
    if let Some(x) = prefix("fastopen=").parse(t, i) {
        return match number_option(t, i, &x, 0, 4294967295) {
            Ok(n) => {
                l.fastopen = Some(n as u32);
                Ok(Ok(l))
            },
            Err(e) => Ok(Err(e)),
        };
    }
    if let Some(x) = prefix("backlog=").parse(t, i) {
        return match number_option(t, i, &x, -2147483648, 2147483647) {
            Ok(n) => {
                l.backlog = Some(n as i32);
                Ok(Ok(l))
            },
            Err(e) => Ok(Err(e)),
        };
    }
    if let Some(x) = prefix("rcvbuf=").parse(t, i) {
        return match number_option(t, i, &x, 0, 18446744073709551615) {
            Ok(n) => {
                l.rcvbuf = Some(n as u64);
                Ok(Ok(l))
            },
            Err(e) => Ok(Err(e)),
        };
    }
    if let Some(x) = prefix("sndbuf=").parse(t, i) {
        return match number_option(t, i, &x, 0, 18446744073709551615) {
            Ok(n) => {
                l.sndbuf = Some(n as u64);
                Ok(Ok(l))
            },
            Err(e) => Ok(Err(e)),
        };
    }
    if t.is_word(i, "deferred") {
        l.deferred = true;
        return Ok(Ok(l));
    }
    if t.is_word(i, "bind") {
        l.bind = true;
        return Ok(Ok(l));
    }
    if let Some(x) = prefix("ipv6only=").parse(t, i) {
        if same_text(&x, "on") {
            l.ipv6only = Some(true);
            return Ok(Ok(l));
        } else if same_text(&x, "off") {
            l.ipv6only = Some(false);
            return Ok(Ok(l));
        } else {
            return Ok(Err(complain(t.position(i), "only on/off supported")));
        }
    }
    if t.is_word(i, "reuseport") {
        l.reuseport = true;
        return Ok(Ok(l));
    }
    Err(l)
}

/// Reads `listen address [option ...];`.
fn listen(t: &TokenList, kw: usize) -> (r: Result<(Item, usize), ParseError>)
    requires
        kw < t.tokens.len(),
    ensures
        family_agrees(t, kw, Some(r), Some(listen_spec(t@, kw as int))),
{
    if !t.is_string(kw + 1) {
        return Err(unexpected(t, kw + 1, &one_name("String")));
    }
    let text = chars_of(t.text(kw + 1));
    let address = match parse_address(&text) {
        Ok(a) => a,
        Err(e) => {
            return Err(ParseError::single(t.position(kw + 1), e));
        },
    };
    let mut l = Listen::new(address);
    let mut i: usize = kw + 2;
    loop
        invariant
            kw + 2 <= i <= t.tokens.len(),
            listen_spec(t@, kw as int) == listen_finish(t@, listen_options(t@, i as int, l@)),
        ensures
            kw + 2 <= i <= t.tokens.len(),
            listen_spec(t@, kw as int) == listen_finish(
                t@,
                Ok::<_, ErrorView>((l@, i as int)),
            ),
        decreases t.tokens.len() - i,
    {
        match option_at(t, i, l) {
            Ok(Ok(next)) => {
                l = next;
                i += 1;
            },
            Ok(Err(e)) => {
                return Err(e);
            },
            Err(same) => {
                l = same;
                break ;
            },
        }
    }
    match semi_at(t, i, listen_names()) {
        Ok(j) => Ok((Item::Listen(l), j)),
        Err(e) => Err(e),
    }
}

/// Reads `keepalive_timeout time [time];`.
fn keepalive_timeout(t: &TokenList, kw: usize) -> (r: Result<(Item, usize), ParseError>)
    requires
        kw < t.tokens.len(),
    ensures
        family_agrees(t, kw, Some(r), Some(keepalive_timeout_spec(t@, kw as int))),
{
    let (first, _) = match value_at(t, kw + 1, &one_name("String")) {
        Ok(p) => p,
        Err(e) => {
            return Err(e);
        },
    };
    if t.is_string(kw + 2) {
        let (second, _) = match value_at(t, kw + 2, &no_names()) {
            Ok(p) => p,
            Err(e) => {
                return Err(e);
            },
        };
        match semi_at(t, kw + 3, no_names()) {
            Ok(j) => Ok((Item::KeepaliveTimeout(first, Some(second)), j)),
            Err(e) => Err(e),
        }
    } else {
        match semi_at(t, kw + 2, one_name("String")) {
            Ok(j) => Ok((Item::KeepaliveTimeout(first, None), j)),
            Err(e) => Err(e),
        }
    }
}

/// Reads `error_log file [level];`.
fn error_log(t: &TokenList, kw: usize) -> (r: Result<(Item, usize), ParseError>)
    requires
        kw < t.tokens.len(),
    ensures
        family_agrees(t, kw, Some(r), Some(error_log_spec(t@, kw as int))),
{
    let (file, _) = match value_at(t, kw + 1, &one_name("String")) {
        Ok(p) => p,
        Err(e) => {
            return Err(e);
        },
    };
    if t.is_string(kw + 2) {
        match index_of(&ErrorLevel::words(), t.text(kw + 2)) {
            None => Err(complain(t.position(kw + 2), "invalid log level")),
            Some(k) => match semi_at(t, kw + 3, no_names()) {
                Ok(j) => Ok((Item::ErrorLog { file, level: Some(ErrorLevel::from_index(k)) }, j)),
                Err(e) => Err(e),
            },
        }
    } else {
        match semi_at(t, kw + 2, one_name("String")) {
            Ok(j) => Ok((Item::ErrorLog { file, level: None }, j)),
            Err(e) => Err(e),
        }
    }
}

/// Reads a directive of the core module whose name stands at `kw`, if it has no block.
pub fn directives(t: &TokenList, kw: usize) -> (r: Option<Result<(Item, usize), ParseError>>)
    requires
        kw < t.tokens.len(),
    ensures
        family_agrees(t, kw, r, directives_spec(t@, kw as int)),
{
    let name = t.text(kw);
    if str_eq(name, "etag") {
        Some(
            match toggle_at(t, kw + 1) {
                Ok((on, j)) => Ok((Item::Etag(on), j)),
                Err(e) => Err(e),
            },
        )
    } else if str_eq(name, "recursive_error_pages") {
        Some(
            match toggle_at(t, kw + 1) {
                Ok((on, j)) => Ok((Item::RecursiveErrorPages(on), j)),
                Err(e) => Err(e),
            },
        )
    } else if str_eq(name, "chunked_transfer_encoding") {
        Some(
            match toggle_at(t, kw + 1) {
                Ok((on, j)) => Ok((Item::ChunkedTransferEncoding(on), j)),
                Err(e) => Err(e),
            },
        )
    } else if str_eq(name, "root") {
        Some(
            match single_at(t, kw + 1) {
                Ok((v, j)) => Ok((Item::Root(v), j)),
                Err(e) => Err(e),
            },
        )
    } else if str_eq(name, "alias") {
        Some(
            match single_at(t, kw + 1) {
                Ok((v, j)) => Ok((Item::Alias(v), j)),
                Err(e) => Err(e),
            },
        )
    } else if str_eq(name, "default_type") {
        Some(
            match single_at(t, kw + 1) {
                Ok((v, j)) => Ok((Item::DefaultType(v), j)),
                Err(e) => Err(e),
            },
        )
    } else if str_eq(name, "server_tokens") {
        Some(
            match single_at(t, kw + 1) {
                Ok((v, j)) => Ok((Item::ServerTokens(v), j)),
                Err(e) => Err(e),
            },
        )
    } else if str_eq(name, "internal") {
        Some(
            match semi_at(t, kw + 1, no_names()) {
                Ok(j) => Ok((Item::Internal, j)),
                Err(e) => Err(e),
            },
        )
    } else if str_eq(name, "error_page") {
        Some(error_page(t, kw))
    } else if str_eq(name, "listen") {
        Some(listen(t, kw))
    } else if str_eq(name, "keepalive_timeout") {
        Some(keepalive_timeout(t, kw))
    } else if str_eq(name, "error_log") {
        Some(error_log(t, kw))
    } else {
        None
    }
}

} // verus!
