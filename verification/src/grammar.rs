//! The grammar of a configuration: directives, blocks, and the whole text.

use vstd::prelude::*;
use vstd::string::StringExecFns;
use crate::ast::{
    directives_view, lemma_directives_view_push, lemma_patterns_view_push, lemma_seq_view_push,
    patterns_view, seq_view, BlockView, Directive, DirectiveView, Http, If, IfView, Item,
    ItemView, LimitExcept, LimitExceptView, Location, LocationPattern, LocationPatternView,
    LocationView, Main, MainView, MapBlock, MapBlockView, MapPattern, MapPatternView, Server,
    ServerName, ServerNameView, TryFiles, TryFilesLastOption, TryFilesLastOptionView,
    TryFilesView, WorkerProcesses,
};
use crate::error::{ErrorItem, ErrorItemView, ErrorView, ParseError};
use crate::helpers::{
    agree, and_name, complain, complaint, error_at, family_agrees, item_of_number_error,
    lemma_run_end, lemma_values_end, names_view, no_names, number_error, one_name, run_end, semi_at,
    semi_spec, single_at, single_spec, strings_from, texts_spec, toggle_at, toggle_spec, two_names,
    unexpected, unexpected_at, value_at, value_spec, values_from, values_spec, Parsed,
};
use crate::position::Span;
use crate::proxy::{literal_of, sole_literal};
use crate::rewrite::{if_condition, if_condition_spec, variable_name, variable_spec};
use crate::text::{
    chars_of, decimal, ends_with, is_prefix, is_suffix, number_spec, parse_number, push_decimal,
    slice_of, starts_with, str_eq, string_of, tail_string,
};
use crate::tokenizer::{lex, tokenize, Kind, LexError, Lexed, TokenList};
use crate::value::{Value, ValueView};

verus! {

/// A response code: one that redirects, or any other.
#[derive(Debug, Clone, Copy, PartialEq, Eq, Structural)]
pub enum Code {
    Redirect(u32),
    Normal(u32),
}

/// Whether `n` is a code that redirects to another address.
pub open spec fn is_redirect(n: int) -> bool {
    n == 301 || n == 302 || n == 303 || n == 307 || n == 308
}

/// The response code that `s` is the decimal form of: a number from 200
/// to 599.
pub open spec fn code_spec(s: Seq<char>) -> Result<Code, ErrorItemView> {
    match number_spec(s, 0, u32::MAX as int) {
        Err(e) => Err(number_error(e)),
        Ok(n) => if is_redirect(n) {
            Ok(Code::Redirect(n as u32))
        } else if 200 <= n <= 599 {
            Ok(Code::Normal(n as u32))
        } else {
            Err(ErrorItemView::Unexpected("invalid response code "@ + decimal(n as nat)))
        },
    }
}

impl Code {
    /// The number of the code.
    pub open spec fn number(self) -> u32 {
        match self {
            Code::Redirect(code) => code,
            Code::Normal(code) => code,
        }
    }

    /// Reads a response code.
    pub fn parse(code_str: &str) -> (r: Result<Code, ErrorItem>)
        ensures
            match code_spec(code_str@) {
                Ok(c) => r == Ok::<_, ErrorItem>(c),
                Err(e) => r matches Err(x) && x@ == e,
            },
    {
        let s = chars_of(code_str);
        Code::parse_chars(&s)
    }

    /// Reads a response code from its characters.
    pub fn parse_chars(s: &Vec<char>) -> (r: Result<Code, ErrorItem>)
        ensures
            match code_spec(s@) {
                Ok(c) => r == Ok::<_, ErrorItem>(c),
                Err(e) => r matches Err(x) && x@ == e,
            },
    {
        match parse_number(s, 0, 4294967295) {
            Err(e) => Err(item_of_number_error(e)),
            Ok(n) => {
                let code = n as u32;
                if code == 301 || code == 302 || code == 303 || code == 307 || code == 308 {
                    Ok(Code::Redirect(code))
                } else if 200 <= code && code <= 599 {
                    Ok(Code::Normal(code))
                } else {
                    let mut text = String::from_str("invalid response code ");
                    push_decimal(&mut text, code as u64);
                    Err(ErrorItem::Unexpected(text))
                }
            },
        }
    }

    /// The number of the code.
    pub fn as_code(&self) -> (r: u32)
        ensures
            r == self.number(),
    {
        match *self {
            Code::Redirect(code) => code,
            Code::Normal(code) => code,
        }
    }
}

/// `worker_processes auto|number;`
pub open spec fn worker_processes_spec(t: Lexed, kw: int) -> Parsed<ItemView> {
    if t.is_word(kw + 1, "auto"@) {
        match semi_spec(t, kw + 2, Seq::empty()) {
            Ok(j) => Ok((ItemView::WorkerProcesses(WorkerProcesses::Auto), j)),
            Err(e) => Err(e),
        }
    } else if t.is_string(kw + 1) {
        match number_spec(t.text(kw + 1), 0, u32::MAX as int) {
            Err(e) => Err(error_at(t.position(kw + 1), number_error(e))),
            Ok(n) => match semi_spec(t, kw + 2, Seq::empty()) {
                Ok(j) => Ok((ItemView::WorkerProcesses(WorkerProcesses::Exact(n as u32)), j)),
                Err(e) => Err(e),
            },
        }
    } else {
        Err(unexpected_at(t, kw + 1, seq!["auto"@, "String"@]))
    }
}

/// The name of a server that `s` stands for: a regular expression behind
/// `~`, a name under `*.`, a name before `.*`, a name under `.`, or an
/// exact name.
pub open spec fn server_name_of(s: Seq<char>) -> ServerNameView {
    if is_prefix("~"@, s) {
        ServerNameView::Regex(s.skip(1))
    } else if is_prefix("*."@, s) {
        ServerNameView::StarSuffix(s.skip(2))
    } else if is_suffix(".*"@, s) {
        ServerNameView::StarPrefix(s.take(s.len() - 2))
    } else if is_prefix("."@, s) {
        ServerNameView::Suffix(s.skip(1))
    } else {
        ServerNameView::Exact(s)
    }
}

/// The names of servers that the tokens from `i` up to `j` stand for.
pub open spec fn server_names(t: Lexed, i: int, j: int) -> Seq<ServerNameView> {
    Seq::new((j - i) as nat, |k: int| server_name_of(t.text(i + k)))
}

/// `server_name` with one name or more.
pub open spec fn server_name_spec(t: Lexed, kw: int) -> Parsed<ItemView> {
    if !t.is_string(kw + 1) {
        Err(unexpected_at(t, kw + 1, seq!["String"@]))
    } else {
        let end = run_end(t, kw + 1);
        match semi_spec(t, end, seq!["String"@]) {
            Ok(j) => Ok((ItemView::ServerName(server_names(t, kw + 1, end)), j)),
            Err(e) => Err(e),
        }
    }
}

/// What the last argument of `try_files` says: a code behind `=`, a named
/// location behind `@`, or an address.
pub open spec fn last_option_of(last: ValueView) -> Result<
    TryFilesLastOptionView,
    ErrorItemView,
> {
    match sole_literal(last) {
        Some(x) if is_prefix("="@, x) => match code_spec(x.skip(1)) {
            Ok(c) => Ok(TryFilesLastOptionView::Code(c.number())),
            Err(e) => Err(e),
        },
        Some(x) if is_prefix("@"@, x) => Ok(TryFilesLastOptionView::NamedLocation(x.skip(1))),
        _ => Ok(TryFilesLastOptionView::Uri(last)),
    }
}

/// `try_files` with one argument or more.
pub open spec fn try_files_spec(t: Lexed, kw: int) -> Parsed<ItemView> {
    if !t.is_string(kw + 1) {
        Err(unexpected_at(t, kw + 1, seq!["String"@]))
    } else {
        match values_spec(t, kw + 1, Seq::empty()) {
            Err(e) => Err(e),
            Ok((list, i)) => match semi_spec(t, i, seq!["String"@]) {
                Err(e) => Err(e),
                Ok(j) => match last_option_of(list.last()) {
                    Err(e) => Err(error_at(t.position(kw), e)),
                    Ok(last_option) => Ok(
                        (
                            ItemView::TryFiles(
                                TryFilesView { options: list.drop_last(), last_option },
                            ),
                            j,
                        ),
                    ),
                },
            },
        }
    }
}

/// `index` with any number of files.
pub open spec fn index_spec(t: Lexed, kw: int) -> Parsed<ItemView> {
    match values_spec(t, kw + 1, Seq::empty()) {
        Err(e) => Err(e),
        Ok((list, i)) => match semi_spec(t, i, seq!["String"@]) {
            Ok(j) => Ok((ItemView::Index(list), j)),
            Err(e) => Err(e),
        },
    }
}

/// The pattern of a name of a host that `s` stands for.
pub open spec fn host_pattern(s: Seq<char>) -> MapPatternView {
    if is_prefix("*."@, s) {
        MapPatternView::StarSuffix(s.skip(2))
    } else if is_suffix(".*"@, s) {
        MapPatternView::StarPrefix(s.take(s.len() - 2))
    } else if is_prefix("."@, s) {
        MapPatternView::Suffix(s.skip(1))
    } else {
        MapPatternView::Exact(s)
    }
}

/// The pattern that the text `x` stands for in a `map` block: a regular
/// expression behind `~`, else an exact text, from which a backslash at
/// the start is taken off; with `hostnames` the forms of names of hosts
/// are told apart.
pub open spec fn pattern_of(x: Seq<char>, hostnames: bool) -> MapPatternView {
    if is_prefix("~"@, x) {
        MapPatternView::Regex(x.skip(1))
    } else {
        let s = if is_prefix("\\"@, x) {
            x.skip(1)
        } else {
            x
        };
        if hostnames {
            host_pattern(s)
        } else {
            MapPatternView::Exact(s)
        }
    }
}

/// The words with which an entry of a `map` block may start, and the end
/// of the block.
pub open spec fn map_words() -> Seq<Seq<char>> {
    seq!["hostnames"@, "volatile"@, "default"@, "include"@, "String"@, "BlockEnd"@]
}

/// The block `m` with the value `v` for what the entry that starts at `i`
/// names.
pub open spec fn with_entry(t: Lexed, i: int, m: MapBlockView, v: ValueView) -> MapBlockView {
    if t.is_word(i, "default"@) {
        MapBlockView { default: Some(v), ..m }
    } else {
        MapBlockView { patterns: m.patterns.push((pattern_of(t.text(i), m.hostnames), v)), ..m }
    }
}

/// The block `m` with what the entry that starts at `i` sets, and the
/// index behind the entry; `None` where no entry starts at `i`.
pub open spec fn map_entry(t: Lexed, i: int, m: MapBlockView) -> Option<Parsed<MapBlockView>> {
    if t.is_word(i, "hostnames"@) {
        Some(
            match semi_spec(t, i + 1, Seq::empty()) {
                Ok(j) => Ok((MapBlockView { hostnames: true, ..m }, j)),
                Err(e) => Err(e),
            },
        )
    } else if t.is_word(i, "volatile"@) {
        Some(
            match semi_spec(t, i + 1, Seq::empty()) {
                Ok(j) => Ok((MapBlockView { volatile: true, ..m }, j)),
                Err(e) => Err(e),
            },
        )
    } else if t.is_word(i, "include"@) {
        Some(
            if t.is_string(i + 1) {
                match semi_spec(t, i + 2, Seq::empty()) {
                    Ok(j) => Ok(
                        (MapBlockView { includes: m.includes.push(t.text(i + 1)), ..m }, j),
                    ),
                    Err(e) => Err(e),
                }
            } else {
                Err(unexpected_at(t, i + 1, seq!["String"@]))
            },
        )
    } else if t.is_string(i) {
        Some(
            match value_spec(t, i + 1, seq!["String"@]) {
                Err(e) => Err(e),
                Ok((v, _)) => match semi_spec(t, i + 2, Seq::empty()) {
                    Ok(j) => Ok((with_entry(t, i, m, v), j)),
                    Err(e) => Err(e),
                },
            },
        )
    } else {
        None
    }
}

/// The block `m` with what the entries from `i` on set, and the index of
/// the first token at which no entry starts.
pub open spec fn map_entries(t: Lexed, i: int, m: MapBlockView) -> Parsed<MapBlockView>
    decreases t.tokens.len() - i,
{
    match map_entry(t, i, m) {
        None => Ok((m, i)),
        Some(Err(e)) => Err(e),
        Some(Ok((next, j))) => if i < j <= t.tokens.len() {
            map_entries(t, j, next)
        } else {
            Ok((m, i))
        },
    }
}

/// The directive for the entries that were read, once the end of the
/// block is found.
pub open spec fn map_finish(t: Lexed, read: Parsed<MapBlockView>) -> Parsed<ItemView> {
    match read {
        Err(e) => Err(e),
        Ok((m, i)) => if t.is_kind(i, Kind::BlockEnd) {
            Ok((ItemView::MapBlock(m), i + 1))
        } else {
            Err(unexpected_at(t, i, map_words()))
        },
    }
}

/// `map expression $variable { entry ... }`
pub open spec fn map_spec(t: Lexed, kw: int) -> Parsed<ItemView> {
    match value_spec(t, kw + 1, seq!["String"@]) {
        Err(e) => Err(e),
        Ok((expression, _)) => if !t.is_string(kw + 2) {
            Err(unexpected_at(t, kw + 2, seq!["String"@]))
        } else {
            match variable_spec(t.text(kw + 2)) {
                None => Err(complaint(t.position(kw + 2), "invalid variable"@)),
                Some(variable) => if !t.is_kind(kw + 3, Kind::BlockStart) {
                    Err(unexpected_at(t, kw + 3, seq!["BlockStart"@]))
                } else {
                    map_finish(
                        t,
                        map_entries(
                            t,
                            kw + 4,
                            MapBlockView {
                                variable,
                                expression,
                                default: None,
                                hostnames: false,
                                volatile: false,
                                includes: Seq::empty(),
                                patterns: Seq::empty(),
                            },
                        ),
                    )
                },
            }
        },
    }
}

/// What the grammar makes of a directive of the main module or of a directive with one value that starts at `kw`.
pub open spec fn main_spec(t: Lexed, kw: int) -> Option<Parsed<ItemView>> {
    let name = t.text(kw);
    if name == "daemon"@ {
        Some(
            match toggle_spec(t, kw + 1) {
                Ok((on, j)) => Ok((ItemView::Daemon(on), j)),
                Err(e) => Err(e),
            },
        )
    } else if name == "master_process"@ {
        Some(
            match toggle_spec(t, kw + 1) {
                Ok((on, j)) => Ok((ItemView::MasterProcess(on), j)),
                Err(e) => Err(e),
            },
        )
    } else if name == "include"@ {
        Some(
            match single_spec(t, kw + 1) {
                Ok((v, j)) => Ok((ItemView::Include(v), j)),
                Err(e) => Err(e),
            },
        )
    } else if name == "ssl_certificate"@ {
        Some(
            match single_spec(t, kw + 1) {
                Ok((v, j)) => Ok((ItemView::SslCertificate(v), j)),
                Err(e) => Err(e),
            },
        )
    } else if name == "ssl_certificate_key"@ {
        Some(
            match single_spec(t, kw + 1) {
                Ok((v, j)) => Ok((ItemView::SslCertificateKey(v), j)),
                Err(e) => Err(e),
            },
        )
    } else if name == "client_max_body_size"@ {
        Some(
            match single_spec(t, kw + 1) {
                Ok((v, j)) => Ok((ItemView::ClientMaxBodySize(v), j)),
                Err(e) => Err(e),
            },
        )
    } else if name == "empty_gif"@ {
        Some(
            match semi_spec(t, kw + 1, Seq::empty()) {
                Ok(j) => Ok((ItemView::EmptyGif, j)),
                Err(e) => Err(e),
            },
        )
    } else if name == "worker_processes"@ {
        Some(worker_processes_spec(t, kw))
    } else if name == "try_files"@ {
        Some(try_files_spec(t, kw))
    } else if name == "server_name"@ {
        Some(server_name_spec(t, kw))
    } else if name == "map"@ {
        Some(map_spec(t, kw))
    } else if name == "index"@ {
        Some(index_spec(t, kw))
    } else {
        None
    }
}

/// What the grammar makes of a directive of OpenResty that starts at `kw`.
pub open spec fn openresty_spec(t: Lexed, kw: int) -> Option<Parsed<ItemView>> {
    let name = t.text(kw);
    if name == "rewrite_by_lua_file"@ {
        Some(
            match single_spec(t, kw + 1) {
                Ok((v, j)) => Ok((ItemView::RewriteByLuaFile(v), j)),
                Err(e) => Err(e),
            },
        )
    } else if name == "balancer_by_lua_file"@ {
        Some(
            match single_spec(t, kw + 1) {
                Ok((v, j)) => Ok((ItemView::BalancerByLuaFile(v), j)),
                Err(e) => Err(e),
            },
        )
    } else if name == "access_by_lua_file"@ {
        Some(
            match single_spec(t, kw + 1) {
                Ok((v, j)) => Ok((ItemView::AccessByLuaFile(v), j)),
                Err(e) => Err(e),
            },
        )
    } else if name == "header_filter_by_lua_file"@ {
        Some(
            match single_spec(t, kw + 1) {
                Ok((v, j)) => Ok((ItemView::HeaderFilterByLuaFile(v), j)),
                Err(e) => Err(e),
            },
        )
    } else if name == "content_by_lua_file"@ {
        Some(
            match single_spec(t, kw + 1) {
                Ok((v, j)) => Ok((ItemView::ContentByLuaFile(v), j)),
                Err(e) => Err(e),
            },
        )
    } else if name == "body_filter_by_lua_file"@ {
        Some(
            match single_spec(t, kw + 1) {
                Ok((v, j)) => Ok((ItemView::BodyFilterByLuaFile(v), j)),
                Err(e) => Err(e),
            },
        )
    } else if name == "log_by_lua_file"@ {
        Some(
            match single_spec(t, kw + 1) {
                Ok((v, j)) => Ok((ItemView::LogByLuaFile(v), j)),
                Err(e) => Err(e),
            },
        )
    } else if name == "lua_need_request_body"@ {
        Some(
            match single_spec(t, kw + 1) {
                Ok((v, j)) => Ok((ItemView::LuaNeedRequestBody(v), j)),
                Err(e) => Err(e),
            },
        )
    } else if name == "ssl_certificate_by_lua_file"@ {
        Some(
            match single_spec(t, kw + 1) {
                Ok((v, j)) => Ok((ItemView::SslCertificateByLuaFile(v), j)),
                Err(e) => Err(e),
            },
        )
    } else if name == "ssl_session_fetch_by_lua_file"@ {
        Some(
            match single_spec(t, kw + 1) {
                Ok((v, j)) => Ok((ItemView::SslSessionFetchByLuaFile(v), j)),
                Err(e) => Err(e),
            },
        )
    } else if name == "ssl_session_store_by_lua_file"@ {
        Some(
            match single_spec(t, kw + 1) {
                Ok((v, j)) => Ok((ItemView::SslSessionStoreByLuaFile(v), j)),
                Err(e) => Err(e),
            },
        )
    } else {
        None
    }
}

/// The pattern of the `location` that starts at `kw`, and the index of the
/// token behind the pattern.
pub open spec fn location_pattern_spec(t: Lexed, kw: int) -> Parsed<LocationPatternView> {
    if t.is_word(kw + 1, "="@) || t.is_word(kw + 1, "^~"@) || t.is_word(kw + 1, "~"@)
        || t.is_word(kw + 1, "~*"@) {
        if t.is_string(kw + 2) {
            let s = t.text(kw + 2);
            Ok(
                (
                    if t.is_word(kw + 1, "="@) {
                        LocationPatternView::Exact(s)
                    } else if t.is_word(kw + 1, "^~"@) {
                        LocationPatternView::FinalPrefix(s)
                    } else if t.is_word(kw + 1, "~"@) {
                        LocationPatternView::Regex(s)
                    } else {
                        LocationPatternView::RegexInsensitive(s)
                    },
                    kw + 3,
                ),
            )
        } else {
            Err(unexpected_at(t, kw + 2, seq!["String"@]))
        }
    } else if t.is_string(kw + 1) {
        let s = t.text(kw + 1);
        Ok(
            (
                if is_prefix("@"@, s) {
                    LocationPatternView::Named(s.skip(1))
                } else {
                    LocationPatternView::Prefix(s)
                },
                kw + 2,
            ),
        )
    } else {
        Err(unexpected_at(t, kw + 1, seq!["="@, "^~"@, "~"@, "~*"@, "String"@]))
    }
}

/// What the grammar makes of a directive without a block that starts at
/// `kw`: each group of directives is asked in turn.
#[verifier::opaque]
pub open spec fn leaf_spec(t: Lexed, kw: int) -> Option<Parsed<ItemView>> {
    if main_spec(t, kw) is Some {
        main_spec(t, kw)
    } else if crate::rewrite::directives_spec(t, kw) is Some {
        crate::rewrite::directives_spec(t, kw)
    } else if crate::headers::directives_spec(t, kw) is Some {
        crate::headers::directives_spec(t, kw)
    } else if crate::proxy::directives_spec(t, kw) is Some {
        crate::proxy::directives_spec(t, kw)
    } else if crate::gzip::directives_spec(t, kw) is Some {
        crate::gzip::directives_spec(t, kw)
    } else if crate::http_core::directives_spec(t, kw) is Some {
        crate::http_core::directives_spec(t, kw)
    } else if crate::access::directives_spec(t, kw) is Some {
        crate::access::directives_spec(t, kw)
    } else if crate::log::directives_spec(t, kw) is Some {
        crate::log::directives_spec(t, kw)
    } else if crate::real_ip::directives_spec(t, kw) is Some {
        crate::real_ip::directives_spec(t, kw)
    } else {
        openresty_spec(t, kw)
    }
}

/// The names of all directives, in the order in which the grammar tries
/// them.
pub open spec fn directive_names() -> Seq<Seq<char>> {
    seq![
        "daemon"@,
        "master_process"@,
        "worker_processes"@,
        "http"@,
        "server"@,
        "rewrite"@,
        "set"@,
        "return"@,
        "if"@,
        "try_files"@,
        "include"@,
        "ssl_certificate"@,
        "ssl_certificate_key"@,
        "location"@,
        "add_header"@,
        "expires"@,
        "server_name"@,
        "map"@,
        "client_max_body_size"@,
        "proxy_pass"@,
        "proxy_set_header"@,
        "proxy_method"@,
        "proxy_cache"@,
        "proxy_cache_key"@,
        "proxy_cache_valid"@,
        "proxy_read_timeout"@,
        "proxy_connect_timeout"@,
        "proxy_hide_header"@,
        "proxy_pass_header"@,
        "proxy_pass_request_headers"@,
        "proxy_pass_request_body"@,
        "proxy_intercept_errors"@,
        "proxy_buffering"@,
        "proxy_ignore_headers"@,
        "proxy_http_version"@,
        "proxy_next_upstream"@,
        "proxy_next_upstream_tries"@,
        "proxy_next_upstream_timeout"@,
        "gzip"@,
        "gzip_static"@,
        "gzip_proxied"@,
        "error_page"@,
        "listen"@,
        "limit_except"@,
        "root"@,
        "alias"@,
        "default_type"@,
        "internal"@,
        "etag"@,
        "server_tokens"@,
        "recursive_error_pages"@,
        "chunked_transfer_encoding"@,
        "keepalive_timeout"@,
        "error_log"@,
        "allow"@,
        "deny"@,
        "access_log"@,
        "real_ip_header"@,
        "real_ip_recursive"@,
        "set_real_ip_from"@,
        "rewrite_by_lua_file"@,
        "balancer_by_lua_file"@,
        "access_by_lua_file"@,
        "header_filter_by_lua_file"@,
        "content_by_lua_file"@,
        "body_filter_by_lua_file"@,
        "log_by_lua_file"@,
        "lua_need_request_body"@,
        "ssl_certificate_by_lua_file"@,
        "ssl_session_fetch_by_lua_file"@,
        "ssl_session_store_by_lua_file"@,
        "empty_gif"@,
        "index"@,
    ]
}

/// What can stand where a directive may start: the names of all
/// directives, and the end of the block or of the text where the list of
/// directives may end.
pub open spec fn expected_here(in_block: bool, first: bool) -> Seq<Seq<char>> {
    if in_block {
        directive_names().push("BlockEnd"@)
    } else if first {
        directive_names()
    } else {
        directive_names().push("end of input"@)
    }
}

/// The error for a directive that could not move forward. It does not
/// arise: every directive takes at least its name.
pub open spec fn stuck(t: Lexed, i: int) -> ErrorView {
    unexpected_at(t, i, Seq::empty())
}

/// What the grammar makes of the directive that starts at `kw`: the item
/// and the index behind the directive, or an error; `None` where the
/// token `kw` is not the name of a directive.
pub open spec fn item_spec(t: Lexed, kw: int) -> Option<Parsed<ItemView>>
    decreases t.tokens.len() - kw, 1int,
{
    let name = t.text(kw);
    if !t.is_string(kw) {
        None
    } else if name == "http"@ {
        Some(
            match block_spec(t, kw + 1, Seq::empty()) {
                Ok((b, j)) => Ok((ItemView::Http(b), j)),
                Err(e) => Err(e),
            },
        )
    } else if name == "server"@ {
        Some(
            match block_spec(t, kw + 1, Seq::empty()) {
                Ok((b, j)) => Ok((ItemView::Server(b), j)),
                Err(e) => Err(e),
            },
        )
    } else if name == "location"@ {
        Some(
            match location_pattern_spec(t, kw) {
                Err(e) => Err(e),
                Ok((pattern, i)) => if kw < i <= t.tokens.len() {
                    match block_spec(t, i, Seq::empty()) {
                        Ok((b, j)) => Ok(
                            (
                                ItemView::Location(
                                    LocationView {
                                        position: b.position,
                                        pattern,
                                        directives: b.directives,
                                    },
                                ),
                                j,
                            ),
                        ),
                        Err(e) => Err(e),
                    }
                } else {
                    Err(stuck(t, kw))
                },
            },
        )
    } else if name == "limit_except"@ {
        Some(
            if !t.is_string(kw + 1) {
                Err(unexpected_at(t, kw + 1, seq!["String"@]))
            } else {
                let i = run_end(t, kw + 1);
                if kw < i <= t.tokens.len() {
                    match block_spec(t, i, seq!["String"@]) {
                        Ok((b, j)) => Ok(
                            (
                                ItemView::LimitExcept(
                                    LimitExceptView {
                                        position: b.position,
                                        methods: texts_spec(t, kw + 1, i),
                                        directives: b.directives,
                                    },
                                ),
                                j,
                            ),
                        ),
                        Err(e) => Err(e),
                    }
                } else {
                    Err(stuck(t, kw))
                }
            },
        )
    } else if name == "if"@ {
        Some(
            match if_condition_spec(t, kw) {
                Err(e) => Err(e),
                Ok((condition, i)) => if kw < i <= t.tokens.len() {
                    match block_spec(t, i, seq!["String"@]) {
                        Ok((b, j)) => Ok(
                            (
                                ItemView::If(
                                    IfView {
                                        position: b.position,
                                        condition,
                                        directives: b.directives,
                                    },
                                ),
                                j,
                            ),
                        ),
                        Err(e) => Err(e),
                    }
                } else {
                    Err(stuck(t, kw))
                },
            },
        )
    } else {
        leaf_spec(t, kw)
    }
}

/// The block that starts at `i`: the positions of its opening brace and
/// of what follows its closing brace, its directives, and the index behind
/// its closing brace. `names` is what else could have stood at `i`.
pub open spec fn block_spec(t: Lexed, i: int, names: Seq<Seq<char>>) -> Parsed<BlockView>
    decreases t.tokens.len() - i, 0int,
{
    if !t.is_kind(i, Kind::BlockStart) {
        Err(unexpected_at(t, i, names.push("BlockStart"@)))
    } else {
        match directives_spec(t, i + 1, Seq::empty(), true, false) {
            Err(e) => Err(e),
            Ok((directives, j)) => Ok(
                (
                    BlockView {
                        position: Span(t.position(i), t.position(j + 1)),
                        directives,
                    },
                    j + 1,
                ),
            ),
        }
    }
}

/// The directives from `i` on, added to `acc`, and the index at which
/// they end: at the closing brace inside a block, and at the end of the
/// text outside. `first` says that no directive has been read yet where at
/// least one must stand.
pub open spec fn directives_spec(
    t: Lexed,
    i: int,
    acc: Seq<DirectiveView>,
    in_block: bool,
    first: bool,
) -> Parsed<Seq<DirectiveView>>
    decreases t.tokens.len() - i, 2int,
{
    match item_spec(t, i) {
        Some(Ok((item, j))) => if i < j <= t.tokens.len() {
            directives_spec(
                t,
                j,
                acc.push(DirectiveView { position: t.position(i), item }),
                in_block,
                false,
            )
        } else {
            Err(stuck(t, i))
        },
        Some(Err(e)) => Err(e),
        None => if in_block && t.is_kind(i, Kind::BlockEnd) {
            Ok((acc, i))
        } else if !in_block && !first && i >= t.tokens.len() && t.end == LexError::EndOfInput {
            Ok((acc, i))
        } else {
            Err(unexpected_at(t, i, expected_here(in_block, first)))
        },
    }
}

/// The directives that `text` holds, or the error that the first thing
/// that is wrong in `text` gives.
pub open spec fn parse_spec(text: Seq<char>) -> Result<Seq<DirectiveView>, ErrorView> {
    match directives_spec(lex(text), 0, Seq::empty(), false, true) {
        Ok((directives, _)) => Ok(directives),
        Err(e) => Err(e),
    }
}

/// Reads `worker_processes auto|number;`.
fn worker_processes(t: &TokenList, kw: usize) -> (r: Result<(Item, usize), ParseError>)
    requires
        kw < t.tokens.len(),
    ensures
        family_agrees(t, kw, Some(r), Some(worker_processes_spec(t@, kw as int))),
{
    if t.is_word(kw + 1, "auto") {
        match semi_at(t, kw + 2, no_names()) {
            Ok(j) => Ok((Item::WorkerProcesses(WorkerProcesses::Auto), j)),
            Err(e) => Err(e),
        }
    } else if t.is_string(kw + 1) {
        match parse_number(&chars_of(t.text(kw + 1)), 0, 4294967295) {
            Err(e) => Err(ParseError::single(t.position(kw + 1), item_of_number_error(e))),
            Ok(n) => match semi_at(t, kw + 2, no_names()) {
                Ok(j) => Ok((Item::WorkerProcesses(WorkerProcesses::Exact(n as u32)), j)),
                Err(e) => Err(e),
            },
        }
    } else {
        Err(unexpected(t, kw + 1, &two_names("auto", "String")))
    }
}

/// The name of a server that `s` stands for.
pub fn server_name_from(s: &Vec<char>) -> (r: ServerName)
    ensures
        r@ == server_name_of(s@),
{
    proof {
        reveal_strlit("~");
        reveal_strlit("*.");
        reveal_strlit(".*");
        reveal_strlit(".");
    }
    if starts_with(s, "~") {
        ServerName::Regex(tail_string(s, 1))
    } else if starts_with(s, "*.") {
        ServerName::StarSuffix(tail_string(s, 2))
    } else if ends_with(s, ".*") {
        let r = string_of(s, 0, s.len() - 2);
        assert(s@.subrange(0, s@.len() - 2) =~= s@.take(s@.len() - 2));
        ServerName::StarPrefix(r)
    } else if starts_with(s, ".") {
        ServerName::Suffix(tail_string(s, 1))
    } else {
        let r = string_of(s, 0, s.len());
        assert(s@.subrange(0, s@.len() as int) =~= s@);
        ServerName::Exact(r)
    }
}

/// Reads `server_name` with its names.
fn server_name(t: &TokenList, kw: usize) -> (r: Result<(Item, usize), ParseError>)
    requires
        kw < t.tokens.len(),
    ensures
        family_agrees(t, kw, Some(r), Some(server_name_spec(t@, kw as int))),
{
    if !t.is_string(kw + 1) {
        return Err(unexpected(t, kw + 1, &one_name("String")));
    }
    let mut names: Vec<ServerName> = Vec::new();
    let mut i: usize = kw + 1;
    while t.is_string(i)
        invariant
            kw + 1 <= i <= t.tokens.len(),
            run_end(t@, kw + 1) == run_end(t@, i as int),
            seq_view(names@) =~= server_names(t@, kw + 1, i as int),
        decreases t.tokens.len() - i,
    {
        let name = server_name_from(&chars_of(t.text(i)));
        proof {
            lemma_seq_view_push(names@, name);
        }
        names.push(name);
        i += 1;
    }
    match semi_at(t, i, one_name("String")) {
        Ok(j) => Ok((Item::ServerName(names), j)),
        Err(e) => Err(e),
    }
}

/// What the last argument of `try_files` says.
pub fn last_option_from(last: Value) -> (r: Result<TryFilesLastOption, ErrorItem>)
    ensures
        match last_option_of(last@) {
            Ok(v) => r matches Ok(x) && x@ == v,
            Err(e) => r matches Err(x) && x@ == e,
        },
{
    proof {
        reveal_strlit("=");
        reveal_strlit("@");
    }
    let text = match literal_of(&last) {
        Some(x) => Some(chars_of(x.as_str())),
        None => None,
    };
    match text {
        Some(x) => {
            if starts_with(&x, "=") {
                match Code::parse_chars(&crate::text::tail_of(&x, 1)) {
                    Ok(c) => Ok(TryFilesLastOption::Code(c.as_code())),
                    Err(e) => Err(e),
                }
            } else if starts_with(&x, "@") {
                Ok(TryFilesLastOption::NamedLocation(tail_string(&x, 1)))
            } else {
                Ok(TryFilesLastOption::Uri(last))
            }
        },
        None => Ok(TryFilesLastOption::Uri(last)),
    }
}

/// Reads `try_files` with its arguments.
fn try_files(t: &TokenList, kw: usize) -> (r: Result<(Item, usize), ParseError>)
    requires
        kw < t.tokens.len(),
    ensures
        family_agrees(t, kw, Some(r), Some(try_files_spec(t@, kw as int))),
{
    if !t.is_string(kw + 1) {
        return Err(unexpected(t, kw + 1, &one_name("String")));
    }
    proof {
        lemma_values_end(t@, kw + 1, Seq::empty());
        lemma_run_end(t@, kw + 1);
    }
    let (list, i) = match values_from(t, kw + 1) {
        Ok(p) => p,
        Err(e) => {
            return Err(e);
        },
    };
    let j = match semi_at(t, i, one_name("String")) {
        Ok(j) => j,
        Err(e) => {
            return Err(e);
        },
    };
    let mut options = list;
    let ghost all = options@;
    let last = options.pop().unwrap();
    proof {
        assert(seq_view(options@) =~= seq_view(all).drop_last());
        assert(last@ == seq_view(all).last());
    }
    match last_option_from(last) {
        Err(e) => Err(ParseError::single(t.position(kw), e)),
        Ok(last_option) => Ok((Item::TryFiles(TryFiles { options, last_option }), j)),
    }
}

/// Reads `index` with its files.
fn index(t: &TokenList, kw: usize) -> (r: Result<(Item, usize), ParseError>)
    requires
        kw < t.tokens.len(),
    ensures
        family_agrees(t, kw, Some(r), Some(index_spec(t@, kw as int))),
{
    let (list, i) = match values_from(t, kw + 1) {
        Ok(p) => p,
        Err(e) => {
            return Err(e);
        },
    };
    match semi_at(t, i, one_name("String")) {
        Ok(j) => Ok((Item::Index(list), j)),
        Err(e) => Err(e),
    }
}

/// The pattern of a name of a host that `s` stands for.
fn host_pattern_from(s: &Vec<char>) -> (r: MapPattern)
    ensures
        r@ == host_pattern(s@),
{
    proof {
        reveal_strlit("*.");
        reveal_strlit(".*");
        reveal_strlit(".");
    }
    if starts_with(s, "*.") {
        MapPattern::StarSuffix(tail_string(s, 2))
    } else if ends_with(s, ".*") {
        let r = string_of(s, 0, s.len() - 2);
        assert(s@.subrange(0, s@.len() - 2) =~= s@.take(s@.len() - 2));
        MapPattern::StarPrefix(r)
    } else if starts_with(s, ".") {
        MapPattern::Suffix(tail_string(s, 1))
    } else {
        let r = string_of(s, 0, s.len());
        assert(s@.subrange(0, s@.len() as int) =~= s@);
        MapPattern::Exact(r)
    }
}

/// The pattern that the text `x` stands for in a `map` block.
pub fn pattern_from(x: &Vec<char>, hostnames: bool) -> (r: MapPattern)
    ensures
        r@ == pattern_of(x@, hostnames),
{
    proof {
        reveal_strlit("~");
        reveal_strlit("\\");
    }
    if starts_with(x, "~") {
        MapPattern::Regex(tail_string(x, 1))
    } else {
        let s = if starts_with(x, "\\") {
            crate::text::tail_of(x, 1)
        } else {
            let r = slice_of(x, 0, x.len());
            assert(x@.subrange(0, x@.len() as int) =~= x@);
            r
        };
        if hostnames {
            host_pattern_from(&s)
        } else {
            let r = string_of(&s, 0, s.len());
            assert(s@.subrange(0, s@.len() as int) =~= s@);
            MapPattern::Exact(r)
        }
    }
}

/// The words with which an entry of a `map` block may start, and the end
/// of the block.
fn map_names() -> (r: Vec<&'static str>)
    ensures
        names_view(r@) == map_words(),
{
    let r = vec!["hostnames", "volatile", "default", "include", "String", "BlockEnd"];
    assert(names_view(r@) =~= map_words());
    r
}

/// Sets in `m` what the entry that starts at `i` says; gives `m` back
/// where no entry starts at `i`.
fn entry_at(t: &TokenList, i: usize, m: MapBlock) -> (r: Result<
    Result<(MapBlock, usize), ParseError>,
    MapBlock,
>)
    ensures
        match map_entry(t@, i as int, m@) {
            Some(Ok((v, j))) => r matches Ok(Ok((x, k))) && x@ == v && k == j && i < k
                <= t.tokens.len(),
            Some(Err(e)) => r matches Ok(Err(x)) && x@ == e,
            None => r matches Err(x) && x@ == m@,
        },
{
    let mut m = m;
    if t.is_word(i, "hostnames") {
        return Ok(
            match semi_at(t, i + 1, no_names()) {
                Ok(j) => {
                    m.hostnames = true;
                    Ok((m, j))
                },
                Err(e) => Err(e),
            },
        );
    }
    if t.is_word(i, "volatile") {
        return Ok(
            match semi_at(t, i + 1, no_names()) {
                Ok(j) => {
                    m.volatile = true;
                    Ok((m, j))
                },
                Err(e) => Err(e),
            },
        );
    }
    if t.is_word(i, "include") {
        if !t.is_string(i + 1) {
            return Ok(Err(unexpected(t, i + 1, &one_name("String"))));
        }
        return Ok(
            match semi_at(t, i + 2, no_names()) {
                Ok(j) => {
                    let path = String::from_str(t.text(i + 1));
                    proof {
                        lemma_seq_view_push(m.includes@, path);
                    }
                    m.includes.push(path);
                    Ok((m, j))
                },
                Err(e) => Err(e),
            },
        );
    }
    if !t.is_string(i) {
        return Err(m);
    }
    let (v, _) = match value_at(t, i + 1, &one_name("String")) {
        Ok(p) => p,
        Err(e) => {
            return Ok(Err(e));
        },
    };
    let j = match semi_at(t, i + 2, no_names()) {
        Ok(j) => j,
        Err(e) => {
            return Ok(Err(e));
        },
    };
    if t.is_word(i, "default") {
        m.default = Some(v);
    } else {
        let pattern = pattern_from(&chars_of(t.text(i)), m.hostnames);
        proof {
            lemma_patterns_view_push(m.patterns@, (pattern, v));
        }
        m.patterns.push((pattern, v));
    }
    Ok(Ok((m, j)))
}

/// Reads `map` with its block.
fn map(t: &TokenList, kw: usize) -> (r: Result<(Item, usize), ParseError>)
    requires
        kw < t.tokens.len(),
    ensures
        family_agrees(t, kw, Some(r), Some(map_spec(t@, kw as int))),
{
    let (expression, _) = match value_at(t, kw + 1, &one_name("String")) {
        Ok(p) => p,
        Err(e) => {
            return Err(e);
        },
    };
    if !t.is_string(kw + 2) {
        return Err(unexpected(t, kw + 2, &one_name("String")));
    }
    let variable = match variable_name(&chars_of(t.text(kw + 2))) {
        Some(v) => v,
        None => {
            return Err(complain(t.position(kw + 2), "invalid variable"));
        },
    };
    if !t.is_kind(kw + 3, Kind::BlockStart) {
        return Err(unexpected(t, kw + 3, &one_name("BlockStart")));
    }
    let mut m = MapBlock {
        variable,
        expression,
        default: None,
        hostnames: false,
        volatile: false,
        includes: Vec::new(),
        patterns: Vec::new(),
    };
    proof {
        assert(seq_view(m.includes@) =~= Seq::<Seq<char>>::empty());
        assert(patterns_view(m.patterns@) =~= Seq::<(MapPatternView, ValueView)>::empty());
    }
    let mut i: usize = kw + 4;
    loop
        invariant
            kw + 4 <= i <= t.tokens.len(),
            map_spec(t@, kw as int) == map_finish(t@, map_entries(t@, i as int, m@)),
        ensures
            kw + 4 <= i <= t.tokens.len(),
            map_spec(t@, kw as int) == map_finish(t@, Ok::<_, ErrorView>((m@, i as int))),
        decreases t.tokens.len() - i,
    {
        match entry_at(t, i, m) {
            Ok(Ok((next, j))) => {
                m = next;
                i = j;
            },
            Ok(Err(e)) => {
                return Err(e);
            },
            Err(same) => {
                m = same;
                break ;
            },
        }
    }
    if t.is_kind(i, Kind::BlockEnd) {
        Ok((Item::MapBlock(m), i + 1))
    } else {
        Err(unexpected(t, i, &map_names()))
    }
}

/// Reads a directive of the main module, or one with one value, whose name stands at `kw`.
pub fn main_directives(t: &TokenList, kw: usize) -> (r: Option<Result<(Item, usize), ParseError>>)
    requires
        kw < t.tokens.len(),
    ensures
        family_agrees(t, kw, r, main_spec(t@, kw as int)),
{
    let name = t.text(kw);
    if str_eq(name, "daemon") {
        Some(
            match toggle_at(t, kw + 1) {
                Ok((on, j)) => Ok((Item::Daemon(on), j)),
                Err(e) => Err(e),
            },
        )
    } else if str_eq(name, "master_process") {
        Some(
            match toggle_at(t, kw + 1) {
                Ok((on, j)) => Ok((Item::MasterProcess(on), j)),
                Err(e) => Err(e),
            },
        )
    } else if str_eq(name, "include") {
        Some(
            match single_at(t, kw + 1) {
                Ok((v, j)) => Ok((Item::Include(v), j)),
                Err(e) => Err(e),
            },
        )
    } else if str_eq(name, "ssl_certificate") {
        Some(
            match single_at(t, kw + 1) {
                Ok((v, j)) => Ok((Item::SslCertificate(v), j)),
                Err(e) => Err(e),
            },
        )
    } else if str_eq(name, "ssl_certificate_key") {
        Some(
            match single_at(t, kw + 1) {
                Ok((v, j)) => Ok((Item::SslCertificateKey(v), j)),
                Err(e) => Err(e),
            },
        )
    } else if str_eq(name, "client_max_body_size") {
        Some(
            match single_at(t, kw + 1) {
                Ok((v, j)) => Ok((Item::ClientMaxBodySize(v), j)),
                Err(e) => Err(e),
            },
        )
    } else if str_eq(name, "empty_gif") {
        Some(
            match semi_at(t, kw + 1, no_names()) {
                Ok(j) => Ok((Item::EmptyGif, j)),
                Err(e) => Err(e),
            },
        )
    } else if str_eq(name, "worker_processes") {
        Some(worker_processes(t, kw))
    } else if str_eq(name, "try_files") {
        Some(try_files(t, kw))
    } else if str_eq(name, "server_name") {
        Some(server_name(t, kw))
    } else if str_eq(name, "map") {
        Some(map(t, kw))
    } else if str_eq(name, "index") {
        Some(index(t, kw))
    } else {
        None
    }
}

/// Reads a directive of OpenResty whose name stands at `kw`.
pub fn openresty(t: &TokenList, kw: usize) -> (r: Option<Result<(Item, usize), ParseError>>)
    requires
        kw < t.tokens.len(),
    ensures
        family_agrees(t, kw, r, openresty_spec(t@, kw as int)),
{
    let name = t.text(kw);
    if str_eq(name, "rewrite_by_lua_file") {
        Some(
            match single_at(t, kw + 1) {
                Ok((v, j)) => Ok((Item::RewriteByLuaFile(v), j)),
                Err(e) => Err(e),
            },
        )
    } else if str_eq(name, "balancer_by_lua_file") {
        Some(
            match single_at(t, kw + 1) {
                Ok((v, j)) => Ok((Item::BalancerByLuaFile(v), j)),
                Err(e) => Err(e),
            },
        )
    } else if str_eq(name, "access_by_lua_file") {
        Some(
            match single_at(t, kw + 1) {
                Ok((v, j)) => Ok((Item::AccessByLuaFile(v), j)),
                Err(e) => Err(e),
            },
        )
    } else if str_eq(name, "header_filter_by_lua_file") {
        Some(
            match single_at(t, kw + 1) {
                Ok((v, j)) => Ok((Item::HeaderFilterByLuaFile(v), j)),
                Err(e) => Err(e),
            },
        )
    } else if str_eq(name, "content_by_lua_file") {
        Some(
            match single_at(t, kw + 1) {
                Ok((v, j)) => Ok((Item::ContentByLuaFile(v), j)),
                Err(e) => Err(e),
            },
        )
    } else if str_eq(name, "body_filter_by_lua_file") {
        Some(
            match single_at(t, kw + 1) {
                Ok((v, j)) => Ok((Item::BodyFilterByLuaFile(v), j)),
                Err(e) => Err(e),
            },
        )
    } else if str_eq(name, "log_by_lua_file") {
        Some(
            match single_at(t, kw + 1) {
                Ok((v, j)) => Ok((Item::LogByLuaFile(v), j)),
                Err(e) => Err(e),
            },
        )
    } else if str_eq(name, "lua_need_request_body") {
        Some(
            match single_at(t, kw + 1) {
                Ok((v, j)) => Ok((Item::LuaNeedRequestBody(v), j)),
                Err(e) => Err(e),
            },
        )
    } else if str_eq(name, "ssl_certificate_by_lua_file") {
        Some(
            match single_at(t, kw + 1) {
                Ok((v, j)) => Ok((Item::SslCertificateByLuaFile(v), j)),
                Err(e) => Err(e),
            },
        )
    } else if str_eq(name, "ssl_session_fetch_by_lua_file") {
        Some(
            match single_at(t, kw + 1) {
                Ok((v, j)) => Ok((Item::SslSessionFetchByLuaFile(v), j)),
                Err(e) => Err(e),
            },
        )
    } else if str_eq(name, "ssl_session_store_by_lua_file") {
        Some(
            match single_at(t, kw + 1) {
                Ok((v, j)) => Ok((Item::SslSessionStoreByLuaFile(v), j)),
                Err(e) => Err(e),
            },
        )
    } else {
        None
    }
}

/// Reads the pattern of the `location` that starts at `kw`.
fn location_pattern(t: &TokenList, kw: usize) -> (r: Result<(LocationPattern, usize), ParseError>)
    requires
        kw < t.tokens.len(),
    ensures
        agree(r, location_pattern_spec(t@, kw as int)),
        r matches Ok((_, k)) ==> kw < k <= t.tokens.len(),
{
    let exact = t.is_word(kw + 1, "=");
    let final_prefix = t.is_word(kw + 1, "^~");
    let regex = t.is_word(kw + 1, "~");
    let insensitive = t.is_word(kw + 1, "~*");
    if exact || final_prefix || regex || insensitive {
        if !t.is_string(kw + 2) {
            return Err(unexpected(t, kw + 2, &one_name("String")));
        }
        let s = String::from_str(t.text(kw + 2));
        let pattern = if exact {
            LocationPattern::Exact(s)
        } else if final_prefix {
            LocationPattern::FinalPrefix(s)
        } else if regex {
            LocationPattern::Regex(s)
        } else {
            LocationPattern::RegexInsensitive(s)
        };
        Ok((pattern, kw + 3))
    } else if t.is_string(kw + 1) {
        let s = chars_of(t.text(kw + 1));
        proof {
            reveal_strlit("@");
        }
        let pattern = if starts_with(&s, "@") {
            LocationPattern::Named(tail_string(&s, 1))
        } else {
            LocationPattern::Prefix(String::from_str(t.text(kw + 1)))
        };
        Ok((pattern, kw + 2))
    } else {
        let names = vec!["=", "^~", "~", "~*", "String"];
        assert(names_view(names@) =~= seq!["="@, "^~"@, "~"@, "~*"@, "String"@]);
        Err(unexpected(t, kw + 1, &names))
    }
}

/// Reads a directive without a block whose name stands at `kw`.
pub fn leaf(t: &TokenList, kw: usize) -> (r: Option<Result<(Item, usize), ParseError>>)
    requires
        kw < t.tokens.len(),
    ensures
        family_agrees(t, kw, r, leaf_spec(t@, kw as int)),
{
    proof {
        reveal(leaf_spec);
    }
    if let Some(r) = main_directives(t, kw) {
        return Some(r);
    }
    if let Some(r) = crate::rewrite::directives(t, kw) {
        return Some(r);
    }
    if let Some(r) = crate::headers::directives(t, kw) {
        return Some(r);
    }
    if let Some(r) = crate::proxy::directives(t, kw) {
        return Some(r);
    }
    if let Some(r) = crate::gzip::directives(t, kw) {
        return Some(r);
    }
    if let Some(r) = crate::http_core::directives(t, kw) {
        return Some(r);
    }
    if let Some(r) = crate::access::directives(t, kw) {
        return Some(r);
    }
    if let Some(r) = crate::log::directives(t, kw) {
        return Some(r);
    }
    if let Some(r) = crate::real_ip::directives(t, kw) {
        return Some(r);
    }
    openresty(t, kw)
}

/// The names of all directives, in the order in which the grammar tries
/// them.
pub fn all_names() -> (r: Vec<&'static str>)
    ensures
        names_view(r@) == directive_names(),
{
    let r = vec![
        "daemon",
        "master_process",
        "worker_processes",
        "http",
        "server",
        "rewrite",
        "set",
        "return",
        "if",
        "try_files",
        "include",
        "ssl_certificate",
        "ssl_certificate_key",
        "location",
        "add_header",
        "expires",
        "server_name",
        "map",
        "client_max_body_size",
        "proxy_pass",
        "proxy_set_header",
        "proxy_method",
        "proxy_cache",
        "proxy_cache_key",
        "proxy_cache_valid",
        "proxy_read_timeout",
        "proxy_connect_timeout",
        "proxy_hide_header",
        "proxy_pass_header",
        "proxy_pass_request_headers",
        "proxy_pass_request_body",
        "proxy_intercept_errors",
        "proxy_buffering",
        "proxy_ignore_headers",
        "proxy_http_version",
        "proxy_next_upstream",
        "proxy_next_upstream_tries",
        "proxy_next_upstream_timeout",
        "gzip",
        "gzip_static",
        "gzip_proxied",
        "error_page",
        "listen",
        "limit_except",
        "root",
        "alias",
        "default_type",
        "internal",
        "etag",
        "server_tokens",
        "recursive_error_pages",
        "chunked_transfer_encoding",
        "keepalive_timeout",
        "error_log",
        "allow",
        "deny",
        "access_log",
        "real_ip_header",
        "real_ip_recursive",
        "set_real_ip_from",
        "rewrite_by_lua_file",
        "balancer_by_lua_file",
        "access_by_lua_file",
        "header_filter_by_lua_file",
        "content_by_lua_file",
        "body_filter_by_lua_file",
        "log_by_lua_file",
        "lua_need_request_body",
        "ssl_certificate_by_lua_file",
        "ssl_session_fetch_by_lua_file",
        "ssl_session_store_by_lua_file",
        "empty_gif",
        "index",
    ];
    assert(names_view(r@) =~= directive_names());
    r
}

/// What can stand where a directive may start.
fn names_here(in_block: bool, first: bool) -> (r: Vec<&'static str>)
    ensures
        names_view(r@) == expected_here(in_block, first),
{
    if in_block {
        and_name(all_names(), "BlockEnd")
    } else if first {
        all_names()
    } else {
        and_name(all_names(), "end of input")
    }
}

/// The directives of a block with the positions of the block.
pub struct Block {
    pub position: Span,
    pub directives: Vec<Directive>,
}

impl View for Block {
    type V = BlockView;

    open spec fn view(&self) -> BlockView {
        BlockView { position: self.position, directives: directives_view(self.directives@) }
    }
}

/// Reads the directive whose name stands at `kw`.
pub fn directive(t: &TokenList, kw: usize) -> (r: Option<Result<(Item, usize), ParseError>>)
    ensures
        match item_spec(t@, kw as int) {
            None => r is None,
            Some(p) => {
                &&& r matches Some(x)
                &&& agree(x, p)
                &&& x matches Ok((_, k)) ==> kw < k <= t.tokens.len()
            },
        },
    decreases t.tokens.len() - kw, 1int,
{
    if !t.is_string(kw) {
        return None;
    }
    let name = t.text(kw);
    if str_eq(name, "http") {
        Some(
            match block(t, kw + 1, no_names()) {
                Ok((b, j)) => Ok(
                    (Item::Http(Http { position: b.position, directives: b.directives }), j),
                ),
                Err(e) => Err(e),
            },
        )
    } else if str_eq(name, "server") {
        Some(
            match block(t, kw + 1, no_names()) {
                Ok((b, j)) => Ok(
                    (Item::Server(Server { position: b.position, directives: b.directives }), j),
                ),
                Err(e) => Err(e),
            },
        )
    } else if str_eq(name, "location") {
        Some(
            match location_pattern(t, kw) {
                Err(e) => Err(e),
                Ok((pattern, i)) => match block(t, i, no_names()) {
                    Ok((b, j)) => Ok(
                        (
                            Item::Location(
                                Location {
                                    position: b.position,
                                    pattern,
                                    directives: b.directives,
                                },
                            ),
                            j,
                        ),
                    ),
                    Err(e) => Err(e),
                },
            },
        )
    } else if str_eq(name, "limit_except") {
        if !t.is_string(kw + 1) {
            return Some(Err(unexpected(t, kw + 1, &one_name("String"))));
        }
        let (methods, i) = strings_from(t, kw + 1);
        Some(
            match block(t, i, one_name("String")) {
                Ok((b, j)) => Ok(
                    (
                        Item::LimitExcept(
                            LimitExcept { position: b.position, methods, directives: b.directives },
                        ),
                        j,
                    ),
                ),
                Err(e) => Err(e),
            },
        )
    } else if str_eq(name, "if") {
        Some(
            match if_condition(t, kw) {
                Err(e) => Err(e),
                Ok((condition, i)) => match block(t, i, one_name("String")) {
                    Ok((b, j)) => Ok(
                        (
                            Item::If(
                                If { position: b.position, condition, directives: b.directives },
                            ),
                            j,
                        ),
                    ),
                    Err(e) => Err(e),
                },
            },
        )
    } else {
        leaf(t, kw)
    }
}

/// Reads the block that starts at `i`. `names` is what else could have
/// stood at `i`.
pub fn block(t: &TokenList, i: usize, names: Vec<&'static str>) -> (r: Result<
    (Block, usize),
    ParseError,
>)
    ensures
        agree(r, block_spec(t@, i as int, names_view(names@))),
        r matches Ok((_, k)) ==> i < k <= t.tokens.len(),
    decreases t.tokens.len() - i, 0int,
{
    if !t.is_kind(i, Kind::BlockStart) {
        return Err(unexpected(t, i, &and_name(names, "BlockStart")));
    }
    match directives(t, i + 1, true, false) {
        Err(e) => Err(e),
        Ok((list, j)) => Ok(
            (
                Block { position: Span(t.position(i), t.position(j + 1)), directives: list },
                j + 1,
            ),
        ),
    }
}

/// Reads the directives from `i` on, up to the closing brace inside a
/// block and up to the end of the text outside.
pub fn directives(t: &TokenList, i: usize, in_block: bool, first: bool) -> (r: Result<
    (Vec<Directive>, usize),
    ParseError,
>)
    requires
        i <= t.tokens.len(),
    ensures
        match directives_spec(t@, i as int, Seq::empty(), in_block, first) {
            Ok((v, j)) => r matches Ok((x, k)) && directives_view(x@) == v && k == j && i <= k
                <= t.tokens.len() && (in_block ==> k < t.tokens.len()),
            Err(e) => r matches Err(x) && x@ == e,
        },
    decreases t.tokens.len() - i, 2int,
{
    let mut out: Vec<Directive> = Vec::new();
    let mut k: usize = i;
    let mut first_now = first;
    loop
        invariant
            i <= k <= t.tokens.len(),
            directives_spec(t@, i as int, Seq::empty(), in_block, first) == directives_spec(
                t@,
                k as int,
                directives_view(out@),
                in_block,
                first_now,
            ),
        decreases t.tokens.len() - k,
    {
        match directive(t, k) {
            Some(Ok((item, j))) => {
                let d = Directive { position: t.position(k), item };
                proof {
                    lemma_directives_view_push(out@, d);
                }
                out.push(d);
                k = j;
                first_now = false;
            },
            Some(Err(e)) => {
                return Err(e);
            },
            None => {
                if in_block && t.is_kind(k, Kind::BlockEnd) {
                    return Ok((out, k));
                } else if !in_block && !first_now && k >= t.tokens.len() && t.end
                    == LexError::EndOfInput {
                    return Ok((out, k));
                } else {
                    return Err(unexpected(t, k, &names_here(in_block, first_now)));
                }
            },
        }
    }
}

/// Parses a piece of config from arbitrary context.
///
/// This implies no validation of what context directives belong to.
pub fn parse_directives(s: &str) -> (r: Result<Vec<Directive>, ParseError>)
    ensures
        match parse_spec(s@) {
            Ok(v) => r matches Ok(x) && directives_view(x@) == v,
            Err(e) => r matches Err(x) && x@ == e,
        },
{
    let tokens = tokenize(s);
    match directives(&tokens, 0, false, true) {
        Ok((list, _)) => Ok(list),
        Err(e) => Err(e),
    }
}

/// Parses a piece of config in "main" context (i.e. top-level).
///
/// The directives are the ones that `parse_directives` gives, in a `Main`.
pub fn parse_main(s: &str) -> (r: Result<Main, ParseError>)
    ensures
        match parse_spec(s@) {
            Ok(v) => r matches Ok(x) && x@ == (MainView { directives: v }),
            Err(e) => r matches Err(x) && x@ == e,
        },
{
    match parse_directives(s) {
        Ok(directives) => Ok(Main { directives }),
        Err(e) => Err(e),
    }
}

} // verus!
