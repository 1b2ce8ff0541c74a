//! The words of a directive as it is written, and the directives that
//! are read back as they are written.

use vstd::prelude::*;
use crate::ast::{DirectiveView, ItemView};
use crate::layout_laws::{punct_token, string_tokens};
use crate::lex_laws::is_word;
use crate::position::{Pos, Span};
use crate::tokenizer::{Lexed, TokenView};
use crate::value::{value_text, ValueView};
use crate::value_laws::readable;

verus! {

/// The forms of the directives that are a name, a name with a switch, or
/// a name with one value.
pub enum Shape {
    /// A name and `on` or `off`.
    Toggle(bool),
    /// A name and one value.
    Single(ValueView),
    /// A name alone.
    Bare,
    /// Any other directive.
    Other,
}

/// The form of a directive that stands on one line: a switch, a name
/// with one value, or a name alone.
pub open spec fn shape(item: ItemView) -> Shape {
    match item {
        ItemView::Daemon(on) => Shape::Toggle(on),
        ItemView::MasterProcess(on) => Shape::Toggle(on),
        ItemView::ProxyPassRequestBody(on) => Shape::Toggle(on),
        ItemView::ProxyPassRequestHeaders(on) => Shape::Toggle(on),
        ItemView::ProxyInterceptErrors(on) => Shape::Toggle(on),
        ItemView::ProxyBuffering(on) => Shape::Toggle(on),
        ItemView::Gzip(on) => Shape::Toggle(on),
        ItemView::Etag(on) => Shape::Toggle(on),
        ItemView::RecursiveErrorPages(on) => Shape::Toggle(on),
        ItemView::ChunkedTransferEncoding(on) => Shape::Toggle(on),
        ItemView::RealIpRecursive(on) => Shape::Toggle(on),
        ItemView::ProxyPass(v) => Shape::Single(v),
        ItemView::ProxyMethod(v) => Shape::Single(v),
        ItemView::ProxyReadTimeout(v) => Shape::Single(v),
        ItemView::ProxyConnectTimeout(v) => Shape::Single(v),
        ItemView::ProxyHideHeader(v) => Shape::Single(v),
        ItemView::ProxyPassHeader(v) => Shape::Single(v),
        ItemView::ProxyCache(v) => Shape::Single(v),
        ItemView::ProxyCacheKey(v) => Shape::Single(v),
        ItemView::ProxyNextUpstreamTries(v) => Shape::Single(v),
        ItemView::ProxyNextUpstreamTimeout(v) => Shape::Single(v),
        ItemView::Root(v) => Shape::Single(v),
        ItemView::Alias(v) => Shape::Single(v),
        ItemView::DefaultType(v) => Shape::Single(v),
        ItemView::ClientMaxBodySize(v) => Shape::Single(v),
        ItemView::Include(v) => Shape::Single(v),
        ItemView::ServerTokens(v) => Shape::Single(v),
        ItemView::SslCertificate(v) => Shape::Single(v),
        ItemView::SslCertificateKey(v) => Shape::Single(v),
        ItemView::RewriteByLuaFile(v) => Shape::Single(v),
        ItemView::BalancerByLuaFile(v) => Shape::Single(v),
        ItemView::AccessByLuaFile(v) => Shape::Single(v),
        ItemView::HeaderFilterByLuaFile(v) => Shape::Single(v),
        ItemView::ContentByLuaFile(v) => Shape::Single(v),
        ItemView::BodyFilterByLuaFile(v) => Shape::Single(v),
        ItemView::LogByLuaFile(v) => Shape::Single(v),
        ItemView::LuaNeedRequestBody(v) => Shape::Single(v),
        ItemView::SslCertificateByLuaFile(v) => Shape::Single(v),
        ItemView::SslSessionFetchByLuaFile(v) => Shape::Single(v),
        ItemView::SslSessionStoreByLuaFile(v) => Shape::Single(v),
        ItemView::RealIpHeader(v) => Shape::Single(v),
        ItemView::EmptyGif => Shape::Bare,
        ItemView::Internal => Shape::Bare,
        _ => Shape::Other,
    }
}

/// The switch `item` set to `on`.
pub open spec fn with_toggle(item: ItemView, on: bool) -> ItemView {
    match item {
        ItemView::Daemon(_) => ItemView::Daemon(on),
        ItemView::MasterProcess(_) => ItemView::MasterProcess(on),
        ItemView::ProxyPassRequestBody(_) => ItemView::ProxyPassRequestBody(on),
        ItemView::ProxyPassRequestHeaders(_) => ItemView::ProxyPassRequestHeaders(on),
        ItemView::ProxyInterceptErrors(_) => ItemView::ProxyInterceptErrors(on),
        ItemView::ProxyBuffering(_) => ItemView::ProxyBuffering(on),
        ItemView::Gzip(_) => ItemView::Gzip(on),
        ItemView::Etag(_) => ItemView::Etag(on),
        ItemView::RecursiveErrorPages(_) => ItemView::RecursiveErrorPages(on),
        ItemView::ChunkedTransferEncoding(_) => ItemView::ChunkedTransferEncoding(on),
        ItemView::RealIpRecursive(_) => ItemView::RealIpRecursive(on),
        _ => item,
    }
}

/// The word for a switch that is on or off.
pub open spec fn toggle_word(on: bool) -> Seq<char> {
    if on {
        "on"@
    } else {
        "off"@
    }
}

/// Whether a value is read back from its text as it is, and its text is
/// one token.
pub open spec fn lexable(v: ValueView) -> bool {
    readable(v.data) && is_word(value_text(v.data))
}

/// Whether the directive has a block of directives.
pub open spec fn has_block(item: ItemView) -> bool {
    item is Http || item is Server || item is Location || item is LimitExcept || item is If
}

/// The words of a directive without a block, in the order in which they
/// are written before the semicolon; for a directive with a block, the
/// words before the opening brace.
pub open spec fn line_words(item: ItemView) -> Seq<Seq<char>> {
    match item {
        ItemView::ProxySetHeader { field, value } => seq![
            "proxy_set_header"@,
            value_text(field.data),
            value_text(value.data),
        ],
        ItemView::KeepaliveTimeout(a, b) => match b {
            Some(v) => seq!["keepalive_timeout"@, value_text(a.data), value_text(v.data)],
            None => seq!["keepalive_timeout"@, value_text(a.data)],
        },
        ItemView::AddHeader(h) => if h.always {
            seq!["add_header"@, value_text(h.field.data), value_text(h.value.data), "always"@]
        } else {
            seq!["add_header"@, value_text(h.field.data), value_text(h.value.data)]
        },
        ItemView::Expires(e) => if e.modified {
            seq!["expires"@, "modified"@, value_text(e.value.data)]
        } else {
            seq!["expires"@, value_text(e.value.data)]
        },
        ItemView::SetVar { variable, value } => seq![
            "set"@,
            seq!['$'] + variable,
            value_text(value.data),
        ],
        ItemView::GzipStatic(v) => seq!["gzip_static"@, crate::display::static_text(v)],
        ItemView::ProxyHttpVersion(v) => seq![
            "proxy_http_version"@,
            match v {
                crate::ast::ProxyHttpVersion::V1_0 => "1.0"@,
                crate::ast::ProxyHttpVersion::V1_1 => "1.1"@,
            },
        ],
        ItemView::ErrorLog { file, level } => match level {
            Some(l) => seq![
                "error_log"@,
                value_text(file.data),
                crate::http_core::level_words()[l.index()],
            ],
            None => seq!["error_log"@, value_text(file.data)],
        },
        ItemView::Index(list) => seq!["index"@] + crate::forms_kinds::value_texts(list),
        ItemView::ProxyIgnoreHeaders(list) => seq!["proxy_ignore_headers"@] + list,
        ItemView::Location(l) => seq!["location"@] + crate::forms_blocks::pattern_words(l.pattern),
        ItemView::LimitExcept(l) => seq!["limit_except"@] + l.methods,
        ItemView::WorkerProcesses(w) => seq![
            "worker_processes"@,
            match w {
                crate::ast::WorkerProcesses::Auto => "auto"@,
                crate::ast::WorkerProcesses::Exact(n) => crate::text::decimal(n as nat),
            },
        ],
        ItemView::GzipProxied(list) => seq!["gzip_proxied"@] + crate::forms_words::proxied_texts(
            list,
        ),
        ItemView::ProxyNextUpstream(list) => seq!["proxy_next_upstream"@]
            + crate::forms_words::upstream_texts(list),
        ItemView::Rewrite(rw) => match rw.flag {
            Some(f) => seq![
                "rewrite"@,
                rw.regex,
                value_text(rw.replacement.data),
                crate::rewrite::flag_words()[f.index()],
            ],
            None => seq!["rewrite"@, rw.regex, value_text(rw.replacement.data)],
        },
        ItemView::Return(r) => seq!["return"@] + crate::forms_more::return_words(r),
        ItemView::ServerName(list) => seq!["server_name"@] + crate::forms_more::name_texts(list),
        ItemView::Listen(l) => seq!["listen"@] + crate::forms_options::listen_all(l),
        ItemView::If(x) => seq!["if"@] + crate::forms_if::test_words(x.condition),
        ItemView::Allow(s) => seq!["allow"@, crate::forms_net::source_text(s)],
        ItemView::Deny(s) => seq!["deny"@, crate::forms_net::source_text(s)],
        ItemView::SetRealIpFrom(s) => seq!["set_real_ip_from"@, crate::forms_net::real_ip_text(s)],
        ItemView::TryFiles(tf) => seq!["try_files"@] + crate::forms_kinds::value_texts(
            crate::forms_try::try_values(tf),
        ),
        ItemView::ErrorPage(e) => seq!["error_page"@] + crate::forms_kinds::value_texts(
            crate::forms_page::page_values(e),
        ),
        ItemView::ProxyCacheValid(v) => seq!["proxy_cache_valid"@]
            + crate::forms_kinds::value_texts(crate::forms_cache::cache_values(v)),
        ItemView::AccessLog(l) => crate::forms_log::log_words(l),
        ItemView::MapBlock(m) => crate::forms_map::map_words(m),
        _ => match shape(item) {
            Shape::Toggle(on) => seq![item.directive_name(), toggle_word(on)],
            Shape::Single(v) => seq![item.directive_name(), value_text(v.data)],
            _ => seq![item.directive_name()],
        },
    }
}

/// Whether an empty line stands before the directive.
pub open spec fn has_margin(item: ItemView) -> bool {
    item is Http || item is Server || item is Location || item is LimitExcept
}

/// Whether the words of the directive are read back as the directive:
/// each value is read back as it is written, and each word is one token.
pub open spec fn words_ok(item: ItemView) -> bool {
    match item {
        ItemView::Http(_) => true,
        ItemView::Server(_) => true,
        ItemView::ProxySetHeader { field, value } => lexable(field) && lexable(value),
        ItemView::KeepaliveTimeout(a, b) => lexable(a) && match b {
            Some(v) => lexable(v),
            None => true,
        },
        ItemView::AddHeader(h) => lexable(h.field) && lexable(h.value),
        ItemView::Expires(e) => lexable(e.value) && (e.modified || value_text(e.value.data)
            != "modified"@),
        ItemView::SetVar { variable, value } => crate::forms_kinds::is_variable(variable)
            && lexable(value),
        ItemView::GzipStatic(_) => true,
        ItemView::ProxyHttpVersion(_) => true,
        ItemView::ErrorLog { file, level } => lexable(file),
        ItemView::Index(list) => crate::forms_kinds::all_lexable(list),
        ItemView::ProxyIgnoreHeaders(list) => list.len() > 0 && crate::forms_kinds::all_words(
            list,
        ),
        ItemView::Location(l) => crate::forms_blocks::pattern_ok(l.pattern),
        ItemView::LimitExcept(l) => l.methods.len() > 0 && crate::forms_kinds::all_words(
            l.methods,
        ),
        ItemView::WorkerProcesses(_) => true,
        ItemView::GzipProxied(list) => list.len() > 0,
        ItemView::ProxyNextUpstream(list) => list.len() > 0,
        ItemView::Rewrite(rw) => is_word(rw.regex) && lexable(rw.replacement),
        ItemView::Return(r) => crate::forms_more::return_ok(r),
        ItemView::ServerName(list) => crate::forms_more::names_ok(list),
        ItemView::Listen(l) => crate::forms_listen::listen_ok(l),
        ItemView::If(x) => crate::forms_if::test_ok(x.condition),
        ItemView::Allow(_) => true,
        ItemView::Deny(_) => true,
        ItemView::SetRealIpFrom(_) => true,
        ItemView::TryFiles(tf) => crate::forms_try::try_ok(tf),
        ItemView::ErrorPage(e) => crate::forms_page::page_ok(e),
        ItemView::ProxyCacheValid(v) => crate::forms_cache::cache_ok(v),
        ItemView::AccessLog(l) => crate::forms_log::log_ok(l),
        ItemView::MapBlock(m) => crate::forms_map::map_ok(m),
        _ => match shape(item) {
            Shape::Toggle(_) => true,
            Shape::Single(v) => lexable(v),
            Shape::Bare => true,
            Shape::Other => false,
        },
    }
}

/// Whether the directive, and every directive in its block, is read back
/// as it is written.
pub open spec fn in_class(item: ItemView) -> bool
    decreases item,
{
    &&& words_ok(item)
    &&& match item {
        ItemView::Http(b) => forall|k: int|
            0 <= k < b.directives.len() ==> in_class((#[trigger] b.directives[k]).item),
        ItemView::Server(b) => forall|k: int|
            0 <= k < b.directives.len() ==> in_class((#[trigger] b.directives[k]).item),
        ItemView::Location(b) => forall|k: int|
            0 <= k < b.directives.len() ==> in_class((#[trigger] b.directives[k]).item),
        ItemView::LimitExcept(b) => forall|k: int|
            0 <= k < b.directives.len() ==> in_class((#[trigger] b.directives[k]).item),
        ItemView::If(b) => forall|k: int|
            0 <= k < b.directives.len() ==> in_class((#[trigger] b.directives[k]).item),
        _ => true,
    }
}

/// Whether all directives of `list` are read back as they are written.
pub open spec fn all_in_class(list: Seq<DirectiveView>) -> bool {
    forall|k: int| 0 <= k < list.len() ==> in_class((#[trigger] list[k]).item)
}

/// The tokens of a block with the words `head` before it and the tokens
/// `inner` in it.
pub open spec fn block_tokens(head: Seq<Seq<char>>, inner: Seq<TokenView>) -> Seq<TokenView> {
    string_tokens(head).push(punct_token('{')) + inner + seq![punct_token('}')]
}

/// The tokens of a directive as it is written.
pub open spec fn item_tokens(item: ItemView) -> Seq<TokenView>
    decreases item, 0nat,
{
    match item {
        ItemView::Http(b) => block_tokens(
            line_words(item),
            list_tokens(b.directives, b.directives.len()),
        ),
        ItemView::Server(b) => block_tokens(
            line_words(item),
            list_tokens(b.directives, b.directives.len()),
        ),
        ItemView::Location(b) => block_tokens(
            line_words(item),
            list_tokens(b.directives, b.directives.len()),
        ),
        ItemView::LimitExcept(b) => block_tokens(
            line_words(item),
            list_tokens(b.directives, b.directives.len()),
        ),
        ItemView::If(b) => block_tokens(
            line_words(item),
            list_tokens(b.directives, b.directives.len()),
        ),
        ItemView::MapBlock(m) => crate::forms_map::map_tokens(m),
        _ => string_tokens(line_words(item)).push(punct_token(';')),
    }
}

/// The tokens of the first `n` directives of `list` as they are written.
pub open spec fn list_tokens(list: Seq<DirectiveView>, n: nat) -> Seq<TokenView>
    decreases list, n,
{
    if n == 0 || n > list.len() {
        Seq::empty()
    } else {
        list_tokens(list, (n - 1) as nat) + item_tokens(list[n - 1].item)
    }
}

/// Whether two lists of values hold the same pieces, value for value.
pub open spec fn same_data(a: Seq<ValueView>, b: Seq<ValueView>) -> bool {
    &&& a.len() == b.len()
    &&& forall|k: int| 0 <= k < a.len() ==> (#[trigger] a[k]).data == b[k].data
}

/// The positions that stand for all positions where they do not count.
pub open spec fn nowhere() -> Span {
    Span(Pos { line: 0, column: 0 }, Pos { line: 0, column: 0 })
}

/// The directive without the directives of its block and without the
/// positions of the block.
pub open spec fn bare_item(item: ItemView) -> ItemView {
    item.with_children(Seq::empty()).with_span(nowhere())
}

/// Whether two directives are the same but for the positions in them and
/// for the directives in their blocks.
pub open spec fn alike_here(a: ItemView, b: ItemView) -> bool {
    &&& bare_item(b) == bare_item(a).with_values(b.values())
    &&& same_data(a.values(), b.values())
}

/// Whether two directives are the same but for the positions in them.
pub open spec fn alike(a: ItemView, b: ItemView) -> bool
    decreases a,
{
    &&& alike_here(a, b)
    &&& match a {
        ItemView::Http(x) => b.children() is Some && alike_list(
            x.directives,
            b.children()->0,
        ),
        ItemView::Server(x) => b.children() is Some && alike_list(
            x.directives,
            b.children()->0,
        ),
        ItemView::Location(x) => b.children() is Some && alike_list(
            x.directives,
            b.children()->0,
        ),
        ItemView::LimitExcept(x) => b.children() is Some && alike_list(
            x.directives,
            b.children()->0,
        ),
        ItemView::If(x) => b.children() is Some && alike_list(x.directives, b.children()->0),
        _ => true,
    }
}

/// Whether two lists hold directives that are the same but for the
/// positions in them.
pub open spec fn alike_list(a: Seq<DirectiveView>, b: Seq<DirectiveView>) -> bool
    decreases a,
{
    &&& a.len() == b.len()
    &&& forall|k: int| 0 <= k < a.len() ==> alike((#[trigger] a[k]).item, b[k].item)
}

/// Whether the tokens of `t` from `i` on are `w`.
pub open spec fn has_tokens(t: Lexed, i: int, w: Seq<TokenView>) -> bool {
    &&& 0 <= i
    &&& i + w.len() <= t.tokens.len()
    &&& forall|k: int| 0 <= k < w.len() ==> (#[trigger] t.tokens[i + k]).token == w[k]
}

} // verus!
