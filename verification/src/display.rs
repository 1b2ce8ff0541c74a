//! Writes directives back as text.
//!
//! A directive stands on a line of its own and ends with a semicolon. The
//! directives of a block are moved to the right, and an empty line stands
//! before a block.

use vstd::prelude::*;
use crate::ast::{
    directives_view, lemma_directives_view, AccessLog, AccessLogOptionsView, AccessLogView,
    AddHeader, AddHeaderView, Address, AddressView, Directive, DirectiveView, ErrorLevel, ErrorPage,
    ErrorPageResponse, ErrorPageView, Expires, ExpiresView, GzipProxied, GzipStatic, HttpExt, If,
    IfCondition, IfConditionView, Item, ItemView, Listen, ListenView, LocationPattern,
    LocationPatternView, Main, MainView, MapBlock, MapBlockView, MapPattern, MapPatternView,
    ProxyCacheValid, ProxyCacheValidView, ProxyHttpVersion, ProxyNextUpstreamFlag, RealIpFrom,
    Return, ReturnView, Rewrite, RewriteFlag, RewriteView, ServerName, ServerNameView, Source,
    TryFiles, TryFilesLastOption, TryFilesLastOptionView, TryFilesView, WorkerProcesses, seq_view,
    patterns_view, option_view,
};
use crate::format::{Formatter, Page, Style};
use crate::gzip::proxied_words;
use crate::http_core::level_words;
use crate::net::{ip_text, socket_text, IpAddress};
use crate::proxy::upstream_words;
use crate::text::{decimal, signed_decimal, str_eq};
use crate::value::{value_text, Value, ValueView};

verus! {

/// The page with a value written behind it.
pub open spec fn render_value(v: ValueView, p: Page) -> Page {
    p.write(value_text(v.data))
}

/// The page with a switch written behind it: the name, a blank, and `on`
/// or `off`.
pub open spec fn render_toggle(name: Seq<char>, on: bool, p: Page) -> Page {
    p.indent().write(name).put(' ').write(
        if on {
            "on"@
        } else {
            "off"@
        },
    ).end()
}

/// The page with a directive of one value written behind it.
pub open spec fn render_single(name: Seq<char>, v: ValueView, p: Page) -> Page {
    render_value(v, p.indent().write(name).put(' ')).end()
}

/// The page with a directive of two values written behind it.
pub open spec fn render_pair(name: Seq<char>, a: ValueView, b: ValueView, p: Page) -> Page {
    render_value(b, render_value(a, p.indent().write(name).put(' ')).put(' ')).end()
}

/// `set $variable value;`
pub open spec fn render_set(variable: Seq<char>, value: ValueView, p: Page) -> Page {
    render_value(value, p.indent().write("set $"@).write(variable).put(' ')).end()
}

/// `worker_processes auto;` or `worker_processes n;`
pub open spec fn render_workers(w: WorkerProcesses, p: Page) -> Page {
    match w {
        WorkerProcesses::Auto => p.indent().write("worker_processes auto"@).end(),
        WorkerProcesses::Exact(n) => p.indent().write("worker_processes "@).write(
            decimal(n as nat),
        ).end(),
    }
}

/// `proxy_http_version 1.0;` or `proxy_http_version 1.1;`
pub open spec fn render_version(v: ProxyHttpVersion, p: Page) -> Page {
    match v {
        ProxyHttpVersion::V1_0 => p.indent().write("proxy_http_version 1.0"@).end(),
        ProxyHttpVersion::V1_1 => p.indent().write("proxy_http_version 1.1"@).end(),
    }
}

/// The page with the first `n` of `list` written behind it, a blank
/// before each.
pub open spec fn render_texts(list: Seq<Seq<char>>, n: int, p: Page) -> Page
    decreases n,
{
    if n <= 0 {
        p
    } else {
        render_texts(list, n - 1, p).put(' ').write(list[n - 1])
    }
}

/// The page with the first `n` values of `list` written behind it, a
/// blank before each.
pub open spec fn render_values(list: Seq<ValueView>, n: int, p: Page) -> Page
    decreases n,
{
    if n <= 0 {
        p
    } else {
        render_value(list[n - 1], render_values(list, n - 1, p).put(' '))
    }
}

/// The page with the first `n` numbers of `list` written behind it, a
/// blank before each.
pub open spec fn render_numbers(list: Seq<u32>, n: int, p: Page) -> Page
    decreases n,
{
    if n <= 0 {
        p
    } else {
        render_numbers(list, n - 1, p).put(' ').write(decimal(list[n - 1] as nat))
    }
}

/// `proxy_ignore_headers` with its names.
pub open spec fn render_ignore_headers(v: Seq<Seq<char>>, p: Page) -> Page {
    render_texts(v, v.len() as int, p.indent().write("proxy_ignore_headers"@)).end()
}

/// `index` with its files.
pub open spec fn render_index(v: Seq<ValueView>, p: Page) -> Page {
    render_values(v, v.len() as int, p.indent().write("index"@)).end()
}

/// `proxy_cache_valid` with its codes and its time.
pub open spec fn render_cache_valid(v: ProxyCacheValidView, p: Page) -> Page {
    let q = p.indent().write("proxy_cache_valid"@);
    match v {
        ProxyCacheValidView::Normal(time) => render_value(time, q.put(' ')).end(),
        ProxyCacheValidView::Specific(codes, time) => render_value(
            time,
            render_numbers(codes, codes.len() as int, q).put(' '),
        ).end(),
        ProxyCacheValidView::Any(time) => render_value(time, q.write(" any "@)).end(),
    }
}

/// The page with the first `n` cases of `list` written behind it, a blank
/// before each.
pub open spec fn render_flags(list: Seq<ProxyNextUpstreamFlag>, n: int, p: Page) -> Page
    decreases n,
{
    if n <= 0 {
        p
    } else {
        render_flags(list, n - 1, p).put(' ').write(upstream_words()[list[n - 1].index()])
    }
}

/// `proxy_next_upstream` with its cases.
pub open spec fn render_next_upstream(v: Seq<ProxyNextUpstreamFlag>, p: Page) -> Page {
    render_flags(v, v.len() as int, p.indent().write("proxy_next_upstream"@)).end()
}

/// The word for a setting of `gzip_static`.
pub open spec fn static_text(v: GzipStatic) -> Seq<char> {
    match v {
        GzipStatic::On => "on"@,
        GzipStatic::Off => "off"@,
        GzipStatic::Always => "always"@,
    }
}

/// `gzip_static` with its setting.
pub open spec fn render_gzip_static(v: GzipStatic, p: Page) -> Page {
    p.indent().write("gzip_static "@).write(static_text(v)).end()
}

/// The page with the first `n` settings of `list` written behind it, a
/// blank before each.
pub open spec fn render_proxied(list: Seq<GzipProxied>, n: int, p: Page) -> Page
    decreases n,
{
    if n <= 0 {
        p
    } else {
        render_proxied(list, n - 1, p).put(' ').write(proxied_words()[list[n - 1].index()])
    }
}

/// `gzip_proxied` with its settings.
pub open spec fn render_gzip_proxied(v: Seq<GzipProxied>, p: Page) -> Page {
    render_proxied(v, v.len() as int, p.indent().write("gzip_proxied"@)).end()
}

/// `add_header field value [always];`
pub open spec fn render_add_header(h: AddHeaderView, p: Page) -> Page {
    let q = render_value(
        h.value,
        render_value(h.field, p.indent().write("add_header "@)).put(' '),
    );
    if h.always {
        q.write(" always"@).end()
    } else {
        q.end()
    }
}

/// `expires [modified] value;`
pub open spec fn render_expires(e: ExpiresView, p: Page) -> Page {
    let q = p.indent().write("expires "@);
    render_value(
        e.value,
        if e.modified {
            q.write("modified "@)
        } else {
            q
        },
    ).end()
}

/// `error_page` with its codes, the answer it gives and its address.
pub open spec fn render_error_page(e: ErrorPageView, p: Page) -> Page {
    let q = render_numbers(e.codes, e.codes.len() as int, p.indent().write("error_page"@));
    let r = match e.response_code {
        ErrorPageResponse::Target => q,
        ErrorPageResponse::Replace(code) => q.write(" ="@).write(decimal(code as nat)),
        ErrorPageResponse::Redirect(code) => q.write(" ="@).write(decimal(code as nat)),
        ErrorPageResponse::Keep => q.write(" ="@),
    };
    render_value(e.uri, r.put(' ')).end()
}

/// The words for the flag of `rewrite`, with a blank before, or nothing.
pub open spec fn flag_text(flag: Option<RewriteFlag>) -> Seq<char> {
    match flag {
        Some(RewriteFlag::Last) => " last"@,
        Some(RewriteFlag::Break) => " break"@,
        Some(RewriteFlag::Redirect) => " redirect"@,
        Some(RewriteFlag::Permanent) => " permanent"@,
        None => ""@,
    }
}

/// `rewrite regex replacement [flag];`
pub open spec fn render_rewrite(rw: RewriteView, p: Page) -> Page {
    render_value(rw.replacement, p.indent().write("rewrite "@).write(rw.regex).put(' ')).write(
        flag_text(rw.flag),
    ).end()
}

/// `return` with its code and its text or address.
pub open spec fn render_return(r: ReturnView, p: Page) -> Page {
    let q = p.indent().write("return "@);
    match r {
        ReturnView::Redirect { code: None, url } => render_value(url, q).end(),
        ReturnView::Redirect { code: Some(code), url } => render_value(
            url,
            q.write(decimal(code as nat)).put(' '),
        ).end(),
        ReturnView::Text { code, text: Some(v) } => render_value(
            v,
            q.write(decimal(code as nat)).put(' '),
        ).end(),
        ReturnView::Text { code, text: None } => q.write(decimal(code as nat)).end(),
    }
}

/// The page with the first `n` values of `list` written behind it, a
/// blank behind each.
pub open spec fn render_options(list: Seq<ValueView>, n: int, p: Page) -> Page
    decreases n,
{
    if n <= 0 {
        p
    } else {
        render_value(list[n - 1], render_options(list, n - 1, p)).put(' ')
    }
}

/// `try_files` with its arguments.
pub open spec fn render_try_files(tf: TryFilesView, p: Page) -> Page {
    let q = render_options(tf.options, tf.options.len() as int, p.indent().write("try_files "@));
    match tf.last_option {
        TryFilesLastOptionView::Uri(v) => render_value(v, q).end(),
        TryFilesLastOptionView::NamedLocation(loc) => q.put('@').write(loc).end(),
        TryFilesLastOptionView::Code(code) => q.put('=').write(decimal(code as nat)).end(),
    }
}

/// The page with the name of a server written behind a blank.
pub open spec fn render_name(name: ServerNameView, p: Page) -> Page {
    match name {
        ServerNameView::Exact(v) => p.put(' ').write(v),
        ServerNameView::Suffix(v) => p.write(" ."@).write(v),
        ServerNameView::StarSuffix(v) => p.write(" *."@).write(v),
        ServerNameView::StarPrefix(v) => p.put(' ').write(v).write(".*"@),
        ServerNameView::Regex(v) => p.write(" ~"@).write(v),
    }
}

/// The page with the first `n` names of `list` written behind it.
pub open spec fn render_names(list: Seq<ServerNameView>, n: int, p: Page) -> Page
    decreases n,
{
    if n <= 0 {
        p
    } else {
        render_name(list[n - 1], render_names(list, n - 1, p))
    }
}

/// `server_name` with its names.
pub open spec fn render_server_name(v: Seq<ServerNameView>, p: Page) -> Page {
    render_names(v, v.len() as int, p.indent().write("server_name"@)).end()
}

/// Whether `v` is a word that a `map` block gives a meaning of its own.
pub open spec fn is_reserved(v: Seq<char>) -> bool {
    v == "volatile"@ || v == "hostnames"@ || v == "default"@ || v == "include"@
}

/// The page with a pattern of a `map` block written behind it. A word
/// that the block gives a meaning of its own gets a backslash before it.
pub open spec fn render_pattern(pattern: MapPatternView, p: Page) -> Page {
    match pattern {
        MapPatternView::Exact(v) => if is_reserved(v) {
            p.put('\\').write(v)
        } else {
            p.write(v)
        },
        MapPatternView::Suffix(v) => p.put('.').write(v),
        MapPatternView::StarSuffix(v) => p.write("*."@).write(v),
        MapPatternView::StarPrefix(v) => p.write(v).write(".*"@),
        MapPatternView::Regex(v) => p.put('~').write(v),
    }
}

/// The page with the first `n` included files of a `map` block written
/// behind it, each on a line.
pub open spec fn render_includes(list: Seq<Seq<char>>, n: int, p: Page) -> Page
    decreases n,
{
    if n <= 0 {
        p
    } else {
        render_includes(list, n - 1, p).indent().write("include "@).write(list[n - 1]).end()
    }
}

/// The page with the first `n` patterns of a `map` block written behind
/// it with their values, each on a line.
pub open spec fn render_patterns(list: Seq<(MapPatternView, ValueView)>, n: int, p: Page) -> Page
    decreases n,
{
    if n <= 0 {
        p
    } else {
        render_value(
            list[n - 1].1,
            render_pattern(list[n - 1].0, render_patterns(list, n - 1, p).indent()).put(' '),
        ).end()
    }
}

/// The page behind the line on which a `map` block opens.
pub open spec fn map_head(m: MapBlockView, p: Page) -> Page {
    render_value(m.expression, p.margin().indent().write("map "@)).write(" $"@).write(
        m.variable,
    ).put(' ').start_block()
}

/// The page behind the switches and the default of a `map` block.
pub open spec fn map_settings(m: MapBlockView, p: Page) -> Page {
    let a = if m.volatile {
        p.indent().write("volatile"@).end()
    } else {
        p
    };
    let b = if m.hostnames {
        a.indent().write("hostnames"@).end()
    } else {
        a
    };
    match m.default {
        Some(v) => render_value(v, b.indent().write("default "@)).end(),
        None => b,
    }
}

/// A `map` block: its switches, its default, its included files and its
/// patterns, in this order.
pub open spec fn render_map(m: MapBlockView, p: Page) -> Page {
    render_patterns(
        m.patterns,
        m.patterns.len() as int,
        render_includes(m.includes, m.includes.len() as int, map_settings(m, map_head(m, p))),
    ).end_block(p.indent)
}

/// The page with a source of requests written behind it.
pub open spec fn render_network(ip: IpAddress, bits: Option<u8>, p: Page) -> Page {
    match bits {
        Some(n) => p.write(ip_text(ip)).put('/').write(decimal(n as nat)),
        None => p.write(ip_text(ip)),
    }
}

/// `allow source;` or `deny source;`
pub open spec fn render_source(name: Seq<char>, source: Source, p: Page) -> Page {
    let q = p.indent().write(name).put(' ');
    match source {
        Source::All => q.write("all"@).end(),
        Source::Unix => q.write("unix:"@).end(),
        Source::Ip(ip) => render_network(ip, None, q).end(),
        Source::Network(ip, bits) => render_network(ip, Some(bits), q).end(),
    }
}

/// `set_real_ip_from source;`
pub open spec fn render_real_ip_from(source: RealIpFrom, p: Page) -> Page {
    let q = p.indent().write("set_real_ip_from"@).put(' ');
    match source {
        RealIpFrom::Unix => q.write("unix:"@).end(),
        RealIpFrom::Ip(ip) => render_network(ip, None, q).end(),
        RealIpFrom::Network(ip, bits) => render_network(ip, Some(bits), q).end(),
    }
}

/// `keepalive_timeout time [time];`
pub open spec fn render_keepalive(a: ValueView, b: Option<ValueView>, p: Page) -> Page {
    let q = render_value(a, p.indent().write("keepalive_timeout"@).put(' '));
    match b {
        Some(v) => render_value(v, q.put(' ')).end(),
        None => q.end(),
    }
}

/// `error_log file [level];`
pub open spec fn render_error_log(file: ValueView, level: Option<ErrorLevel>, p: Page) -> Page {
    let q = render_value(file, p.indent().write("error_log"@).put(' '));
    match level {
        Some(l) => q.put(' ').write(level_words()[l.index()]).end(),
        None => q.end(),
    }
}

/// The page with the options of `access_log` written behind the path.
pub open spec fn render_log_options(o: AccessLogOptionsView, p: Page) -> Page {
    let a = match o.format {
        Some(x) => p.put(' ').write(x),
        None => p,
    };
    let b = match o.buffer {
        Some(x) => a.write(" buffer="@).write(x),
        None => a,
    };
    let c = match o.gzip {
        Some(Some(level)) => b.write(" gzip="@).write(decimal(level as nat)),
        Some(None) => b.write(" gzip"@),
        None => b,
    };
    let d = match o.flush {
        Some(x) => c.write(" flush="@).write(x),
        None => c,
    };
    match o.condition {
        Some(v) => render_value(v, d.write(" if="@)),
        None => d,
    }
}

/// `access_log off;` or `access_log` with a path and options.
pub open spec fn render_access_log(l: AccessLogView, p: Page) -> Page {
    match l {
        AccessLogView::Off => p.indent().write("access_log off"@).end(),
        AccessLogView::On(o) => render_log_options(
            o,
            render_value(o.path, p.indent().write("access_log "@)),
        ).end(),
    }
}

/// The page with an address to listen on written behind it.
pub open spec fn render_address(a: AddressView, p: Page) -> Page {
    match a {
        AddressView::Ip(sa) => p.write(socket_text(sa)),
        AddressView::StarPort(port) => p.write("*:"@).write(decimal(port as nat)),
        AddressView::Port(port) => p.write(decimal(port as nat)),
        AddressView::Unix(path) => p.write("unix:"@).write(path),
    }
}

/// The page with the options of `listen` that come before the sizes of
/// the buffers.
pub open spec fn listen_first(l: ListenView, p: Page) -> Page {
    let a = if l.default_server {
        p.write(" default_server"@)
    } else {
        p
    };
    let b = if l.ssl {
        a.write(" ssl"@)
    } else {
        a
    };
    let c = match l.ext {
        Some(HttpExt::Http2) => b.write(" http2"@),
        Some(HttpExt::Spdy) => b.write(" spdy"@),
        None => b,
    };
    let d = if l.proxy_protocol {
        c.write(" proxy_protocol"@)
    } else {
        c
    };
    let e = match l.setfib {
        Some(n) => d.write(" setfib="@).write(signed_decimal(n as int)),
        None => d,
    };
    let f = match l.fastopen {
        Some(n) => e.write(" fastopen="@).write(decimal(n as nat)),
        None => e,
    };
    match l.backlog {
        Some(n) => f.write(" backlog="@).write(signed_decimal(n as int)),
        None => f,
    }
}

/// The page with the sizes of the buffers and the last options of
/// `listen`.
pub open spec fn listen_rest(l: ListenView, p: Page) -> Page {
    let a = match l.rcvbuf {
        Some(n) => p.write(" rcvbuf="@).write(decimal(n as nat)),
        None => p,
    };
    let b = match l.sndbuf {
        Some(n) => a.write(" sndbuf="@).write(decimal(n as nat)),
        None => a,
    };
    let c = if l.deferred {
        b.write(" deferred"@)
    } else {
        b
    };
    let d = if l.bind {
        c.write(" bind"@)
    } else {
        c
    };
    let e = match l.ipv6only {
        Some(true) => d.write(" ipv6only=on"@),
        Some(false) => d.write(" ipv6only=off"@),
        None => d,
    };
    if l.reuseport {
        e.write(" reuseport"@)
    } else {
        e
    }
}

/// `listen` with its address and its options, behind the spaces that
/// start the line.
pub open spec fn render_listen(l: ListenView, p: Page) -> Page {
    listen_rest(l, listen_first(l, render_address(l.address, p.write("listen "@)))).end()
}

/// The text of the pattern of a `location`.
pub open spec fn render_location_pattern(pattern: LocationPatternView, p: Page) -> Page {
    match pattern {
        LocationPatternView::Prefix(v) => p.write(v),
        LocationPatternView::Exact(v) => p.write("= "@).write(v),
        LocationPatternView::FinalPrefix(v) => p.write("^~ "@).write(v),
        LocationPatternView::Regex(v) => p.write("~ "@).write(v),
        LocationPatternView::RegexInsensitive(v) => p.write("~* "@).write(v),
        LocationPatternView::Named(v) => p.put('@').write(v),
    }
}

/// The page with the condition of an `if` written behind it.
pub open spec fn render_condition(c: IfConditionView, p: Page) -> Page {
    match c {
        IfConditionView::NonEmpty(v) => render_value(v, p),
        IfConditionView::Eq(v, s) => render_value(v, p).write(" = "@).write(s),
        IfConditionView::Neq(v, s) => render_value(v, p).write(" != "@).write(s),
        IfConditionView::RegEq(v, r, case) => render_value(v, p).write(
            if case {
                " ~ "@
            } else {
                " ~* "@
            },
        ).write(r),
        IfConditionView::RegNeq(v, r, case) => render_value(v, p).write(
            if case {
                " !~ "@
            } else {
                " !~* "@
            },
        ).write(r),
        IfConditionView::Exists(v) => render_value(v, p.write("-e "@)),
        IfConditionView::NotExists(v) => render_value(v, p.write("!-e "@)),
        IfConditionView::FileExists(v) => render_value(v, p.write("-f "@)),
        IfConditionView::FileNotExists(v) => render_value(v, p.write("!-f "@)),
        IfConditionView::DirExists(v) => render_value(v, p.write("-d "@)),
        IfConditionView::DirNotExists(v) => render_value(v, p.write("!-d "@)),
        IfConditionView::Executable(v) => render_value(v, p.write("-x "@)),
        IfConditionView::NotExecutable(v) => render_value(v, p.write("!-x "@)),
    }
}

/// The page `p` with a directive that has no block written behind it.
pub open spec fn render_leaf(item: ItemView, p: Page) -> Page {
    match item {
        ItemView::Daemon(on) => render_toggle("daemon"@, on, p),
        ItemView::MasterProcess(on) => render_toggle("master_process"@, on, p),
        ItemView::WorkerProcesses(w) => render_workers(w, p),
        ItemView::Listen(l) => render_listen(l, p.indent()),
        ItemView::ProxyPass(v) => render_single("proxy_pass"@, v, p),
        ItemView::ProxySetHeader { field, value } => render_pair("proxy_set_header"@, field, value, p),
        ItemView::ProxyMethod(v) => render_single("proxy_method"@, v, p),
        ItemView::ProxyReadTimeout(v) => render_single("proxy_read_timeout"@, v, p),
        ItemView::ProxyConnectTimeout(v) => render_single("proxy_connect_timeout"@, v, p),
        ItemView::ProxyHideHeader(v) => render_single("proxy_hide_header"@, v, p),
        ItemView::ProxyPassHeader(v) => render_single("proxy_pass_header"@, v, p),
        ItemView::ProxyPassRequestBody(on) => render_toggle("proxy_pass_request_body"@, on, p),
        ItemView::ProxyPassRequestHeaders(on) => render_toggle("proxy_pass_request_headers"@, on, p),
        ItemView::ProxyHttpVersion(v) => render_version(v, p),
        ItemView::ProxyIgnoreHeaders(v) => render_ignore_headers(v, p),
        ItemView::ProxyInterceptErrors(on) => render_toggle("proxy_intercept_errors"@, on, p),
        ItemView::ProxyBuffering(on) => render_toggle("proxy_buffering"@, on, p),
        ItemView::ProxyCache(v) => render_single("proxy_cache"@, v, p),
        ItemView::ProxyCacheKey(v) => render_single("proxy_cache_key"@, v, p),
        ItemView::ProxyCacheValid(v) => render_cache_valid(v, p),
        ItemView::ProxyNextUpstreamTries(v) => render_single("proxy_next_upstream_tries"@, v, p),
        ItemView::ProxyNextUpstreamTimeout(v) => render_single("proxy_next_upstream_timeout"@, v, p),
        ItemView::ProxyNextUpstream(v) => render_next_upstream(v, p),
        ItemView::Gzip(on) => render_toggle("gzip"@, on, p),
        ItemView::GzipStatic(v) => render_gzip_static(v, p),
        ItemView::GzipProxied(v) => render_gzip_proxied(v, p),
        ItemView::AddHeader(v) => render_add_header(v, p),
        ItemView::Expires(v) => render_expires(v, p),
        ItemView::Root(v) => render_single("root"@, v, p),
        ItemView::Alias(v) => render_single("alias"@, v, p),
        ItemView::ErrorPage(v) => render_error_page(v, p),
        ItemView::DefaultType(v) => render_single("default_type"@, v, p),
        ItemView::ErrorLog { file, level } => render_error_log(file, level, p),
        ItemView::Rewrite(v) => render_rewrite(v, p),
        ItemView::Return(v) => render_return(v, p),
        ItemView::TryFiles(v) => render_try_files(v, p),
        ItemView::ServerName(v) => render_server_name(v, p),
        ItemView::SetVar { variable, value } => render_set(variable, value, p),
        ItemView::MapBlock(v) => render_map(v, p),
        ItemView::ClientMaxBodySize(v) => render_single("client_max_body_size"@, v, p),
        ItemView::Include(v) => render_single("include"@, v, p),
        ItemView::EmptyGif => p.indent().write("empty_gif"@).end(),
        ItemView::Internal => p.indent().write("internal"@).end(),
        ItemView::Etag(on) => render_toggle("etag"@, on, p),
        ItemView::RecursiveErrorPages(on) => render_toggle("recursive_error_pages"@, on, p),
        ItemView::ChunkedTransferEncoding(on) => render_toggle("chunked_transfer_encoding"@, on, p),
        ItemView::KeepaliveTimeout(a, b) => render_keepalive(a, b, p),
        ItemView::ServerTokens(v) => render_single("server_tokens"@, v, p),
        ItemView::SslCertificate(v) => render_single("ssl_certificate"@, v, p),
        ItemView::SslCertificateKey(v) => render_single("ssl_certificate_key"@, v, p),
        ItemView::RewriteByLuaFile(v) => render_single("rewrite_by_lua_file"@, v, p),
        ItemView::BalancerByLuaFile(v) => render_single("balancer_by_lua_file"@, v, p),
        ItemView::AccessByLuaFile(v) => render_single("access_by_lua_file"@, v, p),
        ItemView::HeaderFilterByLuaFile(v) => render_single("header_filter_by_lua_file"@, v, p),
        ItemView::ContentByLuaFile(v) => render_single("content_by_lua_file"@, v, p),
        ItemView::BodyFilterByLuaFile(v) => render_single("body_filter_by_lua_file"@, v, p),
        ItemView::LogByLuaFile(v) => render_single("log_by_lua_file"@, v, p),
        ItemView::LuaNeedRequestBody(v) => render_single("lua_need_request_body"@, v, p),
        ItemView::SslCertificateByLuaFile(v) => render_single("ssl_certificate_by_lua_file"@, v, p),
        ItemView::SslSessionFetchByLuaFile(v) => render_single("ssl_session_fetch_by_lua_file"@, v, p),
        ItemView::SslSessionStoreByLuaFile(v) => render_single("ssl_session_store_by_lua_file"@, v, p),
        ItemView::Allow(v) => render_source("allow"@, v, p),
        ItemView::Deny(v) => render_source("deny"@, v, p),
        ItemView::AccessLog(v) => render_access_log(v, p),
        ItemView::RealIpHeader(v) => render_single("real_ip_header"@, v, p),
        ItemView::RealIpRecursive(on) => render_toggle("real_ip_recursive"@, on, p),
        ItemView::SetRealIpFrom(v) => render_real_ip_from(v, p),
        ItemView::Index(v) => render_index(v, p),
        _ => p,
    }
}

/// The page behind the line on which a block with the name `name` opens,
/// after an empty line.
pub open spec fn block_head(name: Seq<char>, p: Page) -> Page {
    p.margin().indent().write(name).put(' ')
}

/// The page `p` with the directive `item` written behind it.
pub open spec fn render_item(item: ItemView, p: Page) -> Page
    decreases item, 0nat,
{
    match item {
        ItemView::Http(b) => render_directives(
            b.directives,
            b.directives.len(),
            block_head("http"@, p).start_block(),
        ).end_block(p.indent),
        ItemView::Server(b) => render_directives(
            b.directives,
            b.directives.len(),
            block_head("server"@, p).start_block(),
        ).end_block(p.indent),
        ItemView::Location(l) => render_directives(
            l.directives,
            l.directives.len(),
            render_location_pattern(l.pattern, block_head("location"@, p)).put(' ').start_block(),
        ).end_block(p.indent),
        ItemView::LimitExcept(l) => render_directives(
            l.directives,
            l.directives.len(),
            render_texts(
                l.methods,
                l.methods.len() as int,
                p.margin().indent().write("limit_except"@),
            ).put(' ').start_block(),
        ).end_block(p.indent),
        ItemView::If(i) => render_directives(
            i.directives,
            i.directives.len(),
            render_condition(i.condition, p.indent().write("if ("@)).write(") "@).start_block(),
        ).end_block(p.indent),
        _ => render_leaf(item, p),
    }
}

/// The page `p` with the first `n` directives of `list` written behind
/// it.
pub open spec fn render_directives(list: Seq<DirectiveView>, n: nat, p: Page) -> Page
    decreases list, n,
{
    if n == 0 || n > list.len() {
        p
    } else {
        render_item(list[n - 1].item, render_directives(list, (n - 1) as nat, p))
    }
}

/// The text of a whole configuration, with four spaces for each level.
pub open spec fn main_text(m: MainView) -> Seq<char> {
    render_directives(m.directives, m.directives.len(), Page::blank(4)).text
}

/// The text of one directive, with four spaces for each level.
pub open spec fn item_text(item: ItemView) -> Seq<char> {
    render_item(item, Page::blank(4)).text
}

/// Writes a switch.
fn display_toggle(name: &str, on: bool, f: &mut Formatter)
    ensures
        final(f)@ == render_toggle(name@, on, old(f)@),
{
    f.indent();
    f.write(name);
    f.put(' ');
    f.write(
        if on {
            "on"
        } else {
            "off"
        },
    );
    f.end();
}

/// Writes a directive of one value.
fn one_arg_dir(name: &str, val: &Value, f: &mut Formatter)
    ensures
        final(f)@ == render_single(name@, val@, old(f)@),
{
    f.indent();
    f.write(name);
    f.put(' ');
    val.display(f);
    f.end();
}

/// Writes a directive of two values.
fn display_pair(name: &str, a: &Value, b: &Value, f: &mut Formatter)
    ensures
        final(f)@ == render_pair(name@, a@, b@, old(f)@),
{
    f.indent();
    f.write(name);
    f.put(' ');
    a.display(f);
    f.put(' ');
    b.display(f);
    f.end();
}

/// Writes `set $variable value;`.
fn display_set(variable: &String, value: &Value, f: &mut Formatter)
    ensures
        final(f)@ == render_set(variable@, value@, old(f)@),
{
    f.indent();
    f.write("set $");
    f.write(variable.as_str());
    f.put(' ');
    value.display(f);
    f.end();
}

/// Writes `worker_processes`.
fn display_workers(w: WorkerProcesses, f: &mut Formatter)
    ensures
        final(f)@ == render_workers(w, old(f)@),
{
    f.indent();
    match w {
        WorkerProcesses::Auto => {
            f.write("worker_processes auto");
        },
        WorkerProcesses::Exact(n) => {
            f.write("worker_processes ");
            f.number(n as u64);
        },
    }
    f.end();
}

/// Writes `proxy_http_version`.
fn display_version(v: ProxyHttpVersion, f: &mut Formatter)
    ensures
        final(f)@ == render_version(v, old(f)@),
{
    f.indent();
    match v {
        ProxyHttpVersion::V1_0 => f.write("proxy_http_version 1.0"),
        ProxyHttpVersion::V1_1 => f.write("proxy_http_version 1.1"),
    }
    f.end();
}

/// Writes the texts of `list`, a blank before each.
fn display_texts(list: &Vec<String>, f: &mut Formatter)
    ensures
        final(f)@ == render_texts(seq_view(list@), list.len() as int, old(f)@),
{
    let mut i: usize = 0;
    while i < list.len()
        invariant
            i <= list.len(),
            f@ == render_texts(seq_view(list@), i as int, old(f)@),
        decreases list.len() - i,
    {
        f.put(' ');
        f.write(list[i].as_str());
        i += 1;
    }
}

/// Writes the values of `list`, a blank before each.
fn display_values(list: &Vec<Value>, f: &mut Formatter)
    ensures
        final(f)@ == render_values(seq_view(list@), list.len() as int, old(f)@),
{
    let mut i: usize = 0;
    while i < list.len()
        invariant
            i <= list.len(),
            f@ == render_values(seq_view(list@), i as int, old(f)@),
        decreases list.len() - i,
    {
        f.put(' ');
        list[i].display(f);
        i += 1;
    }
}

/// Writes the numbers of `list`, a blank before each.
fn display_numbers(list: &Vec<u32>, f: &mut Formatter)
    ensures
        final(f)@ == render_numbers(list@, list.len() as int, old(f)@),
{
    let mut i: usize = 0;
    while i < list.len()
        invariant
            i <= list.len(),
            f@ == render_numbers(list@, i as int, old(f)@),
        decreases list.len() - i,
    {
        f.put(' ');
        f.number(list[i] as u64);
        i += 1;
    }
}

/// Writes `proxy_ignore_headers`.
fn display_ignore_headers(v: &Vec<String>, f: &mut Formatter)
    ensures
        final(f)@ == render_ignore_headers(seq_view(v@), old(f)@),
{
    f.indent();
    f.write("proxy_ignore_headers");
    display_texts(v, f);
    f.end();
}

/// Writes `index`.
fn display_index(v: &Vec<Value>, f: &mut Formatter)
    ensures
        final(f)@ == render_index(seq_view(v@), old(f)@),
{
    f.indent();
    f.write("index");
    display_values(v, f);
    f.end();
}

/// Writes `proxy_cache_valid`.
fn display_cache_valid(v: &ProxyCacheValid, f: &mut Formatter)
    ensures
        final(f)@ == render_cache_valid(v@, old(f)@),
{
    f.indent();
    f.write("proxy_cache_valid");
    match v {
        ProxyCacheValid::Normal(time) => {
            f.put(' ');
            time.display(f);
        },
        ProxyCacheValid::Specific(codes, time) => {
            display_numbers(codes, f);
            f.put(' ');
            time.display(f);
        },
        ProxyCacheValid::Any(time) => {
            f.write(" any ");
            time.display(f);
        },
    }
    f.end();
}

/// Writes `proxy_next_upstream`.
fn display_next_upstream(v: &Vec<ProxyNextUpstreamFlag>, f: &mut Formatter)
    ensures
        final(f)@ == render_next_upstream(v@, old(f)@),
{
    f.indent();
    f.write("proxy_next_upstream");
    let ghost start = f@;
    let mut i: usize = 0;
    while i < v.len()
        invariant
            i <= v.len(),
            f@ == render_flags(v@, i as int, start),
        decreases v.len() - i,
    {
        f.put(' ');
        f.write(v[i].as_str());
        i += 1;
    }
    f.end();
}

/// Writes `gzip_static`.
fn display_gzip_static(v: GzipStatic, f: &mut Formatter)
    ensures
        final(f)@ == render_gzip_static(v, old(f)@),
{
    f.indent();
    f.write("gzip_static ");
    f.write(
        match v {
            GzipStatic::On => "on",
            GzipStatic::Off => "off",
            GzipStatic::Always => "always",
        },
    );
    f.end();
}

/// Writes `gzip_proxied`.
fn display_gzip_proxied(v: &Vec<GzipProxied>, f: &mut Formatter)
    ensures
        final(f)@ == render_gzip_proxied(v@, old(f)@),
{
    f.indent();
    f.write("gzip_proxied");
    let ghost start = f@;
    let mut i: usize = 0;
    while i < v.len()
        invariant
            i <= v.len(),
            f@ == render_proxied(v@, i as int, start),
        decreases v.len() - i,
    {
        f.put(' ');
        f.write(v[i].as_str());
        i += 1;
    }
    f.end();
}

/// Writes `add_header`.
fn display_add_header(h: &AddHeader, f: &mut Formatter)
    ensures
        final(f)@ == render_add_header(h@, old(f)@),
{
    f.indent();
    f.write("add_header ");
    h.field.display(f);
    f.put(' ');
    h.value.display(f);
    if h.always {
        f.write(" always");
    }
    f.end();
}

/// Writes `expires`.
fn display_expires(e: &Expires, f: &mut Formatter)
    ensures
        final(f)@ == render_expires(e@, old(f)@),
{
    f.indent();
    f.write("expires ");
    if e.modified {
        f.write("modified ");
    }
    e.value.display(f);
    f.end();
}

/// Writes `error_page`.
fn display_error_page(ep: &ErrorPage, f: &mut Formatter)
    ensures
        final(f)@ == render_error_page(ep@, old(f)@),
{
    f.indent();
    f.write("error_page");
    display_numbers(&ep.codes, f);
    match ep.response_code {
        ErrorPageResponse::Target => {},
        ErrorPageResponse::Replace(code) => {
            f.write(" =");
            f.number(code as u64);
        },
        ErrorPageResponse::Redirect(code) => {
            f.write(" =");
            f.number(code as u64);
        },
        ErrorPageResponse::Keep => {
            f.write(" =");
        },
    }
    f.put(' ');
    ep.uri.display(f);
    f.end();
}

/// Writes `rewrite`.
fn display_rewrite(rw: &Rewrite, f: &mut Formatter)
    ensures
        final(f)@ == render_rewrite(rw@, old(f)@),
{
    f.indent();
    f.write("rewrite ");
    f.write(rw.regex.as_str());
    f.put(' ');
    rw.replacement.display(f);
    f.write(
        match rw.flag {
            Some(RewriteFlag::Last) => " last",
            Some(RewriteFlag::Break) => " break",
            Some(RewriteFlag::Redirect) => " redirect",
            Some(RewriteFlag::Permanent) => " permanent",
            None => "",
        },
    );
    f.end();
}

/// Writes `return`.
fn display_return(ret: &Return, f: &mut Formatter)
    ensures
        final(f)@ == render_return(ret@, old(f)@),
{
    f.indent();
    f.write("return ");
    match ret {
        Return::Redirect { code: None, url } => {
            url.display(f);
        },
        Return::Redirect { code: Some(code), url } => {
            f.number(*code as u64);
            f.put(' ');
            url.display(f);
        },
        Return::Text { code, text } => {
            f.number(*code as u64);
            match text {
                Some(v) => {
                    f.put(' ');
                    v.display(f);
                },
                None => {},
            }
        },
    }
    f.end();
}

/// Writes `try_files`.
fn display_try_files(tf: &TryFiles, f: &mut Formatter)
    ensures
        final(f)@ == render_try_files(tf@, old(f)@),
{
    f.indent();
    f.write("try_files ");
    let ghost start = f@;
    let mut i: usize = 0;
    while i < tf.options.len()
        invariant
            i <= tf.options.len(),
            f@ == render_options(seq_view(tf.options@), i as int, start),
        decreases tf.options.len() - i,
    {
        tf.options[i].display(f);
        f.put(' ');
        i += 1;
    }
    match &tf.last_option {
        TryFilesLastOption::Uri(v) => {
            v.display(f);
        },
        TryFilesLastOption::NamedLocation(loc) => {
            f.put('@');
            f.write(loc.as_str());
        },
        TryFilesLastOption::Code(code) => {
            f.put('=');
            f.number(*code as u64);
        },
    }
    f.end();
}

/// Writes the name of a server behind a blank.
fn display_name(name: &ServerName, f: &mut Formatter)
    ensures
        final(f)@ == render_name(name@, old(f)@),
{
    match name {
        ServerName::Exact(v) => {
            f.put(' ');
            f.write(v.as_str());
        },
        ServerName::Suffix(v) => {
            f.write(" .");
            f.write(v.as_str());
        },
        ServerName::StarSuffix(v) => {
            f.write(" *.");
            f.write(v.as_str());
        },
        ServerName::StarPrefix(v) => {
            f.put(' ');
            f.write(v.as_str());
            f.write(".*");
        },
        ServerName::Regex(v) => {
            f.write(" ~");
            f.write(v.as_str());
        },
    }
}

/// Writes `server_name`.
fn display_server_name(v: &Vec<ServerName>, f: &mut Formatter)
    ensures
        final(f)@ == render_server_name(seq_view(v@), old(f)@),
{
    f.indent();
    f.write("server_name");
    let ghost start = f@;
    let mut i: usize = 0;
    while i < v.len()
        invariant
            i <= v.len(),
            f@ == render_names(seq_view(v@), i as int, start),
        decreases v.len() - i,
    {
        display_name(&v[i], f);
        i += 1;
    }
    f.end();
}

/// Whether `v` is a word that a `map` block gives a meaning of its own.
fn reserved(v: &str) -> (r: bool)
    ensures
        r == is_reserved(v@),
{
    str_eq(v, "volatile") || str_eq(v, "hostnames") || str_eq(v, "default") || str_eq(
        v,
        "include",
    )
}

/// Writes a pattern of a `map` block.
fn display_pattern(pattern: &MapPattern, f: &mut Formatter)
    ensures
        final(f)@ == render_pattern(pattern@, old(f)@),
{
    match pattern {
        MapPattern::Exact(v) => {
            if reserved(v.as_str()) {
                f.put('\\');
            }
            f.write(v.as_str());
        },
        MapPattern::Suffix(v) => {
            f.put('.');
            f.write(v.as_str());
        },
        MapPattern::StarSuffix(v) => {
            f.write("*.");
            f.write(v.as_str());
        },
        MapPattern::StarPrefix(v) => {
            f.write(v.as_str());
            f.write(".*");
        },
        MapPattern::Regex(v) => {
            f.put('~');
            f.write(v.as_str());
        },
    }
}

/// Writes a `map` block.
fn display_map(m: &MapBlock, f: &mut Formatter)
    ensures
        final(f)@ == render_map(m@, old(f)@),
{
    let level = f.level();
    f.margin();
    f.indent();
    f.write("map ");
    m.expression.display(f);
    f.write(" $");
    f.write(m.variable.as_str());
    f.put(' ');
    f.start_block();
    if m.volatile {
        f.indent();
        f.write("volatile");
        f.end();
    }
    if m.hostnames {
        f.indent();
        f.write("hostnames");
        f.end();
    }
    match &m.default {
        Some(def) => {
            f.indent();
            f.write("default ");
            def.display(f);
            f.end();
        },
        None => {},
    }
    let ghost start = f@;
    let mut i: usize = 0;
    while i < m.includes.len()
        invariant
            i <= m.includes.len(),
            f@ == render_includes(seq_view(m.includes@), i as int, start),
        decreases m.includes.len() - i,
    {
        f.indent();
        f.write("include ");
        f.write(m.includes[i].as_str());
        f.end();
        i += 1;
    }
    let ghost middle = f@;
    let mut k: usize = 0;
    while k < m.patterns.len()
        invariant
            k <= m.patterns.len(),
            f@ == render_patterns(patterns_view(m.patterns@), k as int, middle),
        decreases m.patterns.len() - k,
    {
        f.indent();
        display_pattern(&m.patterns[k].0, f);
        f.put(' ');
        m.patterns[k].1.display(f);
        f.end();
        k += 1;
    }
    f.end_block(level);
}

/// Writes an address, or an address and the length of a prefix.
fn display_network(ip: IpAddress, bits: Option<u8>, f: &mut Formatter)
    ensures
        final(f)@ == render_network(ip, bits, old(f)@),
{
    let mut text = String::new();
    ip.write(&mut text);
    assert(text@ =~= ip_text(ip));
    f.write(text.as_str());
    match bits {
        Some(n) => {
            f.put('/');
            f.number(n as u64);
        },
        None => {},
    }
}

/// Writes `allow` or `deny`.
fn display_source(name: &str, source: Source, f: &mut Formatter)
    ensures
        final(f)@ == render_source(name@, source, old(f)@),
{
    f.indent();
    f.write(name);
    f.put(' ');
    match source {
        Source::All => f.write("all"),
        Source::Unix => f.write("unix:"),
        Source::Ip(ip) => display_network(ip, None, f),
        Source::Network(ip, bits) => display_network(ip, Some(bits), f),
    }
    f.end();
}

/// Writes `set_real_ip_from`.
fn display_real_ip_from(source: RealIpFrom, f: &mut Formatter)
    ensures
        final(f)@ == render_real_ip_from(source, old(f)@),
{
    f.indent();
    f.write("set_real_ip_from");
    f.put(' ');
    match source {
        RealIpFrom::Unix => f.write("unix:"),
        RealIpFrom::Ip(ip) => display_network(ip, None, f),
        RealIpFrom::Network(ip, bits) => display_network(ip, Some(bits), f),
    }
    f.end();
}

/// Writes `keepalive_timeout`.
fn display_keepalive(a: &Value, b: &Option<Value>, f: &mut Formatter)
    ensures
        final(f)@ == render_keepalive(a@, option_view(*b), old(f)@),
{
    f.indent();
    f.write("keepalive_timeout");
    f.put(' ');
    a.display(f);
    match b {
        Some(v) => {
            f.put(' ');
            v.display(f);
        },
        None => {},
    }
    f.end();
}

/// Writes `error_log`.
fn display_error_log(file: &Value, level: Option<ErrorLevel>, f: &mut Formatter)
    ensures
        final(f)@ == render_error_log(file@, level, old(f)@),
{
    f.indent();
    f.write("error_log");
    f.put(' ');
    file.display(f);
    match level {
        Some(l) => {
            f.put(' ');
            f.write(l.as_str());
        },
        None => {},
    }
    f.end();
}

/// Writes `access_log`.
fn display_access_log(l: &AccessLog, f: &mut Formatter)
    ensures
        final(f)@ == render_access_log(l@, old(f)@),
{
    f.indent();
    match l {
        AccessLog::Off => {
            f.write("access_log off");
        },
        AccessLog::On(lg) => {
            f.write("access_log ");
            lg.path.display(f);
            match &lg.format {
                Some(x) => {
                    f.put(' ');
                    f.write(x.as_str());
                },
                None => {},
            }
            match &lg.buffer {
                Some(x) => {
                    f.write(" buffer=");
                    f.write(x.as_str());
                },
                None => {},
            }
            match lg.gzip {
                Some(Some(level)) => {
                    f.write(" gzip=");
                    f.number(level as u64);
                },
                Some(None) => {
                    f.write(" gzip");
                },
                None => {},
            }
            match &lg.flush {
                Some(x) => {
                    f.write(" flush=");
                    f.write(x.as_str());
                },
                None => {},
            }
            match &lg.condition {
                Some(v) => {
                    f.write(" if=");
                    v.display(f);
                },
                None => {},
            }
        },
    }
    f.end();
}

impl Address {
    /// Writes the address.
    pub fn display(&self, f: &mut Formatter)
        ensures
            final(f)@ == render_address(self@, old(f)@),
    {
        match self {
            Address::Ip(sa) => {
                let mut text = String::new();
                sa.write(&mut text);
                assert(text@ =~= socket_text(*sa));
                f.write(text.as_str());
            },
            Address::StarPort(p) => {
                f.write("*:");
                f.number(*p as u64);
            },
            Address::Port(p) => {
                f.number(*p as u64);
            },
            Address::Unix(path) => {
                f.write("unix:");
                f.write(path.as_str());
            },
        }
    }

    /// The text of the address.
    pub fn to_string(&self) -> (r: String)
        ensures
            r@ == render_address(self@, Page::blank(4)).text,
    {
        let mut f = Formatter::new(&Style::default());
        self.display(&mut f);
        f.into_string()
    }
}

impl Listen {
    /// Writes `listen` with its address and options and ends the line.
    pub fn display(&self, f: &mut Formatter)
        ensures
            final(f)@ == render_listen(self@, old(f)@),
    {
        f.write("listen ");
        self.address.display(f);
        if self.default_server {
            f.write(" default_server");
        }
        if self.ssl {
            f.write(" ssl");
        }
        match self.ext {
            Some(HttpExt::Http2) => f.write(" http2"),
            Some(HttpExt::Spdy) => f.write(" spdy"),
            None => {},
        }
        if self.proxy_protocol {
            f.write(" proxy_protocol");
        }
        if let Some(setfib) = self.setfib {
            f.write(" setfib=");
            f.signed(setfib as i64);
        }
        if let Some(fastopen) = self.fastopen {
            f.write(" fastopen=");
            f.number(fastopen as u64);
        }
        if let Some(backlog) = self.backlog {
            f.write(" backlog=");
            f.signed(backlog as i64);
        }
        if let Some(rcvbuf) = self.rcvbuf {
            f.write(" rcvbuf=");
            f.number(rcvbuf);
        }
        if let Some(sndbuf) = self.sndbuf {
            f.write(" sndbuf=");
            f.number(sndbuf);
        }
        if self.deferred {
            f.write(" deferred");
        }
        if self.bind {
            f.write(" bind");
        }
        match self.ipv6only {
            Some(true) => f.write(" ipv6only=on"),
            Some(false) => f.write(" ipv6only=off"),
            None => {},
        }
        if self.reuseport {
            f.write(" reuseport");
        }
        f.end();
    }

    /// The text of the directive.
    pub fn to_string(&self) -> (r: String)
        ensures
            r@ == render_listen(self@, Page::blank(4)).text,
    {
        let mut f = Formatter::new(&Style::default());
        self.display(&mut f);
        f.into_string()
    }
}

impl LocationPattern {
    /// Writes the pattern.
    pub fn display(&self, f: &mut Formatter)
        ensures
            final(f)@ == render_location_pattern(self@, old(f)@),
    {
        match self {
            LocationPattern::Prefix(p) => {
                f.write(p.as_str());
            },
            LocationPattern::Exact(p) => {
                f.write("= ");
                f.write(p.as_str());
            },
            LocationPattern::FinalPrefix(p) => {
                f.write("^~ ");
                f.write(p.as_str());
            },
            LocationPattern::Regex(p) => {
                f.write("~ ");
                f.write(p.as_str());
            },
            LocationPattern::RegexInsensitive(p) => {
                f.write("~* ");
                f.write(p.as_str());
            },
            LocationPattern::Named(name) => {
                f.put('@');
                f.write(name.as_str());
            },
        }
    }

    /// The text of the pattern.
    pub fn to_string(&self) -> (r: String)
        ensures
            r@ == render_location_pattern(self@, Page::blank(4)).text,
    {
        let mut f = Formatter::new(&Style::default());
        self.display(&mut f);
        f.into_string()
    }
}

impl IfCondition {
    /// Writes the condition.
    pub fn display(&self, f: &mut Formatter)
        ensures
            final(f)@ == render_condition(self@, old(f)@),
    {
        match self {
            IfCondition::NonEmpty(v) => {
                v.display(f);
            },
            IfCondition::Eq(v, s) => {
                v.display(f);
                f.write(" = ");
                f.write(s.as_str());
            },
            IfCondition::Neq(v, s) => {
                v.display(f);
                f.write(" != ");
                f.write(s.as_str());
            },
            IfCondition::RegEq(v, r, case) => {
                v.display(f);
                if *case {
                    f.write(" ~ ");
                } else {
                    f.write(" ~* ");
                }
                f.write(r.as_str());
            },
            IfCondition::RegNeq(v, r, case) => {
                v.display(f);
                if *case {
                    f.write(" !~ ");
                } else {
                    f.write(" !~* ");
                }
                f.write(r.as_str());
            },
            IfCondition::Exists(v) => {
                f.write("-e ");
                v.display(f);
            },
            IfCondition::NotExists(v) => {
                f.write("!-e ");
                v.display(f);
            },
            IfCondition::FileExists(v) => {
                f.write("-f ");
                v.display(f);
            },
            IfCondition::FileNotExists(v) => {
                f.write("!-f ");
                v.display(f);
            },
            IfCondition::DirExists(v) => {
                f.write("-d ");
                v.display(f);
            },
            IfCondition::DirNotExists(v) => {
                f.write("!-d ");
                v.display(f);
            },
            IfCondition::Executable(v) => {
                f.write("-x ");
                v.display(f);
            },
            IfCondition::NotExecutable(v) => {
                f.write("!-x ");
                v.display(f);
            },
        }
    }
}

/// Writes the line on which a block opens, after an empty line.
fn simple_block(f: &mut Formatter, name: &str)
    ensures
        final(f)@ == block_head(name@, old(f)@),
{
    f.margin();
    f.indent();
    f.write(name);
    f.put(' ');
}

/// Writes a directive that has no block.
#[verifier::rlimit(60)]
#[verifier::spinoff_prover]
fn display_leaf(item: &Item, f: &mut Formatter)
    ensures
        final(f)@ == render_leaf(item@, old(f)@),
{
    match item {
            Item::Daemon(on) => display_toggle("daemon", *on, f),
            Item::MasterProcess(on) => display_toggle("master_process", *on, f),
            Item::WorkerProcesses(w) => display_workers(*w, f),
            Item::Listen(l) => { f.indent(); l.display(f) },
            Item::ProxyPass(v) => one_arg_dir("proxy_pass", v, f),
            Item::ProxySetHeader { field, value } => display_pair("proxy_set_header", field, value, f),
            Item::ProxyMethod(v) => one_arg_dir("proxy_method", v, f),
            Item::ProxyReadTimeout(v) => one_arg_dir("proxy_read_timeout", v, f),
            Item::ProxyConnectTimeout(v) => one_arg_dir("proxy_connect_timeout", v, f),
            Item::ProxyHideHeader(v) => one_arg_dir("proxy_hide_header", v, f),
            Item::ProxyPassHeader(v) => one_arg_dir("proxy_pass_header", v, f),
            Item::ProxyPassRequestBody(on) => display_toggle("proxy_pass_request_body", *on, f),
            Item::ProxyPassRequestHeaders(on) => display_toggle("proxy_pass_request_headers", *on, f),
            Item::ProxyHttpVersion(v) => display_version(*v, f),
            Item::ProxyIgnoreHeaders(v) => display_ignore_headers(v, f),
            Item::ProxyInterceptErrors(on) => display_toggle("proxy_intercept_errors", *on, f),
            Item::ProxyBuffering(on) => display_toggle("proxy_buffering", *on, f),
            Item::ProxyCache(v) => one_arg_dir("proxy_cache", v, f),
            Item::ProxyCacheKey(v) => one_arg_dir("proxy_cache_key", v, f),
            Item::ProxyCacheValid(v) => display_cache_valid(v, f),
            Item::ProxyNextUpstreamTries(v) => one_arg_dir("proxy_next_upstream_tries", v, f),
            Item::ProxyNextUpstreamTimeout(v) => one_arg_dir("proxy_next_upstream_timeout", v, f),
            Item::ProxyNextUpstream(v) => display_next_upstream(v, f),
            Item::Gzip(on) => display_toggle("gzip", *on, f),
            Item::GzipStatic(v) => display_gzip_static(*v, f),
            Item::GzipProxied(v) => display_gzip_proxied(v, f),
            Item::AddHeader(v) => display_add_header(v, f),
            Item::Expires(v) => display_expires(v, f),
            Item::Root(v) => one_arg_dir("root", v, f),
            Item::Alias(v) => one_arg_dir("alias", v, f),
            Item::ErrorPage(v) => display_error_page(v, f),
            Item::DefaultType(v) => one_arg_dir("default_type", v, f),
            Item::ErrorLog { file, level } => display_error_log(file, *level, f),
            Item::Rewrite(v) => display_rewrite(v, f),
            Item::Return(v) => display_return(v, f),
            Item::TryFiles(v) => display_try_files(v, f),
            Item::ServerName(v) => display_server_name(v, f),
            Item::SetVar { variable, value } => display_set(variable, value, f),
            Item::MapBlock(v) => display_map(v, f),
            Item::ClientMaxBodySize(v) => one_arg_dir("client_max_body_size", v, f),
            Item::Include(v) => one_arg_dir("include", v, f),
            Item::EmptyGif => {
                f.indent();
                f.write("empty_gif");
                f.end();
            },
            Item::Internal => {
                f.indent();
                f.write("internal");
                f.end();
            },
            Item::Etag(on) => display_toggle("etag", *on, f),
            Item::RecursiveErrorPages(on) => display_toggle("recursive_error_pages", *on, f),
            Item::ChunkedTransferEncoding(on) => display_toggle("chunked_transfer_encoding", *on, f),
            Item::KeepaliveTimeout(a, b) => display_keepalive(a, b, f),
            Item::ServerTokens(v) => one_arg_dir("server_tokens", v, f),
            Item::SslCertificate(v) => one_arg_dir("ssl_certificate", v, f),
            Item::SslCertificateKey(v) => one_arg_dir("ssl_certificate_key", v, f),
            Item::RewriteByLuaFile(v) => one_arg_dir("rewrite_by_lua_file", v, f),
            Item::BalancerByLuaFile(v) => one_arg_dir("balancer_by_lua_file", v, f),
            Item::AccessByLuaFile(v) => one_arg_dir("access_by_lua_file", v, f),
            Item::HeaderFilterByLuaFile(v) => one_arg_dir("header_filter_by_lua_file", v, f),
            Item::ContentByLuaFile(v) => one_arg_dir("content_by_lua_file", v, f),
            Item::BodyFilterByLuaFile(v) => one_arg_dir("body_filter_by_lua_file", v, f),
            Item::LogByLuaFile(v) => one_arg_dir("log_by_lua_file", v, f),
            Item::LuaNeedRequestBody(v) => one_arg_dir("lua_need_request_body", v, f),
            Item::SslCertificateByLuaFile(v) => one_arg_dir("ssl_certificate_by_lua_file", v, f),
            Item::SslSessionFetchByLuaFile(v) => one_arg_dir("ssl_session_fetch_by_lua_file", v, f),
            Item::SslSessionStoreByLuaFile(v) => one_arg_dir("ssl_session_store_by_lua_file", v, f),
            Item::Allow(v) => display_source("allow", *v, f),
            Item::Deny(v) => display_source("deny", *v, f),
            Item::AccessLog(v) => display_access_log(v, f),
            Item::RealIpHeader(v) => one_arg_dir("real_ip_header", v, f),
            Item::RealIpRecursive(on) => display_toggle("real_ip_recursive", *on, f),
            Item::SetRealIpFrom(v) => display_real_ip_from(*v, f),
            Item::Index(v) => display_index(v, f),

        Item::Http(_) => {},
        Item::Server(_) => {},
        Item::Location(_) => {},
        Item::LimitExcept(_) => {},
        Item::If(_) => {},
    }
}

/// Writes the directives of `list`.
pub fn display_all(list: &Vec<Directive>, f: &mut Formatter)
    ensures
        final(f)@ == render_directives(
            directives_view(list@),
            directives_view(list@).len(),
            old(f)@,
        ),
    decreases list,
{
    let mut i: usize = 0;
    proof {
        lemma_directives_view(list@);
    }
    while i < list.len()
        invariant
            i <= list.len(),
            directives_view(list@).len() == list.len(),
            forall|k: int| 0 <= k < list.len() ==> directives_view(list@)[k] == #[trigger] list@[k]@,
            f@ == render_directives(directives_view(list@), i as nat, old(f)@),
        decreases list.len() - i,
    {
        proof {
            broadcast use vstd::std_specs::vec::axiom_vec_index_decreases;
            let all = directives_view(list@);
            assert(all[i as int] == list@[i as int]@);
            assert(list@[i as int]@.item == list@[i as int].item@);
            assert(render_directives(all, (i + 1) as nat, old(f)@) == render_item(
                all[i as int].item,
                render_directives(all, i as nat, old(f)@),
            ));
        }
        list[i].item.display(f);
        i += 1;
    }
}

impl Item {
    /// Writes the directive.
    pub fn display(&self, f: &mut Formatter)
        ensures
            final(f)@ == render_item(self@, old(f)@),
        decreases self,
    {
        let level = f.level();
        match self {
            Item::Http(h) => {
                simple_block(f, "http");
                f.start_block();
                display_all(&h.directives, f);
                f.end_block(level);
            },
            Item::Server(s) => {
                simple_block(f, "server");
                f.start_block();
                display_all(&s.directives, f);
                f.end_block(level);
            },
            Item::Location(l) => {
                simple_block(f, "location");
                l.pattern.display(f);
                f.put(' ');
                f.start_block();
                display_all(&l.directives, f);
                f.end_block(level);
            },
            Item::LimitExcept(l) => {
                f.margin();
                f.indent();
                f.write("limit_except");
                display_texts(&l.methods, f);
                f.put(' ');
                f.start_block();
                display_all(&l.directives, f);
                f.end_block(level);
            },
            Item::If(i) => {
                f.indent();
                f.write("if (");
                i.condition.display(f);
                f.write(") ");
                f.start_block();
                display_all(&i.directives, f);
                f.end_block(level);
            },
            _ => {
                display_leaf(self, f);
            },
        }
    }

    /// The text of the directive, with four spaces for each level.
    pub fn to_string(&self) -> (r: String)
        ensures
            r@ == item_text(self@),
    {
        let mut f = Formatter::new(&Style::default());
        self.display(&mut f);
        f.into_string()
    }
}

impl Directive {
    /// Writes the directive.
    pub fn display(&self, f: &mut Formatter)
        ensures
            final(f)@ == render_item(self@.item, old(f)@),
    {
        self.item.display(f)
    }

    /// The text of the directive, with four spaces for each level.
    pub fn to_string(&self) -> (r: String)
        ensures
            r@ == item_text(self@.item),
    {
        self.item.to_string()
    }
}

impl Main {
    /// Writes the configuration.
    pub fn display(&self, f: &mut Formatter)
        ensures
            final(f)@ == render_directives(
                self@.directives,
                self@.directives.len(),
                old(f)@,
            ),
    {
        proof {
            lemma_directives_view(self.directives@);
        }
        display_all(&self.directives, f);
    }

    /// The text of the configuration, with four spaces for each level.
    pub fn to_string(&self) -> (r: String)
        ensures
            r@ == main_text(self@),
    {
        let mut f = Formatter::new(&Style::default());
        self.display(&mut f);
        f.into_string()
    }
}

} // verus!
