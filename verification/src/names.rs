//! The names of the directives are different words.

use vstd::prelude::*;
use crate::grammar::directive_names;
use crate::value::is_name_char;

verus! {

/// Whether `w` is made of letters, digits and underscores and is not
/// empty.
pub open spec fn is_plain_word(w: Seq<char>) -> bool {
    w.len() > 0 && forall|i: int| 0 <= i < w.len() ==> is_name_char(#[trigger] w[i])
}

/// The name at each place of the list of names.
pub proof fn lemma_names_listed()
    ensures
        directive_names().len() == 73,
        directive_names()[0] == "daemon"@,
        directive_names()[1] == "master_process"@,
        directive_names()[2] == "worker_processes"@,
        directive_names()[3] == "http"@,
        directive_names()[4] == "server"@,
        directive_names()[5] == "rewrite"@,
        directive_names()[6] == "set"@,
        directive_names()[7] == "return"@,
        directive_names()[8] == "if"@,
        directive_names()[9] == "try_files"@,
        directive_names()[10] == "include"@,
        directive_names()[11] == "ssl_certificate"@,
        directive_names()[12] == "ssl_certificate_key"@,
        directive_names()[13] == "location"@,
        directive_names()[14] == "add_header"@,
        directive_names()[15] == "expires"@,
        directive_names()[16] == "server_name"@,
        directive_names()[17] == "map"@,
        directive_names()[18] == "client_max_body_size"@,
        directive_names()[19] == "proxy_pass"@,
        directive_names()[20] == "proxy_set_header"@,
        directive_names()[21] == "proxy_method"@,
        directive_names()[22] == "proxy_cache"@,
        directive_names()[23] == "proxy_cache_key"@,
        directive_names()[24] == "proxy_cache_valid"@,
        directive_names()[25] == "proxy_read_timeout"@,
        directive_names()[26] == "proxy_connect_timeout"@,
        directive_names()[27] == "proxy_hide_header"@,
        directive_names()[28] == "proxy_pass_header"@,
        directive_names()[29] == "proxy_pass_request_headers"@,
        directive_names()[30] == "proxy_pass_request_body"@,
        directive_names()[31] == "proxy_intercept_errors"@,
        directive_names()[32] == "proxy_buffering"@,
        directive_names()[33] == "proxy_ignore_headers"@,
        directive_names()[34] == "proxy_http_version"@,
        directive_names()[35] == "proxy_next_upstream"@,
        directive_names()[36] == "proxy_next_upstream_tries"@,
        directive_names()[37] == "proxy_next_upstream_timeout"@,
        directive_names()[38] == "gzip"@,
        directive_names()[39] == "gzip_static"@,
        directive_names()[40] == "gzip_proxied"@,
        directive_names()[41] == "error_page"@,
        directive_names()[42] == "listen"@,
        directive_names()[43] == "limit_except"@,
        directive_names()[44] == "root"@,
        directive_names()[45] == "alias"@,
        directive_names()[46] == "default_type"@,
        directive_names()[47] == "internal"@,
        directive_names()[48] == "etag"@,
        directive_names()[49] == "server_tokens"@,
        directive_names()[50] == "recursive_error_pages"@,
        directive_names()[51] == "chunked_transfer_encoding"@,
        directive_names()[52] == "keepalive_timeout"@,
        directive_names()[53] == "error_log"@,
        directive_names()[54] == "allow"@,
        directive_names()[55] == "deny"@,
        directive_names()[56] == "access_log"@,
        directive_names()[57] == "real_ip_header"@,
        directive_names()[58] == "real_ip_recursive"@,
        directive_names()[59] == "set_real_ip_from"@,
        directive_names()[60] == "rewrite_by_lua_file"@,
        directive_names()[61] == "balancer_by_lua_file"@,
        directive_names()[62] == "access_by_lua_file"@,
        directive_names()[63] == "header_filter_by_lua_file"@,
        directive_names()[64] == "content_by_lua_file"@,
        directive_names()[65] == "body_filter_by_lua_file"@,
        directive_names()[66] == "log_by_lua_file"@,
        directive_names()[67] == "lua_need_request_body"@,
        directive_names()[68] == "ssl_certificate_by_lua_file"@,
        directive_names()[69] == "ssl_session_fetch_by_lua_file"@,
        directive_names()[70] == "ssl_session_store_by_lua_file"@,
        directive_names()[71] == "empty_gif"@,
        directive_names()[72] == "index"@,
{
}

/// What tells the names apart: the length, the first character and the
/// character in the middle.
pub open spec fn mark(w: Seq<char>) -> (nat, char, char) {
    (w.len(), w[0], w[(w.len() / 2) as int])
}

/// The marks of some of the names, and that these names are plain words.
proof fn lemma_marks_0()
    ensures
        mark("daemon"@) == (6nat, 'd', 'm'),
        is_plain_word("daemon"@),
        mark("master_process"@) == (14nat, 'm', 'p'),
        is_plain_word("master_process"@),
        mark("worker_processes"@) == (16nat, 'w', 'r'),
        is_plain_word("worker_processes"@),
        mark("http"@) == (4nat, 'h', 't'),
        is_plain_word("http"@),
        mark("server"@) == (6nat, 's', 'v'),
        is_plain_word("server"@),
        mark("rewrite"@) == (7nat, 'r', 'r'),
        is_plain_word("rewrite"@),
        mark("set"@) == (3nat, 's', 'e'),
        is_plain_word("set"@),
        mark("return"@) == (6nat, 'r', 'u'),
        is_plain_word("return"@),
{
    reveal_strlit("daemon");
    reveal_strlit("master_process");
    reveal_strlit("worker_processes");
    reveal_strlit("http");
    reveal_strlit("server");
    reveal_strlit("rewrite");
    reveal_strlit("set");
    reveal_strlit("return");
}

/// The marks of some of the names, and that these names are plain words.
proof fn lemma_marks_1()
    ensures
        mark("if"@) == (2nat, 'i', 'f'),
        is_plain_word("if"@),
        mark("try_files"@) == (9nat, 't', 'f'),
        is_plain_word("try_files"@),
        mark("include"@) == (7nat, 'i', 'l'),
        is_plain_word("include"@),
        mark("ssl_certificate"@) == (15nat, 's', 't'),
        is_plain_word("ssl_certificate"@),
        mark("ssl_certificate_key"@) == (19nat, 's', 'f'),
        is_plain_word("ssl_certificate_key"@),
        mark("location"@) == (8nat, 'l', 't'),
        is_plain_word("location"@),
        mark("add_header"@) == (10nat, 'a', 'e'),
        is_plain_word("add_header"@),
        mark("expires"@) == (7nat, 'e', 'i'),
        is_plain_word("expires"@),
{
    reveal_strlit("if");
    reveal_strlit("try_files");
    reveal_strlit("include");
    reveal_strlit("ssl_certificate");
    reveal_strlit("ssl_certificate_key");
    reveal_strlit("location");
    reveal_strlit("add_header");
    reveal_strlit("expires");
}

/// The marks of some of the names, and that these names are plain words.
proof fn lemma_marks_2()
    ensures
        mark("server_name"@) == (11nat, 's', 'r'),
        is_plain_word("server_name"@),
        mark("map"@) == (3nat, 'm', 'a'),
        is_plain_word("map"@),
        mark("client_max_body_size"@) == (20nat, 'c', '_'),
        is_plain_word("client_max_body_size"@),
        mark("proxy_pass"@) == (10nat, 'p', '_'),
        is_plain_word("proxy_pass"@),
        mark("proxy_set_header"@) == (16nat, 'p', 't'),
        is_plain_word("proxy_set_header"@),
        mark("proxy_method"@) == (12nat, 'p', 'm'),
        is_plain_word("proxy_method"@),
        mark("proxy_cache"@) == (11nat, 'p', '_'),
        is_plain_word("proxy_cache"@),
        mark("proxy_cache_key"@) == (15nat, 'p', 'a'),
        is_plain_word("proxy_cache_key"@),
{
    reveal_strlit("server_name");
    reveal_strlit("map");
    reveal_strlit("client_max_body_size");
    reveal_strlit("proxy_pass");
    reveal_strlit("proxy_set_header");
    reveal_strlit("proxy_method");
    reveal_strlit("proxy_cache");
    reveal_strlit("proxy_cache_key");
}

/// The marks of some of the names, and that these names are plain words.
proof fn lemma_marks_3()
    ensures
        mark("proxy_cache_valid"@) == (17nat, 'p', 'c'),
        is_plain_word("proxy_cache_valid"@),
        mark("proxy_read_timeout"@) == (18nat, 'p', 'd'),
        is_plain_word("proxy_read_timeout"@),
        mark("proxy_connect_timeout"@) == (21nat, 'p', 'e'),
        is_plain_word("proxy_connect_timeout"@),
        mark("proxy_hide_header"@) == (17nat, 'p', 'd'),
        is_plain_word("proxy_hide_header"@),
        mark("proxy_pass_header"@) == (17nat, 'p', 's'),
        is_plain_word("proxy_pass_header"@),
        mark("proxy_pass_request_headers"@) == (26nat, 'p', 'q'),
        is_plain_word("proxy_pass_request_headers"@),
        mark("proxy_pass_request_body"@) == (23nat, 'p', 'r'),
        is_plain_word("proxy_pass_request_body"@),
        mark("proxy_intercept_errors"@) == (22nat, 'p', 'c'),
        is_plain_word("proxy_intercept_errors"@),
{
    reveal_strlit("proxy_cache_valid");
    reveal_strlit("proxy_read_timeout");
    reveal_strlit("proxy_connect_timeout");
    reveal_strlit("proxy_hide_header");
    reveal_strlit("proxy_pass_header");
    reveal_strlit("proxy_pass_request_headers");
    reveal_strlit("proxy_pass_request_body");
    reveal_strlit("proxy_intercept_errors");
}

/// The marks of some of the names, and that these names are plain words.
proof fn lemma_marks_4()
    ensures
        mark("proxy_buffering"@) == (15nat, 'p', 'u'),
        is_plain_word("proxy_buffering"@),
        mark("proxy_ignore_headers"@) == (20nat, 'p', 'r'),
        is_plain_word("proxy_ignore_headers"@),
        mark("proxy_http_version"@) == (18nat, 'p', 'p'),
        is_plain_word("proxy_http_version"@),
        mark("proxy_next_upstream"@) == (19nat, 'p', 't'),
        is_plain_word("proxy_next_upstream"@),
        mark("proxy_next_upstream_tries"@) == (25nat, 'p', 'p'),
        is_plain_word("proxy_next_upstream_tries"@),
        mark("proxy_next_upstream_timeout"@) == (27nat, 'p', 's'),
        is_plain_word("proxy_next_upstream_timeout"@),
        mark("gzip"@) == (4nat, 'g', 'i'),
        is_plain_word("gzip"@),
        mark("gzip_static"@) == (11nat, 'g', 's'),
        is_plain_word("gzip_static"@),
{
    reveal_strlit("proxy_buffering");
    reveal_strlit("proxy_ignore_headers");
    reveal_strlit("proxy_http_version");
    reveal_strlit("proxy_next_upstream");
    reveal_strlit("proxy_next_upstream_tries");
    reveal_strlit("proxy_next_upstream_timeout");
    reveal_strlit("gzip");
    reveal_strlit("gzip_static");
}

/// The marks of some of the names, and that these names are plain words.
proof fn lemma_marks_5()
    ensures
        mark("gzip_proxied"@) == (12nat, 'g', 'r'),
        is_plain_word("gzip_proxied"@),
        mark("error_page"@) == (10nat, 'e', '_'),
        is_plain_word("error_page"@),
        mark("listen"@) == (6nat, 'l', 't'),
        is_plain_word("listen"@),
        mark("limit_except"@) == (12nat, 'l', 'e'),
        is_plain_word("limit_except"@),
        mark("root"@) == (4nat, 'r', 'o'),
        is_plain_word("root"@),
        mark("alias"@) == (5nat, 'a', 'i'),
        is_plain_word("alias"@),
        mark("default_type"@) == (12nat, 'd', 't'),
        is_plain_word("default_type"@),
        mark("internal"@) == (8nat, 'i', 'r'),
        is_plain_word("internal"@),
{
    reveal_strlit("gzip_proxied");
    reveal_strlit("error_page");
    reveal_strlit("listen");
    reveal_strlit("limit_except");
    reveal_strlit("root");
    reveal_strlit("alias");
    reveal_strlit("default_type");
    reveal_strlit("internal");
}

/// The marks of some of the names, and that these names are plain words.
proof fn lemma_marks_6()
    ensures
        mark("etag"@) == (4nat, 'e', 'a'),
        is_plain_word("etag"@),
        mark("server_tokens"@) == (13nat, 's', '_'),
        is_plain_word("server_tokens"@),
        mark("recursive_error_pages"@) == (21nat, 'r', 'e'),
        is_plain_word("recursive_error_pages"@),
        mark("chunked_transfer_encoding"@) == (25nat, 'c', 's'),
        is_plain_word("chunked_transfer_encoding"@),
        mark("keepalive_timeout"@) == (17nat, 'k', 'e'),
        is_plain_word("keepalive_timeout"@),
        mark("error_log"@) == (9nat, 'e', 'r'),
        is_plain_word("error_log"@),
        mark("allow"@) == (5nat, 'a', 'l'),
        is_plain_word("allow"@),
        mark("deny"@) == (4nat, 'd', 'n'),
        is_plain_word("deny"@),
{
    reveal_strlit("etag");
    reveal_strlit("server_tokens");
    reveal_strlit("recursive_error_pages");
    reveal_strlit("chunked_transfer_encoding");
    reveal_strlit("keepalive_timeout");
    reveal_strlit("error_log");
    reveal_strlit("allow");
    reveal_strlit("deny");
}

/// The marks of some of the names, and that these names are plain words.
proof fn lemma_marks_7()
    ensures
        mark("access_log"@) == (10nat, 'a', 's'),
        is_plain_word("access_log"@),
        mark("real_ip_header"@) == (14nat, 'r', '_'),
        is_plain_word("real_ip_header"@),
        mark("real_ip_recursive"@) == (17nat, 'r', 'r'),
        is_plain_word("real_ip_recursive"@),
        mark("set_real_ip_from"@) == (16nat, 's', '_'),
        is_plain_word("set_real_ip_from"@),
        mark("rewrite_by_lua_file"@) == (19nat, 'r', 'y'),
        is_plain_word("rewrite_by_lua_file"@),
        mark("balancer_by_lua_file"@) == (20nat, 'b', 'y'),
        is_plain_word("balancer_by_lua_file"@),
        mark("access_by_lua_file"@) == (18nat, 'a', '_'),
        is_plain_word("access_by_lua_file"@),
        mark("header_filter_by_lua_file"@) == (25nat, 'h', 'r'),
        is_plain_word("header_filter_by_lua_file"@),
{
    reveal_strlit("access_log");
    reveal_strlit("real_ip_header");
    reveal_strlit("real_ip_recursive");
    reveal_strlit("set_real_ip_from");
    reveal_strlit("rewrite_by_lua_file");
    reveal_strlit("balancer_by_lua_file");
    reveal_strlit("access_by_lua_file");
    reveal_strlit("header_filter_by_lua_file");
}

/// The marks of some of the names, and that these names are plain words.
proof fn lemma_marks_8()
    ensures
        mark("content_by_lua_file"@) == (19nat, 'c', 'y'),
        is_plain_word("content_by_lua_file"@),
        mark("body_filter_by_lua_file"@) == (23nat, 'b', '_'),
        is_plain_word("body_filter_by_lua_file"@),
        mark("log_by_lua_file"@) == (15nat, 'l', 'l'),
        is_plain_word("log_by_lua_file"@),
        mark("lua_need_request_body"@) == (21nat, 'l', 'e'),
        is_plain_word("lua_need_request_body"@),
        mark("ssl_certificate_by_lua_file"@) == (27nat, 's', 't'),
        is_plain_word("ssl_certificate_by_lua_file"@),
        mark("ssl_session_fetch_by_lua_file"@) == (29nat, 's', 't'),
        is_plain_word("ssl_session_fetch_by_lua_file"@),
        mark("ssl_session_store_by_lua_file"@) == (29nat, 's', 'o'),
        is_plain_word("ssl_session_store_by_lua_file"@),
        mark("empty_gif"@) == (9nat, 'e', 'y'),
        is_plain_word("empty_gif"@),
{
    reveal_strlit("content_by_lua_file");
    reveal_strlit("body_filter_by_lua_file");
    reveal_strlit("log_by_lua_file");
    reveal_strlit("lua_need_request_body");
    reveal_strlit("ssl_certificate_by_lua_file");
    reveal_strlit("ssl_session_fetch_by_lua_file");
    reveal_strlit("ssl_session_store_by_lua_file");
    reveal_strlit("empty_gif");
}

/// The marks of some of the names, and that these names are plain words.
proof fn lemma_marks_9()
    ensures
        mark("index"@) == (5nat, 'i', 'd'),
        is_plain_word("index"@),
{
    reveal_strlit("index");
}

/// The marks of all names, and that all names are plain words.
pub proof fn lemma_marks()
    ensures
        mark("daemon"@) == (6nat, 'd', 'm'),
        is_plain_word("daemon"@),
        mark("master_process"@) == (14nat, 'm', 'p'),
        is_plain_word("master_process"@),
        mark("worker_processes"@) == (16nat, 'w', 'r'),
        is_plain_word("worker_processes"@),
        mark("http"@) == (4nat, 'h', 't'),
        is_plain_word("http"@),
        mark("server"@) == (6nat, 's', 'v'),
        is_plain_word("server"@),
        mark("rewrite"@) == (7nat, 'r', 'r'),
        is_plain_word("rewrite"@),
        mark("set"@) == (3nat, 's', 'e'),
        is_plain_word("set"@),
        mark("return"@) == (6nat, 'r', 'u'),
        is_plain_word("return"@),
        mark("if"@) == (2nat, 'i', 'f'),
        is_plain_word("if"@),
        mark("try_files"@) == (9nat, 't', 'f'),
        is_plain_word("try_files"@),
        mark("include"@) == (7nat, 'i', 'l'),
        is_plain_word("include"@),
        mark("ssl_certificate"@) == (15nat, 's', 't'),
        is_plain_word("ssl_certificate"@),
        mark("ssl_certificate_key"@) == (19nat, 's', 'f'),
        is_plain_word("ssl_certificate_key"@),
        mark("location"@) == (8nat, 'l', 't'),
        is_plain_word("location"@),
        mark("add_header"@) == (10nat, 'a', 'e'),
        is_plain_word("add_header"@),
        mark("expires"@) == (7nat, 'e', 'i'),
        is_plain_word("expires"@),
        mark("server_name"@) == (11nat, 's', 'r'),
        is_plain_word("server_name"@),
        mark("map"@) == (3nat, 'm', 'a'),
        is_plain_word("map"@),
        mark("client_max_body_size"@) == (20nat, 'c', '_'),
        is_plain_word("client_max_body_size"@),
        mark("proxy_pass"@) == (10nat, 'p', '_'),
        is_plain_word("proxy_pass"@),
        mark("proxy_set_header"@) == (16nat, 'p', 't'),
        is_plain_word("proxy_set_header"@),
        mark("proxy_method"@) == (12nat, 'p', 'm'),
        is_plain_word("proxy_method"@),
        mark("proxy_cache"@) == (11nat, 'p', '_'),
        is_plain_word("proxy_cache"@),
        mark("proxy_cache_key"@) == (15nat, 'p', 'a'),
        is_plain_word("proxy_cache_key"@),
        mark("proxy_cache_valid"@) == (17nat, 'p', 'c'),
        is_plain_word("proxy_cache_valid"@),
        mark("proxy_read_timeout"@) == (18nat, 'p', 'd'),
        is_plain_word("proxy_read_timeout"@),
        mark("proxy_connect_timeout"@) == (21nat, 'p', 'e'),
        is_plain_word("proxy_connect_timeout"@),
        mark("proxy_hide_header"@) == (17nat, 'p', 'd'),
        is_plain_word("proxy_hide_header"@),
        mark("proxy_pass_header"@) == (17nat, 'p', 's'),
        is_plain_word("proxy_pass_header"@),
        mark("proxy_pass_request_headers"@) == (26nat, 'p', 'q'),
        is_plain_word("proxy_pass_request_headers"@),
        mark("proxy_pass_request_body"@) == (23nat, 'p', 'r'),
        is_plain_word("proxy_pass_request_body"@),
        mark("proxy_intercept_errors"@) == (22nat, 'p', 'c'),
        is_plain_word("proxy_intercept_errors"@),
        mark("proxy_buffering"@) == (15nat, 'p', 'u'),
        is_plain_word("proxy_buffering"@),
        mark("proxy_ignore_headers"@) == (20nat, 'p', 'r'),
        is_plain_word("proxy_ignore_headers"@),
        mark("proxy_http_version"@) == (18nat, 'p', 'p'),
        is_plain_word("proxy_http_version"@),
        mark("proxy_next_upstream"@) == (19nat, 'p', 't'),
        is_plain_word("proxy_next_upstream"@),
        mark("proxy_next_upstream_tries"@) == (25nat, 'p', 'p'),
        is_plain_word("proxy_next_upstream_tries"@),
        mark("proxy_next_upstream_timeout"@) == (27nat, 'p', 's'),
        is_plain_word("proxy_next_upstream_timeout"@),
        mark("gzip"@) == (4nat, 'g', 'i'),
        is_plain_word("gzip"@),
        mark("gzip_static"@) == (11nat, 'g', 's'),
        is_plain_word("gzip_static"@),
        mark("gzip_proxied"@) == (12nat, 'g', 'r'),
        is_plain_word("gzip_proxied"@),
        mark("error_page"@) == (10nat, 'e', '_'),
        is_plain_word("error_page"@),
        mark("listen"@) == (6nat, 'l', 't'),
        is_plain_word("listen"@),
        mark("limit_except"@) == (12nat, 'l', 'e'),
        is_plain_word("limit_except"@),
        mark("root"@) == (4nat, 'r', 'o'),
        is_plain_word("root"@),
        mark("alias"@) == (5nat, 'a', 'i'),
        is_plain_word("alias"@),
        mark("default_type"@) == (12nat, 'd', 't'),
        is_plain_word("default_type"@),
        mark("internal"@) == (8nat, 'i', 'r'),
        is_plain_word("internal"@),
        mark("etag"@) == (4nat, 'e', 'a'),
        is_plain_word("etag"@),
        mark("server_tokens"@) == (13nat, 's', '_'),
        is_plain_word("server_tokens"@),
        mark("recursive_error_pages"@) == (21nat, 'r', 'e'),
        is_plain_word("recursive_error_pages"@),
        mark("chunked_transfer_encoding"@) == (25nat, 'c', 's'),
        is_plain_word("chunked_transfer_encoding"@),
        mark("keepalive_timeout"@) == (17nat, 'k', 'e'),
        is_plain_word("keepalive_timeout"@),
        mark("error_log"@) == (9nat, 'e', 'r'),
        is_plain_word("error_log"@),
        mark("allow"@) == (5nat, 'a', 'l'),
        is_plain_word("allow"@),
        mark("deny"@) == (4nat, 'd', 'n'),
        is_plain_word("deny"@),
        mark("access_log"@) == (10nat, 'a', 's'),
        is_plain_word("access_log"@),
        mark("real_ip_header"@) == (14nat, 'r', '_'),
        is_plain_word("real_ip_header"@),
        mark("real_ip_recursive"@) == (17nat, 'r', 'r'),
        is_plain_word("real_ip_recursive"@),
        mark("set_real_ip_from"@) == (16nat, 's', '_'),
        is_plain_word("set_real_ip_from"@),
        mark("rewrite_by_lua_file"@) == (19nat, 'r', 'y'),
        is_plain_word("rewrite_by_lua_file"@),
        mark("balancer_by_lua_file"@) == (20nat, 'b', 'y'),
        is_plain_word("balancer_by_lua_file"@),
        mark("access_by_lua_file"@) == (18nat, 'a', '_'),
        is_plain_word("access_by_lua_file"@),
        mark("header_filter_by_lua_file"@) == (25nat, 'h', 'r'),
        is_plain_word("header_filter_by_lua_file"@),
        mark("content_by_lua_file"@) == (19nat, 'c', 'y'),
        is_plain_word("content_by_lua_file"@),
        mark("body_filter_by_lua_file"@) == (23nat, 'b', '_'),
        is_plain_word("body_filter_by_lua_file"@),
        mark("log_by_lua_file"@) == (15nat, 'l', 'l'),
        is_plain_word("log_by_lua_file"@),
        mark("lua_need_request_body"@) == (21nat, 'l', 'e'),
        is_plain_word("lua_need_request_body"@),
        mark("ssl_certificate_by_lua_file"@) == (27nat, 's', 't'),
        is_plain_word("ssl_certificate_by_lua_file"@),
        mark("ssl_session_fetch_by_lua_file"@) == (29nat, 's', 't'),
        is_plain_word("ssl_session_fetch_by_lua_file"@),
        mark("ssl_session_store_by_lua_file"@) == (29nat, 's', 'o'),
        is_plain_word("ssl_session_store_by_lua_file"@),
        mark("empty_gif"@) == (9nat, 'e', 'y'),
        is_plain_word("empty_gif"@),
        mark("index"@) == (5nat, 'i', 'd'),
        is_plain_word("index"@),
{
    lemma_marks_0();
    lemma_marks_1();
    lemma_marks_2();
    lemma_marks_3();
    lemma_marks_4();
    lemma_marks_5();
    lemma_marks_6();
    lemma_marks_7();
    lemma_marks_8();
    lemma_marks_9();
}

/// No two names of directives are the same word.
pub proof fn lemma_names_distinct()
    ensures
        forall|i: int, j: int|
            0 <= i < j < directive_names().len() ==> #[trigger] directive_names()[i]
                != #[trigger] directive_names()[j],
{
    lemma_marks();
    lemma_names_listed();
    let names = directive_names();
    assert forall|i: int, j: int| 0 <= i < j < names.len() implies #[trigger] names[i]
        != #[trigger] names[j] by {
        assert(mark(names[i]) != mark(names[j]));
    }
}

} // verus!
