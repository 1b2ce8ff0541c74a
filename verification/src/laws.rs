//! What holds of the parser and the formatter on every input.

use vstd::prelude::*;
use crate::ast::{DirectiveView, MapPatternView};
use crate::display::{is_reserved, render_pattern};
use crate::error::{ErrorItemView, ErrorView};
use crate::format::Page;
use crate::grammar::{
    directive_names, directives_spec, expected_here, item_spec, leaf_spec, main_spec,
    openresty_spec, parse_spec, pattern_of,
};
use crate::helpers::expected_items;
use crate::text::{is_prefix, is_suffix};
use crate::tokenizer::{lex, Lexed};

verus! {

/// A word that is not among the names of the directives starts no
/// directive.
pub proof fn lemma_unknown_word(t: Lexed, kw: int)
    requires
        !directive_names().contains(t.text(kw)),
    ensures
        item_spec(t, kw) is None,
{
    let name = t.text(kw);
    let names = directive_names();
    assert forall|k: int| 0 <= k < names.len() implies names[k] != name by {
        if names[k] == name {
            assert(names.contains(name));
        }
    }
    assert(names.len() == 73);
    reveal(leaf_spec);
    lemma_unknown_block(t, kw);
    lemma_unknown_main(t, kw);
    lemma_unknown_proxy(t, kw);
    lemma_unknown_core(t, kw);
    lemma_unknown_rest(t, kw);
}

/// A word that is none of the names of the directives with a block is not
/// read as one of them.
proof fn lemma_unknown_block(t: Lexed, kw: int)
    requires
        forall|k: int| 0 <= k < 73 ==> directive_names()[k] != t.text(kw),
    ensures
        item_spec(t, kw) == if t.is_string(kw) {
            leaf_spec(t, kw)
        } else {
            None
        },
{
    let names = directive_names();
    assert(names[3] == "http"@);
    assert(names[4] == "server"@);
    assert(names[13] == "location"@);
    assert(names[43] == "limit_except"@);
    assert(names[8] == "if"@);
}

/// A word that is none of the names of the directives of the main module
/// is not read as one of them.
proof fn lemma_unknown_main(t: Lexed, kw: int)
    requires
        forall|k: int| 0 <= k < 73 ==> directive_names()[k] != t.text(kw),
    ensures
        main_spec(t, kw) is None,
        openresty_spec(t, kw) is None,
{
    let names = directive_names();
    assert(names[0] == "daemon"@);
    assert(names[1] == "master_process"@);
    assert(names[2] == "worker_processes"@);
    assert(names[9] == "try_files"@);
    assert(names[10] == "include"@);
    assert(names[11] == "ssl_certificate"@);
    assert(names[12] == "ssl_certificate_key"@);
    assert(names[16] == "server_name"@);
    assert(names[17] == "map"@);
    assert(names[18] == "client_max_body_size"@);
    assert(names[71] == "empty_gif"@);
    assert(names[72] == "index"@);
    assert(names[60] == "rewrite_by_lua_file"@);
    assert(names[61] == "balancer_by_lua_file"@);
    assert(names[62] == "access_by_lua_file"@);
    assert(names[63] == "header_filter_by_lua_file"@);
    assert(names[64] == "content_by_lua_file"@);
    assert(names[65] == "body_filter_by_lua_file"@);
    assert(names[66] == "log_by_lua_file"@);
    assert(names[67] == "lua_need_request_body"@);
    assert(names[68] == "ssl_certificate_by_lua_file"@);
    assert(names[69] == "ssl_session_fetch_by_lua_file"@);
    assert(names[70] == "ssl_session_store_by_lua_file"@);
}

/// A word that is none of the names of the directives of the proxy
/// module is not read as one of them.
proof fn lemma_unknown_proxy(t: Lexed, kw: int)
    requires
        forall|k: int| 0 <= k < 73 ==> directive_names()[k] != t.text(kw),
    ensures
        crate::proxy::directives_spec(t, kw) is None,
{
    let names = directive_names();
    assert(names[19] == "proxy_pass"@);
    assert(names[20] == "proxy_set_header"@);
    assert(names[21] == "proxy_method"@);
    assert(names[22] == "proxy_cache"@);
    assert(names[23] == "proxy_cache_key"@);
    assert(names[24] == "proxy_cache_valid"@);
    assert(names[25] == "proxy_read_timeout"@);
    assert(names[26] == "proxy_connect_timeout"@);
    assert(names[27] == "proxy_hide_header"@);
    assert(names[28] == "proxy_pass_header"@);
    assert(names[29] == "proxy_pass_request_headers"@);
    assert(names[30] == "proxy_pass_request_body"@);
    assert(names[31] == "proxy_intercept_errors"@);
    assert(names[32] == "proxy_buffering"@);
    assert(names[33] == "proxy_ignore_headers"@);
    assert(names[34] == "proxy_http_version"@);
    assert(names[35] == "proxy_next_upstream"@);
    assert(names[36] == "proxy_next_upstream_tries"@);
    assert(names[37] == "proxy_next_upstream_timeout"@);
}

/// A word that is none of the names of the directives of the core module
/// is not read as one of them.
proof fn lemma_unknown_core(t: Lexed, kw: int)
    requires
        forall|k: int| 0 <= k < 73 ==> directive_names()[k] != t.text(kw),
    ensures
        crate::http_core::directives_spec(t, kw) is None,
{
    let names = directive_names();
    assert(names[41] == "error_page"@);
    assert(names[42] == "listen"@);
    assert(names[44] == "root"@);
    assert(names[45] == "alias"@);
    assert(names[46] == "default_type"@);
    assert(names[47] == "internal"@);
    assert(names[48] == "etag"@);
    assert(names[49] == "server_tokens"@);
    assert(names[50] == "recursive_error_pages"@);
    assert(names[51] == "chunked_transfer_encoding"@);
    assert(names[52] == "keepalive_timeout"@);
    assert(names[53] == "error_log"@);
}

/// A word that is none of the names of the directives of the smaller
/// modules is not read as one of them.
proof fn lemma_unknown_rest(t: Lexed, kw: int)
    requires
        forall|k: int| 0 <= k < 73 ==> directive_names()[k] != t.text(kw),
    ensures
        crate::rewrite::directives_spec(t, kw) is None,
        crate::headers::directives_spec(t, kw) is None,
        crate::gzip::directives_spec(t, kw) is None,
        crate::access::directives_spec(t, kw) is None,
        crate::log::directives_spec(t, kw) is None,
        crate::real_ip::directives_spec(t, kw) is None,
{
    let names = directive_names();
    assert(names[5] == "rewrite"@);
    assert(names[6] == "set"@);
    assert(names[7] == "return"@);
    assert(names[14] == "add_header"@);
    assert(names[15] == "expires"@);
    assert(names[38] == "gzip"@);
    assert(names[39] == "gzip_static"@);
    assert(names[40] == "gzip_proxied"@);
    assert(names[54] == "allow"@);
    assert(names[55] == "deny"@);
    assert(names[56] == "access_log"@);
    assert(names[57] == "real_ip_header"@);
    assert(names[58] == "real_ip_recursive"@);
    assert(names[59] == "set_real_ip_from"@);
}

/// Where a directive may start and a word stands that names no
/// directive, the parser stops with an error at that word. The error says
/// that the word was found and names every directive, in the order of
/// `directive_names`, and then the end of the block or of the text where
/// the list of directives may end.
pub proof fn lemma_unknown_directive(
    t: Lexed,
    i: int,
    acc: Seq<DirectiveView>,
    in_block: bool,
    first: bool,
)
    requires
        t.is_string(i),
        !directive_names().contains(t.text(i)),
    ensures
        directives_spec(t, i, acc, in_block, first) == Err::<(Seq<DirectiveView>, int), _>(
            ErrorView {
                position: t.position(i),
                errors: seq![ErrorItemView::Unexpected(t.text(i))] + expected_items(
                    expected_here(in_block, first),
                ),
            },
        ),
{
    lemma_unknown_word(t, i);
}

/// A text whose first word names no directive is refused with an error
/// at that word that names every directive.
pub proof fn lemma_unknown_first_word(text: Seq<char>)
    requires
        lex(text).is_string(0),
        !directive_names().contains(lex(text).text(0)),
    ensures
        parse_spec(text) == Err::<Seq<DirectiveView>, _>(
            ErrorView {
                position: lex(text).position(0),
                errors: seq![ErrorItemView::Unexpected(lex(text).text(0))] + expected_items(
                    directive_names(),
                ),
            },
        ),
{
    lemma_unknown_directive(lex(text), 0, Seq::empty(), false, true);
}

/// With `hostnames`, a pattern of a `map` block that starts with `*.` is
/// a name under a domain, one that ends with `.*` is a name before any
/// domain, and one that starts with `.` is a domain with all names under
/// it.
pub proof fn lemma_host_patterns(s: Seq<char>)
    requires
        !is_prefix("~"@, s),
        !is_prefix("\\"@, s),
    ensures
        is_prefix("*."@, s) ==> pattern_of(s, true) == MapPatternView::StarSuffix(s.skip(2)),
        !is_prefix("*."@, s) && is_suffix(".*"@, s) ==> pattern_of(s, true)
            == MapPatternView::StarPrefix(s.take(s.len() - 2)),
        !is_prefix("*."@, s) && !is_suffix(".*"@, s) && is_prefix("."@, s) ==> pattern_of(s, true)
            == MapPatternView::Suffix(s.skip(1)),
        pattern_of(s, false) == MapPatternView::Exact(s),
{
}

/// A pattern of a `map` block that is one of the words to which the block
/// gives a meaning is written with a backslash before it. What is
/// written is none of those words, and is read as the same pattern.
pub proof fn lemma_reserved_pattern(v: Seq<char>, hostnames: bool)
    requires
        is_reserved(v),
    ensures
        render_pattern(MapPatternView::Exact(v), Page::blank(4)).text == seq!['\\'] + v,
        !is_reserved(seq!['\\'] + v),
        pattern_of(seq!['\\'] + v, hostnames) == MapPatternView::Exact(v),
{
    reveal_strlit("volatile");
    reveal_strlit("hostnames");
    reveal_strlit("default");
    reveal_strlit("include");
    reveal_strlit("~");
    reveal_strlit("\\");
    reveal_strlit("*.");
    reveal_strlit(".*");
    reveal_strlit(".");
    let text = seq!['\\'] + v;
    assert(Seq::<char>::empty() + seq!['\\'] + v =~= text);
    assert(text[0] == '\\');
    assert(text.skip(1) =~= v);
    assert(text.subrange(0, 1) =~= seq!['\\']);
    assert("\\"@ =~= seq!['\\']);
    assert(is_prefix("\\"@, text));
    assert(!is_prefix("~"@, text)) by {
        if is_prefix("~"@, text) {
            assert(text.subrange(0, 1)[0] == '~');
        }
    }
    assert(!is_prefix("*."@, v)) by {
        if is_prefix("*."@, v) {
            assert(v.subrange(0, 2)[0] == '*');
        }
    }
    assert(!is_prefix("."@, v)) by {
        if is_prefix("."@, v) {
            assert(v.subrange(0, 1)[0] == '.');
        }
    }
    assert(!is_suffix(".*"@, v)) by {
        if is_suffix(".*"@, v) {
            assert(v.subrange(v.len() - 2, v.len() as int)[1] == '*');
        }
    }
    assert(!is_reserved(text)) by {
        if is_reserved(text) {
            assert(text[0] != '\\');
        }
    }
}

} // verus!
