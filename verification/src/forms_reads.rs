//! The grammar finds each directive by its name.

use vstd::prelude::*;
use crate::ast::ItemView;
use crate::error::ErrorView;
use crate::forms::{shape, with_toggle, Shape};
use crate::grammar::{block_spec, directive_names, item_spec, leaf_spec};
use crate::helpers::{semi_spec, single_spec, toggle_spec, Parsed};
use crate::names::{lemma_names_distinct, lemma_names_listed};
use crate::tokenizer::Lexed;

verus! {

/// What the grammar makes of the arguments of a directive of the kind of
/// `item` that is a name, a switch, or a name with one value.
pub open spec fn leaf_result(t: Lexed, kw: int, item: ItemView) -> Parsed<ItemView> {
    match shape(item) {
        Shape::Toggle(_) => match toggle_spec(t, kw + 1) {
            Ok((on, j)) => Ok((with_toggle(item, on), j)),
            Err(e) => Err(e),
        },
        Shape::Single(_) => match single_spec(t, kw + 1) {
            Ok((v, j)) => Ok((item.with_values(seq![v]), j)),
            Err(e) => Err(e),
        },
        _ => match semi_spec(t, kw + 1, Seq::empty()) {
            Ok(j) => Ok((item, j)),
            Err(e) => Err(e),
        },
    }
}

/// The grammar reads a switch, a directive with one value and a name
/// alone by its name.
#[verifier::rlimit(100)]
#[verifier::spinoff_prover]
pub proof fn lemma_leaf_read(t: Lexed, kw: int, item: ItemView)
    requires
        t.is_string(kw),
        t.text(kw) == item.directive_name(),
        shape(item) !is Other,
    ensures
        item_spec(t, kw) == Some(leaf_result(t, kw, item)),
{
    reveal(leaf_spec);
    lemma_names_listed();
    lemma_names_distinct();
}

/// The grammar reads each directive with a form of its own by its name.
#[verifier::rlimit(100)]
#[verifier::spinoff_prover]
pub proof fn lemma_named_read(t: Lexed, kw: int)
    requires
        t.is_string(kw),
    ensures
        t.text(kw) == "worker_processes"@ ==> item_spec(t, kw) == Some(crate::grammar::worker_processes_spec(t, kw)),
        t.text(kw) == "try_files"@ ==> item_spec(t, kw) == Some(crate::grammar::try_files_spec(t, kw)),
        t.text(kw) == "server_name"@ ==> item_spec(t, kw) == Some(crate::grammar::server_name_spec(t, kw)),
        t.text(kw) == "map"@ ==> item_spec(t, kw) == Some(crate::grammar::map_spec(t, kw)),
        t.text(kw) == "index"@ ==> item_spec(t, kw) == Some(crate::grammar::index_spec(t, kw)),
        t.text(kw) == "rewrite"@ ==> item_spec(t, kw) == Some(crate::rewrite::rewrite_spec(t, kw)),
        t.text(kw) == "set"@ ==> item_spec(t, kw) == Some(crate::rewrite::set_spec(t, kw)),
        t.text(kw) == "return"@ ==> item_spec(t, kw) == Some(crate::rewrite::return_spec(t, kw)),
        t.text(kw) == "add_header"@ ==> item_spec(t, kw) == Some(crate::headers::add_header_spec(t, kw)),
        t.text(kw) == "expires"@ ==> item_spec(t, kw) == Some(crate::headers::expires_spec(t, kw)),
        t.text(kw) == "proxy_set_header"@ ==> item_spec(t, kw) == Some(crate::proxy::set_header_spec(t, kw)),
        t.text(kw) == "proxy_cache_valid"@ ==> item_spec(t, kw) == Some(crate::proxy::cache_valid_spec(t, kw)),
        t.text(kw) == "proxy_ignore_headers"@ ==> item_spec(t, kw) == Some(crate::proxy::ignore_headers_spec(t, kw)),
        t.text(kw) == "proxy_http_version"@ ==> item_spec(t, kw) == Some(crate::proxy::http_version_spec(t, kw)),
        t.text(kw) == "proxy_next_upstream"@ ==> item_spec(t, kw) == Some(crate::proxy::next_upstream_spec(t, kw)),
        t.text(kw) == "gzip_static"@ ==> item_spec(t, kw) == Some(crate::gzip::gzip_static_spec(t, kw)),
        t.text(kw) == "gzip_proxied"@ ==> item_spec(t, kw) == Some(crate::gzip::gzip_proxied_spec(t, kw)),
        t.text(kw) == "error_page"@ ==> item_spec(t, kw) == Some(crate::http_core::error_page_spec(t, kw)),
        t.text(kw) == "listen"@ ==> item_spec(t, kw) == Some(crate::http_core::listen_spec(t, kw)),
        t.text(kw) == "keepalive_timeout"@ ==> item_spec(t, kw) == Some(crate::http_core::keepalive_timeout_spec(t, kw)),
        t.text(kw) == "error_log"@ ==> item_spec(t, kw) == Some(crate::http_core::error_log_spec(t, kw)),
        t.text(kw) == "access_log"@ ==> item_spec(t, kw) == Some(crate::log::access_log_spec(t, kw)),
        t.text(kw) == "set_real_ip_from"@ ==> item_spec(t, kw) == Some(crate::real_ip::set_real_ip_from_spec(t, kw)),
{
    reveal(leaf_spec);
    lemma_names_listed();
    lemma_names_distinct();
}

/// The grammar reads `http` and `server` by their names.
pub proof fn lemma_block_read(t: Lexed, kw: int)
    requires
        t.is_string(kw),
    ensures
        t.text(kw) == "http"@ ==> item_spec(t, kw) == Some(
            match block_spec(t, kw + 1, Seq::empty()) {
                Ok((b, j)) => Ok::<_, ErrorView>((ItemView::Http(b), j)),
                Err(e) => Err(e),
            },
        ),
        t.text(kw) == "server"@ ==> item_spec(t, kw) == Some(
            match block_spec(t, kw + 1, Seq::empty()) {
                Ok((b, j)) => Ok::<_, ErrorView>((ItemView::Server(b), j)),
                Err(e) => Err(e),
            },
        ),
{
    lemma_names_listed();
    lemma_names_distinct();
    assert(directive_names()[3] != directive_names()[4]);
}

} // verus!
