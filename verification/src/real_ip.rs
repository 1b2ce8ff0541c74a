//! The directives of the realip module.

use vstd::prelude::*;
use crate::access::{network_spec, parse_network};
use crate::ast::{Item, ItemView, RealIpFrom};
use crate::error::{ErrorItem, ErrorItemView, ParseError};
use crate::helpers::{
    error_at, family_agrees, no_names, one_name, semi_at, semi_spec, single_at, single_spec,
    toggle_at, toggle_spec, unexpected, unexpected_at, Parsed,
};
use crate::text::{chars_of, same_text, str_eq};
use crate::tokenizer::{Lexed, TokenList};

verus! {

/// The source that the argument of `set_real_ip_from` names.
pub open spec fn source_spec(s: Seq<char>) -> Result<RealIpFrom, ErrorItemView> {
    if s == "unix:"@ {
        Ok(RealIpFrom::Unix)
    } else {
        match network_spec(s) {
            Ok((ip, Some(bits))) => Ok(RealIpFrom::Network(ip, bits)),
            Ok((ip, None)) => Ok(RealIpFrom::Ip(ip)),
            Err(e) => Err(e),
        }
    }
}

/// `set_real_ip_from source;`
pub open spec fn set_real_ip_from_spec(t: Lexed, kw: int) -> Parsed<ItemView> {
    if t.is_string(kw + 1) {
        match source_spec(t.text(kw + 1)) {
            Err(e) => Err(error_at(t.position(kw + 1), e)),
            Ok(source) => match semi_spec(t, kw + 2, Seq::empty()) {
                Ok(j) => Ok((ItemView::SetRealIpFrom(source), j)),
                Err(e) => Err(e),
            },
        }
    } else {
        Err(unexpected_at(t, kw + 1, seq!["String"@]))
    }
}

/// What the realip module makes of the directive that starts at `kw`.
pub open spec fn directives_spec(t: Lexed, kw: int) -> Option<Parsed<ItemView>> {
    let name = t.text(kw);
    if name == "real_ip_header"@ {
        Some(
            match single_spec(t, kw + 1) {
                Ok((v, j)) => Ok((ItemView::RealIpHeader(v), j)),
                Err(e) => Err(e),
            },
        )
    } else if name == "real_ip_recursive"@ {
        Some(
            match toggle_spec(t, kw + 1) {
                Ok((on, j)) => Ok((ItemView::RealIpRecursive(on), j)),
                Err(e) => Err(e),
            },
        )
    } else if name == "set_real_ip_from"@ {
        Some(set_real_ip_from_spec(t, kw))
    } else {
        None
    }
}

/// Reads the source that the argument of `set_real_ip_from` names.
pub fn parse_source(s: &Vec<char>) -> (r: Result<RealIpFrom, ErrorItem>)
    ensures
        match source_spec(s@) {
            Ok(n) => r == Ok::<_, ErrorItem>(n),
            Err(e) => r matches Err(x) && x@ == e,
        },
{
    if same_text(s, "unix:") {
        Ok(RealIpFrom::Unix)
    } else {
        match parse_network(s) {
            Ok((ip, Some(bits))) => Ok(RealIpFrom::Network(ip, bits)),
            Ok((ip, None)) => Ok(RealIpFrom::Ip(ip)),
            Err(e) => Err(e),
        }
    }
}

/// Reads `set_real_ip_from source;`.
fn set_real_ip_from(t: &TokenList, kw: usize) -> (r: Result<(Item, usize), ParseError>)
    requires
        kw < t.tokens.len(),
    ensures
        family_agrees(t, kw, Some(r), Some(set_real_ip_from_spec(t@, kw as int))),
{
    if t.is_string(kw + 1) {
        let text = chars_of(t.text(kw + 1));
        match parse_source(&text) {
            Err(e) => Err(ParseError::single(t.position(kw + 1), e)),
            Ok(source) => match semi_at(t, kw + 2, no_names()) {
                Ok(j) => Ok((Item::SetRealIpFrom(source), j)),
                Err(e) => Err(e),
            },
        }
    } else {
        Err(unexpected(t, kw + 1, &one_name("String")))
    }
}

/// Reads a directive of the realip module whose name stands at `kw`.
pub fn directives(t: &TokenList, kw: usize) -> (r: Option<Result<(Item, usize), ParseError>>)
    requires
        kw < t.tokens.len(),
    ensures
        family_agrees(t, kw, r, directives_spec(t@, kw as int)),
{
    let name = t.text(kw);
    if str_eq(name, "real_ip_header") {
        Some(
            match single_at(t, kw + 1) {
                Ok((v, j)) => Ok((Item::RealIpHeader(v), j)),
                Err(e) => Err(e),
            },
        )
    } else if str_eq(name, "real_ip_recursive") {
        Some(
            match toggle_at(t, kw + 1) {
                Ok((on, j)) => Ok((Item::RealIpRecursive(on), j)),
                Err(e) => Err(e),
            },
        )
    } else if str_eq(name, "set_real_ip_from") {
        Some(set_real_ip_from(t, kw))
    } else {
        None
    }
}

} // verus!
