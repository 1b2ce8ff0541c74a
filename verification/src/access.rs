//! The directives of the access module, and the sources of requests that
//! they name.

use vstd::prelude::*;
use vstd::string::StringExecFns;
use crate::ast::{Item, ItemView, Source};
use crate::error::{ErrorItem, ErrorItemView, ParseError};
use crate::helpers::{
    error_at, family_agrees, no_names, number_message, number_text, one_name, semi_at,
    semi_spec, unexpected, unexpected_at, Parsed,
};
use crate::net::{ip_spec, IpAddress};
use crate::text::{
    chars_of, find_char, number_spec, parse_number, position_of, same_text, slice_of, str_eq,
    tail_of,
};
use crate::tokenizer::{Lexed, TokenList};

verus! {

/// An address, or a network: an address and the length of its prefix.
pub open spec fn network_spec(s: Seq<char>) -> Result<(IpAddress, Option<u8>), ErrorItemView> {
    let slash = find_char(s, '/', 0);
    match ip_spec(s.subrange(0, slash)) {
        None => Err(ErrorItemView::Message("invalid IP address syntax"@)),
        Some(ip) => if slash < s.len() {
            match number_spec(s.skip(slash + 1), 0, 255) {
                Ok(n) => Ok((ip, Some(n as u8))),
                Err(e) => Err(ErrorItemView::Unexpected("invalid subnet: "@ + number_text(e))),
            }
        } else {
            Ok((ip, None))
        },
    }
}

/// The source that the argument of `allow` or `deny` names.
pub open spec fn source_spec(s: Seq<char>) -> Result<Source, ErrorItemView> {
    if s == "all"@ {
        Ok(Source::All)
    } else if s == "unix:"@ {
        Ok(Source::Unix)
    } else {
        match network_spec(s) {
            Ok((ip, Some(bits))) => Ok(Source::Network(ip, bits)),
            Ok((ip, None)) => Ok(Source::Ip(ip)),
            Err(e) => Err(e),
        }
    }
}

/// The argument of `allow` or `deny` and the semicolon behind it.
pub open spec fn source_at(t: Lexed, kw: int) -> Parsed<Source> {
    if t.is_string(kw + 1) {
        match source_spec(t.text(kw + 1)) {
            Err(e) => Err(error_at(t.position(kw), e)),
            Ok(source) => match semi_spec(t, kw + 2, Seq::empty()) {
                Ok(j) => Ok((source, j)),
                Err(e) => Err(e),
            },
        }
    } else {
        Err(unexpected_at(t, kw + 1, seq!["String"@]))
    }
}

/// What the access module makes of the directive that starts at `kw`.
pub open spec fn directives_spec(t: Lexed, kw: int) -> Option<Parsed<ItemView>> {
    let name = t.text(kw);
    if name == "allow"@ {
        Some(
            match source_at(t, kw) {
                Ok((source, j)) => Ok((ItemView::Allow(source), j)),
                Err(e) => Err(e),
            },
        )
    } else if name == "deny"@ {
        Some(
            match source_at(t, kw) {
                Ok((source, j)) => Ok((ItemView::Deny(source), j)),
                Err(e) => Err(e),
            },
        )
    } else {
        None
    }
}

/// Reads an address, or an address and the length of a prefix.
pub fn parse_network(s: &Vec<char>) -> (r: Result<(IpAddress, Option<u8>), ErrorItem>)
    ensures
        match network_spec(s@) {
            Ok(n) => r == Ok::<_, ErrorItem>(n),
            Err(e) => r matches Err(x) && x@ == e,
        },
{
    let slash = position_of(s, '/');
    let head = slice_of(s, 0, slash);
    match IpAddress::parse(&head) {
        None => Err(ErrorItem::Message(String::from_str("invalid IP address syntax"))),
        Some(ip) => {
            if slash < s.len() {
                let tail = tail_of(s, slash + 1);
                match parse_number(&tail, 0, 255) {
                    Ok(n) => Ok((ip, Some(n as u8))),
                    Err(e) => {
                        let mut text = String::from_str("invalid subnet: ");
                        text.append(number_message(e));
                        Err(ErrorItem::Unexpected(text))
                    },
                }
            } else {
                Ok((ip, None))
            }
        },
    }
}

/// Reads the source that the argument of `allow` or `deny` names.
pub fn parse_source(s: &Vec<char>) -> (r: Result<Source, ErrorItem>)
    ensures
        match source_spec(s@) {
            Ok(n) => r == Ok::<_, ErrorItem>(n),
            Err(e) => r matches Err(x) && x@ == e,
        },
{
    if same_text(s, "all") {
        Ok(Source::All)
    } else if same_text(s, "unix:") {
        Ok(Source::Unix)
    } else {
        match parse_network(s) {
            Ok((ip, Some(bits))) => Ok(Source::Network(ip, bits)),
            Ok((ip, None)) => Ok(Source::Ip(ip)),
            Err(e) => Err(e),
        }
    }
}

/// Reads the argument of `allow` or `deny` and the semicolon behind it.
fn source(t: &TokenList, kw: usize) -> (r: Result<(Source, usize), ParseError>)
    requires
        kw < t.tokens.len(),
    ensures
        crate::helpers::agree_plain(r, source_at(t@, kw as int)),
        r matches Ok((_, k)) ==> kw < k <= t.tokens.len(),
{
    if t.is_string(kw + 1) {
        let text = chars_of(t.text(kw + 1));
        match parse_source(&text) {
            Err(e) => Err(ParseError::single(t.position(kw), e)),
            Ok(source) => match semi_at(t, kw + 2, no_names()) {
                Ok(j) => Ok((source, j)),
                Err(e) => Err(e),
            },
        }
    } else {
        Err(unexpected(t, kw + 1, &one_name("String")))
    }
}

/// Reads a directive of the access module whose name stands at `kw`.
pub fn directives(t: &TokenList, kw: usize) -> (r: Option<Result<(Item, usize), ParseError>>)
    requires
        kw < t.tokens.len(),
    ensures
        family_agrees(t, kw, r, directives_spec(t@, kw as int)),
{
    let name = t.text(kw);
    if str_eq(name, "allow") {
        Some(
            match source(t, kw) {
                Ok((source, j)) => Ok((Item::Allow(source), j)),
                Err(e) => Err(e),
            },
        )
    } else if str_eq(name, "deny") {
        Some(
            match source(t, kw) {
                Ok((source, j)) => Ok((Item::Deny(source), j)),
                Err(e) => Err(e),
            },
        )
    } else {
        None
    }
}

} // verus!
