//! The directives of the headers module.

use vstd::prelude::*;
use crate::ast::{AddHeader, AddHeaderView, Expires, ExpiresView, Item, ItemView};
use crate::error::ParseError;
use crate::helpers::{
    family_agrees, no_names, one_name, semi_at, semi_spec, two_names, value_at, value_spec,
    Parsed,
};
use crate::text::str_eq;
use crate::tokenizer::{Lexed, TokenList};

verus! {

/// `add_header field value [always];`
pub open spec fn add_header_spec(t: Lexed, kw: int) -> Parsed<ItemView> {
    match value_spec(t, kw + 1, seq!["String"@]) {
        Err(e) => Err(e),
        Ok((field, _)) => match value_spec(t, kw + 2, seq!["String"@]) {
            Err(e) => Err(e),
            Ok((value, _)) => {
                let always = t.is_word(kw + 3, "always"@);
                let end = if always {
                    semi_spec(t, kw + 4, Seq::empty())
                } else {
                    semi_spec(t, kw + 3, seq!["always"@])
                };
                match end {
                    Ok(j) => Ok((ItemView::AddHeader(AddHeaderView { field, value, always }), j)),
                    Err(e) => Err(e),
                }
            },
        },
    }
}

/// `expires [modified] value;`
pub open spec fn expires_spec(t: Lexed, kw: int) -> Parsed<ItemView> {
    let modified = t.is_word(kw + 1, "modified"@);
    let read = if modified {
        value_spec(t, kw + 2, seq!["String"@])
    } else {
        value_spec(t, kw + 1, seq!["modified"@, "String"@])
    };
    match read {
        Err(e) => Err(e),
        Ok((value, i)) => match semi_spec(t, i, Seq::empty()) {
            Ok(j) => Ok((ItemView::Expires(ExpiresView { modified, value }), j)),
            Err(e) => Err(e),
        },
    }
}

/// What the headers module makes of the directive that starts at `kw`.
pub open spec fn directives_spec(t: Lexed, kw: int) -> Option<Parsed<ItemView>> {
    let name = t.text(kw);
    if name == "add_header"@ {
        Some(add_header_spec(t, kw))
    } else if name == "expires"@ {
        Some(expires_spec(t, kw))
    } else {
        None
    }
}

/// Reads `add_header field value [always];`.
fn add_header(t: &TokenList, kw: usize) -> (r: Result<(Item, usize), ParseError>)
    requires
        kw < t.tokens.len(),
    ensures
        family_agrees(t, kw, Some(r), Some(add_header_spec(t@, kw as int))),
{
    let (field, _) = match value_at(t, kw + 1, &one_name("String")) {
        Ok(p) => p,
        Err(e) => {
            return Err(e);
        },
    };
    let (value, _) = match value_at(t, kw + 2, &one_name("String")) {
        Ok(p) => p,
        Err(e) => {
            return Err(e);
        },
    };
    let always = t.is_word(kw + 3, "always");
    let end = if always {
        semi_at(t, kw + 4, no_names())
    } else {
        semi_at(t, kw + 3, one_name("always"))
    };
    match end {
        Ok(j) => Ok((Item::AddHeader(AddHeader { field, value, always }), j)),
        Err(e) => Err(e),
    }
}

/// Reads `expires [modified] value;`.
fn expires(t: &TokenList, kw: usize) -> (r: Result<(Item, usize), ParseError>)
    requires
        kw < t.tokens.len(),
    ensures
        family_agrees(t, kw, Some(r), Some(expires_spec(t@, kw as int))),
{
    let modified = t.is_word(kw + 1, "modified");
    let read = if modified {
        value_at(t, kw + 2, &one_name("String"))
    } else {
        value_at(t, kw + 1, &two_names("modified", "String"))
    };
    match read {
        Err(e) => Err(e),
        Ok((value, i)) => match semi_at(t, i, no_names()) {
            Ok(j) => Ok((Item::Expires(Expires { modified, value }), j)),
            Err(e) => Err(e),
        },
    }
}

/// Reads a directive of the headers module whose name stands at `kw`.
pub fn directives(t: &TokenList, kw: usize) -> (r: Option<Result<(Item, usize), ParseError>>)
    requires
        kw < t.tokens.len(),
    ensures
        family_agrees(t, kw, r, directives_spec(t@, kw as int)),
{
    let name = t.text(kw);
    if str_eq(name, "add_header") {
        Some(add_header(t, kw))
    } else if str_eq(name, "expires") {
        Some(expires(t, kw))
    } else {
        None
    }
}

} // verus!
